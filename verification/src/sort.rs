//! Ranking files by size.

use vstd::prelude::*;
use vstd::multiset::Multiset;
use vstd::seq_lib::{lemma_multiset_commutative, to_multiset_build, to_multiset_contains, to_multiset_remove};
use crate::files::{LameFile, none_larger, rising_by_size, sorted_by_size};

verus! {

/// Moving the last file of `from` to the end of `to` takes it out of the one
/// and puts it into the other.
proof fn lemma_moved(from: Seq<LameFile>, to: Seq<LameFile>, file: LameFile)
    requires
        from.len() > 0,
        from.last() == file,
    ensures
        from.to_multiset().count(file) > 0,
        from.remove(from.len() - 1).to_multiset() == from.to_multiset().remove(file),
        to.push(file).to_multiset() == to.to_multiset().insert(file),
{
    assert(from.contains(file)) by {
        assert(from[from.len() - 1] == file);
    }
    to_multiset_contains(from, file);
    to_multiset_remove(from, from.len() - 1);
    to_multiset_build(to, file);
}

/// A list without files holds nothing.
proof fn lemma_none_held()
    ensures
        Seq::<LameFile>::empty().to_multiset() == Multiset::<LameFile>::empty(),
{
    broadcast use vstd::multiset::group_multiset_axioms;

    let none = Seq::<LameFile>::empty();
    lemma_multiset_commutative(none, none);
    assert(none + none =~= none);
    assert(none.to_multiset() =~= Multiset::<LameFile>::empty());
}

/// Merges two ranked lists into one, smallest file first.
fn merge_rising(left: Vec<LameFile>, right: Vec<LameFile>) -> (rising: Vec<LameFile>)
    requires
        sorted_by_size(left@),
        sorted_by_size(right@),
    ensures
        rising_by_size(rising@),
        rising@.to_multiset() == left@.to_multiset().add(right@.to_multiset()),
{
    broadcast use vstd::multiset::group_multiset_axioms;

    let ghost all = left@.to_multiset().add(right@.to_multiset());
    let mut left = left;
    let mut right = right;
    let mut rising: Vec<LameFile> = Vec::new();
    proof {
        lemma_none_held();
        assert(rising@ =~= Seq::<LameFile>::empty());
        assert(rising@.to_multiset().add(left@.to_multiset()).add(right@.to_multiset()) =~= all);
    }
    while left.len() > 0 || right.len() > 0
        invariant
            sorted_by_size(left@),
            sorted_by_size(right@),
            rising_by_size(rising@),
            none_larger(rising@, left@),
            none_larger(rising@, right@),
            rising@.to_multiset().add(left@.to_multiset()).add(right@.to_multiset()) == all,
        decreases left.len() + right.len(),
    {
        let from_left = if left.len() == 0 {
            false
        } else if right.len() == 0 {
            true
        } else {
            left[left.len() - 1].size <= right[right.len() - 1].size
        };
        let ghost before_left = left@;
        let ghost before_right = right@;
        let ghost before_rising = rising@;
        if from_left {
            let file = left.pop().unwrap();
            assert(left@ =~= before_left.remove(before_left.len() - 1));
            proof {
                lemma_moved(before_left, before_rising, file);
            }
            assert(forall|j: int| 0 <= j < before_right.len() ==> file.size <= before_right[j].size) by {
                if before_right.len() > 0 {
                    assert(file.size <= before_right[before_right.len() - 1].size);
                }
            }
            rising.push(file);
        } else {
            let file = right.pop().unwrap();
            assert(right@ =~= before_right.remove(before_right.len() - 1));
            proof {
                lemma_moved(before_right, before_rising, file);
            }
            assert(forall|j: int| 0 <= j < before_left.len() ==> file.size <= before_left[j].size) by {
                if before_left.len() > 0 {
                    assert(file.size <= before_left[before_left.len() - 1].size);
                }
            }
            rising.push(file);
        }
        assert(rising@.to_multiset().add(left@.to_multiset()).add(right@.to_multiset()) =~= all);
    }
    proof {
        lemma_none_held();
        assert(left@ =~= Seq::<LameFile>::empty());
        assert(right@ =~= Seq::<LameFile>::empty());
        assert(rising@.to_multiset() =~= all);
    }
    rising
}

/// Turns a list that has the smallest file first into one that has the
/// largest first.
fn turn_around(rising: Vec<LameFile>) -> (ranked: Vec<LameFile>)
    requires
        rising_by_size(rising@),
    ensures
        sorted_by_size(ranked@),
        ranked@.to_multiset() == rising@.to_multiset(),
{
    broadcast use vstd::multiset::group_multiset_axioms;

    let ghost all = rising@.to_multiset();
    let mut rising = rising;
    let mut ranked: Vec<LameFile> = Vec::new();
    proof {
        lemma_none_held();
        assert(ranked@ =~= Seq::<LameFile>::empty());
        assert(ranked@.to_multiset().add(rising@.to_multiset()) =~= all);
    }
    while rising.len() > 0
        invariant
            rising_by_size(rising@),
            sorted_by_size(ranked@),
            none_larger(rising@, ranked@),
            ranked@.to_multiset().add(rising@.to_multiset()) == all,
        decreases rising.len(),
    {
        let ghost before = rising@;
        let file = rising.pop().unwrap();
        assert(rising@ =~= before.remove(before.len() - 1));
        proof {
            lemma_moved(before, ranked@, file);
        }
        ranked.push(file);
        assert(ranked@.to_multiset().add(rising@.to_multiset()) =~= all);
    }
    proof {
        lemma_none_held();
        assert(rising@ =~= Seq::<LameFile>::empty());
        assert(ranked@.to_multiset() =~= all);
    }
    ranked
}

/// Ranks `files` by size, the largest first. Files of one size come out in
/// no particular order.
pub fn sort_by_size(files: Vec<LameFile>) -> (ranked: Vec<LameFile>)
    ensures
        sorted_by_size(ranked@),
        ranked@.to_multiset() == files@.to_multiset(),
    decreases files.len(),
{
    let count = files.len();
    if count <= 1 {
        return files;
    }
    let mut first = files;
    let second = first.split_off(count / 2);
    proof {
        assert(files@ =~= first@ + second@);
        lemma_multiset_commutative(first@, second@);
    }
    let first = sort_by_size(first);
    let second = sort_by_size(second);
    turn_around(merge_rising(first, second))
}

} // verus!
