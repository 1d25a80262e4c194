//! The files that are offered for deletion.

use vstd::prelude::*;
use vstd::seq_lib::{to_multiset_contains, to_multiset_len, to_multiset_remove};

verus! {

/// A file that may be deleted: its size as it was when the tree was read,
/// the path by which it is deleted, and the name under which it is shown.
#[derive(Clone, Debug, PartialEq, Eq)]
pub struct LameFile {
    pub size: u64,
    pub path: String,
    pub name: String,
}

/// The sizes of `files`, added up.
pub open spec fn size_sum(files: Seq<LameFile>) -> nat
    decreases files.len(),
{
    if files.len() == 0 {
        0
    } else {
        size_sum(files.drop_last()) + files.last().size as nat
    }
}

/// Whether `files` is in order of size, the largest first.
pub open spec fn sorted_by_size(files: Seq<LameFile>) -> bool {
    forall|i: int, j: int| 0 <= i <= j < files.len() ==> files[i].size >= files[j].size
}

/// Whether `files` is in order of size, the smallest first.
pub open spec fn rising_by_size(files: Seq<LameFile>) -> bool {
    forall|i: int, j: int| 0 <= i <= j < files.len() ==> files[i].size <= files[j].size
}

/// Whether no file of `low` is larger than any file of `high`.
pub open spec fn none_larger(low: Seq<LameFile>, high: Seq<LameFile>) -> bool {
    forall|i: int, j: int|
        0 <= i < low.len() && 0 <= j < high.len() ==> (#[trigger] low[i]).size <= (
        #[trigger] high[j]).size
}

/// The sum of the sizes grows by the size of a file that is added at the end.
pub proof fn lemma_size_sum_push(files: Seq<LameFile>, file: LameFile)
    ensures
        size_sum(files.push(file)) == size_sum(files) + file.size,
{
    assert(files.push(file).drop_last() =~= files);
}

/// The sum of the sizes of two lists, one after the other.
pub proof fn lemma_size_sum_concat(first: Seq<LameFile>, second: Seq<LameFile>)
    ensures
        size_sum(first + second) == size_sum(first) + size_sum(second),
    decreases second.len(),
{
    if second.len() == 0 {
        assert(first + second =~= first);
    } else {
        lemma_size_sum_concat(first, second.drop_last());
        assert((first + second).drop_last() =~= first + second.drop_last());
    }
}

/// The sum of the sizes without the file at `index`.
proof fn lemma_size_sum_remove(files: Seq<LameFile>, index: int)
    requires
        0 <= index < files.len(),
    ensures
        size_sum(files.remove(index)) + files[index].size == size_sum(files),
{
    let before = files.subrange(0, index);
    let after = files.subrange(index + 1, files.len() as int);
    lemma_size_sum_concat(before, after);
    lemma_size_sum_push(before, files[index]);
    lemma_size_sum_concat(before.push(files[index]), after);
    assert(files.remove(index) =~= before + after);
    assert(files =~= before.push(files[index]) + after);
}

/// Two lists that hold the same files, in whatever order, have the same sum
/// of sizes.
pub proof fn lemma_size_sum_of_rearranged(first: Seq<LameFile>, second: Seq<LameFile>)
    requires
        first.to_multiset() == second.to_multiset(),
    ensures
        size_sum(first) == size_sum(second),
    decreases first.len(),
{
    to_multiset_len(first);
    to_multiset_len(second);
    if first.len() > 0 {
        let file = first.last();
        assert(first.contains(file)) by {
            assert(first[first.len() - 1] == file);
        }
        to_multiset_contains(first, file);
        to_multiset_contains(second, file);
        let index = choose|index: int| 0 <= index < second.len() && second[index] == file;
        assert(first.drop_last() =~= first.remove(first.len() - 1));
        to_multiset_remove(first, first.len() - 1);
        to_multiset_remove(second, index);
        lemma_size_sum_of_rearranged(first.drop_last(), second.remove(index));
        lemma_size_sum_remove(second, index);
    }
}

} // verus!
