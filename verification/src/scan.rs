//! Reading a directory tree: which files are offered, and how much the tree
//! holds.
//!
//! The walk itself happens outside this crate. It reports what it met as a
//! list of [`WalkEvent`]s, in the order of the walk, and [`get_lame_files`]
//! turns that list into the ranked candidates and the size of the whole tree.

use vstd::prelude::*;
use vstd::string::*;
use vstd::seq_lib::to_multiset_contains;
use crate::files::{LameFile, lemma_size_sum_of_rearranged, lemma_size_sum_push, size_sum, sorted_by_size};
use crate::sort::sort_by_size;
use crate::time::{Timestamp, meets_time_condition, passes};

verus! {

/// What the walk read of one entry of the tree.
#[derive(Clone, Debug)]
pub struct FileEntry {
    pub path: String,
    pub name: String,
    pub size: u64,
    pub is_file: bool,
    pub created: Timestamp,
    pub modified: Timestamp,
    pub accessed: Timestamp,
}

/// One step of the walk: an entry that was read, or a place that could not
/// be read. `depth` is 0 for the root of the walk itself.
#[derive(Clone, Debug)]
pub enum WalkEvent {
    Found(FileEntry),
    Unreadable { depth: usize, message: String },
}

/// The root of the walk could not be read.
#[derive(Clone, Debug, PartialEq, Eq)]
pub struct ScanError {
    pub message: String,
}

/// Whether `entry` is offered: a regular file that is old enough in each of
/// its three times.
pub open spec fn eligible(
    now: Timestamp,
    min_created: u64,
    min_modified: u64,
    min_accessed: u64,
    entry: FileEntry,
) -> bool {
    &&& entry.is_file
    &&& passes(now, min_created, entry.created)
    &&& passes(now, min_modified, entry.modified)
    &&& passes(now, min_accessed, entry.accessed)
}

/// The candidate that an offered entry becomes.
pub open spec fn candidate_of(entry: FileEntry) -> LameFile {
    LameFile { size: entry.size, path: entry.path, name: entry.name }
}

/// The candidates among `events`, in the order of the walk.
pub open spec fn candidates(
    events: Seq<WalkEvent>,
    now: Timestamp,
    min_created: u64,
    min_modified: u64,
    min_accessed: u64,
) -> Seq<LameFile>
    decreases events.len(),
{
    if events.len() == 0 {
        Seq::empty()
    } else {
        let earlier = candidates(events.drop_last(), now, min_created, min_modified, min_accessed);
        match events.last() {
            WalkEvent::Found(entry) => if eligible(
                now,
                min_created,
                min_modified,
                min_accessed,
                entry,
            ) {
                earlier.push(candidate_of(entry))
            } else {
                earlier
            },
            WalkEvent::Unreadable { .. } => earlier,
        }
    }
}

/// The sizes of all regular files among `events`, added up, whether they
/// are offered or not.
pub open spec fn regular_size(events: Seq<WalkEvent>) -> nat
    decreases events.len(),
{
    if events.len() == 0 {
        0
    } else {
        regular_size(events.drop_last()) + match events.last() {
            WalkEvent::Found(entry) => if entry.is_file {
                entry.size as nat
            } else {
                0
            },
            WalkEvent::Unreadable { .. } => 0,
        }
    }
}

/// Whether `event` says that the root of the walk could not be read.
pub open spec fn is_root_failure(event: WalkEvent) -> bool {
    event matches WalkEvent::Unreadable { depth, .. } && depth == 0
}

/// The first failure of the root among `events`, if there is one.
pub open spec fn root_failure(events: Seq<WalkEvent>) -> Option<WalkEvent>
    decreases events.len(),
{
    if events.len() == 0 {
        None
    } else if is_root_failure(events.first()) {
        Some(events.first())
    } else {
        root_failure(events.drop_first())
    }
}

/// The line that reports a place below the root that was passed over.
pub open spec fn skipped_line(message: Seq<char>) -> Seq<char> {
    message + ". Skipping..."@
}

/// The lines for the places below the root that could not be read, in the
/// order of the walk.
pub open spec fn skipped_lines(events: Seq<WalkEvent>) -> Seq<Seq<char>>
    decreases events.len(),
{
    if events.len() == 0 {
        Seq::empty()
    } else {
        let earlier = skipped_lines(events.drop_last());
        match events.last() {
            WalkEvent::Unreadable { depth, message } => if depth == 0 {
                earlier
            } else {
                earlier.push(skipped_line(message@))
            },
            WalkEvent::Found(_) => earlier,
        }
    }
}

/// The texts of `lines`.
pub open spec fn texts(lines: Seq<String>) -> Seq<Seq<char>> {
    lines.map_values(|line: String| line@)
}

/// What a walk found: the size of all regular files of the tree, the
/// candidates ranked by size, and a line for each place that was passed over.
pub struct Scan {
    total_size: u64,
    files: Vec<LameFile>,
    skipped: Vec<String>,
}

impl Scan {
    /// The size of all regular files of the tree.
    pub closed spec fn total(self) -> nat {
        self.total_size as nat
    }

    /// The candidates, largest first.
    pub closed spec fn ranked(self) -> Seq<LameFile> {
        self.files@
    }

    /// The lines for the places that were passed over.
    pub closed spec fn notes(self) -> Seq<Seq<char>> {
        texts(self.skipped@)
    }

    /// The candidates are ranked, and the tree is at least as large as all
    /// of them together.
    pub open spec fn wf(self) -> bool {
        &&& sorted_by_size(self.ranked())
        &&& size_sum(self.ranked()) <= self.total()
    }

    /// The size of all regular files of the tree.
    pub fn total_size(&self) -> (total: u64)
        ensures
            total == self.total(),
    {
        self.total_size
    }

    /// The candidates, largest first.
    pub fn files(&self) -> (files: &Vec<LameFile>)
        ensures
            files@ == self.ranked(),
    {
        &self.files
    }

    /// The lines for the places that were passed over.
    pub fn skipped(&self) -> (lines: &Vec<String>)
        ensures
            texts(lines@) == self.notes(),
    {
        &self.skipped
    }

    /// Hands out the size of the tree and the candidates.
    pub fn into_parts(self) -> (parts: (u64, Vec<LameFile>))
        ensures
            parts.0 == self.total(),
            parts.1@ == self.ranked(),
    {
        (self.total_size, self.files)
    }
}

/// Whether one entry is offered.
pub fn is_eligible(
    now: Timestamp,
    min_created: u64,
    min_modified: u64,
    min_accessed: u64,
    entry: &FileEntry,
) -> (offered: bool)
    ensures
        offered == eligible(now, min_created, min_modified, min_accessed, *entry),
{
    entry.is_file && meets_time_condition(now, min_created, entry.created)
        && meets_time_condition(now, min_modified, entry.modified) && meets_time_condition(
        now,
        min_accessed,
        entry.accessed,
    )
}

/// Adds up the sizes of the regular files among `events`; `None` where the
/// sum is too large for a size.
pub fn tree_size(events: &Vec<WalkEvent>) -> (total: Option<u64>)
    ensures
        total is Some <==> regular_size(events@) <= u64::MAX,
        total matches Some(size) ==> size == regular_size(events@),
{
    let mut total: u64 = 0;
    let mut at: usize = 0;
    while at < events.len()
        invariant
            at <= events.len(),
            total == regular_size(events@.take(at as int)),
        decreases events.len() - at,
    {
        proof {
            assert(events@.take(at + 1).drop_last() =~= events@.take(at as int));
            lemma_regular_size_grows(events@.take(at + 1), events@);
        }
        if let WalkEvent::Found(entry) = &events[at] {
            if entry.is_file {
                match total.checked_add(entry.size) {
                    Some(sum) => {
                        total = sum;
                    },
                    None => {
                        return None;
                    },
                }
            }
        }
        at = at + 1;
    }
    proof {
        assert(events@.take(events.len() as int) =~= events@);
    }
    Some(total)
}

/// Finds the files to offer among what a walk met.
///
/// Every regular file counts towards the size of the tree. A regular file
/// is offered where each of its three times lies more than its threshold
/// (in seconds; 0 asks nothing) before `now`. The candidates come back
/// ranked by size, largest first. A place below the root that could not be
/// read is passed over with a line; where the root itself could not be read
/// there is no result.
pub fn get_lame_files(
    events: Vec<WalkEvent>,
    now: Timestamp,
    min_created: u64,
    min_modified: u64,
    min_accessed: u64,
) -> (found: Result<Scan, ScanError>)
    requires
        regular_size(events@) <= u64::MAX,
    ensures
        found is Err <==> root_failure(events@) is Some,
        found matches Err(error) ==> root_failure(events@) matches Some(
            WalkEvent::Unreadable { message, .. },
        ) && error.message@ == message@,
        found matches Ok(scan) ==> {
            &&& scan.wf()
            &&& scan.total() == regular_size(events@)
            &&& scan.ranked().to_multiset() == candidates(
                events@,
                now,
                min_created,
                min_modified,
                min_accessed,
            ).to_multiset()
            &&& scan.notes() == skipped_lines(events@)
        },
{
    let ghost all = events@;
    let mut files: Vec<LameFile> = Vec::new();
    let mut skipped: Vec<String> = Vec::new();
    let mut total_size: u64 = 0;
    for event in it: events
        invariant
            it.seq() == all,
            regular_size(all) <= u64::MAX,
            root_failure(all.take(it.index() as int)) is None,
            total_size == regular_size(all.take(it.index() as int)),
            files@ == candidates(
                all.take(it.index() as int),
                now,
                min_created,
                min_modified,
                min_accessed,
            ),
            texts(skipped@) == skipped_lines(all.take(it.index() as int)),
            size_sum(files@) <= total_size,
    {
        let ghost seen = all.take(it.index() as int);
        let ghost next = all.take(it.index() + 1);
        proof {
            assert(next.drop_last() =~= seen);
            assert(next.last() == event);
            assert(next =~= seen.push(event));
            lemma_regular_size_grows(next, all);
            lemma_root_failure_step(seen, event);
        }
        match event {
            WalkEvent::Found(entry) => {
                let offered = is_eligible(now, min_created, min_modified, min_accessed, &entry);
                if entry.is_file {
                    total_size = total_size + entry.size;
                }
                if offered {
                    proof {
                        lemma_size_sum_push(files@, candidate_of(entry));
                    }
                    files.push(LameFile { size: entry.size, path: entry.path, name: entry.name });
                }
            },
            WalkEvent::Unreadable { depth, message } => {
                if depth == 0 {
                    proof {
                        lemma_root_failure_found(all, it.index() as int);
                    }
                    return Err(ScanError { message });
                }
                let mut line = message;
                line.append(". Skipping...");
                assert(texts(skipped@.push(line)) =~= texts(skipped@).push(line@));
                skipped.push(line);
            },
        }
    }
    proof {
        assert(all.take(all.len() as int) =~= all);
    }
    let ghost unranked = files@;
    let files = sort_by_size(files);
    proof {
        lemma_size_sum_of_rearranged(files@, unranked);
    }
    Ok(Scan { total_size, files, skipped })
}

/// Finds the files to offer among what a walk met, for a tree of any size.
///
/// Where the regular files of the tree are larger together than a size can
/// say, there is nothing to find: the answer is `None`. For every other
/// walk it is what [`get_lame_files`] finds.
pub fn find_lame_files(
    events: Vec<WalkEvent>,
    now: Timestamp,
    min_created: u64,
    min_modified: u64,
    min_accessed: u64,
) -> (found: Option<Result<Scan, ScanError>>)
    ensures
        found is Some <==> regular_size(events@) <= u64::MAX,
        found matches Some(result) ==> (result is Err <==> root_failure(events@) is Some),
        found matches Some(Err(error)) ==> root_failure(events@) matches Some(
            WalkEvent::Unreadable { message, .. },
        ) && error.message@ == message@,
        found matches Some(Ok(scan)) ==> {
            &&& scan.wf()
            &&& scan.total() == regular_size(events@)
            &&& scan.ranked().to_multiset() == candidates(
                events@,
                now,
                min_created,
                min_modified,
                min_accessed,
            ).to_multiset()
            &&& scan.notes() == skipped_lines(events@)
        },
{
    match tree_size(&events) {
        Some(_) => Some(get_lame_files(events, now, min_created, min_modified, min_accessed)),
        None => None,
    }
}

/// Whether `file` comes from an offered entry among `events`.
pub open spec fn offered_among(
    events: Seq<WalkEvent>,
    now: Timestamp,
    min_created: u64,
    min_modified: u64,
    min_accessed: u64,
    file: LameFile,
) -> bool {
    exists|index: int|
        0 <= index < events.len() && (#[trigger] events[index] matches WalkEvent::Found(entry)
            && eligible(now, min_created, min_modified, min_accessed, entry) && candidate_of(entry)
            == file)
}

/// A file is among the candidates exactly when the walk met it as a regular
/// file that is old enough in each of its three times.
pub proof fn lemma_candidates_are_the_eligible(
    events: Seq<WalkEvent>,
    now: Timestamp,
    min_created: u64,
    min_modified: u64,
    min_accessed: u64,
    file: LameFile,
)
    ensures
        candidates(events, now, min_created, min_modified, min_accessed).contains(file)
            <==> offered_among(events, now, min_created, min_modified, min_accessed, file),
    decreases events.len(),
{
    let found = candidates(events, now, min_created, min_modified, min_accessed);
    if events.len() > 0 {
        let before = events.drop_last();
        let earlier = candidates(before, now, min_created, min_modified, min_accessed);
        lemma_candidates_are_the_eligible(
            before,
            now,
            min_created,
            min_modified,
            min_accessed,
            file,
        );
        let last = events.last();
        let adds = last matches WalkEvent::Found(entry) && eligible(
            now,
            min_created,
            min_modified,
            min_accessed,
            entry,
        );
        if found.contains(file) {
            let at = choose|at: int| 0 <= at < found.len() && found[at] == file;
            if adds && at == found.len() - 1 {
                assert(events[events.len() - 1] == last);
            } else {
                assert(earlier[at] == file);
                let index = choose|index: int|
                    0 <= index < before.len() && (#[trigger] before[index] matches WalkEvent::Found(
                        entry,
                    ) && eligible(now, min_created, min_modified, min_accessed, entry)
                        && candidate_of(entry) == file);
                assert(events[index] == before[index]);
            }
        }
        if offered_among(events, now, min_created, min_modified, min_accessed, file) {
            let index = choose|index: int|
                0 <= index < events.len() && (#[trigger] events[index] matches WalkEvent::Found(
                    entry,
                ) && eligible(now, min_created, min_modified, min_accessed, entry) && candidate_of(
                    entry,
                ) == file);
            if index == events.len() - 1 {
                assert(found[found.len() - 1] == file);
            } else {
                assert(before[index] == events[index]);
                let at = choose|at: int| 0 <= at < earlier.len() && earlier[at] == file;
                assert(found[at] == file);
            }
        }
    }
}

/// With every threshold at zero, each regular file is offered.
pub proof fn lemma_no_threshold_offers_all(now: Timestamp, entry: FileEntry)
    ensures
        eligible(now, 0, 0, 0, entry) == entry.is_file,
{
}

/// The candidates together are never larger than the regular files of the
/// tree, and with every threshold at zero they are as large.
pub proof fn lemma_candidates_within_tree(
    events: Seq<WalkEvent>,
    now: Timestamp,
    min_created: u64,
    min_modified: u64,
    min_accessed: u64,
)
    ensures
        size_sum(candidates(events, now, min_created, min_modified, min_accessed)) <= regular_size(
            events,
        ),
        min_created == 0 && min_modified == 0 && min_accessed == 0 ==> size_sum(
            candidates(events, now, min_created, min_modified, min_accessed),
        ) == regular_size(events),
    decreases events.len(),
{
    if events.len() > 0 {
        lemma_candidates_within_tree(
            events.drop_last(),
            now,
            min_created,
            min_modified,
            min_accessed,
        );
        if let WalkEvent::Found(entry) = events.last() {
            lemma_size_sum_push(
                candidates(events.drop_last(), now, min_created, min_modified, min_accessed),
                candidate_of(entry),
            );
        }
    }
}

/// What holds of every result of a walk: it offers exactly the eligible
/// files, largest first, and the tree is at least as large as all of them,
/// and as large where no threshold is set.
pub proof fn lemma_scan_offers_the_eligible(
    scan: Scan,
    events: Seq<WalkEvent>,
    now: Timestamp,
    min_created: u64,
    min_modified: u64,
    min_accessed: u64,
    file: LameFile,
)
    requires
        scan.total() == regular_size(events),
        scan.ranked().to_multiset() == candidates(
            events,
            now,
            min_created,
            min_modified,
            min_accessed,
        ).to_multiset(),
    ensures
        scan.ranked().contains(file) <==> offered_among(
            events,
            now,
            min_created,
            min_modified,
            min_accessed,
            file,
        ),
        size_sum(scan.ranked()) <= scan.total(),
        min_created == 0 && min_modified == 0 && min_accessed == 0 ==> size_sum(scan.ranked())
            == scan.total(),
{
    let found = candidates(events, now, min_created, min_modified, min_accessed);
    to_multiset_contains(scan.ranked(), file);
    to_multiset_contains(found, file);
    lemma_candidates_are_the_eligible(events, now, min_created, min_modified, min_accessed, file);
    lemma_candidates_within_tree(events, now, min_created, min_modified, min_accessed);
    lemma_size_sum_of_rearranged(scan.ranked(), found);
}

/// The regular files among the first events are no larger than those among
/// all of them.
proof fn lemma_regular_size_grows(first: Seq<WalkEvent>, events: Seq<WalkEvent>)
    requires
        first.len() <= events.len(),
        first == events.take(first.len() as int),
    ensures
        regular_size(first) <= regular_size(events),
    decreases events.len(),
{
    if first.len() < events.len() {
        assert(events.drop_last().take(first.len() as int) =~= first);
        lemma_regular_size_grows(first, events.drop_last());
    } else {
        assert(first =~= events);
    }
}

/// Where no failure of the root was seen so far, the first one is the next
/// event or none.
proof fn lemma_root_failure_step(seen: Seq<WalkEvent>, event: WalkEvent)
    requires
        root_failure(seen) is None,
    ensures
        root_failure(seen.push(event)) == if is_root_failure(event) {
            Some(event)
        } else {
            None
        },
    decreases seen.len(),
{
    if seen.len() == 0 {
        assert(seen.push(event).drop_first() =~= seen);
    } else {
        assert(seen.push(event).first() == seen.first());
        assert(seen.push(event).drop_first() =~= seen.drop_first().push(event));
        lemma_root_failure_step(seen.drop_first(), event);
    }
}

/// A failure of the root at `index`, with none before it, is the first one
/// of the whole walk.
proof fn lemma_root_failure_found(events: Seq<WalkEvent>, index: int)
    requires
        0 <= index < events.len(),
        root_failure(events.take(index)) is None,
        is_root_failure(events[index]),
    ensures
        root_failure(events) == Some(events[index]),
    decreases index,
{
    if index > 0 {
        assert(events.take(index).first() == events.first());
        assert(events.take(index).drop_first() =~= events.drop_first().take(index - 1));
        lemma_root_failure_found(events.drop_first(), index - 1);
    }
}

} // verus!
