//! The session in which the operator pages through the candidates and
//! deletes them one at a time.
//!
//! The session holds the candidates as the walk ranked them and never takes
//! one out: a deleted file is marked, so that every file keeps its place.
//! What changes is the page that is shown, the marks of that page, and the
//! running total, which starts as the size of the tree and shrinks by each
//! file that is deleted.
//!
//! The session does no input or output. Its caller shows the chart, reads a
//! line and hands it to [`Session::process_input`]; where the reply asks for
//! a deletion, the caller asks the operator, deletes the file, and reports
//! how that went with [`Session::record_deletion`].

use vstd::prelude::*;
use crate::chart::{NUM_FILES_SHOWN, Slice, chart, create_current_data, shown_size, slice_views, slot_shown};
use crate::command::{Command, command_of, parse_command};
use crate::files::{LameFile, lemma_size_sum_concat, lemma_size_sum_push, size_sum};
use crate::scan::Scan;

verus! {

/// How the attempt to delete a file went.
#[derive(Clone, Copy, Debug, PartialEq, Eq)]
pub enum Outcome {
    /// The operator agreed and the file is gone.
    Deleted,
    /// The operator did not agree.
    Declined,
    /// The file could not be deleted.
    Failed,
}

/// What the session answers to its caller.
#[derive(Clone, Copy, Debug, PartialEq, Eq)]
pub enum Reply {
    /// The next page is shown now.
    Advanced,
    /// The operator has ended the session.
    Quit,
    /// There is nothing further to show: the session is over.
    NoFilesLeft,
    /// The number names no file of the page that can still be deleted.
    InvalidChoice,
    /// The line is no command.
    NotANumber,
    /// The operator is to be asked about the file in the slot of this
    /// number.
    Confirm(usize),
    /// The file is marked as deleted and no longer counts.
    Deleted,
    /// Nothing was deleted, as the operator wished.
    Declined,
    /// Nothing was deleted, because the deletion failed.
    DeletionFailed,
    /// The session was over before, and nothing was done.
    Over,
}

/// A page on which nothing is marked.
pub open spec fn no_marks() -> Seq<bool> {
    Seq::new(NUM_FILES_SHOWN as nat, |slot: int| false)
}

/// The sizes of the files from place `from` on, added up.
pub open spec fn rest_size(files: Seq<LameFile>, from: nat) -> nat {
    if from >= files.len() {
        0
    } else {
        size_sum(files.subrange(from as int, files.len() as int))
    }
}

/// The sizes of the files that `removed` marks, added up.
pub open spec fn removed_size(files: Seq<LameFile>, removed: Seq<bool>) -> nat
    recommends
        removed.len() == files.len(),
    decreases files.len(),
{
    if files.len() == 0 {
        0
    } else {
        removed_size(files.drop_last(), removed.drop_last()) + if removed.last() {
            files.last().size as nat
        } else {
            0
        }
    }
}

/// The session as a value.
pub struct SessionView {
    /// The candidates, as the walk ranked them.
    pub files: Seq<LameFile>,
    /// The size of the tree when it was read.
    pub scan_total: nat,
    /// The place of the first candidate of the page.
    pub skip: nat,
    /// For each slot of the page, whether its file was deleted.
    pub deleted: Seq<bool>,
    /// The running total: what still counts.
    pub live_total: nat,
    /// Whether the session is over.
    pub done: bool,
    /// For each candidate, whether it was deleted on this page or on an
    /// earlier one.
    pub removed: Seq<bool>,
}

impl SessionView {
    /// The session at its start: the first page, nothing deleted, and all of
    /// the tree counting.
    pub open spec fn start(files: Seq<LameFile>, total: nat) -> SessionView {
        SessionView {
            files,
            scan_total: total,
            skip: 0,
            deleted: no_marks(),
            live_total: total,
            done: false,
            removed: Seq::new(files.len(), |place: int| false),
        }
    }

    /// Whether there is a page after the one that is shown.
    pub open spec fn has_next_page(self) -> bool {
        self.skip + NUM_FILES_SHOWN < self.files.len()
    }

    /// Whether the page shows no file and no page follows it.
    pub open spec fn none_left(self) -> bool {
        &&& !self.has_next_page()
        &&& forall|slot: nat|
            slot < NUM_FILES_SHOWN ==> !#[trigger] slot_shown(
                self.files,
                self.skip,
                self.deleted,
                slot,
            )
    }

    /// Whether there is nothing more to do: nothing counts any longer, or no
    /// candidate is left.
    pub open spec fn exhausted(self) -> bool {
        self.live_total == 0 || self.none_left()
    }

    /// Whether `number` names a file of the page that can be deleted: a slot
    /// of the page, counted from one, whose file is still there.
    pub open spec fn can_delete(self, number: nat) -> bool {
        1 <= number <= NUM_FILES_SHOWN && slot_shown(
            self.files,
            self.skip,
            self.deleted,
            (number - 1) as nat,
        )
    }

    /// The session, over.
    pub open spec fn finished(self) -> SessionView {
        SessionView { done: true, ..self }
    }

    /// The session on its next page, on which nothing is marked.
    pub open spec fn on_next_page(self) -> SessionView {
        SessionView { skip: self.skip + NUM_FILES_SHOWN as nat, deleted: no_marks(), ..self }
    }

    /// The session after the file in `slot` was deleted: the slot is marked,
    /// and the file no longer counts.
    pub open spec fn without(self, slot: nat) -> SessionView {
        SessionView {
            deleted: self.deleted.update(slot as int, true),
            removed: self.removed.update((self.skip + slot) as int, true),
            live_total: (self.live_total - self.files[(self.skip + slot) as int].size) as nat,
            ..self
        }
    }

    /// The session after the check that comes before each prompt: it is over
    /// where nothing is left to do.
    pub open spec fn settled(self) -> SessionView {
        if !self.done && self.exhausted() {
            self.finished()
        } else {
            self
        }
    }

    /// The session after `command`.
    pub open spec fn after_input(self, command: Command) -> SessionView {
        if self.done {
            self
        } else {
            match command {
                Command::NextPage => if self.has_next_page() {
                    self.on_next_page()
                } else {
                    self.finished()
                },
                Command::Quit => self.finished(),
                Command::Delete(_) => self,
                Command::Unrecognized => self,
            }
        }
    }

    /// The reply to `command`.
    pub open spec fn reply_to_input(self, command: Command) -> Reply {
        if self.done {
            Reply::Over
        } else {
            match command {
                Command::NextPage => if self.has_next_page() {
                    Reply::Advanced
                } else {
                    Reply::NoFilesLeft
                },
                Command::Quit => Reply::Quit,
                Command::Delete(number) => if self.can_delete(number as nat) {
                    Reply::Confirm(number)
                } else {
                    Reply::InvalidChoice
                },
                Command::Unrecognized => Reply::NotANumber,
            }
        }
    }

    /// The session after the attempt to delete the file that `number` names
    /// went as `outcome` says.
    pub open spec fn after_deletion(self, number: nat, outcome: Outcome) -> SessionView {
        if !self.done && self.can_delete(number) && outcome == Outcome::Deleted {
            self.without((number - 1) as nat)
        } else {
            self
        }
    }

    /// The reply to the report of such an attempt.
    pub open spec fn reply_to_deletion(self, number: nat, outcome: Outcome) -> Reply {
        if self.done {
            Reply::Over
        } else if !self.can_delete(number) {
            Reply::InvalidChoice
        } else {
            match outcome {
                Outcome::Deleted => Reply::Deleted,
                Outcome::Declined => Reply::Declined,
                Outcome::Failed => Reply::DeletionFailed,
            }
        }
    }

    /// The running total is the size of the tree without the files that
    /// were deleted, on this page and on the pages before it.
    pub open spec fn accounted(self) -> bool {
        self.live_total + removed_size(self.files, self.removed) == self.scan_total
    }

    /// The marks of the page are those of its candidates.
    pub open spec fn marks_agree(self) -> bool {
        forall|slot: int|
            0 <= slot < NUM_FILES_SHOWN ==> (#[trigger] self.deleted[slot] <==> self.skip + slot
                < self.files.len() && self.removed[self.skip + slot])
    }

    /// What holds of every session.
    pub open spec fn wf(self) -> bool {
        &&& self.deleted.len() == NUM_FILES_SHOWN
        &&& self.removed.len() == self.files.len()
        &&& self.skip <= self.files.len()
        &&& self.marks_agree()
        &&& forall|place: int|
            0 <= place < self.files.len() && #[trigger] self.removed[place] ==> place < self.skip
                + NUM_FILES_SHOWN
        &&& self.accounted()
        &&& shown_size(self.files, self.skip, self.deleted, NUM_FILES_SHOWN as nat) + rest_size(
            self.files,
            self.skip + NUM_FILES_SHOWN as nat,
        ) <= self.live_total
    }

    /// The chart of the session, where it has one: it is not over, and
    /// something still counts.
    pub open spec fn chart(self) -> Option<Seq<crate::chart::SliceView>> {
        if !self.done && self.live_total > 0 {
            Some(chart(self.files, self.skip, self.live_total, self.deleted))
        } else {
            None
        }
    }
}

/// The state of one session.
pub struct Session {
    files: Vec<LameFile>,
    scan_total: u64,
    skip: usize,
    deleted: [bool; NUM_FILES_SHOWN],
    total_size: u64,
    done: bool,
    removed: Ghost<Seq<bool>>,
}

impl View for Session {
    type V = SessionView;

    closed spec fn view(&self) -> SessionView {
        SessionView {
            files: self.files@,
            scan_total: self.scan_total as nat,
            skip: self.skip as nat,
            deleted: self.deleted@,
            live_total: self.total_size as nat,
            done: self.done,
            removed: self.removed@,
        }
    }
}

impl Session {
    /// What holds of every session.
    pub open spec fn wf(&self) -> bool {
        self@.wf()
    }

    /// Starts a session on what a walk found.
    pub fn new(scan: Scan) -> (session: Session)
        requires
            scan.wf(),
        ensures
            session.wf(),
            session@ == SessionView::start(scan.ranked(), scan.total()),
    {
        let (total_size, files) = scan.into_parts();
        let ghost removed = Seq::new(files@.len(), |place: int| false);
        proof {
            lemma_nothing_removed(files@);
            lemma_page_and_rest(files@, 0);
            assert(files@.subrange(0, files@.len() as int) =~= files@);
        }
        let session = Session {
            files,
            scan_total: total_size,
            skip: 0,
            deleted: [false; NUM_FILES_SHOWN],
            total_size,
            done: false,
            removed: Ghost(removed),
        };
        assert(session.deleted@ =~= no_marks());
        session
    }

    /// The candidates.
    pub fn files(&self) -> (files: &Vec<LameFile>)
        ensures
            files@ == self@.files,
    {
        &self.files
    }

    /// The size of the tree when it was read.
    pub fn scan_total(&self) -> (total: u64)
        ensures
            total == self@.scan_total,
    {
        self.scan_total
    }

    /// The place of the first candidate of the page.
    pub fn skip(&self) -> (skip: usize)
        ensures
            skip == self@.skip,
    {
        self.skip
    }

    /// For each slot of the page, whether its file was deleted.
    pub fn deleted(&self) -> (deleted: [bool; NUM_FILES_SHOWN])
        ensures
            deleted@ == self@.deleted,
    {
        self.deleted
    }

    /// The running total.
    pub fn total_size(&self) -> (total: u64)
        ensures
            total == self@.live_total,
    {
        self.total_size
    }

    /// Whether the session is over.
    pub fn is_done(&self) -> (done: bool)
        ensures
            done == self@.done,
    {
        self.done
    }

    /// Tells whether `number` names a file of the page that can be deleted.
    pub fn can_delete(&self, number: usize) -> (possible: bool)
        ensures
            possible == self@.can_delete(number as nat),
    {
        1 <= number && number <= NUM_FILES_SHOWN && self.skip < self.files.len() && number - 1
            < self.files.len() - self.skip && !self.deleted[number - 1]
    }

    /// The candidate that `number` names, where it can be deleted.
    pub fn candidate(&self, number: usize) -> (file: Option<&LameFile>)
        ensures
            file is Some <==> self@.can_delete(number as nat),
            file matches Some(found) ==> *found == self@.files[self@.skip + number - 1],
    {
        if self.can_delete(number) {
            assert(self.skip + (number - 1) < self.files.len());
            Some(&self.files[self.skip + (number - 1)])
        } else {
            None
        }
    }

    /// Tells whether there is nothing more to do.
    pub fn is_exhausted(&self) -> (exhausted: bool)
        requires
            self.wf(),
        ensures
            exhausted == self@.exhausted(),
    {
        if self.total_size == 0 {
            return true;
        }
        if self.files.len() - self.skip > NUM_FILES_SHOWN {
            return false;
        }
        let mut slot: usize = 0;
        while slot < NUM_FILES_SHOWN
            invariant
                slot <= NUM_FILES_SHOWN,
                self.skip <= self.files.len(),
                self.files.len() - self.skip <= NUM_FILES_SHOWN,
                self.total_size != 0,
                forall|earlier: nat|
                    earlier < slot ==> !#[trigger] slot_shown(
                        self@.files,
                        self@.skip,
                        self@.deleted,
                        earlier,
                    ),
            decreases NUM_FILES_SHOWN - slot,
        {
            if slot < self.files.len() - self.skip && !self.deleted[slot] {
                assert(slot_shown(self@.files, self@.skip, self@.deleted, slot as nat));
                return false;
            }
            slot = slot + 1;
        }
        true
    }

    /// The check that comes before each prompt: ends the session where
    /// nothing is left to do, and tells whether it did.
    pub fn settle(&mut self) -> (ended: bool)
        requires
            old(self).wf(),
        ensures
            final(self).wf(),
            final(self)@ == old(self)@.settled(),
            ended == (!old(self)@.done && old(self)@.exhausted()),
    {
        if !self.done && self.is_exhausted() {
            self.done = true;
            true
        } else {
            false
        }
    }

    /// Applies one command of the operator.
    pub fn apply(&mut self, command: Command) -> (reply: Reply)
        requires
            old(self).wf(),
        ensures
            final(self).wf(),
            final(self)@ == old(self)@.after_input(command),
            reply == old(self)@.reply_to_input(command),
    {
        if self.done {
            return Reply::Over;
        }
        match command {
            Command::NextPage => {
                if self.files.len() - self.skip > NUM_FILES_SHOWN {
                    proof {
                        lemma_page_and_rest(self.files@, self.skip as nat + NUM_FILES_SHOWN as nat);
                    }
                    self.skip = self.skip + NUM_FILES_SHOWN;
                    self.deleted = [false; NUM_FILES_SHOWN];
                    assert(self.deleted@ =~= no_marks());
                    Reply::Advanced
                } else {
                    self.done = true;
                    Reply::NoFilesLeft
                }
            },
            Command::Quit => {
                self.done = true;
                Reply::Quit
            },
            Command::Delete(number) => {
                if self.can_delete(number) {
                    Reply::Confirm(number)
                } else {
                    Reply::InvalidChoice
                }
            },
            Command::Unrecognized => Reply::NotANumber,
        }
    }

    /// Reads one line of the operator and applies the command that it
    /// gives.
    pub fn process_input(&mut self, line: &str) -> (reply: Reply)
        requires
            old(self).wf(),
        ensures
            final(self).wf(),
            final(self)@ == old(self)@.after_input(command_of(line@)),
            reply == old(self)@.reply_to_input(command_of(line@)),
    {
        let command = parse_command(line);
        self.apply(command)
    }

    /// Takes note of how the attempt to delete the file that `number` names
    /// went. Only a file that was deleted changes the session: its slot is
    /// marked, and its size leaves the running total.
    pub fn record_deletion(&mut self, number: usize, outcome: Outcome) -> (reply: Reply)
        requires
            old(self).wf(),
        ensures
            final(self).wf(),
            final(self)@ == old(self)@.after_deletion(number as nat, outcome),
            reply == old(self)@.reply_to_deletion(number as nat, outcome),
    {
        if self.done {
            return Reply::Over;
        }
        if !self.can_delete(number) {
            return Reply::InvalidChoice;
        }
        match outcome {
            Outcome::Deleted => {
                let slot: usize = number - 1;
                assert(self.skip + slot < self.files.len());
                let place: usize = self.skip + slot;
                let size: u64 = self.files[place].size;
                proof {
                    lemma_shown_size_without(self@.files, self@.skip, self@.deleted, slot as nat);
                    lemma_removed_size_grows(self@.files, self@.removed, place as int);
                }
                self.deleted[slot] = true;
                self.total_size = self.total_size - size;
                self.removed = Ghost(self.removed@.update(place as int, true));
                Reply::Deleted
            },
            Outcome::Declined => Reply::Declined,
            Outcome::Failed => Reply::DeletionFailed,
        }
    }

    /// Creates the slices of the chart of the page; none where the session
    /// is over or nothing counts any longer.
    pub fn create_current_data(&self) -> (data: Option<Vec<Slice>>)
        requires
            self.wf(),
        ensures
            chart_views(data) == self@.chart(),
    {
        if self.done || self.total_size == 0 {
            None
        } else {
            Some(create_current_data(&self.files, self.skip, self.total_size, &self.deleted))
        }
    }
}

/// The slices of `data` as values, where there are any.
pub open spec fn chart_views(data: Option<Vec<Slice>>) -> Option<Seq<crate::chart::SliceView>> {
    match data {
        Some(slices) => Some(slice_views(slices@)),
        None => None,
    }
}

/// A session starts in order: on what a walk found, whose candidates are
/// together no larger than the tree, the first state is well formed.
pub proof fn lemma_start_in_order(files: Seq<LameFile>, total: nat)
    requires
        size_sum(files) <= total,
    ensures
        SessionView::start(files, total).wf(),
        SessionView::start(files, total).live_total == total,
{
    lemma_nothing_removed(files);
    lemma_page_and_rest(files, 0);
    assert(files.subrange(0, files.len() as int) =~= files);
}

/// A session stays in order: whatever the operator types and however a
/// deletion goes, the next state is well formed again. In particular the
/// running total is, after every step, the size of the tree without the
/// files that were deleted on this page and on the pages before it.
pub proof fn lemma_stays_in_order(
    before: SessionView,
    command: Command,
    number: nat,
    outcome: Outcome,
)
    requires
        before.wf(),
    ensures
        before.settled().wf(),
        before.after_input(command).wf(),
        before.after_deletion(number, outcome).wf(),
        before.settled().accounted(),
        before.after_input(command).accounted(),
        before.after_deletion(number, outcome).accounted(),
{
    if !before.done && command == Command::NextPage && before.has_next_page() {
        lemma_page_and_rest(before.files, before.skip + NUM_FILES_SHOWN as nat);
    }
    if !before.done && before.can_delete(number) && outcome == Outcome::Deleted {
        let slot = (number - 1) as nat;
        lemma_shown_size_without(before.files, before.skip, before.deleted, slot);
        lemma_removed_size_grows(before.files, before.removed, (before.skip + slot) as int);
    }
}

/// A deletion takes exactly the size of the deleted file out of the running
/// total, and nothing else changes it.
pub proof fn lemma_total_moves_by_deletions_only(
    before: SessionView,
    command: Command,
    number: nat,
    outcome: Outcome,
)
    requires
        before.wf(),
    ensures
        before.settled().live_total == before.live_total,
        before.after_input(command).live_total == before.live_total,
        before.after_deletion(number, outcome).live_total == if !before.done && before.can_delete(
            number,
        ) && outcome == Outcome::Deleted {
            before.live_total - before.files[before.skip + number - 1].size
        } else {
            before.live_total as int
        },
{
    if !before.done && before.can_delete(number) && outcome == Outcome::Deleted {
        lemma_shown_size_without(before.files, before.skip, before.deleted, (number - 1) as nat);
    }
}

/// The chart is a matter of the state alone: two charts of one state, with
/// no command between them, hold the same slices.
pub proof fn lemma_same_state_same_chart(
    session: Session,
    first: Option<Vec<Slice>>,
    second: Option<Vec<Slice>>,
)
    requires
        chart_views(first) == session@.chart(),
        chart_views(second) == session@.chart(),
    ensures
        chart_views(first) == chart_views(second),
{
}

/// Where nothing is marked, nothing was removed.
proof fn lemma_nothing_removed(files: Seq<LameFile>)
    ensures
        removed_size(files, Seq::new(files.len(), |place: int| false)) == 0,
    decreases files.len(),
{
    if files.len() > 0 {
        let marks = Seq::new(files.len(), |place: int| false);
        assert(marks.drop_last() =~= Seq::new(files.drop_last().len(), |place: int| false));
        lemma_nothing_removed(files.drop_last());
    }
}

/// Marking one more file as removed adds its size to what was removed.
proof fn lemma_removed_size_grows(files: Seq<LameFile>, removed: Seq<bool>, place: int)
    requires
        removed.len() == files.len(),
        0 <= place < files.len(),
        !removed[place],
    ensures
        removed_size(files, removed.update(place, true)) == removed_size(files, removed)
            + files[place].size,
    decreases files.len(),
{
    let marked = removed.update(place, true);
    if place == files.len() - 1 {
        assert(marked.drop_last() =~= removed.drop_last());
    } else {
        assert(marked.drop_last() =~= removed.drop_last().update(place, true));
        lemma_removed_size_grows(files.drop_last(), removed.drop_last(), place);
    }
}

/// The files that the first slots of a page without marks show are the
/// files at the first places of the page.
proof fn lemma_shown_size_of_page(files: Seq<LameFile>, skip: nat, slots: nat)
    requires
        skip <= files.len(),
        slots <= NUM_FILES_SHOWN,
    ensures
        shown_size(files, skip, no_marks(), slots) == size_sum(
            files.subrange(
                skip as int,
                if skip + slots <= files.len() {
                    (skip + slots) as int
                } else {
                    files.len() as int
                },
            ),
        ),
    decreases slots,
{
    if slots == 0 {
        assert(files.subrange(skip as int, skip as int) =~= Seq::<LameFile>::empty());
    } else {
        let slot = (slots - 1) as nat;
        lemma_shown_size_of_page(files, skip, slot);
        if skip + slot < files.len() {
            let before = files.subrange(skip as int, (skip + slot) as int);
            lemma_size_sum_push(before, files[(skip + slot) as int]);
            assert(files.subrange(skip as int, (skip + slots) as int) =~= before.push(
                files[(skip + slot) as int],
            ));
        }
    }
}

/// The files from a place on are the page that starts there and the files
/// after that page.
proof fn lemma_page_and_rest(files: Seq<LameFile>, skip: nat)
    requires
        skip <= files.len(),
    ensures
        rest_size(files, skip) == shown_size(files, skip, no_marks(), NUM_FILES_SHOWN as nat)
            + rest_size(files, skip + NUM_FILES_SHOWN as nat),
{
    let count = files.len() as int;
    let end = if skip + NUM_FILES_SHOWN <= count {
        (skip + NUM_FILES_SHOWN) as int
    } else {
        count
    };
    let page = files.subrange(skip as int, end);
    let rest = files.subrange(end, count);
    lemma_shown_size_of_page(files, skip, NUM_FILES_SHOWN as nat);
    lemma_size_sum_concat(page, rest);
    assert(files.subrange(skip as int, count) =~= page + rest);
    assert(size_sum(Seq::<LameFile>::empty()) == 0);
    if end == count {
        assert(rest =~= Seq::<LameFile>::empty());
    }
    if skip == count {
        assert(page =~= Seq::<LameFile>::empty());
    }
}

/// Marking the file in a slot takes its size out of what the page shows.
proof fn lemma_shown_size_without(
    files: Seq<LameFile>,
    skip: nat,
    deleted: Seq<bool>,
    slot: nat,
)
    requires
        deleted.len() == NUM_FILES_SHOWN,
        slot < NUM_FILES_SHOWN,
        slot_shown(files, skip, deleted, slot),
    ensures
        shown_size(files, skip, deleted.update(slot as int, true), NUM_FILES_SHOWN as nat)
            + files[(skip + slot) as int].size == shown_size(files, skip, deleted, NUM_FILES_SHOWN as nat),
{
    reveal_with_fuel(shown_size, 6);
}

} // verus!
