//! What the chart of one page shows.
//!
//! A page is a window of [`NUM_FILES_SHOWN`] candidates. Each candidate of
//! the page that was not deleted gets a slice of its own, numbered by its
//! place on the page; one more slice stands for everything else that still
//! counts towards the total.

use vstd::prelude::*;
use vstd::string::*;
use crate::files::LameFile;
use crate::size::{readable_size, to_readable_size};
use crate::text::{decimal, digit_char, push_decimal};

verus! {

/// The number of candidates on one page.
pub const NUM_FILES_SHOWN: usize = 5;

/// The colour of a slice: one of the terminal's numbered colours, or a
/// mix of red, green and blue.
#[derive(Clone, Copy, Debug, PartialEq, Eq)]
pub enum SliceColor {
    Fixed(u8),
    Rgb(u8, u8, u8),
}

/// One slice of the chart. It stands for `size` bytes out of `total`; its
/// share of the chart is `size / total`.
#[derive(Clone, Debug, PartialEq, Eq)]
pub struct Slice {
    pub label: String,
    pub size: u64,
    pub total: u64,
    pub color: SliceColor,
    pub fill: char,
}

/// A slice as a value: its label as text.
pub struct SliceView {
    pub label: Seq<char>,
    pub size: nat,
    pub total: nat,
    pub color: SliceColor,
    pub fill: char,
}

impl View for Slice {
    type V = SliceView;

    open spec fn view(&self) -> SliceView {
        SliceView {
            label: self.label@,
            size: self.size as nat,
            total: self.total as nat,
            color: self.color,
            fill: self.fill,
        }
    }
}

/// The slices of `data` as values.
pub open spec fn slice_views(data: Seq<Slice>) -> Seq<SliceView> {
    data.map_values(|slice: Slice| slice@)
}

/// The character that fills the slice of a file.
pub open spec fn file_fill() -> char {
    '\u{2022}'
}

/// The character that fills the slice of everything else.
pub open spec fn other_fill() -> char {
    '-'
}

/// Whether the page that starts at `skip` shows a file in `slot`: there is
/// a candidate at that place, and it was not deleted.
pub open spec fn slot_shown(files: Seq<LameFile>, skip: nat, deleted: Seq<bool>, slot: nat) -> bool {
    skip + slot < files.len() && !deleted[slot as int]
}

/// How a file is written: its size and its name.
pub open spec fn file_line(file: LameFile) -> Seq<char> {
    readable_size(file.size as nat) + seq![' ', '-', '-', ' '] + file.name@
}

/// The label of the file in `slot`: the number of the slot, counted from
/// one, in brackets, and the file as it is written.
pub open spec fn slot_label(slot: nat, file: LameFile) -> Seq<char> {
    seq!['('] + decimal(slot + 1) + seq![')', ' '] + file_line(file)
}

/// The slice of the file in `slot`.
pub open spec fn slot_slice(slot: nat, file: LameFile, total: nat) -> SliceView {
    SliceView {
        label: slot_label(slot, file),
        size: file.size as nat,
        total,
        color: SliceColor::Fixed((slot + 1) as u8),
        fill: file_fill(),
    }
}

/// The slices of the files that the first `slots` slots of the page show,
/// in the order of the slots.
pub open spec fn file_slices(
    files: Seq<LameFile>,
    skip: nat,
    total: nat,
    deleted: Seq<bool>,
    slots: nat,
) -> Seq<SliceView>
    decreases slots,
{
    if slots == 0 {
        Seq::empty()
    } else {
        let slot = (slots - 1) as nat;
        let earlier = file_slices(files, skip, total, deleted, slot);
        if slot_shown(files, skip, deleted, slot) {
            earlier.push(slot_slice(slot, files[(skip + slot) as int], total))
        } else {
            earlier
        }
    }
}

/// The sizes of the files that the first `slots` slots of the page show,
/// added up.
pub open spec fn shown_size(files: Seq<LameFile>, skip: nat, deleted: Seq<bool>, slots: nat) -> nat
    decreases slots,
{
    if slots == 0 {
        0
    } else {
        let slot = (slots - 1) as nat;
        shown_size(files, skip, deleted, slot) + if slot_shown(files, skip, deleted, slot) {
            files[(skip + slot) as int].size as nat
        } else {
            0
        }
    }
}

/// The label of the slice of everything else.
pub open spec fn other_label(other: nat) -> Seq<char> {
    "Other: "@ + readable_size(other)
}

/// The slice of everything else: `other` bytes out of `total`.
pub open spec fn other_slice(other: nat, total: nat) -> SliceView {
    SliceView {
        label: other_label(other),
        size: other,
        total,
        color: SliceColor::Rgb(100, 100, 100),
        fill: other_fill(),
    }
}

/// The chart of the page that starts at `skip`: the files that the page
/// shows, then everything else, which is what is left of `total` without
/// them.
pub open spec fn chart(files: Seq<LameFile>, skip: nat, total: nat, deleted: Seq<bool>) -> Seq<
    SliceView,
> {
    file_slices(files, skip, total, deleted, NUM_FILES_SHOWN as nat).push(
        other_slice(
            (total - shown_size(files, skip, deleted, NUM_FILES_SHOWN as nat)) as nat,
            total,
        ),
    )
}

/// Writes a file: its size and its name.
pub fn describe(file: &LameFile) -> (line: String)
    ensures
        line@ == file_line(*file),
{
    proof {
        reveal_strlit(" -- ");
    }
    let mut line = String::new();
    let size = to_readable_size(file.size);
    line.append(size.as_str());
    line.append(" -- ");
    line.append(file.name.as_str());
    assert(line@ =~= file_line(*file));
    line
}

/// Writes the label of the file in `slot`.
pub fn label_of_slot(slot: usize, file: &LameFile) -> (label: String)
    requires
        slot < NUM_FILES_SHOWN,
    ensures
        label@ == slot_label(slot as nat, *file),
{
    proof {
        reveal_strlit("(");
        reveal_strlit(") ");
    }
    let mut label = String::new();
    label.append("(");
    push_decimal(&mut label, slot as u64 + 1);
    label.append(") ");
    let line = describe(file);
    label.append(line.as_str());
    assert(label@ =~= slot_label(slot as nat, *file));
    label
}

/// Creates the slices of the chart for the page that starts at `skip`.
///
/// `total_size` is what still counts, and `deleted` marks the slots of the
/// page whose files are gone. Each file that the page shows gets a slice
/// under the number of its slot, so that a number never moves to another
/// file; the last slice is everything else.
pub fn create_current_data(
    files: &Vec<LameFile>,
    skip: usize,
    total_size: u64,
    deleted: &[bool; NUM_FILES_SHOWN],
) -> (data: Vec<Slice>)
    requires
        total_size > 0,
        shown_size(files@, skip as nat, deleted@, NUM_FILES_SHOWN as nat) <= total_size,
    ensures
        slice_views(data@) == chart(files@, skip as nat, total_size as nat, deleted@),
{
    let mut data_size: u64 = 0;
    let mut data: Vec<Slice> = Vec::new();
    let mut slot: usize = 0;
    assert(slice_views(data@) =~= file_slices(
        files@,
        skip as nat,
        total_size as nat,
        deleted@,
        0,
    ));
    while slot < NUM_FILES_SHOWN
        invariant
            slot <= NUM_FILES_SHOWN,
            shown_size(files@, skip as nat, deleted@, NUM_FILES_SHOWN as nat) <= total_size,
            data_size == shown_size(files@, skip as nat, deleted@, slot as nat),
            slice_views(data@) == file_slices(
                files@,
                skip as nat,
                total_size as nat,
                deleted@,
                slot as nat,
            ),
        decreases NUM_FILES_SHOWN - slot,
    {
        proof {
            lemma_shown_size_grows(
                files@,
                skip as nat,
                deleted@,
                (slot + 1) as nat,
                NUM_FILES_SHOWN as nat,
            );
        }
        if skip < files.len() && slot < files.len() - skip && !deleted[slot] {
            let file = &files[skip + slot];
            let slice = Slice {
                label: label_of_slot(slot, file),
                size: file.size,
                total: total_size,
                color: SliceColor::Fixed(slot as u8 + 1),
                fill: '\u{2022}',
            };
            assert(slice_views(data@.push(slice)) =~= slice_views(data@).push(slice@));
            data.push(slice);
            data_size = data_size + file.size;
        }
        slot = slot + 1;
    }
    let other_size = total_size - data_size;
    let mut label = String::new();
    label.append("Other: ");
    let size = to_readable_size(other_size);
    label.append(size.as_str());
    let other = Slice {
        label,
        size: other_size,
        total: total_size,
        color: SliceColor::Rgb(100, 100, 100),
        fill: '-',
    };
    assert(slice_views(data@.push(other)) =~= slice_views(data@).push(other@));
    data.push(other);
    data
}

/// The sizes that `slices` stand for, added up.
pub open spec fn sizes_sum(slices: Seq<SliceView>) -> nat
    decreases slices.len(),
{
    if slices.len() == 0 {
        0
    } else {
        sizes_sum(slices.drop_last()) + slices.last().size
    }
}

/// The slices of the files stand for the sizes of the files that are shown,
/// each out of the same total.
proof fn lemma_file_slices_sizes(
    files: Seq<LameFile>,
    skip: nat,
    total: nat,
    deleted: Seq<bool>,
    slots: nat,
)
    ensures
        sizes_sum(file_slices(files, skip, total, deleted, slots)) == shown_size(
            files,
            skip,
            deleted,
            slots,
        ),
        forall|i: int|
            0 <= i < file_slices(files, skip, total, deleted, slots).len() ==> {
                &&& (#[trigger] file_slices(files, skip, total, deleted, slots)[i]).total == total
                &&& file_slices(files, skip, total, deleted, slots)[i].size <= shown_size(
                    files,
                    skip,
                    deleted,
                    slots,
                )
            },
    decreases slots,
{
    if slots > 0 {
        let slot = (slots - 1) as nat;
        let earlier = file_slices(files, skip, total, deleted, slot);
        lemma_file_slices_sizes(files, skip, total, deleted, slot);
        if slot_shown(files, skip, deleted, slot) {
            let slice = slot_slice(slot, files[(skip + slot) as int], total);
            assert(earlier.push(slice).drop_last() =~= earlier);
        }
    }
}

/// The chart divides the total: where the files that are shown are no
/// larger together than the total, the slices stand for sizes that add up
/// to the total, each of them out of that total and none larger than it. So
/// the share of each slice lies between nothing and all, and the shares make
/// up the whole chart.
pub proof fn lemma_chart_divides_total(
    files: Seq<LameFile>,
    skip: nat,
    total: nat,
    deleted: Seq<bool>,
)
    requires
        shown_size(files, skip, deleted, NUM_FILES_SHOWN as nat) <= total,
    ensures
        sizes_sum(chart(files, skip, total, deleted)) == total,
        forall|i: int|
            0 <= i < chart(files, skip, total, deleted).len() ==> {
                &&& (#[trigger] chart(files, skip, total, deleted)[i]).total == total
                &&& chart(files, skip, total, deleted)[i].size <= total
            },
{
    let shown = file_slices(files, skip, total, deleted, NUM_FILES_SHOWN as nat);
    let other = other_slice(
        (total - shown_size(files, skip, deleted, NUM_FILES_SHOWN as nat)) as nat,
        total,
    );
    lemma_file_slices_sizes(files, skip, total, deleted, NUM_FILES_SHOWN as nat);
    assert(shown.push(other).drop_last() =~= shown);
    assert forall|i: int| 0 <= i < chart(files, skip, total, deleted).len() implies {
        &&& (#[trigger] chart(files, skip, total, deleted)[i]).total == total
        &&& chart(files, skip, total, deleted)[i].size <= total
    } by {
        if i < shown.len() {
            assert(chart(files, skip, total, deleted)[i] == shown[i]);
        }
    }
}

/// The number of files that the first `slots` slots of the page show.
pub open spec fn shown_count(files: Seq<LameFile>, skip: nat, deleted: Seq<bool>, slots: nat) -> nat
    decreases slots,
{
    if slots == 0 {
        0
    } else {
        let slot = (slots - 1) as nat;
        shown_count(files, skip, deleted, slot) + if slot_shown(files, skip, deleted, slot) {
            1nat
        } else {
            0nat
        }
    }
}

/// The slice of a file that the page shows stands after the slices of the
/// files that the slots before it show, and it is the slice of its slot.
pub proof fn lemma_slice_of_slot(
    files: Seq<LameFile>,
    skip: nat,
    total: nat,
    deleted: Seq<bool>,
    slots: nat,
    slot: nat,
)
    requires
        slot < slots,
        slot_shown(files, skip, deleted, slot),
    ensures
        file_slices(files, skip, total, deleted, slots).len() == shown_count(
            files,
            skip,
            deleted,
            slots,
        ),
        shown_count(files, skip, deleted, slot) < shown_count(files, skip, deleted, slots),
        file_slices(files, skip, total, deleted, slots)[shown_count(files, skip, deleted, slot) as int]
            == slot_slice(slot, files[(skip + slot) as int], total),
    decreases slots,
{
    lemma_count_of_slices(files, skip, total, deleted, slots);
    lemma_count_of_slices(files, skip, total, deleted, (slots - 1) as nat);
    if slot < slots - 1 {
        lemma_slice_of_slot(files, skip, total, deleted, (slots - 1) as nat, slot);
    }
}

/// There are as many slices of files as slots that show one.
proof fn lemma_count_of_slices(
    files: Seq<LameFile>,
    skip: nat,
    total: nat,
    deleted: Seq<bool>,
    slots: nat,
)
    ensures
        file_slices(files, skip, total, deleted, slots).len() == shown_count(
            files,
            skip,
            deleted,
            slots,
        ),
    decreases slots,
{
    if slots > 0 {
        lemma_count_of_slices(files, skip, total, deleted, (slots - 1) as nat);
    }
}

/// The label of a slot starts with the number of the slot in brackets.
pub proof fn lemma_label_starts_with_number(slot: nat, file: LameFile)
    requires
        slot < NUM_FILES_SHOWN,
    ensures
        slot_label(slot, file).take(3) == seq!['(', digit_char(slot + 1), ')'],
{
    assert(decimal(slot + 1) =~= seq![digit_char(slot + 1)]);
    assert(slot_label(slot, file).take(3) =~= seq!['(', digit_char(slot + 1), ')']);
}

/// A file keeps the number of its slot. When the file in another slot of
/// the page is deleted, the file in `slot` is still shown, and its slice
/// carries the same label as before, which starts with the number of the
/// slot: no number moves to another file.
pub proof fn lemma_slot_keeps_its_number(
    files: Seq<LameFile>,
    skip: nat,
    total: nat,
    total_after: nat,
    deleted: Seq<bool>,
    gone: nat,
    slot: nat,
)
    requires
        deleted.len() == NUM_FILES_SHOWN,
        slot < NUM_FILES_SHOWN,
        gone < NUM_FILES_SHOWN,
        gone != slot,
        slot_shown(files, skip, deleted, slot),
    ensures
        ({
            let marked = deleted.update(gone as int, true);
            let before = chart(files, skip, total, deleted);
            let after = chart(files, skip, total_after, marked);
            let label = slot_label(slot, files[(skip + slot) as int]);
            &&& slot_shown(files, skip, marked, slot)
            &&& shown_count(files, skip, deleted, slot) < before.len() - 1
            &&& shown_count(files, skip, marked, slot) < after.len() - 1
            &&& before[shown_count(files, skip, deleted, slot) as int].label == label
            &&& after[shown_count(files, skip, marked, slot) as int].label == label
            &&& label.take(3) == seq!['(', digit_char(slot + 1), ')']
        }),
{
    let marked = deleted.update(gone as int, true);
    lemma_slice_of_slot(files, skip, total, deleted, NUM_FILES_SHOWN as nat, slot);
    lemma_slice_of_slot(files, skip, total_after, marked, NUM_FILES_SHOWN as nat, slot);
    lemma_label_starts_with_number(slot, files[(skip + slot) as int]);
}

/// The files that the first slots show are no larger together than those
/// that more slots show.
proof fn lemma_shown_size_grows(
    files: Seq<LameFile>,
    skip: nat,
    deleted: Seq<bool>,
    fewer: nat,
    more: nat,
)
    requires
        fewer <= more,
    ensures
        shown_size(files, skip, deleted, fewer) <= shown_size(files, skip, deleted, more),
    decreases more,
{
    if fewer < more {
        lemma_shown_size_grows(files, skip, deleted, fewer, (more - 1) as nat);
    }
}

} // verus!
