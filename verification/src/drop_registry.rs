//! The registry of open Drops: each Drop id maps to the files it holds, its
//! place on screen and whether it has received content.
//!
//! Geometry is a type parameter `G`: the registry stores and hands back the
//! position and size of each Drop but never computes with them.
use crate::file::{paths_refer_to_same_file, same_path, FileMetadata, PathCase};
use crate::text::{has_prefix, join3, str_equal, strip_prefix};
use vstd::prelude::*;
use vstd::string::*;

verus! {

pub const DROP_LABEL_PREFIX: &'static str = "drop-";

pub const POPUP_LABEL_PREFIX: &'static str = "popup-";


/// The Drop id a window label carries: what follows the Drop or popup label
/// prefix, when the label starts with one of them.
pub open spec fn label_drop_id(label: Seq<char>) -> Option<Seq<char>> {
    if has_prefix(label, DROP_LABEL_PREFIX@) {
        Some(label.subrange(DROP_LABEL_PREFIX@.len() as int, label.len() as int))
    } else if has_prefix(label, POPUP_LABEL_PREFIX@) {
        Some(label.subrange(POPUP_LABEL_PREFIX@.len() as int, label.len() as int))
    } else {
        None
    }
}

/// The Drop id carried by the label of a Drop window or of its popup.
pub fn drop_id_from_label(label: &str) -> (id: Result<&str, String>)
    ensures
        label_drop_id(label@) is None ==> (id matches Err(e) && e@ == "Window "@ + label@
            + " is not associated with a Drop"@),
        label_drop_id(label@) matches Some(d) ==> (d.len() == 0 ==> (id matches Err(e) && e@
            == "Window "@ + label@ + " has an invalid Drop identifier"@)),
        label_drop_id(label@) matches Some(d) ==> (d.len() > 0 ==> (id matches Ok(i) && i@ == d)),
{
    let stripped = match strip_prefix(label, DROP_LABEL_PREFIX) {
        Some(rest) => Some(rest),
        None => strip_prefix(label, POPUP_LABEL_PREFIX),
    };
    match stripped {
        None => Err(join3("Window ", label, " is not associated with a Drop")),
        Some(rest) => {
            if rest.unicode_len() == 0 {
                Err(join3("Window ", label, " has an invalid Drop identifier"))
            } else {
                Ok(rest)
            }
        },
    }
}

/// The label of the window that shows a Drop.
pub fn drop_label(drop_id: &str) -> (label: String)
    ensures
        label@ == DROP_LABEL_PREFIX@ + drop_id@,
{
    let mut label = String::from_str(DROP_LABEL_PREFIX);
    label.append(drop_id);
    label
}

/// The label of the popup window that lists a Drop's files.
pub fn popup_label(drop_id: &str) -> (label: String)
    ensures
        label@ == POPUP_LABEL_PREFIX@ + drop_id@,
{
    let mut label = String::from_str(POPUP_LABEL_PREFIX);
    label.append(drop_id);
    label
}

/// Whether a window label belongs to a Drop popup.
pub fn is_popup_label(label: &str) -> (popup: bool)
    ensures
        popup == has_prefix(label@, POPUP_LABEL_PREFIX@),
{
    strip_prefix(label, POPUP_LABEL_PREFIX).is_some()
}

/// Whether a window label belongs to a Drop window.
pub fn is_drop_label(label: &str) -> (drop: bool)
    ensures
        drop == has_prefix(label@, DROP_LABEL_PREFIX@),
{
    strip_prefix(label, DROP_LABEL_PREFIX).is_some()
}

/// Where a visible Drop stands and how large it is.
#[derive(Debug, Clone, Copy, PartialEq)]
pub struct DropBounds<G> {
    pub position: G,
    pub size: G,
}

/// The state of one Drop.
#[derive(Debug)]
pub struct DropState<G> {
    pub files: Vec<FileMetadata>,
    pub next_file_id: u64,
    pub position: G,
    pub size: G,
    pub received_content: bool,
    /// A prepared Drop waits hidden until it is activated.
    pub prepared: bool,
}

/// The mathematical value of a `DropState`.
pub struct DropStateView<G> {
    pub files: Seq<FileMetadata>,
    pub next_file_id: u64,
    pub position: G,
    pub size: G,
    pub received_content: bool,
    pub prepared: bool,
}

impl<G> View for DropState<G> {
    type V = DropStateView<G>;

    open spec fn view(&self) -> DropStateView<G> {
        DropStateView {
            files: self.files@,
            next_file_id: self.next_file_id,
            position: self.position,
            size: self.size,
            received_content: self.received_content,
            prepared: self.prepared,
        }
    }
}

/// A state as a Drop starts: no files, ids from 0, nothing received.
pub open spec fn is_fresh_state<G>(st: DropStateView<G>, position: G, size: G, prepared: bool) -> bool {
    &&& st.files.len() == 0
    &&& st.next_file_id == 0
    &&& st.position == position
    &&& st.size == size
    &&& !st.received_content
    &&& st.prepared == prepared
}

/// What a file transfer reports: how many files left the source and whether
/// the source is empty afterwards.
#[derive(Debug, Clone, Copy, PartialEq, Eq)]
pub struct TransferOutcome {
    pub transferred_count: usize,
    pub source_empty: bool,
}

impl Default for TransferOutcome {
    fn default() -> (outcome: Self)
        ensures
            outcome.transferred_count == 0,
            !outcome.source_empty,
    {
        TransferOutcome { transferred_count: 0, source_empty: false }
    }
}

/// The message for a Drop id that names no open Drop.
pub open spec fn no_longer_open(id: Seq<char>) -> Seq<char> {
    "Drop "@ + id + " is no longer open"@
}

/// The message for creating a Drop under an id already in use.
pub open spec fn already_exists(id: Seq<char>) -> Seq<char> {
    "Drop "@ + id + " already exists"@
}

/// The message for activating a Drop that is not waiting prepared.
pub open spec fn not_prepared(id: Seq<char>) -> Seq<char> {
    "Drop "@ + id + " is not prepared"@
}

/// Some file of `files` has a path naming the same file as `path`.
pub open spec fn holds_path(files: Seq<FileMetadata>, path: Seq<char>, case: PathCase) -> bool {
    exists|j: int| 0 <= j < files.len() && same_path(#[trigger] files[j].path@, path, case)
}

/// `st` after adding `incoming` in order: a file whose path the Drop already
/// holds is skipped, any other gets the next file id.
pub open spec fn merge_files<G>(
    st: DropStateView<G>,
    incoming: Seq<FileMetadata>,
    case: PathCase,
) -> DropStateView<G>
    decreases incoming.len(),
{
    if incoming.len() == 0 {
        st
    } else {
        let prior = merge_files(st, incoming.drop_last(), case);
        let file = incoming.last();
        if holds_path(prior.files, file.path@, case) {
            prior
        } else {
            DropStateView {
                files: prior.files.push(FileMetadata { id: prior.next_file_id, ..file }),
                next_file_id: (prior.next_file_id + 1) as u64,
                ..prior
            }
        }
    }
}

/// Adding `incoming` to `st` never needs a file id past `u64::MAX`.
pub open spec fn merge_fits<G>(st: DropStateView<G>, incoming: Seq<FileMetadata>, case: PathCase) -> bool
    decreases incoming.len(),
{
    if incoming.len() == 0 {
        true
    } else {
        let prior = merge_files(st, incoming.drop_last(), case);
        &&& merge_fits(st, incoming.drop_last(), case)
        &&& (holds_path(prior.files, incoming.last().path@, case) || prior.next_file_id
            < u64::MAX)
    }
}

/// The files of `files` whose id is among `ids`, in order.
pub open spec fn selected_files(files: Seq<FileMetadata>, ids: Seq<u64>) -> Seq<FileMetadata>
    decreases files.len(),
{
    if files.len() == 0 {
        files
    } else {
        let rest = selected_files(files.drop_last(), ids);
        if ids.contains(files.last().id) {
            rest.push(files.last())
        } else {
            rest
        }
    }
}

/// The files of `files` whose id is not among `ids`, in order.
pub open spec fn unselected_files(files: Seq<FileMetadata>, ids: Seq<u64>) -> Seq<FileMetadata>
    decreases files.len(),
{
    if files.len() == 0 {
        files
    } else {
        let rest = unselected_files(files.drop_last(), ids);
        if ids.contains(files.last().id) {
            rest
        } else {
            rest.push(files.last())
        }
    }
}


proof fn lemma_merge_fits_prefix<G>(st: DropStateView<G>, incoming: Seq<FileMetadata>, case: PathCase, k: int)
    requires
        merge_fits(st, incoming, case),
        0 <= k <= incoming.len(),
    ensures
        merge_fits(st, incoming.take(k), case),
    decreases incoming.len(),
{
    if k == incoming.len() {
        assert(incoming.take(k) =~= incoming);
    } else {
        assert(incoming.drop_last().take(k) =~= incoming.take(k));
        lemma_merge_fits_prefix(st, incoming.drop_last(), case, k);
    }
}

/// Whether `files` holds a file whose path names the same file as `path`.
pub(crate) fn contains_path(files: &Vec<FileMetadata>, path: &str, case: PathCase) -> (found: bool)
    ensures
        found == holds_path(files@, path@, case),
{
    let mut i: usize = 0;
    while i < files.len()
        invariant
            i <= files@.len(),
            forall|j: int| 0 <= j < i ==> !same_path(#[trigger] files@[j].path@, path@, case),
        decreases files@.len() - i,
    {
        if paths_refer_to_same_file(files[i].path.as_str(), path, case) {
            return true;
        }
        i = i + 1;
    }
    false
}

/// Adds `incoming` to `state` in order, skipping files whose path it already
/// holds and numbering the others from its next file id.
pub(crate) fn merge_into<G>(state: &mut DropState<G>, incoming: &Vec<FileMetadata>, case: PathCase)
    requires
        merge_fits(old(state)@, incoming@, case),
    ensures
        final(state)@ == merge_files(old(state)@, incoming@, case),
{
    let ghost start = state@;
    let mut i: usize = 0;
    assert(incoming@.take(0) =~= Seq::<FileMetadata>::empty());
    while i < incoming.len()
        invariant
            i <= incoming@.len(),
            merge_fits(start, incoming@, case),
            state@ == merge_files(start, incoming@.take(i as int), case),
        decreases incoming@.len() - i,
    {
        let ghost prefix = incoming@.take(i as int + 1);
        assert(prefix.drop_last() =~= incoming@.take(i as int));
        assert(prefix.last() == incoming@[i as int]);
        proof {
            lemma_merge_fits_prefix(start, incoming@, case, i as int + 1);
        }
        if !contains_path(&state.files, incoming[i].path.as_str(), case) {
            let mut file = incoming[i].clone();
            file.id = state.next_file_id;
            state.next_file_id = state.next_file_id + 1;
            state.files.push(file);
        }
        i = i + 1;
    }
    assert(incoming@.take(incoming@.len() as int) =~= incoming@);
}

/// Whether `ids` holds `id`.
fn slice_contains(ids: &[u64], id: u64) -> (found: bool)
    ensures
        found == ids@.contains(id),
{
    let mut i: usize = 0;
    while i < ids.len()
        invariant
            i <= ids@.len(),
            forall|j: int| 0 <= j < i ==> ids@[j] != id,
        decreases ids@.len() - i,
    {
        if ids[i] == id {
            return true;
        }
        i = i + 1;
    }
    false
}

/// Splits `files` into those whose id is among `ids` and the rest, both in
/// the order they had in `files`.
fn partition_files(files: &Vec<FileMetadata>, ids: &[u64]) -> (parts: (Vec<FileMetadata>, Vec<FileMetadata>))
    ensures
        parts.0@ == selected_files(files@, ids@),
        parts.1@ == unselected_files(files@, ids@),
{
    let mut moved: Vec<FileMetadata> = Vec::new();
    let mut kept: Vec<FileMetadata> = Vec::new();
    let mut i: usize = 0;
    assert(files@.take(0) =~= Seq::<FileMetadata>::empty());
    while i < files.len()
        invariant
            i <= files@.len(),
            moved@ == selected_files(files@.take(i as int), ids@),
            kept@ == unselected_files(files@.take(i as int), ids@),
        decreases files@.len() - i,
    {
        let ghost prefix = files@.take(i as int + 1);
        assert(prefix.drop_last() =~= files@.take(i as int));
        assert(prefix.last() == files@[i as int]);
        let file = files[i].clone();
        if slice_contains(ids, files[i].id) {
            moved.push(file);
        } else {
            kept.push(file);
        }
        i = i + 1;
    }
    assert(files@.take(files@.len() as int) =~= files@);
    (moved, kept)
}


/// What moving the files listed by `ids` from `source` to `target` reports: a
/// transfer within one Drop, or of no file, reports nothing moved; a closed
/// Drop is an error; otherwise the number of files that left `source` and
/// whether it is left empty.
pub open spec fn transfer_outcome<G>(
    drops: Map<Seq<char>, DropStateView<G>>,
    source: Seq<char>,
    target: Seq<char>,
    ids: Seq<u64>,
) -> Result<TransferOutcome, Seq<char>> {
    if source == target || ids.len() == 0 {
        Ok(TransferOutcome { transferred_count: 0, source_empty: false })
    } else if !drops.contains_key(source) {
        Err(no_longer_open(source))
    } else if !drops.contains_key(target) {
        Err(no_longer_open(target))
    } else {
        let moved = selected_files(drops[source].files, ids);
        let kept = unselected_files(drops[source].files, ids);
        Ok(TransferOutcome { transferred_count: moved.len() as usize, source_empty: kept.len() == 0 })
    }
}

/// The Drops after moving the files listed by `ids` from `source` to
/// `target`: `source` keeps the unlisted files; when files moved, `target` is
/// marked as having received content and gains those whose path it does not
/// hold yet, under fresh ids.
pub open spec fn after_transfer<G>(
    drops: Map<Seq<char>, DropStateView<G>>,
    case: PathCase,
    source: Seq<char>,
    target: Seq<char>,
    ids: Seq<u64>,
) -> Map<Seq<char>, DropStateView<G>> {
    if source == target || ids.len() == 0 || !drops.contains_key(source) || !drops.contains_key(target) {
        drops
    } else {
        let moved = selected_files(drops[source].files, ids);
        let kept = unselected_files(drops[source].files, ids);
        let emptied = drops.insert(source, DropStateView { files: kept, ..drops[source] });
        if moved.len() == 0 {
            emptied
        } else {
            emptied.insert(
                target,
                merge_files(DropStateView { received_content: true, ..drops[target] }, moved, case),
            )
        }
    }
}

/// A returned result reports the expected one: the same value, or an error
/// with the expected message.
pub open spec fn reports<T>(result: Result<T, String>, expected: Result<T, Seq<char>>) -> bool {
    match expected {
        Ok(v) => result == Ok::<T, String>(v),
        Err(m) => result matches Err(e) && e@ == m,
    }
}


/// No two files of `files` name the same file.
pub open spec fn distinct_paths(files: Seq<FileMetadata>, case: PathCase) -> bool {
    forall|i: int, j: int|
        0 <= i < j < files.len() ==> !same_path(#[trigger] files[i].path@, #[trigger] files[j].path@, case)
}

/// Every file of `files` has an id below `next`, and no two share an id.
pub open spec fn fresh_ids(files: Seq<FileMetadata>, next: u64) -> bool {
    &&& forall|i: int| 0 <= i < files.len() ==> (#[trigger] files[i]).id < next
    &&& forall|i: int, j: int| 0 <= i < j < files.len() ==> (#[trigger] files[i]).id != (#[trigger] files[j]).id
}

/// Adding files never gives a Drop two files that name the same file.
pub proof fn lemma_merge_keeps_paths_distinct<G>(st: DropStateView<G>, incoming: Seq<FileMetadata>, case: PathCase)
    requires
        distinct_paths(st.files, case),
    ensures
        distinct_paths(merge_files(st, incoming, case).files, case),
    decreases incoming.len(),
{
    if incoming.len() > 0 {
        lemma_merge_keeps_paths_distinct(st, incoming.drop_last(), case);
        let prior = merge_files(st, incoming.drop_last(), case);
        let file = incoming.last();
        if !holds_path(prior.files, file.path@, case) {
            let files = merge_files(st, incoming, case).files;
            assert forall|i: int, j: int| 0 <= i < j < files.len() implies !same_path(#[trigger] files[i].path@, #[trigger] files[j].path@, case) by {
                if j == files.len() - 1 {
                    assert(files[i] == prior.files[i]);
                    assert(!same_path(prior.files[i].path@, file.path@, case));
                } else {
                    assert(files[i] == prior.files[i]);
                    assert(files[j] == prior.files[j]);
                }
            }
        }
    }
}

/// Adding files keeps the file ids of a Drop distinct and below its next file
/// id: every added file gets a fresh one.
pub proof fn lemma_merge_keeps_ids_fresh<G>(st: DropStateView<G>, incoming: Seq<FileMetadata>, case: PathCase)
    requires
        fresh_ids(st.files, st.next_file_id),
        merge_fits(st, incoming, case),
    ensures
        ({
            let merged = merge_files(st, incoming, case);
            &&& fresh_ids(merged.files, merged.next_file_id)
            &&& merged.next_file_id >= st.next_file_id
        }),
    decreases incoming.len(),
{
    if incoming.len() > 0 {
        lemma_merge_keeps_ids_fresh(st, incoming.drop_last(), case);
        let prior = merge_files(st, incoming.drop_last(), case);
        let file = incoming.last();
        if !holds_path(prior.files, file.path@, case) {
            let merged = merge_files(st, incoming, case);
            let files = merged.files;
            assert forall|i: int| 0 <= i < files.len() implies (#[trigger] files[i]).id < merged.next_file_id by {
                if i < files.len() - 1 {
                    assert(files[i] == prior.files[i]);
                }
            }
            assert forall|i: int, j: int| 0 <= i < j < files.len() implies (#[trigger] files[i]).id != (#[trigger] files[j]).id by {
                assert(files[i] == prior.files[i]);
                if j < files.len() - 1 {
                    assert(files[j] == prior.files[j]);
                }
            }
        }
    }
}

/// Adding files keeps every file the Drop held, in place, and keeps its place
/// on screen and its flags.
pub proof fn lemma_merge_keeps_existing_files<G>(st: DropStateView<G>, incoming: Seq<FileMetadata>, case: PathCase)
    ensures
        ({
            let merged = merge_files(st, incoming, case);
            &&& merged.files.len() >= st.files.len()
            &&& merged.files.subrange(0, st.files.len() as int) == st.files
            &&& merged.position == st.position
            &&& merged.size == st.size
            &&& merged.received_content == st.received_content
            &&& merged.prepared == st.prepared
        }),
    decreases incoming.len(),
{
    if incoming.len() > 0 {
        lemma_merge_keeps_existing_files(st, incoming.drop_last(), case);
        let prior = merge_files(st, incoming.drop_last(), case);
        let merged = merge_files(st, incoming, case);
        assert(merged.files.subrange(0, st.files.len() as int) =~= prior.files.subrange(0, st.files.len() as int));
    }
}

/// A transfer splits the source's files: each goes either to the moved files
/// (its id is listed) or to the kept ones (it is not), and none is lost.
pub proof fn lemma_transfer_partitions_files(files: Seq<FileMetadata>, ids: Seq<u64>)
    ensures
        selected_files(files, ids).len() + unselected_files(files, ids).len() == files.len(),
        forall|i: int| 0 <= i < selected_files(files, ids).len() ==> ids.contains(#[trigger] selected_files(files, ids)[i].id)
            && files.contains(selected_files(files, ids)[i]),
        forall|i: int| 0 <= i < unselected_files(files, ids).len() ==> !ids.contains(#[trigger] unselected_files(files, ids)[i].id)
            && files.contains(unselected_files(files, ids)[i]),
    decreases files.len(),
{
    if files.len() > 0 {
        let rest = files.drop_last();
        lemma_transfer_partitions_files(rest, ids);
        let sel = selected_files(files, ids);
        let unsel = unselected_files(files, ids);
        assert forall|i: int| 0 <= i < sel.len() implies ids.contains(#[trigger] sel[i].id) && files.contains(sel[i]) by {
            if i < selected_files(rest, ids).len() {
                assert(sel[i] == selected_files(rest, ids)[i]);
                assert(0 <= i < selected_files(rest, ids).len());
                assert(ids.contains(selected_files(rest, ids)[i].id));
                assert(rest.contains(selected_files(rest, ids)[i]));
                let k = choose|k: int| 0 <= k < rest.len() && rest[k] == sel[i];
                assert(files[k] == rest[k]);
            } else {
                assert(sel[i] == files.last());
                assert(files[files.len() - 1] == files.last());
            }
        }
        assert forall|i: int| 0 <= i < unsel.len() implies !ids.contains(#[trigger] unsel[i].id) && files.contains(unsel[i]) by {
            if i < unselected_files(rest, ids).len() {
                assert(unsel[i] == unselected_files(rest, ids)[i]);
                assert(0 <= i < unselected_files(rest, ids).len());
                assert(!ids.contains(unselected_files(rest, ids)[i].id));
                assert(rest.contains(unselected_files(rest, ids)[i]));
                let k = choose|k: int| 0 <= k < rest.len() && rest[k] == unsel[i];
                assert(files[k] == rest[k]);
            } else {
                assert(unsel[i] == files.last());
                assert(files[files.len() - 1] == files.last());
            }
        }
    }
}

/// Adding files leaves the Drop holding the path of every added file: either
/// it held that path already, or the file was added.
pub proof fn lemma_merge_holds_every_incoming_path<G>(st: DropStateView<G>, incoming: Seq<FileMetadata>, case: PathCase)
    ensures
        forall|k: int| 0 <= k < incoming.len() ==> holds_path(merge_files(st, incoming, case).files, #[trigger] incoming[k].path@, case),
        forall|k: int| 0 <= k < st.files.len() ==> holds_path(merge_files(st, incoming, case).files, #[trigger] st.files[k].path@, case),
    decreases incoming.len(),
{
    lemma_merge_keeps_existing_files(st, incoming, case);
    let merged = merge_files(st, incoming, case).files;
    assert forall|k: int| 0 <= k < st.files.len() implies holds_path(merged, #[trigger] st.files[k].path@, case) by {
        crate::file::lemma_same_path_is_an_equivalence(st.files[k].path@, st.files[k].path@, st.files[k].path@, case);
        assert(merged.subrange(0, st.files.len() as int)[k] == merged[k]);
        assert(same_path(merged[k].path@, st.files[k].path@, case));
    }
    if incoming.len() > 0 {
        let rest = incoming.drop_last();
        lemma_merge_holds_every_incoming_path(st, rest, case);
        let prior = merge_files(st, rest, case);
        let file = incoming.last();
        lemma_merge_keeps_existing_files(prior, seq![file], case);
        assert forall|k: int| 0 <= k < incoming.len() implies holds_path(merged, #[trigger] incoming[k].path@, case) by {
            if k < rest.len() {
                assert(rest[k] == incoming[k]);
                assert(holds_path(prior.files, rest[k].path@, case));
                let j = choose|j: int| 0 <= j < prior.files.len() && same_path(#[trigger] prior.files[j].path@, rest[k].path@, case);
                if holds_path(prior.files, file.path@, case) {
                } else {
                    assert(merged[j] == prior.files[j]);
                }
            } else {
                assert(incoming[k] == file);
                crate::file::lemma_same_path_is_an_equivalence(file.path@, file.path@, file.path@, case);
                if !holds_path(prior.files, file.path@, case) {
                    let n = prior.files.len() as int;
                    assert(merged[n].path@ == file.path@);
                    assert(same_path(merged[n].path@, file.path@, case));
                }
            }
        }
    }
}

proof fn lemma_selection_is_complete(files: Seq<FileMetadata>, ids: Seq<u64>)
    ensures
        forall|i: int| 0 <= i < files.len() && ids.contains(#[trigger] files[i].id) ==> selected_files(files, ids).contains(files[i]),
        forall|i: int| 0 <= i < files.len() && !ids.contains(#[trigger] files[i].id) ==> unselected_files(files, ids).contains(files[i]),
    decreases files.len(),
{
    if files.len() > 0 {
        let rest = files.drop_last();
        lemma_selection_is_complete(rest, ids);
        let sel = selected_files(files, ids);
        let unsel = unselected_files(files, ids);
        assert forall|i: int| 0 <= i < files.len() && ids.contains(#[trigger] files[i].id) implies sel.contains(files[i]) by {
            if i < rest.len() {
                assert(rest[i] == files[i]);
                let k = choose|k: int| 0 <= k < selected_files(rest, ids).len() && selected_files(rest, ids)[k] == files[i];
                assert(sel[k] == files[i]);
            } else {
                assert(files[i] == files.last());
                assert(sel[sel.len() - 1] == files[i]);
            }
        }
        assert forall|i: int| 0 <= i < files.len() && !ids.contains(#[trigger] files[i].id) implies unsel.contains(files[i]) by {
            if i < rest.len() {
                assert(rest[i] == files[i]);
                let k = choose|k: int| 0 <= k < unselected_files(rest, ids).len() && unselected_files(rest, ids)[k] == files[i];
                assert(unsel[k] == files[i]);
            } else {
                assert(files[i] == files.last());
                assert(unsel[unsel.len() - 1] == files[i]);
            }
        }
    }
}

/// A transfer between two different open Drops moves the listed files: no
/// file left in the source carries a listed id, every unlisted file of the
/// source stays there, the target holds the path of every listed file, the
/// outcome (when ids are listed) counts the moved files and tells whether the
/// source is left empty, and no other Drop opens, closes or changes.
pub proof fn lemma_transfer_moves_listed_files<G>(
    drops: Map<Seq<char>, DropStateView<G>>,
    case: PathCase,
    source: Seq<char>,
    target: Seq<char>,
    ids: Seq<u64>,
)
    requires
        source != target,
        drops.contains_key(source),
        drops.contains_key(target),
        drops[source].files.len() <= usize::MAX,
    ensures
        ({
            let after = after_transfer(drops, case, source, target, ids);
            let files = drops[source].files;
            &&& after.dom() == drops.dom()
            &&& forall|d: Seq<char>| #[trigger] drops.contains_key(d) && d != source && d != target ==> after[d] == drops[d]
            &&& forall|k: int| 0 <= k < after[source].files.len() ==> !ids.contains(#[trigger] after[source].files[k].id)
                && files.contains(after[source].files[k])
            &&& forall|i: int| 0 <= i < files.len() && !ids.contains(#[trigger] files[i].id) ==> after[source].files.contains(files[i])
            &&& forall|i: int| 0 <= i < files.len() && ids.contains(#[trigger] files[i].id) ==> holds_path(after[target].files, files[i].path@, case)
            &&& forall|k: int| 0 <= k < drops[target].files.len() ==> holds_path(after[target].files, #[trigger] drops[target].files[k].path@, case)
            &&& ids.len() > 0 ==> (transfer_outcome(drops, source, target, ids) matches Ok(o) && o.source_empty == (
                after[source].files.len() == 0) && o.transferred_count + after[source].files.len() == files.len())
        }),
{
    let files = drops[source].files;
    lemma_transfer_partitions_files(files, ids);
    lemma_selection_is_complete(files, ids);
    let moved = selected_files(files, ids);
    let kept = unselected_files(files, ids);
    let after = after_transfer(drops, case, source, target, ids);
    if ids.len() == 0 {
        assert forall|i: int| 0 <= i < files.len() && !ids.contains(#[trigger] files[i].id) implies after[source].files.contains(files[i]) by {
            assert(after[source].files[i] == files[i]);
        }
        assert forall|k: int| 0 <= k < after[source].files.len() implies !ids.contains(#[trigger] after[source].files[k].id)
            && files.contains(after[source].files[k]) by {
            assert(after[source].files[k] == files[k]);
        }
        crate::drop_registry::lemma_nothing_selected(files, ids);
        let t = drops[target].files;
        assert forall|k: int| 0 <= k < t.len() implies holds_path(after[target].files, #[trigger] t[k].path@, case) by {
            crate::file::lemma_same_path_is_an_equivalence(t[k].path@, t[k].path@, t[k].path@, case);
        }
    } else {
        let marked = DropStateView { received_content: true, ..drops[target] };
        lemma_merge_holds_every_incoming_path(marked, moved, case);
        assert(after[source].files == kept);
        if moved.len() == 0 {
            let t = drops[target].files;
            assert forall|k: int| 0 <= k < t.len() implies holds_path(after[target].files, #[trigger] t[k].path@, case) by {
                crate::file::lemma_same_path_is_an_equivalence(t[k].path@, t[k].path@, t[k].path@, case);
            }
        } else {
            assert(after[target] == merge_files(marked, moved, case));
            assert(marked.files == drops[target].files);
            assert forall|i: int| 0 <= i < files.len() && ids.contains(#[trigger] files[i].id) implies holds_path(after[target].files, files[i].path@, case) by {
                let k = choose|k: int| 0 <= k < moved.len() && moved[k] == files[i];
                assert(holds_path(after[target].files, moved[k].path@, case));
            }
        }
        assert(after.dom() =~= drops.dom());
    }
}

/// When no file of the source carries a listed id, a transfer changes
/// nothing and reports nothing moved.
pub proof fn lemma_transfer_of_unknown_ids_changes_nothing<G>(
    drops: Map<Seq<char>, DropStateView<G>>,
    case: PathCase,
    source: Seq<char>,
    target: Seq<char>,
    ids: Seq<u64>,
)
    requires
        drops.contains_key(source),
        forall|i: int| 0 <= i < drops[source].files.len() ==> !ids.contains(#[trigger] drops[source].files[i].id),
    ensures
        after_transfer(drops, case, source, target, ids) == drops,
        source != target && ids.len() > 0 && drops.contains_key(target) ==> transfer_outcome(drops, source, target, ids) == Ok::<TransferOutcome, Seq<char>>(
            TransferOutcome { transferred_count: 0, source_empty: drops[source].files.len() == 0 },
        ),
{
    lemma_nothing_selected(drops[source].files, ids);
    assert(drops.insert(source, DropStateView { files: drops[source].files, ..drops[source] }) =~= drops);
}

proof fn lemma_nothing_selected(files: Seq<FileMetadata>, ids: Seq<u64>)
    requires
        forall|i: int| 0 <= i < files.len() ==> !ids.contains(#[trigger] files[i].id),
    ensures
        selected_files(files, ids).len() == 0,
        unselected_files(files, ids) == files,
    decreases files.len(),
{
    if files.len() > 0 {
        let rest = files.drop_last();
        assert forall|i: int| 0 <= i < rest.len() implies !ids.contains(#[trigger] rest[i].id) by {
            assert(rest[i] == files[i]);
        }
        lemma_nothing_selected(rest, ids);
        assert(files.last() == files[files.len() - 1]);
        assert(rest.push(files.last()) =~= files);
    }
}

/// The label of a Drop window, and that of its popup, lead back to the Drop
/// id; a Drop label is never taken for a popup label or the other way round.
pub proof fn lemma_labels_round_trip(drop_id: Seq<char>)
    ensures
        label_drop_id(DROP_LABEL_PREFIX@ + drop_id) == Some(drop_id),
        label_drop_id(POPUP_LABEL_PREFIX@ + drop_id) == Some(drop_id),
        has_prefix(DROP_LABEL_PREFIX@ + drop_id, DROP_LABEL_PREFIX@),
        !has_prefix(DROP_LABEL_PREFIX@ + drop_id, POPUP_LABEL_PREFIX@),
        has_prefix(POPUP_LABEL_PREFIX@ + drop_id, POPUP_LABEL_PREFIX@),
        !has_prefix(POPUP_LABEL_PREFIX@ + drop_id, DROP_LABEL_PREFIX@),
{
    reveal_strlit("drop-");
    reveal_strlit("popup-");
    let d = DROP_LABEL_PREFIX@ + drop_id;
    let p = POPUP_LABEL_PREFIX@ + drop_id;
    assert(d.subrange(0, DROP_LABEL_PREFIX@.len() as int) =~= DROP_LABEL_PREFIX@);
    assert(d.subrange(DROP_LABEL_PREFIX@.len() as int, d.len() as int) =~= drop_id);
    assert(p.subrange(0, POPUP_LABEL_PREFIX@.len() as int) =~= POPUP_LABEL_PREFIX@);
    assert(p.subrange(POPUP_LABEL_PREFIX@.len() as int, p.len() as int) =~= drop_id);
    assert(d[0] == 'd');
    assert(p[0] == 'p');
    if has_prefix(d, POPUP_LABEL_PREFIX@) {
        assert(d.subrange(0, 6)[0] == d[0]);
    }
    if has_prefix(p, DROP_LABEL_PREFIX@) {
        assert(p.subrange(0, 5)[0] == p[0]);
    }
}

struct DropEntry<G> {
    id: String,
    state: DropState<G>,
}

/// The open Drops, by id.
pub struct DropRegistry<G> {
    drops: Vec<DropEntry<G>>,
    origin: G,
    default_size: G,
    path_case: PathCase,
}

impl<G: Copy> DropRegistry<G> {
    /// No two entries share an id.
    pub closed spec fn wf(&self) -> bool {
        forall|i: int, j: int|
            0 <= i < self.drops@.len() && 0 <= j < self.drops@.len() && i != j
                ==> #[trigger] self.drops@[i].id@ != #[trigger] self.drops@[j].id@
    }

    /// A Drop with this id is open.
    pub closed spec fn has_drop(&self, id: Seq<char>) -> bool {
        exists|i: int| 0 <= i < self.drops@.len() && #[trigger] self.drops@[i].id@ == id
    }

    closed spec fn index_of(&self, id: Seq<char>) -> int {
        choose|i: int| 0 <= i < self.drops@.len() && #[trigger] self.drops@[i].id@ == id
    }

    /// The state of the open Drop with this id.
    pub closed spec fn drop_state(&self, id: Seq<char>) -> DropState<G> {
        self.drops@[self.index_of(id)].state
    }

    /// The position that a prepared Drop holds until it is activated.
    pub closed spec fn origin(&self) -> G {
        self.origin
    }

    /// The size of a Drop created without one.
    pub closed spec fn default_size(&self) -> G {
        self.default_size
    }

    /// How this registry compares file paths.
    pub closed spec fn path_case(&self) -> PathCase {
        self.path_case
    }

    /// The open Drops: each id with the value of its state.
    pub open spec fn view(&self) -> Map<Seq<char>, DropStateView<G>> {
        Map::new(|id: Seq<char>| self.has_drop(id), |id: Seq<char>| self.drop_state(id)@)
    }

    proof fn lemma_entry(&self, i: int)
        requires
            self.wf(),
            0 <= i < self.drops@.len(),
        ensures
            self.has_drop(self.drops@[i].id@),
            self.index_of(self.drops@[i].id@) == i,
            self.drop_state(self.drops@[i].id@) == self.drops@[i].state,
            self@.contains_key(self.drops@[i].id@),
            self@[self.drops@[i].id@] == self.drops@[i].state@,
    {
        let k = self.drops@[i].id@;
        assert(self.has_drop(k));
        let j = self.index_of(k);
        assert(self.drops@[j].id@ == k);
    }

    proof fn lemma_update(before: Self, after: Self, i: int)
        requires
            before.wf(),
            0 <= i < before.drops@.len(),
            after.drops@.len() == before.drops@.len(),
            after.drops@[i].id@ == before.drops@[i].id@,
            forall|j: int| 0 <= j < before.drops@.len() && j != i ==> after.drops@[j] == before.drops@[j],
        ensures
            after.wf(),
            after@ == before@.insert(before.drops@[i].id@, after.drops@[i].state@),
            after.drop_state(before.drops@[i].id@) == after.drops@[i].state,
    {
        let k = before.drops@[i].id@;
        assert forall|a: int, b: int|
            0 <= a < after.drops@.len() && 0 <= b < after.drops@.len() && a != b
                implies #[trigger] after.drops@[a].id@ != #[trigger] after.drops@[b].id@ by {
            assert(after.drops@[a].id@ == before.drops@[a].id@);
            assert(after.drops@[b].id@ == before.drops@[b].id@);
        }
        after.lemma_entry(i);
        assert forall|key: Seq<char>| #[trigger] after@.contains_key(key) <==> before@.insert(k, after.drops@[i].state@).contains_key(key) by {
            if before.has_drop(key) {
                let j = choose|j: int| 0 <= j < before.drops@.len() && #[trigger] before.drops@[j].id@ == key;
                assert(after.drops@[j].id@ == key);
                assert(after.has_drop(key));
            }
            if after.has_drop(key) {
                let j = choose|j: int| 0 <= j < after.drops@.len() && #[trigger] after.drops@[j].id@ == key;
                assert(before.drops@[j].id@ == key);
                assert(before.has_drop(key));
            }
        }
        assert forall|key: Seq<char>| #[trigger] after@.contains_key(key) && key != k implies after@[key] == before@[key] by {
            let j = choose|j: int| 0 <= j < after.drops@.len() && #[trigger] after.drops@[j].id@ == key;
            after.lemma_entry(j);
            assert(j != i);
            assert(after.drops@[j] == before.drops@[j]);
            before.lemma_entry(j);
        }
        assert(after@ =~= before@.insert(k, after.drops@[i].state@));
    }

    proof fn lemma_remove(before: Self, after: Self, i: int)
        requires
            before.wf(),
            0 <= i < before.drops@.len(),
            after.drops@ == before.drops@.remove(i),
        ensures
            after.wf(),
            after@ == before@.remove(before.drops@[i].id@),
    {
        let k = before.drops@[i].id@;
        let n = before.drops@.len();
        assert forall|a: int| 0 <= a < after.drops@.len() implies #[trigger] after.drops@[a] == before.drops@[if a < i { a } else { a + 1 }] by {}
        assert forall|a: int, b: int|
            0 <= a < after.drops@.len() && 0 <= b < after.drops@.len() && a != b
                implies #[trigger] after.drops@[a].id@ != #[trigger] after.drops@[b].id@ by {
            let a2 = if a < i { a } else { a + 1 };
            let b2 = if b < i { b } else { b + 1 };
            assert(after.drops@[a] == before.drops@[a2]);
            assert(after.drops@[b] == before.drops@[b2]);
        }
        before.lemma_entry(i);
        assert forall|key: Seq<char>| #[trigger] after@.contains_key(key) <==> before@.remove(k).contains_key(key) by {
            if before.has_drop(key) && key != k {
                let j = choose|j: int| 0 <= j < before.drops@.len() && #[trigger] before.drops@[j].id@ == key;
                assert(j != i);
                let j2 = if j < i { j } else { j - 1 };
                assert(after.drops@[j2] == before.drops@[j]);
                assert(after.has_drop(key));
            }
            if after.has_drop(key) {
                let j = choose|j: int| 0 <= j < after.drops@.len() && #[trigger] after.drops@[j].id@ == key;
                let j2 = if j < i { j } else { j + 1 };
                assert(after.drops@[j] == before.drops@[j2]);
                assert(before.has_drop(key));
                assert(j2 != i);
            }
        }
        assert forall|key: Seq<char>| #[trigger] after@.contains_key(key) implies after@[key] == before@[key] by {
            let j = choose|j: int| 0 <= j < after.drops@.len() && #[trigger] after.drops@[j].id@ == key;
            after.lemma_entry(j);
            let j2 = if j < i { j } else { j + 1 };
            assert(after.drops@[j] == before.drops@[j2]);
            before.lemma_entry(j2);
        }
        assert(after@ =~= before@.remove(k));
    }

    /// An empty registry.
    pub fn new(origin: G, default_size: G, path_case: PathCase) -> (registry: Self)
        ensures
            registry.wf(),
            registry@ == Map::<Seq<char>, DropStateView<G>>::empty(),
            registry.origin() == origin,
            registry.default_size() == default_size,
            registry.path_case() == path_case,
    {
        let registry = DropRegistry { drops: Vec::new(), origin, default_size, path_case };
        assert(registry@ =~= Map::<Seq<char>, DropStateView<G>>::empty());
        registry
    }

    fn find(&self, id: &str) -> (found: Option<usize>)
        requires
            self.wf(),
        ensures
            match found {
                Some(i) => i < self.drops@.len() && self.drops@[i as int].id@ == id@
                    && self@.contains_key(id@) && self@[id@] == self.drops@[i as int].state@
                    && self.drop_state(id@) == self.drops@[i as int].state,
                None => !self@.contains_key(id@),
            },
    {
        let mut i: usize = 0;
        while i < self.drops.len()
            invariant
                self.wf(),
                i <= self.drops@.len(),
                forall|j: int| 0 <= j < i ==> #[trigger] self.drops@[j].id@ != id@,
            decreases self.drops@.len() - i,
        {
            if str_equal(self.drops[i].id.as_str(), id) {
                proof {
                    self.lemma_entry(i as int);
                }
                return Some(i);
            }
            i = i + 1;
        }
        None
    }

    /// Whether a Drop with this id is open.
    pub fn contains(&self, drop_id: &str) -> (open: bool)
        requires
            self.wf(),
        ensures
            open == self@.contains_key(drop_id@),
    {
        self.find(drop_id).is_some()
    }

    fn create_with_state(&mut self, drop_id: String, position: G, size: G, prepared: bool) -> (result:
        Result<(), String>)
        requires
            old(self).wf(),
        ensures
            final(self).wf(),
            final(self).origin() == old(self).origin(),
            final(self).default_size() == old(self).default_size(),
            final(self).path_case() == old(self).path_case(),
            old(self)@.contains_key(drop_id@) ==> (result matches Err(e) && e@ == already_exists(drop_id@)
                && final(self)@ == old(self)@),
            !old(self)@.contains_key(drop_id@) ==> result is Ok && final(self)@.contains_key(
                drop_id@,
            ) && final(self)@.remove(drop_id@) == old(self)@ && is_fresh_state(
                final(self)@[drop_id@],
                position,
                size,
                prepared,
            ),
    {
        if self.find(drop_id.as_str()).is_some() {
            return Err(join3("Drop ", drop_id.as_str(), " already exists"));
        }
        let ghost before = *self;
        let ghost id = drop_id@;
        let state = DropState {
            files: Vec::new(),
            next_file_id: 0,
            position,
            size,
            received_content: false,
            prepared,
        };
        self.drops.push(DropEntry { id: drop_id, state });
        proof {
            let n = before.drops@.len();
            assert forall|i: int, j: int|
                0 <= i < self.drops@.len() && 0 <= j < self.drops@.len() && i != j
                    implies #[trigger] self.drops@[i].id@ != #[trigger] self.drops@[j].id@ by {
                if i < n && j < n {
                    assert(before.drops@[i] == self.drops@[i]);
                    assert(before.drops@[j] == self.drops@[j]);
                } else if i < n {
                    assert(before.drops@[i] == self.drops@[i]);
                    assert(!before@.contains_key(id));
                    if self.drops@[i].id@ == id {
                        assert(before.has_drop(id));
                    }
                } else if j < n {
                    assert(before.drops@[j] == self.drops@[j]);
                    if self.drops@[j].id@ == id {
                        assert(before.has_drop(id));
                    }
                }
            }
            self.lemma_entry(n as int);
            assert forall|k: Seq<char>| #[trigger] self@.remove(id).contains_key(k) <==> before@.contains_key(k) by {
                if before.has_drop(k) {
                    let j = choose|j: int| 0 <= j < before.drops@.len() && #[trigger] before.drops@[j].id@ == k;
                    assert(self.drops@[j] == before.drops@[j]);
                    assert(self.has_drop(k));
                }
                if self.has_drop(k) && k != id {
                    let j = choose|j: int| 0 <= j < self.drops@.len() && #[trigger] self.drops@[j].id@ == k;
                    assert(j < n);
                    assert(self.drops@[j] == before.drops@[j]);
                    assert(before.has_drop(k));
                }
            }
            assert forall|k: Seq<char>| #[trigger] before@.contains_key(k) implies self@.remove(id)[k] == before@[k] by {
                let j = choose|j: int| 0 <= j < before.drops@.len() && #[trigger] before.drops@[j].id@ == k;
                before.lemma_entry(j);
                assert(self.drops@[j] == before.drops@[j]);
                self.lemma_entry(j);
            }
            assert(self@.remove(id) =~= before@);
        }
        Ok(())
    }

    /// Opens a Drop at `position` with the default size.
    pub fn create(&mut self, drop_id: String, position: G) -> (result: Result<(), String>)
        requires
            old(self).wf(),
        ensures
            final(self).wf(),
            final(self).origin() == old(self).origin(),
            final(self).default_size() == old(self).default_size(),
            final(self).path_case() == old(self).path_case(),
            old(self)@.contains_key(drop_id@) ==> (result matches Err(e) && e@ == already_exists(drop_id@)
                && final(self)@ == old(self)@),
            !old(self)@.contains_key(drop_id@) ==> result is Ok && final(self)@.contains_key(
                drop_id@,
            ) && final(self)@.remove(drop_id@) == old(self)@ && is_fresh_state(
                final(self)@[drop_id@],
                position,
                old(self).default_size(),
                false,
            ),
    {
        let size = self.default_size;
        self.create_with_state(drop_id, position, size, false)
    }

    /// Opens a visible Drop at `position` with the given size.
    pub fn create_with_size(&mut self, drop_id: String, position: G, size: G) -> (result: Result<
        (),
        String,
    >)
        requires
            old(self).wf(),
        ensures
            final(self).wf(),
            final(self).origin() == old(self).origin(),
            final(self).default_size() == old(self).default_size(),
            final(self).path_case() == old(self).path_case(),
            old(self)@.contains_key(drop_id@) ==> (result matches Err(e) && e@ == already_exists(drop_id@)
                && final(self)@ == old(self)@),
            !old(self)@.contains_key(drop_id@) ==> result is Ok && final(self)@.contains_key(
                drop_id@,
            ) && final(self)@.remove(drop_id@) == old(self)@ && is_fresh_state(
                final(self)@[drop_id@],
                position,
                size,
                false,
            ),
    {
        self.create_with_state(drop_id, position, size, false)
    }

    /// Opens a prepared Drop: it waits hidden at the origin, with the default
    /// size, until it is activated.
    pub fn create_prepared(&mut self, drop_id: String) -> (result: Result<(), String>)
        requires
            old(self).wf(),
        ensures
            final(self).wf(),
            final(self).origin() == old(self).origin(),
            final(self).default_size() == old(self).default_size(),
            final(self).path_case() == old(self).path_case(),
            old(self)@.contains_key(drop_id@) ==> (result matches Err(e) && e@ == already_exists(drop_id@)
                && final(self)@ == old(self)@),
            !old(self)@.contains_key(drop_id@) ==> result is Ok && final(self)@.contains_key(
                drop_id@,
            ) && final(self)@.remove(drop_id@) == old(self)@ && is_fresh_state(
                final(self)@[drop_id@],
                old(self).origin(),
                old(self).default_size(),
                true,
            ),
    {
        let origin = self.origin;
        let size = self.default_size;
        self.create_with_state(drop_id, origin, size, true)
    }

    /// Shows a prepared Drop at `position` with `size`.
    pub fn activate_prepared(&mut self, drop_id: &str, position: G, size: G) -> (result: Result<(), String>)
        requires
            old(self).wf(),
        ensures
            final(self).wf(),
            final(self).origin() == old(self).origin(),
            final(self).default_size() == old(self).default_size(),
            final(self).path_case() == old(self).path_case(),
            !old(self)@.contains_key(drop_id@) ==> (result matches Err(e) && e@ == no_longer_open(drop_id@)
                && final(self)@ == old(self)@),
            old(self)@.contains_key(drop_id@) && !old(self)@[drop_id@].prepared ==> (result matches Err(e)
                && e@ == not_prepared(drop_id@) && final(self)@ == old(self)@),
            old(self)@.contains_key(drop_id@) && old(self)@[drop_id@].prepared ==> result is Ok
                && final(self)@ == old(self)@.insert(
                drop_id@,
                DropStateView { position, size, prepared: false, ..old(self)@[drop_id@] },
            ),
    {
        match self.find(drop_id) {
            None => Err(join3("Drop ", drop_id, " is no longer open")),
            Some(i) => {
                if !self.drops[i].state.prepared {
                    return Err(join3("Drop ", drop_id, " is not prepared"));
                }
                let ghost before = *self;
                self.drops[i].state.position = position;
                self.drops[i].state.size = size;
                self.drops[i].state.prepared = false;
                proof {
                    Self::lemma_update(before, *self, i as int);
                }
                Ok(())
            }
        }
    }

    /// Closes the Drop with this id and hands back its state.
    pub fn remove(&mut self, drop_id: &str) -> (removed: Option<DropState<G>>)
        requires
            old(self).wf(),
        ensures
            final(self).wf(),
            final(self).origin() == old(self).origin(),
            final(self).default_size() == old(self).default_size(),
            final(self).path_case() == old(self).path_case(),
            final(self)@ == old(self)@.remove(drop_id@),
            old(self)@.contains_key(drop_id@) ==> (removed matches Some(st) && st@ == old(self)@[drop_id@]),
            !old(self)@.contains_key(drop_id@) ==> removed is None,
    {
        match self.find(drop_id) {
            None => {
                assert(self@.remove(drop_id@) =~= self@);
                None
            },
            Some(i) => {
                let ghost before = *self;
                let entry = self.drops.remove(i);
                proof {
                    Self::lemma_remove(before, *self, i as int);
                }
                Some(entry.state)
            },
        }
    }

    /// Runs `operation` on the state of the Drop with this id.
    pub fn with_drop<T>(&self, drop_id: &str, operation: impl FnOnce(&DropState<G>) -> Result<T, String>) -> (result: Result<T, String>)
        requires
            self.wf(),
            self@.contains_key(drop_id@) ==> call_requires(operation, (&self.drop_state(drop_id@),)),
        ensures
            !self@.contains_key(drop_id@) ==> (result matches Err(e) && e@ == no_longer_open(drop_id@)),
            self@.contains_key(drop_id@) ==> call_ensures(operation, (&self.drop_state(drop_id@),), result),
    {
        match self.find(drop_id) {
            None => Err(join3("Drop ", drop_id, " is no longer open")),
            Some(i) => operation(&self.drops[i].state),
        }
    }

    /// The state of an open Drop, to change in place.
    pub fn state_mut(&mut self, drop_id: &str) -> (state: &mut DropState<G>)
        requires
            old(self).wf(),
            old(self)@.contains_key(drop_id@),
        ensures
            *state == old(self).drop_state(drop_id@),
            final(self).wf(),
            final(self).origin() == old(self).origin(),
            final(self).default_size() == old(self).default_size(),
            final(self).path_case() == old(self).path_case(),
            final(self)@ == old(self)@.insert(drop_id@, (*final(state))@),
            final(self).drop_state(drop_id@) == *final(state),
    {
        let i = self.find(drop_id).unwrap();
        let ghost before = *self;
        let state = &mut self.drops[i].state;
        proof {
            Self::lemma_update(before, after_borrow(*self), i as int);
        }
        state
    }

    /// Records that the Drop with this id has received content.
    pub fn mark_content_received(&mut self, drop_id: &str) -> (result: Result<(), String>)
        requires
            old(self).wf(),
        ensures
            final(self).wf(),
            final(self).origin() == old(self).origin(),
            final(self).default_size() == old(self).default_size(),
            final(self).path_case() == old(self).path_case(),
            !old(self)@.contains_key(drop_id@) ==> (result matches Err(e) && e@ == no_longer_open(drop_id@)
                && final(self)@ == old(self)@),
            old(self)@.contains_key(drop_id@) ==> result is Ok && final(self)@ == old(self)@.insert(
                drop_id@,
                DropStateView { received_content: true, ..old(self)@[drop_id@] },
            ),
    {
        match self.find(drop_id) {
            None => Err(join3("Drop ", drop_id, " is no longer open")),
            Some(i) => {
                let ghost before = *self;
                self.drops[i].state.received_content = true;
                proof {
                    Self::lemma_update(before, *self, i as int);
                }
                Ok(())
            },
        }
    }

    /// Closes the Drop with this id if it holds no file and has never
    /// received content, and hands back its state; leaves it open otherwise.
    pub fn remove_if_empty_and_unreceived(&mut self, drop_id: &str) -> (removed: Option<DropState<G>>)
        requires
            old(self).wf(),
        ensures
            final(self).wf(),
            final(self).origin() == old(self).origin(),
            final(self).default_size() == old(self).default_size(),
            final(self).path_case() == old(self).path_case(),
            ({
                let should = old(self)@.contains_key(drop_id@) && !old(self)@[drop_id@].received_content
                    && old(self)@[drop_id@].files.len() == 0;
                &&& should ==> (removed matches Some(st) && st@ == old(self)@[drop_id@]
                    && final(self)@ == old(self)@.remove(drop_id@))
                &&& !should ==> removed is None && final(self)@ == old(self)@
            }),
    {
        match self.find(drop_id) {
            None => None,
            Some(i) => {
                if self.drops[i].state.received_content || self.drops[i].state.files.len() != 0 {
                    return None;
                }
                let ghost before = *self;
                let entry = self.drops.remove(i);
                proof {
                    Self::lemma_remove(before, *self, i as int);
                }
                Some(entry.state)
            },
        }
    }


    /// The open Drops between which a transfer of `ids` from `source` to
    /// `target` moves files never needs a file id past `u64::MAX`.
    pub open spec fn transfer_fits(&self, source: Seq<char>, target: Seq<char>, ids: Seq<u64>) -> bool {
        self@.contains_key(source) && self@.contains_key(target) && source != target ==> merge_fits(
            DropStateView { received_content: true, ..self@[target] },
            selected_files(self@[source].files, ids),
            self.path_case(),
        )
    }

    /// Moves the files of `source` whose ids are listed to `target`. A file
    /// whose path `target` already holds is dropped from `source` without
    /// being added twice; the others get fresh ids in `target`, which is
    /// marked as having received content when anything moved.
    pub fn transfer_files(&mut self, source_drop_id: &str, target_drop_id: &str, source_file_ids: &[u64]) -> (result: Result<TransferOutcome, String>)
        requires
            old(self).wf(),
            old(self).transfer_fits(source_drop_id@, target_drop_id@, source_file_ids@),
        ensures
            final(self).wf(),
            final(self).origin() == old(self).origin(),
            final(self).default_size() == old(self).default_size(),
            final(self).path_case() == old(self).path_case(),
            reports(result, transfer_outcome(old(self)@, source_drop_id@, target_drop_id@, source_file_ids@)),
            final(self)@ == after_transfer(old(self)@, old(self).path_case(), source_drop_id@, target_drop_id@, source_file_ids@),
    {
        if str_equal(source_drop_id, target_drop_id) || source_file_ids.len() == 0 {
            return Ok(TransferOutcome::default());
        }
        let si = match self.find(source_drop_id) {
            None => return Err(join3("Drop ", source_drop_id, " is no longer open")),
            Some(i) => i,
        };
        let ti = match self.find(target_drop_id) {
            None => return Err(join3("Drop ", target_drop_id, " is no longer open")),
            Some(i) => i,
        };
        let ghost before = *self;
        let (moved, kept) = partition_files(&self.drops[si].state.files, source_file_ids);
        self.drops[si].state.files = kept;
        proof {
            Self::lemma_update(before, *self, si as int);
        }
        let source_empty = self.drops[si].state.files.len() == 0;
        if moved.len() == 0 {
            return Ok(TransferOutcome { transferred_count: 0, source_empty });
        }
        let ghost emptied = *self;
        let case = self.path_case;
        self.drops[ti].state.received_content = true;
        merge_into(&mut self.drops[ti].state, &moved, case);
        proof {
            Self::lemma_update(emptied, *self, ti as int);
        }
        Ok(TransferOutcome { transferred_count: moved.len(), source_empty })
    }


    /// `bounds` lists, once each and in the order of `keys`, the bounds of
    /// every visible (not prepared) Drop.
    pub open spec fn lists_visible_bounds(&self, keys: Seq<Seq<char>>, bounds: Seq<DropBounds<G>>) -> bool {
        &&& keys.len() == bounds.len()
        &&& forall|i: int, j: int| 0 <= i < keys.len() && 0 <= j < keys.len() && i != j ==> keys[i] != keys[j]
        &&& forall|i: int| 0 <= i < keys.len() ==> self@.contains_key(#[trigger] keys[i]) && !self@[keys[i]].prepared
            && bounds[i] == (DropBounds { position: self@[keys[i]].position, size: self@[keys[i]].size })
        &&& forall|k: Seq<char>| #[trigger] self@.contains_key(k) && !self@[k].prepared ==> keys.contains(k)
    }

    /// Where each visible Drop stands and how large it is; prepared Drops are
    /// left out.
    pub fn bounds(&self) -> (bounds: Vec<DropBounds<G>>)
        requires
            self.wf(),
        ensures
            exists|keys: Seq<Seq<char>>| self.lists_visible_bounds(keys, bounds@),
    {
        let mut bounds: Vec<DropBounds<G>> = Vec::new();
        let ghost mut keys: Seq<Seq<char>> = Seq::empty();
        let mut i: usize = 0;
        while i < self.drops.len()
            invariant
                self.wf(),
                i <= self.drops@.len(),
                keys.len() == bounds@.len(),
                forall|a: int| 0 <= a < keys.len() ==> exists|j: int| 0 <= j < i && #[trigger] self.drops@[j].id@ == #[trigger] keys[a],
                forall|a: int, b: int| 0 <= a < keys.len() && 0 <= b < keys.len() && a != b ==> keys[a] != keys[b],
                forall|a: int| 0 <= a < keys.len() ==> self@.contains_key(#[trigger] keys[a]) && !self@[keys[a]].prepared
                    && bounds@[a] == (DropBounds { position: self@[keys[a]].position, size: self@[keys[a]].size }),
                forall|j: int| 0 <= j < i && !(#[trigger] self.drops@[j]).state.prepared ==> keys.contains(self.drops@[j].id@),
            decreases self.drops@.len() - i,
        {
            proof {
                self.lemma_entry(i as int);
            }
            if !self.drops[i].state.prepared {
                let ghost k = self.drops@[i as int].id@;
                proof {
                    assert forall|a: int| 0 <= a < keys.len() implies keys[a] != k by {
                        let j = choose|j: int| 0 <= j < i && #[trigger] self.drops@[j].id@ == keys[a];
                        assert(j != i);
                    }
                }
                bounds.push(DropBounds { position: self.drops[i].state.position, size: self.drops[i].state.size });
                proof {
                    let old_keys = keys;
                    keys = keys.push(k);
                    assert forall|j: int| 0 <= j < i + 1 && !(#[trigger] self.drops@[j]).state.prepared implies keys.contains(self.drops@[j].id@) by {
                        if j < i {
                            assert(old_keys.contains(self.drops@[j].id@));
                            let a = choose|a: int| 0 <= a < old_keys.len() && old_keys[a] == self.drops@[j].id@;
                            assert(keys[a] == old_keys[a]);
                        } else {
                            assert(keys[keys.len() - 1] == k);
                        }
                    }
                    assert forall|a: int| 0 <= a < keys.len() implies exists|j: int| 0 <= j < i + 1 && #[trigger] self.drops@[j].id@ == #[trigger] keys[a] by {
                        if a < old_keys.len() {
                            assert(keys[a] == old_keys[a]);
                        } else {
                            assert(self.drops@[i as int].id@ == keys[a]);
                        }
                    }
                }
            }
            i = i + 1;
        }
        proof {
            assert forall|k: Seq<char>| #[trigger] self@.contains_key(k) && !self@[k].prepared implies keys.contains(k) by {
                let j = choose|j: int| 0 <= j < self.drops@.len() && #[trigger] self.drops@[j].id@ == k;
                self.lemma_entry(j);
            }
            assert(self.lists_visible_bounds(keys, bounds@));
        }
        bounds
    }

    /// The ids of all open Drops, each once.
    pub fn ids(&self) -> (ids: Vec<String>)
        requires
            self.wf(),
        ensures
            forall|i: int| 0 <= i < ids@.len() ==> self@.contains_key(#[trigger] ids@[i]@),
            forall|i: int, j: int| 0 <= i < ids@.len() && 0 <= j < ids@.len() && i != j ==> ids@[i]@ != ids@[j]@,
            forall|k: Seq<char>| #[trigger] self@.contains_key(k) ==> exists|i: int| 0 <= i < ids@.len() && #[trigger] ids@[i]@ == k,
    {
        let mut ids: Vec<String> = Vec::new();
        let mut i: usize = 0;
        while i < self.drops.len()
            invariant
                self.wf(),
                i <= self.drops@.len(),
                ids@.len() == i,
                forall|j: int| 0 <= j < i ==> #[trigger] ids@[j]@ == self.drops@[j].id@,
            decreases self.drops@.len() - i,
        {
            ids.push(self.drops[i].id.clone());
            i = i + 1;
        }
        proof {
            assert forall|a: int| 0 <= a < ids@.len() implies self@.contains_key(#[trigger] ids@[a]@) by {
                self.lemma_entry(a);
            }
            assert forall|k: Seq<char>| #[trigger] self@.contains_key(k) implies exists|a: int| 0 <= a < ids@.len() && #[trigger] ids@[a]@ == k by {
                let j = choose|j: int| 0 <= j < self.drops@.len() && #[trigger] self.drops@[j].id@ == k;
                assert(ids@[j]@ == k);
            }
        }
        ids
    }


    /// How this registry compares file paths.
    pub fn comparison(&self) -> (case: PathCase)
        ensures
            case == self.path_case(),
    {
        self.path_case
    }


    /// The files of an open Drop.
    pub fn files_of(&self, drop_id: &str) -> (files: &Vec<FileMetadata>)
        requires
            self.wf(),
            self@.contains_key(drop_id@),
        ensures
            files@ == self@[drop_id@].files,
    {
        let i = self.find(drop_id).unwrap();
        &self.drops[i].state.files
    }

}

} // verus!
