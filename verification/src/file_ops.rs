//! What the file commands of a Drop do to the registry: adding probed paths,
//! removing, renaming and clearing files, and forgetting files that vanished.
use crate::drop_registry::{
    fresh_ids, holds_path, lemma_merge_holds_every_incoming_path, lemma_merge_keeps_ids_fresh, merge_files, merge_fits,
    merge_into, no_longer_open, DropRegistry, DropState, DropStateView,
};
use crate::file::{FileMetadata, PathCase, PathProbe};
use crate::text::{decimal, join3, u64_to_decimal};
use vstd::prelude::*;
use vstd::string::*;

verus! {

/// Some probe found something at its path.
pub open spec fn any_found(probes: Seq<PathProbe>) -> bool {
    exists|i: int| 0 <= i < probes.len() && (#[trigger] probes[i]).found()
}

/// `st` after adding the probed paths in order, with the error that stopped
/// it, if any: a missing path, or one the Drop already holds, is skipped; an
/// unreadable one stops the adding; any other is added with the next file id.
pub open spec fn add_probed<G>(st: DropStateView<G>, probes: Seq<PathProbe>, case: PathCase) -> (DropStateView<G>, Option<Seq<char>>)
    decreases probes.len(),
{
    if probes.len() == 0 {
        (st, None)
    } else {
        let (prior, error) = add_probed(st, probes.drop_last(), case);
        if error is Some {
            (prior, error)
        } else {
            match probes.last() {
                PathProbe::Missing => (prior, None),
                PathProbe::Unreadable { path, error } => if holds_path(prior.files, path@, case) {
                    (prior, None)
                } else {
                    (prior, Some(error@))
                },
                PathProbe::Present(meta) => (merge_files(prior, seq![meta], case), None),
            }
        }
    }
}

/// Adding the probed paths to `st` never needs a file id past `u64::MAX`.
pub open spec fn add_fits<G>(st: DropStateView<G>, probes: Seq<PathProbe>, case: PathCase) -> bool
    decreases probes.len(),
{
    if probes.len() == 0 {
        true
    } else {
        let (prior, error) = add_probed(st, probes.drop_last(), case);
        &&& add_fits(st, probes.drop_last(), case)
        &&& (error is None ==> match probes.last() {
            PathProbe::Present(meta) => merge_fits(prior, seq![meta], case),
            _ => true,
        })
    }
}

/// The metadata of the probes that found a readable entry, in order.
pub open spec fn present_files(probes: Seq<PathProbe>) -> Seq<FileMetadata>
    decreases probes.len(),
{
    if probes.len() == 0 {
        Seq::empty()
    } else {
        match probes.last() {
            PathProbe::Present(meta) => present_files(probes.drop_last()).push(meta),
            _ => present_files(probes.drop_last()),
        }
    }
}

proof fn lemma_add_fits_prefix<G>(st: DropStateView<G>, probes: Seq<PathProbe>, case: PathCase, k: int)
    requires
        add_fits(st, probes, case),
        0 <= k <= probes.len(),
    ensures
        add_fits(st, probes.take(k), case),
    decreases probes.len(),
{
    if k == probes.len() {
        assert(probes.take(k) =~= probes);
    } else {
        assert(probes.drop_last().take(k) =~= probes.take(k));
        lemma_add_fits_prefix(st, probes.drop_last(), case, k);
    }
}

proof fn lemma_merge_one<G>(st: DropStateView<G>, file: FileMetadata, case: PathCase)
    ensures
        seq![file].drop_last() =~= Seq::<FileMetadata>::empty(),
        merge_files(st, seq![file], case) == (if holds_path(st.files, file.path@, case) {
            st
        } else {
            DropStateView {
                files: st.files.push(FileMetadata { id: st.next_file_id, ..file }),
                next_file_id: (st.next_file_id + 1) as u64,
                ..st
            }
        }),
        merge_fits(st, seq![file], case) == (holds_path(st.files, file.path@, case) || st.next_file_id
            < u64::MAX),
{
    assert(seq![file].drop_last() =~= Seq::<FileMetadata>::empty());
    assert(seq![file].last() == file);
    assert(merge_files(st, Seq::<FileMetadata>::empty(), case) == st);
    assert(merge_fits(st, Seq::<FileMetadata>::empty(), case));
}

fn add_probed_into<G>(state: &mut DropState<G>, probes: &Vec<PathProbe>, case: PathCase) -> (result: Result<(), String>)
    requires
        add_fits(old(state)@, probes@, case),
    ensures
        ({
            let (st, error) = add_probed(old(state)@, probes@, case);
            &&& final(state)@ == st
            &&& match error {
                Some(e) => result matches Err(m) && m@ == e,
                None => result is Ok,
            }
        }),
{
    let ghost start = state@;
    let mut i: usize = 0;
    assert(probes@.take(0) =~= Seq::<PathProbe>::empty());
    while i < probes.len()
        invariant
            i <= probes@.len(),
            add_fits(start, probes@, case),
            start == old(state)@,
            add_probed(start, probes@.take(i as int), case) == (state@, None::<Seq<char>>),
        decreases probes@.len() - i,
    {
        let ghost prefix = probes@.take(i as int + 1);
        assert(prefix.drop_last() =~= probes@.take(i as int));
        assert(prefix.last() == probes@[i as int]);
        proof {
            lemma_add_fits_prefix(start, probes@, case, i as int + 1);
        }
        match &probes[i] {
            PathProbe::Missing => {},
            PathProbe::Unreadable { path, error } => {
                if !crate::drop_registry::contains_path(&state.files, path.as_str(), case) {
                    assert(add_probed(start, prefix, case) == (state@, Some(error@)));
                    proof {
                        lemma_add_error_persists(start, probes@, case, i as int + 1);
                    }
                    let message = error.clone();
                    assert(message@ == error@);
                    return Err(message);
                }
            },
            PathProbe::Present(meta) => {
                let mut one: Vec<FileMetadata> = Vec::new();
                one.push(meta.clone());
                proof {
                    lemma_merge_one(state@, *meta, case);
                    assert(one@ =~= seq![*meta]);
                }
                merge_into(state, &one, case);
            },
        }
        i = i + 1;
    }
    assert(probes@.take(probes@.len() as int) =~= probes@);
    Ok(())
}

proof fn lemma_add_error_persists<G>(st: DropStateView<G>, probes: Seq<PathProbe>, case: PathCase, k: int)
    requires
        0 <= k <= probes.len(),
        add_probed(st, probes.take(k), case).1 is Some,
    ensures
        add_probed(st, probes, case) == add_probed(st, probes.take(k), case),
    decreases probes.len(),
{
    if k == probes.len() {
        assert(probes.take(k) =~= probes);
    } else {
        assert(probes.drop_last().take(k) =~= probes.take(k));
        lemma_add_error_persists(st, probes.drop_last(), case, k);
    }
}

/// The registry's Drop `drop_id` is open and adding the probed paths to it,
/// after marking it as having received content, fits the file ids.
pub open spec fn add_files_fit<G>(registry: &DropRegistry<G>, drop_id: Seq<char>, probes: Seq<PathProbe>) -> bool where G: Copy {
    registry@.contains_key(drop_id) ==> add_fits(
        DropStateView {
            received_content: registry@[drop_id].received_content || any_found(probes),
            ..registry@[drop_id]
        },
        probes,
        registry.path_case(),
    )
}

/// Adds the probed paths to the Drop `drop_id`. The Drop is marked as having
/// received content when anything exists at one of the paths; the paths are
/// then taken in order, and an unreadable one stops the adding with its error
/// while what was added before it stays.
pub fn add_files<G: Copy>(registry: &mut DropRegistry<G>, drop_id: &str, probes: &Vec<PathProbe>) -> (result: Result<(), String>)
    requires
        old(registry).wf(),
        add_files_fit(old(registry), drop_id@, probes@),
    ensures
        final(registry).wf(),
        final(registry).path_case() == old(registry).path_case(),
        final(registry).origin() == old(registry).origin(),
        final(registry).default_size() == old(registry).default_size(),
        !old(registry)@.contains_key(drop_id@) ==> (result matches Err(e) && e@ == no_longer_open(drop_id@)
            && final(registry)@ == old(registry)@),
        old(registry)@.contains_key(drop_id@) ==> ({
            let marked = DropStateView {
                received_content: old(registry)@[drop_id@].received_content || any_found(probes@),
                ..old(registry)@[drop_id@]
            };
            let (st, error) = add_probed(marked, probes@, old(registry).path_case());
            &&& final(registry)@ == old(registry)@.insert(drop_id@, st)
            &&& match error {
                Some(e) => result matches Err(m) && m@ == e,
                None => result is Ok,
            }
        }),
{
    if !registry.contains(drop_id) {
        return Err(join3("Drop ", drop_id, " is no longer open"));
    }
    let mut found = false;
    let mut i: usize = 0;
    while i < probes.len()
        invariant
            i <= probes@.len(),
            found == exists|j: int| 0 <= j < i && (#[trigger] probes@[j]).found(),
        decreases probes@.len() - i,
    {
        match &probes[i] {
            PathProbe::Missing => {},
            _ => {
                found = true;
            },
        }
        i = i + 1;
    }
    let case = registry.comparison();
    let state = registry.state_mut(drop_id);
    if found {
        state.received_content = true;
    }
    add_probed_into(state, probes, case)
}

/// Adds the readable dropped paths to the Drop `drop_id`, skipping those whose
/// path it already holds.
pub fn merge_dropped_files<G: Copy>(registry: &mut DropRegistry<G>, drop_id: &str, probes: &Vec<PathProbe>) -> (result: Result<(), String>)
    requires
        old(registry).wf(),
        old(registry)@.contains_key(drop_id@) ==> merge_fits(
            old(registry)@[drop_id@],
            present_files(probes@),
            old(registry).path_case(),
        ),
    ensures
        final(registry).wf(),
        final(registry).path_case() == old(registry).path_case(),
        final(registry).origin() == old(registry).origin(),
        final(registry).default_size() == old(registry).default_size(),
        !old(registry)@.contains_key(drop_id@) ==> (result matches Err(e) && e@ == no_longer_open(drop_id@)
            && final(registry)@ == old(registry)@),
        old(registry)@.contains_key(drop_id@) ==> result is Ok && final(registry)@ == old(registry)@.insert(
            drop_id@,
            merge_files(old(registry)@[drop_id@], present_files(probes@), old(registry).path_case()),
        ),
{
    if !registry.contains(drop_id) {
        return Err(join3("Drop ", drop_id, " is no longer open"));
    }
    let mut files: Vec<FileMetadata> = Vec::new();
    let mut i: usize = 0;
    assert(probes@.take(0) =~= Seq::<PathProbe>::empty());
    while i < probes.len()
        invariant
            i <= probes@.len(),
            files@ == present_files(probes@.take(i as int)),
        decreases probes@.len() - i,
    {
        let ghost prefix = probes@.take(i as int + 1);
        assert(prefix.drop_last() =~= probes@.take(i as int));
        assert(prefix.last() == probes@[i as int]);
        match &probes[i] {
            PathProbe::Present(meta) => {
                files.push(meta.clone());
            },
            _ => {},
        }
        i = i + 1;
    }
    assert(probes@.take(probes@.len() as int) =~= probes@);
    let case = registry.comparison();
    let state = registry.state_mut(drop_id);
    merge_into(state, &files, case);
    Ok(())
}

/// Marks the Drop `drop_id` as having received content when something exists
/// at one of the dropped paths (`exists[i]` tells for the path at position `i`).
pub fn note_dropped_paths<G: Copy>(registry: &mut DropRegistry<G>, drop_id: &str, exists: &Vec<bool>) -> (result: Result<(), String>)
    requires
        old(registry).wf(),
    ensures
        final(registry).wf(),
        final(registry).path_case() == old(registry).path_case(),
        final(registry).origin() == old(registry).origin(),
        final(registry).default_size() == old(registry).default_size(),
        !exists@.contains(true) ==> result is Ok && final(registry)@ == old(registry)@,
        exists@.contains(true) && !old(registry)@.contains_key(drop_id@) ==> (result matches Err(e) && e@
            == no_longer_open(drop_id@) && final(registry)@ == old(registry)@),
        exists@.contains(true) && old(registry)@.contains_key(drop_id@) ==> result is Ok && final(registry)@
            == old(registry)@.insert(
            drop_id@,
            DropStateView { received_content: true, ..old(registry)@[drop_id@] },
        ),
{
    let mut found = false;
    let mut i: usize = 0;
    while i < exists.len()
        invariant
            i <= exists@.len(),
            found == exists|j: int| 0 <= j < i && exists@[j],
        decreases exists@.len() - i,
    {
        if exists[i] {
            found = true;
        }
        i = i + 1;
    }
    proof {
        if found {
            let j = choose|j: int| 0 <= j < i && exists@[j];
            assert(exists@[j] == true);
        }
    }
    if found {
        registry.mark_content_received(drop_id)
    } else {
        Ok(())
    }
}

/// `i` is the first position of a file with id `id`.
pub open spec fn is_first_with_id(files: Seq<FileMetadata>, id: u64, i: int) -> bool {
    &&& 0 <= i < files.len()
    &&& files[i].id == id
    &&& forall|j: int| 0 <= j < i ==> (#[trigger] files[j]).id != id
}

/// `files` without the first file with id `id`, if there is one.
pub open spec fn without_first(files: Seq<FileMetadata>, id: u64) -> Seq<FileMetadata> {
    if exists|i: int| is_first_with_id(files, id, i) {
        files.remove(choose|i: int| is_first_with_id(files, id, i))
    } else {
        files
    }
}

/// `files` after removing, for each id in order, the first file with it.
pub open spec fn without_ids(files: Seq<FileMetadata>, ids: Seq<u64>) -> Seq<FileMetadata>
    decreases ids.len(),
{
    if ids.len() == 0 {
        files
    } else {
        without_first(without_ids(files, ids.drop_last()), ids.last())
    }
}

fn first_with_id(files: &Vec<FileMetadata>, id: u64) -> (found: Option<usize>)
    ensures
        match found {
            Some(i) => is_first_with_id(files@, id, i as int),
            None => !exists|i: int| is_first_with_id(files@, id, i),
        },
{
    let mut i: usize = 0;
    while i < files.len()
        invariant
            i <= files@.len(),
            forall|j: int| 0 <= j < i ==> (#[trigger] files@[j]).id != id,
        decreases files@.len() - i,
    {
        if files[i].id == id {
            return Some(i);
        }
        i = i + 1;
    }
    proof {
        assert forall|k: int| !is_first_with_id(files@, id, k) by {
            if 0 <= k < files@.len() {
                assert(files@[k].id != id);
            }
        }
    }
    None
}

proof fn lemma_first_unique(files: Seq<FileMetadata>, id: u64, i: int)
    requires
        is_first_with_id(files, id, i),
    ensures
        (choose|k: int| is_first_with_id(files, id, k)) == i,
{
    let k = choose|k: int| is_first_with_id(files, id, k);
    assert(is_first_with_id(files, id, k));
    if k < i {
        assert(files[k].id != id);
    }
    if i < k {
        assert(files[i].id != id);
    }
}

/// Removes from the Drop `drop_id`, for each listed id in order, the first
/// file with that id, and reports whether the Drop is left empty.
pub fn remove_files<G: Copy>(registry: &mut DropRegistry<G>, drop_id: &str, file_ids: &Vec<u64>) -> (result: Result<bool, String>)
    requires
        old(registry).wf(),
    ensures
        final(registry).wf(),
        final(registry).path_case() == old(registry).path_case(),
        final(registry).origin() == old(registry).origin(),
        final(registry).default_size() == old(registry).default_size(),
        !old(registry)@.contains_key(drop_id@) ==> (result matches Err(e) && e@ == no_longer_open(drop_id@)
            && final(registry)@ == old(registry)@),
        old(registry)@.contains_key(drop_id@) ==> ({
            let files = without_ids(old(registry)@[drop_id@].files, file_ids@);
            &&& final(registry)@ == old(registry)@.insert(drop_id@, DropStateView { files, ..old(registry)@[drop_id@] })
            &&& result == Ok::<bool, String>(files.len() == 0)
        }),
{
    if !registry.contains(drop_id) {
        return Err(join3("Drop ", drop_id, " is no longer open"));
    }
    let state = registry.state_mut(drop_id);
    let ghost start = state@;
    let mut i: usize = 0;
    assert(file_ids@.take(0) =~= Seq::<u64>::empty());
    while i < file_ids.len()
        invariant
            i <= file_ids@.len(),
            state@ == (DropStateView { files: without_ids(start.files, file_ids@.take(i as int)), ..start }),
        decreases file_ids@.len() - i,
    {
        let ghost prefix = file_ids@.take(i as int + 1);
        assert(prefix.drop_last() =~= file_ids@.take(i as int));
        assert(prefix.last() == file_ids@[i as int]);
        match first_with_id(&state.files, file_ids[i]) {
            Some(position) => {
                proof {
                    lemma_first_unique(state.files@, file_ids@[i as int], position as int);
                }
                state.files.remove(position);
            },
            None => {},
        }
        i = i + 1;
    }
    assert(file_ids@.take(file_ids@.len() as int) =~= file_ids@);
    Ok(state.files.len() == 0)
}

/// Gives the first file with id `file_id` in the Drop `drop_id` a new name.
pub fn rename_file<G: Copy>(registry: &mut DropRegistry<G>, drop_id: &str, file_id: u64, new_name: String) -> (result: Result<(), String>)
    requires
        old(registry).wf(),
    ensures
        final(registry).wf(),
        final(registry).path_case() == old(registry).path_case(),
        final(registry).origin() == old(registry).origin(),
        final(registry).default_size() == old(registry).default_size(),
        !old(registry)@.contains_key(drop_id@) ==> (result matches Err(e) && e@ == no_longer_open(drop_id@)
            && final(registry)@ == old(registry)@),
        old(registry)@.contains_key(drop_id@) && !(exists|i: int| is_first_with_id(old(registry)@[drop_id@].files, file_id, i))
            ==> (result matches Err(e) && e@ == "File with ID "@ + decimal(file_id as nat) + " not found"@
            && final(registry)@ == old(registry)@),
        forall|i: int| old(registry)@.contains_key(drop_id@) && is_first_with_id(old(registry)@[drop_id@].files, file_id, i)
            ==> ({
            let files = old(registry)@[drop_id@].files;
            &&& result is Ok
            &&& final(registry)@ == old(registry)@.insert(
                drop_id@,
                DropStateView {
                    files: files.update(i, FileMetadata { name: new_name, ..files[i] }),
                    ..old(registry)@[drop_id@]
                },
            )
        }),
{
    if !registry.contains(drop_id) {
        return Err(join3("Drop ", drop_id, " is no longer open"));
    }
    let ghost before = *registry;
    let ghost files = registry@[drop_id@].files;
    match first_with_id(registry.files_of(drop_id), file_id) {
        None => {
            let digits = u64_to_decimal(file_id);
            Err(join3("File with ID ", digits.as_str(), " not found"))
        },
        Some(position) => {
            let state = registry.state_mut(drop_id);
            let mut renamed = state.files[position].clone();
            renamed.name = new_name;
            state.files.set(position, renamed);
            proof {
                assert forall|i: int| before@.contains_key(drop_id@) && is_first_with_id(before@[drop_id@].files, file_id, i)
                    implies i == position by {
                    lemma_first_unique(files, file_id, i);
                    lemma_first_unique(files, file_id, position as int);
                }
            }
            Ok(())
        },
    }
}

/// Removes every file from the Drop `drop_id`.
pub fn clear_files<G: Copy>(registry: &mut DropRegistry<G>, drop_id: &str) -> (result: Result<(), String>)
    requires
        old(registry).wf(),
    ensures
        final(registry).wf(),
        final(registry).path_case() == old(registry).path_case(),
        final(registry).origin() == old(registry).origin(),
        final(registry).default_size() == old(registry).default_size(),
        !old(registry)@.contains_key(drop_id@) ==> (result matches Err(e) && e@ == no_longer_open(drop_id@)
            && final(registry)@ == old(registry)@),
        old(registry)@.contains_key(drop_id@) ==> result is Ok && final(registry)@ == old(registry)@.insert(
            drop_id@,
            DropStateView { files: Seq::empty(), ..old(registry)@[drop_id@] },
        ),
{
    if !registry.contains(drop_id) {
        return Err(join3("Drop ", drop_id, " is no longer open"));
    }
    let state = registry.state_mut(drop_id);
    state.files.clear();
    Ok(())
}

/// The files of `files` kept when `present[i]` tells whether the file at
/// position `i` still exists; files past the end of `present` are kept.
pub open spec fn still_present(files: Seq<FileMetadata>, present: Seq<bool>) -> Seq<FileMetadata>
    decreases files.len(),
{
    if files.len() == 0 {
        files
    } else {
        let rest = still_present(files.drop_last(), present);
        let i = files.len() - 1;
        if i < present.len() && !present[i] {
            rest
        } else {
            rest.push(files.last())
        }
    }
}

/// Forgets the files of the Drop `drop_id` that no longer exist, as `present`
/// reports position by position, and tells whether any was forgotten and
/// whether the Drop is left empty.
pub fn retain_present_files<G: Copy>(registry: &mut DropRegistry<G>, drop_id: &str, present: &Vec<bool>) -> (result: Result<(bool, bool), String>)
    requires
        old(registry).wf(),
    ensures
        final(registry).wf(),
        final(registry).path_case() == old(registry).path_case(),
        final(registry).origin() == old(registry).origin(),
        final(registry).default_size() == old(registry).default_size(),
        !old(registry)@.contains_key(drop_id@) ==> (result matches Err(e) && e@ == no_longer_open(drop_id@)
            && final(registry)@ == old(registry)@),
        old(registry)@.contains_key(drop_id@) ==> ({
            let files = still_present(old(registry)@[drop_id@].files, present@);
            &&& final(registry)@ == old(registry)@.insert(drop_id@, DropStateView { files, ..old(registry)@[drop_id@] })
            &&& result == Ok::<(bool, bool), String>((files.len() != old(registry)@[drop_id@].files.len(), files.len() == 0))
        }),
{
    if !registry.contains(drop_id) {
        return Err(join3("Drop ", drop_id, " is no longer open"));
    }
    let state = registry.state_mut(drop_id);
    let old_len = state.files.len();
    let mut kept: Vec<FileMetadata> = Vec::new();
    let mut i: usize = 0;
    assert(state.files@.take(0) =~= Seq::<FileMetadata>::empty());
    while i < state.files.len()
        invariant
            i <= state.files@.len(),
            kept@ == still_present(state.files@.take(i as int), present@),
        decreases state.files@.len() - i,
    {
        let ghost prefix = state.files@.take(i as int + 1);
        assert(prefix.drop_last() =~= state.files@.take(i as int));
        assert(prefix.last() == state.files@[i as int]);
        if i >= present.len() || present[i] {
            kept.push(state.files[i].clone());
        }
        i = i + 1;
    }
    assert(state.files@.take(state.files@.len() as int) =~= state.files@);
    state.files = kept;
    let new_len = state.files.len();
    Ok((old_len != new_len, new_len == 0))
}

fn clone_files(files: &Vec<FileMetadata>) -> (copy: Vec<FileMetadata>)
    ensures
        copy@ == files@,
{
    let mut copy: Vec<FileMetadata> = Vec::new();
    let mut i: usize = 0;
    while i < files.len()
        invariant
            i <= files@.len(),
            copy@ == files@.take(i as int),
        decreases files@.len() - i,
    {
        copy.push(files[i].clone());
        assert(files@.take(i as int + 1) =~= files@.take(i as int).push(files@[i as int]));
        i = i + 1;
    }
    assert(files@.take(files@.len() as int) =~= files@);
    copy
}

/// `s` without the dots it starts with.
pub open spec fn without_leading_dots(s: Seq<char>) -> Seq<char>
    decreases s.len(),
{
    if s.len() > 0 && s[0] == '.' {
        without_leading_dots(s.subrange(1, s.len() as int))
    } else {
        s
    }
}

proof fn lemma_leading_dots(s: Seq<char>, k: int)
    requires
        0 <= k <= s.len(),
        forall|j: int| 0 <= j < k ==> s[j] == '.',
    ensures
        without_leading_dots(s) == without_leading_dots(s.subrange(k, s.len() as int)),
    decreases k,
{
    if k > 0 {
        let rest = s.subrange(1, s.len() as int);
        assert forall|j: int| 0 <= j < k - 1 implies rest[j] == '.' by {
            assert(rest[j] == s[j + 1]);
        }
        lemma_leading_dots(rest, k - 1);
        assert(rest.subrange(k - 1, rest.len() as int) =~= s.subrange(k, s.len() as int));
    } else {
        assert(s.subrange(0, s.len() as int) =~= s);
    }
}

/// The name of a file that holds pasted or downloaded content:
/// `prefix_time_unique.extension`, the extension without its leading dots.
pub fn pasted_file_name(prefix: &str, time: &str, unique: &str, extension: &str) -> (name: String)
    ensures
        name@ == prefix@ + "_"@ + time@ + "_"@ + unique@ + "."@ + without_leading_dots(extension@),
{
    let len = extension.unicode_len();
    let mut k: usize = 0;
    while k < len && extension.get_char(k) == '.'
        invariant
            len == extension@.len(),
            k <= len,
            forall|j: int| 0 <= j < k ==> extension@[j] == '.',
        decreases len - k,
    {
        k = k + 1;
    }
    proof {
        lemma_leading_dots(extension@, k as int);
        let rest = extension@.subrange(k as int, len as int);
        if rest.len() > 0 {
            assert(rest[0] == extension@[k as int]);
        }
    }
    let safe_extension = extension.substring_char(k, len);
    let mut name = String::from_str(prefix);
    name.append("_");
    name.append(time);
    name.append("_");
    name.append(unique);
    name.append(".");
    name.append(safe_extension);
    name
}

/// The files of the Drop `drop_id`.
pub fn get_files<G: Copy>(registry: &DropRegistry<G>, drop_id: &str) -> (result: Result<Vec<FileMetadata>, String>)
    requires
        registry.wf(),
    ensures
        !registry@.contains_key(drop_id@) ==> (result matches Err(e) && e@ == no_longer_open(drop_id@)),
        registry@.contains_key(drop_id@) ==> (result matches Ok(files) && files@ == registry@[drop_id@].files),
{
    if !registry.contains(drop_id) {
        return Err(join3("Drop ", drop_id, " is no longer open"));
    }
    registry.with_drop(drop_id, |state: &DropState<G>| -> (files: Result<Vec<FileMetadata>, String>)
        ensures
            files matches Ok(f) && f@ == state.files@,
        { Ok(clone_files(&state.files)) })
}


proof fn lemma_present_files_complete(probes: Seq<PathProbe>)
    ensures
        forall|i: int| 0 <= i < probes.len() && (#[trigger] probes[i]) is Present ==> present_files(probes).contains(probes[i]->0),
    decreases probes.len(),
{
    if probes.len() > 0 {
        let rest = probes.drop_last();
        lemma_present_files_complete(rest);
        let all = present_files(probes);
        assert forall|i: int| 0 <= i < probes.len() && (#[trigger] probes[i]) is Present implies all.contains(probes[i]->0) by {
            if i < rest.len() {
                assert(rest[i] == probes[i]);
                let k = choose|k: int| 0 <= k < present_files(rest).len() && present_files(rest)[k] == rest[i]->0;
                assert(all[k] == present_files(rest)[k]);
            } else {
                assert(probes[i] == probes.last());
                assert(all[all.len() - 1] == probes[i]->0);
            }
        }
    }
}

/// Dropping files onto a Drop leaves it holding the path of every readable
/// dropped file, and of every file it held before.
pub proof fn lemma_dropped_files_are_all_held<G>(st: DropStateView<G>, probes: Seq<PathProbe>, case: PathCase)
    ensures
        ({
            let after = merge_files(st, present_files(probes), case);
            &&& forall|i: int| 0 <= i < probes.len() ==> (#[trigger] probes[i] matches PathProbe::Present(meta) ==> holds_path(after.files, meta.path@, case))
            &&& forall|k: int| 0 <= k < st.files.len() ==> holds_path(after.files, #[trigger] st.files[k].path@, case)
        }),
{
    lemma_present_files_complete(probes);
    let incoming = present_files(probes);
    lemma_merge_holds_every_incoming_path(st, incoming, case);
    assert forall|i: int| 0 <= i < probes.len() implies (#[trigger] probes[i] matches PathProbe::Present(meta) ==> holds_path(
        merge_files(st, incoming, case).files,
        meta.path@,
        case,
    )) by {
        if probes[i] is Present {
            let k = choose|k: int| 0 <= k < incoming.len() && incoming[k] == probes[i]->0;
            assert(holds_path(merge_files(st, incoming, case).files, incoming[k].path@, case));
        }
    }
}

/// Adding probed paths keeps the Drop's file ids fresh: every file it holds
/// afterwards has an id below its next file id, no two share one, and the
/// next file id never goes back.
pub proof fn lemma_adding_keeps_ids_fresh<G>(st: DropStateView<G>, probes: Seq<PathProbe>, case: PathCase)
    requires
        fresh_ids(st.files, st.next_file_id),
        add_fits(st, probes, case),
    ensures
        fresh_ids(add_probed(st, probes, case).0.files, add_probed(st, probes, case).0.next_file_id),
        add_probed(st, probes, case).0.next_file_id >= st.next_file_id,
    decreases probes.len(),
{
    if probes.len() > 0 {
        let rest = probes.drop_last();
        lemma_adding_keeps_ids_fresh(st, rest, case);
        let (prior, error) = add_probed(st, rest, case);
        if error is None {
            match probes.last() {
                PathProbe::Present(meta) => {
                    lemma_merge_keeps_ids_fresh(prior, seq![meta], case);
                },
                _ => {},
            }
        }
    }
}

/// Forgetting files that vanished keeps exactly the others: no kept file is
/// one reported missing, every file reported present (or not reported on)
/// stays, and every kept file was held before. Files are told apart by their
/// ids, which a Drop keeps distinct.
pub proof fn lemma_forgetting_keeps_exactly_the_present_files(files: Seq<FileMetadata>, present: Seq<bool>)
    requires
        forall|i: int, j: int| 0 <= i < j < files.len() ==> (#[trigger] files[i]).id != (#[trigger] files[j]).id,
    ensures
        ({
            let kept = still_present(files, present);
            &&& forall|i: int, k: int| 0 <= i < files.len() && i < present.len() && !present[i] && 0 <= k < kept.len()
                ==> (#[trigger] kept[k]).id != (#[trigger] files[i]).id
            &&& forall|i: int| 0 <= i < files.len() && (i >= present.len() || present[i]) ==> kept.contains(#[trigger] files[i])
            &&& forall|k: int| 0 <= k < kept.len() ==> files.contains(#[trigger] kept[k])
        }),
    decreases files.len(),
{
    if files.len() > 0 {
        let rest = files.drop_last();
        let n = files.len() - 1;
        assert forall|i: int, j: int| 0 <= i < j < rest.len() implies (#[trigger] rest[i]).id != (#[trigger] rest[j]).id by {
            assert(rest[i] == files[i]);
            assert(rest[j] == files[j]);
        }
        lemma_forgetting_keeps_exactly_the_present_files(rest, present);
        let before = still_present(rest, present);
        let kept = still_present(files, present);
        assert(files.last() == files[n]);
        // Every file kept from the shorter list is one of its files.
        assert forall|k: int| 0 <= k < before.len() implies exists|j: int| 0 <= j < n && (#[trigger] files[j]) == #[trigger] before[k] by {
            assert(rest.contains(before[k]));
            let j = choose|j: int| 0 <= j < rest.len() && rest[j] == before[k];
            assert(files[j] == rest[j]);
        }
        assert forall|i: int, k: int| 0 <= i < files.len() && i < present.len() && !present[i] && 0 <= k < kept.len()
            implies (#[trigger] kept[k]).id != (#[trigger] files[i]).id by {
            if k < before.len() {
                assert(kept[k] == before[k]);
                let j = choose|j: int| 0 <= j < n && (#[trigger] files[j]) == before[k];
                if i < n {
                    assert(rest[i] == files[i]);
                    assert(before[k].id != rest[i].id);
                } else {
                    assert(files[j].id != files[n].id);
                }
            } else {
                assert(kept[k] == files[n]);
                assert(i != n);
                assert(files[i].id != files[n].id);
            }
        }
        assert forall|i: int| 0 <= i < files.len() && (i >= present.len() || present[i]) implies kept.contains(#[trigger] files[i]) by {
            if i < n {
                assert(rest[i] == files[i]);
                let k = choose|k: int| 0 <= k < before.len() && before[k] == rest[i];
                assert(kept[k] == before[k]);
            } else {
                assert(kept[kept.len() - 1] == files[n]);
            }
        }
        assert forall|k: int| 0 <= k < kept.len() implies files.contains(#[trigger] kept[k]) by {
            if k < before.len() {
                assert(kept[k] == before[k]);
                let j = choose|j: int| 0 <= j < n && (#[trigger] files[j]) == before[k];
            } else {
                assert(kept[k] == files[n]);
            }
        }
    }
}

} // verus!
