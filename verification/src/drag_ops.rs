//! Dragging files out of a Drop: starting and finishing the Drop-to-Drop
//! session around a native drag, and reading the drag image the interface
//! sends along.
use crate::drop_registry::{
    after_transfer, drop_id_from_label, label_drop_id, transfer_outcome, DropRegistry,
    TransferOutcome,
};
use crate::internal_drag::{began, finished, finished_session, DragStateView, InternalDragState, SessionView};
use crate::text::str_equal;
use crate::thumbnail::base64_encoding;
use vstd::prelude::*;

verus! {

/// Begins a Drop-to-Drop session for a drag of the listed files out of the
/// window labelled `label`. Nothing begins, and no token comes back, when no
/// file is listed or the window is not a Drop.
pub fn begin_internal_drag(drag_state: &mut InternalDragState, label: &str, source_file_ids: Vec<u64>) -> (token: Option<u64>)
    ensures
        source_file_ids@.len() == 0 || !(label_drop_id(label@) matches Some(d) && d.len() > 0) ==> token is None
            && final(drag_state)@ == old(drag_state)@,
        source_file_ids@.len() > 0 ==> (label_drop_id(label@) matches Some(d) ==> (d.len() > 0 ==> (token
            == Some(began(old(drag_state)@, d, source_file_ids@).next_token) && final(drag_state)@ == began(
            old(drag_state)@,
            d,
            source_file_ids@,
        )))),
{
    if source_file_ids.len() == 0 {
        return None;
    }
    match drop_id_from_label(label) {
        Err(_) => None,
        Ok(drop_id) => Some(drag_state.begin(drop_id.to_owned(), source_file_ids)),
    }
}

/// The files that a finished Drop-to-Drop drag moved.
#[derive(Debug)]
pub struct TransferReport {
    pub source_drop_id: String,
    pub target_drop_id: String,
    pub outcome: TransferOutcome,
}

/// The finished session, if any, when finishing with `token`.
pub open spec fn finishing(drag: DragStateView, token: Option<u64>) -> Option<SessionView> {
    match token {
        Some(t) => finished_session(drag, t),
        None => None,
    }
}

/// The finished session names a target Drop other than its source.
pub open spec fn moves_between_drops(session: Option<SessionView>) -> bool {
    session matches Some(s) && s.target_drop_id matches Some(t) && t != s.source_drop_id
}

/// Finishes the Drop-to-Drop session begun with `token` after the native drag
/// returned. When it landed on another Drop, the dragged files move there;
/// a report comes back when at least one file moved.
pub fn finish_internal_drag<G: Copy>(drag_state: &mut InternalDragState, registry: &mut DropRegistry<G>, token: Option<u64>) -> (result: Result<Option<TransferReport>, String>)
    requires
        old(registry).wf(),
        ({
            let session = finishing(old(drag_state)@, token);
            moves_between_drops(session) ==> old(registry).transfer_fits(
                session->0.source_drop_id,
                session->0.target_drop_id->0,
                session->0.source_file_ids,
            )
        }),
    ensures
        final(registry).wf(),
        final(registry).path_case() == old(registry).path_case(),
        final(registry).origin() == old(registry).origin(),
        final(registry).default_size() == old(registry).default_size(),
        token matches Some(t) ==> final(drag_state)@ == finished(old(drag_state)@, t),
        token is None ==> final(drag_state)@ == old(drag_state)@,
        ({
            let session = finishing(old(drag_state)@, token);
            &&& !moves_between_drops(session) ==> result == Ok::<Option<TransferReport>, String>(None)
                && final(registry)@ == old(registry)@
            &&& moves_between_drops(session) ==> ({
                let s = session->0;
                let target = s.target_drop_id->0;
                let expected = transfer_outcome(old(registry)@, s.source_drop_id, target, s.source_file_ids);
                &&& final(registry)@ == after_transfer(
                    old(registry)@,
                    old(registry).path_case(),
                    s.source_drop_id,
                    target,
                    s.source_file_ids,
                )
                &&& expected matches Err(m) ==> (result matches Err(e) && e@ == m)
                &&& expected matches Ok(o) ==> (o.transferred_count == 0 ==> result == Ok::<
                    Option<TransferReport>,
                    String,
                >(None))
                &&& expected matches Ok(o) ==> (o.transferred_count > 0 ==> (result matches Ok(Some(report))
                    && report.source_drop_id@ == s.source_drop_id && report.target_drop_id@ == target
                    && report.outcome == o))
            })
        }),
{
    let token = match token {
        None => return Ok(None),
        Some(t) => t,
    };
    let session = match drag_state.finish(token) {
        None => return Ok(None),
        Some(s) => s,
    };
    let target = match session.target_drop_id {
        None => return Ok(None),
        Some(t) => t,
    };
    if str_equal(target.as_str(), session.source_drop_id.as_str()) {
        return Ok(None);
    }
    let outcome = match registry.transfer_files(
        session.source_drop_id.as_str(),
        target.as_str(),
        session.source_file_ids.as_slice(),
    ) {
        Err(e) => return Err(e),
        Ok(o) => o,
    };
    if outcome.transferred_count == 0 {
        return Ok(None);
    }
    Ok(Some(TransferReport { source_drop_id: session.source_drop_id, target_drop_id: target, outcome }))
}

/// The message of the Base64 decoder for a text that is not the standard,
/// padded Base64 encoding of any bytes.
pub uninterp spec fn base64_decode_error(text: Seq<char>) -> Seq<char>;

/// No bytes have `text` as their standard, padded Base64 encoding.
pub open spec fn not_base64(text: Seq<char>) -> bool {
    forall|bytes: Seq<u8>| #[trigger] base64_encoding(bytes) != text
}

/// Wraps `base64::engine::general_purpose::STANDARD.decode`. Claimed: the
/// standard engine requires canonical padding and rejects set trailing bits,
/// so it decodes exactly the texts that are the Base64 encoding of some bytes,
/// and gives back those bytes; on any other text it fails with the message
/// that `base64_decode_error` names.
#[verifier::external_body]
fn decode_base64(text: &str) -> (decoded: Result<Vec<u8>, String>)
    ensures
        match decoded {
            Ok(v) => base64_encoding(v@) == text@,
            Err(e) => e@ == base64_decode_error(text@) && not_base64(text@),
        },
{
    base64::Engine::decode(&base64::engine::general_purpose::STANDARD, text).map_err(|error| error.to_string())
}

/// The part of `text` after its first comma, when it has one.
pub open spec fn after_first_comma(text: Seq<char>) -> Option<Seq<char>> {
    if text.contains(',') {
        let i = choose|i: int| 0 <= i < text.len() && text[i] == ',' && forall|j: int| 0 <= j < i ==> text[j] != ',';
        Some(text.subrange(i + 1, text.len() as int))
    } else {
        None
    }
}

/// `rest` is what follows the first `separator` of `text`.
pub open spec fn is_after_first(text: Seq<char>, separator: char, rest: Seq<char>) -> bool {
    exists|i: int|
        0 <= i < text.len() && text[i] == separator && (forall|j: int| 0 <= j < i ==> text[j] != separator)
            && rest == text.subrange(i + 1, text.len() as int)
}

/// Wraps `str::split_once` with a `char` pattern. Claimed: nothing when `text`
/// does not hold `separator`; otherwise what follows its first occurrence.
#[verifier::external_body]
fn text_after_first(text: &str, separator: char) -> (tail: Option<String>)
    ensures
        match tail {
            Some(r) => text@.contains(separator) && is_after_first(text@, separator, r@),
            None => !text@.contains(separator),
        },
{
    text.split_once(separator).map(|(_, after)| after.to_string())
}

/// The Base64 payload of a drag image: what follows the first comma of a
/// data URL such as `data:image/png;base64,...`, or the whole text.
pub open spec fn drag_image_payload(data: Seq<char>) -> Seq<char> {
    match after_first_comma(data) {
        Some(rest) => rest,
        None => data,
    }
}

/// The bytes of the drag image the interface sent, with any data URL prefix
/// removed; nothing when it is not valid Base64.
pub fn decode_drag_image(data: &str) -> (image: Option<Vec<u8>>)
    ensures
        match image {
            Some(v) => base64_encoding(v@) == drag_image_payload(data@),
            None => not_base64(drag_image_payload(data@)),
        },
{
    let decoded = match text_after_first(data, ',') {
        Some(rest) => {
            proof {
                let i = choose|i: int|
                    0 <= i < data@.len() && data@[i] == ',' && (forall|j: int| 0 <= j < i ==> data@[j] != ',')
                        && rest@ == data@.subrange(i + 1, data@.len() as int);
                let k = choose|k: int| 0 <= k < data@.len() && data@[k] == ',' && forall|j: int| 0 <= j < k ==> data@[j] != ',';
                if k < i {
                    assert(data@[k] != ',');
                }
                if i < k {
                    assert(data@[i] != ',');
                }
            }
            decode_base64(rest.as_str())
        },
        None => decode_base64(data),
    };
    match decoded {
        Ok(bytes) => Some(bytes),
        Err(_) => None,
    }
}

/// The bytes of data pasted as Base64, or the decoder's message when the
/// text is not the Base64 encoding of any bytes.
pub fn decode_pasted_data(data_base64: &str) -> (bytes: Result<Vec<u8>, String>)
    ensures
        match bytes {
            Ok(v) => base64_encoding(v@) == data_base64@,
            Err(e) => e@ == base64_decode_error(data_base64@) && not_base64(data_base64@),
        },
{
    decode_base64(data_base64)
}

/// A path given to drag out of a Drop, as the file system resolved it.
#[derive(Debug)]
pub struct DragPath {
    /// The canonical path.
    pub path: String,
    pub is_dir: bool,
    pub is_file: bool,
}

impl Clone for DragPath {
    fn clone(&self) -> (copy: Self)
        ensures
            copy == *self,
    {
        DragPath { path: self.path.clone(), is_dir: self.is_dir, is_file: self.is_file }
    }
}

/// The paths that a file drag carries and what kinds of entry they are.
#[derive(Debug)]
pub struct DragSelection {
    pub paths: Vec<DragPath>,
    pub contains_folder: bool,
    pub contains_file: bool,
}

/// The resolved paths, in order; `None` stands for a path that could not be
/// made canonical or names nothing that exists.
pub open spec fn valid_drag_paths(probes: Seq<Option<DragPath>>) -> Seq<DragPath>
    decreases probes.len(),
{
    if probes.len() == 0 {
        Seq::empty()
    } else {
        let rest = valid_drag_paths(probes.drop_last());
        match probes.last() {
            Some(p) => rest.push(p),
            None => rest,
        }
    }
}

/// Chooses what a file drag carries: the paths that resolved, in order, and
/// whether any of them is a folder or a file; the drag is refused when none
/// resolved.
pub fn select_drag_paths(probes: &Vec<Option<DragPath>>) -> (selection: Result<DragSelection, String>)
    ensures
        valid_drag_paths(probes@).len() == 0 ==> (selection matches Err(e) && e@ == "No valid files to drag"@),
        valid_drag_paths(probes@).len() > 0 ==> (selection matches Ok(sel) && ({
            let valid = valid_drag_paths(probes@);
            &&& sel.paths@ == valid
            &&& sel.contains_folder == exists|i: int| 0 <= i < valid.len() && (#[trigger] valid[i]).is_dir
            &&& sel.contains_file == exists|i: int| 0 <= i < valid.len() && (#[trigger] valid[i]).is_file
        })),
{
    let mut paths: Vec<DragPath> = Vec::new();
    let mut contains_folder = false;
    let mut contains_file = false;
    let mut i: usize = 0;
    assert(probes@.take(0) =~= Seq::<Option<DragPath>>::empty());
    while i < probes.len()
        invariant
            i <= probes@.len(),
            paths@ == valid_drag_paths(probes@.take(i as int)),
            contains_folder == exists|j: int| 0 <= j < paths@.len() && (#[trigger] paths@[j]).is_dir,
            contains_file == exists|j: int| 0 <= j < paths@.len() && (#[trigger] paths@[j]).is_file,
        decreases probes@.len() - i,
    {
        let ghost prefix = probes@.take(i as int + 1);
        assert(prefix.drop_last() =~= probes@.take(i as int));
        assert(prefix.last() == probes@[i as int]);
        match &probes[i] {
            Some(p) => {
                let ghost before = paths@;
                let copy = p.clone();
                if copy.is_dir {
                    contains_folder = true;
                }
                if copy.is_file {
                    contains_file = true;
                }
                paths.push(copy);
                proof {
                    let n = before.len() as int;
                    assert(paths@[n] == *p);
                    if contains_folder && !p.is_dir {
                        let j = choose|j: int| 0 <= j < before.len() && (#[trigger] before[j]).is_dir;
                        assert(paths@[j] == before[j]);
                    }
                    if contains_file && !p.is_file {
                        let j = choose|j: int| 0 <= j < before.len() && (#[trigger] before[j]).is_file;
                        assert(paths@[j] == before[j]);
                    }
                    assert forall|j: int| 0 <= j < n && (#[trigger] paths@[j]).is_dir implies contains_folder by {
                        assert(paths@[j] == before[j]);
                    }
                    assert forall|j: int| 0 <= j < n && (#[trigger] paths@[j]).is_file implies contains_file by {
                        assert(paths@[j] == before[j]);
                    }
                }
            },
            None => {},
        }
        i = i + 1;
    }
    assert(probes@.take(probes@.len() as int) =~= probes@);
    if paths.len() == 0 {
        return Err(String::from_str("No valid files to drag"));
    }
    Ok(DragSelection { paths, contains_folder, contains_file })
}

} // verus!
