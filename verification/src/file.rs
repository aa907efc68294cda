//! Files held by a Drop, and how two stored paths are compared.
use crate::text::{ascii_folded, str_eq_ignore_ascii_case, str_equal};
use vstd::prelude::*;
use vstd::string::*;

verus! {

/// How file-system paths are compared: by their components (as `Path`
/// compares paths on Unix-like systems), or as text ignoring the case of
/// ASCII letters (as paths are compared for the Windows file system).
#[derive(Clone, Copy, Debug, PartialEq, Eq, Structural)]
pub enum PathCase {
    Sensitive,
    AsciiInsensitive,
}

/// The pieces of `s` before position `n` that a `/` ends, and where the piece
/// in progress at `n` starts.
pub open spec fn pieces_upto(s: Seq<char>, n: nat) -> (Seq<Seq<char>>, int)
    decreases n,
{
    if n == 0 {
        (Seq::empty(), 0)
    } else {
        let (done, start) = pieces_upto(s, (n - 1) as nat);
        if s[n - 1] == '/' {
            (done.push(s.subrange(start, n - 1)), n as int)
        } else {
            (done, start)
        }
    }
}

/// The pieces of `s` between slashes, empty ones included.
pub open spec fn slash_pieces(s: Seq<char>) -> Seq<Seq<char>> {
    let (done, start) = pieces_upto(s, s.len());
    done.push(s.subrange(start, s.len() as int))
}

/// A piece that names a component: neither empty nor `.`.
pub open spec fn names_component(piece: Seq<char>) -> bool {
    piece.len() > 0 && piece != seq!['.']
}

/// The pieces that name components, in order.
pub open spec fn named_pieces(pieces: Seq<Seq<char>>) -> Seq<Seq<char>>
    decreases pieces.len(),
{
    if pieces.len() == 0 {
        pieces
    } else if names_component(pieces.last()) {
        named_pieces(pieces.drop_last()).push(pieces.last())
    } else {
        named_pieces(pieces.drop_last())
    }
}

/// The path starts at the root directory.
pub open spec fn has_root(s: Seq<char>) -> bool {
    s.len() > 0 && s[0] == '/'
}

/// A relative path that starts with the current directory `.`.
pub open spec fn starts_at_current_dir(s: Seq<char>) -> bool {
    !has_root(s) && s.len() > 0 && s[0] == '.' && (s.len() == 1 || s[1] == '/')
}

/// The components of a path on a Unix-like system: the root directory, a
/// leading current directory, then every piece between slashes that is
/// neither empty nor `.`; `/` and `.` stand for the first two.
pub open spec fn path_components(s: Seq<char>) -> Seq<Seq<char>> {
    (if has_root(s) {
        seq![seq!['/']]
    } else {
        Seq::empty()
    }) + (if starts_at_current_dir(s) {
        seq![seq!['.']]
    } else {
        Seq::empty()
    }) + named_pieces(slash_pieces(s))
}

/// Two canonical paths name the same file under the given comparison.
pub open spec fn same_path(left: Seq<char>, right: Seq<char>, case: PathCase) -> bool {
    match case {
        PathCase::Sensitive => path_components(left) == path_components(right),
        PathCase::AsciiInsensitive => ascii_folded(left) == ascii_folded(right),
    }
}

proof fn lemma_pieces_have_no_slash(s: Seq<char>, n: nat)
    requires
        n <= s.len(),
    ensures
        ({
            let (done, start) = pieces_upto(s, n);
            &&& 0 <= start <= n
            &&& forall|j: int| start <= j < n ==> s[j] != '/'
            &&& forall|k: int| 0 <= k < done.len() ==> !(#[trigger] done[k]).contains('/')
        }),
    decreases n,
{
    if n > 0 {
        lemma_pieces_have_no_slash(s, (n - 1) as nat);
        let (done, start) = pieces_upto(s, (n - 1) as nat);
        if s[n - 1] == '/' {
            let piece = s.subrange(start, n - 1);
            assert forall|k: int| 0 <= k < done.push(piece).len() implies !(#[trigger] done.push(piece)[k]).contains('/') by {
                if k == done.len() {
                    if piece.contains('/') {
                        let j = choose|j: int| 0 <= j < piece.len() && piece[j] == '/';
                        assert(s[start + j] == '/');
                    }
                }
            }
        }
    }
}

proof fn lemma_named_pieces_have_no_slash(pieces: Seq<Seq<char>>)
    requires
        forall|k: int| 0 <= k < pieces.len() ==> !(#[trigger] pieces[k]).contains('/'),
    ensures
        forall|k: int| 0 <= k < named_pieces(pieces).len() ==> !(#[trigger] named_pieces(pieces)[k]).contains('/')
            && names_component(named_pieces(pieces)[k]),
    decreases pieces.len(),
{
    if pieces.len() > 0 {
        let rest = pieces.drop_last();
        assert forall|k: int| 0 <= k < rest.len() implies !(#[trigger] rest[k]).contains('/') by {
            assert(rest[k] == pieces[k]);
        }
        lemma_named_pieces_have_no_slash(rest);
        assert(pieces.last() == pieces[pieces.len() - 1]);
        let named = named_pieces(pieces);
        let before = named_pieces(rest);
        assert forall|k: int| 0 <= k < named.len() implies !(#[trigger] named[k]).contains('/') && names_component(named[k]) by {
            if k < before.len() {
                assert(named[k] == before[k]);
            }
        }
    }
}

/// Equal components come from equal roots, equal leading current
/// directories and equal named pieces, and from nothing else.
proof fn lemma_components_equal(a: Seq<char>, b: Seq<char>)
    ensures
        (path_components(a) == path_components(b)) == (has_root(a) == has_root(b)
            && starts_at_current_dir(a) == starts_at_current_dir(b)
            && named_pieces(slash_pieces(a)) == named_pieces(slash_pieces(b))),
{
    lemma_pieces_have_no_slash(a, a.len());
    lemma_pieces_have_no_slash(b, b.len());
    let (da, sa) = pieces_upto(a, a.len());
    let (db, sb) = pieces_upto(b, b.len());
    let la = a.subrange(sa, a.len() as int);
    let lb = b.subrange(sb, b.len() as int);
    assert(!la.contains('/')) by {
        if la.contains('/') {
            let j = choose|j: int| 0 <= j < la.len() && la[j] == '/';
            assert(a[sa + j] == '/');
        }
    }
    assert(!lb.contains('/')) by {
        if lb.contains('/') {
            let j = choose|j: int| 0 <= j < lb.len() && lb[j] == '/';
            assert(b[sb + j] == '/');
        }
    }
    let pa = slash_pieces(a);
    let pb = slash_pieces(b);
    assert forall|k: int| 0 <= k < pa.len() implies !(#[trigger] pa[k]).contains('/') by {
        if k < da.len() {
            assert(pa[k] == da[k]);
        }
    }
    assert forall|k: int| 0 <= k < pb.len() implies !(#[trigger] pb[k]).contains('/') by {
        if k < db.len() {
            assert(pb[k] == db[k]);
        }
    }
    lemma_named_pieces_have_no_slash(pa);
    lemma_named_pieces_have_no_slash(pb);
    let na = named_pieces(pa);
    let nb = named_pieces(pb);
    let ra: Seq<Seq<char>> = if has_root(a) { seq![seq!['/']] } else { Seq::empty() };
    let rb: Seq<Seq<char>> = if has_root(b) { seq![seq!['/']] } else { Seq::empty() };
    let ca: Seq<Seq<char>> = if starts_at_current_dir(a) { seq![seq!['.']] } else { Seq::empty() };
    let cb: Seq<Seq<char>> = if starts_at_current_dir(b) { seq![seq!['.']] } else { Seq::empty() };
    let xa = ra + ca + na;
    let xb = rb + cb + nb;
    assert(seq!['/'].contains('/')) by {
        assert(seq!['/'][0] == '/');
    }
    assert(seq!['.'] != seq!['/']) by {
        assert(seq!['.'][0] != seq!['/'][0]);
    }
    if xa == xb {
        if has_root(a) != has_root(b) {
            // One side starts with the root, which no other component equals.
            if has_root(a) {
                assert(xa[0] == seq!['/']);
                assert(xb.len() > 0);
                if starts_at_current_dir(b) {
                    assert(xb[0] == seq!['.']);
                } else {
                    assert(xb[0] == nb[0]);
                }
            } else {
                assert(xb[0] == seq!['/']);
                assert(xa.len() > 0);
                if starts_at_current_dir(a) {
                    assert(xa[0] == seq!['.']);
                } else {
                    assert(xa[0] == na[0]);
                }
            }
        }
        assert(ra == rb);
        if starts_at_current_dir(a) != starts_at_current_dir(b) {
            let r = ra.len() as int;
            if starts_at_current_dir(a) {
                assert(xa[r] == seq!['.']);
                assert(xb.len() > r);
                assert(xb[r] == nb[0]);
            } else {
                assert(xb[r] == seq!['.']);
                assert(xa.len() > r);
                assert(xa[r] == na[0]);
            }
        }
        assert(ca == cb);
        let p = (ra + ca).len() as int;
        assert(na =~= xa.subrange(p, xa.len() as int));
        assert(nb =~= xb.subrange(p, xb.len() as int));
    }
}

/// Whether a piece names a component.
fn piece_names_component(piece: &str) -> (named: bool)
    ensures
        named == names_component(piece@),
{
    let n = piece.unicode_len();
    if n == 0 {
        return false;
    }
    if n == 1 && piece.get_char(0) == '.' {
        assert(piece@ =~= seq!['.']);
        return false;
    }
    if n == 1 {
        assert(piece@[0] != seq!['.'][0]);
    }
    true
}

/// The pieces of `path` between slashes that name components, in order.
fn named_pieces_of<'a>(path: &'a str) -> (named: Vec<&'a str>)
    ensures
        named@.len() == named_pieces(slash_pieces(path@)).len(),
        forall|k: int| 0 <= k < named@.len() ==> (#[trigger] named@[k])@ == named_pieces(slash_pieces(path@))[k],
{
    let n = path.unicode_len();
    let mut named: Vec<&'a str> = Vec::new();
    let mut start: usize = 0;
    let mut i: usize = 0;
    while i < n
        invariant
            n == path@.len(),
            i <= n,
            pieces_upto(path@, i as nat).1 == start as int,
            named@.len() == named_pieces(pieces_upto(path@, i as nat).0).len(),
            forall|k: int| 0 <= k < named@.len() ==> (#[trigger] named@[k])@ == named_pieces(pieces_upto(path@, i as nat).0)[k],
        decreases n - i,
    {
        proof {
            lemma_pieces_have_no_slash(path@, i as nat);
        }
        if path.get_char(i) == '/' {
            let piece = path.substring_char(start, i);
            let ghost done = pieces_upto(path@, i as nat).0;
            assert(done.push(piece@).drop_last() =~= done);
            if piece_names_component(piece) {
                named.push(piece);
            }
            start = i + 1;
        }
        i = i + 1;
    }
    proof {
        lemma_pieces_have_no_slash(path@, n as nat);
    }
    let last = path.substring_char(start, n);
    let ghost done = pieces_upto(path@, n as nat).0;
    assert(done.push(last@).drop_last() =~= done);
    if piece_names_component(last) {
        named.push(last);
    }
    named
}

/// Whether two canonical paths refer to the same file: for the Windows file
/// system as text ignoring ASCII case, elsewhere by their components.
pub fn paths_refer_to_same_file(left: &str, right: &str, case: PathCase) -> (same: bool)
    ensures
        same == same_path(left@, right@, case),
{
    match case {
        PathCase::Sensitive => {
            proof {
                lemma_components_equal(left@, right@);
            }
            let ln = left.unicode_len();
            let rn = right.unicode_len();
            let left_root = ln > 0 && left.get_char(0) == '/';
            let right_root = rn > 0 && right.get_char(0) == '/';
            let left_current = !left_root && ln > 0 && left.get_char(0) == '.' && (ln == 1 || left.get_char(1) == '/');
            let right_current = !right_root && rn > 0 && right.get_char(0) == '.' && (rn == 1 || right.get_char(1) == '/');
            if left_root != right_root || left_current != right_current {
                return false;
            }
            let a = named_pieces_of(left);
            let b = named_pieces_of(right);
            if a.len() != b.len() {
                return false;
            }
            let mut k: usize = 0;
            while k < a.len()
                invariant
                    k <= a@.len(),
                    a@.len() == b@.len(),
                    a@.len() == named_pieces(slash_pieces(left@)).len(),
                    b@.len() == named_pieces(slash_pieces(right@)).len(),
                    forall|j: int| 0 <= j < a@.len() ==> (#[trigger] a@[j])@ == named_pieces(slash_pieces(left@))[j],
                    forall|j: int| 0 <= j < b@.len() ==> (#[trigger] b@[j])@ == named_pieces(slash_pieces(right@))[j],
                    forall|j: int| 0 <= j < k ==> named_pieces(slash_pieces(left@))[j] == named_pieces(slash_pieces(right@))[j],
                    case == PathCase::Sensitive,
                    same_path(left@, right@, case) == (named_pieces(slash_pieces(left@)) == named_pieces(slash_pieces(right@))),
                decreases a@.len() - k,
            {
                assert(a@[k as int]@ == named_pieces(slash_pieces(left@))[k as int]);
                assert(b@[k as int]@ == named_pieces(slash_pieces(right@))[k as int]);
                if !str_equal(a[k], b[k]) {
                    assert(named_pieces(slash_pieces(left@))[k as int] != named_pieces(slash_pieces(right@))[k as int]);
                    return false;
                }
                k = k + 1;
            }
            assert(named_pieces(slash_pieces(left@)) =~= named_pieces(slash_pieces(right@)));
            true
        },
        PathCase::AsciiInsensitive => str_eq_ignore_ascii_case(left, right),
    }
}

/// Naming the same file is an equivalence: every path names the same file as
/// itself, in either order, and through a third path.
pub proof fn lemma_same_path_is_an_equivalence(a: Seq<char>, b: Seq<char>, c: Seq<char>, case: PathCase)
    ensures
        same_path(a, a, case),
        same_path(a, b, case) == same_path(b, a, case),
        same_path(a, b, case) && same_path(b, c, case) ==> same_path(a, c, case),
        a == b ==> same_path(a, b, case),
{
}

/// One file or folder held by a Drop.
#[derive(Debug)]
pub struct FileMetadata {
    pub id: u64,
    pub name: String,
    /// The canonical path of the file.
    pub path: String,
    /// The size in bytes; 0 for a folder.
    pub size: u64,
    /// The extension, `"folder"` for a folder, `"unknown"` without one.
    pub file_type: String,
}

impl Clone for FileMetadata {
    fn clone(&self) -> (copy: Self)
        ensures
            copy == *self,
    {
        FileMetadata {
            id: self.id,
            name: self.name.clone(),
            path: self.path.clone(),
            size: self.size,
            file_type: self.file_type.clone(),
        }
    }
}

/// What the file system reports about a path: whether it is a directory, its
/// length, and its last component and extension where they are valid UTF-8.
#[derive(Debug)]
pub struct PathInfo {
    pub is_directory: bool,
    pub len: u64,
    pub file_name: Option<String>,
    pub extension: Option<String>,
}

/// The name shown for a file: its last path component, or `"Unknown"`.
pub open spec fn display_name(info: PathInfo) -> Seq<char> {
    match info.file_name {
        Some(n) => n@,
        None => "Unknown"@,
    }
}

/// The type shown for a file: `"folder"`, its extension, or `"unknown"`.
pub open spec fn display_type(info: PathInfo) -> Seq<char> {
    if info.is_directory {
        "folder"@
    } else {
        match info.extension {
            Some(e) => e@,
            None => "unknown"@,
        }
    }
}

/// The metadata of the file at the canonical `path`, with the given id: a
/// folder is listed with size 0 and type `"folder"`, without scanning what it
/// holds.
pub fn metadata_for_path(path: String, id: u64, info: PathInfo) -> (meta: FileMetadata)
    ensures
        meta.id == id,
        meta.path == path,
        meta.size == (if info.is_directory { 0 } else { info.len }),
        meta.name@ == display_name(info),
        meta.file_type@ == display_type(info),
{
    let size = if info.is_directory {
        0
    } else {
        info.len
    };
    let file_type = if info.is_directory {
        String::from_str("folder")
    } else {
        match info.extension {
            Some(e) => e,
            None => String::from_str("unknown"),
        }
    };
    let name = match info.file_name {
        Some(n) => n,
        None => String::from_str("Unknown"),
    };
    FileMetadata { id, name, path, size, file_type }
}

/// What probing a dropped path found: nothing there, an entry whose metadata
/// could not be read (with the reason), or an entry with its metadata.
#[derive(Debug)]
pub enum PathProbe {
    Missing,
    Unreadable { path: String, error: String },
    Present(FileMetadata),
}

impl PathProbe {
    /// Something exists at the probed path.
    pub open spec fn found(self) -> bool {
        !(self is Missing)
    }
}

} // verus!
