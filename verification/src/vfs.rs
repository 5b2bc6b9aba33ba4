//! Shared vocabulary of the file systems: node types, attributes, directory
//! entries, errors, and the path splitting and byte-string helpers that the
//! directory lookups are built on.
use vstd::prelude::*;

verus! {

/// The byte `/`.
pub const SLASH: u8 = 0x2f;

/// The byte `.`.
pub const DOT: u8 = 0x2e;

/// Errors that file system operations report.
#[derive(Debug, Clone, Copy, PartialEq, Eq, Structural)]
pub enum VfsError {
    /// An entity already exists.
    AlreadyExists,
    /// A directory that is not empty was to be removed.
    DirectoryNotEmpty,
    /// An argument is not valid.
    InvalidInput,
    /// A file operation was applied to a directory.
    IsADirectory,
    /// A directory operation was applied to a non-directory.
    NotADirectory,
    /// No entity has that name.
    NotFound,
    /// The operation is not permitted.
    PermissionDenied,
    /// The operation is not supported.
    Unsupported,
}

/// The type of a file system node.
#[derive(Debug, Clone, Copy, PartialEq, Eq, Structural)]
pub enum VfsNodeType {
    /// FIFO (named pipe).
    Fifo,
    /// Character device.
    CharDevice,
    /// Directory.
    Dir,
    /// Block device.
    BlockDevice,
    /// Regular file.
    File,
    /// Symbolic link.
    SymLink,
    /// Socket.
    Socket,
}

/// Attributes of a node: its type, its size in bytes and its number of blocks.
#[derive(Debug, Clone, Copy, PartialEq, Eq, Structural)]
pub struct VfsNodeAttr {
    pub ty: VfsNodeType,
    pub size: u64,
    pub blocks: u64,
}

impl VfsNodeAttr {
    /// Attributes of a directory.
    pub fn new_dir(size: u64, blocks: u64) -> (a: Self)
        ensures
            a == (VfsNodeAttr { ty: VfsNodeType::Dir, size, blocks }),
    {
        VfsNodeAttr { ty: VfsNodeType::Dir, size, blocks }
    }

    /// Attributes of a regular file.
    pub fn new_file(size: u64, blocks: u64) -> (a: Self)
        ensures
            a == (VfsNodeAttr { ty: VfsNodeType::File, size, blocks }),
    {
        VfsNodeAttr { ty: VfsNodeType::File, size, blocks }
    }

    /// Whether the node is a directory.
    pub fn is_dir(&self) -> (b: bool)
        ensures
            b == (self.ty == VfsNodeType::Dir),
    {
        self.ty == VfsNodeType::Dir
    }

    /// The type of the node.
    pub fn file_type(&self) -> (t: VfsNodeType)
        ensures
            t == self.ty,
    {
        self.ty
    }

    /// The size of the node in bytes.
    pub fn size(&self) -> (s: u64)
        ensures
            s == self.size,
    {
        self.size
    }
}

/// A directory entry: the name of a node and its type.
#[derive(Debug)]
pub struct VfsDirEntry {
    pub name: Vec<u8>,
    pub ty: VfsNodeType,
}

impl VfsDirEntry {
    /// An entry with the given name and type.
    pub fn new(name: &[u8], ty: VfsNodeType) -> (e: Self)
        ensures
            e.name@ == name@,
            e.ty == ty,
    {
        VfsDirEntry { name: copy_range(name, 0, name.len()), ty }
    }

    /// An entry with an empty name, to be filled by a directory read.
    pub fn default() -> (e: Self)
        ensures
            e.name@.len() == 0,
            e.ty == VfsNodeType::File,
    {
        VfsDirEntry { name: Vec::new(), ty: VfsNodeType::File }
    }
}

/// The first index at or after `i` that does not hold a `/`, or the length.
pub open spec fn skip_slashes(p: Seq<u8>, i: int) -> int
    decreases p.len() - i,
{
    if 0 <= i < p.len() && p[i] == SLASH {
        skip_slashes(p, i + 1)
    } else {
        i
    }
}

/// The first index at or after `i` that holds a `/`, or the length.
pub open spec fn find_slash(p: Seq<u8>, i: int) -> int
    decreases p.len() - i,
{
    if 0 <= i < p.len() && p[i] != SLASH {
        find_slash(p, i + 1)
    } else {
        i
    }
}

/// The first component of `p`: leading slashes dropped, up to the next slash.
pub open spec fn path_head(p: Seq<u8>) -> Seq<u8> {
    let s = skip_slashes(p, 0);
    p.subrange(s, find_slash(p, s))
}

/// What follows the first component of `p` and the slash after it, if there
/// is such a slash.
pub open spec fn path_rest(p: Seq<u8>) -> Option<Seq<u8>> {
    let e = find_slash(p, skip_slashes(p, 0));
    if e < p.len() {
        Some(p.subrange(e + 1, p.len() as int))
    } else {
        None
    }
}

pub proof fn lemma_skip_slashes_bounds(p: Seq<u8>, i: int)
    requires
        0 <= i <= p.len(),
    ensures
        i <= skip_slashes(p, i) <= p.len(),
        forall|k: int| i <= k < skip_slashes(p, i) ==> p[k] == SLASH,
        skip_slashes(p, i) < p.len() ==> p[skip_slashes(p, i)] != SLASH,
    decreases p.len() - i,
{
    if i < p.len() && p[i] == SLASH {
        lemma_skip_slashes_bounds(p, i + 1);
    }
}

pub proof fn lemma_find_slash_bounds(p: Seq<u8>, i: int)
    requires
        0 <= i <= p.len(),
    ensures
        i <= find_slash(p, i) <= p.len(),
        forall|k: int| i <= k < find_slash(p, i) ==> p[k] != SLASH,
        find_slash(p, i) < p.len() ==> p[find_slash(p, i)] == SLASH,
    decreases p.len() - i,
{
    if i < p.len() && p[i] != SLASH {
        lemma_find_slash_bounds(p, i + 1);
    }
}

/// The rest of a path is shorter than the path.
pub proof fn lemma_path_rest_shorter(p: Seq<u8>)
    ensures
        path_rest(p) is Some ==> path_rest(p)->0.len() < p.len(),
        path_head(p).len() <= p.len(),
{
    lemma_skip_slashes_bounds(p, 0);
    lemma_find_slash_bounds(p, skip_slashes(p, 0));
}

/// A copy of `s[a..b]`.
pub fn copy_range(s: &[u8], a: usize, b: usize) -> (v: Vec<u8>)
    requires
        a <= b <= s@.len(),
    ensures
        v@ == s@.subrange(a as int, b as int),
{
    let mut v: Vec<u8> = Vec::new();
    let mut i = a;
    while i < b
        invariant
            a <= i <= b <= s@.len(),
            v@ == s@.subrange(a as int, i as int),
        decreases b - i,
    {
        v.push(s[i]);
        i = i + 1;
        assert(v@ =~= s@.subrange(a as int, i as int));
    }
    v
}

/// Whether two byte strings are equal.
pub fn bytes_eq(a: &[u8], b: &[u8]) -> (r: bool)
    ensures
        r == (a@ == b@),
{
    if a.len() != b.len() {
        return false;
    }
    let mut i: usize = 0;
    while i < a.len()
        invariant
            a@.len() == b@.len(),
            i <= a@.len(),
            forall|k: int| 0 <= k < i ==> a@[k] == b@[k],
        decreases a@.len() - i,
    {
        if a[i] != b[i] {
            return false;
        }
        i = i + 1;
    }
    assert(a@ =~= b@);
    true
}

/// Whether `p` is the one-byte string `.`.
pub open spec fn is_dot(p: Seq<u8>) -> bool {
    p.len() == 1 && p[0] == DOT
}

/// Whether `p` is the two-byte string `..`.
pub open spec fn is_dot_dot(p: Seq<u8>) -> bool {
    p.len() == 2 && p[0] == DOT && p[1] == DOT
}

/// Whether `p` is the one-byte string `.`.
pub fn name_is_dot(p: &[u8]) -> (r: bool)
    ensures
        r == is_dot(p@),
{
    p.len() == 1 && p[0] == DOT
}

/// Whether `p` is the two-byte string `..`.
pub fn name_is_dot_dot(p: &[u8]) -> (r: bool)
    ensures
        r == is_dot_dot(p@),
{
    p.len() == 2 && p[0] == DOT && p[1] == DOT
}

/// Splits a path into its first component and what follows the slash after
/// it: leading slashes are dropped, and the rest is `None` when no slash
/// follows the first component.
pub fn split_path(path: &[u8]) -> (r: (Vec<u8>, Option<Vec<u8>>))
    ensures
        r.0@ == path_head(path@),
        match r.1 {
            Some(rest) => path_rest(path@) == Some(rest@),
            None => path_rest(path@) is None,
        },
{
    let ghost p = path@;
    let mut s: usize = 0;
    while s < path.len() && path[s] == SLASH
        invariant
            s <= p.len(),
            p == path@,
            skip_slashes(p, 0) == skip_slashes(p, s as int),
        decreases p.len() - s,
    {
        s = s + 1;
    }
    let mut e: usize = s;
    while e < path.len() && path[e] != SLASH
        invariant
            s <= e <= p.len(),
            p == path@,
            s == skip_slashes(p, 0),
            find_slash(p, s as int) == find_slash(p, e as int),
        decreases p.len() - e,
    {
        e = e + 1;
    }
    let name = copy_range(path, s, e);
    if e < path.len() {
        let rest = copy_range(path, e + 1, path.len());
        (name, Some(rest))
    } else {
        (name, None)
    }
}

/// Strict lexicographic order on byte strings, the order of a map keyed by
/// names.
pub open spec fn lex_lt(a: Seq<u8>, b: Seq<u8>) -> bool
    decreases a.len(),
{
    if a.len() == 0 {
        b.len() > 0
    } else if b.len() == 0 {
        false
    } else if a[0] < b[0] {
        true
    } else if a[0] > b[0] {
        false
    } else {
        lex_lt(a.drop_first(), b.drop_first())
    }
}

pub proof fn lemma_lex_irreflexive(a: Seq<u8>)
    ensures
        !lex_lt(a, a),
    decreases a.len(),
{
    if a.len() > 0 {
        lemma_lex_irreflexive(a.drop_first());
    }
}

pub proof fn lemma_lex_transitive(a: Seq<u8>, b: Seq<u8>, c: Seq<u8>)
    requires
        lex_lt(a, b),
        lex_lt(b, c),
    ensures
        lex_lt(a, c),
    decreases a.len(),
{
    if a.len() > 0 && b.len() > 0 && c.len() > 0 && a[0] == b[0] && b[0] == c[0] {
        lemma_lex_transitive(a.drop_first(), b.drop_first(), c.drop_first());
    }
}

pub proof fn lemma_lex_total(a: Seq<u8>, b: Seq<u8>)
    ensures
        a == b || lex_lt(a, b) || lex_lt(b, a),
    decreases a.len(),
{
    if a.len() > 0 && b.len() > 0 && a[0] == b[0] {
        lemma_lex_total(a.drop_first(), b.drop_first());
        if a.drop_first() == b.drop_first() {
            assert(a =~= seq![a[0]] + a.drop_first());
            assert(b =~= seq![b[0]] + b.drop_first());
        }
    } else if a.len() == 0 && b.len() == 0 {
        assert(a =~= b);
    }
}

/// Compares two byte strings: -1 when `a` sorts first, 0 when equal, 1
/// when `b` sorts first.
pub fn lex_compare(a: &[u8], b: &[u8]) -> (r: i8)
    ensures
        r == -1 <==> lex_lt(a@, b@),
        r == 0 <==> a@ == b@,
        r == 1 <==> lex_lt(b@, a@),
        r == -1 || r == 0 || r == 1,
{
    let mut i: usize = 0;
    proof {
        assert(a@.subrange(0, a@.len() as int) =~= a@);
        assert(b@.subrange(0, b@.len() as int) =~= b@);
    }
    while i < a.len() && i < b.len() && a[i] == b[i]
        invariant
            i <= a@.len(),
            i <= b@.len(),
            a@.subrange(0, i as int) == b@.subrange(0, i as int),
            lex_lt(a@, b@) == lex_lt(a@.subrange(i as int, a@.len() as int), b@.subrange(i as int, b@.len() as int)),
            lex_lt(b@, a@) == lex_lt(b@.subrange(i as int, b@.len() as int), a@.subrange(i as int, a@.len() as int)),
        decreases a@.len() - i,
    {
        let ghost sa = a@.subrange(i as int, a@.len() as int);
        let ghost sb = b@.subrange(i as int, b@.len() as int);
        assert(sa.drop_first() =~= a@.subrange(i + 1, a@.len() as int));
        assert(sb.drop_first() =~= b@.subrange(i + 1, b@.len() as int));
        assert(a@.subrange(0, i + 1) =~= a@.subrange(0, i as int).push(a@[i as int]));
        assert(b@.subrange(0, i + 1) =~= b@.subrange(0, i as int).push(b@[i as int]));
        i = i + 1;
    }
    let ghost sa = a@.subrange(i as int, a@.len() as int);
    let ghost sb = b@.subrange(i as int, b@.len() as int);
    proof {
        lemma_lex_irreflexive(a@);
        lemma_lex_irreflexive(b@);
    }
    if i == a.len() && i == b.len() {
        assert(a@ =~= a@.subrange(0, i as int));
        assert(b@ =~= b@.subrange(0, i as int));
        0
    } else if i == a.len() {
        assert(sa.len() == 0);
        assert(a@ != b@);
        -1
    } else if i == b.len() {
        assert(sb.len() == 0);
        assert(a@ != b@);
        1
    } else if a[i] < b[i] {
        assert(a@[i as int] != b@[i as int]);
        assert(a@ != b@);
        -1
    } else {
        assert(a@[i as int] != b@[i as int]);
        assert(a@ != b@);
        1
    }
}

} // verus!
