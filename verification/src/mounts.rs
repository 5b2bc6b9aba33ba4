//! The mount table of the root directory: which file system a path belongs
//! to, and the checks that path operations at the root make before touching
//! any file system.
use vstd::prelude::*;
use crate::vfs::{VfsError, SLASH, DOT, copy_range, bytes_eq};

verus! {

/// The first position at or after `i` of `p` that is not a slash, or its
/// length.
pub open spec fn first_non_slash(p: Seq<u8>, i: int) -> int
    decreases p.len() - i,
{
    if i >= p.len() {
        p.len() as int
    } else if p[i] != SLASH {
        i
    } else {
        first_non_slash(p, i + 1)
    }
}

/// The end of `p[..j]` without its trailing slashes.
pub open spec fn end_non_slash(p: Seq<u8>, j: int) -> int
    decreases j,
{
    if j <= 0 {
        0
    } else if p[j - 1] != SLASH {
        j
    } else {
        end_non_slash(p, j - 1)
    }
}

/// `p` without its leading and trailing slashes.
pub open spec fn trim_slashes(p: Seq<u8>) -> Seq<u8> {
    let a = first_non_slash(p, 0);
    if a >= p.len() {
        Seq::empty()
    } else {
        p.subrange(a, end_non_slash(p, p.len() as int))
    }
}

proof fn lemma_first_non_slash(p: Seq<u8>, i: int)
    requires
        0 <= i <= p.len(),
    ensures
        i <= first_non_slash(p, i) <= p.len(),
        forall|k: int| i <= k < first_non_slash(p, i) ==> p[k] == SLASH,
        first_non_slash(p, i) < p.len() ==> p[first_non_slash(p, i)] != SLASH,
    decreases p.len() - i,
{
    if i < p.len() && p[i] == SLASH {
        lemma_first_non_slash(p, i + 1);
    }
}

proof fn lemma_end_non_slash(p: Seq<u8>, j: int, a: int)
    requires
        0 <= a < j <= p.len(),
        p[a] != SLASH,
    ensures
        a < end_non_slash(p, j) <= j,
        forall|k: int| end_non_slash(p, j) <= k < j ==> p[k] == SLASH,
    decreases j,
{
    if p[j - 1] == SLASH {
        lemma_end_non_slash(p, j - 1, a);
    }
}

/// `path` without its leading and trailing slashes.
pub fn trim_slashes_exec(path: &[u8]) -> (t: Vec<u8>)
    ensures
        t@ == trim_slashes(path@),
{
    let mut a: usize = 0;
    while a < path.len() && path[a] == SLASH
        invariant
            a <= path@.len(),
            first_non_slash(path@, 0) == first_non_slash(path@, a as int),
        decreases path@.len() - a,
    {
        a = a + 1;
    }
    if a >= path.len() {
        return Vec::new();
    }
    let mut b: usize = path.len();
    proof {
        lemma_end_non_slash(path@, path@.len() as int, a as int);
    }
    while b > a && path[b - 1] == SLASH
        invariant
            a < path@.len(),
            path@[a as int] != SLASH,
            a < b <= path@.len(),
            first_non_slash(path@, 0) == a,
            end_non_slash(path@, path@.len() as int) == end_non_slash(path@, b as int),
        decreases b,
    {
        b = b - 1;
    }
    copy_range(path, a, b)
}

/// Whether path `p` (trimmed) lies at or under mount point `mp`: it starts
/// with `mp` without its leading slash, and either ends there or goes on
/// with a slash.
pub open spec fn under_mount(p: Seq<u8>, mp: Seq<u8>) -> bool {
    let name = mp.drop_first();
    &&& p.len() >= name.len()
    &&& p.subrange(0, name.len() as int) == name
    &&& (p.len() == name.len() || p[name.len() as int] == SLASH)
}

/// Whether `p` begins with `./`.
pub open spec fn starts_dot_slash(p: Seq<u8>) -> bool {
    p.len() >= 2 && p[0] == DOT && p[1] == SLASH
}

/// The path a lookup at the root works on: trimmed, and with each leading
/// `./` removed, trimming again after each.
pub open spec fn root_path(p: Seq<u8>) -> Seq<u8>
    decreases p.len(),
{
    let t = trim_slashes(p);
    if starts_dot_slash(t) {
        proof {
            lemma_trim_len(p);
        }
        root_path(t.skip(2))
    } else {
        t
    }
}

/// Trimming never lengthens a path.
pub proof fn lemma_trim_len(p: Seq<u8>)
    ensures
        trim_slashes(p).len() <= p.len(),
{
    lemma_first_non_slash(p, 0);
    let a = first_non_slash(p, 0);
    if a < p.len() {
        lemma_end_non_slash(p, p.len() as int, a);
    }
}

/// Whether `mounts[i]` is the mount a root path `p` belongs to: `p` lies
/// under it, and every mount it lies under has a shorter path or the same
/// length and an earlier place.
pub open spec fn best_mount(mounts: Seq<Seq<u8>>, p: Seq<u8>, i: int) -> bool {
    &&& 0 <= i < mounts.len()
    &&& under_mount(p, mounts[i])
    &&& forall|j: int| 0 <= j < mounts.len() && under_mount(p, #[trigger] mounts[j]) ==>
        mounts[j].len() < mounts[i].len() || (mounts[j].len() == mounts[i].len() && j <= i)
}

/// Whether every mount path starts with a slash and names something.
pub open spec fn mounts_wf(mounts: Seq<Seq<u8>>) -> bool {
    forall|i: int| 0 <= i < mounts.len() ==> (#[trigger] mounts[i]).len() >= 2 && mounts[i][0] == SLASH
}

/// The mount points of the root directory, in the order they were mounted.
pub struct MountTable {
    paths: Vec<Vec<u8>>,
}

impl MountTable {
    /// The mount paths, in mount order.
    pub closed spec fn view(&self) -> Seq<Seq<u8>> {
        self.paths@.map_values(|v: Vec<u8>| v@)
    }

    /// Whether every mount path starts with a slash and names something.
    pub open spec fn wf(&self) -> bool {
        mounts_wf(self@)
    }

    /// A root directory without mounts.
    pub fn new() -> (t: Self)
        ensures
            t.wf(),
            t@ == Seq::<Seq<u8>>::empty(),
    {
        let t = MountTable { paths: Vec::new() };
        assert(t@ =~= Seq::<Seq<u8>>::empty());
        t
    }

    /// Whether `path` is a mount point.
    pub fn contains(&self, path: &[u8]) -> (b: bool)
        ensures
            b == self@.contains(path@),
    {
        let mut i: usize = 0;
        while i < self.paths.len()
            invariant
                i <= self@.len(),
                forall|k: int| 0 <= k < i ==> self@[k] != path@,
            decreases self@.len() - i,
        {
            if bytes_eq(self.paths[i].as_slice(), path) {
                assert(self@[i as int] == path@);
                return true;
            }
            i = i + 1;
        }
        false
    }

    /// Whether `path` may be mounted on: not the root, starting with a slash,
    /// and not a mount point yet.
    pub fn check_mount(&self, path: &[u8]) -> (r: Result<(), VfsError>)
        ensures
            r == if path@ == seq![SLASH] || path@.len() == 0 || path@[0] != SLASH || self@.contains(path@) {
                Err::<(), VfsError>(VfsError::InvalidInput)
            } else {
                Ok(())
            },
    {
        if path.len() == 1 && path[0] == SLASH {
            assert(path@ =~= seq![SLASH]);
            return Err(VfsError::InvalidInput);
        }
        if path.len() == 0 || path[0] != SLASH {
            return Err(VfsError::InvalidInput);
        }
        if self.contains(path) {
            return Err(VfsError::InvalidInput);
        }
        assert(path@ != seq![SLASH]);
        Ok(())
    }

    /// Records `path` as a mount point, once `check_mount` allowed it.
    pub fn push_mount(&mut self, path: &[u8])
        requires
            old(self).wf(),
            path@.len() >= 2,
            path@[0] == SLASH,
        ensures
            final(self).wf(),
            final(self)@ == old(self)@.push(path@),
    {
        let v = copy_range(path, 0, path.len());
        assert(v@ =~= path@);
        self.paths.push(v);
        assert(self@ =~= old(self)@.push(path@));
    }

    /// Forgets the mount point `path`.
    pub fn umount(&mut self, path: &[u8])
        requires
            old(self).wf(),
        ensures
            final(self).wf(),
            final(self)@ == old(self)@.filter(|m: Seq<u8>| m != path@),
    {
        let ghost s = self@;
        let mut kept: Vec<Vec<u8>> = Vec::new();
        let mut rest: Vec<Vec<u8>> = Vec::new();
        std::mem::swap(&mut rest, &mut self.paths);
        let mut i: usize = 0;
        let ghost src = rest@;
        proof {
            assert(rest@.map_values(|v: Vec<u8>| v@) == s);
        }
        while i < rest.len()
            invariant
                rest@ == src,
                src.map_values(|v: Vec<u8>| v@) == s,
                i <= src.len(),
                kept@.map_values(|v: Vec<u8>| v@) == s.take(i as int).filter(|m: Seq<u8>| m != path@),
                mounts_wf(s),
                forall|k: int| 0 <= k < kept@.len() ==> (#[trigger] kept@[k]@).len() >= 2 && kept@[k]@[0] == SLASH,
            decreases src.len() - i,
        {
            let same = bytes_eq(rest[i].as_slice(), path);
            proof {
                assert(s[i as int] == src[i as int]@);
                assert(s.take(i + 1).drop_last() =~= s.take(i as int));
                reveal(Seq::filter);
            }
            if !same {
                let c = copy_range(rest[i].as_slice(), 0, rest[i].len());
                let ghost before = kept@.map_values(|v: Vec<u8>| v@);
                kept.push(c);
                proof {
                    assert(c@ =~= s[i as int]);
                    assert(kept@.map_values(|v: Vec<u8>| v@) =~= before.push(s[i as int]));
                    assert(kept@[kept@.len() - 1]@ == s[i as int]);
                }
            }
            i = i + 1;
        }
        proof {
            assert(s.take(s.len() as int) =~= s);
        }
        self.paths = kept;
    }

    /// Whether root path `p` lies under mount `i`.
    fn under(&self, p: &[u8], i: usize) -> (b: bool)
        requires
            self.wf(),
            i < self@.len(),
        ensures
            b == under_mount(p@, self@[i as int]),
    {
        let mp = &self.paths[i];
        assert(mp@ == self@[i as int]);
        let n = mp.len() - 1;
        if p.len() < n {
            return false;
        }
        let mut k: usize = 0;
        while k < n
            invariant
                i < self@.len(),
                mp@ == self@[i as int],
                n == mp@.len() - 1,
                n <= p@.len(),
                k <= n,
                forall|q: int| 0 <= q < k ==> p@[q] == mp@[q + 1],
            decreases n - k,
        {
            if p[k] != mp[k + 1] {
                assert(p@.subrange(0, n as int)[k as int] != mp@.drop_first()[k as int]);
                return false;
            }
            k = k + 1;
        }
        assert(p@.subrange(0, n as int) =~= mp@.drop_first());
        p.len() == n || p[n] == SLASH
    }

    /// The file system that `path` belongs to, looked up at the root: the
    /// mount whose path is the longest that `path` lies under (the later of
    /// two as long), or the main file system (`None`) under none; and the
    /// rest of `path` within it.
    pub fn lookup_mounted_fs(&self, path: &[u8]) -> (r: (Option<usize>, Vec<u8>))
        requires
            self.wf(),
        ensures
            ({
                let p = root_path(path@);
                match r.0 {
                    Some(i) => best_mount(self@, p, i as int) && r.1@ == p.skip(self@[i as int].len() - 1),
                    None => (forall|j: int| 0 <= j < self@.len() ==> !under_mount(p, #[trigger] self@[j])) && r.1@ == p,
                }
            }),
    {
        let mut q: Vec<u8> = copy_range(path, 0, path.len());
        assert(q@ =~= path@);
        let mut p: Vec<u8> = trim_slashes_exec(q.as_slice());
        while p.len() >= 2 && p[0] == DOT && p[1] == SLASH
            invariant
                root_path(path@) == root_path(q@),
                p@ == trim_slashes(q@),
            decreases q@.len(),
        {
            proof {
                lemma_trim_len(q@);
            }
            let rest = copy_range(p.as_slice(), 2, p.len());
            assert(rest@ =~= p@.skip(2));
            q = rest;
            p = trim_slashes_exec(q.as_slice());
        }
        let ghost rp = p@;
        assert(root_path(q@) == rp);
        let mut idx: usize = 0;
        let mut max_len: usize = 0;
        let mut i: usize = 0;
        while i < self.paths.len()
            invariant
                self.wf(),
                rp == p@,
                i <= self@.len(),
                max_len == 0 ==> forall|j: int| 0 <= j < i ==> !under_mount(rp, #[trigger] self@[j]),
                max_len > 0 ==> {
                    &&& idx < i
                    &&& under_mount(rp, self@[idx as int])
                    &&& max_len == self@[idx as int].len() - 1
                    &&& forall|j: int| 0 <= j < i && under_mount(rp, #[trigger] self@[j]) ==>
                        self@[j].len() < self@[idx as int].len() || (self@[j].len() == self@[idx as int].len() && j <= idx)
                },
            decreases self@.len() - i,
        {
            proof {
                assert(self@[i as int] == self.paths@[i as int]@);
            }
            if self.under(p.as_slice(), i) && self.paths[i].len() > max_len {
                max_len = self.paths[i].len() - 1;
                idx = i;
            }
            i = i + 1;
        }
        if max_len == 0 {
            (None, p)
        } else {
            let rest = copy_range(p.as_slice(), max_len, p.len());
            assert(rest@ =~= rp.skip(max_len as int));
            (Some(idx), rest)
        }
    }
}

/// The checks that creating a file at `path` makes before touching a file
/// system: an empty path is not found, one ending in a slash names no file.
pub fn create_file_check(path: &[u8]) -> (r: Result<(), VfsError>)
    ensures
        r == if path@.len() == 0 {
            Err::<(), VfsError>(VfsError::NotFound)
        } else if path@.last() == SLASH {
            Err(VfsError::NotADirectory)
        } else {
            Ok(())
        },
{
    if path.len() == 0 {
        Err(VfsError::NotFound)
    } else if path[path.len() - 1] == SLASH {
        Err(VfsError::NotADirectory)
    } else {
        Ok(())
    }
}

/// Whether `t` names `.` or `..`, or ends in `/.` or `/..`.
pub open spec fn dot_component_last(t: Seq<u8>) -> bool {
    ||| t == seq![DOT]
    ||| t == seq![DOT, DOT]
    ||| (t.len() >= 2 && t[t.len() - 2] == SLASH && t[t.len() - 1] == DOT)
    ||| (t.len() >= 3 && t[t.len() - 3] == SLASH && t[t.len() - 2] == DOT && t[t.len() - 1] == DOT)
}

/// The checks that removing a directory at `path` makes before touching a
/// file system: an empty path is not found, the root is not empty, and a
/// path ending in `.` or `..` is refused.
pub fn remove_dir_check(path: &[u8]) -> (r: Result<(), VfsError>)
    ensures
        r == if path@.len() == 0 {
            Err::<(), VfsError>(VfsError::NotFound)
        } else if trim_slashes(path@).len() == 0 {
            Err(VfsError::DirectoryNotEmpty)
        } else if dot_component_last(trim_slashes(path@)) {
            Err(VfsError::InvalidInput)
        } else {
            Ok(())
        },
{
    if path.len() == 0 {
        return Err(VfsError::NotFound);
    }
    let t = trim_slashes_exec(path);
    let n = t.len();
    if n == 0 {
        return Err(VfsError::DirectoryNotEmpty);
    }
    let is_dot = n == 1 && t[0] == DOT;
    let is_dot_dot = n == 2 && t[0] == DOT && t[1] == DOT;
    let ends_dot = n >= 2 && t[n - 2] == SLASH && t[n - 1] == DOT;
    let ends_dot_dot = n >= 3 && t[n - 3] == SLASH && t[n - 2] == DOT && t[n - 1] == DOT;
    proof {
        if n == 1 && t@[0] == DOT {
            assert(t@ =~= seq![DOT]);
        }
        if n == 2 && t@[0] == DOT && t@[1] == DOT {
            assert(t@ =~= seq![DOT, DOT]);
        }
    }
    if is_dot || is_dot_dot || ends_dot || ends_dot_dot {
        Err(VfsError::InvalidInput)
    } else {
        Ok(())
    }
}

/// What a lookup of `path` makes of the node it found, given whether that
/// node is a directory: a path ending in a slash must name a directory. An
/// empty path is not found.
pub fn lookup_check(path: &[u8], is_dir: bool) -> (r: Result<(), VfsError>)
    ensures
        r == if path@.len() == 0 {
            Err::<(), VfsError>(VfsError::NotFound)
        } else if path@.last() == SLASH && !is_dir {
            Err(VfsError::NotADirectory)
        } else {
            Ok(())
        },
{
    if path.len() == 0 {
        Err(VfsError::NotFound)
    } else if path[path.len() - 1] == SLASH && !is_dir {
        Err(VfsError::NotADirectory)
    } else {
        Ok(())
    }
}

/// Whether making a directory goes on, given what looking its path up gave:
/// `AlreadyExists` when something is there, `Ok` (make it) when nothing is,
/// and the lookup's error otherwise.
pub fn create_dir_decision(found: Result<(), VfsError>) -> (r: Result<(), VfsError>)
    ensures
        r == match found {
            Ok(()) => Err::<(), VfsError>(VfsError::AlreadyExists),
            Err(VfsError::NotFound) => Ok(()),
            Err(e) => Err(e),
        },
{
    match found {
        Ok(()) => Err(VfsError::AlreadyExists),
        Err(VfsError::NotFound) => Ok(()),
        Err(e) => Err(e),
    }
}

/// Whether removing the file found goes on, given whether it is a directory
/// and whether its owner may write it.
pub fn remove_file_decision(is_dir: bool, owner_writable: bool) -> (r: Result<(), VfsError>)
    ensures
        r == if is_dir {
            Err::<(), VfsError>(VfsError::IsADirectory)
        } else if !owner_writable {
            Err(VfsError::PermissionDenied)
        } else {
            Ok(())
        },
{
    if is_dir {
        Err(VfsError::IsADirectory)
    } else if !owner_writable {
        Err(VfsError::PermissionDenied)
    } else {
        Ok(())
    }
}

/// Whether removing the directory found goes on, given whether its path is
/// a mount point, whether it is a directory, and whether its owner may
/// write it.
pub fn remove_dir_decision(is_mount_point: bool, is_dir: bool, owner_writable: bool) -> (r: Result<(), VfsError>)
    ensures
        r == if is_mount_point {
            Err::<(), VfsError>(VfsError::PermissionDenied)
        } else if !is_dir {
            Err(VfsError::NotADirectory)
        } else if !owner_writable {
            Err(VfsError::PermissionDenied)
        } else {
            Ok(())
        },
{
    if is_mount_point {
        Err(VfsError::PermissionDenied)
    } else if !is_dir {
        Err(VfsError::NotADirectory)
    } else if !owner_writable {
        Err(VfsError::PermissionDenied)
    } else {
        Ok(())
    }
}

/// The directory path to change to: the absolute path `abs`, ending in a
/// slash.
pub fn dir_path(abs: &[u8]) -> (p: Vec<u8>)
    ensures
        p@ == if abs@.len() > 0 && abs@.last() == SLASH { abs@ } else { abs@.push(SLASH) },
{
    let mut p = copy_range(abs, 0, abs.len());
    assert(p@ =~= abs@);
    if abs.len() == 0 || abs[abs.len() - 1] != SLASH {
        p.push(SLASH);
    }
    p
}

/// Whether changing to the directory found goes on, given whether it is a
/// directory and whether its owner may search it.
pub fn current_dir_check(is_dir: bool, owner_executable: bool) -> (r: Result<(), VfsError>)
    ensures
        r == if !is_dir {
            Err::<(), VfsError>(VfsError::NotADirectory)
        } else if !owner_executable {
            Err(VfsError::PermissionDenied)
        } else {
            Ok(())
        },
{
    if !is_dir {
        Err(VfsError::NotADirectory)
    } else if !owner_executable {
        Err(VfsError::PermissionDenied)
    } else {
        Ok(())
    }
}

/// An operation that the root directory passes on to a mounted file system.
#[derive(Debug, Clone, Copy, PartialEq, Eq, Structural)]
pub enum RootOp {
    Create,
    Remove,
    Rename,
}

/// What the root directory answers itself for operation `op` once the path
/// is resolved to a file system and `rest`, the path within it: on a mount
/// point itself (nothing left), creating is done already and removing or
/// renaming is refused. `None` passes the operation on.
pub fn root_op_check(op: RootOp, rest: &[u8]) -> (r: Option<Result<(), VfsError>>)
    ensures
        rest@.len() != 0 ==> r is None,
        rest@.len() == 0 ==> r == Some(if op is Create {
            Ok::<(), VfsError>(())
        } else {
            Err(VfsError::PermissionDenied)
        }),
{
    if rest.len() != 0 {
        return None;
    }
    match op {
        RootOp::Create => Some(Ok(())),
        _ => Some(Err(VfsError::PermissionDenied)),
    }
}

/// `/dev`, where the device file system is mounted.
pub open spec fn dev_path() -> Seq<u8> {
    seq![0x2fu8, 0x64u8, 0x65u8, 0x76u8]
}

/// `/dev/shm`, `/tmp` and `/var`, where in-memory file systems are mounted.
pub open spec fn ram_paths() -> Seq<Seq<u8>> {
    seq![
        seq![0x2fu8, 0x64u8, 0x65u8, 0x76u8, 0x2fu8, 0x73u8, 0x68u8, 0x6du8],
        seq![0x2fu8, 0x74u8, 0x6du8, 0x70u8],
        seq![0x2fu8, 0x76u8, 0x61u8, 0x72u8],
    ]
}

/// `/proc`, where the process file system is mounted.
pub open spec fn proc_path() -> Seq<u8> {
    seq![0x2fu8, 0x70u8, 0x72u8, 0x6fu8, 0x63u8]
}

/// `/sys`, where the system file system is mounted.
pub open spec fn sys_path() -> Seq<u8> {
    seq![0x2fu8, 0x73u8, 0x79u8, 0x73u8]
}

/// The mount points of the root file system, in mount order, for the file
/// systems that are built in.
pub open spec fn root_mount_paths(devfs: bool, ramfs: bool, procfs: bool, sysfs: bool) -> Seq<Seq<u8>> {
    (if devfs { seq![dev_path()] } else { Seq::empty() }) + (if ramfs { ram_paths() } else { Seq::empty() }) + (
    if procfs { seq![proc_path()] } else { Seq::empty() }) + (if sysfs { seq![sys_path()] } else { Seq::empty() })
}

/// Records `path`, which is not a mount point yet, as a mount point.
fn mount_new(t: &mut MountTable, path: Vec<u8>)
    requires
        old(t).wf(),
        path@.len() >= 2,
        path@[0] == SLASH,
        !old(t)@.contains(path@),
    ensures
        final(t).wf(),
        final(t)@ == old(t)@.push(path@),
{
    t.push_mount(path.as_slice());
}

/// The mount table that setting up the root file system builds: `/dev` for
/// the device file system, `/dev/shm`, `/tmp` and `/var` for in-memory file
/// systems, then `/proc` and `/sys`, each when that file system is built in.
pub fn root_mounts(devfs: bool, ramfs: bool, procfs: bool, sysfs: bool) -> (t: MountTable)
    ensures
        t.wf(),
        t@ == root_mount_paths(devfs, ramfs, procfs, sysfs),
{
    let mut t = MountTable::new();
    let ghost e = Seq::<Seq<u8>>::empty();
    if devfs {
        mount_new(&mut t, vec![0x2fu8, 0x64u8, 0x65u8, 0x76u8]);
    }
    assert(t@ =~= (if devfs { seq![dev_path()] } else { e }));
    if ramfs {
        let ghost t0 = t@;
        assert(!t0.contains(ram_paths()[0])) by {
            if t0.contains(ram_paths()[0]) {
                assert(t0[0] == dev_path());
                assert(t0[0][4] != ram_paths()[0][4] || t0[0].len() != ram_paths()[0].len());
            }
        }
        mount_new(&mut t, vec![0x2fu8, 0x64u8, 0x65u8, 0x76u8, 0x2fu8, 0x73u8, 0x68u8, 0x6du8]);
        assert(!t@.contains(ram_paths()[1])) by {
            if t@.contains(ram_paths()[1]) {
                let k = choose|k: int| 0 <= k < t@.len() && t@[k] == ram_paths()[1];
                assert(t@[k][1] == ram_paths()[1][1]);
            }
        }
        mount_new(&mut t, vec![0x2fu8, 0x74u8, 0x6du8, 0x70u8]);
        assert(!t@.contains(ram_paths()[2])) by {
            if t@.contains(ram_paths()[2]) {
                let k = choose|k: int| 0 <= k < t@.len() && t@[k] == ram_paths()[2];
                assert(t@[k][1] == ram_paths()[2][1]);
            }
        }
        mount_new(&mut t, vec![0x2fu8, 0x76u8, 0x61u8, 0x72u8]);
    }
    assert(t@ =~= (if devfs { seq![dev_path()] } else { e }) + (if ramfs { ram_paths() } else { e }));
    if procfs {
        assert(!t@.contains(proc_path())) by {
            if t@.contains(proc_path()) {
                let k = choose|k: int| 0 <= k < t@.len() && t@[k] == proc_path();
                assert(t@[k][1] == proc_path()[1]);
            }
        }
        mount_new(&mut t, vec![0x2fu8, 0x70u8, 0x72u8, 0x6fu8, 0x63u8]);
    }
    assert(t@ =~= (if devfs { seq![dev_path()] } else { e }) + (if ramfs { ram_paths() } else { e }) + (
    if procfs { seq![proc_path()] } else { e }));
    if sysfs {
        assert(!t@.contains(sys_path())) by {
            if t@.contains(sys_path()) {
                let k = choose|k: int| 0 <= k < t@.len() && t@[k] == sys_path();
                assert(t@[k][1] == sys_path()[1]);
                assert(t@[k][2] == sys_path()[2]);
            }
        }
        mount_new(&mut t, vec![0x2fu8, 0x73u8, 0x79u8, 0x73u8]);
    }
    assert(t@ =~= root_mount_paths(devfs, ramfs, procfs, sysfs));
    t
}

} // verus!
