//! The device file system: a tree of directories whose leaves are character
//! devices. Entries are added by the kernel; paths can look them up but can
//! neither create nor remove them.
use vstd::prelude::*;
use crate::vfs::{
    VfsError, VfsNodeType, VfsNodeAttr, is_dot, is_dot_dot, path_head, path_rest, lex_lt,
    lemma_path_rest_shorter, lemma_lex_irreflexive, lemma_lex_total, lemma_lex_transitive, lex_compare,
    copy_range, bytes_eq, name_is_dot, name_is_dot_dot, split_path, DOT, VfsDirEntry,
};
use crate::ramfs::{sorted_names, plain_name, lemma_plain_name_split};
use crate::dev::{RandomDev, char_dev_attr, char_dev_attr_exec};

verus! {

/// What a node of the device file system is.
#[derive(Debug, Clone, Copy, PartialEq, Eq, Structural)]
pub enum DevKind {
    /// A directory.
    Dir,
    /// A device that reads as empty.
    Null,
    /// A device that reads as zeros.
    Zero,
    /// A device that reads as pseudo-random bytes.
    Random,
}

/// A node of the tree.
pub struct DevNode {
    kind: DevKind,
    parent: Option<usize>,
    names: Vec<Vec<u8>>,
    ids: Vec<usize>,
    rng: usize,
}

/// The model of a node.
pub struct DevNodeView {
    pub kind: DevKind,
    pub parent: Option<usize>,
    pub names: Seq<Seq<u8>>,
    pub ids: Seq<usize>,
}

impl DevNode {
    pub closed spec fn view(&self) -> DevNodeView {
        DevNodeView {
            kind: self.kind,
            parent: self.parent,
            names: self.names@.map_values(|v: Vec<u8>| v@),
            ids: self.ids@,
        }
    }
}

/// Whether directory `n` has an entry called `name`.
pub open spec fn dev_has_child(n: DevNodeView, name: Seq<u8>) -> bool {
    exists|k: int| 0 <= k < n.names.len() && n.names[k] == name
}

/// The position of the entry called `name` in directory `n`.
pub open spec fn dev_child_pos(n: DevNodeView, name: Seq<u8>) -> int {
    choose|k: int| 0 <= k < n.names.len() && n.names[k] == name
}

/// The node that directory `n` names `name`, if any.
pub open spec fn dev_find_child(n: DevNodeView, name: Seq<u8>) -> Option<usize> {
    if dev_has_child(n, name) {
        Some(n.ids[dev_child_pos(n, name)])
    } else {
        None
    }
}

/// Well-formedness of one node of a tree of `len` nodes.
pub open spec fn dev_node_wf(n: DevNodeView, len: int) -> bool {
    &&& n.names.len() == n.ids.len()
    &&& sorted_names(n.names)
    &&& forall|k: int| 0 <= k < n.ids.len() ==> #[trigger] n.ids[k] < len
    &&& (n.parent matches Some(p) ==> p < len)
    &&& (n.kind != DevKind::Dir ==> n.names.len() == 0 && n.parent is None)
}

/// Well-formedness of the tree: node 0 is the root directory, without
/// parent, and every node is well formed.
pub open spec fn dev_fs_wf(fs: Seq<DevNodeView>) -> bool {
    &&& fs.len() >= 1
    &&& fs[0].kind == DevKind::Dir
    &&& fs[0].parent is None
    &&& forall|i: int| 0 <= i < fs.len() ==> #[trigger] dev_node_wf(fs[i], fs.len() as int)
}

/// The node that one path component leads to from directory `cur`.
pub open spec fn dev_step(fs: Seq<DevNodeView>, cur: usize, name: Seq<u8>) -> Result<usize, VfsError> {
    if name.len() == 0 || is_dot(name) {
        Ok(cur)
    } else if is_dot_dot(name) {
        match fs[cur as int].parent {
            Some(p) => Ok(p),
            None => Err(VfsError::NotFound),
        }
    } else {
        match dev_find_child(fs[cur as int], name) {
            Some(c) => Ok(c),
            None => Err(VfsError::NotFound),
        }
    }
}

/// The node that `path` names, starting at node `cur`; devices have no
/// entries.
pub open spec fn dev_lookup(fs: Seq<DevNodeView>, cur: usize, path: Seq<u8>) -> Result<usize, VfsError>
    decreases path.len(),
{
    if fs[cur as int].kind != DevKind::Dir {
        Err(VfsError::NotADirectory)
    } else {
        match dev_step(fs, cur, path_head(path)) {
            Err(e) => Err(e),
            Ok(next) => match path_rest(path) {
                None => Ok(next),
                Some(rest) => {
                    proof {
                        lemma_path_rest_shorter(path);
                    }
                    dev_lookup(fs, next, rest)
                },
            },
        }
    }
}

/// Whether `path`, taken from node `cur`, ends in `.`, `..` or the start node
/// itself (`Ok(true)`), in an entry name (`Ok(false)`), or fails on the way.
pub open spec fn dev_target(fs: Seq<DevNodeView>, cur: usize, path: Seq<u8>) -> Result<bool, VfsError>
    decreases path.len(),
{
    if fs[cur as int].kind != DevKind::Dir {
        Err(VfsError::NotADirectory)
    } else {
        let name = path_head(path);
        match path_rest(path) {
            None => Ok(name.len() == 0 || is_dot(name) || is_dot_dot(name)),
            Some(rest) => match dev_step(fs, cur, name) {
                Err(e) => Err(e),
                Ok(next) => {
                    proof {
                        lemma_path_rest_shorter(path);
                    }
                    dev_target(fs, next, rest)
                },
            },
        }
    }
}

/// The attributes of a node.
pub open spec fn dev_attr(n: DevNodeView) -> VfsNodeAttr {
    match n.kind {
        DevKind::Dir => VfsNodeAttr { ty: VfsNodeType::Dir, size: 4096, blocks: 0 },
        _ => char_dev_attr(),
    }
}

/// `new` is `old` with a node `node` appended and entered as `name` in
/// directory `dir`, replacing an entry of that name; nothing else changes.
pub open spec fn dev_node_added(old: Seq<DevNodeView>, new: Seq<DevNodeView>, dir: usize, name: Seq<u8>, node: DevNodeView) -> bool {
    &&& new.len() == old.len() + 1
    &&& new[old.len() as int] == node
    &&& forall|j: int| 0 <= j < old.len() && j != dir ==> #[trigger] new[j] == old[j]
    &&& new[dir as int].kind == old[dir as int].kind
    &&& new[dir as int].parent == old[dir as int].parent
    &&& forall|nm: Seq<u8>| #[trigger] dev_find_child(new[dir as int], nm)
            == if nm == name { Some(old.len() as usize) } else { dev_find_child(old[dir as int], nm) }
}

/// The name and type of entry `idx` of the listing of directory `dir`:
/// `.` and `..` first, then the entries in name order.
pub open spec fn dev_listing_entry(fs: Seq<DevNodeView>, dir: usize, idx: int) -> (Seq<u8>, VfsNodeType) {
    if idx == 0 {
        (seq![DOT], VfsNodeType::Dir)
    } else if idx == 1 {
        (seq![DOT, DOT], VfsNodeType::Dir)
    } else {
        (fs[dir as int].names[idx - 2], dev_attr(fs[fs[dir as int].ids[idx - 2] as int]).ty)
    }
}

/// How many entries a read of `len` entries from position `start` of the
/// listing of `dir` returns.
pub open spec fn dev_listing_count(fs: Seq<DevNodeView>, dir: usize, start: int, len: int) -> int {
    let avail = fs[dir as int].names.len() + 2 - start;
    if avail <= 0 {
        0
    } else if avail < len {
        avail
    } else {
        len
    }
}

/// In a directory with sorted names, the entry at position `k` is found
/// under its name.
pub proof fn lemma_dev_find_child_at(n: DevNodeView, k: int)
    requires
        sorted_names(n.names),
        n.names.len() == n.ids.len(),
        0 <= k < n.names.len(),
    ensures
        dev_has_child(n, n.names[k]),
        dev_child_pos(n, n.names[k]) == k,
        dev_find_child(n, n.names[k]) == Some(n.ids[k]),
{
    let nm = n.names[k];
    assert(dev_has_child(n, nm));
    let p = dev_child_pos(n, nm);
    if p != k {
        if p < k {
            assert(lex_lt(n.names[p], n.names[k]));
        } else {
            assert(lex_lt(n.names[k], n.names[p]));
        }
        lemma_lex_irreflexive(nm);
    }
}

/// Entering `name` at position `k` of a sorted directory, between the names
/// that sort before it and those that sort after it.
pub proof fn lemma_dev_insert_entry(n: DevNodeView, k: int, name: Seq<u8>, id: usize)
    requires
        sorted_names(n.names),
        n.names.len() == n.ids.len(),
        0 <= k <= n.names.len(),
        forall|i: int| 0 <= i < k ==> lex_lt(#[trigger] n.names[i], name),
        forall|i: int| k <= i < n.names.len() ==> lex_lt(name, #[trigger] n.names[i]),
    ensures
        ({
            let n2 = DevNodeView { names: n.names.insert(k, name), ids: n.ids.insert(k, id), ..n };
            &&& sorted_names(n2.names)
            &&& forall|nm: Seq<u8>| #[trigger] dev_find_child(n2, nm)
                    == if nm == name { Some(id) } else { dev_find_child(n, nm) }
        }),
{
    let n2 = DevNodeView { names: n.names.insert(k, name), ids: n.ids.insert(k, id), ..n };
    assert forall|i: int, j: int| 0 <= i < j < n2.names.len() implies lex_lt(#[trigger] n2.names[i], #[trigger] n2.names[j]) by {
        if i < k && j == k {
        } else if i < k && j > k {
            assert(n2.names[j] == n.names[j - 1]);
        } else if i == k {
            assert(n2.names[j] == n.names[j - 1]);
        } else if i > k {
            assert(n2.names[i] == n.names[i - 1]);
            assert(n2.names[j] == n.names[j - 1]);
        } else {
            assert(n2.names[i] == n.names[i]);
            assert(n2.names[j] == n.names[j]);
        }
    }
    assert forall|nm: Seq<u8>| #[trigger] dev_find_child(n2, nm) == if nm == name { Some(id) } else { dev_find_child(n, nm) } by {
        if nm == name {
            assert(n2.names[k] == name);
            lemma_dev_find_child_at(n2, k);
        } else if dev_has_child(n, nm) {
            let p = dev_child_pos(n, nm);
            lemma_dev_find_child_at(n, p);
            if p < k {
                assert(n2.names[p] == nm);
                lemma_dev_find_child_at(n2, p);
            } else {
                assert(n2.names[p + 1] == nm);
                lemma_dev_find_child_at(n2, p + 1);
            }
        } else {
            if dev_has_child(n2, nm) {
                let q = dev_child_pos(n2, nm);
                if q < k {
                    assert(n.names[q] == nm);
                } else if q > k {
                    assert(n.names[q - 1] == nm);
                }
            }
        }
    }
}

/// Pointing the entry at position `k` of a sorted directory at `id`.
pub proof fn lemma_dev_replace_entry(n: DevNodeView, k: int, id: usize)
    requires
        sorted_names(n.names),
        n.names.len() == n.ids.len(),
        0 <= k < n.names.len(),
    ensures
        ({
            let n2 = DevNodeView { ids: n.ids.update(k, id), ..n };
            forall|nm: Seq<u8>| #[trigger] dev_find_child(n2, nm)
                == if nm == n.names[k] { Some(id) } else { dev_find_child(n, nm) }
        }),
{
    let n2 = DevNodeView { ids: n.ids.update(k, id), ..n };
    assert forall|nm: Seq<u8>| #[trigger] dev_find_child(n2, nm)
        == if nm == n.names[k] { Some(id) } else { dev_find_child(n, nm) } by {
        assert(n2.names == n.names);
        if dev_has_child(n, nm) {
            let p = dev_child_pos(n, nm);
            lemma_dev_find_child_at(n, p);
            assert(n2.names[p] == nm);
            lemma_dev_find_child_at(n2, p);
            if p == k {
                assert(n2.ids[p] == id);
            } else {
                assert(n2.ids[p] == n.ids[p]);
                assert(nm != n.names[k]) by {
                    lemma_dev_find_child_at(n, k);
                }
            }
        } else {
            assert(!dev_has_child(n2, nm));
            if nm == n.names[k] {
                assert(dev_has_child(n, n.names[k]));
            }
        }
    }
}

/// The device file system: a tree of nodes in an arena whose node 0 is the
/// root directory, and the generators of its random devices.
pub struct DeviceFileSystem {
    nodes: Vec<DevNode>,
    rngs: Vec<RandomDev>,
}

impl DeviceFileSystem {
    /// The nodes of the arena, by index.
    pub closed spec fn view(&self) -> Seq<DevNodeView> {
        self.nodes@.map_values(|n: DevNode| n.view())
    }

    /// Whether the tree is well formed and every random device has its
    /// generator.
    pub closed spec fn wf(&self) -> bool {
        &&& dev_fs_wf(self@)
        &&& forall|i: int| 0 <= i < self.nodes@.len() && (#[trigger] self.nodes@[i]).kind == DevKind::Random
            ==> self.nodes@[i].rng < self.rngs@.len()
    }

    /// Whether `id` names a node.
    pub open spec fn valid(&self, id: usize) -> bool {
        id < self@.len()
    }

    /// A file system holding an empty root directory.
    pub fn new() -> (fs: Self)
        ensures
            fs.wf(),
            fs@.len() == 1,
            fs@[0].kind == DevKind::Dir,
            fs@[0].parent is None,
            fs@[0].names.len() == 0,
    {
        let mut nodes: Vec<DevNode> = Vec::new();
        nodes.push(DevNode { kind: DevKind::Dir, parent: None, names: Vec::new(), ids: Vec::new(), rng: 0 });
        let fs = DeviceFileSystem { nodes, rngs: Vec::new() };
        assert(fs@[0].names =~= Seq::<Seq<u8>>::empty());
        fs
    }

    /// The root directory.
    pub fn root_dir(&self) -> (r: usize)
        requires
            self.wf(),
        ensures
            r == 0,
            self.valid(r),
    {
        0
    }

    /// The position of entry `name` in directory `dir`, if present.
    fn find_pos(&self, dir: usize, name: &[u8]) -> (r: Option<usize>)
        requires
            self.wf(),
            self.valid(dir),
        ensures
            match r {
                Some(k) => dev_has_child(self@[dir as int], name@) && k == dev_child_pos(self@[dir as int], name@)
                    && k < self@[dir as int].names.len(),
                None => !dev_has_child(self@[dir as int], name@),
            },
    {
        let node = &self.nodes[dir];
        let ghost n = self@[dir as int];
        assert(dev_node_wf(n, self@.len() as int));
        let mut k: usize = 0;
        while k < node.names.len()
            invariant
                node.view() == n,
                n == self@[dir as int],
                dev_node_wf(n, self@.len() as int),
                k <= n.names.len(),
                forall|j: int| 0 <= j < k ==> n.names[j] != name@,
            decreases n.names.len() - k,
        {
            if bytes_eq(node.names[k].as_slice(), name) {
                assert(n.names[k as int] == name@);
                proof {
                    lemma_dev_find_child_at(n, k as int);
                }
                return Some(k);
            }
            k = k + 1;
        }
        None
    }

    /// The node that directory `dir` names `name`.
    fn child(&self, dir: usize, name: &[u8]) -> (r: Option<usize>)
        requires
            self.wf(),
            self.valid(dir),
        ensures
            r == dev_find_child(self@[dir as int], name@),
            r matches Some(c) ==> self.valid(c),
    {
        match self.find_pos(dir, name) {
            Some(k) => {
                let ghost n = self@[dir as int];
                assert(dev_node_wf(n, self@.len() as int));
                assert(n.ids[k as int] < self@.len());
                Some(self.nodes[dir].ids[k])
            },
            None => None,
        }
    }

    /// The node one path component leads to from directory `cur`.
    fn step(&self, cur: usize, name: &[u8]) -> (r: Result<usize, VfsError>)
        requires
            self.wf(),
            self.valid(cur),
        ensures
            r == dev_step(self@, cur, name@),
            r matches Ok(n) ==> self.valid(n),
    {
        if name.len() == 0 || name_is_dot(name) {
            Ok(cur)
        } else if name_is_dot_dot(name) {
            assert(dev_node_wf(self@[cur as int], self@.len() as int));
            match self.nodes[cur].parent {
                Some(p) => Ok(p),
                None => Err(VfsError::NotFound),
            }
        } else {
            match self.child(cur, name) {
                Some(c) => Ok(c),
                None => Err(VfsError::NotFound),
            }
        }
    }

    /// The parent of a directory; devices have none.
    pub fn parent(&self, node: usize) -> (r: Option<usize>)
        requires
            self.wf(),
            self.valid(node),
        ensures
            r == self@[node as int].parent,
            r matches Some(p) ==> self.valid(p),
    {
        assert(dev_node_wf(self@[node as int], self@.len() as int));
        self.nodes[node].parent
    }

    /// The node that `path` names, starting at node `cur`.
    pub fn lookup(&self, cur: usize, path: &[u8]) -> (r: Result<usize, VfsError>)
        requires
            self.wf(),
            self.valid(cur),
        ensures
            r == dev_lookup(self@, cur, path@),
            r matches Ok(n) ==> self.valid(n),
    {
        let mut node = cur;
        let mut p: Vec<u8> = copy_range(path, 0, path.len());
        assert(p@ =~= path@);
        loop
            invariant
                self.wf(),
                self.valid(node),
                dev_lookup(self@, cur, path@) == dev_lookup(self@, node, p@),
            decreases p@.len(),
        {
            if self.nodes[node].kind != DevKind::Dir {
                return Err(VfsError::NotADirectory);
            }
            let (name, rest) = split_path(p.as_slice());
            proof {
                lemma_path_rest_shorter(p@);
            }
            let next = match self.step(node, name.as_slice()) {
                Ok(n) => n,
                Err(e) => {
                    return Err(e);
                },
            };
            match rest {
                None => {
                    return Ok(next);
                },
                Some(r) => {
                    node = next;
                    p = r;
                },
            }
        }
    }

    /// Where `path`, taken from node `cur`, ends.
    fn target(&self, cur: usize, path: &[u8]) -> (r: Result<bool, VfsError>)
        requires
            self.wf(),
            self.valid(cur),
        ensures
            r == dev_target(self@, cur, path@),
    {
        let mut node = cur;
        let mut p: Vec<u8> = copy_range(path, 0, path.len());
        assert(p@ =~= path@);
        loop
            invariant
                self.wf(),
                self.valid(node),
                dev_target(self@, cur, path@) == dev_target(self@, node, p@),
            decreases p@.len(),
        {
            if self.nodes[node].kind != DevKind::Dir {
                return Err(VfsError::NotADirectory);
            }
            let (name, rest) = split_path(p.as_slice());
            proof {
                lemma_path_rest_shorter(p@);
            }
            match rest {
                None => {
                    return Ok(name.len() == 0 || name_is_dot(name.as_slice()) || name_is_dot_dot(name.as_slice()));
                },
                Some(r) => {
                    let next = match self.step(node, name.as_slice()) {
                        Ok(n) => n,
                        Err(e) => {
                            return Err(e);
                        },
                    };
                    node = next;
                    p = r;
                },
            }
        }
    }

    /// Creating at `path` from node `cur`: a path that ends in `.`, `..` or
    /// the start node is already there, any other name is refused.
    pub fn create(&self, cur: usize, path: &[u8], ty: VfsNodeType) -> (r: Result<(), VfsError>)
        requires
            self.wf(),
            self.valid(cur),
        ensures
            r == match dev_target(self@, cur, path@) {
                Err(e) => Err::<(), VfsError>(e),
                Ok(true) => Ok(()),
                Ok(false) => Err(VfsError::PermissionDenied),
            },
    {
        match self.target(cur, path) {
            Err(e) => Err(e),
            Ok(true) => Ok(()),
            Ok(false) => Err(VfsError::PermissionDenied),
        }
    }

    /// Removing at `path` from node `cur`: refused wherever the path leads.
    pub fn remove(&self, cur: usize, path: &[u8]) -> (r: Result<(), VfsError>)
        requires
            self.wf(),
            self.valid(cur),
        ensures
            r == match dev_target(self@, cur, path@) {
                Err(e) => Err::<(), VfsError>(e),
                Ok(_) => Err(VfsError::PermissionDenied),
            },
    {
        match self.target(cur, path) {
            Err(e) => Err(e),
            Ok(_) => Err(VfsError::PermissionDenied),
        }
    }

    /// The attributes of a node.
    pub fn get_attr(&self, node: usize) -> (a: VfsNodeAttr)
        requires
            self.wf(),
            self.valid(node),
        ensures
            a == dev_attr(self@[node as int]),
    {
        match self.nodes[node].kind {
            DevKind::Dir => VfsNodeAttr::new_dir(4096, 0),
            _ => char_dev_attr_exec(),
        }
    }

    /// Appends `node` and enters it as `name` in directory `dir`, replacing
    /// an entry of that name; returns its index.
    fn enter(&mut self, dir: usize, name: &[u8], node: DevNode) -> (id: usize)
        requires
            old(self).wf(),
            old(self).valid(dir),
            old(self)@[dir as int].kind == DevKind::Dir,
            old(self)@.len() < usize::MAX,
            node.view().names.len() == 0,
            node.view().ids.len() == 0,
            node.view().parent matches Some(p) ==> p < old(self)@.len(),
            node.view().kind != DevKind::Dir ==> node.view().parent is None,
            node.kind == DevKind::Random ==> node.rng < old(self).rngs@.len(),
        ensures
            final(self).wf(),
            id == old(self)@.len(),
            final(self).rngs@ == old(self).rngs@,
            dev_node_added(old(self)@, final(self)@, dir, name@, node.view()),
    {
        let ghost old_fs = self@;
        let ghost n = old_fs[dir as int];
        assert(dev_fs_wf(old_fs));
        assert(dev_node_wf(n, old_fs.len() as int));
        let id = self.nodes.len();
        match self.find_pos(dir, name) {
            Some(k) => {
                proof {
                    lemma_dev_find_child_at(n, k as int);
                    lemma_dev_replace_entry(n, k as int, id);
                }
                self.nodes[dir].ids.set(k, id);
                let ghost n2 = DevNodeView { ids: n.ids.update(k as int, id), ..n };
                assert(self@ =~= old_fs.update(dir as int, n2));
            },
            None => {
                let mut k: usize = 0;
                while k < self.nodes[dir].names.len() && lex_compare(self.nodes[dir].names[k].as_slice(), name) == -1
                    invariant
                        self@ == old_fs,
                        n == old_fs[dir as int],
                        dir < old_fs.len(),
                        dev_node_wf(n, old_fs.len() as int),
                        !dev_has_child(n, name@),
                        k <= n.names.len(),
                        forall|i: int| 0 <= i < k ==> lex_lt(#[trigger] n.names[i], name@),
                    decreases n.names.len() - k,
                {
                    assert(self.nodes@[dir as int].view().names[k as int] == self.nodes@[dir as int].names@[k as int]@);
                    k = k + 1;
                }
                proof {
                    if k < n.names.len() {
                        assert(!lex_lt(n.names[k as int], name@));
                        assert(n.names[k as int] != name@);
                        lemma_lex_total(n.names[k as int], name@);
                        assert forall|i: int| k <= i < n.names.len() implies lex_lt(name@, #[trigger] n.names[i]) by {
                            if i > k {
                                assert(lex_lt(n.names[k as int], n.names[i]));
                                lemma_lex_transitive(name@, n.names[k as int], n.names[i]);
                            }
                        }
                    }
                    lemma_dev_insert_entry(n, k as int, name@, id);
                }
                let nm = copy_range(name, 0, name.len());
                assert(nm@ =~= name@);
                let ghost old_names = self.nodes@[dir as int].names@;
                self.nodes[dir].names.insert(k, nm);
                self.nodes[dir].ids.insert(k, id);
                proof {
                    assert(self.nodes@[dir as int].names@.map_values(|v: Vec<u8>| v@)
                        =~= old_names.map_values(|v: Vec<u8>| v@).insert(k as int, name@));
                }
                let ghost n2 = DevNodeView { names: n.names.insert(k as int, name@), ids: n.ids.insert(k as int, id), ..n };
                assert(self@ =~= old_fs.update(dir as int, n2));
            },
        }
        let ghost mid = self@;
        self.nodes.push(node);
        proof {
            assert(self@ =~= mid.push(node.view()));
            assert forall|j: int| 0 <= j < self@.len() implies #[trigger] dev_node_wf(self@[j], self@.len() as int) by {
                if j < old_fs.len() && j != dir {
                    assert(dev_node_wf(old_fs[j], old_fs.len() as int));
                } else if j == dir {
                    let d = self@[j];
                    assert forall|q: int| 0 <= q < d.ids.len() implies #[trigger] d.ids[q] < self@.len() by {
                        assert(d.ids[q] == mid[dir as int].ids[q]);
                    }
                }
            }
            assert forall|i: int| 0 <= i < self.nodes@.len() && (#[trigger] self.nodes@[i]).kind == DevKind::Random
                implies self.nodes@[i].rng < self.rngs@.len() by {
                if i < old_fs.len() {
                    assert(self.nodes@[i].kind == old(self).nodes@[i].kind);
                    assert(self.nodes@[i].rng == old(self).nodes@[i].rng);
                }
            }
        }
        id
    }

    /// Creates a subdirectory `name` of directory `dir`, replacing an entry
    /// of that name, and returns it.
    pub fn mkdir(&mut self, dir: usize, name: &[u8]) -> (id: usize)
        requires
            old(self).wf(),
            old(self).valid(dir),
            old(self)@[dir as int].kind == DevKind::Dir,
            old(self)@.len() < usize::MAX,
        ensures
            final(self).wf(),
            id == old(self)@.len(),
            dev_node_added(old(self)@, final(self)@, dir, name@,
                DevNodeView { kind: DevKind::Dir, parent: Some(dir), names: Seq::empty(), ids: Seq::empty() }),
    {
        let node = DevNode { kind: DevKind::Dir, parent: Some(dir), names: Vec::new(), ids: Vec::new(), rng: 0 };
        assert(node.view().names =~= Seq::<Seq<u8>>::empty());
        assert(node.view() =~= (DevNodeView { kind: DevKind::Dir, parent: Some(dir), names: Seq::empty(), ids: Seq::empty() }));
        self.enter(dir, name, node)
    }

    /// Adds a device of kind `kind` as `name` in directory `dir`, replacing
    /// an entry of that name, and returns it.
    pub fn add(&mut self, dir: usize, name: &[u8], kind: DevKind) -> (id: usize)
        requires
            old(self).wf(),
            old(self).valid(dir),
            old(self)@[dir as int].kind == DevKind::Dir,
            old(self)@.len() < usize::MAX,
            kind != DevKind::Dir,
        ensures
            final(self).wf(),
            id == old(self)@.len(),
            dev_node_added(old(self)@, final(self)@, dir, name@,
                DevNodeView { kind, parent: None, names: Seq::empty(), ids: Seq::empty() }),
    {
        let rng = self.rngs.len();
        let ghost before = self@;
        if kind == DevKind::Random {
            self.rngs.push(RandomDev::default());
        }
        assert(self@ == before);
        let node = DevNode { kind, parent: None, names: Vec::new(), ids: Vec::new(), rng };
        assert(node.view().names =~= Seq::<Seq<u8>>::empty());
        assert(node.view() =~= (DevNodeView { kind, parent: None, names: Seq::empty(), ids: Seq::empty() }));
        self.enter(dir, name, node)
    }

    /// Reads from node `node`: a directory refuses, `null` reads nothing,
    /// `zero` fills `buf` with zeros, a random device fills it with the next
    /// bytes of its generator.
    pub fn read_at(&mut self, node: usize, offset: u64, buf: &mut [u8]) -> (r: Result<usize, VfsError>)
        requires
            old(self).wf(),
            old(self).valid(node),
        ensures
            final(self).wf(),
            final(self)@ == old(self)@,
            final(buf)@.len() == old(buf)@.len(),
            match old(self)@[node as int].kind {
                DevKind::Dir => r == Err::<usize, VfsError>(VfsError::IsADirectory) && final(buf)@ == old(buf)@,
                DevKind::Null => r == Ok::<usize, VfsError>(0) && final(buf)@ == old(buf)@,
                DevKind::Zero => r == Ok::<usize, VfsError>(old(buf)@.len() as usize)
                    && final(buf)@ == Seq::new(old(buf)@.len(), |i: int| 0u8),
                DevKind::Random => r == Ok::<usize, VfsError>(old(buf)@.len() as usize),
            },
    {
        match self.nodes[node].kind {
            DevKind::Dir => Err(VfsError::IsADirectory),
            DevKind::Null => crate::dev::NullDev.read_at(offset, buf),
            DevKind::Zero => crate::dev::ZeroDev.read_at(offset, buf),
            DevKind::Random => {
                let i = self.nodes[node].rng;
                let mut dev = self.rngs.remove(i);
                let r = dev.read_at(offset, buf);
                self.rngs.insert(i, dev);
                proof {
                    assert forall|j: int| 0 <= j < self.nodes@.len() && (#[trigger] self.nodes@[j]).kind == DevKind::Random
                        implies self.nodes@[j].rng < self.rngs@.len() by {
                        assert(old(self).nodes@[j].rng < old(self).rngs@.len());
                    }
                }
                r
            },
        }
    }

    /// Writes to node `node`: a directory refuses, devices discard `buf`.
    pub fn write_at(&self, node: usize, offset: u64, buf: &[u8]) -> (r: Result<usize, VfsError>)
        requires
            self.wf(),
            self.valid(node),
        ensures
            r == if self@[node as int].kind == DevKind::Dir {
                Err::<usize, VfsError>(VfsError::IsADirectory)
            } else {
                Ok(buf@.len() as usize)
            },
    {
        match self.nodes[node].kind {
            DevKind::Dir => Err(VfsError::IsADirectory),
            _ => Ok(buf.len()),
        }
    }

    /// Truncates node `node`: a directory refuses, devices do nothing.
    pub fn truncate(&self, node: usize, size: u64) -> (r: Result<(), VfsError>)
        requires
            self.wf(),
            self.valid(node),
        ensures
            r == if self@[node as int].kind == DevKind::Dir {
                Err::<(), VfsError>(VfsError::IsADirectory)
            } else {
                Ok(())
            },
    {
        match self.nodes[node].kind {
            DevKind::Dir => Err(VfsError::IsADirectory),
            _ => Ok(()),
        }
    }

    /// Fills `dirents` with the listing of directory `node` from position
    /// `start_idx` on, and returns how many entries were filled.
    pub fn read_dir(&self, node: usize, start_idx: usize, dirents: &mut [VfsDirEntry]) -> (r: Result<usize, VfsError>)
        requires
            self.wf(),
            self.valid(node),
            start_idx + old(dirents)@.len() <= usize::MAX,
        ensures
            final(dirents)@.len() == old(dirents)@.len(),
            self@[node as int].kind != DevKind::Dir ==> r == Err::<usize, VfsError>(VfsError::NotADirectory)
                && final(dirents)@ == old(dirents)@,
            self@[node as int].kind == DevKind::Dir ==> {
                let n = dev_listing_count(self@, node, start_idx as int, old(dirents)@.len() as int);
                &&& r == Ok::<usize, VfsError>(n as usize)
                &&& forall|k: int| 0 <= k < n ==> (#[trigger] final(dirents)@[k]).name@
                        == dev_listing_entry(self@, node, start_idx + k).0
                        && final(dirents)@[k].ty == dev_listing_entry(self@, node, start_idx + k).1
                &&& forall|k: int| n <= k < old(dirents)@.len() ==> #[trigger] final(dirents)@[k] == old(dirents)@[k]
            },
    {
        if self.nodes[node].kind != DevKind::Dir {
            return Err(VfsError::NotADirectory);
        }
        let ghost fs = self@;
        let ghost orig = dirents@;
        assert(dev_fs_wf(fs));
        assert(dev_node_wf(fs[node as int], fs.len() as int));
        let count = self.nodes[node].names.len();
        let mut i: usize = 0;
        while i < dirents.len()
            invariant
                fs == self@,
                self.wf(),
                self.valid(node),
                fs[node as int].kind == DevKind::Dir,
                dev_node_wf(fs[node as int], fs.len() as int),
                count == fs[node as int].names.len(),
                start_idx + orig.len() <= usize::MAX,
                old(dirents)@ == orig,
                dirents@.len() == orig.len(),
                i <= orig.len(),
                i <= dev_listing_count(fs, node, start_idx as int, orig.len() as int),
                forall|k: int| 0 <= k < i ==> (#[trigger] dirents@[k]).name@ == dev_listing_entry(fs, node, start_idx + k).0
                    && dirents@[k].ty == dev_listing_entry(fs, node, start_idx + k).1,
                forall|k: int| i <= k < orig.len() ==> #[trigger] dirents@[k] == orig[k],
            decreases orig.len() - i,
        {
            let idx = i + start_idx;
            if idx == 0 {
                dirents[i] = VfsDirEntry { name: vec![DOT], ty: VfsNodeType::Dir };
                assert(dirents@[i as int].name@ =~= seq![DOT]);
            } else if idx == 1 {
                dirents[i] = VfsDirEntry { name: vec![DOT, DOT], ty: VfsNodeType::Dir };
                assert(dirents@[i as int].name@ =~= seq![DOT, DOT]);
            } else {
                let ci = idx - 2;
                if ci >= count {
                    return Ok(i);
                }
                let nm = &self.nodes[node].names[ci];
                let child = self.nodes[node].ids[ci];
                assert(fs[node as int].names[ci as int] == nm@);
                assert(child < fs.len());
                let ty = self.get_attr(child).ty;
                dirents[i] = VfsDirEntry::new(nm.as_slice(), ty);
            }
            i = i + 1;
        }
        Ok(i)
    }
}


/// After a node is entered as `name` in directory `dir`, looking `name` up
/// from `dir` finds it, and every other name finds what it found before.
pub proof fn lemma_dev_lookup_after_add(old: Seq<DevNodeView>, new: Seq<DevNodeView>, dir: usize, name: Seq<u8>, node: DevNodeView)
    requires
        dev_fs_wf(old),
        dir < old.len(),
        old[dir as int].kind == DevKind::Dir,
        plain_name(name),
        dev_node_added(old, new, dir, name, node),
    ensures
        dev_lookup(new, dir, name) == Ok::<usize, VfsError>(old.len() as usize),
        forall|nm: Seq<u8>| plain_name(nm) && nm != name ==> #[trigger] dev_lookup(new, dir, nm) == dev_lookup(old, dir, nm),
{
    lemma_plain_name_split(name);
    assert(dev_find_child(new[dir as int], name) == Some(old.len() as usize));
    assert forall|nm: Seq<u8>| plain_name(nm) && nm != name implies #[trigger] dev_lookup(new, dir, nm) == dev_lookup(old, dir, nm) by {
        lemma_plain_name_split(nm);
        assert(dev_find_child(new[dir as int], nm) == dev_find_child(old[dir as int], nm));
    }
}

} // verus!
