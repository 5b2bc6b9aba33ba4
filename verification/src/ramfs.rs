//! An in-memory file system: directories map names to nodes in name order,
//! files hold their bytes. Nodes live in an arena and are named by their
//! index there; a node that is removed from its directory stays readable by
//! whoever still holds its index, as a node shared by reference would.
use vstd::prelude::*;
use crate::vfs::{
    VfsError, VfsNodeType, VfsNodeAttr, is_dot, is_dot_dot, path_head, path_rest, lex_lt,
    lemma_path_rest_shorter, lemma_lex_irreflexive, SLASH, skip_slashes, find_slash,
    lemma_skip_slashes_bounds, lemma_find_slash_bounds, lemma_lex_total, lemma_lex_transitive, lex_compare, copy_range, bytes_eq, name_is_dot,
    name_is_dot_dot, split_path, DOT, VfsDirEntry,
};

verus! {

/// What a node of the file system is.
#[derive(Debug, Clone, Copy, PartialEq, Eq, Structural)]
pub enum NodeKind {
    /// A directory.
    Dir,
    /// A regular file holding bytes.
    File,
    /// The `interrupts` file, whose text the kernel produces from its
    /// interrupt counters; the file system holds no bytes for it and refuses
    /// reads, writes and truncation on it.
    Interrupts,
}

/// A node in the arena.
pub struct Node {
    kind: NodeKind,
    parent: Option<usize>,
    names: Vec<Vec<u8>>,
    ids: Vec<usize>,
    content: Vec<u8>,
}

/// The model of a node.
pub struct NodeView {
    pub kind: NodeKind,
    pub parent: Option<usize>,
    pub names: Seq<Seq<u8>>,
    pub ids: Seq<usize>,
    pub content: Seq<u8>,
}

impl Node {
    pub closed spec fn view(&self) -> NodeView {
        NodeView {
            kind: self.kind,
            parent: self.parent,
            names: self.names@.map_values(|v: Vec<u8>| v@),
            ids: self.ids@,
            content: self.content@,
        }
    }

    fn new_dir(parent: Option<usize>) -> (n: Self)
        ensures
            n.view() == (NodeView { kind: NodeKind::Dir, parent, names: Seq::empty(), ids: Seq::empty(), content: Seq::empty() }),
    {
        let n = Node { kind: NodeKind::Dir, parent, names: Vec::new(), ids: Vec::new(), content: Vec::new() };
        assert(n.view().names =~= Seq::<Seq<u8>>::empty());
        n
    }

    fn new_leaf(kind: NodeKind) -> (n: Self)
        ensures
            n.view() == (NodeView { kind, parent: None, names: Seq::empty(), ids: Seq::empty(), content: Seq::empty() }),
    {
        let n = Node { kind, parent: None, names: Vec::new(), ids: Vec::new(), content: Vec::new() };
        assert(n.view().names =~= Seq::<Seq<u8>>::empty());
        n
    }
}

/// Whether `names` is strictly increasing in name order.
pub open spec fn sorted_names(names: Seq<Seq<u8>>) -> bool {
    forall|i: int, j: int| 0 <= i < j < names.len() ==> lex_lt(#[trigger] names[i], #[trigger] names[j])
}

/// Whether directory `n` has an entry called `name`.
pub open spec fn has_child(n: NodeView, name: Seq<u8>) -> bool {
    exists|k: int| 0 <= k < n.names.len() && n.names[k] == name
}

/// The position of the entry called `name` in directory `n`.
pub open spec fn child_pos(n: NodeView, name: Seq<u8>) -> int {
    choose|k: int| 0 <= k < n.names.len() && n.names[k] == name
}

/// The node that directory `n` names `name`, if any.
pub open spec fn find_child(n: NodeView, name: Seq<u8>) -> Option<usize> {
    if has_child(n, name) {
        Some(n.ids[child_pos(n, name)])
    } else {
        None
    }
}

/// Well-formedness of one node of an arena of `len` nodes.
pub open spec fn node_wf(n: NodeView, len: int) -> bool {
    &&& n.names.len() == n.ids.len()
    &&& sorted_names(n.names)
    &&& forall|k: int| 0 <= k < n.ids.len() ==> #[trigger] n.ids[k] < len
    &&& (n.parent matches Some(p) ==> p < len)
    &&& (n.kind != NodeKind::Dir ==> n.names.len() == 0 && n.parent is None)
}

/// Well-formedness of an arena: the root is node 0, a directory without
/// parent, and every node is well formed.
pub open spec fn fs_wf(fs: Seq<NodeView>) -> bool {
    &&& fs.len() >= 1
    &&& fs[0].kind == NodeKind::Dir
    &&& fs[0].parent is None
    &&& forall|i: int| 0 <= i < fs.len() ==> #[trigger] node_wf(fs[i], fs.len() as int)
}

/// The node that one path component leads to from directory `cur`.
pub open spec fn step_spec(fs: Seq<NodeView>, cur: usize, name: Seq<u8>) -> Result<usize, VfsError> {
    if name.len() == 0 || is_dot(name) {
        Ok(cur)
    } else if is_dot_dot(name) {
        match fs[cur as int].parent {
            Some(p) => Ok(p),
            None => Err(VfsError::NotFound),
        }
    } else {
        match find_child(fs[cur as int], name) {
            Some(c) => Ok(c),
            None => Err(VfsError::NotFound),
        }
    }
}

/// The node that `path` names, starting at node `cur`.
pub open spec fn lookup_spec(fs: Seq<NodeView>, cur: usize, path: Seq<u8>) -> Result<usize, VfsError>
    decreases path.len(),
{
    if fs[cur as int].kind != NodeKind::Dir {
        Err(VfsError::NotADirectory)
    } else {
        match step_spec(fs, cur, path_head(path)) {
            Err(e) => Err(e),
            Ok(next) => match path_rest(path) {
                None => Ok(next),
                Some(rest) => {
                    proof {
                        lemma_path_rest_shorter(path);
                    }
                    lookup_spec(fs, next, rest)
                },
            },
        }
    }
}

/// Where a path-based creation or removal acts.
pub enum PathTarget {
    /// The path is refused with this error before any entry is touched.
    Fail(VfsError),
    /// The path names `.`, `..` or the start node itself.
    Itself,
    /// The entry `name` of directory `dir`.
    Entry(usize, Seq<u8>),
}

/// Where `path`, taken from node `cur`, leads a creation or removal.
pub open spec fn target_spec(fs: Seq<NodeView>, cur: usize, path: Seq<u8>) -> PathTarget
    decreases path.len(),
{
    if fs[cur as int].kind != NodeKind::Dir {
        PathTarget::Fail(VfsError::NotADirectory)
    } else {
        let name = path_head(path);
        match path_rest(path) {
            None => if name.len() == 0 || is_dot(name) || is_dot_dot(name) {
                PathTarget::Itself
            } else {
                PathTarget::Entry(cur, name)
            },
            Some(rest) => match step_spec(fs, cur, name) {
                Err(e) => PathTarget::Fail(e),
                Ok(next) => {
                    proof {
                        lemma_path_rest_shorter(path);
                    }
                    target_spec(fs, next, rest)
                },
            },
        }
    }
}

/// The bytes a read of `n` bytes at `offset` returns from `content`.
pub open spec fn read_spec(content: Seq<u8>, offset: int, n: int) -> Seq<u8> {
    let start = if offset < content.len() { offset } else { content.len() as int };
    let end = if offset + n < content.len() { offset + n } else { content.len() as int };
    content.subrange(start, end)
}

/// `content` after writing `data` at `offset`, zero-filled up to `offset`
/// when the file was shorter.
pub open spec fn write_spec(content: Seq<u8>, offset: int, data: Seq<u8>) -> Seq<u8> {
    let end = offset + data.len();
    let base = if end > content.len() {
        content + Seq::new((end - content.len()) as nat, |i: int| 0u8)
    } else {
        content
    };
    base.subrange(0, offset) + data + base.subrange(end, base.len() as int)
}

/// `content` cut or zero-extended to `size` bytes.
pub open spec fn truncate_spec(content: Seq<u8>, size: int) -> Seq<u8> {
    if size < content.len() {
        content.subrange(0, size)
    } else {
        content + Seq::new((size - content.len()) as nat, |i: int| 0u8)
    }
}

/// The attributes of a node.
pub open spec fn attr_spec(n: NodeView) -> VfsNodeAttr {
    match n.kind {
        NodeKind::Dir => VfsNodeAttr { ty: VfsNodeType::Dir, size: 4096, blocks: 0 },
        NodeKind::File => VfsNodeAttr { ty: VfsNodeType::File, size: n.content.len() as u64, blocks: 0 },
        NodeKind::Interrupts => VfsNodeAttr { ty: VfsNodeType::File, size: 0, blocks: 0 },
    }
}

/// The name `interrupts`.
pub open spec fn interrupts_name() -> Seq<u8> {
    seq![0x69u8, 0x6eu8, 0x74u8, 0x65u8, 0x72u8, 0x72u8, 0x75u8, 0x70u8, 0x74u8, 0x73u8]
}


/// Whether `name` is `interrupts`.
pub fn is_interrupts(name: &[u8]) -> (b: bool)
    ensures
        b == (name@ == interrupts_name()),
{
    if name.len() != 10 {
        return false;
    }
    let b = name[0] == 0x69 && name[1] == 0x6e && name[2] == 0x74 && name[3] == 0x65 && name[4] == 0x72
        && name[5] == 0x72 && name[6] == 0x75 && name[7] == 0x70 && name[8] == 0x74 && name[9] == 0x73;
    if b {
        assert(name@ =~= interrupts_name());
    }
    b
}

/// The node that `create_node` makes for an entry `name` of type `ty` in
/// directory `dir`, if that type can be created.
pub open spec fn new_node_spec(dir: usize, name: Seq<u8>, ty: VfsNodeType) -> Option<NodeView> {
    match ty {
        VfsNodeType::File => Some(NodeView {
            kind: if name == interrupts_name() { NodeKind::Interrupts } else { NodeKind::File },
            parent: None,
            names: Seq::empty(),
            ids: Seq::empty(),
            content: Seq::empty(),
        }),
        VfsNodeType::Dir => Some(NodeView {
            kind: NodeKind::Dir,
            parent: Some(dir),
            names: Seq::empty(),
            ids: Seq::empty(),
            content: Seq::empty(),
        }),
        _ => None,
    }
}


/// `new` is `old` with a node `node` appended and entered as `name` in
/// directory `dir`; nothing else changes.
pub open spec fn node_added(old: Seq<NodeView>, new: Seq<NodeView>, dir: usize, name: Seq<u8>, node: NodeView) -> bool {
    &&& new.len() == old.len() + 1
    &&& new[old.len() as int] == node
    &&& forall|j: int| 0 <= j < old.len() && j != dir ==> #[trigger] new[j] == old[j]
    &&& new[dir as int].kind == old[dir as int].kind
    &&& new[dir as int].parent == old[dir as int].parent
    &&& new[dir as int].content == old[dir as int].content
    &&& new[dir as int].names.len() == old[dir as int].names.len() + 1
    &&& forall|nm: Seq<u8>| #[trigger] find_child(new[dir as int], nm)
            == if nm == name { Some(old.len() as usize) } else { find_child(old[dir as int], nm) }
}

/// `new` is `old` with the entry `name` of directory `dir` removed; nothing
/// else changes.
pub open spec fn entry_removed(old: Seq<NodeView>, new: Seq<NodeView>, dir: usize, name: Seq<u8>) -> bool {
    &&& new.len() == old.len()
    &&& forall|j: int| 0 <= j < old.len() && j != dir ==> #[trigger] new[j] == old[j]
    &&& new[dir as int].kind == old[dir as int].kind
    &&& new[dir as int].parent == old[dir as int].parent
    &&& new[dir as int].content == old[dir as int].content
    &&& new[dir as int].names.len() + 1 == old[dir as int].names.len()
    &&& forall|nm: Seq<u8>| #[trigger] find_child(new[dir as int], nm)
            == if nm == name { None } else { find_child(old[dir as int], nm) }
}

/// What `create_node` answers for entry `name` of type `ty` in `dir`.
pub open spec fn create_node_result(fs: Seq<NodeView>, dir: usize, name: Seq<u8>, ty: VfsNodeType) -> Result<(), VfsError> {
    if has_child(fs[dir as int], name) {
        Err(VfsError::AlreadyExists)
    } else if new_node_spec(dir, name, ty) is None {
        Err(VfsError::Unsupported)
    } else {
        Ok(())
    }
}

/// What `remove_node` answers for entry `name` of `dir`.
pub open spec fn remove_node_result(fs: Seq<NodeView>, dir: usize, name: Seq<u8>) -> Result<(), VfsError> {
    match find_child(fs[dir as int], name) {
        None => Err(VfsError::NotFound),
        Some(c) => if fs[c as int].kind == NodeKind::Dir && fs[c as int].names.len() > 0 {
            Err(VfsError::DirectoryNotEmpty)
        } else {
            Ok(())
        },
    }
}

/// In a directory with sorted names, the entry at position `k` is found
/// under its name.
pub proof fn lemma_find_child_at(n: NodeView, k: int)
    requires
        sorted_names(n.names),
        n.names.len() == n.ids.len(),
        0 <= k < n.names.len(),
    ensures
        has_child(n, n.names[k]),
        child_pos(n, n.names[k]) == k,
        find_child(n, n.names[k]) == Some(n.ids[k]),
{
    let nm = n.names[k];
    assert(has_child(n, nm));
    let p = child_pos(n, nm);
    if p != k {
        if p < k {
            assert(lex_lt(n.names[p], n.names[k]));
        } else {
            assert(lex_lt(n.names[k], n.names[p]));
        }
        lemma_lex_irreflexive(nm);
    }
}

/// Entering `name` at position `k` of a sorted directory, between the names
/// that sort before it and those that sort after it.
pub proof fn lemma_insert_entry(n: NodeView, k: int, name: Seq<u8>, id: usize)
    requires
        sorted_names(n.names),
        n.names.len() == n.ids.len(),
        0 <= k <= n.names.len(),
        forall|i: int| 0 <= i < k ==> lex_lt(#[trigger] n.names[i], name),
        forall|i: int| k <= i < n.names.len() ==> lex_lt(name, #[trigger] n.names[i]),
    ensures
        ({
            let n2 = NodeView { names: n.names.insert(k, name), ids: n.ids.insert(k, id), ..n };
            &&& sorted_names(n2.names)
            &&& forall|nm: Seq<u8>| #[trigger] find_child(n2, nm)
                    == if nm == name { Some(id) } else { find_child(n, nm) }
        }),
{
    let n2 = NodeView { names: n.names.insert(k, name), ids: n.ids.insert(k, id), ..n };
    assert forall|i: int, j: int| 0 <= i < j < n2.names.len() implies lex_lt(#[trigger] n2.names[i], #[trigger] n2.names[j]) by {
        if i < k && j == k {
        } else if i < k && j > k {
            assert(n2.names[j] == n.names[j - 1]);
        } else if i == k {
            assert(n2.names[j] == n.names[j - 1]);
        } else if i > k {
            assert(n2.names[i] == n.names[i - 1]);
            assert(n2.names[j] == n.names[j - 1]);
        } else {
            assert(n2.names[i] == n.names[i]);
            assert(n2.names[j] == n.names[j]);
        }
    }
    assert forall|nm: Seq<u8>| #[trigger] find_child(n2, nm) == if nm == name { Some(id) } else { find_child(n, nm) } by {
        if nm == name {
            assert(n2.names[k] == name);
            lemma_find_child_at(n2, k);
        } else if has_child(n, nm) {
            let p = child_pos(n, nm);
            lemma_find_child_at(n, p);
            if p < k {
                assert(n2.names[p] == nm);
                lemma_find_child_at(n2, p);
            } else {
                assert(n2.names[p + 1] == nm);
                lemma_find_child_at(n2, p + 1);
            }
        } else {
            if has_child(n2, nm) {
                let q = child_pos(n2, nm);
                if q < k {
                    assert(n.names[q] == nm);
                } else if q > k {
                    assert(n.names[q - 1] == nm);
                }
            }
        }
    }
}

/// Removing the entry at position `k` of a sorted directory.
pub proof fn lemma_remove_entry(n: NodeView, k: int)
    requires
        sorted_names(n.names),
        n.names.len() == n.ids.len(),
        0 <= k < n.names.len(),
    ensures
        ({
            let n2 = NodeView { names: n.names.remove(k), ids: n.ids.remove(k), ..n };
            &&& sorted_names(n2.names)
            &&& forall|nm: Seq<u8>| #[trigger] find_child(n2, nm)
                    == if nm == n.names[k] { None } else { find_child(n, nm) }
        }),
{
    let n2 = NodeView { names: n.names.remove(k), ids: n.ids.remove(k), ..n };
    let name = n.names[k];
    assert forall|i: int, j: int| 0 <= i < j < n2.names.len() implies lex_lt(#[trigger] n2.names[i], #[trigger] n2.names[j]) by {
        let i0 = if i < k { i } else { i + 1 };
        let j0 = if j < k { j } else { j + 1 };
        assert(n2.names[i] == n.names[i0]);
        assert(n2.names[j] == n.names[j0]);
    }
    assert forall|nm: Seq<u8>| #[trigger] find_child(n2, nm) == if nm == name { None } else { find_child(n, nm) } by {
        if has_child(n2, nm) {
            let q = child_pos(n2, nm);
            let q0 = if q < k { q } else { q + 1 };
            assert(n.names[q0] == nm);
            lemma_find_child_at(n, q0);
            lemma_find_child_at(n2, q);
            if nm == name {
                lemma_find_child_at(n, k);
            }
        } else {
            if has_child(n, nm) && nm != name {
                let p = child_pos(n, nm);
                lemma_find_child_at(n, p);
                let p2 = if p < k { p } else { p - 1 };
                assert(n2.names[p2] == nm);
            }
        }
    }
}


/// The name and type of entry `idx` of the listing of directory `dir`:
/// `.` and `..` first, then the entries in name order.
pub open spec fn listing_entry(fs: Seq<NodeView>, dir: usize, idx: int) -> (Seq<u8>, VfsNodeType) {
    if idx == 0 {
        (seq![DOT], VfsNodeType::Dir)
    } else if idx == 1 {
        (seq![DOT, DOT], VfsNodeType::Dir)
    } else {
        (fs[dir as int].names[idx - 2], attr_spec(fs[fs[dir as int].ids[idx - 2] as int]).ty)
    }
}

/// How many entries a read of `len` entries from position `start` of the
/// listing of `dir` returns.
pub open spec fn listing_count(fs: Seq<NodeView>, dir: usize, start: int, len: int) -> int {
    let avail = fs[dir as int].names.len() + 2 - start;
    if avail <= 0 {
        0
    } else if avail < len {
        avail
    } else {
        len
    }
}

/// The file system: an arena of nodes whose node 0 is the root directory.
pub struct RamFileSystem {
    nodes: Vec<Node>,
}

impl RamFileSystem {
    /// The nodes of the arena, by index.
    pub closed spec fn view(&self) -> Seq<NodeView> {
        self.nodes@.map_values(|n: Node| n.view())
    }

    /// Whether the arena is well formed.
    pub open spec fn wf(&self) -> bool {
        fs_wf(self@)
    }

    /// Whether `id` names a node of the arena.
    pub open spec fn valid(&self, id: usize) -> bool {
        id < self@.len()
    }

    /// A file system holding an empty root directory.
    pub fn new() -> (fs: Self)
        ensures
            fs.wf(),
            fs@.len() == 1,
            fs@[0].kind == NodeKind::Dir,
            fs@[0].names.len() == 0,
    {
        let mut nodes: Vec<Node> = Vec::new();
        nodes.push(Node::new_dir(None));
        let fs = RamFileSystem { nodes };
        assert(fs@.len() == 1);
        fs
    }

    /// The root directory.
    pub fn root_dir(&self) -> (r: usize)
        requires
            self.wf(),
        ensures
            r == 0,
            self.valid(r),
    {
        0
    }

    /// The entries of directory `dir`, in name order.
    pub fn get_entries(&self, dir: usize) -> (names: Vec<Vec<u8>>)
        requires
            self.wf(),
            self.valid(dir),
        ensures
            names@.map_values(|v: Vec<u8>| v@) == self@[dir as int].names,
    {
        let node = &self.nodes[dir];
        let mut out: Vec<Vec<u8>> = Vec::new();
        let mut k: usize = 0;
        while k < node.names.len()
            invariant
                self.valid(dir),
                node.view() == self@[dir as int],
                k <= node.names@.len(),
                out@.map_values(|v: Vec<u8>| v@) == node.view().names.subrange(0, k as int),
            decreases node.names@.len() - k,
        {
            let name = &node.names[k];
            let copy = copy_range(name.as_slice(), 0, name.len());
            assert(copy@ =~= name@);
            assert(node.view().names[k as int] == node.names@[k as int]@);
            let ghost old_out = out@;
            out.push(copy);
            assert(out@.map_values(|v: Vec<u8>| v@) =~= old_out.map_values(|v: Vec<u8>| v@).push(copy@));
            assert(node.view().names.subrange(0, k + 1) =~= node.view().names.subrange(0, k as int).push(node.view().names[k as int]));
            k = k + 1;
            assert(out@.map_values(|v: Vec<u8>| v@) =~= node.view().names.subrange(0, k as int));
        }
        assert(node.view().names.subrange(0, k as int) =~= node.view().names);
        out
    }

    /// The position of entry `name` in directory `dir`, if present.
    fn find_pos(&self, dir: usize, name: &[u8]) -> (r: Option<usize>)
        requires
            self.wf(),
            self.valid(dir),
        ensures
            match r {
                Some(k) => has_child(self@[dir as int], name@) && k == child_pos(self@[dir as int], name@)
                    && k < self@[dir as int].names.len(),
                None => !has_child(self@[dir as int], name@),
            },
    {
        let node = &self.nodes[dir];
        let ghost n = self@[dir as int];
        assert(node_wf(n, self@.len() as int));
        let mut k: usize = 0;
        while k < node.names.len()
            invariant
                node.view() == n,
                n == self@[dir as int],
                node_wf(n, self@.len() as int),
                k <= n.names.len(),
                forall|j: int| 0 <= j < k ==> n.names[j] != name@,
            decreases n.names.len() - k,
        {
            if bytes_eq(node.names[k].as_slice(), name) {
                assert(n.names[k as int] == name@);
                let ghost p = child_pos(n, name@);
                assert(has_child(n, name@));
                assert(0 <= p < n.names.len() && n.names[p] == name@);
                proof {
                    if p != k as int {
                        if p < k as int {
                            assert(lex_lt(n.names[p], n.names[k as int]));
                        } else {
                            assert(lex_lt(n.names[k as int], n.names[p]));
                        }
                        lemma_lex_irreflexive(name@);
                    }
                }
                return Some(k);
            }
            k = k + 1;
        }
        None
    }

    /// Whether directory `dir` has an entry called `name`.
    pub fn exist(&self, dir: usize, name: &[u8]) -> (b: bool)
        requires
            self.wf(),
            self.valid(dir),
        ensures
            b == has_child(self@[dir as int], name@),
    {
        self.find_pos(dir, name).is_some()
    }

    /// The node that directory `dir` names `name`.
    fn child(&self, dir: usize, name: &[u8]) -> (r: Option<usize>)
        requires
            self.wf(),
            self.valid(dir),
        ensures
            r == find_child(self@[dir as int], name@),
            r matches Some(c) ==> self.valid(c),
    {
        match self.find_pos(dir, name) {
            Some(k) => {
                let ghost n = self@[dir as int];
                assert(node_wf(n, self@.len() as int));
                assert(n.ids[k as int] < self@.len());
                Some(self.nodes[dir].ids[k])
            },
            None => None,
        }
    }

    /// The node one path component leads to from directory `cur`.
    fn step(&self, cur: usize, name: &[u8]) -> (r: Result<usize, VfsError>)
        requires
            self.wf(),
            self.valid(cur),
        ensures
            r == step_spec(self@, cur, name@),
            r matches Ok(n) ==> self.valid(n),
    {
        if name.len() == 0 || name_is_dot(name) {
            Ok(cur)
        } else if name_is_dot_dot(name) {
            assert(node_wf(self@[cur as int], self@.len() as int));
            match self.nodes[cur].parent {
                Some(p) => Ok(p),
                None => Err(VfsError::NotFound),
            }
        } else {
            match self.child(cur, name) {
                Some(c) => Ok(c),
                None => Err(VfsError::NotFound),
            }
        }
    }

    /// The parent of a directory; files have none.
    pub fn parent(&self, node: usize) -> (r: Option<usize>)
        requires
            self.wf(),
            self.valid(node),
        ensures
            r == self@[node as int].parent,
            r matches Some(p) ==> self.valid(p),
    {
        assert(node_wf(self@[node as int], self@.len() as int));
        self.nodes[node].parent
    }

    /// The node that `path` names, starting at node `cur`.
    pub fn lookup(&self, cur: usize, path: &[u8]) -> (r: Result<usize, VfsError>)
        requires
            self.wf(),
            self.valid(cur),
        ensures
            r == lookup_spec(self@, cur, path@),
            r matches Ok(n) ==> self.valid(n),
    {
        let mut node = cur;
        let mut p: Vec<u8> = copy_range(path, 0, path.len());
        assert(p@ =~= path@);
        loop
            invariant
                self.wf(),
                self.valid(node),
                lookup_spec(self@, cur, path@) == lookup_spec(self@, node, p@),
            decreases p@.len(),
        {
            if self.nodes[node].kind != NodeKind::Dir {
                return Err(VfsError::NotADirectory);
            }
            let (name, rest) = split_path(p.as_slice());
            proof {
                lemma_path_rest_shorter(p@);
            }
            let next = match self.step(node, name.as_slice()) {
                Ok(n) => n,
                Err(e) => {
                    return Err(e);
                },
            };
            match rest {
                None => {
                    return Ok(next);
                },
                Some(r) => {
                    node = next;
                    p = r;
                },
            }
        }
    }


    /// Reads up to `buf.len()` bytes of file `node` starting at `offset`
    /// into the front of `buf`, and returns how many were read.
    pub fn read_at(&self, node: usize, offset: u64, buf: &mut [u8]) -> (r: Result<usize, VfsError>)
        requires
            self.wf(),
            self.valid(node),
            offset + old(buf)@.len() <= usize::MAX,
        ensures
            self@[node as int].kind == NodeKind::Dir ==> r == Err::<usize, VfsError>(VfsError::IsADirectory)
                && final(buf)@ == old(buf)@,
            self@[node as int].kind == NodeKind::Interrupts ==> r == Err::<usize, VfsError>(VfsError::Unsupported)
                && final(buf)@ == old(buf)@,
            self@[node as int].kind == NodeKind::File ==> {
                let data = read_spec(self@[node as int].content, offset as int, old(buf)@.len() as int);
                &&& r == Ok::<usize, VfsError>(data.len() as usize)
                &&& final(buf)@.len() == old(buf)@.len()
                &&& final(buf)@.subrange(0, data.len() as int) == data
                &&& final(buf)@.subrange(data.len() as int, old(buf)@.len() as int)
                    == old(buf)@.subrange(data.len() as int, old(buf)@.len() as int)
            },
    {
        let n = &self.nodes[node];
        match n.kind {
            NodeKind::Dir => {
                return Err(VfsError::IsADirectory);
            },
            NodeKind::Interrupts => {
                return Err(VfsError::Unsupported);
            },
            NodeKind::File => {},
        }
        let len = n.content.len();
        let off = offset as usize;
        let start = if off < len { off } else { len };
        let end = if off + buf.len() < len { off + buf.len() } else { len };
        let ghost data = read_spec(n.content@, offset as int, buf@.len() as int);
        let ghost orig = buf@;
        assert(data =~= n.content@.subrange(start as int, end as int));
        let mut i: usize = 0;
        while i < end - start
            invariant
                start <= end <= len == n.content@.len(),
                end - start <= buf@.len(),
                buf@.len() == orig.len(),
                i <= end - start,
                forall|k: int| 0 <= k < i ==> buf@[k] == n.content@[start + k],
                forall|k: int| i <= k < orig.len() ==> buf@[k] == orig[k],
            decreases end - start - i,
        {
            buf[i] = n.content[start + i];
            i = i + 1;
        }
        assert(buf@.subrange(0, data.len() as int) =~= data);
        assert(buf@.subrange(data.len() as int, orig.len() as int) =~= orig.subrange(data.len() as int, orig.len() as int));
        Ok(end - start)
    }

    /// Writes `buf` into file `node` at `offset`, zero-filling the file up to
    /// `offset` when it is shorter, and returns `buf.len()`.
    pub fn write_at(&mut self, node: usize, offset: u64, buf: &[u8]) -> (r: Result<usize, VfsError>)
        requires
            old(self).wf(),
            old(self).valid(node),
            offset + buf@.len() <= usize::MAX,
        ensures
            final(self).wf(),
            old(self)@[node as int].kind == NodeKind::Dir ==> r == Err::<usize, VfsError>(VfsError::IsADirectory)
                && final(self)@ == old(self)@,
            old(self)@[node as int].kind == NodeKind::Interrupts ==> r == Err::<usize, VfsError>(VfsError::Unsupported)
                && final(self)@ == old(self)@,
            old(self)@[node as int].kind == NodeKind::File ==> {
                &&& r == Ok::<usize, VfsError>(buf@.len() as usize)
                &&& final(self)@ == old(self)@.update(node as int, NodeView {
                    content: write_spec(old(self)@[node as int].content, offset as int, buf@),
                    ..old(self)@[node as int]
                })
            },
    {
        match self.nodes[node].kind {
            NodeKind::Dir => {
                return Err(VfsError::IsADirectory);
            },
            NodeKind::Interrupts => {
                return Err(VfsError::Unsupported);
            },
            NodeKind::File => {},
        }
        let ghost old_fs = self@;
        let ghost old_content = self.nodes@[node as int].content@;
        let off = offset as usize;
        let end = off + buf.len();
        if end > self.nodes[node].content.len() {
            self.nodes[node].content.resize(end, 0u8);
        }
        let ghost base = self.nodes@[node as int].content@;
        assert(base =~= (if end > old_content.len() {
            old_content + Seq::new((end - old_content.len()) as nat, |i: int| 0u8)
        } else {
            old_content
        }));
        let mut i: usize = 0;
        while i < buf.len()
            invariant
                node < self.nodes@.len(),
                self.nodes@.len() == old_fs.len(),
                end == off + buf@.len(),
                base.len() >= end,
                self.nodes@[node as int].content@.len() == base.len(),
                i <= buf@.len(),
                forall|k: int| 0 <= k < off ==> self.nodes@[node as int].content@[k] == base[k],
                forall|k: int| off <= k < off + i ==> self.nodes@[node as int].content@[k] == buf@[k - off],
                forall|k: int| off + i <= k < base.len() ==> self.nodes@[node as int].content@[k] == base[k],
                forall|j: int| 0 <= j < old_fs.len() && j != node ==> #[trigger] self.nodes@[j].view() == old_fs[j],
                self.nodes@[node as int].view().kind == old_fs[node as int].kind,
                self.nodes@[node as int].view().parent == old_fs[node as int].parent,
                self.nodes@[node as int].view().names == old_fs[node as int].names,
                self.nodes@[node as int].view().ids == old_fs[node as int].ids,
            decreases buf@.len() - i,
        {
            self.nodes[node].content[off + i] = buf[i];
            i = i + 1;
        }
        proof {
            let newc = self.nodes@[node as int].content@;
            assert(newc =~= write_spec(old_content, offset as int, buf@));
            assert(self@ =~= old_fs.update(node as int, NodeView {
                content: write_spec(old_content, offset as int, buf@),
                ..old_fs[node as int]
            }));
            assert(fs_wf(old_fs));
            assert forall|j: int| 0 <= j < self@.len() implies #[trigger] node_wf(self@[j], self@.len() as int) by {
                assert(node_wf(old_fs[j], old_fs.len() as int));
            }
        }
        Ok(buf.len())
    }


    /// Enters a new node of type `ty` as `name` in directory `dir`: a file
    /// (the special `interrupts` node under that name) or a directory whose
    /// parent is `dir`.
    pub fn create_node(&mut self, dir: usize, name: &[u8], ty: VfsNodeType) -> (r: Result<(), VfsError>)
        requires
            old(self).wf(),
            old(self).valid(dir),
            old(self)@[dir as int].kind == NodeKind::Dir,
            old(self)@.len() < usize::MAX,
        ensures
            final(self).wf(),
            r == create_node_result(old(self)@, dir, name@, ty),
            r is Err ==> final(self)@ == old(self)@,
            r is Ok ==> node_added(old(self)@, final(self)@, dir, name@, new_node_spec(dir, name@, ty)->0),
    {
        if self.exist(dir, name) {
            return Err(VfsError::AlreadyExists);
        }
        let node = match ty {
            VfsNodeType::File => {
                if is_interrupts(name) {
                    Node::new_leaf(NodeKind::Interrupts)
                } else {
                    Node::new_leaf(NodeKind::File)
                }
            },
            VfsNodeType::Dir => Node::new_dir(Some(dir)),
            _ => {
                return Err(VfsError::Unsupported);
            },
        };
        let ghost old_fs = self@;
        let ghost n = old_fs[dir as int];
        assert(fs_wf(old_fs));
        assert(node_wf(n, old_fs.len() as int));
        let mut k: usize = 0;
        while k < self.nodes[dir].names.len() && lex_compare(self.nodes[dir].names[k].as_slice(), name) == -1
            invariant
                self@ == old_fs,
                n == old_fs[dir as int],
                dir < old_fs.len(),
                node_wf(n, old_fs.len() as int),
                k <= n.names.len(),
                forall|i: int| 0 <= i < k ==> lex_lt(#[trigger] n.names[i], name@),
            decreases n.names.len() - k,
        {
            assert(self.nodes@[dir as int].view().names[k as int] == self.nodes@[dir as int].names@[k as int]@);
            k = k + 1;
        }
        proof {
            if k < n.names.len() {
                assert(!lex_lt(n.names[k as int], name@));
                assert(n.names[k as int] != name@);
                lemma_lex_total(n.names[k as int], name@);
                assert forall|i: int| k <= i < n.names.len() implies lex_lt(name@, #[trigger] n.names[i]) by {
                    if i > k {
                        assert(lex_lt(n.names[k as int], n.names[i]));
                        lemma_lex_transitive(name@, n.names[k as int], n.names[i]);
                    }
                }
            }
            lemma_insert_entry(n, k as int, name@, old_fs.len() as usize);
        }
        let id = self.nodes.len();
        let nm = copy_range(name, 0, name.len());
        assert(nm@ =~= name@);
        let ghost old_names = self.nodes@[dir as int].names@;
        self.nodes[dir].names.insert(k, nm);
        self.nodes[dir].ids.insert(k, id);
        proof {
            assert(self.nodes@[dir as int].names@.map_values(|v: Vec<u8>| v@)
                =~= old_names.map_values(|v: Vec<u8>| v@).insert(k as int, name@));
        }
        let ghost n2 = NodeView { names: n.names.insert(k as int, name@), ids: n.ids.insert(k as int, id), ..n };
        assert(self@ =~= old_fs.update(dir as int, n2));
        self.nodes.push(node);
        proof {
            let newn = new_node_spec(dir, name@, ty)->0;
            assert(self@ =~= old_fs.update(dir as int, n2).push(newn));
            assert forall|j: int| 0 <= j < self@.len() implies #[trigger] node_wf(self@[j], self@.len() as int) by {
                if j < old_fs.len() && j != dir {
                    assert(node_wf(old_fs[j], old_fs.len() as int));
                } else if j == dir {
                    assert forall|q: int| 0 <= q < n2.ids.len() implies #[trigger] n2.ids[q] < self@.len() by {
                        if q < k {
                            assert(n2.ids[q] == n.ids[q]);
                        } else if q > k {
                            assert(n2.ids[q] == n.ids[q - 1]);
                        }
                    }
                }
            }
        }
        Ok(())
    }

    /// Removes the entry `name` of directory `dir`; a directory that still
    /// has entries is not removed.
    pub fn remove_node(&mut self, dir: usize, name: &[u8]) -> (r: Result<(), VfsError>)
        requires
            old(self).wf(),
            old(self).valid(dir),
            old(self)@[dir as int].kind == NodeKind::Dir,
        ensures
            final(self).wf(),
            r == remove_node_result(old(self)@, dir, name@),
            r is Err ==> final(self)@ == old(self)@,
            r is Ok ==> entry_removed(old(self)@, final(self)@, dir, name@),
    {
        let ghost old_fs = self@;
        let ghost n = old_fs[dir as int];
        assert(fs_wf(old_fs));
        assert(node_wf(n, old_fs.len() as int));
        let k = match self.find_pos(dir, name) {
            None => {
                return Err(VfsError::NotFound);
            },
            Some(k) => k,
        };
        let c = self.nodes[dir].ids[k];
        proof {
            lemma_find_child_at(n, k as int);
            assert(find_child(n, name@) == Some(c));
            assert(node_wf(old_fs[c as int], old_fs.len() as int));
        }
        if self.nodes[c].kind == NodeKind::Dir && self.nodes[c].names.len() > 0 {
            return Err(VfsError::DirectoryNotEmpty);
        }
        proof {
            lemma_remove_entry(n, k as int);
        }
        let ghost old_names = self.nodes@[dir as int].names@;
        let _removed_name = self.nodes[dir].names.remove(k);
        let _removed_id = self.nodes[dir].ids.remove(k);
        proof {
            assert(self.nodes@[dir as int].names@.map_values(|v: Vec<u8>| v@)
                =~= old_names.map_values(|v: Vec<u8>| v@).remove(k as int));
            let n2 = NodeView { names: n.names.remove(k as int), ids: n.ids.remove(k as int), ..n };
            assert(self@ =~= old_fs.update(dir as int, n2));
            assert forall|j: int| 0 <= j < self@.len() implies #[trigger] node_wf(self@[j], self@.len() as int) by {
                assert(node_wf(old_fs[j], old_fs.len() as int));
                if j == dir {
                    assert forall|q: int| 0 <= q < n2.ids.len() implies #[trigger] n2.ids[q] < self@.len() by {
                        if q < k {
                            assert(n2.ids[q] == n.ids[q]);
                        } else {
                            assert(n2.ids[q] == n.ids[q + 1]);
                        }
                    }
                }
            }
        }
        Ok(())
    }


    /// Cuts file `node` to `size` bytes, or extends it with zeros.
    pub fn truncate(&mut self, node: usize, size: u64) -> (r: Result<(), VfsError>)
        requires
            old(self).wf(),
            old(self).valid(node),
            size <= usize::MAX,
        ensures
            final(self).wf(),
            old(self)@[node as int].kind == NodeKind::Dir ==> r == Err::<(), VfsError>(VfsError::IsADirectory)
                && final(self)@ == old(self)@,
            old(self)@[node as int].kind == NodeKind::Interrupts ==> r == Err::<(), VfsError>(VfsError::Unsupported)
                && final(self)@ == old(self)@,
            old(self)@[node as int].kind == NodeKind::File ==> {
                &&& r == Ok::<(), VfsError>(())
                &&& final(self)@ == old(self)@.update(node as int, NodeView {
                    content: truncate_spec(old(self)@[node as int].content, size as int),
                    ..old(self)@[node as int]
                })
            },
    {
        match self.nodes[node].kind {
            NodeKind::Dir => {
                return Err(VfsError::IsADirectory);
            },
            NodeKind::Interrupts => {
                return Err(VfsError::Unsupported);
            },
            NodeKind::File => {},
        }
        let ghost old_fs = self@;
        let ghost old_content = self.nodes@[node as int].content@;
        let sz = size as usize;
        if sz < self.nodes[node].content.len() {
            self.nodes[node].content.truncate(sz);
        } else {
            self.nodes[node].content.resize(sz, 0u8);
        }
        proof {
            let newc = self.nodes@[node as int].content@;
            assert(newc =~= truncate_spec(old_content, size as int));
            assert(self@ =~= old_fs.update(node as int, NodeView {
                content: truncate_spec(old_content, size as int),
                ..old_fs[node as int]
            }));
            assert(fs_wf(old_fs));
            assert forall|j: int| 0 <= j < self@.len() implies #[trigger] node_wf(self@[j], self@.len() as int) by {
                assert(node_wf(old_fs[j], old_fs.len() as int));
            }
        }
        Ok(())
    }

    /// Where `path`, taken from node `cur`, leads a creation or removal.
    fn target(&self, cur: usize, path: &[u8]) -> (r: (Result<usize, VfsError>, Option<Vec<u8>>))
        requires
            self.wf(),
            self.valid(cur),
        ensures
            match target_spec(self@, cur, path@) {
                PathTarget::Fail(e) => r.0 == Err::<usize, VfsError>(e),
                PathTarget::Itself => r.0 is Ok && r.1 is None,
                PathTarget::Entry(d, nm) => r.0 == Ok::<usize, VfsError>(d) && (r.1 matches Some(v) && v@ == nm),
            },
            r.0 matches Ok(d) ==> self.valid(d),
            r.1 is Some ==> (r.0 matches Ok(d) && self@[d as int].kind == NodeKind::Dir),
    {
        let mut node = cur;
        let mut p: Vec<u8> = copy_range(path, 0, path.len());
        assert(p@ =~= path@);
        loop
            invariant
                self.wf(),
                self.valid(node),
                target_spec(self@, cur, path@) == target_spec(self@, node, p@),
            decreases p@.len(),
        {
            if self.nodes[node].kind != NodeKind::Dir {
                return (Err(VfsError::NotADirectory), None);
            }
            let (name, rest) = split_path(p.as_slice());
            proof {
                lemma_path_rest_shorter(p@);
            }
            match rest {
                None => {
                    if name.len() == 0 || name_is_dot(name.as_slice()) || name_is_dot_dot(name.as_slice()) {
                        return (Ok(node), None);
                    }
                    return (Ok(node), Some(name));
                },
                Some(r) => {
                    let next = match self.step(node, name.as_slice()) {
                        Ok(n) => n,
                        Err(e) => {
                            return (Err(e), None);
                        },
                    };
                    node = next;
                    p = r;
                },
            }
        }
    }

    /// Creates a node of type `ty` at `path`, taken from node `cur`; a path
    /// that names `.`, `..` or the start node itself is already there.
    pub fn create(&mut self, cur: usize, path: &[u8], ty: VfsNodeType) -> (r: Result<(), VfsError>)
        requires
            old(self).wf(),
            old(self).valid(cur),
            old(self)@.len() < usize::MAX,
        ensures
            final(self).wf(),
            match target_spec(old(self)@, cur, path@) {
                PathTarget::Fail(e) => r == Err::<(), VfsError>(e) && final(self)@ == old(self)@,
                PathTarget::Itself => r == Ok::<(), VfsError>(()) && final(self)@ == old(self)@,
                PathTarget::Entry(d, nm) => {
                    &&& r == create_node_result(old(self)@, d, nm, ty)
                    &&& r is Err ==> final(self)@ == old(self)@
                    &&& r is Ok ==> node_added(old(self)@, final(self)@, d, nm, new_node_spec(d, nm, ty)->0)
                },
            },
    {
        let (t, name) = self.target(cur, path);
        match t {
            Err(e) => Err(e),
            Ok(d) => match name {
                None => Ok(()),
                Some(nm) => self.create_node(d, nm.as_slice(), ty),
            },
        }
    }

    /// Removes the node at `path`, taken from node `cur`; `.`, `..` and the
    /// start node itself cannot be removed.
    pub fn remove(&mut self, cur: usize, path: &[u8]) -> (r: Result<(), VfsError>)
        requires
            old(self).wf(),
            old(self).valid(cur),
        ensures
            final(self).wf(),
            match target_spec(old(self)@, cur, path@) {
                PathTarget::Fail(e) => r == Err::<(), VfsError>(e) && final(self)@ == old(self)@,
                PathTarget::Itself => r == Err::<(), VfsError>(VfsError::InvalidInput) && final(self)@ == old(self)@,
                PathTarget::Entry(d, nm) => {
                    &&& r == remove_node_result(old(self)@, d, nm)
                    &&& r is Err ==> final(self)@ == old(self)@
                    &&& r is Ok ==> entry_removed(old(self)@, final(self)@, d, nm)
                },
            },
    {
        let (t, name) = self.target(cur, path);
        match t {
            Err(e) => Err(e),
            Ok(d) => match name {
                None => Err(VfsError::InvalidInput),
                Some(nm) => self.remove_node(d, nm.as_slice()),
            },
        }
    }


    /// Fills `dirents` with the listing of directory `node` from position
    /// `start_idx` on, and returns how many entries were filled.
    pub fn read_dir(&self, node: usize, start_idx: usize, dirents: &mut [VfsDirEntry]) -> (r: Result<usize, VfsError>)
        requires
            self.wf(),
            self.valid(node),
            start_idx + old(dirents)@.len() <= usize::MAX,
        ensures
            final(dirents)@.len() == old(dirents)@.len(),
            self@[node as int].kind != NodeKind::Dir ==> r == Err::<usize, VfsError>(VfsError::NotADirectory)
                && final(dirents)@ == old(dirents)@,
            self@[node as int].kind == NodeKind::Dir ==> {
                let n = listing_count(self@, node, start_idx as int, old(dirents)@.len() as int);
                &&& r == Ok::<usize, VfsError>(n as usize)
                &&& forall|k: int| 0 <= k < n ==> (#[trigger] final(dirents)@[k]).name@
                        == listing_entry(self@, node, start_idx + k).0
                        && final(dirents)@[k].ty == listing_entry(self@, node, start_idx + k).1
                &&& forall|k: int| n <= k < old(dirents)@.len() ==> #[trigger] final(dirents)@[k] == old(dirents)@[k]
                &&& forall|k: int| 0 <= k < n && start_idx + k >= 2
                        ==> find_child(self@[node as int], (#[trigger] final(dirents)@[k]).name@) is Some
                        && final(dirents)@[k].ty == attr_spec(
                            self@[find_child(self@[node as int], final(dirents)@[k].name@).unwrap() as int],
                        ).ty
            },
    {
        if self.nodes[node].kind != NodeKind::Dir {
            return Err(VfsError::NotADirectory);
        }
        let ghost fs = self@;
        let ghost orig = dirents@;
        assert(fs_wf(fs));
        assert(node_wf(fs[node as int], fs.len() as int));
        let count = self.nodes[node].names.len();
        let mut i: usize = 0;
        while i < dirents.len()
            invariant
                fs == self@,
                fs_wf(fs),
                self.valid(node),
                fs[node as int].kind == NodeKind::Dir,
                node_wf(fs[node as int], fs.len() as int),
                count == fs[node as int].names.len(),
                start_idx + orig.len() <= usize::MAX,
                old(dirents)@ == orig,
                dirents@.len() == orig.len(),
                i <= orig.len(),
                i <= listing_count(fs, node, start_idx as int, orig.len() as int),
                forall|k: int| 0 <= k < i ==> (#[trigger] dirents@[k]).name@ == listing_entry(fs, node, start_idx + k).0
                    && dirents@[k].ty == listing_entry(fs, node, start_idx + k).1,
                forall|k: int| i <= k < orig.len() ==> #[trigger] dirents@[k] == orig[k],
                forall|k: int| 0 <= k < i && start_idx + k >= 2
                    ==> find_child(fs[node as int], (#[trigger] dirents@[k]).name@) is Some
                    && dirents@[k].ty == attr_spec(fs[find_child(fs[node as int], dirents@[k].name@).unwrap() as int]).ty,
            decreases orig.len() - i,
        {
            let idx = i + start_idx;
            if idx == 0 {
                dirents[i] = VfsDirEntry { name: vec![DOT], ty: VfsNodeType::Dir };
                assert(dirents@[i as int].name@ =~= seq![DOT]);
            } else if idx == 1 {
                dirents[i] = VfsDirEntry { name: vec![DOT, DOT], ty: VfsNodeType::Dir };
                assert(dirents@[i as int].name@ =~= seq![DOT, DOT]);
            } else {
                let ci = idx - 2;
                if ci >= count {
                    return Ok(i);
                }
                let nm = &self.nodes[node].names[ci];
                let child = self.nodes[node].ids[ci];
                assert(fs[node as int].names[ci as int] == nm@);
                assert(child < fs.len());
                let ty = self.get_attr(child).ty;
                dirents[i] = VfsDirEntry::new(nm.as_slice(), ty);
                proof {
                    lemma_listing_child_type(fs, node, idx as int);
                }
            }
            i = i + 1;
        }
        Ok(i)
    }

    /// The attributes of a node.
    pub fn get_attr(&self, node: usize) -> (a: VfsNodeAttr)
        requires
            self.wf(),
            self.valid(node),
        ensures
            a == attr_spec(self@[node as int]),
    {
        let n = &self.nodes[node];
        match n.kind {
            NodeKind::Dir => VfsNodeAttr::new_dir(4096, 0),
            NodeKind::File => VfsNodeAttr::new_file(n.content.len() as u64, 0),
            NodeKind::Interrupts => VfsNodeAttr::new_file(0, 0),
        }
    }
}

} // verus!

verus! {

/// Reading back the bytes just written at the same offset returns exactly
/// those bytes.
pub proof fn lemma_read_after_write(content: Seq<u8>, offset: nat, data: Seq<u8>)
    ensures
        read_spec(write_spec(content, offset as int, data), offset as int, data.len() as int) == data,
{
    let w = write_spec(content, offset as int, data);
    assert(w.len() >= offset + data.len());
    assert(read_spec(w, offset as int, data.len() as int) =~= data);
}

/// A write leaves the file as long as the longer of the old file and the
/// written range, and every byte outside the written range as it was (bytes
/// past the old end read as zero).
pub proof fn lemma_write_frame(content: Seq<u8>, offset: nat, data: Seq<u8>)
    ensures
        write_spec(content, offset as int, data).len() == if offset + data.len() > content.len() {
            (offset + data.len()) as int
        } else {
            content.len() as int
        },
        forall|k: int| 0 <= k < write_spec(content, offset as int, data).len() && !(offset <= k < offset + data.len())
            ==> #[trigger] write_spec(content, offset as int, data)[k] == if k < content.len() { content[k] } else { 0u8 },
{
}

/// Truncation leaves exactly `size` bytes, the kept prefix unchanged and the
/// added bytes zero.
pub proof fn lemma_truncate_frame(content: Seq<u8>, size: nat)
    ensures
        truncate_spec(content, size as int).len() == size,
        forall|k: int| 0 <= k < size ==> #[trigger] truncate_spec(content, size as int)[k]
            == if k < content.len() { content[k] } else { 0u8 },
{
}

/// Whether `name` is a single plain component: no slash, not empty, not
/// `.` or `..`.
pub open spec fn plain_name(name: Seq<u8>) -> bool {
    &&& name.len() > 0
    &&& !is_dot(name)
    &&& !is_dot_dot(name)
    &&& forall|k: int| 0 <= k < name.len() ==> #[trigger] name[k] != SLASH
}

/// A plain name is its own first component and has no rest.
pub proof fn lemma_plain_name_split(name: Seq<u8>)
    requires
        plain_name(name),
    ensures
        path_head(name) == name,
        path_rest(name) is None,
{
    assert(skip_slashes(name, 0) == 0);
    lemma_find_slash_bounds(name, 0);
    if find_slash(name, 0) < name.len() {
        assert(name[find_slash(name, 0)] != SLASH);
    }
    assert(name.subrange(0, name.len() as int) =~= name);
}

/// After a node is entered as `name` in directory `dir`, looking `name` up
/// from `dir` finds it.
pub proof fn lemma_lookup_after_create(old: Seq<NodeView>, new: Seq<NodeView>, dir: usize, name: Seq<u8>, node: NodeView)
    requires
        fs_wf(old),
        dir < old.len(),
        old[dir as int].kind == NodeKind::Dir,
        plain_name(name),
        node_added(old, new, dir, name, node),
    ensures
        lookup_spec(new, dir, name) == Ok::<usize, VfsError>(old.len() as usize),
{
    lemma_plain_name_split(name);
    assert(find_child(new[dir as int], name) == Some(old.len() as usize));
}

/// After the entry `name` of directory `dir` is removed, looking `name` up
/// from `dir` finds nothing.
pub proof fn lemma_lookup_after_remove(old: Seq<NodeView>, new: Seq<NodeView>, dir: usize, name: Seq<u8>)
    requires
        fs_wf(old),
        dir < old.len(),
        old[dir as int].kind == NodeKind::Dir,
        plain_name(name),
        entry_removed(old, new, dir, name),
    ensures
        lookup_spec(new, dir, name) == Err::<usize, VfsError>(VfsError::NotFound),
{
    lemma_plain_name_split(name);
    assert(find_child(new[dir as int], name) is None);
}

/// Removing an entry that was just created gives back the directory's
/// entries as they were before the creation.
pub proof fn lemma_create_then_remove(s0: Seq<NodeView>, s1: Seq<NodeView>, s2: Seq<NodeView>, dir: usize, name: Seq<u8>, node: NodeView)
    requires
        dir < s0.len(),
        find_child(s0[dir as int], name) is None,
        node_added(s0, s1, dir, name, node),
        entry_removed(s1, s2, dir, name),
    ensures
        forall|nm: Seq<u8>| #[trigger] find_child(s2[dir as int], nm) == find_child(s0[dir as int], nm),
        s2[dir as int].names.len() == s0[dir as int].names.len(),
{
    assert forall|nm: Seq<u8>| #[trigger] find_child(s2[dir as int], nm) == find_child(s0[dir as int], nm) by {
        assert(find_child(s2[dir as int], nm) == if nm == name { None } else { find_child(s1[dir as int], nm) });
        assert(find_child(s1[dir as int], nm) == if nm == name { Some(s0.len() as usize) } else { find_child(s0[dir as int], nm) });
    }
}

/// The `..` entry of a directory created in `dir` leads back to `dir`.
pub proof fn lemma_new_dir_parent(old: Seq<NodeView>, new: Seq<NodeView>, dir: usize, name: Seq<u8>)
    requires
        old.len() < usize::MAX,
        node_added(old, new, dir, name, new_node_spec(dir, name, VfsNodeType::Dir)->0),
    ensures
        lookup_spec(new, old.len() as usize, seq![DOT, DOT]) == Ok::<usize, VfsError>(dir),
{
    let p = seq![DOT, DOT];
    assert(skip_slashes(p, 0) == 0);
    assert(find_slash(p, 2) == 2);
    assert(find_slash(p, 1) == 2);
    assert(find_slash(p, 0) == 2);
    assert(path_head(p) =~= p);
    assert(path_rest(p) is None);
    assert(new[old.len() as int].kind == NodeKind::Dir);
    assert(new[old.len() as int].parent == Some(dir));
    assert(step_spec(new, old.len() as usize, p) == Ok::<usize, VfsError>(dir));
}

/// Leading slashes do not change where a lookup leads.
pub proof fn lemma_lookup_leading_slash(fs: Seq<NodeView>, cur: usize, path: Seq<u8>)
    ensures
        lookup_spec(fs, cur, seq![SLASH] + path) == lookup_spec(fs, cur, path),
{
    let p2 = seq![SLASH] + path;
    assert(skip_slashes(p2, 0) == skip_slashes(p2, 1));
    lemma_skip_slashes_bounds(path, 0);
    lemma_skip_slashes_shift(path, p2, 0);
    lemma_find_slash_shift(path, p2, skip_slashes(path, 0));
    lemma_find_slash_bounds(path, skip_slashes(path, 0));
    assert(path_head(p2) =~= path_head(path));
    if find_slash(path, skip_slashes(path, 0)) < path.len() {
        assert(p2.subrange(find_slash(p2, skip_slashes(p2, 0)) + 1, p2.len() as int)
            =~= path.subrange(find_slash(path, skip_slashes(path, 0)) + 1, path.len() as int));
    }
    assert(path_rest(p2) == path_rest(path));
}

proof fn lemma_skip_slashes_shift(path: Seq<u8>, p2: Seq<u8>, i: int)
    requires
        p2 == seq![SLASH] + path,
        0 <= i <= path.len(),
    ensures
        skip_slashes(p2, i + 1) == skip_slashes(path, i) + 1,
    decreases path.len() - i,
{
    if i < path.len() {
        assert(p2[i + 1] == path[i]);
        if path[i] == SLASH {
            lemma_skip_slashes_shift(path, p2, i + 1);
        }
    }
}

proof fn lemma_find_slash_shift(path: Seq<u8>, p2: Seq<u8>, i: int)
    requires
        p2 == seq![SLASH] + path,
        0 <= i <= path.len(),
    ensures
        find_slash(p2, i + 1) == find_slash(path, i) + 1,
    decreases path.len() - i,
{
    if i < path.len() {
        assert(p2[i + 1] == path[i]);
        if path[i] != SLASH {
            lemma_find_slash_shift(path, p2, i + 1);
        }
    }
}

/// A `./` in front of a path looked up from a directory does not change
/// where the lookup leads.
pub proof fn lemma_lookup_dot_prefix(fs: Seq<NodeView>, cur: usize, path: Seq<u8>)
    requires
        fs[cur as int].kind == NodeKind::Dir,
    ensures
        lookup_spec(fs, cur, seq![DOT, SLASH] + path) == lookup_spec(fs, cur, path),
{
    let p2 = seq![DOT, SLASH] + path;
    assert(skip_slashes(p2, 0) == 0);
    assert(find_slash(p2, 1) == 1);
    assert(find_slash(p2, 0) == 1);
    assert(path_head(p2) =~= seq![DOT]);
    assert(p2.subrange(2, p2.len() as int) =~= path);
    assert(path_rest(p2) == Some(path));
}

/// Each entry of a directory listing past `.` and `..` carries a name of the
/// directory together with the type that `get_attr` reports for the node
/// that name leads to: a regular file lists as a file, a directory as a
/// directory.
pub proof fn lemma_listing_child_type(fs: Seq<NodeView>, dir: usize, idx: int)
    requires
        fs_wf(fs),
        dir < fs.len(),
        fs[dir as int].kind == NodeKind::Dir,
        2 <= idx < fs[dir as int].names.len() + 2,
    ensures
        ({
            let (name, ty) = listing_entry(fs, dir, idx);
            let c = find_child(fs[dir as int], name);
            &&& c is Some
            &&& c.unwrap() < fs.len()
            &&& ty == attr_spec(fs[c.unwrap() as int]).ty
            &&& fs[c.unwrap() as int].kind == NodeKind::Dir ==> ty == VfsNodeType::Dir
            &&& fs[c.unwrap() as int].kind != NodeKind::Dir ==> ty == VfsNodeType::File
        }),
{
    let n = fs[dir as int];
    assert(node_wf(n, fs.len() as int));
    lemma_find_child_at(n, idx - 2);
}

} // verus!
