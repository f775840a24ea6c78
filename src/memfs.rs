use vstd::prelude::*;

use axerrno::LinuxError;

use crate::options::OpenOptions;
use crate::path::{parent_of, parent_path, slash};

verus! {

/// What a path of the store holds.
pub enum Entry {
    Dir,
    File(Seq<u8>),
}

/// One file or directory of the store, under its absolute path.
pub struct Node {
    pub path: String,
    pub is_dir: bool,
    pub data: Vec<u8>,
}

impl Node {
    pub open spec fn entry(self) -> Entry {
        if self.is_dir {
            Entry::Dir
        } else {
            Entry::File(self.data@)
        }
    }
}

/// No two nodes have the same path.
pub open spec fn unique_paths(s: Seq<Node>) -> bool {
    forall|i: int, j: int|
        0 <= i < s.len() && 0 <= j < s.len() && i != j ==> #[trigger] s[i].path@ != #[trigger] s[j].path@
}

/// Some node has the path `p`.
pub open spec fn holds(s: Seq<Node>, p: Seq<char>) -> bool {
    exists|i: int| 0 <= i < s.len() && #[trigger] s[i].path@ == p
}

/// The entries of a list of nodes, by path.
pub open spec fn entries_of(s: Seq<Node>) -> Map<Seq<char>, Entry> {
    Map::new(
        |p: Seq<char>| holds(s, p),
        |p: Seq<char>| s[choose|i: int| 0 <= i < s.len() && #[trigger] s[i].path@ == p].entry(),
    )
}

proof fn lemma_entry_at(s: Seq<Node>, i: int)
    requires
        unique_paths(s),
        0 <= i < s.len(),
    ensures
        entries_of(s).contains_key(s[i].path@),
        entries_of(s)[s[i].path@] == s[i].entry(),
{
    let p = s[i].path@;
    assert(holds(s, p));
    let j = choose|j: int| 0 <= j < s.len() && #[trigger] s[j].path@ == p;
    assert(j == i);
}

/// A list of nodes with distinct paths whose every node stands in `m`, and
/// which has a node for each key of `m`, has the entries `m`.
proof fn lemma_entries_ext(s: Seq<Node>, m: Map<Seq<char>, Entry>)
    requires
        unique_paths(s),
        forall|i: int|
            0 <= i < s.len() ==> m.contains_key(#[trigger] s[i].path@) && m[s[i].path@]
                == s[i].entry(),
        forall|p: Seq<char>| m.contains_key(p) ==> holds(s, p),
    ensures
        entries_of(s) == m,
{
    assert forall|p: Seq<char>| #[trigger] entries_of(s).contains_key(p) implies m.contains_key(p)
        && entries_of(s)[p] == m[p] by {
        let i = choose|i: int| 0 <= i < s.len() && #[trigger] s[i].path@ == p;
        lemma_entry_at(s, i);
    }
    assert(entries_of(s) =~= m);
}

/// Whether the parent of `p` is a directory of `m`.
pub open spec fn parent_is_dir(m: Map<Seq<char>, Entry>, p: Seq<char>) -> bool {
    m.contains_key(parent_of(p)) && m[parent_of(p)] == Entry::Dir
}

/// Whether the options ask for some access: reading, writing or appending.
pub open spec fn can_access(o: OpenOptions) -> bool {
    o.read || o.write || o.append
}

/// The store after opening `p` as a file, or the error.
pub open spec fn open_file_spec(m: Map<Seq<char>, Entry>, p: Seq<char>, o: OpenOptions) -> Result<
    Map<Seq<char>, Entry>,
    LinuxError,
> {
    if !can_access(o) {
        Err(LinuxError::EINVAL)
    } else if m.contains_key(p) {
        if m[p] == Entry::Dir {
            Err(LinuxError::EISDIR)
        } else if o.create_new {
            Err(LinuxError::EEXIST)
        } else if o.truncate {
            Ok(m.insert(p, Entry::File(Seq::empty())))
        } else {
            Ok(m)
        }
    } else if (o.create || o.create_new) && parent_is_dir(m, p) {
        Ok(m.insert(p, Entry::File(Seq::empty())))
    } else {
        Err(LinuxError::ENOENT)
    }
}

/// Whether `p` opens as a directory, or the error.
pub open spec fn open_dir_spec(m: Map<Seq<char>, Entry>, p: Seq<char>, o: OpenOptions) -> Result<
    (),
    LinuxError,
> {
    if !can_access(o) {
        Err(LinuxError::EINVAL)
    } else if !m.contains_key(p) {
        Err(LinuxError::ENOENT)
    } else if m[p] != Entry::Dir {
        Err(LinuxError::ENOTDIR)
    } else {
        Ok(())
    }
}

/// The store after creating the directory `p`, or the error.
pub open spec fn create_dir_spec(m: Map<Seq<char>, Entry>, p: Seq<char>) -> Result<
    Map<Seq<char>, Entry>,
    LinuxError,
> {
    if m.contains_key(p) {
        Err(LinuxError::EEXIST)
    } else if !parent_is_dir(m, p) {
        Err(LinuxError::ENOENT)
    } else {
        Ok(m.insert(p, Entry::Dir))
    }
}

/// The store after removing the file `p`, or the error.
pub open spec fn remove_file_spec(m: Map<Seq<char>, Entry>, p: Seq<char>) -> Result<
    Map<Seq<char>, Entry>,
    LinuxError,
> {
    if !m.contains_key(p) {
        Err(LinuxError::ENOENT)
    } else if m[p] == Entry::Dir {
        Err(LinuxError::EISDIR)
    } else {
        Ok(m.remove(p))
    }
}

/// Whether some other path of `m` lies directly in `p`.
pub open spec fn has_children(m: Map<Seq<char>, Entry>, p: Seq<char>) -> bool {
    exists|q: Seq<char>| m.contains_key(q) && q != p && #[trigger] parent_of(q) == p
}

/// The store after moving `a` to `b`, or the error. A file at `b` is
/// replaced; a directory is moved only while it is empty.
pub open spec fn rename_spec(m: Map<Seq<char>, Entry>, a: Seq<char>, b: Seq<char>) -> Result<
    Map<Seq<char>, Entry>,
    LinuxError,
> {
    if !m.contains_key(a) {
        Err(LinuxError::ENOENT)
    } else if a == b {
        Ok(m)
    } else if m[a] == Entry::Dir && has_children(m, a) {
        Err(LinuxError::ENOTEMPTY)
    } else if parent_of(b) == a {
        Err(LinuxError::EINVAL)
    } else if !parent_is_dir(m, b) {
        Err(LinuxError::ENOENT)
    } else if m.contains_key(b) && m[b] == Entry::Dir {
        Err(LinuxError::EISDIR)
    } else {
        Ok(m.remove(a).insert(b, m[a]))
    }
}

/// The contents of the file `p`, or the error.
pub open spec fn lookup_file(m: Map<Seq<char>, Entry>, p: Seq<char>) -> Result<Seq<u8>, LinuxError> {
    if !m.contains_key(p) {
        Err(LinuxError::ENOENT)
    } else {
        match m[p] {
            Entry::Dir => Err(LinuxError::EISDIR),
            Entry::File(d) => Ok(d),
        }
    }
}

/// The bytes of `d` from `off` on, at most `len` of them.
pub open spec fn read_spec(d: Seq<u8>, off: int, len: int) -> Seq<u8> {
    if off >= d.len() {
        Seq::empty()
    } else if off + len <= d.len() {
        d.subrange(off, off + len)
    } else {
        d.subrange(off, d.len() as int)
    }
}

/// `d` extended with zeros to at least `n` bytes.
pub open spec fn padded(d: Seq<u8>, n: int) -> Seq<u8> {
    if n <= d.len() {
        d
    } else {
        d + Seq::new((n - d.len()) as nat, |_i: int| 0u8)
    }
}

/// `d` after writing `b` at `off`: a gap before `off` is filled with zeros.
pub open spec fn written(d: Seq<u8>, off: int, b: Seq<u8>) -> Seq<u8> {
    let q = padded(d, off);
    let n = if q.len() >= off + b.len() {
        q.len() as int
    } else {
        off + b.len()
    };
    Seq::new(n as nat, |i: int| if off <= i < off + b.len() { b[i - off] } else { q[i] })
}

/// A file system held in memory: each file or directory under its absolute
/// path.
pub struct MemFs {
    nodes: Vec<Node>,
}

impl View for MemFs {
    type V = Map<Seq<char>, Entry>;

    closed spec fn view(&self) -> Map<Seq<char>, Entry> {
        entries_of(self.nodes@)
    }
}

impl MemFs {
    pub closed spec fn wf(&self) -> bool {
        unique_paths(self.nodes@)
    }

    /// A store that holds the root directory alone.
    pub fn new() -> (r: MemFs)
        ensures
            r.wf(),
            r@ == map![seq!['/'] => Entry::Dir],
    {
        let root = Node { path: slash(), is_dir: true, data: Vec::new() };
        let mut nodes: Vec<Node> = Vec::new();
        nodes.push(root);
        let r = MemFs { nodes };
        proof {
            let m = map![seq!['/'] => Entry::Dir];
            assert forall|p: Seq<char>| m.contains_key(p) implies holds(r.nodes@, p) by {
                assert(r.nodes@[0].path@ == p);
            }
            lemma_entries_ext(r.nodes@, m);
        }
        r
    }

    /// The index of the node with path `p`.
    fn find(&self, p: &String) -> (r: Option<usize>)
        requires
            self.wf(),
        ensures
            match r {
                Some(i) => i < self.nodes@.len() && self.nodes@[i as int].path@ == p@
                    && self@.contains_key(p@) && self@[p@] == self.nodes@[i as int].entry(),
                None => !self@.contains_key(p@),
            },
    {
        let mut i: usize = 0;
        while i < self.nodes.len()
            invariant
                self.wf(),
                i <= self.nodes@.len(),
                forall|j: int| 0 <= j < i ==> #[trigger] self.nodes@[j].path@ != p@,
            decreases self.nodes@.len() - i,
        {
            if self.nodes[i].path == *p {
                proof {
                    lemma_entry_at(self.nodes@, i as int);
                }
                return Some(i);
            }
            i = i + 1;
        }
        None
    }

    /// Adds a node under a path that the store does not hold.
    fn push_node(&mut self, node: Node)
        requires
            old(self).wf(),
            !old(self)@.contains_key(node.path@),
        ensures
            final(self).wf(),
            final(self)@ == old(self)@.insert(node.path@, node.entry()),
    {
        let ghost s0 = self.nodes@;
        let ghost m = self@.insert(node.path@, node.entry());
        self.nodes.push(node);
        proof {
            let s = self.nodes@;
            assert forall|i: int| 0 <= i < s0.len() implies #[trigger] s0[i].path@ != node.path@ by {
                if s0[i].path@ == node.path@ {
                    assert(holds(s0, node.path@));
                }
            }
            assert(unique_paths(s));
            assert forall|i: int| 0 <= i < s.len() implies m.contains_key(#[trigger] s[i].path@)
                && m[s[i].path@] == s[i].entry() by {
                if i < s0.len() {
                    lemma_entry_at(s0, i);
                }
            }
            assert forall|p: Seq<char>| m.contains_key(p) implies holds(s, p) by {
                if p == node.path@ {
                    assert(s[s0.len() as int].path@ == p);
                } else {
                    let k = choose|k: int| 0 <= k < s0.len() && #[trigger] s0[k].path@ == p;
                    assert(s[k].path@ == p);
                }
            }
            lemma_entries_ext(s, m);
        }
    }

    /// Replaces the node at `i` by one with the same path.
    fn replace_node(&mut self, i: usize, node: Node)
        requires
            old(self).wf(),
            i < old(self).nodes@.len(),
            node.path@ == old(self).nodes@[i as int].path@,
        ensures
            final(self).wf(),
            final(self)@ == old(self)@.insert(node.path@, node.entry()),
    {
        let ghost s0 = self.nodes@;
        let ghost m = self@.insert(node.path@, node.entry());
        self.nodes.set(i, node);
        proof {
            let s = self.nodes@;
            assert(s == s0.update(i as int, node));
            assert(unique_paths(s));
            assert forall|j: int| 0 <= j < s.len() implies m.contains_key(#[trigger] s[j].path@)
                && m[s[j].path@] == s[j].entry() by {
                if j != i {
                    lemma_entry_at(s0, j);
                }
            }
            assert forall|p: Seq<char>| m.contains_key(p) implies holds(s, p) by {
                if p == node.path@ {
                    assert(s[i as int].path@ == p);
                } else {
                    let k = choose|k: int| 0 <= k < s0.len() && #[trigger] s0[k].path@ == p;
                    assert(s[k].path@ == p);
                }
            }
            lemma_entries_ext(s, m);
        }
    }

    /// Takes out the node at `i`.
    fn remove_node(&mut self, i: usize) -> (r: Node)
        requires
            old(self).wf(),
            i < old(self).nodes@.len(),
        ensures
            final(self).wf(),
            r == old(self).nodes@[i as int],
            final(self)@ == old(self)@.remove(r.path@),
    {
        let ghost s0 = self.nodes@;
        let ghost q = s0[i as int].path@;
        let ghost m = self@.remove(q);
        let r = self.nodes.remove(i);
        proof {
            let s = self.nodes@;
            assert(s == s0.remove(i as int));
            assert forall|a: int, b: int|
                0 <= a < s.len() && 0 <= b < s.len() && a != b implies #[trigger] s[a].path@
                != #[trigger] s[b].path@ by {
                let a0 = if a < i { a } else { a + 1 };
                let b0 = if b < i { b } else { b + 1 };
                assert(s[a] == s0[a0] && s[b] == s0[b0]);
            }
            assert forall|j: int| 0 <= j < s.len() implies m.contains_key(#[trigger] s[j].path@)
                && m[s[j].path@] == s[j].entry() by {
                let j0 = if j < i { j } else { j + 1 };
                assert(s[j] == s0[j0]);
                lemma_entry_at(s0, j0);
            }
            assert forall|p: Seq<char>| m.contains_key(p) implies holds(s, p) by {
                let k = choose|k: int| 0 <= k < s0.len() && #[trigger] s0[k].path@ == p;
                assert(k != i);
                let k1 = if k < i { k } else { k - 1 };
                assert(s[k1] == s0[k]);
            }
            lemma_entries_ext(s, m);
        }
        r
    }

    /// Every file of the store is smaller than the address space.
    pub proof fn lemma_sizes_fit(&self)
        requires
            self.wf(),
        ensures
            forall|p: Seq<char>| #[trigger]
                lookup_file(self@, p) is Ok ==> lookup_file(self@, p)->Ok_0.len() <= usize::MAX,
    {
        assert forall|p: Seq<char>| #[trigger]
            lookup_file(self@, p) is Ok implies lookup_file(self@, p)->Ok_0.len() <= usize::MAX by {
            let i = choose|i: int| 0 <= i < self.nodes@.len() && #[trigger] self.nodes@[i].path@ == p;
            lemma_entry_at(self.nodes@, i);
            assert(self.nodes@[i].data@.len() == self.nodes@[i].data.len());
        }
    }

    /// Whether `p` is a directory of the store.
    fn is_dir_at(&self, p: &String) -> (r: bool)
        requires
            self.wf(),
        ensures
            r == (self@.contains_key(p@) && self@[p@] == Entry::Dir),
    {
        match self.find(p) {
            Some(i) => self.nodes[i].is_dir,
            None => false,
        }
    }

    /// Opens `p` as a file: it may be created or truncated, as the options
    /// ask.
    pub fn open_file(&mut self, p: &String, o: &OpenOptions) -> (r: Result<(), LinuxError>)
        requires
            old(self).wf(),
        ensures
            final(self).wf(),
            match open_file_spec(old(self)@, p@, *o) {
                Ok(m) => r is Ok && final(self)@ == m,
                Err(e) => r == Err::<(), LinuxError>(e) && final(self)@ == old(self)@,
            },
    {
        if !(o.read || o.write || o.append) {
            return Err(LinuxError::EINVAL);
        }
        match self.find(p) {
            Some(i) => {
                if self.nodes[i].is_dir {
                    Err(LinuxError::EISDIR)
                } else if o.create_new {
                    Err(LinuxError::EEXIST)
                } else if o.truncate {
                    let node = Node { path: p.clone(), is_dir: false, data: Vec::new() };
                    proof {
                        assert(node.entry() == Entry::File(Seq::empty()));
                    }
                    self.replace_node(i, node);
                    Ok(())
                } else {
                    Ok(())
                }
            },
            None => {
                if o.create || o.create_new {
                    let parent = parent_path(p.as_str());
                    if self.is_dir_at(&parent) {
                        let node = Node { path: p.clone(), is_dir: false, data: Vec::new() };
                        proof {
                            assert(node.entry() == Entry::File(Seq::empty()));
                        }
                        self.push_node(node);
                        return Ok(());
                    }
                }
                Err(LinuxError::ENOENT)
            },
        }
    }

    /// Checks that `p` can be opened as a directory.
    pub fn open_dir(&self, p: &String, o: &OpenOptions) -> (r: Result<(), LinuxError>)
        requires
            self.wf(),
        ensures
            r == open_dir_spec(self@, p@, *o),
    {
        if !(o.read || o.write || o.append) {
            return Err(LinuxError::EINVAL);
        }
        match self.find(p) {
            None => Err(LinuxError::ENOENT),
            Some(i) => {
                if self.nodes[i].is_dir {
                    Ok(())
                } else {
                    Err(LinuxError::ENOTDIR)
                }
            },
        }
    }

    /// Creates the directory `p`.
    pub fn create_dir(&mut self, p: &String) -> (r: Result<(), LinuxError>)
        requires
            old(self).wf(),
        ensures
            final(self).wf(),
            match create_dir_spec(old(self)@, p@) {
                Ok(m) => r is Ok && final(self)@ == m,
                Err(e) => r == Err::<(), LinuxError>(e) && final(self)@ == old(self)@,
            },
    {
        if self.find(p).is_some() {
            return Err(LinuxError::EEXIST);
        }
        let parent = parent_path(p.as_str());
        if !self.is_dir_at(&parent) {
            return Err(LinuxError::ENOENT);
        }
        self.push_node(Node { path: p.clone(), is_dir: true, data: Vec::new() });
        Ok(())
    }

    /// Removes the file `p`.
    pub fn remove_file(&mut self, p: &String) -> (r: Result<(), LinuxError>)
        requires
            old(self).wf(),
        ensures
            final(self).wf(),
            match remove_file_spec(old(self)@, p@) {
                Ok(m) => r is Ok && final(self)@ == m,
                Err(e) => r == Err::<(), LinuxError>(e) && final(self)@ == old(self)@,
            },
    {
        match self.find(p) {
            None => Err(LinuxError::ENOENT),
            Some(i) => {
                if self.nodes[i].is_dir {
                    Err(LinuxError::EISDIR)
                } else {
                    self.remove_node(i);
                    Ok(())
                }
            },
        }
    }

    /// Whether some other path lies directly in `p`.
    fn has_children_at(&self, p: &String) -> (r: bool)
        requires
            self.wf(),
        ensures
            r == has_children(self@, p@),
    {
        let mut i: usize = 0;
        while i < self.nodes.len()
            invariant
                self.wf(),
                i <= self.nodes@.len(),
                forall|j: int|
                    0 <= j < i ==> !(self.nodes@[j].path@ != p@ && #[trigger] parent_of(
                        self.nodes@[j].path@,
                    ) == p@),
            decreases self.nodes@.len() - i,
        {
            let parent = parent_path(self.nodes[i].path.as_str());
            if parent == *p && self.nodes[i].path != *p {
                proof {
                    lemma_entry_at(self.nodes@, i as int);
                }
                return true;
            }
            i = i + 1;
        }
        proof {
            assert forall|q: Seq<char>| self@.contains_key(q) && q != p@ implies #[trigger] parent_of(q)
                != p@ by {
                let k = choose|k: int| 0 <= k < self.nodes@.len() && #[trigger] self.nodes@[k].path@ == q;
            }
        }
        false
    }

    /// Moves `a` to `b`; see [`rename_spec`].
    pub fn rename(&mut self, a: &String, b: &String) -> (r: Result<(), LinuxError>)
        requires
            old(self).wf(),
        ensures
            final(self).wf(),
            match rename_spec(old(self)@, a@, b@) {
                Ok(m) => r is Ok && final(self)@ == m,
                Err(e) => r == Err::<(), LinuxError>(e) && final(self)@ == old(self)@,
            },
    {
        let ghost m0 = self@;
        let ia = match self.find(a) {
            None => return Err(LinuxError::ENOENT),
            Some(i) => i,
        };
        if *a == *b {
            return Ok(());
        }
        let a_is_dir = self.nodes[ia].is_dir;
        if a_is_dir && self.has_children_at(a) {
            return Err(LinuxError::ENOTEMPTY);
        }
        let parent = parent_path(b.as_str());
        if parent == *a {
            return Err(LinuxError::EINVAL);
        }
        if !self.is_dir_at(&parent) {
            return Err(LinuxError::ENOENT);
        }
        if self.is_dir_at(b) {
            return Err(LinuxError::EISDIR);
        }
        if let Some(j) = self.find(b) {
            self.remove_node(j);
        }
        let ghost m1 = self@;
        let ia = match self.find(a) {
            None => {
                proof {
                    assert(m1.contains_key(a@));
                }
                return Err(LinuxError::ENOENT);
            },
            Some(i) => i,
        };
        let node = self.remove_node(ia);
        let moved = Node { path: b.clone(), is_dir: node.is_dir, data: node.data };
        proof {
            assert(moved.entry() == m0[a@]);
        }
        self.push_node(moved);
        proof {
            assert(self@ =~= m0.remove(a@).insert(b@, m0[a@]));
        }
        Ok(())
    }

    /// The index of the node of the file `p`, or the error.
    fn file_index(&self, p: &String) -> (r: Result<usize, LinuxError>)
        requires
            self.wf(),
        ensures
            match lookup_file(self@, p@) {
                Ok(d) => r is Ok && r->Ok_0 < self.nodes@.len() && self.nodes@[r->Ok_0 as int].path@
                    == p@ && !self.nodes@[r->Ok_0 as int].is_dir && self.nodes@[r->Ok_0 as int].data@
                    == d,
                Err(e) => r == Err::<usize, LinuxError>(e),
            },
    {
        match self.find(p) {
            None => Err(LinuxError::ENOENT),
            Some(i) => {
                if self.nodes[i].is_dir {
                    Err(LinuxError::EISDIR)
                } else {
                    Ok(i)
                }
            },
        }
    }

    /// The size in bytes of the file `p`.
    pub fn file_size(&self, p: &String) -> (r: Result<u64, LinuxError>)
        requires
            self.wf(),
        ensures
            match lookup_file(self@, p@) {
                Ok(d) => r == Ok::<u64, LinuxError>(d.len() as u64),
                Err(e) => r == Err::<u64, LinuxError>(e),
            },
    {
        match self.file_index(p) {
            Ok(i) => Ok(self.nodes[i].data.len() as u64),
            Err(e) => Err(e),
        }
    }

    /// At most `len` bytes of the file `p` from `off` on.
    pub fn read_at(&self, p: &String, off: u64, len: usize) -> (r: Result<Vec<u8>, LinuxError>)
        requires
            self.wf(),
        ensures
            match lookup_file(self@, p@) {
                Ok(d) => r is Ok && r->Ok_0@ == read_spec(d, off as int, len as int),
                Err(e) => r == Err::<Vec<u8>, LinuxError>(e),
            },
    {
        let i = match self.file_index(p) {
            Ok(i) => i,
            Err(e) => return Err(e),
        };
        let data = &self.nodes[i].data;
        let n = data.len();
        let mut out: Vec<u8> = Vec::new();
        if off >= n as u64 {
            return Ok(out);
        }
        let start = off as usize;
        let end = if len <= n - start { start + len } else { n };
        let mut k = start;
        while k < end
            invariant
                start <= k <= end <= n == data@.len(),
                out@ == data@.subrange(start as int, k as int),
            decreases end - k,
        {
            out.push(data[k]);
            proof {
                assert(out@ =~= data@.subrange(start as int, k as int + 1));
            }
            k = k + 1;
        }
        Ok(out)
    }

    /// Writes `b` into the file `p` at `off`, and returns how many bytes
    /// were written: all of them. A file that would grow past what memory
    /// can address is refused with `EFBIG`.
    pub fn write_at(&mut self, p: &String, off: u64, b: &[u8]) -> (r: Result<usize, LinuxError>)
        requires
            old(self).wf(),
        ensures
            final(self).wf(),
            match lookup_file(old(self)@, p@) {
                Ok(d) => if off + b@.len() > usize::MAX {
                    r == Err::<usize, LinuxError>(LinuxError::EFBIG) && final(self)@ == old(self)@
                } else {
                    r == Ok::<usize, LinuxError>(b@.len() as usize) && final(self)@ == old(self)@.insert(
                        p@,
                        Entry::File(written(d, off as int, b@)),
                    )
                },
                Err(e) => r == Err::<usize, LinuxError>(e) && final(self)@ == old(self)@,
            },
    {
        let i = match self.file_index(p) {
            Ok(i) => i,
            Err(e) => return Err(e),
        };
        if off > usize::MAX as u64 || off as usize > usize::MAX - b.len() {
            return Err(LinuxError::EFBIG);
        }
        let off = off as usize;
        let ghost d0 = self.nodes@[i as int].data@;
        let mut d: Vec<u8> = Vec::new();
        let mut k: usize = 0;
        while k < self.nodes[i].data.len()
            invariant
                i < self.nodes@.len(),
                d0 == self.nodes@[i as int].data@,
                k <= d0.len(),
                d@ == d0.subrange(0, k as int),
            decreases d0.len() - k,
        {
            d.push(self.nodes[i].data[k]);
            proof {
                assert(d@ =~= d0.subrange(0, k as int + 1));
            }
            k = k + 1;
        }
        assert(d@ =~= d0);
        while d.len() < off
            invariant
                d0.len() <= d@.len(),
                d@.len() <= d0.len() || d@.len() <= off,
                d@ =~= padded(d0, d@.len() as int),
            decreases off - d@.len(),
        {
            d.push(0u8);
            proof {
                assert(d@ =~= padded(d0, d@.len() as int));
            }
        }
        let ghost q = padded(d0, off as int);
        assert(d@ =~= q);
        let mut j: usize = 0;
        while j < b.len()
            invariant
                off + b@.len() <= usize::MAX,
                j <= b@.len(),
                d@ =~= written(d0, off as int, b@.subrange(0, j as int)),
                d@.len() >= off + j,
                q == padded(d0, off as int),
            decreases b@.len() - j,
        {
            let pos = off + j;
            if pos < d.len() {
                d.set(pos, b[j]);
            } else {
                d.push(b[j]);
            }
            proof {
                assert(d@ =~= written(d0, off as int, b@.subrange(0, j as int + 1)));
            }
            j = j + 1;
        }
        assert(b@.subrange(0, b@.len() as int) =~= b@);
        let node = Node { path: p.clone(), is_dir: false, data: d };
        self.replace_node(i, node);
        Ok(b.len())
    }
}

} // verus!
