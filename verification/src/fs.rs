//! The read-only filesystem a guest sees: a tree of inodes that is built
//! once, a table of descriptors, and the two captured output streams.

use vstd::prelude::*;
use crate::errno::Error;
use crate::path::{is_plain, plain, segments, split, views};
use crate::tree::{
    addable, dir_in, dir_node, entry_at, entry_of, file_node, place_in, with_file, NodeView,
};

verus! {

/// The first descriptor that stands for an inode; the ones below it are the
/// three standard streams.
pub const FIRST_FD: u32 = 3;

/// The most inodes a filesystem holds.
pub const MAX_INODES: u32 = 0xffff_fff0;

/// The number of an inode. The root is inode 1.
#[derive(Copy, Clone, Hash, Debug, PartialEq, Eq, Structural)]
pub struct Inode(pub u32);

/// One inode: a file with its bytes, or a directory.
#[derive(Debug)]
pub struct Node {
    /// The number of the directory that holds this inode; 0 for the root.
    pub parent: u32,
    pub name: Vec<u8>,
    /// The contents of a file; `None` for a directory.
    pub data: Option<Vec<u8>>,
}

impl View for Node {
    type V = NodeView;

    open spec fn view(&self) -> NodeView {
        NodeView {
            parent: self.parent,
            name: self.name@,
            data: match self.data {
                Some(d) => Some(d@),
                None => None,
            },
        }
    }
}

/// The inodes `nodes` by what they hold.
pub open spec fn tree_view(nodes: Seq<Node>) -> Seq<NodeView> {
    nodes.map_values(|n: Node| n@)
}

/// An open descriptor: the inode it reads and how far it has read.
#[derive(Copy, Clone, Debug, PartialEq, Eq, Structural)]
pub struct Descriptor {
    pub ino: Inode,
    pub pos: u64,
}

/// From where a seek counts.
#[derive(Copy, Clone, Debug, PartialEq, Eq, Structural)]
pub enum Whence {
    Start,
    Current,
    End,
}

/// Where a seek lands, if anywhere: at `offset` from the start, from the
/// current position or from the end. A target below zero or beyond what 64
/// bits hold is no position.
pub open spec fn seek_target(pos: u64, len: nat, offset: i64, whence: Whence) -> Option<u64> {
    match whence {
        Whence::Start => if offset >= 0 {
            Some(offset as u64)
        } else {
            None
        },
        Whence::Current => if 0 <= pos + offset <= u64::MAX {
            Some((pos + offset) as u64)
        } else {
            None
        },
        Whence::End => if 0 <= len + offset <= u64::MAX {
            Some((len + offset) as u64)
        } else {
            None
        },
    }
}

/// How many bytes a read of `count` bytes gets from a file of `len` bytes at
/// position `pos`.
pub open spec fn readable(len: nat, pos: nat, count: nat) -> nat {
    if pos >= len {
        0
    } else if count <= len - pos {
        count
    } else {
        (len - pos) as nat
    }
}

/// A position in the bytes of one file.
pub struct FileCursor<'a> {
    pub data: &'a Vec<u8>,
    pub pos: u64,
}

impl<'a> FileCursor<'a> {
    pub fn position(&self) -> (pos: u64)
        ensures
            pos == self.pos,
    {
        self.pos
    }

    /// Moves the position. A target below zero or beyond what 64 bits hold
    /// is refused, and the position stays.
    pub fn seek(&mut self, offset: i64, whence: Whence) -> (res: Result<u64, Error>)
        ensures
            final(self).data == old(self).data,
            match seek_target(old(self).pos, old(self).data@.len(), offset, whence) {
                Some(target) => res == Ok::<u64, Error>(target) && final(self).pos == target,
                None => res == Err::<u64, Error>(Error::Io) && final(self).pos == old(self).pos,
            },
    {
        let base: u64 = match whence {
            Whence::Start => 0,
            Whence::Current => self.pos,
            Whence::End => self.data.len() as u64,
        };
        let target: i128 = base as i128 + offset as i128;
        if target < 0 || target > u64::MAX as i128 {
            return Err(Error::Io);
        }
        self.pos = target as u64;
        Ok(self.pos)
    }

    /// Takes up to `count` bytes from the position on and moves past them.
    /// Fewer come where the file ends first, none at or after its end.
    pub fn read(&mut self, count: usize) -> (chunk: &'a [u8])
        ensures
            final(self).data == old(self).data,
            chunk@.len() == readable(old(self).data@.len(), old(self).pos as nat, count as nat),
            chunk@.len() > 0 ==> chunk@ == old(self).data@.subrange(
                old(self).pos as int,
                old(self).pos + chunk@.len(),
            ),
            final(self).pos == old(self).pos + chunk@.len(),
    {
        let len: usize = self.data.len();
        let start: usize = if self.pos >= len as u64 {
            len
        } else {
            self.pos as usize
        };
        let n: usize = if count <= len - start {
            count
        } else {
            len - start
        };
        let chunk = vstd::slice::slice_subrange(self.data.as_slice(), start, start + n);
        self.pos = self.pos + n as u64;
        chunk
    }
}

/// Whether two byte strings are the same.
pub fn bytes_eq(a: &[u8], b: &[u8]) -> (same: bool)
    ensures
        same == (a@ == b@),
{
    if a.len() != b.len() {
        return false;
    }
    let mut i: usize = 0;
    while i < a.len()
        invariant
            i <= a@.len(),
            a@.len() == b@.len(),
            a@.subrange(0, i as int) == b@.subrange(0, i as int),
        decreases a@.len() - i,
    {
        if a[i] != b[i] {
            return false;
        }
        proof {
            assert(a@.subrange(0, i + 1) =~= a@.subrange(0, i as int).push(a@[i as int]));
            assert(b@.subrange(0, i + 1) =~= b@.subrange(0, i as int).push(b@[i as int]));
        }
        i = i + 1;
    }
    proof {
        assert(a@ =~= a@.subrange(0, i as int));
        assert(b@ =~= b@.subrange(0, i as int));
    }
    true
}

/// Puts the bytes of `src` at the end of `dst`.
pub fn append_bytes(dst: &mut Vec<u8>, src: &[u8])
    ensures
        final(dst)@ == old(dst)@ + src@,
{
    let mut i: usize = 0;
    while i < src.len()
        invariant
            i <= src@.len(),
            dst@ == old(dst)@ + src@.subrange(0, i as int),
        decreases src@.len() - i,
    {
        dst.push(src[i]);
        proof {
            assert(dst@ =~= old(dst)@ + src@.subrange(0, i + 1));
        }
        i = i + 1;
    }
    proof {
        assert(src@ =~= src@.subrange(0, i as int));
    }
}

/// The root's entries among the first `upto` inodes, oldest first, each by
/// its place in `nodes`.
pub open spec fn root_entries(nodes: Seq<Node>, upto: int) -> Seq<int>
    decreases upto,
{
    if upto <= 1 {
        Seq::empty()
    } else if nodes[upto - 1].parent == 1 {
        root_entries(nodes, upto - 1).push(upto - 1)
    } else {
        root_entries(nodes, upto - 1)
    }
}

/// Descriptor `fd` under the name `name` is the mount point for the root's
/// entry `nodes[at]`, a directory.
pub open spec fn mounts(nodes: Seq<Node>, at: int, fd: Option<Descriptor>, name: Seq<u8>) -> bool {
    &&& 1 <= at < nodes.len()
    &&& nodes[at].parent == 1
    &&& nodes[at].data is None
    &&& fd == Some(Descriptor { ino: Inode((at + 1) as u32), pos: 0 })
    &&& name == mount_name(nodes[at].name@)
}

/// Some entry of the root among the first `upto` inodes is a file.
pub open spec fn root_holds_file(nodes: Seq<Node>, upto: int) -> bool {
    exists|i: int| 1 <= i < upto && (#[trigger] nodes[i]).parent == 1 && nodes[i].data is Some
}

/// The filesystem of one run.
#[derive(Debug)]
pub struct ROFilesystem {
    /// The inodes: `nodes[i]` has the number `i + 1`, and `nodes[0]` is the
    /// root.
    pub nodes: Vec<Node>,
    /// The descriptors: `fds[i]` is descriptor `FIRST_FD + i`, `None` once
    /// it is closed.
    pub fds: Vec<Option<Descriptor>>,
    /// The mount names: `preopens[i]` is the name of descriptor
    /// `FIRST_FD + i`.
    pub preopens: Vec<Vec<u8>>,
    pub stdout: Vec<u8>,
    pub stderr: Vec<u8>,
}

/// `nodes[i]` is the entry called `name` of directory `dir`.
pub open spec fn is_entry(nodes: Seq<Node>, i: int, dir: u32, name: Seq<u8>) -> bool {
    1 <= i < nodes.len() && nodes[i].parent == dir && nodes[i].name@ == name
}

/// Inode `i + 1` lies in a directory that was made before it, under a plain
/// name.
pub open spec fn placed(nodes: Seq<Node>, i: int) -> bool {
    1 <= nodes[i].parent <= i && nodes[nodes[i].parent - 1].data is None && plain(
        nodes[i].name@,
    )
}

/// The inodes `i + 1` and `j + 1` are not two entries of one directory
/// under one name.
pub open spec fn distinct(nodes: Seq<Node>, i: int, j: int) -> bool {
    nodes[i].parent == nodes[j].parent ==> nodes[i].name@ != nodes[j].name@
}

/// The tree is sound: inode 1 is a directory, every other inode lies in a
/// directory that was made before it, under a name that is not empty and
/// holds no separator, and no directory holds a name twice.
pub open spec fn tree_wf(nodes: Seq<Node>) -> bool {
    &&& 1 <= nodes.len() <= MAX_INODES
    &&& nodes[0].data is None
    &&& nodes[0].parent == 0
    &&& forall|i: int| 1 <= i < nodes.len() ==> #[trigger] placed(nodes, i)
    &&& forall|i: int, j: int| 1 <= i < j < nodes.len() ==> #[trigger] distinct(nodes, i, j)
}

/// `after` holds the inodes of `before`, unchanged, and maybe more.
pub open spec fn grown(before: Seq<Node>, after: Seq<Node>) -> bool {
    before.len() <= after.len() && after.subrange(0, before.len() as int) == before
}

/// What `after` holds more than `before` lies in `dir` or in a directory
/// that was made after it.
pub open spec fn below(before: Seq<Node>, after: Seq<Node>, dir: Inode) -> bool {
    forall|j: int| before.len() <= j < after.len() ==> (#[trigger] after[j]).parent >= dir.0
}

/// The inodes of `nodes` from place `from` up to place `to` are
/// directories.
pub open spec fn only_directories(nodes: Seq<Node>, from: int, to: int) -> bool {
    forall|j: int| from <= j < to ==> (#[trigger] nodes[j]).data is None
}

/// The mount name of a directory called `name`.
pub open spec fn mount_name(name: Seq<u8>) -> Seq<u8> {
    seq![47u8] + name
}

impl ROFilesystem {
    /// The invariant of the filesystem.
    pub open spec fn wf(&self) -> bool {
        &&& tree_wf(self.nodes@)
        &&& FIRST_FD + self.fds@.len() <= u32::MAX
        &&& forall|i: int|
            0 <= i < self.fds@.len() ==> match #[trigger] self.fds@[i] {
                Some(d) => 1 <= d.ino.0 <= self.nodes@.len(),
                None => true,
            }
        &&& self.preopens@.len() <= self.fds@.len()
        &&& forall|i: int|
            0 <= i < self.preopens@.len() ==> (#[trigger] self.fds@[i]) is Some ==> self.is_dir(
                self.fds@[i]->Some_0.ino,
            )
    }

    /// `ino` is a directory of this filesystem.
    pub open spec fn is_dir(&self, ino: Inode) -> bool {
        1 <= ino.0 <= self.nodes@.len() && self.nodes@[ino.0 - 1].data is None
    }

    /// `ino` is a file of this filesystem.
    pub open spec fn is_file(&self, ino: Inode) -> bool {
        1 <= ino.0 <= self.nodes@.len() && self.nodes@[ino.0 - 1].data is Some
    }

    /// The bytes of the file `ino`.
    pub open spec fn file_data(&self, ino: Inode) -> Seq<u8>
        recommends
            self.is_file(ino),
    {
        self.nodes@[ino.0 - 1].data->Some_0@
    }

    /// The entry called `name` of directory `dir`, if it has one.
    pub open spec fn spec_lookup(&self, dir: Inode, name: Seq<u8>) -> Option<Inode> {
        if exists|i: int| is_entry(self.nodes@, i, dir.0, name) {
            let i = choose|i: int| is_entry(self.nodes@, i, dir.0, name);
            Some(Inode((i + 1) as u32))
        } else {
            None
        }
    }

    /// What descriptor `fd` stands for, if it is open.
    pub open spec fn descriptor(&self, fd: u32) -> Option<Descriptor> {
        if FIRST_FD <= fd < FIRST_FD + self.fds@.len() {
            self.fds@[fd - FIRST_FD]
        } else {
            None
        }
    }

    /// `fd` is one of the mount points that were opened at the start, and
    /// is still open.
    pub open spec fn is_preopen(&self, fd: u32) -> bool {
        FIRST_FD <= fd < FIRST_FD + self.preopens@.len() && self.descriptor(fd) is Some
    }

    /// The mount name of the preopened descriptor `fd`.
    pub open spec fn preopen_name(&self, fd: u32) -> Seq<u8>
        recommends
            self.is_preopen(fd),
    {
        self.preopens@[fd - FIRST_FD]@
    }

    /// The descriptor that the next open gets.
    pub open spec fn next_fd(&self) -> int {
        FIRST_FD + self.fds@.len()
    }

    /// An empty filesystem: the root directory and nothing open.
    pub fn new() -> (fs: ROFilesystem)
        ensures
            fs.wf(),
            fs.nodes@.len() == 1,
            fs.fds@.len() == 0,
            fs.preopens@.len() == 0,
            fs.stdout@.len() == 0,
            fs.stderr@.len() == 0,
            fs.is_dir(fs.spec_root()),
            fs.tree() == seq![(NodeView { parent: 0, name: Seq::empty(), data: None })],
    {
        let mut nodes: Vec<Node> = Vec::new();
        nodes.push(Node { parent: 0, name: Vec::new(), data: None });
        proof {
            assert(tree_view(nodes@) =~= seq![
                (NodeView { parent: 0, name: Seq::empty(), data: None }),
            ]);
        }
        ROFilesystem {
            nodes,
            fds: Vec::new(),
            preopens: Vec::new(),
            stdout: Vec::new(),
            stderr: Vec::new(),
        }
    }

    /// The tree of inodes by what they hold.
    pub open spec fn tree(&self) -> Seq<NodeView> {
        tree_view(self.nodes@)
    }

    /// What a name stands for in a directory is a matter of the tree alone.
    pub proof fn lemma_lookup_by_tree(&self, dir: Inode, name: Seq<u8>)
        requires
            tree_wf(self.nodes@),
        ensures
            self.spec_lookup(dir, name) == entry_of(self.tree(), dir, name),
    {
        let tree = self.tree();
        assert forall|i: int| is_entry(self.nodes@, i, dir.0, name) == entry_at(
            tree,
            i,
            dir.0,
            name,
        ) by {
            if 1 <= i < self.nodes@.len() {
                assert(tree[i] == self.nodes@[i]@);
            }
        }
        if exists|i: int| is_entry(self.nodes@, i, dir.0, name) {
            let a = choose|i: int| is_entry(self.nodes@, i, dir.0, name);
            assert(entry_at(tree, a, dir.0, name));
            let b = choose|i: int| entry_at(tree, i, dir.0, name);
            assert(is_entry(self.nodes@, b, dir.0, name));
            if a < b {
                assert(distinct(self.nodes@, a, b));
            } else if b < a {
                assert(distinct(self.nodes@, b, a));
            }
        } else {
            assert forall|i: int| !entry_at(tree, i, dir.0, name) by {
                assert(!is_entry(self.nodes@, i, dir.0, name));
            }
        }
    }

    /// Whether an inode is a directory is a matter of the tree alone.
    pub proof fn lemma_dir_by_tree(&self, ino: Inode)
        ensures
            self.is_dir(ino) == dir_in(self.tree(), ino),
    {
        if 1 <= ino.0 <= self.nodes@.len() {
            assert(self.tree()[ino.0 - 1] == self.nodes@[ino.0 - 1]@);
        }
    }

    /// Whether a file has a place is a matter of the tree alone.
    pub proof fn lemma_place_by_tree(&self, at: Inode, segs: Seq<Seq<u8>>)
        requires
            tree_wf(self.nodes@),
        ensures
            self.spec_place(at, segs) == place_in(self.tree(), at, segs),
        decreases segs.len(),
    {
        self.lemma_dir_by_tree(at);
        if segs.len() > 0 {
            self.lemma_lookup_by_tree(at, segs[0]);
            if segs.len() > 1 && self.spec_lookup(at, segs[0]) is Some {
                self.lemma_place_by_tree(self.spec_lookup(at, segs[0])->Some_0, segs.drop_first());
            }
        }
    }

    /// Whether a file can be added to a tree that is not frozen is a matter
    /// of the tree alone.
    pub proof fn lemma_add_by_tree(&self, dir: Inode, path: Seq<u8>)
        requires
            tree_wf(self.nodes@),
            self.fds@.len() == 0,
        ensures
            self.spec_add_file(dir, path) == addable(self.tree(), dir, path),
    {
        self.lemma_place_by_tree(dir, segments(path));
    }

    pub open spec fn spec_root(&self) -> Inode {
        Inode(1)
    }

    /// The root directory.
    pub fn root(&self) -> (ino: Inode)
        ensures
            ino == self.spec_root(),
    {
        Inode(1)
    }

    /// Finds the entry called `name` in directory `dir`.
    pub fn lookup(&self, dir: Inode, name: &[u8]) -> (res: Option<Inode>)
        requires
            self.wf(),
        ensures
            res == self.spec_lookup(dir, name@),
            res is Some ==> is_entry(self.nodes@, res->Some_0.0 - 1, dir.0, name@),
            res is None ==> forall|i: int| !is_entry(self.nodes@, i, dir.0, name@),
    {
        let mut i: usize = 1;
        while i < self.nodes.len()
            invariant
                self.wf(),
                1 <= i <= self.nodes@.len(),
                forall|j: int| 1 <= j < i ==> !is_entry(self.nodes@, j, dir.0, name@),
            decreases self.nodes@.len() - i,
        {
            if self.nodes[i].parent == dir.0 && bytes_eq(self.nodes[i].name.as_slice(), name) {
                proof {
                    assert(is_entry(self.nodes@, i as int, dir.0, name@));
                    let c = choose|k: int| is_entry(self.nodes@, k, dir.0, name@);
                    assert(c == i) by {
                        if c < i {
                            assert(distinct(self.nodes@, c, i as int));
                        } else if i < c {
                            assert(distinct(self.nodes@, i as int, c));
                        }
                    }
                }
                return Some(Inode((i + 1) as u32));
            }
            i = i + 1;
        }
        None
    }

    /// What making an entry called `name` in `parent` gives: the new inode's
    /// number, or why there is none. Once a descriptor was handed out the
    /// tree is frozen, and a name that is empty or holds a separator names
    /// no entry.
    pub open spec fn spec_mknod(&self, parent: Inode, name: Seq<u8>) -> Result<Inode, Error> {
        if self.fds@.len() > 0 {
            Err(Error::Perm)
        } else if !plain(name) {
            Err(Error::Inval)
        } else if !(1 <= parent.0 <= self.nodes@.len()) {
            Err(Error::Noent)
        } else if !self.is_dir(parent) {
            Err(Error::Notdir)
        } else if self.spec_lookup(parent, name) is Some {
            Err(Error::Exist)
        } else if self.nodes@.len() >= MAX_INODES {
            Err(Error::Nospc)
        } else {
            Ok(Inode((self.nodes@.len() + 1) as u32))
        }
    }

    /// Makes an entry called `name` in `parent`: a file where `data` is
    /// given, else a directory.
    pub fn mknod(&mut self, parent: Inode, name: Vec<u8>, data: Option<Vec<u8>>) -> (res: Result<
        Inode,
        Error,
    >)
        requires
            old(self).wf(),
        ensures
            final(self).wf(),
            res == old(self).spec_mknod(parent, name@),
            res is Ok ==> final(self).nodes@ == old(self).nodes@.push(
                (Node { parent: parent.0, name, data }),
            ),
            res is Err ==> final(self).nodes == old(self).nodes,
            final(self).fds == old(self).fds,
            final(self).preopens == old(self).preopens,
            final(self).stdout == old(self).stdout,
            final(self).stderr == old(self).stderr,
    {
        if self.fds.len() > 0 {
            return Err(Error::Perm);
        }
        if !is_plain(name.as_slice()) {
            return Err(Error::Inval);
        }
        if parent.0 < 1 || parent.0 as usize > self.nodes.len() {
            return Err(Error::Noent);
        }
        if self.nodes[parent.0 as usize - 1].data.is_some() {
            return Err(Error::Notdir);
        }
        if self.lookup(parent, name.as_slice()).is_some() {
            return Err(Error::Exist);
        }
        if self.nodes.len() >= MAX_INODES as usize {
            return Err(Error::Nospc);
        }
        let ino = Inode((self.nodes.len() + 1) as u32);
        let ghost before = self.nodes@;
        let ghost label = name@;
        self.nodes.push(Node { parent: parent.0, name, data });
        proof {
            let after = self.nodes@;
            let n = before.len() as int;
            assert forall|i: int| 1 <= i < after.len() implies #[trigger] placed(after, i) by {
                if i < n {
                    assert(placed(before, i));
                }
            }
            assert forall|i: int, j: int| 1 <= i < j < after.len() implies #[trigger] distinct(
                after,
                i,
                j,
            ) by {
                if j < n {
                    assert(distinct(before, i, j));
                } else {
                    assert(!is_entry(before, i, parent.0, label));
                }
            }
        }
        Ok(ino)
    }

    /// Makes an empty directory called `name` in `parent`.
    pub fn mkdir(&mut self, parent: Inode, name: Vec<u8>) -> (res: Result<Inode, Error>)
        requires
            old(self).wf(),
        ensures
            final(self).wf(),
            res == old(self).spec_mknod(parent, name@),
            res is Ok ==> final(self).nodes@ == old(self).nodes@.push(
                (Node { parent: parent.0, name, data: None }),
            ),
            res is Ok ==> final(self).tree() == old(self).tree().push(dir_node(parent, name@)),
            res is Ok ==> final(self).is_dir(res->Ok_0),
            res is Err ==> final(self).nodes == old(self).nodes,
            final(self).fds == old(self).fds,
            final(self).preopens == old(self).preopens,
            final(self).stdout == old(self).stdout,
            final(self).stderr == old(self).stderr,
    {
        let ghost label = name@;
        let res = self.mknod(parent, name, None);
        proof {
            if res is Ok {
                assert(self.tree() =~= old(self).tree().push(dir_node(parent, label)));
            }
        }
        res
    }

    /// Makes a file called `name` in `parent` that holds `data`.
    pub fn mkfile(&mut self, parent: Inode, name: Vec<u8>, data: Vec<u8>) -> (res: Result<
        Inode,
        Error,
    >)
        requires
            old(self).wf(),
        ensures
            final(self).wf(),
            res == old(self).spec_mknod(parent, name@),
            res is Ok ==> final(self).nodes@ == old(self).nodes@.push(
                (Node { parent: parent.0, name, data: Some(data) }),
            ),
            res is Ok ==> final(self).tree() == old(self).tree().push(
                file_node(parent, name@, data@),
            ),
            res is Ok ==> final(self).is_file(res->Ok_0) && final(self).file_data(res->Ok_0)
                == data@,
            res is Err ==> final(self).nodes == old(self).nodes,
            final(self).fds == old(self).fds,
            final(self).preopens == old(self).preopens,
            final(self).stdout == old(self).stdout,
            final(self).stderr == old(self).stderr,
    {
        let ghost label = name@;
        let ghost content = data@;
        let res = self.mknod(parent, name, Some(data));
        proof {
            if res is Ok {
                assert(self.tree() =~= old(self).tree().push(file_node(parent, label, content)));
            }
        }
        res
    }

    /// What opening `ino` gives: the next descriptor, unless there is no
    /// such inode or no number is left.
    pub open spec fn spec_new_fd(&self, ino: Inode) -> Result<u32, Error> {
        if !(1 <= ino.0 <= self.nodes@.len()) {
            Err(Error::Noent)
        } else if self.next_fd() >= u32::MAX {
            Err(Error::Mfile)
        } else {
            Ok(self.next_fd() as u32)
        }
    }

    /// Opens `ino` under the next descriptor, at position 0.
    pub fn new_fd(&mut self, ino: Inode) -> (res: Result<u32, Error>)
        requires
            old(self).wf(),
        ensures
            final(self).wf(),
            res == old(self).spec_new_fd(ino),
            res is Ok ==> final(self).fds@ == old(self).fds@.push(
                Some(Descriptor { ino, pos: 0 }),
            ),
            res is Err ==> final(self).fds == old(self).fds,
            final(self).nodes == old(self).nodes,
            final(self).preopens == old(self).preopens,
            final(self).stdout == old(self).stdout,
            final(self).stderr == old(self).stderr,
    {
        if ino.0 < 1 || ino.0 as usize > self.nodes.len() {
            return Err(Error::Noent);
        }
        if self.fds.len() >= (u32::MAX - FIRST_FD) as usize {
            return Err(Error::Mfile);
        }
        let fd: u32 = FIRST_FD + self.fds.len() as u32;
        self.fds.push(Some(Descriptor { ino, pos: 0 }));
        Ok(fd)
    }

    /// Looks up what `fd` stands for.
    pub fn get_descriptor(&self, fd: u32) -> (res: Option<Descriptor>)
        ensures
            res == self.descriptor(fd),
    {
        if fd < FIRST_FD {
            return None;
        }
        let at: usize = (fd - FIRST_FD) as usize;
        if at >= self.fds.len() {
            return None;
        }
        self.fds[at]
    }

    /// Whether `fd` can be read and moved about: it is open and stands for a
    /// file.
    pub open spec fn spec_file_of(&self, fd: u32) -> Result<Descriptor, Error> {
        match self.descriptor(fd) {
            None => Err(Error::Badf),
            Some(d) => if self.is_file(d.ino) {
                Ok(d)
            } else {
                Err(Error::Isdir)
            },
        }
    }

    /// A cursor over the file that `fd` stands for, at the descriptor's
    /// position.
    pub fn get_file_cursor(&self, fd: u32) -> (res: Result<FileCursor<'_>, Error>)
        requires
            self.wf(),
        ensures
            match res {
                Ok(cursor) => self.spec_file_of(fd) is Ok && cursor.pos == self.spec_file_of(
                    fd,
                )->Ok_0.pos && cursor.data@ == self.file_data(self.spec_file_of(fd)->Ok_0.ino),
                Err(e) => self.spec_file_of(fd) == Err::<Descriptor, Error>(e),
            },
    {
        let d = match self.get_descriptor(fd) {
            None => { return Err(Error::Badf); },
            Some(d) => d,
        };
        assert(self.fds@[fd - FIRST_FD] == Some(d));
        match &self.nodes[d.ino.0 as usize - 1].data {
            None => Err(Error::Isdir),
            Some(data) => Ok(FileCursor { data, pos: d.pos }),
        }
    }

    /// The size of the file that `fd` stands for. A directory has none.
    pub fn file_size(&self, fd: u32) -> (res: Result<u64, Error>)
        requires
            self.wf(),
        ensures
            match self.spec_file_of(fd) {
                Ok(d) => res == Ok::<u64, Error>(self.file_data(d.ino).len() as u64),
                Err(e) => res == Err::<u64, Error>(e),
            },
    {
        match self.get_file_cursor(fd) {
            Err(e) => Err(e),
            Ok(cursor) => Ok(cursor.data.len() as u64),
        }
    }

    /// Records how far `fd` has read. Says whether `fd` is open; if it is
    /// not, nothing changes.
    pub fn set_position(&mut self, fd: u32, pos: u64) -> (open: bool)
        requires
            old(self).wf(),
        ensures
            final(self).wf(),
            open == old(self).descriptor(fd) is Some,
            open ==> final(self).fds@ == old(self).fds@.update(
                fd - FIRST_FD,
                Some(Descriptor { ino: old(self).descriptor(fd)->Some_0.ino, pos }),
            ),
            !open ==> final(self).fds == old(self).fds,
            final(self).nodes == old(self).nodes,
            final(self).preopens == old(self).preopens,
            final(self).stdout == old(self).stdout,
            final(self).stderr == old(self).stderr,
    {
        match self.get_descriptor(fd) {
            None => false,
            Some(d) => {
                let at: usize = (fd - FIRST_FD) as usize;
                assert(self.fds@[at as int] == Some(d));
                self.fds.set(at, Some(Descriptor { ino: d.ino, pos }));
                true
            },
        }
    }

    /// Why the mount points cannot be computed, if they cannot: a
    /// descriptor was handed out already, an entry of the root is a file, or
    /// the descriptors run out.
    pub open spec fn spec_preopen_check(&self) -> Result<(), Error> {
        if self.fds@.len() > 0 {
            Err(Error::Busy)
        } else if root_holds_file(self.nodes@, self.nodes@.len() as int) {
            Err(Error::Notdir)
        } else {
            Ok(())
        }
    }

    /// Opens every entry of the root as a mount point: the entries in the
    /// order they were made, under the descriptors from `FIRST_FD` on with
    /// none left out, each named by a slash and the entry's name.
    pub fn calculate_preopens(&mut self) -> (res: Result<(), Error>)
        requires
            old(self).wf(),
        ensures
            final(self).wf(),
            res == old(self).spec_preopen_check(),
            final(self).nodes == old(self).nodes,
            final(self).stdout == old(self).stdout,
            final(self).stderr == old(self).stderr,
            res is Err ==> final(self).fds == old(self).fds && final(self).preopens == old(
                self,
            ).preopens,
            res is Ok ==> final(self).fds@.len() == final(self).preopens@.len(),
            res is Ok ==> final(self).fds@.len() == root_entries(
                old(self).nodes@,
                old(self).nodes@.len() as int,
            ).len(),
            res is Ok ==> forall|k: int|
                0 <= k < final(self).fds@.len() ==> #[trigger] mounts(
                    old(self).nodes@,
                    root_entries(old(self).nodes@, old(self).nodes@.len() as int)[k],
                    final(self).fds@[k],
                    final(self).preopens@[k]@,
                ),
    {
        if self.fds.len() > 0 {
            return Err(Error::Busy);
        }
        let mut fds: Vec<Option<Descriptor>> = Vec::new();
        let mut names: Vec<Vec<u8>> = Vec::new();
        let mut i: usize = 1;
        while i < self.nodes.len()
            invariant
                self.wf(),
                *self == *old(self),
                self.fds@.len() == 0,
                1 <= i <= self.nodes@.len(),
                !root_holds_file(self.nodes@, i as int),
                fds@.len() == names@.len(),
                fds@.len() == root_entries(self.nodes@, i as int).len(),
                fds@.len() < i,
                forall|k: int|
                    0 <= k < fds@.len() ==> #[trigger] mounts(
                        self.nodes@,
                        root_entries(self.nodes@, i as int)[k],
                        fds@[k],
                        names@[k]@,
                    ),
            decreases self.nodes@.len() - i,
        {
            let ghost fds0 = fds@;
            let ghost names0 = names@;
            let ghost before = root_entries(self.nodes@, i as int);
            let ghost after = root_entries(self.nodes@, i + 1);
            proof {
                assert(after == if self.nodes@[i as int].parent == 1 {
                    before.push(i as int)
                } else {
                    before
                });
            }
            if self.nodes[i].parent == 1 {
                if self.nodes[i].data.is_some() {
                    proof {
                        let node = self.nodes@[i as int];
                        assert(node.parent == 1 && node.data is Some);
                        assert(root_holds_file(self.nodes@, self.nodes@.len() as int));
                    }
                    return Err(Error::Notdir);
                }
                let mut name: Vec<u8> = Vec::new();
                name.push(47u8);
                append_bytes(&mut name, self.nodes[i].name.as_slice());
                proof {
                    assert(name@ =~= mount_name(self.nodes@[i as int].name@));
                }
                fds.push(Some(Descriptor { ino: Inode((i + 1) as u32), pos: 0 }));
                names.push(name);
            }
            proof {
                assert forall|k: int| 0 <= k < fds@.len() implies #[trigger] mounts(
                    self.nodes@,
                    after[k],
                    fds@[k],
                    names@[k]@,
                ) by {
                    if k < fds0.len() {
                        assert(mounts(self.nodes@, before[k], fds0[k], names0[k]@));
                    }
                }
            }
            i = i + 1;
        }
        self.fds = fds;
        self.preopens = names;
        proof {
            assert forall|k: int| 0 <= k < self.preopens@.len() implies (#[trigger] self.fds@[k])
                is Some && self.is_dir(self.fds@[k]->Some_0.ino) by {
                assert(mounts(
                    self.nodes@,
                    root_entries(self.nodes@, self.nodes@.len() as int)[k],
                    self.fds@[k],
                    self.preopens@[k]@,
                ));
            }
        }
        Ok(())
    }

    /// Whether `ino` is a directory.
    pub fn is_directory(&self, ino: Inode) -> (b: bool)
        ensures
            b == self.is_dir(ino),
    {
        1 <= ino.0 && ino.0 as usize <= self.nodes.len() && self.nodes[ino.0 as usize
            - 1].data.is_none()
    }

    /// Where the way through the entries `segs` leads, one after the other,
    /// from `dir` on. It stops at the first step that is not taken from a
    /// directory, or that names no entry.
    pub open spec fn spec_walk(&self, dir: Inode, segs: Seq<Seq<u8>>) -> Result<Inode, Error>
        decreases segs.len(),
    {
        if segs.len() == 0 {
            Ok(dir)
        } else {
            match self.spec_walk(dir, segs.drop_last()) {
                Err(e) => Err(e),
                Ok(at) => if !self.is_dir(at) {
                    Err(Error::Notdir)
                } else {
                    match self.spec_lookup(at, segs.last()) {
                        None => Err(Error::Noent),
                        Some(next) => Ok(next),
                    }
                },
            }
        }
    }

    /// The inode that `path` names under `dir`. A path without a segment
    /// names nothing.
    pub open spec fn spec_resolve(&self, dir: Inode, path: Seq<u8>) -> Result<Inode, Error> {
        if segments(path).len() == 0 {
            Err(Error::Noent)
        } else {
            self.spec_walk(dir, segments(path))
        }
    }

    /// A way that has failed after `n` steps has failed for good.
    pub proof fn lemma_walk_fails_for_good(&self, dir: Inode, segs: Seq<Seq<u8>>, n: int)
        requires
            0 <= n <= segs.len(),
            self.spec_walk(dir, segs.take(n)) is Err,
        ensures
            self.spec_walk(dir, segs) == self.spec_walk(dir, segs.take(n)),
        decreases segs.len() - n,
    {
        if n < segs.len() {
            assert(segs.take(n + 1).drop_last() =~= segs.take(n));
            self.lemma_walk_fails_for_good(dir, segs, n + 1);
        } else {
            assert(segs.take(n) =~= segs);
        }
    }

    /// Finds the inode that `path` names under `dir`.
    pub fn resolve(&self, dir: Inode, path: &[u8]) -> (res: Result<Inode, Error>)
        requires
            self.wf(),
        ensures
            res == self.spec_resolve(dir, path@),
            res is Ok ==> 1 <= res->Ok_0.0 <= self.nodes@.len(),
    {
        let segs = split(path);
        if segs.len() == 0 {
            return Err(Error::Noent);
        }
        let ghost names = views(segs@);
        let mut at: Inode = dir;
        let mut i: usize = 0;
        proof {
            assert(names.take(0) =~= Seq::<Seq<u8>>::empty());
        }
        while i < segs.len()
            invariant
                self.wf(),
                i <= segs@.len(),
                names == views(segs@),
                names == segments(path@),
                names.len() > 0,
                self.spec_walk(dir, names.take(i as int)) == Ok::<Inode, Error>(at),
                i > 0 ==> 1 <= at.0 <= self.nodes@.len(),
            decreases segs@.len() - i,
        {
            proof {
                assert(names.take(i + 1).drop_last() =~= names.take(i as int));
                assert(names.take(i + 1).last() == segs@[i as int]@);
            }
            if !self.is_directory(at) {
                proof {
                    self.lemma_walk_fails_for_good(dir, names, i + 1);
                }
                return Err(Error::Notdir);
            }
            match self.lookup(at, segs[i].as_slice()) {
                None => {
                    proof {
                        self.lemma_walk_fails_for_good(dir, names, i + 1);
                    }
                    return Err(Error::Noent);
                },
                Some(next) => {
                    at = next;
                },
            }
            i = i + 1;
        }
        proof {
            assert(names.take(i as int) =~= names);
        }
        Ok(at)
    }

    /// Whether a new file can be put under `at` along the entries `segs`:
    /// the way must lead through directories, and where all of it is there
    /// already the name is taken. From the first entry that is missing on,
    /// everything is made.
    pub open spec fn spec_place(&self, at: Inode, segs: Seq<Seq<u8>>) -> Result<(), Error>
        decreases segs.len(),
    {
        if segs.len() == 0 {
            Ok(())
        } else if !self.is_dir(at) {
            Err(Error::Notdir)
        } else {
            match self.spec_lookup(at, segs[0]) {
                None => Ok(()),
                Some(next) => if segs.len() == 1 {
                    Err(Error::Exist)
                } else {
                    self.spec_place(next, segs.drop_first())
                },
            }
        }
    }

    /// Whether a file can be added at `path` under `dir`. The tree must not
    /// be frozen yet, the path must have a segment, and there must be room
    /// for one inode for each segment.
    pub open spec fn spec_add_file(&self, dir: Inode, path: Seq<u8>) -> Result<(), Error> {
        if self.fds@.len() > 0 {
            Err(Error::Perm)
        } else if segments(path).len() == 0 {
            Err(Error::Inval)
        } else if self.nodes@.len() + segments(path).len() > MAX_INODES {
            Err(Error::Nospc)
        } else {
            self.spec_place(dir, segments(path))
        }
    }

    /// An entry that is there stays the same entry when the tree grows.
    pub proof fn lemma_growth_keeps_entry(&self, after: &ROFilesystem, dir: Inode, name: Seq<u8>)
        requires
            tree_wf(self.nodes@),
            tree_wf(after.nodes@),
            grown(self.nodes@, after.nodes@),
            self.spec_lookup(dir, name) is Some,
        ensures
            after.spec_lookup(dir, name) == self.spec_lookup(dir, name),
    {
        let i = choose|i: int| is_entry(self.nodes@, i, dir.0, name);
        assert(after.nodes@[i] == after.nodes@.subrange(0, self.nodes@.len() as int)[i]);
        assert(is_entry(after.nodes@, i, dir.0, name));
        let j = choose|j: int| is_entry(after.nodes@, j, dir.0, name);
        if i < j {
            assert(distinct(after.nodes@, i, j));
        } else if j < i {
            assert(distinct(after.nodes@, j, i));
        }
    }

    /// A way that leads somewhere leads to the same place when the tree
    /// grows.
    pub proof fn lemma_growth_keeps_walk(&self, after: &ROFilesystem, dir: Inode, segs: Seq<Seq<u8>>)
        requires
            tree_wf(self.nodes@),
            tree_wf(after.nodes@),
            grown(self.nodes@, after.nodes@),
            self.spec_walk(dir, segs) is Ok,
        ensures
            after.spec_walk(dir, segs) == self.spec_walk(dir, segs),
        decreases segs.len(),
    {
        if segs.len() > 0 {
            self.lemma_growth_keeps_walk(after, dir, segs.drop_last());
            let at = self.spec_walk(dir, segs.drop_last())->Ok_0;
            assert(after.nodes@[at.0 - 1] == after.nodes@.subrange(
                0,
                self.nodes@.len() as int,
            )[at.0 - 1]);
            self.lemma_growth_keeps_entry(after, at, segs.last());
        }
    }

    /// Adds a file that holds `data` at `path` under `dir`. The directories
    /// on the way that are missing are made. On an error nothing changes.
    pub fn add_file(&mut self, dir: Inode, path: &[u8], data: Vec<u8>) -> (res: Result<
        Inode,
        Error,
    >)
        requires
            old(self).wf(),
        ensures
            final(self).wf(),
            match res {
                Ok(ino) => {
                    &&& old(self).spec_add_file(dir, path@) is Ok
                    &&& grown(old(self).nodes@, final(self).nodes@)
                    &&& below(old(self).nodes@, final(self).nodes@, dir)
                    &&& only_directories(
                        final(self).nodes@,
                        old(self).nodes@.len() as int,
                        final(self).nodes@.len() - 1,
                    )
                    &&& final(self).nodes@.len() <= old(self).nodes@.len() + segments(path@).len()
                    &&& ino.0 == final(self).nodes@.len()
                    &&& final(self).tree() == with_file(
                        old(self).tree(),
                        dir,
                        segments(path@),
                        data@,
                    )
                    &&& final(self).spec_resolve(dir, path@) == Ok::<Inode, Error>(ino)
                    &&& final(self).is_file(ino)
                    &&& final(self).file_data(ino) == data@
                },
                Err(e) => {
                    &&& old(self).spec_add_file(dir, path@) == Err::<(), Error>(e)
                    &&& final(self).nodes == old(self).nodes
                },
            },
            final(self).fds == old(self).fds,
            final(self).preopens == old(self).preopens,
            final(self).stdout == old(self).stdout,
            final(self).stderr == old(self).stderr,
    {
        if self.fds.len() > 0 {
            return Err(Error::Perm);
        }
        let segs = split(path);
        if segs.len() == 0 {
            return Err(Error::Inval);
        }
        if segs.len() > MAX_INODES as usize || self.nodes.len() > MAX_INODES as usize - segs.len() {
            return Err(Error::Nospc);
        }
        let ghost names = views(segs@);
        let ghost content = data@;
        let mut at: Inode = dir;
        let mut i: usize = 0;
        let mut found: bool = true;
        proof {
            assert(names.skip(0) =~= names);
            assert(names.take(0) =~= Seq::<Seq<u8>>::empty());
        }
        while found && i < segs.len()
            invariant
                *self == *old(self),
                self.wf(),
                self.fds@.len() == 0,
                self.nodes@.len() + names.len() <= MAX_INODES,
                forall|k: int| 0 <= k < segs@.len() ==> plain(#[trigger] segs@[k]@),
                i <= segs@.len(),
                names == views(segs@),
                names == segments(path@),
                names.len() > 0,
                self.spec_walk(dir, names.take(i as int)) == Ok::<Inode, Error>(at),
                self.spec_place(dir, names) == self.spec_place(at, names.skip(i as int)),
                with_file(self.tree(), dir, names, content) == with_file(
                    self.tree(),
                    at,
                    names.skip(i as int),
                    content,
                ),
                at.0 >= dir.0,
                found ==> i < names.len(),
                !found ==> i < names.len() && self.is_dir(at) && self.spec_lookup(
                    at,
                    names[i as int],
                ) is None,
            decreases segs@.len() - i + if found { 1int } else { 0int },
        {
            proof {
                assert(names.skip(i as int)[0] == names[i as int]);
                assert(names.skip(i as int).drop_first() =~= names.skip(i + 1));
                assert(names.take(i + 1).drop_last() =~= names.take(i as int));
                assert(names.take(i + 1).last() == names[i as int]);
                assert(names[i as int] == segs@[i as int]@);
            }
            if !self.is_directory(at) {
                return Err(Error::Notdir);
            }
            match self.lookup(at, segs[i].as_slice()) {
                None => {
                    found = false;
                },
                Some(next) => {
                    if i + 1 == segs.len() {
                        return Err(Error::Exist);
                    }
                    proof {
                        assert(placed(self.nodes@, next.0 - 1));
                        self.lemma_lookup_by_tree(at, names[i as int]);
                    }
                    at = next;
                    i = i + 1;
                },
            }
        }
        let last: usize = segs.len() - 1;
        proof {
            assert(self.nodes@.subrange(0, self.nodes@.len() as int) =~= self.nodes@);
        }
        while i < last
            invariant
                self.wf(),
                old(self).wf(),
                grown(old(self).nodes@, self.nodes@),
                self.fds == old(self).fds,
                self.fds@.len() == 0,
                self.preopens == old(self).preopens,
                self.stdout == old(self).stdout,
                self.stderr == old(self).stderr,
                last + 1 == segs@.len(),
                i <= last,
                forall|k: int| 0 <= k < segs@.len() ==> plain(#[trigger] segs@[k]@),
                names == views(segs@),
                names == segments(path@),
                self.nodes@.len() + (names.len() - i) <= MAX_INODES,
                self.spec_walk(dir, names.take(i as int)) == Ok::<Inode, Error>(at),
                self.is_dir(at),
                self.spec_lookup(at, names[i as int]) is None,
                old(self).spec_place(dir, names) is Ok,
                with_file(old(self).tree(), dir, names, content) == with_file(
                    self.tree(),
                    at,
                    names.skip(i as int),
                    content,
                ),
                content == data@,
                at.0 >= dir.0,
                below(old(self).nodes@, self.nodes@, dir),
                only_directories(
                    self.nodes@,
                    old(self).nodes@.len() as int,
                    self.nodes@.len() as int,
                ),
                self.nodes@.len() <= old(self).nodes@.len() + i,
            decreases last - i,
        {
            let ghost before = *self;
            let name = copy_bytes(segs[i].as_slice());
            proof {
                assert(names[i as int] == segs@[i as int]@);
            }
            proof {
                before.lemma_lookup_by_tree(at, names[i as int]);
                assert(names.skip(i as int)[0] == names[i as int]);
                assert(names.skip(i as int).drop_first() =~= names.skip(i + 1));
            }
            let made = self.mkdir(at, name);
            let next = match made {
                Err(_) => unreached(),
                Ok(next) => next,
            };
            proof {
                assert(self.nodes@.drop_last() =~= before.nodes@);
                self.lemma_entry_made(&before, at, names[i as int]);
                before.lemma_growth_keeps_walk(self, dir, names.take(i as int));
                assert(names.take(i + 1).drop_last() =~= names.take(i as int));
                assert(names.take(i + 1).last() == names[i as int]);
                assert(self.nodes@.subrange(0, old(self).nodes@.len() as int)
                    =~= before.nodes@.subrange(0, old(self).nodes@.len() as int));
                self.lemma_fresh_is_empty(next, names[i + 1]);
            }
            at = next;
            i = i + 1;
        }
        let ghost before = *self;
        let name = copy_bytes(segs[last].as_slice());
        proof {
            assert(names[last as int] == segs@[last as int]@);
        }
        proof {
            assert(names.skip(last as int)[0] == names[last as int]);
            assert(names.skip(last as int).len() == 1);
        }
        let made = self.mkfile(at, name, data);
        proof {
            if made is Ok {
                assert(self.nodes@.drop_last() =~= before.nodes@);
                self.lemma_entry_made(&before, at, names[last as int]);
                before.lemma_growth_keeps_walk(self, dir, names.take(last as int));
                assert(names.take(last + 1).drop_last() =~= names.take(last as int));
                assert(names.take(last + 1).last() == names[last as int]);
                assert(names.take(last + 1) =~= names);
                assert(self.nodes@.subrange(0, old(self).nodes@.len() as int)
                    =~= before.nodes@.subrange(0, old(self).nodes@.len() as int));
            }
        }
        made
    }

    /// After an entry called `name` was made in `dir` it is what `name`
    /// stands for there, and the tree has grown by it.
    pub proof fn lemma_entry_made(&self, before: &ROFilesystem, dir: Inode, name: Seq<u8>)
        requires
            tree_wf(before.nodes@),
            tree_wf(self.nodes@),
            self.nodes@.len() == before.nodes@.len() + 1,
            self.nodes@.drop_last() == before.nodes@,
            self.nodes@.last().parent == dir.0,
            self.nodes@.last().name@ == name,
        ensures
            grown(before.nodes@, self.nodes@),
            self.spec_lookup(dir, name) == Some(Inode(self.nodes@.len() as u32)),
    {
        let n = before.nodes@.len() as int;
        assert(self.nodes@.subrange(0, n) =~= self.nodes@.drop_last());
        assert(is_entry(self.nodes@, n, dir.0, name));
        let j = choose|j: int| is_entry(self.nodes@, j, dir.0, name);
        if j < n {
            assert(distinct(self.nodes@, j, n));
        }
    }

    /// The inode that was made last has no entry.
    pub proof fn lemma_fresh_is_empty(&self, fresh: Inode, name: Seq<u8>)
        requires
            tree_wf(self.nodes@),
            fresh.0 == self.nodes@.len(),
        ensures
            self.spec_lookup(fresh, name) is None,
    {
        assert forall|i: int| !is_entry(self.nodes@, i, fresh.0, name) by {
            if 1 <= i < self.nodes@.len() {
                assert(placed(self.nodes@, i));
            }
        }
    }
}

/// A copy of `src`.
pub fn copy_bytes(src: &[u8]) -> (dst: Vec<u8>)
    ensures
        dst@ == src@,
{
    let mut dst: Vec<u8> = Vec::new();
    append_bytes(&mut dst, src);
    proof {
        assert(Seq::<u8>::empty() + src@ =~= src@);
    }
    dst
}

} // verus!
