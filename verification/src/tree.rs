//! The tree of inodes as a mathematical value, and what building a tree
//! from the files of a bundle gives.

use vstd::prelude::*;
use crate::errno::Error;
use crate::fs::{Inode, MAX_INODES};
use crate::path::{lemma_plain_name, lemma_two_names, plain, segments, SEPARATOR};

verus! {

/// One inode by what it holds.
pub struct NodeView {
    /// The number of the directory that holds this inode; 0 for the root.
    pub parent: u32,
    pub name: Seq<u8>,
    /// The contents of a file; `None` for a directory.
    pub data: Option<Seq<u8>>,
}

/// A directory called `name` in the directory `parent`.
pub open spec fn dir_node(parent: Inode, name: Seq<u8>) -> NodeView {
    NodeView { parent: parent.0, name, data: None }
}

/// A file called `name` in the directory `parent` that holds `data`.
pub open spec fn file_node(parent: Inode, name: Seq<u8>, data: Seq<u8>) -> NodeView {
    NodeView { parent: parent.0, name, data: Some(data) }
}

/// Inode `i + 1` of `tree` is the entry called `name` of directory `dir`.
pub open spec fn entry_at(tree: Seq<NodeView>, i: int, dir: u32, name: Seq<u8>) -> bool {
    1 <= i < tree.len() && tree[i].parent == dir && tree[i].name == name
}

/// `ino` is a directory of `tree`.
pub open spec fn dir_in(tree: Seq<NodeView>, ino: Inode) -> bool {
    1 <= ino.0 <= tree.len() && tree[ino.0 - 1].data is None
}

/// The entry called `name` of directory `dir` in `tree`, if it has one.
pub open spec fn entry_of(tree: Seq<NodeView>, dir: Inode, name: Seq<u8>) -> Option<Inode> {
    if exists|i: int| entry_at(tree, i, dir.0, name) {
        let i = choose|i: int| entry_at(tree, i, dir.0, name);
        Some(Inode((i + 1) as u32))
    } else {
        None
    }
}

/// Whether a new file can be put under `at` along the entries `segs`: the
/// way must lead through directories, and where all of it is there already
/// the name is taken.
pub open spec fn place_in(tree: Seq<NodeView>, at: Inode, segs: Seq<Seq<u8>>) -> Result<(), Error>
    decreases segs.len(),
{
    if segs.len() == 0 {
        Ok(())
    } else if !dir_in(tree, at) {
        Err(Error::Notdir)
    } else {
        match entry_of(tree, at, segs[0]) {
            None => Ok(()),
            Some(next) => if segs.len() == 1 {
                Err(Error::Exist)
            } else {
                place_in(tree, next, segs.drop_first())
            },
        }
    }
}

/// Whether a file can be added at `path` under `dir` in a tree that is not
/// frozen: the path must have a segment, there must be room for one inode
/// for each segment, and the file must have a place.
pub open spec fn addable(tree: Seq<NodeView>, dir: Inode, path: Seq<u8>) -> Result<(), Error> {
    if segments(path).len() == 0 {
        Err(Error::Inval)
    } else if tree.len() + segments(path).len() > MAX_INODES {
        Err(Error::Nospc)
    } else {
        place_in(tree, dir, segments(path))
    }
}

/// `tree` with a file that holds `data` added under `at` along the entries
/// `segs`: the way follows the entries that are there, and from the first
/// that is missing on a directory is made for each entry but the last,
/// which is the file.
pub open spec fn with_file(tree: Seq<NodeView>, at: Inode, segs: Seq<Seq<u8>>, data: Seq<u8>) -> Seq<
    NodeView,
>
    decreases segs.len(),
{
    if segs.len() == 0 {
        tree
    } else if segs.len() == 1 {
        tree.push(file_node(at, segs[0], data))
    } else {
        match entry_of(tree, at, segs[0]) {
            Some(next) => with_file(tree, next, segs.drop_first(), data),
            None => with_file(
                tree.push(dir_node(at, segs[0])),
                Inode((tree.len() + 1) as u32),
                segs.drop_first(),
                data,
            ),
        }
    }
}

/// The directory that holds the bundle is inode 2.
pub const WORK_INODE: u32 = 2;

/// The directory that holds the input is inode 3.
pub const DATA_INODE: u32 = 3;

/// The name of the bundle's directory: `work`.
pub open spec fn work_name() -> Seq<u8> {
    seq![119u8, 111u8, 114u8, 107u8]
}

/// The name of the input's directory: `data`.
pub open spec fn data_name() -> Seq<u8> {
    seq![100u8, 97u8, 116u8, 97u8]
}

/// The name of the input file: `map.dat`.
pub open spec fn input_name() -> Seq<u8> {
    seq![109u8, 97u8, 112u8, 46u8, 100u8, 97u8, 116u8]
}

/// The tree of a run before any file of the bundle is added: the root, the
/// two directories in it, and the input.
pub open spec fn base_tree(input: Seq<u8>) -> Seq<NodeView> {
    seq![
        NodeView { parent: 0, name: Seq::empty(), data: None },
        dir_node(Inode(1), work_name()),
        dir_node(Inode(1), data_name()),
        file_node(Inode(DATA_INODE), input_name(), input),
    ]
}

/// The tree that the first `k` files of `files` build, each given by its
/// path and its bytes and added in order under the bundle's directory; or
/// the first file that cannot be added, by its place, with the reason.
pub open spec fn built(files: Seq<(Seq<u8>, Seq<u8>)>, k: nat, input: Seq<u8>) -> Result<
    Seq<NodeView>,
    (int, Error),
>
    decreases k,
{
    if k == 0 {
        Ok(base_tree(input))
    } else {
        match built(files, (k - 1) as nat, input) {
            Err(e) => Err(e),
            Ok(tree) => match addable(tree, Inode(WORK_INODE), files[k - 1].0) {
                Err(e) => Err((k - 1, e)),
                Ok(()) => Ok(
                    with_file(
                        tree,
                        Inode(WORK_INODE),
                        segments(files[k - 1].0),
                        files[k - 1].1,
                    ),
                ),
            },
        }
    }
}

/// A file that cannot be added among the first `n` is the outcome for every
/// longer bundle.
pub proof fn lemma_built_fails_for_good(files: Seq<(Seq<u8>, Seq<u8>)>, n: nat, m: nat, input: Seq<u8>)
    requires
        n <= m,
        built(files, n, input) is Err,
    ensures
        built(files, m, input) == built(files, n, input),
    decreases m,
{
    if n < m {
        lemma_built_fails_for_good(files, n, (m - 1) as nat, input);
    }
}

/// The tree of a bundle of `k` files that all lie in the bundle's directory
/// itself: the base, and the files after it in their order.
pub open spec fn flat_tree(files: Seq<(Seq<u8>, Seq<u8>)>, k: nat, input: Seq<u8>) -> Seq<NodeView> {
    base_tree(input) + Seq::new(
        k,
        |j: int| file_node(Inode(WORK_INODE), files[j].0, files[j].1),
    )
}

/// The paths of `files` are plain names, no two the same.
pub open spec fn flat_and_distinct(files: Seq<(Seq<u8>, Seq<u8>)>) -> bool {
    &&& forall|k: int| 0 <= k < files.len() ==> plain(#[trigger] files[k].0)
    &&& forall|j: int, k: int|
        0 <= j < k < files.len() ==> (#[trigger] files[j]).0 != (#[trigger] files[k]).0
}

/// In the tree of a flat bundle the bundle's directory holds the files of
/// the bundle under their names and nothing else.
pub proof fn lemma_flat_entries(files: Seq<(Seq<u8>, Seq<u8>)>, k: nat, input: Seq<u8>, name: Seq<u8>)
    requires
        k <= files.len(),
        flat_and_distinct(files),
        4 + k <= MAX_INODES,
    ensures
        dir_in(flat_tree(files, k, input), Inode(WORK_INODE)),
        match entry_of(flat_tree(files, k, input), Inode(WORK_INODE), name) {
            Some(ino) => 5 <= ino.0 <= 4 + k && files[ino.0 - 5].0 == name && flat_tree(
                files,
                k,
                input,
            )[ino.0 - 1] == file_node(Inode(WORK_INODE), name, files[ino.0 - 5].1),
            None => forall|j: int| 0 <= j < k ==> (#[trigger] files[j]).0 != name,
        },
{
    let tree = flat_tree(files, k, input);
    assert(tree[1] == base_tree(input)[1]);
    assert(tree[2] == base_tree(input)[2]);
    assert(tree[3] == base_tree(input)[3]);
    assert forall|j: int| 0 <= j < k implies #[trigger] tree[4 + j] == file_node(
        Inode(WORK_INODE),
        files[j].0,
        files[j].1,
    ) by {}
    if exists|i: int| entry_at(tree, i, WORK_INODE, name) {
        let i = choose|i: int| entry_at(tree, i, WORK_INODE, name);
        assert(i >= 4);
        assert(tree[4 + (i - 4)] == file_node(
            Inode(WORK_INODE),
            files[i - 4].0,
            files[i - 4].1,
        ));
    } else {
        assert forall|j: int| 0 <= j < k implies (#[trigger] files[j]).0 != name by {
            assert(tree[4 + j] == file_node(Inode(WORK_INODE), files[j].0, files[j].1));
            assert(!entry_at(tree, 4 + j, WORK_INODE, name));
        }
    }
}

/// A bundle whose paths are plain names, no two the same, is built without
/// fail as long as there is room: the tree is the base with the files after
/// it, each in the bundle's directory under its name.
pub proof fn lemma_flat_bundle(files: Seq<(Seq<u8>, Seq<u8>)>, k: nat, input: Seq<u8>)
    requires
        k <= files.len(),
        flat_and_distinct(files),
        4 + k <= MAX_INODES,
    ensures
        built(files, k, input) == Ok::<Seq<NodeView>, (int, Error)>(flat_tree(files, k, input)),
    decreases k,
{
    if k == 0 {
        assert(flat_tree(files, 0, input) =~= base_tree(input));
    } else {
        let before = (k - 1) as nat;
        lemma_flat_bundle(files, before, input);
        let tree = flat_tree(files, before, input);
        let path = files[k - 1].0;
        lemma_plain_name(path);
        lemma_flat_entries(files, before, input, path);
        assert(entry_of(tree, Inode(WORK_INODE), path) is None) by {
            if entry_of(tree, Inode(WORK_INODE), path) is Some {
                let ino = entry_of(tree, Inode(WORK_INODE), path)->Some_0;
                assert(files[ino.0 - 5].0 != files[k - 1].0);
            }
        }
        assert(seq![path][0] == path);
        assert(with_file(tree, Inode(WORK_INODE), seq![path], files[k - 1].1) =~= flat_tree(
            files,
            k,
            input,
        ));
    }
}

/// A file `name` in a directory `dir` of the bundle: where the bundle holds
/// one file, at the path of the two plain names with a separator between
/// them, the tree is the base with the directory `dir` made in the
/// bundle's directory and the file `name` in it. The bundle's directory
/// gets no entry under the whole path.
pub proof fn lemma_nested_entry(dir: Seq<u8>, name: Seq<u8>, data: Seq<u8>, input: Seq<u8>)
    requires
        plain(dir),
        plain(name),
    ensures
        built(seq![(dir + seq![SEPARATOR] + name, data)], 1, input) == Ok::<
            Seq<NodeView>,
            (int, Error),
        >(
            base_tree(input).push(dir_node(Inode(WORK_INODE), dir)).push(
                file_node(Inode(5), name, data),
            ),
        ),
{
    let path = dir + seq![SEPARATOR] + name;
    let files = seq![(path, data)];
    let base = base_tree(input);
    lemma_two_names(dir, name);
    let segs = segments(path);
    assert(segs[0] == dir && segs[1] == name);
    assert(segs.drop_first() =~= seq![name]);
    assert(built(files, 0, input) == Ok::<Seq<NodeView>, (int, Error)>(base));
    assert(files[0] == (path, data));
    assert forall|i: int| !entry_at(base, i, WORK_INODE, dir) by {}
    assert(entry_of(base, Inode(WORK_INODE), dir) is None);
    assert(dir_in(base, Inode(WORK_INODE)));
    assert(place_in(base, Inode(WORK_INODE), segs) == Ok::<(), Error>(()));
    let grown = base.push(dir_node(Inode(WORK_INODE), dir));
    assert(seq![name][0] == name);
    assert(with_file(grown, Inode(5), seq![name], data) == grown.push(
        file_node(Inode(5), name, data),
    ));
    assert(with_file(base, Inode(WORK_INODE), segs, data) == with_file(
        grown,
        Inode(5),
        segs.drop_first(),
        data,
    ));
}

} // verus!
