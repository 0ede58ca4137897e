//! One run of a plugin, but for the engine: what the guest finds when it
//! starts, and what the host makes of what the guest leaves behind.

use vstd::prelude::*;
use crate::errno::{Error, Trap};
use crate::fs::{
    below, bytes_eq, copy_bytes, grown, is_entry, mount_name, mounts, root_entries, root_holds_file, tree_wf,
    Descriptor, Inode, Node, ROFilesystem,
};
use crate::path::{lemma_plain_name, plain, segments};
use crate::fs::MAX_INODES;
use crate::tree::{
    base_tree, built, data_name, flat_and_distinct, flat_tree, input_name,
    lemma_built_fails_for_good, lemma_flat_entries, work_name, NodeView, DATA_INODE, WORK_INODE,
};

verus! {

/// One file of a plugin bundle.
pub struct BundleEntry {
    pub path: Vec<u8>,
    pub data: Vec<u8>,
}

/// The files that a tar archive holds, each with its path and its bytes, in
/// the order of the archive; `None` where the bytes are no archive that can
/// be read to its end.
pub uninterp spec fn archive_contents(bytes: Seq<u8>) -> Option<Seq<(Seq<u8>, Seq<u8>)>>;

/// The paths and bytes of `entries`.
pub open spec fn entry_views(entries: Seq<BundleEntry>) -> Seq<(Seq<u8>, Seq<u8>)> {
    entries.map_values(|e: BundleEntry| (e.path@, e.data@))
}

/// `tar::Archive::entries` on the bytes of an archive, with
/// `Entry::path_bytes` and the bytes read from each entry: the files of the
/// archive in order, or nothing where the archive or one of its entries
/// cannot be read.
#[verifier::external_body]
fn read_archive(bytes: &[u8]) -> (res: Option<Vec<BundleEntry>>)
    ensures
        match res {
            Some(entries) => archive_contents(bytes@) == Some(entry_views(entries@)),
            None => archive_contents(bytes@) is None,
        },
{
    let mut archive = tar::Archive::new(bytes);
    let mut entries = Vec::new();
    for entry in archive.entries().ok()? {
        let mut entry = entry.ok()?;
        let path = entry.path_bytes().into_owned();
        let mut data = Vec::new();
        std::io::Read::read_to_end(&mut entry, &mut data).ok()?;
        entries.push(BundleEntry { path, data });
    }
    Some(entries)
}

/// The files `entries` with `script` in the place of every file at `path`:
/// the same paths in the same order, and the bytes of the others as they
/// were.
pub fn with_script(entries: &Vec<BundleEntry>, path: &[u8], script: &[u8]) -> (out: Vec<
    BundleEntry,
>)
    ensures
        out@.len() == entries@.len(),
        forall|k: int|
            0 <= k < entries@.len() ==> (#[trigger] out@[k]).path@ == entries@[k].path@
                && out@[k].data@ == if entries@[k].path@ == path@ {
                script@
            } else {
                entries@[k].data@
            },
{
    let mut out: Vec<BundleEntry> = Vec::new();
    let mut i: usize = 0;
    while i < entries.len()
        invariant
            i <= entries@.len(),
            out@.len() == i,
            forall|k: int|
                0 <= k < i ==> (#[trigger] out@[k]).path@ == entries@[k].path@ && out@[k].data@
                    == if entries@[k].path@ == path@ {
                    script@
                } else {
                    entries@[k].data@
                },
        decreases entries@.len() - i,
    {
        let replace = bytes_eq(entries[i].path.as_slice(), path);
        let data = if replace {
            copy_bytes(script)
        } else {
            copy_bytes(entries[i].data.as_slice())
        };
        out.push(BundleEntry { path: copy_bytes(entries[i].path.as_slice()), data });
        i = i + 1;
    }
    out
}

/// What one member of a JSON object is, as far as a result cares.
pub enum Member {
    String(String),
    /// A number, as the text that JSON writes for it.
    Number(String),
    /// Anything else: null, a truth value, an array or an object.
    Other,
}

/// A member by its text.
pub enum MemberView {
    String(Seq<char>),
    Number(Seq<char>),
    Other,
}

impl View for Member {
    type V = MemberView;

    open spec fn view(&self) -> MemberView {
        match self {
            Member::String(s) => MemberView::String(s@),
            Member::Number(n) => MemberView::Number(n@),
            Member::Other => MemberView::Other,
        }
    }
}

/// The members of the JSON object that `bytes` spell, each with its key, in
/// the order of their keys and each key once; `None` where the bytes are not
/// one JSON object.
pub uninterp spec fn json_members(bytes: Seq<u8>) -> Option<Seq<(Seq<char>, MemberView)>>;

/// The keys and members of `members` by their text.
pub open spec fn member_views(members: Seq<(String, Member)>) -> Seq<(Seq<char>, MemberView)> {
    members.map_values(|m: (String, Member)| (m.0@, m.1@))
}

/// `serde_json::from_slice` into a map from keys to values: the members of
/// the object, or nothing where the bytes are not one JSON object.
#[verifier::external_body]
pub(crate) fn parse_object(bytes: &[u8]) -> (res: Option<Vec<(String, Member)>>)
    ensures
        match res {
            Some(members) => json_members(bytes@) == Some(member_views(members@)),
            None => json_members(bytes@) is None,
        },
{
    let map: std::collections::BTreeMap<String, serde_json::Value> = serde_json::from_slice(
        bytes,
    ).ok()?;
    Some(map.into_iter().map(|(key, value)| (key, match value {
        serde_json::Value::String(s) => Member::String(s),
        serde_json::Value::Number(n) => Member::Number(n.to_string()),
        serde_json::Value::Null => Member::Other,
        serde_json::Value::Bool(_) => Member::Other,
        serde_json::Value::Array(_) => Member::Other,
        serde_json::Value::Object(_) => Member::Other,
    })).collect())
}

/// One value of a result: a string or a number.
#[derive(Debug, PartialEq, Eq)]
pub enum AnalysisValue {
    String(String),
    /// A number, as the text that JSON writes for it.
    Number(String),
}

impl View for AnalysisValue {
    type V = MemberView;

    open spec fn view(&self) -> MemberView {
        match self {
            AnalysisValue::String(s) => MemberView::String(s@),
            AnalysisValue::Number(n) => MemberView::Number(n@),
        }
    }
}

/// Why what the guest printed is no result.
#[derive(Debug, PartialEq, Eq)]
pub enum AnalysisError {
    /// The output is not one JSON object.
    Malformed,
    /// The member under this key is neither a string nor a number.
    WrongType(String),
}

/// The keys and values of `entries` by their text.
pub open spec fn value_views(entries: Seq<(String, AnalysisValue)>) -> Seq<
    (Seq<char>, MemberView),
> {
    entries.map_values(|e: (String, AnalysisValue)| (e.0@, e.1@))
}

/// The first of `members` that is neither a string nor a number, if there is
/// one.
pub open spec fn first_other(members: Seq<(Seq<char>, MemberView)>) -> Option<int>
    decreases members.len(),
{
    if members.len() == 0 {
        None
    } else {
        match first_other(members.drop_last()) {
            Some(i) => Some(i),
            None => if members.last().1 is Other {
                Some(members.len() - 1)
            } else {
                None
            },
        }
    }
}

/// Turns the members of an object into a result: all of them, as they are,
/// unless one is neither a string nor a number; then the first such member
/// is the error.
pub fn analysis_result(members: &Vec<(String, Member)>) -> (res: Result<
    Vec<(String, AnalysisValue)>,
    AnalysisError,
>)
    ensures
        match res {
            Ok(entries) => first_other(member_views(members@)) is None && value_views(entries@)
                == member_views(members@),
            Err(AnalysisError::WrongType(key)) => first_other(member_views(members@)) is Some
                && key@ == members@[first_other(member_views(members@))->Some_0].0@,
            Err(AnalysisError::Malformed) => false,
        },
{
    let mut entries: Vec<(String, AnalysisValue)> = Vec::new();
    let mut i: usize = 0;
    let ghost all = member_views(members@);
    proof {
        assert(all.take(0) =~= Seq::<(Seq<char>, MemberView)>::empty());
        assert(value_views(entries@) =~= all.take(0));
    }
    while i < members.len()
        invariant
            i <= members@.len(),
            all == member_views(members@),
            first_other(all.take(i as int)) is None,
            value_views(entries@) == all.take(i as int),
        decreases members@.len() - i,
    {
        let ghost done = entries@;
        proof {
            assert(all.take(i + 1).drop_last() =~= all.take(i as int));
            assert(all.take(i + 1).last() == all[i as int]);
            assert(all[i as int] == (members@[i as int].0@, members@[i as int].1@));
        }
        let key = members[i].0.clone();
        let value = match &members[i].1 {
            Member::String(s) => AnalysisValue::String(s.clone()),
            Member::Number(n) => AnalysisValue::Number(n.clone()),
            Member::Other => {
                proof {
                    lemma_first_other_stays(all, i + 1);
                }
                return Err(AnalysisError::WrongType(key));
            },
        };
        entries.push((key, value));
        proof {
            assert(value_views(entries@) =~= value_views(done).push(all[i as int]));
            assert(all.take(i + 1) =~= all.take(i as int).push(all[i as int]));
        }
        i = i + 1;
    }
    proof {
        assert(all.take(i as int) =~= all);
    }
    Ok(entries)
}

/// The first member of the wrong kind among the first `n` is the first among
/// all.
pub proof fn lemma_first_other_stays(members: Seq<(Seq<char>, MemberView)>, n: int)
    requires
        0 <= n <= members.len(),
        first_other(members.take(n)) is Some,
    ensures
        first_other(members) == first_other(members.take(n)),
    decreases members.len() - n,
{
    if n < members.len() {
        assert(members.take(n + 1).drop_last() =~= members.take(n));
        lemma_first_other_stays(members, n + 1);
    } else {
        assert(members.take(n) =~= members);
    }
}

/// What the output `stdout` of a guest means: the members of the JSON
/// object it spells, where each is a string or a number.
pub open spec fn spec_parse_output(stdout: Seq<u8>) -> Result<
    Seq<(Seq<char>, MemberView)>,
    Option<Seq<char>>,
> {
    match json_members(stdout) {
        None => Err(None),
        Some(members) => match first_other(members) {
            Some(i) => Err(Some(members[i].0)),
            None => Ok(members),
        },
    }
}

/// Reads the result that a guest printed.
pub fn parse_output(stdout: &[u8]) -> (res: Result<Vec<(String, AnalysisValue)>, AnalysisError>)
    ensures
        match res {
            Ok(entries) => spec_parse_output(stdout@) == Ok::<
                Seq<(Seq<char>, MemberView)>,
                Option<Seq<char>>,
            >(value_views(entries@)),
            Err(AnalysisError::Malformed) => spec_parse_output(stdout@) == Err::<
                Seq<(Seq<char>, MemberView)>,
                Option<Seq<char>>,
            >(None),
            Err(AnalysisError::WrongType(key)) => spec_parse_output(stdout@) == Err::<
                Seq<(Seq<char>, MemberView)>,
                Option<Seq<char>>,
            >(Some(key@)),
        },
{
    match parse_object(stdout) {
        None => Err(AnalysisError::Malformed),
        Some(members) => {
            proof {
                let all = member_views(members@);
                if first_other(all) is Some {
                    lemma_first_other_in_range(all);
                }
            }
            analysis_result(&members)
        },
    }
}

/// The first member of the wrong kind is one of the members.
pub proof fn lemma_first_other_in_range(members: Seq<(Seq<char>, MemberView)>)
    requires
        first_other(members) is Some,
    ensures
        0 <= first_other(members)->Some_0 < members.len(),
    decreases members.len(),
{
    if members.len() > 0 && first_other(members.drop_last()) is Some {
        lemma_first_other_in_range(members.drop_last());
    }
}

/// In `fs` the path `path` under `dir` names a file that holds `data`.
pub open spec fn holds_file(fs: ROFilesystem, dir: Inode, path: Seq<u8>, data: Seq<u8>) -> bool {
    &&& fs.spec_resolve(dir, path) is Ok
    &&& fs.is_file(fs.spec_resolve(dir, path)->Ok_0)
    &&& fs.file_data(fs.spec_resolve(dir, path)->Ok_0) == data
}

/// A file that a path names is still what the path names, with the same
/// bytes, when the tree grows.
pub proof fn lemma_growth_keeps_file(
    before: ROFilesystem,
    after: ROFilesystem,
    dir: Inode,
    path: Seq<u8>,
    data: Seq<u8>,
)
    requires
        tree_wf(before.nodes@),
        tree_wf(after.nodes@),
        grown(before.nodes@, after.nodes@),
        holds_file(before, dir, path, data),
    ensures
        holds_file(after, dir, path, data),
{
    before.lemma_growth_keeps_walk(&after, dir, segments(path));
    let ino = before.spec_resolve(dir, path)->Ok_0;
    assert(after.nodes@[ino.0 - 1] == after.nodes@.subrange(0, before.nodes@.len() as int)[ino.0
        - 1]);
}

/// What a guest reads back from a flat bundle: in a filesystem whose tree is
/// that of a bundle of plain names, no two the same, a plain name under the
/// bundle's directory is the file of the bundle that goes by it, with its
/// bytes; any other name is no entry.
pub proof fn lemma_flat_bundle_reads_back(
    fs: ROFilesystem,
    files: Seq<(Seq<u8>, Seq<u8>)>,
    input: Seq<u8>,
    name: Seq<u8>,
)
    requires
        tree_wf(fs.nodes@),
        flat_and_distinct(files),
        4 + files.len() <= MAX_INODES,
        fs.tree() == flat_tree(files, files.len(), input),
        plain(name),
    ensures
        match fs.spec_resolve(Inode(WORK_INODE), name) {
            Ok(ino) => {
                &&& 5 <= ino.0 <= 4 + files.len()
                &&& files[ino.0 - 5].0 == name
                &&& fs.is_file(ino)
                &&& fs.file_data(ino) == files[ino.0 - 5].1
            },
            Err(e) => e == Error::Noent && forall|j: int|
                0 <= j < files.len() ==> (#[trigger] files[j]).0 != name,
        },
{
    let work = Inode(WORK_INODE);
    lemma_plain_name(name);
    let segs = segments(name);
    assert(segs.drop_last() =~= Seq::<Seq<u8>>::empty());
    assert(segs.last() == name);
    assert(fs.spec_walk(work, segs.drop_last()) == Ok::<Inode, Error>(work));
    fs.lemma_dir_by_tree(work);
    fs.lemma_lookup_by_tree(work, name);
    lemma_flat_entries(files, files.len(), input, name);
    if fs.spec_lookup(work, name) is Some {
        let ino = fs.spec_lookup(work, name)->Some_0;
        assert(fs.tree()[ino.0 - 1] == fs.nodes@[ino.0 - 1]@);
    }
}

/// `fs` is what a guest of a run finds: the bundle's directory mounted as
/// `/work` under descriptor 3 and the input's as `/data` under descriptor
/// 4, nothing else open, and nothing printed yet.
pub open spec fn mounted(fs: ROFilesystem) -> bool {
    &&& fs.wf()
    &&& fs.fds@.len() == 2
    &&& fs.preopens@.len() == 2
    &&& fs.fds@[0] == Some(Descriptor { ino: Inode(WORK_INODE), pos: 0 })
    &&& fs.fds@[1] == Some(Descriptor { ino: Inode(DATA_INODE), pos: 0 })
    &&& fs.preopens@[0]@ == mount_name(work_name())
    &&& fs.preopens@[1]@ == mount_name(data_name())
    &&& fs.stdout@.len() == 0
    &&& fs.stderr@.len() == 0
}

/// Why a filesystem could not be built: the entry of the bundle that could
/// not be added, and what was wrong with its path.
#[derive(Debug)]
pub struct BuildError {
    pub entry: usize,
    pub error: Error,
}

/// Builds the filesystem of a run: the files of the bundle under the first
/// mount point, each at its path and added in order, and the input under
/// the second, as `map.dat`. The tree is the one that `built` gives. The
/// first entry that cannot be added, because its path has no segment, is
/// taken or leads through a file, or because there is no room, is reported
/// with that reason, and nothing is built.
pub fn build_filesystem(entries: &Vec<BundleEntry>, input: Vec<u8>) -> (res: Result<
    ROFilesystem,
    BuildError,
>)
    ensures
        match built(entry_views(entries@), entries@.len() as nat, input@) {
            Ok(tree) => res is Ok && res->Ok_0.tree() == tree,
            Err((k, error)) => res is Err && res->Err_0.entry == k && res->Err_0.error == error,
        },
        match res {
            Ok(fs) => {
                &&& mounted(fs)
                &&& holds_file(fs, Inode(DATA_INODE), input_name(), input@)
                &&& forall|k: int|
                    0 <= k < entries@.len() ==> holds_file(
                        fs,
                        Inode(WORK_INODE),
                        (#[trigger] entries@[k]).path@,
                        entries@[k].data@,
                    )
            },
            Err(e) => e.entry < entries@.len(),
        },
{
    let mut fs = ROFilesystem::new();
    let root = fs.root();
    let ghost content = input@;
    let ghost files = entry_views(entries@);
    let name: Vec<u8> = vec![119u8, 111u8, 114u8, 107u8];
    proof {
        assert(name@ =~= work_name());
        assert(plain(work_name()));
    }
    let work = match fs.mkdir(root, name) {
        Ok(ino) => ino,
        Err(_) => unreached(),
    };
    let ghost one = fs;
    proof {
        assert(fs.nodes@[1].name@ =~= work_name());
        assert(work_name()[0] != data_name()[0]);
        assert forall|i: int| !is_entry(fs.nodes@, i, root.0, data_name()) by {}
    }
    let name: Vec<u8> = vec![100u8, 97u8, 116u8, 97u8];
    proof {
        assert(name@ =~= data_name());
        assert(plain(data_name()));
    }
    let data = match fs.mkdir(root, name) {
        Ok(ino) => ino,
        Err(_) => unreached(),
    };
    let ghost two = fs;
    proof {
        assert(fs.nodes@[2].name@ =~= data_name());
        assert(plain(input_name()));
        lemma_plain_name(input_name());
        fs.lemma_fresh_is_empty(data, input_name());
    }
    let name: Vec<u8> = vec![109u8, 97u8, 112u8, 46u8, 100u8, 97u8, 116u8];
    proof {
        assert(name@ =~= input_name());
    }
    match fs.add_file(data, name.as_slice(), input) {
        Ok(_) => {},
        Err(_) => unreached(),
    }
    proof {
        assert(two.nodes@[1] == one.nodes@.push(two.nodes@[2])[1]);
        assert(one.tree() =~= seq![
            (NodeView { parent: 0, name: Seq::empty(), data: None }),
        ].push(crate::tree::dir_node(Inode(1), work_name())));
        assert(fs.tree() =~= base_tree(content));
    }
    let mut i: usize = 0;
    while i < entries.len()
        invariant
            i <= entries@.len(),
            fs.wf(),
            two.wf(),
            two.nodes@.len() == 3,
            two.nodes@[1].parent == 1 && two.nodes@[1].data is None,
            two.nodes@[2].parent == 1 && two.nodes@[2].data is None,
            two.nodes@[1].name@ == work_name(),
            two.nodes@[2].name@ == data_name(),
            grown(two.nodes@, fs.nodes@),
            below(two.nodes@, fs.nodes@, Inode(WORK_INODE)),
            holds_file(fs, Inode(DATA_INODE), input_name(), input@),
            fs.fds@.len() == 0,
            fs.preopens@.len() == 0,
            fs.stdout@.len() == 0,
            fs.stderr@.len() == 0,
            work == Inode(WORK_INODE),
            data == Inode(DATA_INODE),
            content == input@,
            files == entry_views(entries@),
            built(files, i as nat, content) == Ok::<Seq<NodeView>, (int, Error)>(fs.tree()),
            forall|k: int|
                0 <= k < i ==> holds_file(
                    fs,
                    Inode(WORK_INODE),
                    (#[trigger] entries@[k]).path@,
                    entries@[k].data@,
                ),
        decreases entries@.len() - i,
    {
        let ghost before = fs;
        let bytes = copy_bytes(entries[i].data.as_slice());
        proof {
            before.lemma_add_by_tree(work, entries@[i as int].path@);
            assert(files[i as int] == (entries@[i as int].path@, entries@[i as int].data@));
        }
        match fs.add_file(work, entries[i].path.as_slice(), bytes) {
            Ok(_) => {},
            Err(error) => {
                proof {
                    lemma_built_fails_for_good(
                        files,
                        (i + 1) as nat,
                        entries@.len() as nat,
                        content,
                    );
                }
                return Err(BuildError { entry: i, error });
            },
        }
        proof {
            assert(fs.nodes@.subrange(0, 3) =~= before.nodes@.subrange(0, 3));
            assert forall|j: int| 3 <= j < fs.nodes@.len() implies (#[trigger] fs.nodes@[j]).parent
                >= WORK_INODE by {
                if j < before.nodes@.len() {
                    assert(fs.nodes@[j] == fs.nodes@.subrange(0, before.nodes@.len() as int)[j]);
                }
            }
            lemma_growth_keeps_file(before, fs, Inode(DATA_INODE), input_name(), input@);
            assert forall|k: int| 0 <= k < i + 1 implies holds_file(
                fs,
                Inode(WORK_INODE),
                (#[trigger] entries@[k]).path@,
                entries@[k].data@,
            ) by {
                if k < i {
                    lemma_growth_keeps_file(
                        before,
                        fs,
                        Inode(WORK_INODE),
                        entries@[k].path@,
                        entries@[k].data@,
                    );
                }
            }
        }
        i = i + 1;
    }
    proof {
        lemma_root_entries_stable(two.nodes@, fs.nodes@, fs.nodes@.len() as int);
        reveal_with_fuel(root_entries, 4);
        assert(root_entries(two.nodes@, 3) =~= seq![1int, 2int]);
        assert(!root_holds_file(fs.nodes@, fs.nodes@.len() as int)) by {
            assert forall|j: int| 1 <= j < fs.nodes@.len() && (#[trigger] fs.nodes@[j]).parent
                == 1 implies fs.nodes@[j].data is None by {
                if j < 3 {
                    assert(fs.nodes@[j] == fs.nodes@.subrange(0, 3)[j]);
                }
            }
        }
    }
    let ghost full = fs;
    match fs.calculate_preopens() {
        Ok(()) => {},
        Err(_) => unreached(),
    }
    proof {
        assert(mounts(full.nodes@, 1, fs.fds@[0], fs.preopens@[0]@));
        assert(mounts(full.nodes@, 2, fs.fds@[1], fs.preopens@[1]@));
        assert(full.nodes@[1] == full.nodes@.subrange(0, 3)[1]);
        assert(full.nodes@[2] == full.nodes@.subrange(0, 3)[2]);
        assert forall|k: int| 0 <= k < entries@.len() implies holds_file(
            fs,
            Inode(WORK_INODE),
            (#[trigger] entries@[k]).path@,
            entries@[k].data@,
        ) by {
            assert(holds_file(full, Inode(WORK_INODE), entries@[k].path@, entries@[k].data@));
            lemma_same_tree_same_file(full, fs, Inode(WORK_INODE), entries@[k].path@, entries@[k].data@);
        }
        lemma_same_tree_same_file(full, fs, Inode(DATA_INODE), input_name(), input@);
    }
    Ok(fs)
}

/// What a path names depends on the tree alone.
pub proof fn lemma_same_tree_same_file(
    before: ROFilesystem,
    after: ROFilesystem,
    dir: Inode,
    path: Seq<u8>,
    data: Seq<u8>,
)
    requires
        tree_wf(before.nodes@),
        before.nodes == after.nodes,
        holds_file(before, dir, path, data),
    ensures
        holds_file(after, dir, path, data),
{
    assert(before.nodes@.subrange(0, before.nodes@.len() as int) =~= before.nodes@);
    lemma_growth_keeps_file(before, after, dir, path, data);
}

/// The entries of the root stay what they are where the tree grows only
/// below other directories.
pub proof fn lemma_root_entries_stable(before: Seq<Node>, after: Seq<Node>, upto: int)
    requires
        grown(before, after),
        before.len() <= upto <= after.len(),
        forall|j: int| before.len() <= j < after.len() ==> (#[trigger] after[j]).parent != 1,
    ensures
        root_entries(after, upto) == root_entries(before, before.len() as int),
    decreases upto,
{
    if upto > before.len() {
        lemma_root_entries_stable(before, after, upto - 1);
    } else {
        lemma_root_entries_same(before, after, upto);
    }
}

/// The entries of the root among the inodes that two trees share are the
/// same in both.
pub proof fn lemma_root_entries_same(before: Seq<Node>, after: Seq<Node>, upto: int)
    requires
        grown(before, after),
        upto <= before.len(),
    ensures
        root_entries(after, upto) == root_entries(before, upto),
    decreases upto,
{
    if upto > 1 {
        lemma_root_entries_same(before, after, upto - 1);
        assert(after[upto - 1] == after.subrange(0, before.len() as int)[upto - 1]);
    }
}

/// Why a run gave no output.
#[derive(Debug)]
pub enum HostError {
    /// The bundle is no archive that can be read.
    Bundle,
    /// A file of the bundle has no place in the filesystem.
    Filesystem(BuildError),
    /// The guest stopped in a trap; the text says why.
    Trap(String),
}

/// What a run that came to its end left behind.
#[derive(Debug)]
pub struct RunOutput {
    /// What the guest wrote to standard error, as it wrote it.
    pub stderr: Vec<u8>,
    /// What the guest wrote to standard output, read as a result.
    pub result: Result<Vec<(String, AnalysisValue)>, AnalysisError>,
}

/// A plugin: its name, the interpreter that runs it, and the archive of its
/// files.
pub struct AnalysisPlugin {
    pub name: String,
    pub interp: String,
    pub tar_data: Vec<u8>,
}

impl AnalysisPlugin {
    pub fn new(name: String, interp: String, tar_data: Vec<u8>) -> (plugin: AnalysisPlugin)
        ensures
            plugin.name == name,
            plugin.interp == interp,
            plugin.tar_data == tar_data,
    {
        AnalysisPlugin { name, interp, tar_data }
    }

    /// The plugin's name.
    pub fn name(&self) -> (name: &str)
        ensures
            name@ == self.name@,
    {
        self.name.as_str()
    }

    /// The interpreter that runs the plugin.
    pub fn interp(&self) -> (interp: &str)
        ensures
            interp@ == self.interp@,
    {
        self.interp.as_str()
    }

    /// The first half of a run: the filesystem that the guest finds, with
    /// the files of the bundle under `/work` and `map_dat` as
    /// `/data/map.dat`.
    pub fn prepare(&self, map_dat: Vec<u8>) -> (res: Result<ROFilesystem, HostError>)
        ensures
            match archive_contents(self.tar_data@) {
                None => res matches Err(HostError::Bundle),
                Some(files) => match built(files, files.len(), map_dat@) {
                    Ok(tree) => res is Ok && res->Ok_0.tree() == tree,
                    Err((k, error)) => match res {
                        Err(HostError::Filesystem(e)) => e.entry == k && e.error == error,
                        _ => false,
                    },
                },
            },
            match res {
                Ok(fs) => {
                    &&& mounted(fs)
                    &&& holds_file(fs, Inode(DATA_INODE), input_name(), map_dat@)
                    &&& forall|k: int|
                        0 <= k < archive_contents(self.tar_data@)->Some_0.len() ==> holds_file(
                            fs,
                            Inode(WORK_INODE),
                            (#[trigger] archive_contents(self.tar_data@)->Some_0[k]).0,
                            archive_contents(self.tar_data@)->Some_0[k].1,
                        )
                },
                Err(_) => true,
            },
    {
        let entries = match read_archive(self.tar_data.as_slice()) {
            None => { return Err(HostError::Bundle); },
            Some(entries) => entries,
        };
        match build_filesystem(&entries, map_dat) {
            Err(e) => Err(HostError::Filesystem(e)),
            Ok(fs) => {
                proof {
                    let files = archive_contents(self.tar_data@)->Some_0;
                    assert forall|k: int| 0 <= k < files.len() implies holds_file(
                        fs,
                        Inode(WORK_INODE),
                        (#[trigger] files[k]).0,
                        files[k].1,
                    ) by {
                        assert(files[k] == (entries@[k].path@, entries@[k].data@));
                    }
                }
                Ok(fs)
            },
        }
    }

    /// The second half of a run: what the host makes of how the guest
    /// ended. A trap is the host's error. After a normal end the output is
    /// read as a result, and what was written to standard error goes with
    /// it either way.
    pub fn finish(fs: &ROFilesystem, outcome: Result<(), String>) -> (res: Result<
        RunOutput,
        HostError,
    >)
        ensures
            match outcome {
                Err(why) => match res {
                    Err(HostError::Trap(text)) => text == why,
                    _ => false,
                },
                Ok(()) => match res {
                    Ok(out) => {
                        &&& out.stderr@ == fs.stderr@
                        &&& match out.result {
                            Ok(entries) => spec_parse_output(fs.stdout@) == Ok::<
                                Seq<(Seq<char>, MemberView)>,
                                Option<Seq<char>>,
                            >(value_views(entries@)),
                            Err(AnalysisError::Malformed) => spec_parse_output(fs.stdout@) == Err::<
                                Seq<(Seq<char>, MemberView)>,
                                Option<Seq<char>>,
                            >(None),
                            Err(AnalysisError::WrongType(key)) => spec_parse_output(fs.stdout@)
                                == Err::<Seq<(Seq<char>, MemberView)>, Option<Seq<char>>>(
                                Some(key@),
                            ),
                        }
                    },
                    Err(_) => false,
                },
            },
    {
        match outcome {
            Err(why) => Err(HostError::Trap(why)),
            Ok(()) => Ok(
                RunOutput {
                    stderr: copy_bytes(fs.stderr.as_slice()),
                    result: parse_output(fs.stdout.as_slice()),
                },
            ),
        }
    }
}

} // verus!
