use bsmeta::errno::Error;
use bsmeta::fs::{bytes_eq, Descriptor, FileCursor, Inode, ROFilesystem, Whence, FIRST_FD};
use bsmeta::path::{is_plain, split};
use bsmeta::plugin::{build_filesystem, BundleEntry};

fn entry(path: &[u8], data: &[u8]) -> BundleEntry {
    BundleEntry { path: path.to_vec(), data: data.to_vec() }
}

#[test]
fn new_filesystem_has_only_the_root() {
    let fs = ROFilesystem::new();
    assert_eq!(fs.root(), Inode(1));
    assert_eq!(fs.nodes.len(), 1);
    assert!(fs.fds.is_empty());
    assert!(fs.preopens.is_empty());
    assert!(fs.is_directory(Inode(1)));
    assert!(!fs.is_directory(Inode(2)));
    assert!(!fs.is_directory(Inode(0)));
}

#[test]
fn split_drops_empty_segments() {
    assert_eq!(split(b"a/b/c"), vec![b"a".to_vec(), b"b".to_vec(), b"c".to_vec()]);
    assert_eq!(split(b"/a//b/"), vec![b"a".to_vec(), b"b".to_vec()]);
    assert_eq!(split(b"script.js"), vec![b"script.js".to_vec()]);
    assert!(split(b"").is_empty());
    assert!(split(b"///").is_empty());
}

#[test]
fn bytes_eq_compares_contents() {
    assert!(bytes_eq(b"abc", b"abc"));
    assert!(!bytes_eq(b"abc", b"abd"));
    assert!(!bytes_eq(b"abc", b"ab"));
    assert!(bytes_eq(b"", b""));
}

#[test]
fn mkdir_and_mkfile_number_inodes_in_order() {
    let mut fs = ROFilesystem::new();
    let root = fs.root();
    assert_eq!(fs.mkdir(root, b"work".to_vec()), Ok(Inode(2)));
    assert_eq!(fs.mkfile(Inode(2), b"a.txt".to_vec(), b"hello".to_vec()), Ok(Inode(3)));
    assert_eq!(fs.lookup(root, b"work"), Some(Inode(2)));
    assert_eq!(fs.lookup(Inode(2), b"a.txt"), Some(Inode(3)));
    assert_eq!(fs.lookup(Inode(2), b"b.txt"), None);
    assert_eq!(fs.lookup(root, b"a.txt"), None);
}

#[test]
fn mknod_reports_each_error() {
    let mut fs = ROFilesystem::new();
    let root = fs.root();
    assert_eq!(fs.mkdir(root, b"d".to_vec()), Ok(Inode(2)));
    assert_eq!(fs.mkfile(root, b"f".to_vec(), vec![1]), Ok(Inode(3)));
    assert_eq!(fs.mkdir(root, b"d".to_vec()), Err(Error::Exist));
    assert_eq!(fs.mkfile(root, b"d".to_vec(), vec![]), Err(Error::Exist));
    assert_eq!(fs.mkdir(Inode(3), b"x".to_vec()), Err(Error::Notdir));
    assert_eq!(fs.mkdir(Inode(9), b"x".to_vec()), Err(Error::Noent));
    assert_eq!(fs.mkdir(Inode(0), b"x".to_vec()), Err(Error::Noent));
    assert_eq!(fs.nodes.len(), 3);
    assert_eq!(fs.new_fd(Inode(2)), Ok(3));
    assert_eq!(fs.mkdir(root, b"late".to_vec()), Err(Error::Perm));
    assert_eq!(fs.add_file(root, b"late/x", vec![]), Err(Error::Perm));
}

#[test]
fn add_file_makes_the_directories_on_the_way() {
    let mut fs = ROFilesystem::new();
    let root = fs.root();
    let work = fs.mkdir(root, b"work".to_vec()).unwrap();
    assert_eq!(fs.add_file(work, b"lib/util/a.js", b"A".to_vec()), Ok(Inode(5)));
    assert_eq!(fs.add_file(work, b"lib/util/b.js", b"B".to_vec()), Ok(Inode(6)));
    assert_eq!(fs.add_file(work, b"lib/c.js", b"C".to_vec()), Ok(Inode(7)));
    assert_eq!(fs.resolve(work, b"lib"), Ok(Inode(3)));
    assert_eq!(fs.resolve(work, b"lib/util"), Ok(Inode(4)));
    assert_eq!(fs.resolve(work, b"lib/util/a.js"), Ok(Inode(5)));
    assert_eq!(fs.resolve(work, b"/lib//util/b.js"), Ok(Inode(6)));
    assert_eq!(fs.resolve(root, b"work/lib/c.js"), Ok(Inode(7)));
    assert!(fs.is_directory(Inode(3)));
    assert!(fs.is_directory(Inode(4)));
    assert!(!fs.is_directory(Inode(5)));
    assert_eq!(fs.nodes[4].data, Some(b"A".to_vec()));
    assert_eq!(fs.nodes[6].data, Some(b"C".to_vec()));
}

#[test]
fn add_file_reports_each_error_and_changes_nothing() {
    let mut fs = ROFilesystem::new();
    let root = fs.root();
    let work = fs.mkdir(root, b"work".to_vec()).unwrap();
    assert_eq!(fs.add_file(work, b"a/b", b"1".to_vec()), Ok(Inode(4)));
    assert_eq!(fs.add_file(work, b"", vec![]), Err(Error::Inval));
    assert_eq!(fs.add_file(work, b"//", vec![]), Err(Error::Inval));
    assert_eq!(fs.add_file(work, b"a/b", vec![]), Err(Error::Exist));
    assert_eq!(fs.add_file(work, b"a", vec![]), Err(Error::Exist));
    assert_eq!(fs.add_file(work, b"a/b/c", vec![]), Err(Error::Notdir));
    assert_eq!(fs.add_file(Inode(4), b"x", vec![]), Err(Error::Notdir));
    assert_eq!(fs.add_file(Inode(40), b"x", vec![]), Err(Error::Notdir));
    assert_eq!(fs.nodes.len(), 4);
}

#[test]
fn resolve_reports_missing_entries_and_files_on_the_way() {
    let mut fs = ROFilesystem::new();
    let root = fs.root();
    let work = fs.mkdir(root, b"work".to_vec()).unwrap();
    fs.add_file(work, b"a/b", b"1".to_vec()).unwrap();
    assert_eq!(fs.resolve(work, b""), Err(Error::Noent));
    assert_eq!(fs.resolve(work, b"/"), Err(Error::Noent));
    assert_eq!(fs.resolve(work, b"zz"), Err(Error::Noent));
    assert_eq!(fs.resolve(work, b"a/zz"), Err(Error::Noent));
    assert_eq!(fs.resolve(work, b"a/b/c"), Err(Error::Notdir));
    assert_eq!(fs.resolve(work, b".."), Err(Error::Noent));
    assert_eq!(fs.resolve(Inode(4), b"x"), Err(Error::Notdir));
}

#[test]
fn preopens_take_the_descriptors_from_three_on_in_order() {
    let mut fs = ROFilesystem::new();
    let root = fs.root();
    fs.mkdir(root, b"one".to_vec()).unwrap();
    fs.mkdir(root, b"two".to_vec()).unwrap();
    fs.mkfile(Inode(2), b"f".to_vec(), vec![]).unwrap();
    fs.mkdir(root, b"three".to_vec()).unwrap();
    assert_eq!(fs.calculate_preopens(), Ok(()));
    assert_eq!(fs.preopens, vec![b"/one".to_vec(), b"/two".to_vec(), b"/three".to_vec()]);
    assert_eq!(fs.get_descriptor(FIRST_FD), Some(Descriptor { ino: Inode(2), pos: 0 }));
    assert_eq!(fs.get_descriptor(4), Some(Descriptor { ino: Inode(3), pos: 0 }));
    assert_eq!(fs.get_descriptor(5), Some(Descriptor { ino: Inode(5), pos: 0 }));
    assert_eq!(fs.get_descriptor(6), None);
    assert_eq!(fs.get_descriptor(2), None);
    assert_eq!(fs.calculate_preopens(), Err(Error::Busy));
}

#[test]
fn preopens_refuse_a_file_in_the_root() {
    let mut fs = ROFilesystem::new();
    let root = fs.root();
    fs.mkdir(root, b"one".to_vec()).unwrap();
    fs.mkfile(root, b"stray".to_vec(), vec![]).unwrap();
    assert_eq!(fs.calculate_preopens(), Err(Error::Notdir));
    assert!(fs.fds.is_empty());
    assert!(fs.preopens.is_empty());
}

#[test]
fn cursor_reads_what_is_left() {
    let data = b"0123456789".to_vec();
    let mut cur = FileCursor { data: &data, pos: 7 };
    assert_eq!(cur.read(2), b"78");
    assert_eq!(cur.position(), 9);
    assert_eq!(cur.read(5), b"9");
    assert_eq!(cur.position(), 10);
    assert_eq!(cur.read(5), b"");
    assert_eq!(cur.position(), 10);
    let mut far = FileCursor { data: &data, pos: 50 };
    assert_eq!(far.read(5), b"");
    assert_eq!(far.position(), 50);
}

#[test]
fn cursor_seeks_from_start_current_and_end() {
    let data = b"0123456789".to_vec();
    let mut cur = FileCursor { data: &data, pos: 0 };
    assert_eq!(cur.seek(4, Whence::Start), Ok(4));
    assert_eq!(cur.seek(3, Whence::Current), Ok(7));
    assert_eq!(cur.seek(-2, Whence::Current), Ok(5));
    assert_eq!(cur.seek(-1, Whence::End), Ok(9));
    assert_eq!(cur.seek(5, Whence::End), Ok(15));
    assert_eq!(cur.seek(0, Whence::End), Ok(10));
    assert_eq!(cur.seek(-11, Whence::End), Err(Error::Io));
    assert_eq!(cur.position(), 10);
    assert_eq!(cur.seek(-11, Whence::Current), Err(Error::Io));
    assert_eq!(cur.seek(-1, Whence::Start), Err(Error::Io));
    assert_eq!(cur.seek(i64::MIN, Whence::Start), Err(Error::Io));
    assert_eq!(cur.position(), 10);
    assert_eq!(cur.seek(i64::MAX, Whence::Start), Ok(i64::MAX as u64));
    assert_eq!(cur.seek(i64::MAX, Whence::Current), Ok(u64::MAX - 1));
    assert_eq!(cur.seek(2, Whence::Current), Err(Error::Io));
    assert_eq!(cur.position(), u64::MAX - 1);
}

#[test]
fn descriptors_of_one_file_have_their_own_positions() {
    let mut fs = ROFilesystem::new();
    let root = fs.root();
    let ino = fs.mkfile(root, b"f".to_vec(), b"abcdef".to_vec()).unwrap();
    assert_eq!(fs.new_fd(ino), Ok(3));
    assert_eq!(fs.new_fd(ino), Ok(4));
    assert_eq!(fs.new_fd(Inode(7)), Err(Error::Noent));
    assert!(fs.set_position(3, 4));
    assert!(!fs.set_position(9, 4));
    assert_eq!(fs.get_file_cursor(3).unwrap().position(), 4);
    assert_eq!(fs.get_file_cursor(4).unwrap().position(), 0);
    assert_eq!(fs.get_file_cursor(3).unwrap().read(10), b"ef");
    assert!(matches!(fs.get_file_cursor(5), Err(Error::Badf)));
    assert!(matches!(fs.get_file_cursor(1), Err(Error::Badf)));
}

#[test]
fn a_directory_has_no_cursor() {
    let mut fs = ROFilesystem::new();
    let root = fs.root();
    fs.mkdir(root, b"d".to_vec()).unwrap();
    fs.calculate_preopens().unwrap();
    assert!(matches!(fs.get_file_cursor(3), Err(Error::Isdir)));
}

#[test]
fn build_mounts_work_and_data() {
    let entries = vec![entry(b"script.js", b"print(1)"), entry(b"lib/rt.js", b"rt")];
    let fs = build_filesystem(&entries, b"DAT".to_vec()).unwrap();
    assert_eq!(fs.preopens, vec![b"/work".to_vec(), b"/data".to_vec()]);
    assert_eq!(fs.get_descriptor(3), Some(Descriptor { ino: Inode(2), pos: 0 }));
    assert_eq!(fs.get_descriptor(4), Some(Descriptor { ino: Inode(3), pos: 0 }));
    assert_eq!(fs.get_descriptor(5), None);
    let dat = fs.resolve(Inode(3), b"map.dat").unwrap();
    assert_eq!(fs.nodes[dat.0 as usize - 1].data, Some(b"DAT".to_vec()));
    let script = fs.resolve(Inode(2), b"script.js").unwrap();
    assert_eq!(fs.nodes[script.0 as usize - 1].data, Some(b"print(1)".to_vec()));
    let rt = fs.resolve(Inode(2), b"lib/rt.js").unwrap();
    assert_eq!(fs.nodes[rt.0 as usize - 1].data, Some(b"rt".to_vec()));
    assert!(fs.stdout.is_empty());
    assert!(fs.stderr.is_empty());
}

#[test]
fn build_names_the_entry_that_has_no_place() {
    let twice = vec![entry(b"a", b"1"), entry(b"b", b"2"), entry(b"a", b"3")];
    let e = build_filesystem(&twice, vec![]).unwrap_err();
    assert_eq!(e.entry, 2);
    assert_eq!(e.error, Error::Exist);
    let through = vec![entry(b"a", b"1"), entry(b"a/b", b"2")];
    let e = build_filesystem(&through, vec![]).unwrap_err();
    assert_eq!(e.entry, 1);
    assert_eq!(e.error, Error::Notdir);
    let unnamed = vec![entry(b"/", b"1")];
    let e = build_filesystem(&unnamed, vec![]).unwrap_err();
    assert_eq!(e.entry, 0);
    assert_eq!(e.error, Error::Inval);
    assert!(build_filesystem(&vec![], vec![]).is_ok());
}

#[test]
fn only_a_file_has_a_size() {
    let mut fs = ROFilesystem::new();
    let root = fs.root();
    let dir = fs.mkdir(root, b"d".to_vec()).unwrap();
    let ino = fs.mkfile(dir, b"f".to_vec(), b"12345".to_vec()).unwrap();
    let empty = fs.mkfile(dir, b"e".to_vec(), vec![]).unwrap();
    fs.calculate_preopens().unwrap();
    let fd = fs.new_fd(ino).unwrap();
    let fd_empty = fs.new_fd(empty).unwrap();
    assert_eq!(fs.file_size(fd), Ok(5));
    assert_eq!(fs.file_size(fd_empty), Ok(0));
    assert_eq!(fs.file_size(3), Err(Error::Isdir));
    assert_eq!(fs.file_size(9), Err(Error::Badf));
    assert_eq!(fs.file_size(0), Err(Error::Badf));
}

#[test]
fn a_name_must_be_plain() {
    let mut fs = ROFilesystem::new();
    let root = fs.root();
    assert_eq!(fs.mkdir(root, b"".to_vec()), Err(Error::Inval));
    assert_eq!(fs.mkdir(root, b"a/b".to_vec()), Err(Error::Inval));
    assert_eq!(fs.mkfile(root, b"/".to_vec(), vec![]), Err(Error::Inval));
    assert_eq!(fs.mkfile(root, b"x/".to_vec(), vec![]), Err(Error::Inval));
    assert_eq!(fs.mkfile(Inode(9), b"".to_vec(), vec![]), Err(Error::Inval));
    assert_eq!(fs.nodes.len(), 1);
    assert_eq!(fs.mkdir(root, b"a.b".to_vec()), Ok(Inode(2)));
    assert!(is_plain(b"lib"));
    assert!(!is_plain(b""));
    assert!(!is_plain(b"lib/a.js"));
}

#[test]
fn a_nested_entry_makes_its_directory() {
    let entries = vec![entry(b"lib/a.js", b"A")];
    let fs = build_filesystem(&entries, b"in".to_vec()).unwrap();
    assert_eq!(fs.nodes.len(), 6);
    assert_eq!(fs.nodes[4].parent, 2);
    assert_eq!(fs.nodes[4].name, b"lib");
    assert_eq!(fs.nodes[4].data, None);
    assert_eq!(fs.nodes[5].parent, 5);
    assert_eq!(fs.nodes[5].name, b"a.js");
    assert_eq!(fs.nodes[5].data, Some(b"A".to_vec()));
    assert_eq!(fs.lookup(Inode(2), b"lib/a.js"), None);
    assert_eq!(fs.lookup(Inode(2), b"lib"), Some(Inode(5)));
    assert_eq!(fs.lookup(Inode(5), b"a.js"), Some(Inode(6)));
}

#[test]
fn a_flat_bundle_holds_its_files_and_nothing_else() {
    let entries = vec![entry(b"a.js", b"A"), entry(b"b.js", b"B"), entry(b"c", b"")];
    let fs = build_filesystem(&entries, b"in".to_vec()).unwrap();
    assert_eq!(fs.nodes.len(), 7);
    assert_eq!(fs.nodes[3].name, b"map.dat");
    assert_eq!(fs.nodes[3].parent, 3);
    assert_eq!(fs.nodes[3].data, Some(b"in".to_vec()));
    for (k, e) in entries.iter().enumerate() {
        assert_eq!(fs.lookup(Inode(2), &e.path), Some(Inode(5 + k as u32)));
        assert_eq!(fs.nodes[4 + k].parent, 2);
        assert_eq!(fs.nodes[4 + k].data.as_ref(), Some(&e.data));
    }
    assert_eq!(fs.lookup(Inode(2), b"d"), None);
    assert_eq!(fs.lookup(Inode(2), b"map.dat"), None);
    assert_eq!(fs.lookup(Inode(3), b"a.js"), None);
    assert_eq!(fs.lookup(Inode(3), b"map.dat"), Some(Inode(4)));
}
