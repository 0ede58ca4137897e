use bsmeta::errno::{Errno, Error, GuestError, Region, Trap};
use bsmeta::fs::{Descriptor, Inode, ROFilesystem, Whence};
use bsmeta::iovec::{gather, release_claims};
use bsmeta::memory::GuestMemory;
use bsmeta::plugin::{build_filesystem, BundleEntry};
use bsmeta::syscalls::{Fdstat, Filetype, Prestat, PrestatDir, WasiCtx, RIGHTS_ALL};

fn put_u32(mem: &mut Vec<u8>, at: usize, value: u32) {
    mem[at..at + 4].copy_from_slice(&value.to_le_bytes());
}

fn get_u32(mem: &[u8], at: usize) -> u32 {
    u32::from_le_bytes([mem[at], mem[at + 1], mem[at + 2], mem[at + 3]])
}

fn get_u64(mem: &[u8], at: usize) -> u64 {
    let mut b = [0u8; 8];
    b.copy_from_slice(&mem[at..at + 8]);
    u64::from_le_bytes(b)
}

/// A run with `script.js` and `lib/rt.js` under /work, `input` as
/// /data/map.dat, and 256 bytes of guest memory.
fn run_with(input: &[u8]) -> WasiCtx {
    let entries = vec![
        BundleEntry { path: b"script.js".to_vec(), data: b"print(1)".to_vec() },
        BundleEntry { path: b"lib/rt.js".to_vec(), data: b"rt".to_vec() },
    ];
    let fs = build_filesystem(&entries, input.to_vec()).unwrap();
    WasiCtx::new(fs, vec![0; 256])
}

/// Puts `path` at 200 in guest memory and opens it under `dirfd`.
fn open(ctx: &mut WasiCtx, dirfd: u32, path: &[u8]) -> Result<u32, Error> {
    let mut mem = ctx.mem.as_bytes().clone();
    mem[200..200 + path.len()].copy_from_slice(path);
    ctx.set_memory(mem);
    ctx.path_open(dirfd, 1, 200, path.len() as u32, 0, 0, 0, 0)
}

/// Puts the list `pairs` at `at` in guest memory.
fn put_list(ctx: &mut WasiCtx, at: usize, pairs: &[(u32, u32)]) {
    let mut mem = ctx.mem.as_bytes().clone();
    for (i, (start, len)) in pairs.iter().enumerate() {
        put_u32(&mut mem, at + 8 * i, *start);
        put_u32(&mut mem, at + 8 * i + 4, *len);
    }
    ctx.set_memory(mem);
}

#[test]
fn preopens_are_probed_from_three_until_a_bad_descriptor() {
    let mut ctx = run_with(b"");
    assert_eq!(ctx.fd_prestat_get(3), Ok(Prestat::Dir(PrestatDir { pr_name_len: 5 })));
    assert_eq!(ctx.fd_prestat_get(4), Ok(Prestat::Dir(PrestatDir { pr_name_len: 5 })));
    assert_eq!(ctx.fd_prestat_get(5), Err(Error::Badf));
    assert_eq!(ctx.fd_prestat_get(2), Err(Error::Badf));
    assert_eq!(ctx.fd_prestat_get(0), Err(Error::Badf));
    assert_eq!(ctx.fd_prestat_dir_name(3, 10, 5), Ok(()));
    assert_eq!(ctx.fd_prestat_dir_name(4, 20, 5), Ok(()));
    assert_eq!(&ctx.mem.as_bytes()[10..15], b"/work");
    assert_eq!(&ctx.mem.as_bytes()[20..25], b"/data");
    assert_eq!(ctx.mem.as_bytes()[15], 0);
    assert_eq!(ctx.fd_prestat_dir_name(5, 10, 5), Err(Error::Badf));
    assert_eq!(ctx.fd_prestat_dir_name(3, 10, 4), Err(Error::Inval));
    assert_eq!(ctx.fd_prestat_dir_name(3, 10, 6), Err(Error::Inval));
    assert_eq!(
        ctx.fd_prestat_dir_name(3, 252, 5),
        Err(Error::Guest(GuestError::PtrOutOfBounds(Region { start: 252, len: 5 })))
    );
    let opened = open(&mut ctx, 3, b"script.js").unwrap();
    assert_eq!(opened, 5);
    assert_eq!(ctx.fd_prestat_get(5), Err(Error::Badf));
}

#[test]
fn a_read_gives_what_is_left_and_nothing_at_the_end() {
    let mut ctx = run_with(b"0123456789");
    let fd = open(&mut ctx, 4, b"map.dat").unwrap();
    put_list(&mut ctx, 0, &[(100, 4), (110, 4)]);
    assert_eq!(ctx.fd_read(fd, 0, 2), Ok(8));
    assert_eq!(&ctx.mem.as_bytes()[100..104], b"0123");
    assert_eq!(&ctx.mem.as_bytes()[110..114], b"4567");
    assert_eq!(ctx.fd_read(fd, 0, 2), Ok(2));
    assert_eq!(&ctx.mem.as_bytes()[100..104], b"8923");
    assert_eq!(&ctx.mem.as_bytes()[110..114], b"4567");
    assert_eq!(ctx.fd_read(fd, 0, 2), Ok(0));
    assert_eq!(ctx.fd_read(fd, 0, 0), Ok(0));
    assert_eq!(ctx.fs.get_descriptor(fd), Some(Descriptor { ino: Inode(4), pos: 10 }));
}

#[test]
fn a_read_fills_the_buffers_in_order() {
    let mut ctx = run_with(b"abcdefghij");
    let fd = open(&mut ctx, 4, b"map.dat").unwrap();
    put_list(&mut ctx, 8, &[(120, 3), (100, 0), (110, 2), (130, 20)]);
    assert_eq!(ctx.fd_read(fd, 8, 4), Ok(10));
    assert_eq!(&ctx.mem.as_bytes()[120..123], b"abc");
    assert_eq!(&ctx.mem.as_bytes()[110..112], b"de");
    assert_eq!(&ctx.mem.as_bytes()[130..136], b"fghij\0");
    assert_eq!(ctx.mem.as_bytes()[100], 0);
}

#[test]
fn a_read_checks_the_descriptor_then_the_list() {
    let mut ctx = run_with(b"0123456789");
    let fd = open(&mut ctx, 4, b"map.dat").unwrap();
    assert_eq!(ctx.fd_read(1, 0, 1), Err(Error::Inval));
    assert_eq!(ctx.fd_read(2, 0, 1), Err(Error::Inval));
    assert_eq!(ctx.fd_read(0, 0, 1), Ok(0));
    assert_eq!(ctx.fd_read(0, 1000, 1000), Ok(0));
    assert_eq!(ctx.fd_read(9, 1000, 1), Err(Error::Badf));
    assert_eq!(ctx.fd_read(3, 1000, 1), Err(Error::Isdir));
    assert_eq!(
        ctx.fd_read(fd, 1000, 1),
        Err(Error::Guest(GuestError::PtrOutOfBounds(Region { start: 1000, len: 4 })))
    );
    assert_eq!(
        ctx.fd_read(fd, 2, 1),
        Err(Error::Guest(GuestError::PtrNotAligned(Region { start: 2, len: 4 }, 4)))
    );
    assert_eq!(
        ctx.fd_read(fd, u32::MAX - 3, 2),
        Err(Error::Guest(GuestError::PtrOutOfBounds(Region { start: u32::MAX - 3, len: 4 })))
    );
    put_list(&mut ctx, 0, &[(100, 4), (250, 10)]);
    assert_eq!(
        ctx.fd_read(fd, 0, 2),
        Err(Error::Guest(GuestError::PtrOutOfBounds(Region { start: 250, len: 10 })))
    );
    assert_eq!(&ctx.mem.as_bytes()[100..104], &[0, 0, 0, 0]);
    assert_eq!(ctx.fs.get_descriptor(fd), Some(Descriptor { ino: Inode(4), pos: 0 }));
}

#[test]
fn a_read_into_buffers_that_overlap_is_a_fault() {
    let mut ctx = run_with(b"0123456789");
    let fd = open(&mut ctx, 4, b"map.dat").unwrap();
    put_list(&mut ctx, 0, &[(100, 4), (102, 4)]);
    let res = ctx.fd_read(fd, 0, 2);
    assert_eq!(res, Err(Error::Guest(GuestError::PtrBorrowed(Region { start: 102, len: 4 }))));
    assert_eq!(Errno::try_from(res.unwrap_err()), Ok(Errno::Fault));
    assert_eq!(&ctx.mem.as_bytes()[100..106], &[0; 6]);
    // a buffer over the list itself: the second pair cannot be read
    put_list(&mut ctx, 0, &[(8, 8), (100, 4)]);
    assert_eq!(
        ctx.fd_read(fd, 0, 2),
        Err(Error::Guest(GuestError::PtrBorrowed(Region { start: 8, len: 4 })))
    );
    // every claim was given up: the same memory can be read into again
    put_list(&mut ctx, 0, &[(100, 4), (104, 4)]);
    assert_eq!(ctx.fd_read(fd, 0, 2), Ok(8));
    assert_eq!(&ctx.mem.as_bytes()[100..108], b"01234567");
}

#[test]
fn seek_counts_from_start_current_and_end() {
    let mut ctx = run_with(b"0123456789");
    let fd = open(&mut ctx, 4, b"map.dat").unwrap();
    assert_eq!(ctx.fd_seek(fd, 3, Whence::Start), Ok(3));
    assert_eq!(ctx.fd_seek(fd, 4, Whence::Current), Ok(7));
    assert_eq!(ctx.fd_seek(fd, -5, Whence::Current), Ok(2));
    assert_eq!(ctx.fd_seek(fd, 0, Whence::Current), Ok(2));
    assert_eq!(ctx.fd_seek(fd, -3, Whence::End), Ok(7));
    put_list(&mut ctx, 0, &[(100, 8)]);
    assert_eq!(ctx.fd_read(fd, 0, 1), Ok(3));
    assert_eq!(&ctx.mem.as_bytes()[100..103], b"789");
    assert_eq!(ctx.fd_seek(fd, 0, Whence::End), Ok(10));
    assert_eq!(ctx.fd_seek(fd, 6, Whence::End), Ok(16));
    assert_eq!(ctx.fd_read(fd, 0, 1), Ok(0));
    assert_eq!(ctx.fd_seek(fd, -11, Whence::End), Err(Error::Io));
    assert_eq!(ctx.fd_seek(fd, -17, Whence::Current), Err(Error::Io));
    assert_eq!(ctx.fd_seek(fd, 0, Whence::Current), Ok(16));
}

#[test]
fn seek_refuses_directories_and_unknown_descriptors() {
    let mut ctx = run_with(b"0123456789");
    assert_eq!(ctx.fd_seek(3, 0, Whence::Start), Err(Error::Isdir));
    assert_eq!(ctx.fd_seek(4, 0, Whence::Current), Err(Error::Isdir));
    assert_eq!(ctx.fd_seek(3, 0, Whence::End), Err(Error::Isdir));
    assert_eq!(ctx.fd_seek(5, 0, Whence::Start), Err(Error::Badf));
    assert_eq!(ctx.fd_seek(1, 0, Whence::Start), Err(Error::Badf));
    let lib = open(&mut ctx, 3, b"lib").unwrap();
    assert_eq!(ctx.fd_seek(lib, 0, Whence::Start), Err(Error::Isdir));
}

#[test]
fn stdout_and_stderr_are_captured_apart_in_call_order() {
    let mut ctx = run_with(b"");
    let mut mem = ctx.mem.as_bytes().clone();
    mem[100..112].copy_from_slice(b"abcdefghijkl");
    ctx.set_memory(mem);
    put_list(&mut ctx, 0, &[(100, 2), (104, 2)]);
    put_list(&mut ctx, 16, &[(102, 2)]);
    put_list(&mut ctx, 24, &[(106, 6), (100, 1)]);
    assert_eq!(ctx.fd_write(1, 0, 2), Ok(4));
    assert_eq!(ctx.fd_write(2, 16, 1), Ok(2));
    assert_eq!(ctx.fd_write(1, 24, 2), Ok(7));
    assert_eq!(ctx.fd_write(2, 0, 0), Ok(0));
    assert_eq!(ctx.fs.stdout, b"abefghijkla");
    assert_eq!(ctx.fs.stderr, b"cd");
}

#[test]
fn a_write_may_name_one_buffer_twice() {
    let mut ctx = run_with(b"");
    let mut mem = ctx.mem.as_bytes().clone();
    mem[100..103].copy_from_slice(b"xyz");
    ctx.set_memory(mem);
    put_list(&mut ctx, 0, &[(100, 3), (101, 2), (100, 3)]);
    assert_eq!(ctx.fd_write(1, 0, 3), Ok(8));
    assert_eq!(ctx.fs.stdout, b"xyzyzxyz");
}

#[test]
fn a_write_checks_the_list_then_the_descriptor() {
    let mut ctx = run_with(b"0123");
    let fd = open(&mut ctx, 4, b"map.dat").unwrap();
    put_list(&mut ctx, 0, &[(100, 2)]);
    assert_eq!(ctx.fd_write(fd, 0, 1), Err(Error::Perm));
    assert_eq!(ctx.fd_write(3, 0, 1), Err(Error::Isdir));
    assert_eq!(ctx.fd_write(0, 0, 1), Err(Error::Badf));
    assert_eq!(ctx.fd_write(77, 0, 1), Err(Error::Badf));
    assert_eq!(
        ctx.fd_write(77, 254, 1),
        Err(Error::Guest(GuestError::PtrOutOfBounds(Region { start: 254, len: 4 })))
    );
    put_list(&mut ctx, 0, &[(100, 2), (255, 2)]);
    assert_eq!(
        ctx.fd_write(1, 0, 2),
        Err(Error::Guest(GuestError::PtrOutOfBounds(Region { start: 255, len: 2 })))
    );
    assert!(ctx.fs.stdout.is_empty());
    assert!(ctx.fs.stderr.is_empty());
}

#[test]
fn close_twice_names_a_bad_descriptor() {
    let mut ctx = run_with(b"0123");
    let fd = open(&mut ctx, 4, b"map.dat").unwrap();
    assert_eq!(ctx.fd_close(fd), Ok(()));
    assert_eq!(ctx.fd_close(fd), Err(Error::Badf));
    assert_eq!(ctx.fd_seek(fd, 0, Whence::Start), Err(Error::Badf));
    assert_eq!(ctx.fd_fdstat_get(fd), Err(Error::Badf));
    put_list(&mut ctx, 0, &[(100, 2)]);
    assert_eq!(ctx.fd_read(fd, 0, 1), Err(Error::Badf));
}

#[test]
fn a_mount_point_closes_like_any_descriptor() {
    let mut ctx = run_with(b"0123");
    assert_eq!(ctx.fd_close(3), Ok(()));
    assert_eq!(ctx.fd_close(3), Err(Error::Badf));
    assert_eq!(ctx.fd_prestat_get(3), Err(Error::Badf));
    assert_eq!(ctx.fd_prestat_dir_name(3, 10, 5), Err(Error::Badf));
    assert_eq!(ctx.fd_fdstat_get(3), Err(Error::Badf));
    assert_eq!(open(&mut ctx, 3, b"script.js"), Err(Error::Badf));
    assert_eq!(ctx.fd_prestat_get(4), Ok(Prestat::Dir(PrestatDir { pr_name_len: 5 })));
    assert_eq!(open(&mut ctx, 4, b"map.dat"), Ok(5));
    assert_eq!(ctx.fd_close(4), Ok(()));
    assert_eq!(ctx.fd_close(4), Err(Error::Badf));
}

#[test]
fn close_refuses_what_is_not_open() {
    let mut ctx = run_with(b"0123");
    assert_eq!(ctx.fd_close(5), Err(Error::Badf));
    assert_eq!(ctx.fd_close(0), Err(Error::Badf));
    assert_eq!(ctx.fd_close(1), Err(Error::Badf));
    assert_eq!(ctx.fd_close(2), Err(Error::Badf));
    assert_eq!(ctx.fd_prestat_get(3), Ok(Prestat::Dir(PrestatDir { pr_name_len: 5 })));
}

#[test]
fn a_closed_number_is_not_handed_out_again() {
    let mut ctx = run_with(b"0123");
    let first = open(&mut ctx, 4, b"map.dat").unwrap();
    assert_eq!(first, 5);
    assert_eq!(ctx.fd_close(first), Ok(()));
    let second = open(&mut ctx, 4, b"map.dat").unwrap();
    assert_eq!(second, 6);
    assert_eq!(ctx.fd_close(first), Err(Error::Badf));
    assert_eq!(ctx.fs.get_descriptor(second), Some(Descriptor { ino: Inode(4), pos: 0 }));
}

#[test]
fn two_opens_of_one_path_have_their_own_positions() {
    let mut ctx = run_with(b"0123456789");
    let a = open(&mut ctx, 4, b"map.dat").unwrap();
    let b = open(&mut ctx, 4, b"map.dat").unwrap();
    assert_ne!(a, b);
    assert_eq!(ctx.fd_seek(a, 6, Whence::Start), Ok(6));
    assert_eq!(ctx.fd_seek(b, 0, Whence::Current), Ok(0));
    put_list(&mut ctx, 0, &[(100, 2)]);
    assert_eq!(ctx.fd_read(b, 0, 1), Ok(2));
    assert_eq!(&ctx.mem.as_bytes()[100..102], b"01");
    assert_eq!(ctx.fd_read(a, 0, 1), Ok(2));
    assert_eq!(&ctx.mem.as_bytes()[100..102], b"67");
}

#[test]
fn path_open_walks_the_path_under_the_directory() {
    let mut ctx = run_with(b"0123");
    assert_eq!(open(&mut ctx, 3, b"script.js"), Ok(5));
    assert_eq!(open(&mut ctx, 3, b"lib/rt.js"), Ok(6));
    assert_eq!(open(&mut ctx, 3, b"lib"), Ok(7));
    assert_eq!(open(&mut ctx, 7, b"rt.js"), Ok(8));
    assert_eq!(open(&mut ctx, 3, b"missing.js"), Err(Error::Noent));
    assert_eq!(open(&mut ctx, 3, b""), Err(Error::Noent));
    assert_eq!(open(&mut ctx, 3, b"../data/map.dat"), Err(Error::Noent));
    assert_eq!(open(&mut ctx, 3, b"script.js/x"), Err(Error::Notdir));
    assert_eq!(open(&mut ctx, 5, b"x"), Err(Error::Notdir));
    assert_eq!(open(&mut ctx, 99, b"script.js"), Err(Error::Badf));
    assert_eq!(open(&mut ctx, 1, b"script.js"), Err(Error::Badf));
    put_list(&mut ctx, 0, &[(100, 8)]);
    assert_eq!(ctx.fd_read(8, 0, 1), Ok(2));
    assert_eq!(&ctx.mem.as_bytes()[100..102], b"rt");
}

#[test]
fn path_open_offers_only_a_plain_open() {
    let mut ctx = run_with(b"0123");
    assert_eq!(ctx.path_open(3, 0, 200, 0, 0, 0, 0, 0), Err(Error::Unsupported("lookup flags")));
    assert_eq!(ctx.path_open(3, 1, 200, 0, 1, 0, 0, 0), Err(Error::Unsupported("open flags")));
    assert_eq!(
        ctx.path_open(3, 1, 200, 0, 0, 0, 0, 4),
        Err(Error::Unsupported("descriptor flags"))
    );
    assert_eq!(
        ctx.path_open(3, 1, 250, 10, 0, 0, 0, 0),
        Err(Error::Guest(GuestError::PtrOutOfBounds(Region { start: 250, len: 10 })))
    );
    assert_eq!(
        Errno::try_from(Error::Unsupported("lookup flags")),
        Err(Trap::String("unsupported: lookup flags".to_string()))
    );
    assert_eq!(ctx.fs.get_descriptor(5), None);
}

#[test]
fn fdstat_tells_streams_files_and_directories_apart() {
    let mut ctx = run_with(b"0123");
    let fd = open(&mut ctx, 4, b"map.dat").unwrap();
    let stat = |t| Fdstat {
        fs_filetype: t,
        fs_flags: 0,
        fs_rights_base: RIGHTS_ALL,
        fs_rights_inheriting: RIGHTS_ALL,
    };
    assert_eq!(ctx.fd_fdstat_get(0), Ok(stat(Filetype::CharacterDevice)));
    assert_eq!(ctx.fd_fdstat_get(1), Ok(stat(Filetype::CharacterDevice)));
    assert_eq!(ctx.fd_fdstat_get(2), Ok(stat(Filetype::CharacterDevice)));
    assert_eq!(ctx.fd_fdstat_get(3), Ok(stat(Filetype::Directory)));
    assert_eq!(ctx.fd_fdstat_get(4), Ok(stat(Filetype::Directory)));
    assert_eq!(ctx.fd_fdstat_get(fd), Ok(stat(Filetype::RegularFile)));
    assert_eq!(ctx.fd_fdstat_get(fd + 1), Err(Error::Badf));
    assert_eq!(RIGHTS_ALL, (1 << 29) - 1);
    assert_eq!(Filetype::Directory.raw(), 3);
    assert_eq!(Filetype::RegularFile.raw(), 4);
    assert_eq!(Filetype::CharacterDevice.raw(), 2);
}

#[test]
fn the_guest_gets_no_arguments_no_environment_and_no_time() {
    let ctx = WasiCtx::new(ROFilesystem::new(), vec![]);
    assert_eq!(ctx.args_get(0, 0), Ok(()));
    assert_eq!(ctx.args_sizes_get(), Ok((0, 0)));
    assert_eq!(ctx.environ_sizes_get(), Ok((0, 0)));
    assert_eq!(ctx.clock_time_get(0, 1), Ok(0));
    assert_eq!(ctx.clock_time_get(1, 1000), Ok(0));
    assert!(ctx.fs().fds.is_empty());
}

#[test]
fn gather_claims_each_buffer_and_gives_all_up_on_a_fault() {
    let mut bytes = vec![0u8; 64];
    put_u32(&mut bytes, 0, 32);
    put_u32(&mut bytes, 4, 8);
    put_u32(&mut bytes, 8, 40);
    put_u32(&mut bytes, 12, 8);
    put_u32(&mut bytes, 16, 44);
    put_u32(&mut bytes, 20, 8);
    let mut mem = GuestMemory::new(bytes);
    let regions = gather(&mut mem, 0, 2, true).unwrap();
    assert_eq!(regions, vec![Region { start: 32, len: 8 }, Region { start: 40, len: 8 }]);
    assert_eq!(mem.borrow_shared(36, 1), Err(GuestError::PtrBorrowed(Region { start: 36, len: 1 })));
    release_claims(&mut mem, 2, true);
    assert_eq!(
        gather(&mut mem, 0, 3, true),
        Err(GuestError::PtrBorrowed(Region { start: 44, len: 8 }))
    );
    assert_eq!(mem.borrow_mut(0, 64), Ok(0));
    mem.release_mut(0);
    let shared = gather(&mut mem, 0, 3, false).unwrap();
    assert_eq!(shared.len(), 3);
    assert_eq!(shared[2], Region { start: 44, len: 8 });
    assert_eq!(mem.borrow_mut(50, 1), Err(GuestError::PtrBorrowed(Region { start: 50, len: 1 })));
    release_claims(&mut mem, 3, false);
    assert_eq!(mem.borrow_mut(50, 1), Ok(0));
    assert_eq!(get_u32(mem.as_bytes(), 8), 40);
    assert_eq!(get_u64(mem.as_bytes(), 56), 0);
}

#[test]
fn the_run_turns_failures_into_codes() {
    let ctx = run_with(b"");
    assert_eq!(ctx.into_errno(GuestError::PtrOverflow), Errno::Fault);
    assert_eq!(ctx.into_errno(GuestError::InvalidEnumValue), Errno::Inval);
    assert_eq!(ctx.errno_from_error(Error::Isdir), Ok(Errno::Isdir));
    assert_eq!(
        ctx.errno_from_error(Error::Unsupported("x")),
        Err(Trap::String("unsupported: x".to_string()))
    );
}

#[test]
fn no_claim_outlives_a_call() {
    let mut ctx = run_with(b"0123456789");
    let fd = open(&mut ctx, 4, b"map.dat").unwrap();
    assert!(!ctx.mem.has_outstanding_borrows());
    put_list(&mut ctx, 0, &[(100, 4), (110, 4)]);
    assert_eq!(ctx.fd_read(fd, 0, 2), Ok(8));
    assert!(!ctx.mem.has_outstanding_borrows());
    assert_eq!(ctx.fd_write(1, 0, 2), Ok(8));
    assert!(!ctx.mem.has_outstanding_borrows());
    put_list(&mut ctx, 0, &[(100, 4), (101, 4)]);
    assert!(ctx.fd_read(fd, 0, 2).is_err());
    assert!(!ctx.mem.has_outstanding_borrows());
    assert_eq!(ctx.fd_prestat_dir_name(3, 10, 5), Ok(()));
    assert!(!ctx.mem.has_outstanding_borrows());
    assert_eq!(
        ctx.fd_write(1, 254, 2),
        Err(Error::Guest(GuestError::PtrOutOfBounds(Region { start: 254, len: 4 })))
    );
    assert!(!ctx.mem.has_outstanding_borrows());
}
