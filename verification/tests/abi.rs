use bsmeta::abi::{whence_from_raw, Field};
use bsmeta::dispatch::{
    module_name, resolve, resolve_all, same_text, Import, ImportKind, Resolution, Syscall,
};
use bsmeta::errno::{Errno, Error, GuestError, Trap};
use bsmeta::fs::Whence;
use bsmeta::plugin::{build_filesystem, BundleEntry};
use bsmeta::syscalls::WasiCtx;

fn run_with(input: &[u8]) -> WasiCtx {
    let entries = vec![BundleEntry { path: b"script.js".to_vec(), data: b"print(1)".to_vec() }];
    let fs = build_filesystem(&entries, input.to_vec()).unwrap();
    WasiCtx::new(fs, vec![0xee; 256])
}

fn with_bytes(ctx: &mut WasiCtx, at: usize, bytes: &[u8]) {
    let mut mem = ctx.mem.as_bytes().clone();
    mem[at..at + bytes.len()].copy_from_slice(bytes);
    ctx.set_memory(mem);
}

fn with_pair(ctx: &mut WasiCtx, at: usize, start: u32, len: u32) {
    with_bytes(ctx, at, &start.to_le_bytes());
    with_bytes(ctx, at + 4, &len.to_le_bytes());
}

#[test]
fn whence_has_three_numbers() {
    assert_eq!(whence_from_raw(0), Ok(Whence::Start));
    assert_eq!(whence_from_raw(1), Ok(Whence::Current));
    assert_eq!(whence_from_raw(2), Ok(Whence::End));
    assert_eq!(whence_from_raw(3), Err(GuestError::InvalidEnumValue));
    assert_eq!(whence_from_raw(u32::MAX), Err(GuestError::InvalidEnumValue));
}

#[test]
fn reply_turns_errors_into_codes() {
    assert_eq!(WasiCtx::reply(Ok(())), Ok(Errno::Success));
    assert_eq!(WasiCtx::reply(Err(Error::Badf)), Ok(Errno::Badf));
    assert_eq!(WasiCtx::reply(Err(Error::TryFromInt)), Ok(Errno::Overflow));
    assert_eq!(
        WasiCtx::reply(Err(Error::Unsupported("open flags"))),
        Err(Trap::String("unsupported: open flags".to_string()))
    );
}

#[test]
fn results_go_to_the_pointer_the_guest_gave() {
    let mut ctx = run_with(b"");
    assert_eq!(ctx.reply_u32(Ok(0x0102_0304), 8), Ok(Errno::Success));
    assert_eq!(&ctx.mem.as_bytes()[7..13], &[0xee, 4, 3, 2, 1, 0xee]);
    assert_eq!(ctx.reply_u64(Ok(0x0102_0304_0506_0708), 16), Ok(Errno::Success));
    assert_eq!(&ctx.mem.as_bytes()[15..25], &[0xee, 8, 7, 6, 5, 4, 3, 2, 1, 0xee]);
    assert_eq!(ctx.reply_u32(Ok(1), 254), Ok(Errno::Fault));
    assert_eq!(ctx.reply_u32(Ok(1), 6), Ok(Errno::Inval));
    assert_eq!(ctx.reply_u64(Ok(1), 12), Ok(Errno::Inval));
    assert_eq!(ctx.reply_u64(Ok(1), 256), Ok(Errno::Fault));
    assert_eq!(ctx.reply_u32(Err(Error::Noent), 32), Ok(Errno::Noent));
    assert_eq!(&ctx.mem.as_bytes()[32..36], &[0xee; 4]);
    assert_eq!(ctx.store_value(40, 2, 0xabcd), Errno::Success);
    assert_eq!(&ctx.mem.as_bytes()[40..43], &[0xcd, 0xab, 0xee]);
    assert_eq!(ctx.store_value(41, 2, 0), Errno::Inval);
}

#[test]
fn a_record_is_stored_field_by_field() {
    let mut ctx = run_with(b"");
    let fields = vec![
        Field { offset: 0, width: 1, value: 3 },
        Field { offset: 2, width: 2, value: 0x0102 },
        Field { offset: 8, width: 8, value: 7 },
    ];
    assert_eq!(ctx.store_record(32, &fields), Errno::Success);
    assert_eq!(
        &ctx.mem.as_bytes()[32..48],
        &[3, 0xee, 2, 1, 0xee, 0xee, 0xee, 0xee, 7, 0, 0, 0, 0, 0, 0, 0]
    );
    // the last field does not fit: the ones before it are stored
    assert_eq!(ctx.store_record(244, &fields), Errno::Fault);
    assert_eq!(&ctx.mem.as_bytes()[244..248], &[3, 0xee, 2, 1]);
    assert_eq!(&ctx.mem.as_bytes()[252..256], &[0xee; 4]);
    assert_eq!(ctx.store_record(33, &fields), Errno::Inval);
    assert_eq!(ctx.mem.as_bytes()[33], 3);
    assert_eq!(ctx.store_record(u32::MAX - 1, &fields), Errno::Fault);
    assert_eq!(ctx.store_record(0, &vec![]), Errno::Success);
}

#[test]
fn prestat_goes_back_as_tag_and_length() {
    let mut ctx = run_with(b"");
    assert_eq!(ctx.call_fd_prestat_get(3, 16), Ok(Errno::Success));
    assert_eq!(&ctx.mem.as_bytes()[16..24], &[0, 0xee, 0xee, 0xee, 5, 0, 0, 0]);
    assert_eq!(ctx.call_fd_prestat_get(5, 32), Ok(Errno::Badf));
    assert_eq!(&ctx.mem.as_bytes()[32..40], &[0xee; 8]);
    assert_eq!(ctx.call_fd_prestat_get(4, 250), Ok(Errno::Fault));
    assert_eq!(ctx.call_fd_prestat_get(4, 41), Ok(Errno::Inval));
    assert_eq!(ctx.call_fd_prestat_dir_name(4, 48, 5), Ok(Errno::Success));
    assert_eq!(&ctx.mem.as_bytes()[48..54], b"/data\xee");
    assert_eq!(ctx.call_fd_prestat_dir_name(4, 48, 9), Ok(Errno::Inval));
    assert_eq!(ctx.call_fd_prestat_dir_name(4, 253, 5), Ok(Errno::Fault));
    assert_eq!(ctx.call_fd_prestat_dir_name(7, 48, 5), Ok(Errno::Badf));
}

#[test]
fn fdstat_goes_back_as_four_fields() {
    let mut ctx = run_with(b"");
    assert_eq!(ctx.call_fd_fdstat_get(3, 8), Ok(Errno::Success));
    let mem = ctx.mem.as_bytes();
    assert_eq!(mem[8], 3);
    assert_eq!(&mem[10..12], &[0, 0]);
    assert_eq!(&mem[16..24], &0x1fff_ffffu64.to_le_bytes());
    assert_eq!(&mem[24..32], &0x1fff_ffffu64.to_le_bytes());
    assert_eq!(mem[9], 0xee);
    assert_eq!(&mem[12..16], &[0xee; 4]);
    assert_eq!(ctx.call_fd_fdstat_get(1, 40), Ok(Errno::Success));
    assert_eq!(ctx.mem.as_bytes()[40], 2);
    assert_eq!(ctx.call_fd_fdstat_get(9, 40), Ok(Errno::Badf));
    assert_eq!(ctx.call_fd_fdstat_get(3, 240), Ok(Errno::Fault));
}

#[test]
fn sizes_and_time_are_zero() {
    let mut ctx = run_with(b"");
    assert_eq!(ctx.call_sizes_get(8, 12), Ok(Errno::Success));
    assert_eq!(&ctx.mem.as_bytes()[8..17], &[0, 0, 0, 0, 0, 0, 0, 0, 0xee]);
    assert_eq!(ctx.call_sizes_get(20, 254), Ok(Errno::Fault));
    assert_eq!(&ctx.mem.as_bytes()[20..24], &[0; 4]);
    assert_eq!(ctx.call_sizes_get(255, 24), Ok(Errno::Fault));
    assert_eq!(&ctx.mem.as_bytes()[24..28], &[0xee; 4]);
    assert_eq!(ctx.call_clock_time_get(0, 1, 32), Ok(Errno::Success));
    assert_eq!(&ctx.mem.as_bytes()[32..41], &[0, 0, 0, 0, 0, 0, 0, 0, 0xee]);
    assert_eq!(ctx.call_clock_time_get(4, 1, 48), Ok(Errno::Inval));
    assert_eq!(&ctx.mem.as_bytes()[48..56], &[0xee; 8]);
    assert_eq!(ctx.call_clock_time_get(3, 1, 52), Ok(Errno::Inval));
    assert_eq!(ctx.call_args_get(0, 0), Ok(Errno::Success));
}

#[test]
fn a_guest_opens_reads_seeks_and_closes() {
    let mut ctx = run_with(b"0123456789");
    with_bytes(&mut ctx, 200, b"map.dat");
    assert_eq!(ctx.call_path_open(4, 1, 200, 7, 0, 0, 0, 0, 64), Ok(Errno::Success));
    assert_eq!(&ctx.mem.as_bytes()[64..68], &[5, 0, 0, 0]);
    with_pair(&mut ctx, 0, 100, 4);
    assert_eq!(ctx.call_fd_read(5, 0, 1, 72), Ok(Errno::Success));
    assert_eq!(&ctx.mem.as_bytes()[100..104], b"0123");
    assert_eq!(&ctx.mem.as_bytes()[72..76], &[4, 0, 0, 0]);
    assert_eq!(ctx.call_fd_seek(5, -2, 2, 80), Ok(Errno::Success));
    assert_eq!(&ctx.mem.as_bytes()[80..88], &[8, 0, 0, 0, 0, 0, 0, 0]);
    assert_eq!(ctx.call_fd_read(5, 0, 1, 72), Ok(Errno::Success));
    assert_eq!(&ctx.mem.as_bytes()[100..104], b"8923");
    assert_eq!(&ctx.mem.as_bytes()[72..76], &[2, 0, 0, 0]);
    assert_eq!(ctx.call_fd_read(5, 0, 1, 73), Ok(Errno::Inval));
    assert_eq!(ctx.call_fd_seek(5, 0, 3, 80), Ok(Errno::Inval));
    assert_eq!(ctx.call_fd_seek(5, -20, 1, 80), Ok(Errno::Io));
    assert_eq!(ctx.call_fd_seek(3, 0, 0, 80), Ok(Errno::Isdir));
    assert_eq!(ctx.call_fd_close(5), Ok(Errno::Success));
    assert_eq!(ctx.call_fd_close(5), Ok(Errno::Badf));
    assert_eq!(ctx.call_fd_close(3), Ok(Errno::Success));
    assert_eq!(ctx.call_fd_close(3), Ok(Errno::Badf));
    assert_eq!(ctx.call_fd_read(5, 0, 1, 72), Ok(Errno::Badf));
    with_pair(&mut ctx, 0, 250, 40);
    assert_eq!(ctx.call_fd_read(0, 0, 1, 72), Ok(Errno::Success));
    assert_eq!(ctx.call_fd_write(1, 0, 1, 72), Ok(Errno::Fault));
}

#[test]
fn a_guest_writes_its_result() {
    let mut ctx = run_with(b"");
    with_bytes(&mut ctx, 100, b"{\"n\":1}oops");
    with_pair(&mut ctx, 0, 100, 7);
    with_pair(&mut ctx, 8, 107, 4);
    assert_eq!(ctx.call_fd_write(1, 0, 1, 64), Ok(Errno::Success));
    assert_eq!(&ctx.mem.as_bytes()[64..68], &[7, 0, 0, 0]);
    assert_eq!(ctx.call_fd_write(2, 8, 1, 64), Ok(Errno::Success));
    assert_eq!(&ctx.mem.as_bytes()[64..68], &[4, 0, 0, 0]);
    assert_eq!(ctx.call_fd_write(5, 8, 1, 64), Ok(Errno::Badf));
    assert_eq!(ctx.call_fd_write(3, 8, 1, 64), Ok(Errno::Isdir));
    assert_eq!(ctx.fs.stdout, b"{\"n\":1}");
    assert_eq!(ctx.fs.stderr, b"oops");
}

#[test]
fn path_open_refuses_flags_the_guest_cannot_have() {
    let mut ctx = run_with(b"");
    with_bytes(&mut ctx, 200, b"script.js");
    assert_eq!(ctx.call_path_open(3, 2, 200, 9, 0, 0, 0, 0, 64), Ok(Errno::Inval));
    assert_eq!(ctx.call_path_open(3, 1, 200, 9, 16, 0, 0, 0, 64), Ok(Errno::Inval));
    assert_eq!(ctx.call_path_open(3, 1, 200, 9, 0, 1 << 29, 0, 0, 64), Ok(Errno::Inval));
    assert_eq!(ctx.call_path_open(3, 1, 200, 9, 0, 0, 1 << 40, 0, 64), Ok(Errno::Inval));
    assert_eq!(ctx.call_path_open(3, 1, 200, 9, 0, 0, 0, 32, 64), Ok(Errno::Inval));
    assert_eq!(
        ctx.call_path_open(3, 0, 200, 9, 0, 0, 0, 0, 64),
        Err(Trap::String("unsupported: lookup flags".to_string()))
    );
    assert_eq!(
        ctx.call_path_open(3, 1, 200, 9, 1, 0, 0, 0, 64),
        Err(Trap::String("unsupported: open flags".to_string()))
    );
    assert_eq!(
        ctx.call_path_open(3, 1, 200, 9, 0, 0, 0, 1, 64),
        Err(Trap::String("unsupported: descriptor flags".to_string()))
    );
    assert_eq!(ctx.call_path_open(3, 1, 200, 8, 0, 0, 0, 0, 64), Ok(Errno::Noent));
    assert_eq!(ctx.call_path_open(3, 1, 200, 9, 0, (1 << 29) - 1, 0, 0, 64), Ok(Errno::Success));
    assert_eq!(ctx.call_path_open(3, 1, 200, 9, 0, 0, 0, 0, 254), Ok(Errno::Fault));
    assert_eq!(ctx.fs.fds.len(), 4);
}

#[test]
fn every_call_goes_by_its_name() {
    let calls = [
        (Syscall::ArgsGet, "args_get"),
        (Syscall::ArgsSizesGet, "args_sizes_get"),
        (Syscall::ClockTimeGet, "clock_time_get"),
        (Syscall::EnvironSizesGet, "environ_sizes_get"),
        (Syscall::PathOpen, "path_open"),
        (Syscall::FdPrestatGet, "fd_prestat_get"),
        (Syscall::FdPrestatDirName, "fd_prestat_dir_name"),
        (Syscall::FdFdstatGet, "fd_fdstat_get"),
        (Syscall::FdWrite, "fd_write"),
        (Syscall::FdSeek, "fd_seek"),
        (Syscall::FdRead, "fd_read"),
        (Syscall::FdClose, "fd_close"),
    ];
    for (call, name) in calls {
        assert_eq!(call.name(), name);
        assert_eq!(Syscall::from_name(name), Some(call));
    }
    assert_eq!(Syscall::from_name("fd_sync"), None);
    assert_eq!(Syscall::from_name("environ_get"), None);
    assert_eq!(Syscall::from_name(""), None);
    assert_eq!(module_name(), "wasi_snapshot_preview1");
    assert!(same_text("a", "a"));
    assert!(!same_text("a", "b"));
}

fn import(module: &str, name: &str, kind: ImportKind) -> Import {
    Import { module: module.to_string(), name: name.to_string(), kind }
}

#[test]
fn imports_get_a_call_or_a_shim() {
    assert_eq!(
        resolve(&import("wasi_snapshot_preview1", "fd_read", ImportKind::Function)),
        Some(Resolution::Host(Syscall::FdRead))
    );
    assert_eq!(
        resolve(&import("wasi_snapshot_preview1", "random_get", ImportKind::Function)),
        Some(Resolution::Shim("wasi_snapshot_preview1:random_get".to_string()))
    );
    assert_eq!(
        resolve(&import("env", "fd_read", ImportKind::Function)),
        Some(Resolution::Shim("env:fd_read".to_string()))
    );
    assert_eq!(resolve(&import("env", "memory", ImportKind::Memory)), None);
    assert_eq!(resolve(&import("env", "table", ImportKind::Table)), None);
    assert_eq!(resolve(&import("wasi_snapshot_preview1", "g", ImportKind::Global)), None);
}

#[test]
fn the_first_import_without_a_stand_in_is_reported() {
    let good = vec![
        import("wasi_snapshot_preview1", "fd_write", ImportKind::Function),
        import("wasi_snapshot_preview1", "proc_exit", ImportKind::Function),
    ];
    assert_eq!(
        resolve_all(&good),
        Ok(vec![
            Resolution::Host(Syscall::FdWrite),
            Resolution::Shim("wasi_snapshot_preview1:proc_exit".to_string()),
        ])
    );
    let bad = vec![
        import("wasi_snapshot_preview1", "fd_write", ImportKind::Function),
        import("env", "memory", ImportKind::Memory),
        import("env", "table", ImportKind::Table),
    ];
    assert_eq!(resolve_all(&bad), Err(1));
    assert_eq!(resolve_all(&vec![]), Ok(vec![]));
}
