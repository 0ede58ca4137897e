//! The calling convention: how the raw numbers of a call become arguments,
//! and how what a call gives goes back to the guest: the value into guest
//! memory, the error as a code.

use vstd::prelude::*;
use crate::errno::{Errno, Error, GuestError, Region, Trap};
use crate::fs::{Descriptor, Whence, FIRST_FD};
use crate::iovec::gathered;
use crate::memory::{le_bytes, patched};
use crate::syscalls::{
    available, same_but_fds, scattered, taken, Fdstat, Prestat, WasiCtx, RIGHTS_ALL, STDERR_FILENO,
    STDOUT_FILENO,
};

verus! {

/// The code for storing a number of `width` bytes at `ptr` in a memory of
/// `size` bytes on which no claim is held: a fault where it does not fit, an
/// invalid argument where `ptr` is no multiple of `width`.
pub open spec fn store_errno(size: nat, ptr: u32, width: u32) -> Errno {
    if ptr + width > size {
        Errno::Fault
    } else if ptr as int % width as int != 0 {
        Errno::Inval
    } else {
        Errno::Success
    }
}

/// `out` is what a call that failed with `e` hands to the guest: the code
/// that `e` stands for, or a trap that names the unsupported feature.
pub open spec fn answers(e: Error, out: Result<Errno, Trap>) -> bool {
    match out {
        Ok(errno) => Errno::of_error(e) == Some(errno),
        Err(trap) => match e {
            Error::Unsupported(feature) => trap.is_unsupported(feature),
            _ => false,
        },
    }
}

/// `mem` after a number of `width` bytes was handed back at `ptr`: the
/// bytes of `value` are there where they could be stored.
pub open spec fn handed_back(mem: Seq<u8>, ptr: u32, width: u32, value: nat) -> Seq<u8> {
    if store_errno(mem.len(), ptr, width) == Errno::Success {
        patched(mem, ptr as int, le_bytes(value, width as nat))
    } else {
        mem
    }
}

/// One field of a record that goes back to the guest: where it lies in the
/// record, how many bytes it has, and its value.
#[derive(Copy, Clone, Debug, PartialEq, Eq, Structural)]
pub struct Field {
    pub offset: u32,
    pub width: u32,
    pub value: u64,
}

/// `mem` after the record of `fields` was stored at `ptr`, with the code of
/// the store. The fields are stored in order, and the first that cannot be
/// stored ends it: where it would lie beyond the address space, that is a
/// fault.
pub open spec fn record_stored(mem: Seq<u8>, ptr: u32, fields: Seq<Field>) -> (Seq<u8>, Errno)
    decreases fields.len(),
{
    if fields.len() == 0 {
        (mem, Errno::Success)
    } else {
        let (before, errno) = record_stored(mem, ptr, fields.drop_last());
        let field = fields.last();
        if errno != Errno::Success {
            (before, errno)
        } else if ptr + field.offset > u32::MAX {
            (before, Errno::Fault)
        } else {
            (
                handed_back(before, (ptr + field.offset) as u32, field.width, field.value as nat),
                store_errno(before.len(), (ptr + field.offset) as u32, field.width),
            )
        }
    }
}

/// A store that has failed after `n` fields has failed for good.
pub proof fn lemma_record_fails_for_good(mem: Seq<u8>, ptr: u32, fields: Seq<Field>, n: int)
    requires
        0 <= n <= fields.len(),
        record_stored(mem, ptr, fields.take(n)).1 != Errno::Success,
    ensures
        record_stored(mem, ptr, fields) == record_stored(mem, ptr, fields.take(n)),
    decreases fields.len() - n,
{
    if n < fields.len() {
        assert(fields.take(n + 1).drop_last() =~= fields.take(n));
        lemma_record_fails_for_good(mem, ptr, fields, n + 1);
    } else {
        assert(fields.take(n) =~= fields);
    }
}

/// The fields of the description of a mount point: the tag for a
/// directory, then the length of the name.
pub open spec fn prestat_fields(prestat: Prestat) -> Seq<Field> {
    match prestat {
        Prestat::Dir(dir) => seq![
            Field { offset: 0, width: 1, value: 0 },
            Field { offset: 4, width: 4, value: dir.pr_name_len as u64 },
        ],
    }
}

/// The fields of the status of a descriptor: kind, flags, and the two sets
/// of rights.
pub open spec fn fdstat_fields(stat: Fdstat) -> Seq<Field> {
    seq![
        Field { offset: 0, width: 1, value: stat.fs_filetype.spec_raw() as u64 },
        Field { offset: 2, width: 2, value: stat.fs_flags as u64 },
        Field { offset: 8, width: 8, value: stat.fs_rights_base },
        Field { offset: 16, width: 8, value: stat.fs_rights_inheriting },
    ]
}

/// From where a seek counts, by its number.
pub open spec fn spec_whence(raw: u32) -> Result<Whence, GuestError> {
    if raw == 0 {
        Ok(Whence::Start)
    } else if raw == 1 {
        Ok(Whence::Current)
    } else if raw == 2 {
        Ok(Whence::End)
    } else {
        Err(GuestError::InvalidEnumValue)
    }
}

/// Reads from where a seek counts.
pub fn whence_from_raw(raw: u32) -> (res: Result<Whence, GuestError>)
    ensures
        res == spec_whence(raw),
{
    if raw == 0 {
        Ok(Whence::Start)
    } else if raw == 1 {
        Ok(Whence::Current)
    } else if raw == 2 {
        Ok(Whence::End)
    } else {
        Err(GuestError::InvalidEnumValue)
    }
}

impl WasiCtx {
    /// The code for a call that gives nothing back: success, or what the
    /// error stands for. An unsupported feature stops the run.
    pub fn reply(res: Result<(), Error>) -> (out: Result<Errno, Trap>)
        ensures
            match res {
                Ok(()) => out == Ok::<Errno, Trap>(Errno::Success),
                Err(e) => match out {
                    Ok(errno) => Errno::of_error(e) == Some(errno),
                    Err(trap) => match e {
                        Error::Unsupported(feature) => trap.is_unsupported(feature),
                        _ => false,
                    },
                },
            },
    {
        match res {
            Ok(()) => Ok(Errno::Success),
            Err(e) => Errno::try_from(e),
        }
    }

    /// Stores the `width` low bytes of `value` at `ptr` for the guest, and
    /// says with which code.
    pub fn store_value(&mut self, ptr: u32, width: u32, value: u64) -> (errno: Errno)
        requires
            old(self).wf(),
            width == 1 || width == 2 || width == 4 || width == 8,
        ensures
            final(self).wf(),
            final(self).fs == old(self).fs,
            errno == store_errno(old(self).mem@.len(), ptr, width),
            errno == Errno::Success ==> final(self).mem@ == patched(
                old(self).mem@,
                ptr as int,
                le_bytes(value as nat, width as nat),
            ),
            errno != Errno::Success ==> final(self).mem@ == old(self).mem@,
    {
        match self.mem.write_le(ptr, width, value) {
            Ok(()) => Errno::Success,
            Err(e) => Errno::from(e),
        }
    }

    /// Hands a 32-bit result back: the number goes to `ptr`, and the code
    /// says whether it got there. A failed call stores nothing.
    pub fn reply_u32(&mut self, res: Result<u32, Error>, ptr: u32) -> (out: Result<Errno, Trap>)
        requires
            old(self).wf(),
        ensures
            final(self).wf(),
            final(self).fs == old(self).fs,
            match res {
                Ok(value) => {
                    &&& out == Ok::<Errno, Trap>(store_errno(old(self).mem@.len(), ptr, 4))
                    &&& final(self).mem@ == if store_errno(old(self).mem@.len(), ptr, 4)
                        == Errno::Success {
                        patched(old(self).mem@, ptr as int, le_bytes(value as nat, 4))
                    } else {
                        old(self).mem@
                    }
                },
                Err(e) => {
                    &&& final(self).mem@ == old(self).mem@
                    &&& match out {
                        Ok(errno) => Errno::of_error(e) == Some(errno),
                        Err(trap) => match e {
                            Error::Unsupported(feature) => trap.is_unsupported(feature),
                            _ => false,
                        },
                    }
                },
            },
    {
        match res {
            Ok(value) => Ok(self.store_value(ptr, 4, value as u64)),
            Err(e) => Errno::try_from(e),
        }
    }

    /// Hands a 64-bit result back: the number goes to `ptr`, and the code
    /// says whether it got there. A failed call stores nothing.
    pub fn reply_u64(&mut self, res: Result<u64, Error>, ptr: u32) -> (out: Result<Errno, Trap>)
        requires
            old(self).wf(),
        ensures
            final(self).wf(),
            final(self).fs == old(self).fs,
            match res {
                Ok(value) => {
                    &&& out == Ok::<Errno, Trap>(store_errno(old(self).mem@.len(), ptr, 8))
                    &&& final(self).mem@ == if store_errno(old(self).mem@.len(), ptr, 8)
                        == Errno::Success {
                        patched(old(self).mem@, ptr as int, le_bytes(value as nat, 8))
                    } else {
                        old(self).mem@
                    }
                },
                Err(e) => {
                    &&& final(self).mem@ == old(self).mem@
                    &&& match out {
                        Ok(errno) => Errno::of_error(e) == Some(errno),
                        Err(trap) => match e {
                            Error::Unsupported(feature) => trap.is_unsupported(feature),
                            _ => false,
                        },
                    }
                },
            },
    {
        match res {
            Ok(value) => Ok(self.store_value(ptr, 8, value)),
            Err(e) => Errno::try_from(e),
        }
    }

    /// Stores the record of `fields` at `ptr` for the guest, field by field,
    /// and says with which code.
    pub fn store_record(&mut self, ptr: u32, fields: &Vec<Field>) -> (errno: Errno)
        requires
            old(self).wf(),
            forall|k: int|
                0 <= k < fields@.len() ==> {
                    let w = (#[trigger] fields@[k]).width;
                    w == 1 || w == 2 || w == 4 || w == 8
                },
        ensures
            final(self).wf(),
            final(self).fs == old(self).fs,
            (final(self).mem@, errno) == record_stored(old(self).mem@, ptr, fields@),
    {
        let mut i: usize = 0;
        proof {
            assert(fields@.take(0) =~= Seq::<Field>::empty());
        }
        while i < fields.len()
            invariant
                i <= fields@.len(),
                self.wf(),
                self.fs == old(self).fs,
                forall|k: int|
                    0 <= k < fields@.len() ==> {
                        let w = (#[trigger] fields@[k]).width;
                        w == 1 || w == 2 || w == 4 || w == 8
                    },
                (self.mem@, Errno::Success) == record_stored(
                    old(self).mem@,
                    ptr,
                    fields@.take(i as int),
                ),
            decreases fields@.len() - i,
        {
            let field = fields[i];
            proof {
                assert(fields@.take(i + 1).drop_last() =~= fields@.take(i as int));
                assert(fields@.take(i + 1).last() == field);
            }
            if field.offset > u32::MAX - ptr {
                proof {
                    lemma_record_fails_for_good(old(self).mem@, ptr, fields@, i + 1);
                }
                return Errno::Fault;
            }
            let errno = self.store_value(ptr + field.offset, field.width, field.value);
            if errno != Errno::Success {
                proof {
                    lemma_record_fails_for_good(old(self).mem@, ptr, fields@, i + 1);
                }
                return errno;
            }
            i = i + 1;
        }
        proof {
            assert(fields@.take(i as int) =~= fields@);
        }
        Errno::Success
    }

    /// `fd_prestat_get` as the guest calls it: the description goes to
    /// `buf`.
    pub fn call_fd_prestat_get(&mut self, fd: u32, buf: u32) -> (out: Result<Errno, Trap>)
        requires
            old(self).wf(),
        ensures
            final(self).wf(),
            final(self).fs == old(self).fs,
            match old(self).spec_prestat(fd) {
                Ok(prestat) => (final(self).mem@, out->Ok_0) == record_stored(
                    old(self).mem@,
                    buf,
                    prestat_fields(prestat),
                ) && out is Ok,
                Err(e) => answers(e, out) && final(self).mem@ == old(self).mem@,
            },
    {
        match self.fd_prestat_get(fd) {
            Err(e) => Errno::try_from(e),
            Ok(Prestat::Dir(dir)) => {
                let fields = vec![
                    Field { offset: 0, width: 1, value: 0 },
                    Field { offset: 4, width: 4, value: dir.pr_name_len as u64 },
                ];
                proof {
                    assert(fields@ =~= prestat_fields(Prestat::Dir(dir)));
                }
                Ok(self.store_record(buf, &fields))
            },
        }
    }

    /// `fd_fdstat_get` as the guest calls it: the status goes to `stat`.
    pub fn call_fd_fdstat_get(&mut self, fd: u32, stat: u32) -> (out: Result<Errno, Trap>)
        requires
            old(self).wf(),
        ensures
            final(self).wf(),
            final(self).fs == old(self).fs,
            match old(self).spec_filetype(fd) {
                Ok(fs_filetype) => (final(self).mem@, out->Ok_0) == record_stored(
                    old(self).mem@,
                    stat,
                    fdstat_fields(
                        (Fdstat {
                            fs_filetype,
                            fs_flags: 0,
                            fs_rights_base: RIGHTS_ALL,
                            fs_rights_inheriting: RIGHTS_ALL,
                        }),
                    ),
                ) && out is Ok,
                Err(e) => answers(e, out) && final(self).mem@ == old(self).mem@,
            },
    {
        match self.fd_fdstat_get(fd) {
            Err(e) => Errno::try_from(e),
            Ok(st) => {
                let fields = vec![
                    Field { offset: 0, width: 1, value: st.fs_filetype.raw() as u64 },
                    Field { offset: 2, width: 2, value: st.fs_flags as u64 },
                    Field { offset: 8, width: 8, value: st.fs_rights_base },
                    Field { offset: 16, width: 8, value: st.fs_rights_inheriting },
                ];
                proof {
                    assert(fields@ =~= fdstat_fields(st));
                }
                Ok(self.store_record(stat, &fields))
            },
        }
    }

    /// `args_sizes_get` and `environ_sizes_get` as the guest calls them: the
    /// count, zero, goes to `count`, then the size, zero, to `size`.
    pub fn call_sizes_get(&mut self, count: u32, size: u32) -> (out: Result<Errno, Trap>)
        requires
            old(self).wf(),
        ensures
            final(self).wf(),
            final(self).fs == old(self).fs,
            out is Ok,
            store_errno(old(self).mem@.len(), count, 4) != Errno::Success ==> out->Ok_0
                == store_errno(old(self).mem@.len(), count, 4) && final(self).mem@ == old(self).mem@,
            store_errno(old(self).mem@.len(), count, 4) == Errno::Success ==> out->Ok_0
                == store_errno(handed_back(old(self).mem@, count, 4, 0).len(), size, 4)
                && final(self).mem@ == handed_back(
                handed_back(old(self).mem@, count, 4, 0),
                size,
                4,
                0,
            ),
    {
        let (n, bytes) = match self.args_sizes_get() {
            Ok(pair) => pair,
            Err(e) => { return Errno::try_from(e); },
        };
        let first = self.store_value(count, 4, n as u64);
        if first != Errno::Success {
            return Ok(first);
        }
        Ok(self.store_value(size, 4, bytes as u64))
    }

    /// `path_open` as the guest calls it: the new descriptor goes to
    /// `opened`. Flags that the guest cannot have are an invalid argument.
    pub fn call_path_open(
        &mut self,
        dirfd: u32,
        dirflags: u32,
        path: u32,
        path_len: u32,
        oflags: u32,
        fs_rights_base: u64,
        fs_rights_inheriting: u64,
        fdflags: u32,
        opened: u32,
    ) -> (out: Result<Errno, Trap>)
        requires
            old(self).wf(),
        ensures
            final(self).wf(),
            same_but_fds(old(self).fs, final(self).fs),
            if dirflags >= 2 || oflags >= 16 || fs_rights_base > RIGHTS_ALL || fs_rights_inheriting
                > RIGHTS_ALL || fdflags >= 32 {
                &&& out == Ok::<Errno, Trap>(Errno::Inval)
                &&& final(self).mem@ == old(self).mem@
                &&& final(self).fs.fds == old(self).fs.fds
            } else {
                match old(self).spec_path_open(
                    dirfd,
                    dirflags,
                    path,
                    path_len,
                    oflags as u16,
                    fdflags as u16,
                ) {
                    Ok(fd) => {
                        &&& out == Ok::<Errno, Trap>(store_errno(old(self).mem@.len(), opened, 4))
                        &&& final(self).mem@ == handed_back(old(self).mem@, opened, 4, fd as nat)
                        &&& final(self).fs.fds@ == old(self).fs.fds@.push(
                            Some(
                                Descriptor {
                                    ino: old(self).fs.spec_resolve(
                                        old(self).fs.descriptor(dirfd)->Some_0.ino,
                                        old(self).mem@.subrange(path as int, path + path_len),
                                    )->Ok_0,
                                    pos: 0,
                                },
                            ),
                        )
                    },
                    Err(e) => {
                        &&& answers(e, out)
                        &&& final(self).mem@ == old(self).mem@
                        &&& final(self).fs.fds == old(self).fs.fds
                    },
                }
            },
    {
        if dirflags >= 2 || oflags >= 16 || fs_rights_base > RIGHTS_ALL || fs_rights_inheriting
            > RIGHTS_ALL || fdflags >= 32 {
            return Ok(Errno::from(GuestError::InvalidFlagValue));
        }
        let res = self.path_open(
            dirfd,
            dirflags,
            path,
            path_len,
            oflags as u16,
            fs_rights_base,
            fs_rights_inheriting,
            fdflags as u16,
        );
        self.reply_u32(res, opened)
    }

    /// `fd_close` as the guest calls it.
    pub fn call_fd_close(&mut self, fd: u32) -> (out: Result<Errno, Trap>)
        requires
            old(self).wf(),
        ensures
            final(self).wf(),
            final(self).mem == old(self).mem,
            same_but_fds(old(self).fs, final(self).fs),
            match old(self).spec_fd_close(fd) {
                Ok(()) => out == Ok::<Errno, Trap>(Errno::Success) && final(self).fs.fds@ == old(self).fs.fds@.update(fd - FIRST_FD, None),
                Err(e) => answers(e, out) && final(self).fs.fds == old(self).fs.fds,
            },
    {
        let res = self.fd_close(fd);
        WasiCtx::reply(res)
    }

    /// `fd_prestat_dir_name` as the guest calls it.
    pub fn call_fd_prestat_dir_name(&mut self, fd: u32, path: u32, path_len: u32) -> (out: Result<
        Errno,
        Trap,
    >)
        requires
            old(self).wf(),
        ensures
            final(self).wf(),
            final(self).fs == old(self).fs,
            match old(self).spec_prestat_dir_name(fd, path, path_len) {
                Ok(()) => out == Ok::<Errno, Trap>(Errno::Success) && final(self).mem@ == patched(
                    old(self).mem@,
                    path as int,
                    old(self).fs.preopen_name(fd),
                ),
                Err(e) => answers(e, out) && final(self).mem@ == old(self).mem@,
            },
    {
        let res = self.fd_prestat_dir_name(fd, path, path_len);
        WasiCtx::reply(res)
    }

    /// `args_get` as the guest calls it.
    pub fn call_args_get(&mut self, argv: u32, argv_buf: u32) -> (out: Result<Errno, Trap>)
        ensures
            *final(self) == *old(self),
            out == Ok::<Errno, Trap>(Errno::Success),
    {
        let res = self.args_get(argv, argv_buf);
        WasiCtx::reply(res)
    }

    /// `fd_read` as the guest calls it: the count of bytes read goes to
    /// `nread`.
    pub fn call_fd_read(&mut self, fd: u32, iovs: u32, iovs_len: u32, nread: u32) -> (out: Result<
        Errno,
        Trap,
    >)
        requires
            old(self).wf(),
        ensures
            final(self).wf(),
            same_but_fds(old(self).fs, final(self).fs),
            match old(self).spec_fd_read(fd, iovs, iovs_len) {
                Ok(n) => {
                    &&& out == Ok::<Errno, Trap>(store_errno(old(self).mem@.len(), nread, 4))
                    &&& final(self).mem@ == handed_back(
                        old(self).spec_read_memory(fd, iovs, iovs_len),
                        nread,
                        4,
                        n as nat,
                    )
                },
                Err(e) => answers(e, out) && final(self).mem@ == old(self).spec_read_memory(
                    fd,
                    iovs,
                    iovs_len,
                ),
            },
            !old(self).read_copies(fd, iovs, iovs_len) ==> final(self).fs.fds == old(self).fs.fds,
            old(self).read_copies(fd, iovs, iovs_len) ==> {
                let d = old(self).fs.spec_file_of(fd)->Ok_0;
                let data = old(self).fs.file_data(d.ino);
                let regions = gathered(old(self).mem@, iovs, iovs_len as nat, true)->Ok_0;
                final(self).fs.fds@ == old(self).fs.fds@.update(
                    fd - FIRST_FD,
                    Some(
                        Descriptor {
                            ino: d.ino,
                            pos: (d.pos + taken(regions, available(data.len(), d.pos))) as u64,
                        },
                    ),
                )
            },
    {
        let res = self.fd_read(fd, iovs, iovs_len);
        proof {
            if old(self).read_copies(fd, iovs, iovs_len) {
                let d = old(self).fs.spec_file_of(fd)->Ok_0;
                lemma_scatter_keeps_size(
                    old(self).mem@,
                    iovs,
                    iovs_len as nat,
                    old(self).fs.file_data(d.ino),
                    d.pos,
                );
            }
        }
        self.reply_u32(res, nread)
    }

    /// The memory after the reading part of `fd_read`: the buffers filled
    /// where the call got as far as copying, else as it was.
    pub open spec fn spec_read_memory(&self, fd: u32, iovs: u32, iovs_len: u32) -> Seq<u8> {
        if self.read_copies(fd, iovs, iovs_len) {
            let d = self.fs.spec_file_of(fd)->Ok_0;
            scattered(
                self.mem@,
                gathered(self.mem@, iovs, iovs_len as nat, true)->Ok_0,
                self.fs.file_data(d.ino),
                d.pos,
            )
        } else {
            self.mem@
        }
    }

    /// `fd_write` as the guest calls it: the count of bytes written goes to
    /// `nwritten`.
    pub fn call_fd_write(&mut self, fd: u32, ciovs: u32, ciovs_len: u32, nwritten: u32) -> (out:
        Result<Errno, Trap>)
        requires
            old(self).wf(),
        ensures
            final(self).wf(),
            final(self).fs.nodes == old(self).fs.nodes,
            final(self).fs.fds == old(self).fs.fds,
            final(self).fs.preopens == old(self).fs.preopens,
            final(self).fs.stdout@ == old(self).fs.stdout@ + old(self).spec_written(
                STDOUT_FILENO,
                fd,
                ciovs,
                ciovs_len,
            ),
            final(self).fs.stderr@ == old(self).fs.stderr@ + old(self).spec_written(
                STDERR_FILENO,
                fd,
                ciovs,
                ciovs_len,
            ),
            match old(self).spec_fd_write(fd, ciovs, ciovs_len) {
                Ok(n) => {
                    &&& out == Ok::<Errno, Trap>(store_errno(old(self).mem@.len(), nwritten, 4))
                    &&& final(self).mem@ == handed_back(old(self).mem@, nwritten, 4, n as nat)
                },
                Err(e) => answers(e, out) && final(self).mem@ == old(self).mem@,
            },
    {
        let res = self.fd_write(fd, ciovs, ciovs_len);
        self.reply_u32(res, nwritten)
    }

    /// `fd_seek` as the guest calls it: the new position goes to
    /// `newoffset`. A number that names no way to count is an invalid
    /// argument.
    pub fn call_fd_seek(&mut self, fd: u32, offset: i64, whence: u32, newoffset: u32) -> (out:
        Result<Errno, Trap>)
        requires
            old(self).wf(),
        ensures
            final(self).wf(),
            same_but_fds(old(self).fs, final(self).fs),
            match spec_whence(whence) {
                Err(e) => out == Ok::<Errno, Trap>(Errno::Inval) && final(self).mem@ == old(self).mem@ && final(self).fs.fds == old(self).fs.fds,
                Ok(w) => match old(self).spec_fd_seek(fd, offset, w) {
                    Ok(target) => {
                        &&& out == Ok::<Errno, Trap>(
                            store_errno(old(self).mem@.len(), newoffset, 8),
                        )
                        &&& final(self).mem@ == handed_back(
                            old(self).mem@,
                            newoffset,
                            8,
                            target as nat,
                        )
                        &&& final(self).fs.fds@ == old(self).fs.fds@.update(
                            fd - FIRST_FD,
                            Some(
                                Descriptor {
                                    ino: old(self).fs.descriptor(fd)->Some_0.ino,
                                    pos: target,
                                },
                            ),
                        )
                    },
                    Err(e) => answers(e, out) && final(self).mem@ == old(self).mem@ && final(self).fs.fds == old(self).fs.fds,
                },
            },
    {
        let w = match whence_from_raw(whence) {
            Err(e) => { return Ok(Errno::from(e)); },
            Ok(w) => w,
        };
        let res = self.fd_seek(fd, offset, w);
        self.reply_u64(res, newoffset)
    }

    /// `clock_time_get` as the guest calls it: the time, zero, goes to
    /// `time`. There are four clocks.
    pub fn call_clock_time_get(&mut self, id: u32, precision: u64, time: u32) -> (out: Result<
        Errno,
        Trap,
    >)
        requires
            old(self).wf(),
        ensures
            final(self).wf(),
            final(self).fs == old(self).fs,
            out == Ok::<Errno, Trap>(
                if id > 3 {
                    Errno::Inval
                } else {
                    store_errno(old(self).mem@.len(), time, 8)
                },
            ),
            final(self).mem@ == if id > 3 {
                old(self).mem@
            } else {
                handed_back(old(self).mem@, time, 8, 0)
            },
    {
        if id > 3 {
            return Ok(Errno::from(GuestError::InvalidEnumValue));
        }
        let res = self.clock_time_get(id, precision);
        self.reply_u64(res, time)
    }
}

/// A read into the buffers of a sound list leaves the memory as large as it
/// was.
pub proof fn lemma_scatter_keeps_size(mem: Seq<u8>, base: u32, n: nat, data: Seq<u8>, pos: u64)
    requires
        gathered(mem, base, n, true) is Ok,
    ensures
        scattered(mem, gathered(mem, base, n, true)->Ok_0, data, pos).len() == mem.len(),
{
    lemma_gathered_fit(mem, base, n, true);
    lemma_scatter_size(mem, gathered(mem, base, n, true)->Ok_0, data, pos);
}

/// The buffers that a sound list names lie in the memory.
pub proof fn lemma_gathered_fit(mem: Seq<u8>, base: u32, n: nat, exclusive: bool)
    requires
        gathered(mem, base, n, exclusive) is Ok,
    ensures
        gathered(mem, base, n, exclusive)->Ok_0.len() == n,
        forall|j: int|
            0 <= j < n ==> (#[trigger] gathered(mem, base, n, exclusive)->Ok_0[j]).end()
                <= mem.len(),
    decreases n,
{
    if n > 0 {
        lemma_gathered_fit(mem, base, (n - 1) as nat, exclusive);
    }
}

/// Filling buffers that lie in the memory leaves it as large as it was.
pub proof fn lemma_scatter_size(
    mem: Seq<u8>,
    regions: Seq<Region>,
    data: Seq<u8>,
    pos: u64,
)
    requires
        forall|j: int| 0 <= j < regions.len() ==> (#[trigger] regions[j]).end() <= mem.len(),
    ensures
        scattered(mem, regions, data, pos).len() == mem.len(),
    decreases regions.len(),
{
    if regions.len() > 0 {
        lemma_scatter_size(mem, regions.drop_last(), data, pos);
    }
}

} // verus!
