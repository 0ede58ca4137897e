//! The system calls a guest can make, each on plain numbers.
//!
//! Nothing the guest passes is trusted: every pointer goes through the
//! accessor, and every claim taken on guest memory is given up again before
//! the call returns, whether it succeeds or not.

use vstd::prelude::*;
use crate::errno::{Errno, Error, GuestError, Region, Trap};
use crate::fs::{
    append_bytes, readable, seek_target, Descriptor, FileCursor, Inode, ROFilesystem, Whence,
    FIRST_FD,
};
use crate::iovec::{gather, gathered, holds, release_claims};
use crate::memory::{patched, GuestMemory};

verus! {

pub const STDIN_FILENO: u32 = 0;

pub const STDOUT_FILENO: u32 = 1;

pub const STDERR_FILENO: u32 = 2;

/// The one lookup flag: follow symbolic links.
pub const LOOKUP_SYMLINK_FOLLOW: u32 = 1;

/// Every right a descriptor can have.
pub const RIGHTS_ALL: u64 = 0x1fff_ffff;

/// What kind of thing a descriptor stands for.
#[derive(Copy, Clone, Debug, PartialEq, Eq, Structural)]
pub enum Filetype {
    Unknown,
    BlockDevice,
    CharacterDevice,
    Directory,
    RegularFile,
    SocketDgram,
    SocketStream,
    SymbolicLink,
}

impl Filetype {
    /// The number the guest sees for this kind.
    pub open spec fn spec_raw(self) -> u8 {
        match self {
            Filetype::Unknown => 0,
            Filetype::BlockDevice => 1,
            Filetype::CharacterDevice => 2,
            Filetype::Directory => 3,
            Filetype::RegularFile => 4,
            Filetype::SocketDgram => 5,
            Filetype::SocketStream => 6,
            Filetype::SymbolicLink => 7,
        }
    }

    pub fn raw(self) -> (code: u8)
        ensures
            code == self.spec_raw(),
    {
        match self {
            Filetype::Unknown => 0,
            Filetype::BlockDevice => 1,
            Filetype::CharacterDevice => 2,
            Filetype::Directory => 3,
            Filetype::RegularFile => 4,
            Filetype::SocketDgram => 5,
            Filetype::SocketStream => 6,
            Filetype::SymbolicLink => 7,
        }
    }
}

/// The status of a descriptor.
#[derive(Copy, Clone, Debug, PartialEq, Eq, Structural)]
pub struct Fdstat {
    pub fs_filetype: Filetype,
    pub fs_flags: u16,
    pub fs_rights_base: u64,
    pub fs_rights_inheriting: u64,
}

/// What a mount point is: the length of its name.
#[derive(Copy, Clone, Debug, PartialEq, Eq, Structural)]
pub struct PrestatDir {
    pub pr_name_len: u32,
}

/// The description of a preopened descriptor.
#[derive(Copy, Clone, Debug, PartialEq, Eq, Structural)]
pub enum Prestat {
    Dir(PrestatDir),
}

/// The bytes of the buffers `regions` of `mem`, one buffer after the other.
pub open spec fn joined(mem: Seq<u8>, regions: Seq<Region>) -> Seq<u8>
    decreases regions.len(),
{
    if regions.len() == 0 {
        Seq::empty()
    } else {
        joined(mem, regions.drop_last()) + mem.subrange(
            regions.last().start as int,
            regions.last().end(),
        )
    }
}

/// The room in the buffers `regions`, taken together.
pub open spec fn total_len(regions: Seq<Region>) -> nat
    decreases regions.len(),
{
    if regions.len() == 0 {
        0
    } else {
        total_len(regions.drop_last()) + regions.last().len as nat
    }
}

/// How many bytes a file of `len` bytes still has from position `pos` on.
pub open spec fn available(len: nat, pos: u64) -> nat {
    if pos >= len {
        0
    } else {
        (len - pos) as nat
    }
}

/// How many bytes a read into the buffers `regions` takes where `avail` are
/// left: as many as there is room for, or all that are left.
pub open spec fn taken(regions: Seq<Region>, avail: nat) -> nat {
    if total_len(regions) <= avail {
        total_len(regions)
    } else {
        avail
    }
}

/// `mem` after a read into the buffers `regions` of the bytes of `data` from
/// `pos` on: the buffers are filled one after the other, each to the brim
/// before the next, until the room or the data is used up.
pub open spec fn scattered(mem: Seq<u8>, regions: Seq<Region>, data: Seq<u8>, pos: u64) -> Seq<u8>
    decreases regions.len(),
{
    if regions.len() == 0 {
        mem
    } else {
        let before = scattered(mem, regions.drop_last(), data, pos);
        let from = pos + taken(regions.drop_last(), available(data.len(), pos));
        let n = readable(data.len(), from as nat, regions.last().len as nat);
        if n == 0 {
            before
        } else {
            patched(before, regions.last().start as int, data.subrange(from, from + n))
        }
    }
}

/// The state of one run: the filesystem and the guest's memory.
pub struct WasiCtx {
    pub fs: ROFilesystem,
    pub mem: GuestMemory,
}

/// `after` is `before` but for its descriptors.
pub open spec fn same_but_fds(before: ROFilesystem, after: ROFilesystem) -> bool {
    &&& after.nodes == before.nodes
    &&& after.preopens == before.preopens
    &&& after.stdout == before.stdout
    &&& after.stderr == before.stderr
}

impl WasiCtx {
    /// Between two calls the filesystem is sound and no claim is held on the
    /// memory.
    pub open spec fn wf(&self) -> bool {
        self.fs.wf() && self.mem.idle()
    }

    /// The state at the start of a run.
    pub fn new(fs: ROFilesystem, memory: Vec<u8>) -> (ctx: WasiCtx)
        requires
            fs.wf(),
        ensures
            ctx.wf(),
            ctx.fs == fs,
            ctx.mem@ == memory@,
    {
        WasiCtx { fs, mem: GuestMemory::new(memory) }
    }

    /// Puts the guest's memory in place of the one held, as after the guest
    /// has run on.
    pub fn set_memory(&mut self, memory: Vec<u8>)
        requires
            old(self).wf(),
        ensures
            final(self).wf(),
            final(self).fs == old(self).fs,
            final(self).mem@ == memory@,
    {
        self.mem = GuestMemory::new(memory);
    }

    /// The filesystem of the run.
    pub fn fs(&self) -> (fs: &ROFilesystem)
        ensures
            *fs == self.fs,
    {
        &self.fs
    }

    /// The code for an access that the accessor refused.
    pub fn into_errno(&self, e: GuestError) -> (errno: Errno)
        ensures
            errno == Errno::of_guest_error(e),
    {
        Errno::from(e)
    }

    /// The code for a call that failed, or the trap where the failure stops
    /// the run.
    pub fn errno_from_error(&self, e: Error) -> (res: Result<Errno, Trap>)
        ensures
            match res {
                Ok(errno) => Errno::of_error(e) == Some(errno),
                Err(trap) => match e {
                    Error::Unsupported(feature) => trap.is_unsupported(feature),
                    _ => false,
                },
            },
    {
        Errno::try_from(e)
    }

    /// The guest gets no arguments: there is nothing to write.
    pub fn args_get(&self, argv: u32, argv_buf: u32) -> (res: Result<(), Error>)
        ensures
            res is Ok,
    {
        Ok(())
    }

    /// The guest gets no arguments: none, of no size.
    pub fn args_sizes_get(&self) -> (res: Result<(u32, u32), Error>)
        ensures
            res == Ok::<(u32, u32), Error>((0u32, 0u32)),
    {
        Ok((0, 0))
    }

    /// The guest gets no environment: no variable, of no size.
    pub fn environ_sizes_get(&self) -> (res: Result<(u32, u32), Error>)
        ensures
            res == Ok::<(u32, u32), Error>((0u32, 0u32)),
    {
        Ok((0, 0))
    }

    /// Every clock stands still at zero.
    pub fn clock_time_get(&self, id: u32, precision: u64) -> (res: Result<u64, Error>)
        ensures
            res == Ok::<u64, Error>(0u64),
    {
        Ok(0)
    }

    /// What closing `fd` gives: only an open descriptor can be closed, be it
    /// a mount point or opened by path.
    pub open spec fn spec_fd_close(&self, fd: u32) -> Result<(), Error> {
        if self.fs.descriptor(fd) is None {
            Err(Error::Badf)
        } else {
            Ok(())
        }
    }

    /// Closes `fd`.
    pub fn fd_close(&mut self, fd: u32) -> (res: Result<(), Error>)
        requires
            old(self).wf(),
        ensures
            final(self).wf(),
            res == old(self).spec_fd_close(fd),
            final(self).mem == old(self).mem,
            same_but_fds(old(self).fs, final(self).fs),
            res is Ok ==> final(self).fs.fds@ == old(self).fs.fds@.update(fd - FIRST_FD, None),
            res is Err ==> final(self).fs.fds == old(self).fs.fds,
    {
        match self.fs.get_descriptor(fd) {
            None => Err(Error::Badf),
            Some(_) => {
                self.fs.fds.set((fd - FIRST_FD) as usize, None);
                Ok(())
            },
        }
    }

    /// What kind of thing `fd` stands for: the three standard streams are
    /// character devices, the rest is what its inode is.
    pub open spec fn spec_filetype(&self, fd: u32) -> Result<Filetype, Error> {
        if fd < FIRST_FD {
            Ok(Filetype::CharacterDevice)
        } else {
            match self.fs.descriptor(fd) {
                None => Err(Error::Badf),
                Some(d) => if self.fs.is_file(d.ino) {
                    Ok(Filetype::RegularFile)
                } else {
                    Ok(Filetype::Directory)
                },
            }
        }
    }

    /// The status of `fd`: its kind, no flags and every right.
    pub fn fd_fdstat_get(&self, fd: u32) -> (res: Result<Fdstat, Error>)
        requires
            self.wf(),
        ensures
            match self.spec_filetype(fd) {
                Err(e) => res == Err::<Fdstat, Error>(e),
                Ok(fs_filetype) => res == Ok::<Fdstat, Error>(
                    (Fdstat {
                        fs_filetype,
                        fs_flags: 0,
                        fs_rights_base: RIGHTS_ALL,
                        fs_rights_inheriting: RIGHTS_ALL,
                    }),
                ),
            },
    {
        let fs_filetype = if fd < FIRST_FD {
            Filetype::CharacterDevice
        } else {
            match self.fs.get_descriptor(fd) {
                None => { return Err(Error::Badf); },
                Some(d) => {
                    assert(self.fs.fds@[fd - FIRST_FD] == Some(d));
                    if self.fs.nodes[d.ino.0 as usize - 1].data.is_some() {
                        Filetype::RegularFile
                    } else {
                        Filetype::Directory
                    }
                },
            }
        };
        Ok(
            Fdstat {
                fs_filetype,
                fs_flags: 0,
                fs_rights_base: RIGHTS_ALL,
                fs_rights_inheriting: RIGHTS_ALL,
            },
        )
    }

    /// What asking for the mount point `fd` gives: the length of its name.
    /// Only the descriptors that were opened at the start are mount points.
    pub open spec fn spec_prestat(&self, fd: u32) -> Result<Prestat, Error> {
        if !self.fs.is_preopen(fd) {
            Err(Error::Badf)
        } else if self.fs.preopen_name(fd).len() > u32::MAX {
            Err(Error::TryFromInt)
        } else {
            Ok(Prestat::Dir(PrestatDir { pr_name_len: self.fs.preopen_name(fd).len() as u32 }))
        }
    }

    /// Describes the mount point `fd`.
    pub fn fd_prestat_get(&self, fd: u32) -> (res: Result<Prestat, Error>)
        requires
            self.wf(),
        ensures
            res == self.spec_prestat(fd),
    {
        if fd < FIRST_FD || ((fd - FIRST_FD) as usize) >= self.fs.preopens.len()
            || self.fs.get_descriptor(fd).is_none() {
            return Err(Error::Badf);
        }
        let len: usize = self.fs.preopens[(fd - FIRST_FD) as usize].len();
        if len > u32::MAX as usize {
            return Err(Error::TryFromInt);
        }
        Ok(Prestat::Dir(PrestatDir { pr_name_len: len as u32 }))
    }

    /// What writing the name of mount point `fd` to the `path_len` bytes at
    /// `path` gives. The buffer must have the name's length exactly.
    pub open spec fn spec_prestat_dir_name(&self, fd: u32, path: u32, path_len: u32) -> Result<
        (),
        Error,
    > {
        if !self.fs.is_preopen(fd) {
            Err(Error::Badf)
        } else if self.fs.preopen_name(fd).len() > u32::MAX {
            Err(Error::TryFromInt)
        } else if path_len != self.fs.preopen_name(fd).len() {
            Err(Error::Inval)
        } else {
            match self.mem.spec_validate(path, 1, path_len) {
                Err(e) => Err(Error::Guest(e)),
                Ok(()) => Ok(()),
            }
        }
    }

    /// Writes the name of mount point `fd` into guest memory at `path`.
    pub fn fd_prestat_dir_name(&mut self, fd: u32, path: u32, path_len: u32) -> (res: Result<
        (),
        Error,
    >)
        requires
            old(self).wf(),
        ensures
            final(self).wf(),
            final(self).fs == old(self).fs,
            res == old(self).spec_prestat_dir_name(fd, path, path_len),
            res is Ok ==> final(self).mem@ == patched(
                old(self).mem@,
                path as int,
                old(self).fs.preopen_name(fd),
            ),
            res is Err ==> final(self).mem@ == old(self).mem@,
    {
        if fd < FIRST_FD || ((fd - FIRST_FD) as usize) >= self.fs.preopens.len()
            || self.fs.get_descriptor(fd).is_none() {
            return Err(Error::Badf);
        }
        let at: usize = (fd - FIRST_FD) as usize;
        let len: usize = self.fs.preopens[at].len();
        if len > u32::MAX as usize {
            return Err(Error::TryFromInt);
        }
        if path_len != len as u32 {
            return Err(Error::Inval);
        }
        let handle = match self.mem.borrow_mut(path, path_len) {
            Err(e) => { return Err(Error::Guest(e)); },
            Ok(h) => h,
        };
        self.mem.store(path, self.fs.preopens[at].as_slice());
        self.mem.release_mut(handle);
        proof {
            assert(self.mem.exclusive().dom() =~= Set::empty());
        }
        Ok(())
    }

    /// Where a seek on `fd` lands. Only a file can be sought in.
    pub open spec fn spec_fd_seek(&self, fd: u32, offset: i64, whence: Whence) -> Result<
        u64,
        Error,
    > {
        match self.fs.spec_file_of(fd) {
            Err(e) => Err(e),
            Ok(d) => match seek_target(d.pos, self.fs.file_data(d.ino).len(), offset, whence) {
                None => Err(Error::Io),
                Some(target) => Ok(target),
            },
        }
    }

    /// Moves the position of `fd`.
    pub fn fd_seek(&mut self, fd: u32, offset: i64, whence: Whence) -> (res: Result<u64, Error>)
        requires
            old(self).wf(),
        ensures
            final(self).wf(),
            res == old(self).spec_fd_seek(fd, offset, whence),
            final(self).mem == old(self).mem,
            same_but_fds(old(self).fs, final(self).fs),
            res is Ok ==> final(self).fs.fds@ == old(self).fs.fds@.update(
                fd - FIRST_FD,
                Some(
                    Descriptor { ino: old(self).fs.descriptor(fd)->Some_0.ino, pos: res->Ok_0 },
                ),
            ),
            res is Err ==> final(self).fs.fds == old(self).fs.fds,
    {
        let moved = match self.fs.get_file_cursor(fd) {
            Err(e) => { return Err(e); },
            Ok(cursor) => {
                let mut cursor = cursor;
                cursor.seek(offset, whence)
            },
        };
        match moved {
            Err(e) => Err(e),
            Ok(target) => {
                self.fs.set_position(fd, target);
                Ok(target)
            },
        }
    }

    /// What opening `path` under `dirfd` gives. Only a plain read-only open
    /// that follows links is offered; the path must lie in the memory,
    /// `dirfd` must be open, and the path must name an entry.
    pub open spec fn spec_path_open(
        &self,
        dirfd: u32,
        dirflags: u32,
        path: u32,
        path_len: u32,
        oflags: u16,
        fdflags: u16,
    ) -> Result<u32, Error> {
        if dirflags != LOOKUP_SYMLINK_FOLLOW {
            Err(Error::Unsupported("lookup flags"))
        } else if oflags != 0 {
            Err(Error::Unsupported("open flags"))
        } else if fdflags != 0 {
            Err(Error::Unsupported("descriptor flags"))
        } else {
            match self.mem.spec_validate(path, 1, path_len) {
                Err(e) => Err(Error::Guest(e)),
                Ok(()) => match self.fs.descriptor(dirfd) {
                    None => Err(Error::Badf),
                    Some(d) => match self.fs.spec_resolve(
                        d.ino,
                        self.mem@.subrange(path as int, path + path_len),
                    ) {
                        Err(e) => Err(e),
                        Ok(ino) => self.fs.spec_new_fd(ino),
                    },
                },
            }
        }
    }

    /// Opens the entry that the `path_len` bytes at `path` name under the
    /// directory `dirfd`, under the next descriptor and at position 0.
    pub fn path_open(
        &mut self,
        dirfd: u32,
        dirflags: u32,
        path: u32,
        path_len: u32,
        oflags: u16,
        fs_rights_base: u64,
        fs_rights_inheriting: u64,
        fdflags: u16,
    ) -> (res: Result<u32, Error>)
        requires
            old(self).wf(),
        ensures
            final(self).wf(),
            res == old(self).spec_path_open(dirfd, dirflags, path, path_len, oflags, fdflags),
            final(self).mem@ == old(self).mem@,
            same_but_fds(old(self).fs, final(self).fs),
            res is Ok ==> final(self).fs.fds@ == old(self).fs.fds@.push(
                Some(
                    Descriptor {
                        ino: old(self).fs.spec_resolve(
                            old(self).fs.descriptor(dirfd)->Some_0.ino,
                            old(self).mem@.subrange(path as int, path + path_len),
                        )->Ok_0,
                        pos: 0,
                    },
                ),
            ),
            res is Err ==> final(self).fs.fds == old(self).fs.fds,
    {
        if dirflags != LOOKUP_SYMLINK_FOLLOW {
            return Err(Error::Unsupported("lookup flags"));
        }
        if oflags != 0 {
            return Err(Error::Unsupported("open flags"));
        }
        if fdflags != 0 {
            return Err(Error::Unsupported("descriptor flags"));
        }
        let handle = match self.mem.borrow_shared(path, path_len) {
            Err(e) => { return Err(Error::Guest(e)); },
            Ok(h) => h,
        };
        let name = self.mem.load(path, path_len);
        self.mem.release_shared(handle);
        proof {
            assert(self.mem.shared().dom() =~= Set::empty());
        }
        let dir = match self.fs.get_descriptor(dirfd) {
            None => { return Err(Error::Badf); },
            Some(d) => d,
        };
        let ino = match self.fs.resolve(dir.ino, name.as_slice()) {
            Err(e) => { return Err(e); },
            Ok(ino) => ino,
        };
        self.fs.new_fd(ino)
    }

    /// Whether `fd` can be written to: only the two output streams can. A
    /// file is read-only, a directory is no file, and nothing else is open.
    pub open spec fn spec_write_target(&self, fd: u32) -> Result<(), Error> {
        if fd == STDOUT_FILENO || fd == STDERR_FILENO {
            Ok(())
        } else {
            match self.fs.descriptor(fd) {
                None => Err(Error::Badf),
                Some(d) => if self.fs.is_file(d.ino) {
                    Err(Error::Perm)
                } else {
                    Err(Error::Isdir)
                },
            }
        }
    }

    /// What writing the buffers of the list at `ciovs` to `fd` gives: how
    /// many bytes were written. The whole list is checked before `fd` is
    /// looked at.
    pub open spec fn spec_fd_write(&self, fd: u32, ciovs: u32, ciovs_len: u32) -> Result<
        u32,
        Error,
    > {
        match gathered(self.mem@, ciovs, ciovs_len as nat, false) {
            Err(e) => Err(Error::Guest(e)),
            Ok(regions) => match self.spec_write_target(fd) {
                Err(e) => Err(e),
                Ok(()) => if joined(self.mem@, regions).len() > u32::MAX {
                    Err(Error::TryFromInt)
                } else {
                    Ok(joined(self.mem@, regions).len() as u32)
                },
            },
        }
    }

    /// The bytes that a write of the list at `ciovs` to `fd` adds to the
    /// stream `stream`: those of the buffers, in order, where the list is
    /// sound and `fd` is that stream; else none.
    pub open spec fn spec_written(&self, stream: u32, fd: u32, ciovs: u32, ciovs_len: u32) -> Seq<
        u8,
    > {
        match gathered(self.mem@, ciovs, ciovs_len as nat, false) {
            Err(e) => Seq::empty(),
            Ok(regions) => if fd == stream {
                joined(self.mem@, regions)
            } else {
                Seq::empty()
            },
        }
    }

    /// Writes the buffers of the list at `ciovs` to the stream `fd`, in
    /// order.
    pub fn fd_write(&mut self, fd: u32, ciovs: u32, ciovs_len: u32) -> (res: Result<u32, Error>)
        requires
            old(self).wf(),
        ensures
            final(self).wf(),
            res == old(self).spec_fd_write(fd, ciovs, ciovs_len),
            final(self).mem@ == old(self).mem@,
            final(self).fs.nodes == old(self).fs.nodes,
            final(self).fs.fds == old(self).fs.fds,
            final(self).fs.preopens == old(self).fs.preopens,
            final(self).fs.stdout@ == old(self).fs.stdout@ + old(self).spec_written(
                STDOUT_FILENO,
                fd,
                ciovs,
                ciovs_len,
            ),
            final(self).fs.stderr@ == old(self).fs.stderr@ + old(self).spec_written(
                STDERR_FILENO,
                fd,
                ciovs,
                ciovs_len,
            ),
    {
        let regions = match gather(&mut self.mem, ciovs, ciovs_len, false) {
            Err(e) => {
                proof {
                    assert(self.fs.stdout@ + Seq::<u8>::empty() =~= self.fs.stdout@);
                    assert(self.fs.stderr@ + Seq::<u8>::empty() =~= self.fs.stderr@);
                }
                return Err(Error::Guest(e));
            },
            Ok(regions) => regions,
        };
        proof {
            reveal(holds);
            assert(self.fs.stdout@ + Seq::<u8>::empty() =~= self.fs.stdout@);
            assert(self.fs.stderr@ + Seq::<u8>::empty() =~= self.fs.stderr@);
        }
        if fd != STDOUT_FILENO && fd != STDERR_FILENO {
            release_claims(&mut self.mem, regions.len(), false);
            return match self.fs.get_descriptor(fd) {
                None => Err(Error::Badf),
                Some(d) => {
                    assert(self.fs.fds@[fd - FIRST_FD] == Some(d));
                    if self.fs.nodes[d.ino.0 as usize - 1].data.is_some() {
                        Err(Error::Perm)
                    } else {
                        Err(Error::Isdir)
                    }
                },
            };
        }
        let mut total: u64 = 0;
        let mut i: usize = 0;
        let ghost out0 = self.fs.stdout@;
        let ghost err0 = self.fs.stderr@;
        let size: usize = self.mem.len();
        while i < regions.len()
            invariant
                i <= regions@.len(),
                size == self.mem@.len(),
                holds(&self.mem, regions@, false),
                regions@.len() <= u32::MAX,
                fd == STDOUT_FILENO || fd == STDERR_FILENO,
                self.mem@ == old(self).mem@,
                forall|j: int|
                    0 <= j < regions@.len() ==> (#[trigger] regions@[j]).end() <= self.mem@.len(),
                total == joined(self.mem@, regions@.take(i as int)).len(),
                total <= i * 0xffff_ffff,
                self.fs.nodes == old(self).fs.nodes,
                self.fs.fds == old(self).fs.fds,
                self.fs.preopens == old(self).fs.preopens,
                fd == STDOUT_FILENO ==> self.fs.stdout@ == out0 + joined(
                    self.mem@,
                    regions@.take(i as int),
                ) && self.fs.stderr@ == err0,
                fd == STDERR_FILENO ==> self.fs.stderr@ == err0 + joined(
                    self.mem@,
                    regions@.take(i as int),
                ) && self.fs.stdout@ == out0,
            decreases regions@.len() - i,
        {
            let r = regions[i];
            proof {
                assert(regions@.take(i + 1).drop_last() =~= regions@.take(i as int));
                assert(regions@.take(i + 1).last() == r);
                assert(r.end() <= self.mem@.len());
            }
            let chunk = vstd::slice::slice_subrange(
                self.mem.bytes.as_slice(),
                r.start as usize,
                r.start as usize + r.len as usize,
            );
            let ghost so_far = joined(self.mem@, regions@.take(i as int));
            if fd == STDOUT_FILENO {
                append_bytes(&mut self.fs.stdout, chunk);
                proof {
                    assert(self.fs.stdout@ =~= out0 + (so_far + chunk@));
                }
            } else {
                append_bytes(&mut self.fs.stderr, chunk);
                proof {
                    assert(self.fs.stderr@ =~= err0 + (so_far + chunk@));
                }
            }
            total = total + r.len as u64;
            i = i + 1;
        }
        proof {
            assert(regions@.take(i as int) =~= regions@);
            reveal(holds);
        }
        release_claims(&mut self.mem, regions.len(), false);
        if total > u32::MAX as u64 {
            return Err(Error::TryFromInt);
        }
        Ok(total as u32)
    }

    /// What reading from `fd` into the buffers of the list at `iovs` gives:
    /// how many bytes were read. The output streams cannot be read, the
    /// input stream is empty, and the descriptor is looked at before the
    /// list is.
    pub open spec fn spec_fd_read(&self, fd: u32, iovs: u32, iovs_len: u32) -> Result<u32, Error> {
        if fd == STDOUT_FILENO || fd == STDERR_FILENO {
            Err(Error::Inval)
        } else if fd == STDIN_FILENO {
            Ok(0)
        } else {
            match self.fs.spec_file_of(fd) {
                Err(e) => Err(e),
                Ok(d) => match gathered(self.mem@, iovs, iovs_len as nat, true) {
                    Err(e) => Err(Error::Guest(e)),
                    Ok(regions) => {
                        let n = taken(
                            regions,
                            available(self.fs.file_data(d.ino).len(), d.pos),
                        );
                        if n > u32::MAX {
                            Err(Error::TryFromInt)
                        } else {
                            Ok(n as u32)
                        }
                    },
                },
            }
        }
    }

    /// Whether a read from `fd` into the list at `iovs` gets as far as
    /// copying: `fd` is a file and the list is sound.
    pub open spec fn read_copies(&self, fd: u32, iovs: u32, iovs_len: u32) -> bool {
        &&& fd >= FIRST_FD
        &&& self.fs.spec_file_of(fd) is Ok
        &&& gathered(self.mem@, iovs, iovs_len as nat, true) is Ok
    }

    /// Reads from the position of `fd` on into the buffers of the list at
    /// `iovs`, in order, and moves the position past what was read. Where
    /// fewer bytes are left than there is room for, those are read; at the
    /// end of the file none is.
    pub fn fd_read(&mut self, fd: u32, iovs: u32, iovs_len: u32) -> (res: Result<u32, Error>)
        requires
            old(self).wf(),
        ensures
            final(self).wf(),
            res == old(self).spec_fd_read(fd, iovs, iovs_len),
            same_but_fds(old(self).fs, final(self).fs),
            !old(self).read_copies(fd, iovs, iovs_len) ==> final(self).mem@ == old(self).mem@
                && final(self).fs.fds == old(self).fs.fds,
            old(self).read_copies(fd, iovs, iovs_len) ==> {
                let d = old(self).fs.spec_file_of(fd)->Ok_0;
                let data = old(self).fs.file_data(d.ino);
                let regions = gathered(old(self).mem@, iovs, iovs_len as nat, true)->Ok_0;
                &&& final(self).mem@ == scattered(old(self).mem@, regions, data, d.pos)
                &&& final(self).fs.fds@ == old(self).fs.fds@.update(
                    fd - FIRST_FD,
                    Some(
                        Descriptor {
                            ino: d.ino,
                            pos: (d.pos + taken(regions, available(data.len(), d.pos))) as u64,
                        },
                    ),
                )
            },
    {
        if fd == STDOUT_FILENO || fd == STDERR_FILENO {
            return Err(Error::Inval);
        }
        if fd == STDIN_FILENO {
            return Ok(0);
        }
        let start: u64 = match self.fs.get_file_cursor(fd) {
            Err(e) => { return Err(e); },
            Ok(cursor) => cursor.position(),
        };
        let regions = match gather(&mut self.mem, iovs, iovs_len, true) {
            Err(e) => { return Err(Error::Guest(e)); },
            Ok(regions) => regions,
        };
        let end: u64 = match self.fs.get_file_cursor(fd) {
            Err(e) => start,
            Ok(cursor) => fill(&mut self.mem, &regions, cursor),
        };
        proof {
            reveal(holds);
        }
        release_claims(&mut self.mem, regions.len(), true);
        self.fs.set_position(fd, end);
        let total: u64 = end - start;
        if total > u32::MAX as u64 {
            return Err(Error::TryFromInt);
        }
        Ok(total as u32)
    }
}

/// The mount points are the descriptors from `FIRST_FD` on, one after the
/// other and none left out: a descriptor is described as a mount point
/// exactly when it lies among them and was not closed, each of them that is
/// open stands for a directory, and the first descriptor past the last of
/// them is a bad descriptor. So a guest that probes the descriptors in
/// order, before it closes any, finds all of them and then stops.
pub proof fn lemma_preopens_are_contiguous(ctx: WasiCtx, fd: u32)
    requires
        ctx.wf(),
    ensures
        ctx.spec_prestat(fd) != Err::<Prestat, Error>(Error::Badf) <==> FIRST_FD <= fd < FIRST_FD
            + ctx.fs.preopens@.len() && ctx.fs.descriptor(fd) is Some,
        ctx.fs.is_preopen(fd) ==> ctx.spec_filetype(fd) == Ok::<Filetype, Error>(
            Filetype::Directory,
        ),
        fd == FIRST_FD + ctx.fs.preopens@.len() ==> ctx.spec_prestat(fd) == Err::<Prestat, Error>(
            Error::Badf,
        ),
{
    if ctx.fs.is_preopen(fd) {
        assert(ctx.fs.fds@[fd - FIRST_FD] is Some);
    }
}

/// A read never takes more than the file has left, and a file that has less
/// left than there is room for gives what it has and no error: at its end
/// that is nothing.
pub proof fn lemma_read_gives_what_is_left(ctx: WasiCtx, fd: u32, iovs: u32, iovs_len: u32)
    requires
        ctx.wf(),
        ctx.read_copies(fd, iovs, iovs_len),
    ensures
        ({
            let d = ctx.fs.spec_file_of(fd)->Ok_0;
            let left = available(ctx.fs.file_data(d.ino).len(), d.pos);
            let room = total_len(gathered(ctx.mem@, iovs, iovs_len as nat, true)->Ok_0);
            &&& left <= room && left <= u32::MAX ==> ctx.spec_fd_read(fd, iovs, iovs_len) == Ok::<
                u32,
                Error,
            >(left as u32)
            &&& left == 0 ==> ctx.spec_fd_read(fd, iovs, iovs_len) == Ok::<u32, Error>(0u32)
            &&& ctx.spec_fd_read(fd, iovs, iovs_len) is Ok ==> ctx.spec_fd_read(
                fd,
                iovs,
                iovs_len,
            )->Ok_0 <= left
        }),
{
}

/// A seek in a file lands where the arithmetic says: at the offset from the
/// start, at the position plus the offset, or at the length plus the offset,
/// as long as that is a position. A directory cannot be sought in.
pub proof fn lemma_seek_arithmetic(ctx: WasiCtx, fd: u32, offset: i64)
    requires
        ctx.wf(),
        ctx.fs.descriptor(fd) is Some,
    ensures
        ({
            let d = ctx.fs.descriptor(fd)->Some_0;
            let len = ctx.fs.file_data(d.ino).len();
            &&& ctx.fs.is_dir(d.ino) ==> ctx.spec_fd_seek(fd, offset, Whence::Start) == Err::<
                u64,
                Error,
            >(Error::Isdir) && ctx.spec_fd_seek(fd, offset, Whence::Current) == Err::<u64, Error>(
                Error::Isdir,
            ) && ctx.spec_fd_seek(fd, offset, Whence::End) == Err::<u64, Error>(Error::Isdir)
            &&& ctx.fs.is_file(d.ino) && offset >= 0 ==> ctx.spec_fd_seek(fd, offset, Whence::Start)
                == Ok::<u64, Error>(offset as u64)
            &&& ctx.fs.is_file(d.ino) && 0 <= d.pos + offset <= u64::MAX ==> ctx.spec_fd_seek(
                fd,
                offset,
                Whence::Current,
            ) == Ok::<u64, Error>((d.pos + offset) as u64)
            &&& ctx.fs.is_file(d.ino) && 0 <= len + offset <= u64::MAX ==> ctx.spec_fd_seek(
                fd,
                offset,
                Whence::End,
            ) == Ok::<u64, Error>((len + offset) as u64)
        }),
{
    let d = ctx.fs.descriptor(fd)->Some_0;
    assert(ctx.fs.fds@[fd - FIRST_FD] == Some(d));
}

/// The two output streams are apart: a write to one adds nothing to the
/// other.
pub proof fn lemma_streams_are_apart(ctx: WasiCtx, ciovs: u32, ciovs_len: u32)
    ensures
        ctx.spec_written(STDOUT_FILENO, STDERR_FILENO, ciovs, ciovs_len) == Seq::<u8>::empty(),
        ctx.spec_written(STDERR_FILENO, STDOUT_FILENO, ciovs, ciovs_len) == Seq::<u8>::empty(),
{
}

/// A number that stands for nothing stays so when another entry is opened:
/// the new descriptor gets the next number, and no number is handed out
/// twice.
pub proof fn lemma_numbers_are_not_reused(before: WasiCtx, after: WasiCtx, fd: u32, opened: Descriptor)
    requires
        before.wf(),
        FIRST_FD <= fd < before.fs.next_fd(),
        before.fs.descriptor(fd) is None,
        after.fs.fds@ == before.fs.fds@.push(Some(opened)),
    ensures
        after.fs.descriptor(fd) is None,
        after.fs.descriptor(before.fs.next_fd() as u32) == Some(opened),
{
}

/// A descriptor that was closed is closed, be it a mount point or opened by
/// path: to close it once more is to name a bad descriptor, and it is no
/// mount point any more.
pub proof fn lemma_close_twice(before: WasiCtx, after: WasiCtx, fd: u32)
    requires
        before.wf(),
        before.spec_fd_close(fd) is Ok,
        after.fs.preopens == before.fs.preopens,
        after.fs.fds@ == before.fs.fds@.update(fd - FIRST_FD, None),
    ensures
        before.fs.descriptor(fd) is Some,
        after.spec_fd_close(fd) == Err::<(), Error>(Error::Badf),
        after.spec_prestat(fd) == Err::<Prestat, Error>(Error::Badf),
{
}

/// Fills the buffers `regions` of `mem`, one after the other, with what
/// `cursor` still has to give. Returns the position the cursor ends at.
fn fill(mem: &mut GuestMemory, regions: &Vec<Region>, cursor: FileCursor<'_>) -> (end: u64)
    requires
        holds(old(mem), regions@, true),
        forall|j: int| 0 <= j < regions@.len() ==> (#[trigger] regions@[j]).end() <= old(mem)@.len(),
    ensures
        holds(final(mem), regions@, true),
        final(mem)@ == scattered(old(mem)@, regions@, cursor.data@, cursor.pos),
        end == cursor.pos + taken(regions@, available(cursor.data@.len(), cursor.pos)),
{
    let mut cursor = cursor;
    let ghost data = cursor.data@;
    let ghost pos = cursor.pos;
    let ghost avail = available(data.len(), pos);
    let mut i: usize = 0;
    while i < regions.len()
        invariant
            i <= regions@.len(),
            holds(mem, regions@, true),
            mem@.len() == old(mem)@.len(),
            forall|j: int|
                0 <= j < regions@.len() ==> (#[trigger] regions@[j]).end() <= mem@.len(),
            cursor.data@ == data,
            avail == available(data.len(), pos),
            cursor.pos == pos + taken(regions@.take(i as int), avail),
            mem@ == scattered(old(mem)@, regions@.take(i as int), data, pos),
        decreases regions@.len() - i,
    {
        let r = regions[i];
        proof {
            assert(regions@.take(i + 1).drop_last() =~= regions@.take(i as int));
            assert(regions@.take(i + 1).last() == r);
            assert(r.end() <= mem@.len());
        }
        let ghost checker = mem.checker;
        let chunk = cursor.read(r.len as usize);
        if chunk.len() > 0 {
            mem.store(r.start, chunk);
        }
        proof {
            assert(mem.checker == checker);
            reveal(holds);
        }
        i = i + 1;
    }
    proof {
        assert(regions@.take(i as int) =~= regions@);
    }
    cursor.position()
}

} // verus!
