//! The accessor to a guest's linear memory.
//!
//! The memory is one flat buffer. A guest pointer is an offset into it, and
//! every access is first checked against the buffer's bounds and against the
//! claims that are held on it.

use vstd::prelude::*;
use wiggle_borrow::BorrowChecker;
use crate::borrow::{
    any_overlap, checker_has_outstanding_borrows, checker_is_mut_borrowed,
    checker_is_shared_borrowed, checker_mut_borrow, checker_mut_unborrow, checker_new,
    checker_shared_borrow, checker_shared_unborrow, exclusive_claims, mut_borrow_outcome,
    next_handle, no_claims, shared_borrow_outcome, shared_claims,
};
use crate::errno::{Errno, GuestError, Region};

verus! {

/// `mem` with `data` laid over it from `offset` on.
pub open spec fn patched(mem: Seq<u8>, offset: int, data: Seq<u8>) -> Seq<u8>
    recommends
        0 <= offset,
        offset + data.len() <= mem.len(),
{
    mem.subrange(0, offset) + data + mem.subrange(offset + data.len(), mem.len() as int)
}

/// The `width` low bytes of `value`, lowest first.
pub open spec fn le_bytes(value: nat, width: nat) -> Seq<u8>
    decreases width,
{
    if width == 0 {
        Seq::empty()
    } else {
        seq![(value % 256) as u8] + le_bytes(value / 256, (width - 1) as nat)
    }
}

/// The number that the four bytes of `mem` from `offset` on spell, lowest
/// byte first.
pub open spec fn u32_at(mem: Seq<u8>, offset: int) -> int
    recommends
        0 <= offset,
        offset + 4 <= mem.len(),
{
    mem[offset] + 256 * mem[offset + 1] + 65536 * mem[offset + 2] + 16777216 * mem[offset + 3]
}

/// A guest's linear memory with the claims held on it.
pub struct GuestMemory {
    pub bytes: Vec<u8>,
    pub checker: BorrowChecker,
}

impl View for GuestMemory {
    type V = Seq<u8>;

    open spec fn view(&self) -> Seq<u8> {
        self.bytes@
    }
}

impl GuestMemory {
    /// The shared claims held, by handle.
    pub open spec fn shared(&self) -> Map<usize, (u32, u32)> {
        shared_claims(self.checker)
    }

    /// The exclusive claims held, by handle.
    pub open spec fn exclusive(&self) -> Map<usize, (u32, u32)> {
        exclusive_claims(self.checker)
    }

    /// No claim is held.
    pub open spec fn idle(&self) -> bool {
        no_claims(self.checker)
    }

    /// Every claim is held under a handle that was given out already: one
    /// below the handle that comes next. So a new claim never gets the
    /// handle of a claim that is held.
    pub open spec fn handles_in_order(&self) -> bool {
        &&& forall|h: usize| #[trigger]
            self.shared().dom().contains(h) ==> h < next_handle(self.checker)
        &&& forall|h: usize| #[trigger]
            self.exclusive().dom().contains(h) ==> h < next_handle(self.checker)
    }

    /// Whether `len` bytes from `offset` lie in the memory, at a multiple of
    /// `align`.
    pub open spec fn spec_validate(&self, offset: u32, align: u32, len: u32) -> Result<
        (),
        GuestError,
    > {
        let region = Region { start: offset, len };
        if offset + len > self@.len() {
            Err(GuestError::PtrOutOfBounds(region))
        } else if offset as int % align as int != 0 {
            Err(GuestError::PtrNotAligned(region, align))
        } else {
            Ok(())
        }
    }

    /// What reading a 32-bit number at `offset` gives.
    pub open spec fn spec_read_u32(&self, offset: u32) -> Result<u32, GuestError> {
        let region = Region { start: offset, len: 4 };
        match self.spec_validate(offset, 4, 4) {
            Err(e) => Err(e),
            Ok(()) => if any_overlap(self.exclusive(), region) {
                Err(GuestError::PtrBorrowed(region))
            } else {
                Ok(u32_at(self@, offset as int) as u32)
            },
        }
    }

    /// Whether a number of `width` bytes may be written at `offset`.
    pub open spec fn spec_write_check(&self, offset: u32, width: u32) -> Result<(), GuestError> {
        let region = Region { start: offset, len: width };
        match self.spec_validate(offset, width, width) {
            Err(e) => Err(e),
            Ok(()) => if any_overlap(self.shared(), region) || any_overlap(
                self.exclusive(),
                region,
            ) {
                Err(GuestError::PtrBorrowed(region))
            } else {
                Ok(())
            },
        }
    }

    /// What asking for a shared claim on `len` bytes from `offset` gives.
    pub open spec fn spec_borrow_shared(&self, offset: u32, len: u32) -> Result<usize, GuestError> {
        match self.spec_validate(offset, 1, len) {
            Err(e) => Err(e),
            Ok(()) => shared_borrow_outcome(self.checker, Region { start: offset, len }),
        }
    }

    /// What asking for an exclusive claim on `len` bytes from `offset` gives.
    pub open spec fn spec_borrow_mut(&self, offset: u32, len: u32) -> Result<usize, GuestError> {
        match self.spec_validate(offset, 1, len) {
            Err(e) => Err(e),
            Ok(()) => mut_borrow_outcome(self.checker, Region { start: offset, len }),
        }
    }

    /// A memory that holds `bytes`, with no claim on it.
    pub fn new(bytes: Vec<u8>) -> (m: GuestMemory)
        ensures
            m@ == bytes@,
            m.idle(),
            m.handles_in_order(),
    {
        GuestMemory { bytes, checker: checker_new() }
    }

    /// The size of the memory in bytes.
    pub fn len(&self) -> (n: usize)
        ensures
            n == self@.len(),
    {
        self.bytes.len()
    }

    /// The memory's contents.
    pub fn as_bytes(&self) -> (b: &Vec<u8>)
        ensures
            b@ == self@,
    {
        &self.bytes
    }

    /// Gives the buffer back.
    pub fn into_bytes(self) -> (b: Vec<u8>)
        ensures
            b@ == self@,
    {
        self.bytes
    }

    /// Whether any claim is held on the memory.
    pub fn has_outstanding_borrows(&self) -> (b: bool)
        ensures
            b == !self.idle(),
    {
        checker_has_outstanding_borrows(&self.checker)
    }

    /// Whether a shared claim overlaps `r`.
    pub fn is_shared_borrowed(&self, r: Region) -> (b: bool)
        ensures
            b == any_overlap(self.shared(), r),
    {
        checker_is_shared_borrowed(&self.checker, r)
    }

    /// Whether an exclusive claim overlaps `r`.
    pub fn is_mut_borrowed(&self, r: Region) -> (b: bool)
        ensures
            b == any_overlap(self.exclusive(), r),
    {
        checker_is_mut_borrowed(&self.checker, r)
    }

    /// Checks that `len` bytes from `offset` lie in the memory, at a
    /// multiple of `align`.
    pub fn validate(&self, offset: u32, align: u32, len: u32) -> (res: Result<(), GuestError>)
        requires
            align > 0,
        ensures
            res == self.spec_validate(offset, align, len),
    {
        let region = Region { start: offset, len };
        let end: u64 = offset as u64 + len as u64;
        if end > self.bytes.len() as u64 {
            return Err(GuestError::PtrOutOfBounds(region));
        }
        if offset % align != 0 {
            return Err(GuestError::PtrNotAligned(region, align));
        }
        Ok(())
    }

    /// Reads the 32-bit number at `offset`, unless an exclusive claim covers
    /// any of its bytes.
    pub fn read_u32(&self, offset: u32) -> (res: Result<u32, GuestError>)
        ensures
            res == self.spec_read_u32(offset),
    {
        match self.validate(offset, 4, 4) {
            Err(e) => { return Err(e); },
            Ok(()) => {},
        }
        let region = Region { start: offset, len: 4 };
        if checker_is_mut_borrowed(&self.checker, region) {
            return Err(GuestError::PtrBorrowed(region));
        }
        let at: usize = offset as usize;
        let b0: u32 = self.bytes[at] as u32;
        let b1: u32 = self.bytes[at + 1] as u32;
        let b2: u32 = self.bytes[at + 2] as u32;
        let b3: u32 = self.bytes[at + 3] as u32;
        Ok(b0 + 256 * b1 + 65536 * b2 + 16777216 * b3)
    }

    /// Lays `data` over the memory from `offset` on. No check is made against
    /// the claims: the caller holds the one that covers the range.
    pub fn store(&mut self, offset: u32, data: &[u8])
        requires
            offset + data@.len() <= old(self)@.len(),
        ensures
            final(self)@ == patched(old(self)@, offset as int, data@),
            final(self).checker == old(self).checker,
    {
        let n: usize = data.len();
        let base: usize = offset as usize;
        let total: usize = self.bytes.len();
        let mut i: usize = 0;
        while i < n
            invariant
                n == data@.len(),
                total == self@.len(),
                base == offset,
                i <= n,
                base + n <= self@.len(),
                self@.len() == old(self)@.len(),
                self.checker == old(self).checker,
                self@ == patched(old(self)@, offset as int, data@.subrange(0, i as int)),
            decreases n - i,
        {
            self.bytes.set(base + i, data[i]);
            proof {
                assert(self@ =~= patched(
                    old(self)@,
                    offset as int,
                    data@.subrange(0, i as int + 1),
                ));
            }
            i = i + 1;
        }
        proof {
            assert(data@.subrange(0, n as int) =~= data@);
        }
    }

    /// Copies `len` bytes from `offset` on out of the memory. No check is made
    /// against the claims: the caller holds one that covers the range.
    pub fn load(&self, offset: u32, len: u32) -> (data: Vec<u8>)
        requires
            offset + len <= self@.len(),
        ensures
            data@ == self@.subrange(offset as int, offset + len),
    {
        let mut data: Vec<u8> = Vec::new();
        let base: usize = offset as usize;
        let n: usize = len as usize;
        let total: usize = self.bytes.len();
        let mut i: usize = 0;
        while i < n
            invariant
                total == self@.len(),
                base == offset,
                n == len,
                i <= n,
                base + n <= self@.len(),
                data@ == self@.subrange(offset as int, offset + i),
            decreases n - i,
        {
            data.push(self.bytes[base + i]);
            proof {
                assert(data@ =~= self@.subrange(offset as int, offset + i + 1));
            }
            i = i + 1;
        }
        data
    }

    /// Writes the `width` low bytes of `value` at `offset`, lowest first,
    /// unless a claim covers any of the bytes written.
    pub fn write_le(&mut self, offset: u32, width: u32, value: u64) -> (res: Result<
        (),
        GuestError,
    >)
        requires
            width == 1 || width == 2 || width == 4 || width == 8,
        ensures
            res == old(self).spec_write_check(offset, width),
            final(self).checker == old(self).checker,
            res is Ok ==> final(self)@ == patched(
                old(self)@,
                offset as int,
                le_bytes(value as nat, width as nat),
            ),
            res is Err ==> final(self)@ == old(self)@,
    {
        match self.validate(offset, width, width) {
            Err(e) => { return Err(e); },
            Ok(()) => {},
        }
        let region = Region { start: offset, len: width };
        if checker_is_shared_borrowed(&self.checker, region) || checker_is_mut_borrowed(
            &self.checker,
            region,
        ) {
            return Err(GuestError::PtrBorrowed(region));
        }
        let mut data: Vec<u8> = Vec::new();
        let mut rest: u64 = value;
        let mut i: u32 = 0;
        while i < width
            invariant
                i <= width,
                data@.len() == i,
                data@ + le_bytes(rest as nat, (width - i) as nat) == le_bytes(
                    value as nat,
                    width as nat,
                ),
            decreases width - i,
        {
            let ghost before = data@;
            data.push((rest % 256) as u8);
            proof {
                assert(data@ + le_bytes((rest / 256) as nat, (width - i - 1) as nat) =~= before
                    + le_bytes(rest as nat, (width - i) as nat));
            }
            rest = rest / 256;
            i = i + 1;
        }
        proof {
            assert(data@ + le_bytes(rest as nat, 0) =~= data@);
        }
        self.store(offset, data.as_slice());
        Ok(())
    }

    /// Takes a shared claim on `len` bytes from `offset`, for reading them.
    pub fn borrow_shared(&mut self, offset: u32, len: u32) -> (res: Result<usize, GuestError>)
        ensures
            res == old(self).spec_borrow_shared(offset, len),
            final(self)@ == old(self)@,
            final(self).exclusive() == old(self).exclusive(),
            res is Ok ==> final(self).shared() == old(self).shared().insert(
                res->Ok_0,
                (offset, len),
            ),
            res is Ok ==> next_handle(final(self).checker) == res->Ok_0 + 1,
            res is Err ==> final(self).shared() == old(self).shared(),
            res is Err ==> next_handle(final(self).checker) == next_handle(old(self).checker),
            old(self).handles_in_order() ==> final(self).handles_in_order(),
            old(self).handles_in_order() && res is Ok ==> !old(self).shared().dom().contains(
                res->Ok_0,
            ) && !old(self).exclusive().dom().contains(res->Ok_0),
    {
        match self.validate(offset, 1, len) {
            Err(e) => { return Err(e); },
            Ok(()) => {},
        }
        let res = checker_shared_borrow(&mut self.checker, Region { start: offset, len });
        proof {
            if old(self).handles_in_order() {
                assert forall|h: usize| #[trigger] self.shared().dom().contains(h) implies h
                    < next_handle(self.checker) by {
                    if !old(self).shared().dom().contains(h) {
                        assert(res is Ok && h == res->Ok_0);
                    }
                }
                assert forall|h: usize| #[trigger] self.exclusive().dom().contains(h) implies h
                    < next_handle(self.checker) by {
                    if !old(self).exclusive().dom().contains(h) {
                        assert(res is Ok && h == res->Ok_0);
                    }
                }
            }
        }
        res
    }

    /// Takes an exclusive claim on `len` bytes from `offset`, for writing
    /// them.
    pub fn borrow_mut(&mut self, offset: u32, len: u32) -> (res: Result<usize, GuestError>)
        ensures
            res == old(self).spec_borrow_mut(offset, len),
            final(self)@ == old(self)@,
            final(self).shared() == old(self).shared(),
            res is Ok ==> final(self).exclusive() == old(self).exclusive().insert(
                res->Ok_0,
                (offset, len),
            ),
            res is Ok ==> next_handle(final(self).checker) == res->Ok_0 + 1,
            res is Err ==> final(self).exclusive() == old(self).exclusive(),
            res is Err ==> next_handle(final(self).checker) == next_handle(old(self).checker),
            old(self).handles_in_order() ==> final(self).handles_in_order(),
            old(self).handles_in_order() && res is Ok ==> !old(self).shared().dom().contains(
                res->Ok_0,
            ) && !old(self).exclusive().dom().contains(res->Ok_0),
    {
        match self.validate(offset, 1, len) {
            Err(e) => { return Err(e); },
            Ok(()) => {},
        }
        let res = checker_mut_borrow(&mut self.checker, Region { start: offset, len });
        proof {
            if old(self).handles_in_order() {
                assert forall|h: usize| #[trigger] self.shared().dom().contains(h) implies h
                    < next_handle(self.checker) by {
                    if !old(self).shared().dom().contains(h) {
                        assert(res is Ok && h == res->Ok_0);
                    }
                }
                assert forall|h: usize| #[trigger] self.exclusive().dom().contains(h) implies h
                    < next_handle(self.checker) by {
                    if !old(self).exclusive().dom().contains(h) {
                        assert(res is Ok && h == res->Ok_0);
                    }
                }
            }
        }
        res
    }

    /// Gives up the shared claim held under `handle`.
    pub fn release_shared(&mut self, handle: usize)
        requires
            old(self).shared().dom().contains(handle),
        ensures
            final(self)@ == old(self)@,
            final(self).shared() == old(self).shared().remove(handle),
            final(self).exclusive() == old(self).exclusive(),
            next_handle(final(self).checker) == next_handle(old(self).checker),
            old(self).handles_in_order() ==> final(self).handles_in_order(),
    {
        checker_shared_unborrow(&mut self.checker, handle);
        proof {
            if old(self).handles_in_order() {
                assert forall|h: usize| #[trigger] self.shared().dom().contains(h) implies h
                    < next_handle(self.checker) by {
                    assert(old(self).shared().dom().contains(h));
                }
                assert forall|h: usize| #[trigger] self.exclusive().dom().contains(h) implies h
                    < next_handle(self.checker) by {
                    assert(old(self).exclusive().dom().contains(h));
                }
            }
        }
    }

    /// Gives up the exclusive claim held under `handle`.
    pub fn release_mut(&mut self, handle: usize)
        requires
            old(self).exclusive().dom().contains(handle),
        ensures
            final(self)@ == old(self)@,
            final(self).exclusive() == old(self).exclusive().remove(handle),
            final(self).shared() == old(self).shared(),
            next_handle(final(self).checker) == next_handle(old(self).checker),
            old(self).handles_in_order() ==> final(self).handles_in_order(),
    {
        checker_mut_unborrow(&mut self.checker, handle);
        proof {
            if old(self).handles_in_order() {
                assert forall|h: usize| #[trigger] self.shared().dom().contains(h) implies h
                    < next_handle(self.checker) by {
                    assert(old(self).shared().dom().contains(h));
                }
                assert forall|h: usize| #[trigger] self.exclusive().dom().contains(h) implies h
                    < next_handle(self.checker) by {
                    assert(old(self).exclusive().dom().contains(h));
                }
            }
        }
    }
}

/// Shared claims stand in nobody's way but a writer's. Once a shared claim
/// on `first` is held, a second shared claim on a range in the memory is
/// still given, whether the two ranges are apart or not, as long as no
/// exclusive claim overlaps it and handles are left; an exclusive claim on
/// a range that overlaps `first` is refused, and the guest is told of a
/// fault.
pub proof fn lemma_shared_then_exclusive(
    before: GuestMemory,
    after: GuestMemory,
    first: Region,
    second: Region,
)
    requires
        before.spec_borrow_shared(first.start, first.len) is Ok,
        after@ == before@,
        after.exclusive() == before.exclusive(),
        after.shared() == before.shared().insert(
            before.spec_borrow_shared(first.start, first.len)->Ok_0,
            (first.start, first.len),
        ),
        next_handle(after.checker) == before.spec_borrow_shared(first.start, first.len)->Ok_0 + 1,
        second.end() <= before@.len(),
    ensures
        !any_overlap(before.exclusive(), second) && next_handle(after.checker) < usize::MAX
            ==> after.spec_borrow_shared(second.start, second.len) == Ok::<usize, GuestError>(
            next_handle(after.checker),
        ),
        first.spec_overlaps(second) ==> after.spec_borrow_mut(second.start, second.len) == Err::<
            usize,
            GuestError,
        >(GuestError::PtrBorrowed(second)),
        first.spec_overlaps(second) ==> Errno::of_guest_error(
            after.spec_borrow_mut(second.start, second.len)->Err_0,
        ) == Errno::Fault,
{
    let h = before.spec_borrow_shared(first.start, first.len)->Ok_0;
    assert(after.shared().dom().contains(h));
    assert(!no_claims(after.checker));
    if first.spec_overlaps(second) {
        assert((Region { start: after.shared()[h].0, len: after.shared()[h].1 }).spec_overlaps(
            second,
        ));
    }
}

} // verus!
