//! Scatter and gather lists: arrays of `(offset, length)` pairs in guest
//! memory that name the buffers of one read or write.
//!
//! Each pair is read back through the accessor, and each buffer is claimed
//! before the next pair is read: exclusively for a read into guest memory,
//! shared for a write out of it.

use vstd::prelude::*;
use crate::borrow::{any_overlap, next_handle, no_claims};
use crate::errno::{GuestError, Region};
use crate::memory::{u32_at, GuestMemory};

verus! {

/// The size of one pair in guest memory.
pub const IOVEC_SIZE: u32 = 8;

/// One of the ranges `held` overlaps `r`.
pub open spec fn overlaps_held(held: Seq<Region>, r: Region) -> bool {
    exists|j: int| 0 <= j < held.len() && (#[trigger] held[j]).spec_overlaps(r)
}

/// What reading the 32-bit number at `offset` gives while the ranges `held`
/// are claimed exclusively.
pub open spec fn number_at(mem: Seq<u8>, held: Seq<Region>, offset: u32) -> Result<
    u32,
    GuestError,
> {
    let region = Region { start: offset, len: 4 };
    if offset + 4 > mem.len() {
        Err(GuestError::PtrOutOfBounds(region))
    } else if offset % 4 != 0 {
        Err(GuestError::PtrNotAligned(region, 4))
    } else if overlaps_held(held, region) {
        Err(GuestError::PtrBorrowed(region))
    } else {
        Ok(u32_at(mem, offset as int) as u32)
    }
}

/// What reading pair `i` of the list at `base` gives while the ranges `held`
/// are claimed exclusively: the buffer it names, or the first fault met.
pub open spec fn pair_at(mem: Seq<u8>, held: Seq<Region>, base: u32, i: nat) -> Result<
    Region,
    GuestError,
> {
    if base + IOVEC_SIZE * i > u32::MAX {
        Err(GuestError::PtrOverflow)
    } else {
        let at = (base + IOVEC_SIZE * i) as u32;
        match number_at(mem, held, at) {
            Err(e) => Err(e),
            Ok(start) => if at + 4 > u32::MAX {
                Err(GuestError::PtrOverflow)
            } else {
                match number_at(mem, held, (at + 4) as u32) {
                    Err(e) => Err(e),
                    Ok(len) => Ok(Region { start, len }),
                }
            },
        }
    }
}

/// Whether the buffer `r` can be claimed while the ranges `held` are: it
/// must lie in the memory and, for an exclusive claim, overlap none of them.
pub open spec fn claimable(size: nat, held: Seq<Region>, r: Region) -> Result<(), GuestError> {
    if r.start + r.len > size {
        Err(GuestError::PtrOutOfBounds(r))
    } else if overlaps_held(held, r) {
        Err(GuestError::PtrBorrowed(r))
    } else {
        Ok(())
    }
}

/// The buffers that the first `n` pairs of the list at `base` name, or the
/// first fault met on the way. Pairs are taken in order, and each buffer is
/// claimed before the next pair is read. With `exclusive` claims a pair or a
/// buffer that touches an earlier buffer is a fault; shared claims stand in
/// nobody's way.
pub open spec fn gathered(mem: Seq<u8>, base: u32, n: nat, exclusive: bool) -> Result<
    Seq<Region>,
    GuestError,
>
    decreases n,
{
    if n == 0 {
        Ok(Seq::empty())
    } else {
        match gathered(mem, base, (n - 1) as nat, exclusive) {
            Err(e) => Err(e),
            Ok(prev) => {
                let held = if exclusive {
                    prev
                } else {
                    Seq::empty()
                };
                match pair_at(mem, held, base, (n - 1) as nat) {
                    Err(e) => Err(e),
                    Ok(r) => match claimable(mem.len(), held, r) {
                        Err(e) => Err(e),
                        Ok(()) => Ok(prev.push(r)),
                    },
                }
            },
        }
    }
}

/// The claims `claims` are the ranges `held`, range `j` under handle `j`.
pub open spec fn claims_are(claims: Map<usize, (u32, u32)>, held: Seq<Region>) -> bool {
    &&& forall|h: usize| #[trigger] claims.dom().contains(h) <==> h < held.len()
    &&& forall|j: int|
        0 <= j < held.len() ==> claims[j as usize] == ((#[trigger] held[j]).start, held[j].len)
}

/// Where claims and ranges agree, a range overlaps a claim exactly when it
/// overlaps one of the ranges.
pub proof fn lemma_claims_overlap(claims: Map<usize, (u32, u32)>, held: Seq<Region>, r: Region)
    requires
        claims_are(claims, held),
    ensures
        any_overlap(claims, r) == overlaps_held(held, r),
{
    if any_overlap(claims, r) {
        let h = choose|h: usize| #[trigger]
            claims.dom().contains(h) && (Region {
                start: claims[h].0,
                len: claims[h].1,
            }).spec_overlaps(r);
        assert(held[h as int].spec_overlaps(r));
    }
    if overlaps_held(held, r) {
        let j = choose|j: int| 0 <= j < held.len() && (#[trigger] held[j]).spec_overlaps(r);
        assert(claims.dom().contains(j as usize));
    }
}

/// A fault met among the first `n` pairs is the outcome for every longer
/// list.
pub proof fn lemma_fault_stays(mem: Seq<u8>, base: u32, n: nat, m: nat, exclusive: bool)
    requires
        n <= m,
        gathered(mem, base, n, exclusive) is Err,
    ensures
        gathered(mem, base, m, exclusive) == gathered(mem, base, n, exclusive),
    decreases m,
{
    if n < m {
        lemma_fault_stays(mem, base, n, (m - 1) as nat, exclusive);
    }
}

/// The claims of `claims` are held under the handles below `count`.
pub open spec fn handles_below(claims: Map<usize, (u32, u32)>, count: nat) -> bool {
    forall|h: usize| #[trigger] claims.dom().contains(h) <==> h < count
}

/// Gives up the claims held under the handles below `count`, all of one
/// kind, so that none is left.
pub fn release_claims(mem: &mut GuestMemory, count: usize, exclusive: bool)
    requires
        exclusive ==> handles_below(old(mem).exclusive(), count as nat) && handles_below(
            old(mem).shared(),
            0,
        ),
        !exclusive ==> handles_below(old(mem).shared(), count as nat) && handles_below(
            old(mem).exclusive(),
            0,
        ),
    ensures
        final(mem)@ == old(mem)@,
        final(mem).idle(),
{
    let mut left: usize = count;
    while left > 0
        invariant
            mem@ == old(mem)@,
            exclusive ==> handles_below(mem.exclusive(), left as nat) && handles_below(
                mem.shared(),
                0,
            ),
            !exclusive ==> handles_below(mem.shared(), left as nat) && handles_below(
                mem.exclusive(),
                0,
            ),
        decreases left,
    {
        left = left - 1;
        if exclusive {
            assert(mem.exclusive().dom().contains(left));
            mem.release_mut(left);
        } else {
            assert(mem.shared().dom().contains(left));
            mem.release_shared(left);
        }
    }
    proof {
        assert(mem.shared().dom() =~= Set::empty());
        assert(mem.exclusive().dom() =~= Set::empty());
    }
}

/// Reads the `count` pairs of the list at `base` and claims the buffer each
/// names, in order. On success the claims are held, buffer `j` under handle
/// `j`; on a fault none is.
pub fn gather(mem: &mut GuestMemory, base: u32, count: u32, exclusive: bool) -> (res: Result<
    Vec<Region>,
    GuestError,
>)
    requires
        old(mem).idle(),
    ensures
        final(mem)@ == old(mem)@,
        match res {
            Ok(regions) => {
                &&& gathered(old(mem)@, base, count as nat, exclusive) == Ok::<
                    Seq<Region>,
                    GuestError,
                >(regions@)
                &&& regions@.len() == count
                &&& forall|j: int|
                    0 <= j < regions@.len() ==> (#[trigger] regions@[j]).end() <= old(mem)@.len()
                &&& holds(final(mem), regions@, exclusive)
            },
            Err(e) => gathered(old(mem)@, base, count as nat, exclusive) == Err::<
                Seq<Region>,
                GuestError,
            >(e) && final(mem).idle(),
        },
{
    let mut regions: Vec<Region> = Vec::new();
    let mut i: u32 = 0;
    proof {
        reveal(holds);
    }
    while i < count
        invariant
            i <= count,
            mem@ == old(mem)@,
            regions@.len() == i,
            gathered(old(mem)@, base, i as nat, exclusive) == Ok::<Seq<Region>, GuestError>(
                regions@,
            ),
            forall|j: int| 0 <= j < regions@.len() ==> (#[trigger] regions@[j]).end() <= mem@.len(),
            holds(mem, regions@, exclusive),
            i > 0 ==> next_handle(mem.checker) == i,
        decreases count - i,
    {
        proof {
            lemma_fault_stays_or_not(old(mem)@, base, i as nat, count as nat, exclusive);
        }
        let r = match claim_pair(mem, Ghost(regions@), base, i, exclusive) {
            Err(e) => {
                proof {
                    reveal(holds);
                }
                release_claims(mem, i as usize, exclusive);
                return Err(e);
            },
            Ok(r) => r,
        };
        let ghost before = regions@;
        regions.push(r);
        proof {
            assert forall|j: int| 0 <= j < regions@.len() implies (#[trigger] regions@[j]).end()
                <= mem@.len() by {
                if j < before.len() {
                    assert(before[j] == regions@[j]);
                }
            }
        }
        i = i + 1;
    }
    proof {
        reveal(holds);
    }
    Ok(regions)
}

/// The claims held on `mem` are the ranges `regions`, all of one kind, range
/// `j` under handle `j`.
#[verifier::opaque]
pub open spec fn holds(mem: &GuestMemory, regions: Seq<Region>, exclusive: bool) -> bool {
    if exclusive {
        claims_are(mem.exclusive(), regions) && handles_below(mem.shared(), 0)
    } else {
        claims_are(mem.shared(), regions) && handles_below(mem.exclusive(), 0)
    }
}

/// What taking pair `i` gives while the buffers `regions` are claimed: the
/// pair is read, then its buffer is claimed.
pub open spec fn pair_claimed(
    mem: Seq<u8>,
    regions: Seq<Region>,
    base: u32,
    i: nat,
    exclusive: bool,
) -> Result<Region, GuestError> {
    let held = if exclusive {
        regions
    } else {
        Seq::empty()
    };
    match pair_at(mem, held, base, i) {
        Err(e) => Err(e),
        Ok(r) => match claimable(mem.len(), held, r) {
            Err(e) => Err(e),
            Ok(()) => Ok(r),
        },
    }
}

/// Reads pair `i` of the list at `base` and claims the buffer it names.
fn claim_pair(
    mem: &mut GuestMemory,
    Ghost(regions): Ghost<Seq<Region>>,
    base: u32,
    i: u32,
    exclusive: bool,
) -> (res: Result<Region, GuestError>)
    requires
        regions.len() == i,
        i < u32::MAX,
        holds(old(mem), regions, exclusive),
        i > 0 ==> next_handle(old(mem).checker) == i,
    ensures
        final(mem)@ == old(mem)@,
        res == pair_claimed(old(mem)@, regions, base, i as nat, exclusive),
        res is Ok ==> holds(final(mem), regions.push(res->Ok_0), exclusive),
        res is Ok ==> res->Ok_0.end() <= old(mem)@.len(),
        res is Ok ==> next_handle(final(mem).checker) == i + 1,
        res is Err ==> holds(final(mem), regions, exclusive),
        res is Err ==> (i > 0 ==> next_handle(final(mem).checker) == i),
{
    proof {
        reveal(holds);
    }
    let ghost held = if exclusive {
        regions
    } else {
        Seq::<Region>::empty()
    };
    let r = match read_pair(mem, Ghost(held), base, i) {
        Err(e) => { return Err(e); },
        Ok(r) => r,
    };
    proof {
        lemma_claims_overlap(mem.exclusive(), held, r);
        if exclusive {
            lemma_claims_overlap(mem.shared(), Seq::<Region>::empty(), r);
        }
        if i == 0 {
            assert(mem.shared().dom() =~= Set::empty());
            assert(mem.exclusive().dom() =~= Set::empty());
        } else {
            if exclusive {
                assert(mem.exclusive().dom().contains(0usize));
            } else {
                assert(mem.shared().dom().contains(0usize));
            }
        }
    }
    let claim = if exclusive {
        mem.borrow_mut(r.start, r.len)
    } else {
        mem.borrow_shared(r.start, r.len)
    };
    match claim {
        Err(e) => Err(e),
        Ok(h) => {
            assert(h == i);
            Ok(r)
        },
    }
}

/// Either the first `n` pairs already hold a fault, which is then the
/// outcome of the whole list, or the outcome of the whole list is not
/// settled by them.
pub proof fn lemma_fault_stays_or_not(mem: Seq<u8>, base: u32, n: nat, m: nat, exclusive: bool)
    requires
        n < m,
    ensures
        gathered(mem, base, (n + 1) as nat, exclusive) is Err ==> gathered(mem, base, m, exclusive)
            == gathered(mem, base, (n + 1) as nat, exclusive),
{
    if gathered(mem, base, (n + 1) as nat, exclusive) is Err {
        lemma_fault_stays(mem, base, (n + 1) as nat, m, exclusive);
    }
}

/// Reads pair `i` of the list at `base`.
fn read_pair(mem: &GuestMemory, Ghost(held): Ghost<Seq<Region>>, base: u32, i: u32) -> (res:
    Result<Region, GuestError>)
    requires
        claims_are(mem.exclusive(), held),
    ensures
        res == pair_at(mem@, held, base, i as nat),
{
    let at64: u64 = base as u64 + IOVEC_SIZE as u64 * i as u64;
    if at64 > u32::MAX as u64 {
        return Err(GuestError::PtrOverflow);
    }
    let at: u32 = at64 as u32;
    proof {
        lemma_claims_overlap(mem.exclusive(), held, Region { start: at, len: 4 });
    }
    let start = match mem.read_u32(at) {
        Err(e) => { return Err(e); },
        Ok(v) => v,
    };
    if at > u32::MAX - 4 {
        return Err(GuestError::PtrOverflow);
    }
    proof {
        lemma_claims_overlap(mem.exclusive(), held, Region { start: (at + 4) as u32, len: 4 });
    }
    let len = match mem.read_u32(at + 4) {
        Err(e) => { return Err(e); },
        Ok(v) => v,
    };
    Ok(Region { start, len })
}

} // verus!
