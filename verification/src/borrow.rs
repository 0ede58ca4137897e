//! The run-time borrow tracker over guest memory.
//!
//! Claims are kept by `wiggle_borrow::BorrowChecker`. Nothing here is proved
//! of that type: each function below states what its source shows.

use vstd::prelude::*;
use wiggle_borrow::BorrowChecker;
use crate::errno::{GuestError, Region};

verus! {

/// `wiggle_borrow::BorrowChecker`, taken as it is: what a value of it holds
/// is known only through the three names below.
#[verifier::external_type_specification]
#[verifier::external_body]
pub struct ExBorrowChecker(wiggle_borrow::BorrowChecker);

/// The shared claims a checker holds: handle to `(start, len)`.
pub uninterp spec fn shared_claims(checker: BorrowChecker) -> Map<usize, (u32, u32)>;

/// The exclusive claims a checker holds: handle to `(start, len)`.
pub uninterp spec fn exclusive_claims(checker: BorrowChecker) -> Map<usize, (u32, u32)>;

/// The handle a checker that holds some claim would give out next.
pub uninterp spec fn next_handle(checker: BorrowChecker) -> usize;

/// Some claim of `claims` overlaps `r`.
pub open spec fn any_overlap(claims: Map<usize, (u32, u32)>, r: Region) -> bool {
    exists|h: usize| #[trigger]
        claims.dom().contains(h) && (Region { start: claims[h].0, len: claims[h].1 }).spec_overlaps(
            r,
        )
}

/// The handle the next successful claim gets: numbering starts again at zero
/// whenever no claim is held.
pub open spec fn handle_base(checker: BorrowChecker) -> usize {
    if no_claims(checker) {
        0
    } else {
        next_handle(checker)
    }
}

/// The outcome of asking for a shared claim on `r`: refused while an
/// exclusive claim overlaps it, or when no handle is left.
pub open spec fn shared_borrow_outcome(checker: BorrowChecker, r: Region) -> Result<
    usize,
    GuestError,
> {
    if any_overlap(exclusive_claims(checker), r) {
        Err(GuestError::PtrBorrowed(r))
    } else if handle_base(checker) == usize::MAX {
        Err(GuestError::BorrowCheckerOutOfHandles)
    } else {
        Ok(handle_base(checker))
    }
}

/// The outcome of asking for an exclusive claim on `r`: refused while any
/// claim overlaps it, or when no handle is left.
pub open spec fn mut_borrow_outcome(checker: BorrowChecker, r: Region) -> Result<
    usize,
    GuestError,
> {
    if any_overlap(shared_claims(checker), r) || any_overlap(exclusive_claims(checker), r) {
        Err(GuestError::PtrBorrowed(r))
    } else if handle_base(checker) == usize::MAX {
        Err(GuestError::BorrowCheckerOutOfHandles)
    } else {
        Ok(handle_base(checker))
    }
}

/// A checker holds no claim at all.
pub open spec fn no_claims(checker: BorrowChecker) -> bool {
    shared_claims(checker).dom() =~= Set::empty() && exclusive_claims(checker).dom()
        =~= Set::empty()
}

/// `BorrowChecker::new`: a checker that holds no claim.
#[verifier::external_body]
pub(crate) fn checker_new() -> (c: BorrowChecker)
    ensures
        no_claims(c),
{
    BorrowChecker::new()
}

/// `BorrowChecker::has_outstanding_borrows`: whether any claim is held.
#[verifier::external_body]
pub(crate) fn checker_has_outstanding_borrows(c: &BorrowChecker) -> (b: bool)
    ensures
        b == !no_claims(*c),
{
    c.has_outstanding_borrows()
}

/// `BorrowChecker::is_shared_borrowed`: whether a shared claim overlaps `r`.
#[verifier::external_body]
pub(crate) fn checker_is_shared_borrowed(c: &BorrowChecker, r: Region) -> (b: bool)
    ensures
        b == any_overlap(shared_claims(*c), r),
{
    c.is_shared_borrowed(wiggle::Region::new(r.start, r.len))
}

/// `BorrowChecker::is_mut_borrowed`: whether an exclusive claim overlaps `r`.
#[verifier::external_body]
pub(crate) fn checker_is_mut_borrowed(c: &BorrowChecker, r: Region) -> (b: bool)
    ensures
        b == any_overlap(exclusive_claims(*c), r),
{
    c.is_mut_borrowed(wiggle::Region::new(r.start, r.len))
}

/// `BorrowChecker::shared_borrow`: refused with `PtrBorrowed` when an
/// exclusive claim overlaps `r`, and with `BorrowCheckerOutOfHandles` when the
/// handle counter cannot advance. Otherwise the claim is recorded under the
/// handle returned, and the counter moves past it. A refusal changes
/// nothing.
#[verifier::external_body]
pub(crate) fn checker_shared_borrow(c: &mut BorrowChecker, r: Region) -> (res: Result<
    usize,
    GuestError,
>)
    ensures
        res == shared_borrow_outcome(*old(c), r),
        exclusive_claims(*final(c)) == exclusive_claims(*old(c)),
        res is Ok ==> shared_claims(*final(c)) == shared_claims(*old(c)).insert(
            res->Ok_0,
            (r.start, r.len),
        ),
        res is Ok ==> next_handle(*final(c)) == res->Ok_0 + 1,
        res is Err ==> shared_claims(*final(c)) == shared_claims(*old(c)),
        res is Err ==> next_handle(*final(c)) == next_handle(*old(c)),
{
    match c.shared_borrow(wiggle::Region::new(r.start, r.len)) {
        Ok(h) => Ok(h.0),
        Err(wiggle::GuestError::PtrBorrowed(_)) => Err(GuestError::PtrBorrowed(r)),
        Err(_) => Err(GuestError::BorrowCheckerOutOfHandles),
    }
}

/// `BorrowChecker::mut_borrow`: refused with `PtrBorrowed` when any claim
/// overlaps `r`, and with `BorrowCheckerOutOfHandles` when the handle counter
/// cannot advance. Otherwise the claim is recorded under the handle returned,
/// and the counter moves past it. A refusal changes nothing.
#[verifier::external_body]
pub(crate) fn checker_mut_borrow(c: &mut BorrowChecker, r: Region) -> (res: Result<
    usize,
    GuestError,
>)
    ensures
        res == mut_borrow_outcome(*old(c), r),
        shared_claims(*final(c)) == shared_claims(*old(c)),
        res is Ok ==> exclusive_claims(*final(c)) == exclusive_claims(*old(c)).insert(
            res->Ok_0,
            (r.start, r.len),
        ),
        res is Ok ==> next_handle(*final(c)) == res->Ok_0 + 1,
        res is Err ==> exclusive_claims(*final(c)) == exclusive_claims(*old(c)),
        res is Err ==> next_handle(*final(c)) == next_handle(*old(c)),
{
    match c.mut_borrow(wiggle::Region::new(r.start, r.len)) {
        Ok(h) => Ok(h.0),
        Err(wiggle::GuestError::PtrBorrowed(_)) => Err(GuestError::PtrBorrowed(r)),
        Err(_) => Err(GuestError::BorrowCheckerOutOfHandles),
    }
}

/// `BorrowChecker::shared_unborrow`: the shared claim under `h` is dropped.
#[verifier::external_body]
pub(crate) fn checker_shared_unborrow(c: &mut BorrowChecker, h: usize)
    requires
        shared_claims(*old(c)).dom().contains(h),
    ensures
        shared_claims(*final(c)) == shared_claims(*old(c)).remove(h),
        exclusive_claims(*final(c)) == exclusive_claims(*old(c)),
        next_handle(*final(c)) == next_handle(*old(c)),
{
    c.shared_unborrow(wiggle::BorrowHandle(h))
}

/// `BorrowChecker::mut_unborrow`: the exclusive claim under `h` is dropped.
#[verifier::external_body]
pub(crate) fn checker_mut_unborrow(c: &mut BorrowChecker, h: usize)
    requires
        exclusive_claims(*old(c)).dom().contains(h),
    ensures
        exclusive_claims(*final(c)) == exclusive_claims(*old(c)).remove(h),
        shared_claims(*final(c)) == shared_claims(*old(c)),
        next_handle(*final(c)) == next_handle(*old(c)),
{
    c.mut_unborrow(wiggle::BorrowHandle(h))
}

} // verus!
