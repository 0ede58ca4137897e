//! Rules of the catalog of songs that need no store and no network: which
//! keys are missing, which version of a map counts, when to stop asking for
//! more, and how long to wait when told to.

use vstd::prelude::*;
use crate::fs::bytes_eq;

verus! {

/// `keys` are in order, the smaller before the larger.
pub open spec fn ordered(keys: Seq<i64>) -> bool {
    forall|i: int, j: int| 0 <= i < j < keys.len() ==> keys[i] <= keys[j]
}

/// The keys of `keys` in order.
pub fn sorted_keys(keys: &Vec<i64>) -> (sorted: Vec<i64>)
    ensures
        ordered(sorted@),
        sorted@.len() == keys@.len(),
        forall|k: i64| sorted@.contains(k) <==> keys@.contains(k),
{
    let mut sorted: Vec<i64> = Vec::new();
    let mut n: usize = 0;
    while n < keys.len()
        invariant
            n <= keys@.len(),
            sorted@.len() == n,
            ordered(sorted@),
            forall|k: i64| sorted@.contains(k) <==> keys@.subrange(0, n as int).contains(k),
        decreases keys@.len() - n,
    {
        let key: i64 = keys[n];
        let mut at: usize = 0;
        while at < sorted.len() && sorted[at] <= key
            invariant
                at <= sorted@.len(),
                forall|i: int| 0 <= i < at ==> sorted@[i] <= key,
            decreases sorted@.len() - at,
        {
            at = at + 1;
        }
        let ghost before = sorted@;
        sorted.insert(at, key);
        proof {
            let after = sorted@;
            assert(after.len() == before.len() + 1);
            assert forall|i: int| 0 <= i < after.len() implies #[trigger] after[i] == if i < at {
                before[i]
            } else if i == at {
                key
            } else {
                before[i - 1]
            } by {}
            assert forall|i: int, j: int| 0 <= i < j < after.len() implies after[i] <= after[j] by {
                if j > at && i < at {
                    assert(before[i] <= before[j - 1]);
                }
            }
            let prefix = keys@.subrange(0, n as int);
            let longer = keys@.subrange(0, n + 1);
            assert(longer =~= prefix.push(key));
            assert forall|k: i64| after.contains(k) <==> longer.contains(k) by {
                if after.contains(k) {
                    let i = choose|i: int| 0 <= i < after.len() && after[i] == k;
                    if i < at {
                        assert(before.contains(k));
                        let j = choose|j: int| 0 <= j < prefix.len() && prefix[j] == k;
                        assert(longer[j] == k);
                    } else if i == at {
                        assert(longer[n as int] == k);
                    } else {
                        assert(before[i - 1] == k);
                        assert(before.contains(k));
                        let j = choose|j: int| 0 <= j < prefix.len() && prefix[j] == k;
                        assert(longer[j] == k);
                    }
                }
                if longer.contains(k) {
                    let j = choose|j: int| 0 <= j < longer.len() && longer[j] == k;
                    if j < n {
                        assert(prefix[j] == k);
                        assert(prefix.contains(k));
                        assert(before.contains(k));
                        let i = choose|i: int| 0 <= i < before.len() && before[i] == k;
                        assert(0 <= i < before.len() && before[i] == k);
                        if i < at {
                            assert(after[i] == k);
                        } else {
                            assert(after[i + 1] == k);
                        }
                    } else {
                        assert(after[at as int] == k);
                    }
                }
            }
        }
        n = n + 1;
    }
    proof {
        assert(keys@.subrange(0, n as int) =~= keys@);
    }
    sorted
}

/// The key `k` is missing among `known`: it is a key, it is not known, and
/// a larger key is.
pub open spec fn missing(known: Seq<i64>, k: i64) -> bool {
    1 <= k && !known.contains(k) && exists|m: i64| known.contains(m) && k < m
}

/// The keys that are missing among `known`, in rising order: every number
/// from 1 up to the largest known key that is not known itself. The known
/// keys may come in any order.
pub fn unknown_keys(known: &Vec<i64>) -> (unknown: Vec<i64>)
    ensures
        forall|i: int, j: int| 0 <= i < j < unknown@.len() ==> unknown@[i] < unknown@[j],
        forall|k: i64| unknown@.contains(k) <==> missing(known@, k),
{
    let sorted = sorted_keys(known);
    let mut unknown: Vec<i64> = Vec::new();
    let mut cur: i64 = 1;
    let mut next: usize = 0;
    while next < sorted.len()
        invariant
            ordered(sorted@),
            forall|k: i64| sorted@.contains(k) <==> known@.contains(k),
            next <= sorted@.len(),
            1 <= cur,
            forall|i: int, j: int| 0 <= i < j < unknown@.len() ==> unknown@[i] < unknown@[j],
            forall|i: int| 0 <= i < unknown@.len() ==> unknown@[i] < cur,
            forall|k: i64| unknown@.contains(k) <==> 1 <= k < cur && missing(known@, k),
            forall|i: int| 0 <= i < next ==> sorted@[i] < cur,
        decreases sorted@.len() - next,
    {
        let target: i64 = sorted[next];
        proof {
            assert(sorted@.contains(target));
        }
        while cur < target
            invariant
                ordered(sorted@),
                forall|k: i64| sorted@.contains(k) <==> known@.contains(k),
                next < sorted@.len(),
                target == sorted@[next as int],
                1 <= cur <= target || target < cur,
                1 <= cur,
                forall|i: int, j: int| 0 <= i < j < unknown@.len() ==> unknown@[i] < unknown@[j],
                forall|i: int| 0 <= i < unknown@.len() ==> unknown@[i] < cur,
                forall|k: i64| unknown@.contains(k) <==> 1 <= k < cur && missing(known@, k),
                forall|i: int| 0 <= i < next ==> sorted@[i] < cur,
            decreases target - cur,
        {
            let ghost before = unknown@;
            proof {
                assert(known@.contains(target));
                if known@.contains(cur) {
                    assert(sorted@.contains(cur));
                    let i = choose|i: int| 0 <= i < sorted@.len() && sorted@[i] == cur;
                    if i >= next {
                        assert(sorted@[next as int] <= sorted@[i]);
                    }
                }
                assert(missing(known@, cur));
            }
            unknown.push(cur);
            proof {
                assert forall|k: i64| unknown@.contains(k) <==> 1 <= k < cur + 1 && missing(
                    known@,
                    k,
                ) by {
                    if unknown@.contains(k) {
                        let i = choose|i: int| 0 <= i < unknown@.len() && unknown@[i] == k;
                        if i < before.len() {
                            assert(before[i] == k);
                            assert(before.contains(k));
                        }
                    }
                    if 1 <= k < cur + 1 && missing(known@, k) {
                        if k < cur {
                            assert(before.contains(k));
                            let i = choose|i: int| 0 <= i < before.len() && before[i] == k;
                            assert(unknown@[i] == k);
                        } else {
                            assert(unknown@[before.len() as int] == k);
                        }
                    }
                }
            }
            cur = cur + 1;
        }
        if cur == target {
            if target == i64::MAX {
                proof {
                    assert forall|k: i64| unknown@.contains(k) <==> missing(known@, k) by {
                        if missing(known@, k) {
                            assert(k < i64::MAX);
                        }
                    }
                }
                return unknown;
            }
            proof {
                assert(!missing(known@, cur));
            }
            cur = cur + 1;
        }
        next = next + 1;
    }
    proof {
        assert forall|k: i64| unknown@.contains(k) <==> missing(known@, k) by {
            if missing(known@, k) {
                let m = choose|m: i64| known@.contains(m) && k < m;
                assert(sorted@.contains(m));
                let i = choose|i: int| 0 <= i < sorted@.len() && sorted@[i] == m;
                assert(sorted@[i] < cur);
            }
        }
    }
    unknown
}

/// In what state a version of a map is.
#[derive(Copy, Clone, Debug, PartialEq, Eq, Structural)]
pub enum VersionState {
    Feedback,
    Published,
    Testplay,
    Uploaded,
}

/// How many of the first `upto` of `states` are published.
pub open spec fn published(states: Seq<VersionState>, upto: int) -> int
    decreases upto,
{
    if upto <= 0 {
        0
    } else {
        published(states, upto - 1) + if states[upto - 1] == VersionState::Published {
            1int
        } else {
            0int
        }
    }
}

/// The version of a map that counts: the published one, where exactly one
/// is published.
pub fn current_version(states: &Vec<VersionState>) -> (current: Option<usize>)
    ensures
        match current {
            Some(at) => {
                &&& at < states@.len()
                &&& states@[at as int] == VersionState::Published
                &&& published(states@, states@.len() as int) == 1
            },
            None => published(states@, states@.len() as int) != 1,
        },
{
    let mut found: Option<usize> = None;
    let mut count: usize = 0;
    let mut i: usize = 0;
    while i < states.len()
        invariant
            i <= states@.len(),
            count == published(states@, i as int),
            count <= i,
            count > 0 ==> found is Some && found->Some_0 < i && states@[found->Some_0 as int]
                == VersionState::Published,
        decreases states@.len() - i,
    {
        if states[i] == VersionState::Published {
            count = count + 1;
            found = Some(i);
        }
        i = i + 1;
    }
    if count == 1 {
        found
    } else {
        None
    }
}

/// The share of upvotes among `upvotes + downvotes` votes, in percent and
/// rounded to the nearest whole number, a half upwards. A map without
/// votes counts as upvoted by all.
pub open spec fn spec_pct_upvoted(upvotes: u32, downvotes: u32) -> int {
    if upvotes + downvotes == 0 {
        100
    } else {
        (200 * upvotes + (upvotes + downvotes)) / (2 * (upvotes + downvotes))
    }
}

/// Computes the share of upvotes in percent.
pub fn pct_upvoted(upvotes: u32, downvotes: u32) -> (pct: u8)
    ensures
        pct == spec_pct_upvoted(upvotes, downvotes),
        pct <= 100,
{
    let total: u64 = upvotes as u64 + downvotes as u64;
    if total == 0 {
        return 100;
    }
    let doubled: u64 = 200 * (upvotes as u64) + total;
    let pct: u64 = doubled / (2 * total);
    proof {
        let d = doubled as int;
        let t = total as int;
        assert(d <= 201 * t);
        assert(d / (2 * t) <= 100) by (nonlinear_arith)
            requires
                0 <= d < 202 * t,
                t > 0,
        ;
    }
    pct as u8
}

/// The most pages of new maps that are asked for in one go.
pub const MAX_PAGE: u64 = 20;

/// Whether to ask for another page of the latest maps after page `page`
/// (counted from 0) brought `num_maps` maps of which `num_new` were new:
/// not once fewer than half were new, and not beyond the last page.
pub fn wants_next_page(num_new: u64, num_maps: u64, page: u64) -> (more: bool)
    ensures
        more == (num_new >= num_maps / 2 && page + 1 != MAX_PAGE),
{
    if num_new < num_maps / 2 {
        return false;
    }
    page != MAX_PAGE - 1
}

/// The padding, in milliseconds, that is added to a pause the server asked
/// for.
pub const RATELIMIT_PADDING_MILLIS: u64 = 60_000;

/// How many milliseconds to pause when the server asks for `reset_after`:
/// twice as long, and the padding on top. `None` where that is more than 64
/// bits hold.
pub fn ratelimit_pause(reset_after: u64) -> (pause: Option<u64>)
    ensures
        match pause {
            Some(millis) => millis == 2 * reset_after + RATELIMIT_PADDING_MILLIS,
            None => 2 * reset_after + RATELIMIT_PADDING_MILLIS > u64::MAX,
        },
{
    if reset_after > (u64::MAX - RATELIMIT_PADDING_MILLIS) / 2 {
        None
    } else {
        Some(2 * reset_after + RATELIMIT_PADDING_MILLIS)
    }
}

/// The byte `b`, in lower case where it is an upper-case letter.
pub open spec fn spec_lower(b: u8) -> u8 {
    if 65 <= b <= 90 {
        (b + 32) as u8
    } else {
        b
    }
}

/// The name of the file that describes a map: `info.dat`.
pub open spec fn info_name() -> Seq<u8> {
    seq![105u8, 110u8, 102u8, 111u8, 46u8, 100u8, 97u8, 116u8]
}

/// `name` is `info.dat` but for the case of its letters.
pub open spec fn spec_is_info_dat(name: Seq<u8>) -> bool {
    name.len() == 8 && forall|i: int| 0 <= i < 8 ==> spec_lower(#[trigger] name[i]) == info_name()[i]
}

/// Whether `name` is `info.dat`, whatever the case of its letters.
pub fn is_info_dat(name: &[u8]) -> (is: bool)
    ensures
        is == spec_is_info_dat(name@),
{
    if name.len() != 8 {
        return false;
    }
    let info: [u8; 8] = [105, 110, 102, 111, 46, 100, 97, 116];
    let mut i: usize = 0;
    while i < 8
        invariant
            i <= 8,
            name@.len() == 8,
            info@ == info_name(),
            forall|k: int| 0 <= k < i ==> spec_lower(#[trigger] name@[k]) == info_name()[k],
        decreases 8 - i,
    {
        let b: u8 = name[i];
        let low: u8 = if 65 <= b && b <= 90 {
            b + 32
        } else {
            b
        };
        if low != info[i] {
            return false;
        }
        i = i + 1;
    }
    true
}

/// The first of `names` that is `info.dat` in some case, if there is one.
pub fn find_info_dat(names: &Vec<Vec<u8>>) -> (found: Option<usize>)
    ensures
        match found {
            Some(at) => {
                &&& at < names@.len()
                &&& spec_is_info_dat(names@[at as int]@)
                &&& forall|k: int| 0 <= k < at ==> !spec_is_info_dat(#[trigger] names@[k]@)
            },
            None => forall|k: int| 0 <= k < names@.len() ==> !spec_is_info_dat(
                #[trigger] names@[k]@,
            ),
        },
{
    let mut i: usize = 0;
    while i < names.len()
        invariant
            i <= names@.len(),
            forall|k: int| 0 <= k < i ==> !spec_is_info_dat(#[trigger] names@[k]@),
        decreases names@.len() - i,
    {
        if is_info_dat(names[i].as_slice()) {
            return Some(i);
        }
        i = i + 1;
    }
    None
}

/// Why an archive does not hold a file once.
#[derive(Copy, Clone, Debug, PartialEq, Eq, Structural)]
pub enum EntryError {
    /// No entry has the name.
    Missing,
    /// More than one entry has the name.
    Duplicate,
}

/// How many of the first `upto` of `names` are `name`.
pub open spec fn count_of(names: Seq<Vec<u8>>, name: Seq<u8>, upto: int) -> int
    decreases upto,
{
    if upto <= 0 {
        0
    } else {
        count_of(names, name, upto - 1) + if names[upto - 1]@ == name {
            1int
        } else {
            0int
        }
    }
}

/// The one entry among `names` that is called `name`, byte for byte. An
/// archive that holds the name twice is refused, as is one that does not
/// hold it.
pub fn find_entry(names: &Vec<Vec<u8>>, name: &[u8]) -> (found: Result<usize, EntryError>)
    ensures
        match found {
            Ok(at) => {
                &&& at < names@.len()
                &&& names@[at as int]@ == name@
                &&& count_of(names@, name@, names@.len() as int) == 1
            },
            Err(EntryError::Missing) => count_of(names@, name@, names@.len() as int) == 0,
            Err(EntryError::Duplicate) => count_of(names@, name@, names@.len() as int) > 1,
        },
{
    let mut found: Option<usize> = None;
    let mut i: usize = 0;
    while i < names.len()
        invariant
            i <= names@.len(),
            match found {
                Some(at) => at < i && names@[at as int]@ == name@ && count_of(
                    names@,
                    name@,
                    i as int,
                ) == 1,
                None => count_of(names@, name@, i as int) == 0,
            },
        decreases names@.len() - i,
    {
        if bytes_eq(names[i].as_slice(), name) {
            if found.is_some() {
                proof {
                    lemma_count_grows(names@, name@, i + 1, names@.len() as int);
                }
                return Err(EntryError::Duplicate);
            }
            found = Some(i);
        }
        i = i + 1;
    }
    match found {
        Some(at) => Ok(at),
        None => Err(EntryError::Missing),
    }
}

/// Counting further finds no fewer.
pub proof fn lemma_count_grows(names: Seq<Vec<u8>>, name: Seq<u8>, from: int, to: int)
    requires
        0 <= from <= to,
    ensures
        count_of(names, name, from) <= count_of(names, name, to),
    decreases to - from,
{
    if from < to {
        lemma_count_grows(names, name, from, to - 1);
    }
}

/// Where the archive of a song is asked for.
#[derive(Copy, Clone, Debug, PartialEq, Eq, Structural)]
pub enum Source {
    /// The cache, which is asked first.
    Cache,
    /// The catalog itself, which is asked where the cache has failed.
    Catalog,
}

/// How far the download of one archive has come: which source is asked, and
/// how many requests to it are left.
#[derive(Copy, Clone, Debug, PartialEq, Eq, Structural)]
pub struct Download {
    pub source: Source,
    pub attempts: u8,
}

/// How one request ended.
#[derive(Copy, Clone, Debug, PartialEq, Eq, Structural)]
pub enum Reply {
    /// The request could not be sent.
    SendFailed,
    /// The source does not have the archive.
    NotFound,
    /// The source answered with another failure.
    Refused,
    /// The answer's body could not be read.
    BodyFailed,
    /// The archive arrived.
    Body,
}

/// Why an archive was not had.
#[derive(Copy, Clone, Debug, PartialEq, Eq, Structural)]
pub enum DownloadError {
    /// Neither source has the archive.
    NotFound,
    /// Every request failed.
    OutOfAttempts,
}

/// What to do next in a download.
#[derive(Copy, Clone, Debug, PartialEq, Eq, Structural)]
pub enum Step {
    /// Send a request to the source of this state, which has one attempt
    /// fewer left, once the source's pause since the last request is over.
    Request(Download),
    /// The archive is there.
    Done,
    /// Give up.
    Fail(DownloadError),
}

/// The requests that each source gets.
pub const ATTEMPTS: u8 = 2;

/// The seconds between two requests to the cache.
pub const CACHE_PAUSE_SECS: u64 = 10;

/// The seconds between two requests to the catalog.
pub const CATALOG_PAUSE_SECS: u64 = 120;

impl Source {
    /// The seconds that must lie between two requests to this source.
    pub fn pause_secs(self) -> (secs: u64)
        ensures
            secs == match self {
                Source::Cache => CACHE_PAUSE_SECS,
                Source::Catalog => CATALOG_PAUSE_SECS,
            },
    {
        match self {
            Source::Cache => CACHE_PAUSE_SECS,
            Source::Catalog => CATALOG_PAUSE_SECS,
        }
    }
}

impl Download {
    /// A download that has asked nobody yet.
    pub fn new() -> (state: Download)
        ensures
            state == (Download { source: Source::Cache, attempts: ATTEMPTS }),
    {
        Download { source: Source::Cache, attempts: ATTEMPTS }
    }

    /// What to do in state `self`: ask the source while it has attempts
    /// left; then turn from the cache to the catalog, and give up when the
    /// catalog has none left either.
    pub open spec fn spec_begin(self) -> Step {
        if self.attempts > 0 {
            Step::Request(Download { source: self.source, attempts: (self.attempts - 1) as u8 })
        } else if self.source == Source::Cache {
            Step::Request(Download { source: Source::Catalog, attempts: (ATTEMPTS - 1) as u8 })
        } else {
            Step::Fail(DownloadError::OutOfAttempts)
        }
    }

    /// Decides what to do in this state.
    pub fn begin(self) -> (step: Step)
        ensures
            step == self.spec_begin(),
    {
        if self.attempts > 0 {
            Step::Request(Download { source: self.source, attempts: self.attempts - 1 })
        } else {
            match self.source {
                Source::Cache => Step::Request(
                    Download { source: Source::Catalog, attempts: ATTEMPTS - 1 },
                ),
                Source::Catalog => Step::Fail(DownloadError::OutOfAttempts),
            }
        }
    }

    /// What to do after a request in state `self` ended with `reply`: a
    /// body ends the download; an archive that the cache does not have is
    /// asked of the catalog, and one that the catalog does not have is not
    /// to be had; after any other failure the source is asked again while
    /// it has attempts left.
    pub open spec fn spec_after(self, reply: Reply) -> Step {
        match reply {
            Reply::Body => Step::Done,
            Reply::NotFound => match self.source {
                Source::Cache => (Download { source: Source::Catalog, attempts: ATTEMPTS })
                    .spec_begin(),
                Source::Catalog => Step::Fail(DownloadError::NotFound),
            },
            _ => self.spec_begin(),
        }
    }

    /// Decides what to do after a request ended.
    pub fn after(self, reply: Reply) -> (step: Step)
        ensures
            step == self.spec_after(reply),
    {
        match reply {
            Reply::Body => Step::Done,
            Reply::NotFound => match self.source {
                Source::Cache => (Download { source: Source::Catalog, attempts: ATTEMPTS }).begin(),
                Source::Catalog => Step::Fail(DownloadError::NotFound),
            },
            _ => self.begin(),
        }
    }
}

/// A download comes to an end: whatever the reply, the next request leaves
/// fewer requests to make than the one before it, and no download makes
/// more than four.
pub proof fn lemma_download_ends(state: Download, reply: Reply)
    requires
        state.attempts <= ATTEMPTS,
    ensures
        match state.spec_after(reply) {
            Step::Request(next) => next.attempts <= ATTEMPTS && requests_left(next)
                < requests_left(state),
            _ => true,
        },
        requests_left(Download { source: Source::Cache, attempts: ATTEMPTS }) == 4,
{
}

/// The requests that a download in state `state` can still make.
pub open spec fn requests_left(state: Download) -> int {
    match state.source {
        Source::Cache => state.attempts + ATTEMPTS,
        Source::Catalog => state.attempts as int,
    }
}

/// The hexadecimal digit for `d`, in lower case.
pub open spec fn hex_digit(d: nat) -> u8
    recommends
        d < 16,
{
    if d < 10 {
        (48 + d) as u8
    } else {
        (87 + d) as u8
    }
}

/// The number `n` in hexadecimal: lower-case digits, the highest first, and
/// no zero in front but for zero itself.
pub open spec fn hex_text(n: nat) -> Seq<u8>
    decreases n,
{
    if n < 16 {
        seq![hex_digit(n)]
    } else {
        hex_text(n / 16).push(hex_digit(n % 16))
    }
}

/// What a hexadecimal digit stands for, in either case; `None` for any
/// other byte.
pub open spec fn digit_value(b: u8) -> Option<nat> {
    if 48 <= b <= 57 {
        Some((b - 48) as nat)
    } else if 97 <= b <= 102 {
        Some((b - 87) as nat)
    } else if 65 <= b <= 70 {
        Some((b - 55) as nat)
    } else {
        None
    }
}

/// `text` holds hexadecimal digits only.
pub open spec fn all_hex(text: Seq<u8>) -> bool {
    forall|i: int| 0 <= i < text.len() ==> digit_value(#[trigger] text[i]) is Some
}

/// The number that the hexadecimal digits `text` spell.
pub open spec fn hex_value(text: Seq<u8>) -> nat
    decreases text.len(),
{
    if text.len() == 0 {
        0
    } else {
        hex_value(text.drop_last()) * 16 + match digit_value(text.last()) {
            Some(d) => d,
            None => 0,
        }
    }
}

/// The digits of a key as it is written: the text, but for a plus sign in
/// front.
pub open spec fn key_digits(key: Seq<u8>) -> Seq<u8> {
    if key.len() > 0 && key[0] == 43 {
        key.drop_first()
    } else {
        key
    }
}

/// The number of the key `key`: what its hexadecimal digits spell, where it
/// has digits, nothing but digits, and the number fits 32 bits.
pub open spec fn spec_key_to_num(key: Seq<u8>) -> Option<i64> {
    let digits = key_digits(key);
    if digits.len() == 0 || !all_hex(digits) || hex_value(digits) > u32::MAX {
        None
    } else {
        Some(hex_value(digits) as i64)
    }
}

/// Puts the hexadecimal digits of `n` after `out`.
pub fn push_hex(n: u64, out: &mut Vec<u8>)
    ensures
        final(out)@ == old(out)@ + hex_text(n as nat),
    decreases n,
{
    if n >= 16 {
        push_hex(n / 16, out);
    }
    let d: u8 = (n % 16) as u8;
    let digit: u8 = if d < 10 {
        48 + d
    } else {
        87 + d
    };
    let ghost before = out@;
    out.push(digit);
    proof {
        if n >= 16 {
            assert(out@ =~= old(out)@ + hex_text((n / 16) as nat).push(hex_digit((n % 16) as nat)));
        } else {
            assert(out@ =~= old(out)@ + seq![hex_digit(n as nat)]);
        }
    }
}

/// The key of the song with the number `n`, as text: `n` in hexadecimal. A
/// number below zero is no song's.
pub fn num_to_key(n: i64) -> (key: Option<Vec<u8>>)
    ensures
        match key {
            Some(text) => n >= 0 && text@ == hex_text(n as nat),
            None => n < 0,
        },
{
    if n < 0 {
        return None;
    }
    let mut text: Vec<u8> = Vec::new();
    push_hex(n as u64, &mut text);
    proof {
        assert(Seq::<u8>::empty() + hex_text(n as nat) =~= hex_text(n as nat));
    }
    Some(text)
}

/// Digits that spell too much spell too much with more digits after them.
pub proof fn lemma_hex_value_grows(text: Seq<u8>, n: int)
    requires
        0 <= n <= text.len(),
    ensures
        hex_value(text.take(n)) <= hex_value(text),
    decreases text.len() - n,
{
    if n < text.len() {
        assert(text.take(n + 1).drop_last() =~= text.take(n));
        lemma_hex_value_grows(text, n + 1);
    } else {
        assert(text.take(n) =~= text);
    }
}

/// Reads the number of a key from its text.
pub fn key_to_num(key: &[u8]) -> (num: Option<i64>)
    ensures
        num == spec_key_to_num(key@),
{
    let start: usize = if key.len() > 0 && key[0] == 43 {
        1
    } else {
        0
    };
    let ghost digits = key_digits(key@);
    proof {
        assert(digits =~= key@.subrange(start as int, key@.len() as int));
        assert(digits.take(0) =~= Seq::<u8>::empty());
    }
    if start == key.len() {
        return None;
    }
    let mut acc: u64 = 0;
    let mut i: usize = start;
    while i < key.len()
        invariant
            start <= i <= key@.len(),
            digits == key@.subrange(start as int, key@.len() as int),
            digits == key_digits(key@),
            digits.len() > 0,
            all_hex(digits.take(i - start)),
            acc == hex_value(digits.take(i - start)),
            acc <= u32::MAX,
        decreases key@.len() - i,
    {
        let b: u8 = key[i];
        let d: u64 = if 48 <= b && b <= 57 {
            (b - 48) as u64
        } else if 97 <= b && b <= 102 {
            (b - 87) as u64
        } else if 65 <= b && b <= 70 {
            (b - 55) as u64
        } else {
            proof {
                assert(digits[i - start] == b);
                assert(digit_value(digits[i - start]) is None);
            }
            return None;
        };
        proof {
            let longer = digits.take(i - start + 1);
            assert(longer.drop_last() =~= digits.take(i - start));
            assert(longer.last() == b);
            assert forall|k: int| 0 <= k < longer.len() implies digit_value(
                #[trigger] longer[k],
            ) is Some by {
                if k < i - start {
                    assert(digits.take(i - start)[k] == longer[k]);
                }
            }
        }
        acc = acc * 16 + d;
        proof {
            assert(digit_value(b) == Some(d as nat));
            assert(acc == hex_value(digits.take(i - start + 1)));
        }
        if acc > u32::MAX as u64 {
            proof {
                lemma_hex_value_grows(digits, i - start + 1);
            }
            return None;
        }
        i = i + 1;
    }
    proof {
        assert(digits.take(i - start) =~= digits);
    }
    Some(acc as i64)
}

/// A key that was written is read back as the number it was written for.
pub proof fn lemma_key_round_trip(n: nat)
    requires
        n <= u32::MAX,
    ensures
        spec_key_to_num(hex_text(n)) == Some(n as i64),
{
    lemma_hex_text_value(n);
    let text = hex_text(n);
    assert(text[0] != 43) by {
        lemma_hex_text_value(n);
    }
}

/// The digits written for a number are digits, at least one, and spell the
/// number.
pub proof fn lemma_hex_text_value(n: nat)
    ensures
        hex_text(n).len() > 0,
        all_hex(hex_text(n)),
        hex_value(hex_text(n)) == n,
    decreases n,
{
    if n < 16 {
        let text = hex_text(n);
        assert(text.drop_last() =~= Seq::<u8>::empty());
        assert(digit_value(hex_digit(n)) == Some(n));
        assert(text.last() == hex_digit(n));
        assert(hex_value(text.drop_last()) == 0);
        assert(hex_value(text) == hex_value(text.drop_last()) * 16 + n);
    } else {
        lemma_hex_text_value(n / 16);
        let text = hex_text(n);
        let d = n % 16;
        assert(text.drop_last() =~= hex_text(n / 16));
        assert(text.last() == hex_digit(d));
        assert(digit_value(hex_digit(d)) == Some(d));
        assert(hex_value(text) == hex_value(text.drop_last()) * 16 + d);
        assert forall|i: int| 0 <= i < text.len() implies digit_value(#[trigger] text[i])
            is Some by {
            if i < text.len() - 1 {
                assert(text[i] == hex_text(n / 16)[i]);
            }
        }
    }
}

} // verus!
