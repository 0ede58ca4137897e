//! Paths inside the filesystem: byte strings whose segments are separated
//! by slashes.

use vstd::prelude::*;

verus! {

/// The byte that separates the segments of a path.
pub const SEPARATOR: u8 = 47;

/// `name` can name an entry: it is not empty and holds no separator.
pub open spec fn plain(name: Seq<u8>) -> bool {
    name.len() > 0 && forall|i: int| 0 <= i < name.len() ==> name[i] != SEPARATOR
}

/// Whether `name` can name an entry.
pub fn is_plain(name: &[u8]) -> (b: bool)
    ensures
        b == plain(name@),
{
    if name.len() == 0 {
        return false;
    }
    let mut i: usize = 0;
    while i < name.len()
        invariant
            i <= name@.len(),
            forall|k: int| 0 <= k < i ==> name@[k] != SEPARATOR,
        decreases name@.len() - i,
    {
        if name[i] == SEPARATOR {
            return false;
        }
        i = i + 1;
    }
    true
}

/// The state after reading `path`: the segments that a separator has
/// closed, and the bytes read since the last separator.
pub open spec fn scanned(path: Seq<u8>) -> (Seq<Seq<u8>>, Seq<u8>)
    decreases path.len(),
{
    if path.len() == 0 {
        (Seq::empty(), Seq::empty())
    } else {
        let (closed, current) = scanned(path.drop_last());
        if path.last() != SEPARATOR {
            (closed, current.push(path.last()))
        } else if current.len() > 0 {
            (closed.push(current), Seq::empty())
        } else {
            (closed, Seq::empty())
        }
    }
}

/// The segments of `path`: the longest runs of bytes other than the
/// separator, in order. Empty runs do not count, so a slash at either end
/// and a doubled slash change nothing.
pub open spec fn segments(path: Seq<u8>) -> Seq<Seq<u8>> {
    let (closed, current) = scanned(path);
    if current.len() > 0 {
        closed.push(current)
    } else {
        closed
    }
}

/// The byte strings that `segs` holds.
pub open spec fn views(segs: Seq<Vec<u8>>) -> Seq<Seq<u8>> {
    segs.map_values(|s: Vec<u8>| s@)
}

/// Cuts `path` into its segments.
pub fn split(path: &[u8]) -> (segs: Vec<Vec<u8>>)
    ensures
        views(segs@) == segments(path@),
        forall|k: int| 0 <= k < segs@.len() ==> plain(#[trigger] segs@[k]@),
{
    let mut segs: Vec<Vec<u8>> = Vec::new();
    let mut current: Vec<u8> = Vec::new();
    let mut i: usize = 0;
    proof {
        assert(path@.subrange(0, 0) =~= Seq::<u8>::empty());
        assert(views(segs@) =~= Seq::<Seq<u8>>::empty());
    }
    while i < path.len()
        invariant
            i <= path@.len(),
            scanned(path@.subrange(0, i as int)) == (views(segs@), current@),
            forall|k: int| 0 <= k < segs@.len() ==> plain(#[trigger] segs@[k]@),
            forall|j: int| 0 <= j < current@.len() ==> current@[j] != SEPARATOR,
        decreases path@.len() - i,
    {
        let ghost before = path@.subrange(0, i as int);
        let ghost closed = segs@;
        let byte: u8 = path[i];
        proof {
            assert(path@.subrange(0, i + 1).drop_last() =~= before);
            assert(path@.subrange(0, i + 1).last() == byte);
        }
        if byte != SEPARATOR {
            current.push(byte);
        } else if current.len() > 0 {
            let ghost run = current@;
            segs.push(current);
            current = Vec::new();
            proof {
                assert(views(segs@) =~= views(closed).push(run));
                assert(current@ =~= Seq::<u8>::empty());
            }
        } else {
            proof {
                assert(current@ =~= Seq::<u8>::empty());
            }
        }
        i = i + 1;
    }
    proof {
        assert(path@.subrange(0, i as int) =~= path@);
    }
    if current.len() > 0 {
        let ghost closed = segs@;
        let ghost run = current@;
        segs.push(current);
        proof {
            assert(views(segs@) =~= views(closed).push(run));
        }
    }
    segs
}

/// A path without a separator is read as one run.
pub proof fn lemma_scan_plain(path: Seq<u8>)
    requires
        forall|i: int| 0 <= i < path.len() ==> path[i] != SEPARATOR,
    ensures
        scanned(path) == (Seq::<Seq<u8>>::empty(), path),
    decreases path.len(),
{
    if path.len() > 0 {
        lemma_scan_plain(path.drop_last());
        assert(path.drop_last().push(path.last()) =~= path);
    } else {
        assert(path =~= Seq::<u8>::empty());
    }
}

/// A plain name has one segment: itself.
pub proof fn lemma_plain_name(path: Seq<u8>)
    requires
        plain(path),
    ensures
        segments(path) == seq![path],
{
    lemma_scan_plain(path);
    assert(Seq::<Seq<u8>>::empty().push(path) =~= seq![path]);
}

/// Reading on through bytes that hold no separator adds them to the run
/// that is open.
pub proof fn lemma_scan_on(head: Seq<u8>, tail: Seq<u8>)
    requires
        forall|i: int| 0 <= i < tail.len() ==> tail[i] != SEPARATOR,
    ensures
        scanned(head + tail) == (scanned(head).0, scanned(head).1 + tail),
    decreases tail.len(),
{
    if tail.len() == 0 {
        assert(head + tail =~= head);
        assert(scanned(head).1 + tail =~= scanned(head).1);
    } else {
        lemma_scan_on(head, tail.drop_last());
        assert((head + tail).drop_last() =~= head + tail.drop_last());
        assert((head + tail).last() == tail.last());
        assert((scanned(head).1 + tail.drop_last()).push(tail.last()) =~= scanned(head).1 + tail);
    }
}

/// A path of two plain names with a separator between them has these two
/// names as its segments.
pub proof fn lemma_two_names(first: Seq<u8>, second: Seq<u8>)
    requires
        plain(first),
        plain(second),
    ensures
        segments(first + seq![SEPARATOR] + second) == seq![first, second],
{
    lemma_scan_plain(first);
    let head = first + seq![SEPARATOR];
    assert(head.drop_last() =~= first);
    assert(head.last() == SEPARATOR);
    assert(scanned(head) == (Seq::<Seq<u8>>::empty().push(first), Seq::<u8>::empty()));
    lemma_scan_on(head, second);
    assert(Seq::<u8>::empty() + second =~= second);
    assert(Seq::<Seq<u8>>::empty().push(first).push(second) =~= seq![first, second]);
}

} // verus!
