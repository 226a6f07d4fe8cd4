//! The library-wide laws: properties relating several operations, stated
//! over the same spec functions the operations' contracts use.

use vstd::prelude::*;

use crate::directory_key::DirectoryKey;
use crate::directory_listing::DirectoryListing;
use crate::directory_store::{key_in, DirectoryStore};
use crate::file_helper::coalesced;
use crate::writer::write_upd;

verus! {

/// A payload written once at offset zero into an empty writer and flushed
/// reads back exactly, at every sub-range: the buffer a fresh writer flushes
/// after `write(payload, 0)` is `payload` itself, so by the contracts of
/// `Writer::close` and `Reader::read` every in-range read returns the
/// corresponding slice of the payload.
pub proof fn lemma_create_write_close_read(payload: Seq<u8>, i: int, j: int)
    requires
        0 <= i <= j <= payload.len(),
    ensures
        write_upd(Seq::<u8>::empty(), payload, 0) == payload,
        write_upd(Seq::<u8>::empty(), payload, 0).subrange(i, j) == payload.subrange(i, j),
{
    assert(write_upd(Seq::<u8>::empty(), payload, 0) =~= payload);
}

/// Overlapping writes resolve by recency: after writing `d1` at `p1` and
/// then `d2` at `p2`, a position covered by the second write reads from
/// `d2`, and a position covered only by the first write reads from `d1`.
pub proof fn lemma_write_recency(base: Seq<u8>, d1: Seq<u8>, p1: int, d2: Seq<u8>, p2: int, k: int)
    requires
        0 <= p1,
        0 <= p2,
        0 <= k,
    ensures
        p2 <= k < p2 + d2.len() ==> write_upd(write_upd(base, d1, p1), d2, p2)[k] == d2[k - p2],
        p1 <= k < p1 + d1.len() && !(p2 <= k < p2 + d2.len()) ==> write_upd(
            write_upd(base, d1, p1),
            d2,
            p2,
        )[k] == d1[k - p1],
{
}

/// Once persisted, a version never changes: every snapshot reachable in a
/// chain before a persist is reachable unchanged after it, whichever chains
/// the persist and its propagation touched.
pub proof fn lemma_history_immutable(
    pre: DirectoryStore,
    post: DirectoryStore,
    listing: DirectoryListing,
    ups: Seq<DirectoryListing>,
    k: DirectoryKey,
    v: int,
)
    requires
        DirectoryStore::persist_post(pre, post, listing, ups),
        0 <= v < pre.chain(k).len(),
    ensures
        v < post.chain(k).len(),
        post.chain(k)[v] == pre.chain(k)[v],
{
    if k == listing.key {
    } else if key_in(ups, k) {
        let j = choose|j: int| 0 <= j < ups.len() && ups[j].key == k;
        assert(DirectoryStore::steps_at(pre, post, listing, ups, j));
    }
}

/// Two persists of the same directory key derived from the same prior
/// version cannot both succeed: after the first one lands, the chain has
/// moved past the shared basis, so the second fails the compare-and-append
/// check with `Conflict`.
pub proof fn lemma_persist_race(
    pre: DirectoryStore,
    mid: DirectoryStore,
    first: DirectoryListing,
    ups: Seq<DirectoryListing>,
    second: DirectoryListing,
)
    requires
        DirectoryStore::persist_post(pre, mid, first, ups),
        second.key == first.key,
        second.version == first.version,
    ensures
        second.version != mid.chain(second.key).len(),
{
}

/// No two adjacent entries reported by the version walk share a
/// modification stamp: a snapshot is reported only when its stamp differs
/// from the previously reported one.
pub proof fn lemma_versions_distinct_adjacent(snaps: Seq<DirectoryListing>, name: Seq<char>)
    ensures
        forall|i: int| #![trigger coalesced(snaps, name)[i]]
            0 <= i && i + 1 < coalesced(snaps, name).len() ==> coalesced(snaps, name)[i].modified_at
                != coalesced(snaps, name)[i + 1].modified_at,
    decreases snaps.len(),
{
    if snaps.len() > 0 {
        lemma_versions_distinct_adjacent(snaps.drop_last(), name);
        let p = coalesced(snaps.drop_last(), name);
        let c = coalesced(snaps, name);
        assert forall|i: int| #![trigger c[i]]
            0 <= i && i + 1 < c.len() implies c[i].modified_at != c[i + 1].modified_at by {
            if i + 1 < p.len() {
                assert(c[i] == p[i] && c[i + 1] == p[i + 1]);
            } else if i + 1 == c.len() - 1 + 1 && c.len() == p.len() + 1 {
                assert(c[i] == p[i] && c[i + 1] == c.last());
            }
        }
    }
}

/// When the modification stamps of a file never decrease along the chain
/// (as they cannot when every update goes through `Writer::close`, which
/// stamps with a monotonic tick), the reported versions are strictly
/// increasing by modification stamp.
pub proof fn lemma_versions_strictly_increasing(snaps: Seq<DirectoryListing>, name: Seq<char>)
    requires
        forall|v1: int, v2: int|
            0 <= v1 <= v2 < snaps.len() && snaps[v1].has_name(name) && snaps[v2].has_name(name)
                ==> snaps[v1].file_at_name(name).modified_at <= snaps[v2].file_at_name(
                name,
            ).modified_at,
    ensures
        forall|i: int| #![trigger coalesced(snaps, name)[i]]
            0 <= i < coalesced(snaps, name).len() ==> exists|v: int|
                0 <= v < snaps.len() && snaps[v].has_name(name) && coalesced(snaps, name)[i]
                    == snaps[v].file_at_name(name),
        forall|i: int| #![trigger coalesced(snaps, name)[i]]
            0 <= i && i + 1 < coalesced(snaps, name).len() ==> coalesced(snaps, name)[i].modified_at
                < coalesced(snaps, name)[i + 1].modified_at,
    decreases snaps.len(),
{
    if snaps.len() > 0 {
        let pr = snaps.drop_last();
        assert forall|v1: int, v2: int|
            0 <= v1 <= v2 < pr.len() && pr[v1].has_name(name) && pr[v2].has_name(
                name,
            ) implies pr[v1].file_at_name(name).modified_at <= pr[v2].file_at_name(
            name,
        ).modified_at by {
            assert(pr[v1] == snaps[v1] && pr[v2] == snaps[v2]);
        }
        lemma_versions_strictly_increasing(pr, name);
        let p = coalesced(pr, name);
        let c = coalesced(snaps, name);
        assert forall|i: int| #![trigger c[i]]
            0 <= i < c.len() implies exists|v: int|
            0 <= v < snaps.len() && snaps[v].has_name(name) && c[i] == snaps[v].file_at_name(
                name,
            ) by {
            if i < p.len() {
                let v = choose|v: int|
                    0 <= v < pr.len() && pr[v].has_name(name) && p[i] == pr[v].file_at_name(name);
                assert(pr[v] == snaps[v]);
                assert(c[i] == p[i]);
                assert(0 <= v < snaps.len() && snaps[v].has_name(name) && c[i]
                    == snaps[v].file_at_name(name));
            } else {
                let n = snaps.len() - 1;
                assert(snaps[n] == snaps.last());
                assert(c[i] == snaps[n].file_at_name(name));
                assert(0 <= n < snaps.len() && snaps[n].has_name(name) && c[i]
                    == snaps[n].file_at_name(name));
            }
        }
        assert forall|i: int| #![trigger c[i]]
            0 <= i && i + 1 < c.len() implies c[i].modified_at < c[i + 1].modified_at by {
            if i + 1 < p.len() {
                assert(c[i] == p[i] && c[i + 1] == p[i + 1]);
            } else if c.len() == p.len() + 1 {
                assert(c[i] == p[i] && c[i + 1] == c.last());
                let f = snaps.last().file_at_name(name);
                let v = choose|v: int|
                    0 <= v < pr.len() && pr[v].has_name(name) && p[i] == pr[v].file_at_name(name);
                assert(pr[v] == snaps[v]);
                assert(snaps[v].file_at_name(name).modified_at <= snaps[snaps.len()
                    - 1].file_at_name(name).modified_at);
                assert(p.last().modified_at != f.modified_at);
                assert(p[i].modified_at <= p.last().modified_at || i == p.len() - 1);
            }
        }
    }
}

} // verus!
