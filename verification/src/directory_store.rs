//! The append-only store of directory snapshots: one version chain per
//! directory key, compare-and-append persistence, and upward propagation of
//! version-identity changes.

use vstd::prelude::*;
use vstd::seq_lib::*;

use crate::directory_key::{AccessLevel, DirectoryKey};
use crate::directory_listing::DirectoryListing;
use crate::errors::NfsError;

verus! {

/// The version chain of `k` inside a snapshot log: the subsequence of
/// snapshots carrying key `k`, oldest first.
pub open spec fn chain_of(log: Seq<DirectoryListing>, k: DirectoryKey) -> Seq<DirectoryListing>
    decreases log.len(),
{
    if log.len() == 0 {
        Seq::empty()
    } else {
        let p = chain_of(log.drop_last(), k);
        if log.last().key == k {
            p.push(log.last())
        } else {
            p
        }
    }
}

/// Some snapshot in `ups` carries key `k`.
pub open spec fn key_in(ups: Seq<DirectoryListing>, k: DirectoryKey) -> bool {
    exists|j: int| 0 <= j < ups.len() && ups[j].key == k
}

/// The store: a single append-only log of snapshots (each chain is the
/// subsequence of one key), plus a monotonic tick used to issue identities
/// and modification stamps.
pub struct DirectoryStore {
    pub log: Vec<DirectoryListing>,
    pub tick: u64,
}

impl DirectoryStore {
    /// The version chain of `k`: its snapshots, oldest first; version `v`
    /// lives at position `v`.
    pub open spec fn chain(self, k: DirectoryKey) -> Seq<DirectoryListing> {
        chain_of(self.log@, k)
    }

    /// Every logged snapshot is well formed, and its basis equals the number
    /// of earlier snapshots of its key, so `chain(k)[v].version == v`.
    pub open spec fn log_wf(log: Seq<DirectoryListing>) -> bool {
        forall|i: int| #![trigger log[i]]
            0 <= i < log.len() ==> log[i].wf() && log[i].version == chain_of(
                log.take(i),
                log[i].key,
            ).len()
    }

    pub open spec fn wf(self) -> bool {
        Self::log_wf(self.log@)
    }

    /// An empty store.
    pub fn new() -> (r: DirectoryStore)
        ensures
            r.wf(),
            r.log@.len() == 0,
            r.tick == 0,
            forall|k: DirectoryKey| r.chain(k).len() == 0,
    {
        DirectoryStore { log: Vec::new(), tick: 0 }
    }

    /// Issues the next value of the monotonic tick.
    pub fn next_tick(&mut self) -> (t: u64)
        requires
            old(self).tick < u64::MAX,
        ensures
            t == old(self).tick,
            final(self).tick == old(self).tick + 1,
            final(self).log@ == old(self).log@,
            final(self).wf() == old(self).wf(),
    {
        let t = self.tick;
        self.tick = self.tick + 1;
        t
    }
}

/// Appending a snapshot extends exactly the chain of its key.
pub proof fn lemma_chain_push(log: Seq<DirectoryListing>, x: DirectoryListing, k: DirectoryKey)
    ensures
        chain_of(log.push(x), k) == if x.key == k {
            chain_of(log, k).push(x)
        } else {
            chain_of(log, k)
        },
{
    assert(log.push(x).drop_last() =~= log);
    assert(log.push(x).last() == x);
}

/// One step of reading the log left to right.
pub proof fn lemma_chain_take_succ(log: Seq<DirectoryListing>, i: int, k: DirectoryKey)
    requires
        0 <= i < log.len(),
    ensures
        chain_of(log.take(i + 1), k) == if log[i].key == k {
            chain_of(log.take(i), k).push(log[i])
        } else {
            chain_of(log.take(i), k)
        },
{
    assert(log.take(i + 1) =~= log.take(i).push(log[i]));
    lemma_chain_push(log.take(i), log[i], k);
}

/// Reading the whole log gives the whole chain.
pub proof fn lemma_chain_take_full(log: Seq<DirectoryListing>, k: DirectoryKey)
    ensures
        chain_of(log.take(log.len() as int), k) == chain_of(log, k),
{
    assert(log.take(log.len() as int) =~= log);
}

/// Chains only grow as the log is read further.
pub proof fn lemma_chain_take_prefix(log: Seq<DirectoryListing>, i: int, k: DirectoryKey)
    requires
        0 <= i <= log.len(),
    ensures
        chain_of(log.take(i), k).is_prefix_of(chain_of(log, k)),
    decreases log.len() - i,
{
    if i == log.len() {
        lemma_chain_take_full(log, k);
        assert(chain_of(log.take(i), k) =~= chain_of(log, k));
    } else {
        lemma_chain_take_succ(log, i, k);
        lemma_chain_take_prefix(log, i + 1, k);
        assert(chain_of(log.take(i), k).is_prefix_of(chain_of(log.take(i + 1), k)));
    }
}

/// In a well-formed log, chain elements carry their key, sit at the position
/// their basis names, and are well formed.
pub proof fn lemma_chain_props(log: Seq<DirectoryListing>, k: DirectoryKey)
    requires
        DirectoryStore::log_wf(log),
    ensures
        chain_of(log, k).len() <= log.len(),
        forall|v: int| #![trigger chain_of(log, k)[v]]
            0 <= v < chain_of(log, k).len() ==> chain_of(log, k)[v].key == k && chain_of(log, k)[v].version == v
                && chain_of(log, k)[v].wf(),
    decreases log.len(),
{
    if log.len() > 0 {
        let pre = log.drop_last();
        assert forall|i: int| 0 <= i < pre.len() implies pre[i].wf() && pre[i].version == chain_of(
            pre.take(i),
            pre[i].key,
        ).len() by {
            assert(pre[i] == log[i]);
            assert(pre.take(i) =~= log.take(i));
        }
        lemma_chain_props(pre, k);
        if log.last().key == k {
            let n = log.len() - 1;
            assert(log[n] == log.last());
            assert(log.take(n) =~= pre);
            assert(log.last().version == chain_of(pre, k).len());
        }
    }
}

/// A key with a non-empty chain occurs in the log.
pub proof fn lemma_chain_member(log: Seq<DirectoryListing>, k: DirectoryKey)
    requires
        chain_of(log, k).len() > 0,
    ensures
        exists|i: int| 0 <= i < log.len() && log[i].key == k,
    decreases log.len(),
{
    if log.len() > 0 {
        if log.last().key == k {
            assert(log[log.len() - 1].key == k);
        } else {
            lemma_chain_member(log.drop_last(), k);
            let i = choose|i: int| 0 <= i < log.drop_last().len() && log.drop_last()[i].key == k;
            assert(log[i].key == k);
        }
    }
}

/// A well-formed log stays well formed when a snapshot with the right basis
/// is appended.
pub proof fn lemma_log_wf_push(log: Seq<DirectoryListing>, x: DirectoryListing)
    requires
        DirectoryStore::log_wf(log),
        x.wf(),
        x.version == chain_of(log, x.key).len(),
    ensures
        DirectoryStore::log_wf(log.push(x)),
{
    let l2 = log.push(x);
    assert forall|i: int| 0 <= i < l2.len() implies l2[i].wf() && l2[i].version == chain_of(
        l2.take(i),
        l2[i].key,
    ).len() by {
        if i < log.len() {
            assert(l2[i] == log[i]);
            assert(l2.take(i) =~= log.take(i));
        } else {
            assert(l2[i] == x);
            assert(l2.take(i) =~= log);
        }
    }
}

impl DirectoryStore {
    /// The length of the chain of `key`.
    pub fn chain_len(&self, key: &DirectoryKey) -> (n: usize)
        ensures
            n == self.chain(*key).len(),
    {
        let mut i: usize = 0;
        let mut n: usize = 0;
        proof {
            lemma_chain_props_weak(self.log@, *key);
        }
        while i < self.log.len()
            invariant
                i <= self.log@.len(),
                n == chain_of(self.log@.take(i as int), *key).len(),
                n <= i,
            decreases self.log@.len() - i,
        {
            proof {
                lemma_chain_take_succ(self.log@, i as int, *key);
            }
            if self.log[i].key == *key {
                n = n + 1;
            }
            i = i + 1;
        }
        proof {
            lemma_chain_take_full(self.log@, *key);
        }
        n
    }

    /// The current snapshot of `key`: the last element of its chain.
    pub fn get_current(&self, key: &DirectoryKey) -> (r: Option<DirectoryListing>)
        requires
            self.wf(),
        ensures
            match r {
                Some(l) => self.chain(*key).len() > 0 && l.equiv(self.chain(*key).last())
                    && l.wf() && l.key == *key && l.version == self.chain(*key).len() - 1,
                None => self.chain(*key).len() == 0,
            },
    {
        let mut i: usize = 0;
        let mut best: Option<usize> = None;
        while i < self.log.len()
            invariant
                self.wf(),
                i <= self.log@.len(),
                match best {
                    Some(b) => b < i && chain_of(self.log@.take(i as int), *key).len() > 0
                        && self.log@[b as int] == chain_of(self.log@.take(i as int), *key).last(),
                    None => chain_of(self.log@.take(i as int), *key).len() == 0,
                },
            decreases self.log@.len() - i,
        {
            proof {
                lemma_chain_take_succ(self.log@, i as int, *key);
            }
            if self.log[i].key == *key {
                best = Some(i);
            }
            i = i + 1;
        }
        proof {
            lemma_chain_take_full(self.log@, *key);
            lemma_chain_props(self.log@, *key);
        }
        match best {
            Some(b) => Some(self.log[b].duplicate()),
            None => None,
        }
    }
}

/// Weaker counting helper: nothing beyond the chain being no longer than the
/// log it was read from.
pub proof fn lemma_chain_props_weak(log: Seq<DirectoryListing>, k: DirectoryKey)
    ensures
        chain_of(log, k).len() <= log.len(),
    decreases log.len(),
{
    if log.len() > 0 {
        lemma_chain_props_weak(log.drop_last(), k);
    }
}

/// Appending a snapshot adds exactly its own key to the keys present.
pub proof fn lemma_key_in_push(ups: Seq<DirectoryListing>, x: DirectoryListing, k: DirectoryKey)
    ensures
        key_in(ups.push(x), k) == (key_in(ups, k) || x.key == k),
{
    if key_in(ups.push(x), k) {
        let j = choose|j: int| 0 <= j < ups.push(x).len() && ups.push(x)[j].key == k;
        if j < ups.len() {
            assert(ups[j].key == k);
        }
    }
    if key_in(ups, k) {
        let j = choose|j: int| 0 <= j < ups.len() && ups[j].key == k;
        assert(ups.push(x)[j].key == k);
    }
    if x.key == k {
        assert(ups.push(x)[ups.len() as int].key == k);
    }
}

/// `post` is `pre` with one snapshot appended whose contents are `l`'s.
pub open spec fn appended_one(
    pre: Seq<DirectoryListing>,
    post: Seq<DirectoryListing>,
    l: DirectoryListing,
) -> bool {
    &&& post.len() == pre.len() + 1
    &&& (forall|i: int| 0 <= i < pre.len() ==> post[i] == pre[i])
    &&& post.last().equiv(l)
}

impl DirectoryStore {
    /// The `j`-th hop of upward propagation: the parent named by the previous
    /// hop referenced the previous hop's old current version, so a rebased
    /// parent snapshot pinning the new version was appended to its chain.
    pub open spec fn steps_at(
        pre: DirectoryStore,
        post: DirectoryStore,
        listing: DirectoryListing,
        ups: Seq<DirectoryListing>,
        j: int,
    ) -> bool {
        let k = ups[j].key;
        let ck = if j == 0 {
            listing.key
        } else {
            ups[j - 1].key
        };
        let par = if j == 0 {
            listing.parent
        } else {
            ups[j - 1].parent
        };
        &&& par == Some(k)
        &&& k != listing.key
        &&& (forall|m: int| 0 <= m < j ==> ups[m].key != k)
        &&& pre.chain(ck).len() > 0
        &&& pre.chain(k).len() > 0
        &&& appended_one(pre.chain(k), post.chain(k), ups[j])
        &&& ups[j].is_bump_of(pre.chain(k).last(), ck, pre.chain(ck).len() as u64)
        &&& pre.chain(k).last().has_subdir(ck)
        &&& pre.chain(k).last().subdir_version(ck) == pre.chain(ck).len() - 1
    }

    /// What a successful persist did so far: the snapshot itself was appended
    /// as the next version of its chain, every returned ancestor was appended
    /// as described by `steps_at`, and no other chain changed.
    pub open spec fn steps_ok(
        pre: DirectoryStore,
        post: DirectoryStore,
        listing: DirectoryListing,
        ups: Seq<DirectoryListing>,
    ) -> bool {
        &&& listing.version == pre.chain(listing.key).len()
        &&& appended_one(pre.chain(listing.key), post.chain(listing.key), listing)
        &&& (forall|j: int| #![trigger ups[j]]
            0 <= j < ups.len() ==> Self::steps_at(pre, post, listing, ups, j))
        &&& (forall|k: DirectoryKey|
            k != listing.key && !key_in(ups, k) ==> post.chain(k) == pre.chain(k))
    }

    /// The upward walk ran to a fixed point: the next ancestor does not exist,
    /// was already re-persisted in this walk, or does not pin the old current
    /// version of the last re-persisted chain.
    pub open spec fn stopped(
        pre: DirectoryStore,
        listing: DirectoryListing,
        ups: Seq<DirectoryListing>,
    ) -> bool {
        let ck = if ups.len() == 0 {
            listing.key
        } else {
            ups.last().key
        };
        let cur = if ups.len() == 0 {
            listing.parent
        } else {
            ups.last().parent
        };
        match cur {
            Option::None => true,
            Option::Some(pk) => {
                ||| pk == listing.key
                ||| key_in(ups, pk)
                ||| pre.chain(ck).len() == 0
                ||| pre.chain(pk).len() == 0
                ||| !pre.chain(pk).last().has_subdir(ck)
                ||| pre.chain(pk).last().subdir_version(ck) != pre.chain(ck).len() - 1
            },
        }
    }

    /// Everything a successful persist promises about the store's chains.
    pub open spec fn persist_post(
        pre: DirectoryStore,
        post: DirectoryStore,
        listing: DirectoryListing,
        ups: Seq<DirectoryListing>,
    ) -> bool {
        Self::steps_ok(pre, post, listing, ups) && Self::stopped(pre, listing, ups)
    }

    /// Whether some already re-persisted ancestor carries `key`.
    fn ups_contains_key(ups: &Vec<DirectoryListing>, key: &DirectoryKey) -> (r: bool)
        ensures
            r == key_in(ups@, *key),
    {
        let mut i: usize = 0;
        while i < ups.len()
            invariant
                i <= ups@.len(),
                forall|j: int| 0 <= j < i ==> ups@[j].key != *key,
            decreases ups@.len() - i,
        {
            if ups[i].key == *key {
                return true;
            }
            i = i + 1;
        }
        false
    }

    /// One hop of propagation: if the current snapshot of `pk` pins the old
    /// current version of the chain of `ck`, append a rebased copy of it
    /// pinning the new version.  `pre` is the store as it stood before the
    /// walk began; the chain of `pk` is untouched so far.
    #[verifier::rlimit(100)]
    #[verifier::spinoff_prover]
    fn try_bump(
        &mut self,
        Ghost(pre): Ghost<DirectoryStore>,
        ck: DirectoryKey,
        ck_oldlen: usize,
        pk: DirectoryKey,
    ) -> (res: Option<(DirectoryListing, usize)>)
        requires
            old(self).wf(),
            pre.wf(),
            old(self).chain(pk) == pre.chain(pk),
            ck_oldlen == pre.chain(ck).len(),
            ck_oldlen > 0,
        ensures
            final(self).wf(),
            final(self).tick == old(self).tick,
            match res {
                Some((p2, plen)) => {
                    &&& p2.key == pk
                    &&& p2.wf()
                    &&& plen == pre.chain(pk).len()
                    &&& pre.chain(pk).len() > 0
                    &&& appended_one(pre.chain(pk), final(self).chain(pk), p2)
                    &&& p2.is_bump_of(pre.chain(pk).last(), ck, ck_oldlen as u64)
                    &&& pre.chain(pk).last().has_subdir(ck)
                    &&& pre.chain(pk).last().subdir_version(ck) == ck_oldlen - 1
                    &&& (forall|k: DirectoryKey|
                        k != pk ==> final(self).chain(k) == old(self).chain(k))
                },
                None => {
                    &&& *final(self) == *old(self)
                    &&& (pre.chain(pk).len() == 0 || !pre.chain(pk).last().has_subdir(ck)
                        || pre.chain(pk).last().subdir_version(ck) != ck_oldlen - 1)
                },
            },
    {
        match self.get_current(&pk) {
            Option::None => None,
            Option::Some(psnap) => {
                match psnap.get_subdir_version(ck) {
                    Option::None => {
                        proof {
                            assert(psnap.subdirectories@ == pre.chain(pk).last().subdirectories@);
                        }
                        None
                    },
                    Option::Some(v) => {
                        proof {
                            assert(psnap.subdirectories@ == pre.chain(pk).last().subdirectories@);
                        }
                        if v != (ck_oldlen - 1) as u64 {
                            None
                        } else {
                            let plen = self.chain_len(&pk);
                            let newv = ck_oldlen as u64;
                            let mut p2 = psnap;
                            p2.set_subdir_version(ck, newv);
                            proof {
                                lemma_chain_props(pre.log@, pk);
                                assert(pre.chain(pk).last() == pre.chain(pk)[plen - 1]);
                                assert(p2.version == plen - 1);
                            }
                            p2.advance_version();
                            let p2dup = p2.duplicate();
                            proof {
                                lemma_log_wf_push(self.log@, p2dup);
                            }
                            let ghost mid = *self;
                            self.log.push(p2dup);
                            proof {
                                lemma_chain_push(mid.log@, p2dup, pk);
                                assert forall|k: DirectoryKey| k != pk implies self.chain(k)
                                    == mid.chain(k) by {
                                    lemma_chain_push(mid.log@, p2dup, k);
                                }
                                assert(appended_one(pre.chain(pk), self.chain(pk), p2));
                            }
                            Some((p2, plen))
                        }
                    },
                }
            },
        }
    }

    /// Serialises `listing` as the next version of its chain, provided the
    /// chain has not moved since `listing` was read, then walks upward: every
    /// ancestor whose current snapshot pinned the old current version of the
    /// chain below it is re-persisted with the new version pinned, until an
    /// ancestor no longer does or the root is reached.  Returns the full
    /// ordered set of re-persisted ancestors, from the immediate parent
    /// upward.  Fails `Conflict`, changing nothing, exactly when the basis
    /// has moved.
    #[verifier::rlimit(100)]
    #[verifier::spinoff_prover]
    pub fn persist(&mut self, listing: &DirectoryListing) -> (r: Result<
        Vec<DirectoryListing>,
        NfsError,
    >)
        requires
            old(self).wf(),
            listing.wf(),
        ensures
            final(self).wf(),
            final(self).tick == old(self).tick,
            (r is Ok) <==> listing.version == old(self).chain(listing.key).len(),
            match r {
                Ok(ups) => Self::persist_post(*old(self), *final(self), *listing, ups@),
                Err(e) => e == NfsError::Conflict && *final(self) == *old(self),
            },
    {
        broadcast use vstd::set::group_set_axioms;
        broadcast use vstd::seq_lib::seq_to_set_is_finite;

        let oldlen = self.chain_len(&listing.key);
        if listing.version != oldlen as u64 {
            return Err(NfsError::Conflict);
        }
        let ghost pre = *old(self);
        let dup = listing.duplicate();
        proof {
            lemma_log_wf_push(self.log@, dup);
        }
        self.log.push(dup);
        proof {
            lemma_chain_push(pre.log@, dup, listing.key);
            assert forall|k: DirectoryKey| k != listing.key implies self.chain(k) == pre.chain(
                k,
            ) by {
                lemma_chain_push(pre.log@, dup, k);
            }
            assert(appended_one(pre.chain(listing.key), self.chain(listing.key), *listing));
        }
        let ghost keyset = pre.log@.map_values(|l: DirectoryListing| l.key).to_set();
        let ghost mut remaining = keyset.remove(listing.key);
        let mut ups: Vec<DirectoryListing> = Vec::new();
        let mut ck: DirectoryKey = listing.key;
        let mut ck_oldlen: usize = oldlen;
        let mut cur: Option<DirectoryKey> = listing.parent;
        let mut done: bool = false;
        while !done
            invariant
                self.wf(),
                pre.wf(),
                self.tick == pre.tick,
                pre == *old(self),
                listing.wf(),
                Self::steps_ok(pre, *self, *listing, ups@),
                ck == (if ups@.len() == 0 {
                    listing.key
                } else {
                    ups@.last().key
                }),
                cur == (if ups@.len() == 0 {
                    listing.parent
                } else {
                    ups@.last().parent
                }),
                ck_oldlen == pre.chain(ck).len(),
                done ==> Self::stopped(pre, *listing, ups@),
                remaining.finite(),
                keyset == pre.log@.map_values(|l: DirectoryListing| l.key).to_set(),
                forall|k: DirectoryKey| #![auto]
                    keyset.contains(k) && k != listing.key && !key_in(ups@, k)
                        ==> remaining.contains(k),
            decreases remaining.len() + (if done {
                0int
            } else {
                1int
            }),
        {
            match cur {
                Option::None => {
                    done = true;
                },
                Option::Some(pk) => {
                    if ck_oldlen == 0 || pk == listing.key || Self::ups_contains_key(&ups, &pk) {
                        done = true;
                    } else {
                        proof {
                            assert(self.chain(pk) == pre.chain(pk));
                        }
                        match self.try_bump(Ghost(pre), ck, ck_oldlen, pk) {
                            Option::None => {
                                done = true;
                            },
                            Option::Some((p2, plen)) => {
                                let next_cur = p2.parent;
                                let ghost oldups = ups@;
                                ups.push(p2);
                                proof {
                                    assert(ups@ == oldups.push(p2));
                                    assert forall|k: DirectoryKey|
                                        k != listing.key && !key_in(ups@, k) implies self.chain(k)
                                        == pre.chain(k) by {
                                        lemma_key_in_push(oldups, p2, k);
                                    }
                                    let j = oldups.len() as int;
                                    assert(ups@[j] == p2);
                                    assert forall|m: int| 0 <= m < j implies ups@[m].key != pk by {
                                        assert(ups@[m] == oldups[m]);
                                    }
                                    assert(Self::steps_at(pre, *self, *listing, ups@, j));
                                    assert forall|j2: int| #![trigger ups@[j2]]
                                        0 <= j2 < j implies Self::steps_at(
                                        pre,
                                        *self,
                                        *listing,
                                        ups@,
                                        j2,
                                    ) by {
                                        assert(oldups[j2] == ups@[j2]);
                                        assert(ups@[j2].key != pk);
                                        if j2 > 0 {
                                            assert(oldups[j2 - 1] == ups@[j2 - 1]);
                                        }
                                    }
                                    lemma_chain_member(pre.log@, pk);
                                    let wi = choose|wi: int|
                                        0 <= wi < pre.log@.len() && pre.log@[wi].key == pk;
                                    assert(pre.log@.map_values(|l: DirectoryListing| l.key)[wi]
                                        == pk);
                                    assert(pre.log@.map_values(|l: DirectoryListing| l.key)
                                        .contains(pk));
                                    assert(keyset.contains(pk));
                                    assert(remaining.contains(pk));
                                    remaining = remaining.remove(pk);
                                    assert forall|k: DirectoryKey| #![auto]
                                        keyset.contains(k) && k != listing.key && !key_in(ups@, k)
                                            implies remaining.contains(k) by {
                                        lemma_key_in_push(oldups, p2, k);
                                    }
                                }
                                ck = pk;
                                ck_oldlen = plen;
                                cur = next_cur;
                            },
                        }
                    }
                },
            }
        }
        Ok(ups)
    }

    /// The ordered version identifiers of `key`, oldest first: `0` up to the
    /// chain's length.  Fails `InvalidOperation` for an unversioned key and
    /// `NotFound` for a key never persisted.
    pub fn get_versions(&self, key: &DirectoryKey) -> (r: Result<Vec<u64>, NfsError>)
        ensures
            match r {
                Ok(v) => key.versioned && self.chain(*key).len() > 0 && v@.len() == self.chain(
                    *key,
                ).len() && (forall|i: int| 0 <= i < v@.len() ==> v@[i] == i),
                Err(e) => (e == NfsError::InvalidOperation && !key.versioned) || (e
                    == NfsError::NotFound && key.versioned && self.chain(*key).len() == 0),
            },
    {
        if !key.versioned {
            return Err(NfsError::InvalidOperation);
        }
        let n = self.chain_len(key);
        if n == 0 {
            return Err(NfsError::NotFound);
        }
        let mut v: Vec<u64> = Vec::new();
        let mut i: usize = 0;
        while i < n
            invariant
                i <= n,
                v@.len() == i,
                forall|j: int| 0 <= j < i ==> v@[j] == j,
            decreases n - i,
        {
            v.push(i as u64);
            i = i + 1;
        }
        Ok(v)
    }

    /// Reconstructs the historical snapshot of `key` at `version_id`.
    /// Fails `AccessDenied` when the capability does not satisfy the key and
    /// `NotFound` when the version is absent from the chain.
    pub fn get_by_version(&self, key: &DirectoryKey, access_level: AccessLevel, version_id: u64)
        -> (r: Result<DirectoryListing, NfsError>)
        requires
            self.wf(),
        ensures
            match r {
                Ok(l) => access_level == key.access_level && version_id < self.chain(*key).len()
                    && l.equiv(self.chain(*key)[version_id as int]) && l.wf(),
                Err(e) => (e == NfsError::AccessDenied && access_level != key.access_level) || (e
                    == NfsError::NotFound && access_level == key.access_level && version_id
                    >= self.chain(*key).len()),
            },
    {
        if access_level != key.access_level {
            return Err(NfsError::AccessDenied);
        }
        let mut i: usize = 0;
        let mut cnt: usize = 0;
        while i < self.log.len()
            invariant
                self.wf(),
                access_level == key.access_level,
                i <= self.log@.len(),
                cnt <= i,
                cnt == chain_of(self.log@.take(i as int), *key).len(),
                cnt <= version_id,
            decreases self.log@.len() - i,
        {
            proof {
                lemma_chain_take_succ(self.log@, i as int, *key);
            }
            if self.log[i].key == *key {
                if cnt as u64 == version_id {
                    proof {
                        lemma_chain_take_prefix(self.log@, i as int + 1, *key);
                        let c1 = chain_of(self.log@.take(i as int + 1), *key);
                        assert(c1.len() == cnt + 1);
                        assert(c1.last() == self.log@[i as int]);
                        assert(c1 =~= self.chain(*key).subrange(0, c1.len() as int));
                        assert(self.chain(*key)[cnt as int] == c1[cnt as int]);
                        assert(self.chain(*key)[cnt as int] == self.log@[i as int]);
                        assert(self.log@[i as int].wf());
                    }
                    return Ok(self.log[i].duplicate());
                }
                cnt = cnt + 1;
            }
            i = i + 1;
        }
        proof {
            lemma_chain_take_full(self.log@, *key);
        }
        Err(NfsError::NotFound)
    }
}

} // verus!
