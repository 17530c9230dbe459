//! Bookkeeping of released page ids: the ids free and available now, and the
//! ids freed by in-flight transactions, still pending until no reader's
//! snapshot can reach them.
use vstd::prelude::*;

verus! {

/// Pages freed by one write transaction, not yet released to the free set.
pub struct PendingTx {
    /// the transaction that freed these pages
    pub txid: u64,
    /// the freed page ids
    pub ids: Vec<u64>,
}

/// Strictly ascending: sorted with no duplicates.
pub open spec fn ids_sorted(s: Seq<u64>) -> bool {
    forall|i: int, j: int| 0 <= i < j < s.len() ==> s[i] < s[j]
}

/// No duplicates, in any order.
pub open spec fn ids_distinct(s: Seq<u64>) -> bool {
    forall|i: int, j: int| 0 <= i < j < s.len() ==> s[i] != s[j]
}

/// Page `pg` is pending in some entry of `p`.
pub open spec fn pending_has(p: Seq<PendingTx>, pg: u64) -> bool {
    exists|i: int, j: int|
        0 <= i < p.len() && 0 <= j < p[i].ids@.len() && (#[trigger] p[i].ids@[j]) == pg
}

/// Page `pg` is pending for transaction `t` in `p`.
pub open spec fn pending_has_tx(p: Seq<PendingTx>, t: u64, pg: u64) -> bool {
    exists|i: int, j: int|
        0 <= i < p.len() && p[i].txid == t && 0 <= j < p[i].ids@.len() && (#[trigger] p[i].ids@[j])
            == pg
}

/// Page `pg` was freed by a transaction with id at most `t`.
pub open spec fn pending_has_upto(p: Seq<PendingTx>, t: u64, pg: u64) -> bool {
    exists|i: int, j: int|
        0 <= i < p.len() && p[i].txid <= t && 0 <= j < p[i].ids@.len() && (#[trigger] p[i].ids@[j])
            == pg
}

/// Set of released page ids plus the per-transaction pending sets; serves
/// the write transaction's page allocations.
pub struct Freelist {
    /// free and available now, strictly ascending
    pub ids: Vec<u64>,
    /// freed per in-flight transaction, not yet released
    pub pending: Vec<PendingTx>,
}


/// The freelist page convention for writing: a small set stores its count
/// in the page header and its ids as the slots; past the sentinel the
/// header carries the sentinel and the first slot holds the real count.
pub open spec fn spec_slots_of(ids: Seq<u64>) -> (u16, Seq<u64>) {
    if ids.len() < 0xffff {
        (ids.len() as u16, ids)
    } else {
        (0xffff as u16, seq![ids.len() as u64] + ids)
    }
}

/// The freelist page convention for reading, inverse of the writing one;
/// nothing comes back from a page whose counts disagree with its slots.
pub open spec fn spec_ids_of(count: u16, slots: Seq<u64>) -> Option<Seq<u64>> {
    if count < 0xffff {
        if count <= slots.len() {
            Some(slots.take(count as int))
        } else {
            None
        }
    } else {
        if slots.len() >= 1 && slots[0] + 1 <= slots.len() {
            Some(slots.subrange(1, slots[0] as int + 1))
        } else {
            None
        }
    }
}

/// Writing a freelist to page slots and reading them back yields the very
/// ids that were written, however many there are.
pub proof fn lemma_slots_roundtrip(ids: Seq<u64>)
    requires
        ids.len() < u64::MAX,
    ensures
        spec_ids_of(spec_slots_of(ids).0, spec_slots_of(ids).1) == Some(ids),
{
    if ids.len() < 0xffff {
        assert(ids.take(ids.len() as int) =~= ids);
    } else {
        let slots = seq![ids.len() as u64] + ids;
        assert(slots[0] == ids.len() as u64);
        assert(slots.subrange(1, slots[0] as int + 1) =~= ids);
    }
}

/// No page id appears twice among the pending sets: not inside one entry,
/// not across two entries.
pub open spec fn pending_wf(p: Seq<PendingTx>) -> bool {
    &&& forall|i: int| 0 <= i < p.len() ==> ids_distinct((#[trigger] p[i]).ids@)
    &&& forall|i1: int, j1: int, i2: int, j2: int|
        0 <= i1 < p.len() && 0 <= j1 < p[i1].ids@.len() && 0 <= i2 < p.len() && 0 <= j2
            < p[i2].ids@.len() && (i1 != i2) ==> (#[trigger] p[i1].ids@[j1]) != (
        #[trigger] p[i2].ids@[j2])
}

impl Freelist {
    /// Well-formedness: the free set is strictly ascending; no page id
    /// appears twice, neither inside the free set, nor inside the pending
    /// sets, nor across the two.
    pub open spec fn wf(self) -> bool {
        &&& ids_sorted(self.ids@)
        &&& pending_wf(self.pending@)
        &&& forall|pg: u64| self.ids@.contains(pg) ==> !pending_has(self.pending@, pg)
    }

    /// An empty freelist.
    pub fn new() -> (r: Freelist)
        ensures
            r.wf(),
            r.ids@.len() == 0,
            r.pending@.len() == 0,
    {
        Freelist { ids: Vec::new(), pending: Vec::new() }
    }

    /// Number of page ids free and available now.
    pub fn free_count(&self) -> (r: usize)
        ensures
            r == self.ids@.len(),
    {
        self.ids.len()
    }

    /// Record the run `pgid ..= pgid + overflow` as freed by transaction
    /// `txid`: the pages enter that transaction's pending set and nothing
    /// becomes available yet. Meta pages are never freed, and a page may be
    /// freed only once.
    pub fn free(&mut self, txid: u64, pgid: u64, overflow: u32)
        requires
            old(self).wf(),
            pgid >= 2,
            pgid + overflow < u64::MAX,
            forall|pg: u64|
                pgid <= pg <= pgid + overflow ==> !old(self).ids@.contains(pg) && !pending_has(
                    old(self).pending@,
                    pg,
                ),
        ensures
            final(self).wf(),
            final(self).ids == old(self).ids,
            forall|pg: u64|
                pending_has(final(self).pending@, pg) <==> pending_has(old(self).pending@, pg)
                    || pgid <= pg <= pgid + overflow,
            forall|t: u64, pg: u64|
                pending_has_tx(final(self).pending@, t, pg) <==> pending_has_tx(
                    old(self).pending@,
                    t,
                    pg,
                ) || (t == txid && pgid <= pg <= pgid + overflow),
            forall|t: u64, pg: u64|
                pending_has_upto(final(self).pending@, t, pg) <==> pending_has_upto(
                    old(self).pending@,
                    t,
                    pg,
                ) || (txid <= t && pgid <= pg <= pgid + overflow),
    {
        let mut pages: Vec<u64> = Vec::new();
        let last = pgid + overflow as u64;
        let mut pg = pgid;
        while pg <= last
            invariant
                pgid <= pg <= last + 1,
                last < u64::MAX,
                pages@.len() == pg - pgid,
                forall|k: int| 0 <= k < pages@.len() ==> pages@[k] == pgid + k,
            decreases last + 1 - pg,
        {
            pages.push(pg);
            pg = pg + 1;
        }
        proof {
            assert forall|y: u64| pages@.contains(y) implies pgid <= y <= last by {
                let k = choose|k: int| 0 <= k < pages@.len() && pages@[k] == y;
            }
            assert forall|y: u64| pgid <= y <= last implies pages@.contains(y) by {
                assert(pages@[y - pgid] == y);
            }
        }
        let e = PendingTx { txid, ids: pages };
        proof {
            lemma_pending_push(self.pending@, e);
        }
        let ghost p0 = self.pending@;
        self.pending.push(e);
        proof {
            let q = self.pending@;
            assert forall|a: int| 0 <= a < q.len() implies ids_distinct((#[trigger] q[a]).ids@) by {
                if a < p0.len() {
                    assert(q[a] == p0[a]);
                }
            }
            assert forall|i1: int, j1: int, i2: int, j2: int|
                0 <= i1 < q.len() && 0 <= j1 < q[i1].ids@.len() && 0 <= i2 < q.len() && 0 <= j2
                    < q[i2].ids@.len() && (i1 != i2) implies (#[trigger] q[i1].ids@[j1]) != (
            #[trigger] q[i2].ids@[j2]) by {
                if i1 < p0.len() && i2 < p0.len() {
                    assert(q[i1] == p0[i1] && q[i2] == p0[i2]);
                    assert(p0[i1].ids@[j1] != p0[i2].ids@[j2]);
                } else if i1 == p0.len() {
                    assert(q[i2] == p0[i2]);
                    if q[i1].ids@[j1] == q[i2].ids@[j2] {
                        assert(pending_has(p0, q[i1].ids@[j1]));
                    }
                } else {
                    assert(q[i1] == p0[i1]);
                    if q[i1].ids@[j1] == q[i2].ids@[j2] {
                        assert(pending_has(p0, q[i2].ids@[j2]));
                    }
                }
            }
        }
    }

    /// Discard everything transaction `txid` freed: the transaction rolled
    /// back, so its pages are still referenced by the surviving tree and
    /// must be neither pending nor available.
    pub fn rollback(&mut self, txid: u64)
        requires
            old(self).wf(),
        ensures
            final(self).wf(),
            final(self).ids == old(self).ids,
            forall|t: u64, pg: u64|
                pending_has_tx(final(self).pending@, t, pg) <==> t != txid && pending_has_tx(
                    old(self).pending@,
                    t,
                    pg,
                ),
            forall|pg: u64|
                pending_has(final(self).pending@, pg) <==> pending_has(old(self).pending@, pg)
                    && !pending_has_tx(old(self).pending@, txid, pg),
    {
        let ghost p0 = self.pending@;
        let mut i: usize = 0;
        while i < self.pending.len()
            invariant
                self.ids == old(self).ids,
                old(self).wf(),
                pending_wf(self.pending@),
                i <= self.pending@.len(),
                forall|j: int| 0 <= j < i ==> (#[trigger] self.pending@[j]).txid != txid,
                forall|t: u64, pg: u64|
                    t != txid ==> (pending_has_tx(self.pending@, t, pg) <==> pending_has_tx(
                        p0,
                        t,
                        pg,
                    )),
                forall|pg: u64| pending_has(self.pending@, pg) ==> pending_has(p0, pg),
                forall|pg: u64|
                    pending_has(p0, pg) && !pending_has_tx(p0, txid, pg) ==> pending_has(
                        self.pending@,
                        pg,
                    ),
                forall|pg: u64|
                    pending_has_tx(p0, txid, pg) && pending_has(self.pending@, pg)
                        ==> pending_has_tx(self.pending@, txid, pg),
                forall|pg: u64|
                    pending_has_tx(self.pending@, txid, pg) ==> pending_has_tx(p0, txid, pg),
            decreases self.pending@.len() - i,
        {
            if self.pending[i].txid == txid {
                proof {
                    lemma_pending_remove(self.pending@, i as int);
                    let cur = self.pending@;
                    assert forall|t: u64, pg: u64|
                        t != txid && pending_has_tx(cur, t, pg) implies !cur[i as int].ids@.contains(
                        pg,
                    ) by {
                        let (a, j) = choose|a: int, j: int|
                            0 <= a < cur.len() && cur[a].txid == t && 0 <= j < cur[a].ids@.len()
                                && (#[trigger] cur[a].ids@[j]) == pg;
                        if cur[i as int].ids@.contains(pg) {
                            let j2 = choose|j2: int|
                                0 <= j2 < cur[i as int].ids@.len() && cur[i as int].ids@[j2] == pg;
                            assert(cur[a].ids@[j] == cur[i as int].ids@[j2]);
                            assert(a == i);
                        }
                    }
                    assert forall|pg: u64| cur[i as int].ids@.contains(pg) implies pending_has_tx(
                        cur,
                        txid,
                        pg,
                    ) by {
                        let j2 = choose|j2: int|
                            0 <= j2 < cur[i as int].ids@.len() && cur[i as int].ids@[j2] == pg;
                        assert(cur[i as int].txid == txid && cur[i as int].ids@[j2] == pg);
                    }
                }
                self.pending.remove(i);
            } else {
                proof {
                    let cur = self.pending@;
                    assert forall|pg: u64| pending_has_tx(cur, txid, pg) && 0 <= i implies !(
                    cur[i as int].ids@.contains(pg)) by {
                        let (a, j) = choose|a: int, j: int|
                            0 <= a < cur.len() && cur[a].txid == txid && 0 <= j
                                < cur[a].ids@.len() && (#[trigger] cur[a].ids@[j]) == pg;
                        if cur[i as int].ids@.contains(pg) {
                            let j2 = choose|j2: int|
                                0 <= j2 < cur[i as int].ids@.len() && cur[i as int].ids@[j2] == pg;
                            assert(cur[a].ids@[j] == cur[i as int].ids@[j2]);
                            assert(a == i);
                        }
                    }
                }
                i = i + 1;
            }
        }
        proof {
            assert forall|pg: u64| !pending_has_tx(self.pending@, txid, pg) by {
                if pending_has_tx(self.pending@, txid, pg) {
                    let (a, j) = choose|a: int, j: int|
                        0 <= a < self.pending@.len() && self.pending@[a].txid == txid && 0 <= j
                            < self.pending@[a].ids@.len() && (#[trigger] self.pending@[a].ids@[j])
                            == pg;
                }
            }
        }
    }

    /// Serve an allocation of `n` contiguous pages from the free set: find
    /// the first run of `n` consecutive page ids, remove it, and return its
    /// first id. `None` when no such run exists; the caller extends the
    /// file instead.
    #[verifier::rlimit(100)]
    pub fn allocate(&mut self, n: usize) -> (r: Option<u64>)
        requires
            old(self).wf(),
            1 <= n,
            n <= u64::MAX,
        ensures
            final(self).wf(),
            final(self).pending == old(self).pending,
            match r {
                Some(start) => {
                    &&& start + n - 1 <= u64::MAX
                    &&& has_run(old(self).ids@, start, n as int)
                    &&& forall|y: u64| y < start ==> !has_run(old(self).ids@, y, n as int)
                    &&& forall|pg: u64|
                        final(self).ids@.contains(pg) <==> old(self).ids@.contains(pg) && !(start
                            <= pg < start + n)
                    &&& final(self).ids@.len() == old(self).ids@.len() - n
                },
                None => {
                    &&& final(self).ids == old(self).ids
                    &&& forall|y: u64| !has_run(old(self).ids@, y, n as int)
                },
            },
    {
        let ghost s = self.ids@;
        let len = self.ids.len();
        if len < n {
            proof {
                assert forall|y: u64| !has_run(s, y, n as int) by {
                    if has_run(s, y, n as int) {
                        assert(s.contains(#[verifier::truncate] ((y + 0) as u64)));
                        let wy = choose|wy: int| 0 <= wy < s.len() && s[wy] == y;
                        lemma_run_index(s, y, n as int, wy);
                    }
                }
            }
            return None;
        }
        let mut w: usize = 0;
        while w <= len - n
            invariant
                s == self.ids@,
                len == s.len(),
                1 <= n <= len,
                old(self).wf(),
                self == old(self),
                w <= len - n + 1,
                forall|w2: int|
                    0 <= w2 < w && w2 + n <= len ==> (#[trigger] s[w2]) + (n - 1) != s[w2 + n
                        - 1],
            decreases len - w,
        {
            let first = self.ids[w];
            let last_id = self.ids[w + n - 1];
            if last_id - first == (n - 1) as u64 {
                let ghost start = s[w as int];
                proof {
                    assert forall|k: int| 0 <= k < n implies (#[trigger] s[w + k]) == start
                        + k by {
                        lemma_sorted_gap(s, w as int, w + k);
                        lemma_sorted_gap(s, w + k, w + n - 1);
                    }
                    assert forall|k: int| 0 <= k < n implies #[trigger] s.contains(
                        #[verifier::truncate] ((start + k) as u64),
                    ) by {
                        assert(s[w + k] == start + k);
                    }
                    assert(has_run(s, start, n as int));
                    assert forall|y: u64| y < start implies !has_run(s, y, n as int) by {
                        if has_run(s, y, n as int) {
                            assert(s.contains(#[verifier::truncate] ((y + 0) as u64)));
                            let wy = choose|wy: int| 0 <= wy < s.len() && s[wy] == y;
                            lemma_run_index(s, y, n as int, wy);
                            assert(wy < w) by {
                                if wy >= w {
                                    lemma_sorted_gap(s, w as int, wy);
                                }
                            }
                            let k1 = n - 1;
                            assert(s[wy + k1] == y + k1);
                            assert(s[wy] + (n - 1) == s[wy + n - 1]);
                        }
                    }
                }
                let mut k: usize = 0;
                proof {
                    assert(s.take(w as int) + s.skip(w as int) =~= s);
                }
                while k < n
                    invariant
                        1 <= n,
                        k <= n,
                        w + n <= s.len(),
                        self.pending == old(self).pending,
                        self.ids@ == s.take(w as int) + s.skip(w + k),
                    decreases n - k,
                {
                    self.ids.remove(w);
                    proof {
                        assert((s.take(w as int) + s.skip(w + k)).remove(w as int) =~= s.take(
                            w as int,
                        ) + s.skip(w + k + 1));
                    }
                    k = k + 1;
                }
                proof {
                    let f = self.ids@;
                    assert(f == s.take(w as int) + s.skip(w + n));
                    assert forall|p2: int, q2: int| 0 <= p2 < q2 < f.len() implies f[p2]
                        < f[q2] by {
                        if p2 < w && q2 >= w {
                            assert(f[p2] == s[p2] && f[q2] == s[q2 + n]);
                        } else if p2 >= w {
                            assert(f[p2] == s[p2 + n] && f[q2] == s[q2 + n]);
                        }
                    }
                    assert forall|pg: u64| f.contains(pg) implies s.contains(pg) && !(start <= pg
                        < start + n) by {
                        let a = choose|a: int| 0 <= a < f.len() && f[a] == pg;
                        let b = if a < w {
                            a
                        } else {
                            a + n
                        };
                        assert(s[b] == pg);
                        if start <= pg < start + n {
                            let k2 = pg - start;
                            assert(s[w + k2] == pg);
                            if b < w + k2 {
                                lemma_sorted_gap(s, b, w + k2);
                            } else if b > w + k2 {
                                lemma_sorted_gap(s, w + k2, b);
                            }
                        }
                    }
                    assert forall|pg: u64| s.contains(pg) && !(start <= pg < start + n) implies
                        f.contains(pg) by {
                        let b = choose|b: int| 0 <= b < s.len() && s[b] == pg;
                        if b < w {
                            assert(f[b] == pg);
                        } else if b >= w + n {
                            assert(f[b - n] == pg);
                        } else {
                            assert(s[b] == start + (b - w));
                        }
                    }
                    assert forall|pg: u64| self.ids@.contains(pg) implies !pending_has(
                        self.pending@,
                        pg,
                    ) by {
                        assert(s.contains(pg));
                    }
                }
                return Some(first);
            }
            proof {
                assert(s[w + n - 1] != s[w as int] + (n - 1)) by {
                    lemma_sorted_gap(s, w as int, w + n - 1);
                }
            }
            w = w + 1;
        }
        proof {
            assert forall|y: u64| !has_run(s, y, n as int) by {
                if has_run(s, y, n as int) {
                    assert(s.contains(#[verifier::truncate] ((y + 0) as u64)));
                    let wy = choose|wy: int| 0 <= wy < s.len() && s[wy] == y;
                    lemma_run_index(s, y, n as int, wy);
                    let k1 = n - 1;
                    assert(s[wy + k1] == y + k1);
                    assert(s[wy] + (n - 1) == s[wy + n - 1]);
                }
            }
        }
        None
    }

    /// The page ids serialized on a freelist page, given its element slots
    /// and the count from the page header. A count below the sentinel names
    /// the ids directly; at the sentinel the first slot holds the real
    /// count and the ids follow it.
    #[verifier::rlimit(50)]
    pub fn ids_from_slots(slots: &Vec<u64>, count: u16) -> (r: Option<Vec<u64>>)
        ensures
            r is Some <==> spec_ids_of(count, slots@) is Some,
            r is Some ==> r->Some_0@ == spec_ids_of(count, slots@)->Some_0,
    {
        let (start, n): (usize, u64) = if count < 0xffff {
            (0, count as u64)
        } else {
            if slots.len() == 0 {
                return None;
            }
            (1, slots[0])
        };
        if n > u64::MAX - 1 || (start as u64) + n > slots.len() as u64 {
            return None;
        }
        let mut r: Vec<u64> = Vec::new();
        let mut i: usize = start;
        let end = start + n as usize;
        while i < end
            invariant
                start <= i <= end,
                end <= slots@.len(),
                r@.len() == i - start,
                forall|j: int| 0 <= j < r@.len() ==> r@[j] == slots@[start + j],
            decreases end - i,
        {
            r.push(slots[i]);
            i = i + 1;
        }
        proof {
            if count < 0xffff {
                assert(r@ =~= slots@.take(count as int));
            } else {
                assert(r@ =~= slots@.subrange(1, slots@[0] as int + 1));
            }
        }
        Some(r)
    }


    /// Serialize the free set for its page: the count for the page header
    /// and the element slots, under the freelist page convention.
    pub fn to_slots(&self) -> (r: (u16, Vec<u64>))
        requires
            self.ids@.len() < u64::MAX,
        ensures
            r.0 == spec_slots_of(self.ids@).0,
            r.1@ == spec_slots_of(self.ids@).1,
    {
        let n = self.ids.len();
        let mut slots: Vec<u64> = Vec::new();
        if n >= 0xffff {
            slots.push(n as u64);
        }
        let ghost prefix = slots@;
        let mut i: usize = 0;
        while i < n
            invariant
                n == self.ids@.len(),
                i <= n,
                slots@ == prefix + self.ids@.take(i as int),
            decreases n - i,
        {
            slots.push(self.ids[i]);
            proof {
                assert(prefix + self.ids@.take(i + 1) =~= (prefix + self.ids@.take(
                    i as int,
                )).push(self.ids@[i as int]));
            }
            i = i + 1;
        }
        proof {
            assert(self.ids@.take(n as int) =~= self.ids@);
            if n < 0xffff {
                assert(prefix + self.ids@ =~= self.ids@);
            }
        }
        if n < 0xffff {
            (n as u16, slots)
        } else {
            (0xffff, slots)
        }
    }

    /// Bytes the serialized freelist needs on its page: the page header
    /// plus one slot per id, plus the spillover slot when the count goes
    /// past the sentinel.
    pub fn size(&self) -> (r: u64)
        requires
            16 + 8 * (self.ids@.len() + 1) <= u64::MAX,
        ensures
            self.ids@.len() < 0xffff ==> r == 16 + 8 * self.ids@.len(),
            self.ids@.len() >= 0xffff ==> r == 16 + 8 * (self.ids@.len() + 1),
    {
        let n = self.ids.len() as u64;
        if self.ids.len() < 0xffff {
            16 + 8 * n
        } else {
            16 + 8 * (n + 1)
        }
    }

    /// Release to the free set everything freed by transactions with id at
    /// most `txid`: no reader snapshot can reach those pages any more.
    /// Pages freed by later transactions stay pending and none of them
    /// becomes available — the MVCC visibility rule. Releasing moves pages;
    /// it neither invents nor loses any.
    pub fn release(&mut self, txid: u64)
        requires
            old(self).wf(),
        ensures
            final(self).wf(),
            forall|pg: u64|
                final(self).ids@.contains(pg) <==> old(self).ids@.contains(pg)
                    || pending_has_upto(old(self).pending@, txid, pg),
            forall|t: u64, pg: u64|
                pending_has_tx(final(self).pending@, t, pg) <==> t > txid && pending_has_tx(
                    old(self).pending@,
                    t,
                    pg,
                ),
            forall|t: u64, pg: u64|
                t > txid && pending_has_tx(old(self).pending@, t, pg)
                    ==> !(final(self).ids@.contains(pg)),
            forall|pg: u64|
                (final(self).ids@.contains(pg) || pending_has(final(self).pending@, pg))
                    <==> (old(self).ids@.contains(pg) || pending_has(old(self).pending@, pg)),
    {
        let ghost p0 = self.pending@;
        let ghost ids0 = self.ids@;
        let mut i: usize = 0;
        while i < self.pending.len()
            invariant
                old(self).wf(),
                p0 == old(self).pending@,
                ids0 == old(self).ids@,
                ids_sorted(self.ids@),
                pending_wf(self.pending@),
                forall|pg: u64| self.ids@.contains(pg) ==> !pending_has(self.pending@, pg),
                i <= self.pending@.len(),
                forall|j: int| 0 <= j < i ==> (#[trigger] self.pending@[j]).txid > txid,
                forall|t: u64, pg: u64|
                    t > txid ==> (pending_has_tx(self.pending@, t, pg) <==> pending_has_tx(
                        p0,
                        t,
                        pg,
                    )),
                forall|pg: u64| pending_has(self.pending@, pg) ==> pending_has(p0, pg),
                forall|t: u64, pg: u64|
                    pending_has_upto(self.pending@, t, pg) ==> pending_has_upto(p0, t, pg),
                forall|pg: u64|
                    self.ids@.contains(pg) ==> ids0.contains(pg) || pending_has_upto(
                        p0,
                        txid,
                        pg,
                    ),
                forall|pg: u64| ids0.contains(pg) ==> self.ids@.contains(pg),
                forall|pg: u64|
                    pending_has_upto(p0, txid, pg) ==> self.ids@.contains(pg) || pending_has_upto(
                        self.pending@,
                        txid,
                        pg,
                    ),
                forall|pg: u64|
                    pending_has_upto(p0, txid, pg) && pending_has(self.pending@, pg)
                        ==> pending_has_upto(self.pending@, txid, pg),
            decreases self.pending@.len() - i,
        {
            if self.pending[i].txid <= txid {
                let ghost cur = self.pending@;
                let ghost idsc = self.ids@;
                proof {
                    lemma_pending_remove(cur, i as int);
                    assert forall|t: u64, pg: u64|
                        t > txid && pending_has_tx(cur, t, pg) implies !cur[i as int].ids@.contains(
                        pg,
                    ) by {
                        let (a, j) = choose|a: int, j: int|
                            0 <= a < cur.len() && cur[a].txid == t && 0 <= j < cur[a].ids@.len()
                                && (#[trigger] cur[a].ids@[j]) == pg;
                        if cur[i as int].ids@.contains(pg) {
                            let j2 = choose|j2: int|
                                0 <= j2 < cur[i as int].ids@.len() && cur[i as int].ids@[j2] == pg;
                            assert(cur[a].ids@[j] == cur[i as int].ids@[j2]);
                            assert(a == i);
                        }
                    }
                    assert forall|pg: u64| cur[i as int].ids@.contains(pg) implies
                        pending_has_upto(cur, txid, pg) && !idsc.contains(pg) by {
                        let j2 = choose|j2: int|
                            0 <= j2 < cur[i as int].ids@.len() && cur[i as int].ids@[j2] == pg;
                        assert(cur[i as int].txid <= txid && cur[i as int].ids@[j2] == pg);
                        assert(pending_has(cur, pg));
                    }
                }
                let e = self.pending.remove(i);
                let ghost eids = e.ids@;
                proof {
                    assert(ids_distinct(eids));
                }
                let m = e.ids.len();
                let mut j: usize = 0;
                while j < m
                    invariant
                        self.pending@ == cur.remove(i as int),
                        m == eids.len(),
                        j <= m,
                        eids == e.ids@,
                        ids_distinct(eids),
                        ids_sorted(self.ids@),
                        forall|k: int| 0 <= k < eids.len() ==> !idsc.contains(eids[k]),
                        forall|pg: u64|
                            self.ids@.contains(pg) <==> idsc.contains(pg) || eids.take(
                                j as int,
                            ).contains(pg),
                    decreases m - j,
                {
                    proof {
                        if eids.take(j as int).contains(eids[j as int]) {
                            let w = choose|w: int|
                                0 <= w < j && eids.take(j as int)[w] == eids[j as int];
                        }
                    }
                    let x = e.ids[j];
                    sorted_insert(&mut self.ids, x);
                    proof {
                        assert forall|pg: u64|
                            #[trigger] eids.take(j + 1).contains(pg) <==> eids.take(
                                j as int,
                            ).contains(pg) || pg == eids[j as int] by {
                            if eids.take(j + 1).contains(pg) {
                                let w = choose|w: int|
                                    0 <= w < j + 1 && (#[trigger] eids.take(j + 1)[w]) == pg;
                                if w < j {
                                    assert(eids.take(j as int)[w] == pg);
                                }
                            }
                            if eids.take(j as int).contains(pg) {
                                let w = choose|w: int|
                                    0 <= w < j && (#[trigger] eids.take(j as int)[w]) == pg;
                                assert(eids.take(j + 1)[w] == pg);
                            }
                            if pg == eids[j as int] {
                                assert(eids.take(j + 1)[j as int] == pg);
                            }
                        }
                    }
                    j = j + 1;
                }
                proof {
                    assert(eids.take(m as int) =~= eids);
                    let newcur = self.pending@;
                    assert(newcur == cur.remove(i as int));
                    assert forall|pg: u64| self.ids@.contains(pg) implies !pending_has(
                        newcur,
                        pg,
                    ) by {
                        if idsc.contains(pg) {
                            assert(!pending_has(cur, pg));
                        } else {
                            assert(eids.contains(pg));
                        }
                    }
                }
            } else {
                i = i + 1;
            }
        }
        proof {
            let curf = self.pending@;
            assert forall|t: u64, pg: u64| !(t <= txid && pending_has_tx(curf, t, pg)) by {
                if t <= txid && pending_has_tx(curf, t, pg) {
                    let (a, j) = choose|a: int, j: int|
                        0 <= a < curf.len() && curf[a].txid == t && 0 <= j < curf[a].ids@.len()
                            && (#[trigger] curf[a].ids@[j]) == pg;
                }
            }
            assert forall|pg: u64| !pending_has_upto(curf, txid, pg) by {
                if pending_has_upto(curf, txid, pg) {
                    let (a, j) = choose|a: int, j: int|
                        0 <= a < curf.len() && curf[a].txid <= txid && 0 <= j
                            < curf[a].ids@.len() && (#[trigger] curf[a].ids@[j]) == pg;
                }
            }
            assert forall|t: u64, pg: u64|
                pending_has_tx(curf, t, pg) implies t > txid && pending_has_tx(p0, t, pg) by {
                let (a, j) = choose|a: int, j: int|
                    0 <= a < curf.len() && curf[a].txid == t && 0 <= j < curf[a].ids@.len() && (
                    #[trigger] curf[a].ids@[j]) == pg;
            }
            assert forall|t: u64, pg: u64|
                t > txid && pending_has_tx(p0, t, pg) implies !self.ids@.contains(pg) by {
                assert(pending_has_tx(curf, t, pg));
                assert(pending_has(curf, pg)) by {
                    let (a, j) = choose|a: int, j: int|
                        0 <= a < curf.len() && curf[a].txid == t && 0 <= j < curf[a].ids@.len()
                            && (#[trigger] curf[a].ids@[j]) == pg;
                }
            }
            assert forall|pg: u64|
                (self.ids@.contains(pg) || pending_has(curf, pg)) <==> (ids0.contains(pg)
                    || pending_has(p0, pg)) by {
                if pending_has_upto(p0, txid, pg) {
                    assert(pending_has(p0, pg)) by {
                        let (a, j) = choose|a: int, j: int|
                            0 <= a < p0.len() && p0[a].txid <= txid && 0 <= j < p0[a].ids@.len()
                                && (#[trigger] p0[a].ids@[j]) == pg;
                    }
                }
                if pending_has(p0, pg) && !pending_has_upto(p0, txid, pg) {
                    let (a, j) = choose|a: int, j: int|
                        0 <= a < p0.len() && 0 <= j < p0[a].ids@.len() && (
                        #[trigger] p0[a].ids@[j]) == pg;
                    assert(pending_has_tx(p0, p0[a].txid, pg));
                    assert(p0[a].txid > txid);
                    assert(pending_has_tx(curf, p0[a].txid, pg));
                    assert(pending_has(curf, pg)) by {
                        let (a2, j2) = choose|a2: int, j2: int|
                            0 <= a2 < curf.len() && curf[a2].txid == p0[a].txid && 0 <= j2
                                < curf[a2].ids@.len() && (#[trigger] curf[a2].ids@[j2]) == pg;
                    }
                }
            }
        }
    }
}

/// The run of `n` consecutive page ids starting at `y` is wholly free.
pub open spec fn has_run(s: Seq<u64>, y: u64, n: int) -> bool {
    &&& y + n - 1 <= u64::MAX
    &&& forall|k: int| 0 <= k < n ==> #[trigger] s.contains(#[verifier::truncate] ((y + k) as u64))
}

/// In a strictly ascending sequence, values grow at least as fast as
/// indices.
proof fn lemma_sorted_gap(s: Seq<u64>, p: int, q: int)
    requires
        ids_sorted(s),
        0 <= p <= q < s.len(),
    ensures
        s[q] >= s[p] + (q - p),
    decreases q - p,
{
    if p < q {
        lemma_sorted_gap(s, p, q - 1);
    }
}

/// A free run of `n` consecutive values occupies `n` consecutive indices in
/// the ascending free set, starting where its first value sits.
proof fn lemma_run_index(s: Seq<u64>, y: u64, n: int, w: int)
    requires
        ids_sorted(s),
        has_run(s, y, n),
        n >= 1,
        y + n - 1 <= u64::MAX,
        0 <= w < s.len(),
        s[w] == y,
    ensures
        w + n <= s.len(),
        forall|k: int| 0 <= k < n ==> (#[trigger] s[w + k]) == y + k,
    decreases n,
{
    if n > 1 {
        lemma_run_index(s, y, n - 1, w);
        let k1 = n - 2;
        assert(s[w + k1] == y + k1);
        assert(s.contains(#[verifier::truncate] ((y + (n - 1)) as u64)));
        let b = choose|b: int|
            0 <= b < s.len() && s[b] == #[verifier::truncate] ((y + (n - 1)) as u64);
        if b <= w + k1 {
            lemma_sorted_gap(s, b, w + k1);
            assert(false);
        }
        if b > w + k1 + 1 {
            assert(s[w + k1 + 1] > s[w + k1]);
            assert(s[w + k1 + 1] < s[b]);
            assert(false);
        }
        assert(b == w + k1 + 1);
        assert forall|k: int| 0 <= k < n implies (#[trigger] s[w + k]) == y + k by {
            if k == n - 1 {
                assert(s[w + k] == s[b]);
            }
        }
    }
}

/// Appending a pending entry adds exactly its pages, under its transaction.
proof fn lemma_pending_push(p: Seq<PendingTx>, e: PendingTx)
    ensures
        forall|pg: u64|
            pending_has(p.push(e), pg) <==> pending_has(p, pg) || e.ids@.contains(pg),
        forall|t: u64, pg: u64|
            pending_has_tx(p.push(e), t, pg) <==> pending_has_tx(p, t, pg) || (e.txid == t
                && e.ids@.contains(pg)),
        forall|t: u64, pg: u64|
            pending_has_upto(p.push(e), t, pg) <==> pending_has_upto(p, t, pg) || (e.txid <= t
                && e.ids@.contains(pg)),
{
    let q = p.push(e);
    assert forall|pg: u64| pending_has(q, pg) implies pending_has(p, pg) || e.ids@.contains(
        pg,
    ) by {
        let (i, j) = choose|i: int, j: int|
            0 <= i < q.len() && 0 <= j < q[i].ids@.len() && (#[trigger] q[i].ids@[j]) == pg;
        if i < p.len() {
            assert(p[i].ids@[j] == pg);
        } else {
            assert(e.ids@[j] == pg);
        }
    }
    assert forall|pg: u64| pending_has(p, pg) || e.ids@.contains(pg) implies pending_has(
        q,
        pg,
    ) by {
        if pending_has(p, pg) {
            let (i, j) = choose|i: int, j: int|
                0 <= i < p.len() && 0 <= j < p[i].ids@.len() && (#[trigger] p[i].ids@[j]) == pg;
            assert(q[i].ids@[j] == pg);
        } else {
            let j = choose|j: int| 0 <= j < e.ids@.len() && e.ids@[j] == pg;
            assert(q[p.len() as int].ids@[j] == pg);
        }
    }
    assert forall|t: u64, pg: u64| pending_has_tx(q, t, pg) implies pending_has_tx(p, t, pg) || (
    e.txid == t && e.ids@.contains(pg)) by {
        let (i, j) = choose|i: int, j: int|
            0 <= i < q.len() && q[i].txid == t && 0 <= j < q[i].ids@.len() && (
            #[trigger] q[i].ids@[j]) == pg;
        if i < p.len() {
            assert(p[i].txid == t && p[i].ids@[j] == pg);
        } else {
            assert(e.ids@[j] == pg);
        }
    }
    assert forall|t: u64, pg: u64|
        pending_has_tx(p, t, pg) || (e.txid == t && e.ids@.contains(pg)) implies pending_has_tx(
        q,
        t,
        pg,
    ) by {
        if pending_has_tx(p, t, pg) {
            let (i, j) = choose|i: int, j: int|
                0 <= i < p.len() && p[i].txid == t && 0 <= j < p[i].ids@.len() && (
                #[trigger] p[i].ids@[j]) == pg;
            assert(q[i].txid == t && q[i].ids@[j] == pg);
        } else {
            let j = choose|j: int| 0 <= j < e.ids@.len() && e.ids@[j] == pg;
            assert(q[p.len() as int].txid == t && q[p.len() as int].ids@[j] == pg);
        }
    }
    assert forall|t: u64, pg: u64| pending_has_upto(q, t, pg) implies pending_has_upto(p, t, pg)
        || (e.txid <= t && e.ids@.contains(pg)) by {
        let (i, j) = choose|i: int, j: int|
            0 <= i < q.len() && q[i].txid <= t && 0 <= j < q[i].ids@.len() && (
            #[trigger] q[i].ids@[j]) == pg;
        if i < p.len() {
            assert(p[i].txid <= t && p[i].ids@[j] == pg);
        } else {
            assert(e.ids@[j] == pg);
        }
    }
    assert forall|t: u64, pg: u64|
        pending_has_upto(p, t, pg) || (e.txid <= t && e.ids@.contains(pg)) implies
        pending_has_upto(q, t, pg) by {
        if pending_has_upto(p, t, pg) {
            let (i, j) = choose|i: int, j: int|
                0 <= i < p.len() && p[i].txid <= t && 0 <= j < p[i].ids@.len() && (
                #[trigger] p[i].ids@[j]) == pg;
            assert(q[i].txid <= t && q[i].ids@[j] == pg);
        } else {
            let j = choose|j: int| 0 <= j < e.ids@.len() && e.ids@[j] == pg;
            assert(q[p.len() as int].txid <= t && q[p.len() as int].ids@[j] == pg);
        }
    }
}

/// Removing a pending entry takes away exactly that entry's pages.
proof fn lemma_pending_remove(p: Seq<PendingTx>, i: int)
    requires
        0 <= i < p.len(),
        pending_wf(p),
    ensures
        pending_wf(p.remove(i)),
        forall|pg: u64|
            pending_has(p.remove(i), pg) <==> pending_has(p, pg) && !p[i].ids@.contains(pg),
        forall|t: u64, pg: u64|
            pending_has_tx(p.remove(i), t, pg) <==> pending_has_tx(p, t, pg) && !p[i].ids@.contains(
                pg,
            ),
        forall|t: u64, pg: u64|
            pending_has_upto(p.remove(i), t, pg) <==> pending_has_upto(p, t, pg)
                && !p[i].ids@.contains(pg),
{
    let q = p.remove(i);
    assert forall|a: int| 0 <= a < q.len() implies ids_distinct((#[trigger] q[a]).ids@) by {
        if a < i {
            assert(q[a] == p[a]);
        } else {
            assert(q[a] == p[a + 1]);
        }
    }
    assert forall|i1: int, j1: int, i2: int, j2: int|
        0 <= i1 < q.len() && 0 <= j1 < q[i1].ids@.len() && 0 <= i2 < q.len() && 0 <= j2
            < q[i2].ids@.len() && (i1 != i2) implies (#[trigger] q[i1].ids@[j1]) != (
    #[trigger] q[i2].ids@[j2]) by {
        let b1 = if i1 < i {
            i1
        } else {
            i1 + 1
        };
        let b2 = if i2 < i {
            i2
        } else {
            i2 + 1
        };
        assert(q[i1] == p[b1] && q[i2] == p[b2]);
        assert(p[b1].ids@[j1] != p[b2].ids@[j2]);
    }
    assert forall|pg: u64| pending_has(q, pg) implies pending_has(p, pg) && !p[i].ids@.contains(
        pg,
    ) by {
        let (a, j) = choose|a: int, j: int|
            0 <= a < q.len() && 0 <= j < q[a].ids@.len() && (#[trigger] q[a].ids@[j]) == pg;
        let b = if a < i {
            a
        } else {
            a + 1
        };
        assert(p[b].ids@[j] == pg);
        if p[i].ids@.contains(pg) {
            let j2 = choose|j2: int| 0 <= j2 < p[i].ids@.len() && p[i].ids@[j2] == pg;
            assert(p[b].ids@[j] == p[i].ids@[j2] && b != i);
        }
    }
    assert forall|pg: u64| pending_has(p, pg) && !p[i].ids@.contains(pg) implies pending_has(
        q,
        pg,
    ) by {
        let (a, j) = choose|a: int, j: int|
            0 <= a < p.len() && 0 <= j < p[a].ids@.len() && (#[trigger] p[a].ids@[j]) == pg;
        assert(a != i);
        let b = if a < i {
            a
        } else {
            a - 1
        };
        assert(q[b].ids@[j] == pg);
    }
    assert forall|t: u64, pg: u64| pending_has_tx(q, t, pg) implies pending_has_tx(p, t, pg)
        && !p[i].ids@.contains(pg) by {
        let (a, j) = choose|a: int, j: int|
            0 <= a < q.len() && q[a].txid == t && 0 <= j < q[a].ids@.len() && (
            #[trigger] q[a].ids@[j]) == pg;
        let b = if a < i {
            a
        } else {
            a + 1
        };
        assert(p[b].txid == t && p[b].ids@[j] == pg);
        if p[i].ids@.contains(pg) {
            let j2 = choose|j2: int| 0 <= j2 < p[i].ids@.len() && p[i].ids@[j2] == pg;
            assert(p[b].ids@[j] == p[i].ids@[j2] && b != i);
        }
    }
    assert forall|t: u64, pg: u64| pending_has_tx(p, t, pg) && !p[i].ids@.contains(pg) implies
        pending_has_tx(q, t, pg) by {
        let (a, j) = choose|a: int, j: int|
            0 <= a < p.len() && p[a].txid == t && 0 <= j < p[a].ids@.len() && (
            #[trigger] p[a].ids@[j]) == pg;
        assert(a != i);
        let b = if a < i {
            a
        } else {
            a - 1
        };
        assert(q[b].txid == t && q[b].ids@[j] == pg);
    }
    assert forall|t: u64, pg: u64| pending_has_upto(q, t, pg) implies pending_has_upto(p, t, pg)
        && !p[i].ids@.contains(pg) by {
        let (a, j) = choose|a: int, j: int|
            0 <= a < q.len() && q[a].txid <= t && 0 <= j < q[a].ids@.len() && (
            #[trigger] q[a].ids@[j]) == pg;
        let b = if a < i {
            a
        } else {
            a + 1
        };
        assert(p[b].txid <= t && p[b].ids@[j] == pg);
        if p[i].ids@.contains(pg) {
            let j2 = choose|j2: int| 0 <= j2 < p[i].ids@.len() && p[i].ids@[j2] == pg;
            assert(p[b].ids@[j] == p[i].ids@[j2] && b != i);
        }
    }
    assert forall|t: u64, pg: u64| pending_has_upto(p, t, pg) && !p[i].ids@.contains(pg) implies
        pending_has_upto(q, t, pg) by {
        let (a, j) = choose|a: int, j: int|
            0 <= a < p.len() && p[a].txid <= t && 0 <= j < p[a].ids@.len() && (
            #[trigger] p[a].ids@[j]) == pg;
        assert(a != i);
        let b = if a < i {
            a
        } else {
            a - 1
        };
        assert(q[b].txid <= t && q[b].ids@[j] == pg);
    }
}

/// Insert `x` into a strictly ascending vector of page ids that does not
/// hold it yet.
fn sorted_insert(v: &mut Vec<u64>, x: u64)
    requires
        ids_sorted(old(v)@),
        !old(v)@.contains(x),
    ensures
        ids_sorted(final(v)@),
        final(v)@.len() == old(v)@.len() + 1,
        forall|pg: u64| final(v)@.contains(pg) <==> old(v)@.contains(pg) || pg == x,
{
    let ghost s = v@;
    let n = v.len();
    let mut i: usize = 0;
    while i < n && v[i] < x
        invariant
            s == v@,
            n == s.len(),
            i <= n,
            forall|j: int| 0 <= j < i ==> s[j] < x,
        decreases n - i,
    {
        i = i + 1;
    }
    proof {
        if i < s.len() {
            assert(s[i as int] != x) by {
                if s[i as int] == x {
                    assert(s.contains(x));
                }
            }
        }
    }
    v.insert(i, x);
    proof {
        let r = v@;
        assert(r == s.insert(i as int, x));
        assert forall|p2: int, q2: int| 0 <= p2 < q2 < r.len() implies r[p2] < r[q2] by {
            if p2 < i && q2 > i {
                assert(r[p2] == s[p2] && r[q2] == s[q2 - 1]);
            } else if q2 == i {
                assert(r[p2] == s[p2]);
            } else if p2 == i && q2 > i {
                assert(r[q2] == s[q2 - 1]);
                assert(s[q2 - 1] >= s[i as int]);
            } else if p2 < i && q2 < i {
            } else {
                assert(r[p2] == s[p2 - 1] && r[q2] == s[q2 - 1]);
            }
        }
        assert forall|pg: u64| final(v)@.contains(pg) implies s.contains(pg) || pg == x by {
            let w = choose|w: int| 0 <= w < r.len() && r[w] == pg;
            if w < i {
                assert(s[w] == pg);
            } else if w > i {
                assert(s[w - 1] == pg);
            }
        }
        assert forall|pg: u64| s.contains(pg) || pg == x implies final(v)@.contains(pg) by {
            if s.contains(pg) {
                let w = choose|w: int| 0 <= w < s.len() && s[w] == pg;
                if w < i {
                    assert(r[w] == pg);
                } else {
                    assert(r[w + 1] == pg);
                }
            } else {
                assert(r[i as int] == pg);
            }
        }
    }
}

} // verus!
