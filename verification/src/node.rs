//! In-memory, mutable form of a branch or leaf page: a sequence of entries
//! kept strictly ascending by key, with the mutation operations a write
//! transaction uses.
use vstd::prelude::*;

use crate::keys::{key_eq, key_lt, lemma_lex_asym, lemma_lex_irrefl, lemma_lex_total, lex_lt};

verus! {

/// Leaf flag bit marking a value as a sub-bucket.
pub const BUCKET_LEAF_FLAG: u32 = 0x01;

/// One in-node entry. On a leaf, `value` holds the stored bytes and `pgid`
/// is unused; on a branch, `value` is empty and `pgid` points at the child
/// page.
#[derive(Clone, Debug)]
pub struct Inode {
    /// leaf element flags (the sub-bucket bit)
    pub flags: u32,
    /// child page id, for branch entries
    pub pgid: u64,
    /// the key
    pub key: Vec<u8>,
    /// the value; empty for branch entries
    pub value: Vec<u8>,
}

/// Entries are strictly ascending by key: no duplicates, iteration order is
/// key order.
pub open spec fn node_sorted(s: Seq<Inode>) -> bool {
    forall|i: int, j: int| 0 <= i < j < s.len() ==> #[trigger] lex_lt(s[i].key@, s[j].key@)
}

/// The entry stored under key `k`, if any: the first match in entry order.
pub open spec fn lookup(s: Seq<Inode>, k: Seq<u8>) -> Option<Inode>
    decreases s.len(),
{
    if s.len() == 0 {
        None
    } else if s[0].key@ == k {
        Some(s[0])
    } else {
        lookup(s.drop_first(), k)
    }
}

/// Insert-or-replace of entry `e` at its key-ordered position.
pub open spec fn put_at(s: Seq<Inode>, e: Inode) -> Seq<Inode>
    decreases s.len(),
{
    if s.len() == 0 {
        seq![e]
    } else if lex_lt(e.key@, s[0].key@) {
        seq![e] + s
    } else if e.key@ == s[0].key@ {
        seq![e] + s.drop_first()
    } else {
        seq![s[0]] + put_at(s.drop_first(), e)
    }
}

/// Removal of the entry whose key is `k`, if present.
pub open spec fn del_key(s: Seq<Inode>, k: Seq<u8>) -> Seq<Inode>
    decreases s.len(),
{
    if s.len() == 0 {
        s
    } else if s[0].key@ == k {
        s.drop_first()
    } else {
        seq![s[0]] + del_key(s.drop_first(), k)
    }
}

/// In a sorted entry sequence the entry found at an index is the lookup
/// result for its key.
pub proof fn lemma_lookup_index(s: Seq<Inode>, i: int)
    requires
        node_sorted(s),
        0 <= i < s.len(),
    ensures
        lookup(s, s[i].key@) == Some(s[i]),
    decreases s.len(),
{
    if i > 0 {
        assert(lex_lt(s[0].key@, s[i].key@));
        lemma_lex_irrefl(s[0].key@);
        assert(s[0].key@ != s[i].key@);
        assert(forall|p: int, q: int|
            0 <= p < q < s.drop_first().len() ==> #[trigger] lex_lt(
                s.drop_first()[p].key@,
                s.drop_first()[q].key@,
            ));
        lemma_lookup_index(s.drop_first(), i - 1);
    }
}

/// A key held by no entry looks up to nothing.
pub proof fn lemma_lookup_absent(s: Seq<Inode>, k: Seq<u8>)
    requires
        forall|i: int| 0 <= i < s.len() ==> (#[trigger] s[i]).key@ != k,
    ensures
        lookup(s, k) is None,
    decreases s.len(),
{
    if s.len() > 0 {
        lemma_lookup_absent(s.drop_first(), k);
    }
}

/// Sortedness passes to the tail of the sequence.
proof fn lemma_sorted_drop_first(s: Seq<Inode>)
    requires
        node_sorted(s),
        s.len() > 0,
    ensures
        node_sorted(s.drop_first()),
{
    assert(forall|p: int, q: int|
        0 <= p < q < s.drop_first().len() ==> #[trigger] lex_lt(
            s.drop_first()[p].key@,
            s.drop_first()[q].key@,
        ));
}

/// Insert-or-replace keeps the entries strictly ascending.
pub proof fn lemma_put_at_sorted(s: Seq<Inode>, e: Inode)
    requires
        node_sorted(s),
    ensures
        node_sorted(put_at(s, e)),
    decreases s.len(),
{
    if s.len() == 0 {
    } else if lex_lt(e.key@, s[0].key@) {
        let r = seq![e] + s;
        assert forall|i: int, j: int| 0 <= i < j < r.len() implies #[trigger] lex_lt(
            r[i].key@,
            r[j].key@,
        ) by {
            if i == 0 {
                if j > 1 {
                    crate::keys::lemma_lex_trans(e.key@, s[0].key@, s[j - 1].key@);
                }
            }
        }
    } else if e.key@ == s[0].key@ {
        let r = seq![e] + s.drop_first();
        lemma_sorted_drop_first(s);
        assert forall|i: int, j: int| 0 <= i < j < r.len() implies #[trigger] lex_lt(
            r[i].key@,
            r[j].key@,
        ) by {
            if i == 0 {
                assert(r[j] == s[j]);
                assert(lex_lt(s[0].key@, s[j].key@));
            } else {
                assert(r[i] == s[i] && r[j] == s[j]);
            }
        }
    } else {
        lemma_lex_total(e.key@, s[0].key@);
        assert(lex_lt(s[0].key@, e.key@));
        lemma_sorted_drop_first(s);
        lemma_put_at_sorted(s.drop_first(), e);
        let r0 = put_at(s.drop_first(), e);
        lemma_put_at_keys(s.drop_first(), e);
        let r = seq![s[0]] + r0;
        assert forall|i: int, j: int| 0 <= i < j < r.len() implies #[trigger] lex_lt(
            r[i].key@,
            r[j].key@,
        ) by {
            if i == 0 {
                assert(r0[j - 1].key@ == e.key@ || lookup(s.drop_first(), r0[j - 1].key@)
                    is Some);
                if r0[j - 1].key@ == e.key@ {
                    assert(lex_lt(s[0].key@, e.key@));
                } else {
                    lemma_lookup_member(s.drop_first(), r0[j - 1].key@);
                }
            }
        }
    }
}

/// Every key in the result of an insert-or-replace is the new key or one of
/// the old keys.
pub proof fn lemma_put_at_keys(s: Seq<Inode>, e: Inode)
    ensures
        forall|i: int|
            0 <= i < put_at(s, e).len() ==> (#[trigger] put_at(s, e)[i]).key@ == e.key@ || lookup(
                s,
                put_at(s, e)[i].key@,
            ) is Some,
    decreases s.len(),
{
    if s.len() == 0 {
    } else if lex_lt(e.key@, s[0].key@) {
        let r = seq![e] + s;
        assert forall|i: int| 0 <= i < r.len() implies (#[trigger] r[i]).key@ == e.key@ || lookup(
            s,
            r[i].key@,
        ) is Some by {
            if i >= 1 {
                lemma_lookup_exists(s, i - 1);
            }
        }
    } else if e.key@ == s[0].key@ {
        let r = seq![e] + s.drop_first();
        assert forall|i: int| 0 <= i < r.len() implies (#[trigger] r[i]).key@ == e.key@ || lookup(
            s,
            r[i].key@,
        ) is Some by {
            if i >= 1 {
                lemma_lookup_exists(s, i);
            }
        }
    } else {
        lemma_put_at_keys(s.drop_first(), e);
        let r0 = put_at(s.drop_first(), e);
        let r = seq![s[0]] + r0;
        assert forall|i: int| 0 <= i < r.len() implies (#[trigger] r[i]).key@ == e.key@ || lookup(
            s,
            r[i].key@,
        ) is Some by {
            if i == 0 {
                lemma_lookup_exists(s, 0);
            } else {
                assert(r[i] == r0[i - 1]);
                if r0[i - 1].key@ != e.key@ {
                    lemma_lookup_some_step(s, r0[i - 1].key@);
                }
            }
        }
    }
}

/// An index into the entries witnesses a successful lookup of its key.
proof fn lemma_lookup_exists(s: Seq<Inode>, i: int)
    requires
        0 <= i < s.len(),
    ensures
        lookup(s, s[i].key@) is Some,
    decreases s.len(),
{
    if s[0].key@ != s[i].key@ {
        lemma_lookup_exists(s.drop_first(), i - 1);
    }
}

/// A key that looks up in the tail looks up in the whole.
proof fn lemma_lookup_some_step(s: Seq<Inode>, k: Seq<u8>)
    requires
        s.len() > 0,
        lookup(s.drop_first(), k) is Some,
    ensures
        lookup(s, k) is Some,
{
}

/// A successful lookup names a key held by some entry.
pub proof fn lemma_lookup_member(s: Seq<Inode>, k: Seq<u8>)
    requires
        lookup(s, k) is Some,
    ensures
        exists|i: int| 0 <= i < s.len() && (#[trigger] s[i]).key@ == k,
    decreases s.len(),
{
    if s.len() > 0 && s[0].key@ != k {
        lemma_lookup_member(s.drop_first(), k);
        let i = choose|i: int| 0 <= i < s.drop_first().len() && (#[trigger] s.drop_first()[i]).key@
            == k;
        assert(s[i + 1].key@ == k);
    }
}

/// Removal keeps the entries strictly ascending.
pub proof fn lemma_del_sorted(s: Seq<Inode>, k: Seq<u8>)
    requires
        node_sorted(s),
    ensures
        node_sorted(del_key(s, k)),
    decreases s.len(),
{
    if s.len() == 0 {
    } else if s[0].key@ == k {
        lemma_sorted_drop_first(s);
    } else {
        lemma_sorted_drop_first(s);
        lemma_del_sorted(s.drop_first(), k);
        let r0 = del_key(s.drop_first(), k);
        lemma_del_key_sub(s.drop_first(), k);
        let r = seq![s[0]] + r0;
        assert forall|i: int, j: int| 0 <= i < j < r.len() implies #[trigger] lex_lt(
            r[i].key@,
            r[j].key@,
        ) by {
            if i == 0 {
                let w = choose|w: int|
                    0 <= w < s.drop_first().len() && #[trigger] s.drop_first()[w] == r0[j - 1];
                assert(lex_lt(s[0].key@, s[w + 1].key@));
            }
        }
    }
}

/// Every entry left by a removal was among the entries before it.
pub proof fn lemma_del_key_sub(s: Seq<Inode>, k: Seq<u8>)
    ensures
        forall|i: int|
            0 <= i < del_key(s, k).len() ==> exists|w: int|
                0 <= w < s.len() && #[trigger] s[w] == (#[trigger] del_key(s, k)[i]),
    decreases s.len(),
{
    if s.len() == 0 {
    } else if s[0].key@ == k {
        assert forall|i: int| 0 <= i < del_key(s, k).len() implies exists|w: int|
            0 <= w < s.len() && #[trigger] s[w] == (#[trigger] del_key(s, k)[i]) by {
            assert(s[i + 1] == del_key(s, k)[i]);
        }
    } else {
        lemma_del_key_sub(s.drop_first(), k);
        let r0 = del_key(s.drop_first(), k);
        assert forall|i: int| 0 <= i < del_key(s, k).len() implies exists|w: int|
            0 <= w < s.len() && #[trigger] s[w] == (#[trigger] del_key(s, k)[i]) by {
            if i == 0 {
                assert(s[0] == del_key(s, k)[0]);
            } else {
                let w = choose|w: int|
                    0 <= w < s.drop_first().len() && #[trigger] s.drop_first()[w] == r0[i - 1];
                assert(s[w + 1] == del_key(s, k)[i]);
            }
        }
    }
}

/// What an insert-or-replace does to every later lookup: the new entry is
/// found under its key, every other key is untouched.
pub proof fn lemma_lookup_put(s: Seq<Inode>, e: Inode, k: Seq<u8>)
    requires
        node_sorted(s),
    ensures
        lookup(put_at(s, e), k) == if k == e.key@ {
            Some(e)
        } else {
            lookup(s, k)
        },
    decreases s.len(),
{
    reveal_with_fuel(lookup, 3);
    if s.len() == 0 {
        let r = put_at(s, e);
        assert(r[0] == e);
        if k != e.key@ {
            assert(r.drop_first() =~= Seq::<Inode>::empty());
            assert(lookup(r, k) is None);
        } else {
            assert(lookup(r, k) == Some(e));
        }
    } else if lex_lt(e.key@, s[0].key@) {
        let r = seq![e] + s;
        assert(put_at(s, e) == r);
        assert(r[0] == e);
        lemma_lex_irrefl(e.key@);
        if k != e.key@ {
            assert(r.drop_first() =~= s);
            assert(lookup(r, k) == lookup(s, k));
        } else {
            assert(lookup(r, k) == Some(e));
        }
    } else if e.key@ == s[0].key@ {
        let r = seq![e] + s.drop_first();
        assert(put_at(s, e) == r);
        assert(r[0] == e);
        if k != e.key@ {
            assert(r.drop_first() =~= s.drop_first());
            assert(lookup(r, k) == lookup(s.drop_first(), k));
            assert(lookup(s, k) == lookup(s.drop_first(), k));
        } else {
            assert(lookup(r, k) == Some(e));
        }
    } else {
        lemma_lex_total(e.key@, s[0].key@);
        lemma_lex_irrefl(s[0].key@);
        lemma_sorted_drop_first(s);
        lemma_lookup_put(s.drop_first(), e, k);
        let r = seq![s[0]] + put_at(s.drop_first(), e);
        assert(put_at(s, e) == r);
        assert(r[0] == s[0]);
        assert(r.drop_first() =~= put_at(s.drop_first(), e));
        assert(s[0].key@ != e.key@);
        if k == s[0].key@ {
            assert(lookup(r, k) == Some(s[0]));
            assert(lookup(s, k) == Some(s[0]));
        } else {
            assert(lookup(r, k) == lookup(put_at(s.drop_first(), e), k));
            assert(lookup(s, k) == lookup(s.drop_first(), k));
        }
    }
}

/// What a removal does to every later lookup: the removed key is gone, every
/// other key is untouched.
pub proof fn lemma_lookup_del(s: Seq<Inode>, k0: Seq<u8>, k: Seq<u8>)
    requires
        node_sorted(s),
    ensures
        lookup(del_key(s, k0), k) == if k == k0 {
            None::<Inode>
        } else {
            lookup(s, k)
        },
    decreases s.len(),
{
    if s.len() == 0 {
    } else if s[0].key@ == k0 {
        lemma_sorted_drop_first(s);
        if k == k0 {
            assert forall|i: int| 0 <= i < s.drop_first().len() implies (#[trigger] s.drop_first(
            )[i]).key@ != k by {
                assert(lex_lt(s[0].key@, s[i + 1].key@));
                lemma_lex_irrefl(s[0].key@);
            }
            lemma_lookup_absent(s.drop_first(), k);
        }
    } else {
        lemma_sorted_drop_first(s);
        lemma_lookup_del(s.drop_first(), k0, k);
        let r = seq![s[0]] + del_key(s.drop_first(), k0);
        assert(r[0] == s[0]);
        assert(r.drop_first() =~= del_key(s.drop_first(), k0));
    }
}

/// Writing under a key and then reading that key returns exactly the entry
/// written.
pub proof fn lemma_get_after_put(s: Seq<Inode>, e: Inode)
    requires
        node_sorted(s),
    ensures
        lookup(put_at(s, e), e.key@) == Some(e),
{
    lemma_lookup_put(s, e, e.key@);
}

/// Writing the same entry twice leaves exactly what one write leaves.
pub proof fn lemma_put_idempotent(s: Seq<Inode>, e: Inode)
    requires
        node_sorted(s),
    ensures
        put_at(put_at(s, e), e) =~= put_at(s, e),
    decreases s.len(),
{
    lemma_lex_irrefl(e.key@);
    if s.len() == 0 {
        let r = put_at(s, e);
        assert(r[0] == e);
        assert(seq![e] + r.drop_first() =~= r);
    } else if lex_lt(e.key@, s[0].key@) {
        let r = seq![e] + s;
        assert(r[0] == e);
        assert(seq![e] + r.drop_first() =~= r);
    } else if e.key@ == s[0].key@ {
        let r = seq![e] + s.drop_first();
        assert(r[0] == e);
        assert(seq![e] + r.drop_first() =~= r);
    } else {
        lemma_sorted_drop_first(s);
        lemma_put_idempotent(s.drop_first(), e);
        let r = seq![s[0]] + put_at(s.drop_first(), e);
        assert(r[0] == s[0]);
        assert(r.drop_first() =~= put_at(s.drop_first(), e));
        assert(seq![r[0]] + put_at(r.drop_first(), e) =~= put_at(s, e));
    }
}

/// Keys strictly below `k` up to `i`, and `k` strictly below the key at `i`,
/// leave no entry with key `k` anywhere in a sorted sequence.
pub proof fn lemma_absent_from_bound(s: Seq<Inode>, k: Seq<u8>, i: int)
    requires
        node_sorted(s),
        0 <= i <= s.len(),
        forall|j: int| 0 <= j < i ==> lex_lt((#[trigger] s[j]).key@, k),
        i < s.len() ==> lex_lt(k, s[i].key@),
    ensures
        forall|j: int| 0 <= j < s.len() ==> (#[trigger] s[j]).key@ != k,
{
    assert forall|j: int| 0 <= j < s.len() implies (#[trigger] s[j]).key@ != k by {
        if j < i {
            lemma_lex_irrefl(s[j].key@);
        } else {
            if j > i {
                crate::keys::lemma_lex_trans(k, s[i].key@, s[j].key@);
            }
            lemma_lex_irrefl(k);
        }
    }
}

/// Removing the entry at the index that holds `k` is the removal of `k`.
pub proof fn lemma_del_at(s: Seq<Inode>, i: int)
    requires
        node_sorted(s),
        0 <= i < s.len(),
    ensures
        del_key(s, s[i].key@) =~= s.remove(i),
    decreases i,
{
    let k = s[i].key@;
    if i == 0 {
        assert(s.drop_first() =~= s.remove(0));
    } else {
        assert(lex_lt(s[0].key@, s[i].key@));
        lemma_lex_irrefl(s[0].key@);
        assert(s[0].key@ != k);
        lemma_sorted_drop_first(s);
        assert(s.drop_first()[i - 1] == s[i]);
        lemma_del_at(s.drop_first(), i - 1);
        assert(seq![s[0]] + s.drop_first().remove(i - 1) =~= s.remove(i));
    }
}

/// Removing a key that no entry holds changes nothing.
pub proof fn lemma_del_absent(s: Seq<Inode>, k: Seq<u8>)
    requires
        forall|j: int| 0 <= j < s.len() ==> (#[trigger] s[j]).key@ != k,
    ensures
        del_key(s, k) =~= s,
    decreases s.len(),
{
    if s.len() > 0 {
        lemma_del_absent(s.drop_first(), k);
        assert(seq![s[0]] + s.drop_first() =~= s);
    }
}

/// Inserting at the key-ordered position is the insert-or-replace when the
/// key is absent there.
pub proof fn lemma_put_at_insert(s: Seq<Inode>, e: Inode, i: int)
    requires
        node_sorted(s),
        0 <= i <= s.len(),
        forall|j: int| 0 <= j < i ==> lex_lt((#[trigger] s[j]).key@, e.key@),
        i < s.len() ==> lex_lt(e.key@, s[i].key@),
    ensures
        put_at(s, e) =~= s.insert(i, e),
    decreases i,
{
    if i == 0 {
        if s.len() == 0 {
            assert(put_at(s, e) =~= s.insert(0, e));
        } else {
            assert(seq![e] + s =~= s.insert(0, e));
        }
    } else {
        assert(lex_lt(s[0].key@, e.key@));
        lemma_lex_asym(s[0].key@, e.key@);
        lemma_lex_irrefl(s[0].key@);
        assert(s[0].key@ != e.key@);
        lemma_sorted_drop_first(s);
        lemma_put_at_insert(s.drop_first(), e, i - 1);
        assert(seq![s[0]] + s.drop_first().insert(i - 1, e) =~= s.insert(i, e));
    }
}

/// Replacing at the index whose entry holds the same key is the
/// insert-or-replace.
pub proof fn lemma_put_at_update(s: Seq<Inode>, e: Inode, i: int)
    requires
        node_sorted(s),
        0 <= i < s.len(),
        s[i].key@ == e.key@,
    ensures
        put_at(s, e) =~= s.update(i, e),
    decreases i,
{
    if i == 0 {
        lemma_lex_irrefl(e.key@);
        assert(seq![e] + s.drop_first() =~= s.update(0, e));
    } else {
        assert(lex_lt(s[0].key@, s[i].key@));
        lemma_lex_asym(s[0].key@, e.key@);
        lemma_lex_irrefl(s[0].key@);
        lemma_sorted_drop_first(s);
        lemma_put_at_update(s.drop_first(), e, i - 1);
        assert(seq![s[0]] + s.drop_first().update(i - 1, e) =~= s.update(i, e));
    }
}

/// One mutation applied to a node's entries during a write transaction.
pub enum NodeOp {
    /// insert-or-replace of an entry
    Put(Inode),
    /// removal of a key
    Del(Vec<u8>),
}

/// The entries after one mutation.
pub open spec fn apply_op(s: Seq<Inode>, op: NodeOp) -> Seq<Inode> {
    match op {
        NodeOp::Put(e) => put_at(s, e),
        NodeOp::Del(k) => del_key(s, k@),
    }
}

/// The entries after a whole sequence of mutations, applied left to right.
pub open spec fn apply_ops(s: Seq<Inode>, ops: Seq<NodeOp>) -> Seq<Inode>
    decreases ops.len(),
{
    if ops.len() == 0 {
        s
    } else {
        apply_ops(apply_op(s, ops[0]), ops.drop_first())
    }
}

/// What one mutation leaves under key `k`, given what was there.
pub open spec fn net_step(cur: Option<Inode>, op: NodeOp, k: Seq<u8>) -> Option<Inode> {
    match op {
        NodeOp::Put(e) => if e.key@ == k {
            Some(e)
        } else {
            cur
        },
        NodeOp::Del(k0) => if k0@ == k {
            None
        } else {
            cur
        },
    }
}

/// What a whole sequence of mutations leaves under key `k`: the last write
/// wins, a later removal erases it.
pub open spec fn net_of(ops: Seq<NodeOp>, init: Option<Inode>, k: Seq<u8>) -> Option<Inode>
    decreases ops.len(),
{
    if ops.len() == 0 {
        init
    } else {
        net_of(ops.drop_first(), net_step(init, ops[0], k), k)
    }
}

/// After any sequence of insert-or-replace and removal operations the
/// entries are still strictly ascending by key, and every key holds exactly
/// the net result of the operations that touched it.
pub proof fn lemma_ops_net(s: Seq<Inode>, ops: Seq<NodeOp>, k: Seq<u8>)
    requires
        node_sorted(s),
    ensures
        node_sorted(apply_ops(s, ops)),
        lookup(apply_ops(s, ops), k) == net_of(ops, lookup(s, k), k),
    decreases ops.len(),
{
    if ops.len() > 0 {
        match ops[0] {
            NodeOp::Put(e) => {
                lemma_put_at_sorted(s, e);
                lemma_lookup_put(s, e, k);
            },
            NodeOp::Del(k0) => {
                lemma_del_sorted(s, k0@);
                lemma_lookup_del(s, k0@, k);
            },
        }
        lemma_ops_net(apply_op(s, ops[0]), ops.drop_first(), k);
    }
}

/// Bytes one entry takes on a page: the element header plus the packed key,
/// and on a leaf the packed value.
pub open spec fn spec_inode_size(is_leaf: bool, e: Inode) -> nat {
    16 + e.key@.len() + if is_leaf {
        e.value@.len()
    } else {
        0nat
    }
}

/// Bytes a run of entries takes on a page.
pub open spec fn spec_entries_size(is_leaf: bool, s: Seq<Inode>) -> nat
    decreases s.len(),
{
    if s.len() == 0 {
        0
    } else {
        spec_inode_size(is_leaf, s[0]) + spec_entries_size(is_leaf, s.drop_first())
    }
}

/// Serialized size of a node: the page header plus all its entries.
pub open spec fn spec_node_size(is_leaf: bool, s: Seq<Inode>) -> nat {
    16 + spec_entries_size(is_leaf, s)
}

/// Taking one more entry adds exactly that entry's size.
pub proof fn lemma_entries_size_take_succ(is_leaf: bool, s: Seq<Inode>, i: int)
    requires
        0 <= i < s.len(),
    ensures
        spec_entries_size(is_leaf, s.take(i + 1)) == spec_entries_size(is_leaf, s.take(i))
            + spec_inode_size(is_leaf, s[i]),
    decreases i,
{
    if i == 0 {
        assert(s.take(1)[0] == s[0]);
        assert(s.take(1).drop_first() =~= s.take(0));
    } else {
        assert(s.take(i + 1)[0] == s[0]);
        assert(s.take(i)[0] == s[0]);
        assert(s.take(i + 1).drop_first() =~= s.drop_first().take(i));
        assert(s.take(i).drop_first() =~= s.drop_first().take(i - 1));
        assert(s.drop_first()[i - 1] == s[i]);
        lemma_entries_size_take_succ(is_leaf, s.drop_first(), i - 1);
    }
}

/// A prefix never takes more bytes than the whole.
pub proof fn lemma_entries_size_take_le(is_leaf: bool, s: Seq<Inode>, i: int)
    requires
        0 <= i <= s.len(),
    ensures
        spec_entries_size(is_leaf, s.take(i)) <= spec_entries_size(is_leaf, s),
    decreases s.len(),
{
    if i == 0 {
        assert(s.take(0) =~= Seq::<Inode>::empty());
    } else {
        assert(s.take(i)[0] == s[0]);
        assert(s.take(i).drop_first() =~= s.drop_first().take(i - 1));
        lemma_entries_size_take_le(is_leaf, s.drop_first(), i - 1);
    }
}

/// The node may be cut just before entry `i`: both sides keep at least the
/// minimum entry count, and what stands before the cut together with entry
/// `i` itself already outgrows the threshold.
pub open spec fn spec_cut_admissible(is_leaf: bool, s: Seq<Inode>, threshold: u64, i: int) -> bool {
    &&& crate::MIN_KEYS_PER_PAGE <= i
    &&& i + crate::MIN_KEYS_PER_PAGE <= s.len()
    &&& 16 + spec_entries_size(is_leaf, s.take(i)) + spec_inode_size(is_leaf, s[i]) > threshold
}

/// The serialized size past which a spilling node splits: the portion of a
/// page it aims to fill, never below the smallest node a page can carry —
/// one page header and two element slots.
pub fn split_threshold(page_size: u32, fill_percent: u64) -> (r: u64)
    requires
        1 <= fill_percent <= 100,
    ensures
        r == if page_size * fill_percent / 100 > 48 {
            page_size * fill_percent / 100
        } else {
            48
        },
{
    proof {
        assert((page_size as int) * (fill_percent as int) <= 0xffff_ffff * 100)
            by (nonlinear_arith)
            requires
                0 <= page_size as int <= 0xffff_ffff,
                0 <= fill_percent as int <= 100,
        ;
    }
    let scaled = (page_size as u64) * fill_percent / 100;
    if scaled > 48 {
        scaled
    } else {
        48
    }
}

/// In-memory form of one branch or leaf page during a write transaction.
pub struct Node {
    /// whether this node holds leaf entries
    pub is_leaf: bool,
    /// page the node was read from; 0 once dirtied and not yet reallocated
    pub pgid: u64,
    /// set when a removal leaves the node possibly under-full
    pub unbalanced: bool,
    /// set once the node has been written to a freshly allocated page
    pub spilled: bool,
    /// the entries, strictly ascending by key
    pub inodes: Vec<Inode>,
}

impl Node {
    /// Well-formedness: the entries are strictly ascending by key.
    pub open spec fn wf(self) -> bool {
        node_sorted(self.inodes@)
    }

    /// An empty node of the given kind.
    pub fn new(is_leaf: bool) -> (r: Node)
        ensures
            r.wf(),
            r.is_leaf == is_leaf,
            r.pgid == 0,
            !r.unbalanced,
            !r.spilled,
            r.inodes@.len() == 0,
    {
        Node { is_leaf, pgid: 0, unbalanced: false, spilled: false, inodes: Vec::new() }
    }

    /// Position of `key` among the entries: `Ok(i)` when the entry at `i`
    /// holds it, else `Err(i)` with `i` its key-ordered insertion point.
    pub fn index_of(&self, key: &[u8]) -> (r: Result<usize, usize>)
        requires
            self.wf(),
        ensures
            match r {
                Ok(i) => i < self.inodes@.len() && self.inodes@[i as int].key@ == key@,
                Err(i) => i <= self.inodes@.len() && (forall|j: int|
                    0 <= j < i ==> lex_lt((#[trigger] self.inodes@[j]).key@, key@)) && (i
                    < self.inodes@.len() ==> lex_lt(key@, self.inodes@[i as int].key@)),
            },
    {
        let n = self.inodes.len();
        let mut i: usize = 0;
        while i < n
            invariant
                self.wf(),
                n == self.inodes@.len(),
                i <= n,
                forall|j: int| 0 <= j < i ==> lex_lt((#[trigger] self.inodes@[j]).key@, key@),
            decreases n - i,
        {
            if key_lt(self.inodes[i].key.as_slice(), key) {
                i = i + 1;
            } else if key_eq(self.inodes[i].key.as_slice(), key) {
                return Ok(i);
            } else {
                proof {
                    lemma_lex_total(key@, self.inodes@[i as int].key@);
                }
                return Err(i);
            }
        }
        Err(i)
    }

    /// Read the entry stored under `key`, if any.
    pub fn get(&self, key: &[u8]) -> (r: Option<&Inode>)
        requires
            self.wf(),
        ensures
            match r {
                Some(e) => lookup(self.inodes@, key@) == Some(*e),
                None => lookup(self.inodes@, key@) is None,
            },
    {
        match self.index_of(key) {
            Ok(i) => {
                proof {
                    lemma_lookup_index(self.inodes@, i as int);
                }
                Some(&self.inodes[i])
            },
            Err(i) => {
                proof {
                    lemma_absent_from_bound(self.inodes@, key@, i as int);
                    lemma_lookup_absent(self.inodes@, key@);
                }
                None
            },
        }
    }

    /// Replace the entry under `old_key`, if any, by a new entry placed at
    /// its own key's position: the net effect is a removal of `old_key`
    /// followed by an insert-or-replace of the new entry.
    pub fn put(&mut self, old_key: &[u8], key: Vec<u8>, value: Vec<u8>, pgid: u64, flags: u32)
        requires
            old(self).wf(),
            key@.len() > 0,
        ensures
            final(self).wf(),
            final(self).inodes@ == put_at(
                del_key(old(self).inodes@, old_key@),
                (Inode { flags, pgid, key, value }),
            ),
            final(self).is_leaf == old(self).is_leaf,
            final(self).pgid == old(self).pgid,
            final(self).unbalanced == old(self).unbalanced,
            final(self).spilled == old(self).spilled,
    {
        let e = Inode { flags, pgid, key, value };
        match self.index_of(old_key) {
            Ok(i) => {
                proof {
                    lemma_del_at(self.inodes@, i as int);
                }
                self.inodes.remove(i);
                proof {
                    lemma_del_sorted(old(self).inodes@, old_key@);
                }
            },
            Err(i) => {
                proof {
                    lemma_absent_from_bound(self.inodes@, old_key@, i as int);
                    lemma_del_absent(self.inodes@, old_key@);
                }
            },
        }
        let ghost t = self.inodes@;
        match self.index_of(e.key.as_slice()) {
            Ok(i) => {
                proof {
                    lemma_put_at_update(t, e, i as int);
                }
                self.inodes.remove(i);
                self.inodes.insert(i, e);
                proof {
                    assert(t.remove(i as int).insert(i as int, e) =~= t.update(i as int, e));
                    lemma_put_at_sorted(t, e);
                }
            },
            Err(i) => {
                proof {
                    lemma_put_at_insert(t, e, i as int);
                }
                self.inodes.insert(i, e);
                proof {
                    lemma_put_at_sorted(t, e);
                }
            },
        }
    }

    /// Insert the entry at its key's position, replacing what that key held.
    pub fn put_entry(&mut self, e: Inode)
        requires
            old(self).wf(),
            e.key@.len() > 0,
        ensures
            final(self).wf(),
            final(self).inodes@ == put_at(old(self).inodes@, e),
            final(self).is_leaf == old(self).is_leaf,
            final(self).pgid == old(self).pgid,
            final(self).unbalanced == old(self).unbalanced,
            final(self).spilled == old(self).spilled,
    {
        let ghost t = self.inodes@;
        match self.index_of(e.key.as_slice()) {
            Ok(i) => {
                proof {
                    lemma_put_at_update(t, e, i as int);
                }
                self.inodes.remove(i);
                self.inodes.insert(i, e);
                proof {
                    assert(t.remove(i as int).insert(i as int, e) =~= t.update(i as int, e));
                    lemma_put_at_sorted(t, e);
                }
            },
            Err(i) => {
                proof {
                    lemma_put_at_insert(t, e, i as int);
                }
                self.inodes.insert(i, e);
                proof {
                    lemma_put_at_sorted(t, e);
                }
            },
        }
    }

    /// Remove the entry under `key`. When an entry went, the node is marked
    /// unbalanced so the writer rebalances it before commit.
    pub fn del(&mut self, key: &[u8])
        requires
            old(self).wf(),
        ensures
            final(self).wf(),
            final(self).inodes@ == del_key(old(self).inodes@, key@),
            final(self).is_leaf == old(self).is_leaf,
            final(self).pgid == old(self).pgid,
            final(self).spilled == old(self).spilled,
            final(self).unbalanced == if lookup(old(self).inodes@, key@) is Some {
                true
            } else {
                old(self).unbalanced
            },
    {
        match self.index_of(key) {
            Ok(i) => {
                proof {
                    lemma_del_at(self.inodes@, i as int);
                    lemma_del_sorted(self.inodes@, key@);
                    lemma_lookup_index(self.inodes@, i as int);
                }
                self.inodes.remove(i);
                self.unbalanced = true;
            },
            Err(i) => {
                proof {
                    lemma_absent_from_bound(self.inodes@, key@, i as int);
                    lemma_del_absent(self.inodes@, key@);
                    lemma_lookup_absent(self.inodes@, key@);
                }
            },
        }
    }

    /// Serialized size of the node in bytes.
    pub fn size(&self) -> (r: u64)
        requires
            spec_node_size(self.is_leaf, self.inodes@) <= u64::MAX,
        ensures
            r == spec_node_size(self.is_leaf, self.inodes@),
    {
        let ghost s = self.inodes@;
        let n = self.inodes.len();
        let mut acc: u64 = 16;
        let mut i: usize = 0;
        proof {
            assert(s.take(0) =~= Seq::<Inode>::empty());
        }
        while i < n
            invariant
                n == s.len(),
                i <= n,
                s == self.inodes@,
                spec_node_size(self.is_leaf, s) <= u64::MAX,
                acc == 16 + spec_entries_size(self.is_leaf, s.take(i as int)),
            decreases n - i,
        {
            proof {
                lemma_entries_size_take_succ(self.is_leaf, s, i as int);
                lemma_entries_size_take_le(self.is_leaf, s, i + 1);
            }
            let e = &self.inodes[i];
            acc = acc + 16;
            acc = acc + e.key.len() as u64;
            if self.is_leaf {
                acc = acc + e.value.len() as u64;
            }
            i = i + 1;
        }
        proof {
            assert(s.take(n as int) =~= s);
        }
        acc
    }

    /// Whether the node falls below the fill threshold after removals and
    /// must be merged with a sibling: fewer than the minimum entries, or
    /// under a quarter of a page.
    pub fn needs_rebalance(&self, page_size: u64) -> (r: bool)
        requires
            spec_node_size(self.is_leaf, self.inodes@) <= u64::MAX,
        ensures
            r == (self.inodes@.len() < crate::MIN_KEYS_PER_PAGE || spec_node_size(
                self.is_leaf,
                self.inodes@,
            ) < page_size / 4),
    {
        self.inodes.len() < crate::MIN_KEYS_PER_PAGE || self.size() < page_size / 4
    }

    /// Where to cut the node when it splits: the first index at which the
    /// next entry would push the serialized size past `threshold`, but never
    /// leaving fewer than the minimum entries on either side. Returns the
    /// length when no admissible cut exists.
    pub fn split_index(&self, threshold: u64) -> (r: usize)
        requires
            spec_node_size(self.is_leaf, self.inodes@) <= u64::MAX,
        ensures
            r <= self.inodes@.len(),
            r == self.inodes@.len() || spec_cut_admissible(
                self.is_leaf,
                self.inodes@,
                threshold,
                r as int,
            ),
            forall|i: int|
                0 <= i < r ==> !#[trigger] spec_cut_admissible(
                    self.is_leaf,
                    self.inodes@,
                    threshold,
                    i,
                ),
            r == self.inodes@.len() ==> forall|i: int|
                !#[trigger] spec_cut_admissible(self.is_leaf, self.inodes@, threshold, i),
    {
        let ghost s = self.inodes@;
        let n = self.inodes.len();
        let mut acc: u64 = 16;
        let mut i: usize = 0;
        proof {
            assert(s.take(0) =~= Seq::<Inode>::empty());
        }
        while i < n
            invariant
                n == s.len(),
                i <= n,
                s == self.inodes@,
                spec_node_size(self.is_leaf, s) <= u64::MAX,
                acc == 16 + spec_entries_size(self.is_leaf, s.take(i as int)),
                forall|j: int|
                    0 <= j < i ==> !#[trigger] spec_cut_admissible(self.is_leaf, s, threshold, j),
                acc <= 16 + spec_entries_size(self.is_leaf, s),
            decreases n - i,
        {
            proof {
                lemma_entries_size_take_succ(self.is_leaf, s, i as int);
                lemma_entries_size_take_le(self.is_leaf, s, i + 1);
            }
            let e = &self.inodes[i];
            let mut el_size: u64 = 16 + e.key.len() as u64;
            if self.is_leaf {
                el_size = el_size + e.value.len() as u64;
            }
            if i >= crate::MIN_KEYS_PER_PAGE && n - i >= crate::MIN_KEYS_PER_PAGE && acc + el_size
                > threshold {
                return i;
            }
            acc = acc + el_size;
            i = i + 1;
        }
        n
    }

    /// Split the node at its cut point: this node keeps the entries before
    /// the first admissible cut, the returned sibling takes the rest. The
    /// node splits exactly when an admissible cut exists, and at the first
    /// one. No entry is lost or reordered: the two nodes laid end to end
    /// are exactly the old entries, each side still ascending and each side
    /// keeping at least the minimum entry count.
    pub fn split(&mut self, threshold: u64) -> (r: Option<Node>)
        requires
            old(self).wf(),
            spec_node_size(old(self).is_leaf, old(self).inodes@) <= u64::MAX,
        ensures
            final(self).wf(),
            r is None ==> *final(self) == *old(self),
            r is None <==> (forall|i: int|
                !#[trigger] spec_cut_admissible(
                    old(self).is_leaf,
                    old(self).inodes@,
                    threshold,
                    i,
                )),
            r is Some ==> spec_cut_admissible(
                old(self).is_leaf,
                old(self).inodes@,
                threshold,
                final(self).inodes@.len() as int,
            ) && (forall|i: int|
                0 <= i < final(self).inodes@.len()
                    ==> !#[trigger] spec_cut_admissible(
                    old(self).is_leaf,
                    old(self).inodes@,
                    threshold,
                    i,
                )),
            r matches Some(right) ==> {
                &&& right.wf()
                &&& right.is_leaf == old(self).is_leaf
                &&& final(self).is_leaf == old(self).is_leaf
                &&& final(self).inodes@ + right.inodes@ == old(self).inodes@
                &&& final(self).inodes@.len() >= crate::MIN_KEYS_PER_PAGE
                &&& right.inodes@.len() >= crate::MIN_KEYS_PER_PAGE
                &&& final(self).inodes@ == old(self).inodes@.take(final(self).inodes@.len() as int)
                &&& right.inodes@ == old(self).inodes@.skip(final(self).inodes@.len() as int)
            },
    {
        let ghost s = self.inodes@;
        let i = self.split_index(threshold);
        let n = self.inodes.len();
        if i >= n {
            return None;
        }
        let mut right: Node = Node::new(self.is_leaf);
        let mut k: usize = 0;
        proof {
            assert(s.take(i as int) + s.skip(i as int) =~= s);
            assert(s.subrange(i as int, i as int) =~= Seq::<Inode>::empty());
        }
        while k < n - i
            invariant
                i + k <= n,
                n == s.len(),
                i < n,
                self.inodes@ == s.take(i as int) + s.skip(i + k),
                right.inodes@ == s.subrange(i as int, i + k),
                right.is_leaf == self.is_leaf,
                self.is_leaf == old(self).is_leaf,
                self.pgid == old(self).pgid,
                self.unbalanced == old(self).unbalanced,
                self.spilled == old(self).spilled,
            decreases n - i - k,
        {
            let e = self.inodes.remove(i);
            right.inodes.push(e);
            proof {
                assert((s.take(i as int) + s.skip(i + k)).remove(i as int) =~= s.take(i as int)
                    + s.skip(i + k + 1));
                assert(s.subrange(i as int, i + k).push(s[i + k]) =~= s.subrange(
                    i as int,
                    i + k + 1,
                ));
            }
            k = k + 1;
        }
        proof {
            assert(self.inodes@ =~= s.take(i as int));
            assert(right.inodes@ =~= s.skip(i as int));
            assert forall|p2: int, q2: int|
                0 <= p2 < q2 < self.inodes@.len() implies #[trigger] lex_lt(
                self.inodes@[p2].key@,
                self.inodes@[q2].key@,
            ) by {
                assert(self.inodes@[p2] == s[p2] && self.inodes@[q2] == s[q2]);
            }
            assert forall|p2: int, q2: int|
                0 <= p2 < q2 < right.inodes@.len() implies #[trigger] lex_lt(
                right.inodes@[p2].key@,
                right.inodes@[q2].key@,
            ) by {
                assert(right.inodes@[p2] == s[p2 + i] && right.inodes@[q2] == s[q2 + i]);
            }
            assert(self.inodes@ + right.inodes@ =~= s);
        }
        Some(right)
    }

    /// Fold the right sibling's entries into this node. Every key of the
    /// right sibling must come after every key of this node, as holds for
    /// two adjacent siblings; the result is their concatenation, still
    /// ascending.
    pub fn merge_right(&mut self, right: Node)
        requires
            old(self).wf(),
            right.wf(),
            forall|i: int, j: int|
                0 <= i < old(self).inodes@.len() && 0 <= j < right.inodes@.len() ==> lex_lt(
                    (#[trigger] old(self).inodes@[i]).key@,
                    (#[trigger] right.inodes@[j]).key@,
                ),
        ensures
            final(self).wf(),
            final(self).inodes@ == old(self).inodes@ + right.inodes@,
            final(self).is_leaf == old(self).is_leaf,
            final(self).pgid == old(self).pgid,
            final(self).spilled == old(self).spilled,
            final(self).unbalanced == old(self).unbalanced,
    {
        let ghost b = right.inodes@;
        let mut right = right;
        self.inodes.append(&mut right.inodes);
        proof {
            let r = self.inodes@;
            assert forall|i: int, j: int| 0 <= i < j < r.len() implies #[trigger] lex_lt(
                r[i].key@,
                r[j].key@,
            ) by {
                let a = old(self).inodes@;
                if j < a.len() {
                } else if i >= a.len() {
                    assert(r[i] == b[i - a.len()] && r[j] == b[j - a.len()]);
                } else {
                    assert(r[i] == a[i] && r[j] == b[j - a.len()]);
                }
            }
        }
    }
}

} // verus!
