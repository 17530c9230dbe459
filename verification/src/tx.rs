//! The transactional view: a snapshot of the root-of-world, read-only or
//! read-write, whose mutations land on the root bucket and whose commit
//! stamps a fresh meta record for the next root-of-world slot.
use vstd::prelude::*;

use crate::bucket::{Bucket, MAX_KEY_SIZE, MAX_VALUE_SIZE};
use crate::errors::Error;
use crate::meta::Meta;
use crate::node::{del_key, lookup, put_at, Inode, BUCKET_LEAF_FLAG};
use crate::stats::TxStats;
use crate::{MAGIC, VERSION};

verus! {

/// One transaction: a meta snapshot, the materialized root bucket, and the
/// counters gathered while it runs. Closed by commit or rollback; every
/// operation after that is refused.
pub struct Tx {
    /// snapshot of the root-of-world; a writable transaction already
    /// carries the id it will commit under
    pub meta: Meta,
    /// whether mutations are allowed
    pub writable: bool,
    /// false once committed or rolled back
    pub open: bool,
    /// the root bucket, where reads and writes land
    pub root: Bucket,
    /// counters gathered while the transaction runs
    pub stats: TxStats,
}

impl Tx {
    /// Well-formedness: the root bucket's entries are strictly ascending.
    pub open spec fn wf(self) -> bool {
        self.root.wf()
    }

    /// Begin a transaction on a meta snapshot. A writable transaction
    /// claims the next transaction id; a read-only one keeps the
    /// snapshot's.
    pub fn begin(meta: Meta, writable: bool) -> (r: Tx)
        requires
            meta.txid < u64::MAX,
        ensures
            r.wf(),
            r.open,
            r.writable == writable,
            r.meta.txid == if writable {
                meta.txid + 1
            } else {
                meta.txid as int
            },
            r.meta.page_size == meta.page_size,
            r.meta.root_pgid == meta.root_pgid,
            r.meta.freelist_pgid == meta.freelist_pgid,
            r.meta.high_water_pgid == meta.high_water_pgid,
            r.root.entries().len() == 0,
    {
        let mut m = meta;
        if writable {
            m.txid = m.txid + 1;
        }
        Tx { meta: m, writable, open: true, root: Bucket::new(), stats: TxStats::new() }
    }

    /// The id this transaction reads at, and commits under when writable.
    pub fn txid(&self) -> (r: u64)
        ensures
            r == self.meta.txid,
    {
        self.meta.txid
    }

    /// Whether mutations are allowed.
    pub fn writable(&self) -> (r: bool)
        ensures
            r == self.writable,
    {
        self.writable
    }

    /// Read the value under `key` in the root bucket. Refused once the
    /// transaction is closed.
    pub fn get(&self, key: &[u8]) -> (r: Result<Option<&Vec<u8>>, Error>)
        requires
            self.wf(),
        ensures
            !self.open ==> r == Err::<Option<&Vec<u8>>, Error>(Error::TxClosed),
            self.open ==> r is Ok && (match lookup(self.root.entries(), key@) {
                Some(e) => if e.flags & BUCKET_LEAF_FLAG == 0 {
                    r->Ok_0 is Some && r->Ok_0->Some_0@ == e.value@
                } else {
                    r->Ok_0 is None
                },
                None => r->Ok_0 is None,
            }),
    {
        if !self.open {
            return Err(Error::TxClosed);
        }
        Ok(self.root.get(key))
    }

    /// Store `value` under `key` in the root bucket. Refused once the
    /// transaction is closed, and on a read-only transaction; the bound
    /// checks and the sub-bucket guard are the bucket's.
    pub fn put(&mut self, key: Vec<u8>, value: Vec<u8>) -> (r: Result<(), Error>)
        requires
            old(self).wf(),
        ensures
            final(self).wf(),
            !old(self).open ==> r == Err::<(), Error>(Error::TxClosed),
            old(self).open && !old(self).writable ==> r == Err::<(), Error>(Error::TxNotWritable),
            r is Err ==> *final(self) == *old(self),
            old(self).open && old(self).writable ==> {
                &&& key@.len() == 0 ==> r == Err::<(), Error>(Error::KeyRequired)
                &&& key@.len() > MAX_KEY_SIZE ==> r == Err::<(), Error>(Error::KeyTooLarge)
                &&& key@.len() > 0 && key@.len() <= MAX_KEY_SIZE && value@.len() > MAX_VALUE_SIZE
                    ==> r == Err::<(), Error>(Error::ValueTooLarge)
                &&& r is Ok <==> key@.len() > 0 && key@.len() <= MAX_KEY_SIZE && value@.len()
                    <= MAX_VALUE_SIZE && (match lookup(old(self).root.entries(), key@) {
                    Some(e) => e.flags & BUCKET_LEAF_FLAG == 0,
                    None => true,
                })
                &&& r is Ok ==> final(self).root.entries() == put_at(
                    old(self).root.entries(),
                    (Inode { flags: 0, pgid: 0, key, value }),
                ) && final(self).open && final(self).writable && final(self).meta == old(self).meta
            },
    {
        if !self.open {
            return Err(Error::TxClosed);
        }
        if !self.writable {
            return Err(Error::TxNotWritable);
        }
        self.root.put(key, value)
    }

    /// Remove the value under `key` from the root bucket, under the same
    /// guards as a write.
    pub fn delete(&mut self, key: &[u8]) -> (r: Result<(), Error>)
        requires
            old(self).wf(),
        ensures
            final(self).wf(),
            !old(self).open ==> r == Err::<(), Error>(Error::TxClosed),
            old(self).open && !old(self).writable ==> r == Err::<(), Error>(Error::TxNotWritable),
            r is Err ==> *final(self) == *old(self),
            old(self).open && old(self).writable && (match lookup(
                old(self).root.entries(),
                key@,
            ) {
                Some(e) => e.flags & BUCKET_LEAF_FLAG == 0,
                None => true,
            }) ==> r is Ok && final(self).root.entries() == del_key(
                old(self).root.entries(),
                key@,
            ) && final(self).open && final(self).meta == old(self).meta,
    {
        if !self.open {
            return Err(Error::TxClosed);
        }
        if !self.writable {
            return Err(Error::TxNotWritable);
        }
        self.root.delete(key)
    }

    /// Commit: stamp a meta record with this transaction's id and a fresh
    /// checksum, and close the transaction. The record returned is what
    /// goes to meta slot `txid % 2`. Refused on a read-only or closed
    /// transaction.
    pub fn commit(&mut self) -> (r: Result<Meta, Error>)
        ensures
            !old(self).open ==> r == Err::<Meta, Error>(Error::TxClosed) && *final(self) == *old(
                self,
            ),
            old(self).open && !old(self).writable ==> r == Err::<Meta, Error>(
                Error::TxNotWritable,
            ) && *final(self) == *old(self),
            old(self).open && old(self).writable ==> {
                &&& r is Ok
                &&& !final(self).open
                &&& r->Ok_0.txid == old(self).meta.txid
                &&& r->Ok_0.spec_valid() <==> old(self).meta.magic == MAGIC && old(
                    self,
                ).meta.version == VERSION
                &&& r->Ok_0.magic == old(self).meta.magic
                &&& r->Ok_0.version == old(self).meta.version
                &&& r->Ok_0.page_size == old(self).meta.page_size
                &&& r->Ok_0.flags == old(self).meta.flags
                &&& r->Ok_0.root_pgid == old(self).meta.root_pgid
                &&& r->Ok_0.sequence == old(self).meta.sequence
                &&& r->Ok_0.freelist_pgid == old(self).meta.freelist_pgid
                &&& r->Ok_0.high_water_pgid == old(self).meta.high_water_pgid
                &&& r->Ok_0.checksum == r->Ok_0.spec_sum()
            },
    {
        if !self.open {
            return Err(Error::TxClosed);
        }
        if !self.writable {
            return Err(Error::TxNotWritable);
        }
        let mut m = self.meta;
        m.write_for(self.meta.txid);
        self.open = false;
        Ok(m)
    }

    /// Roll back: close the transaction without producing a meta record.
    /// Refused once already closed.
    pub fn rollback(&mut self) -> (r: Result<(), Error>)
        ensures
            !old(self).open ==> r == Err::<(), Error>(Error::TxClosed) && *final(self) == *old(
                self,
            ),
            old(self).open ==> r is Ok && !final(self).open,
    {
        if !self.open {
            return Err(Error::TxClosed);
        }
        self.open = false;
        Ok(())
    }

    /// Which meta slot a commit with this id rewrites: the slots alternate.
    pub fn meta_slot(&self) -> (r: u64)
        ensures
            r == self.meta.txid % 2,
    {
        self.meta.txid % 2
    }
}

} // verus!
