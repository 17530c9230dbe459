//! Aggregate statistics of the database and of its transactions.
use vstd::prelude::*;

verus! {

/// Counters gathered while a single transaction runs; `Stats.tx_stats`
/// accumulates them over the life of the database.
#[derive(Clone, Copy, Debug)]
pub struct TxStats {
    /// number of page allocations
    pub page_count: usize,
    /// total bytes allocated for pages
    pub page_alloc: usize,
    /// number of cursors created
    pub cursor_count: usize,
    /// number of node allocations
    pub node_count: usize,
    /// number of node dereferences
    pub node_deref: usize,
    /// number of node rebalances
    pub rebalance: usize,
    /// number of nodes split
    pub split: usize,
    /// number of nodes spilled
    pub spill: usize,
    /// number of writes performed
    pub write: usize,
}

impl TxStats {
    /// A fresh transaction starts with every counter at zero.
    pub fn new() -> (r: TxStats)
        ensures
            r.page_count == 0 && r.page_alloc == 0 && r.cursor_count == 0,
            r.node_count == 0 && r.node_deref == 0 && r.rebalance == 0,
            r.split == 0 && r.spill == 0 && r.write == 0,
    {
        TxStats {
            page_count: 0,
            page_alloc: 0,
            cursor_count: 0,
            node_count: 0,
            node_deref: 0,
            rebalance: 0,
            split: 0,
            spill: 0,
            write: 0,
        }
    }

    /// Difference of two counter sets, field by field.
    pub fn sub(&self, other: &TxStats) -> (r: TxStats)
        requires
            other.page_count <= self.page_count,
            other.page_alloc <= self.page_alloc,
            other.cursor_count <= self.cursor_count,
            other.node_count <= self.node_count,
            other.node_deref <= self.node_deref,
            other.rebalance <= self.rebalance,
            other.split <= self.split,
            other.spill <= self.spill,
            other.write <= self.write,
        ensures
            r.page_count == self.page_count - other.page_count,
            r.page_alloc == self.page_alloc - other.page_alloc,
            r.cursor_count == self.cursor_count - other.cursor_count,
            r.node_count == self.node_count - other.node_count,
            r.node_deref == self.node_deref - other.node_deref,
            r.rebalance == self.rebalance - other.rebalance,
            r.split == self.split - other.split,
            r.spill == self.spill - other.spill,
            r.write == self.write - other.write,
    {
        TxStats {
            page_count: self.page_count - other.page_count,
            page_alloc: self.page_alloc - other.page_alloc,
            cursor_count: self.cursor_count - other.cursor_count,
            node_count: self.node_count - other.node_count,
            node_deref: self.node_deref - other.node_deref,
            rebalance: self.rebalance - other.rebalance,
            split: self.split - other.split,
            spill: self.spill - other.spill,
            write: self.write - other.write,
        }
    }

    /// Accumulate another counter set into this one, field by field.
    pub fn add_assign(&mut self, other: &TxStats)
        requires
            old(self).page_count + other.page_count <= usize::MAX,
            old(self).page_alloc + other.page_alloc <= usize::MAX,
            old(self).cursor_count + other.cursor_count <= usize::MAX,
            old(self).node_count + other.node_count <= usize::MAX,
            old(self).node_deref + other.node_deref <= usize::MAX,
            old(self).rebalance + other.rebalance <= usize::MAX,
            old(self).split + other.split <= usize::MAX,
            old(self).spill + other.spill <= usize::MAX,
            old(self).write + other.write <= usize::MAX,
        ensures
            final(self).page_count == old(self).page_count + other.page_count,
            final(self).page_alloc == old(self).page_alloc + other.page_alloc,
            final(self).cursor_count == old(self).cursor_count + other.cursor_count,
            final(self).node_count == old(self).node_count + other.node_count,
            final(self).node_deref == old(self).node_deref + other.node_deref,
            final(self).rebalance == old(self).rebalance + other.rebalance,
            final(self).split == old(self).split + other.split,
            final(self).spill == old(self).spill + other.spill,
            final(self).write == old(self).write + other.write,
    {
        self.page_count = self.page_count + other.page_count;
        self.page_alloc = self.page_alloc + other.page_alloc;
        self.cursor_count = self.cursor_count + other.cursor_count;
        self.node_count = self.node_count + other.node_count;
        self.node_deref = self.node_deref + other.node_deref;
        self.rebalance = self.rebalance + other.rebalance;
        self.split = self.split + other.split;
        self.spill = self.spill + other.spill;
        self.write = self.write + other.write;
    }
}

/// Statistics about the database as a whole: the freelist footprint and the
/// running transaction counters.
#[derive(Clone, Copy, Debug)]
pub struct Stats {
    /// total number of free pages on the freelist
    pub free_page_n: usize,
    /// total number of pending pages on the freelist
    pub pending_page_n: usize,
    /// total bytes allocated in free pages
    pub free_alloc: usize,
    /// total bytes used by the freelist
    pub freelist_in_use: usize,
    /// total number of started read transactions
    pub tx_n: usize,
    /// number of currently open read transactions
    pub open_tx_n: usize,
    /// global, ongoing stats.
    pub tx_stats: TxStats,
}

impl Stats {
    /// A fresh database starts with every counter at zero.
    pub fn new() -> (r: Stats)
        ensures
            r.free_page_n == 0 && r.pending_page_n == 0,
            r.free_alloc == 0 && r.freelist_in_use == 0,
            r.tx_n == 0 && r.open_tx_n == 0,
            r.tx_stats.page_count == 0 && r.tx_stats.page_alloc == 0,
            r.tx_stats.cursor_count == 0 && r.tx_stats.node_count == 0,
            r.tx_stats.node_deref == 0 && r.tx_stats.rebalance == 0,
            r.tx_stats.split == 0 && r.tx_stats.spill == 0 && r.tx_stats.write == 0,
    {
        Stats {
            free_page_n: 0,
            pending_page_n: 0,
            free_alloc: 0,
            freelist_in_use: 0,
            tx_n: 0,
            open_tx_n: 0,
            tx_stats: TxStats::new(),
        }
    }

    /// Difference since `other` was captured: the transaction counters
    /// subtract; the freelist numbers are a snapshot and carry over as they
    /// stand.
    pub fn sub(&self, other: &Stats) -> (r: Stats)
        requires
            other.tx_n <= self.tx_n,
            other.open_tx_n <= self.open_tx_n,
            other.tx_stats.page_count <= self.tx_stats.page_count,
            other.tx_stats.page_alloc <= self.tx_stats.page_alloc,
            other.tx_stats.cursor_count <= self.tx_stats.cursor_count,
            other.tx_stats.node_count <= self.tx_stats.node_count,
            other.tx_stats.node_deref <= self.tx_stats.node_deref,
            other.tx_stats.rebalance <= self.tx_stats.rebalance,
            other.tx_stats.split <= self.tx_stats.split,
            other.tx_stats.spill <= self.tx_stats.spill,
            other.tx_stats.write <= self.tx_stats.write,
        ensures
            r.free_page_n == self.free_page_n,
            r.pending_page_n == self.pending_page_n,
            r.free_alloc == self.free_alloc,
            r.freelist_in_use == self.freelist_in_use,
            r.tx_n == self.tx_n - other.tx_n,
            r.open_tx_n == self.open_tx_n - other.open_tx_n,
            r.tx_stats.page_count == self.tx_stats.page_count - other.tx_stats.page_count,
            r.tx_stats.page_alloc == self.tx_stats.page_alloc - other.tx_stats.page_alloc,
            r.tx_stats.cursor_count == self.tx_stats.cursor_count - other.tx_stats.cursor_count,
            r.tx_stats.node_count == self.tx_stats.node_count - other.tx_stats.node_count,
            r.tx_stats.node_deref == self.tx_stats.node_deref - other.tx_stats.node_deref,
            r.tx_stats.rebalance == self.tx_stats.rebalance - other.tx_stats.rebalance,
            r.tx_stats.split == self.tx_stats.split - other.tx_stats.split,
            r.tx_stats.spill == self.tx_stats.spill - other.tx_stats.spill,
            r.tx_stats.write == self.tx_stats.write - other.tx_stats.write,
    {
        Stats {
            free_page_n: self.free_page_n,
            pending_page_n: self.pending_page_n,
            free_alloc: self.free_alloc,
            freelist_in_use: self.freelist_in_use,
            tx_n: self.tx_n - other.tx_n,
            open_tx_n: self.open_tx_n - other.open_tx_n,
            tx_stats: self.tx_stats.sub(&other.tx_stats),
        }
    }

    /// Accumulate the transaction counters of `other`; the freelist snapshot
    /// fields are left as they stand.
    pub fn add_assign(&mut self, other: &Stats)
        requires
            old(self).tx_stats.page_count + other.tx_stats.page_count <= usize::MAX,
            old(self).tx_stats.page_alloc + other.tx_stats.page_alloc <= usize::MAX,
            old(self).tx_stats.cursor_count + other.tx_stats.cursor_count <= usize::MAX,
            old(self).tx_stats.node_count + other.tx_stats.node_count <= usize::MAX,
            old(self).tx_stats.node_deref + other.tx_stats.node_deref <= usize::MAX,
            old(self).tx_stats.rebalance + other.tx_stats.rebalance <= usize::MAX,
            old(self).tx_stats.split + other.tx_stats.split <= usize::MAX,
            old(self).tx_stats.spill + other.tx_stats.spill <= usize::MAX,
            old(self).tx_stats.write + other.tx_stats.write <= usize::MAX,
        ensures
            final(self).free_page_n == old(self).free_page_n,
            final(self).pending_page_n == old(self).pending_page_n,
            final(self).free_alloc == old(self).free_alloc,
            final(self).freelist_in_use == old(self).freelist_in_use,
            final(self).tx_n == old(self).tx_n,
            final(self).open_tx_n == old(self).open_tx_n,
            final(self).tx_stats.page_count == old(self).tx_stats.page_count
                + other.tx_stats.page_count,
            final(self).tx_stats.page_alloc == old(self).tx_stats.page_alloc
                + other.tx_stats.page_alloc,
            final(self).tx_stats.cursor_count == old(self).tx_stats.cursor_count
                + other.tx_stats.cursor_count,
            final(self).tx_stats.node_count == old(self).tx_stats.node_count
                + other.tx_stats.node_count,
            final(self).tx_stats.node_deref == old(self).tx_stats.node_deref
                + other.tx_stats.node_deref,
            final(self).tx_stats.rebalance == old(self).tx_stats.rebalance
                + other.tx_stats.rebalance,
            final(self).tx_stats.split == old(self).tx_stats.split + other.tx_stats.split,
            final(self).tx_stats.spill == old(self).tx_stats.spill + other.tx_stats.spill,
            final(self).tx_stats.write == old(self).tx_stats.write + other.tx_stats.write,
    {
        self.tx_stats.add_assign(&other.tx_stats);
    }
}

} // verus!
