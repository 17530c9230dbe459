//! The root-of-world record. Two meta pages exist, written alternately; at
//! open the one with the higher valid transaction id wins, which is what
//! makes a torn commit harmless.
use vstd::prelude::*;

use crate::errors::Error;
use crate::{MAGIC, VERSION};

verus! {

/// FNV-1a 64-bit offset basis.
pub const FNV_OFFSET: u64 = 0xcbf2_9ce4_8422_2325;

/// FNV-1a 64-bit prime.
pub const FNV_PRIME: u64 = 0x0000_0100_0000_01b3;

/// One FNV-1a step: fold one byte into the running hash.
pub open spec fn spec_fnv_step(h: u64, b: u8) -> u64 {
    ((((h ^ (b as u64)) as int) * (FNV_PRIME as int)) % 0x1_0000_0000_0000_0000) as u64
}

/// Fold the eight little-endian bytes of `v` into the running hash.
pub open spec fn spec_fnv_u64(h: u64, v: u64) -> u64 {
    let h0 = spec_fnv_step(h, (v & 0xff) as u8);
    let h1 = spec_fnv_step(h0, ((v >> 8) & 0xff) as u8);
    let h2 = spec_fnv_step(h1, ((v >> 16) & 0xff) as u8);
    let h3 = spec_fnv_step(h2, ((v >> 24) & 0xff) as u8);
    let h4 = spec_fnv_step(h3, ((v >> 32) & 0xff) as u8);
    let h5 = spec_fnv_step(h4, ((v >> 40) & 0xff) as u8);
    let h6 = spec_fnv_step(h5, ((v >> 48) & 0xff) as u8);
    spec_fnv_step(h6, ((v >> 56) & 0xff) as u8)
}

/// One FNV-1a step, executable.
fn fnv_step(h: u64, b: u8) -> (r: u64)
    ensures
        r == spec_fnv_step(h, b),
{
    let x = h ^ (b as u64);
    let wide = (x as u128) * (FNV_PRIME as u128);
    let r = (wide & 0xffff_ffff_ffff_ffff) as u64;
    proof {
        assert(wide == (x as int) * (FNV_PRIME as int));
        assert(wide & 0xffff_ffff_ffff_ffff == wide % 0x1_0000_0000_0000_0000) by (bit_vector);
    }
    r
}

/// Fold one 64-bit field into the running hash, executable.
fn fnv_u64(h: u64, v: u64) -> (r: u64)
    ensures
        r == spec_fnv_u64(h, v),
{
    let h0 = fnv_step(h, (v & 0xff) as u8);
    let h1 = fnv_step(h0, ((v >> 8) & 0xff) as u8);
    let h2 = fnv_step(h1, ((v >> 16) & 0xff) as u8);
    let h3 = fnv_step(h2, ((v >> 24) & 0xff) as u8);
    let h4 = fnv_step(h3, ((v >> 32) & 0xff) as u8);
    let h5 = fnv_step(h4, ((v >> 40) & 0xff) as u8);
    let h6 = fnv_step(h5, ((v >> 48) & 0xff) as u8);
    fnv_step(h6, ((v >> 56) & 0xff) as u8)
}

/// The root-of-world record held by each of the two meta pages.
#[derive(Clone, Copy, Debug, PartialEq, Eq, Structural)]
pub struct Meta {
    /// identifies the file as a database
    pub magic: u32,
    /// on-disk format version
    pub version: u32,
    /// page size the file was created with
    pub page_size: u32,
    /// reserved flag bits
    pub flags: u32,
    /// page id of the root bucket's tree
    pub root_pgid: u64,
    /// the root bucket's sequence counter
    pub sequence: u64,
    /// page id of the serialized freelist
    pub freelist_pgid: u64,
    /// one past the highest page id in use
    pub high_water_pgid: u64,
    /// transaction that wrote this meta
    pub txid: u64,
    /// FNV-1a over every field above, in order
    pub checksum: u64,
}

impl Meta {
    /// The checksum the fields call for: FNV-1a over every field but the
    /// checksum slot itself, in declaration order.
    pub open spec fn spec_sum(self) -> u64 {
        let h0 = spec_fnv_u64(FNV_OFFSET, self.magic as u64);
        let h1 = spec_fnv_u64(h0, self.version as u64);
        let h2 = spec_fnv_u64(h1, self.page_size as u64);
        let h3 = spec_fnv_u64(h2, self.flags as u64);
        let h4 = spec_fnv_u64(h3, self.root_pgid);
        let h5 = spec_fnv_u64(h4, self.sequence);
        let h6 = spec_fnv_u64(h5, self.freelist_pgid);
        let h7 = spec_fnv_u64(h6, self.high_water_pgid);
        spec_fnv_u64(h7, self.txid)
    }

    /// Compute the checksum of the fields as they stand.
    pub fn sum(&self) -> (r: u64)
        ensures
            r == self.spec_sum(),
    {
        let h0 = fnv_u64(FNV_OFFSET, self.magic as u64);
        let h1 = fnv_u64(h0, self.version as u64);
        let h2 = fnv_u64(h1, self.page_size as u64);
        let h3 = fnv_u64(h2, self.flags as u64);
        let h4 = fnv_u64(h3, self.root_pgid);
        let h5 = fnv_u64(h4, self.sequence);
        let h6 = fnv_u64(h5, self.freelist_pgid);
        let h7 = fnv_u64(h6, self.high_water_pgid);
        fnv_u64(h7, self.txid)
    }

    /// A meta record is valid when it carries the magic, the supported
    /// version, and a checksum that matches its fields.
    pub open spec fn spec_valid(self) -> bool {
        self.magic == MAGIC && self.version == VERSION && self.checksum == self.spec_sum()
    }

    /// Check the record as the open path does. Magic is checked first, then
    /// the version, then the checksum; the first failure names the error.
    pub fn validate(&self) -> (r: Result<(), Error>)
        ensures
            r is Ok <==> self.spec_valid(),
            self.magic != MAGIC ==> r == Err::<(), Error>(Error::Invalid),
            self.magic == MAGIC && self.version != VERSION ==> r == Err::<(), Error>(
                Error::VersionMismatch,
            ),
            self.magic == MAGIC && self.version == VERSION && self.checksum != self.spec_sum()
                ==> r == Err::<(), Error>(Error::Checksum),
    {
        if self.magic != MAGIC {
            Err(Error::Invalid)
        } else if self.version != VERSION {
            Err(Error::VersionMismatch)
        } else if self.checksum != self.sum() {
            Err(Error::Checksum)
        } else {
            Ok(())
        }
    }

    /// Stamp the record with the transaction writing it and recompute the
    /// checksum, as the commit path does before the meta page goes to disk.
    pub fn write_for(&mut self, txid: u64)
        ensures
            final(self).magic == old(self).magic,
            final(self).version == old(self).version,
            final(self).page_size == old(self).page_size,
            final(self).flags == old(self).flags,
            final(self).root_pgid == old(self).root_pgid,
            final(self).sequence == old(self).sequence,
            final(self).freelist_pgid == old(self).freelist_pgid,
            final(self).high_water_pgid == old(self).high_water_pgid,
            final(self).txid == txid,
            final(self).checksum == final(self).spec_sum(),
            final(self).spec_valid() <==> old(self).magic == MAGIC && old(self).version == VERSION,
    {
        self.txid = txid;
        self.checksum = self.sum();
    }
}

/// Choose the live meta out of the two slots, as the open path does: the
/// higher valid transaction id wins; on a tie the first slot wins; when
/// neither validates the file is not a usable database.
pub fn pick_meta(m0: &Meta, m1: &Meta) -> (r: Result<Meta, Error>)
    ensures
        !m0.spec_valid() && !m1.spec_valid() ==> r == Err::<Meta, Error>(Error::Invalid),
        m0.spec_valid() && !m1.spec_valid() ==> r == Ok::<Meta, Error>(*m0),
        !m0.spec_valid() && m1.spec_valid() ==> r == Ok::<Meta, Error>(*m1),
        m0.spec_valid() && m1.spec_valid() ==> r == Ok::<Meta, Error>(
            if m1.txid > m0.txid {
                *m1
            } else {
                *m0
            },
        ),
{
    let v0 = m0.validate().is_ok();
    let v1 = m1.validate().is_ok();
    if !v0 && !v1 {
        Err(Error::Invalid)
    } else if v0 && !v1 {
        Ok(*m0)
    } else if !v0 && v1 {
        Ok(*m1)
    } else if m1.txid > m0.txid {
        Ok(*m1)
    } else {
        Ok(*m0)
    }
}


/// The sixty-four on-disk bytes of a meta record, little-endian field by
/// field in declaration order.
pub open spec fn spec_meta_bytes(m: Meta) -> Seq<u8> {
    seq![
        (m.magic & 0xff) as u8,
        ((m.magic >> 8) & 0xff) as u8,
        ((m.magic >> 16) & 0xff) as u8,
        ((m.magic >> 24) & 0xff) as u8,
        (m.version & 0xff) as u8,
        ((m.version >> 8) & 0xff) as u8,
        ((m.version >> 16) & 0xff) as u8,
        ((m.version >> 24) & 0xff) as u8,
        (m.page_size & 0xff) as u8,
        ((m.page_size >> 8) & 0xff) as u8,
        ((m.page_size >> 16) & 0xff) as u8,
        ((m.page_size >> 24) & 0xff) as u8,
        (m.flags & 0xff) as u8,
        ((m.flags >> 8) & 0xff) as u8,
        ((m.flags >> 16) & 0xff) as u8,
        ((m.flags >> 24) & 0xff) as u8,
        (m.root_pgid & 0xff) as u8,
        ((m.root_pgid >> 8) & 0xff) as u8,
        ((m.root_pgid >> 16) & 0xff) as u8,
        ((m.root_pgid >> 24) & 0xff) as u8,
        ((m.root_pgid >> 32) & 0xff) as u8,
        ((m.root_pgid >> 40) & 0xff) as u8,
        ((m.root_pgid >> 48) & 0xff) as u8,
        ((m.root_pgid >> 56) & 0xff) as u8,
        (m.sequence & 0xff) as u8,
        ((m.sequence >> 8) & 0xff) as u8,
        ((m.sequence >> 16) & 0xff) as u8,
        ((m.sequence >> 24) & 0xff) as u8,
        ((m.sequence >> 32) & 0xff) as u8,
        ((m.sequence >> 40) & 0xff) as u8,
        ((m.sequence >> 48) & 0xff) as u8,
        ((m.sequence >> 56) & 0xff) as u8,
        (m.freelist_pgid & 0xff) as u8,
        ((m.freelist_pgid >> 8) & 0xff) as u8,
        ((m.freelist_pgid >> 16) & 0xff) as u8,
        ((m.freelist_pgid >> 24) & 0xff) as u8,
        ((m.freelist_pgid >> 32) & 0xff) as u8,
        ((m.freelist_pgid >> 40) & 0xff) as u8,
        ((m.freelist_pgid >> 48) & 0xff) as u8,
        ((m.freelist_pgid >> 56) & 0xff) as u8,
        (m.high_water_pgid & 0xff) as u8,
        ((m.high_water_pgid >> 8) & 0xff) as u8,
        ((m.high_water_pgid >> 16) & 0xff) as u8,
        ((m.high_water_pgid >> 24) & 0xff) as u8,
        ((m.high_water_pgid >> 32) & 0xff) as u8,
        ((m.high_water_pgid >> 40) & 0xff) as u8,
        ((m.high_water_pgid >> 48) & 0xff) as u8,
        ((m.high_water_pgid >> 56) & 0xff) as u8,
        (m.txid & 0xff) as u8,
        ((m.txid >> 8) & 0xff) as u8,
        ((m.txid >> 16) & 0xff) as u8,
        ((m.txid >> 24) & 0xff) as u8,
        ((m.txid >> 32) & 0xff) as u8,
        ((m.txid >> 40) & 0xff) as u8,
        ((m.txid >> 48) & 0xff) as u8,
        ((m.txid >> 56) & 0xff) as u8,
        (m.checksum & 0xff) as u8,
        ((m.checksum >> 8) & 0xff) as u8,
        ((m.checksum >> 16) & 0xff) as u8,
        ((m.checksum >> 24) & 0xff) as u8,
        ((m.checksum >> 32) & 0xff) as u8,
        ((m.checksum >> 40) & 0xff) as u8,
        ((m.checksum >> 48) & 0xff) as u8,
        ((m.checksum >> 56) & 0xff) as u8,
    ]
}

/// The meta record read back from sixty-four bytes.
pub open spec fn spec_decode_meta(b: Seq<u8>) -> Meta {
    Meta {
        magic: (b[0] as u32) | (b[1] as u32) << 8 | (b[2] as u32) << 16 | (b[3] as u32) << 24,
        version: (b[4] as u32) | (b[5] as u32) << 8 | (b[6] as u32) << 16 | (b[7] as u32) << 24,
        page_size: (b[8] as u32) | (b[9] as u32) << 8 | (b[10] as u32) << 16 | (b[11] as u32) << 24,
        flags: (b[12] as u32) | (b[13] as u32) << 8 | (b[14] as u32) << 16 | (b[15] as u32) << 24,
        root_pgid: (b[16] as u64) | (b[17] as u64) << 8 | (b[18] as u64) << 16 | (b[19] as u64) << 24 | (b[20] as u64) << 32 | (b[21] as u64) << 40 | (b[22] as u64) << 48 | (b[23] as u64) << 56,
        sequence: (b[24] as u64) | (b[25] as u64) << 8 | (b[26] as u64) << 16 | (b[27] as u64) << 24 | (b[28] as u64) << 32 | (b[29] as u64) << 40 | (b[30] as u64) << 48 | (b[31] as u64) << 56,
        freelist_pgid: (b[32] as u64) | (b[33] as u64) << 8 | (b[34] as u64) << 16 | (b[35] as u64) << 24 | (b[36] as u64) << 32 | (b[37] as u64) << 40 | (b[38] as u64) << 48 | (b[39] as u64) << 56,
        high_water_pgid: (b[40] as u64) | (b[41] as u64) << 8 | (b[42] as u64) << 16 | (b[43] as u64) << 24 | (b[44] as u64) << 32 | (b[45] as u64) << 40 | (b[46] as u64) << 48 | (b[47] as u64) << 56,
        txid: (b[48] as u64) | (b[49] as u64) << 8 | (b[50] as u64) << 16 | (b[51] as u64) << 24 | (b[52] as u64) << 32 | (b[53] as u64) << 40 | (b[54] as u64) << 48 | (b[55] as u64) << 56,
        checksum: (b[56] as u64) | (b[57] as u64) << 8 | (b[58] as u64) << 16 | (b[59] as u64) << 24 | (b[60] as u64) << 32 | (b[61] as u64) << 40 | (b[62] as u64) << 48 | (b[63] as u64) << 56,
    }
}

/// Bytes of a serialized meta record.
pub const META_SIZE: usize = 64;

/// Serialize a meta record to its on-disk bytes.
pub fn encode_meta(m: &Meta) -> (r: Vec<u8>)
    ensures
        r@ =~= spec_meta_bytes(*m),
        r@.len() == META_SIZE,
{
    let mut r: Vec<u8> = Vec::new();
    r.push((m.magic & 0xff) as u8);
    r.push(((m.magic >> 8) & 0xff) as u8);
    r.push(((m.magic >> 16) & 0xff) as u8);
    r.push(((m.magic >> 24) & 0xff) as u8);
    r.push((m.version & 0xff) as u8);
    r.push(((m.version >> 8) & 0xff) as u8);
    r.push(((m.version >> 16) & 0xff) as u8);
    r.push(((m.version >> 24) & 0xff) as u8);
    r.push((m.page_size & 0xff) as u8);
    r.push(((m.page_size >> 8) & 0xff) as u8);
    r.push(((m.page_size >> 16) & 0xff) as u8);
    r.push(((m.page_size >> 24) & 0xff) as u8);
    r.push((m.flags & 0xff) as u8);
    r.push(((m.flags >> 8) & 0xff) as u8);
    r.push(((m.flags >> 16) & 0xff) as u8);
    r.push(((m.flags >> 24) & 0xff) as u8);
    r.push((m.root_pgid & 0xff) as u8);
    r.push(((m.root_pgid >> 8) & 0xff) as u8);
    r.push(((m.root_pgid >> 16) & 0xff) as u8);
    r.push(((m.root_pgid >> 24) & 0xff) as u8);
    r.push(((m.root_pgid >> 32) & 0xff) as u8);
    r.push(((m.root_pgid >> 40) & 0xff) as u8);
    r.push(((m.root_pgid >> 48) & 0xff) as u8);
    r.push(((m.root_pgid >> 56) & 0xff) as u8);
    r.push((m.sequence & 0xff) as u8);
    r.push(((m.sequence >> 8) & 0xff) as u8);
    r.push(((m.sequence >> 16) & 0xff) as u8);
    r.push(((m.sequence >> 24) & 0xff) as u8);
    r.push(((m.sequence >> 32) & 0xff) as u8);
    r.push(((m.sequence >> 40) & 0xff) as u8);
    r.push(((m.sequence >> 48) & 0xff) as u8);
    r.push(((m.sequence >> 56) & 0xff) as u8);
    r.push((m.freelist_pgid & 0xff) as u8);
    r.push(((m.freelist_pgid >> 8) & 0xff) as u8);
    r.push(((m.freelist_pgid >> 16) & 0xff) as u8);
    r.push(((m.freelist_pgid >> 24) & 0xff) as u8);
    r.push(((m.freelist_pgid >> 32) & 0xff) as u8);
    r.push(((m.freelist_pgid >> 40) & 0xff) as u8);
    r.push(((m.freelist_pgid >> 48) & 0xff) as u8);
    r.push(((m.freelist_pgid >> 56) & 0xff) as u8);
    r.push((m.high_water_pgid & 0xff) as u8);
    r.push(((m.high_water_pgid >> 8) & 0xff) as u8);
    r.push(((m.high_water_pgid >> 16) & 0xff) as u8);
    r.push(((m.high_water_pgid >> 24) & 0xff) as u8);
    r.push(((m.high_water_pgid >> 32) & 0xff) as u8);
    r.push(((m.high_water_pgid >> 40) & 0xff) as u8);
    r.push(((m.high_water_pgid >> 48) & 0xff) as u8);
    r.push(((m.high_water_pgid >> 56) & 0xff) as u8);
    r.push((m.txid & 0xff) as u8);
    r.push(((m.txid >> 8) & 0xff) as u8);
    r.push(((m.txid >> 16) & 0xff) as u8);
    r.push(((m.txid >> 24) & 0xff) as u8);
    r.push(((m.txid >> 32) & 0xff) as u8);
    r.push(((m.txid >> 40) & 0xff) as u8);
    r.push(((m.txid >> 48) & 0xff) as u8);
    r.push(((m.txid >> 56) & 0xff) as u8);
    r.push((m.checksum & 0xff) as u8);
    r.push(((m.checksum >> 8) & 0xff) as u8);
    r.push(((m.checksum >> 16) & 0xff) as u8);
    r.push(((m.checksum >> 24) & 0xff) as u8);
    r.push(((m.checksum >> 32) & 0xff) as u8);
    r.push(((m.checksum >> 40) & 0xff) as u8);
    r.push(((m.checksum >> 48) & 0xff) as u8);
    r.push(((m.checksum >> 56) & 0xff) as u8);
    r
}

/// Read a meta record back from the first sixty-four bytes of a meta
/// page's payload.
pub fn decode_meta(b: &[u8]) -> (r: Meta)
    requires
        b@.len() >= META_SIZE,
    ensures
        r == spec_decode_meta(b@),
{
    Meta {
        magic: (b[0] as u32) | (b[1] as u32) << 8 | (b[2] as u32) << 16 | (b[3] as u32) << 24,
        version: (b[4] as u32) | (b[5] as u32) << 8 | (b[6] as u32) << 16 | (b[7] as u32) << 24,
        page_size: (b[8] as u32) | (b[9] as u32) << 8 | (b[10] as u32) << 16 | (b[11] as u32) << 24,
        flags: (b[12] as u32) | (b[13] as u32) << 8 | (b[14] as u32) << 16 | (b[15] as u32) << 24,
        root_pgid: (b[16] as u64) | (b[17] as u64) << 8 | (b[18] as u64) << 16 | (b[19] as u64) << 24 | (b[20] as u64) << 32 | (b[21] as u64) << 40 | (b[22] as u64) << 48 | (b[23] as u64) << 56,
        sequence: (b[24] as u64) | (b[25] as u64) << 8 | (b[26] as u64) << 16 | (b[27] as u64) << 24 | (b[28] as u64) << 32 | (b[29] as u64) << 40 | (b[30] as u64) << 48 | (b[31] as u64) << 56,
        freelist_pgid: (b[32] as u64) | (b[33] as u64) << 8 | (b[34] as u64) << 16 | (b[35] as u64) << 24 | (b[36] as u64) << 32 | (b[37] as u64) << 40 | (b[38] as u64) << 48 | (b[39] as u64) << 56,
        high_water_pgid: (b[40] as u64) | (b[41] as u64) << 8 | (b[42] as u64) << 16 | (b[43] as u64) << 24 | (b[44] as u64) << 32 | (b[45] as u64) << 40 | (b[46] as u64) << 48 | (b[47] as u64) << 56,
        txid: (b[48] as u64) | (b[49] as u64) << 8 | (b[50] as u64) << 16 | (b[51] as u64) << 24 | (b[52] as u64) << 32 | (b[53] as u64) << 40 | (b[54] as u64) << 48 | (b[55] as u64) << 56,
        checksum: (b[56] as u64) | (b[57] as u64) << 8 | (b[58] as u64) << 16 | (b[59] as u64) << 24 | (b[60] as u64) << 32 | (b[61] as u64) << 40 | (b[62] as u64) << 48 | (b[63] as u64) << 56,
    }
}

/// A meta record round-trips through its on-disk bytes, field for field.
pub proof fn lemma_meta_roundtrip(m: Meta)
    ensures
        spec_decode_meta(spec_meta_bytes(m)) == m,
{
    let v_magic = m.magic;
    assert(((v_magic & 0xff) as u8 as u32) | (((v_magic >> 8) & 0xff) as u8 as u32) << 8 | (((v_magic >> 16) & 0xff) as u8 as u32) << 16 | (((v_magic >> 24) & 0xff) as u8 as u32) << 24 == v_magic) by (bit_vector);
    let v_version = m.version;
    assert(((v_version & 0xff) as u8 as u32) | (((v_version >> 8) & 0xff) as u8 as u32) << 8 | (((v_version >> 16) & 0xff) as u8 as u32) << 16 | (((v_version >> 24) & 0xff) as u8 as u32) << 24 == v_version) by (bit_vector);
    let v_page_size = m.page_size;
    assert(((v_page_size & 0xff) as u8 as u32) | (((v_page_size >> 8) & 0xff) as u8 as u32) << 8 | (((v_page_size >> 16) & 0xff) as u8 as u32) << 16 | (((v_page_size >> 24) & 0xff) as u8 as u32) << 24 == v_page_size) by (bit_vector);
    let v_flags = m.flags;
    assert(((v_flags & 0xff) as u8 as u32) | (((v_flags >> 8) & 0xff) as u8 as u32) << 8 | (((v_flags >> 16) & 0xff) as u8 as u32) << 16 | (((v_flags >> 24) & 0xff) as u8 as u32) << 24 == v_flags) by (bit_vector);
    let v_root_pgid = m.root_pgid;
    assert(((v_root_pgid & 0xff) as u8 as u64) | (((v_root_pgid >> 8) & 0xff) as u8 as u64) << 8 | (((v_root_pgid >> 16) & 0xff) as u8 as u64) << 16 | (((v_root_pgid >> 24) & 0xff) as u8 as u64) << 24 | (((v_root_pgid >> 32) & 0xff) as u8 as u64) << 32 | (((v_root_pgid >> 40) & 0xff) as u8 as u64) << 40 | (((v_root_pgid >> 48) & 0xff) as u8 as u64) << 48 | (((v_root_pgid >> 56) & 0xff) as u8 as u64) << 56 == v_root_pgid) by (bit_vector);
    let v_sequence = m.sequence;
    assert(((v_sequence & 0xff) as u8 as u64) | (((v_sequence >> 8) & 0xff) as u8 as u64) << 8 | (((v_sequence >> 16) & 0xff) as u8 as u64) << 16 | (((v_sequence >> 24) & 0xff) as u8 as u64) << 24 | (((v_sequence >> 32) & 0xff) as u8 as u64) << 32 | (((v_sequence >> 40) & 0xff) as u8 as u64) << 40 | (((v_sequence >> 48) & 0xff) as u8 as u64) << 48 | (((v_sequence >> 56) & 0xff) as u8 as u64) << 56 == v_sequence) by (bit_vector);
    let v_freelist_pgid = m.freelist_pgid;
    assert(((v_freelist_pgid & 0xff) as u8 as u64) | (((v_freelist_pgid >> 8) & 0xff) as u8 as u64) << 8 | (((v_freelist_pgid >> 16) & 0xff) as u8 as u64) << 16 | (((v_freelist_pgid >> 24) & 0xff) as u8 as u64) << 24 | (((v_freelist_pgid >> 32) & 0xff) as u8 as u64) << 32 | (((v_freelist_pgid >> 40) & 0xff) as u8 as u64) << 40 | (((v_freelist_pgid >> 48) & 0xff) as u8 as u64) << 48 | (((v_freelist_pgid >> 56) & 0xff) as u8 as u64) << 56 == v_freelist_pgid) by (bit_vector);
    let v_high_water_pgid = m.high_water_pgid;
    assert(((v_high_water_pgid & 0xff) as u8 as u64) | (((v_high_water_pgid >> 8) & 0xff) as u8 as u64) << 8 | (((v_high_water_pgid >> 16) & 0xff) as u8 as u64) << 16 | (((v_high_water_pgid >> 24) & 0xff) as u8 as u64) << 24 | (((v_high_water_pgid >> 32) & 0xff) as u8 as u64) << 32 | (((v_high_water_pgid >> 40) & 0xff) as u8 as u64) << 40 | (((v_high_water_pgid >> 48) & 0xff) as u8 as u64) << 48 | (((v_high_water_pgid >> 56) & 0xff) as u8 as u64) << 56 == v_high_water_pgid) by (bit_vector);
    let v_txid = m.txid;
    assert(((v_txid & 0xff) as u8 as u64) | (((v_txid >> 8) & 0xff) as u8 as u64) << 8 | (((v_txid >> 16) & 0xff) as u8 as u64) << 16 | (((v_txid >> 24) & 0xff) as u8 as u64) << 24 | (((v_txid >> 32) & 0xff) as u8 as u64) << 32 | (((v_txid >> 40) & 0xff) as u8 as u64) << 40 | (((v_txid >> 48) & 0xff) as u8 as u64) << 48 | (((v_txid >> 56) & 0xff) as u8 as u64) << 56 == v_txid) by (bit_vector);
    let v_checksum = m.checksum;
    assert(((v_checksum & 0xff) as u8 as u64) | (((v_checksum >> 8) & 0xff) as u8 as u64) << 8 | (((v_checksum >> 16) & 0xff) as u8 as u64) << 16 | (((v_checksum >> 24) & 0xff) as u8 as u64) << 24 | (((v_checksum >> 32) & 0xff) as u8 as u64) << 32 | (((v_checksum >> 40) & 0xff) as u8 as u64) << 40 | (((v_checksum >> 48) & 0xff) as u8 as u64) << 48 | (((v_checksum >> 56) & 0xff) as u8 as u64) << 56 == v_checksum) by (bit_vector);
}

} // verus!
