//! The fixed-size unit of disk I/O: its header layout, type flags and size
//! arithmetic. All integers on disk are little-endian.
use vstd::prelude::*;

verus! {

/// Page holds branch elements.
pub const FLAG_BRANCHES: u16 = 0x01;

/// Page holds leaf elements.
pub const FLAG_LEAVES: u16 = 0x02;

/// Page is one of the two meta pages.
pub const FLAG_META: u16 = 0x04;

/// Page holds the serialized freelist.
pub const FLAG_FREELIST: u16 = 0x10;

/// Bytes of the page header: id, flags, count, overflow.
pub const PAGE_HEADER_SIZE: usize = 16;

/// Bytes of one branch element header and of one leaf element header.
pub const ELEMENT_SIZE: usize = 16;

/// The printable name of a page type, or nothing for a flag combination
/// that no page carries.
pub fn flags_name(flags: u16) -> (r: Option<&'static str>)
    ensures
        flags == FLAG_BRANCHES ==> r is Some && r->Some_0@ =~= "branches"@,
        flags == FLAG_LEAVES ==> r is Some && r->Some_0@ =~= "leaves"@,
        flags == FLAG_META ==> r is Some && r->Some_0@ =~= "meta"@,
        flags == FLAG_FREELIST ==> r is Some && r->Some_0@ =~= "freelist"@,
        flags != FLAG_BRANCHES && flags != FLAG_LEAVES && flags != FLAG_META && flags
            != FLAG_FREELIST ==> r is None,
{
    if flags == FLAG_BRANCHES {
        Some("branches")
    } else if flags == FLAG_LEAVES {
        Some("leaves")
    } else if flags == FLAG_META {
        Some("meta")
    } else if flags == FLAG_FREELIST {
        Some("freelist")
    } else {
        None
    }
}

/// The header every page starts with.
#[derive(Clone, Copy, Debug, PartialEq, Eq, Structural)]
pub struct PageHeader {
    /// the page's own id
    pub id: u64,
    /// exactly one of the page type flags
    pub flags: u16,
    /// number of elements in the payload
    pub count: u16,
    /// extra contiguous pages this record spills into
    pub overflow: u32,
}

/// The sixteen header bytes, little-endian field by field.
pub open spec fn spec_header_bytes(h: PageHeader) -> Seq<u8> {
    seq![
        (h.id & 0xff) as u8,
        ((h.id >> 8) & 0xff) as u8,
        ((h.id >> 16) & 0xff) as u8,
        ((h.id >> 24) & 0xff) as u8,
        ((h.id >> 32) & 0xff) as u8,
        ((h.id >> 40) & 0xff) as u8,
        ((h.id >> 48) & 0xff) as u8,
        ((h.id >> 56) & 0xff) as u8,
        (h.flags & 0xff) as u8,
        ((h.flags >> 8) & 0xff) as u8,
        (h.count & 0xff) as u8,
        ((h.count >> 8) & 0xff) as u8,
        (h.overflow & 0xff) as u8,
        ((h.overflow >> 8) & 0xff) as u8,
        ((h.overflow >> 16) & 0xff) as u8,
        ((h.overflow >> 24) & 0xff) as u8,
    ]
}

/// The header read back from the first sixteen bytes.
pub open spec fn spec_decode_header(b: Seq<u8>) -> PageHeader {
    PageHeader {
        id: (b[0] as u64) | (b[1] as u64) << 8 | (b[2] as u64) << 16 | (b[3] as u64) << 24 | (
        b[4] as u64) << 32 | (b[5] as u64) << 40 | (b[6] as u64) << 48 | (b[7] as u64) << 56,
        flags: (b[8] as u16) | (b[9] as u16) << 8,
        count: (b[10] as u16) | (b[11] as u16) << 8,
        overflow: (b[12] as u32) | (b[13] as u32) << 8 | (b[14] as u32) << 16 | (b[15] as u32)
            << 24,
    }
}

/// Serialize a header to its sixteen on-disk bytes.
pub fn encode_header(h: &PageHeader) -> (r: Vec<u8>)
    ensures
        r@ =~= spec_header_bytes(*h),
        r@.len() == PAGE_HEADER_SIZE,
{
    let mut r: Vec<u8> = Vec::new();
    r.push((h.id & 0xff) as u8);
    r.push(((h.id >> 8) & 0xff) as u8);
    r.push(((h.id >> 16) & 0xff) as u8);
    r.push(((h.id >> 24) & 0xff) as u8);
    r.push(((h.id >> 32) & 0xff) as u8);
    r.push(((h.id >> 40) & 0xff) as u8);
    r.push(((h.id >> 48) & 0xff) as u8);
    r.push(((h.id >> 56) & 0xff) as u8);
    r.push((h.flags & 0xff) as u8);
    r.push(((h.flags >> 8) & 0xff) as u8);
    r.push((h.count & 0xff) as u8);
    r.push(((h.count >> 8) & 0xff) as u8);
    r.push((h.overflow & 0xff) as u8);
    r.push(((h.overflow >> 8) & 0xff) as u8);
    r.push(((h.overflow >> 16) & 0xff) as u8);
    r.push(((h.overflow >> 24) & 0xff) as u8);
    r
}

/// Read a header back from the first sixteen bytes of a page.
pub fn decode_header(b: &[u8]) -> (r: PageHeader)
    requires
        b@.len() >= PAGE_HEADER_SIZE,
    ensures
        r == spec_decode_header(b@),
{
    PageHeader {
        id: (b[0] as u64) | (b[1] as u64) << 8 | (b[2] as u64) << 16 | (b[3] as u64) << 24 | (
        b[4] as u64) << 32 | (b[5] as u64) << 40 | (b[6] as u64) << 48 | (b[7] as u64) << 56,
        flags: (b[8] as u16) | (b[9] as u16) << 8,
        count: (b[10] as u16) | (b[11] as u16) << 8,
        overflow: (b[12] as u32) | (b[13] as u32) << 8 | (b[14] as u32) << 16 | (b[15] as u32)
            << 24,
    }
}

/// Serialization round-trips: decoding the encoded header gives the header
/// back, field for field.
pub proof fn lemma_header_roundtrip(h: PageHeader)
    ensures
        spec_decode_header(spec_header_bytes(h)) == h,
{
    let b = spec_header_bytes(h);
    let d = spec_decode_header(b);
    let id = h.id;
    assert(((id & 0xff) as u8 as u64) | (((id >> 8) & 0xff) as u8 as u64) << 8 | (((id >> 16)
        & 0xff) as u8 as u64) << 16 | (((id >> 24) & 0xff) as u8 as u64) << 24 | (((id >> 32)
        & 0xff) as u8 as u64) << 32 | (((id >> 40) & 0xff) as u8 as u64) << 40 | (((id >> 48)
        & 0xff) as u8 as u64) << 48 | (((id >> 56) & 0xff) as u8 as u64) << 56 == id)
        by (bit_vector);
    let fl = h.flags;
    assert(((fl & 0xff) as u8 as u16) | (((fl >> 8) & 0xff) as u8 as u16) << 8 == fl)
        by (bit_vector);
    let ct = h.count;
    assert(((ct & 0xff) as u8 as u16) | (((ct >> 8) & 0xff) as u8 as u16) << 8 == ct)
        by (bit_vector);
    let ov = h.overflow;
    assert(((ov & 0xff) as u8 as u32) | (((ov >> 8) & 0xff) as u8 as u32) << 8 | (((ov >> 16)
        & 0xff) as u8 as u32) << 16 | (((ov >> 24) & 0xff) as u8 as u32) << 24 == ov)
        by (bit_vector);
}

/// The 64-bit little-endian integer starting at byte `off`.
pub open spec fn spec_u64_at(b: Seq<u8>, off: int) -> u64 {
    (b[off] as u64) | (b[off + 1] as u64) << 8 | (b[off + 2] as u64) << 16 | (b[off + 3] as u64)
        << 24 | (b[off + 4] as u64) << 32 | (b[off + 5] as u64) << 40 | (b[off + 6] as u64) << 48
        | (b[off + 7] as u64) << 56
}

/// Read a 64-bit little-endian integer out of a page's bytes.
pub fn u64_at(b: &[u8], off: usize) -> (r: u64)
    requires
        off + 8 <= b@.len(),
    ensures
        r == spec_u64_at(b@, off as int),
{
    (b[off] as u64) | (b[off + 1] as u64) << 8 | (b[off + 2] as u64) << 16 | (b[off + 3] as u64)
        << 24 | (b[off + 4] as u64) << 32 | (b[off + 5] as u64) << 40 | (b[off + 6] as u64) << 48
        | (b[off + 7] as u64) << 56
}

/// The 32-bit little-endian integer starting at byte `off`.
pub open spec fn spec_u32_at(b: Seq<u8>, off: int) -> u32 {
    (b[off] as u32) | (b[off + 1] as u32) << 8 | (b[off + 2] as u32) << 16 | (b[off + 3] as u32)
        << 24
}

/// Read a 32-bit little-endian integer out of a page's bytes.
pub fn u32_at(b: &[u8], off: usize) -> (r: u32)
    requires
        off + 4 <= b@.len(),
    ensures
        r == spec_u32_at(b@, off as int),
{
    (b[off] as u32) | (b[off + 1] as u32) << 8 | (b[off + 2] as u32) << 16 | (b[off + 3] as u32)
        << 24
}

/// Bytes a page record occupies: the page itself plus its overflow pages.
pub fn page_span(overflow: u32, page_size: u32) -> (r: u64)
    ensures
        r == (overflow + 1) as u64 * page_size as u64,
{
    proof {
        assert((overflow as int + 1) * (page_size as int) <= 0x1_0000_0000 * 0xffff_ffff)
            by (nonlinear_arith)
            requires
                overflow as int + 1 <= 0x1_0000_0000,
                0 <= page_size as int <= 0xffff_ffff,
        ;
    }
    (overflow as u64 + 1) * (page_size as u64)
}

/// Byte offset at which a page starts in the file.
pub fn page_offset(id: u64, page_size: u32) -> (r: Option<u64>)
    ensures
        id * page_size <= u64::MAX ==> r is Some && r->Some_0 == id * page_size,
        id * page_size > u64::MAX ==> r is None,
{
    id.checked_mul(page_size as u64)
}

} // verus!
