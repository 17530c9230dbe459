//! The file-level open protocol: what a fresh database file holds. A new
//! file gets four pages: the two meta slots, an empty freelist on page two,
//! and an empty leaf as the root bucket on page three.
use vstd::prelude::*;

use crate::meta::{lemma_meta_roundtrip, spec_decode_meta, spec_meta_bytes, Meta};
use crate::page::{
    encode_header, lemma_header_roundtrip, spec_decode_header, spec_header_bytes, PageHeader,
    FLAG_FREELIST, FLAG_LEAVES, FLAG_META, PAGE_HEADER_SIZE,
};
use crate::{MAGIC, VERSION};

verus! {

/// A run of zero bytes.
fn zeros(n: usize) -> (r: Vec<u8>)
    ensures
        r@.len() == n,
        forall|i: int| 0 <= i < n ==> r@[i] == 0,
{
    let mut r: Vec<u8> = Vec::new();
    let mut i: usize = 0;
    while i < n
        invariant
            i <= n,
            r@.len() == i,
            forall|j: int| 0 <= j < i ==> r@[j] == 0,
        decreases n - i,
    {
        r.push(0);
        i = i + 1;
    }
    r
}

/// One page's bytes: its header, its payload, zero padding to the page
/// size.
fn build_page(h: &PageHeader, payload: &Vec<u8>, page_size: usize) -> (r: Vec<u8>)
    requires
        PAGE_HEADER_SIZE + payload@.len() <= page_size,
    ensures
        r@.len() == page_size,
        r@.subrange(0, PAGE_HEADER_SIZE as int) =~= spec_header_bytes(*h),
        r@.subrange(PAGE_HEADER_SIZE as int, PAGE_HEADER_SIZE + payload@.len()) =~= payload@,
        forall|i: int| PAGE_HEADER_SIZE + payload@.len() <= i < page_size ==> r@[i] == 0,
{
    let mut r = encode_header(h);
    let mut i: usize = 0;
    while i < payload.len()
        invariant
            i <= payload@.len(),
            r@ == spec_header_bytes(*h) + payload@.take(i as int),
        decreases payload@.len() - i,
    {
        r.push(payload[i]);
        proof {
            assert(spec_header_bytes(*h) + payload@.take(i + 1) =~= (spec_header_bytes(*h)
                + payload@.take(i as int)).push(payload@[i as int]));
        }
        i = i + 1;
    }
    proof {
        assert(payload@.take(payload@.len() as int) =~= payload@);
    }
    let mut pad = zeros(page_size - PAGE_HEADER_SIZE - payload.len());
    r.append(&mut pad);
    proof {
        assert(r@.subrange(0, PAGE_HEADER_SIZE as int) =~= spec_header_bytes(*h));
        assert(r@.subrange(PAGE_HEADER_SIZE as int, PAGE_HEADER_SIZE + payload@.len())
            =~= payload@);
    }
    r
}

/// The meta record a fresh file starts from, before it is stamped.
fn fresh_meta(page_size: u32) -> (r: Meta)
    ensures
        r.magic == MAGIC,
        r.version == VERSION,
        r.page_size == page_size,
        r.flags == 0,
        r.root_pgid == 3,
        r.sequence == 0,
        r.freelist_pgid == 2,
        r.high_water_pgid == 4,
{
    Meta {
        magic: MAGIC,
        version: VERSION,
        page_size,
        flags: 0,
        root_pgid: 3,
        sequence: 0,
        freelist_pgid: 2,
        high_water_pgid: 4,
        txid: 0,
        checksum: 0,
    }
}

/// The four-page image a new database file is initialized with: meta slots
/// zero and one, stamped with transactions zero and one and both valid; an
/// empty freelist on page two; an empty leaf root bucket on page three.
#[verifier::rlimit(100)]
pub fn init_file(page_size: u32) -> (r: Vec<u8>)
    requires
        128 <= page_size <= 0x100_0000,
    ensures
        r@.len() == 4 * page_size,
        ({
            let m0 = spec_decode_meta(r@.subrange(16, 80));
            m0.spec_valid() && m0.txid == 0 && m0.page_size == page_size && m0.freelist_pgid == 2
                && m0.root_pgid == 3 && m0.high_water_pgid == 4
        }),
        ({
            let m1 = spec_decode_meta(
                r@.subrange(page_size + 16, page_size + 80),
            );
            m1.spec_valid() && m1.txid == 1 && m1.page_size == page_size && m1.freelist_pgid == 2
                && m1.root_pgid == 3 && m1.high_water_pgid == 4
        }),
        ({
            let h2 = spec_decode_header(r@.subrange(2 * page_size, 2 * page_size + 16));
            h2.id == 2 && h2.flags == FLAG_FREELIST && h2.count == 0 && h2.overflow == 0
        }),
        ({
            let h3 = spec_decode_header(r@.subrange(3 * page_size, 3 * page_size + 16));
            h3.id == 3 && h3.flags == FLAG_LEAVES && h3.count == 0 && h3.overflow == 0
        }),
        ({
            let h0 = spec_decode_header(r@.subrange(0, 16));
            h0.id == 0 && h0.flags == FLAG_META && h0.count == 0 && h0.overflow == 0
        }),
        ({
            let h1 = spec_decode_header(r@.subrange(page_size as int, page_size + 16));
            h1.id == 1 && h1.flags == FLAG_META && h1.count == 0 && h1.overflow == 0
        }),
        forall|i: int| 80 <= i < page_size ==> r@[i] == 0,
        forall|i: int| page_size + 80 <= i < 2 * page_size ==> r@[i] == 0,
        forall|i: int| 2 * page_size + 16 <= i < 3 * page_size ==> r@[i] == 0,
        forall|i: int| 3 * page_size + 16 <= i < 4 * page_size ==> r@[i] == 0,
{
    let ps = page_size as usize;
    let mut m0 = fresh_meta(page_size);
    m0.write_for(0);
    let mut m1 = fresh_meta(page_size);
    m1.write_for(1);

    let h0 = PageHeader { id: 0, flags: FLAG_META, count: 0, overflow: 0 };
    let h1 = PageHeader { id: 1, flags: FLAG_META, count: 0, overflow: 0 };
    let h2 = PageHeader { id: 2, flags: FLAG_FREELIST, count: 0, overflow: 0 };
    let h3 = PageHeader { id: 3, flags: FLAG_LEAVES, count: 0, overflow: 0 };

    let p0 = build_page(&h0, &crate::meta::encode_meta(&m0), ps);
    let p1 = build_page(&h1, &crate::meta::encode_meta(&m1), ps);
    let p2 = build_page(&h2, &Vec::new(), ps);
    let p3 = build_page(&h3, &Vec::new(), ps);

    let ghost s0 = p0@;
    let ghost s1 = p1@;
    let ghost s2 = p2@;
    let ghost s3 = p3@;

    let mut r = p0;
    let mut p1 = p1;
    let mut p2 = p2;
    let mut p3 = p3;
    r.append(&mut p1);
    r.append(&mut p2);
    r.append(&mut p3);
    proof {
        let psi = page_size as int;
        assert(r@ =~= s0 + s1 + s2 + s3);
        assert(r@.subrange(16, 80) =~= s0.subrange(16, 80));
        assert(s0.subrange(16, 80) =~= spec_meta_bytes(m0)) by {
            assert(s0.subrange(16, 16 + spec_meta_bytes(m0).len() as int) =~= spec_meta_bytes(m0));
        }
        lemma_meta_roundtrip(m0);
        assert(r@.subrange(psi + 16, psi + 80) =~= s1.subrange(16, 80));
        assert(s1.subrange(16, 80) =~= spec_meta_bytes(m1)) by {
            assert(s1.subrange(16, 16 + spec_meta_bytes(m1).len() as int) =~= spec_meta_bytes(m1));
        }
        lemma_meta_roundtrip(m1);
        assert(r@.subrange(2 * psi, 2 * psi + 16) =~= s2.subrange(0, 16));
        lemma_header_roundtrip(h2);
        assert(r@.subrange(3 * psi, 3 * psi + 16) =~= s3.subrange(0, 16));
        lemma_header_roundtrip(h3);
        assert(r@.subrange(0, 16) =~= s0.subrange(0, 16));
        lemma_header_roundtrip(h0);
        assert(r@.subrange(psi, psi + 16) =~= s1.subrange(0, 16));
        lemma_header_roundtrip(h1);
        assert forall|i: int| 80 <= i < psi implies r@[i] == 0 by {
            assert(r@[i] == s0[i]);
        }
        assert forall|i: int| psi + 80 <= i < 2 * psi implies r@[i] == 0 by {
            assert(r@[i] == s1[i - psi]);
        }
        assert forall|i: int| 2 * psi + 16 <= i < 3 * psi implies r@[i] == 0 by {
            assert(r@[i] == s2[i - 2 * psi]);
        }
        assert forall|i: int| 3 * psi + 16 <= i < 4 * psi implies r@[i] == 0 by {
            assert(r@[i] == s3[i - 3 * psi]);
        }
    }
    r
}

} // verus!
