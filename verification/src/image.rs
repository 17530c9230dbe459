//! Read-only views of a database file image: the page table and the leaf
//! entries the administrative commands print. The commands hand in the
//! file's bytes; everything decided about them is decided here.
use vstd::prelude::*;

use vstd::slice::slice_subrange;

use crate::errors::Error;
use crate::node::BUCKET_LEAF_FLAG;
use crate::page::{
    decode_header, spec_decode_header, spec_u32_at, u32_at, PageHeader, PAGE_HEADER_SIZE,
};

verus! {

/// What the pages command prints for one page id.
#[derive(Clone, Copy, Debug, PartialEq, Eq, Structural)]
pub enum PageRow {
    /// the id sits on the freelist
    Free,
    /// the page's header lies outside the file image
    Unreadable,
    /// a readable page, by its header
    Typed(PageHeader),
}

/// The row for one page id: free ids first, then the decoded header of any
/// page whose header bytes the image holds.
pub open spec fn spec_page_row(image: Seq<u8>, page_size: u32, free: Seq<u64>, id: u64) -> PageRow {
    if free.contains(id) {
        PageRow::Free
    } else if id * page_size + PAGE_HEADER_SIZE <= image.len() {
        PageRow::Typed(
            spec_decode_header(
                image.subrange(id * page_size, id * page_size + PAGE_HEADER_SIZE),
            ),
        )
    } else {
        PageRow::Unreadable
    }
}

/// Whether the freelist holds `id`.
fn contains_id(free: &Vec<u64>, id: u64) -> (r: bool)
    ensures
        r == free@.contains(id),
{
    let mut i: usize = 0;
    while i < free.len()
        invariant
            i <= free@.len(),
            forall|j: int| 0 <= j < i ==> free@[j] != id,
        decreases free@.len() - i,
    {
        if free[i] == id {
            return true;
        }
        i = i + 1;
    }
    false
}

/// The page table the pages command prints: one row per id below the high
/// water mark, each exactly the row rule's verdict for that id.
pub fn page_rows(image: &[u8], page_size: u32, high_water: u64, free: &Vec<u64>) -> (r: Vec<
    PageRow,
>)
    requires
        high_water <= usize::MAX,
    ensures
        r@.len() == high_water,
        forall|i: int|
            0 <= i < r@.len() ==> r@[i] == spec_page_row(
                image@,
                page_size,
                free@,
                #[verifier::truncate] (i as u64),
            ),
{
    let mut r: Vec<PageRow> = Vec::new();
    let img_len = image.len();
    proof {
        assert(img_len as u64 == image@.len());
    }
    let n = high_water as usize;
    let mut i: usize = 0;
    while i < n
        invariant
            i <= n,
            n == high_water,
            img_len == image@.len(),
            r@.len() == i,
            forall|j: int|
                0 <= j < i ==> r@[j] == spec_page_row(
                    image@,
                    page_size,
                    free@,
                    #[verifier::truncate] (j as u64),
                ),
        decreases n - i,
    {
        let id = i as u64;
        let row: PageRow = if contains_id(free, id) {
            PageRow::Free
        } else {
            match id.checked_mul(page_size as u64) {
                Some(off) => {
                    if off <= u64::MAX - PAGE_HEADER_SIZE as u64 && off + PAGE_HEADER_SIZE as u64
                        <= img_len as u64 {
                        let start = off as usize;
                        proof {
                            assert(start == id * page_size);
                            assert(start + PAGE_HEADER_SIZE <= image@.len());
                        }
                        let h = decode_header(slice_subrange(image, start, start + PAGE_HEADER_SIZE));
                        proof {
                            assert(h == spec_decode_header(
                                image@.subrange(id * page_size, id * page_size + PAGE_HEADER_SIZE),
                            ));
                        }
                        PageRow::Typed(h)
                    } else {
                        proof {
                            assert(id * page_size + PAGE_HEADER_SIZE > image@.len());
                        }
                        PageRow::Unreadable
                    }
                },
                None => PageRow::Unreadable,
            }
        };
        proof {
            assert(row == spec_page_row(image@, page_size, free@, id));
        }
        r.push(row);
        i = i + 1;
    }
    r
}

/// Byte offset of leaf element `i` inside a page's bytes.
pub open spec fn spec_elem_off(i: int) -> int {
    PAGE_HEADER_SIZE + i * 16
}

/// Leaf element `i` of a page: flags, key offset relative to the element,
/// key size, value size.
pub open spec fn spec_leaf_elem(b: Seq<u8>, i: int) -> (u32, u32, u32, u32) {
    (
        spec_u32_at(b, spec_elem_off(i)),
        spec_u32_at(b, spec_elem_off(i) + 4),
        spec_u32_at(b, spec_elem_off(i) + 8),
        spec_u32_at(b, spec_elem_off(i) + 12),
    )
}

/// The key of leaf element `i`: `pos` bytes past the element start, `ksize`
/// bytes long.
pub open spec fn spec_leaf_key(b: Seq<u8>, i: int) -> Seq<u8> {
    let (flags, pos, ksize, vsize) = spec_leaf_elem(b, i);
    b.subrange(spec_elem_off(i) + pos, spec_elem_off(i) + pos + ksize)
}

/// Leaf element `i` lies wholly inside the page's bytes, key included.
pub open spec fn spec_leaf_elem_in_bounds(b: Seq<u8>, i: int) -> bool {
    let (flags, pos, ksize, vsize) = spec_leaf_elem(b, i);
    &&& spec_elem_off(i) + 16 <= b.len()
    &&& spec_elem_off(i) + pos + ksize <= b.len()
}

/// The bucket-flagged keys among the first `count` leaf elements, in entry
/// order.
pub open spec fn spec_bucket_names(b: Seq<u8>, count: int) -> Seq<Seq<u8>>
    decreases count,
{
    if count <= 0 {
        Seq::empty()
    } else if spec_leaf_elem(b, count - 1).0 & BUCKET_LEAF_FLAG != 0 {
        spec_bucket_names(b, count - 1).push(spec_leaf_key(b, count - 1))
    } else {
        spec_bucket_names(b, count - 1)
    }
}

/// The value of leaf element `i`: the `vsize` bytes right after its key.
pub open spec fn spec_leaf_value(b: Seq<u8>, i: int) -> Seq<u8> {
    let (flags, pos, ksize, vsize) = spec_leaf_elem(b, i);
    b.subrange(
        spec_elem_off(i) + pos + ksize,
        spec_elem_off(i) + pos + ksize + vsize,
    )
}

/// Leaf element `i` lies wholly inside the page's bytes, value included.
pub open spec fn spec_leaf_ref_in_bounds(b: Seq<u8>, i: int) -> bool {
    let (flags, pos, ksize, vsize) = spec_leaf_elem(b, i);
    &&& spec_elem_off(i) + 16 <= b.len()
    &&& spec_elem_off(i) + pos + ksize + vsize <= b.len()
}

/// The bucket-flagged entries among the first `count` leaf elements, each
/// as its key and its value, in entry order.
pub open spec fn spec_bucket_refs(b: Seq<u8>, count: int) -> Seq<(Seq<u8>, Seq<u8>)>
    decreases count,
{
    if count <= 0 {
        Seq::empty()
    } else if spec_leaf_elem(b, count - 1).0 & BUCKET_LEAF_FLAG != 0 {
        spec_bucket_refs(b, count - 1).push(
            (spec_leaf_key(b, count - 1), spec_leaf_value(b, count - 1)),
        )
    } else {
        spec_bucket_refs(b, count - 1)
    }
}

/// Copy `len` bytes starting at `start`.
fn bytes_at(page: &[u8], start: usize, len: usize) -> (r: Vec<u8>)
    requires
        start + len <= page@.len(),
    ensures
        r@ == page@.subrange(start as int, start + len),
{
    let total = page.len();
    proof {
        assert(start + len <= total);
    }
    let s = slice_subrange(page, start, start + len);
    let mut r: Vec<u8> = Vec::new();
    let mut k: usize = 0;
    while k < s.len()
        invariant
            k <= s@.len(),
            r@ == s@.take(k as int),
        decreases s@.len() - k,
    {
        r.push(s[k]);
        proof {
            assert(s@.take(k + 1) =~= s@.take(k as int).push(s@[k as int]));
        }
        k = k + 1;
    }
    proof {
        assert(s@.take(s@.len() as int) =~= s@);
    }
    r
}

/// The sub-buckets recorded on one leaf page, each by its name and its
/// serialized bucket value, in entry order: exactly the bucket-flagged
/// elements. Rejected when any element of the page's count reaches outside
/// the page's bytes.
pub fn leaf_bucket_refs(page: &[u8], count: u16) -> (r: Result<Vec<(Vec<u8>, Vec<u8>)>, Error>)
    ensures
        r is Ok <==> (forall|i: int|
            0 <= i < count ==> #[trigger] spec_leaf_ref_in_bounds(page@, i)),
        r matches Ok(refs) ==> refs@.map_values(|e: (Vec<u8>, Vec<u8>)| (e.0@, e.1@))
            == spec_bucket_refs(page@, count as int),
        r is Err ==> r == Err::<Vec<(Vec<u8>, Vec<u8>)>, Error>(Error::Invalid),
{
    let mut refs: Vec<(Vec<u8>, Vec<u8>)> = Vec::new();
    let n = count as usize;
    let mut i: usize = 0;
    while i < n
        invariant
            i <= n,
            n == count,
            forall|j: int| 0 <= j < i ==> #[trigger] spec_leaf_ref_in_bounds(page@, j),
            refs@.map_values(|e: (Vec<u8>, Vec<u8>)| (e.0@, e.1@)) == spec_bucket_refs(
                page@,
                i as int,
            ),
        decreases n - i,
    {
        let el = PAGE_HEADER_SIZE + i * 16;
        if el > usize::MAX - 16 || el + 16 > page.len() {
            proof {
                assert(!spec_leaf_ref_in_bounds(page@, i as int));
            }
            return Err(Error::Invalid);
        }
        let flags = u32_at(page, el);
        let pos = u32_at(page, el + 4);
        let ksize = u32_at(page, el + 8);
        let vsize = u32_at(page, el + 12);
        let reach = pos as u64 + ksize as u64 + vsize as u64;
        if reach > u64::MAX - el as u64 || el as u64 + reach > page.len() as u64 {
            proof {
                assert(!spec_leaf_ref_in_bounds(page@, i as int));
            }
            return Err(Error::Invalid);
        }
        if flags & BUCKET_LEAF_FLAG != 0 {
            let kstart = el + pos as usize;
            let key = bytes_at(page, kstart, ksize as usize);
            let value = bytes_at(page, kstart + ksize as usize, vsize as usize);
            proof {
                assert(key@ == spec_leaf_key(page@, i as int));
                assert(value@ == spec_leaf_value(page@, i as int));
            }
            let ghost before = refs@.map_values(|e: (Vec<u8>, Vec<u8>)| (e.0@, e.1@));
            refs.push((key, value));
            proof {
                assert(refs@.map_values(|e: (Vec<u8>, Vec<u8>)| (e.0@, e.1@)) =~= before.push(
                    (spec_leaf_key(page@, i as int), spec_leaf_value(page@, i as int)),
                ));
            }
        }
        i = i + 1;
    }
    Ok(refs)
}

/// The child page id of branch element `i`: the last eight bytes of the
/// element record.
pub open spec fn spec_branch_child(b: Seq<u8>, i: int) -> u64 {
    crate::page::spec_u64_at(b, spec_elem_off(i) + 8)
}

/// Branch element `i`'s record lies wholly inside the page's bytes.
pub open spec fn spec_branch_elem_in_bounds(b: Seq<u8>, i: int) -> bool {
    spec_elem_off(i) + 16 <= b.len()
}

/// The child page ids a branch page points at, in entry order: exactly the
/// `count` elements' page-id fields. Rejected when any element of the
/// page's count reaches outside the page's bytes.
pub fn branch_child_pgids(page: &[u8], count: u16) -> (r: Result<Vec<u64>, Error>)
    ensures
        r is Ok <==> (forall|i: int|
            0 <= i < count ==> #[trigger] spec_branch_elem_in_bounds(page@, i)),
        r matches Ok(children) ==> children@.len() == count && (forall|i: int|
            0 <= i < count ==> children@[i] == spec_branch_child(page@, i)),
        r is Err ==> r == Err::<Vec<u64>, Error>(Error::Invalid),
{
    let mut children: Vec<u64> = Vec::new();
    let n = count as usize;
    let mut i: usize = 0;
    while i < n
        invariant
            i <= n,
            n == count,
            forall|j: int| 0 <= j < i ==> #[trigger] spec_branch_elem_in_bounds(page@, j),
            children@.len() == i,
            forall|j: int| 0 <= j < i ==> children@[j] == spec_branch_child(page@, j),
        decreases n - i,
    {
        let el = PAGE_HEADER_SIZE + i * 16;
        if el > usize::MAX - 16 || el + 16 > page.len() {
            proof {
                assert(!spec_branch_elem_in_bounds(page@, i as int));
            }
            return Err(Error::Invalid);
        }
        children.push(crate::page::u64_at(page, el + 8));
        i = i + 1;
    }
    Ok(children)
}

/// The names of the buckets recorded on one leaf page, in entry order:
/// exactly the bucket-flagged elements' keys. Rejected when any element of
/// the page's count reaches outside the page's bytes.
pub fn leaf_bucket_names(page: &[u8], count: u16) -> (r: Result<Vec<Vec<u8>>, Error>)
    ensures
        r is Ok <==> (forall|i: int|
            0 <= i < count ==> #[trigger] spec_leaf_elem_in_bounds(page@, i)),
        r matches Ok(names) ==> names@.map_values(|k: Vec<u8>| k@) == spec_bucket_names(
            page@,
            count as int,
        ),
        r is Err ==> r == Err::<Vec<Vec<u8>>, Error>(Error::Invalid),
{
    let mut names: Vec<Vec<u8>> = Vec::new();
    let n = count as usize;
    let mut i: usize = 0;
    while i < n
        invariant
            i <= n,
            n == count,
            forall|j: int| 0 <= j < i ==> #[trigger] spec_leaf_elem_in_bounds(page@, j),
            names@.map_values(|k: Vec<u8>| k@) == spec_bucket_names(page@, i as int),
        decreases n - i,
    {
        let el = PAGE_HEADER_SIZE + i * 16;
        if el > usize::MAX - 16 || el + 16 > page.len() {
            proof {
                assert(!spec_leaf_elem_in_bounds(page@, i as int));
            }
            return Err(Error::Invalid);
        }
        let flags = u32_at(page, el);
        let pos = u32_at(page, el + 4);
        let ksize = u32_at(page, el + 8);
        if pos as u64 + ksize as u64 > u64::MAX - el as u64 || el as u64 + pos as u64
            + ksize as u64 > page.len() as u64 {
            proof {
                assert(!spec_leaf_elem_in_bounds(page@, i as int));
            }
            return Err(Error::Invalid);
        }
        if flags & BUCKET_LEAF_FLAG != 0 {
            let kstart = el + pos as usize;
            let key_slice = slice_subrange(page, kstart, kstart + ksize as usize);
            let mut key: Vec<u8> = Vec::new();
            let mut k: usize = 0;
            while k < key_slice.len()
                invariant
                    k <= key_slice@.len(),
                    key@ == key_slice@.take(k as int),
                decreases key_slice@.len() - k,
            {
                key.push(key_slice[k]);
                proof {
                    assert(key_slice@.take(k + 1) =~= key_slice@.take(k as int).push(
                        key_slice@[k as int],
                    ));
                }
                k = k + 1;
            }
            proof {
                assert(key_slice@.take(key_slice@.len() as int) =~= key_slice@);
                assert(key@ == spec_leaf_key(page@, i as int));
            }
            let ghost before = names@.map_values(|k2: Vec<u8>| k2@);
            names.push(key);
            proof {
                assert(names@.map_values(|k2: Vec<u8>| k2@) =~= before.push(
                    spec_leaf_key(page@, i as int),
                ));
            }
        }
        i = i + 1;
    }
    Ok(names)
}

} // verus!
