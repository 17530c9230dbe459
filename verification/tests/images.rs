use nut::db::init_file;
use nut::image::{leaf_bucket_names, page_rows, PageRow};
use nut::page::{FLAG_FREELIST, FLAG_LEAVES, FLAG_META};

#[test]
fn page_rows_on_fresh_image() {
    let image = init_file(4096);
    let rows = page_rows(&image, 4096, 4, &Vec::new());
    assert_eq!(rows.len(), 4);
    let flags: Vec<u16> = rows
        .iter()
        .map(|r| match r {
            PageRow::Typed(h) => h.flags,
            _ => panic!("expected a typed row"),
        })
        .collect();
    assert_eq!(flags, vec![FLAG_META, FLAG_META, FLAG_FREELIST, FLAG_LEAVES]);
}

#[test]
fn page_rows_marks_free_and_unreadable() {
    let image = init_file(4096);
    // pretend page 2 sits on the freelist, and ask past the image's end
    let rows = page_rows(&image, 4096, 6, &vec![2]);
    assert_eq!(rows.len(), 6);
    assert_eq!(rows[2], PageRow::Free);
    assert_eq!(rows[4], PageRow::Unreadable);
    assert_eq!(rows[5], PageRow::Unreadable);
    assert!(matches!(rows[3], PageRow::Typed(_)));
}

fn leaf_page_one_bucket(name: &[u8]) -> Vec<u8> {
    // page header, one element, the key packed right after the element
    let header = nut::page::PageHeader { id: 3, flags: FLAG_LEAVES, count: 1, overflow: 0 };
    let mut page = nut::page::encode_header(&header);
    let pos: u32 = 16; // key sits one element header past the element start
    let ksize = name.len() as u32;
    for field in [nut::node::BUCKET_LEAF_FLAG, pos, ksize, 0u32] {
        page.extend_from_slice(&field.to_le_bytes());
    }
    page.extend_from_slice(name);
    page
}

#[test]
fn leaf_bucket_names_reads_flagged_keys() {
    let page = leaf_page_one_bucket(b"widgets");
    let names = leaf_bucket_names(&page, 1).expect("parse");
    assert_eq!(names, vec![b"widgets".to_vec()]);
}

#[test]
fn leaf_bucket_names_skips_plain_entries() {
    let mut page = leaf_page_one_bucket(b"plain");
    // clear the bucket flag of the single element
    page[16] = 0;
    let names = leaf_bucket_names(&page, 1).expect("parse");
    assert!(names.is_empty());
}

#[test]
fn leaf_bucket_refs_reads_keys_and_values() {
    let header = nut::page::PageHeader { id: 3, flags: FLAG_LEAVES, count: 1, overflow: 0 };
    let mut page = nut::page::encode_header(&header);
    for field in [nut::node::BUCKET_LEAF_FLAG, 16u32, 3u32, 2u32] {
        page.extend_from_slice(&field.to_le_bytes());
    }
    page.extend_from_slice(b"keyvv");
    let refs = nut::image::leaf_bucket_refs(&page, 1).expect("parse");
    assert_eq!(refs, vec![(b"key".to_vec(), b"vv".to_vec())]);
    // a value reaching past the end of the page is rejected
    let torn = &page[..page.len() - 1];
    assert_eq!(nut::image::leaf_bucket_refs(torn, 1), Err(nut::errors::Error::Invalid));
}

#[test]
fn branch_child_pgids_reads_children() {
    let header = nut::page::PageHeader { id: 5, flags: nut::page::FLAG_BRANCHES, count: 2, overflow: 0 };
    let mut page = nut::page::encode_header(&header);
    for (pos, ksize, pgid) in [(32u32, 1u32, 7u64), (17u32, 1u32, 9u64)] {
        page.extend_from_slice(&pos.to_le_bytes());
        page.extend_from_slice(&ksize.to_le_bytes());
        page.extend_from_slice(&pgid.to_le_bytes());
    }
    page.extend_from_slice(b"ab");
    assert_eq!(nut::image::branch_child_pgids(&page, 2), Ok(vec![7, 9]));
    // a count past the stored elements reaches outside the page
    assert_eq!(nut::image::branch_child_pgids(&page[..48], 3), Err(nut::errors::Error::Invalid));
}

#[test]
fn leaf_bucket_names_rejects_truncated_pages() {
    let page = leaf_page_one_bucket(b"widgets");
    // a count pointing past the single element reaches outside the page
    assert_eq!(leaf_bucket_names(&page, 2), Err(nut::errors::Error::Invalid));
    // a key reaching past the end of the page is rejected too
    let torn = &page[..page.len() - 3];
    assert_eq!(leaf_bucket_names(torn, 1), Err(nut::errors::Error::Invalid));
}
