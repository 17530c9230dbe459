use nut::bucket::{
    decode_bucket_header, encode_bucket_header, max_inline_bucket_size, Bucket, MAX_KEY_SIZE,
};
use nut::errors::Error;
use nut::freelist::Freelist;
use nut::node::{Inode, Node, BUCKET_LEAF_FLAG};

fn leaf_with(pairs: &[(&[u8], &[u8])]) -> Node {
    let mut n = Node::new(true);
    for (k, v) in pairs {
        n.put(k, k.to_vec(), v.to_vec(), 0, 0);
    }
    n
}

#[test]
fn node_put_get_del() {
    let mut n = Node::new(true);
    n.put(b"b", b"b".to_vec(), b"2".to_vec(), 0, 0);
    n.put(b"a", b"a".to_vec(), b"1".to_vec(), 0, 0);
    n.put(b"c", b"c".to_vec(), b"3".to_vec(), 0, 0);

    assert_eq!(n.get(b"a").map(|e| e.value.clone()), Some(b"1".to_vec()));
    assert_eq!(n.get(b"b").map(|e| e.value.clone()), Some(b"2".to_vec()));
    assert!(n.get(b"d").is_none());

    // entries sit in ascending key order whatever the insertion order
    let keys: Vec<&[u8]> = n.inodes.iter().map(|e| e.key.as_slice()).collect();
    assert_eq!(keys, vec![b"a".as_slice(), b"b".as_slice(), b"c".as_slice()]);

    // overwrite keeps one entry per key
    n.put(b"b", b"b".to_vec(), b"20".to_vec(), 0, 0);
    assert_eq!(n.inodes.len(), 3);
    assert_eq!(n.get(b"b").map(|e| e.value.clone()), Some(b"20".to_vec()));

    n.del(b"b");
    assert!(n.get(b"b").is_none());
    assert_eq!(n.inodes.len(), 2);
    assert!(n.unbalanced);

    // deleting an absent key changes nothing
    let before = n.inodes.len();
    n.del(b"zz");
    assert_eq!(n.inodes.len(), before);
}

#[test]
fn node_put_renames_key() {
    let mut n = leaf_with(&[(b"a", b"1"), (b"m", b"2"), (b"z", b"3")]);
    // replace the entry under "m" by one under "q"
    n.put(b"m", b"q".to_vec(), b"2".to_vec(), 0, 0);
    assert!(n.get(b"m").is_none());
    assert_eq!(n.get(b"q").map(|e| e.value.clone()), Some(b"2".to_vec()));
    let keys: Vec<&[u8]> = n.inodes.iter().map(|e| e.key.as_slice()).collect();
    assert_eq!(keys, vec![b"a".as_slice(), b"q".as_slice(), b"z".as_slice()]);
}

#[test]
fn node_size_counts_header_and_entries() {
    let n = leaf_with(&[(b"ab", b"xyz"), (b"cd", b"")]);
    // page header + (element header + key + value) per entry
    assert_eq!(n.size(), 16 + (16 + 2 + 3) + (16 + 2 + 0));
}

#[test]
fn node_split_index_respects_threshold_and_minimum() {
    // four entries of 26 bytes each after the 16-byte header
    let n = leaf_with(&[(b"a", b"123456789"), (b"b", b"123456789"), (b"c", b"123456789"), (
        b"d",
        b"123456789",
    )]);
    assert_eq!(n.size(), 16 + 4 * 26);
    // cutting is allowed only at index 2 here; a tiny threshold still
    // leaves two entries on each side
    assert_eq!(n.split_index(10), 2);
    // a threshold past the whole size never cuts
    assert_eq!(n.split_index(1000), n.inodes.len());
}

#[test]
fn node_split_moves_tail_to_sibling() {
    let mut n = leaf_with(&[(b"a", b"123456789"), (b"b", b"123456789"), (b"c", b"123456789"), (
        b"d",
        b"123456789",
    )]);
    let right = n.split(10).expect("split");
    let left_keys: Vec<&[u8]> = n.inodes.iter().map(|e| e.key.as_slice()).collect();
    let right_keys: Vec<&[u8]> = right.inodes.iter().map(|e| e.key.as_slice()).collect();
    assert_eq!(left_keys, vec![b"a".as_slice(), b"b".as_slice()]);
    assert_eq!(right_keys, vec![b"c".as_slice(), b"d".as_slice()]);

    // an over-large threshold splits nothing
    let mut whole = leaf_with(&[(b"a", b"1"), (b"b", b"2"), (b"c", b"3"), (b"d", b"4")]);
    assert!(whole.split(4096).is_none());
    assert_eq!(whole.inodes.len(), 4);
}

#[test]
fn node_needs_rebalance_thresholds() {
    let n = leaf_with(&[(b"a", b"1")]);
    // fewer than two entries always rebalances
    assert!(n.needs_rebalance(64));
    let m = leaf_with(&[(b"a", b"1"), (b"b", b"2"), (b"c", b"3")]);
    // under a quarter page
    assert!(m.needs_rebalance(4096));
    // big enough for a tiny page size
    assert!(!m.needs_rebalance(64));
}

#[test]
fn node_split_threshold_has_floor() {
    // half of a 4096-byte page
    assert_eq!(nut::node::split_threshold(4096, 50), 2048);
    assert_eq!(nut::node::split_threshold(4096, 100), 4096);
    // a tiny page never drops below header plus two element slots
    assert_eq!(nut::node::split_threshold(64, 25), 48);
}

#[test]
fn node_merge_right_concatenates() {
    let mut left = leaf_with(&[(b"a", b"1"), (b"b", b"2")]);
    let right = leaf_with(&[(b"x", b"8"), (b"y", b"9")]);
    left.merge_right(right);
    let keys: Vec<&[u8]> = left.inodes.iter().map(|e| e.key.as_slice()).collect();
    assert_eq!(keys, vec![b"a".as_slice(), b"b".as_slice(), b"x".as_slice(), b"y".as_slice()]);
}

#[test]
fn freelist_free_then_release_respects_visibility() {
    let mut fl = Freelist::new();
    // tx 10 frees pages 5 and 6 (one overflow page)
    fl.free(10, 5, 1);
    assert_eq!(fl.free_count(), 0);
    assert_eq!(fl.pending.len(), 1);
    assert_eq!(fl.pending[0].txid, 10);
    assert_eq!(fl.pending[0].ids, vec![5, 6]);

    // a reader with snapshot txid 9 is still open: nothing may be released
    fl.release(9);
    assert_eq!(fl.free_count(), 0);
    assert_eq!(fl.pending.len(), 1);

    // once every reader before tx 10 is gone the pages become available
    fl.release(10);
    assert_eq!(fl.ids, vec![5, 6]);
    assert!(fl.pending.is_empty());
}

#[test]
fn freelist_release_merges_sorted() {
    let mut fl = Freelist::new();
    fl.free(3, 9, 0);
    fl.free(4, 2, 1);
    fl.free(9, 40, 0);
    fl.release(4);
    assert_eq!(fl.ids, vec![2, 3, 9]);
    assert_eq!(fl.pending.len(), 1);
    assert_eq!(fl.pending[0].txid, 9);
    fl.release(9);
    assert_eq!(fl.ids, vec![2, 3, 9, 40]);
}

#[test]
fn freelist_rollback_discards_pending() {
    let mut fl = Freelist::new();
    fl.free(7, 3, 0);
    fl.free(8, 12, 0);
    fl.rollback(7);
    assert_eq!(fl.pending.len(), 1);
    assert_eq!(fl.pending[0].txid, 8);
    fl.release(u64::MAX);
    assert_eq!(fl.ids, vec![12]);
}

#[test]
fn freelist_allocate_first_fit_contiguous() {
    let mut fl = Freelist::new();
    fl.free(1, 3, 2);  // 3,4,5
    fl.free(1, 9, 1);  // 9,10
    fl.release(1);
    assert_eq!(fl.ids, vec![3, 4, 5, 9, 10]);

    // first run of two starts at 3
    assert_eq!(fl.allocate(2), Some(3));
    assert_eq!(fl.ids, vec![5, 9, 10]);

    // 5 and 9 are not contiguous: the next pair is 9,10
    assert_eq!(fl.allocate(2), Some(9));
    assert_eq!(fl.ids, vec![5]);

    assert_eq!(fl.allocate(2), None);
    assert_eq!(fl.allocate(1), Some(5));
    assert!(fl.ids.is_empty());
    assert_eq!(fl.allocate(1), None);
}

#[test]
fn freelist_slots_roundtrip_small() {
    let mut fl = Freelist::new();
    fl.free(1, 7, 0);
    fl.free(1, 3, 1);
    fl.release(1);
    assert_eq!(fl.ids, vec![3, 4, 7]);
    let (count, slots) = fl.to_slots();
    assert_eq!(count, 3);
    assert_eq!(slots, vec![3, 4, 7]);
    assert_eq!(Freelist::ids_from_slots(&slots, count), Some(vec![3, 4, 7]));
}

#[test]
fn freelist_slots_roundtrip_large() {
    // past the sentinel the real count moves into the first slot
    let ids: Vec<u64> = (2..(2 + 70_000)).collect();
    let fl = Freelist { ids: ids.clone(), pending: Vec::new() };
    let (count, slots) = fl.to_slots();
    assert_eq!(count, 0xffff);
    assert_eq!(slots.len(), 70_001);
    assert_eq!(slots[0], 70_000);
    assert_eq!(Freelist::ids_from_slots(&slots, count), Some(ids));
}

#[test]
fn freelist_slots_reject_bad_counts() {
    assert_eq!(Freelist::ids_from_slots(&vec![1, 2], 3), None);
    assert_eq!(Freelist::ids_from_slots(&Vec::new(), 0xffff), None);
    assert_eq!(Freelist::ids_from_slots(&vec![5, 8], 0xffff), None);
}

#[test]
fn freelist_size_counts_slots() {
    let fl = Freelist { ids: vec![3, 4, 7], pending: Vec::new() };
    assert_eq!(fl.size(), 16 + 8 * 3);
    let big = Freelist { ids: (2..(2 + 70_000)).collect(), pending: Vec::new() };
    assert_eq!(big.size(), 16 + 8 * 70_001);
}

#[test]
fn bucket_header_roundtrip() {
    let b = encode_bucket_header(0x1122_3344_5566_7788, 9);
    assert_eq!(b.len(), 16);
    assert_eq!(&b[0..8], &[0x88, 0x77, 0x66, 0x55, 0x44, 0x33, 0x22, 0x11]);
    assert_eq!(decode_bucket_header(&b), (0x1122_3344_5566_7788, 9));
}

#[test]
fn bucket_put_get_delete() {
    let mut b = Bucket::new();
    assert!(b.put(b"a".to_vec(), b"1".to_vec()).is_ok());
    assert!(b.put(b"b".to_vec(), b"2".to_vec()).is_ok());
    assert_eq!(b.get(b"a").cloned(), Some(b"1".to_vec()));
    assert_eq!(b.get(b"b").cloned(), Some(b"2".to_vec()));
    assert!(b.get(b"c").is_none());
    assert!(b.delete(b"a").is_ok());
    assert!(b.get(b"a").is_none());
}

#[test]
fn bucket_put_bound_checks() {
    let mut b = Bucket::new();
    assert_eq!(b.put(Vec::new(), b"x".to_vec()), Err(Error::KeyRequired));
    let long_key = vec![7u8; MAX_KEY_SIZE + 1];
    assert_eq!(b.put(long_key, b"x".to_vec()), Err(Error::KeyTooLarge));
    let edge_key = vec![7u8; MAX_KEY_SIZE];
    assert!(b.put(edge_key, b"x".to_vec()).is_ok());
}

#[test]
fn bucket_names_are_not_values() {
    let mut b = Bucket::new();
    assert!(b.create_bucket(b"sub".to_vec()).is_ok());
    // a sub-bucket reads as no value
    assert!(b.get(b"sub").is_none());
    // and can be neither overwritten nor deleted as a value
    assert_eq!(b.put(b"sub".to_vec(), b"x".to_vec()), Err(Error::IncompatibleValue));
    assert_eq!(b.delete(b"sub"), Err(Error::IncompatibleValue));
    // creating a bucket over a plain value is refused too
    assert!(b.put(b"plain".to_vec(), b"v".to_vec()).is_ok());
    assert_eq!(b.create_bucket(b"plain".to_vec()), Err(Error::IncompatibleValue));
    // a second creation is refused
    assert_eq!(b.create_bucket(b"sub".to_vec()), Err(Error::BucketExists));
    assert_eq!(b.create_bucket(Vec::new()), Err(Error::BucketNameRequired));
}

#[test]
fn bucket_create_if_not_exists_is_idempotent() {
    let mut b = Bucket::new();
    assert!(b.create_bucket_if_not_exists(b"w".to_vec()).is_ok());
    let entries_after_one: Vec<(Vec<u8>, Vec<u8>, u32)> =
        b.root_node.inodes.iter().map(|e| (e.key.clone(), e.value.clone(), e.flags)).collect();
    assert!(b.create_bucket_if_not_exists(b"w".to_vec()).is_ok());
    let entries_after_two: Vec<(Vec<u8>, Vec<u8>, u32)> =
        b.root_node.inodes.iter().map(|e| (e.key.clone(), e.value.clone(), e.flags)).collect();
    assert_eq!(entries_after_one, entries_after_two);
    assert_eq!(entries_after_one.len(), 1);
    assert_eq!(entries_after_one[0].2, BUCKET_LEAF_FLAG);
}

#[test]
fn bucket_sequence_advances() {
    let mut b = Bucket::new();
    assert_eq!(b.sequence(), 0);
    assert_eq!(b.next_sequence(), 1);
    assert_eq!(b.next_sequence(), 2);
    assert_eq!(b.sequence(), 2);
}

#[test]
fn bucket_inline_threshold() {
    assert_eq!(max_inline_bucket_size(4096), 1024);
    let mut b = Bucket::new();
    // serialized size: 16 + (16 + 4 + 988) = 1024, exactly a quarter page
    assert!(b.put(b"abcd".to_vec(), vec![0u8; 988]).is_ok());
    assert!(b.inlineable(4096));
    // one byte more crosses the threshold
    let mut c = Bucket::new();
    assert!(c.put(b"abcd".to_vec(), vec![0u8; 989]).is_ok());
    assert!(!c.inlineable(4096));
    // a bucket holding a sub-bucket is never inline
    let mut d = Bucket::new();
    assert!(d.create_bucket(b"s".to_vec()).is_ok());
    assert!(!d.inlineable(4096));

    let mut ok_inode = Node::new(true);
    ok_inode.put(b"k", b"k".to_vec(), b"v".to_vec(), 0, 0);
    let small = Bucket { root_pgid: 0, sequence: 0, fill_percent: 50, root_node: ok_inode };
    assert!(small.inlineable(4096));
}

#[test]
fn inode_fields_carry_through() {
    let mut n = Node::new(false);
    n.put(b"k", b"k".to_vec(), Vec::new(), 42, 0);
    let e: &Inode = n.get(b"k").unwrap();
    assert_eq!(e.pgid, 42);
    assert_eq!(e.flags, 0);
}
