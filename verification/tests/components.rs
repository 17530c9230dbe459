use nut::errors::Error;
use nut::keys::{key_eq, key_lt};
use nut::meta::{decode_meta, encode_meta, pick_meta, Meta};
use nut::page::{
    decode_header, encode_header, flags_name, page_offset, page_span, PageHeader, FLAG_BRANCHES,
    FLAG_FREELIST, FLAG_LEAVES, FLAG_META,
};
use nut::stats::{Stats, TxStats};

#[test]
fn key_order_basics() {
    assert!(key_lt(b"a", b"b"));
    assert!(!key_lt(b"b", b"a"));
    assert!(key_lt(b"a", b"aa"));
    assert!(!key_lt(b"aa", b"a"));
    assert!(!key_lt(b"abc", b"abc"));
    assert!(key_lt(b"", b"a"));
    assert!(!key_lt(b"a", b""));
    assert!(key_lt(b"ab", b"b"));
    assert!(key_eq(b"abc", b"abc"));
    assert!(!key_eq(b"abc", b"abd"));
    assert!(!key_eq(b"ab", b"abc"));
}

#[test]
fn stats_new_and_sub() {
    let z = Stats::new();
    assert_eq!(z.tx_n, 0);
    assert_eq!(z.open_tx_n, 0);
    assert_eq!(z.tx_stats.page_count, 0);

    let mut a = Stats::new();
    a.tx_n = 10;
    a.open_tx_n = 3;
    a.free_page_n = 7;
    a.tx_stats.write = 20;
    let mut b = Stats::new();
    b.tx_n = 4;
    b.open_tx_n = 1;
    b.tx_stats.write = 5;
    let d = a.sub(&b);
    assert_eq!(d.tx_n, 6);
    assert_eq!(d.open_tx_n, 2);
    assert_eq!(d.free_page_n, 7);
    assert_eq!(d.tx_stats.write, 15);
}

#[test]
fn stats_add_assign_accumulates_tx_stats_only() {
    let mut a = Stats::new();
    a.tx_n = 2;
    a.tx_stats.spill = 4;
    let mut b = Stats::new();
    b.tx_n = 9;
    b.tx_stats.spill = 6;
    b.tx_stats.split = 1;
    a.add_assign(&b);
    assert_eq!(a.tx_n, 2);
    assert_eq!(a.tx_stats.spill, 10);
    assert_eq!(a.tx_stats.split, 1);
}

#[test]
fn tx_stats_sub() {
    let mut a = TxStats::new();
    a.node_count = 9;
    a.rebalance = 5;
    let mut b = TxStats::new();
    b.node_count = 4;
    b.rebalance = 5;
    let d = a.sub(&b);
    assert_eq!(d.node_count, 5);
    assert_eq!(d.rebalance, 0);
}

#[test]
fn error_messages_nonempty() {
    let all = [
        Error::DatabaseNotOpen,
        Error::DatabaseOpen,
        Error::AlreadyOpened,
        Error::Invalid,
        Error::VersionMismatch,
        Error::Checksum,
        Error::TxClosed,
        Error::TxNotWritable,
        Error::BucketNotFound,
        Error::BucketExists,
        Error::BucketNameRequired,
        Error::IncompatibleValue,
        Error::KeyRequired,
        Error::KeyTooLarge,
        Error::ValueTooLarge,
        Error::Io,
    ];
    for e in all {
        assert!(!e.message().is_empty());
    }
    assert_eq!(Error::Invalid.message(), "invalid database");
}

#[test]
fn page_flags_names() {
    assert_eq!(flags_name(FLAG_BRANCHES), Some("branches"));
    assert_eq!(flags_name(FLAG_LEAVES), Some("leaves"));
    assert_eq!(flags_name(FLAG_META), Some("meta"));
    assert_eq!(flags_name(FLAG_FREELIST), Some("freelist"));
    assert_eq!(flags_name(0x08), None);
}

#[test]
fn page_header_roundtrip_and_layout() {
    let h = PageHeader { id: 0x0102_0304_0506_0708, flags: FLAG_LEAVES, count: 13, overflow: 3 };
    let bytes = encode_header(&h);
    assert_eq!(bytes.len(), 16);
    // little-endian id
    assert_eq!(&bytes[0..8], &[0x08, 0x07, 0x06, 0x05, 0x04, 0x03, 0x02, 0x01]);
    assert_eq!(&bytes[8..10], &[0x02, 0x00]);
    assert_eq!(&bytes[10..12], &[13, 0]);
    assert_eq!(&bytes[12..16], &[3, 0, 0, 0]);
    let back = decode_header(&bytes);
    assert_eq!(back, h);
}

#[test]
fn page_span_and_offset() {
    assert_eq!(page_span(0, 4096), 4096);
    assert_eq!(page_span(3, 4096), 4 * 4096);
    assert_eq!(page_offset(5, 4096), Some(5 * 4096));
    assert_eq!(page_offset(u64::MAX, 4096), None);
}

fn valid_meta(txid: u64) -> Meta {
    let mut m = Meta {
        magic: 0xED0C_DAED,
        version: 2,
        page_size: 4096,
        flags: 0,
        root_pgid: 3,
        sequence: 0,
        freelist_pgid: 2,
        high_water_pgid: 4,
        txid: 0,
        checksum: 0,
    };
    m.write_for(txid);
    m
}

#[test]
fn meta_validate_accepts_and_rejects() {
    let m = valid_meta(7);
    assert!(m.validate().is_ok());

    let mut bad_magic = m;
    bad_magic.magic = 0xDEAD_BEEF;
    assert_eq!(bad_magic.validate(), Err(Error::Invalid));

    let mut bad_version = m;
    bad_version.version = 1;
    bad_version.checksum = bad_version.sum();
    assert_eq!(bad_version.validate(), Err(Error::VersionMismatch));

    let mut bad_sum = m;
    bad_sum.root_pgid = 99;
    assert_eq!(bad_sum.validate(), Err(Error::Checksum));
}

#[test]
fn meta_pick_prefers_higher_valid_txid() {
    let m0 = valid_meta(10);
    let m1 = valid_meta(11);
    assert_eq!(pick_meta(&m0, &m1), Ok(m1));
    assert_eq!(pick_meta(&m1, &m0), Ok(m1));

    // tie: the first slot wins
    let t0 = valid_meta(5);
    let t1 = valid_meta(5);
    assert_eq!(pick_meta(&t0, &t1), Ok(t0));

    // a torn write corrupts slot 1: the older slot 0 still wins
    let mut torn = valid_meta(12);
    torn.checksum ^= 1;
    assert_eq!(pick_meta(&m0, &torn), Ok(m0));

    let mut dead0 = valid_meta(1);
    dead0.magic = 0;
    assert_eq!(pick_meta(&dead0, &torn), Err(Error::Invalid));
}

#[test]
fn fresh_file_image() {
    let image = nut::db::init_file(4096);
    assert_eq!(image.len(), 4 * 4096);

    let m0 = decode_meta(&image[16..80]);
    let m1 = decode_meta(&image[4096 + 16..4096 + 80]);
    assert!(m0.validate().is_ok());
    assert!(m1.validate().is_ok());
    assert_eq!(m0.txid, 0);
    assert_eq!(m1.txid, 1);
    let live = pick_meta(&m0, &m1).unwrap();
    assert_eq!(live.txid, 1);
    assert_eq!(live.page_size, 4096);
    assert_eq!(live.freelist_pgid, 2);
    assert_eq!(live.root_pgid, 3);
    assert_eq!(live.high_water_pgid, 4);

    let h0 = decode_header(&image[0..16]);
    assert_eq!((h0.id, h0.flags, h0.count), (0, FLAG_META, 0));
    let h2 = decode_header(&image[2 * 4096..2 * 4096 + 16]);
    assert_eq!((h2.id, h2.flags, h2.count, h2.overflow), (2, FLAG_FREELIST, 0, 0));
    let h3 = decode_header(&image[3 * 4096..3 * 4096 + 16]);
    assert_eq!((h3.id, h3.flags, h3.count, h3.overflow), (3, FLAG_LEAVES, 0, 0));
}

#[test]
fn torn_meta_write_keeps_previous_state() {
    // a crash that tears the newer meta slot leaves the older one live
    let mut image = nut::db::init_file(4096);
    image[4096 + 20] ^= 0xff;
    let m0 = decode_meta(&image[16..80]);
    let m1 = decode_meta(&image[4096 + 16..4096 + 80]);
    assert!(m1.validate().is_err());
    let live = pick_meta(&m0, &m1).unwrap();
    assert_eq!(live.txid, 0);
    assert!(live.validate().is_ok());
}

#[test]
fn meta_bytes_roundtrip() {
    let m = valid_meta(42);
    let bytes = encode_meta(&m);
    assert_eq!(bytes.len(), 64);
    assert_eq!(&bytes[0..4], &[0xED, 0xDA, 0x0C, 0xED]);
    let back = decode_meta(&bytes);
    assert_eq!(back, m);
    assert!(back.validate().is_ok());
}
