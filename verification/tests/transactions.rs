use nut::errors::Error;
use nut::meta::Meta;
use nut::tx::Tx;

fn base_meta(txid: u64) -> Meta {
    let mut m = Meta {
        magic: 0xED0C_DAED,
        version: 2,
        page_size: 4096,
        flags: 0,
        root_pgid: 3,
        sequence: 0,
        freelist_pgid: 2,
        high_water_pgid: 4,
        txid: 0,
        checksum: 0,
    };
    m.write_for(txid);
    m
}

#[test]
fn tx_begin_claims_next_id_when_writable() {
    let m = base_meta(7);
    let r = Tx::begin(m, false);
    assert_eq!(r.txid(), 7);
    assert!(!r.writable());
    let w = Tx::begin(m, true);
    assert_eq!(w.txid(), 8);
    assert!(w.writable());
    // commits alternate between the two meta slots
    assert_eq!(w.meta_slot(), 0);
    assert_eq!(Tx::begin(base_meta(8), true).meta_slot(), 1);
}

#[test]
fn tx_read_only_refuses_mutation() {
    let mut r = Tx::begin(base_meta(3), false);
    assert_eq!(r.put(b"k".to_vec(), b"v".to_vec()), Err(Error::TxNotWritable));
    assert_eq!(r.delete(b"k"), Err(Error::TxNotWritable));
    assert!(r.commit().is_err());
    assert_eq!(r.get(b"k").unwrap(), None);
    assert!(r.rollback().is_ok());
    assert_eq!(r.get(b"k"), Err(Error::TxClosed));
    assert_eq!(r.rollback(), Err(Error::TxClosed));
}

#[test]
fn tx_write_commit_lifecycle() {
    let mut tx = Tx::begin(base_meta(9), true);
    assert!(tx.put(b"a".to_vec(), b"1".to_vec()).is_ok());
    assert_eq!(tx.get(b"a").unwrap().cloned(), Some(b"1".to_vec()));
    assert!(tx.delete(b"a").is_ok());
    assert_eq!(tx.get(b"a").unwrap(), None);
    assert!(tx.put(b"b".to_vec(), b"2".to_vec()).is_ok());

    let committed = tx.commit().expect("commit");
    assert_eq!(committed.txid, 10);
    assert!(committed.validate().is_ok());

    // the transaction is closed: nothing more is allowed
    assert_eq!(tx.put(b"c".to_vec(), b"3".to_vec()), Err(Error::TxClosed));
    assert_eq!(tx.get(b"b"), Err(Error::TxClosed));
    assert!(tx.commit().is_err());
}
