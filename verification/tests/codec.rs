//! Round trips and exact values for the binary encodings.

use rust_bot_plugin::codec::{u64_to_be_bytes, u64_from_be_bytes, u64_to_dec};
use rust_bot_plugin::entry::{Entry, EntryError};
use rust_bot_plugin::agent::{encode_opt_u64, decode_opt_u64, encode_opt_bytes, decode_opt_bytes};

#[test]
fn be_bytes_round_trip() {
    for x in [0u64, 1, 255, 256, 0xdead_beef, u64::MAX] {
        let b = u64_to_be_bytes(x);
        assert_eq!(b.len(), 8);
        assert_eq!(u64_from_be_bytes(&b), x);
    }
    assert_eq!(u64_to_be_bytes(1), vec![0, 0, 0, 0, 0, 0, 0, 1]);
}

#[test]
fn decimal_rendering_exact() {
    assert_eq!(u64_to_dec(0), "0");
    assert_eq!(u64_to_dec(7), "7");
    assert_eq!(u64_to_dec(10), "10");
    assert_eq!(u64_to_dec(1234567890), "1234567890");
    assert_eq!(u64_to_dec(u64::MAX), "18446744073709551615");
}

#[test]
fn entry_round_trip_ok_payload() {
    let entry = Entry::new(Ok(vec![1, 2, 3, 255]), 1700000000);
    let bytes = entry.to_bytes();
    let back = Entry::from_bytes(&bytes).expect("well-formed encoding");
    assert!(back == entry);
    assert_eq!(back.timestamp, 1700000000);
    assert_eq!(back.data.as_ref().unwrap(), &vec![1, 2, 3, 255]);
}

#[test]
fn entry_round_trip_every_error_kind() {
    let cases = vec![
        EntryError::NotYetResolved("k1".to_string()),
        EntryError::KeyDoesNotExist("k2".to_string()),
        EntryError::EntryReserved("k3".to_string()),
        EntryError::Error("some text".to_string()),
    ];
    for e in cases {
        let entry = Entry::new(Err(e.clone()), -5);
        let bytes = entry.to_bytes();
        let back = Entry::from_bytes(&bytes).expect("well-formed encoding");
        assert!(back == entry);
        assert_eq!(back.timestamp, -5);
        assert!(matches!(back.data, Err(ref got) if *got == e));
    }
}

#[test]
fn entry_decode_rejects_garbage() {
    assert!(Entry::from_bytes(&vec![]).is_none());
    assert!(Entry::from_bytes(&vec![0; 16]).is_none());
    // tag 9 is no entry kind
    let mut bytes = Entry::new(Ok(vec![]), 0).to_bytes();
    bytes[0] = 9;
    assert!(Entry::from_bytes(&bytes).is_none());
}

#[test]
fn entry_equality_ignores_timestamp() {
    let a = Entry::new(Ok(vec![1]), 10);
    let b = Entry::new(Ok(vec![1]), 20);
    let c = Entry::new(Ok(vec![2]), 10);
    assert!(a == b);
    assert!(a != c);
}

#[test]
fn entry_error_text() {
    assert_eq!(
        EntryError::NotYetResolved("k".to_string()).to_text(),
        "Error: Not yet resolved!: k"
    );
    assert_eq!(
        EntryError::KeyDoesNotExist("k".to_string()).to_text(),
        "Error: Key does not exist!: k"
    );
    assert_eq!(EntryError::EntryReserved("k".to_string()).to_text(), "Error: Entry reserved!: k");
    assert_eq!(EntryError::Error("boom".to_string()).to_text(), "boom");
}

#[test]
fn opt_u64_round_trip() {
    for o in [None, Some(0u64), Some(42), Some(u64::MAX)] {
        let b = encode_opt_u64(o);
        assert_eq!(decode_opt_u64(&b), Some(o));
    }
    assert_eq!(decode_opt_u64(&vec![2, 2, 2]), None);
}

#[test]
fn opt_bytes_round_trip() {
    for o in [None, Some(vec![]), Some(vec![9u8, 8, 7])] {
        let b = encode_opt_bytes(&o);
        assert_eq!(decode_opt_bytes(&b), Some(o));
    }
    assert_eq!(decode_opt_bytes(&vec![]), None);
}

#[test]
fn entry_round_trip_empty_payload() {
    let entry = Entry::new(Ok(Vec::new()), 0);
    let back = Entry::from_bytes(&entry.to_bytes()).expect("well-formed encoding");
    assert!(back == entry);
    assert_eq!(back.data.unwrap(), Vec::<u8>::new());
}

#[test]
fn is_same_data_compares_data_only() {
    let entry = Entry::new(Ok(vec![1, 2]), 7);
    assert!(entry.is_same_data(&Ok(vec![1, 2])));
    assert!(!entry.is_same_data(&Ok(vec![1])));
    assert!(!entry.is_same_data(&Err(EntryError::Error("x".to_string()))));
}
