use kernel_core::storage::{GetError, MAX_BLOBS, MAX_KEY_LEN, MAX_PAYLOAD, PutError, Table};

#[test]
fn put_get_round_trip() {
    let mut t = Table::new();
    t.put(b"cfg", b"hello").unwrap();
    let mut out = [0u8; MAX_PAYLOAD];
    let n = t.get(b"cfg", &mut out).unwrap();
    assert_eq!(&out[..n], b"hello");
}

#[test]
fn replace_updates_payload() {
    let mut t = Table::new();
    t.put(b"k", b"one").unwrap();
    t.put(b"k", b"two").unwrap();
    let mut out = [0u8; 8];
    let n = t.get(b"k", &mut out).unwrap();
    assert_eq!(&out[..n], b"two");
}

#[test]
fn missing_is_refused() {
    let t = Table::new();
    let mut out = [0u8; 8];
    assert_eq!(t.get(b"nope", &mut out), Err(GetError::Missing));
    assert!(!t.contains(b"nope"));
}

#[test]
fn delete_then_missing() {
    let mut t = Table::new();
    t.put(b"x", b"y").unwrap();
    t.delete(b"x").unwrap();
    let mut out = [0u8; 8];
    assert_eq!(t.get(b"x", &mut out), Err(GetError::Missing));
}

#[test]
fn bad_key_and_too_large() {
    let mut t = Table::new();
    assert_eq!(t.put(b"", b"a"), Err(PutError::BadKey));
    assert_eq!(t.put(&[0u8; MAX_KEY_LEN + 1], b"a"), Err(PutError::BadKey));
    let big = [0u8; MAX_PAYLOAD + 1];
    assert_eq!(t.put(b"k", &big), Err(PutError::TooLarge));
    assert_eq!(t.get(b"", &mut [0u8; 1]), Err(GetError::BadKey));
}

#[test]
fn full_table_refuses_new_key() {
    let mut t = Table::new();
    for i in 0..MAX_BLOBS {
        let key = [b'a' + i as u8];
        t.put(&key, b"v").unwrap();
    }
    assert_eq!(t.put(b"z", b"v"), Err(PutError::Full));
    // Replace still works.
    t.put(b"a", b"w").unwrap();
    let mut out = [0u8; 4];
    assert_eq!(t.get(b"a", &mut out).unwrap(), 1);
    assert_eq!(out[0], b'w');
}

#[test]
fn short_buffer_is_refused() {
    let mut t = Table::new();
    t.put(b"k", b"abcdef").unwrap();
    let mut out = [0u8; 2];
    assert_eq!(t.get(b"k", &mut out), Err(GetError::BufferTooSmall));
}

#[test]
fn keys_are_exact_match() {
    let mut t = Table::new();
    t.put(b"ab", b"1").unwrap();
    let mut out = [0u8; 4];
    assert_eq!(t.get(b"a", &mut out), Err(GetError::Missing));
    assert_eq!(t.get(b"abc", &mut out), Err(GetError::Missing));
    assert_eq!(t.get(b"ab", &mut out).unwrap(), 1);
}
