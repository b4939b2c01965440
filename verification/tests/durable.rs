use kernel_core::durable::{Blob, DecodeError, EncodeError, MAX_BLOBS, MAX_KEY_LEN, MAX_PAYLOAD, REGION_SIZE, decode, encode};

#[test]
fn encode_decode_round_trip() {
    let mut region = [0u8; REGION_SIZE];
    let blobs = [
        Blob {
            key: b"cfg",
            payload: b"harbor",
        },
        Blob {
            key: b"n",
            payload: b"1",
        },
    ];
    encode(&blobs, &mut region).unwrap();
    let mut keys = [[0u8; MAX_KEY_LEN]; MAX_BLOBS];
    let mut kl = [0usize; MAX_BLOBS];
    let mut payloads = [[0u8; MAX_PAYLOAD]; MAX_BLOBS];
    let mut pl = [0usize; MAX_BLOBS];
    let n = decode(&region, &mut keys, &mut kl, &mut payloads, &mut pl).unwrap();
    assert_eq!(n, 2);
    assert_eq!(&keys[0][..kl[0]], b"cfg");
    assert_eq!(&payloads[0][..pl[0]], b"harbor");
    assert_eq!(&keys[1][..kl[1]], b"n");
}

#[test]
fn bad_magic_refused() {
    let mut region = [0u8; 32];
    region[0] = b'X';
    let mut keys = [[0u8; MAX_KEY_LEN]; MAX_BLOBS];
    let mut kl = [0usize; MAX_BLOBS];
    let mut payloads = [[0u8; MAX_PAYLOAD]; MAX_BLOBS];
    let mut pl = [0usize; MAX_BLOBS];
    assert_eq!(
        decode(&region, &mut keys, &mut kl, &mut payloads, &mut pl),
        Err(DecodeError::BadMagic)
    );
}

#[test]
fn empty_key_refused() {
    let mut region = [0u8; REGION_SIZE];
    assert_eq!(
        encode(
            &[Blob {
                key: b"",
                payload: b"x"
            }],
            &mut region
        ),
        Err(EncodeError::BadKey)
    );
}
