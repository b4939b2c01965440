use kernel_core::blob::{DecodeError, Field, Request, TAG_GET, TAG_PUT, decode};
use kernel_core::ipc::{Message};

#[test]
fn put_and_get_wire_fields_round_trip() {
    let put = Message {
        tag: TAG_PUT,
        a: Field::pack(b"cfg"),
        b: Field::pack(b"persist"),
    };
    assert_eq!(
        decode(put),
        Ok(Request::Put {
            key: Field {
                len: 3,
                bytes: [b'c', b'f', b'g', 0, 0, 0, 0]
            },
            payload: Field {
                len: 7,
                bytes: *b"persist"
            },
        })
    );
    assert_eq!(
        decode(Message {
            tag: TAG_GET,
            a: Field::pack(b"cfg"),
            b: 0
        }),
        Ok(Request::Get {
            key: Field {
                len: 3,
                bytes: [b'c', b'f', b'g', 0, 0, 0, 0]
            },
        })
    );
}

#[test]
fn malformed_and_unknown_messages_are_refused() {
    assert_eq!(
        decode(Message {
            tag: TAG_PUT,
            a: 0,
            b: Field::pack(b"x")
        }),
        Err(DecodeError::BadKey)
    );
    assert_eq!(
        decode(Message {
            tag: TAG_GET,
            a: Field::pack(b"x"),
            b: 1
        }),
        Ok(Request::Get {
            key: Field {
                len: 1,
                bytes: [b'x', 0, 0, 0, 0, 0, 0]
            },
        })
    );
    assert_eq!(
        decode(Message { tag: 0, a: 0, b: 0 }),
        Err(DecodeError::UnknownTag)
    );
}

#[test]
fn a_field_longer_than_seven_bytes_is_refused_not_truncated() {
    assert_eq!(Field::unpack(Field::pack(b"eightbyt")), None);
    let long = [7u8; 257];
    assert_eq!(Field::unpack(Field::pack(&long)), None);
    assert_eq!(Field::pack(&long) >> 56, 255);
}
