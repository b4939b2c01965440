use kernel_core::net::{DecodeError, PACKET_BYTES, PACKET_SLOTS, PacketError, PacketPool, PacketToken, Request, TAG_REFUSED, TAG_RX_AVAILABLE, TAG_TX_COMPLETE, TAG_TX_SUBMIT, decode, packed_token, refused, rx_available, rx_return, tx_complete, tx_submit};
use kernel_core::ipc::Message;

#[test]
fn tx_and_rx_ownership_is_directional() {
    let mut pool = PacketPool::new();
    let tx = pool.submit_tx(0, 0, 64).unwrap();
    assert_eq!(pool.submit_tx(0, 0, 64), Err(PacketError::WrongOwner));
    assert_eq!(pool.publish_rx(0, 64), Err(PacketError::WrongDirection));
    pool.complete_tx(tx).unwrap();
    let rx = pool.publish_rx(PACKET_SLOTS / 2, 128).unwrap();
    assert_eq!(pool.return_rx(rx), Ok(()));
    assert_eq!(pool.return_rx(rx), Err(PacketError::WrongOwner));
}

#[test]
fn malformed_lengths_are_refused() {
    let mut pool = PacketPool::new();
    assert_eq!(
        pool.submit_tx(0, 0, PACKET_BYTES + 1),
        Err(PacketError::Oversize)
    );
    assert_eq!(
        pool.publish_rx(PACKET_SLOTS / 2, PACKET_BYTES + 1),
        Err(PacketError::Oversize)
    );
}

#[test]
fn reset_invalidates_outstanding_tokens() {
    let mut pool = PacketPool::new();
    let tx = pool.submit_tx(0, 0, 1).unwrap();
    let rx = pool.publish_rx(PACKET_SLOTS / 2, 1).unwrap();
    pool.reset();
    assert_eq!(pool.complete_tx(tx), Err(PacketError::StaleGeneration));
    assert_eq!(pool.return_rx(rx), Err(PacketError::StaleGeneration));
    let fresh = pool.submit_tx(0, 1, 1).unwrap();
    assert_eq!(fresh.generation, 1);
}


const TOKEN: PacketToken = PacketToken {
    slot: 3,
    generation: 0xAABB_CCDD,
    len: 1500,
};

#[test]
fn tx_and_return_round_trip_identity_only() {
    assert_eq!(decode(tx_submit(TOKEN)), Ok(Request::TxSubmit(TOKEN)));
    assert_eq!(decode(rx_return(TOKEN)), Ok(Request::RxReturn(TOKEN)));
    assert_eq!(tx_complete(TOKEN).a, rx_available(TOKEN).a);
}

#[test]
fn unknown_tag_is_refused() {
    assert_eq!(
        decode(Message { tag: 0, a: 0, b: 0 }),
        Err(DecodeError::UnknownTag)
    );
}

#[test]
fn reserved_bits_are_refused() {
    let message = Message {
        tag: TAG_TX_SUBMIT,
        a: packed_token(TOKEN) | (1 << 56),
        b: 0,
    };
    assert_eq!(decode(message), Err(DecodeError::ReservedBits));
}

#[test]
fn oversized_length_is_refused() {
    let message = Message {
        tag: TAG_TX_SUBMIT,
        a: packed_token(PacketToken {
            len: (PACKET_BYTES + 1) as u16,
            ..TOKEN
        }),
        b: 0,
    };
    assert_eq!(decode(message), Err(DecodeError::LengthOutOfRange));
}

#[test]
fn response_helpers_preserve_token_fields() {
    assert_eq!(
        decode(Message {
            tag: TAG_TX_COMPLETE,
            a: packed_token(TOKEN),
            b: 0
        }),
        Err(DecodeError::UnknownTag)
    );
    assert_eq!(tx_complete(TOKEN).tag, TAG_TX_COMPLETE);
    assert_eq!(rx_available(TOKEN).tag, TAG_RX_AVAILABLE);
    assert_eq!(
        refused(7),
        Message {
            tag: TAG_REFUSED,
            a: 7,
            b: 0
        }
    );
}
