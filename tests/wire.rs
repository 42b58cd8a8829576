use bittorrent::error::Error;
use bittorrent::wire::{keep_alive, Frame, Handshake, Message, MessageType};

#[test]
fn handshake_is_sixty_eight_bytes() {
    let h = Handshake::new(vec![0xab; 20], b"abcdefghijklmnopqrst".to_vec());
    let bytes = h.encode();
    assert_eq!(bytes.len(), 68);
    assert_eq!(bytes[0], 19);
    assert_eq!(&bytes[1..20], b"BitTorrent protocol");
    assert_eq!(&bytes[20..28], &[0u8; 8]);
    assert_eq!(&bytes[28..48], &[0xab; 20]);
    assert_eq!(&bytes[48..68], b"abcdefghijklmnopqrst");
}

#[test]
fn handshake_header_is_read_back() {
    let h = Handshake::new(vec![7; 20], vec![9; 20]);
    let bytes = h.encode();
    let (header, n) = Handshake::decode_header(&bytes).unwrap();
    assert_eq!(n, 48);
    assert_eq!(header.protocol, b"BitTorrent protocol".to_vec());
    assert_eq!(header.reserved, vec![0u8; 8]);
    assert_eq!(header.info_hash, vec![7u8; 20]);
    assert!(Handshake::decode_header(&bytes[..47]).is_none());
    assert!(Handshake::decode_header(&[]).is_none());
}

#[test]
fn message_framing() {
    let m = Message::new(MessageType::Have, vec![0, 0, 0, 1]);
    let bytes = m.encode();
    assert_eq!(bytes, vec![0, 0, 0, 5, 4, 0, 0, 0, 1]);
    match Message::decode_frame(&bytes).unwrap() {
        Some((Frame::Message(d), n)) => {
            assert_eq!(n, 9);
            assert_eq!(d, m);
            assert_eq!(d.message_type(), MessageType::Have);
            assert_eq!(d.payload(), &[0, 0, 0, 1]);
        }
        other => panic!("expected a message, got {:?}", other),
    }
}

#[test]
fn keep_alive_is_accepted() {
    let bytes = keep_alive();
    assert_eq!(bytes, vec![0, 0, 0, 0]);
    assert!(matches!(Message::decode_frame(&bytes), Ok(Some((Frame::KeepAlive, 4)))));
}

#[test]
fn short_frames_wait_for_more_bytes() {
    assert!(matches!(Message::decode_frame(&[0, 0]), Ok(None)));
    assert!(matches!(Message::decode_frame(&[0, 0, 0, 5, 4, 0]), Ok(None)));
}

#[test]
fn unknown_message_id_is_rejected() {
    assert!(matches!(
        Message::decode_frame(&[0, 0, 0, 1, 9]),
        Err(Error::MalformedContent(_))
    ));
}

#[test]
fn message_ids() {
    assert_eq!(MessageType::Choke.id(), 0);
    assert_eq!(MessageType::Cancel.id(), 8);
    assert_eq!(MessageType::from_id(7), Some(MessageType::Piece));
    assert_eq!(MessageType::from_id(9), None);
    let choke = Message::new(MessageType::Choke, vec![]);
    assert_eq!(choke.encode(), vec![0, 0, 0, 1, 0]);
}
