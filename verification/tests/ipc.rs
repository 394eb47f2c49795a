use bytes::{Bytes, BytesMut};

use sysx::ipc::{
    decode_frame, encode_ipc_reply, peer_allowed_control, validate_peer_credentials, Command,
    CoreConfig, FrameError, Header, Message, PeerCredentials, MAX_CONCURRENT_FDS,
    MAX_PAYLOAD_BYTES, OUTCOME_SUCCESS, OUTCOME_UNAUTHORIZED, REASON_NA, STATUS_REASON_NONE,
    STATUS_RUNNING, SYSX_MAGIC, SYSX_VERSION,
};

#[test]
fn test_header_roundtrip() {
    let msg = Message::new(Command::Start, Bytes::from_static(b"test payload"));
    let encoded = msg.encode();
    assert!(encoded.len() >= Header::SIZE);
    let (h, pl) = decode_frame(&encoded).expect("decode_frame");
    assert_eq!(h.command, Command::Start);
    assert_eq!(pl, b"test payload");
}

#[test]
fn test_command_range() {
    assert!(Command::from_u8(0x10).is_some());
    assert_eq!(Some(Command::Stop), Command::from_u8(0x20));
    assert_eq!(Some(Command::Status), Command::from_u8(0x30));
    assert!(Command::from_u8(0x60).is_some());
    assert!(Command::from_u8(0x11).is_none());
    assert!(Command::from_u8(0x70).is_none());
}

#[test]
fn test_ipc_reply_roundtrip() {
    let b = encode_ipc_reply(Command::Status, 0x02, 0x00);
    let (h, pl) = decode_frame(&b).expect("reply decode");
    assert_eq!(h.command, Command::Status);
    assert_eq!(pl, &[0x02, 0x00]);
}

#[test]
fn frame_on_the_wire_byte_by_byte() {
    let encoded = Message::new(Command::Stop, Bytes::from_static(b"ab")).encode();
    let expected: Vec<u8> = vec![
        b'S', b'Y', b'S', b'X', 1, 0x20, 2, 0, 0, 0, 0, 0, 0, 0, 0, 0, b'a', b'b',
    ];
    assert_eq!(&encoded[..], &expected[..]);
}

#[test]
fn every_command_has_its_byte() {
    let all = vec![
        (Command::Start, 0x10),
        (Command::Stop, 0x20),
        (Command::Status, 0x30),
        (Command::Reset, 0x40),
        (Command::Poweroff, 0x50),
        (Command::Reboot, 0x60),
    ];
    for (c, b) in all {
        assert_eq!(c.to_u8(), b);
        assert_eq!(Command::from_u8(b), Some(c));
    }
    let known = (0..=255u8).filter(|b| Command::from_u8(*b).is_some()).count();
    assert_eq!(known, 6);
}

#[test]
fn header_appends_behind_what_is_there() {
    let mut buf = BytesMut::new();
    buf.extend_from_slice(b"xy");
    Header::new(Command::Reset, 0x0102).encode(&mut buf);
    assert_eq!(buf.len(), 18);
    assert_eq!(&buf[..8], b"xySYSX\x01\x40");
    assert_eq!(&buf[8..10], &[0x02, 0x01]);
    assert_eq!(&buf[10..], &[0u8; 8]);
}

#[test]
fn header_length_is_capped() {
    assert_eq!(Header::new(Command::Start, 5000).payload_length, 4096);
    assert_eq!(Header::new(Command::Start, 4096).payload_length, 4096);
    let h = Header { magic: SYSX_MAGIC, version: SYSX_VERSION, command: Command::Start, payload_length: 70000 };
    let mut buf = BytesMut::new();
    h.encode(&mut buf);
    assert_eq!(&buf[6..8], &[0x00, 0x10]);
}

#[test]
fn a_frame_is_as_long_as_its_header_announces() {
    for n in [0, 3, MAX_PAYLOAD_BYTES, MAX_PAYLOAD_BYTES + 1, MAX_PAYLOAD_BYTES + 3, 70_000] {
        let message = Message::new(Command::Start, Bytes::from(vec![7u8; n]));
        let sent = n.min(MAX_PAYLOAD_BYTES);
        assert_eq!(message.header.payload_length as usize, sent);
        let encoded = message.encode();
        assert_eq!(encoded.len(), 16 + sent);
        let (h, pl) = decode_frame(&encoded).unwrap();
        assert_eq!(h.payload_length as usize, sent);
        assert_eq!(pl, &vec![7u8; sent][..]);
    }
}

#[test]
fn no_frame_is_longer_than_the_largest() {
    let header = Header::new(Command::Start, 70_000);
    let encoded = Message { header, payload: Bytes::from(vec![7u8; 70_000]) }.encode();
    assert_eq!(encoded.len(), 16 + MAX_PAYLOAD_BYTES);
}

fn frame() -> Vec<u8> {
    Message::new(Command::Start, Bytes::from_static(b"web")).encode().to_vec()
}

#[test]
fn every_strict_part_of_a_frame_is_truncated() {
    let f = frame();
    for k in 0..f.len() {
        assert_eq!(decode_frame(&f[..k]).unwrap_err(), FrameError::TruncatedHeader);
    }
    assert!(decode_frame(&f).is_ok());
}

#[test]
fn bytes_behind_a_frame_are_left_alone() {
    let mut f = frame();
    f.extend_from_slice(b"more");
    let (h, pl) = decode_frame(&f).unwrap();
    assert_eq!(h.payload_length, 3);
    assert_eq!(pl, b"web");
}

#[test]
fn each_frame_error_has_an_input() {
    let mut f = frame();
    f[0] = b'T';
    assert_eq!(decode_frame(&f).unwrap_err(), FrameError::BadMagic);
    let mut f = frame();
    f[4] = 9;
    assert_eq!(decode_frame(&f).unwrap_err(), FrameError::VersionMismatch { got: 9 });
    let mut f = frame();
    f[5] = 0x11;
    assert_eq!(decode_frame(&f).unwrap_err(), FrameError::UnknownCommand(0x11));
    let mut f = frame();
    f[6] = 0x01;
    f[7] = 0x10;
    assert_eq!(decode_frame(&f).unwrap_err(), FrameError::PayloadTooLarge(4097));
    assert_eq!(
        validate_peer_credentials(None).unwrap_err(),
        FrameError::CredValidationFailed
    );
}

#[test]
fn header_decodes_from_the_first_sixteen_bytes() {
    let h = Header::decode(Bytes::from(frame())).unwrap();
    assert_eq!(h.magic, SYSX_MAGIC);
    assert_eq!(h.version, SYSX_VERSION);
    assert_eq!(h.command, Command::Start);
    assert_eq!(h.payload_length, 3);
    assert_eq!(
        Header::decode(Bytes::from_static(b"SYSX")).unwrap_err(),
        FrameError::TruncatedHeader
    );
}

#[test]
fn frame_errors_in_words() {
    assert_eq!(FrameError::TruncatedHeader.message(), "truncated header");
    assert_eq!(FrameError::BadMagic.message(), "bad magic bytes");
    assert_eq!(
        FrameError::VersionMismatch { got: 12 }.message(),
        "version mismatch: got 12, expected 1"
    );
    assert_eq!(FrameError::UnknownCommand(0x0f).message(), "unknown command: 0x0f");
    assert_eq!(
        FrameError::PayloadTooLarge(4097).message(),
        "payload too large: 4097 bytes (max 4096)"
    );
    assert_eq!(FrameError::CredValidationFailed.message(), "SO_PEERCRED validation failed");
}

#[test]
fn only_root_and_administrators_command() {
    let c = PeerCredentials { pid: 7, uid: 1000, gid: 50 };
    assert!(peer_allowed_control(&c, 50));
    assert!(!peer_allowed_control(&c, 51));
    assert!(peer_allowed_control(&PeerCredentials { pid: 7, uid: 0, gid: 1 }, 50));
    assert_eq!(validate_peer_credentials(Some(c)).unwrap(), c);
}

#[test]
fn message_clone_encodes_the_same() {
    let m = Message::new(Command::Reset, Bytes::from_static(b"web"));
    let n = m.clone();
    assert_eq!(m.encode(), n.encode());
    assert_eq!(n.payload, Bytes::from_static(b"web"));
}

#[test]
fn core_config_defaults() {
    let c = CoreConfig::default();
    assert_eq!(c.epoll_timeout_ms, 5000);
    assert_eq!(c.max_payload_bytes, 4096);
    assert_eq!(c.max_concurrent_fds, MAX_CONCURRENT_FDS);
    assert_eq!(MAX_CONCURRENT_FDS, 64);
    assert_eq!(OUTCOME_SUCCESS, 0);
    assert_eq!(OUTCOME_UNAUTHORIZED, 2);
    assert_eq!(REASON_NA, 0);
    assert_eq!(STATUS_RUNNING, 2);
    assert_eq!(STATUS_REASON_NONE, 0);
}
