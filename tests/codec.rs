use ie_net::client_command::{ClientCommand, LineError};
use ie_net::frame::{compress_bytes, decode_frame, FrameDecode};
use ie_net::guid::Guid;
use ie_net::login_client::{HandshakeError, IdentClientMessage, LoginClientMessage};
use ie_net::login_server::{IdentServerParams, RejectServerParams, WelcomeServerParams};
use ie_net::raw_command::try_parse_raw_command;
use ie_net::server_messages::{
    escape_quotes, prepare_command, ErrorMessage, Ipv4, JoinGameMessage, SyncStatsMessage,
    UserJoinedMessage, UserLeftMessage,
};
use ie_net::util::{bytevec_to_str, only_allowed_chars_not_empty, CharClass};

fn text(b: &[u8]) -> String {
    String::from_utf8_lossy(b).to_string()
}

fn payload_of(frame: &[u8]) -> Vec<u8> {
    match decode_frame(frame) {
        FrameDecode::Complete { consumed, payload } => {
            assert_eq!(consumed, frame.len());
            payload
        }
        other => panic!("not a complete frame: {:?}", other),
    }
}

fn le32(n: u32) -> Vec<u8> {
    n.to_le_bytes().to_vec()
}

fn slice_field(s: &[u8]) -> Vec<u8> {
    let mut v = le32(s.len() as u32);
    v.extend_from_slice(s);
    v
}

#[test]
fn test_guid() {
    let bytes = [
        0x00, 0x01, 0x02, 0x03, 0x04, 0x05, 0x06, 0x07, 0x08, 0x09, 0x0a, 0x0b, 0x0c, 0x0d, 0x0e,
        0x0f,
    ];
    let g = Guid::from_wire(&bytes);
    assert_eq!(text(&g.to_hyphenated()), "03020100-0504-0706-0809-0a0b0c0d0e0f");
    let parsed = Guid::parse_text(b"03020100-0504-0706-0809-0a0b0c0d0e0f").unwrap();
    assert!(parsed == g);
}

#[test]
fn guid_wire_round_trip() {
    let bytes: Vec<u8> = (0u8..16).map(|i| i * 17 + 3).collect();
    let g = Guid::from_wire(&bytes);
    assert_eq!(g.to_wire(), bytes);
    assert_ne!(g.bytes.to_vec(), bytes);
}

#[test]
fn guid_text_parse_rejects_garbage() {
    assert!(Guid::parse_text(b"secret").is_none());
    assert!(Guid::parse_text(b"").is_none());
    let g = Guid::parse_text(b"534ba248-a87c-4ce9-8bee-bc376aae6134").unwrap();
    assert_eq!(text(&g.to_hyphenated()), "534ba248-a87c-4ce9-8bee-bc376aae6134");
}

#[test]
fn frame_round_trip() {
    let payload = b"hello handshake payload".to_vec();
    let frame = compress_bytes(&payload).unwrap();
    assert_eq!(u32::from_le_bytes([frame[0], frame[1], frame[2], frame[3]]) as usize, frame.len());
    let mut with_rest = frame.clone();
    with_rest.extend_from_slice(b"rest");
    match decode_frame(&with_rest) {
        FrameDecode::Complete { consumed, payload: p } => {
            assert_eq!(consumed, frame.len());
            assert_eq!(p, payload);
        }
        other => panic!("{:?}", other),
    }
    assert!(matches!(decode_frame(&frame[..frame.len() - 1]), FrameDecode::Incomplete));
    assert!(matches!(decode_frame(&frame[..3]), FrameDecode::Incomplete));
}

fn adler32(data: &[u8]) -> u32 {
    let (mut a, mut b) = (1u32, 0u32);
    for &x in data {
        a = (a + x as u32) % 65521;
        b = (b + a) % 65521;
    }
    (b << 16) | a
}

/// A zlib stream of one stored block, so that its size is known exactly.
fn stored_zlib(data: &[u8]) -> Vec<u8> {
    let mut v = vec![0x78, 0x01, 0x01];
    let len = data.len() as u16;
    v.extend_from_slice(&len.to_le_bytes());
    v.extend_from_slice(&(!len).to_le_bytes());
    v.extend_from_slice(data);
    v.extend_from_slice(&adler32(data).to_be_bytes());
    v
}

#[test]
fn frame_of_4096_bytes_is_accepted_and_4097_is_not() {
    let data = vec![0x41u8; 4096 - 4 - 11];
    let z = stored_zlib(&data);
    let mut frame = le32(4096);
    frame.extend_from_slice(&z);
    assert_eq!(frame.len(), 4096);
    assert_eq!(payload_of(&frame), data);

    let mut big = le32(4097);
    big.extend_from_slice(&stored_zlib(&vec![0x41u8; 4097 - 4 - 11]));
    assert!(matches!(decode_frame(&big), FrameDecode::Malformed));
    assert!(matches!(decode_frame(&le32(4097)), FrameDecode::Malformed));
    assert!(matches!(decode_frame(&le32(4096)), FrameDecode::Incomplete));
    assert!(matches!(decode_frame(&le32(3)), FrameDecode::Malformed));
}

#[test]
fn bad_zlib_is_malformed() {
    let mut frame = le32(8);
    frame.extend_from_slice(b"nope");
    assert!(matches!(decode_frame(&frame), FrameDecode::Malformed));
}

#[test]
fn ident_and_login_are_read_from_frames() {
    let mut payload = vec![
        0x48, 0xa2, 0x4b, 0x53, 0x7c, 0xa8, 0xe9, 0x4c, 0x8b, 0xee, 0xbc, 0x37, 0x6a, 0xae, 0x61,
        0x34,
    ];
    payload.extend(slice_field(b"en"));
    let mut data = compress_bytes(&payload).unwrap();
    data.extend_from_slice(b"xy");
    let ident = IdentClientMessage::try_parse(&mut data).unwrap().unwrap();
    assert_eq!(text(&ident.game_version.to_hyphenated()), "534ba248-a87c-4ce9-8bee-bc376aae6134");
    assert_eq!(ident.language, b"en".to_vec());
    assert_eq!(data, b"xy".to_vec());

    let mut login = slice_field(b"foo");
    login.extend(slice_field(b"pw"));
    let mut data = compress_bytes(&login).unwrap();
    let full = data.clone();
    let mut partial = full[..full.len() - 2].to_vec();
    assert!(LoginClientMessage::try_parse(&mut partial).unwrap().is_none());
    assert_eq!(partial, full[..full.len() - 2].to_vec());
    let m = LoginClientMessage::try_parse(&mut data).unwrap().unwrap();
    assert_eq!(m.username, b"foo".to_vec());
    assert_eq!(m.password, b"pw".to_vec());
    assert!(data.is_empty());

    let mut short = compress_bytes(&le32(10)).unwrap();
    assert_eq!(LoginClientMessage::try_parse(&mut short).unwrap_err(), HandshakeError::BadPayload);
    let mut bad = le32(5000);
    assert_eq!(IdentClientMessage::try_parse(&mut bad).unwrap_err(), HandshakeError::BadFrame);
}

#[test]
fn ident_reply_and_reject_payloads() {
    let frame = IdentServerParams {}.prepare_message().unwrap();
    let mut expected = le32(0);
    expected.extend(le32(16));
    for _ in 0..4 {
        expected.extend(le32(0x1aff3b3c));
    }
    assert_eq!(payload_of(&frame), expected);

    let reject = RejectServerParams { reason: b"no".to_vec() };
    let mut expected = le32(2);
    expected.extend(slice_field(b"no"));
    assert_eq!(payload_of(&reject.prepare_message().unwrap()), expected);
}

#[test]
fn welcome_payload_layout() {
    let w = WelcomeServerParams {
        server_ident: b"IE::Net".to_vec(),
        welcome_message: b"hi".to_vec(),
        players_total: 3,
        players_online: 2,
        channels_total: 1,
        games_total: 4,
        games_running: 0,
        games_available: 5,
        game_versions: vec![b"tmp2.2".to_vec()],
        initial_channel: b"General".to_vec(),
    };
    let mut content = slice_field(b"IE::Net");
    content.extend(slice_field(b"hi"));
    content.extend(25u64.to_le_bytes());
    for n in [24, 3, 2, 1, 4, 0, 18, 5, 16] {
        content.extend(le32(n));
    }
    for _ in 0..3 {
        content.push(0);
        content.extend(slice_field(b"tmp2.2"));
        content.push(0xff);
    }
    content.push(0);
    content.extend(slice_field(b"General"));
    content.extend(le32(0));
    content.extend([0u8; 16]);
    content.extend(le32(0));
    content.extend([0u8; 16]);
    let mut expected = le32(0);
    expected.extend(slice_field(&content));
    assert_eq!(w.payload().unwrap(), expected);
    assert_eq!(payload_of(&w.prepare_message().unwrap()), expected);
}

#[test]
fn commands_are_quoted_and_escaped() {
    assert_eq!(escape_quotes(b"a\"b\""), b"a%22b%22".to_vec());
    let frame = prepare_command(b"/send", &vec![b"foo".to_vec(), b"say \"hi\"".to_vec()]);
    assert_eq!(frame, b"/send \"foo\" \"say %22hi%22\"\0".to_vec());
}

#[test]
fn rendered_command_parses_back() {
    let params = vec![b"a b".to_vec(), b"".to_vec(), b"q\"uote".to_vec()];
    let frame = prepare_command(b"/Send", &params);
    let line = &frame[..frame.len() - 1];
    let raw = try_parse_raw_command(line).unwrap();
    assert_eq!(raw.command, b"send".to_vec());
    assert_eq!(raw.params, vec![b"a b".to_vec(), b"".to_vec(), b"q%22uote".to_vec()]);
}

#[test]
fn formatter_exact_outputs() {
    let m = ErrorMessage { error: b"Invalid password".to_vec() };
    assert_eq!(text(&m.prepare_message()), "/error \"Invalid password\"\0");
    let m = UserJoinedMessage { username: b"foo".to_vec(), version_idx: 12, origin: Some(b"#General".to_vec()) };
    assert_eq!(text(&m.prepare_message()), "/$user \"foo\" \"12\" \"#General\"\0");
    let m = UserLeftMessage { username: b"foo".to_vec(), destination: None };
    assert_eq!(text(&m.prepare_message()), "/&user \"foo\"\0");
    let m = SyncStatsMessage { users_online: 2, users_total: 3, games_open: 1, games_total: 10, channels_total: 4 };
    assert_eq!(text(&m.prepare_message()), "/syncstats \"3\" \"2\" \"4\" \"10\" \"0\" \"\" \"1\"\0");
    let v = Guid::parse_text(b"534ba248-a87c-4ce9-8bee-bc376aae6134").unwrap();
    let id = Guid::parse_text(b"00112233-4455-6677-8899-aabbccddeeff").unwrap();
    let m = JoinGameMessage {
        version: v,
        game_name: b"MyGame".to_vec(),
        password: b"secret".to_vec(),
        ip_addr: Ipv4 { a: 192, b: 168, c: 1, d: 20 },
        id,
    };
    assert_eq!(
        text(&m.prepare_message()),
        "/playc \"534ba248-a87c-4ce9-8bee-bc376aae6134\" \"MyGame\" \"secret\" \"0x1401a8c0\" \"00112233-4455-6677-8899-aabbccddeeff\" \"192.168.1.20\"\0"
    );
}

#[test]
fn empty_line_is_a_no_op() {
    let mut data = b"\0/send hi\0".to_vec();
    assert!(matches!(ClientCommand::try_parse(&mut data), Ok(Some(ClientCommand::NoOp))));
    match ClientCommand::try_parse(&mut data) {
        Ok(Some(ClientCommand::Send { message })) => assert_eq!(message, b"hi".to_vec()),
        other => panic!("{:?}", other),
    }
    assert!(data.is_empty());
}

#[test]
fn command_lines_and_their_errors() {
    let mut data = b"/msg bar hello there\0/plays x\0/bogus 1\0\"\0/playc g pw\0/join a b\0".to_vec();
    match ClientCommand::try_parse(&mut data) {
        Ok(Some(ClientCommand::PrivateMessage { target, message })) => {
            assert_eq!(target, b"bar".to_vec());
            assert_eq!(message, b"hello there".to_vec());
        }
        other => panic!("{:?}", other),
    }
    match ClientCommand::try_parse(&mut data) {
        Ok(Some(ClientCommand::Malformed { reason })) => assert_eq!(text(&reason), "Missing parameters for /plays"),
        other => panic!("{:?}", other),
    }
    match ClientCommand::try_parse(&mut data) {
        Ok(Some(ClientCommand::Unknown { command })) => assert_eq!(command, b"bogus".to_vec()),
        other => panic!("{:?}", other),
    }
    match ClientCommand::try_parse(&mut data) {
        Ok(Some(ClientCommand::Malformed { reason })) => assert_eq!(text(&reason), "Received message is invalid"),
        other => panic!("{:?}", other),
    }
    match ClientCommand::try_parse(&mut data) {
        Ok(Some(ClientCommand::JoinGame { game_name, password })) => {
            assert_eq!(game_name, b"g".to_vec());
            assert_eq!(password, b"pw".to_vec());
        }
        other => panic!("{:?}", other),
    }
    match ClientCommand::try_parse(&mut data) {
        Ok(Some(ClientCommand::Join { channel })) => assert_eq!(channel, b"a b".to_vec()),
        other => panic!("{:?}", other),
    }
    assert!(matches!(ClientCommand::try_parse(&mut data), Ok(None)));
    let mut long = vec![b'a'; 1025];
    assert_eq!(ClientCommand::try_parse(&mut long).unwrap_err(), LineError::TooLong);
    let mut ok_len = vec![b'a'; 1024];
    assert!(matches!(ClientCommand::try_parse(&mut ok_len), Ok(None)));
}

#[test]
fn name_character_sets() {
    assert!(only_allowed_chars_not_empty(b"foo_bar-1.(x)", CharClass::Username));
    assert!(!only_allowed_chars_not_empty(b"", CharClass::Username));
    assert!(!only_allowed_chars_not_empty(b"a b", CharClass::Channel));
    assert!(only_allowed_chars_not_empty(b"My Game+1", CharClass::Game));
    assert!(!only_allowed_chars_not_empty(b"x.y", CharClass::Channel));
    assert_eq!(bytevec_to_str(b"General"), "General");
}
