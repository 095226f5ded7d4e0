use ie_net::broker::{Broker, Event, GameStatus, Location, Outgoing};
use ie_net::client::{allowed_game_version, process_commands, process_ident, process_login, process_messages, ConnectionAction, ConnectionError, LoginStatus};
use ie_net::client_command::LineError;
use ie_net::client_command::ClientCommand;
use ie_net::frame::compress_bytes;
use ie_net::guid::Guid;
use ie_net::server_messages::{Ipv4, ServerMessage};

fn ip() -> Ipv4 {
    Ipv4 { a: 127, b: 0, c: 0, d: 1 }
}

fn text(b: &[u8]) -> String {
    String::from_utf8_lossy(b).to_string()
}

fn login(b: &mut Broker, name: &str, n: u8, now: u64) -> (Guid, Vec<Outgoing>) {
    let id = Guid { bytes: [n; 16] };
    let out = b.handle_event(
        Event::NewUser { id, username: name.as_bytes().to_vec(), game_version: allowed_game_version(), ip_addr: ip() },
        now,
    );
    (id, out)
}

fn command(b: &mut Broker, id: Guid, c: ClientCommand, now: u64) -> Vec<Outgoing> {
    b.handle_event(Event::Command { id, command: c }, now)
}

/// What `id` receives, rendered; the Welcome shows as `<welcome>`.
fn received(out: &[Outgoing], id: Guid) -> Vec<String> {
    out.iter()
        .filter(|o| o.to.iter().any(|g| *g == id))
        .map(|o| match &o.message {
            ServerMessage::Login(_) => "<welcome>".to_string(),
            m => text(&m.prepare_message().unwrap()).trim_end_matches('\0').to_string(),
        })
        .collect()
}

fn location_of(b: &Broker, id: Guid) -> String {
    let u = b.users().iter().find(|u| u.id == id).unwrap();
    text(&u.location.to_bytes())
}

fn channel_names(b: &Broker) -> Vec<String> {
    b.channels().iter().map(|c| text(&c.name)).collect()
}

fn host(b: &mut Broker, id: Guid, name: &str, pw: &[u8], now: u64) -> Vec<Outgoing> {
    command(b, id, ClientCommand::HostGame { game_name: name.as_bytes().to_vec(), password_or_guid: pw.to_vec() }, now)
}

fn minted_guid(out: &[Outgoing]) -> Vec<u8> {
    out.iter()
        .find_map(|o| match &o.message {
            ServerMessage::CreateGame(m) => Some(m.id.to_hyphenated()),
            _ => None,
        })
        .unwrap()
}

#[test]
fn new_user_should_join_general_channel() {
    let mut b = Broker::new();
    let (foo, out) = login(&mut b, "foo", 1, 0);
    assert_eq!(
        received(&out, foo),
        vec![
            "<welcome>",
            "/$channel \"General\" \"0\"",
            "/join \"General\"",
            "/syncstats \"1\" \"1\" \"1\" \"0\" \"0\" \"\" \"0\"",
        ]
    );
    assert_eq!(channel_names(&b), vec!["General"]);
    assert!(b.users()[0].location.same(&Location::Channel { name: b"General".to_vec() }));
    assert_eq!(b.users()[0].location.to_string(), "#General");
}

#[test]
fn join_channel() {
    let mut b = Broker::new();
    let (foo, _) = login(&mut b, "foo", 1, 0);
    let out = command(&mut b, foo, ClientCommand::Join { channel: b"MyChannel".to_vec() }, 0);
    assert_eq!(
        received(&out, foo),
        vec!["/$channel \"MyChannel\" \"0\"", "/join \"MyChannel\"", "/&channel \"General\""]
    );
    assert_eq!(channel_names(&b), vec!["MyChannel"]);
    assert_eq!(location_of(&b, foo), "#MyChannel");
}

#[test]
fn others_see_a_user_leave_and_arrive() {
    let mut b = Broker::new();
    let (foo, _) = login(&mut b, "foo", 1, 0);
    let (bar, out) = login(&mut b, "bar", 2, 0);
    assert_eq!(received(&out, foo), vec!["/$user \"bar\" \"0\" \"[nowhere]\"", "/syncstats \"2\" \"2\" \"1\" \"0\" \"0\" \"\" \"0\""]);
    assert!(received(&out, bar).contains(&"$user \"foo\" \"0\"".to_string()));
    let out = command(&mut b, foo, ClientCommand::Join { channel: b"MyChannel".to_vec() }, 0);
    assert_eq!(received(&out, bar), vec!["/$channel \"MyChannel\" \"0\"", "/&user \"foo\" \"#MyChannel\"", "/syncstats \"2\" \"2\" \"2\" \"0\" \"0\" \"\" \"0\""]);
    let out = b.handle_event(Event::DropClient { id: foo }, 0);
    assert_eq!(received(&out, bar), vec!["/&channel \"MyChannel\"", "/syncstats \"1\" \"1\" \"1\" \"0\" \"0\" \"\" \"0\""]);
    assert_eq!(b.users().len(), 1);
}

#[test]
fn public_chat_reaches_everyone_in_the_channel() {
    let mut b = Broker::new();
    let (foo, _) = login(&mut b, "foo", 1, 0);
    let (bar, _) = login(&mut b, "bar", 2, 0);
    let out = command(&mut b, foo, ClientCommand::Send { message: b"hello".to_vec() }, 0);
    assert_eq!(received(&out, foo), vec!["/send \"foo\" \"hello\""]);
    assert_eq!(received(&out, bar), vec!["/send \"foo\" \"hello\""]);
}

#[test]
fn private_message_to_a_user() {
    let mut b = Broker::new();
    let (foo, _) = login(&mut b, "foo", 1, 0);
    let (bar, _) = login(&mut b, "bar", 2, 0);
    let out = command(&mut b, foo, ClientCommand::PrivateMessage { target: b"BAR".to_vec(), message: b"hi".to_vec() }, 0);
    assert_eq!(received(&out, foo), vec!["/msgc \"bar\" \"hi\""]);
    assert_eq!(received(&out, bar), vec!["/msg \"#General\" \"foo\" \"bar\" \"hi\""]);
}

#[test]
fn private_message_to_a_channel_and_missing_targets() {
    let mut b = Broker::new();
    let (foo, _) = login(&mut b, "foo", 1, 0);
    let (bar, _) = login(&mut b, "bar", 2, 0);
    let out = command(&mut b, foo, ClientCommand::PrivateMessage { target: b"#general".to_vec(), message: b"all".to_vec() }, 0);
    assert_eq!(received(&out, foo), vec!["/msgc \"#General\" \"all\"", "/msg \"#General\" \"foo\" \"#General\" \"all\""]);
    assert_eq!(received(&out, bar), vec!["/msg \"#General\" \"foo\" \"#General\" \"all\""]);
    let out = command(&mut b, foo, ClientCommand::PrivateMessage { target: b"#nope".to_vec(), message: b"x".to_vec() }, 0);
    assert_eq!(received(&out, foo), vec!["/error \"Channel does not exist\""]);
    let out = command(&mut b, foo, ClientCommand::PrivateMessage { target: b"$nope".to_vec(), message: b"x".to_vec() }, 0);
    assert_eq!(received(&out, foo), vec!["/error \"Game does not exist\""]);
    let out = command(&mut b, foo, ClientCommand::PrivateMessage { target: b"nobody".to_vec(), message: b"x".to_vec() }, 0);
    assert_eq!(received(&out, foo), vec!["/error \"User does not exist\""]);
}

#[test]
fn host_open_and_join_game() {
    let mut b = Broker::new();
    let (foo, _) = login(&mut b, "foo", 1, 0);
    let (bar, _) = login(&mut b, "bar", 2, 0);
    let out = host(&mut b, foo, "MyGame", b"secret", 0);
    let g = minted_guid(&out);
    let gt = text(&g);
    assert_eq!(
        received(&out, foo)[0],
        format!("/plays \"534ba248-a87c-4ce9-8bee-bc376aae6134\" \"MyGame\" \"secret\" \"0xcb\" \"{}\"", gt)
    );
    assert!(matches!(b.games()[0].status, GameStatus::Requested));

    let out = host(&mut b, foo, "MyGame", &g, 1000);
    let play = format!("/$play \"MyGame\" \"0\" \"0\" \"0\" \"{}\" \"0\"", gt);
    assert!(received(&out, bar).contains(&play));
    assert!(received(&out, foo).contains(&play));
    assert_eq!(location_of(&b, foo), "$MyGame");
    assert!(matches!(b.games()[0].status, GameStatus::Open));

    let out = command(&mut b, bar, ClientCommand::JoinGame { game_name: b"MyGame".to_vec(), password: b"secret".to_vec() }, 2000);
    assert_eq!(
        received(&out, bar),
        vec![format!(
            "/playc \"534ba248-a87c-4ce9-8bee-bc376aae6134\" \"MyGame\" \"secret\" \"0x0100007f\" \"{}\" \"127.0.0.1\"",
            gt
        )]
    );
    let out = command(&mut b, bar, ClientCommand::JoinGame { game_name: b"mygame".to_vec(), password: g.clone() }, 3000);
    assert!(received(&out, foo).contains(&"/$user \"bar\" \"0\" \"#General\"".to_string()));
    assert_eq!(location_of(&b, bar), "$MyGame");

    let out = host(&mut b, foo, "MyGame", &g, 4000);
    assert!(received(&out, bar).contains(&"/&play \"MyGame\"".to_string()));
    assert!(matches!(b.games()[0].status, GameStatus::Started));
}

#[test]
fn game_errors() {
    let mut b = Broker::new();
    let (foo, _) = login(&mut b, "foo", 1, 0);
    let (bar, _) = login(&mut b, "bar", 2, 0);
    let out = host(&mut b, foo, "Bad#Name", b"pw", 0);
    assert_eq!(received(&out, foo), vec!["/error \"Invalid game name\""]);
    host(&mut b, foo, "MyGame", b"secret", 0);
    let out = host(&mut b, bar, "mygame", b"00112233-4455-6677-8899-aabbccddeeff", 0);
    assert_eq!(received(&out, bar), vec!["/error \"Game already exists.\""]);
    let out = host(&mut b, foo, "MyGame", b"not a guid", 0);
    assert_eq!(received(&out, foo), vec!["/error \"Game already exists.\""]);
    let out = command(&mut b, bar, ClientCommand::JoinGame { game_name: b"MyGame".to_vec(), password: b"wrong".to_vec() }, 0);
    assert_eq!(received(&out, bar), vec!["/error \"Invalid password\""]);
    let out = command(&mut b, bar, ClientCommand::JoinGame { game_name: b"Other".to_vec(), password: b"x".to_vec() }, 0);
    assert_eq!(received(&out, bar), vec!["/error \"Game does not exist\""]);
}

#[test]
fn stale_host_cleanup() {
    let mut b = Broker::new();
    let (foo, _) = login(&mut b, "foo", 1, 0);
    let (bar, _) = login(&mut b, "bar", 2, 0);
    host(&mut b, foo, "MyGame", b"secret", 1000);
    let out = command(&mut b, bar, ClientCommand::NoOp, 31000);
    assert_eq!(b.games().len(), 1);
    assert!(out.is_empty());
    let out = command(&mut b, bar, ClientCommand::NoOp, 31001);
    assert!(b.games().is_empty());
    assert!(!received(&out, bar).iter().any(|m| m.starts_with("/&play")));
    let out = host(&mut b, foo, "MyGame", b"secret", 32000);
    assert!(received(&out, foo)[0].starts_with("/plays "));
    assert_eq!(b.games().len(), 1);
}

#[test]
fn open_game_left_empty_is_dropped() {
    let mut b = Broker::new();
    let (foo, _) = login(&mut b, "foo", 1, 0);
    let (bar, _) = login(&mut b, "bar", 2, 0);
    let out = host(&mut b, foo, "MyGame", b"secret", 0);
    let g = minted_guid(&out);
    host(&mut b, foo, "MyGame", &g, 0);
    let out = command(&mut b, foo, ClientCommand::Join { channel: b"General".to_vec() }, 0);
    assert!(received(&out, bar).contains(&"/&play \"MyGame\"".to_string()));
    assert!(b.games().is_empty());
}

#[test]
fn rejoining_the_same_channel_in_another_case_sends_nothing() {
    let mut b = Broker::new();
    let (foo, _) = login(&mut b, "foo", 1, 0);
    let out = command(&mut b, foo, ClientCommand::Join { channel: b"general".to_vec() }, 0);
    assert!(out.is_empty());
    assert_eq!(channel_names(&b), vec!["General"]);
}

#[test]
fn duplicate_login_is_dropped_silently() {
    let mut b = Broker::new();
    login(&mut b, "foo", 1, 0);
    let (dup, out) = login(&mut b, "FOO", 2, 0);
    assert!(received(&out, dup).is_empty());
    assert_eq!(b.users().len(), 1);
}

#[test]
fn bad_commands_get_errors() {
    let mut b = Broker::new();
    let (foo, _) = login(&mut b, "foo", 1, 0);
    let out = command(&mut b, foo, ClientCommand::Unknown { command: b"wat".to_vec() }, 0);
    assert_eq!(received(&out, foo), vec!["/error \"Unknown command: wat\""]);
    let out = command(&mut b, foo, ClientCommand::Join { channel: b"no spaces".to_vec() }, 0);
    assert_eq!(received(&out, foo), vec!["/error \"Invalid channel name\""]);
    let out = command(&mut b, foo, ClientCommand::Malformed { reason: b"Received message is invalid".to_vec() }, 0);
    assert_eq!(received(&out, foo), vec!["/error \"Received message is invalid\""]);
}

#[test]
fn handshake_steps() {
    let mut wire = vec![
        0x48, 0xa2, 0x4b, 0x53, 0x7c, 0xa8, 0xe9, 0x4c, 0x8b, 0xee, 0xbc, 0x37, 0x6a, 0xae, 0x61, 0x34,
    ];
    wire.extend_from_slice(&[2, 0, 0, 0, b'e', b'n']);
    let mut data = compress_bytes(&wire).unwrap();
    let (status, reply) = process_ident(&mut data).unwrap();
    assert!(matches!(status, LoginStatus::Greeted { .. }));
    assert!(matches!(reply, Some(ServerMessage::Login(_))));

    let mut other = vec![0u8; 16];
    other.extend_from_slice(&[0, 0, 0, 0]);
    let mut data = compress_bytes(&other).unwrap();
    let (status, reply) = process_ident(&mut data).unwrap();
    assert!(matches!(status, LoginStatus::Connected));
    match reply {
        Some(ServerMessage::Login(ie_net::login_server::LoginServerMessage::Reject(p))) => {
            assert_eq!(text(&p.reason), "Wrong game version. Please install version 2.2")
        }
        other => panic!("{:?}", other),
    }

    let id = Guid { bytes: [7; 16] };
    let mut bad = vec![2, 0, 0, 0, b'a', b' ', 2, 0, 0, 0, b'p', b'w'];
    let mut data = compress_bytes(&bad).unwrap();
    let (status, action) = process_login(id, ip(), allowed_game_version(), &mut data).unwrap();
    assert!(matches!(status, LoginStatus::Greeted { .. }));
    assert!(matches!(action, Some(ConnectionAction::Reply(_))));
    bad[5] = b'b';
    let mut data = compress_bytes(&bad).unwrap();
    let (status, action) = process_login(id, ip(), allowed_game_version(), &mut data).unwrap();
    assert!(matches!(status, LoginStatus::LoggedIn));
    match action {
        Some(ConnectionAction::Submit(Event::NewUser { username, .. })) => assert_eq!(username, b"ab".to_vec()),
        other => panic!("{:?}", other),
    }

    let mut line = b"\0/send x\0".to_vec();
    assert!(process_commands(id, &mut line).unwrap().is_none());
    assert!(matches!(process_commands(id, &mut line).unwrap(), Some(ConnectionAction::Submit(Event::Command { .. }))));
}

#[test]
fn game_steps_with_given_tokens() {
    let mut b = Broker::new();
    let (foo, _) = login(&mut b, "foo", 1, 0);
    let (bar, _) = login(&mut b, "bar", 2, 0);
    let invite = Guid { bytes: [9; 16] };
    let mut out = Vec::new();
    b.host_game(0, b"Duel", b"pw", None, 5, invite, &mut out);
    assert_eq!(received(&out, foo).len(), 1);
    assert!(b.games()[0].password == b"pw".to_vec());
    assert_eq!(b.games()[0].created_at, 5);
    let mut out = Vec::new();
    b.host_game(0, b"duel", b"ignored", Some(invite), 6, invite, &mut out);
    assert!(matches!(b.games()[0].status, GameStatus::Open));
    assert!(b.games()[0].id == invite);
    assert_eq!(location_of(&b, foo), "$Duel");
    let mut out = Vec::new();
    b.join_game(1, b"DUEL", b"whatever", Some(Guid { bytes: [8; 16] }), &mut out);
    assert_eq!(received(&out, bar), vec!["/error \"Invalid password\""]);
    let mut out = Vec::new();
    b.join_game(1, b"DUEL", b"whatever", Some(invite), &mut out);
    assert_eq!(location_of(&b, bar), "$Duel");
}

#[test]
fn connection_reads_everything_that_is_complete() {
    let id = Guid { bytes: [3; 16] };
    let mut ident = vec![
        0x48, 0xa2, 0x4b, 0x53, 0x7c, 0xa8, 0xe9, 0x4c, 0x8b, 0xee, 0xbc, 0x37, 0x6a, 0xae, 0x61, 0x34,
    ];
    ident.extend_from_slice(&[0, 0, 0, 0]);
    let mut data = compress_bytes(&ident).unwrap();
    data.extend(compress_bytes(&[3, 0, 0, 0, b'f', b'o', b'o', 0, 0, 0, 0]).unwrap());
    data.extend_from_slice(b"\0/send hi\0/join");
    let (status, actions) = process_messages(id, ip(), &mut data, LoginStatus::Connected);
    assert!(matches!(status, Ok(LoginStatus::LoggedIn)));
    assert_eq!(actions.len(), 3);
    assert!(matches!(actions[0], ConnectionAction::Reply(ServerMessage::Login(_))));
    assert!(matches!(&actions[1], ConnectionAction::Submit(Event::NewUser { username, .. }) if username == b"foo"));
    assert!(matches!(&actions[2], ConnectionAction::Submit(Event::Command { command: ClientCommand::Send { .. }, .. })));
    assert_eq!(data, b"/join".to_vec());

    let mut long = vec![b'x'; 1100];
    let (status, actions) = process_messages(id, ip(), &mut long, LoginStatus::LoggedIn);
    assert_eq!(status.unwrap_err(), ConnectionError::Line(LineError::TooLong));
    assert!(actions.is_empty());
}
