use vstd::prelude::*;
use crate::broker::Event;
use crate::client_command::{first_nul, has_nul, lemma_first_nul, line_spec, split_lines, ClientCommand, LineError, MAX_PENDING_LINE};
use crate::frame::{declared_len, frame_incomplete, frame_payload};
use crate::guid::Guid;
use crate::login_client::{ident_spec, login_spec, HandshakeError, IdentClientMessage, LoginClientMessage};
use crate::login_server::{IdentServerParams, LoginServerMessage, RejectServerParams};
use crate::server_messages::{Ipv4, ServerMessage};
use crate::util::{ascii, lit_bytes, only_allowed_chars_not_empty, valid_name, CharClass};

verus! {

/// Where a connection is in its handshake.
#[derive(Debug)]
pub enum LoginStatus {
    /// Waiting for the Ident.
    Connected,
    /// Ident accepted; waiting for the Login.
    Greeted { game_version: Guid },
    /// Logged in; reading commands.
    LoggedIn,
}

/// What the connection's reader does next.
#[derive(Debug)]
pub enum ConnectionAction {
    /// Send this to the client.
    Reply(ServerMessage),
    /// Hand this to the broker.
    Submit(Event),
}

/// Why a connection ends.
#[derive(Debug, Clone, Copy, PartialEq, Eq, Structural)]
pub enum ConnectionError {
    Handshake(HandshakeError),
    Line(LineError),
}

/// The game version that clients must declare: 534ba248-a87c-4ce9-8bee-bc376aae6134.
pub open spec fn allowed_version_bytes() -> Seq<u8> {
    seq![
        0x53u8, 0x4bu8, 0xa2u8, 0x48u8, 0xa8u8, 0x7cu8, 0x4cu8, 0xe9u8, 0x8bu8, 0xeeu8, 0xbcu8,
        0x37u8, 0x6au8, 0xaeu8, 0x61u8, 0x34u8,
    ]
}

pub fn allowed_game_version() -> (r: Guid)
    ensures
        r.bytes@ == allowed_version_bytes(),
{
    let r = Guid {
        bytes: [
            0x53, 0x4b, 0xa2, 0x48, 0xa8, 0x7c, 0x4c, 0xe9, 0x8b, 0xee, 0xbc, 0x37, 0x6a, 0xae,
            0x61, 0x34,
        ],
    };
    assert(r.bytes@ =~= allowed_version_bytes());
    r
}

fn reject(reason: &str) -> (r: ServerMessage)
    requires
        vstd::string::is_ascii(reason),
    ensures
        r matches ServerMessage::Login(LoginServerMessage::Reject(p)) && p.reason@ == ascii(reason@),
{
    ServerMessage::Login(LoginServerMessage::Reject(RejectServerParams { reason: lit_bytes(reason) }))
}

/// Reads one Ident: the allowed version is answered and greeted, any other is
/// refused and stays connected.
pub fn process_ident(received: &mut Vec<u8>) -> (r: Result<(LoginStatus, Option<ServerMessage>), ConnectionError>)
    ensures
        final(received)@.len() <= old(received)@.len(),
        frame_incomplete(old(received)@) ==> final(received)@ == old(received)@ && (r matches Ok((s, m)) && s is Connected && m is None),
        r matches Ok((LoginStatus::Greeted { game_version }, m)) ==> game_version.bytes@ == allowed_version_bytes()
            && (m matches Some(ServerMessage::Login(LoginServerMessage::Ident(_)))),
        r matches Ok((LoginStatus::Connected, Some(m))) ==> (m matches ServerMessage::Login(LoginServerMessage::Reject(p))
            && p.reason@ == ascii("Wrong game version. Please install version 2.2"@)),
        r matches Ok((s, _)) ==> !(s is LoggedIn),
        r matches Ok((_, Some(_))) ==> final(received)@ == old(received)@.subrange(declared_len(old(received)@), old(received)@.len() as int),
        !frame_incomplete(old(received)@) && frame_payload(old(received)@) is None ==> r
            == Err::<(LoginStatus, Option<ServerMessage>), ConnectionError>(ConnectionError::Handshake(HandshakeError::BadFrame)),
        frame_payload(old(received)@) matches Some(p) ==> match ident_spec(p) {
            None => r == Err::<(LoginStatus, Option<ServerMessage>), ConnectionError>(
                ConnectionError::Handshake(HandshakeError::BadPayload),
            ),
            Some((version, _)) => if version == allowed_version_bytes() {
                r matches Ok((LoginStatus::Greeted { .. }, Some(_)))
            } else {
                r matches Ok((LoginStatus::Connected, Some(_)))
            },
        },
{
    match IdentClientMessage::try_parse(received) {
        Err(e) => Err(ConnectionError::Handshake(e)),
        Ok(None) => Ok((LoginStatus::Connected, None)),
        Ok(Some(ident)) => {
            if ident.game_version == allowed_game_version() {
                Ok((
                    LoginStatus::Greeted { game_version: ident.game_version },
                    Some(ServerMessage::Login(LoginServerMessage::Ident(IdentServerParams {}))),
                ))
            } else {
                proof {
                    reveal_strlit("Wrong game version. Please install version 2.2");
                }
                Ok((LoginStatus::Connected, Some(reject("Wrong game version. Please install version 2.2"))))
            }
        },
    }
}

/// Reads one Login: a valid username logs in (the broker is told); another is
/// refused and stays greeted.
pub fn process_login(
    id: Guid,
    ip_addr: Ipv4,
    game_version: Guid,
    received: &mut Vec<u8>,
) -> (r: Result<(LoginStatus, Option<ConnectionAction>), ConnectionError>)
    ensures
        final(received)@.len() <= old(received)@.len(),
        frame_incomplete(old(received)@) ==> final(received)@ == old(received)@ && (r matches Ok((s, a)) && s is Greeted && a is None),
        r matches Ok((LoginStatus::LoggedIn, a)) ==> (a matches Some(ConnectionAction::Submit(Event::NewUser { id: i, username, game_version: v, ip_addr: ip }))
            && i == id && v == game_version && ip == ip_addr && valid_name(username@, CharClass::Username)),
        r matches Ok((LoginStatus::Greeted { game_version: v }, _)) ==> v == game_version,
        r matches Ok((LoginStatus::Greeted { game_version: v }, Some(a))) ==> v == game_version && (a matches ConnectionAction::Reply(
            ServerMessage::Login(LoginServerMessage::Reject(p))) && p.reason@ == ascii("translateInvalidCharactersInName"@)),
        r matches Ok((s, _)) ==> !(s is Connected),
        r matches Ok((_, Some(_))) ==> final(received)@ == old(received)@.subrange(declared_len(old(received)@), old(received)@.len() as int),
        !frame_incomplete(old(received)@) && frame_payload(old(received)@) is None ==> r
            == Err::<(LoginStatus, Option<ConnectionAction>), ConnectionError>(ConnectionError::Handshake(HandshakeError::BadFrame)),
        frame_payload(old(received)@) matches Some(p) ==> match login_spec(p) {
            None => r == Err::<(LoginStatus, Option<ConnectionAction>), ConnectionError>(
                ConnectionError::Handshake(HandshakeError::BadPayload),
            ),
            Some((username, _)) => if valid_name(username, CharClass::Username) {
                r matches Ok((LoginStatus::LoggedIn, Some(ConnectionAction::Submit(Event::NewUser { username: u, .. }))))
                    && u@ == username
            } else {
                r matches Ok((LoginStatus::Greeted { .. }, Some(_)))
            },
        },
{
    match LoginClientMessage::try_parse(received) {
        Err(e) => Err(ConnectionError::Handshake(e)),
        Ok(None) => Ok((LoginStatus::Greeted { game_version }, None)),
        Ok(Some(login)) => {
            if only_allowed_chars_not_empty(login.username.as_slice(), CharClass::Username) {
                Ok((
                    LoginStatus::LoggedIn,
                    Some(ConnectionAction::Submit(Event::NewUser { id, username: login.username, game_version, ip_addr })),
                ))
            } else {
                proof {
                    reveal_strlit("translateInvalidCharactersInName");
                }
                Ok((
                    LoginStatus::Greeted { game_version },
                    Some(ConnectionAction::Reply(reject("translateInvalidCharactersInName"))),
                ))
            }
        },
    }
}

/// Takes exactly one command line: every command but the empty line goes to
/// the broker.
pub fn process_commands(id: Guid, received: &mut Vec<u8>) -> (r: Result<Option<ConnectionAction>, ConnectionError>)
    ensures
        final(received)@.len() <= old(received)@.len(),
        !has_nul(old(received)@) ==> final(received)@ == old(received)@,
        !has_nul(old(received)@) && old(received)@.len() <= 1024 ==> r matches Ok(None),
        !has_nul(old(received)@) && old(received)@.len() > 1024 ==> r matches Err(ConnectionError::Line(LineError::TooLong)),
        has_nul(old(received)@) ==> final(received)@.len() < old(received)@.len() && r is Ok,
        r matches Ok(Some(a)) ==> (a matches ConnectionAction::Submit(Event::Command { id: i, command }) && i == id && !(command is NoOp)),
        has_nul(old(received)@) ==> ({
            let line = old(received)@.subrange(0, first_nul(old(received)@));
            &&& final(received)@ == old(received)@.subrange(first_nul(old(received)@) + 1, old(received)@.len() as int)
            &&& line.len() == 0 ==> (r matches Ok(None))
            &&& line.len() > 0 ==> (r matches Ok(Some(ConnectionAction::Submit(Event::Command { id: i, command })))
                && i == id && line_spec(command, line))
        }),
{
    match ClientCommand::try_parse(received) {
        Err(e) => Err(ConnectionError::Line(e)),
        Ok(None) => Ok(None),
        Ok(Some(ClientCommand::NoOp)) => Ok(None),
        Ok(Some(command)) => Ok(Some(ConnectionAction::Submit(Event::Command { id, command }))),
    }
}

/// What a connection may do: reply to its client, log in as itself (a valid
/// username, its own id and address), or submit a command of its own other
/// than the empty line.
pub open spec fn action_ok(a: ConnectionAction, id: Guid, ip_addr: Ipv4) -> bool {
    match a {
        ConnectionAction::Reply(_) => true,
        ConnectionAction::Submit(Event::NewUser { id: i, username, game_version, ip_addr: ip }) => i == id && ip == ip_addr
            && valid_name(username@, CharClass::Username) && game_version.bytes@ == allowed_version_bytes(),
        ConnectionAction::Submit(Event::Command { id: i, command }) => i == id && !(command is NoOp),
        ConnectionAction::Submit(Event::DropClient { .. }) => false,
    }
}

/// `actions` are, in order, the submissions of the non-empty lines among
/// `lines`, each the command that its line stands for.
pub open spec fn commands_match(actions: Seq<ConnectionAction>, lines: Seq<Seq<u8>>, id: Guid) -> bool
    decreases lines.len(),
{
    if lines.len() == 0 {
        actions.len() == 0
    } else if lines.last().len() == 0 {
        commands_match(actions, lines.drop_last(), id)
    } else {
        &&& actions.len() > 0
        &&& actions.last() matches ConnectionAction::Submit(Event::Command { id: i, command }) && i == id
            && line_spec(command, lines.last())
        &&& commands_match(actions.drop_last(), lines.drop_last(), id)
    }
}

/// The first action of a connection that is waiting for its Ident, where
/// `d` begins with a complete and readable Ident frame.
pub open spec fn first_ident_ok(d: Seq<u8>, actions: Seq<ConnectionAction>) -> bool {
    frame_payload(d).is_some() && ident_spec(frame_payload(d).unwrap()).is_some() ==> {
        let v = ident_spec(frame_payload(d).unwrap()).unwrap().0;
        &&& actions.len() > 0
        &&& v == allowed_version_bytes() ==> (actions[0] matches ConnectionAction::Reply(
            ServerMessage::Login(LoginServerMessage::Ident(_))))
        &&& v != allowed_version_bytes() ==> (actions[0] matches ConnectionAction::Reply(
            ServerMessage::Login(LoginServerMessage::Reject(p))) && p.reason@ == ascii(
            "Wrong game version. Please install version 2.2"@))
    }
}

/// The first action of a connection that is waiting for its Login, where `d`
/// begins with a complete and readable Login frame.
pub open spec fn first_login_ok(d: Seq<u8>, actions: Seq<ConnectionAction>) -> bool {
    frame_payload(d).is_some() && login_spec(frame_payload(d).unwrap()).is_some() ==> {
        let u = login_spec(frame_payload(d).unwrap()).unwrap().0;
        &&& actions.len() > 0
        &&& valid_name(u, CharClass::Username) ==> (actions[0] matches ConnectionAction::Submit(
            Event::NewUser { username, .. }) && username@ == u)
        &&& !valid_name(u, CharClass::Username) ==> (actions[0] matches ConnectionAction::Reply(
            ServerMessage::Login(LoginServerMessage::Reject(p))) && p.reason@ == ascii(
            "translateInvalidCharactersInName"@))
    }
}

/// The first action of a connection that starts at `initial` with the bytes
/// `d`, where `d` begins with a complete and readable handshake frame.
pub open spec fn first_action_ok(initial: LoginStatus, d: Seq<u8>, actions: Seq<ConnectionAction>) -> bool {
    match initial {
        LoginStatus::Connected => first_ident_ok(d, actions),
        LoginStatus::Greeted { .. } => first_login_ok(d, actions),
        LoginStatus::LoggedIn => true,
    }
}

/// Takes every complete line off the front of `received` and submits one
/// command per non-empty line, in order; fails where more than 1024 bytes
/// follow the last NUL.
pub fn process_command_lines(id: Guid, received: &mut Vec<u8>) -> (r: (Result<(), ConnectionError>, Vec<ConnectionAction>))
    ensures
        final(received)@.len() <= old(received)@.len(),
        final(received)@ == split_lines(old(received)@).1,
        commands_match(r.1@, split_lines(old(received)@).0, id),
        (r.0 is Ok) == (split_lines(old(received)@).1.len() <= MAX_PENDING_LINE),
        r.0 matches Err(e) ==> e == ConnectionError::Line(LineError::TooLong),
{
    let ghost mut done: Seq<Seq<u8>> = Seq::empty();
    let mut actions: Vec<ConnectionAction> = Vec::new();
    loop
        invariant
            received@.len() <= old(received)@.len(),
            split_lines(old(received)@).0 == done + split_lines(received@).0,
            split_lines(old(received)@).1 == split_lines(received@).1,
            commands_match(actions@, done, id),
        decreases received@.len(),
    {
        let ghost before_actions = actions@;
        let ghost before_received = received@;
        let before = received.len();
        proof {
            if has_nul(received@) {
                lemma_first_nul(received@);
            }
        }
        match process_commands(id, received) {
            Err(e) => {
                assert(split_lines(received@).0 =~= Seq::<Seq<u8>>::empty());
                assert(done + Seq::<Seq<u8>>::empty() =~= done);
                return (Err(e), actions);
            },
            Ok(a) => {
                if let Some(a) = a {
                    actions.push(a);
                }
                if received.len() >= before {
                    assert(split_lines(received@).0 =~= Seq::<Seq<u8>>::empty());
                    assert(done + Seq::<Seq<u8>>::empty() =~= done);
                    return (Ok(()), actions);
                }
                proof {
                    let line = before_received.subrange(0, first_nul(before_received));
                    let rest = split_lines(received@);
                    assert(split_lines(before_received).0 == seq![line] + rest.0);
                    assert(done + (seq![line] + rest.0) =~= done.push(line) + rest.0);
                    assert(done.push(line).drop_last() =~= done);
                    if line.len() > 0 {
                        assert(actions@.drop_last() =~= before_actions);
                    }
                    done = done.push(line);
                }
            },
        }
    }
}

proof fn lemma_commands_ok(actions: Seq<ConnectionAction>, lines: Seq<Seq<u8>>, id: Guid, ip_addr: Ipv4)
    requires
        commands_match(actions, lines, id),
    ensures
        forall|k: int| 0 <= k < actions.len() ==> action_ok(#[trigger] actions[k], id, ip_addr),
    decreases lines.len(),
{
    if lines.len() == 0 {
    } else if lines.last().len() == 0 {
        lemma_commands_ok(actions, lines.drop_last(), id, ip_addr);
    } else {
        lemma_commands_ok(actions.drop_last(), lines.drop_last(), id, ip_addr);
        assert forall|k: int| 0 <= k < actions.len() implies action_ok(#[trigger] actions[k], id, ip_addr) by {
            if k < actions.len() - 1 {
                assert(actions[k] == actions.drop_last()[k]);
            }
        }
    }
}

/// Reads everything complete in `received` from the state `initial`: returns
/// the new state (or why the connection ends) and the actions, in order. A
/// logged-in connection stays logged in, takes every complete line and submits
/// one command per non-empty line; it fails where more than 1024 bytes follow
/// the last NUL.
pub fn process_messages(
    id: Guid,
    ip_addr: Ipv4,
    received: &mut Vec<u8>,
    initial: LoginStatus,
) -> (r: (Result<LoginStatus, ConnectionError>, Vec<ConnectionAction>))
    requires
        initial matches LoginStatus::Greeted { game_version } ==> game_version.bytes@ == allowed_version_bytes(),
    ensures
        final(received)@.len() <= old(received)@.len(),
        forall|k: int| 0 <= k < r.1@.len() ==> action_ok(#[trigger] r.1@[k], id, ip_addr),
        r.0 matches Ok(LoginStatus::Greeted { game_version }) ==> game_version.bytes@ == allowed_version_bytes(),
        first_action_ok(initial, old(received)@, r.1@),
        initial is LoggedIn ==> {
            &&& final(received)@ == split_lines(old(received)@).1
            &&& commands_match(r.1@, split_lines(old(received)@).0, id)
            &&& r.0 matches Ok(s) ==> s is LoggedIn
            &&& (r.0 is Ok) == (split_lines(old(received)@).1.len() <= MAX_PENDING_LINE)
        },
{
    if let LoginStatus::LoggedIn = initial {
        let (res, actions) = process_command_lines(id, received);
        proof {
            lemma_commands_ok(actions@, split_lines(old(received)@).0, id, ip_addr);
        }
        let status = match res {
            Ok(()) => Ok(LoginStatus::LoggedIn),
            Err(e) => Err(e),
        };
        return (status, actions);
    }
    let ghost mut first_done = false;
    let mut status = initial;
    let mut actions: Vec<ConnectionAction> = Vec::new();
    while received.len() > 0
        invariant
            !(initial is LoggedIn),
            !(status is LoggedIn),
            received@.len() <= old(received)@.len(),
            forall|k: int| 0 <= k < actions@.len() ==> action_ok(#[trigger] actions@[k], id, ip_addr),
            status matches LoginStatus::Greeted { game_version } ==> game_version.bytes@ == allowed_version_bytes(),
            !first_done ==> status == initial && received@ == old(received)@ && actions@.len() == 0,
            first_done ==> first_action_ok(initial, old(received)@, actions@),
        decreases received@.len(),
    {
        let before = received.len();
        let ghost before_actions = actions@;
        let next = match status {
            LoginStatus::Connected => match process_ident(received) {
                Err(e) => {
                    assert(!first_done ==> initial is Connected && first_ident_ok(old(received)@, actions@));
                    return (Err(e), actions);
                },
                Ok((s, m)) => {
                    if let Some(m) = m {
                        actions.push(ConnectionAction::Reply(m));
                    }
                    assert(!first_done ==> initial is Connected && first_ident_ok(old(received)@, actions@));
                    s
                },
            },
            LoginStatus::Greeted { game_version } => match process_login(id, ip_addr, game_version, received) {
                Err(e) => {
                    assert(!first_done ==> initial is Greeted && first_login_ok(old(received)@, actions@));
                    return (Err(e), actions);
                },
                Ok((s, a)) => {
                    if let Some(a) = a {
                        actions.push(a);
                    }
                    assert(!first_done ==> initial is Greeted && first_login_ok(old(received)@, actions@));
                    s
                },
            },
            LoginStatus::LoggedIn => LoginStatus::LoggedIn,
        };
        assert forall|k: int| 0 <= k < actions@.len() implies action_ok(#[trigger] actions@[k], id, ip_addr) by {
            if k < before_actions.len() {
                assert(actions@[k] == before_actions[k]);
            }
        }
        proof {
            if first_done && before_actions.len() > 0 {
                assert(actions@[0] == before_actions[0]);
            }
            first_done = true;
        }
        if let LoginStatus::LoggedIn = next {
            let ghost kept = actions@;
            let ghost pre = received@;
            let (res, mut more) = process_command_lines(id, received);
            proof {
                lemma_commands_ok(more@, split_lines(pre).0, id, ip_addr);
            }
            let ghost more_v = more@;
            actions.append(&mut more);
            assert forall|k: int| 0 <= k < actions@.len() implies action_ok(#[trigger] actions@[k], id, ip_addr) by {
                if k < kept.len() {
                    assert(actions@[k] == kept[k]);
                } else {
                    assert(actions@[k] == more_v[k - kept.len()]);
                }
            }
            assert(kept.len() > 0 ==> actions@[0] == kept[0]);
            let status = match res {
                Ok(()) => Ok(LoginStatus::LoggedIn),
                Err(e) => Err(e),
            };
            return (status, actions);
        }
        if received.len() >= before {
            return (Ok(next), actions);
        }
        status = next;
    }
    proof {
        if !first_done {
            assert(old(received)@.len() == 0);
            assert(frame_payload(old(received)@) is None);
            assert(first_ident_ok(old(received)@, actions@) && first_login_ok(old(received)@, actions@));
        }
    }
    (Ok(status), actions)
}

} // verus!
