use vstd::prelude::*;
use crate::guid::{Guid, hyphenated, hex_digit};
use crate::raw_command::{bare_end, is_space, letters_end, list_from, param_at, param_starts, parse_line, quote_end, spaces_end, views};
use crate::frame::{frame_of, zlib_deflated};
use crate::login_server::LoginServerMessage;
use crate::util::{ascii, decimal, decimal_of, is_letter, lit_bytes, lower, push_all, copy_bytes};

verus! {

/// An IPv4 address by its four octets, in the order of its dotted form.
#[derive(Clone, Copy, Debug, PartialEq, Eq, Structural)]
pub struct Ipv4 {
    pub a: u8,
    pub b: u8,
    pub c: u8,
    pub d: u8,
}

/// Two lowercase hex digits of a byte.
pub open spec fn hex2(v: u8) -> Seq<u8> {
    seq![hex_digit(v / 16), hex_digit(v % 16)]
}

impl Ipv4 {
    /// `a.b.c.d`.
    pub open spec fn dotted(self) -> Seq<u8> {
        decimal(self.a as nat) + seq![0x2eu8] + decimal(self.b as nat) + seq![0x2eu8] + decimal(
            self.c as nat,
        ) + seq![0x2eu8] + decimal(self.d as nat)
    }

    /// `0x` and eight hex digits of the address read as a little-endian `u32`.
    pub open spec fn le_hex(self) -> Seq<u8> {
        seq![0x30u8, 0x78u8] + hex2(self.d) + hex2(self.c) + hex2(self.b) + hex2(self.a)
    }

    pub fn to_dotted(&self) -> (r: Vec<u8>)
        ensures
            r@ == self.dotted(),
    {
        let mut r = decimal_of(self.a as u32);
        r.push(0x2e);
        push_all(&mut r, decimal_of(self.b as u32).as_slice());
        r.push(0x2e);
        push_all(&mut r, decimal_of(self.c as u32).as_slice());
        r.push(0x2e);
        push_all(&mut r, decimal_of(self.d as u32).as_slice());
        assert(r@ =~= self.dotted());
        r
    }

    pub fn to_le_hex(&self) -> (r: Vec<u8>)
        ensures
            r@ == self.le_hex(),
    {
        let mut r: Vec<u8> = Vec::new();
        r.push(0x30);
        r.push(0x78);
        push_hex2(&mut r, self.d);
        push_hex2(&mut r, self.c);
        push_hex2(&mut r, self.b);
        push_hex2(&mut r, self.a);
        assert(r@ =~= self.le_hex());
        r
    }
}

fn push_hex2(r: &mut Vec<u8>, v: u8)
    ensures
        final(r)@ == old(r)@ + hex2(v),
{
    let hi = v / 16;
    let lo = v % 16;
    r.push(if hi < 10 { 0x30 + hi } else { 0x61 + hi - 10 });
    r.push(if lo < 10 { 0x30 + lo } else { 0x61 + lo - 10 });
    assert(final(r)@ =~= old(r)@ + hex2(v));
}

/// A parameter as sent: each `"` becomes `%22`.
pub open spec fn escape(p: Seq<u8>) -> Seq<u8>
    decreases p.len(),
{
    if p.len() == 0 {
        Seq::empty()
    } else {
        escape(p.drop_last()) + if p.last() == 0x22 {
            seq![0x25u8, 0x32u8, 0x32u8]
        } else {
            seq![p.last()]
        }
    }
}

/// Each parameter as ` "<escaped>"`.
pub open spec fn quoted_params(ps: Seq<Seq<u8>>) -> Seq<u8>
    decreases ps.len(),
{
    if ps.len() == 0 {
        Seq::empty()
    } else {
        quoted_params(ps.drop_last()) + seq![0x20u8, 0x22u8] + escape(ps.last()) + seq![0x22u8]
    }
}

/// A command line as sent, without its terminator.
pub open spec fn command_text(verb: Seq<u8>, ps: Seq<Seq<u8>>) -> Seq<u8> {
    verb + quoted_params(ps)
}

/// A command frame: the line and a NUL.
pub open spec fn command_frame(verb: Seq<u8>, ps: Seq<Seq<u8>>) -> Seq<u8> {
    command_text(verb, ps).push(0u8)
}

/// `input` with every `"` replaced by `%22`.
pub fn escape_quotes(input: &[u8]) -> (r: Vec<u8>)
    ensures
        r@ == escape(input@),
{
    let mut r: Vec<u8> = Vec::new();
    let mut i: usize = 0;
    while i < input.len()
        invariant
            0 <= i <= input@.len(),
            r@ == escape(input@.subrange(0, i as int)),
        decreases input@.len() - i,
    {
        let b = input[i];
        if b == 0x22 {
            r.push(0x25);
            r.push(0x32);
            r.push(0x32);
        } else {
            r.push(b);
        }
        i += 1;
        assert(input@.subrange(0, i as int).drop_last() =~= input@.subrange(0, i - 1));
        assert(r@ =~= escape(input@.subrange(0, i as int)));
    }
    assert(input@.subrange(0, i as int) =~= input@);
    r
}

/// The frame of a command: the verb, each parameter quoted and escaped, a NUL.
pub fn prepare_command(command: &[u8], params: &Vec<Vec<u8>>) -> (r: Vec<u8>)
    ensures
        r@ == command_frame(command@, views(params@)),
{
    let mut r = copy_bytes(command);
    let mut i: usize = 0;
    while i < params.len()
        invariant
            0 <= i <= params@.len(),
            r@ == command@ + quoted_params(views(params@.subrange(0, i as int))),
        decreases params@.len() - i,
    {
        r.push(0x20);
        r.push(0x22);
        let e = escape_quotes(params[i].as_slice());
        push_all(&mut r, e.as_slice());
        r.push(0x22);
        i += 1;
        assert(views(params@.subrange(0, i as int)).drop_last() =~= views(
            params@.subrange(0, i - 1),
        ));
        assert(r@ =~= command@ + quoted_params(views(params@.subrange(0, i as int))));
    }
    assert(params@.subrange(0, i as int) =~= params@);
    r.push(0);
    r
}

/// A public message to a location: `/send username message`.
#[derive(Debug)]
pub struct SendMessage {
    pub username: Vec<u8>,
    pub message: Vec<u8>,
}

/// A private message as delivered: `/msg location from to message`.
#[derive(Debug)]
pub struct PrivateMessage {
    pub from: Vec<u8>,
    pub to: Vec<u8>,
    pub location: Vec<u8>,
    pub message: Vec<u8>,
}

/// The echo of a private message to its sender: `/msgc to message`.
#[derive(Debug)]
pub struct SentPrivateMessage {
    pub to: Vec<u8>,
    pub message: Vec<u8>,
}

/// `/error reason`.
#[derive(Debug)]
pub struct ErrorMessage {
    pub error: Vec<u8>,
}

/// `/$channel name 0`.
#[derive(Debug)]
pub struct NewChannelMessage {
    pub channel_name: Vec<u8>,
}

/// `/&channel name`.
#[derive(Debug)]
pub struct DropChannelMessage {
    pub channel_name: Vec<u8>,
}

/// One occupant of a channel just joined: `$user username 0`.
#[derive(Debug)]
pub struct NewUserMessage {
    pub username: Vec<u8>,
}

/// `/$user username version [origin]`.
#[derive(Debug)]
pub struct UserJoinedMessage {
    pub username: Vec<u8>,
    pub version_idx: u32,
    pub origin: Option<Vec<u8>>,
}

/// `/&user username [destination]`.
#[derive(Debug)]
pub struct UserLeftMessage {
    pub username: Vec<u8>,
    pub destination: Option<Vec<u8>>,
}

/// `/join channel`.
#[derive(Debug)]
pub struct JoinChannelMessage {
    pub channel_name: Vec<u8>,
}

/// To a host: `/plays version name password 0xcb id`.
#[derive(Debug)]
pub struct CreateGameMessage {
    pub version: Guid,
    pub game_name: Vec<u8>,
    pub password: Vec<u8>,
    pub id: Guid,
}

/// To a joiner: `/playc version name password 0x<ip> id <dotted ip>`.
#[derive(Debug)]
pub struct JoinGameMessage {
    pub version: Guid,
    pub game_name: Vec<u8>,
    pub password: Vec<u8>,
    pub ip_addr: Ipv4,
    pub id: Guid,
}

/// `/$play name 0 0 0 id 0`.
#[derive(Debug)]
pub struct NewGameMessage {
    pub game_name: Vec<u8>,
    pub id: Guid,
}

/// `/&play name`.
#[derive(Debug)]
pub struct DropGameMessage {
    pub game_name: Vec<u8>,
}

/// `/syncstats users_total users_online channels_total games_total 0 "" games_open`.
#[derive(Debug)]
pub struct SyncStatsMessage {
    pub users_online: u32,
    pub users_total: u32,
    pub games_open: u32,
    pub games_total: u32,
    pub channels_total: u32,
}

/// A line sent as it is, with a NUL.
#[derive(Debug)]
pub struct RawMessage {
    pub message: Vec<u8>,
}

/// `"0"`.
pub open spec fn zero_text() -> Seq<u8> {
    seq![0x30u8]
}

fn vec2(a: Vec<u8>, b: Vec<u8>) -> (r: Vec<Vec<u8>>)
    ensures
        views(r@) == seq![a@, b@],
{
    let mut r: Vec<Vec<u8>> = Vec::new();
    r.push(a);
    r.push(b);
    assert(views(r@) =~= seq![a@, b@]);
    r
}

fn push_param(ps: &mut Vec<Vec<u8>>, p: Vec<u8>)
    ensures
        views(final(ps)@) == views(old(ps)@).push(p@),
{
    ps.push(p);
    assert(views(final(ps)@) =~= views(old(ps)@).push(p@));
}

fn zero() -> (r: Vec<u8>)
    ensures
        r@ == zero_text(),
{
    let mut r: Vec<u8> = Vec::new();
    r.push(0x30);
    r
}

impl SendMessage {
    /// The frame as sent.
    pub open spec fn frame(&self) -> Seq<u8> {
        command_frame(ascii("/send"@), seq![self.username@, self.message@])
    }

    pub fn prepare_message(&self) -> (r: Vec<u8>)
        ensures
            r@ == self.frame(),
    {
        proof {
            reveal_strlit("/send");
        }
        let ps = vec2(copy_bytes(self.username.as_slice()), copy_bytes(self.message.as_slice()));
        prepare_command(lit_bytes("/send").as_slice(), &ps)
    }
}

impl PrivateMessage {
    /// The frame as sent.
    pub open spec fn frame(&self) -> Seq<u8> {
        command_frame(
            ascii("/msg"@),
            seq![self.location@, self.from@, self.to@, self.message@],
        )
    }

    pub fn prepare_message(&self) -> (r: Vec<u8>)
        ensures
            r@ == self.frame(),
    {
        proof {
            reveal_strlit("/msg");
        }
        let mut ps = vec2(copy_bytes(self.location.as_slice()), copy_bytes(self.from.as_slice()));
        push_param(&mut ps, copy_bytes(self.to.as_slice()));
        push_param(&mut ps, copy_bytes(self.message.as_slice()));
        assert(views(ps@) =~= seq![self.location@, self.from@, self.to@, self.message@]);
        prepare_command(lit_bytes("/msg").as_slice(), &ps)
    }
}

impl SentPrivateMessage {
    /// The frame as sent.
    pub open spec fn frame(&self) -> Seq<u8> {
        command_frame(ascii("/msgc"@), seq![self.to@, self.message@])
    }

    pub fn prepare_message(&self) -> (r: Vec<u8>)
        ensures
            r@ == self.frame(),
    {
        proof {
            reveal_strlit("/msgc");
        }
        let ps = vec2(copy_bytes(self.to.as_slice()), copy_bytes(self.message.as_slice()));
        prepare_command(lit_bytes("/msgc").as_slice(), &ps)
    }
}

impl ErrorMessage {
    /// An error message with the reason given.
    pub fn new_err(error: &[u8]) -> (r: ServerMessage)
        ensures
            r matches ServerMessage::Error(m) && m.error@ == error@,
    {
        ServerMessage::Error(ErrorMessage { error: copy_bytes(error) })
    }

    /// The frame as sent.
    pub open spec fn frame(&self) -> Seq<u8> {
        command_frame(ascii("/error"@), seq![self.error@])
    }

    pub fn prepare_message(&self) -> (r: Vec<u8>)
        ensures
            r@ == self.frame(),
    {
        proof {
            reveal_strlit("/error");
        }
        let mut ps: Vec<Vec<u8>> = Vec::new();
        push_param(&mut ps, copy_bytes(self.error.as_slice()));
        assert(views(ps@) =~= seq![self.error@]);
        prepare_command(lit_bytes("/error").as_slice(), &ps)
    }
}

impl NewChannelMessage {
    /// The frame as sent.
    pub open spec fn frame(&self) -> Seq<u8> {
        command_frame(ascii("/$channel"@), seq![self.channel_name@, zero_text()])
    }

    pub fn prepare_message(&self) -> (r: Vec<u8>)
        ensures
            r@ == self.frame(),
    {
        proof {
            reveal_strlit("/$channel");
        }
        let ps = vec2(copy_bytes(self.channel_name.as_slice()), zero());
        prepare_command(lit_bytes("/$channel").as_slice(), &ps)
    }
}

impl DropChannelMessage {
    /// The frame as sent.
    pub open spec fn frame(&self) -> Seq<u8> {
        command_frame(ascii("/&channel"@), seq![self.channel_name@])
    }

    pub fn prepare_message(&self) -> (r: Vec<u8>)
        ensures
            r@ == self.frame(),
    {
        proof {
            reveal_strlit("/&channel");
        }
        let mut ps: Vec<Vec<u8>> = Vec::new();
        push_param(&mut ps, copy_bytes(self.channel_name.as_slice()));
        assert(views(ps@) =~= seq![self.channel_name@]);
        prepare_command(lit_bytes("/&channel").as_slice(), &ps)
    }
}

impl NewUserMessage {
    /// The frame as sent.
    pub open spec fn frame(&self) -> Seq<u8> {
        command_frame(ascii("$user"@), seq![self.username@, zero_text()])
    }

    pub fn prepare_message(&self) -> (r: Vec<u8>)
        ensures
            r@ == self.frame(),
    {
        proof {
            reveal_strlit("$user");
        }
        let ps = vec2(copy_bytes(self.username.as_slice()), zero());
        prepare_command(lit_bytes("$user").as_slice(), &ps)
    }
}

/// An optional last parameter.
pub open spec fn opt_param(o: Option<Vec<u8>>) -> Seq<Seq<u8>> {
    match o {
        Some(v) => seq![v@],
        None => Seq::empty(),
    }
}

impl UserJoinedMessage {
    /// The frame as sent.
    pub open spec fn frame(&self) -> Seq<u8> {
        command_frame(
            ascii("/$user"@),
            seq![self.username@, decimal(self.version_idx as nat)] + opt_param(self.origin),
        )
    }

    pub fn prepare_message(&self) -> (r: Vec<u8>)
        ensures
            r@ == self.frame(),
    {
        proof {
            reveal_strlit("/$user");
        }
        let mut ps = vec2(copy_bytes(self.username.as_slice()), decimal_of(self.version_idx));
        if let Some(o) = &self.origin {
            push_param(&mut ps, copy_bytes(o.as_slice()));
        }
        assert(views(ps@) =~= seq![self.username@, decimal(self.version_idx as nat)] + opt_param(
            self.origin,
        ));
        prepare_command(lit_bytes("/$user").as_slice(), &ps)
    }
}

impl UserLeftMessage {
    /// The frame as sent.
    pub open spec fn frame(&self) -> Seq<u8> {
        command_frame(ascii("/&user"@), seq![self.username@] + opt_param(self.destination))
    }

    pub fn prepare_message(&self) -> (r: Vec<u8>)
        ensures
            r@ == self.frame(),
    {
        proof {
            reveal_strlit("/&user");
        }
        let mut ps: Vec<Vec<u8>> = Vec::new();
        push_param(&mut ps, copy_bytes(self.username.as_slice()));
        if let Some(d) = &self.destination {
            push_param(&mut ps, copy_bytes(d.as_slice()));
        }
        assert(views(ps@) =~= seq![self.username@] + opt_param(self.destination));
        prepare_command(lit_bytes("/&user").as_slice(), &ps)
    }
}

impl JoinChannelMessage {
    /// The frame as sent.
    pub open spec fn frame(&self) -> Seq<u8> {
        command_frame(ascii("/join"@), seq![self.channel_name@])
    }

    pub fn prepare_message(&self) -> (r: Vec<u8>)
        ensures
            r@ == self.frame(),
    {
        proof {
            reveal_strlit("/join");
        }
        let mut ps: Vec<Vec<u8>> = Vec::new();
        push_param(&mut ps, copy_bytes(self.channel_name.as_slice()));
        assert(views(ps@) =~= seq![self.channel_name@]);
        prepare_command(lit_bytes("/join").as_slice(), &ps)
    }
}

impl CreateGameMessage {
    /// The frame as sent.
    pub open spec fn frame(&self) -> Seq<u8> {
        command_frame(
            ascii("/plays"@),
            seq![
                hyphenated(self.version.bytes@),
                self.game_name@,
                self.password@,
                ascii("0xcb"@),
                hyphenated(self.id.bytes@),
            ],
        )
    }

    pub fn prepare_message(&self) -> (r: Vec<u8>)
        ensures
            r@ == self.frame(),
    {
        proof {
            reveal_strlit("/plays");
            reveal_strlit("0xcb");
        }
        let mut ps = vec2(self.version.to_hyphenated(), copy_bytes(self.game_name.as_slice()));
        push_param(&mut ps, copy_bytes(self.password.as_slice()));
        push_param(&mut ps, lit_bytes("0xcb"));
        push_param(&mut ps, self.id.to_hyphenated());
        assert(views(ps@) =~= seq![
            hyphenated(self.version.bytes@),
            self.game_name@,
            self.password@,
            ascii("0xcb"@),
            hyphenated(self.id.bytes@),
        ]);
        prepare_command(lit_bytes("/plays").as_slice(), &ps)
    }
}

impl JoinGameMessage {
    /// The frame as sent.
    pub open spec fn frame(&self) -> Seq<u8> {
        command_frame(
            ascii("/playc"@),
            seq![
                hyphenated(self.version.bytes@),
                self.game_name@,
                self.password@,
                self.ip_addr.le_hex(),
                hyphenated(self.id.bytes@),
                self.ip_addr.dotted(),
            ],
        )
    }

    pub fn prepare_message(&self) -> (r: Vec<u8>)
        ensures
            r@ == self.frame(),
    {
        proof {
            reveal_strlit("/playc");
        }
        let mut ps = vec2(self.version.to_hyphenated(), copy_bytes(self.game_name.as_slice()));
        push_param(&mut ps, copy_bytes(self.password.as_slice()));
        push_param(&mut ps, self.ip_addr.to_le_hex());
        push_param(&mut ps, self.id.to_hyphenated());
        push_param(&mut ps, self.ip_addr.to_dotted());
        assert(views(ps@) =~= seq![
            hyphenated(self.version.bytes@),
            self.game_name@,
            self.password@,
            self.ip_addr.le_hex(),
            hyphenated(self.id.bytes@),
            self.ip_addr.dotted(),
        ]);
        prepare_command(lit_bytes("/playc").as_slice(), &ps)
    }
}

impl NewGameMessage {
    /// The frame as sent.
    pub open spec fn frame(&self) -> Seq<u8> {
        command_frame(
            ascii("/$play"@),
            seq![
                self.game_name@,
                zero_text(),
                zero_text(),
                zero_text(),
                hyphenated(self.id.bytes@),
                zero_text(),
            ],
        )
    }

    pub fn prepare_message(&self) -> (r: Vec<u8>)
        ensures
            r@ == self.frame(),
    {
        proof {
            reveal_strlit("/$play");
        }
        let mut ps = vec2(copy_bytes(self.game_name.as_slice()), zero());
        push_param(&mut ps, zero());
        push_param(&mut ps, zero());
        push_param(&mut ps, self.id.to_hyphenated());
        push_param(&mut ps, zero());
        assert(views(ps@) =~= seq![
            self.game_name@,
            zero_text(),
            zero_text(),
            zero_text(),
            hyphenated(self.id.bytes@),
            zero_text(),
        ]);
        prepare_command(lit_bytes("/$play").as_slice(), &ps)
    }
}

impl DropGameMessage {
    /// The frame as sent.
    pub open spec fn frame(&self) -> Seq<u8> {
        command_frame(ascii("/&play"@), seq![self.game_name@])
    }

    pub fn prepare_message(&self) -> (r: Vec<u8>)
        ensures
            r@ == self.frame(),
    {
        proof {
            reveal_strlit("/&play");
        }
        let mut ps: Vec<Vec<u8>> = Vec::new();
        push_param(&mut ps, copy_bytes(self.game_name.as_slice()));
        assert(views(ps@) =~= seq![self.game_name@]);
        prepare_command(lit_bytes("/&play").as_slice(), &ps)
    }
}

impl SyncStatsMessage {
    /// The frame as sent.
    pub open spec fn frame(&self) -> Seq<u8> {
        command_frame(
            ascii("/syncstats"@),
            seq![
                decimal(self.users_total as nat),
                decimal(self.users_online as nat),
                decimal(self.channels_total as nat),
                decimal(self.games_total as nat),
                zero_text(),
                Seq::empty(),
                decimal(self.games_open as nat),
            ],
        )
    }

    pub fn prepare_message(&self) -> (r: Vec<u8>)
        ensures
            r@ == self.frame(),
    {
        proof {
            reveal_strlit("/syncstats");
        }
        let mut ps = vec2(decimal_of(self.users_total), decimal_of(self.users_online));
        push_param(&mut ps, decimal_of(self.channels_total));
        push_param(&mut ps, decimal_of(self.games_total));
        push_param(&mut ps, zero());
        push_param(&mut ps, Vec::new());
        push_param(&mut ps, decimal_of(self.games_open));
        assert(views(ps@) =~= seq![
            decimal(self.users_total as nat),
            decimal(self.users_online as nat),
            decimal(self.channels_total as nat),
            decimal(self.games_total as nat),
            zero_text(),
            Seq::empty(),
            decimal(self.games_open as nat),
        ]);
        prepare_command(lit_bytes("/syncstats").as_slice(), &ps)
    }
}

impl RawMessage {
    /// The frame as sent.
    pub open spec fn frame(&self) -> Seq<u8> {
        self.message@.push(0u8)
    }

    pub fn prepare_message(&self) -> (r: Vec<u8>)
        ensures
            r@ == self.frame(),
    {
        let mut r = copy_bytes(self.message.as_slice());
        r.push(0);
        r
    }
}

/// Every message the server sends after login.
#[derive(Debug)]
pub enum ServerMessage {
    Send(SendMessage),
    Private(PrivateMessage),
    SentPrivate(SentPrivateMessage),
    Error(ErrorMessage),
    NewChannel(NewChannelMessage),
    DropChannel(DropChannelMessage),
    NewUser(NewUserMessage),
    UserJoined(UserJoinedMessage),
    UserLeft(UserLeftMessage),
    JoinChannel(JoinChannelMessage),
    CreateGame(CreateGameMessage),
    JoinGame(JoinGameMessage),
    NewGame(NewGameMessage),
    DropGame(DropGameMessage),
    SyncStats(SyncStatsMessage),
    Raw(RawMessage),
    Login(LoginServerMessage),
}

impl ServerMessage {
    /// The frame of a message after login; for a handshake message, the frame
    /// of its payload where its lengths fit a `u32`.
    pub open spec fn frame_spec(&self) -> Option<Seq<u8>> {
        match self {
            ServerMessage::Send(m) => Some(m.frame()),
            ServerMessage::Private(m) => Some(m.frame()),
            ServerMessage::SentPrivate(m) => Some(m.frame()),
            ServerMessage::Error(m) => Some(m.frame()),
            ServerMessage::NewChannel(m) => Some(m.frame()),
            ServerMessage::DropChannel(m) => Some(m.frame()),
            ServerMessage::NewUser(m) => Some(m.frame()),
            ServerMessage::UserJoined(m) => Some(m.frame()),
            ServerMessage::UserLeft(m) => Some(m.frame()),
            ServerMessage::JoinChannel(m) => Some(m.frame()),
            ServerMessage::CreateGame(m) => Some(m.frame()),
            ServerMessage::JoinGame(m) => Some(m.frame()),
            ServerMessage::NewGame(m) => Some(m.frame()),
            ServerMessage::DropGame(m) => Some(m.frame()),
            ServerMessage::SyncStats(m) => Some(m.frame()),
            ServerMessage::Raw(m) => Some(m.frame()),
            ServerMessage::Login(m) => match m.payload_spec() {
                Some(p) => if zlib_deflated(p).len() + 4 <= u32::MAX {
                    Some(frame_of(zlib_deflated(p)))
                } else {
                    None
                },
                None => None,
            },
        }
    }

    /// The bytes to write to the socket: a command frame, or a handshake frame
    /// (`None` where that cannot be built).
    pub fn prepare_message(&self) -> (r: Option<Vec<u8>>)
        ensures
            r.is_some() == self.frame_spec().is_some(),
            r.is_some() ==> self.frame_spec().is_some() && r.unwrap()@ == self.frame_spec().unwrap(),
    {
        match self {
            ServerMessage::Send(m) => Some(m.prepare_message()),
            ServerMessage::Private(m) => Some(m.prepare_message()),
            ServerMessage::SentPrivate(m) => Some(m.prepare_message()),
            ServerMessage::Error(m) => Some(m.prepare_message()),
            ServerMessage::NewChannel(m) => Some(m.prepare_message()),
            ServerMessage::DropChannel(m) => Some(m.prepare_message()),
            ServerMessage::NewUser(m) => Some(m.prepare_message()),
            ServerMessage::UserJoined(m) => Some(m.prepare_message()),
            ServerMessage::UserLeft(m) => Some(m.prepare_message()),
            ServerMessage::JoinChannel(m) => Some(m.prepare_message()),
            ServerMessage::CreateGame(m) => Some(m.prepare_message()),
            ServerMessage::JoinGame(m) => Some(m.prepare_message()),
            ServerMessage::NewGame(m) => Some(m.prepare_message()),
            ServerMessage::DropGame(m) => Some(m.prepare_message()),
            ServerMessage::SyncStats(m) => Some(m.prepare_message()),
            ServerMessage::Raw(m) => Some(m.prepare_message()),
            ServerMessage::Login(m) => m.prepare_message(),
        }
    }
}

/// One parameter as sent: ` "<escaped>"`.
pub open spec fn quoted_chunk(p: Seq<u8>) -> Seq<u8> {
    seq![0x20u8, 0x22u8] + escape(p) + seq![0x22u8]
}

/// Each parameter escaped.
pub open spec fn escaped_all(ps: Seq<Seq<u8>>) -> Seq<Seq<u8>> {
    ps.map_values(|p: Seq<u8>| escape(p))
}

proof fn lemma_escape_has_no_quote(p: Seq<u8>)
    ensures
        forall|i: int| 0 <= i < escape(p).len() ==> #[trigger] escape(p)[i] != 0x22,
    decreases p.len(),
{
    if p.len() > 0 {
        lemma_escape_has_no_quote(p.drop_last());
        let head = escape(p.drop_last());
        let tail: Seq<u8> = if p.last() == 0x22 {
            seq![0x25u8, 0x32u8, 0x32u8]
        } else {
            seq![p.last()]
        };
        assert(escape(p) == head + tail);
        assert forall|i: int| 0 <= i < escape(p).len() implies #[trigger] escape(p)[i] != 0x22 by {
            if i < head.len() {
                assert(escape(p)[i] == head[i]);
            } else {
                assert(escape(p)[i] == tail[i - head.len()]);
            }
        }
    }
}

proof fn lemma_quoted_params_front(ps: Seq<Seq<u8>>)
    requires
        ps.len() >= 1,
    ensures
        quoted_params(ps) == quoted_chunk(ps[0]) + quoted_params(ps.drop_first()),
    decreases ps.len(),
{
    if ps.len() == 1 {
        assert(ps.drop_last().len() == 0);
        assert(ps.drop_first().len() == 0);
        assert(quoted_params(ps.drop_last()) == Seq::<u8>::empty());
        assert(quoted_params(ps.drop_first()) == Seq::<u8>::empty());
        assert(ps.last() == ps[0]);
        assert(quoted_params(ps) =~= quoted_chunk(ps[0]) + quoted_params(ps.drop_first()));
    } else {
        let dl = ps.drop_last();
        let df = ps.drop_first();
        lemma_quoted_params_front(dl);
        assert(dl.drop_first() =~= df.drop_last());
        assert(df.last() == ps.last());
        assert(dl[0] == ps[0]);
        assert(quoted_params(ps) =~= quoted_params(dl) + quoted_chunk(ps.last()));
        assert(quoted_params(df) =~= quoted_params(df.drop_last()) + quoted_chunk(df.last()));
        assert(quoted_params(dl) == quoted_chunk(ps[0]) + quoted_params(df.drop_last()));
        let x = quoted_chunk(ps[0]);
        let y = quoted_params(df.drop_last());
        let z = quoted_chunk(ps.last());
        assert(quoted_params(ps) == (x + y) + z);
        assert(quoted_params(df) == y + z);
        assert((x + y) + z =~= x + (y + z));
    }
}

proof fn lemma_quote_end_at(s: Seq<u8>, i: int, j: int)
    requires
        0 <= i <= j < s.len(),
        s[j] == 0x22,
        forall|k: int| i <= k < j ==> s[k] != 0x22,
    ensures
        quote_end(s, i) == j,
    decreases j - i,
{
    if i < j {
        lemma_quote_end_at(s, i + 1, j);
    }
}

proof fn lemma_letters_end_at(s: Seq<u8>, i: int, j: int)
    requires
        0 <= i <= j <= s.len(),
        j == s.len() || !is_letter(s[j]),
        forall|k: int| i <= k < j ==> is_letter(s[k]),
    ensures
        letters_end(s, i) == j,
    decreases j - i,
{
    if i < j {
        lemma_letters_end_at(s, i + 1, j);
    }
}

proof fn lemma_list_of_chunks(pre: Seq<u8>, ps: Seq<Seq<u8>>)
    requires
        ps.len() >= 1,
    ensures
        list_from(pre + quoted_params(ps), pre.len() + 1 as int) == (escaped_all(ps), (pre + quoted_params(ps)).len() as int),
    decreases ps.len(),
{
    let s = pre + quoted_params(ps);
    let rest = ps.drop_first();
    let c = quoted_chunk(ps[0]);
    lemma_quoted_params_front(ps);
    assert(s =~= pre + c + quoted_params(rest));
    let a = pre.len() as int;
    let i = a + 1;
    let e: int = i + 1 + escape(ps[0]).len() as int;
    lemma_escape_has_no_quote(ps[0]);
    assert(s[a] == 0x20);
    assert(s[i] == 0x22);
    assert(s[e] == 0x22);
    assert forall|k: int| i + 1 <= k < e implies s[k] != 0x22 by {
        assert(s[k] == escape(ps[0])[k - i - 1]);
    }
    lemma_quote_end_at(s, i + 1, e);
    assert(param_starts(s, i));
    assert(param_at(s, i) == (i + 1, e, e + 1));
    assert(s.subrange(i + 1, e) =~= escape(ps[0]));
    let k = e + 1;
    if rest.len() == 0 {
        assert(quoted_params(rest).len() == 0);
        assert(k == s.len());
        assert(escaped_all(ps) =~= seq![escape(ps[0])]);
    } else {
        let pre2 = pre + c;
        lemma_quoted_params_front(rest);
        assert(s =~= pre2 + quoted_params(rest));
        assert(s[k] == 0x20);
        assert(s[k + 1] == 0x22);
        assert(is_space(s[k]));
        assert(spaces_end(s, k + 1) == k + 1);
        assert(spaces_end(s, k) == k + 1);
        lemma_list_of_chunks(pre2, rest);
        assert(pre2.len() + 1 == k + 1);
        assert(escaped_all(ps) =~= seq![escape(ps[0])] + escaped_all(rest));
    }
}

/// Rendering a command with a verb of letters and reading the line back gives
/// the lowercased verb and the parameters as sent (each `"` as `%22`).
pub proof fn lemma_command_round_trip(verb: Seq<u8>, ps: Seq<Seq<u8>>)
    requires
        forall|i: int| 0 <= i < verb.len() ==> is_letter(#[trigger] verb[i]),
    ensures
        parse_line(command_text(seq![0x2fu8] + verb, ps)) == Some((lower(verb), escaped_all(ps))),
{
    let pre = seq![0x2fu8] + verb;
    let s = command_text(pre, ps);
    let v: int = verb.len() as int + 1;
    assert(s =~= pre + quoted_params(ps));
    if ps.len() == 0 {
        assert(s =~= pre);
    } else {
        lemma_quoted_params_front(ps);
        assert(s[v] == 0x20);
    }
    assert forall|k: int| 1 <= k < v implies is_letter(s[k]) by {
        assert(s[k] == verb[k - 1]);
    }
    lemma_letters_end_at(s, 1, v);
    assert(s.subrange(1, v) =~= verb);
    if ps.len() == 0 {
        assert(escaped_all(ps) =~= Seq::<Seq<u8>>::empty());
    } else {
        assert(s[v + 1] == 0x22);
        assert(spaces_end(s, v + 1) == v + 1);
        assert(spaces_end(s, v) == v + 1);
        lemma_list_of_chunks(pre, ps);
        assert(spaces_end(s, s.len() as int) == s.len());
    }
}

} // verus!
