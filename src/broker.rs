use vstd::prelude::*;
use crate::client_command::ClientCommand;
use crate::guid::{guid_text_of, Guid};
use crate::login_server::{LoginServerMessage, WelcomeServerParams};
use crate::server_messages::{
    CreateGameMessage, DropChannelMessage, DropGameMessage, ErrorMessage, Ipv4,
    JoinChannelMessage, JoinGameMessage, NewChannelMessage, NewGameMessage, NewUserMessage,
    PrivateMessage, SendMessage, SentPrivateMessage, ServerMessage, SyncStatsMessage,
    UserJoinedMessage, UserLeftMessage,
};
use crate::util::{
    ascii, bytes_eq, copy_bytes, lit_bytes, lower, only_allowed_chars_not_empty, push_all,
    same_key, valid_name, CharClass,
};

verus! {

/// How long a requested game waits for its host to confirm, in milliseconds.
pub const REQUESTED_GAME_TTL_MS: u64 = 30000;

/// Where a user sits.
#[derive(Debug)]
pub enum Location {
    Channel { name: Vec<u8> },
    Game { name: Vec<u8> },
    Nowhere,
}

/// A location by its contents.
pub enum LocationView {
    Channel(Seq<u8>),
    Game(Seq<u8>),
    Nowhere,
}

impl Location {
    pub open spec fn view(&self) -> LocationView {
        match self {
            Location::Channel { name } => LocationView::Channel(name@),
            Location::Game { name } => LocationView::Game(name@),
            Location::Nowhere => LocationView::Nowhere,
        }
    }

    /// `#name`, `$name` or `[nowhere]`.
    pub open spec fn rendered(&self) -> Seq<u8> {
        match self {
            Location::Channel { name } => seq![0x23u8] + name@,
            Location::Game { name } => seq![0x24u8] + name@,
            Location::Nowhere => ascii("[nowhere]"@),
        }
    }

    pub fn copy(&self) -> (r: Location)
        ensures
            r.view() == self.view(),
    {
        match self {
            Location::Channel { name } => Location::Channel { name: copy_bytes(name.as_slice()) },
            Location::Game { name } => Location::Game { name: copy_bytes(name.as_slice()) },
            Location::Nowhere => Location::Nowhere,
        }
    }

    pub fn same(&self, o: &Location) -> (r: bool)
        ensures
            r == (self.view() == o.view()),
    {
        match (self, o) {
            (Location::Channel { name: a }, Location::Channel { name: b }) => bytes_eq(
                a.as_slice(),
                b.as_slice(),
            ),
            (Location::Game { name: a }, Location::Game { name: b }) => bytes_eq(
                a.as_slice(),
                b.as_slice(),
            ),
            (Location::Nowhere, Location::Nowhere) => true,
            _ => false,
        }
    }

    /// The rendered form as bytes.
    pub fn to_bytes(&self) -> (r: Vec<u8>)
        ensures
            r@ == self.rendered(),
    {
        match self {
            Location::Channel { name } => {
                let mut r: Vec<u8> = Vec::new();
                r.push(0x23);
                push_all(&mut r, name.as_slice());
                assert(r@ =~= self.rendered());
                r
            },
            Location::Game { name } => {
                let mut r: Vec<u8> = Vec::new();
                r.push(0x24);
                push_all(&mut r, name.as_slice());
                assert(r@ =~= self.rendered());
                r
            },
            Location::Nowhere => {
                proof {
                    reveal_strlit("[nowhere]");
                }
                lit_bytes("[nowhere]")
            },
        }
    }

    /// The rendered form as text.
    pub fn to_string(&self) -> (r: String)
        ensures
            r@ == crate::util::lossy_text_of(self.rendered()),
    {
        crate::util::bytevec_to_str(self.to_bytes().as_slice())
    }
}

/// A logged-in user.
#[derive(Debug)]
pub struct User {
    pub id: Guid,
    pub username: Vec<u8>,
    pub location: Location,
    pub game_version: Guid,
    pub ip_addr: Ipv4,
}

/// A chat channel; its key is the lowercase name.
#[derive(Debug)]
pub struct Channel {
    pub name: Vec<u8>,
}

/// The default channel's name.
pub open spec fn default_channel() -> Seq<u8> {
    ascii("General"@)
}

impl Channel {
    pub fn to_location(&self) -> (r: Location)
        ensures
            r.view() == LocationView::Channel(self.name@),
    {
        Location::Channel { name: copy_bytes(self.name.as_slice()) }
    }

    pub fn to_new_channel_message(&self) -> (r: ServerMessage)
        ensures
            r matches ServerMessage::NewChannel(m) && m.channel_name@ == self.name@,
    {
        ServerMessage::NewChannel(NewChannelMessage { channel_name: copy_bytes(self.name.as_slice()) })
    }

    pub fn to_drop_channel_message(&self) -> (r: ServerMessage)
        ensures
            r matches ServerMessage::DropChannel(m) && m.channel_name@ == self.name@,
    {
        ServerMessage::DropChannel(DropChannelMessage { channel_name: copy_bytes(self.name.as_slice()) })
    }
}

/// Where a game is in its life.
#[derive(Clone, Copy, Debug, PartialEq, Eq, Structural)]
pub enum GameStatus {
    Requested,
    Open,
    Started,
}

/// A hosted game; its key is the lowercase name.
#[derive(Debug)]
pub struct Game {
    pub hosted_by: Guid,
    pub host_ip: Ipv4,
    pub id: Guid,
    pub game_version: Guid,
    pub name: Vec<u8>,
    pub password: Vec<u8>,
    pub status: GameStatus,
    pub created_at: u64,
}

impl Game {
    pub fn to_location(&self) -> (r: Location)
        ensures
            r.view() == LocationView::Game(self.name@),
    {
        Location::Game { name: copy_bytes(self.name.as_slice()) }
    }

    pub fn to_new_game_message(&self) -> (r: ServerMessage)
        ensures
            r matches ServerMessage::NewGame(m) && m.game_name@ == self.name@ && m.id == self.id,
    {
        ServerMessage::NewGame(NewGameMessage { game_name: copy_bytes(self.name.as_slice()), id: self.id })
    }

    pub fn to_drop_game_message(&self) -> (r: ServerMessage)
        ensures
            r matches ServerMessage::DropGame(m) && m.game_name@ == self.name@,
    {
        ServerMessage::DropGame(DropGameMessage { game_name: copy_bytes(self.name.as_slice()) })
    }
}

/// A message and the users it goes to.
#[derive(Debug)]
pub struct Outgoing {
    pub to: Vec<Guid>,
    pub message: ServerMessage,
}

/// The counters that `/syncstats` reports.
#[derive(Clone, Copy, Debug, PartialEq, Eq, Structural)]
pub struct Stats {
    pub users_total: u32,
    pub users_online: u32,
    pub channels_total: u32,
    pub games_total: u32,
    pub games_open: u32,
}

/// What the broker is told.
#[derive(Debug)]
pub enum Event {
    /// A client logged in.
    NewUser { id: Guid, username: Vec<u8>, game_version: Guid, ip_addr: Ipv4 },
    /// A logged-in client sent a command.
    Command { id: Guid, command: ClientCommand },
    /// A client went away.
    DropClient { id: Guid },
}

/// The ids of the users at `l`, in order.
pub open spec fn ids_at(us: Seq<User>, l: LocationView) -> Seq<Seq<u8>>
    decreases us.len(),
{
    if us.len() == 0 {
        Seq::empty()
    } else if us.last().location.view() == l {
        ids_at(us.drop_last(), l).push(us.last().id.bytes@)
    } else {
        ids_at(us.drop_last(), l)
    }
}

/// The ids of all users, in order.
pub open spec fn all_ids(us: Seq<User>) -> Seq<Seq<u8>> {
    us.map_values(|u: User| u.id.bytes@)
}

pub open spec fn guid_views(v: Seq<Guid>) -> Seq<Seq<u8>> {
    v.map_values(|g: Guid| g.bytes@)
}

pub open spec fn ids_unique(us: Seq<User>) -> bool {
    forall|i: int, j: int|
        0 <= i < j < us.len() ==> #[trigger] us[i].id.bytes@ != #[trigger] us[j].id.bytes@
}

pub open spec fn names_unique(us: Seq<User>) -> bool {
    forall|i: int, j: int|
        0 <= i < j < us.len() ==> lower(#[trigger] us[i].username@) != lower(
            #[trigger] us[j].username@,
        )
}

pub open spec fn channel_keys_unique(cs: Seq<Channel>) -> bool {
    forall|i: int, j: int|
        0 <= i < j < cs.len() ==> lower(#[trigger] cs[i].name@) != lower(#[trigger] cs[j].name@)
}

pub open spec fn game_keys_unique(gs: Seq<Game>) -> bool {
    forall|i: int, j: int|
        0 <= i < j < gs.len() ==> lower(#[trigger] gs[i].name@) != lower(#[trigger] gs[j].name@)
}

/// Whether a channel of that exact name exists.
pub open spec fn has_channel(cs: Seq<Channel>, n: Seq<u8>) -> bool {
    exists|j: int| 0 <= j < cs.len() && #[trigger] cs[j].name@ == n
}

/// Whether some user sits at `l`.
pub open spec fn occupied(us: Seq<User>, l: LocationView) -> bool {
    exists|i: int| 0 <= i < us.len() && #[trigger] us[i].location.view() == l
}

/// Every user in a channel finds that channel.
pub open spec fn channels_of_users_exist(us: Seq<User>, cs: Seq<Channel>) -> bool {
    forall|i: int|
        0 <= i < us.len() ==> (#[trigger] us[i].location.view() matches LocationView::Channel(n)
            ==> has_channel(cs, n))
}

/// Every channel has a user in it.
pub open spec fn channels_occupied(us: Seq<User>, cs: Seq<Channel>) -> bool {
    forall|j: int| 0 <= j < cs.len() ==> occupied(us, LocationView::Channel(#[trigger] cs[j].name@))
}


/// The echo of a private message: to the sender alone, naming the target.
pub open spec fn is_echo(o: Outgoing, sender: Seq<u8>, to: Seq<u8>, message: Seq<u8>) -> bool {
    guid_views(o.to@) == seq![sender] && (o.message matches ServerMessage::SentPrivate(m) && m.to@ == to
        && m.message@ == message)
}

/// The delivery of a private message.
pub open spec fn is_delivery(
    o: Outgoing,
    recipients: Seq<Seq<u8>>,
    from: Seq<u8>,
    to: Seq<u8>,
    location: Seq<u8>,
    message: Seq<u8>,
) -> bool {
    guid_views(o.to@) == recipients && (o.message matches ServerMessage::Private(m) && m.from@ == from
        && m.to@ == to && m.location@ == location && m.message@ == message)
}

/// An error to one user.
pub open spec fn is_error_to(o: Outgoing, user: Seq<u8>, reason: Seq<u8>) -> bool {
    guid_views(o.to@) == seq![user] && (o.message matches ServerMessage::Error(m) && m.error@ == reason)
}

/// The usernames of the users at `l`, in order.
pub open spec fn names_at(us: Seq<User>, l: LocationView) -> Seq<Seq<u8>>
    decreases us.len(),
{
    if us.len() == 0 {
        Seq::empty()
    } else if us.last().location.view() == l {
        names_at(us.drop_last(), l).push(us.last().username@)
    } else {
        names_at(us.drop_last(), l)
    }
}

/// What moving user `idx` to `next` (shown as `next_rendered`) adds to
/// `before`: nothing where the user is there already; else `/$user` with the
/// origin to the users at `next`, then `/&user` with the destination to the
/// users left behind.
pub open spec fn location_update(
    users: Seq<User>,
    new_users: Seq<User>,
    idx: int,
    next: LocationView,
    next_rendered: Seq<u8>,
    before: Seq<Outgoing>,
    after: Seq<Outgoing>,
) -> bool {
    let n = before.len() as int;
    let me = users[idx];
    &&& extends(before, after)
    &&& me.location.view() == next ==> after == before
    &&& me.location.view() != next ==> {
        &&& after.len() == n + 2
        &&& guid_views(after[n].to@) == ids_at(users, next)
        &&& after[n].message matches ServerMessage::UserJoined(m) && m.username@ == me.username@
            && m.version_idx == 0 && (m.origin matches Some(o) && o@ == me.location.rendered())
        &&& guid_views(after[n + 1].to@) == ids_at(new_users, me.location.view())
        &&& after[n + 1].message matches ServerMessage::UserLeft(m) && m.username@ == me.username@
            && (m.destination matches Some(d) && d@ == next_rendered)
    }
}

/// What user `idx` hears on entering channel `cn`, from position `start` of
/// `after` on: `/join`, one `$user` per occupant, then the location update.
pub open spec fn join_channel_msgs(
    users: Seq<User>,
    new_users: Seq<User>,
    idx: int,
    cn: Seq<u8>,
    start: int,
    after: Seq<Outgoing>,
) -> bool {
    let me = users[idx];
    let names = names_at(users, LocationView::Channel(cn));
    &&& 0 <= start < after.len()
    &&& guid_views(after[start].to@) == seq![me.id.bytes@]
    &&& after[start].message matches ServerMessage::JoinChannel(m) && m.channel_name@ == cn
    &&& start + 1 + names.len() <= after.len()
    &&& forall|j: int| 0 <= j < names.len() ==> (#[trigger] after[start + 1 + j].message matches ServerMessage::NewUser(m)
        && m.username@ == names[j]) && guid_views(after[start + 1 + j].to@) == seq![me.id.bytes@]
    &&& location_update(users, new_users, idx, LocationView::Channel(cn), seq![0x23u8] + cn,
        after.subrange(0, start + 1 + names.len()), after)
}

/// What `/join name` from user `idx` does: an invalid name is an error to the
/// sender; the channel the user sits in already changes nothing; otherwise a
/// new channel is added under the name and announced to everyone, and the user
/// hears the acknowledgement, the occupants and moves in.
pub open spec fn join_channel_outcome(
    users: Seq<User>,
    channels: Seq<Channel>,
    new_users: Seq<User>,
    new_channels: Seq<Channel>,
    idx: int,
    name: Seq<u8>,
    before: Seq<Outgoing>,
    after: Seq<Outgoing>,
) -> bool {
    let me = users[idx];
    let known = exists|c: int| 0 <= c < channels.len() && lower(#[trigger] channels[c].name@) == lower(name);
    let there = exists|c: int| 0 <= c < channels.len() && lower(#[trigger] channels[c].name@) == lower(name)
        && me.location.view() == LocationView::Channel(channels[c].name@);
    &&& !valid_name(name, CharClass::Channel) ==> new_users == users && new_channels == channels
        && after.len() == before.len() + 1 && is_error_to(after.last(), me.id.bytes@, ascii("Invalid channel name"@))
    &&& valid_name(name, CharClass::Channel) && there ==> new_users == users && new_channels == channels && after == before
    &&& valid_name(name, CharClass::Channel) && known ==> new_channels == channels
    &&& valid_name(name, CharClass::Channel) && !known ==> new_channels.len() == channels.len() + 1
        && new_channels.subrange(0, channels.len() as int) == channels && new_channels.last().name@ == name
        && after.len() > before.len() && guid_views(after[before.len() as int].to@) == all_ids(users)
        && (after[before.len() as int].message matches ServerMessage::NewChannel(m) && m.channel_name@ == name)
    &&& valid_name(name, CharClass::Channel) && !there ==> exists|c: int| 0 <= c < new_channels.len()
        && lower(#[trigger] new_channels[c].name@) == lower(name)
        && join_channel_msgs(users, new_users, idx, new_channels[c].name@, before.len() + new_channels.len() - channels.len(), after)
}

/// What a command from the user with id `id` does to the broker (`old` to
/// `new`) and adds to the messages (`before` to `after`): nothing where no
/// such user is live; otherwise what the command's verb does.
pub open spec fn command_step(
    old: Broker,
    new: Broker,
    id: Guid,
    command: ClientCommand,
    now: u64,
    before: Seq<Outgoing>,
    after: Seq<Outgoing>,
) -> bool {
    let same_state = new.users@ == old.users@ && new.channels@ == old.channels@ && new.games@ == old.games@;
    &&& (forall|i: int| 0 <= i < old.users@.len() ==> #[trigger] old.users@[i].id.bytes@ != id.bytes@)
        ==> same_state && after == before
    &&& forall|i: int| 0 <= i < old.users@.len() && #[trigger] old.users@[i].id.bytes@ == id.bytes@ ==> {
        let me = old.users@[i];
        let n = before.len() as int;
        &&& command is NoOp ==> same_state && after == before
        &&& command matches ClientCommand::Malformed { reason } ==> same_state && after.len() == n + 1
            && is_error_to(after[n], me.id.bytes@, reason@)
        &&& command matches ClientCommand::Unknown { command: verb } ==> same_state && after.len() == n + 1
            && is_error_to(after[n], me.id.bytes@, ascii("Unknown command: "@) + verb@)
        &&& command matches ClientCommand::Send { message } ==> same_state && after.len() == n + 1
            && guid_views(after[n].to@) == ids_at(old.users@, me.location.view())
            && (after[n].message matches ServerMessage::Send(m) && m.username@ == me.username@ && m.message@ == message@)
        &&& command matches ClientCommand::PrivateMessage { target, message } ==> same_state && private_message_spec(
            old.users@, old.channels@, old.games@, i, target@, message@, before, after)
        &&& command matches ClientCommand::Join { channel } ==> new.games@ == old.games@ && join_channel_outcome(
            old.users@, old.channels@, new.users@, new.channels@, i, channel@, before, after)
        &&& command matches ClientCommand::JoinGame { game_name, password } ==> new.channels@ == old.channels@
            && new.games@ == old.games@ && join_game_outcome(old.users@, old.games@, new.users@, i, game_name@, password@,
            guid_text_of(password@), before, after)
        &&& command matches ClientCommand::HostGame { game_name, password_or_guid } ==> new.channels@ == old.channels@
            && exists|minted: Guid| host_game_outcome(old.users@, old.games@, new.users@, new.games@, i, game_name@,
            password_or_guid@, guid_text_of(password_or_guid@), now, minted, before, after)
    }
}

/// What `/msg target message` from user `idx` adds to `before`, giving `after`:
/// for `#name` and `$name` the echo to the sender and the delivery to everyone
/// in that channel or game, for any other target the echo and the delivery to
/// the user of that name (any case); or an error where there is no such target.
pub open spec fn private_message_spec(
    users: Seq<User>,
    channels: Seq<Channel>,
    games: Seq<Game>,
    idx: int,
    target: Seq<u8>,
    message: Seq<u8>,
    before: Seq<Outgoing>,
    after: Seq<Outgoing>,
) -> bool {
    let n = before.len() as int;
    let me = users[idx];
    let key = target.subrange(1, target.len() as int);
    if target.len() > 0 && target[0] == 0x23 {
        if exists|c: int| 0 <= c < channels.len() && lower(#[trigger] channels[c].name@) == lower(key) {
            exists|c: int| 0 <= c < channels.len() && lower(#[trigger] channels[c].name@) == lower(key)
                && after.len() == n + 2 && is_echo(after[n], me.id.bytes@, seq![0x23u8] + channels[c].name@, message)
                && is_delivery(after[n + 1], ids_at(users, LocationView::Channel(channels[c].name@)), me.username@,
                    seq![0x23u8] + channels[c].name@, me.location.rendered(), message)
        } else {
            after.len() == n + 1 && is_error_to(after[n], me.id.bytes@, ascii("Channel does not exist"@))
        }
    } else if target.len() > 0 && target[0] == 0x24 {
        if exists|g: int| 0 <= g < games.len() && lower(#[trigger] games[g].name@) == lower(key) {
            exists|g: int| 0 <= g < games.len() && lower(#[trigger] games[g].name@) == lower(key)
                && after.len() == n + 2 && is_echo(after[n], me.id.bytes@, seq![0x24u8] + games[g].name@, message)
                && is_delivery(after[n + 1], ids_at(users, LocationView::Game(games[g].name@)), me.username@,
                    seq![0x24u8] + games[g].name@, me.location.rendered(), message)
        } else {
            after.len() == n + 1 && is_error_to(after[n], me.id.bytes@, ascii("Game does not exist"@))
        }
    } else {
        if exists|r: int| 0 <= r < users.len() && lower(#[trigger] users[r].username@) == lower(target) {
            exists|r: int| 0 <= r < users.len() && lower(#[trigger] users[r].username@) == lower(target)
                && after.len() == n + 2 && is_echo(after[n], me.id.bytes@, users[r].username@, message)
                && is_delivery(after[n + 1], seq![users[r].id.bytes@], me.username@, users[r].username@,
                    me.location.rendered(), message)
        } else {
            after.len() == n + 1 && is_error_to(after[n], me.id.bytes@, ascii("User does not exist"@))
        }
    }
}

/// What `/plays _ game_name password_or_guid` from user `idx` does at `now`,
/// with `token` the bytes of the id that the last parameter parses to and
/// `minted` a fresh id: an invalid name is an error; a new name is added as a
/// requested game and the host gets `minted`; the host confirming its
/// requested game with an id opens it under that id and moves in; the host
/// confirming its open game starts it; anything else is an error.
pub open spec fn host_game_outcome(
    users: Seq<User>,
    games: Seq<Game>,
    new_users: Seq<User>,
    new_games: Seq<Game>,
    idx: int,
    game_name: Seq<u8>,
    password_or_guid: Seq<u8>,
    token: Option<Seq<u8>>,
    now: u64,
    minted: Guid,
    before: Seq<Outgoing>,
    after: Seq<Outgoing>,
) -> bool {
    let me = users[idx];
    &&& !valid_name(game_name, CharClass::Game) ==> new_users == users && new_games == games
        && after.len() == before.len() + 1 && is_error_to(after.last(), me.id.bytes@, ascii("Invalid game name"@))
    &&& valid_name(game_name, CharClass::Game) && !(exists|g: int| 0 <= g < games.len()
        && lower(#[trigger] games[g].name@) == lower(game_name)) ==> {
        let game = new_games.last();
        &&& new_users == users
        &&& new_games.len() == games.len() + 1
        &&& new_games.subrange(0, games.len() as int) == games
        &&& game.name@ == game_name && game.password@ == password_or_guid && game.hosted_by == me.id
            && game.host_ip == me.ip_addr && game.game_version == me.game_version
            && game.status == GameStatus::Requested && game.created_at == now
        &&& after.len() == before.len() + 1
        &&& guid_views(after.last().to@) == seq![me.id.bytes@]
        &&& after.last().message matches ServerMessage::CreateGame(m) && m.version == me.game_version
            && m.game_name@ == game_name && m.password@ == password_or_guid && m.id == minted
    }
    &&& valid_name(game_name, CharClass::Game) ==> forall|g: int| 0 <= g < games.len()
        && lower(#[trigger] games[g].name@) == lower(game_name) ==> {
        let game = games[g];
        if game.status == GameStatus::Started || game.hosted_by.bytes@ != me.id.bytes@ || token is None {
            new_users == users && new_games == games && after.len() == before.len() + 1
                && is_error_to(after.last(), me.id.bytes@, ascii("Game already exists."@))
        } else if game.status == GameStatus::Requested {
            &&& new_games[g].status == GameStatus::Open && Some(new_games[g].id.bytes@) == token
            &&& new_users[idx].location.view() == LocationView::Game(game.name@)
            &&& new_games.len() == games.len()
            &&& forall|h: int| 0 <= h < games.len() && h != g ==> #[trigger] new_games[h] == games[h]
            &&& new_games[g].name == game.name && new_games[g].hosted_by == game.hosted_by
                && new_games[g].password == game.password && new_games[g].created_at == game.created_at
            &&& after.len() > before.len()
            &&& guid_views(after[before.len() as int].to@) == all_ids(users)
            &&& after[before.len() as int].message matches ServerMessage::NewGame(m) && m.game_name@ == game.name@
                && Some(m.id.bytes@) == token
            &&& location_update(users, new_users, idx, LocationView::Game(game.name@), seq![0x24u8] + game.name@,
                after.subrange(0, before.len() + 1 as int), after)
        } else {
            &&& new_games[g].status == GameStatus::Started && new_users == users
            &&& new_games.len() == games.len()
            &&& forall|h: int| 0 <= h < games.len() && h != g ==> #[trigger] new_games[h] == games[h]
            &&& after.len() == before.len() + 1
            &&& guid_views(after[before.len() as int].to@) == all_ids(users)
            &&& after[before.len() as int].message matches ServerMessage::DropGame(m) && m.game_name@ == game.name@
        }
    }
}

/// The bytes of an optional id.
pub open spec fn guid_bytes(t: Option<Guid>) -> Option<Seq<u8>> {
    match t {
        Some(g) => Some(g.bytes@),
        None => None,
    }
}

/// What `/playc game_name password` from user `idx` does, with `token` the
/// bytes of the id that the password parses to: a missing game is an error;
/// the game's invite id moves the user into the game; the game's password
/// gets the host's address and the invite id; anything else is an error.
pub open spec fn join_game_outcome(
    users: Seq<User>,
    games: Seq<Game>,
    new_users: Seq<User>,
    idx: int,
    game_name: Seq<u8>,
    password: Seq<u8>,
    token: Option<Seq<u8>>,
    before: Seq<Outgoing>,
    after: Seq<Outgoing>,
) -> bool {
    let me = users[idx];
    &&& !(exists|g: int| 0 <= g < games.len() && lower(#[trigger] games[g].name@) == lower(game_name))
        ==> new_users == users && after.len() == before.len() + 1
        && is_error_to(after.last(), me.id.bytes@, ascii("Game does not exist"@))
    &&& forall|g: int| 0 <= g < games.len() && lower(#[trigger] games[g].name@) == lower(game_name) ==> {
        let game = games[g];
        if token == Some(game.id.bytes@) {
            new_users[idx].location.view() == LocationView::Game(game.name@)
                && location_update(users, new_users, idx, LocationView::Game(game.name@), seq![0x24u8] + game.name@, before, after)
        } else if password == game.password@ {
            new_users == users && after.len() == before.len() + 1
                && guid_views(after.last().to@) == seq![me.id.bytes@]
                && (after.last().message matches ServerMessage::JoinGame(m) && m.version == me.game_version
                && m.game_name@ == game.name@ && m.password@ == password && m.ip_addr == game.host_ip && m.id == game.id)
        } else {
            new_users == users && after.len() == before.len() + 1
                && is_error_to(after.last(), me.id.bytes@, ascii("Invalid password"@))
        }
    }
}

/// How a handler may change the games: existing games keep their names and
/// move only from requested to open (the host now in it, everyone told with
/// `/$play`) or from open to started (everyone told with `/&play`); new games
/// are requested.
pub open spec fn games_step(
    old_games: Seq<Game>,
    new_games: Seq<Game>,
    old_users: Seq<User>,
    new_users: Seq<User>,
    before: Seq<Outgoing>,
    after: Seq<Outgoing>,
) -> bool {
    &&& new_games.len() >= old_games.len()
    &&& forall|g: int| 0 <= g < old_games.len() ==> (#[trigger] new_games[g]).name == old_games[g].name
        && new_games[g].hosted_by == old_games[g].hosted_by
    &&& forall|g: int| old_games.len() <= g < new_games.len() ==> (#[trigger] new_games[g]).status == GameStatus::Requested
    &&& forall|g: int| 0 <= g < old_games.len() && #[trigger] new_games[g].status != old_games[g].status ==> (
        old_games[g].status == GameStatus::Requested && new_games[g].status == GameStatus::Open)
        || (old_games[g].status == GameStatus::Open && new_games[g].status == GameStatus::Started)
    &&& forall|g: int| 0 <= g < old_games.len() && old_games[g].status == GameStatus::Requested
        && #[trigger] new_games[g].status == GameStatus::Open ==> (exists|u: int| 0 <= u < new_users.len()
            && #[trigger] new_users[u].id.bytes@ == new_games[g].hosted_by.bytes@
            && new_users[u].location.view() == LocationView::Game(new_games[g].name@))
        && exists|k: int| before.len() <= k < after.len() && (#[trigger] after[k].message matches ServerMessage::NewGame(m)
            && m.game_name@ == new_games[g].name@) && guid_views(after[k].to@) == all_ids(old_users)
    &&& forall|g: int| 0 <= g < old_games.len() && old_games[g].status == GameStatus::Open
        && #[trigger] new_games[g].status == GameStatus::Started ==> exists|k: int| before.len() <= k < after.len()
            && (#[trigger] after[k].message matches ServerMessage::DropGame(m) && m.game_name@ == new_games[g].name@)
}

/// The channels of `cs` with a user in them, in order.
pub open spec fn kept_channels(cs: Seq<Channel>, users: Seq<User>) -> Seq<Channel>
    decreases cs.len(),
{
    if cs.len() == 0 {
        Seq::empty()
    } else if occupied(users, LocationView::Channel(cs.last().name@)) {
        kept_channels(cs.drop_last(), users).push(cs.last())
    } else {
        kept_channels(cs.drop_last(), users)
    }
}

/// The names of the channels of `cs` without users, in order.
pub open spec fn dropped_channels(cs: Seq<Channel>, users: Seq<User>) -> Seq<Seq<u8>>
    decreases cs.len(),
{
    if cs.len() == 0 {
        Seq::empty()
    } else if occupied(users, LocationView::Channel(cs.last().name@)) {
        dropped_channels(cs.drop_last(), users)
    } else {
        dropped_channels(cs.drop_last(), users).push(cs.last().name@)
    }
}

/// A game that the clean-up at `now` removes: a requested one older than the
/// limit, or another one without users.
pub open spec fn game_removed(g: Game, users: Seq<User>, now: u64) -> bool {
    if g.status == GameStatus::Requested {
        now as int > g.created_at as int + REQUESTED_GAME_TTL_MS as int
    } else {
        !occupied(users, LocationView::Game(g.name@))
    }
}

/// The games of `gs` that the clean-up at `now` keeps, in order.
pub open spec fn kept_games(gs: Seq<Game>, users: Seq<User>, now: u64) -> Seq<Game>
    decreases gs.len(),
{
    if gs.len() == 0 {
        Seq::empty()
    } else if !game_removed(gs.last(), users, now) {
        kept_games(gs.drop_last(), users, now).push(gs.last())
    } else {
        kept_games(gs.drop_last(), users, now)
    }
}

/// The names of the open games of `gs` that the clean-up at `now` removes, in
/// order: those are announced.
pub open spec fn dropped_open_games(gs: Seq<Game>, users: Seq<User>, now: u64) -> Seq<Seq<u8>>
    decreases gs.len(),
{
    if gs.len() == 0 {
        Seq::empty()
    } else if game_removed(gs.last(), users, now) && gs.last().status == GameStatus::Open {
        dropped_open_games(gs.drop_last(), users, now).push(gs.last().name@)
    } else {
        dropped_open_games(gs.drop_last(), users, now)
    }
}

/// The number of open games.
pub open spec fn open_count(gs: Seq<Game>) -> nat
    decreases gs.len(),
{
    if gs.len() == 0 {
        0
    } else {
        open_count(gs.drop_last()) + if gs.last().status == GameStatus::Open {
            1nat
        } else {
            0nat
        }
    }
}

/// `n`, or the largest `u32` where it is larger.
pub open spec fn capped_u32(n: nat) -> int {
    if n > u32::MAX {
        u32::MAX as int
    } else {
        n as int
    }
}

/// The counters of a state (a count beyond `u32` wraps as the reported
/// lengths do, and the open count stops at the largest `u32`).
pub open spec fn counted_stats(users: Seq<User>, channels: Seq<Channel>, games: Seq<Game>) -> Stats {
    Stats {
        users_total: users.len() as u32,
        users_online: users.len() as u32,
        channels_total: channels.len() as u32,
        games_total: games.len() as u32,
        games_open: capped_u32(open_count(games)) as u32,
    }
}

/// `x` is one of the first `n` of `list`.
pub open spec fn from_list(x: Game, list: Seq<Game>, n: int) -> bool {
    exists|j: int| 0 <= j < n && x == #[trigger] list[j]
}

/// Every `/$channel` that `after` adds to `before` names a key that none of
/// `channels` has.
pub open spec fn announces_new_only(channels: Seq<Channel>, before: Seq<Outgoing>, after: Seq<Outgoing>) -> bool {
    forall|k: int| before.len() <= k < after.len() ==> (#[trigger] after[k].message matches ServerMessage::NewChannel(m)
        ==> forall|c: int| 0 <= c < channels.len() ==> lower(#[trigger] channels[c].name@) != lower(m.channel_name@))
}

/// `new` keeps `old` in front and adds at most one channel, under a key that
/// `old` does not have.
pub open spec fn channels_extended(old: Seq<Channel>, new: Seq<Channel>) -> bool {
    &&& old.len() <= new.len() <= old.len() + 1
    &&& forall|c: int| 0 <= c < old.len() ==> #[trigger] new[c] == old[c]
    &&& new.len() == old.len() + 1 ==> forall|c: int| 0 <= c < old.len() ==> lower(#[trigger] old[c].name@) != lower(new.last().name@)
}

/// `b` keeps all of `a` in front, and what it adds drops no channel.
pub open spec fn no_channel_drop(a: Seq<Outgoing>, b: Seq<Outgoing>) -> bool {
    extends(a, b) && forall|k: int| a.len() <= k < b.len() ==> !(#[trigger] b[k].message is DropChannel)
}

/// `b` keeps all of `a` in front.
pub open spec fn extends(a: Seq<Outgoing>, b: Seq<Outgoing>) -> bool {
    a.len() <= b.len() && forall|i: int| 0 <= i < a.len() ==> #[trigger] b[i] == a[i]
}

/// The single owner of users, channels and games. It takes one event at a time
/// and returns the messages that it produces.
pub struct Broker {
    pub users: Vec<User>,
    pub channels: Vec<Channel>,
    pub games: Vec<Game>,
    pub stats: Stats,
}

impl Broker {
    /// What holds at every step: ids, lowercase usernames, channel keys and game
    /// keys are unique, and every channel that a user sits in exists.
    pub open spec fn inv(&self) -> bool {
        &&& ids_unique(self.users@)
        &&& names_unique(self.users@)
        &&& channel_keys_unique(self.channels@)
        &&& game_keys_unique(self.games@)
        &&& channels_of_users_exist(self.users@, self.channels@)
    }

    /// What holds between events: besides `inv`, every channel and every game
    /// that is no longer requested has a user in it.
    pub open spec fn wf(&self) -> bool {
        &&& self.inv()
        &&& channels_occupied(self.users@, self.channels@)
        &&& forall|g: int|
            0 <= g < self.games@.len() && #[trigger] self.games@[g].status != GameStatus::Requested
                ==> occupied(self.users@, LocationView::Game(self.games@[g].name@))
    }

    /// No requested game is older than the time limit at `now`.
    pub open spec fn none_stale(&self, now: u64) -> bool {
        forall|g: int|
            0 <= g < self.games@.len() && #[trigger] self.games@[g].status == GameStatus::Requested
                ==> now as int <= self.games@[g].created_at as int + REQUESTED_GAME_TTL_MS as int
    }

    pub open spec fn users_view(&self) -> Seq<User> {
        self.users@
    }

    pub open spec fn channels_view(&self) -> Seq<Channel> {
        self.channels@
    }

    pub open spec fn games_view(&self) -> Seq<Game> {
        self.games@
    }

    pub fn new() -> (r: Broker)
        ensures
            r.wf(),
            r.users_view().len() == 0,
            r.channels_view().len() == 0,
            r.games_view().len() == 0,
    {
        Broker {
            users: Vec::new(),
            channels: Vec::new(),
            games: Vec::new(),
            stats: Stats {
                users_total: 0,
                users_online: 0,
                channels_total: 0,
                games_total: 0,
                games_open: 0,
            },
        }
    }

    pub fn users(&self) -> (r: &Vec<User>)
        ensures
            r@ == self.users_view(),
    {
        &self.users
    }

    pub fn channels(&self) -> (r: &Vec<Channel>)
        ensures
            r@ == self.channels_view(),
    {
        &self.channels
    }

    pub fn games(&self) -> (r: &Vec<Game>)
        ensures
            r@ == self.games_view(),
    {
        &self.games
    }

    /// The index of the user with id `id`.
    pub fn by_user_id(&self, id: &Guid) -> (r: Option<usize>)
        ensures
            r.is_some() ==> r.unwrap() < self.users@.len() && self.users@[r.unwrap() as int].id.bytes@ == id.bytes@,
            r.is_none() ==> forall|i: int| 0 <= i < self.users@.len() ==> #[trigger] self.users@[i].id.bytes@ != id.bytes@,
    {
        let mut i: usize = 0;
        while i < self.users.len()
            invariant
                0 <= i <= self.users@.len(),
                forall|j: int| 0 <= j < i ==> #[trigger] self.users@[j].id.bytes@ != id.bytes@,
            decreases self.users@.len() - i,
        {
            if self.users[i].id == *id {
                return Some(i);
            }
            i += 1;
        }
        None
    }

    /// The index of the user whose name matches `name` without regard to case.
    pub fn by_username(&self, name: &[u8]) -> (r: Option<usize>)
        ensures
            r.is_some() ==> r.unwrap() < self.users@.len() && lower(self.users@[r.unwrap() as int].username@) == lower(name@),
            r.is_none() ==> forall|i: int| 0 <= i < self.users@.len() ==> lower(#[trigger] self.users@[i].username@) != lower(name@),
    {
        let mut i: usize = 0;
        while i < self.users.len()
            invariant
                0 <= i <= self.users@.len(),
                forall|j: int| 0 <= j < i ==> lower(#[trigger] self.users@[j].username@) != lower(name@),
            decreases self.users@.len() - i,
        {
            if same_key(self.users[i].username.as_slice(), name) {
                return Some(i);
            }
            i += 1;
        }
        None
    }

    /// The index of the channel whose key is that of `name`.
    pub fn channel_by_name(&self, name: &[u8]) -> (r: Option<usize>)
        ensures
            r.is_some() ==> r.unwrap() < self.channels@.len() && lower(self.channels@[r.unwrap() as int].name@) == lower(name@),
            r.is_none() ==> forall|i: int| 0 <= i < self.channels@.len() ==> lower(#[trigger] self.channels@[i].name@) != lower(name@),
    {
        let mut i: usize = 0;
        while i < self.channels.len()
            invariant
                0 <= i <= self.channels@.len(),
                forall|j: int| 0 <= j < i ==> lower(#[trigger] self.channels@[j].name@) != lower(name@),
            decreases self.channels@.len() - i,
        {
            if same_key(self.channels[i].name.as_slice(), name) {
                return Some(i);
            }
            i += 1;
        }
        None
    }

    /// The index of the game whose key is that of `name`.
    pub fn game_by_name(&self, name: &[u8]) -> (r: Option<usize>)
        ensures
            r.is_some() ==> r.unwrap() < self.games@.len() && lower(self.games@[r.unwrap() as int].name@) == lower(name@),
            r.is_none() ==> forall|i: int| 0 <= i < self.games@.len() ==> lower(#[trigger] self.games@[i].name@) != lower(name@),
    {
        let mut i: usize = 0;
        while i < self.games.len()
            invariant
                0 <= i <= self.games@.len(),
                forall|j: int| 0 <= j < i ==> lower(#[trigger] self.games@[j].name@) != lower(name@),
            decreases self.games@.len() - i,
        {
            if same_key(self.games[i].name.as_slice(), name) {
                return Some(i);
            }
            i += 1;
        }
        None
    }

    /// The ids of the users at `l`, in order.
    pub fn users_in_location(&self, l: &Location) -> (r: Vec<Guid>)
        ensures
            guid_views(r@) == ids_at(self.users@, l.view()),
    {
        let mut r: Vec<Guid> = Vec::new();
        let mut i: usize = 0;
        while i < self.users.len()
            invariant
                0 <= i <= self.users@.len(),
                guid_views(r@) == ids_at(self.users@.subrange(0, i as int), l.view()),
            decreases self.users@.len() - i,
        {
            if self.users[i].location.same(l) {
                r.push(self.users[i].id);
            }
            i += 1;
            assert(self.users@.subrange(0, i as int).drop_last() =~= self.users@.subrange(0, i - 1));
            assert(guid_views(r@) =~= ids_at(self.users@.subrange(0, i as int), l.view()));
        }
        assert(self.users@.subrange(0, i as int) =~= self.users@);
        r
    }

    /// The ids of all users, in order.
    pub fn all_user_ids(&self) -> (r: Vec<Guid>)
        ensures
            guid_views(r@) == all_ids(self.users@),
    {
        let mut r: Vec<Guid> = Vec::new();
        let mut i: usize = 0;
        while i < self.users.len()
            invariant
                0 <= i <= self.users@.len(),
                guid_views(r@) == all_ids(self.users@.subrange(0, i as int)),
            decreases self.users@.len() - i,
        {
            let ghost before = r@;
            r.push(self.users[i].id);
            assert(guid_views(r@) =~= guid_views(before).push(self.users@[i as int].id.bytes@));
            i += 1;
            assert(all_ids(self.users@.subrange(0, i as int)) =~= all_ids(self.users@.subrange(0, i - 1)).push(self.users@[i - 1].id.bytes@));
        }
        assert(self.users@.subrange(0, i as int) =~= self.users@);
        r
    }

    /// Whether some user sits at `l`.
    pub fn is_occupied(&self, l: &Location) -> (r: bool)
        ensures
            r == occupied(self.users@, l.view()),
    {
        let mut i: usize = 0;
        while i < self.users.len()
            invariant
                0 <= i <= self.users@.len(),
                forall|j: int| 0 <= j < i ==> #[trigger] self.users@[j].location.view() != l.view(),
            decreases self.users@.len() - i,
        {
            if self.users[i].location.same(l) {
                return true;
            }
            i += 1;
        }
        false
    }

    /// Moves user `idx` to `next`: users at `next` hear `/$user` with the origin,
    /// users left behind hear `/&user` with the destination.
    fn update_location(&mut self, idx: usize, next: Location, out: &mut Vec<Outgoing>)
        requires
            old(self).inv(),
            idx < old(self).users@.len(),
            next.view() matches LocationView::Channel(n) ==> has_channel(old(self).channels@, n),
        ensures
            final(self).inv(),
            final(self).users@.len() == old(self).users@.len(),
            final(self).users@[idx as int].location.view() == next.view(),
            forall|i: int| 0 <= i < final(self).users@.len() ==> (#[trigger] final(self).users@[i]).id == old(self).users@[i].id
                && final(self).users@[i].username@ == old(self).users@[i].username@
                && final(self).users@[i].game_version == old(self).users@[i].game_version
                && final(self).users@[i].ip_addr == old(self).users@[i].ip_addr,
            forall|i: int| 0 <= i < final(self).users@.len() && i != idx ==> (#[trigger] final(self).users@[i]).location.view() == old(self).users@[i].location.view(),
            final(self).channels == old(self).channels,
            final(self).games == old(self).games,
            final(self).stats == old(self).stats,
            no_channel_drop(old(out)@, final(out)@),
            location_update(old(self).users@, final(self).users@, idx as int, next.view(), next.rendered(), old(out)@, final(out)@),
            announces_new_only(old(self).channels@, old(out)@, final(out)@),
            channels_extended(old(self).channels@, final(self).channels@),
    {
        let prev = self.users[idx].location.copy();
        if !prev.same(&next) {
            let to_next = self.users_in_location(&next);
            let name = copy_bytes(self.users[idx].username.as_slice());
            out.push(Outgoing {
                to: to_next,
                message: ServerMessage::UserJoined(UserJoinedMessage {
                    username: name,
                    version_idx: 0,
                    origin: Some(prev.to_bytes()),
                }),
            });
        }
        let ghost old_users = self.users@;
        let moved = !prev.same(&next);
        let dest = next.to_bytes();
        let mut u = self.users.remove(idx);
        u.location = next;
        self.users.insert(idx, u);
        assert(self.users@ =~= old_users.update(idx as int, self.users@[idx as int]));
        assert(channels_of_users_exist(self.users@, self.channels@)) by {
            assert forall|i: int| 0 <= i < self.users@.len() implies (#[trigger] self.users@[i].location.view() matches LocationView::Channel(n)
                ==> has_channel(self.channels@, n)) by {
                if i != idx {
                    assert(self.users@[i] == old_users[i]);
                }
            }
        }
        assert(ids_unique(self.users@)) by {
            assert forall|i: int, j: int| 0 <= i < j < self.users@.len() implies #[trigger] self.users@[i].id.bytes@ != #[trigger] self.users@[j].id.bytes@ by {
                assert(self.users@[i].id == old_users[i].id);
                assert(self.users@[j].id == old_users[j].id);
            }
        }
        assert(names_unique(self.users@)) by {
            assert forall|i: int, j: int| 0 <= i < j < self.users@.len() implies lower(#[trigger] self.users@[i].username@) != lower(#[trigger] self.users@[j].username@) by {
                assert(self.users@[i].username == old_users[i].username);
                assert(self.users@[j].username == old_users[j].username);
            }
        }
        if moved {
            let to_prev = self.users_in_location(&prev);
            let name = copy_bytes(self.users[idx].username.as_slice());
            out.push(Outgoing {
                to: to_prev,
                message: ServerMessage::UserLeft(UserLeftMessage { username: name, destination: Some(dest) }),
            });
        }
    }

    /// Adds one message for one user.
    fn send_one(out: &mut Vec<Outgoing>, to: Guid, message: ServerMessage)
        ensures
            final(out)@.len() == old(out)@.len() + 1,
            extends(old(out)@, final(out)@),
            guid_views(final(out)@.last().to@) == seq![to.bytes@],
            final(out)@.last().message == message,
    {
        let mut v: Vec<Guid> = Vec::new();
        v.push(to);
        assert(guid_views(v@) =~= seq![to.bytes@]);
        out.push(Outgoing { to: v, message });
    }

    /// Adds an error for one user.
    fn send_error(out: &mut Vec<Outgoing>, to: Guid, reason: &str)
        requires
            vstd::string::is_ascii(reason),
        ensures
            final(out)@.len() == old(out)@.len() + 1,
            no_channel_drop(old(out)@, final(out)@),
            guid_views(final(out)@.last().to@) == seq![to.bytes@],
            final(out)@.last().message matches ServerMessage::Error(m) && m.error@ == ascii(reason@),
    {
        Self::send_one(out, to, ErrorMessage::new_err(lit_bytes(reason).as_slice()));
    }

    /// `/send`: the message goes to everyone at the sender's location, the
    /// sender included.
    fn public_message(&self, idx: usize, message: Vec<u8>, out: &mut Vec<Outgoing>)
        requires
            idx < self.users@.len(),
        ensures
            final(out)@.len() == old(out)@.len() + 1,
            no_channel_drop(old(out)@, final(out)@),
            guid_views(final(out)@.last().to@) == ids_at(self.users@, self.users@[idx as int].location.view()),
            final(out)@.last().message matches ServerMessage::Send(m) && m.username@ == self.users@[idx as int].username@
                && m.message@ == message@,
            announces_new_only(self.channels@, old(out)@, final(out)@),
    {
        let to = self.users_in_location(&self.users[idx].location);
        out.push(Outgoing {
            to,
            message: ServerMessage::Send(SendMessage {
                username: copy_bytes(self.users[idx].username.as_slice()),
                message,
            }),
        });
    }

    /// `/msg`: to `#channel`, `$game`, or a user by name; the sender gets the
    /// echo, or an error where the target does not exist.
    fn private_message(&self, idx: usize, target: &[u8], message: Vec<u8>, out: &mut Vec<Outgoing>)
        requires
            idx < self.users@.len(),
        ensures
            no_channel_drop(old(out)@, final(out)@),
            private_message_spec(self.users@, self.channels@, self.games@, idx as int, target@, message@, old(out)@, final(out)@),
            announces_new_only(self.channels@, old(out)@, final(out)@),
    {
        let sender = self.users[idx].id;
        let from = copy_bytes(self.users[idx].username.as_slice());
        let location = self.users[idx].location.to_bytes();
        if target.len() > 0 && target[0] == 0x23 {
            let rest = vstd::slice::slice_subrange(target, 1, target.len());
            assert(rest@ =~= target@.subrange(1, target@.len() as int));
            match self.channel_by_name(rest) {
                Some(c) => {
                    let loc = self.channels[c].to_location();
                    Self::deliver(self, 0x23, self.channels[c].name.as_slice(), &loc, sender, from, location, message, out);
                },
                None => {
                    proof {
                        reveal_strlit("Channel does not exist");
                    }
                    Self::send_error(out, sender, "Channel does not exist");
                },
            }
        } else if target.len() > 0 && target[0] == 0x24 {
            let rest = vstd::slice::slice_subrange(target, 1, target.len());
            assert(rest@ =~= target@.subrange(1, target@.len() as int));
            match self.game_by_name(rest) {
                Some(g) => {
                    let loc = self.games[g].to_location();
                    Self::deliver(self, 0x24, self.games[g].name.as_slice(), &loc, sender, from, location, message, out);
                },
                None => {
                    proof {
                        reveal_strlit("Game does not exist");
                    }
                    Self::send_error(out, sender, "Game does not exist");
                },
            }
        } else {
            match self.by_username(target) {
                Some(r) => {
                    let name = copy_bytes(self.users[r].username.as_slice());
                    Self::send_one(
                        out,
                        sender,
                        ServerMessage::SentPrivate(SentPrivateMessage {
                            to: copy_bytes(name.as_slice()),
                            message: copy_bytes(message.as_slice()),
                        }),
                    );
                    let ghost mid = out@;
                    Self::send_one(
                        out,
                        self.users[r].id,
                        ServerMessage::Private(PrivateMessage { from, to: name, location, message }),
                    );
                    assert(out@[old(out)@.len() as int] == mid[old(out)@.len() as int]);
                },
                None => {
                    proof {
                        reveal_strlit("User does not exist");
                    }
                    Self::send_error(out, sender, "User does not exist");
                },
            }
        }
    }

    /// The echo to the sender and the delivery to everyone at `loc`, for a
    /// target shown as `prefix` and `shown`.
    fn deliver(
        &self,
        prefix: u8,
        shown: &[u8],
        loc: &Location,
        sender: Guid,
        from: Vec<u8>,
        location: Vec<u8>,
        message: Vec<u8>,
        out: &mut Vec<Outgoing>,
    )
        ensures
            final(out)@.len() == old(out)@.len() + 2,
            no_channel_drop(old(out)@, final(out)@),
            is_echo(final(out)@[old(out)@.len() as int], sender.bytes@, seq![prefix] + shown@, message@),
            is_delivery(final(out)@[old(out)@.len() + 1 as int], ids_at(self.users@, loc.view()), from@, seq![prefix] + shown@, location@, message@),
            announces_new_only(self.channels@, old(out)@, final(out)@),
    {
        let mut to_text: Vec<u8> = Vec::new();
        to_text.push(prefix);
        push_all(&mut to_text, shown);
        assert(to_text@ =~= seq![prefix] + shown@);
        Self::send_one(
            out,
            sender,
            ServerMessage::SentPrivate(SentPrivateMessage {
                to: copy_bytes(to_text.as_slice()),
                message: copy_bytes(message.as_slice()),
            }),
        );
        let recipients = self.users_in_location(loc);
        out.push(Outgoing {
            to: recipients,
            message: ServerMessage::Private(PrivateMessage { from, to: to_text, location, message }),
        });
    }

    /// `/join`: validates the name, creates the channel where it is new
    /// (announced to all), lists its occupants to the user and moves the user in.
    fn join_channel(&mut self, idx: usize, channel_name: &[u8], out: &mut Vec<Outgoing>)
        requires
            old(self).inv(),
            idx < old(self).users@.len(),
        ensures
            final(self).inv(),
            no_channel_drop(old(out)@, final(out)@),
            final(self).users@.len() == old(self).users@.len(),
            forall|i: int| 0 <= i < final(self).users@.len() ==> (#[trigger] final(self).users@[i]).id == old(self).users@[i].id
                && final(self).users@[i].username@ == old(self).users@[i].username@
                && final(self).users@[i].game_version == old(self).users@[i].game_version
                && final(self).users@[i].ip_addr == old(self).users@[i].ip_addr,
            forall|i: int| 0 <= i < final(self).users@.len() && i != idx ==> (#[trigger] final(self).users@[i]).location.view() == old(self).users@[i].location.view(),
            final(self).games == old(self).games,
            final(self).stats == old(self).stats,
            valid_name(channel_name@, CharClass::Channel) ==> exists|c: int| 0 <= c < final(self).channels@.len()
                && lower(#[trigger] final(self).channels@[c].name@) == lower(channel_name@)
                && final(self).users@[idx as int].location.view() == LocationView::Channel(final(self).channels@[c].name@),
            !valid_name(channel_name@, CharClass::Channel) ==> final(self).users == old(self).users
                && final(self).channels == old(self).channels && final(out)@.len() == old(out)@.len() + 1
                && is_error_to(final(out)@.last(), old(self).users@[idx as int].id.bytes@, ascii("Invalid channel name"@)),
            // Otherwise: the acknowledgement, the occupants and the move.
            valid_name(channel_name@, CharClass::Channel) && !(exists|c: int| 0 <= c < old(self).channels@.len()
                && lower(#[trigger] old(self).channels@[c].name@) == lower(channel_name@)
                && old(self).users@[idx as int].location.view() == LocationView::Channel(old(self).channels@[c].name@))
                ==> exists|c: int| 0 <= c < final(self).channels@.len() && lower(#[trigger] final(self).channels@[c].name@) == lower(channel_name@)
                && join_channel_msgs(old(self).users@, final(self).users@, idx as int, final(self).channels@[c].name@,
                    old(out)@.len() + final(self).channels@.len() - old(self).channels@.len(), final(out)@),
            final(self).channels@.len() <= old(self).channels@.len() + 1,
            final(self).channels@.subrange(0, old(self).channels@.len() as int) == old(self).channels@,
            valid_name(channel_name@, CharClass::Channel) && (exists|c: int| 0 <= c < old(self).channels@.len()
                && lower(#[trigger] old(self).channels@[c].name@) == lower(channel_name@)) ==> final(self).channels == old(self).channels,
            join_channel_outcome(old(self).users@, old(self).channels@, final(self).users@, final(self).channels@, idx as int,
                channel_name@, old(out)@, final(out)@),
            // Already there: nothing happens.
            valid_name(channel_name@, CharClass::Channel) && (exists|c: int| 0 <= c < old(self).channels@.len()
                && lower(#[trigger] old(self).channels@[c].name@) == lower(channel_name@)
                && old(self).users@[idx as int].location.view() == LocationView::Channel(old(self).channels@[c].name@))
                ==> final(self).users == old(self).users && final(self).channels == old(self).channels && final(out)@ == old(out)@,
            // A new channel is added under the name given and announced to everyone.
            valid_name(channel_name@, CharClass::Channel) && !(exists|c: int| 0 <= c < old(self).channels@.len()
                && lower(#[trigger] old(self).channels@[c].name@) == lower(channel_name@)) ==> final(self).channels@.len()
                == old(self).channels@.len() + 1 && final(self).channels@.last().name@ == channel_name@
                && final(out)@.len() > old(out)@.len()
                && guid_views(final(out)@[old(out)@.len() as int].to@) == all_ids(old(self).users@)
                && (final(out)@[old(out)@.len() as int].message matches ServerMessage::NewChannel(m) && m.channel_name@ == channel_name@),
            announces_new_only(old(self).channels@, old(out)@, final(out)@),
            channels_extended(old(self).channels@, final(self).channels@),
    {
        if !only_allowed_chars_not_empty(channel_name, CharClass::Channel) {
            proof {
                reveal_strlit("Invalid channel name");
            }
            Self::send_error(out, self.users[idx].id, "Invalid channel name");
            return;
        }
        let ghost n0 = out@.len() as int;
        let ghost mut after_create: Seq<Outgoing> = out@;
        let ci = match self.channel_by_name(channel_name) {
            Some(c) => {
                proof {
                    assert forall|d: int| 0 <= d < self.channels@.len() && lower(#[trigger] self.channels@[d].name@) == lower(channel_name@) implies d == c by {
                        if d < c {
                            assert(lower(self.channels@[d].name@) != lower(self.channels@[c as int].name@));
                        } else if d > c {
                            assert(lower(self.channels@[c as int].name@) != lower(self.channels@[d].name@));
                        }
                    }
                }
                c
            },
            None => {
                let ghost old_cs = self.channels@;
                let to = self.all_user_ids();
                self.channels.push(Channel { name: copy_bytes(channel_name) });
                assert(channels_of_users_exist(self.users@, self.channels@)) by {
                    assert forall|i: int| 0 <= i < self.users@.len() implies (#[trigger] self.users@[i].location.view() matches LocationView::Channel(n)
                        ==> has_channel(self.channels@, n)) by {
                        if let LocationView::Channel(n) = self.users@[i].location.view() {
                            let j = choose|j: int| 0 <= j < old_cs.len() && #[trigger] old_cs[j].name@ == n;
                            assert(self.channels@[j] == old_cs[j]);
                        }
                    }
                }
                let last = self.channels.len() - 1;
                out.push(Outgoing { to, message: self.channels[last].to_new_channel_message() });
                proof {
                    after_create = out@;
                }
                last
            },
        };
        assert(after_create == out@ && after_create.len() - n0 == self.channels@.len() - old(self).channels@.len());
        let loc = self.channels[ci].to_location();
        if loc.same(&self.users[idx].location) {
            return;
        }
        let me = self.users[idx].id;
        let ghost start = out@.len() as int;
        let ghost cn = self.channels@[ci as int].name@;
        Self::send_one(
            out,
            me,
            ServerMessage::JoinChannel(JoinChannelMessage { channel_name: copy_bytes(self.channels[ci].name.as_slice()) }),
        );
        let mut i: usize = 0;
        while i < self.users.len()
            invariant
                0 <= i <= self.users@.len(),
                no_channel_drop(old(out)@, out@),
                announces_new_only(old(self).channels@, old(out)@, out@),
                extends(after_create, out@),
                loc.view() == LocationView::Channel(cn),
                me == self.users@[idx as int].id,
                0 <= start < out@.len(),
                guid_views(out@[start].to@) == seq![me.bytes@],
                out@[start].message matches ServerMessage::JoinChannel(m) && m.channel_name@ == cn,
                out@.len() == start + 1 + names_at(self.users@.subrange(0, i as int), LocationView::Channel(cn)).len(),
                forall|j: int| 0 <= j < names_at(self.users@.subrange(0, i as int), LocationView::Channel(cn)).len() ==> (
                    #[trigger] out@[start + 1 + j].message matches ServerMessage::NewUser(m)
                    && m.username@ == names_at(self.users@.subrange(0, i as int), LocationView::Channel(cn))[j])
                    && guid_views(out@[start + 1 + j].to@) == seq![me.bytes@],
            decreases self.users@.len() - i,
        {
            let ghost before = out@;
            assert(self.users@.subrange(0, i + 1).drop_last() =~= self.users@.subrange(0, i as int));
            if self.users[i].location.same(&loc) {
                Self::send_one(
                    out,
                    me,
                    ServerMessage::NewUser(NewUserMessage { username: copy_bytes(self.users[i].username.as_slice()) }),
                );
            }
            proof {
                let prev = names_at(self.users@.subrange(0, i as int), LocationView::Channel(cn));
                let next = names_at(self.users@.subrange(0, i + 1), LocationView::Channel(cn));
                assert forall|j: int| 0 <= j < next.len() implies (#[trigger] out@[start + 1 + j].message matches ServerMessage::NewUser(m)
                    && m.username@ == next[j]) && guid_views(out@[start + 1 + j].to@) == seq![me.bytes@] by {
                    if j < prev.len() {
                        assert(out@[start + 1 + j] == before[start + 1 + j]);
                        assert(next[j] == prev[j]);
                    }
                }
                assert(out@[start] == before[start]);
            }
            i += 1;
        }
        assert(self.users@.subrange(0, i as int) =~= self.users@);
        assert(has_channel(self.channels@, self.channels@[ci as int].name@));
        let ghost pre_move = out@;
        self.update_location(idx, loc, out);
        assert(after_create.len() > n0 ==> out@[n0] == after_create[n0]);
        proof {
            let names = names_at(old(self).users@, LocationView::Channel(cn));
            assert(pre_move =~= out@.subrange(0, start + 1 + names.len()));
            assert(out@[start] == pre_move[start]);
            assert forall|j: int| 0 <= j < names.len() implies (#[trigger] out@[start + 1 + j].message matches ServerMessage::NewUser(m)
                && m.username@ == names[j]) && guid_views(out@[start + 1 + j].to@) == seq![me.bytes@] by {
                assert(out@[start + 1 + j] == pre_move[start + 1 + j]);
            }
            assert(lower(self.channels@[ci as int].name@) == lower(channel_name@));
            assert(start == old(out)@.len() + self.channels@.len() - old(self).channels@.len());
            assert(join_channel_msgs(old(self).users@, self.users@, idx as int, cn, start, out@));
            assert(join_channel_msgs(old(self).users@, self.users@, idx as int, self.channels@[ci as int].name@,
                old(out)@.len() + self.channels@.len() - old(self).channels@.len(), out@));
            assert(exists|c: int| 0 <= c < self.channels@.len()
                && lower(#[trigger] self.channels@[c].name@) == lower(channel_name@)
                && join_channel_msgs(old(self).users@, self.users@, idx as int, self.channels@[c].name@,
                old(out)@.len() + self.channels@.len() - old(self).channels@.len(), out@));
            assert(valid_name(channel_name@, CharClass::Channel));
            if !(exists|c: int| 0 <= c < old(self).channels@.len() && lower(#[trigger] old(self).channels@[c].name@) == lower(channel_name@)) {
                assert(out@[old(out)@.len() as int] == after_create[old(out)@.len() as int]);
            }
            if exists|c: int| 0 <= c < old(self).channels@.len() && lower(#[trigger] old(self).channels@[c].name@) == lower(channel_name@)
                && old(self).users@[idx as int].location.view() == LocationView::Channel(old(self).channels@[c].name@) {
                let c = choose|c: int| 0 <= c < old(self).channels@.len() && lower(#[trigger] old(self).channels@[c].name@) == lower(channel_name@)
                    && old(self).users@[idx as int].location.view() == LocationView::Channel(old(self).channels@[c].name@);
                assert(self.channels@ == old(self).channels@);
                if c != ci {
                    if c < ci {
                        assert(lower(old(self).channels@[c].name@) != lower(old(self).channels@[ci as int].name@));
                    } else {
                        assert(lower(old(self).channels@[ci as int].name@) != lower(old(self).channels@[c].name@));
                    }
                }
                assert(false);
            }
            let users = old(self).users@;
            let channels = old(self).channels@;
            let name = channel_name@;
            let known = exists|c: int| 0 <= c < channels.len() && lower(#[trigger] channels[c].name@) == lower(name);
            assert(known ==> self.channels@ == channels);
            assert(!known ==> self.channels@.len() == channels.len() + 1 && self.channels@.subrange(0, channels.len() as int) == channels
                && self.channels@.last().name@ == name);
            assert(!known ==> out@.len() > old(out)@.len() && guid_views(out@[old(out)@.len() as int].to@) == all_ids(users));
        }
    }

    /// Replaces the status (and, where given, the invite id) of game `gi`.
    fn set_game_status(&mut self, gi: usize, status: GameStatus, id: Option<Guid>)
        requires
            old(self).inv(),
            gi < old(self).games@.len(),
        ensures
            final(self).inv(),
            final(self).users == old(self).users,
            final(self).channels == old(self).channels,
            final(self).stats == old(self).stats,
            final(self).games@.len() == old(self).games@.len(),
            forall|g: int| 0 <= g < final(self).games@.len() && g != gi ==> #[trigger] final(self).games@[g] == old(self).games@[g],
            final(self).games@[gi as int].status == status,
            final(self).games@[gi as int].name == old(self).games@[gi as int].name,
            final(self).games@[gi as int].hosted_by == old(self).games@[gi as int].hosted_by,
            final(self).games@[gi as int].created_at == old(self).games@[gi as int].created_at,
            final(self).games@[gi as int].password == old(self).games@[gi as int].password,
            final(self).games@[gi as int].id == (match id {
                Some(v) => v,
                None => old(self).games@[gi as int].id,
            }),
    {
        let ghost old_games = self.games@;
        let mut g = self.games.remove(gi);
        g.status = status;
        if let Some(v) = id {
            g.id = v;
        }
        self.games.insert(gi, g);
        assert(self.games@ =~= old_games.update(gi as int, self.games@[gi as int]));
        assert(game_keys_unique(self.games@)) by {
            assert forall|a: int, b: int| 0 <= a < b < self.games@.len() implies lower(#[trigger] self.games@[a].name@) != lower(#[trigger] self.games@[b].name@) by {
                assert(self.games@[a].name == old_games[a].name);
                assert(self.games@[b].name == old_games[b].name);
            }
        }
    }

    /// `/plays` from user `idx`, with `token` the id that `password_or_guid`
    /// parses to, if any: a new name is requested (the host gets `minted`); the
    /// host confirming a requested game with an id opens it; the host
    /// confirming an open game starts it. Anything else is refused.
    pub fn host_game(
        &mut self,
        idx: usize,
        game_name: &[u8],
        password_or_guid: &[u8],
        token: Option<Guid>,
        now: u64,
        minted: Guid,
        out: &mut Vec<Outgoing>,
    )
        requires
            old(self).inv(),
            idx < old(self).users@.len(),
        ensures
            final(self).inv(),
            no_channel_drop(old(out)@, final(out)@),
            final(self).users@.len() == old(self).users@.len(),
            forall|i: int| 0 <= i < final(self).users@.len() ==> (#[trigger] final(self).users@[i]).id == old(self).users@[i].id
                && final(self).users@[i].username@ == old(self).users@[i].username@
                && final(self).users@[i].game_version == old(self).users@[i].game_version
                && final(self).users@[i].ip_addr == old(self).users@[i].ip_addr,
            forall|i: int| 0 <= i < final(self).users@.len() && i != idx ==> (#[trigger] final(self).users@[i]).location.view() == old(self).users@[i].location.view(),
            final(self).channels == old(self).channels,
            final(self).stats == old(self).stats,
            final(self).games@.len() >= old(self).games@.len(),
            forall|g: int| 0 <= g < old(self).games@.len() ==> (#[trigger] final(self).games@[g]).name == old(self).games@[g].name
                && final(self).games@[g].created_at == old(self).games@[g].created_at,
            forall|g: int| old(self).games@.len() <= g < final(self).games@.len() ==> (#[trigger] final(self).games@[g]).status == GameStatus::Requested
                && final(self).games@[g].created_at == now,
            games_step(old(self).games@, final(self).games@, old(self).users@, final(self).users@, old(out)@, final(out)@),
            host_game_outcome(old(self).users@, old(self).games@, final(self).users@, final(self).games@, idx as int, game_name@,
                password_or_guid@, guid_bytes(token), now, minted, old(out)@, final(out)@),
            announces_new_only(old(self).channels@, old(out)@, final(out)@),
            channels_extended(old(self).channels@, final(self).channels@),
    {
        let me = self.users[idx].id;
        if !only_allowed_chars_not_empty(game_name, CharClass::Game) {
            proof {
                reveal_strlit("Invalid game name");
            }
            Self::send_error(out, me, "Invalid game name");
            return;
        }
        match self.game_by_name(game_name) {
            None => {
                let ghost old_games = self.games@;
                let game = Game {
                    hosted_by: me,
                    host_ip: self.users[idx].ip_addr,
                    id: Guid::nil(),
                    game_version: self.users[idx].game_version,
                    name: copy_bytes(game_name),
                    password: copy_bytes(password_or_guid),
                    status: GameStatus::Requested,
                    created_at: now,
                };
                Self::send_one(
                    out,
                    me,
                    ServerMessage::CreateGame(CreateGameMessage {
                        version: game.game_version,
                        game_name: copy_bytes(game_name),
                        password: copy_bytes(password_or_guid),
                        id: minted,
                    }),
                );
                self.games.push(game);
                assert(forall|g: int| 0 <= g < old_games.len() ==> self.games@[g] == old_games[g]);
                assert forall|a: int, b: int| 0 <= a < b < self.games@.len() implies lower(#[trigger] self.games@[a].name@)
                    != lower(#[trigger] self.games@[b].name@) by {
                    assert(self.games@[a] == old_games[a]);
                    if b < old_games.len() {
                        assert(self.games@[b] == old_games[b]);
                        assert(lower(old_games[a].name@) != lower(old_games[b].name@));
                    } else {
                        assert(self.games@[b].name@ == game_name@);
                        assert(lower(old_games[a].name@) != lower(game_name@));
                    }
                }
                assert(self.games@.subrange(0, old_games.len() as int) =~= old_games);
            },
            Some(gi) => {
                proof {
                    assert forall|g: int| 0 <= g < self.games@.len() && lower(#[trigger] self.games@[g].name@) == lower(game_name@) implies g == gi by {
                        if g < gi {
                            assert(lower(self.games@[g].name@) != lower(self.games@[gi as int].name@));
                        } else if g > gi {
                            assert(lower(self.games@[gi as int].name@) != lower(self.games@[g].name@));
                        }
                    }
                }
                let parsed = token;
                let status = self.games[gi].status;
                if status == GameStatus::Started || self.games[gi].hosted_by != me || parsed.is_none() {
                    proof {
                        reveal_strlit("Game already exists.");
                    }
                    Self::send_error(out, me, "Game already exists.");
                    return;
                }
                if status == GameStatus::Requested {
                    let to = self.all_user_ids();
                    self.set_game_status(gi, GameStatus::Open, parsed);
                    let ghost mid = out@.len();
                    out.push(Outgoing { to, message: self.games[gi].to_new_game_message() });
                    let ghost games_now = self.games@;
                    let ghost snapshot = out@;
                    let loc = self.games[gi].to_location();
                    self.update_location(idx, loc, out);
                    assert(out@[mid as int] == snapshot[mid as int]);
                    assert(self.games@ == games_now);
                    assert(out@[mid as int].message matches ServerMessage::NewGame(m) && m.game_name@ == self.games@[gi as int].name@
                        && m.id == self.games@[gi as int].id);
                    assert(guid_views(out@[mid as int].to@) == all_ids(old(self).users@));
                    assert(self.users@[idx as int].id.bytes@ == self.games@[gi as int].hosted_by.bytes@);
                    assert(self.users@[idx as int].location.view() == LocationView::Game(self.games@[gi as int].name@));
                    assert(snapshot =~= out@.subrange(0, mid + 1 as int));
                    assert(loc.rendered() == seq![0x24u8] + old(self).games@[gi as int].name@);
                    assert(location_update(old(self).users@, self.users@, idx as int, LocationView::Game(old(self).games@[gi as int].name@),
                        seq![0x24u8] + old(self).games@[gi as int].name@, out@.subrange(0, mid + 1 as int), out@));
                    assert(mid == old(out)@.len());
                } else {
                    let to = self.all_user_ids();
                    self.set_game_status(gi, GameStatus::Started, None);
                    let ghost k = out@.len() as int;
                    out.push(Outgoing { to, message: self.games[gi].to_drop_game_message() });
                    assert(out@[k].message matches ServerMessage::DropGame(m) && m.game_name@ == self.games@[gi as int].name@);
                }
            },
        }
    }

    /// `/playc` from user `idx`, with `token` the id that `password` parses to,
    /// if any: an id equal to the game's invite id moves the user into the
    /// game; the game's password gets the host's address and the invite id;
    /// anything else is refused.
    pub fn join_game(&mut self, idx: usize, game_name: &[u8], password: &[u8], token: Option<Guid>, out: &mut Vec<Outgoing>)
        requires
            old(self).inv(),
            idx < old(self).users@.len(),
        ensures
            final(self).inv(),
            no_channel_drop(old(out)@, final(out)@),
            final(self).users@.len() == old(self).users@.len(),
            forall|i: int| 0 <= i < final(self).users@.len() ==> (#[trigger] final(self).users@[i]).id == old(self).users@[i].id
                && final(self).users@[i].username@ == old(self).users@[i].username@
                && final(self).users@[i].game_version == old(self).users@[i].game_version
                && final(self).users@[i].ip_addr == old(self).users@[i].ip_addr,
            forall|i: int| 0 <= i < final(self).users@.len() && i != idx ==> (#[trigger] final(self).users@[i]).location.view() == old(self).users@[i].location.view(),
            final(self).channels == old(self).channels,
            final(self).games == old(self).games,
            final(self).stats == old(self).stats,
            join_game_outcome(old(self).users@, old(self).games@, final(self).users@, idx as int, game_name@, password@,
                guid_bytes(token), old(out)@, final(out)@),
            announces_new_only(old(self).channels@, old(out)@, final(out)@),
            channels_extended(old(self).channels@, final(self).channels@),
    {
        let me = self.users[idx].id;
        match self.game_by_name(game_name) {
            None => {
                proof {
                    reveal_strlit("Game does not exist");
                }
                Self::send_error(out, me, "Game does not exist");
            },
            Some(gi) => {
                proof {
                    assert forall|g: int| 0 <= g < self.games@.len() && lower(#[trigger] self.games@[g].name@) == lower(game_name@) implies g == gi by {
                        if g < gi {
                            assert(lower(self.games@[g].name@) != lower(self.games@[gi as int].name@));
                        } else if g > gi {
                            assert(lower(self.games@[gi as int].name@) != lower(self.games@[g].name@));
                        }
                    }
                }
                let token_ok = match token {
                    Some(id) => id == self.games[gi].id,
                    None => false,
                };
                if token_ok {
                    let loc = self.games[gi].to_location();
                    self.update_location(idx, loc, out);
                } else if bytes_eq(password, self.games[gi].password.as_slice()) {
                    Self::send_one(
                        out,
                        me,
                        ServerMessage::JoinGame(JoinGameMessage {
                            version: self.users[idx].game_version,
                            game_name: copy_bytes(self.games[gi].name.as_slice()),
                            password: copy_bytes(password),
                            ip_addr: self.games[gi].host_ip,
                            id: self.games[gi].id,
                        }),
                    );
                } else {
                    proof {
                        reveal_strlit("Invalid password");
                    }
                    Self::send_error(out, me, "Invalid password");
                }
            },
        }
    }

    /// Drops every channel without users, announcing each drop to everyone.
    fn check_remove_empty_channels(&mut self, out: &mut Vec<Outgoing>)
        requires
            old(self).inv(),
        ensures
            final(self).inv(),
            channels_occupied(final(self).users@, final(self).channels@),
            final(self).users == old(self).users,
            final(self).games == old(self).games,
            final(self).stats == old(self).stats,
            extends(old(out)@, final(out)@),
            forall|j: int| 0 <= j < old(self).channels@.len() && occupied(old(self).users@, LocationView::Channel(#[trigger] old(self).channels@[j].name@))
                ==> has_channel(final(self).channels@, old(self).channels@[j].name@),
            forall|c: int| 0 <= c < final(self).channels@.len() ==> has_channel(old(self).channels@, #[trigger] final(self).channels@[c].name@),
            forall|k: int| old(out)@.len() <= k < final(out)@.len() ==> (#[trigger] final(out)@[k].message matches ServerMessage::DropChannel(m)
                && !has_channel(final(self).channels@, m.channel_name@)),
            final(self).channels@ == kept_channels(old(self).channels@, old(self).users@),
            final(out)@.len() == old(out)@.len() + dropped_channels(old(self).channels@, old(self).users@).len(),
            forall|j: int| 0 <= j < dropped_channels(old(self).channels@, old(self).users@).len() ==> (
                #[trigger] final(out)@[old(out)@.len() + j].message matches ServerMessage::DropChannel(m)
                && m.channel_name@ == dropped_channels(old(self).channels@, old(self).users@)[j])
                && guid_views(final(out)@[old(out)@.len() + j].to@) == all_ids(old(self).users@),
    {
        let mut rest: Vec<Channel> = Vec::new();
        std::mem::swap(&mut self.channels, &mut rest);
        let ghost orig = rest@;
        let ghost start = out@.len();
        let ghost mut i: int = 0;
        while rest.len() > 0
            invariant
                0 <= i <= orig.len(),
                rest@ == orig.subrange(i as int, orig.len() as int),
                self.users == old(self).users,
                self.games == old(self).games,
                self.stats == old(self).stats,
                orig == old(self).channels@,
                channel_keys_unique(orig),
                channel_keys_unique(self.channels@),
                extends(old(out)@, out@),
                start == old(out)@.len(),
                forall|c: int| 0 <= c < self.channels@.len() ==> exists|j: int| 0 <= j < i && (#[trigger] self.channels@[c]).name@ == orig[j].name@,
                forall|c: int| 0 <= c < self.channels@.len() ==> occupied(self.users@, LocationView::Channel(#[trigger] self.channels@[c].name@)),
                forall|j: int| 0 <= j < i && occupied(self.users@, LocationView::Channel(#[trigger] orig[j].name@)) ==> has_channel(self.channels@, orig[j].name@),
                forall|k: int| start <= k < out@.len() ==> (#[trigger] out@[k].message matches ServerMessage::DropChannel(m)
                    && exists|j: int| 0 <= j < i && orig[j].name@ == m.channel_name@ && !occupied(self.users@, LocationView::Channel(orig[j].name@))),
                self.channels@ == kept_channels(orig.subrange(0, i), self.users@),
                out@.len() == start + dropped_channels(orig.subrange(0, i), self.users@).len(),
                forall|j: int| 0 <= j < dropped_channels(orig.subrange(0, i), self.users@).len() ==> (
                    #[trigger] out@[start + j].message matches ServerMessage::DropChannel(m)
                    && m.channel_name@ == dropped_channels(orig.subrange(0, i), self.users@)[j])
                    && guid_views(out@[start + j].to@) == all_ids(self.users@),
            decreases rest@.len(),
        {
            let c = rest.remove(0);
            assert(c == orig[i as int]);
            assert(orig.subrange(0, i + 1).drop_last() =~= orig.subrange(0, i));
            let ghost out_before = out@;
            let loc = c.to_location();
            if self.is_occupied(&loc) {
                let ghost before = self.channels@;
                self.channels.push(c);
                assert forall|a: int, b: int| 0 <= a < b < self.channels@.len() implies lower(#[trigger] self.channels@[a].name@) != lower(#[trigger] self.channels@[b].name@) by {
                    if b == before.len() {
                        let j = choose|j: int| 0 <= j < i && (#[trigger] before[a]).name@ == orig[j].name@;
                        assert(self.channels@[a] == before[a]);
                    } else {
                        assert(self.channels@[a] == before[a]);
                        assert(self.channels@[b] == before[b]);
                    }
                }
                assert forall|cc: int| 0 <= cc < self.channels@.len() implies exists|j: int| 0 <= j < i + 1 && (#[trigger] self.channels@[cc]).name@ == orig[j].name@ by {
                    if cc < before.len() {
                        assert(self.channels@[cc] == before[cc]);
                        let j = choose|j: int| 0 <= j < i && (#[trigger] before[cc]).name@ == orig[j].name@;
                        assert(0 <= j < i + 1 && self.channels@[cc].name@ == orig[j].name@);
                    } else {
                        assert(0 <= i < i + 1 && self.channels@[cc].name@ == orig[i as int].name@);
                    }
                }
                assert forall|j: int| 0 <= j < i + 1 && occupied(self.users@, LocationView::Channel(#[trigger] orig[j].name@)) implies has_channel(self.channels@, orig[j].name@) by {
                    if j < i {
                        let c2 = choose|c2: int| 0 <= c2 < before.len() && #[trigger] before[c2].name@ == orig[j].name@;
                        assert(self.channels@[c2] == before[c2]);
                    } else {
                        assert(self.channels@[before.len() as int].name@ == orig[j].name@);
                    }
                }
            } else {
                let to = self.all_user_ids();
                let ghost before_out = out@;
                out.push(Outgoing { to, message: c.to_drop_channel_message() });
                assert forall|k: int| start <= k < out@.len() implies (#[trigger] out@[k].message matches ServerMessage::DropChannel(m)
                    && exists|j: int| 0 <= j < i + 1 && orig[j].name@ == m.channel_name@ && !occupied(self.users@, LocationView::Channel(orig[j].name@))) by {
                    if k < before_out.len() {
                        assert(out@[k] == before_out[k]);
                    } else {
                        assert(orig[i as int].name@ == c.name@);
                    }
                }
            }
            proof {
                let d = dropped_channels(orig.subrange(0, i + 1), self.users@);
                assert forall|j: int| 0 <= j < d.len() implies (#[trigger] out@[start + j].message matches ServerMessage::DropChannel(m)
                    && m.channel_name@ == d[j]) && guid_views(out@[start + j].to@) == all_ids(self.users@) by {
                    if j < dropped_channels(orig.subrange(0, i), self.users@).len() {
                        assert(out@[start + j] == out_before[start + j]);
                    }
                }
                i = i + 1;
            }
            assert(rest@ =~= orig.subrange(i as int, orig.len() as int));
        }
        proof {
            assert(orig.subrange(0, i) =~= orig);
            assert forall|u: int| 0 <= u < self.users@.len() implies (#[trigger] self.users@[u].location.view() matches LocationView::Channel(n)
                ==> has_channel(self.channels@, n)) by {
                if let LocationView::Channel(n) = self.users@[u].location.view() {
                    assert(has_channel(orig, n));
                    let j = choose|j: int| 0 <= j < orig.len() && #[trigger] orig[j].name@ == n;
                    assert(occupied(self.users@, LocationView::Channel(orig[j].name@)));
                }
            }
            assert forall|k: int| start <= k < out@.len() implies (#[trigger] out@[k].message matches ServerMessage::DropChannel(m)
                && !has_channel(self.channels@, m.channel_name@)) by {
                if let ServerMessage::DropChannel(m) = out@[k].message {
                    let j = choose|j: int| 0 <= j < i && orig[j].name@ == m.channel_name@ && !occupied(self.users@, LocationView::Channel(orig[j].name@));
                    if has_channel(self.channels@, m.channel_name@) {
                        let c = choose|c: int| 0 <= c < self.channels@.len() && #[trigger] self.channels@[c].name@ == m.channel_name@;
                        assert(occupied(self.users@, LocationView::Channel(self.channels@[c].name@)));
                    }
                }
            }
            assert forall|c: int| 0 <= c < self.channels@.len() implies has_channel(orig, #[trigger] self.channels@[c].name@) by {
                let j = choose|j: int| 0 <= j < i && (#[trigger] self.channels@[c]).name@ == orig[j].name@;
                assert(orig[j].name@ == self.channels@[c].name@);
            }
        }
    }

    /// Drops every requested game older than the limit at `now`, and every other
    /// game without users; the drop of an open game is announced to everyone.
    fn check_remove_empty_games(&mut self, now: u64, out: &mut Vec<Outgoing>)
        requires
            old(self).inv(),
        ensures
            final(self).inv(),
            final(self).none_stale(now),
            forall|g: int| 0 <= g < final(self).games@.len() && #[trigger] final(self).games@[g].status != GameStatus::Requested
                ==> occupied(final(self).users@, LocationView::Game(final(self).games@[g].name@)),
            final(self).users == old(self).users,
            final(self).channels == old(self).channels,
            final(self).stats == old(self).stats,
            no_channel_drop(old(out)@, final(out)@),
            forall|j: int| 0 <= j < old(self).games@.len() && #[trigger] old(self).games@[j].status == GameStatus::Open
                && !occupied(old(self).users@, LocationView::Game(old(self).games@[j].name@))
                ==> exists|k: int| old(out)@.len() <= k < final(out)@.len() && (#[trigger] final(out)@[k].message matches ServerMessage::DropGame(m)
                    && m.game_name@ == old(self).games@[j].name@) && guid_views(final(out)@[k].to@) == all_ids(old(self).users@),
            forall|c: int| 0 <= c < final(self).games@.len() ==> #[trigger] from_list(final(self).games@[c], old(self).games@, old(self).games@.len() as int),
            forall|j: int| 0 <= j < old(self).games@.len() && #[trigger] old(self).games@[j].status != GameStatus::Requested
                && occupied(old(self).users@, LocationView::Game(old(self).games@[j].name@))
                ==> exists|c: int| 0 <= c < final(self).games@.len() && #[trigger] final(self).games@[c] == old(self).games@[j],
            final(self).games@ == kept_games(old(self).games@, old(self).users@, now),
            final(out)@.len() == old(out)@.len() + dropped_open_games(old(self).games@, old(self).users@, now).len(),
            forall|j: int| 0 <= j < dropped_open_games(old(self).games@, old(self).users@, now).len() ==> (
                #[trigger] final(out)@[old(out)@.len() + j].message matches ServerMessage::DropGame(m)
                && m.game_name@ == dropped_open_games(old(self).games@, old(self).users@, now)[j])
                && guid_views(final(out)@[old(out)@.len() + j].to@) == all_ids(old(self).users@),
    {
        let mut rest: Vec<Game> = Vec::new();
        std::mem::swap(&mut self.games, &mut rest);
        let ghost orig = rest@;
        let ghost start = out@.len();
        let ghost mut i: int = 0;
        while rest.len() > 0
            invariant
                0 <= i <= orig.len(),
                rest@ == orig.subrange(i, orig.len() as int),
                self.users == old(self).users,
                self.channels == old(self).channels,
                self.stats == old(self).stats,
                orig == old(self).games@,
                game_keys_unique(orig),
                game_keys_unique(self.games@),
                no_channel_drop(old(out)@, out@),
                start == old(out)@.len(),
                forall|c: int| 0 <= c < self.games@.len() ==> #[trigger] from_list(self.games@[c], orig, i),
                forall|j: int| 0 <= j < i && #[trigger] orig[j].status != GameStatus::Requested
                    && occupied(self.users@, LocationView::Game(orig[j].name@))
                    ==> exists|c: int| 0 <= c < self.games@.len() && #[trigger] self.games@[c] == orig[j],
                forall|g: int| 0 <= g < self.games@.len() && #[trigger] self.games@[g].status == GameStatus::Requested
                    ==> now as int <= self.games@[g].created_at as int + REQUESTED_GAME_TTL_MS as int,
                forall|g: int| 0 <= g < self.games@.len() && #[trigger] self.games@[g].status != GameStatus::Requested
                    ==> occupied(self.users@, LocationView::Game(self.games@[g].name@)),
                forall|j: int| 0 <= j < i && #[trigger] orig[j].status == GameStatus::Open
                    && !occupied(self.users@, LocationView::Game(orig[j].name@))
                    ==> exists|k: int| start <= k < out@.len() && (#[trigger] out@[k].message matches ServerMessage::DropGame(m)
                        && m.game_name@ == orig[j].name@) && guid_views(out@[k].to@) == all_ids(self.users@),
                self.games@ == kept_games(orig.subrange(0, i), self.users@, now),
                out@.len() == start + dropped_open_games(orig.subrange(0, i), self.users@, now).len(),
                forall|j: int| 0 <= j < dropped_open_games(orig.subrange(0, i), self.users@, now).len() ==> (
                    #[trigger] out@[start + j].message matches ServerMessage::DropGame(m)
                    && m.game_name@ == dropped_open_games(orig.subrange(0, i), self.users@, now)[j])
                    && guid_views(out@[start + j].to@) == all_ids(self.users@),
            decreases rest@.len(),
        {
            let g = rest.remove(0);
            assert(g == orig[i]);
            assert(orig.subrange(0, i + 1).drop_last() =~= orig.subrange(0, i));
            let ghost out_before = out@;
            let remove = if g.status == GameStatus::Requested {
                now > g.created_at && now - g.created_at > REQUESTED_GAME_TTL_MS
            } else {
                !self.is_occupied(&g.to_location())
            };
            if !remove {
                let ghost before = self.games@;
                self.games.push(g);
                assert forall|a: int, b: int| 0 <= a < b < self.games@.len() implies lower(#[trigger] self.games@[a].name@) != lower(#[trigger] self.games@[b].name@) by {
                    if b == before.len() {
                        assert(from_list(before[a], orig, i));
                        let j = choose|j: int| 0 <= j < i && before[a] == #[trigger] orig[j];
                        assert(self.games@[a] == before[a]);
                        assert(self.games@[b] == orig[i]);
                        assert(lower(orig[j].name@) != lower(orig[i].name@));
                    } else {
                        assert(self.games@[a] == before[a]);
                        assert(self.games@[b] == before[b]);
                        assert(lower(before[a].name@) != lower(before[b].name@));
                    }
                }
                assert forall|cc: int| 0 <= cc < self.games@.len() implies #[trigger] from_list(self.games@[cc], orig, i + 1) by {
                    if cc < before.len() {
                        assert(self.games@[cc] == before[cc]);
                        assert(from_list(before[cc], orig, i));
                        let j = choose|j: int| 0 <= j < i && before[cc] == #[trigger] orig[j];
                        assert(0 <= j < i + 1 && self.games@[cc] == orig[j]);
                    } else {
                        assert(0 <= i < i + 1 && self.games@[cc] == orig[i]);
                    }
                }
                assert forall|j: int| 0 <= j < i + 1 && #[trigger] orig[j].status != GameStatus::Requested
                    && occupied(self.users@, LocationView::Game(orig[j].name@))
                    implies exists|c: int| 0 <= c < self.games@.len() && #[trigger] self.games@[c] == orig[j] by {
                    if j < i {
                        let c = choose|c: int| 0 <= c < before.len() && #[trigger] before[c] == orig[j];
                        assert(self.games@[c] == before[c]);
                    } else {
                        assert(self.games@[before.len() as int] == orig[j]);
                    }
                }
                assert forall|gg: int| 0 <= gg < self.games@.len() && #[trigger] self.games@[gg].status == GameStatus::Requested
                    implies now as int <= self.games@[gg].created_at as int + REQUESTED_GAME_TTL_MS as int by {
                    if gg < before.len() {
                        assert(self.games@[gg] == before[gg]);
                    }
                }
                assert forall|gg: int| 0 <= gg < self.games@.len() && #[trigger] self.games@[gg].status != GameStatus::Requested
                    implies occupied(self.users@, LocationView::Game(self.games@[gg].name@)) by {
                    if gg < before.len() {
                        assert(self.games@[gg] == before[gg]);
                    }
                }
            } else {
                assert forall|cc: int| 0 <= cc < self.games@.len() implies #[trigger] from_list(self.games@[cc], orig, i + 1) by {
                    assert(from_list(self.games@[cc], orig, i));
                    let j = choose|j: int| 0 <= j < i && self.games@[cc] == #[trigger] orig[j];
                    assert(0 <= j < i + 1 && self.games@[cc] == orig[j]);
                }
                let ghost before_out = out@;
                if g.status == GameStatus::Open {
                    let to = self.all_user_ids();
                    out.push(Outgoing { to, message: g.to_drop_game_message() });
                }
                assert forall|j: int| 0 <= j < i + 1 && #[trigger] orig[j].status == GameStatus::Open
                    && !occupied(self.users@, LocationView::Game(orig[j].name@))
                    implies exists|k: int| start <= k < out@.len() && (#[trigger] out@[k].message matches ServerMessage::DropGame(m)
                        && m.game_name@ == orig[j].name@) && guid_views(out@[k].to@) == all_ids(self.users@) by {
                    if j < i {
                        let k = choose|k: int| start <= k < before_out.len() && (#[trigger] before_out[k].message matches ServerMessage::DropGame(m)
                            && m.game_name@ == orig[j].name@) && guid_views(before_out[k].to@) == all_ids(self.users@);
                        assert(out@[k] == before_out[k]);
                    } else {
                        let k = before_out.len() as int;
                        assert(out@[k].message matches ServerMessage::DropGame(m) && m.game_name@ == orig[j].name@);
                    }
                }
            }
            proof {
                assert(game_removed(orig[i], self.users@, now) == remove);
                let d = dropped_open_games(orig.subrange(0, i + 1), self.users@, now);
                assert forall|j: int| 0 <= j < d.len() implies (#[trigger] out@[start + j].message matches ServerMessage::DropGame(m)
                    && m.game_name@ == d[j]) && guid_views(out@[start + j].to@) == all_ids(self.users@) by {
                    if j < dropped_open_games(orig.subrange(0, i), self.users@, now).len() {
                        assert(out@[start + j] == out_before[start + j]);
                    }
                }
                i = i + 1;
            }
            assert(rest@ =~= orig.subrange(i, orig.len() as int));
        }
        proof {
            assert(i == orig.len());
            assert(orig.subrange(0, i) =~= orig);
            assert forall|c: int| 0 <= c < self.games@.len() implies #[trigger] from_list(self.games@[c], old(self).games@, old(self).games@.len() as int) by {
                assert(from_list(self.games@[c], orig, i));
            }
        }
    }

    /// Recounts users, channels and games; where a count changed, everyone
    /// hears `/syncstats`.
    fn update_stats(&mut self, out: &mut Vec<Outgoing>)
        ensures
            final(self).users == old(self).users,
            final(self).channels == old(self).channels,
            final(self).games == old(self).games,
            no_channel_drop(old(out)@, final(out)@),
            final(self).stats == counted_stats(old(self).users@, old(self).channels@, old(self).games@),
            final(self).stats == old(self).stats ==> final(out)@ == old(out)@,
            final(self).stats != old(self).stats ==> final(out)@.len() == old(out)@.len() + 1
                && guid_views(final(out)@.last().to@) == all_ids(old(self).users@)
                && (final(out)@.last().message matches ServerMessage::SyncStats(m) && m.users_total == final(self).stats.users_total
                && m.users_online == final(self).stats.users_online && m.channels_total == final(self).stats.channels_total
                && m.games_total == final(self).stats.games_total && m.games_open == final(self).stats.games_open),
    {
        let mut open: u32 = 0;
        let mut i: usize = 0;
        while i < self.games.len()
            invariant
                0 <= i <= self.games@.len(),
                open as int == capped_u32(open_count(self.games@.subrange(0, i as int))),
            decreases self.games@.len() - i,
        {
            assert(self.games@.subrange(0, i + 1).drop_last() =~= self.games@.subrange(0, i as int));
            if self.games[i].status == GameStatus::Open && open < u32::MAX {
                open += 1;
            }
            i += 1;
        }
        assert(self.games@.subrange(0, i as int) =~= self.games@);
        let stats = Stats {
            users_total: self.users.len() as u32,
            users_online: self.users.len() as u32,
            channels_total: self.channels.len() as u32,
            games_total: self.games.len() as u32,
            games_open: open,
        };
        if stats != self.stats {
            self.stats = stats;
            let to = self.all_user_ids();
            out.push(Outgoing {
                to,
                message: ServerMessage::SyncStats(SyncStatsMessage {
                    users_online: stats.users_online,
                    users_total: stats.users_total,
                    games_open: stats.games_open,
                    games_total: stats.games_total,
                    channels_total: stats.channels_total,
                }),
            });
        }
    }

    /// Login: a name that is live (in any case), or an id that is, is dropped
    /// without a word. Otherwise the user gets the Welcome, every channel and
    /// every open game, is added at no location and joins the default channel.
    fn handle_new_user(
        &mut self,
        id: Guid,
        username: Vec<u8>,
        game_version: Guid,
        ip_addr: Ipv4,
        out: &mut Vec<Outgoing>,
    )
        requires
            old(self).inv(),
        ensures
            final(self).inv(),
            no_channel_drop(old(out)@, final(out)@),
            final(self).games == old(self).games,
            final(self).stats == old(self).stats,
            (exists|i: int| 0 <= i < old(self).users@.len() && (lower(#[trigger] old(self).users@[i].username@) == lower(username@)
                || old(self).users@[i].id.bytes@ == id.bytes@)) ==> final(self).users == old(self).users
                && final(self).channels == old(self).channels && final(out)@ == old(out)@,
            !(exists|i: int| 0 <= i < old(self).users@.len() && (lower(#[trigger] old(self).users@[i].username@) == lower(username@)
                || old(self).users@[i].id.bytes@ == id.bytes@)) ==> ({
                let n = old(self).users@.len() as int;
                &&& final(self).users@.len() == n + 1
                &&& final(self).users@[n].id == id
                &&& final(self).users@[n].username@ == username@
                &&& exists|c: int| 0 <= c < final(self).channels@.len()
                    && lower(#[trigger] final(self).channels@[c].name@) == lower(default_channel())
                    && final(self).users@[n].location.view() == LocationView::Channel(final(self).channels@[c].name@)
                &&& final(out)@.len() > old(out)@.len()
                &&& final(out)@[old(out)@.len() as int].message matches ServerMessage::Login(LoginServerMessage::Welcome(w))
                    && w.initial_channel@ == default_channel() && w.server_ident@ == ascii("IE::Net"@)
                &&& exists|k: int| old(out)@.len() < k < final(out)@.len() && guid_views(final(out)@[k].to@) == seq![id.bytes@]
                    && (#[trigger] final(out)@[k].message matches ServerMessage::JoinChannel(m)
                    && lower(m.channel_name@) == lower(default_channel()))
                &&& !(exists|c: int| 0 <= c < old(self).channels@.len() && lower(#[trigger] old(self).channels@[c].name@)
                    == lower(default_channel())) ==> exists|k: int| old(out)@.len() < k < final(out)@.len()
                    && guid_views(final(out)@[k].to@) == all_ids(old(self).users@).push(id.bytes@)
                    && (#[trigger] final(out)@[k].message matches ServerMessage::NewChannel(m) && m.channel_name@ == default_channel())
                &&& guid_views(final(out)@[old(out)@.len() as int].to@) == seq![id.bytes@]
                &&& final(out)@.len() > old(out)@.len() + old(self).channels@.len()
                &&& forall|c: int| 0 <= c < old(self).channels@.len() ==> (#[trigger] final(out)@[old(out)@.len() + 1 + c].message
                    matches ServerMessage::NewChannel(m) && m.channel_name@ == old(self).channels@[c].name@)
                    && guid_views(final(out)@[old(out)@.len() + 1 + c].to@) == seq![id.bytes@]
            }),
    {
        let by_name = self.by_username(username.as_slice());
        let by_id = self.by_user_id(&id);
        if by_name.is_some() || by_id.is_some() {
            proof {
                if by_name.is_some() {
                    let i = by_name.unwrap() as int;
                    assert(lower(self.users@[i].username@) == lower(username@));
                } else {
                    let i = by_id.unwrap() as int;
                    assert(self.users@[i].id.bytes@ == id.bytes@);
                    let l = lower(self.users@[i].username@);
                }
            }
            return;
        }
        proof {
            reveal_strlit("IE::Net");
            reveal_strlit("Welcome to IE::Net, a community-operated EarthNet server");
            reveal_strlit("tmp2.2");
            reveal_strlit("General");
        }
        let mut versions: Vec<Vec<u8>> = Vec::new();
        versions.push(lit_bytes("tmp2.2"));
        let welcome = WelcomeServerParams {
            server_ident: lit_bytes("IE::Net"),
            welcome_message: lit_bytes("Welcome to IE::Net, a community-operated EarthNet server"),
            players_total: self.stats.users_total,
            players_online: self.stats.users_online,
            channels_total: self.stats.channels_total,
            games_total: self.stats.games_total,
            games_running: 0,
            games_available: self.stats.games_open,
            game_versions: versions,
            initial_channel: lit_bytes("General"),
        };
        let ghost first = out@.len();
        Self::send_one(out, id, ServerMessage::Login(LoginServerMessage::Welcome(welcome)));
        let ghost welcome_out = out@;
        let mut c: usize = 0;
        while c < self.channels.len()
            invariant
                0 <= c <= self.channels@.len(),
                no_channel_drop(welcome_out, out@),
                out@.len() == first + 1 + c,
                forall|j: int| 0 <= j < c ==> (#[trigger] out@[first + 1 + j].message matches ServerMessage::NewChannel(m)
                    && m.channel_name@ == self.channels@[j].name@) && guid_views(out@[first + 1 + j].to@) == seq![id.bytes@],
            decreases self.channels@.len() - c,
        {
            let ghost before = out@;
            Self::send_one(out, id, self.channels[c].to_new_channel_message());
            assert forall|j: int| 0 <= j < c + 1 implies (#[trigger] out@[first + 1 + j].message matches ServerMessage::NewChannel(m)
                && m.channel_name@ == self.channels@[j].name@) && guid_views(out@[first + 1 + j].to@) == seq![id.bytes@] by {
                if j < c {
                    assert(out@[first + 1 + j] == before[first + 1 + j]);
                }
            }
            c += 1;
        }
        let ghost snapshot = out@;
        let mut g: usize = 0;
        while g < self.games.len()
            invariant
                0 <= g <= self.games@.len(),
                no_channel_drop(welcome_out, out@),
                extends(snapshot, out@),
            decreases self.games@.len() - g,
        {
            if self.games[g].status == GameStatus::Open {
                Self::send_one(out, id, self.games[g].to_new_game_message());
            }
            g += 1;
        }
        let to = self.users_in_location(&Location::Nowhere);
        out.push(Outgoing {
            to,
            message: ServerMessage::UserJoined(UserJoinedMessage {
                username: copy_bytes(username.as_slice()),
                version_idx: 0,
                origin: None,
            }),
        });
        let ghost old_users = self.users@;
        self.users.push(User { id, username, location: Location::Nowhere, game_version, ip_addr });
        assert forall|a: int| 0 <= a < old_users.len() implies #[trigger] self.users@[a] == old_users[a] by {}
        assert(ids_unique(self.users@)) by {
            assert forall|a: int, b: int| 0 <= a < b < self.users@.len() implies #[trigger] self.users@[a].id.bytes@
                != #[trigger] self.users@[b].id.bytes@ by {
                assert(self.users@[a] == old_users[a]);
                if b < old_users.len() {
                    assert(self.users@[b] == old_users[b]);
                    assert(old_users[a].id.bytes@ != old_users[b].id.bytes@);
                } else {
                    assert(old_users[a].id.bytes@ != id.bytes@);
                }
            }
        }
        assert(names_unique(self.users@)) by {
            assert forall|a: int, b: int| 0 <= a < b < self.users@.len() implies lower(#[trigger] self.users@[a].username@)
                != lower(#[trigger] self.users@[b].username@) by {
                assert(self.users@[a] == old_users[a]);
                if b < old_users.len() {
                    assert(self.users@[b] == old_users[b]);
                    assert(lower(old_users[a].username@) != lower(old_users[b].username@));
                } else {
                    assert(lower(old_users[a].username@) != lower(self.users@[b].username@));
                }
            }
        }
        assert(channels_of_users_exist(self.users@, self.channels@)) by {
            assert forall|u: int| 0 <= u < self.users@.len() implies (#[trigger] self.users@[u].location.view() matches LocationView::Channel(n)
                ==> has_channel(self.channels@, n)) by {
                if u < old_users.len() {
                    assert(self.users@[u] == old_users[u]);
                }
            }
        }
        let idx = self.users.len() - 1;
        let general = lit_bytes("General");
        let ghost pre_join = out@;
        assert(extends(snapshot, pre_join));
        proof {
            assert(valid_name(general@, CharClass::Channel));
        }
        let ghost users_pre = self.users@;
        let ghost channels_pre = self.channels@;
        self.join_channel(idx, general.as_slice(), out);
        assert(out@[first as int] == welcome_out[first as int]);
        proof {
            assert(general@ == default_channel());
            assert(users_pre[idx as int].location.view() == LocationView::Nowhere);
            assert(channels_pre == old(self).channels@);
            assert(!(exists|c: int| 0 <= c < channels_pre.len() && lower(#[trigger] channels_pre[c].name@) == lower(general@)
                && users_pre[idx as int].location.view() == LocationView::Channel(channels_pre[c].name@)));
            let start = pre_join.len() + self.channels@.len() - channels_pre.len();
            let c = choose|c: int| 0 <= c < self.channels@.len() && lower(#[trigger] self.channels@[c].name@) == lower(general@)
                && join_channel_msgs(users_pre, self.users@, idx as int, self.channels@[c].name@, start, out@);
            assert(out@[start].message matches ServerMessage::JoinChannel(m) && lower(m.channel_name@) == lower(default_channel()));
            assert(users_pre[idx as int].id == id);
            assert(all_ids(users_pre) =~= all_ids(old(self).users@).push(id.bytes@));
            if !(exists|c: int| 0 <= c < old(self).channels@.len() && lower(#[trigger] old(self).channels@[c].name@)
                == lower(default_channel())) {
                assert(out@[pre_join.len() as int].message matches ServerMessage::NewChannel(m) && m.channel_name@ == default_channel());
            }
        }
        assert forall|j: int| 0 <= j < old(self).channels@.len() implies #[trigger] out@[first + 1 + j] == snapshot[first + 1 + j] by {
            assert(out@[first + 1 + j] == pre_join[first + 1 + j]);
        }
    }

    /// A client went away: it is removed, and the users where it sat hear
    /// `/&user`.
    fn drop_client(&mut self, id: &Guid, out: &mut Vec<Outgoing>)
        requires
            old(self).inv(),
        ensures
            final(self).inv(),
            no_channel_drop(old(out)@, final(out)@),
            final(self).channels == old(self).channels,
            final(self).games == old(self).games,
            final(self).stats == old(self).stats,
            forall|i: int| 0 <= i < final(self).users@.len() ==> #[trigger] final(self).users@[i].id.bytes@ != id.bytes@,
            final(self).users@.len() <= old(self).users@.len(),
            (forall|i: int| 0 <= i < old(self).users@.len() ==> #[trigger] old(self).users@[i].id.bytes@ != id.bytes@)
                ==> final(self).users == old(self).users && final(out)@ == old(out)@,
            forall|i: int| 0 <= i < old(self).users@.len() && #[trigger] old(self).users@[i].id.bytes@ == id.bytes@ ==> {
                let gone = old(self).users@[i];
                &&& final(self).users@ == old(self).users@.remove(i)
                &&& final(out)@.len() == old(out)@.len() + 1
                &&& guid_views(final(out)@.last().to@) == ids_at(final(self).users@, gone.location.view())
                &&& final(out)@.last().message matches ServerMessage::UserLeft(m) && m.username@ == gone.username@
                    && m.destination is None
            },
            announces_new_only(old(self).channels@, old(out)@, final(out)@),
            channels_extended(old(self).channels@, final(self).channels@),
    {
        match self.by_user_id(id) {
            None => {},
            Some(i) => {
                proof {
                    assert forall|j: int| 0 <= j < self.users@.len() && #[trigger] self.users@[j].id.bytes@ == id.bytes@ implies j == i by {
                        if j < i {
                            assert(self.users@[j].id.bytes@ != self.users@[i as int].id.bytes@);
                        } else if j > i {
                            assert(self.users@[i as int].id.bytes@ != self.users@[j].id.bytes@);
                        }
                    }
                }
                let ghost old_users = self.users@;
                let u = self.users.remove(i);
                assert(self.users@ =~= old_users.remove(i as int));
                assert forall|a: int| 0 <= a < self.users@.len() implies #[trigger] self.users@[a] == old_users[if a < i { a } else { a + 1 }] by {}
                assert(ids_unique(self.users@)) by {
                    assert forall|a: int, b: int| 0 <= a < b < self.users@.len() implies #[trigger] self.users@[a].id.bytes@ != #[trigger] self.users@[b].id.bytes@ by {
                        assert(self.users@[a] == old_users[if a < i { a } else { a + 1 }]);
                        assert(self.users@[b] == old_users[if b < i { b } else { b + 1 }]);
                    }
                }
                assert(names_unique(self.users@)) by {
                    assert forall|a: int, b: int| 0 <= a < b < self.users@.len() implies lower(#[trigger] self.users@[a].username@) != lower(#[trigger] self.users@[b].username@) by {
                        assert(self.users@[a] == old_users[if a < i { a } else { a + 1 }]);
                        assert(self.users@[b] == old_users[if b < i { b } else { b + 1 }]);
                    }
                }
                assert(channels_of_users_exist(self.users@, self.channels@)) by {
                    assert forall|a: int| 0 <= a < self.users@.len() implies (#[trigger] self.users@[a].location.view() matches LocationView::Channel(n)
                        ==> has_channel(self.channels@, n)) by {
                        assert(self.users@[a] == old_users[if a < i { a } else { a + 1 }]);
                    }
                }
                assert forall|a: int| 0 <= a < self.users@.len() implies #[trigger] self.users@[a].id.bytes@ != id.bytes@ by {
                    assert(self.users@[a] == old_users[if a < i { a } else { a + 1 }]);
                }
                let to = self.users_in_location(&u.location);
                out.push(Outgoing {
                    to,
                    message: ServerMessage::UserLeft(UserLeftMessage { username: u.username, destination: None }),
                });
            },
        }
    }

    /// A command of the user with id `id`; one with no such user is ignored.
    fn handle_client_command(&mut self, id: &Guid, command: ClientCommand, now: u64, out: &mut Vec<Outgoing>)
        requires
            old(self).inv(),
        ensures
            final(self).inv(),
            no_channel_drop(old(out)@, final(out)@),
            final(self).stats == old(self).stats,
            games_step(old(self).games@, final(self).games@, old(self).users@, final(self).users@, old(out)@, final(out)@),
            command_step(*old(self), *final(self), *id, command, now, old(out)@, final(out)@),
            announces_new_only(old(self).channels@, old(out)@, final(out)@),
            channels_extended(old(self).channels@, final(self).channels@),
    {
        let idx = match self.by_user_id(id) {
            Some(i) => i,
            None => return,
        };
        let me = self.users[idx].id;
        proof {
            assert forall|i: int| 0 <= i < self.users@.len() && #[trigger] self.users@[i].id.bytes@ == id.bytes@ implies i == idx by {
                if i < idx {
                    assert(self.users@[i].id.bytes@ != self.users@[idx as int].id.bytes@);
                } else if i > idx {
                    assert(self.users@[idx as int].id.bytes@ != self.users@[i].id.bytes@);
                }
            }
        }
        match command {
            ClientCommand::Send { message } => self.public_message(idx, message, out),
            ClientCommand::PrivateMessage { target, message } => self.private_message(idx, target.as_slice(), message, out),
            ClientCommand::Join { channel } => self.join_channel(idx, channel.as_slice(), out),
            ClientCommand::HostGame { game_name, password_or_guid } => {
                let minted = Guid::random();
                let token = Guid::parse_text(password_or_guid.as_slice());
                self.host_game(idx, game_name.as_slice(), password_or_guid.as_slice(), token, now, minted, out)
            },
            ClientCommand::JoinGame { game_name, password } => {
                let token = Guid::parse_text(password.as_slice());
                self.join_game(idx, game_name.as_slice(), password.as_slice(), token, out)
            },
            ClientCommand::NoOp => {},
            ClientCommand::Malformed { reason } => Self::send_one(out, me, ServerMessage::Error(ErrorMessage { error: reason })),
            ClientCommand::Unknown { command } => {
                proof {
                    reveal_strlit("Unknown command: ");
                }
                let mut text = lit_bytes("Unknown command: ");
                push_all(&mut text, command.as_slice());
                assert(text@ == ascii("Unknown command: "@) + command@);
                Self::send_one(out, me, ServerMessage::Error(ErrorMessage { error: text }));
            },
        }
    }

    /// Takes one event at time `now` (milliseconds on a steady clock), then
    /// drops empty channels, stale or empty games, and reports changed counts.
    /// Returns what is to be sent, in order.
    pub fn handle_event(&mut self, event: Event, now: u64) -> (r: Vec<Outgoing>)
        requires
            old(self).wf(),
        ensures
            final(self).wf(),
            final(self).none_stale(now),
            // A channel dropped by the event is gone at its end.
            forall|k: int| 0 <= k < r@.len() ==> (#[trigger] r@[k].message matches ServerMessage::DropChannel(m)
                ==> !has_channel(final(self).channels@, m.channel_name@)),
            // A game that went from requested to open was announced to everyone,
            // and its host sits in it.
            forall|g: int, c: int| 0 <= g < old(self).games@.len() && 0 <= c < final(self).games@.len()
                && #[trigger] old(self).games@[g].status == GameStatus::Requested
                && #[trigger] final(self).games@[c].status == GameStatus::Open
                && final(self).games@[c].name@ == old(self).games@[g].name@
                ==> (exists|k: int| 0 <= k < r@.len() && (#[trigger] r@[k].message matches ServerMessage::NewGame(m)
                    && m.game_name@ == old(self).games@[g].name@) && guid_views(r@[k].to@) == all_ids(old(self).users@))
                && (exists|u: int| 0 <= u < final(self).users@.len()
                    && #[trigger] final(self).users@[u].id.bytes@ == final(self).games@[c].hosted_by.bytes@
                    && final(self).users@[u].location.view() == LocationView::Game(final(self).games@[c].name@)),
            // A login under a name and id that are not live leaves the user in
            // the default channel.
            event matches Event::NewUser { id, username, .. } ==> (!(exists|i: int| 0 <= i < old(self).users@.len()
                && (lower(#[trigger] old(self).users@[i].username@) == lower(username@) || old(self).users@[i].id.bytes@ == id.bytes@))
                ==> exists|u: int| 0 <= u < final(self).users@.len() && #[trigger] final(self).users@[u].id == id
                    && final(self).users@[u].username@ == username@
                    && (final(self).users@[u].location.view() matches LocationView::Channel(n) && lower(n) == lower(default_channel()))),
            // A command does what its verb does; its messages come first, then
            // those of the clean-up, which keeps the users as they are.
            event matches Event::Command { id, command } ==> exists|m: Broker, k: int| 0 <= k <= r@.len()
                && #[trigger] command_step(*old(self), m, id, command, now, Seq::empty(), r@.subrange(0, k))
                && m.users@ == final(self).users@,
            // Outside a login, a channel announced by the event is new, and a
            // channel that stays keeps its name.
            !(event is NewUser) ==> announces_new_only(old(self).channels@, Seq::empty(), r@),
            !(event is NewUser) ==> forall|c: int, d: int| 0 <= c < old(self).channels@.len() && 0 <= d < final(self).channels@.len()
                && lower(#[trigger] old(self).channels@[c].name@) == lower(#[trigger] final(self).channels@[d].name@)
                ==> final(self).channels@[d].name@ == old(self).channels@[c].name@,
            // A client that went away is no longer a user.
            event matches Event::DropClient { id } ==> forall|u: int| 0 <= u < final(self).users@.len()
                ==> #[trigger] final(self).users@[u].id.bytes@ != id.bytes@,
            // An open game that is gone was announced as dropped.
            forall|g: int| 0 <= g < old(self).games@.len() && #[trigger] old(self).games@[g].status == GameStatus::Open
                && !(exists|c: int| 0 <= c < final(self).games@.len() && #[trigger] final(self).games@[c].name@ == old(self).games@[g].name@)
                ==> exists|k: int| 0 <= k < r@.len() && (#[trigger] r@[k].message matches ServerMessage::DropGame(m)
                    && m.game_name@ == old(self).games@[g].name@),
    {
        let mut out: Vec<Outgoing> = Vec::new();
        let ghost ev = event;
        match event {
            Event::NewUser { id, username, game_version, ip_addr } => {
                self.handle_new_user(id, username, game_version, ip_addr, &mut out);
            },
            Event::Command { id, command } => self.handle_client_command(&id, command, now, &mut out),
            Event::DropClient { id } => self.drop_client(&id, &mut out),
        }
        let ghost mid_games = self.games@;
        let ghost mid_users = self.users@;
        let ghost mid_out = out@;
        let ghost mid_broker = *self;
        let ghost mid_channels = self.channels@;
        assert(games_step(old(self).games@, mid_games, old(self).users@, mid_users, Seq::empty(), mid_out));
        self.check_remove_empty_channels(&mut out);
        let ghost chan_out = out@;
        self.check_remove_empty_games(now, &mut out);
        let ghost game_out = out@;
        self.update_stats(&mut out);
        proof {
            if !(ev is NewUser) {
                assert(announces_new_only(old(self).channels@, Seq::empty(), mid_out));
                assert(channels_extended(old(self).channels@, mid_channels));
                assert forall|k: int| 0 <= k < out@.len() implies (#[trigger] out@[k].message matches ServerMessage::NewChannel(m)
                    ==> forall|c: int| 0 <= c < old(self).channels@.len() ==> lower(#[trigger] old(self).channels@[c].name@)
                        != lower(m.channel_name@)) by {
                    if k < mid_out.len() {
                        assert(out@[k] == mid_out[k]);
                    } else if k < chan_out.len() {
                        assert(out@[k] == chan_out[k]);
                        assert(chan_out[mid_out.len() + (k - mid_out.len())].message is DropChannel);
                    } else if k < game_out.len() {
                        assert(out@[k] == game_out[k]);
                        assert(game_out[chan_out.len() + (k - chan_out.len())].message is DropGame);
                    } else {
                        assert(out@[k].message is SyncStats);
                    }
                }
                assert forall|c: int, d: int| 0 <= c < old(self).channels@.len() && 0 <= d < self.channels@.len()
                    && lower(#[trigger] old(self).channels@[c].name@) == lower(#[trigger] self.channels@[d].name@)
                    implies self.channels@[d].name@ == old(self).channels@[c].name@ by {
                    assert(has_channel(mid_channels, self.channels@[d].name@));
                    let j = choose|j: int| 0 <= j < mid_channels.len() && #[trigger] mid_channels[j].name@ == self.channels@[d].name@;
                    if j < old(self).channels@.len() {
                        assert(mid_channels[j] == old(self).channels@[j]);
                        if j < c {
                            assert(lower(old(self).channels@[j].name@) != lower(old(self).channels@[c].name@));
                        } else if j > c {
                            assert(lower(old(self).channels@[c].name@) != lower(old(self).channels@[j].name@));
                        }
                    } else {
                        assert(mid_channels.last() == mid_channels[j]);
                        assert(lower(old(self).channels@[c].name@) != lower(mid_channels.last().name@));
                    }
                }
            }
            if let Event::Command { id, command } = ev {
                assert(out@.subrange(0, mid_out.len() as int) =~= mid_out);
                assert(command_step(*old(self), mid_broker, id, command, now, Seq::empty(), out@.subrange(0, mid_out.len() as int)));
            }
            if let Event::NewUser { id, username, .. } = ev {
                if !(exists|i: int| 0 <= i < old(self).users@.len()
                    && (lower(#[trigger] old(self).users@[i].username@) == lower(username@) || old(self).users@[i].id.bytes@ == id.bytes@)) {
                    let u = old(self).users@.len() as int;
                    assert(self.users@[u] == mid_users[u]);
                }
            }
            assert forall|k: int| 0 <= k < out@.len() implies (#[trigger] out@[k].message matches ServerMessage::DropChannel(m)
                ==> !has_channel(self.channels@, m.channel_name@)) by {
                if k < mid_out.len() {
                    assert(out@[k] == mid_out[k]);
                } else if k < chan_out.len() {
                    assert(out@[k] == chan_out[k]);
                } else if k < game_out.len() {
                    assert(out@[k] == game_out[k]);
                }
            }
            assert forall|g: int, c: int| 0 <= g < old(self).games@.len() && 0 <= c < self.games@.len()
                && #[trigger] old(self).games@[g].status == GameStatus::Requested
                && #[trigger] self.games@[c].status == GameStatus::Open
                && self.games@[c].name@ == old(self).games@[g].name@
                implies (exists|k: int| 0 <= k < out@.len() && (#[trigger] out@[k].message matches ServerMessage::NewGame(m)
                    && m.game_name@ == old(self).games@[g].name@) && guid_views(out@[k].to@) == all_ids(old(self).users@))
                && (exists|u: int| 0 <= u < self.users@.len()
                    && #[trigger] self.users@[u].id.bytes@ == self.games@[c].hosted_by.bytes@
                    && self.users@[u].location.view() == LocationView::Game(self.games@[c].name@)) by {
                assert(from_list(self.games@[c], mid_games, mid_games.len() as int));
                let j = choose|j: int| 0 <= j < mid_games.len() && self.games@[c] == #[trigger] mid_games[j];
                assert(j < old(self).games@.len());
                assert(mid_games[j].name == old(self).games@[j].name);
                if j != g {
                    if j < g {
                        assert(lower(old(self).games@[j].name@) != lower(old(self).games@[g].name@));
                    } else {
                        assert(lower(old(self).games@[g].name@) != lower(old(self).games@[j].name@));
                    }
                }
                assert(mid_games[g].status == GameStatus::Open);
                let k = choose|k: int| 0 <= k < mid_out.len() && (#[trigger] mid_out[k].message matches ServerMessage::NewGame(m)
                    && m.game_name@ == mid_games[g].name@) && guid_views(mid_out[k].to@) == all_ids(old(self).users@);
                assert(out@[k] == mid_out[k]);
                let u = choose|u: int| 0 <= u < mid_users.len() && #[trigger] mid_users[u].id.bytes@ == mid_games[g].hosted_by.bytes@
                    && mid_users[u].location.view() == LocationView::Game(mid_games[g].name@);
                assert(self.users@[u] == mid_users[u]);
            }
            assert forall|g: int| 0 <= g < old(self).games@.len() && #[trigger] old(self).games@[g].status == GameStatus::Open
                && !(exists|c: int| 0 <= c < self.games@.len() && #[trigger] self.games@[c].name@ == old(self).games@[g].name@)
                implies exists|k: int| 0 <= k < out@.len() && (#[trigger] out@[k].message matches ServerMessage::DropGame(m)
                    && m.game_name@ == old(self).games@[g].name@) by {
                if mid_games[g].status == GameStatus::Started {
                    let k = choose|k: int| 0 <= k < mid_out.len() && (#[trigger] mid_out[k].message matches ServerMessage::DropGame(m)
                        && m.game_name@ == mid_games[g].name@);
                    assert(out@[k] == mid_out[k]);
                } else {
                    assert(mid_games[g].status == GameStatus::Open);
                    if occupied(mid_users, LocationView::Game(mid_games[g].name@)) {
                        let c = choose|c: int| 0 <= c < self.games@.len() && #[trigger] self.games@[c] == mid_games[g];
                        assert(self.games@[c].name@ == old(self).games@[g].name@);
                    } else {
                        let k = choose|k: int| chan_out.len() <= k < game_out.len() && (#[trigger] game_out[k].message matches ServerMessage::DropGame(m)
                            && m.game_name@ == mid_games[g].name@) && guid_views(game_out[k].to@) == all_ids(mid_users);
                        assert(out@[k] == game_out[k]);
                    }
                }
            }
        }
        out
    }

}

/// Between events, a channel exists exactly where some user sits in it: the
/// channel names are the occupied channel locations.
pub proof fn lemma_channels_are_occupied_locations(b: Broker, n: Seq<u8>)
    requires
        b.wf(),
    ensures
        has_channel(b.channels@, n) <==> occupied(b.users@, LocationView::Channel(n)),
{
    if has_channel(b.channels@, n) {
        let j = choose|j: int| 0 <= j < b.channels@.len() && #[trigger] b.channels@[j].name@ == n;
        assert(occupied(b.users@, LocationView::Channel(b.channels@[j].name@)));
    }
    if occupied(b.users@, LocationView::Channel(n)) {
        let i = choose|i: int| 0 <= i < b.users@.len() && #[trigger] b.users@[i].location.view() == LocationView::Channel(n);
        assert(b.users@[i].location.view() matches LocationView::Channel(m) ==> has_channel(b.channels@, m));
    }
}

/// Every live user is one record, with one location: no id occurs twice.
pub proof fn lemma_one_record_per_user(b: Broker, i: int, j: int)
    requires
        b.wf(),
        0 <= i < b.users@.len(),
        0 <= j < b.users@.len(),
        b.users@[i].id.bytes@ == b.users@[j].id.bytes@,
    ensures
        i == j,
        b.users@[i].location.view() == b.users@[j].location.view(),
{
    if i < j {
        assert(b.users@[i].id.bytes@ != b.users@[j].id.bytes@);
    } else if j < i {
        assert(b.users@[j].id.bytes@ != b.users@[i].id.bytes@);
    }
}

/// No two live users share a username, ignoring ASCII case.
pub proof fn lemma_usernames_unique(b: Broker, i: int, j: int)
    requires
        b.wf(),
        0 <= i < b.users@.len(),
        0 <= j < b.users@.len(),
        i != j,
    ensures
        lower(b.users@[i].username@) != lower(b.users@[j].username@),
{
    if i < j {
        assert(lower(b.users@[i].username@) != lower(b.users@[j].username@));
    } else {
        assert(lower(b.users@[j].username@) != lower(b.users@[i].username@));
    }
}

/// No two live games share a canonical (lowercase) name.
pub proof fn lemma_game_keys_unique(b: Broker, i: int, j: int)
    requires
        b.wf(),
        0 <= i < b.games@.len(),
        0 <= j < b.games@.len(),
        i != j,
    ensures
        lower(b.games@[i].name@) != lower(b.games@[j].name@),
{
    if i < j {
        assert(lower(b.games@[i].name@) != lower(b.games@[j].name@));
    } else {
        assert(lower(b.games@[j].name@) != lower(b.games@[i].name@));
    }
}

} // verus!
