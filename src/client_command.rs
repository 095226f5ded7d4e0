use vstd::prelude::*;
use crate::raw_command::{parse_line, try_parse_raw_command, sub_copy, views, RawCommand};
use crate::util::{ascii, bytes_eq, copy_bytes, lit_bytes, push_all};

verus! {

/// The longest run of bytes without a NUL that is kept waiting for one.
pub const MAX_PENDING_LINE: usize = 1024;

/// A command from a logged-in client.
#[derive(Debug)]
pub enum ClientCommand {
    /// `/send`: a public message to the sender's location.
    Send { message: Vec<u8> },
    /// `/msg`: a private message to `#channel`, `$game` or a user.
    PrivateMessage { target: Vec<u8>, message: Vec<u8> },
    /// `/join`: go to a channel.
    Join { channel: Vec<u8> },
    /// `/plays`: host, open or start a game.
    HostGame { game_name: Vec<u8>, password_or_guid: Vec<u8> },
    /// `/playc`: join a game.
    JoinGame { game_name: Vec<u8>, password: Vec<u8> },
    /// An empty line.
    NoOp,
    /// A verb that is not known.
    Unknown { command: Vec<u8> },
    /// A line that cannot be read, or lacks parameters.
    Malformed { reason: Vec<u8> },
}

/// A pending line grew too long without a NUL.
#[derive(Debug, Clone, Copy, PartialEq, Eq, Structural)]
pub enum LineError {
    TooLong,
}

/// Parameters joined by single spaces.
pub open spec fn join_params(ps: Seq<Seq<u8>>) -> Seq<u8>
    decreases ps.len(),
{
    if ps.len() == 0 {
        Seq::empty()
    } else if ps.len() == 1 {
        ps[0]
    } else {
        join_params(ps.drop_last()) + seq![0x20u8] + ps.last()
    }
}

/// The command that a verb and its parameters make.
pub open spec fn command_spec(c: ClientCommand, verb: Seq<u8>, ps: Seq<Seq<u8>>) -> bool {
    if verb == ascii("send"@) {
        if ps.len() >= 1 {
            c matches ClientCommand::Send { message } && message@ == join_params(ps)
        } else {
            c matches ClientCommand::Malformed { reason } && reason@ == ascii("Missing parameters for /send"@)
        }
    } else if verb == ascii("msg"@) {
        if ps.len() >= 2 {
            c matches ClientCommand::PrivateMessage { target, message } && target@ == ps[0]
                && message@ == join_params(ps.subrange(1, ps.len() as int))
        } else {
            c matches ClientCommand::Malformed { reason } && reason@ == ascii("Missing parameters for /msg"@)
        }
    } else if verb == ascii("join"@) {
        if ps.len() >= 1 {
            c matches ClientCommand::Join { channel } && channel@ == join_params(ps)
        } else {
            c matches ClientCommand::Malformed { reason } && reason@ == ascii("Missing parameters for /join"@)
        }
    } else if verb == ascii("plays"@) {
        if ps.len() >= 3 {
            c matches ClientCommand::HostGame { game_name, password_or_guid } && game_name@ == ps[1]
                && password_or_guid@ == ps[2]
        } else {
            c matches ClientCommand::Malformed { reason } && reason@ == ascii("Missing parameters for /plays"@)
        }
    } else if verb == ascii("playc"@) {
        if ps.len() >= 2 {
            c matches ClientCommand::JoinGame { game_name, password } && game_name@ == ps[0]
                && password@ == ps[1]
        } else {
            c matches ClientCommand::Malformed { reason } && reason@ == ascii("Missing parameters for /playc"@)
        }
    } else {
        c matches ClientCommand::Unknown { command } && command@ == verb
    }
}

/// The command that a line (without its NUL) makes.
pub open spec fn line_spec(c: ClientCommand, line: Seq<u8>) -> bool {
    if line.len() == 0 {
        c is NoOp
    } else {
        match parse_line(line) {
            None => c matches ClientCommand::Malformed { reason } && reason@ == ascii("Received message is invalid"@),
            Some((verb, ps)) => command_spec(c, verb, ps),
        }
    }
}

/// The parameters joined by single spaces.
pub fn concat_params(params: &[Vec<u8>]) -> (r: Vec<u8>)
    ensures
        r@ == join_params(views(params@)),
{
    let mut result: Vec<u8> = Vec::new();
    let mut i: usize = 0;
    while i < params.len()
        invariant
            0 <= i <= params@.len(),
            result@ == join_params(views(params@.subrange(0, i as int))),
        decreases params@.len() - i,
    {
        if i != 0 {
            result.push(0x20);
        }
        push_all(&mut result, params[i].as_slice());
        i += 1;
        assert(views(params@.subrange(0, i as int)).drop_last() =~= views(params@.subrange(0, i - 1)));
        assert(result@ =~= join_params(views(params@.subrange(0, i as int))));
    }
    assert(params@.subrange(0, i as int) =~= params@);
    result
}

fn malformed(reason: &str) -> (r: ClientCommand)
    requires
        vstd::string::is_ascii(reason),
    ensures
        r matches ClientCommand::Malformed { reason: m } && m@ == ascii(reason@),
{
    ClientCommand::Malformed { reason: lit_bytes(reason) }
}

fn send_from_raw(raw: &RawCommand) -> (r: ClientCommand)
    ensures
        raw.params@.len() >= 1 ==> (r matches ClientCommand::Send { message } && message@ == join_params(views(raw.params@))),
        raw.params@.len() == 0 ==> (r matches ClientCommand::Malformed { reason } && reason@ == ascii("Missing parameters for /send"@)),
{
    if raw.params.len() == 0 {
        proof {
            reveal_strlit("Missing parameters for /send");
        }
        return malformed("Missing parameters for /send");
    }
    ClientCommand::Send { message: concat_params(raw.params.as_slice()) }
}

fn msg_from_raw(raw: &RawCommand) -> (r: ClientCommand)
    ensures
        raw.params@.len() >= 2 ==> (r matches ClientCommand::PrivateMessage { target, message } && target@ == views(raw.params@)[0]
            && message@ == join_params(views(raw.params@).subrange(1, raw.params@.len() as int))),
        raw.params@.len() < 2 ==> (r matches ClientCommand::Malformed { reason } && reason@ == ascii("Missing parameters for /msg"@)),
{
    if raw.params.len() < 2 {
        proof {
            reveal_strlit("Missing parameters for /msg");
        }
        return malformed("Missing parameters for /msg");
    }
    let rest = vstd::slice::slice_subrange(raw.params.as_slice(), 1, raw.params.len());
    assert(views(rest@) =~= views(raw.params@).subrange(1, raw.params@.len() as int));
    ClientCommand::PrivateMessage { target: copy_bytes(raw.params[0].as_slice()), message: concat_params(rest) }
}

fn join_from_raw(raw: &RawCommand) -> (r: ClientCommand)
    ensures
        raw.params@.len() >= 1 ==> (r matches ClientCommand::Join { channel } && channel@ == join_params(views(raw.params@))),
        raw.params@.len() == 0 ==> (r matches ClientCommand::Malformed { reason } && reason@ == ascii("Missing parameters for /join"@)),
{
    if raw.params.len() == 0 {
        proof {
            reveal_strlit("Missing parameters for /join");
        }
        return malformed("Missing parameters for /join");
    }
    ClientCommand::Join { channel: concat_params(raw.params.as_slice()) }
}

fn hostgame_from_raw(raw: &RawCommand) -> (r: ClientCommand)
    ensures
        raw.params@.len() >= 3 ==> (r matches ClientCommand::HostGame { game_name, password_or_guid }
            && game_name@ == raw.params@[1]@ && password_or_guid@ == raw.params@[2]@),
        raw.params@.len() < 3 ==> (r matches ClientCommand::Malformed { reason } && reason@ == ascii("Missing parameters for /plays"@)),
{
    if raw.params.len() < 3 {
        proof {
            reveal_strlit("Missing parameters for /plays");
        }
        return malformed("Missing parameters for /plays");
    }
    ClientCommand::HostGame {
        game_name: copy_bytes(raw.params[1].as_slice()),
        password_or_guid: copy_bytes(raw.params[2].as_slice()),
    }
}

fn joingame_from_raw(raw: &RawCommand) -> (r: ClientCommand)
    ensures
        raw.params@.len() >= 2 ==> (r matches ClientCommand::JoinGame { game_name, password }
            && game_name@ == raw.params@[0]@ && password@ == raw.params@[1]@),
        raw.params@.len() < 2 ==> (r matches ClientCommand::Malformed { reason } && reason@ == ascii("Missing parameters for /playc"@)),
{
    if raw.params.len() < 2 {
        proof {
            reveal_strlit("Missing parameters for /playc");
        }
        return malformed("Missing parameters for /playc");
    }
    ClientCommand::JoinGame {
        game_name: copy_bytes(raw.params[0].as_slice()),
        password: copy_bytes(raw.params[1].as_slice()),
    }
}

/// The command that a parsed line stands for.
pub fn match_raw_command(raw: RawCommand) -> (r: ClientCommand)
    ensures
        command_spec(r, raw.command@, views(raw.params@)),
{
    proof {
        reveal_strlit("send");
        reveal_strlit("msg");
        reveal_strlit("join");
        reveal_strlit("plays");
        reveal_strlit("playc");
        reveal_strlit("Missing parameters for /send");
        reveal_strlit("Missing parameters for /msg");
        reveal_strlit("Missing parameters for /join");
        reveal_strlit("Missing parameters for /plays");
        reveal_strlit("Missing parameters for /playc");
    }
    if bytes_eq(raw.command.as_slice(), lit_bytes("send").as_slice()) {
        send_from_raw(&raw)
    } else if bytes_eq(raw.command.as_slice(), lit_bytes("msg").as_slice()) {
        msg_from_raw(&raw)
    } else if bytes_eq(raw.command.as_slice(), lit_bytes("join").as_slice()) {
        join_from_raw(&raw)
    } else if bytes_eq(raw.command.as_slice(), lit_bytes("plays").as_slice()) {
        hostgame_from_raw(&raw)
    } else if bytes_eq(raw.command.as_slice(), lit_bytes("playc").as_slice()) {
        joingame_from_raw(&raw)
    } else {
        ClientCommand::Unknown { command: raw.command }
    }
}

/// The index of the first NUL in `data`, if any.
pub fn find_nul(data: &[u8]) -> (r: Option<usize>)
    ensures
        r.is_none() ==> forall|i: int| 0 <= i < data@.len() ==> data@[i] != 0,
        r.is_some() ==> r.unwrap() < data@.len() && data@[r.unwrap() as int] == 0 && forall|i: int|
            0 <= i < r.unwrap() ==> data@[i] != 0,
{
    let mut i: usize = 0;
    while i < data.len()
        invariant
            0 <= i <= data@.len(),
            forall|j: int| 0 <= j < i ==> data@[j] != 0,
        decreases data@.len() - i,
    {
        if data[i] == 0 {
            return Some(i);
        }
        i += 1;
    }
    None
}

/// Whether `data` holds a NUL.
pub open spec fn has_nul(data: Seq<u8>) -> bool {
    exists|i: int| 0 <= i < data.len() && data[i] == 0
}

/// The index of the first NUL of a buffer that holds one.
pub open spec fn first_nul(data: Seq<u8>) -> int
    recommends
        has_nul(data),
{
    choose|i: int| 0 <= i < data.len() && data[i] == 0 && forall|j: int| 0 <= j < i ==> data[j] != 0
}

proof fn lemma_min_nul_from(data: Seq<u8>, i: int)
    requires
        0 <= i <= data.len(),
        has_nul(data),
        forall|j: int| 0 <= j < i ==> data[j] != 0,
    ensures
        exists|m: int| 0 <= m < data.len() && data[m] == 0 && forall|j: int| 0 <= j < m ==> data[j] != 0,
    decreases data.len() - i,
{
    if i == data.len() {
        let w = choose|w: int| 0 <= w < data.len() && data[w] == 0;
        assert(data[w] != 0);
    } else if data[i] == 0 {
        assert(0 <= i < data.len() && data[i] == 0 && forall|j: int| 0 <= j < i ==> data[j] != 0);
    } else {
        lemma_min_nul_from(data, i + 1);
    }
}

/// The first NUL of a buffer that holds one is a NUL with none before it.
pub proof fn lemma_first_nul(data: Seq<u8>)
    requires
        has_nul(data),
    ensures
        0 <= first_nul(data) < data.len(),
        data[first_nul(data)] == 0,
        forall|j: int| 0 <= j < first_nul(data) ==> data[j] != 0,
{
    lemma_min_nul_from(data, 0);
}

/// The complete lines of a buffer (each without its NUL), and what follows the
/// last NUL.
pub open spec fn split_lines(data: Seq<u8>) -> (Seq<Seq<u8>>, Seq<u8>)
    decreases data.len(),
    via split_lines_decreases
{
    if has_nul(data) {
        let n = first_nul(data);
        let rest = split_lines(data.subrange(n + 1, data.len() as int));
        (seq![data.subrange(0, n)] + rest.0, rest.1)
    } else {
        (Seq::empty(), data)
    }
}

#[via_fn]
proof fn split_lines_decreases(data: Seq<u8>) {
    if has_nul(data) {
        lemma_first_nul(data);
    }
}

/// The command that a line (without its NUL) stands for.
pub fn command_from_line(line: &[u8]) -> (r: ClientCommand)
    ensures
        line_spec(r, line@),
{
    proof {
        reveal_strlit("Received message is invalid");
    }
    if line.len() == 0 {
        return ClientCommand::NoOp;
    }
    match try_parse_raw_command(line) {
        Some(raw) => match_raw_command(raw),
        None => malformed("Received message is invalid"),
    }
}

impl ClientCommand {
    /// Takes one NUL-terminated line off the front of `data` and reads it.
    /// `Ok(None)` while no NUL has come (nothing taken); an error where more
    /// than 1024 bytes wait without one.
    pub fn try_parse(data: &mut Vec<u8>) -> (r: Result<Option<ClientCommand>, LineError>)
        ensures
            !has_nul(old(data)@) ==> final(data)@ == old(data)@ && (if old(data)@.len()
                > MAX_PENDING_LINE {
                r == Err::<Option<ClientCommand>, LineError>(LineError::TooLong)
            } else {
                r is Ok && r.unwrap() is None
            }),
            has_nul(old(data)@) ==> final(data)@.len() < old(data)@.len(),
            has_nul(old(data)@) ==> (r matches Ok(Some(c)) && line_spec(
                c,
                old(data)@.subrange(0, first_nul(old(data)@)),
            )) && final(data)@ == old(data)@.subrange(
                first_nul(old(data)@) + 1,
                old(data)@.len() as int,
            ),
    {
        match find_nul(data.as_slice()) {
            Some(position) => {
                assert(position < data@.len());
                proof {
                    assert(0 <= position < data@.len() && data@[position as int] == 0 && forall|j: int|
                        0 <= j < position ==> data@[j] != 0);
                    let n = first_nul(data@);
                    assert(0 <= n < data@.len() && data@[n] == 0 && forall|j: int| 0 <= j < n ==> data@[j] != 0);
                    if n < position {
                        assert(data@[n] != 0);
                    } else if n > position {
                        assert(data@[position as int] != 0);
                    }
                }
                let line = sub_copy(data.as_slice(), 0, position);
                let n = data.len();
                let rest = sub_copy(data.as_slice(), position + 1, n);
                *data = rest;
                Ok(Some(command_from_line(line.as_slice())))
            },
            None => {
                if data.len() > MAX_PENDING_LINE {
                    Err(LineError::TooLong)
                } else {
                    Ok(None)
                }
            },
        }
    }
}

} // verus!
