use vstd::prelude::*;
use crate::frame::{decode_frame, declared_len, frame_incomplete, frame_payload, get_le32, read_le32, FrameDecode};
use crate::guid::{Guid, swap_layout};
use crate::raw_command::sub_copy;

verus! {

/// The client's Ident: its game version and language tag.
#[derive(Debug)]
pub struct IdentClientMessage {
    pub game_version: Guid,
    pub language: Vec<u8>,
}

/// The client's Login: username and password.
#[derive(Debug)]
pub struct LoginClientMessage {
    pub username: Vec<u8>,
    pub password: Vec<u8>,
}

/// Why a handshake frame could not be read; the connection is dropped.
#[derive(Debug, Clone, Copy, PartialEq, Eq, Structural)]
pub enum HandshakeError {
    /// The length is out of range, or the stream does not decompress.
    BadFrame,
    /// The payload does not hold the expected fields.
    BadPayload,
}

/// The length-prefixed field at `i`: where its bytes start and end.
pub open spec fn delimited_at(s: Seq<u8>, i: int) -> Option<(int, int)> {
    if 0 <= i && i + 4 <= s.len() && i + 4 + read_le32(s.subrange(i, i + 4)) <= s.len() {
        Some((i + 4, i + 4 + read_le32(s.subrange(i, i + 4))))
    } else {
        None
    }
}

/// An Ident payload: a GUID in the Windows layout, then the language field.
/// Gives the GUID's conventional bytes and the language.
pub open spec fn ident_spec(s: Seq<u8>) -> Option<(Seq<u8>, Seq<u8>)> {
    if s.len() >= 16 && delimited_at(s, 16).is_some() {
        let (a, b) = delimited_at(s, 16).unwrap();
        Some((swap_layout(s.subrange(0, 16)), s.subrange(a, b)))
    } else {
        None
    }
}

/// A Login payload: the username field, then the password field.
pub open spec fn login_spec(s: Seq<u8>) -> Option<(Seq<u8>, Seq<u8>)> {
    if delimited_at(s, 0).is_some() && delimited_at(s, delimited_at(s, 0).unwrap().1).is_some() {
        let (a, b) = delimited_at(s, 0).unwrap();
        let (c, d) = delimited_at(s, b).unwrap();
        Some((s.subrange(a, b), s.subrange(c, d)))
    } else {
        None
    }
}

fn delimited_exec(s: &[u8], i: usize) -> (r: Option<(usize, usize)>)
    requires
        i <= s@.len(),
    ensures
        r.is_some() == delimited_at(s@, i as int).is_some(),
        r.is_some() ==> r.unwrap().0 as int == delimited_at(s@, i as int).unwrap().0
            && r.unwrap().1 as int == delimited_at(s@, i as int).unwrap().1,
{
    if s.len() - i < 4 {
        return None;
    }
    let n = get_le32(s, i) as usize;
    if s.len() - i - 4 < n {
        return None;
    }
    Some((i + 4, i + 4 + n))
}

/// The bytes left after the first `n`.
fn drop_front(data: &mut Vec<u8>, n: usize)
    requires
        n <= old(data)@.len(),
    ensures
        final(data)@ == old(data)@.subrange(n as int, old(data)@.len() as int),
{
    let rest = sub_copy(data.as_slice(), n, data.len());
    *data = rest;
}

impl IdentClientMessage {
    /// Reads an Ident payload.
    pub fn parse_payload(s: &[u8]) -> (r: Option<IdentClientMessage>)
        ensures
            r.is_some() == ident_spec(s@).is_some(),
            r.is_some() ==> r.unwrap().game_version.bytes@ == ident_spec(s@).unwrap().0
                && r.unwrap().language@ == ident_spec(s@).unwrap().1,
    {
        if s.len() < 16 {
            return None;
        }
        match delimited_exec(s, 16) {
            Some((a, b)) => Some(
                IdentClientMessage { game_version: Guid::from_wire(s), language: sub_copy(s, a, b) },
            ),
            None => None,
        }
    }

    /// Takes one Ident frame off the front of `data`: `Ok(None)` while it is
    /// incomplete (nothing taken), an error where it cannot be read.
    pub fn try_parse(data: &mut Vec<u8>) -> (r: Result<Option<IdentClientMessage>, HandshakeError>)
        ensures
            final(data)@.len() <= old(data)@.len(),
            frame_incomplete(old(data)@) ==> r == Ok::<Option<IdentClientMessage>, HandshakeError>(None) && final(data)@ == old(data)@,
            !frame_incomplete(old(data)@) && frame_payload(old(data)@).is_none() ==> r
                == Err::<Option<IdentClientMessage>, HandshakeError>(HandshakeError::BadFrame),
            frame_payload(old(data)@).is_some() && ident_spec(frame_payload(old(data)@).unwrap()).is_none()
                ==> r == Err::<Option<IdentClientMessage>, HandshakeError>(HandshakeError::BadPayload),
            frame_payload(old(data)@).is_some() && ident_spec(frame_payload(old(data)@).unwrap()).is_some()
                ==> (r matches Ok(Some(m)) && m.game_version.bytes@ == ident_spec(frame_payload(old(data)@).unwrap()).unwrap().0
                && m.language@ == ident_spec(frame_payload(old(data)@).unwrap()).unwrap().1)
                && final(data)@ == old(data)@.subrange(declared_len(old(data)@), old(data)@.len() as int),
    {
        match decode_frame(data.as_slice()) {
            FrameDecode::Incomplete => Ok(None),
            FrameDecode::Malformed => Err(HandshakeError::BadFrame),
            FrameDecode::Complete { consumed, payload } => {
                match IdentClientMessage::parse_payload(payload.as_slice()) {
                    Some(m) => {
                        drop_front(data, consumed);
                        Ok(Some(m))
                    },
                    None => Err(HandshakeError::BadPayload),
                }
            },
        }
    }
}

impl LoginClientMessage {
    /// Reads a Login payload.
    pub fn parse_payload(s: &[u8]) -> (r: Option<LoginClientMessage>)
        ensures
            r.is_some() == login_spec(s@).is_some(),
            r.is_some() ==> r.unwrap().username@ == login_spec(s@).unwrap().0
                && r.unwrap().password@ == login_spec(s@).unwrap().1,
    {
        match delimited_exec(s, 0) {
            Some((a, b)) => match delimited_exec(s, b) {
                Some((c, d)) => Some(
                    LoginClientMessage { username: sub_copy(s, a, b), password: sub_copy(s, c, d) },
                ),
                None => None,
            },
            None => None,
        }
    }

    /// Takes one Login frame off the front of `data`: `Ok(None)` while it is
    /// incomplete (nothing taken), an error where it cannot be read.
    pub fn try_parse(data: &mut Vec<u8>) -> (r: Result<Option<LoginClientMessage>, HandshakeError>)
        ensures
            final(data)@.len() <= old(data)@.len(),
            frame_incomplete(old(data)@) ==> r == Ok::<Option<LoginClientMessage>, HandshakeError>(None) && final(data)@ == old(data)@,
            !frame_incomplete(old(data)@) && frame_payload(old(data)@).is_none() ==> r
                == Err::<Option<LoginClientMessage>, HandshakeError>(HandshakeError::BadFrame),
            frame_payload(old(data)@).is_some() && login_spec(frame_payload(old(data)@).unwrap()).is_none()
                ==> r == Err::<Option<LoginClientMessage>, HandshakeError>(HandshakeError::BadPayload),
            frame_payload(old(data)@).is_some() && login_spec(frame_payload(old(data)@).unwrap()).is_some()
                ==> (r matches Ok(Some(m)) && m.username@ == login_spec(frame_payload(old(data)@).unwrap()).unwrap().0
                && m.password@ == login_spec(frame_payload(old(data)@).unwrap()).unwrap().1)
                && final(data)@ == old(data)@.subrange(declared_len(old(data)@), old(data)@.len() as int),
    {
        match decode_frame(data.as_slice()) {
            FrameDecode::Incomplete => Ok(None),
            FrameDecode::Malformed => Err(HandshakeError::BadFrame),
            FrameDecode::Complete { consumed, payload } => {
                match LoginClientMessage::parse_payload(payload.as_slice()) {
                    Some(m) => {
                        drop_front(data, consumed);
                        Ok(Some(m))
                    },
                    None => Err(HandshakeError::BadPayload),
                }
            },
        }
    }
}

} // verus!
