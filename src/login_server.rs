use vstd::prelude::*;
use crate::frame::{compress_bytes, frame_of, frame_payload, le32, push_le32, slice_field, write_slice, zlib_deflated, MAX_FRAME_LEN};
use crate::raw_command::views;

verus! {

/// The reply to an accepted Ident.
#[derive(Debug)]
pub struct IdentServerParams {}

/// The Welcome sent on login.
#[derive(Debug)]
pub struct WelcomeServerParams {
    pub server_ident: Vec<u8>,
    pub welcome_message: Vec<u8>,
    pub players_total: u32,
    pub players_online: u32,
    pub channels_total: u32,
    pub games_total: u32,
    pub games_running: u32,
    pub games_available: u32,
    pub game_versions: Vec<Vec<u8>>,
    pub initial_channel: Vec<u8>,
}

/// A refusal with its reason.
#[derive(Debug)]
pub struct RejectServerParams {
    pub reason: Vec<u8>,
}

/// The handshake messages of the server.
#[derive(Debug)]
pub enum LoginServerMessage {
    Ident(IdentServerParams),
    Welcome(WelcomeServerParams),
    Reject(RejectServerParams),
}

/// The salt word that the Ident reply repeats.
pub const IDENT_SALT: u32 = 0x1aff3b3c;

/// The Ident reply: status 0, then 16 and the salt word four times.
pub open spec fn ident_payload() -> Seq<u8> {
    le32(0) + le32(16) + le32(IDENT_SALT) + le32(IDENT_SALT) + le32(IDENT_SALT) + le32(IDENT_SALT)
}

/// The Reject payload: code 2 and the reason.
pub open spec fn reject_payload(reason: Seq<u8>) -> Seq<u8> {
    le32(2) + slice_field(reason)
}

/// Each version as its index byte and the text with its length.
pub open spec fn version_list(vs: Seq<Seq<u8>>) -> Seq<u8>
    decreases vs.len(),
{
    if vs.len() == 0 {
        Seq::empty()
    } else {
        version_list(vs.drop_last()) + seq![((vs.len() - 1) % 256) as u8] + slice_field(vs.last())
    }
}

/// 16 zero bytes.
pub open spec fn zeros16() -> Seq<u8> {
    Seq::new(16, |i: int| 0u8)
}

/// The block inside the Welcome payload.
pub open spec fn welcome_content(
    ident: Seq<u8>,
    message: Seq<u8>,
    counts: (u32, u32, u32, u32, u32),
    versions: Seq<Seq<u8>>,
    initial: Seq<u8>,
) -> Seq<u8> {
    let list = version_list(versions) + seq![0xffu8];
    slice_field(ident) + slice_field(message) + le32(25) + le32(0) + le32(24) + le32(counts.0)
        + le32(counts.1) + le32(counts.2) + le32(counts.3) + le32(0) + le32(18) + le32(counts.4)
        + le32(16) + list + list + list + seq![0u8] + slice_field(initial) + le32(0) + zeros16()
        + le32(0) + zeros16()
}

impl WelcomeServerParams {
    pub open spec fn content(&self) -> Seq<u8> {
        welcome_content(
            self.server_ident@,
            self.welcome_message@,
            (
                self.players_total,
                self.players_online,
                self.channels_total,
                self.games_total,
                self.games_available,
            ),
            views(self.game_versions@),
            self.initial_channel@,
        )
    }

    /// Every length field fits a `u32`.
    pub open spec fn fits(&self) -> bool {
        &&& self.server_ident@.len() <= u32::MAX
        &&& self.welcome_message@.len() <= u32::MAX
        &&& self.initial_channel@.len() <= u32::MAX
        &&& forall|i: int|
            0 <= i < self.game_versions@.len() ==> #[trigger] self.game_versions@[i]@.len()
                <= u32::MAX
        &&& self.content().len() <= u32::MAX
    }

    /// The uncompressed payload: status 0 and the content block with its length.
    pub open spec fn payload_spec(&self) -> Seq<u8> {
        le32(0) + slice_field(self.content())
    }

    fn push_versions(&self, content: &mut Vec<u8>) -> (ok: bool)
        ensures
            ok == (forall|i: int|
                0 <= i < self.game_versions@.len() ==> #[trigger] self.game_versions@[i]@.len()
                    <= u32::MAX),
            ok ==> final(content)@ == old(content)@ + version_list(views(self.game_versions@))
                + seq![0xffu8],
    {
        let ghost start = content@;
        let mut i: usize = 0;
        while i < self.game_versions.len()
            invariant
                0 <= i <= self.game_versions@.len(),
                forall|j: int| 0 <= j < i ==> #[trigger] self.game_versions@[j]@.len() <= u32::MAX,
                content@ == start + version_list(views(self.game_versions@.subrange(0, i as int))),
            decreases self.game_versions@.len() - i,
        {
            if self.game_versions[i].len() > u32::MAX as usize {
                return false;
            }
            content.push((i % 256) as u8);
            write_slice(content, self.game_versions[i].as_slice());
            i += 1;
            assert(views(self.game_versions@.subrange(0, i as int)).drop_last() =~= views(
                self.game_versions@.subrange(0, i - 1),
            ));
            assert(content@ =~= start + version_list(
                views(self.game_versions@.subrange(0, i as int)),
            ));
        }
        assert(self.game_versions@.subrange(0, i as int) =~= self.game_versions@);
        content.push(0xff);
        true
    }

    /// The payload, or `None` where a length does not fit a `u32`.
    pub fn payload(&self) -> (r: Option<Vec<u8>>)
        ensures
            r.is_some() == self.fits(),
            r.is_some() ==> r.unwrap()@ == self.payload_spec(),
    {
        if self.server_ident.len() > u32::MAX as usize || self.welcome_message.len()
            > u32::MAX as usize || self.initial_channel.len() > u32::MAX as usize {
            return None;
        }
        let mut content: Vec<u8> = Vec::new();
        write_slice(&mut content, self.server_ident.as_slice());
        write_slice(&mut content, self.welcome_message.as_slice());
        push_le32(&mut content, 25);
        push_le32(&mut content, 0);
        push_le32(&mut content, 24);
        push_le32(&mut content, self.players_total);
        push_le32(&mut content, self.players_online);
        push_le32(&mut content, self.channels_total);
        push_le32(&mut content, self.games_total);
        push_le32(&mut content, 0);
        push_le32(&mut content, 18);
        push_le32(&mut content, self.games_available);
        push_le32(&mut content, 16);
        if !self.push_versions(&mut content) {
            return None;
        }
        self.push_versions(&mut content);
        self.push_versions(&mut content);
        content.push(0);
        write_slice(&mut content, self.initial_channel.as_slice());
        push_le32(&mut content, 0);
        push_zeros16(&mut content);
        push_le32(&mut content, 0);
        push_zeros16(&mut content);
        assert(content@ =~= self.content());
        if content.len() > u32::MAX as usize {
            return None;
        }
        let mut message: Vec<u8> = Vec::new();
        push_le32(&mut message, 0);
        write_slice(&mut message, content.as_slice());
        assert(message@ =~= self.payload_spec());
        Some(message)
    }

    /// The Welcome frame; `None` where a length does not fit a `u32`.
    pub fn prepare_message(&self) -> (r: Option<Vec<u8>>)
        ensures
            r.is_some() == (self.fits() && zlib_deflated(self.payload_spec()).len() + 4 <= u32::MAX),
            r.is_some() ==> r.unwrap()@ == frame_of(zlib_deflated(self.payload_spec())),
            r.is_some() && r.unwrap()@.len() <= MAX_FRAME_LEN ==> frame_payload(r.unwrap()@) == Some(
                self.payload_spec(),
            ),
    {
        match self.payload() {
            Some(p) => {
                let r = compress_bytes(p.as_slice());
                if let Some(f) = &r {
                    assert(f@ + Seq::<u8>::empty() =~= f@);
                    assert(frame_payload(f@ + Seq::<u8>::empty()) == Some(p@) || f@.len() > MAX_FRAME_LEN);
                }
                r
            },
            None => None,
        }
    }
}

fn push_zeros16(v: &mut Vec<u8>)
    ensures
        final(v)@ == old(v)@ + zeros16(),
{
    let mut k: usize = 0;
    while k < 16
        invariant
            0 <= k <= 16,
            v@ == old(v)@ + Seq::new(k as nat, |i: int| 0u8),
        decreases 16 - k,
    {
        v.push(0);
        k += 1;
        assert(v@ =~= old(v)@ + Seq::new(k as nat, |i: int| 0u8));
    }
}

impl IdentServerParams {
    pub fn payload(&self) -> (r: Vec<u8>)
        ensures
            r@ == ident_payload(),
    {
        let mut message: Vec<u8> = Vec::new();
        push_le32(&mut message, 0);
        push_le32(&mut message, 16);
        push_le32(&mut message, IDENT_SALT);
        push_le32(&mut message, IDENT_SALT);
        push_le32(&mut message, IDENT_SALT);
        push_le32(&mut message, IDENT_SALT);
        assert(message@ =~= ident_payload());
        message
    }

    /// The Ident reply frame; `None` where the stream would not fit a `u32`
    /// length.
    pub fn prepare_message(&self) -> (r: Option<Vec<u8>>)
        ensures
            r.is_some() == (zlib_deflated(ident_payload()).len() + 4 <= u32::MAX),
            r.is_some() ==> r.unwrap()@ == frame_of(zlib_deflated(ident_payload())),
    {
        compress_bytes(self.payload().as_slice())
    }
}

impl RejectServerParams {
    /// The payload, or `None` where the reason's length does not fit a `u32`.
    pub fn payload(&self) -> (r: Option<Vec<u8>>)
        ensures
            r.is_some() == (self.reason@.len() <= u32::MAX),
            r.is_some() ==> r.unwrap()@ == reject_payload(self.reason@),
    {
        if self.reason.len() > u32::MAX as usize {
            return None;
        }
        let mut content: Vec<u8> = Vec::new();
        push_le32(&mut content, 2);
        write_slice(&mut content, self.reason.as_slice());
        assert(content@ =~= reject_payload(self.reason@));
        Some(content)
    }

    /// The Reject frame; `None` where a length does not fit a `u32`.
    pub fn prepare_message(&self) -> (r: Option<Vec<u8>>)
        ensures
            r.is_some() == (self.reason@.len() <= u32::MAX && zlib_deflated(reject_payload(self.reason@)).len() + 4 <= u32::MAX),
            r.is_some() ==> self.reason@.len() <= u32::MAX && r.unwrap()@ == frame_of(
                zlib_deflated(reject_payload(self.reason@)),
            ),
    {
        match self.payload() {
            Some(p) => compress_bytes(p.as_slice()),
            None => None,
        }
    }
}

impl LoginServerMessage {
    /// The uncompressed payload of the message, where its lengths fit.
    pub open spec fn payload_spec(&self) -> Option<Seq<u8>> {
        match self {
            LoginServerMessage::Ident(_) => Some(ident_payload()),
            LoginServerMessage::Welcome(w) => if w.fits() {
                Some(w.payload_spec())
            } else {
                None
            },
            LoginServerMessage::Reject(p) => if p.reason@.len() <= u32::MAX {
                Some(reject_payload(p.reason@))
            } else {
                None
            },
        }
    }

    /// The frame of the message; `None` where a length does not fit a `u32`.
    pub fn prepare_message(&self) -> (r: Option<Vec<u8>>)
        ensures
            r.is_some() == (self.payload_spec() matches Some(p) && zlib_deflated(p).len() + 4 <= u32::MAX),
            r.is_some() ==> self.payload_spec().is_some() && r.unwrap()@ == frame_of(
                zlib_deflated(self.payload_spec().unwrap()),
            ),
    {
        match self {
            LoginServerMessage::Ident(p) => p.prepare_message(),
            LoginServerMessage::Welcome(p) => p.prepare_message(),
            LoginServerMessage::Reject(p) => p.prepare_message(),
        }
    }
}

} // verus!
