use vstd::prelude::*;

verus! {

/// A 128-bit identifier, held as its 16 bytes in the conventional (big-endian
/// field) order, the order of its text form.
#[derive(Clone, Copy, Debug)]
pub struct Guid {
    pub bytes: [u8; 16],
}

impl PartialEq for Guid {
    fn eq(&self, o: &Guid) -> (r: bool) {
        let mut i: usize = 0;
        while i < 16
            invariant
                0 <= i <= 16,
                forall|j: int| 0 <= j < i ==> self.bytes@[j] == o.bytes@[j],
            decreases 16 - i,
        {
            if self.bytes[i] != o.bytes[i] {
                return false;
            }
            i += 1;
        }
        assert(self.bytes@ =~= o.bytes@);
        true
    }
}

impl vstd::std_specs::cmp::PartialEqSpecImpl for Guid {
    open spec fn obeys_eq_spec() -> bool {
        true
    }

    open spec fn eq_spec(&self, o: &Guid) -> bool {
        self.bytes@ == o.bytes@
    }
}

/// Where byte `i` of the conventional order sits in the Windows layout, whose
/// first three fields are little-endian `u32`, `u16`, `u16`.
pub open spec fn wire_index(i: int) -> int {
    if i < 4 {
        3 - i
    } else if i < 6 {
        9 - i
    } else if i < 8 {
        13 - i
    } else {
        i
    }
}

/// Reorders 16 bytes between the Windows layout and the conventional order (the
/// same permutation both ways).
pub open spec fn swap_layout(w: Seq<u8>) -> Seq<u8> {
    Seq::new(16, |i: int| w[wire_index(i)])
}

/// Reading the Windows layout and writing it back gives the same 16 bytes.
pub proof fn lemma_layout_round_trip(w: Seq<u8>)
    requires
        w.len() == 16,
    ensures
        swap_layout(swap_layout(w)) == w,
{
    assert(swap_layout(swap_layout(w)) =~= w);
}

fn wire_index_exec(i: usize) -> (r: usize)
    requires
        i < 16,
    ensures
        r == wire_index(i as int),
        r < 16,
{
    if i < 4 {
        3 - i
    } else if i < 6 {
        9 - i
    } else if i < 8 {
        13 - i
    } else {
        i
    }
}

/// A lowercase hex digit for a value below 16.
pub open spec fn hex_digit(n: u8) -> u8 {
    if n < 10 {
        (0x30 + n) as u8
    } else {
        (0x61 + n - 10) as u8
    }
}

fn hex_digit_exec(n: u8) -> (r: u8)
    requires
        n < 16,
    ensures
        r == hex_digit(n),
{
    if n < 10 {
        0x30 + n
    } else {
        0x61 + n - 10
    }
}

/// What `Uuid::parse_str` makes of a text, as the conventional bytes.
pub uninterp spec fn guid_text_of(text: Seq<u8>) -> Option<Seq<u8>>;

/// Relies on `uuid::Uuid::parse_str` (on the text read with
/// `String::from_utf8_lossy`): the outcome depends on the text alone, a parsed
/// value is 16 bytes, and the hyphenated lowercase hex form of 16 bytes parses
/// back to them.
#[verifier::external_body]
fn parse_uuid_text(text: &[u8]) -> (r: Option<Guid>)
    ensures
        r.is_some() == guid_text_of(text@).is_some(),
        r.is_some() ==> r.unwrap().bytes@ == guid_text_of(text@).unwrap(),
        (exists|b: Seq<u8>| b.len() == 16 && #[trigger] hyphenated(b) == text@) ==> r.is_some()
            && hyphenated(r.unwrap().bytes@) == text@,
{
    match uuid::Uuid::parse_str(&String::from_utf8_lossy(text)) {
        Ok(u) => Some(Guid { bytes: *u.as_bytes() }),
        Err(_) => None,
    }
}

/// Relies on `uuid::Uuid::new_v4`: a random value; nothing is known of it.
#[verifier::external_body]
fn random_uuid() -> (r: Guid) {
    Guid { bytes: *uuid::Uuid::new_v4().as_bytes() }
}

impl Guid {
    /// The all-zero GUID.
    pub fn nil() -> (r: Guid)
        ensures
            r.bytes@ == Seq::new(16, |i: int| 0u8),
    {
        let r = Guid { bytes: [0u8; 16] };
        assert(r.bytes@ =~= Seq::new(16, |i: int| 0u8));
        r
    }

    /// Reads the Windows layout from the first 16 bytes of `w`.
    pub fn from_wire(w: &[u8]) -> (r: Guid)
        requires
            w@.len() >= 16,
        ensures
            r.bytes@ == swap_layout(w@.subrange(0, 16)),
    {
        let mut b = [0u8; 16];
        let mut i: usize = 0;
        while i < 16
            invariant
                0 <= i <= 16,
                w@.len() >= 16,
                b@.len() == 16,
                forall|j: int| 0 <= j < i ==> b@[j] == w@[wire_index(j)],
            decreases 16 - i,
        {
            b[i] = w[wire_index_exec(i)];
            i += 1;
        }
        assert(b@ =~= swap_layout(w@.subrange(0, 16)));
        Guid { bytes: b }
    }

    /// Writes the Windows layout.
    pub fn to_wire(&self) -> (r: Vec<u8>)
        ensures
            r@ == swap_layout(self.bytes@),
    {
        let mut r: Vec<u8> = Vec::new();
        let mut i: usize = 0;
        while i < 16
            invariant
                0 <= i <= 16,
                r@.len() == i,
                forall|j: int| 0 <= j < i ==> r@[j] == self.bytes@[wire_index(j)],
            decreases 16 - i,
        {
            r.push(self.bytes[wire_index_exec(i)]);
            i += 1;
        }
        assert(r@ =~= swap_layout(self.bytes@));
        r
    }

    /// The text form, `xxxxxxxx-xxxx-xxxx-xxxx-xxxxxxxxxxxx` in lowercase.
    pub fn to_hyphenated(&self) -> (r: Vec<u8>)
        ensures
            r@ == hyphenated(self.bytes@),
    {
        let mut r: Vec<u8> = Vec::new();
        let mut i: usize = 0;
        while i < 16
            invariant
                0 <= i <= 16,
                r@ == hyphen_prefix(self.bytes@, i as int),
            decreases 16 - i,
        {
            if i == 4 || i == 6 || i == 8 || i == 10 {
                r.push(0x2d);
            }
            let v = self.bytes[i];
            r.push(hex_digit_exec(v / 16));
            r.push(hex_digit_exec(v % 16));
            proof {
                lemma_hyphen_prefix_step(self.bytes@, i as int);
            }
            i += 1;
        }
        r
    }

    /// Parses a GUID text (hyphenated or plain hex, as `Uuid::parse_str` takes it).
    pub fn parse_text(text: &[u8]) -> (r: Option<Guid>)
        ensures
            r.is_some() == guid_text_of(text@).is_some(),
            r.is_some() ==> r.unwrap().bytes@ == guid_text_of(text@).unwrap(),
            (exists|b: Seq<u8>| b.len() == 16 && #[trigger] hyphenated(b) == text@) ==> r.is_some()
                && hyphenated(r.unwrap().bytes@) == text@,
    {
        parse_uuid_text(text)
    }

    /// A fresh random GUID.
    pub fn random() -> (r: Guid) {
        random_uuid()
    }
}

/// The 8-4-4-4-12 hyphenated lowercase text of a GUID's 16 bytes.
pub open spec fn hyphenated(b: Seq<u8>) -> Seq<u8> {
    hyphen_prefix(b, 16)
}

/// The text of the first `n` bytes: two lowercase hex digits each, with a
/// hyphen before bytes 4, 6, 8 and 10.
pub open spec fn hyphen_prefix(b: Seq<u8>, n: int) -> Seq<u8>
    decreases n,
{
    if n <= 0 {
        Seq::empty()
    } else {
        let sep: Seq<u8> = if n - 1 == 4 || n - 1 == 6 || n - 1 == 8 || n - 1 == 10 {
            seq![0x2du8]
        } else {
            Seq::empty()
        };
        hyphen_prefix(b, n - 1) + sep + seq![hex_digit(b[n - 1] / 16), hex_digit(b[n - 1] % 16)]
    }
}

proof fn lemma_hyphen_prefix_step(b: Seq<u8>, i: int)
    requires
        0 <= i < 16,
    ensures
        hyphen_prefix(b, i + 1) == hyphen_prefix(b, i) + (if i == 4 || i == 6 || i == 8 || i
            == 10 {
            seq![0x2du8]
        } else {
            Seq::<u8>::empty()
        }) + seq![hex_digit(b[i] / 16), hex_digit(b[i] % 16)],
{
}

} // verus!
