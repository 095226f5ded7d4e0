use vstd::prelude::*;
use vstd::string::StringSliceAdditionalSpecFns;

verus! {

/// ASCII letter.
pub open spec fn is_letter(b: u8) -> bool {
    (0x41 <= b && b <= 0x5a) || (0x61 <= b && b <= 0x7a)
}

/// ASCII decimal digit.
pub open spec fn is_digit(b: u8) -> bool {
    0x30 <= b && b <= 0x39
}

/// The ASCII lowercase of one byte; other bytes stay as they are.
pub open spec fn lower_byte(b: u8) -> u8 {
    if 0x41 <= b && b <= 0x5a {
        (b + 32) as u8
    } else {
        b
    }
}

/// The ASCII lowercase of a byte string (the canonical key of a name).
pub open spec fn lower(s: Seq<u8>) -> Seq<u8> {
    s.map_values(|b: u8| lower_byte(b))
}

/// The character sets that names are checked against.
#[derive(Clone, Copy, Debug, PartialEq, Eq, Structural)]
pub enum CharClass {
    /// Letters, digits and `-_.|()[]{}`.
    Username,
    /// Letters, digits, `-` and `_`.
    Channel,
    /// Letters, digits, `-_+.|` and space.
    Game,
}

pub open spec fn allowed_in(b: u8, class: CharClass) -> bool {
    is_letter(b) || is_digit(b) || b == 0x2d || b == 0x5f || match class {
        CharClass::Username => b == 0x2e || b == 0x7c || b == 0x28 || b == 0x29 || b == 0x5b
            || b == 0x5d || b == 0x7b || b == 0x7d,
        CharClass::Channel => false,
        CharClass::Game => b == 0x2b || b == 0x2e || b == 0x7c || b == 0x20,
    }
}

/// A valid name: non-empty, every byte in the class's set.
pub open spec fn valid_name(s: Seq<u8>, class: CharClass) -> bool {
    s.len() > 0 && forall|i: int| 0 <= i < s.len() ==> allowed_in(#[trigger] s[i], class)
}

pub fn is_ascii_letter(b: u8) -> (r: bool)
    ensures
        r == is_letter(b),
{
    (0x41 <= b && b <= 0x5a) || (0x61 <= b && b <= 0x7a)
}

pub fn is_allowed(b: u8, class: CharClass) -> (r: bool)
    ensures
        r == allowed_in(b, class),
{
    if is_ascii_letter(b) || (0x30 <= b && b <= 0x39) || b == 0x2d || b == 0x5f {
        return true;
    }
    match class {
        CharClass::Username => b == 0x2e || b == 0x7c || b == 0x28 || b == 0x29 || b == 0x5b
            || b == 0x5d || b == 0x7b || b == 0x7d,
        CharClass::Channel => false,
        CharClass::Game => b == 0x2b || b == 0x2e || b == 0x7c || b == 0x20,
    }
}

/// Whether `input` is non-empty and made only of bytes of `class`.
pub fn only_allowed_chars_not_empty(input: &[u8], class: CharClass) -> (r: bool)
    ensures
        r == valid_name(input@, class),
{
    if input.len() == 0 {
        return false;
    }
    let mut i: usize = 0;
    while i < input.len()
        invariant
            0 <= i <= input@.len(),
            forall|j: int| 0 <= j < i ==> allowed_in(#[trigger] input@[j], class),
        decreases input@.len() - i,
    {
        if !is_allowed(input[i], class) {
            return false;
        }
        i += 1;
    }
    true
}

pub fn lower_one(b: u8) -> (r: u8)
    ensures
        r == lower_byte(b),
{
    if 0x41 <= b && b <= 0x5a {
        b + 32
    } else {
        b
    }
}

/// The ASCII lowercase copy of `s`.
pub fn to_lower(s: &[u8]) -> (r: Vec<u8>)
    ensures
        r@ == lower(s@),
{
    let mut r: Vec<u8> = Vec::new();
    let mut i: usize = 0;
    while i < s.len()
        invariant
            0 <= i <= s@.len(),
            r@ == lower(s@.subrange(0, i as int)),
        decreases s@.len() - i,
    {
        r.push(lower_one(s[i]));
        i += 1;
        assert(lower(s@.subrange(0, i as int)) =~= lower(s@.subrange(0, i - 1)).push(lower_byte(s@[i - 1])));
    }
    assert(s@.subrange(0, i as int) =~= s@);
    r
}

/// Byte-wise equality of two strings.
pub fn bytes_eq(a: &[u8], b: &[u8]) -> (r: bool)
    ensures
        r == (a@ == b@),
{
    if a.len() != b.len() {
        return false;
    }
    let mut i: usize = 0;
    while i < a.len()
        invariant
            a@.len() == b@.len(),
            0 <= i <= a@.len(),
            forall|j: int| 0 <= j < i ==> a@[j] == b@[j],
        decreases a@.len() - i,
    {
        if a[i] != b[i] {
            return false;
        }
        i += 1;
    }
    assert(a@ =~= b@);
    true
}

/// Whether two names have the same canonical (lowercase) key.
pub fn same_key(a: &[u8], b: &[u8]) -> (r: bool)
    ensures
        r == (lower(a@) == lower(b@)),
{
    let la = to_lower(a);
    let lb = to_lower(b);
    bytes_eq(la.as_slice(), lb.as_slice())
}

/// Appends all of `src` to `dst`.
pub fn push_all(dst: &mut Vec<u8>, src: &[u8])
    ensures
        final(dst)@ == old(dst)@ + src@,
{
    let mut i: usize = 0;
    while i < src.len()
        invariant
            0 <= i <= src@.len(),
            dst@ == old(dst)@ + src@.subrange(0, i as int),
        decreases src@.len() - i,
    {
        dst.push(src[i]);
        i += 1;
        assert(old(dst)@ + src@.subrange(0, i as int) =~= old(dst)@ + src@.subrange(0, i - 1) + seq![src@[i - 1]]);
    }
    assert(src@.subrange(0, i as int) =~= src@);
}

/// A copy of `s`.
pub fn copy_bytes(s: &[u8]) -> (r: Vec<u8>)
    ensures
        r@ == s@,
{
    let mut r: Vec<u8> = Vec::new();
    push_all(&mut r, s);
    assert(r@ =~= s@);
    r
}

/// What `String::from_utf8_lossy` makes of a byte string.
pub uninterp spec fn lossy_text_of(b: Seq<u8>) -> Seq<char>;

/// Bytes below 0x80.
pub open spec fn is_ascii_bytes(b: Seq<u8>) -> bool {
    forall|i: int| 0 <= i < b.len() ==> #[trigger] b[i] < 0x80
}

/// Relies on `String::from_utf8_lossy`: the text depends on the bytes alone,
/// valid UTF-8 comes out as the text it encodes, and ASCII bytes (valid UTF-8)
/// as the same characters.
#[verifier::external_body]
pub fn bytevec_to_str(input: &[u8]) -> (r: String)
    ensures
        r@ == lossy_text_of(input@),
        vstd::utf8::valid_utf8(input@) ==> r@ == vstd::utf8::decode_utf8(input@),
        is_ascii_bytes(input@) ==> r@ == input@.map_values(|b: u8| b as char),
{
    String::from_utf8_lossy(input).to_string()
}

/// The bytes of an ASCII text.
pub open spec fn ascii(s: Seq<char>) -> Seq<u8> {
    s.map_values(|c: char| c as u8)
}

/// The bytes of an ASCII string slice.
pub fn lit_bytes(s: &str) -> (r: Vec<u8>)
    requires
        vstd::string::is_ascii(s),
    ensures
        r@ == ascii(s@),
{
    proof {
        vstd::string::is_ascii_spec_bytes(s);
    }
    let b = s.as_bytes();
    let mut r: Vec<u8> = Vec::new();
    let mut i: usize = 0;
    while i < b.len()
        invariant
            0 <= i <= b@.len(),
            b@ == s.spec_bytes(),
            r@ == b@.subrange(0, i as int),
        decreases b@.len() - i,
    {
        r.push(b[i]);
        i += 1;
        assert(r@ =~= b@.subrange(0, i as int));
    }
    assert(r@ =~= ascii(s@));
    r
}

/// The decimal digits of `n`.
pub open spec fn decimal(n: nat) -> Seq<u8>
    decreases n,
{
    if n < 10 {
        seq![(0x30 + n) as u8]
    } else {
        decimal(n / 10).push((0x30 + n % 10) as u8)
    }
}

/// `n` in decimal.
pub fn decimal_of(n: u32) -> (r: Vec<u8>)
    ensures
        r@ == decimal(n as nat),
    decreases n,
{
    if n < 10 {
        let mut r: Vec<u8> = Vec::new();
        r.push(0x30 + n as u8);
        r
    } else {
        let mut r = decimal_of(n / 10);
        r.push(0x30 + (n % 10) as u8);
        r
    }
}

} // verus!
