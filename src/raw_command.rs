use vstd::prelude::*;
use crate::util::{is_letter, lower, to_lower, is_ascii_letter, copy_bytes};

verus! {

/// A command line split into its verb (lowercased) and its parameters.
#[derive(Debug)]
pub struct RawCommand {
    pub command: Vec<u8>,
    pub params: Vec<Vec<u8>>,
}

/// The contents of a list of byte strings.
pub open spec fn views(v: Seq<Vec<u8>>) -> Seq<Seq<u8>> {
    v.map_values(|x: Vec<u8>| x@)
}

impl RawCommand {
    pub open spec fn view_pair(&self) -> (Seq<u8>, Seq<Seq<u8>>) {
        (self.command@, views(self.params@))
    }
}

/// Whitespace between parameters: space, tab, CR, LF.
pub open spec fn is_space(b: u8) -> bool {
    b == 0x20 || b == 0x09 || b == 0x0d || b == 0x0a
}

/// The bytes that end a bare parameter: space, tab, double quote.
pub open spec fn ends_bare(b: u8) -> bool {
    b == 0x20 || b == 0x09 || b == 0x22
}

/// The end of the run of letters that starts at `i`.
pub open spec fn letters_end(s: Seq<u8>, i: int) -> int
    decreases s.len() - i,
{
    if 0 <= i < s.len() && is_letter(s[i]) {
        letters_end(s, i + 1)
    } else {
        i
    }
}

/// The end of the run of whitespace that starts at `i`.
pub open spec fn spaces_end(s: Seq<u8>, i: int) -> int
    decreases s.len() - i,
{
    if 0 <= i < s.len() && is_space(s[i]) {
        spaces_end(s, i + 1)
    } else {
        i
    }
}

/// The first double quote at or after `i`, or the end.
pub open spec fn quote_end(s: Seq<u8>, i: int) -> int
    decreases s.len() - i,
{
    if 0 <= i < s.len() && s[i] != 0x22 {
        quote_end(s, i + 1)
    } else {
        i
    }
}

/// The end of the bare parameter that starts at `i`.
pub open spec fn bare_end(s: Seq<u8>, i: int) -> int
    decreases s.len() - i,
{
    if 0 <= i < s.len() && !ends_bare(s[i]) {
        bare_end(s, i + 1)
    } else {
        i
    }
}

pub proof fn lemma_ends(s: Seq<u8>, i: int)
    requires
        0 <= i,
    ensures
        i <= letters_end(s, i),
        i <= spaces_end(s, i),
        i <= quote_end(s, i),
        i <= bare_end(s, i),
        i < s.len() && is_space(s[i]) ==> i < spaces_end(s, i),
        i <= s.len() ==> letters_end(s, i) <= s.len() && spaces_end(s, i) <= s.len()
            && quote_end(s, i) <= s.len() && bare_end(s, i) <= s.len(),
        spaces_end(s, i) < s.len() ==> !is_space(s[spaces_end(s, i)]),
        letters_end(s, i) < s.len() ==> !is_letter(s[letters_end(s, i)]),
        quote_end(s, i) < s.len() ==> s[quote_end(s, i)] == 0x22,
        bare_end(s, i) < s.len() ==> ends_bare(s[bare_end(s, i)]),
    decreases s.len() - i,
{
    if i < s.len() {
        lemma_ends(s, i + 1);
    }
}

/// One parameter that starts at `i`: where its value starts and ends, and where
/// the input goes on after it. A quoted one runs to the next `"` or to the end.
pub open spec fn param_at(s: Seq<u8>, i: int) -> (int, int, int) {
    if s[i] == 0x22 {
        let e = quote_end(s, i + 1);
        (i + 1, e, if e < s.len() {
            e + 1
        } else {
            e
        })
    } else {
        let e = bare_end(s, i);
        (i, e, e)
    }
}

/// Whether a parameter can start at `i`.
pub open spec fn param_starts(s: Seq<u8>, i: int) -> bool {
    0 <= i < s.len() && s[i] != 0x20 && s[i] != 0x09
}

/// A whitespace-separated list of parameters from `i`: the values, and where
/// the list ends (whitespace after the last one is not part of it).
pub open spec fn list_from(s: Seq<u8>, i: int) -> (Seq<Seq<u8>>, int)
    decreases s.len() - i,
    via list_from_decreases
{
    if !param_starts(s, i) {
        (Seq::empty(), i)
    } else {
        let (a, b, k) = param_at(s, i);
        let p = s.subrange(a, b);
        if k < s.len() && is_space(s[k]) && spaces_end(s, k) < s.len() {
            let rest = list_from(s, spaces_end(s, k));
            (seq![p] + rest.0, rest.1)
        } else {
            (seq![p], k)
        }
    }
}

#[via_fn]
proof fn list_from_decreases(s: Seq<u8>, i: int) {
    if param_starts(s, i) {
        lemma_ends(s, i);
        lemma_ends(s, i + 1);
        let (a, b, k) = param_at(s, i);
        if k < s.len() && is_space(s[k]) {
            lemma_ends(s, k);
        }
    }
}

/// A command line: an optional `/`, a verb of letters (not empty without the
/// `/`), then optionally whitespace and parameters, then optional whitespace.
/// Gives the lowercased verb and the parameters, or `None` where the line does
/// not have that shape.
pub open spec fn parse_line(s: Seq<u8>) -> Option<(Seq<u8>, Seq<Seq<u8>>)> {
    if s.len() == 0 {
        None
    } else {
        let vs: int = if s[0] == 0x2f { 1 } else { 0 };
        let v = letters_end(s, vs);
        let verb = lower(s.subrange(vs, v));
        let (ps, e) = if v < s.len() && is_space(s[v]) {
            list_from(s, spaces_end(s, v))
        } else {
            (Seq::empty(), v)
        };
        if vs == 0 && v == 0 {
            None
        } else if spaces_end(s, e) == s.len() {
            Some((verb, ps))
        } else {
            None
        }
    }
}

fn letters_end_exec(s: &[u8], i: usize) -> (r: usize)
    requires
        i <= s@.len(),
    ensures
        r == letters_end(s@, i as int),
        i <= r <= s@.len(),
{
    let mut j = i;
    while j < s.len() && is_ascii_letter(s[j])
        invariant
            i <= j <= s@.len(),
            letters_end(s@, i as int) == letters_end(s@, j as int),
        decreases s@.len() - j,
    {
        j += 1;
    }
    j
}

fn is_space_exec(b: u8) -> (r: bool)
    ensures
        r == is_space(b),
{
    b == 0x20 || b == 0x09 || b == 0x0d || b == 0x0a
}

fn spaces_end_exec(s: &[u8], i: usize) -> (r: usize)
    requires
        i <= s@.len(),
    ensures
        r == spaces_end(s@, i as int),
        i <= r <= s@.len(),
{
    let mut j = i;
    while j < s.len() && is_space_exec(s[j])
        invariant
            i <= j <= s@.len(),
            spaces_end(s@, i as int) == spaces_end(s@, j as int),
        decreases s@.len() - j,
    {
        j += 1;
    }
    j
}

fn quote_end_exec(s: &[u8], i: usize) -> (r: usize)
    requires
        i <= s@.len(),
    ensures
        r == quote_end(s@, i as int),
        i <= r <= s@.len(),
{
    let mut j = i;
    while j < s.len() && s[j] != 0x22
        invariant
            i <= j <= s@.len(),
            quote_end(s@, i as int) == quote_end(s@, j as int),
        decreases s@.len() - j,
    {
        j += 1;
    }
    j
}

fn bare_end_exec(s: &[u8], i: usize) -> (r: usize)
    requires
        i <= s@.len(),
    ensures
        r == bare_end(s@, i as int),
        i <= r <= s@.len(),
{
    let mut j = i;
    while j < s.len() && !(s[j] == 0x20 || s[j] == 0x09 || s[j] == 0x22)
        invariant
            i <= j <= s@.len(),
            bare_end(s@, i as int) == bare_end(s@, j as int),
        decreases s@.len() - j,
    {
        j += 1;
    }
    j
}

fn param_at_exec(s: &[u8], i: usize) -> (r: (usize, usize, usize))
    requires
        i < s@.len(),
        s@[i as int] != 0x20 && s@[i as int] != 0x09,
    ensures
        r.0 as int == param_at(s@, i as int).0,
        r.1 as int == param_at(s@, i as int).1,
        r.2 as int == param_at(s@, i as int).2,
        i <= r.0 <= r.1 <= r.2 <= s@.len(),
        i < r.2,
{
    proof {
        lemma_ends(s@, i as int);
        lemma_ends(s@, i + 1);
    }
    if s[i] == 0x22 {
        let e = quote_end_exec(s, i + 1);
        (i + 1, e, if e < s.len() {
            e + 1
        } else {
            e
        })
    } else {
        let e = bare_end_exec(s, i);
        (i, e, e)
    }
}

/// A copy of `s[a..b]`.
pub fn sub_copy(s: &[u8], a: usize, b: usize) -> (r: Vec<u8>)
    requires
        a <= b <= s@.len(),
    ensures
        r@ == s@.subrange(a as int, b as int),
{
    let mut r: Vec<u8> = Vec::new();
    let mut j = a;
    while j < b
        invariant
            a <= j <= b <= s@.len(),
            r@ == s@.subrange(a as int, j as int),
        decreases b - j,
    {
        r.push(s[j]);
        j += 1;
        assert(r@ =~= s@.subrange(a as int, j as int));
    }
    r
}

/// The parameter list that starts at `i`, and where it ends.
fn list_from_exec(s: &[u8], i: usize) -> (r: (Vec<Vec<u8>>, usize))
    requires
        i <= s@.len(),
    ensures
        views(r.0@) == list_from(s@, i as int).0,
        r.1 as int == list_from(s@, i as int).1,
        r.1 <= s@.len(),
{
    let mut acc: Vec<Vec<u8>> = Vec::new();
    let mut j = i;
    loop
        invariant
            i <= j <= s@.len(),
            list_from(s@, i as int).0 == views(acc@) + list_from(s@, j as int).0,
            list_from(s@, i as int).1 == list_from(s@, j as int).1,
        decreases s@.len() - j,
    {
        if !(j < s.len() && s[j] != 0x20 && s[j] != 0x09) {
            assert(views(acc@) + Seq::<Seq<u8>>::empty() =~= views(acc@));
            return (acc, j);
        }
        let (a, b, k) = param_at_exec(s, j);
        let p = sub_copy(s, a, b);
        let ghost old_acc = acc@;
        acc.push(p);
        assert(views(acc@) =~= views(old_acc) + seq![p@]);
        if k < s.len() && is_space_exec(s[k]) {
            let m = spaces_end_exec(s, k);
            if m < s.len() {
                proof {
                    lemma_ends(s@, k as int);
                }
                assert(list_from(s@, i as int).0 =~= views(acc@) + list_from(s@, m as int).0);
                j = m;
                continue;
            }
        }
        assert(list_from(s@, i as int).0 =~= views(acc@));
        return (acc, k);
    }
}

/// The verb at the start of `input` (after `/`): the rest, and the letters.
pub fn command(input: &[u8]) -> (r: Option<(Vec<u8>, Vec<u8>)>)
    ensures
        r.is_some() == (input@.len() > 0 && input@[0] == 0x2f),
        r.is_some() ==> r.unwrap().1@ == input@.subrange(1, letters_end(input@, 1))
            && r.unwrap().0@ == input@.subrange(letters_end(input@, 1), input@.len() as int),
{
    if input.len() == 0 || input[0] != 0x2f {
        return None;
    }
    let v = letters_end_exec(input, 1);
    Some((sub_copy(input, v, input.len()), sub_copy(input, 1, v)))
}

/// A parameter in double quotes at the start of `input`: the rest, and the
/// value (up to the next `"` or the end).
pub fn quoted_param(input: &[u8]) -> (r: Option<(Vec<u8>, Vec<u8>)>)
    ensures
        r.is_some() == (input@.len() > 0 && input@[0] == 0x22),
        r.is_some() ==> ({
            let (a, b, k) = param_at(input@, 0);
            r.unwrap().1@ == input@.subrange(a, b) && r.unwrap().0@ == input@.subrange(
                k,
                input@.len() as int,
            )
        }),
{
    if input.len() == 0 || input[0] != 0x22 {
        return None;
    }
    let (a, b, k) = param_at_exec(input, 0);
    Some((sub_copy(input, k, input.len()), sub_copy(input, a, b)))
}

/// A bare parameter at the start of `input`: the rest, and the value (up to a
/// space, tab or `"`); `None` where it would be empty.
pub fn unquoted_param(input: &[u8]) -> (r: Option<(Vec<u8>, Vec<u8>)>)
    ensures
        r.is_some() == (bare_end(input@, 0) > 0),
        r.is_some() ==> r.unwrap().1@ == input@.subrange(0, bare_end(input@, 0))
            && r.unwrap().0@ == input@.subrange(bare_end(input@, 0), input@.len() as int),
{
    let e = bare_end_exec(input, 0);
    if e == 0 {
        return None;
    }
    Some((sub_copy(input, e, input.len()), sub_copy(input, 0, e)))
}

/// The whitespace-separated parameters at the start of `input`: the rest, and
/// the values.
pub fn param_list(input: &[u8]) -> (r: (Vec<u8>, Vec<Vec<u8>>))
    ensures
        views(r.1@) == list_from(input@, 0).0,
        r.0@ == input@.subrange(list_from(input@, 0).1, input@.len() as int),
{
    let (ps, e) = list_from_exec(input, 0);
    (sub_copy(input, e, input.len()), ps)
}

/// Parses a command line (without its NUL terminator).
pub fn try_parse_raw_command(input: &[u8]) -> (r: Option<RawCommand>)
    ensures
        r.is_some() == parse_line(input@).is_some(),
        r.is_some() ==> r.unwrap().view_pair() == parse_line(input@).unwrap(),
{
    if input.len() == 0 {
        return None;
    }
    let vs: usize = if input[0] == 0x2f { 1 } else { 0 };
    let v = letters_end_exec(input, vs);
    if vs == 0 && v == 0 {
        return None;
    }
    let verb_raw = sub_copy(input, vs, v);
    let verb = to_lower(verb_raw.as_slice());
    let (ps, e) = if v < input.len() && is_space_exec(input[v]) {
        let m = spaces_end_exec(input, v);
        list_from_exec(input, m)
    } else {
        proof {
            lemma_ends(input@, vs as int);
        }
        (Vec::new(), v)
    };
    proof {
        lemma_ends(input@, vs as int);
        if v < input@.len() && is_space(input@[v as int]) {
            lemma_ends(input@, v as int);
        }
    }
    if spaces_end_exec(input, e) == input.len() {
        assert(views(ps@) =~= parse_line(input@).unwrap().1);
        Some(RawCommand { command: verb, params: ps })
    } else {
        None
    }
}

} // verus!
