//! Date-time specs: `<date_spec>T<time_spec>`.

use vstd::prelude::*;

use crate::date::spec::byte_at;
use crate::error::{Error, Result};
use crate::text::{self, is_digit};

verus! {

/// A date spec and a time spec, as text.
#[derive(Debug, Clone)]
pub struct Spec {
    pub date_spec: String,
    pub time_spec: String,
}

/// A digit from 0 to 2.
pub open spec fn is_low_digit(b: u8) -> bool {
    48 <= b <= 50
}

/// What may follow the `T` of a separator: `HH:`, `_:`, one or two digits
/// then `H:`, or an hour of at most two digits (the first 0 to 2) then `:`.
pub open spec fn time_head_at(s: Seq<u8>, p: int) -> bool {
    ||| byte_at(s, p, 72) && byte_at(s, p + 1, 72) && byte_at(s, p + 2, 58)
    ||| byte_at(s, p, 95) && byte_at(s, p + 1, 58)
    ||| 0 <= p < s.len() && is_digit(s[p]) && byte_at(s, p + 1, 72) && byte_at(s, p + 2, 58)
    ||| 0 <= p + 1 < s.len() && is_digit(s[p]) && is_digit(s[p + 1]) && byte_at(s, p + 2, 72)
        && byte_at(s, p + 3, 58)
    ||| 0 <= p < s.len() && is_digit(s[p]) && byte_at(s, p + 1, 58)
    ||| 0 <= p + 1 < s.len() && is_low_digit(s[p]) && is_digit(s[p + 1]) && byte_at(s, p + 2, 58)
}

/// A separator `T` stands at `i`: a `T` that a time spec follows (so the
/// `T` of `TUE` or `THU` is none).
pub open spec fn separator_at(s: Seq<u8>, i: int) -> bool {
    byte_at(s, i, 84) && time_head_at(s, i + 1)
}

/// No separator stands before `i`.
pub open spec fn no_separator_before(s: Seq<u8>, i: int) -> bool {
    forall|j: int| 0 <= j < i ==> !#[trigger] separator_at(s, j)
}

/// The first separator of `s` stands at `i`.
pub open spec fn first_separator_at(s: Seq<u8>, i: int) -> bool {
    0 <= i < s.len() && separator_at(s, i) && no_separator_before(s, i)
}

fn time_head(s: &[u8], p: usize) -> (r: bool)
    requires
        p <= s@.len(),
    ensures
        r == time_head_at(s@, p as int),
{
    let len = s.len();
    let n = len - p;
    let d0 = n >= 1 && s[p] >= 48 && s[p] <= 57;
    let d1 = n >= 2 && s[p + 1] >= 48 && s[p + 1] <= 57;
    let low0 = n >= 1 && s[p] >= 48 && s[p] <= 50;
    (n >= 3 && s[p] == 72 && s[p + 1] == 72 && s[p + 2] == 58) || (n >= 2 && s[p] == 95 && s[p
        + 1] == 58) || (d0 && n >= 3 && s[p + 1] == 72
        && s[p + 2] == 58) || (d0 && d1 && n >= 4 && s[p + 2] == 72 && s[p + 3] == 58) || (d0
        && n >= 2 && s[p + 1] == 58) || (low0 && d1 && n >= 3 && s[p + 2] == 58)
}

/// Position of the first separator, if any.
pub fn find_separator(s: &[u8]) -> (r: Option<usize>)
    ensures
        r matches Some(i) ==> i < s@.len() && separator_at(s@, i as int) && no_separator_before(
            s@,
            i as int,
        ),
        r is None ==> no_separator_before(s@, s@.len() as int),
{
    let mut i: usize = 0;
    while i < s.len()
        invariant
            0 <= i <= s@.len(),
            no_separator_before(s@, i as int),
        decreases s@.len() - i,
    {
        if s[i] == 84 && time_head(s, i + 1) {
            return Some(i);
        }
        i = i + 1;
    }
    None
}

/// Encoding two texts one after the other encodes each in turn.
proof fn lemma_encode_append(a: Seq<char>, c: Seq<char>)
    ensures
        vstd::utf8::encode_utf8(a + c) == vstd::utf8::encode_utf8(a) + vstd::utf8::encode_utf8(c),
    decreases a.len(),
{
    if a.len() == 0 {
        assert(a + c =~= c);
        assert(vstd::utf8::encode_utf8(a) =~= Seq::<u8>::empty());
        assert(vstd::utf8::encode_utf8(a) + vstd::utf8::encode_utf8(c) =~= vstd::utf8::encode_utf8(c));
    } else {
        assert((a + c)[0] == a[0]);
        assert((a + c).drop_first() =~= a.drop_first() + c);
        lemma_encode_append(a.drop_first(), c);
        assert(vstd::utf8::encode_utf8(a + c) =~= vstd::utf8::encode_scalar(a[0] as u32)
            + vstd::utf8::encode_utf8(a.drop_first() + c));
    }
}

/// The separator `T` encodes as its one byte.
proof fn lemma_encode_t()
    ensures
        vstd::utf8::encode_utf8(seq!['T']) == seq![84u8],
{
    let t = seq!['T'];
    assert(t.drop_first() =~= Seq::<char>::empty());
    assert(('T' as u32) == 84u32);
    assert(vstd::utf8::has_width_1_encoding(84u32));
    assert((84u32 & 0x7F) as u8 == 84u8) by (bit_vector);
    assert(vstd::utf8::encode_utf8(seq!['T']) =~= vstd::utf8::encode_scalar(84u32)
        + vstd::utf8::encode_utf8(Seq::<char>::empty()));
}

/// A time spec's text starts the way a separator's time part must: every
/// time spec whose hours are a time of day, `HH`, `_`, or a step of fewer
/// than a hundred hours (`1H` to `99H`) is recognised after a `T`.
pub proof fn law_time_text_heads_a_separator(sp: crate::time::spec::Spec)
    requires
        sp.hours matches crate::time::spec::Cycle::At(h) ==> h < 24,
        sp.hours matches crate::time::spec::Cycle::Every(n) ==> 0 < n < 100,
    ensures
        time_head_at(crate::time::spec::time_text(sp), 0),
{
    let t = crate::time::spec::time_text(sp);
    let h = crate::time::spec::cycle_text(sp.hours, 72);
    assert(t =~= h + (seq![58u8] + crate::time::spec::cycle_text(sp.minutes, 77) + seq![58u8]
        + crate::time::spec::cycle_text(sp.seconds, 83)));
    assert(t[h.len() as int] == 58u8);
    match sp.hours {
        crate::time::spec::Cycle::At(x) => {
            if x < 10 {
                assert(h =~= seq![48u8, (48 + x) as u8]);
            } else {
                let q = x / 10;
                assert(q < 10);
                assert(text::decimal_text((x / 10) as nat) =~= seq![(48 + q) as u8]);
                assert(h =~= seq![(48 + q) as u8, (48 + x % 10) as u8]);
                assert(is_low_digit(t[0]));
            }
        },
        crate::time::spec::Cycle::Every(n) => {
            if n < 10 {
                assert(text::decimal_text(n as nat) =~= seq![(48 + n) as u8]);
                assert(h =~= seq![(48 + n) as u8, 72u8]);
            } else {
                let q = n / 10;
                assert(text::decimal_text((n / 10) as nat) =~= seq![(48 + q) as u8]);
                assert(h =~= seq![(48 + q) as u8, (48 + n % 10) as u8, 72u8]);
            }
        },
        crate::time::spec::Cycle::ForEach => {
            assert(h =~= seq![72u8, 72u8]);
        },
        crate::time::spec::Cycle::AsIs => {
            assert(h =~= seq![95u8]);
        },
    }
}

/// A date-time spec written as a date spec, `T` and a time spec (as in the
/// previous law) is split at that `T` when the date spec holds no
/// separator: parsing it gives the date spec and the time spec back.
pub proof fn law_split_at_the_time_spec(d: Seq<u8>, sp: crate::time::spec::Spec)
    requires
        sp.hours matches crate::time::spec::Cycle::At(h) ==> h < 24,
        sp.hours matches crate::time::spec::Cycle::Every(n) ==> 0 < n < 100,
        no_separator_before(d + seq![84u8] + crate::time::spec::time_text(sp), d.len() as int),
    ensures
        first_separator_at(d + seq![84u8] + crate::time::spec::time_text(sp), d.len() as int),
{
    let t = crate::time::spec::time_text(sp);
    let s = d + seq![84u8] + t;
    law_time_text_heads_a_separator(sp);
    assert(s[d.len() as int] == 84u8);
    assert forall|k: int| 0 <= k < t.len() implies s[d.len() + 1 + k] == t[k] by {}
    assert(s.len() == d.len() + 1 + t.len());
    assert(time_head_at(s, d.len() as int + 1));
}

/// The `T` that begins the weekday name `TUE` or `THU` is never a
/// separator, whatever follows the name.
pub proof fn law_weekday_names_hold_no_separator(s: Seq<u8>, i: int)
    requires
        0 <= i,
        i + 3 <= s.len(),
        s[i] == 84u8,
        (s[i + 1] == 85u8 && s[i + 2] == 69u8) || (s[i + 1] == 72u8 && s[i + 2] == 85u8),
    ensures
        !separator_at(s, i),
{
}

impl Spec {
    /// Splits a date-time spec at its first separator `T`: the date spec
    /// before it, the time spec after it; the two with `T` between them
    /// are the text again.
    pub fn parse(input: &str) -> (r: Result<Spec>)
        ensures
            r is Err <==> no_separator_before(
                vstd::utf8::encode_utf8(input@),
                vstd::utf8::encode_utf8(input@).len() as int,
            ),
            r matches Err(e) ==> (e matches Error::ParseError(m) && m@ == "missing T separator in datetime spec"@),
            r matches Ok(sp) ==> exists|i: int|
                #[trigger] first_separator_at(vstd::utf8::encode_utf8(input@), i)
                    && vstd::utf8::encode_utf8(sp.date_spec@) == vstd::utf8::encode_utf8(
                    input@,
                ).subrange(0, i) && vstd::utf8::encode_utf8(sp.time_spec@)
                    == vstd::utf8::encode_utf8(input@).subrange(
                    i + 1,
                    vstd::utf8::encode_utf8(input@).len() as int,
                ),
            r matches Ok(sp) ==> sp.date_spec@ + seq!['T'] + sp.time_spec@ == input@,
    {
        let bytes = input.as_bytes();
        let len = bytes.len();
        let i = match find_separator(bytes) {
            Some(i) => i,
            None => return Err(Error::ParseError(String::from_str("missing T separator in datetime spec"))),
        };
        proof {
            let b = bytes@;
            vstd::utf8::encode_utf8_valid_utf8(input@);
            vstd::utf8::is_char_boundary_iff_is_leading_byte(b, i as int);
            vstd::utf8::is_char_boundary_start_end_of_seq(b);
            if i + 1 < len {
                vstd::utf8::is_char_boundary_iff_is_leading_byte(b, i + 1);
            }
        }
        let (head, _tail) = input.split_at(i);
        let (_front, rest) = input.split_at(i + 1);
        let date_spec = head.to_owned();
        let time_spec = rest.to_owned();
        assert(first_separator_at(bytes@, i as int));
        proof {
            let b = bytes@;
            let d = date_spec@;
            let t = time_spec@;
            lemma_encode_append(d, seq!['T']);
            lemma_encode_append(d + seq!['T'], t);
            lemma_encode_t();
            assert(b =~= b.subrange(0, i as int) + seq![84u8] + b.subrange(i + 1, b.len() as int));
            assert(vstd::utf8::encode_utf8(d + seq!['T'] + t) == b);
            vstd::utf8::encode_utf8_decode_utf8(d + seq!['T'] + t);
            vstd::utf8::encode_utf8_decode_utf8(input@);
        }
        Ok(Spec { date_spec, time_spec })
    }
}


impl core::str::FromStr for Spec {
    type Err = Error;

    fn from_str(s: &str) -> (r: Result<Spec>)
        ensures
            r is Err <==> no_separator_before(
                vstd::utf8::encode_utf8(s@),
                vstd::utf8::encode_utf8(s@).len() as int,
            ),
            r matches Err(e) ==> (e matches Error::ParseError(m) && m@ == "missing T separator in datetime spec"@),
            r matches Ok(sp) ==> exists|i: int|
                #[trigger] first_separator_at(vstd::utf8::encode_utf8(s@), i)
                    && vstd::utf8::encode_utf8(sp.date_spec@) == vstd::utf8::encode_utf8(s@).subrange(
                    0,
                    i,
                ) && vstd::utf8::encode_utf8(sp.time_spec@) == vstd::utf8::encode_utf8(s@).subrange(
                    i + 1,
                    vstd::utf8::encode_utf8(s@).len() as int,
                ),
            r matches Ok(sp) ==> sp.date_spec@ + seq!['T'] + sp.time_spec@ == s@,
    {
        Spec::parse(s)
    }
}

} // verus!
