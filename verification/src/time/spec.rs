//! Time specs: `<hours>:<minutes>:<seconds>`, each component one of
//! `HH`/`MM`/`SS` (for each), `_` (as is), `nH`/`nM`/`nS` (every n) or a
//! number (at).

use vstd::prelude::*;

use crate::error::{Error, Result};
use crate::text::{self, push_decimal, push_padded, scan_number};

verus! {

/// How one time component advances on each tick.
#[derive(Debug, PartialEq, Eq, Structural, Hash, Clone, Copy)]
pub enum Cycle {
    /// `_`: keep the current value.
    AsIs,
    /// `HH` / `MM` / `SS`: advance by one unit when this is the finest such
    /// component and nothing advances by `Every`.
    ForEach,
    /// `09`: pin the component to this value.
    At(u8),
    /// `1H`: add this many units on each tick.
    Every(u8),
}

impl Default for Cycle {
    fn default() -> (r: Cycle)
        ensures
            r == Cycle::AsIs,
    {
        Cycle::AsIs
    }
}

/// A parsed time spec.
#[derive(Debug, PartialEq, Eq, Structural, Clone, Copy)]
pub struct Spec {
    pub hours: Cycle,
    pub minutes: Cycle,
    pub seconds: Cycle,
}

impl Default for Spec {
    fn default() -> (r: Spec)
        ensures
            r == (Spec { hours: Cycle::AsIs, minutes: Cycle::AsIs, seconds: Cycle::AsIs }),
    {
        Spec { hours: Cycle::AsIs, minutes: Cycle::AsIs, seconds: Cycle::AsIs }
    }
}

pub open spec fn letter_h() -> u8 {
    72
}

pub open spec fn letter_m() -> u8 {
    77
}

pub open spec fn letter_s() -> u8 {
    83
}

/// The component of a time spec that leads `s`, for the unit whose letter
/// is `letter`, and the number of bytes it takes.
pub open spec fn cycle_prefix(s: Seq<u8>, letter: u8) -> Option<(Cycle, nat)> {
    if s.len() >= 2 && s[0] == letter && s[1] == letter {
        Some((Cycle::ForEach, 2))
    } else if s.len() >= 1 && s[0] == 95 {
        Some((Cycle::AsIs, 1))
    } else {
        match text::leading_number(s, 255) {
            Some((n, k)) => if n > 0 && k < s.len() && s[k as int] == letter {
                Some((Cycle::Every(n as u8), k + 1))
            } else {
                Some((Cycle::At(n as u8), k))
            },
            None => None,
        }
    }
}

/// The time spec that the text `s` denotes, if any.
pub open spec fn parse_time_text(s: Seq<u8>) -> Option<Spec> {
    match cycle_prefix(s, letter_h()) {
        None => None,
        Some((h, k1)) => {
            let s1 = s.skip(k1 as int);
            if s1.len() == 0 || s1[0] != 58 {
                None
            } else {
                match cycle_prefix(s1.skip(1), letter_m()) {
                    None => None,
                    Some((m, k2)) => {
                        let s2 = s1.skip(1).skip(k2 as int);
                        if s2.len() == 0 || s2[0] != 58 {
                            None
                        } else {
                            match cycle_prefix(s2.skip(1), letter_s()) {
                                None => None,
                                Some((sec, k3)) => if k3 == s2.skip(1).len() {
                                    Some(Spec { hours: h, minutes: m, seconds: sec })
                                } else {
                                    None
                                },
                            }
                        }
                    },
                }
            }
        },
    }
}

/// Text of one component.
pub open spec fn cycle_text(c: Cycle, letter: u8) -> Seq<u8> {
    match c {
        Cycle::AsIs => seq![95u8],
        Cycle::ForEach => seq![letter, letter],
        Cycle::At(n) => text::padded_text(n as nat),
        Cycle::Every(n) => text::decimal_text(n as nat).push(letter),
    }
}

/// Text of a time spec.
pub open spec fn time_text(sp: Spec) -> Seq<u8> {
    cycle_text(sp.hours, letter_h()) + seq![58u8] + cycle_text(sp.minutes, letter_m()) + seq![
        58u8,
    ] + cycle_text(sp.seconds, letter_s())
}

/// An `Every` component counts at least one unit.
pub open spec fn every_positive(c: Cycle) -> bool {
    match c {
        Cycle::Every(n) => n > 0,
        _ => true,
    }
}

/// Every `At` component names a time of day (hours below 24, minutes and
/// seconds below 60).
pub open spec fn clock_valid(sp: Spec) -> bool {
    &&& (sp.hours matches Cycle::At(h) ==> h < 24)
    &&& (sp.minutes matches Cycle::At(m) ==> m < 60)
    &&& (sp.seconds matches Cycle::At(s) ==> s < 60)
}

/// The text of the failure of parsing `input`.
pub open spec fn failure_text(input: Seq<char>) -> Seq<char> {
    "failed to parse: "@ + input
}

/// The message for a spec that does not parse.
pub fn failure_message(input: &str) -> (r: String)
    ensures
        r@ == failure_text(input@),
{
    let mut m = String::from_str("failed to parse: ");
    m.append(input);
    m
}

fn parse_cycle(s: &[u8], pos: usize, letter: u8) -> (r: Option<(Cycle, usize)>)
    requires
        pos <= s@.len(),
    ensures
        r matches Some((c, k)) ==> cycle_prefix(s@.skip(pos as int), letter) == Some((c, k as nat))
            && pos + k <= s@.len(),
        r is None ==> cycle_prefix(s@.skip(pos as int), letter) is None,
{
    let ghost t = s@.skip(pos as int);
    let len = s.len();
    if len - pos >= 2 && s[pos] == letter && s[pos + 1] == letter {
        return Some((Cycle::ForEach, 2));
    }
    if len - pos >= 1 && s[pos] == 95 {
        return Some((Cycle::AsIs, 1));
    }
    let (v, k) = scan_number(s, pos, 255);
    if k == 0 {
        return None;
    }
    match v {
        None => None,
        Some(n) => {
            if n > 0 && pos + k < len && s[pos + k] == letter {
                Some((Cycle::Every(n as u8), k + 1))
            } else {
                Some((Cycle::At(n as u8), k))
            }
        },
    }
}

impl Spec {
    /// The time spec that the bytes denote.
    pub fn parse_bytes(s: &[u8]) -> (r: Option<Spec>)
        ensures
            r == parse_time_text(s@),
    {
        let ghost t = s@;
        let (h, k1) = match parse_cycle(s, 0, 72) {
            Some(x) => x,
            None => {
                assert(t.skip(0) =~= t);
                return None;
            },
        };
        assert(t.skip(0) =~= t);
        let p1 = k1;
        if p1 >= s.len() || s[p1] != 58 {
            return None;
        }
        proof {
            assert(t.skip(k1 as int).skip(1) =~= t.skip(p1 + 1));
        }
        let (m, k2) = match parse_cycle(s, p1 + 1, 77) {
            Some(x) => x,
            None => {
                return None;
            },
        };
        let p2 = p1 + 1 + k2;
        proof {
            assert(t.skip(k1 as int).skip(1).skip(k2 as int) =~= t.skip(p2 as int));
        }
        if p2 >= s.len() || s[p2] != 58 {
            return None;
        }
        proof {
            assert(t.skip(p2 as int).skip(1) =~= t.skip(p2 + 1));
        }
        let (sec, k3) = match parse_cycle(s, p2 + 1, 83) {
            Some(x) => x,
            None => {
                return None;
            },
        };
        if p2 + 1 + k3 == s.len() {
            Some(Spec { hours: h, minutes: m, seconds: sec })
        } else {
            None
        }
    }

    /// Parses a time spec.
    pub fn parse(input: &str) -> (r: Result<Spec>)
        ensures
            r matches Ok(sp) ==> parse_time_text(vstd::utf8::encode_utf8(input@)) == Some(sp),
            r is Err <==> parse_time_text(vstd::utf8::encode_utf8(input@)) is None,
            r matches Err(e) ==> e matches Error::InvalidTimeSpec(m) && m@ == failure_text(input@),
    {
        match Self::parse_bytes(input.as_bytes()) {
            Some(sp) => Ok(sp),
            None => Err(Error::InvalidTimeSpec(failure_message(input))),
        }
    }

    /// Whether every `At` component names a time of day.
    pub fn is_clock_valid(&self) -> (r: bool)
        ensures
            r == clock_valid(*self),
    {
        let h = match self.hours {
            Cycle::At(h) => h < 24,
            _ => true,
        };
        let m = match self.minutes {
            Cycle::At(m) => m < 60,
            _ => true,
        };
        let s = match self.seconds {
            Cycle::At(s) => s < 60,
            _ => true,
        };
        h && m && s
    }

    /// Text of the spec; parsing it gives the spec back (see
    /// [`law_time_spec_round_trip`]).
    pub fn text(&self) -> (r: Vec<u8>)
        ensures
            r@ == time_text(*self),
    {
        let mut out: Vec<u8> = Vec::new();
        push_cycle(&mut out, &self.hours, 72);
        out.push(58);
        push_cycle(&mut out, &self.minutes, 77);
        out.push(58);
        push_cycle(&mut out, &self.seconds, 83);
        proof {
            assert(out@ =~= time_text(*self));
        }
        out
    }

    /// The spec as a string, such as `HH:30M:05`.
    pub fn to_string(&self) -> (r: String)
        ensures
            r@ == text::text_chars(time_text(*self)),
    {
        let bytes = self.text();
        proof {
            lemma_time_text_ascii(*self);
        }
        text::ascii_to_string(bytes)
    }
}

fn push_cycle(out: &mut Vec<u8>, c: &Cycle, letter: u8)
    ensures
        final(out)@ == old(out)@ + cycle_text(*c, letter),
{
    match c {
        Cycle::AsIs => {
            out.push(95);
            proof {
                assert(final(out)@ =~= old(out)@ + cycle_text(*c, letter));
            }
        },
        Cycle::ForEach => {
            out.push(letter);
            out.push(letter);
            proof {
                assert(final(out)@ =~= old(out)@ + cycle_text(*c, letter));
            }
        },
        Cycle::At(n) => {
            push_padded(out, *n as u32);
        },
        Cycle::Every(n) => {
            push_decimal(out, *n as u32);
            out.push(letter);
            proof {
                assert(final(out)@ =~= old(out)@ + cycle_text(*c, letter));
            }
        },
    }
}

/// The text of a component, followed by nothing or by `:`, parses back
/// to that component.
proof fn lemma_cycle_round_trip(c: Cycle, letter: u8, rest: Seq<u8>)
    requires
        letter == letter_h() || letter == letter_m() || letter == letter_s(),
        rest.len() == 0 || rest[0] == 58,
        every_positive(c),
    ensures
        cycle_prefix(cycle_text(c, letter) + rest, letter) == Some((c, cycle_text(c, letter).len())),
{
    let t = cycle_text(c, letter);
    let s = t + rest;
    match c {
        Cycle::AsIs => {
            assert(s[0] == 95u8);
        },
        Cycle::ForEach => {
            assert(s[0] == letter && s[1] == letter);
        },
        Cycle::At(n) => {
            text::lemma_padded_text(n as nat);
            text::lemma_leading_number(t, rest, 255);
            assert(s[0] == t[0]);
            if t.len() < s.len() {
                assert(s[t.len() as int] == rest[0]);
            }
        },
        Cycle::Every(n) => {
            let d = text::decimal_text(n as nat);
            text::lemma_decimal_text(n as nat);
            let tail = seq![letter] + rest;
            assert(s =~= d + tail);
            text::lemma_leading_number(d, tail, 255);
            assert(s[0] == d[0]);
            assert(s[d.len() as int] == letter);
        },
    }
}

/// Parsing the text of a time spec gives the spec back, when no component
/// is `Every(0)` (whose text `0H` does not parse).
pub proof fn law_time_spec_round_trip(sp: Spec)
    requires
        every_positive(sp.hours),
        every_positive(sp.minutes),
        every_positive(sp.seconds),
    ensures
        parse_time_text(time_text(sp)) == Some(sp),
{
    let th = cycle_text(sp.hours, letter_h());
    let tm = cycle_text(sp.minutes, letter_m());
    let ts = cycle_text(sp.seconds, letter_s());
    let s = time_text(sp);
    let r1 = seq![58u8] + tm + seq![58u8] + ts;
    assert(s =~= th + r1);
    lemma_cycle_round_trip(sp.hours, letter_h(), r1);
    let s1 = s.skip(th.len() as int);
    assert(s1 =~= r1);
    let r2 = seq![58u8] + ts;
    assert(s1.skip(1) =~= tm + r2);
    lemma_cycle_round_trip(sp.minutes, letter_m(), r2);
    let s2 = s1.skip(1).skip(tm.len() as int);
    assert(s2 =~= r2);
    assert(s2.skip(1) =~= ts + Seq::<u8>::empty());
    lemma_cycle_round_trip(sp.seconds, letter_s(), Seq::<u8>::empty());
}

/// Parsing the string of a time spec (see `Spec::to_string`) gives the
/// spec back, when no component is `Every(0)`.
pub proof fn law_time_spec_string_round_trip(sp: Spec)
    requires
        every_positive(sp.hours),
        every_positive(sp.minutes),
        every_positive(sp.seconds),
    ensures
        parse_time_text(vstd::utf8::encode_utf8(text::text_chars(time_text(sp)))) == Some(sp),
{
    lemma_time_text_ascii(sp);
    text::lemma_ascii_encode(time_text(sp));
    law_time_spec_round_trip(sp);
}

proof fn lemma_cycle_text_ascii(c: Cycle, letter: u8)
    requires
        letter < 128,
    ensures
        text::is_ascii_text(cycle_text(c, letter)),
{
    match c {
        Cycle::At(n) => {
            text::lemma_padded_text(n as nat);
        },
        Cycle::Every(n) => {
            text::lemma_decimal_text(n as nat);
        },
        _ => {},
    }
}

proof fn lemma_time_text_ascii(sp: Spec)
    ensures
        text::is_ascii_text(time_text(sp)),
{
    lemma_cycle_text_ascii(sp.hours, 72);
    lemma_cycle_text_ascii(sp.minutes, 77);
    lemma_cycle_text_ascii(sp.seconds, 83);
}


impl core::str::FromStr for Spec {
    type Err = Error;

    fn from_str(s: &str) -> (r: Result<Spec>)
        ensures
            r matches Ok(sp) ==> parse_time_text(vstd::utf8::encode_utf8(s@)) == Some(sp),
            r is Err <==> parse_time_text(vstd::utf8::encode_utf8(s@)) is None,
            r matches Err(e) ==> (e matches Error::InvalidTimeSpec(m) && m@ == failure_text(s@)),
    {
        Spec::parse(s)
    }
}

} // verus!
