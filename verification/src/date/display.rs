//! Writing date specs back as text.

use vstd::prelude::*;

use crate::biz_day::Direction;
use crate::calendar::WeekdayStartingMonday;
use crate::date::spec::{
    BizDayAdjustment, Cycle, DayCycle, LastDayOption, NextNthDayOption, Spec, WeekdayOption,
};
use crate::text::{self, decimal_text, is_ascii_text, padded_text, push_decimal, push_padded};

verus! {

/// A number written plainly or with at least two digits.
pub open spec fn number_text(n: u32, padded: bool) -> Seq<u8> {
    if padded {
        padded_text(n as nat)
    } else {
        decimal_text(n as nat)
    }
}

/// Numbers joined by commas.
pub open spec fn joined_numbers(s: Seq<u32>, padded: bool) -> Seq<u8>
    decreases s.len(),
{
    if s.len() == 0 {
        Seq::empty()
    } else if s.len() == 1 {
        number_text(s[0], padded)
    } else {
        joined_numbers(s.drop_last(), padded) + seq![44u8] + number_text(s.last(), padded)
    }
}

/// Text of a years (`is_year`) or months component.
pub open spec fn cycle_display_text(c: Cycle, is_year: bool) -> Seq<u8> {
    match c {
        Cycle::AsIs => seq![95u8],
        Cycle::ForEach => if is_year {
            seq![89u8, 89u8]
        } else {
            seq![77u8, 77u8]
        },
        Cycle::Values(v) => if v@.len() == 1 {
            number_text(v@[0], !is_year)
        } else {
            seq![91u8] + joined_numbers(v@, !is_year) + seq![93u8]
        },
        Cycle::NextNth(n) => decimal_text(n as nat) + if is_year {
            seq![89u8]
        } else {
            seq![77u8]
        },
    }
}

/// Three-letter name of the weekday of index `i` from Monday.
pub open spec fn weekday_name(i: int) -> Seq<u8> {
    if i == 0 {
        seq![77u8, 79u8, 78u8]
    } else if i == 1 {
        seq![84u8, 85u8, 69u8]
    } else if i == 2 {
        seq![87u8, 69u8, 68u8]
    } else if i == 3 {
        seq![84u8, 72u8, 85u8]
    } else if i == 4 {
        seq![70u8, 82u8, 73u8]
    } else if i == 5 {
        seq![83u8, 65u8, 84u8]
    } else {
        seq![83u8, 85u8, 78u8]
    }
}

/// Weekday names joined by commas.
pub open spec fn joined_weekdays(s: Seq<WeekdayStartingMonday>) -> Seq<u8>
    decreases s.len(),
{
    if s.len() == 0 {
        Seq::empty()
    } else if s.len() == 1 {
        weekday_name(s[0].0.index())
    } else {
        joined_weekdays(s.drop_last()) + seq![44u8] + weekday_name(s.last().0.index())
    }
}

pub open spec fn last_day_suffix(o: LastDayOption) -> Seq<u8> {
    match o {
        LastDayOption::LastDay => seq![76u8],
        LastDayOption::NextMonthFirstDay => seq![78u8],
        LastDayOption::NextMonthOverflow => seq![79u8],
        LastDayOption::NA => Seq::empty(),
    }
}

pub open spec fn weekday_option_suffix(o: WeekdayOption) -> Seq<u8> {
    match o {
        WeekdayOption::Starting(Some(n)) => seq![35u8] + decimal_text(n as nat),
        WeekdayOption::Ending(None) => seq![35u8, 76u8],
        WeekdayOption::Ending(Some(n)) => seq![35u8] + decimal_text(n as nat) + seq![76u8],
        _ => Seq::empty(),
    }
}

pub open spec fn step_suffix(o: NextNthDayOption) -> Seq<u8> {
    match o {
        NextNthDayOption::BizDay => seq![66u8, 68u8],
        NextNthDayOption::WeekDay => seq![87u8, 68u8],
        NextNthDayOption::Regular => seq![68u8],
    }
}

/// Text of a day component.
pub open spec fn day_display_text(d: DayCycle) -> Seq<u8> {
    match d {
        DayCycle::AsIs => seq![95u8],
        DayCycle::ForEach => seq![68u8, 68u8],
        DayCycle::NextNth(n, o) => decimal_text(n as nat) + step_suffix(o),
        DayCycle::OnDays { days, option } => if days@.len() == 0 && option
            == LastDayOption::LastDay {
            seq![76u8]
        } else if days@.len() == 1 {
            padded_text(days@[0] as nat) + last_day_suffix(option)
        } else {
            seq![91u8] + joined_numbers(days@, true) + seq![93u8]
        },
        DayCycle::OnWeekDays { weekdays, option } => if weekdays@.len() == 1 {
            weekday_name(weekdays@[0].0.index()) + weekday_option_suffix(option)
        } else {
            seq![91u8] + joined_weekdays(weekdays@) + seq![93u8]
        },
    }
}

pub open spec fn direction_letter(d: Direction) -> Seq<u8> {
    match d {
        Direction::Next => seq![78u8],
        Direction::Prev => seq![80u8],
        Direction::Nearest => Seq::empty(),
    }
}

/// Text of an adjustment (empty for `NA`).
pub open spec fn adjustment_text(a: BizDayAdjustment) -> Seq<u8> {
    match a {
        BizDayAdjustment::NA => Seq::empty(),
        BizDayAdjustment::BizDay(d) => seq![126u8] + direction_letter(d) + seq![66u8],
        BizDayAdjustment::Weekday(d) => seq![126u8] + direction_letter(d) + seq![87u8],
        BizDayAdjustment::Next(n) => seq![126u8] + decimal_text(n as nat) + seq![78u8],
        BizDayAdjustment::Prev(n) => seq![126u8] + decimal_text(n as nat) + seq![80u8],
    }
}

/// Text of a date spec.
pub open spec fn spec_display_text(sp: Spec) -> Seq<u8> {
    cycle_display_text(sp.years, true) + seq![45u8] + cycle_display_text(sp.months, false) + seq![
        45u8,
    ] + day_display_text(sp.days) + match sp.biz_day_adj {
        Some(a) => adjustment_text(a),
        None => Seq::empty(),
    }
}

fn push_number(out: &mut Vec<u8>, n: u32, padded: bool)
    ensures
        final(out)@ == old(out)@ + number_text(n, padded),
{
    if padded {
        push_padded(out, n);
    } else {
        push_decimal(out, n);
    }
}

fn push_joined_numbers(out: &mut Vec<u8>, v: &Vec<u32>, padded: bool)
    ensures
        final(out)@ == old(out)@ + joined_numbers(v@, padded),
{
    let mut i: usize = 0;
    while i < v.len()
        invariant
            0 <= i <= v@.len(),
            out@ == old(out)@ + joined_numbers(v@.take(i as int), padded),
        decreases v@.len() - i,
    {
        if i > 0 {
            out.push(44);
        }
        push_number(out, v[i], padded);
        proof {
            let t = v@.take(i + 1);
            assert(t.drop_last() =~= v@.take(i as int));
            if i == 0 {
                assert(v@.take(0) =~= Seq::<u32>::empty());
            }
            assert(out@ =~= old(out)@ + joined_numbers(t, padded));
        }
        i = i + 1;
    }
    assert(v@.take(v@.len() as int) =~= v@);
}

fn push_weekday(out: &mut Vec<u8>, w: &WeekdayStartingMonday)
    ensures
        final(out)@ == old(out)@ + weekday_name(w.0.index()),
{
    let bytes: [u8; 3] = match w.0 {
        crate::calendar::Weekday::Mon => [77, 79, 78],
        crate::calendar::Weekday::Tue => [84, 85, 69],
        crate::calendar::Weekday::Wed => [87, 69, 68],
        crate::calendar::Weekday::Thu => [84, 72, 85],
        crate::calendar::Weekday::Fri => [70, 82, 73],
        crate::calendar::Weekday::Sat => [83, 65, 84],
        crate::calendar::Weekday::Sun => [83, 85, 78],
    };
    out.push(bytes[0]);
    out.push(bytes[1]);
    out.push(bytes[2]);
    proof {
        assert(final(out)@ =~= old(out)@ + weekday_name(w.0.index()));
    }
}

fn push_joined_weekdays(out: &mut Vec<u8>, v: &Vec<WeekdayStartingMonday>)
    ensures
        final(out)@ == old(out)@ + joined_weekdays(v@),
{
    let mut i: usize = 0;
    while i < v.len()
        invariant
            0 <= i <= v@.len(),
            out@ == old(out)@ + joined_weekdays(v@.take(i as int)),
        decreases v@.len() - i,
    {
        if i > 0 {
            out.push(44);
        }
        push_weekday(out, &v[i]);
        proof {
            let t = v@.take(i + 1);
            assert(t.drop_last() =~= v@.take(i as int));
            if i == 0 {
                assert(v@.take(0) =~= Seq::<WeekdayStartingMonday>::empty());
            }
            assert(out@ =~= old(out)@ + joined_weekdays(t));
        }
        i = i + 1;
    }
    assert(v@.take(v@.len() as int) =~= v@);
}

fn push_cycle(out: &mut Vec<u8>, c: &Cycle, is_year: bool)
    ensures
        final(out)@ == old(out)@ + cycle_display_text(*c, is_year),
{
    match c {
        Cycle::AsIs => {
            out.push(95);
        },
        Cycle::ForEach => {
            if is_year {
                out.push(89);
                out.push(89);
            } else {
                out.push(77);
                out.push(77);
            }
        },
        Cycle::Values(v) => {
            if v.len() == 1 {
                push_number(out, v[0], !is_year);
            } else {
                out.push(91);
                push_joined_numbers(out, v, !is_year);
                out.push(93);
            }
        },
        Cycle::NextNth(n) => {
            push_decimal(out, *n);
            if is_year {
                out.push(89);
            } else {
                out.push(77);
            }
        },
    }
    proof {
        assert(final(out)@ =~= old(out)@ + cycle_display_text(*c, is_year));
    }
}

fn push_day(out: &mut Vec<u8>, d: &DayCycle)
    ensures
        final(out)@ == old(out)@ + day_display_text(*d),
{
    match d {
        DayCycle::AsIs => {
            out.push(95);
        },
        DayCycle::ForEach => {
            out.push(68);
            out.push(68);
        },
        DayCycle::NextNth(n, o) => {
            push_decimal(out, *n);
            match o {
                NextNthDayOption::BizDay => {
                    out.push(66);
                    out.push(68);
                },
                NextNthDayOption::WeekDay => {
                    out.push(87);
                    out.push(68);
                },
                NextNthDayOption::Regular => {
                    out.push(68);
                },
            }
        },
        DayCycle::OnDays { days, option } => {
            if days.len() == 0 && matches!(option, LastDayOption::LastDay) {
                out.push(76);
            } else if days.len() == 1 {
                push_padded(out, days[0]);
                match option {
                    LastDayOption::LastDay => {
                        out.push(76);
                    },
                    LastDayOption::NextMonthFirstDay => {
                        out.push(78);
                    },
                    LastDayOption::NextMonthOverflow => {
                        out.push(79);
                    },
                    LastDayOption::NA => {},
                }
            } else {
                out.push(91);
                push_joined_numbers(out, days, true);
                out.push(93);
            }
        },
        DayCycle::OnWeekDays { weekdays, option } => {
            if weekdays.len() == 1 {
                push_weekday(out, &weekdays[0]);
                match option {
                    WeekdayOption::Starting(Some(n)) => {
                        out.push(35);
                        push_decimal(out, *n as u32);
                    },
                    WeekdayOption::Ending(None) => {
                        out.push(35);
                        out.push(76);
                    },
                    WeekdayOption::Ending(Some(n)) => {
                        out.push(35);
                        push_decimal(out, *n as u32);
                        out.push(76);
                    },
                    _ => {},
                }
            } else {
                out.push(91);
                push_joined_weekdays(out, weekdays);
                out.push(93);
            }
        },
    }
    proof {
        assert(final(out)@ =~= old(out)@ + day_display_text(*d));
    }
}

fn push_adjustment(out: &mut Vec<u8>, a: &BizDayAdjustment)
    ensures
        final(out)@ == old(out)@ + adjustment_text(*a),
{
    match a {
        BizDayAdjustment::NA => {},
        BizDayAdjustment::BizDay(d) | BizDayAdjustment::Weekday(d) => {
            out.push(126);
            match d {
                Direction::Next => {
                    out.push(78);
                },
                Direction::Prev => {
                    out.push(80);
                },
                Direction::Nearest => {},
            }
            if matches!(a, BizDayAdjustment::BizDay(_)) {
                out.push(66);
            } else {
                out.push(87);
            }
        },
        BizDayAdjustment::Next(n) => {
            out.push(126);
            push_decimal(out, *n);
            out.push(78);
        },
        BizDayAdjustment::Prev(n) => {
            out.push(126);
            push_decimal(out, *n);
            out.push(80);
        },
    }
    proof {
        assert(final(out)@ =~= old(out)@ + adjustment_text(*a));
    }
}

proof fn lemma_ascii_concat(a: Seq<u8>, b: Seq<u8>)
    requires
        is_ascii_text(a),
        is_ascii_text(b),
    ensures
        is_ascii_text(a + b),
{
    assert forall|i: int| 0 <= i < (a + b).len() implies #[trigger] (a + b)[i] < 128 by {
        if i < a.len() {
            assert((a + b)[i] == a[i]);
        } else {
            assert((a + b)[i] == b[i - a.len()]);
        }
    }
}

proof fn lemma_decimal_ascii(n: nat)
    ensures
        is_ascii_text(decimal_text(n)),
        is_ascii_text(padded_text(n)),
{
    text::lemma_decimal_text(n);
    text::lemma_padded_text(n);
    assert forall|i: int| 0 <= i < decimal_text(n).len() implies #[trigger] decimal_text(n)[i]
        < 128 by {
        assert(text::is_digit(decimal_text(n)[i]));
    }
    assert forall|i: int| 0 <= i < padded_text(n).len() implies #[trigger] padded_text(n)[i]
        < 128 by {
        assert(text::is_digit(padded_text(n)[i]));
    }
}

proof fn lemma_joined_numbers_ascii(s: Seq<u32>, padded: bool)
    ensures
        is_ascii_text(joined_numbers(s, padded)),
    decreases s.len(),
{
    if s.len() == 1 {
        lemma_decimal_ascii(s[0] as nat);
    } else if s.len() > 1 {
        lemma_joined_numbers_ascii(s.drop_last(), padded);
        lemma_decimal_ascii(s.last() as nat);
        lemma_ascii_concat(joined_numbers(s.drop_last(), padded), seq![44u8]);
        lemma_ascii_concat(
            joined_numbers(s.drop_last(), padded) + seq![44u8],
            number_text(s.last(), padded),
        );
    }
}

proof fn lemma_joined_weekdays_ascii(s: Seq<WeekdayStartingMonday>)
    ensures
        is_ascii_text(joined_weekdays(s)),
    decreases s.len(),
{
    if s.len() > 1 {
        lemma_joined_weekdays_ascii(s.drop_last());
        lemma_ascii_concat(joined_weekdays(s.drop_last()), seq![44u8]);
        lemma_ascii_concat(
            joined_weekdays(s.drop_last()) + seq![44u8],
            weekday_name(s.last().0.index()),
        );
    }
}

proof fn lemma_cycle_text_ascii(c: Cycle, is_year: bool)
    ensures
        is_ascii_text(cycle_display_text(c, is_year)),
{
    match c {
        Cycle::Values(v) => {
            if v@.len() == 1 {
                lemma_decimal_ascii(v@[0] as nat);
            } else {
                lemma_joined_numbers_ascii(v@, !is_year);
                lemma_ascii_concat(seq![91u8], joined_numbers(v@, !is_year));
                lemma_ascii_concat(seq![91u8] + joined_numbers(v@, !is_year), seq![93u8]);
            }
        },
        Cycle::NextNth(n) => {
            lemma_decimal_ascii(n as nat);
            lemma_ascii_concat(decimal_text(n as nat), seq![89u8]);
            lemma_ascii_concat(decimal_text(n as nat), seq![77u8]);
        },
        _ => {},
    }
}

proof fn lemma_day_text_ascii(d: DayCycle)
    ensures
        is_ascii_text(day_display_text(d)),
{
    match d {
        DayCycle::NextNth(n, o) => {
            lemma_decimal_ascii(n as nat);
            lemma_ascii_concat(decimal_text(n as nat), step_suffix(o));
        },
        DayCycle::OnDays { days, option } => {
            if days@.len() == 1 {
                lemma_decimal_ascii(days@[0] as nat);
                lemma_ascii_concat(padded_text(days@[0] as nat), last_day_suffix(option));
            } else {
                lemma_joined_numbers_ascii(days@, true);
                lemma_ascii_concat(seq![91u8], joined_numbers(days@, true));
                lemma_ascii_concat(seq![91u8] + joined_numbers(days@, true), seq![93u8]);
            }
        },
        DayCycle::OnWeekDays { weekdays, option } => {
            if weekdays@.len() == 1 {
                match option {
                    WeekdayOption::Starting(Some(n)) => {
                        lemma_decimal_ascii(n as nat);
                        lemma_ascii_concat(seq![35u8], decimal_text(n as nat));
                    },
                    WeekdayOption::Ending(Some(n)) => {
                        lemma_decimal_ascii(n as nat);
                        lemma_ascii_concat(seq![35u8], decimal_text(n as nat));
                        lemma_ascii_concat(seq![35u8] + decimal_text(n as nat), seq![76u8]);
                    },
                    _ => {},
                }
                lemma_ascii_concat(
                    weekday_name(weekdays@[0].0.index()),
                    weekday_option_suffix(option),
                );
            } else {
                lemma_joined_weekdays_ascii(weekdays@);
                lemma_ascii_concat(seq![91u8], joined_weekdays(weekdays@));
                lemma_ascii_concat(seq![91u8] + joined_weekdays(weekdays@), seq![93u8]);
            }
        },
        _ => {},
    }
}

proof fn lemma_adjustment_text_ascii(a: BizDayAdjustment)
    ensures
        is_ascii_text(adjustment_text(a)),
{
    match a {
        BizDayAdjustment::Next(n) | BizDayAdjustment::Prev(n) => {
            lemma_decimal_ascii(n as nat);
            lemma_ascii_concat(seq![126u8], decimal_text(n as nat));
            lemma_ascii_concat(seq![126u8] + decimal_text(n as nat), seq![78u8]);
            lemma_ascii_concat(seq![126u8] + decimal_text(n as nat), seq![80u8]);
        },
        BizDayAdjustment::BizDay(d) | BizDayAdjustment::Weekday(d) => {
            lemma_ascii_concat(seq![126u8], direction_letter(d));
            lemma_ascii_concat(seq![126u8] + direction_letter(d), seq![66u8]);
            lemma_ascii_concat(seq![126u8] + direction_letter(d), seq![87u8]);
        },
        _ => {},
    }
}

pub proof fn lemma_spec_text_ascii(sp: Spec)
    ensures
        is_ascii_text(spec_display_text(sp)),
{
    lemma_cycle_text_ascii(sp.years, true);
    lemma_cycle_text_ascii(sp.months, false);
    lemma_day_text_ascii(sp.days);
    let a = cycle_display_text(sp.years, true);
    let b = cycle_display_text(sp.months, false);
    let c = day_display_text(sp.days);
    lemma_ascii_concat(a, seq![45u8]);
    lemma_ascii_concat(a + seq![45u8], b);
    lemma_ascii_concat(a + seq![45u8] + b, seq![45u8]);
    lemma_ascii_concat(a + seq![45u8] + b + seq![45u8], c);
    match sp.biz_day_adj {
        Some(adj) => {
            lemma_adjustment_text_ascii(adj);
            lemma_ascii_concat(a + seq![45u8] + b + seq![45u8] + c, adjustment_text(adj));
        },
        None => {
            assert(spec_display_text(sp) =~= a + seq![45u8] + b + seq![45u8] + c);
        },
    }
}

impl WeekdayStartingMonday {
    /// Three-letter name of the weekday, such as `MON`.
    pub fn to_string(&self) -> (r: String)
        ensures
            r@ == text::text_chars(weekday_name(self.0.index())),
    {
        let mut out: Vec<u8> = Vec::new();
        push_weekday(&mut out, self);
        proof {
            assert(out@ =~= weekday_name(self.0.index()));
            assert(text::is_ascii_text(out@));
        }
        text::ascii_to_string(out)
    }
}

impl Cycle {
    /// Text of the component as years (`is_year`) or months: `_`, `YY`/`MM`,
    /// `2025` / `03` / `[01,04]`, `2Y`/`3M`.
    pub fn display(&self, is_year: bool) -> (r: String)
        ensures
            r@ == text::text_chars(cycle_display_text(*self, is_year)),
    {
        let mut out: Vec<u8> = Vec::new();
        push_cycle(&mut out, self, is_year);
        proof {
            lemma_cycle_text_ascii(*self, is_year);
            assert(out@ =~= cycle_display_text(*self, is_year));
        }
        text::ascii_to_string(out)
    }
}

impl DayCycle {
    /// Text of the day component.
    pub fn to_string(&self) -> (r: String)
        ensures
            r@ == text::text_chars(day_display_text(*self)),
    {
        let mut out: Vec<u8> = Vec::new();
        push_day(&mut out, self);
        proof {
            lemma_day_text_ascii(*self);
            assert(out@ =~= day_display_text(*self));
        }
        text::ascii_to_string(out)
    }
}

impl BizDayAdjustment {
    /// Text of the adjustment, such as `~NW` or `~2P` (empty for `NA`).
    pub fn to_string(&self) -> (r: String)
        ensures
            r@ == text::text_chars(adjustment_text(*self)),
    {
        let mut out: Vec<u8> = Vec::new();
        push_adjustment(&mut out, self);
        proof {
            lemma_adjustment_text_ascii(*self);
            assert(out@ =~= adjustment_text(*self));
        }
        text::ascii_to_string(out)
    }
}

impl Spec {
    /// Bytes of the spec's text.
    pub fn text(&self) -> (r: Vec<u8>)
        ensures
            r@ == spec_display_text(*self),
    {
        let mut out: Vec<u8> = Vec::new();
        push_cycle(&mut out, &self.years, true);
        out.push(45);
        push_cycle(&mut out, &self.months, false);
        out.push(45);
        push_day(&mut out, &self.days);
        match &self.biz_day_adj {
            Some(a) => push_adjustment(&mut out, a),
            None => {},
        }
        proof {
            assert(out@ =~= spec_display_text(*self));
        }
        out
    }

    /// The spec as text, such as `YY-3M-15` or `YY-1M-31L~W`.
    pub fn to_string(&self) -> (r: String)
        ensures
            r@ == text::text_chars(spec_display_text(*self)),
    {
        let out = self.text();
        proof {
            lemma_spec_text_ascii(*self);
        }
        text::ascii_to_string(out)
    }
}

} // verus!
