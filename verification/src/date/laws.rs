//! Writing a date spec and reading it back.

use vstd::prelude::*;

use crate::calendar::WeekdayStartingMonday;
use crate::biz_day::Direction;
use crate::date::display::{
    adjustment_text, cycle_display_text, day_display_text, direction_letter, joined_numbers,
    joined_weekdays, last_day_suffix, number_text, spec_display_text, step_suffix,
    weekday_name, weekday_option_suffix,
};
use crate::date::spec::{
    adjustment_at, adjustment_count, byte_at, cycle_at, day_at, num_at, num_list, num_list_tail,
    parse_date_text, selector_at, selector_number, space_run, strictly_sorted,
    strictly_sorted_weekdays, weekday_at, weekday_indices,
    weekday_list, weekday_list_tail, BizDayAdjustment, Cycle, CycleModel, DayCycle,
    DayCycleModel, LastDayOption, NextNthDayOption, Spec, WeekdayOption,
};
use crate::text::{self, decimal_text, is_digit, padded_text};

verus! {

/// `t` stands in `s` at `pos`.
pub open spec fn stands_at(s: Seq<u8>, pos: int, t: Seq<u8>) -> bool {
    0 <= pos && pos + t.len() <= s.len() && s.subrange(pos, pos + t.len()) == t
}

/// Nothing, or a byte that is no digit, follows position `p`.
pub open spec fn digit_stop(s: Seq<u8>, p: int) -> bool {
    p == s.len() || (0 <= p < s.len() && !is_digit(s[p]))
}

proof fn lemma_number_text(n: u32, padded: bool)
    ensures
        number_text(n, padded).len() >= 1,
        text::all_digits(number_text(n, padded)),
        text::decimal_value(number_text(n, padded)) == n,
{
    text::lemma_decimal_text(n as nat);
    text::lemma_padded_text(n as nat);
}

/// A number's text at `pos`, followed by no digit, reads as that number.
proof fn lemma_num_at(s: Seq<u8>, pos: int, n: u32, padded: bool)
    requires
        stands_at(s, pos, number_text(n, padded)),
        digit_stop(s, pos + number_text(n, padded).len()),
    ensures
        num_at(s, pos as nat) == Some((n, (pos + number_text(n, padded).len()) as nat)),
{
    let t = number_text(n, padded);
    lemma_number_text(n, padded);
    let rest = s.skip(pos + t.len());
    assert(s.skip(pos) =~= t + rest);
    if rest.len() > 0 {
        assert(rest[0] == s[pos + t.len()]);
    }
    text::lemma_leading_number(t, rest, 4294967295);
}

/// `,n` for each number of `t`.
pub open spec fn comma_numbers(t: Seq<u32>, padded: bool) -> Seq<u8>
    decreases t.len(),
{
    if t.len() == 0 {
        Seq::empty()
    } else {
        comma_numbers(t.drop_last(), padded) + seq![44u8] + number_text(t.last(), padded)
    }
}

proof fn lemma_joined_front(v: Seq<u32>, padded: bool)
    requires
        v.len() >= 1,
    ensures
        joined_numbers(v, padded) == number_text(v[0], padded) + comma_numbers(v.drop_first(), padded),
    decreases v.len(),
{
    if v.len() == 1 {
        assert(v.drop_first() =~= Seq::<u32>::empty());
        assert(number_text(v[0], padded) + Seq::<u8>::empty() =~= number_text(v[0], padded));
    } else {
        let dl = v.drop_last();
        lemma_joined_front(dl, padded);
        assert(v.drop_first().drop_last() =~= dl.drop_first());
        assert(v.drop_first().last() == v.last());
        assert(dl[0] == v[0]);
        assert(joined_numbers(v, padded) =~= number_text(v[0], padded) + comma_numbers(
            v.drop_first(),
            padded,
        ));
    }
}

proof fn lemma_comma_front(t: Seq<u32>, padded: bool)
    requires
        t.len() >= 1,
    ensures
        comma_numbers(t, padded) == seq![44u8] + number_text(t[0], padded) + comma_numbers(
            t.drop_first(),
            padded,
        ),
    decreases t.len(),
{
    if t.len() == 1 {
        assert(t.drop_first() =~= Seq::<u32>::empty());
        assert(t.drop_last() =~= Seq::<u32>::empty());
        assert(comma_numbers(t, padded) =~= seq![44u8] + number_text(t[0], padded)
            + comma_numbers(t.drop_first(), padded));
    } else {
        let dl = t.drop_last();
        lemma_comma_front(dl, padded);
        assert(t.drop_first().drop_last() =~= dl.drop_first());
        assert(t.drop_first().last() == t.last());
        assert(dl[0] == t[0]);
        assert(comma_numbers(t, padded) =~= seq![44u8] + number_text(t[0], padded)
            + comma_numbers(t.drop_first(), padded));
    }
}

/// The comma-separated numbers of `t` at `pos`, closed by a byte other than
/// a comma, read back as `t`.
proof fn lemma_num_list_tail(s: Seq<u8>, pos: int, t: Seq<u32>, padded: bool)
    requires
        stands_at(s, pos, comma_numbers(t, padded)),
        pos + comma_numbers(t, padded).len() < s.len(),
        s[pos + comma_numbers(t, padded).len()] != 44,
        !is_digit(s[pos + comma_numbers(t, padded).len()]),
    ensures
        num_list_tail(s, pos as nat) == (t, (pos + comma_numbers(t, padded).len()) as nat),
    decreases t.len(),
{
    let c = comma_numbers(t, padded);
    if t.len() == 0 {
        assert(!crate::date::spec::byte_at(s, pos, 44));
    } else {
        lemma_comma_front(t, padded);
        let nt = number_text(t[0], padded);
        let rest = comma_numbers(t.drop_first(), padded);
        assert(c =~= seq![44u8] + nt + rest);
        assert(s[pos] == c[0]);
        let e = pos + 1 + nt.len();
        assert(s.subrange(pos + 1, pos + 1 + nt.len()) =~= nt) by {
            assert forall|i: int| 0 <= i < nt.len() implies s.subrange(pos + 1, pos + 1 + nt.len())[i]
                == nt[i] by {
                assert(s[pos + 1 + i] == c[1 + i]);
            }
        }
        assert(s.subrange(e, e + rest.len()) =~= rest) by {
            assert forall|i: int| 0 <= i < rest.len() implies s.subrange(e, e + rest.len())[i]
                == rest[i] by {
                assert(s[e + i] == c[1 + nt.len() + i]);
            }
        }
        if rest.len() > 0 {
            lemma_comma_front(t.drop_first(), padded);
            assert(s[e] == c[1 + nt.len() as int]);
        }
        lemma_num_at(s, pos + 1, t[0], padded);
        lemma_num_list_tail(s, e, t.drop_first(), padded);
        assert(seq![t[0]] + t.drop_first() =~= t);
    }
}

/// The bracketed list of the numbers of `v` at `pos` reads back as `v`.
proof fn lemma_num_list(s: Seq<u8>, pos: int, v: Seq<u32>, padded: bool)
    requires
        v.len() >= 1,
        stands_at(s, pos, seq![91u8] + joined_numbers(v, padded) + seq![93u8]),
    ensures
        num_list(s, pos as nat) == Some(
            (v, (pos + (seq![91u8] + joined_numbers(v, padded) + seq![93u8]).len()) as nat),
        ),
{
    let j = joined_numbers(v, padded);
    let full = seq![91u8] + j + seq![93u8];
    lemma_joined_front(v, padded);
    let nt = number_text(v[0], padded);
    let rest = comma_numbers(v.drop_first(), padded);
    assert(full =~= seq![91u8] + nt + rest + seq![93u8]);
    assert(s[pos] == full[0]);
    let e = pos + 1 + nt.len();
    assert(s.subrange(pos + 1, pos + 1 + nt.len()) =~= nt) by {
        assert forall|i: int| 0 <= i < nt.len() implies s.subrange(pos + 1, pos + 1 + nt.len())[i]
            == nt[i] by {
            assert(s[pos + 1 + i] == full[1 + i]);
        }
    }
    assert(s.subrange(e, e + rest.len()) =~= rest) by {
        assert forall|i: int| 0 <= i < rest.len() implies s.subrange(e, e + rest.len())[i]
            == rest[i] by {
            assert(s[e + i] == full[1 + nt.len() + i]);
        }
    }
    assert(s[e + rest.len() as int] == full[1 + nt.len() + rest.len() as int]);
    if rest.len() > 0 {
        lemma_comma_front(v.drop_first(), padded);
        assert(s[e] == full[1 + nt.len() as int]);
    }
    lemma_num_at(s, pos + 1, v[0], padded);
    lemma_num_list_tail(s, e, v.drop_first(), padded);
    assert(seq![v[0]] + v.drop_first() =~= v);
}

/// A weekday's name at `pos` reads as its index.
proof fn lemma_weekday_at(s: Seq<u8>, pos: int, w: WeekdayStartingMonday)
    requires
        stands_at(s, pos, weekday_name(w.0.index())),
    ensures
        weekday_at(s, pos as nat) == Some(w.0.index() as u32),
{
    let t = weekday_name(w.0.index());
    assert(s[pos] == t[0] && s[pos + 1] == t[1] && s[pos + 2] == t[2]);
}

/// `,WD` for each weekday of `t`.
pub open spec fn comma_weekdays(t: Seq<WeekdayStartingMonday>) -> Seq<u8>
    decreases t.len(),
{
    if t.len() == 0 {
        Seq::empty()
    } else {
        comma_weekdays(t.drop_last()) + seq![44u8] + weekday_name(t.last().0.index())
    }
}

proof fn lemma_joined_weekdays_front(v: Seq<WeekdayStartingMonday>)
    requires
        v.len() >= 1,
    ensures
        joined_weekdays(v) == weekday_name(v[0].0.index()) + comma_weekdays(v.drop_first()),
    decreases v.len(),
{
    if v.len() == 1 {
        assert(v.drop_first() =~= Seq::<WeekdayStartingMonday>::empty());
        assert(weekday_name(v[0].0.index()) + Seq::<u8>::empty() =~= weekday_name(v[0].0.index()));
    } else {
        let dl = v.drop_last();
        lemma_joined_weekdays_front(dl);
        assert(v.drop_first().drop_last() =~= dl.drop_first());
        assert(v.drop_first().last() == v.last());
        assert(dl[0] == v[0]);
        assert(joined_weekdays(v) =~= weekday_name(v[0].0.index()) + comma_weekdays(v.drop_first()));
    }
}

proof fn lemma_comma_weekdays_front(t: Seq<WeekdayStartingMonday>)
    requires
        t.len() >= 1,
    ensures
        comma_weekdays(t) == seq![44u8] + weekday_name(t[0].0.index()) + comma_weekdays(
            t.drop_first(),
        ),
    decreases t.len(),
{
    if t.len() == 1 {
        assert(t.drop_first() =~= Seq::<WeekdayStartingMonday>::empty());
        assert(t.drop_last() =~= Seq::<WeekdayStartingMonday>::empty());
        assert(comma_weekdays(t) =~= seq![44u8] + weekday_name(t[0].0.index()) + comma_weekdays(
            t.drop_first(),
        ));
    } else {
        let dl = t.drop_last();
        lemma_comma_weekdays_front(dl);
        assert(t.drop_first().drop_last() =~= dl.drop_first());
        assert(t.drop_first().last() == t.last());
        assert(dl[0] == t[0]);
        assert(comma_weekdays(t) =~= seq![44u8] + weekday_name(t[0].0.index()) + comma_weekdays(
            t.drop_first(),
        ));
    }
}

proof fn lemma_weekday_name_len(i: int)
    ensures
        weekday_name(i).len() == 3,
{
}

proof fn lemma_weekday_list_tail(s: Seq<u8>, pos: int, t: Seq<WeekdayStartingMonday>)
    requires
        stands_at(s, pos, comma_weekdays(t)),
        pos + comma_weekdays(t).len() < s.len(),
        s[pos + comma_weekdays(t).len()] != 44,
    ensures
        weekday_list_tail(s, pos as nat) == (weekday_indices(t), (pos + comma_weekdays(t).len()) as nat),
    decreases t.len(),
{
    let c = comma_weekdays(t);
    if t.len() == 0 {
        assert(!crate::date::spec::byte_at(s, pos, 44));
        assert(weekday_indices(t) =~= Seq::<u32>::empty());
    } else {
        lemma_comma_weekdays_front(t);
        let nt = weekday_name(t[0].0.index());
        lemma_weekday_name_len(t[0].0.index());
        let rest = comma_weekdays(t.drop_first());
        assert(c =~= seq![44u8] + nt + rest);
        assert(s[pos] == c[0]);
        let e = pos + 4;
        assert(s.subrange(pos + 1, pos + 4) =~= nt) by {
            assert forall|i: int| 0 <= i < 3 implies s.subrange(pos + 1, pos + 4)[i] == nt[i] by {
                assert(s[pos + 1 + i] == c[1 + i]);
            }
        }
        assert(s.subrange(e, e + rest.len()) =~= rest) by {
            assert forall|i: int| 0 <= i < rest.len() implies s.subrange(e, e + rest.len())[i]
                == rest[i] by {
                assert(s[e + i] == c[4 + i]);
            }
        }
        lemma_weekday_at(s, pos + 1, t[0]);
        lemma_weekday_list_tail(s, e, t.drop_first());
        assert(seq![t[0].0.index() as u32] + weekday_indices(t.drop_first()) =~= weekday_indices(t));
    }
}

/// The bracketed list of the weekdays of `v` at `pos` reads back as their
/// indices.
proof fn lemma_weekday_list(s: Seq<u8>, pos: int, v: Seq<WeekdayStartingMonday>)
    requires
        v.len() >= 1,
        stands_at(s, pos, seq![91u8] + joined_weekdays(v) + seq![93u8]),
    ensures
        weekday_list(s, pos as nat) == Some(
            (
                weekday_indices(v),
                (pos + (seq![91u8] + joined_weekdays(v) + seq![93u8]).len()) as nat,
            ),
        ),
{
    let j = joined_weekdays(v);
    let full = seq![91u8] + j + seq![93u8];
    lemma_joined_weekdays_front(v);
    let nt = weekday_name(v[0].0.index());
    lemma_weekday_name_len(v[0].0.index());
    let rest = comma_weekdays(v.drop_first());
    assert(full =~= seq![91u8] + nt + rest + seq![93u8]);
    assert(s[pos] == full[0]);
    let e = pos + 4;
    assert(s.subrange(pos + 1, pos + 4) =~= nt) by {
        assert forall|i: int| 0 <= i < 3 implies s.subrange(pos + 1, pos + 4)[i] == nt[i] by {
            assert(s[pos + 1 + i] == full[1 + i]);
        }
    }
    assert(s.subrange(e, e + rest.len()) =~= rest) by {
        assert forall|i: int| 0 <= i < rest.len() implies s.subrange(e, e + rest.len())[i]
            == rest[i] by {
            assert(s[e + i] == full[4 + i]);
        }
    }
    assert(s[e + rest.len() as int] == full[4 + rest.len() as int]);
    lemma_weekday_at(s, pos + 1, v[0]);
    lemma_weekday_list_tail(s, e, v.drop_first());
    assert(seq![v[0].0.index() as u32] + weekday_indices(v.drop_first()) =~= weekday_indices(v));
}

/// No number starts at a byte that is no digit.
proof fn lemma_no_num_at(s: Seq<u8>, pos: int)
    requires
        0 <= pos <= s.len(),
        pos == s.len() || !is_digit(s[pos]),
    ensures
        num_at(s, pos as nat) is None,
        text::digit_run(s.skip(pos)) == 0,
{
    if pos < s.len() {
        assert(s.skip(pos)[0] == s[pos]);
    }
}

/// A run of digits at `pos`, ended by no digit, is that long.
proof fn lemma_digit_run_at(s: Seq<u8>, pos: int, t: Seq<u8>)
    requires
        stands_at(s, pos, t),
        text::all_digits(t),
        digit_stop(s, pos + t.len()),
    ensures
        text::digit_run(s.skip(pos)) == t.len(),
        s.skip(pos).take(t.len() as int) == t,
{
    let rest = s.skip(pos + t.len());
    let k = s.skip(pos);
    assert(k =~= t + rest);
    assert forall|j: int| 0 <= j < t.len() implies text::is_digit(#[trigger] k[j]) by {
        assert(k[j] == t[j]);
    }
    if t.len() < k.len() {
        assert(k[t.len() as int] == s[pos + t.len()]);
    }
    text::lemma_digit_run_of_prefix(k, t.len());
    assert(k.take(t.len() as int) =~= t);
}

/// The years and months components that write back as what they read.
pub open spec fn cycle_canonical(c: Cycle) -> bool {
    match c {
        Cycle::Values(v) => v@.len() >= 1,
        _ => true,
    }
}

/// The day components that write back as what they read: an empty set
/// writes `[]` (but for `L`);
/// a set of several days or weekdays drops its option; a weekday's first
/// occurrence written without its number reads as no occurrence.
pub open spec fn day_canonical(d: DayCycle) -> bool {
    match d {
        DayCycle::OnDays { days, option } => if days@.len() == 0 {
            option == LastDayOption::LastDay
        } else {
            days@.len() == 1 || option == LastDayOption::NA
        },
        DayCycle::OnWeekDays { weekdays, option } => if weekdays@.len() == 1 {
            option != WeekdayOption::Starting(None)
        } else {
            weekdays@.len() > 1 && option == WeekdayOption::NA
        },
        _ => true,
    }
}

/// The adjustments that write back as what they read (`NA` writes
/// nothing, which reads as no adjustment).
pub open spec fn adjustment_canonical(a: Option<BizDayAdjustment>) -> bool {
    a != Some(BizDayAdjustment::NA)
}

/// The specs whose text reads back as the spec.
pub open spec fn canonical(sp: Spec) -> bool {
    &&& cycle_canonical(sp.years)
    &&& cycle_canonical(sp.months)
    &&& day_canonical(sp.days)
    &&& adjustment_canonical(sp.biz_day_adj)
}

proof fn lemma_single_to_set<A>(v: Seq<A>)
    requires
        v.len() == 1,
    ensures
        v.to_set() == set![v[0]],
{
    assert forall|e: A| v.to_set().contains(e) implies set![v[0]].contains(e) by {
        let k = choose|k: int| 0 <= k < v.len() && v[k] == e;
    }
    assert forall|e: A| set![v[0]].contains(e) implies v.to_set().contains(e) by {
        assert(v[0] == e);
    }
    assert(v.to_set() =~= set![v[0]]);
}

/// A years or months component's text, followed by `-`, reads back.
proof fn lemma_cycle_at(s: Seq<u8>, pos: int, c: Cycle, is_year: bool)
    requires
        cycle_canonical(c),
        stands_at(s, pos, cycle_display_text(c, is_year)),
        pos + cycle_display_text(c, is_year).len() < s.len(),
        s[pos + cycle_display_text(c, is_year).len()] == 45,
    ensures
        cycle_at(s, pos as nat) == Some((c.model(), (pos + cycle_display_text(c, is_year).len()) as nat)),
{
    let t = cycle_display_text(c, is_year);
    assert(s[pos] == t[0]);
    match c {
        Cycle::ForEach => {
            assert(s[pos + 1] == t[1]);
        },
        Cycle::NextNth(n) => {
            let d = decimal_text(n as nat);
            text::lemma_decimal_text(n as nat);
            assert(d[0] == t[0]);
            assert(text::is_digit(d[0]));
            assert(s.subrange(pos, pos + d.len()) =~= d) by {
                assert forall|i: int| 0 <= i < d.len() implies s.subrange(pos, pos + d.len())[i]
                    == d[i] by {
                    assert(s[pos + i] == t[i]);
                }
            }
            assert(s[pos + d.len() as int] == t[d.len() as int]);
            assert(number_text(n, false) == d);
            lemma_num_at(s, pos, n, false);
        },
        Cycle::Values(v) => {
            if v@.len() == 1 {
                let nt = number_text(v@[0], !is_year);
                lemma_number_text(v@[0], !is_year);
                assert(text::is_digit(nt[0]));
                lemma_num_at(s, pos, v@[0], !is_year);
                lemma_single_to_set(v@);
            } else {
                lemma_num_list(s, pos, v@, !is_year);
            }
        },
        Cycle::AsIs => {},
    }
}

/// The day component's text, followed by nothing or by `~`, stands at `pos`.
pub open spec fn day_text_at(s: Seq<u8>, pos: int, d: DayCycle) -> bool {
    &&& stands_at(s, pos, day_display_text(d))
    &&& (pos + day_display_text(d).len() == s.len() || (pos + day_display_text(d).len() < s.len()
        && s[pos + day_display_text(d).len()] == 126))
}

proof fn lemma_day_at_step(s: Seq<u8>, pos: int, n: u32, o: NextNthDayOption)
    requires
        day_text_at(s, pos, DayCycle::NextNth(n, o)),
    ensures
        day_at(s, pos as nat) == Some(
            (
                DayCycle::NextNth(n, o).model(),
                (pos + day_display_text(DayCycle::NextNth(n, o)).len()) as nat,
            ),
        ),
{
    let t = day_display_text(DayCycle::NextNth(n, o));
    let dd = decimal_text(n as nat);
    text::lemma_decimal_text(n as nat);
    assert(s[pos] == t[0]);
    assert(dd[0] == t[0]);
    assert(s.subrange(pos, pos + dd.len()) =~= dd) by {
        assert forall|i: int| 0 <= i < dd.len() implies s.subrange(pos, pos + dd.len())[i]
            == dd[i] by {
            assert(s[pos + i] == t[i]);
        }
    }
    let e = pos + dd.len();
    assert(s[e] == t[dd.len() as int]);
    if o != NextNthDayOption::Regular {
        assert(s[e + 1] == t[dd.len() + 1int]);
    }
    assert(number_text(n, false) == dd);
    lemma_num_at(s, pos, n, false);
}

#[verifier::rlimit(50)]
proof fn lemma_day_at_days(s: Seq<u8>, pos: int, d: DayCycle)
    requires
        d is OnDays,
        day_canonical(d),
        day_text_at(s, pos, d),
    ensures
        day_at(s, pos as nat) == Some((d.model(), (pos + day_display_text(d).len()) as nat)),
{
    let t = day_display_text(d);
    let end = pos + t.len();
    assert(s[pos] == t[0]);
    if let DayCycle::OnDays { days, option } = d {
        if days@.len() == 0 {
            lemma_no_num_at(s, pos);
            assert(days@.to_set() =~= Set::<u32>::empty());
        } else if days@.len() == 1 {
            let pt = padded_text(days@[0] as nat);
            text::lemma_padded_text(days@[0] as nat);
            assert(pt[0] == t[0]);
            assert(s.subrange(pos, pos + pt.len()) =~= pt) by {
                assert forall|i: int| 0 <= i < pt.len() implies s.subrange(pos, pos + pt.len())[i]
                    == pt[i] by {
                    assert(s[pos + i] == t[i]);
                }
            }
            let e = pos + pt.len();
            if e < end {
                assert(s[e] == t[pt.len() as int]);
            }
            assert(number_text(days@[0], true) == pt);
            lemma_num_at(s, pos, days@[0], true);
            lemma_single_to_set(days@);
        } else {
            assert(s[pos + 1] == t[1]);
            lemma_number_text(days@[0], true);
            lemma_joined_front(days@, true);
            assert(t[1] == number_text(days@[0], true)[0]);
            lemma_num_list(s, pos, days@, true);
        }
    }
}

#[verifier::rlimit(50)]
proof fn lemma_day_at_weekdays(s: Seq<u8>, pos: int, d: DayCycle)
    requires
        d is OnWeekDays,
        day_canonical(d),
        day_text_at(s, pos, d),
    ensures
        day_at(s, pos as nat) == Some((d.model(), (pos + day_display_text(d).len()) as nat)),
{
    let t = day_display_text(d);
    assert(s[pos] == t[0]);
    if let DayCycle::OnWeekDays { weekdays, option } = d {
        if weekdays@.len() == 1 {
            let nm = weekday_name(weekdays@[0].0.index());
            lemma_weekday_name_len(weekdays@[0].0.index());
            let suf = weekday_option_suffix(option);
            assert(t =~= nm + suf);
            assert(s.subrange(pos, pos + 3) =~= nm) by {
                assert forall|i: int| 0 <= i < 3 implies s.subrange(pos, pos + 3)[i] == nm[i] by {
                    assert(s[pos + i] == t[i]);
                }
            }
            lemma_weekday_at(s, pos, weekdays@[0]);
            assert(weekday_indices(weekdays@) =~= seq![weekdays@[0].0.index() as u32]);
            lemma_single_to_set(weekday_indices(weekdays@));
            match option {
                WeekdayOption::NA => {},
                WeekdayOption::Starting(Some(n)) => {
                    let dd = decimal_text(n as nat);
                    text::lemma_decimal_text(n as nat);
                    assert(s[pos + 3] == t[3]);
                    assert(s.subrange(pos + 4, pos + 4 + dd.len()) =~= dd) by {
                        assert forall|i: int| 0 <= i < dd.len() implies s.subrange(
                            pos + 4,
                            pos + 4 + dd.len(),
                        )[i] == dd[i] by {
                            assert(s[pos + 4 + i] == t[4 + i]);
                        }
                    }
                    lemma_digit_run_at(s, pos + 4, dd);
                },
                WeekdayOption::Ending(None) => {
                    assert(s[pos + 3] == t[3]);
                    assert(s[pos + 4] == t[4]);
                    lemma_no_num_at(s, pos + 4);
                    assert(s.skip(pos + 4).take(0) =~= Seq::<u8>::empty());
                },
                WeekdayOption::Ending(Some(n)) => {
                    let dd = decimal_text(n as nat);
                    text::lemma_decimal_text(n as nat);
                    assert(s[pos + 3] == t[3]);
                    assert(s.subrange(pos + 4, pos + 4 + dd.len()) =~= dd) by {
                        assert forall|i: int| 0 <= i < dd.len() implies s.subrange(
                            pos + 4,
                            pos + 4 + dd.len(),
                        )[i] == dd[i] by {
                            assert(s[pos + 4 + i] == t[4 + i]);
                        }
                    }
                    assert(s[pos + 4 + dd.len() as int] == t[4 + dd.len() as int]);
                    lemma_digit_run_at(s, pos + 4, dd);
                },
                WeekdayOption::Starting(None) => {},
            }
        } else {
            lemma_weekday_list(s, pos, weekdays@);
        }
    }
}

/// A day component's text, followed by nothing or by `~`, reads back.
proof fn lemma_day_at(s: Seq<u8>, pos: int, d: DayCycle)
    requires
        day_canonical(d),
        day_text_at(s, pos, d),
    ensures
        day_at(s, pos as nat) == Some((d.model(), (pos + day_display_text(d).len()) as nat)),
{
    let t = day_display_text(d);
    match d {
        DayCycle::ForEach => {
            assert(s[pos] == t[0]);
            assert(s[pos + 1] == t[1]);
            lemma_no_num_at(s, pos);
        },
        DayCycle::NextNth(n, o) => {
            lemma_day_at_step(s, pos, n, o);
        },
        DayCycle::OnDays { .. } => {
            lemma_day_at_days(s, pos, d);
        },
        DayCycle::OnWeekDays { .. } => {
            lemma_day_at_weekdays(s, pos, d);
        },
        DayCycle::AsIs => {},
    }
}

/// An adjustment's text, at the end, reads back.
proof fn lemma_adjustment_at(s: Seq<u8>, pos: int, a: BizDayAdjustment)
    requires
        a != BizDayAdjustment::NA,
        stands_at(s, pos, adjustment_text(a)),
        pos + adjustment_text(a).len() == s.len(),
    ensures
        adjustment_at(s, pos as nat) == Some((a, s.len())),
{
    let t = adjustment_text(a);
    assert(s[pos] == t[0]);
    assert(s[pos + 1] == t[1]);
    match a {
        BizDayAdjustment::BizDay(d) | BizDayAdjustment::Weekday(d) => {
            if d != Direction::Nearest {
                assert(s[pos + 2] == t[2]);
            }
        },
        BizDayAdjustment::Next(n) | BizDayAdjustment::Prev(n) => {
            let dd = decimal_text(n as nat);
            text::lemma_decimal_text(n as nat);
            assert(s.subrange(pos + 1, pos + 1 + dd.len()) =~= dd) by {
                assert forall|i: int| 0 <= i < dd.len() implies s.subrange(
                    pos + 1,
                    pos + 1 + dd.len(),
                )[i] == dd[i] by {
                    assert(s[pos + 1 + i] == t[1 + i]);
                }
            }
            assert(s[pos + 1 + dd.len() as int] == t[1 + dd.len() as int]);
            lemma_digit_run_at(s, pos + 1, dd);
            if dd.len() >= 2 {
                assert(s[pos + 2] == t[2]);
            }
        },
        BizDayAdjustment::NA => {},
    }
}

/// The parse of a date spec from the parses of its components.
proof fn lemma_parse_from_parts(
    s: Seq<u8>,
    y: CycleModel,
    m: CycleModel,
    d: DayCycleModel,
    adj: Option<BizDayAdjustment>,
    p1: nat,
    p2: nat,
    p3: nat,
)
    requires
        cycle_at(s, 0) == Some((y, p1)),
        byte_at(s, p1 as int, 45),
        cycle_at(s, p1 + 1) == Some((m, p2)),
        byte_at(s, p2 as int, 45),
        day_at(s, p2 + 1) == Some((d, p3)),
        adj is None ==> p3 == s.len(),
        adj matches Some(a) ==> p3 < s.len() && space_run(s, p3) == 0 && adjustment_at(s, p3)
            == Some((a, s.len())),
    ensures
        parse_date_text(s) == Some(
            crate::date::spec::SpecModel { years: y, months: m, days: d, biz_day_adj: adj },
        ),
{
}

/// Reading the text of a date spec gives the spec back, for every spec
/// whose text can say it (see [`canonical`]).
#[verifier::rlimit(100)]
pub proof fn law_date_spec_round_trip(sp: Spec)
    requires
        canonical(sp),
    ensures
        parse_date_text(spec_display_text(sp)) == Some(sp.model()),
{
    let ty = cycle_display_text(sp.years, true);
    let tm = cycle_display_text(sp.months, false);
    let td = day_display_text(sp.days);
    let ta = match sp.biz_day_adj {
        Some(a) => adjustment_text(a),
        None => Seq::empty(),
    };
    let s = spec_display_text(sp);
    assert(s =~= ty + seq![45u8] + tm + seq![45u8] + td + ta);
    let p1 = ty.len() as int;
    let p2 = p1 + 1 + tm.len();
    let p3 = p2 + 1 + td.len();
    assert(s.subrange(0, p1) =~= ty);
    assert(s[p1] == 45);
    lemma_cycle_at(s, 0, sp.years, true);
    assert(s.subrange(p1 + 1, p1 + 1 + tm.len()) =~= tm);
    assert(s[p2] == 45);
    lemma_cycle_at(s, p1 + 1, sp.months, false);
    assert(s.subrange(p2 + 1, p3) =~= td);
    match sp.biz_day_adj {
        None => {
            lemma_day_at(s, p2 + 1, sp.days);
        },
        Some(a) => {
            assert(ta[0] == 126u8);
            assert(s[p3] == ta[0]);
            lemma_day_at(s, p2 + 1, sp.days);
            assert(space_run(s, p3 as nat) == 0);
            assert(s.subrange(p3, s.len() as int) =~= ta);
            lemma_adjustment_at(s, p3, a);
        },
    }
    lemma_parse_from_parts(
        s,
        sp.years.model(),
        sp.months.model(),
        sp.days.model(),
        sp.biz_day_adj,
        p1 as nat,
        p2 as nat,
        p3 as nat,
    );
}

/// Parsing the string of a date spec (see `Spec::to_string`) gives the spec
/// back, for every spec whose text can say it.
pub proof fn law_date_spec_string_round_trip(sp: Spec)
    requires
        canonical(sp),
    ensures
        parse_date_text(vstd::utf8::encode_utf8(text::text_chars(spec_display_text(sp)))) == Some(
            sp.model(),
        ),
{
    crate::date::display::lemma_spec_text_ascii(sp);
    text::lemma_ascii_encode(spec_display_text(sp));
    law_date_spec_round_trip(sp);
}

/// A list that the grammar reads holds its first number.
proof fn lemma_num_list_nonempty(s: Seq<u8>, pos: nat)
    ensures
        num_list(s, pos) matches Some((l, _)) ==> l.len() >= 1 && l.to_set().contains(l[0]),
{
    if let Some((n, e)) = num_at(s, pos + 1) {
        let r = num_list_tail(s, e);
        if byte_at(s, pos as int, 91) && byte_at(s, r.1 as int, 93) {
            let l = seq![n] + r.0;
            assert(num_list(s, pos) == Some((l, r.1 + 1)));
            assert(l[0] == n);
            assert(l.contains(l[0]));
        }
    }
}

/// A weekday list that the grammar reads holds its first weekday.
proof fn lemma_weekday_list_nonempty(s: Seq<u8>, pos: nat)
    ensures
        weekday_list(s, pos) matches Some((l, _)) ==> l.len() >= 1 && l.to_set().contains(l[0]),
{
    if let Some(w) = weekday_at(s, pos + 1) {
        let r = weekday_list_tail(s, pos + 4);
        if byte_at(s, pos as int, 91) && byte_at(s, r.1 as int, 93) {
            let l = seq![w] + r.0;
            assert(weekday_list(s, pos) == Some((l, r.1 + 1)));
            assert(l[0] == w);
            assert(l.contains(l[0]));
        }
    }
}

/// A set holds at most one value.
pub open spec fn at_most_one<A>(st: Set<A>) -> bool {
    forall|a: A, b: A| st.contains(a) && st.contains(b) ==> a == b
}

/// What the grammar gives for the years or months: a set of values is
/// never empty.
proof fn lemma_cycle_at_shape(s: Seq<u8>, pos: nat)
    ensures
        cycle_at(s, pos) matches Some((CycleModel::Values(st), _)) ==> !(st =~= Set::<u32>::empty()),
{
    lemma_num_list_nonempty(s, pos);
    if let Some((l, e)) = num_list(s, pos) {
        assert(l.to_set().contains(l[0]));
    } else if let Some((n, e)) = num_at(s, pos) {
        assert(set![n].contains(n));
    }
}

/// What the grammar gives for the days: an empty set of days only for
/// `L`; a set of days or weekdays with an option holds one value; a weekday
/// set is never empty, and its occurrence is never an unnumbered first.
proof fn lemma_day_at_shape(s: Seq<u8>, pos: nat)
    ensures
        day_at(s, pos) matches Some((DayCycleModel::OnDays(st, o), _)) ==> ((st =~= Set::empty()
            ==> o == LastDayOption::LastDay) && (o != LastDayOption::NA ==> at_most_one(st))),
        day_at(s, pos) matches Some((DayCycleModel::OnWeekDays(st, o), _)) ==> !(st =~= Set::<
            u32,
        >::empty()) && (o != WeekdayOption::NA ==> at_most_one(st)) && o != WeekdayOption::Starting(
            None,
        ),
{
    lemma_num_list_nonempty(s, pos);
    lemma_weekday_list_nonempty(s, pos);
    if weekday_list(s, pos) is Some {
        let (l, e) = weekday_list(s, pos)->0;
        assert(l.to_set().contains(l[0]));
    } else if num_list(s, pos) is Some {
        let (l, e) = num_list(s, pos)->0;
        assert(l.to_set().contains(l[0]));
    } else if weekday_at(s, pos) is Some && byte_at(s, pos as int + 3, 35) {
        let w = weekday_at(s, pos)->0;
        assert(set![w].contains(w));
        let (o, e) = selector_at(s, pos + 4);
        assert(o != WeekdayOption::Starting(None));
    } else if weekday_at(s, pos) is Some {
        let w = weekday_at(s, pos)->0;
        assert(set![w].contains(w));
    } else if num_at(s, pos) is Some && crate::date::spec::step_unit_at(
        s,
        crate::date::spec::num_end(s, pos),
    ) {
    } else if num_at(s, pos) is Some && !crate::date::spec::pair_at(s, pos as int, 68, 68)
        && !byte_at(s, pos as int, 95) && !byte_at(s, pos as int, 76) {
        let (n, e) = num_at(s, pos)->0;
        assert(set![n].contains(n));
    }
}

/// A sorted sequence without repeats whose values are at most one value
/// has at most one element.
proof fn lemma_sorted_at_most_one(v: Seq<u32>)
    requires
        strictly_sorted(v),
        at_most_one(v.to_set()),
    ensures
        v.len() <= 1,
{
    if v.len() >= 2 {
        assert(v.contains(v[0]));
        assert(v.contains(v[1]));
        assert(v.to_set().contains(v[0]) && v.to_set().contains(v[1]));
    }
}

/// The same for a sorted sequence of weekdays, by their indices.
proof fn lemma_sorted_weekdays_at_most_one(v: Seq<WeekdayStartingMonday>)
    requires
        strictly_sorted_weekdays(v),
        at_most_one(weekday_indices(v).to_set()),
    ensures
        v.len() <= 1,
{
    let w = weekday_indices(v);
    if v.len() >= 2 {
        assert(w.contains(w[0]));
        assert(w.contains(w[1]));
        assert(w.to_set().contains(w[0]) && w.to_set().contains(w[1]));
        assert(w[0] == v[0].0.index() as u32);
        assert(w[1] == v[1].0.index() as u32);
        assert(v[0].0.index() < v[1].0.index());
        assert(0 <= v[0].0.index() && v[1].0.index() < 7);
    }
}

/// Every spec that the parser reads is canonical, so the round trip of
/// printing then parsing holds of every parsed spec: when the text `b`
/// reads as the spec `sp`, `sp` is canonical.
pub proof fn law_parsed_specs_are_canonical(b: Seq<u8>, sp: Spec)
    requires
        sp.wf(),
        parse_date_text(b) == Some(sp.model()),
    ensures
        canonical(sp),
{
    let (ym, p1) = cycle_at(b, 0)->0;
    let (mm, p2) = cycle_at(b, p1 + 1)->0;
    let (dm, p3) = day_at(b, p2 + 1)->0;
    lemma_cycle_at_shape(b, 0);
    lemma_cycle_at_shape(b, p1 + 1);
    lemma_day_at_shape(b, p2 + 1);
    if let Cycle::Values(v) = sp.years {
        if v@.len() == 0 {
            assert(v@.to_set() =~= Set::<u32>::empty());
        }
    }
    if let Cycle::Values(v) = sp.months {
        if v@.len() == 0 {
            assert(v@.to_set() =~= Set::<u32>::empty());
        }
    }
    match sp.days {
        DayCycle::OnDays { days, option } => {
            if days@.len() == 0 {
                assert(days@.to_set() =~= Set::<u32>::empty());
            }
            if option != LastDayOption::NA {
                lemma_sorted_at_most_one(days@);
            }
        },
        DayCycle::OnWeekDays { weekdays, option } => {
            if weekdays@.len() == 0 {
                assert(weekday_indices(weekdays@).to_set() =~= Set::<u32>::empty());
            }
            if option != WeekdayOption::NA {
                lemma_sorted_weekdays_at_most_one(weekdays@);
            }
        },
        _ => {},
    }
}

/// Printing a spec that the parser read, then parsing the text again, gives
/// the spec back.
pub proof fn law_parse_print_round_trip(b: Seq<u8>, sp: Spec)
    requires
        sp.wf(),
        parse_date_text(b) == Some(sp.model()),
    ensures
        parse_date_text(spec_display_text(sp)) == Some(sp.model()),
{
    law_parsed_specs_are_canonical(b, sp);
    law_date_spec_round_trip(sp);
}

} // verus!
