//! Date specs: `<years>-<months>-<days>[~<adj>]`.

use vstd::prelude::*;

use crate::biz_day::Direction;
use crate::calendar::{Weekday, WeekdayStartingMonday};
use crate::error::{Error, Result};
use crate::text::{self, is_digit, scan_number};

verus! {

/// How the years or the months advance.
#[derive(Debug, PartialEq, Eq, Hash, Clone)]
pub enum Cycle {
    /// `_`: keep the current value.
    AsIs,
    /// `YY` / `MM`: every year or month.
    ForEach,
    /// `2025` / `[2024,2025]`: these values only (sorted, without repeats).
    Values(Vec<u32>),
    /// `1Y` / `3M`: every n-th, aligned to the start of the iteration.
    NextNth(u32),
}

/// The step unit of [`DayCycle::NextNth`].
#[derive(Debug, PartialEq, Eq, Structural, Hash, Clone, Copy)]
pub enum NextNthDayOption {
    /// `nD`: calendar days.
    Regular,
    /// `nBD`: business days of the iteration's business-day processor.
    BizDay,
    /// `nWD`: Monday to Friday.
    WeekDay,
}

/// What a target day that the month does not have becomes.
#[derive(Debug, PartialEq, Eq, Structural, Hash, Clone, Copy)]
pub enum LastDayOption {
    /// The month is skipped.
    NA,
    /// `ddL` / `L`: the last day of the month.
    LastDay,
    /// `ddN`: observed on the 1st of the next month.
    NextMonthFirstDay,
    /// `ddO`: observed that many days into the next month.
    NextMonthOverflow,
}

/// Which occurrence of a weekday in the month.
#[derive(Debug, PartialEq, Eq, Structural, Hash, Clone, Copy)]
pub enum WeekdayOption {
    /// Every occurrence.
    NA,
    /// `WD#n`: the n-th from the start of the month.
    Starting(Option<u8>),
    /// `WD#L` / `WD#nL`: the last, or the n-th from the end.
    Ending(Option<u8>),
}

/// How the day advances.
#[derive(Debug, PartialEq, Eq, Hash, Clone)]
pub enum DayCycle {
    /// Keep the current day.
    AsIs,
    /// `DD` or `_`: every day.
    ForEach,
    /// `7D` / `5BD` / `3WD`: advance by n units.
    NextNth(u32, NextNthDayOption),
    /// `15`, `[5,15]`, `31L`, `L`, `31N`, `31O`: days of the month (sorted,
    /// without repeats).
    OnDays { days: Vec<u32>, option: LastDayOption },
    /// `FRI`, `[MON,WED]`, `FRI#2`, `FRI#L`, `FRI#2L`: weekdays (sorted from
    /// Monday, without repeats).
    OnWeekDays { weekdays: Vec<WeekdayStartingMonday>, option: WeekdayOption },
}

/// Business-day adjustment of the raw date.
#[derive(Debug, PartialEq, Eq, Structural, Clone, Copy)]
pub enum BizDayAdjustment {
    /// No adjustment.
    NA,
    /// `~W`, `~NW`, `~PW`: roll a weekend day to a weekday.
    Weekday(Direction),
    /// `~B`, `~NB`, `~PB`: roll a non-business day to a business day.
    BizDay(Direction),
    /// `~nP`: n business days earlier, always.
    Prev(u32),
    /// `~nN`: n business days later, always.
    Next(u32),
}

/// A parsed date spec.
#[derive(Debug, Clone, PartialEq, Eq)]
pub struct Spec {
    pub years: Cycle,
    pub months: Cycle,
    pub days: DayCycle,
    pub biz_day_adj: Option<BizDayAdjustment>,
}

/// Mathematical model of a [`Cycle`].
pub ghost enum CycleModel {
    AsIs,
    ForEach,
    Values(Set<u32>),
    NextNth(u32),
}

/// Mathematical model of a [`DayCycle`]; weekdays by index from Monday.
pub ghost enum DayCycleModel {
    AsIs,
    ForEach,
    NextNth(u32, NextNthDayOption),
    OnDays(Set<u32>, LastDayOption),
    OnWeekDays(Set<u32>, WeekdayOption),
}

/// Mathematical model of a [`Spec`].
pub ghost struct SpecModel {
    pub years: CycleModel,
    pub months: CycleModel,
    pub days: DayCycleModel,
    pub biz_day_adj: Option<BizDayAdjustment>,
}

pub open spec fn strictly_sorted(s: Seq<u32>) -> bool {
    forall|i: int, j: int| 0 <= i < j < s.len() ==> s[i] < s[j]
}

pub open spec fn weekday_indices(s: Seq<WeekdayStartingMonday>) -> Seq<u32> {
    s.map_values(|w: WeekdayStartingMonday| w.0.index() as u32)
}

pub open spec fn strictly_sorted_weekdays(s: Seq<WeekdayStartingMonday>) -> bool {
    forall|i: int, j: int| 0 <= i < j < s.len() ==> s[i].0.index() < s[j].0.index()
}

impl Cycle {
    pub open spec fn model(&self) -> CycleModel {
        match self {
            Cycle::AsIs => CycleModel::AsIs,
            Cycle::ForEach => CycleModel::ForEach,
            Cycle::Values(v) => CycleModel::Values(v@.to_set()),
            Cycle::NextNth(n) => CycleModel::NextNth(*n),
        }
    }

    /// A value set is sorted without repeats.
    pub open spec fn wf(&self) -> bool {
        self matches Cycle::Values(v) ==> strictly_sorted(v@)
    }
}

impl DayCycle {
    pub open spec fn model(&self) -> DayCycleModel {
        match self {
            DayCycle::AsIs => DayCycleModel::AsIs,
            DayCycle::ForEach => DayCycleModel::ForEach,
            DayCycle::NextNth(n, o) => DayCycleModel::NextNth(*n, *o),
            DayCycle::OnDays { days, option } => DayCycleModel::OnDays(days@.to_set(), *option),
            DayCycle::OnWeekDays { weekdays, option } => DayCycleModel::OnWeekDays(
                weekday_indices(weekdays@).to_set(),
                *option,
            ),
        }
    }

    /// Day and weekday sets are sorted without repeats.
    pub open spec fn wf(&self) -> bool {
        &&& (self matches DayCycle::OnDays { days, .. } ==> strictly_sorted(days@))
        &&& (self matches DayCycle::OnWeekDays { weekdays, .. } ==> strictly_sorted_weekdays(
            weekdays@,
        ))
    }
}

impl Spec {
    pub open spec fn model(&self) -> SpecModel {
        SpecModel {
            years: self.years.model(),
            months: self.months.model(),
            days: self.days.model(),
            biz_day_adj: self.biz_day_adj,
        }
    }

    pub open spec fn wf(&self) -> bool {
        self.years.wf() && self.months.wf() && self.days.wf()
    }
}


// ---------------------------------------------------------------------------
// Grammar
// ---------------------------------------------------------------------------

/// Byte `b` stands at position `pos`.
pub open spec fn byte_at(s: Seq<u8>, pos: int, b: u8) -> bool {
    0 <= pos < s.len() && s[pos] == b
}

/// Bytes `a` then `b` stand at position `pos`.
pub open spec fn pair_at(s: Seq<u8>, pos: int, a: u8, b: u8) -> bool {
    byte_at(s, pos, a) && byte_at(s, pos + 1, b)
}

/// An unsigned 32-bit number at `pos`, and where it ends.
pub open spec fn num_at(s: Seq<u8>, pos: nat) -> Option<(u32, nat)> {
    match text::leading_number(s.skip(pos as int), 4294967295) {
        Some((v, k)) => Some((v as u32, pos + k)),
        None => None,
    }
}

/// The `,n` items that follow position `pos`, and where they end.
pub open spec fn num_list_tail(s: Seq<u8>, pos: nat) -> (Seq<u32>, nat)
    decreases s.len() - pos,
{
    if byte_at(s, pos as int, 44) {
        match num_at(s, pos + 1) {
            Some((n, e)) => if pos < e <= s.len() {
                let r = num_list_tail(s, e);
                (seq![n] + r.0, r.1)
            } else {
                (Seq::empty(), pos)
            },
            None => (Seq::empty(), pos),
        }
    } else {
        (Seq::empty(), pos)
    }
}

/// A bracketed list of numbers `[n,n,...]` at `pos`.
pub open spec fn num_list(s: Seq<u8>, pos: nat) -> Option<(Seq<u32>, nat)> {
    if byte_at(s, pos as int, 91) {
        match num_at(s, pos + 1) {
            Some((n, e)) => {
                let r = num_list_tail(s, e);
                if byte_at(s, r.1 as int, 93) {
                    Some((seq![n] + r.0, r.1 + 1))
                } else {
                    None
                }
            },
            None => None,
        }
    } else {
        None
    }
}

pub open spec fn triple_at(s: Seq<u8>, pos: int, a: u8, b: u8, c: u8) -> bool {
    byte_at(s, pos, a) && byte_at(s, pos + 1, b) && byte_at(s, pos + 2, c)
}

/// A weekday name (`MON` ... `SUN`) at `pos`: its index from Monday.
pub open spec fn weekday_at(s: Seq<u8>, pos: nat) -> Option<u32> {
    let p = pos as int;
    if triple_at(s, p, 77, 79, 78) {
        Some(0)
    } else if triple_at(s, p, 84, 85, 69) {
        Some(1)
    } else if triple_at(s, p, 87, 69, 68) {
        Some(2)
    } else if triple_at(s, p, 84, 72, 85) {
        Some(3)
    } else if triple_at(s, p, 70, 82, 73) {
        Some(4)
    } else if triple_at(s, p, 83, 65, 84) {
        Some(5)
    } else if triple_at(s, p, 83, 85, 78) {
        Some(6)
    } else {
        None
    }
}

/// The `,WD` items that follow position `pos`, and where they end.
pub open spec fn weekday_list_tail(s: Seq<u8>, pos: nat) -> (Seq<u32>, nat)
    decreases s.len() - pos,
{
    if byte_at(s, pos as int, 44) {
        match weekday_at(s, pos + 1) {
            Some(w) => if pos + 4 <= s.len() {
                let r = weekday_list_tail(s, pos + 4);
                (seq![w] + r.0, r.1)
            } else {
                (Seq::empty(), pos)
            },
            None => (Seq::empty(), pos),
        }
    } else {
        (Seq::empty(), pos)
    }
}

/// A bracketed list of weekday names at `pos`.
pub open spec fn weekday_list(s: Seq<u8>, pos: nat) -> Option<(Seq<u32>, nat)> {
    if byte_at(s, pos as int, 91) {
        match weekday_at(s, pos + 1) {
            Some(w) => {
                let r = weekday_list_tail(s, pos + 4);
                if byte_at(s, r.1 as int, 93) {
                    Some((seq![w] + r.0, r.1 + 1))
                } else {
                    None
                }
            },
            None => None,
        }
    } else {
        None
    }
}

/// The years or months component at `pos`: a bracketed list, `YY`/`MM`
/// (every value), `_` (keep the current value), `nY`/`nM`, or a single
/// number.
pub open spec fn cycle_at(s: Seq<u8>, pos: nat) -> Option<(CycleModel, nat)> {
    match num_list(s, pos) {
        Some((l, e)) => Some((CycleModel::Values(l.to_set()), e)),
        None => if pair_at(s, pos as int, 89, 89) || pair_at(s, pos as int, 77, 77) {
            Some((CycleModel::ForEach, pos + 2))
        } else if byte_at(s, pos as int, 95) {
            Some((CycleModel::AsIs, pos + 1))
        } else {
            match num_at(s, pos) {
                Some((n, e)) => if byte_at(s, e as int, 89) || byte_at(s, e as int, 77) {
                    Some((CycleModel::NextNth(n), e + 1))
                } else {
                    Some((CycleModel::Values(set![n]), e))
                },
                None => None,
            }
        },
    }
}

/// The number of an occurrence selector: its digits read as a `u8`, or 1
/// when there are none or they do not fit.
pub open spec fn selector_number(digits: Seq<u8>) -> u8 {
    if digits.len() > 0 && text::decimal_value(digits) <= 255 {
        text::decimal_value(digits) as u8
    } else {
        1
    }
}

/// The occurrence selector after `WD#` at `pos` and where it ends.
pub open spec fn selector_at(s: Seq<u8>, pos: nat) -> (WeekdayOption, nat) {
    let d = text::digit_run(s.skip(pos as int));
    let q = pos + d;
    let digits = s.skip(pos as int).take(d as int);
    if byte_at(s, q as int, 76) {
        if d == 0 {
            (WeekdayOption::Ending(None), q + 1)
        } else {
            (WeekdayOption::Ending(Some(selector_number(digits))), q + 1)
        }
    } else {
        (WeekdayOption::Starting(Some(selector_number(digits))), q)
    }
}

/// Where the number at `pos` ends (meaningful when there is one).
pub open spec fn num_end(s: Seq<u8>, pos: nat) -> int {
    let r = num_at(s, pos)->0;
    r.1 as int
}

/// A step unit `BD`, `WD` or `D` stands at `pos`.
pub open spec fn step_unit_at(s: Seq<u8>, pos: int) -> bool {
    pair_at(s, pos, 66, 68) || pair_at(s, pos, 87, 68) || byte_at(s, pos, 68)
}

/// The day component at `pos`, tried in the grammar's order: weekday list,
/// day list, `WD#...`, weekday, `nBD`/`nWD`/`nD`, `DD`/`_`/`L`, `n[L|N|O]`.
pub open spec fn day_at(s: Seq<u8>, pos: nat) -> Option<(DayCycleModel, nat)> {
    let p = pos as int;
    if weekday_list(s, pos) is Some {
        let (l, e) = weekday_list(s, pos)->0;
        Some((DayCycleModel::OnWeekDays(l.to_set(), WeekdayOption::NA), e))
    } else if num_list(s, pos) is Some {
        let (l, e) = num_list(s, pos)->0;
        Some((DayCycleModel::OnDays(l.to_set(), LastDayOption::NA), e))
    } else if weekday_at(s, pos) is Some && byte_at(s, p + 3, 35) {
        let w = weekday_at(s, pos)->0;
        let (o, e) = selector_at(s, pos + 4);
        Some((DayCycleModel::OnWeekDays(set![w], o), e))
    } else if weekday_at(s, pos) is Some {
        Some((DayCycleModel::OnWeekDays(set![weekday_at(s, pos)->0], WeekdayOption::NA), pos + 3))
    } else if num_at(s, pos) is Some && step_unit_at(s, num_end(s, pos)) {
        let (n, e) = num_at(s, pos)->0;
        if pair_at(s, e as int, 66, 68) {
            Some((DayCycleModel::NextNth(n, NextNthDayOption::BizDay), e + 2))
        } else if pair_at(s, e as int, 87, 68) {
            Some((DayCycleModel::NextNth(n, NextNthDayOption::WeekDay), e + 2))
        } else {
            Some((DayCycleModel::NextNth(n, NextNthDayOption::Regular), e + 1))
        }
    } else if pair_at(s, p, 68, 68) {
        Some((DayCycleModel::ForEach, pos + 2))
    } else if byte_at(s, p, 95) {
        Some((DayCycleModel::AsIs, pos + 1))
    } else if byte_at(s, p, 76) {
        Some((DayCycleModel::OnDays(Set::empty(), LastDayOption::LastDay), pos + 1))
    } else if num_at(s, pos) is Some {
        let (n, e) = num_at(s, pos)->0;
        if byte_at(s, e as int, 76) {
            Some((DayCycleModel::OnDays(set![n], LastDayOption::LastDay), e + 1))
        } else if byte_at(s, e as int, 78) {
            Some((DayCycleModel::OnDays(set![n], LastDayOption::NextMonthFirstDay), e + 1))
        } else if byte_at(s, e as int, 79) {
            Some((DayCycleModel::OnDays(set![n], LastDayOption::NextMonthOverflow), e + 1))
        } else {
            Some((DayCycleModel::OnDays(set![n], LastDayOption::NA), e))
        }
    } else {
        None
    }
}

/// The count of an adjustment `~nP` / `~nN`: the digits as a `u32`, or 1
/// when there are none or they do not fit.
pub open spec fn adjustment_count(digits: Seq<u8>) -> u32 {
    if digits.len() > 0 && text::decimal_value(digits) <= 4294967295 {
        text::decimal_value(digits) as u32
    } else {
        1
    }
}

/// The business-day adjustment `~...` at `pos`.
pub open spec fn adjustment_at(s: Seq<u8>, pos: nat) -> Option<(BizDayAdjustment, nat)> {
    let p = pos as int + 1;
    if !byte_at(s, pos as int, 126) {
        None
    } else if pair_at(s, p, 80, 87) {
        Some((BizDayAdjustment::Weekday(Direction::Prev), pos + 3))
    } else if pair_at(s, p, 78, 87) {
        Some((BizDayAdjustment::Weekday(Direction::Next), pos + 3))
    } else if pair_at(s, p, 80, 66) {
        Some((BizDayAdjustment::BizDay(Direction::Prev), pos + 3))
    } else if pair_at(s, p, 78, 66) {
        Some((BizDayAdjustment::BizDay(Direction::Next), pos + 3))
    } else if byte_at(s, p, 66) {
        Some((BizDayAdjustment::BizDay(Direction::Nearest), pos + 2))
    } else if byte_at(s, p, 87) {
        Some((BizDayAdjustment::Weekday(Direction::Nearest), pos + 2))
    } else {
        let d = text::digit_run(s.skip(p));
        let q = p + d;
        let digits = s.skip(p).take(d as int);
        if byte_at(s, q, 80) {
            Some((BizDayAdjustment::Prev(adjustment_count(digits)), (q + 1) as nat))
        } else if byte_at(s, q, 78) {
            Some((BizDayAdjustment::Next(adjustment_count(digits)), (q + 1) as nat))
        } else {
            None
        }
    }
}

pub open spec fn is_space(b: u8) -> bool {
    b == 32 || b == 9 || b == 10 || b == 13
}

/// Length of the run of white space at `pos`.
pub open spec fn space_run(s: Seq<u8>, pos: nat) -> nat
    decreases s.len() - pos,
{
    if pos < s.len() && is_space(s[pos as int]) {
        1 + space_run(s, pos + 1)
    } else {
        0
    }
}

/// The date spec that the text `s` denotes, if any.
pub open spec fn parse_date_text(s: Seq<u8>) -> Option<SpecModel> {
    match cycle_at(s, 0) {
        None => None,
        Some((y, p1)) => if !byte_at(s, p1 as int, 45) {
            None
        } else {
            match cycle_at(s, p1 + 1) {
                None => None,
                Some((m, p2)) => if !byte_at(s, p2 as int, 45) {
                    None
                } else {
                    match day_at(s, p2 + 1) {
                        None => None,
                        Some((d, p3)) => if p3 == s.len() {
                            Some(SpecModel { years: y, months: m, days: d, biz_day_adj: None })
                        } else {
                            match adjustment_at(s, p3 + space_run(s, p3)) {
                                Some((a, e)) => if e == s.len() {
                                    Some(SpecModel { years: y, months: m, days: d, biz_day_adj: Some(a) })
                                } else {
                                    None
                                },
                                None => None,
                            }
                        },
                    }
                },
            }
        },
    }
}

/// Inserts `x` into a sorted vector without repeats.
pub fn insert_sorted(v: &mut Vec<u32>, x: u32)
    requires
        strictly_sorted(old(v)@),
    ensures
        strictly_sorted(final(v)@),
        final(v)@.to_set() == old(v)@.to_set().insert(x),
{
    let mut i: usize = 0;
    while i < v.len() && v[i] < x
        invariant
            0 <= i <= v.len(),
            v@ == old(v)@,
            forall|j: int| 0 <= j < i ==> v@[j] < x,
        decreases v.len() - i,
    {
        i = i + 1;
    }
    if i < v.len() && v[i] == x {
        proof {
            assert(old(v)@.to_set().insert(x) =~= old(v)@.to_set()) by {
                assert(old(v)@.to_set().contains(old(v)@[i as int]));
            }
        }
        return;
    }
    v.insert(i, x);
    proof {
        let o = old(v)@;
        let n = v@;
        assert(n =~= o.subrange(0, i as int).push(x) + o.subrange(i as int, o.len() as int));
        assert forall|a: int, b: int| 0 <= a < b < n.len() implies n[a] < n[b] by {
            if b < i {
            } else if b == i {
            } else if a < i {
                assert(o[a] < x);
                assert(x <= o[b - 1]);
            } else if a == i {
                assert(x <= o[b - 1]);
                if x == o[b - 1] {
                    assert(b - 1 == i);
                }
            } else {
            }
        }
        assert(n.to_set() =~= o.to_set().insert(x)) by {
            assert forall|e: u32| n.to_set().contains(e) implies o.to_set().insert(x).contains(e) by {
                let k = choose|k: int| 0 <= k < n.len() && n[k] == e;
                if k < i {
                    assert(o[k] == e);
                } else if k > i {
                    assert(o[k - 1] == e);
                }
            }
            assert forall|e: u32| o.to_set().insert(x).contains(e) implies n.to_set().contains(e) by {
                if e == x {
                    assert(n[i as int] == x);
                } else {
                    let k = choose|k: int| 0 <= k < o.len() && o[k] == e;
                    if k < i {
                        assert(n[k] == e);
                    } else {
                        assert(n[k + 1] == e);
                    }
                }
            }
        }
    }
}


impl core::str::FromStr for Spec {
    type Err = Error;

    fn from_str(s: &str) -> (r: Result<Spec>)
        ensures
            r matches Ok(sp) ==> parse_date_text(vstd::utf8::encode_utf8(s@)) == Some(sp.model())
                && sp.wf(),
            r is Err <==> parse_date_text(vstd::utf8::encode_utf8(s@)) is None,
            r matches Err(e) ==> (e matches Error::InvalidDateSpec(m) && m@
                == crate::time::spec::failure_text(s@)),
    {
        crate::date::parser::parse_spec(s)
    }
}

} // verus!
