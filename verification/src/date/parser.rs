//! Reading date specs: each function reads one production of the grammar
//! in `spec.rs` at a byte position.

use vstd::prelude::*;

use crate::biz_day::Direction;
use crate::calendar::{Weekday, WeekdayStartingMonday};
use crate::date::spec::{
    adjustment_at, adjustment_count, byte_at, cycle_at, day_at, insert_sorted, num_at, num_list,
    num_list_tail, parse_date_text, selector_at, selector_number, space_run, strictly_sorted,
    strictly_sorted_weekdays, weekday_at, weekday_indices, weekday_list, weekday_list_tail,
    BizDayAdjustment, Cycle, CycleModel, DayCycle, DayCycleModel, LastDayOption,
    NextNthDayOption, Spec, WeekdayOption,
};
use crate::error::{Error, Result};
use crate::text::scan_number;
use crate::time::spec::{failure_message, failure_text};

verus! {

proof fn lemma_prepend_to_set<A>(x: A, t: Seq<A>)
    ensures
        (seq![x] + t).to_set() == t.to_set().insert(x),
{
    let s = seq![x] + t;
    assert forall|e: A| s.to_set().contains(e) implies t.to_set().insert(x).contains(e) by {
        let k = choose|k: int| 0 <= k < s.len() && s[k] == e;
        if k > 0 {
            assert(t[k - 1] == e);
        }
    }
    assert forall|e: A| t.to_set().insert(x).contains(e) implies s.to_set().contains(e) by {
        if e == x {
            assert(s[0] == x);
        } else {
            let k = choose|k: int| 0 <= k < t.len() && t[k] == e;
            assert(s[k + 1] == e);
        }
    }
    assert(s.to_set() =~= t.to_set().insert(x));
}

/// An unsigned 32-bit number at `pos`.
fn parse_num(s: &[u8], pos: usize) -> (r: Option<(u32, usize)>)
    requires
        pos <= s@.len(),
    ensures
        match r {
            Some((n, e)) => num_at(s@, pos as nat) == Some((n, e as nat)) && pos < e <= s@.len(),
            None => num_at(s@, pos as nat) is None,
        },
{
    let len = s.len();
    let (v, k) = scan_number(s, pos, 4294967295);
    if k == 0 {
        return None;
    }
    assert(pos + k <= len);
    match v {
        None => None,
        Some(x) => Some((x as u32, pos + k)),
    }
}

fn parse_num_list_tail(s: &[u8], pos: usize, acc: &mut Vec<u32>) -> (end: usize)
    requires
        pos <= s@.len(),
        strictly_sorted(old(acc)@),
    ensures
        end as nat == num_list_tail(s@, pos as nat).1,
        pos <= end <= s@.len(),
        strictly_sorted(final(acc)@),
        final(acc)@.to_set() == old(acc)@.to_set().union(num_list_tail(s@, pos as nat).0.to_set()),
    decreases s@.len() - pos,
{
    if pos < s.len() && s[pos] == 44 {
        match parse_num(s, pos + 1) {
            Some((n, e)) => {
                insert_sorted(acc, n);
                let end = parse_num_list_tail(s, e, acc);
                proof {
                    let r = num_list_tail(s@, e as nat);
                    lemma_prepend_to_set(n, r.0);
                    assert(final(acc)@.to_set() =~= old(acc)@.to_set().union(
                        num_list_tail(s@, pos as nat).0.to_set(),
                    ));
                }
                end
            },
            None => {
                assert(old(acc)@.to_set().union(Seq::<u32>::empty().to_set()) =~= old(
                    acc,
                )@.to_set());
                pos
            },
        }
    } else {
        assert(old(acc)@.to_set().union(Seq::<u32>::empty().to_set()) =~= old(acc)@.to_set());
        pos
    }
}

/// A bracketed list of numbers, as a sorted set.
fn parse_num_list(s: &[u8], pos: usize) -> (r: Option<(Vec<u32>, usize)>)
    requires
        pos <= s@.len(),
    ensures
        match r {
            Some((v, e)) => num_list(s@, pos as nat) matches Some((l, e2)) && e2 == e
                && v@.to_set() == l.to_set() && strictly_sorted(v@) && e <= s@.len(),
            None => num_list(s@, pos as nat) is None,
        },
{
    if pos < s.len() && s[pos] == 91 {
        match parse_num(s, pos + 1) {
            Some((n, e)) => {
                let mut v: Vec<u32> = Vec::new();
                v.push(n);
                proof {
                    assert(v@ =~= seq![n]);
                }
                let end = parse_num_list_tail(s, e, &mut v);
                if end < s.len() && s[end] == 93 {
                    proof {
                        let r = num_list_tail(s@, e as nat);
                        lemma_prepend_to_set(n, r.0);
                        assert(seq![n].to_set() =~= set![n]) by {
                            assert(seq![n][0] == n);
                        }
                        assert(v@.to_set() =~= (seq![n] + r.0).to_set());
                    }
                    Some((v, end + 1))
                } else {
                    None
                }
            },
            None => None,
        }
    } else {
        None
    }
}

/// A weekday name at `pos`, by its index from Monday.
fn parse_weekday(s: &[u8], pos: usize) -> (r: Option<u32>)
    requires
        pos <= s@.len(),
    ensures
        match r {
            Some(w) => weekday_at(s@, pos as nat) == Some(w) && pos + 3 <= s@.len() && w < 7,
            None => weekday_at(s@, pos as nat) is None,
        },
{
    if s.len() - pos < 3 {
        return None;
    }
    let a = s[pos];
    let b = s[pos + 1];
    let c = s[pos + 2];
    if a == 77 && b == 79 && c == 78 {
        Some(0)
    } else if a == 84 && b == 85 && c == 69 {
        Some(1)
    } else if a == 87 && b == 69 && c == 68 {
        Some(2)
    } else if a == 84 && b == 72 && c == 85 {
        Some(3)
    } else if a == 70 && b == 82 && c == 73 {
        Some(4)
    } else if a == 83 && b == 65 && c == 84 {
        Some(5)
    } else if a == 83 && b == 85 && c == 78 {
        Some(6)
    } else {
        None
    }
}

fn parse_weekday_list_tail(s: &[u8], pos: usize, acc: &mut Vec<u32>) -> (end: usize)
    requires
        pos <= s@.len(),
        strictly_sorted(old(acc)@),
        forall|i: int| 0 <= i < old(acc)@.len() ==> old(acc)@[i] < 7,
    ensures
        end as nat == weekday_list_tail(s@, pos as nat).1,
        pos <= end <= s@.len(),
        strictly_sorted(final(acc)@),
        forall|i: int| 0 <= i < final(acc)@.len() ==> final(acc)@[i] < 7,
        final(acc)@.to_set() == old(acc)@.to_set().union(
            weekday_list_tail(s@, pos as nat).0.to_set(),
        ),
    decreases s@.len() - pos,
{
    if pos < s.len() && s[pos] == 44 {
        match parse_weekday(s, pos + 1) {
            Some(w) => {
                insert_sorted(acc, w);
                proof {
                    assert forall|i: int| 0 <= i < acc@.len() implies acc@[i] < 7 by {
                        assert(acc@.to_set().contains(acc@[i]));
                        if acc@[i] != w {
                            assert(old(acc)@.to_set().contains(acc@[i]));
                        }
                    }
                }
                let end = parse_weekday_list_tail(s, pos + 4, acc);
                proof {
                    let r = weekday_list_tail(s@, (pos + 4) as nat);
                    lemma_prepend_to_set(w, r.0);
                    assert(final(acc)@.to_set() =~= old(acc)@.to_set().union(
                        weekday_list_tail(s@, pos as nat).0.to_set(),
                    ));
                }
                end
            },
            None => {
                assert(old(acc)@.to_set().union(Seq::<u32>::empty().to_set()) =~= old(
                    acc,
                )@.to_set());
                pos
            },
        }
    } else {
        assert(old(acc)@.to_set().union(Seq::<u32>::empty().to_set()) =~= old(acc)@.to_set());
        pos
    }
}

/// Weekdays of sorted indices below 7.
fn weekdays_of(v: &Vec<u32>) -> (r: Vec<WeekdayStartingMonday>)
    requires
        strictly_sorted(v@),
        forall|i: int| 0 <= i < v@.len() ==> v@[i] < 7,
    ensures
        weekday_indices(r@) == v@,
        strictly_sorted_weekdays(r@),
{
    let mut out: Vec<WeekdayStartingMonday> = Vec::new();
    let mut i: usize = 0;
    while i < v.len()
        invariant
            0 <= i <= v@.len(),
            out@.len() == i,
            forall|j: int| 0 <= j < i ==> out@[j].0.index() == v@[j] as int,
            forall|j: int| 0 <= j < v@.len() ==> v@[j] < 7,
        decreases v@.len() - i,
    {
        out.push(WeekdayStartingMonday(Weekday::from_index(v[i])));
        i = i + 1;
    }
    assert(weekday_indices(out@) =~= v@);
    assert forall|a: int, b: int| 0 <= a < b < out@.len() implies out@[a].0.index()
        < out@[b].0.index() by {
        assert(v@[a] < v@[b]);
    }
    out
}

/// A bracketed list of weekday names, as a sorted set.
fn parse_weekday_list(s: &[u8], pos: usize) -> (r: Option<(Vec<WeekdayStartingMonday>, usize)>)
    requires
        pos <= s@.len(),
    ensures
        match r {
            Some((v, e)) => weekday_list(s@, pos as nat) matches Some((l, e2)) && e2 == e
                && weekday_indices(v@).to_set() == l.to_set() && strictly_sorted_weekdays(v@)
                && e <= s@.len(),
            None => weekday_list(s@, pos as nat) is None,
        },
{
    if pos < s.len() && s[pos] == 91 {
        match parse_weekday(s, pos + 1) {
            Some(w) => {
                let mut v: Vec<u32> = Vec::new();
                v.push(w);
                proof {
                    assert(v@ =~= seq![w]);
                }
                let end = parse_weekday_list_tail(s, pos + 4, &mut v);
                if end < s.len() && s[end] == 93 {
                    proof {
                        let r = weekday_list_tail(s@, (pos + 4) as nat);
                        lemma_prepend_to_set(w, r.0);
                        assert(seq![w].to_set() =~= set![w]) by {
                            assert(seq![w][0] == w);
                        }
                        assert(v@.to_set() =~= (seq![w] + r.0).to_set());
                    }
                    let days = weekdays_of(&v);
                    Some((days, end + 1))
                } else {
                    None
                }
            },
            None => None,
        }
    } else {
        None
    }
}

/// The years or months component at `pos`.
fn parse_cycle(s: &[u8], pos: usize) -> (r: Option<(Cycle, usize)>)
    requires
        pos <= s@.len(),
    ensures
        match r {
            Some((c, e)) => cycle_at(s@, pos as nat) == Some((c.model(), e as nat)) && c.wf()
                && e <= s@.len(),
            None => cycle_at(s@, pos as nat) is None,
        },
{
    if let Some((v, e)) = parse_num_list(s, pos) {
        return Some((Cycle::Values(v), e));
    }
    let len = s.len();
    if len - pos >= 2 && ((s[pos] == 89 && s[pos + 1] == 89) || (s[pos] == 77 && s[pos + 1]
        == 77)) {
        return Some((Cycle::ForEach, pos + 2));
    }
    if len - pos >= 1 && s[pos] == 95 {
        return Some((Cycle::AsIs, pos + 1));
    }
    match parse_num(s, pos) {
        Some((n, e)) => {
            if e < len && (s[e] == 89 || s[e] == 77) {
                Some((Cycle::NextNth(n), e + 1))
            } else {
                let mut v: Vec<u32> = Vec::new();
                v.push(n);
                proof {
                    assert(v@.to_set() =~= set![n]) by {
                        assert(v@[0] == n);
                    }
                }
                Some((Cycle::Values(v), e))
            }
        },
        None => None,
    }
}

/// The occurrence selector after `WD#`.
fn parse_selector(s: &[u8], pos: usize) -> (r: (WeekdayOption, usize))
    requires
        pos <= s@.len(),
    ensures
        selector_at(s@, pos as nat) == (r.0, r.1 as nat),
        r.1 <= s@.len(),
{
    let len = s.len();
    let (v, k) = scan_number(s, pos, 255);
    assert(pos + k <= len);
    let q = pos + k;
    let ghost digits = s@.skip(pos as int).take(k as int);
    let n: u8 = match v {
        Some(x) => if k > 0 {
            x as u8
        } else {
            1
        },
        None => 1,
    };
    proof {
        if k == 0 {
            assert(digits.len() == 0);
        }
        assert(n == selector_number(digits));
    }
    if q < s.len() && s[q] == 76 {
        if k == 0 {
            (WeekdayOption::Ending(None), q + 1)
        } else {
            (WeekdayOption::Ending(Some(n)), q + 1)
        }
    } else {
        (WeekdayOption::Starting(Some(n)), q)
    }
}

/// The day component at `pos`.
fn parse_day(s: &[u8], pos: usize) -> (r: Option<(DayCycle, usize)>)
    requires
        pos <= s@.len(),
    ensures
        match r {
            Some((d, e)) => day_at(s@, pos as nat) == Some((d.model(), e as nat)) && d.wf()
                && e <= s@.len(),
            None => day_at(s@, pos as nat) is None,
        },
{
    let len = s.len();
    if let Some((w, e)) = parse_weekday_list(s, pos) {
        return Some((DayCycle::OnWeekDays { weekdays: w, option: WeekdayOption::NA }, e));
    }
    if let Some((v, e)) = parse_num_list(s, pos) {
        return Some((DayCycle::OnDays { days: v, option: LastDayOption::NA }, e));
    }
    let wd = parse_weekday(s, pos);
    if let Some(w) = wd {
        let mut v: Vec<WeekdayStartingMonday> = Vec::new();
        v.push(WeekdayStartingMonday(Weekday::from_index(w)));
        proof {
            assert(weekday_indices(v@) =~= seq![w]);
            assert(seq![w].to_set() =~= set![w]) by {
                assert(seq![w][0] == w);
            }
        }
        if pos + 3 < len && s[pos + 3] == 35 {
            let (o, e) = parse_selector(s, pos + 4);
            return Some((DayCycle::OnWeekDays { weekdays: v, option: o }, e));
        }
        return Some((DayCycle::OnWeekDays { weekdays: v, option: WeekdayOption::NA }, pos + 3));
    }
    let num = parse_num(s, pos);
    if let Some((n, e)) = num {
        if len - e >= 2 && s[e] == 66 && s[e + 1] == 68 {
            return Some((DayCycle::NextNth(n, NextNthDayOption::BizDay), e + 2));
        }
        if len - e >= 2 && s[e] == 87 && s[e + 1] == 68 {
            return Some((DayCycle::NextNth(n, NextNthDayOption::WeekDay), e + 2));
        }
        if len - e >= 1 && s[e] == 68 {
            return Some((DayCycle::NextNth(n, NextNthDayOption::Regular), e + 1));
        }
    }
    if len - pos >= 2 && s[pos] == 68 && s[pos + 1] == 68 {
        return Some((DayCycle::ForEach, pos + 2));
    }
    if len - pos >= 1 && s[pos] == 95 {
        return Some((DayCycle::AsIs, pos + 1));
    }
    if len - pos >= 1 && s[pos] == 76 {
        let v: Vec<u32> = Vec::new();
        proof {
            assert(v@.to_set() =~= Set::<u32>::empty());
        }
        return Some((DayCycle::OnDays { days: v, option: LastDayOption::LastDay }, pos + 1));
    }
    match num {
        Some((n, e)) => {
            let mut v: Vec<u32> = Vec::new();
            v.push(n);
            proof {
                assert(v@.to_set() =~= set![n]) by {
                    assert(v@[0] == n);
                }
            }
            if e < len && s[e] == 76 {
                Some((DayCycle::OnDays { days: v, option: LastDayOption::LastDay }, e + 1))
            } else if e < len && s[e] == 78 {
                Some((DayCycle::OnDays { days: v, option: LastDayOption::NextMonthFirstDay }, e + 1))
            } else if e < len && s[e] == 79 {
                Some((DayCycle::OnDays { days: v, option: LastDayOption::NextMonthOverflow }, e + 1))
            } else {
                Some((DayCycle::OnDays { days: v, option: LastDayOption::NA }, e))
            }
        },
        None => None,
    }
}

/// The business-day adjustment at `pos`.
fn parse_adjustment(s: &[u8], pos: usize) -> (r: Option<(BizDayAdjustment, usize)>)
    requires
        pos <= s@.len(),
    ensures
        match r {
            Some((a, e)) => adjustment_at(s@, pos as nat) == Some((a, e as nat)) && e <= s@.len(),
            None => adjustment_at(s@, pos as nat) is None,
        },
{
    let len = s.len();
    if !(pos < len && s[pos] == 126) {
        return None;
    }
    let p = pos + 1;
    if len - p >= 2 {
        let a = s[p];
        let b = s[p + 1];
        if a == 80 && b == 87 {
            return Some((BizDayAdjustment::Weekday(Direction::Prev), pos + 3));
        }
        if a == 78 && b == 87 {
            return Some((BizDayAdjustment::Weekday(Direction::Next), pos + 3));
        }
        if a == 80 && b == 66 {
            return Some((BizDayAdjustment::BizDay(Direction::Prev), pos + 3));
        }
        if a == 78 && b == 66 {
            return Some((BizDayAdjustment::BizDay(Direction::Next), pos + 3));
        }
    }
    if p < len && s[p] == 66 {
        return Some((BizDayAdjustment::BizDay(Direction::Nearest), pos + 2));
    }
    if p < len && s[p] == 87 {
        return Some((BizDayAdjustment::Weekday(Direction::Nearest), pos + 2));
    }
    let (v, k) = scan_number(s, p, 4294967295);
    assert(p + k <= len);
    let q = p + k;
    let ghost digits = s@.skip(p as int).take(k as int);
    let n: u32 = match v {
        Some(x) => if k > 0 {
            x as u32
        } else {
            1
        },
        None => 1,
    };
    proof {
        if k == 0 {
            assert(digits.len() == 0);
        }
        assert(n == adjustment_count(digits));
    }
    if q < len && s[q] == 80 {
        Some((BizDayAdjustment::Prev(n), q + 1))
    } else if q < len && s[q] == 78 {
        Some((BizDayAdjustment::Next(n), q + 1))
    } else {
        None
    }
}

fn skip_space(s: &[u8], pos: usize) -> (r: usize)
    requires
        pos <= s@.len(),
    ensures
        r == pos + space_run(s@, pos as nat),
        r <= s@.len(),
    decreases s@.len() - pos,
{
    if pos < s.len() && (s[pos] == 32 || s[pos] == 9 || s[pos] == 10 || s[pos] == 13) {
        skip_space(s, pos + 1)
    } else {
        pos
    }
}

/// The date spec that the bytes denote.
pub fn parse_spec_bytes(s: &[u8]) -> (r: Option<Spec>)
    ensures
        match r {
            Some(sp) => parse_date_text(s@) == Some(sp.model()) && sp.wf(),
            None => parse_date_text(s@) is None,
        },
{
    let (years, p1) = match parse_cycle(s, 0) {
        Some(x) => x,
        None => return None,
    };
    if !(p1 < s.len() && s[p1] == 45) {
        return None;
    }
    let (months, p2) = match parse_cycle(s, p1 + 1) {
        Some(x) => x,
        None => return None,
    };
    if !(p2 < s.len() && s[p2] == 45) {
        return None;
    }
    let (days, p3) = match parse_day(s, p2 + 1) {
        Some(x) => x,
        None => return None,
    };
    if p3 == s.len() {
        return Some(Spec { years, months, days, biz_day_adj: None });
    }
    let q = skip_space(s, p3);
    match parse_adjustment(s, q) {
        Some((a, e)) => if e == s.len() {
            Some(Spec { years, months, days, biz_day_adj: Some(a) })
        } else {
            None
        },
        None => None,
    }
}

/// Parses a date spec `<years>-<months>-<days>[~<adj>]`.
pub fn parse_spec(input: &str) -> (r: Result<Spec>)
    ensures
        r matches Ok(sp) ==> parse_date_text(vstd::utf8::encode_utf8(input@)) == Some(sp.model())
            && sp.wf(),
        r is Err <==> parse_date_text(vstd::utf8::encode_utf8(input@)) is None,
        r matches Err(e) ==> e matches Error::InvalidDateSpec(m) && m@ == failure_text(
            input@,
        ),
{
    match parse_spec_bytes(input.as_bytes()) {
        Some(sp) => Ok(sp),
        None => Err(Error::InvalidDateSpec(failure_message(input))),
    }
}

} // verus!
