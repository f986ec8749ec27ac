//! ASCII text of specs: decimal numbers in both directions.

use vstd::prelude::*;

verus! {

pub open spec fn is_digit(b: u8) -> bool {
    48 <= b <= 57
}

/// Length of the run of ASCII digits that starts `s`.
pub open spec fn digit_run(s: Seq<u8>) -> nat
    decreases s.len(),
{
    if s.len() > 0 && is_digit(s[0]) {
        1 + digit_run(s.drop_first())
    } else {
        0
    }
}

/// Value of a string of ASCII digits.
pub open spec fn decimal_value(s: Seq<u8>) -> nat
    decreases s.len(),
{
    if s.len() == 0 {
        0
    } else {
        decimal_value(s.drop_last()) * 10 + (s.last() - 48) as nat
    }
}

/// An unsigned number at the start of `s` (a non-empty run of digits, all
/// of it) whose value is at most `max`: the value and the run's length.
pub open spec fn leading_number(s: Seq<u8>, max: nat) -> Option<(nat, nat)> {
    let k = digit_run(s);
    if k == 0 || decimal_value(s.take(k as int)) > max {
        None
    } else {
        Some((decimal_value(s.take(k as int)), k))
    }
}

/// Decimal text of `n`, without leading zeros.
pub open spec fn decimal_text(n: nat) -> Seq<u8>
    decreases n,
{
    if n < 10 {
        seq![(48 + n) as u8]
    } else {
        decimal_text(n / 10).push((48 + n % 10) as u8)
    }
}

/// Decimal text of `n` with at least two digits.
pub open spec fn padded_text(n: nat) -> Seq<u8> {
    if n < 10 {
        seq![48u8, (48 + n) as u8]
    } else {
        decimal_text(n)
    }
}

pub open spec fn all_digits(s: Seq<u8>) -> bool {
    forall|i: int| 0 <= i < s.len() ==> is_digit(#[trigger] s[i])
}

pub open spec fn is_ascii_text(s: Seq<u8>) -> bool {
    forall|i: int| 0 <= i < s.len() ==> #[trigger] s[i] < 128
}

/// Characters of ASCII text.
pub open spec fn text_chars(s: Seq<u8>) -> Seq<char> {
    Seq::new(s.len(), |i: int| s[i] as char)
}

/// The run of digits that starts `s` and its value (`None` when the value
/// exceeds `max`); the length of the run in either case.
pub fn scan_number(s: &[u8], pos: usize, max: u64) -> (r: (Option<u64>, usize))
    requires
        pos <= s@.len(),
    ensures
        r.1 == digit_run(s@.skip(pos as int)),
        pos + r.1 <= s@.len(),
        r.0 is Some <==> decimal_value(s@.skip(pos as int).take(r.1 as int)) <= max,
        r.0 matches Some(v) ==> v == decimal_value(s@.skip(pos as int).take(r.1 as int)),
{
    let ghost t = s@.skip(pos as int);
    let mut i: usize = pos;
    let mut v: u64 = 0;
    let mut over = false;
    proof {
        lemma_digit_run_le(t);
    }
    while i < s.len() && s[i] >= 48 && s[i] <= 57
        invariant
            pos <= i <= s@.len(),
            t == s@.skip(pos as int),
            forall|j: int| 0 <= j < i - pos ==> is_digit(#[trigger] t[j]),
            over <==> decimal_value(t.take(i - pos)) > max,
            !over ==> v == decimal_value(t.take(i - pos)),
            v <= max,
        decreases s@.len() - i,
    {
        let d = (s[i] - 48) as u64;
        proof {
            let k = i - pos;
            assert(t.take(k + 1).drop_last() =~= t.take(k));
            assert(t.take(k + 1).last() == s@[i as int]);
        }
        if !over {
            if d > max || v > (max - d) / 10 {
                over = true;
                proof {
                    assert(v * 10 + d > max) by (nonlinear_arith)
                        requires
                            d > max || v > (max - d) / 10,
                            d <= 9,
                    ;
                }
            } else {
                proof {
                    assert(v * 10 + d <= max) by (nonlinear_arith)
                        requires
                            v <= (max - d) / 10,
                            d <= max,
                    ;
                }
                v = v * 10 + d;
                if v > max {
                    over = true;
                }
            }
        } else {
            proof {
                let k = i - pos;
                assert(decimal_value(t.take(k + 1)) >= decimal_value(t.take(k))) by (nonlinear_arith)
                    requires
                        decimal_value(t.take(k + 1)) == decimal_value(t.take(k)) * 10 + (
                        s@[i as int] - 48) as nat,
                ;
            }
        }
        i = i + 1;
    }
    proof {
        lemma_digit_run_of_prefix(t, (i - pos) as nat);
    }
    if over {
        (None, i - pos)
    } else {
        (Some(v), i - pos)
    }
}

pub proof fn lemma_digit_run_le(s: Seq<u8>)
    ensures
        digit_run(s) <= s.len(),
    decreases s.len(),
{
    if s.len() > 0 && is_digit(s[0]) {
        lemma_digit_run_le(s.drop_first());
    }
}

/// A run of `k` digits that ends at the end of `s` or before a non-digit
/// is the digit run of `s`.
pub proof fn lemma_digit_run_of_prefix(s: Seq<u8>, k: nat)
    requires
        k <= s.len(),
        forall|j: int| 0 <= j < k ==> is_digit(#[trigger] s[j]),
        k == s.len() || !is_digit(s[k as int]),
    ensures
        digit_run(s) == k,
    decreases k,
{
    if k > 0 {
        let t = s.drop_first();
        assert forall|j: int| 0 <= j < k - 1 implies is_digit(#[trigger] t[j]) by {
            assert(t[j] == s[j + 1]);
        }
        lemma_digit_run_of_prefix(t, (k - 1) as nat);
    }
}

pub proof fn lemma_decimal_text(n: nat)
    ensures
        decimal_text(n).len() >= 1,
        all_digits(decimal_text(n)),
        decimal_value(decimal_text(n)) == n,
    decreases n,
{
    if n >= 10 {
        lemma_decimal_text(n / 10);
        let t = decimal_text(n);
        assert(t.drop_last() =~= decimal_text(n / 10));
        assert(t.last() == (48 + n % 10) as u8);
        assert((t.last() - 48) as nat == n % 10);
        assert(decimal_value(t) == decimal_value(t.drop_last()) * 10 + (t.last() - 48) as nat);
        assert(n == (n / 10) * 10 + n % 10) by (nonlinear_arith);
    } else {
        let t = decimal_text(n);
        assert(t.drop_last() =~= Seq::<u8>::empty());
        assert(decimal_value(Seq::<u8>::empty()) == 0);
        assert(decimal_value(t.drop_last()) == 0);
        assert(t.last() == (48 + n) as u8);
        assert(decimal_value(t) == decimal_value(t.drop_last()) * 10 + (t.last() - 48) as nat);
    }
}

pub proof fn lemma_padded_text(n: nat)
    ensures
        padded_text(n).len() >= 1,
        all_digits(padded_text(n)),
        decimal_value(padded_text(n)) == n,
{
    lemma_decimal_text(n);
    if n < 10 {
        let t = padded_text(n);
        assert(t.drop_last() =~= seq![48u8]);
        assert(seq![48u8].drop_last() =~= Seq::<u8>::empty());
        assert(decimal_value(Seq::<u8>::empty()) == 0);
        assert(decimal_value(seq![48u8].drop_last()) == 0);
        assert(decimal_value(seq![48u8]) == 0);
        assert(t.last() == (48 + n) as u8);
    }
}

/// The number that leads `digits + rest`, when `rest` does not start with a
/// digit, is the whole of `digits`.
pub proof fn lemma_leading_number(digits: Seq<u8>, rest: Seq<u8>, max: nat)
    requires
        digits.len() >= 1,
        all_digits(digits),
        rest.len() == 0 || !is_digit(rest[0]),
        decimal_value(digits) <= max,
    ensures
        leading_number(digits + rest, max) == Some((decimal_value(digits), digits.len())),
{
    let s = digits + rest;
    assert forall|j: int| 0 <= j < digits.len() implies is_digit(#[trigger] s[j]) by {
        assert(s[j] == digits[j]);
    }
    if rest.len() > 0 {
        assert(s[digits.len() as int] == rest[0]);
    }
    lemma_digit_run_of_prefix(s, digits.len());
    assert(s.take(digits.len() as int) =~= digits);
}

/// Appends the decimal text of `n`.
pub fn push_decimal(out: &mut Vec<u8>, n: u32)
    ensures
        final(out)@ == old(out)@ + decimal_text(n as nat),
    decreases n,
{
    if n >= 10 {
        push_decimal(out, n / 10);
    }
    out.push((48 + n % 10) as u8);
    proof {
        if n < 10 {
            assert(final(out)@ =~= old(out)@ + decimal_text(n as nat));
        } else {
            assert(final(out)@ =~= old(out)@ + decimal_text(n as nat));
        }
    }
}

/// Appends the decimal text of `n` with at least two digits.
pub fn push_padded(out: &mut Vec<u8>, n: u32)
    ensures
        final(out)@ == old(out)@ + padded_text(n as nat),
{
    if n < 10 {
        out.push(48);
        out.push((48 + n) as u8);
        proof {
            assert(final(out)@ =~= old(out)@ + padded_text(n as nat));
        }
    } else {
        push_decimal(out, n);
    }
}

/// ASCII text is its own UTF-8 encoding.
pub proof fn lemma_ascii_encode(b: Seq<u8>)
    requires
        is_ascii_text(b),
    ensures
        vstd::utf8::encode_utf8(text_chars(b)) == b,
{
    let c = text_chars(b);
    assert forall|i: int| 0 <= i < c.len() implies '\0' <= #[trigger] c[i] <= '\u{7f}' by {
        assert(c[i] == b[i] as char);
        assert(b[i] < 128);
    }
    assert(vstd::utf8::is_ascii_chars(c));
    vstd::utf8::is_ascii_chars_encode_utf8(c);
    let e = vstd::utf8::encode_utf8(c);
    assert forall|i: int| 0 <= i < b.len() implies e[i] == b[i] by {
        assert(c[i] as u8 == e[i]);
        assert(c[i] == b[i] as char);
    }
    assert(e =~= b);
}

/// `String::from_utf8` on ASCII bytes: the string of those characters.
#[verifier::external_body]
pub fn ascii_to_string(bytes: Vec<u8>) -> (r: String)
    requires
        is_ascii_text(bytes@),
    ensures
        r@ == text_chars(bytes@),
{
    String::from_utf8(bytes).unwrap()
}

} // verus!
