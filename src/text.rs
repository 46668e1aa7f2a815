//! Splitting a line into whitespace-separated tokens, and reading a decimal
//! token as a fixed-point number.
use vstd::prelude::*;
use crate::geometry::{in_range, SCALE, COORD_MAX};

verus! {

/// ASCII whitespace: space, tab, line feed, form feed, carriage return.
pub open spec fn is_space(b: u8) -> bool {
    b == 32 || b == 9 || b == 10 || b == 12 || b == 13
}

/// End of the run of non-space bytes that starts at `j`.
pub open spec fn token_end(s: Seq<u8>, j: int) -> int
    decreases s.len() - j,
{
    if 0 <= j < s.len() && !is_space(s[j]) {
        token_end(s, j + 1)
    } else {
        j
    }
}

/// A token starts at `i`: a non-space byte after a space or at the start.
pub open spec fn starts_token(s: Seq<u8>, i: int) -> bool {
    &&& 0 <= i < s.len()
    &&& !is_space(s[i])
    &&& (i == 0 || is_space(s[i - 1]))
}

/// The tokens that start at or after `i`, in order.
pub open spec fn tokens_from(s: Seq<u8>, i: int) -> Seq<Seq<u8>>
    decreases s.len() - i,
{
    if i < 0 || i >= s.len() {
        seq![]
    } else if starts_token(s, i) {
        seq![s.subrange(i, token_end(s, i))] + tokens_from(s, i + 1)
    } else {
        tokens_from(s, i + 1)
    }
}

/// The maximal runs of non-space bytes of `s`, in order.
pub open spec fn tokens(s: Seq<u8>) -> Seq<Seq<u8>> {
    tokens_from(s, 0)
}

pub open spec fn views(v: Seq<Vec<u8>>) -> Seq<Seq<u8>> {
    v.map_values(|t: Vec<u8>| t@)
}

pub fn is_space_byte(b: u8) -> (r: bool)
    ensures
        r == is_space(b),
{
    b == 32 || b == 9 || b == 10 || b == 12 || b == 13
}

/// The bytes `s[i..j]`.
pub fn copy_range(s: &[u8], i: usize, j: usize) -> (r: Vec<u8>)
    requires
        i <= j <= s@.len(),
    ensures
        r@ == s@.subrange(i as int, j as int),
{
    let mut r: Vec<u8> = Vec::new();
    let mut k: usize = i;
    while k < j
        invariant
            i <= k <= j <= s@.len(),
            r@ == s@.subrange(i as int, k as int),
        decreases j - k,
    {
        r.push(s[k]);
        k = k + 1;
        assert(r@ =~= s@.subrange(i as int, k as int));
    }
    r
}

/// Splits `s` at ASCII whitespace, dropping empty pieces.
pub fn split_tokens(s: &[u8]) -> (r: Vec<Vec<u8>>)
    ensures
        views(r@) == tokens(s@),
{
    let n = s.len();
    let mut out: Vec<Vec<u8>> = Vec::new();
    let mut i: usize = 0;
    assert(views(out@) =~= seq![]);
    while i < n
        invariant
            n == s@.len(),
            i <= n,
            i == 0 || i == n || is_space(s@[i - 1]) || is_space(s@[i as int]),
            views(out@) + tokens_from(s@, i as int) == tokens(s@),
        decreases n - i,
    {
        if is_space_byte(s[i]) {
            i = i + 1;
        } else {
            assert(starts_token(s@, i as int));
            let mut j: usize = i + 1;
            while j < n && !is_space_byte(s[j])
                invariant
                    n == s@.len(),
                    i < j <= n,
                    !is_space(s@[j - 1]),
                    token_end(s@, i as int) == token_end(s@, j as int),
                    tokens_from(s@, i + 1) == tokens_from(s@, j as int),
                decreases n - j,
            {
                assert(!starts_token(s@, j as int));
                j = j + 1;
            }
            let t = copy_range(s, i, j);
            proof {
                assert(token_end(s@, j as int) == j);
                assert(views(out@.push(t)) =~= views(out@).push(t@));
                assert(tokens_from(s@, i as int) == seq![t@] + tokens_from(s@, j as int));
                assert(views(out@).push(t@) + tokens_from(s@, j as int)
                    =~= views(out@) + (seq![t@] + tokens_from(s@, j as int)));
            }
            out.push(t);
            i = j;
        }
    }
    assert(tokens_from(s@, n as int) =~= seq![]);
    assert(views(out@) + seq![] =~= views(out@));
    out
}

/// End of the line that starts at `j`: the next line feed, or the end.
pub open spec fn line_end(s: Seq<u8>, j: int) -> int
    decreases s.len() - j,
{
    if 0 <= j < s.len() && s[j] != 10 {
        line_end(s, j + 1)
    } else {
        j
    }
}

/// A line starts at `i`: at the start of the text or after a line feed.
pub open spec fn starts_line(s: Seq<u8>, i: int) -> bool {
    0 <= i <= s.len() && (i == 0 || s[i - 1] == 10)
}

pub open spec fn lines_from(s: Seq<u8>, i: int) -> Seq<Seq<u8>>
    decreases s.len() + 1 - i,
{
    if i < 0 || i > s.len() {
        seq![]
    } else if starts_line(s, i) {
        seq![s.subrange(i, line_end(s, i))] + lines_from(s, i + 1)
    } else {
        lines_from(s, i + 1)
    }
}

/// The pieces of `s` between line feeds, in order.
pub open spec fn lines(s: Seq<u8>) -> Seq<Seq<u8>> {
    lines_from(s, 0)
}

/// Splits `s` at every line feed.
pub fn split_lines(s: &[u8]) -> (r: Vec<Vec<u8>>)
    ensures
        views(r@) == lines(s@),
{
    let n = s.len();
    let mut out: Vec<Vec<u8>> = Vec::new();
    let mut i: usize = 0;
    assert(views(out@) =~= seq![]);
    loop
        invariant
            n == s@.len(),
            i <= n,
            starts_line(s@, i as int),
            views(out@) + lines_from(s@, i as int) == lines(s@),
        decreases n + 1 - i,
    {
        let mut j: usize = i;
        while j < n && s[j] != 10
            invariant
                n == s@.len(),
                i <= j <= n,
                line_end(s@, i as int) == line_end(s@, j as int),
                lines_from(s@, i + 1) == lines_from(s@, j + 1),
            decreases n - j,
        {
            assert(!starts_line(s@, j + 1));
            j = j + 1;
        }
        let t = copy_range(s, i, j);
        proof {
            assert(line_end(s@, j as int) == j);
            assert(views(out@.push(t)) =~= views(out@).push(t@));
            assert(lines_from(s@, i as int) == seq![t@] + lines_from(s@, j + 1));
            assert(views(out@).push(t@) + lines_from(s@, j + 1)
                =~= views(out@) + (seq![t@] + lines_from(s@, j + 1)));
        }
        out.push(t);
        if j == n {
            assert(lines_from(s@, n + 1) =~= seq![]);
            assert(views(out@) + seq![] =~= views(out@));
            return out;
        }
        i = j + 1;
    }
}

pub open spec fn is_digit(b: u8) -> bool {
    48 <= b <= 57
}

/// End of the run of decimal digits that starts at `j`.
pub open spec fn digit_end(t: Seq<u8>, j: int) -> int
    decreases t.len() - j,
{
    if 0 <= j < t.len() && is_digit(t[j]) {
        digit_end(t, j + 1)
    } else {
        j
    }
}

/// The number that a run of decimal digits writes.
pub open spec fn digits_value(s: Seq<u8>) -> int
    decreases s.len(),
{
    if s.len() == 0 {
        0
    } else {
        digits_value(s.drop_last()) * 10 + (s.last() - 48)
    }
}

/// Length of a leading `-` or `+` at `j`.
pub open spec fn sign_at(t: Seq<u8>, j: int) -> int {
    if 0 <= j < t.len() && (t[j] == 45 || t[j] == 43) {
        1
    } else {
        0
    }
}

pub open spec fn int_end(t: Seq<u8>) -> int {
    digit_end(t, sign_at(t, 0))
}

pub open spec fn has_point(t: Seq<u8>) -> bool {
    int_end(t) < t.len() && t[int_end(t)] == 46
}

pub open spec fn frac_start(t: Seq<u8>) -> int {
    if has_point(t) {
        int_end(t) + 1
    } else {
        int_end(t)
    }
}

pub open spec fn frac_end(t: Seq<u8>) -> int {
    digit_end(t, frac_start(t))
}

/// The digits of the significand, before and after the point.
pub open spec fn mantissa(t: Seq<u8>) -> Seq<u8> {
    t.subrange(sign_at(t, 0), int_end(t)) + t.subrange(frac_start(t), frac_end(t))
}

pub open spec fn has_exp(t: Seq<u8>) -> bool {
    frac_end(t) < t.len() && (t[frac_end(t)] == 101 || t[frac_end(t)] == 69)
}

pub open spec fn exp_digits_start(t: Seq<u8>) -> int {
    frac_end(t) + 1 + sign_at(t, frac_end(t) + 1)
}

/// The power of ten that the token's exponent writes, zero without one.
pub open spec fn exponent(t: Seq<u8>) -> int {
    if has_exp(t) {
        let v = digits_value(t.subrange(exp_digits_start(t), t.len() as int));
        if t[frac_end(t) + 1] == 45 {
            -v
        } else {
            v
        }
    } else {
        0
    }
}

/// `[+-]digits[.digits][(e|E)[+-]digits]`, with at least one digit in the significand.
pub open spec fn decimal_syntax(t: Seq<u8>) -> bool {
    &&& mantissa(t).len() > 0
    &&& if has_exp(t) {
        exp_digits_start(t) < t.len() && digit_end(t, exp_digits_start(t)) == t.len()
    } else {
        frac_end(t) == t.len()
    }
}

pub open spec fn pow10(k: int) -> int
    decreases k,
{
    if k <= 0 {
        1
    } else {
        10 * pow10(k - 1)
    }
}

/// What digit `d` adds in fixed-point units when it stands at power `q` of
/// ten in those units; digits below a unit are dropped.
pub open spec fn digit_units(d: u8, q: int) -> int {
    if q < 0 {
        0
    } else {
        (d - 48) * pow10(q)
    }
}

/// The digits `m`, the first at power `top` of ten in fixed-point units.
pub open spec fn scaled_sum(m: Seq<u8>, top: int) -> int
    decreases m.len(),
{
    if m.len() == 0 {
        0
    } else {
        digit_units(m[0], top) + scaled_sum(m.drop_first(), top - 1)
    }
}

/// Power of ten, in fixed-point units, of the first digit of the significand.
pub open spec fn top_power(t: Seq<u8>) -> int {
    int_end(t) - sign_at(t, 0) - 1 + exponent(t) + 6
}

/// Absolute value in fixed-point units: digits past the sixth decimal place are dropped.
pub open spec fn magnitude(t: Seq<u8>) -> int {
    scaled_sum(mantissa(t), top_power(t))
}

/// The fixed-point value that the token writes, if it is a decimal in range.
pub open spec fn fixed_value(t: Seq<u8>) -> Option<i64> {
    if decimal_syntax(t) && magnitude(t) <= COORD_MAX {
        if t[0] == 45 {
            Some((-magnitude(t)) as i64)
        } else {
            Some(magnitude(t) as i64)
        }
    } else {
        None
    }
}

/// Exponents are counted up to this; beyond it every digit of the
/// significand is either out of range or below a unit.
const EXP_CAP: u128 = 0x1_0000_0000_0000_0000_0000;

fn is_digit_byte(b: u8) -> (r: bool)
    ensures
        r == is_digit(b),
{
    48 <= b && b <= 57
}

fn digit_run(t: &[u8], j: usize) -> (r: usize)
    requires
        j <= t@.len(),
    ensures
        r == digit_end(t@, j as int),
        j <= r <= t@.len(),
{
    let mut k = j;
    while k < t.len() && is_digit_byte(t[k])
        invariant
            j <= k <= t@.len(),
            digit_end(t@, j as int) == digit_end(t@, k as int),
        decreases t@.len() - k,
    {
        k = k + 1;
    }
    k
}

proof fn lemma_pow10_mono(a: int, b: int)
    requires
        0 <= a <= b,
    ensures
        1 <= pow10(a) <= pow10(b),
    decreases b,
{
    if b > a {
        lemma_pow10_mono(a, b - 1);
    } else if a > 0 {
        lemma_pow10_mono(a - 1, a - 1);
    }
}

fn pow10_exec(q: u64) -> (r: u64)
    requires
        q <= 12,
    ensures
        r == pow10(q as int),
        r <= 1_000_000_000_000,
{
    proof {
        reveal_with_fuel(pow10, 13);
    }
    let mut r: u64 = 1;
    let mut i: u64 = 0;
    while i < q
        invariant
            i <= q <= 12,
            r == pow10(i as int),
        decreases q - i,
    {
        proof {
            lemma_pow10_mono(i as int, 11);
            reveal_with_fuel(pow10, 13);
            assert(pow10(11) == 100_000_000_000);
        }
        r = r * 10;
        i = i + 1;
    }
    proof {
        lemma_pow10_mono(q as int, 12);
    }
    r
}

proof fn lemma_scaled_nonneg(m: Seq<u8>, top: int)
    requires
        forall|k: int| 0 <= k < m.len() ==> is_digit(#[trigger] m[k]),
    ensures
        scaled_sum(m, top) >= 0,
    decreases m.len(),
{
    if m.len() > 0 {
        assert forall|k: int| 0 <= k < m.drop_first().len() implies is_digit(#[trigger] m.drop_first()[k]) by {
            assert(m.drop_first()[k] == m[k + 1]);
        }
        lemma_scaled_nonneg(m.drop_first(), top - 1);
        if top >= 0 {
            lemma_pow10_mono(0, top);
            assert((m[0] - 48) * pow10(top) >= 0) by (nonlinear_arith)
                requires
                    m[0] >= 48,
                    pow10(top) >= 1,
            ;
        }
    }
}

/// Exponent value and end, read from the digits at `j`; counted up to `EXP_CAP`.
fn exp_value(t: &[u8], j: usize) -> (r: (u128, usize))
    requires
        j <= t@.len(),
    ensures
        r.1 == digit_end(t@, j as int),
        r.0 <= EXP_CAP,
        r.0 < EXP_CAP ==> r.0 == digits_value(t@.subrange(j as int, r.1 as int)),
        r.0 == EXP_CAP ==> digits_value(t@.subrange(j as int, r.1 as int)) >= EXP_CAP,
{
    let mut k = j;
    let mut acc: u128 = 0;
    assert(t@.subrange(j as int, j as int) =~= seq![]);
    while k < t.len() && is_digit_byte(t[k])
        invariant
            j <= k <= t@.len(),
            digit_end(t@, j as int) == digit_end(t@, k as int),
            acc <= EXP_CAP,
            acc < EXP_CAP ==> acc == digits_value(t@.subrange(j as int, k as int)),
            acc == EXP_CAP ==> digits_value(t@.subrange(j as int, k as int)) >= EXP_CAP,
        decreases t@.len() - k,
    {
        let d = (t[k] - 48) as u128;
        assert(t@.subrange(j as int, k + 1).drop_last() =~= t@.subrange(j as int, k as int));
        if acc < EXP_CAP {
            let v = acc * 10 + d;
            acc = if v < EXP_CAP { v } else { EXP_CAP };
        }
        k = k + 1;
    }
    (acc, k)
}

/// Reads a decimal token such as `-12.5` or `1.5e-3` as a fixed-point value.
/// Digits past the sixth decimal place are dropped; values beyond
/// `COORD_MAX` are refused.
#[verifier::rlimit(80)]
pub fn parse_fixed(t: &[u8]) -> (r: Option<i64>)
    ensures
        r == fixed_value(t@),
        r is Some ==> in_range(r->0 as int),
{
    let n = t.len();
    let start: usize = if n > 0 && (t[0] == 45 || t[0] == 43) { 1 } else { 0 };
    let ie = digit_run(t, start);
    let fs: usize = if ie < n && t[ie] == 46 { ie + 1 } else { ie };
    let fe = digit_run(t, fs);
    let il = ie - start;
    let m = il + (fe - fs);
    if m == 0 {
        return None;
    }
    // the exponent, counted up to its cap, and whether it is negative
    let mut ev: u128 = 0;
    let mut eneg = false;
    if fe < n {
        if t[fe] != 101 && t[fe] != 69 {
            return None;
        }
        let es = fe + 1;
        let eds: usize = if es < n && (t[es] == 45 || t[es] == 43) { es + 1 } else { es };
        if eds >= n {
            return None;
        }
        let (v, ee) = exp_value(t, eds);
        if ee != n {
            return None;
        }
        ev = v;
        eneg = t[es] == 45;
    }
    let ghost tv = t@;
    let ghost mt = mantissa(tv);
    let ghost top_s = top_power(tv);
    assert(decimal_syntax(tv));
    assert(mt.len() == m);
    proof {
        assert forall|k: int| 0 <= k < mt.len() implies is_digit(#[trigger] mt[k]) by {
            if k < il {
                lemma_digits_run(tv, start as int, start + k);
            } else {
                lemma_digits_run(tv, fs as int, fs + k - il);
            }
        }
    }
    let e: i128 = if eneg { -(ev as i128) } else { ev as i128 };
    let top: i128 = il as i128 + 5 + e;
    let mut acc: u64 = 0;
    let mut k: usize = 0;
    assert(mt.skip(0) =~= mt);
    while k < m
        invariant
            tv == t@,
            mt == mantissa(tv),
            mt.len() == m,
            forall|j: int| 0 <= j < mt.len() ==> is_digit(#[trigger] mt[j]),
            m == il + (fe - fs),
            il == ie - start,
            start <= ie <= fs <= fe <= n == tv.len(),
            forall|j: int| 0 <= j < il ==> mt[j] == tv[start + j],
            forall|j: int| il <= j < m ==> mt[j] == tv[fs + j - il],
            top == top_s || (top >= 0x40_0000_0000_0000_0000 && top_s >= 0x40_0000_0000_0000_0000)
                || (top <= -0x40_0000_0000_0000_0000 && top_s <= -0x40_0000_0000_0000_0000),
            -0x2_0000_0000_0000_0000_0000 <= top <= 0x2_0000_0000_0000_0000_0000,
            k <= m,
            acc <= COORD_MAX,
            magnitude(tv) == acc + scaled_sum(mt.skip(k as int), top_s - k),
        decreases m - k,
    {
        let b = if k < il { t[start + k] } else { t[fs + (k - il)] };
        assert(b == mt[k as int]);
        let q: i128 = top - k as i128;
        let ghost qs = top_s - k;
        assert(mt.skip(k as int).drop_first() =~= mt.skip(k + 1));
        assert(mt.skip(k as int)[0] == b);
        proof {
            lemma_scaled_nonneg(mt.skip(k + 1), qs - 1);
        }
        if b != 48 && q >= 13 {
            proof {
                lemma_pow10_mono(13, qs);
                reveal_with_fuel(pow10, 14);
                assert((b - 48) * pow10(qs) >= pow10(qs)) by (nonlinear_arith)
                    requires
                        b >= 49,
                        pow10(qs) >= 1,
                ;
            }
            return None;
        }
        if b != 48 && q >= 0 {
            assert(q == qs);
            let p = pow10_exec(q as u64);
            let d = (b - 48) as u64;
            assert(d * p <= 9_000_000_000_000) by (nonlinear_arith)
                requires
                    d <= 9,
                    p <= 1_000_000_000_000,
            ;
            let add = d * p;
            acc = acc + add;
            if acc > COORD_MAX as u64 {
                return None;
            }
        } else if b == 48 {
            assert(0 * pow10(qs) == 0) by (nonlinear_arith);
            assert(digit_units(b, qs) == 0);
        } else {
            assert(q < 0);
            assert(k <= 0xffff_ffff_ffff_ffff);
            assert(qs < 0);
            assert(digit_units(b, qs) == 0);
        }
        k = k + 1;
    }
    assert(mt.skip(m as int) =~= seq![]);
    if t[0] == 45 {
        Some(-(acc as i64))
    } else {
        Some(acc as i64)
    }
}

/// Every byte of a run of digits is a digit.
proof fn lemma_digits_run(t: Seq<u8>, j: int, p: int)
    requires
        0 <= j <= p < digit_end(t, j),
    ensures
        is_digit(t[p]),
    decreases p - j,
{
    if j < p {
        lemma_digits_run(t, j + 1, p);
    }
}

} // verus!
