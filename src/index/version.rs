//! Schema versions as numbers. A version is read as a floating-point
//! literal (`2`, `2.0`, `.5`, `1e1`, `+inf`, `NaN`; letters in any case), and
//! its value is compared with 2 exactly.
use vstd::prelude::*;

use crate::loader::changelog::digit_value;
use crate::text::{chars_of, is_digit, sub_chars};

verus! {

/// `10^n`.
pub open spec fn pow10(n: nat) -> int
    decreases n,
{
    if n == 0 {
        1
    } else {
        10 * pow10((n - 1) as nat)
    }
}

/// Whether every character of `s` is an ASCII digit.
pub open spec fn all_digits(s: Seq<char>) -> bool {
    forall|i: int| 0 <= i < s.len() ==> is_digit(#[trigger] s[i])
}

/// The number written by the decimal digits `s`.
pub open spec fn decimal_value(s: Seq<char>) -> int
    decreases s.len(),
{
    if s.len() == 0 {
        0
    } else {
        digit_value(s[0]) * pow10((s.len() - 1) as nat) + decimal_value(s.skip(1))
    }
}

/// `c` in lower case when it is an ASCII capital.
pub open spec fn lower_ascii(c: char) -> char {
    if 'A' <= c && c <= 'Z' {
        ((c as u8) + 32) as u8 as char
    } else {
        c
    }
}

/// `s` is the lower-case word `w`, letters in any case.
pub open spec fn is_word(s: Seq<char>, w: Seq<char>) -> bool {
    s.len() == w.len() && forall|i: int| 0 <= i < s.len() ==> lower_ascii(#[trigger] s[i]) == w[i]
}

/// The first position at or after `from` where `s` holds `c` or `d`; the
/// length when there is none.
pub open spec fn find_either(s: Seq<char>, from: int, c: char, d: char) -> int
    decreases s.len() - from,
{
    if from < 0 || from >= s.len() {
        s.len() as int
    } else if s[from] == c || s[from] == d {
        from
    } else {
        find_either(s, from + 1, c, d)
    }
}

/// A mantissa: digits with at most one `.`, and at least one digit.
pub open spec fn is_mantissa(m: Seq<char>) -> bool {
    let p = find_either(m, 0, '.', '.');
    if p < m.len() {
        m.len() > 1 && all_digits(m.take(p)) && all_digits(m.skip(p + 1))
    } else {
        m.len() > 0 && all_digits(m)
    }
}

/// An exponent after the `e`: an optional sign, then at least one digit.
pub open spec fn is_exponent(x: Seq<char>) -> bool {
    let t = if x.len() > 0 && (x[0] == '+' || x[0] == '-') {
        x.skip(1)
    } else {
        x
    };
    t.len() > 0 && all_digits(t)
}

/// The value of an exponent.
pub open spec fn exponent_value(x: Seq<char>) -> int {
    if x.len() > 0 && x[0] == '-' {
        -decimal_value(x.skip(1))
    } else if x.len() > 0 && x[0] == '+' {
        decimal_value(x.skip(1))
    } else {
        decimal_value(x)
    }
}

/// `d * 10^e` is at least `2 * 10^f`: a number of `f` decimals whose digits
/// read `d`, scaled by `10^e`, is at least 2.
pub open spec fn at_least_two(d: int, f: nat, e: int) -> bool {
    if e >= 0 {
        d * pow10(e as nat) >= 2 * pow10(f)
    } else {
        d >= 2 * pow10((f - e) as nat)
    }
}

/// The digits of a mantissa, the `.` left out.
pub open spec fn mantissa_digits(m: Seq<char>) -> Seq<char> {
    let p = find_either(m, 0, '.', '.');
    if p < m.len() {
        m.take(p) + m.skip(p + 1)
    } else {
        m
    }
}

/// The number of decimals of a mantissa.
pub open spec fn mantissa_decimals(m: Seq<char>) -> nat {
    let p = find_either(m, 0, '.', '.');
    if p < m.len() {
        (m.len() - p - 1) as nat
    } else {
        0
    }
}

/// The text `v` of a schema version can be trusted for incremental builds:
/// it does not read as a number below 2. That is, it is `NaN` (which is not
/// below anything), positive infinity, or a literal whose value is at least
/// 2. Empty text, other text and negative numbers are below 2 or no number.
pub open spec fn version_trusted(v: Seq<char>) -> bool {
    let neg = v.len() > 0 && v[0] == '-';
    let body = if v.len() > 0 && (v[0] == '+' || v[0] == '-') {
        v.skip(1)
    } else {
        v
    };
    if is_word(body, "nan"@) {
        true
    } else if is_word(body, "inf"@) || is_word(body, "infinity"@) {
        !neg
    } else {
        !neg && number_at_least_two(body)
    }
}

/// `body` is an unsigned number literal (a mantissa, then optionally `e` or
/// `E` and an exponent) whose value is at least 2.
pub open spec fn number_at_least_two(body: Seq<char>) -> bool {
    let p = find_either(body, 0, 'e', 'E');
    let m = body.take(p);
    let e = if p < body.len() {
        exponent_value(body.skip(p + 1))
    } else {
        0
    };
    &&& is_mantissa(m)
    &&& (p == body.len() || is_exponent(body.skip(p + 1)))
    &&& at_least_two(decimal_value(mantissa_digits(m)), mantissa_decimals(m), e)
}

// ---- The decision by the place of the leading digit. ----

/// The first position at or after `from` that is not `0`; the length when
/// there is none.
pub open spec fn first_nonzero(s: Seq<char>, from: int) -> int
    decreases s.len() - from,
{
    if from < 0 || from >= s.len() {
        s.len() as int
    } else if s[from] != '0' {
        from
    } else {
        first_nonzero(s, from + 1)
    }
}

/// The same comparison read off the leading digit: with `q` the power of ten
/// of the leading non-zero digit, the value is at least 2 exactly when
/// `q >= 1`, or `q == 0` and that digit is 2 or more.
pub open spec fn decide(s: Seq<char>, f: int, e: int) -> bool {
    let z = first_nonzero(s, 0);
    if z >= s.len() {
        false
    } else {
        let q = (s.len() - z - 1) - f + e;
        q >= 1 || (q == 0 && digit_value(s[z]) >= 2)
    }
}

proof fn lemma_pow10_pos(n: nat)
    ensures
        pow10(n) >= 1,
    decreases n,
{
    if n > 0 {
        lemma_pow10_pos((n - 1) as nat);
    }
}

proof fn lemma_pow10_mono(a: nat, b: nat)
    requires
        a <= b,
    ensures
        pow10(a) <= pow10(b),
    decreases b,
{
    if a < b {
        lemma_pow10_mono(a, (b - 1) as nat);
        lemma_pow10_pos((b - 1) as nat);
    }
}

proof fn lemma_pow10_add(a: nat, b: nat)
    ensures
        pow10(a + b) == pow10(a) * pow10(b),
    decreases b,
{
    if b > 0 {
        lemma_pow10_add(a, (b - 1) as nat);
        assert(pow10(a + b) == 10 * pow10((a + b - 1) as nat));
        assert(pow10(a) * pow10(b) == pow10(a) * (10 * pow10((b - 1) as nat)));
        assert(pow10(a) * (10 * pow10((b - 1) as nat)) == 10 * (pow10(a) * pow10((b - 1) as nat)))
            by (nonlinear_arith);
    }
}

proof fn lemma_value_bounds(s: Seq<char>)
    requires
        all_digits(s),
    ensures
        0 <= decimal_value(s) < pow10(s.len()),
    decreases s.len(),
{
    if s.len() > 0 {
        let t = s.skip(1);
        assert(all_digits(t)) by {
            assert forall|i: int| 0 <= i < t.len() implies is_digit(#[trigger] t[i]) by {
                assert(t[i] == s[i + 1]);
            }
        }
        lemma_value_bounds(t);
        assert(is_digit(s[0]));
        let d = digit_value(s[0]);
        let p = pow10((s.len() - 1) as nat);
        lemma_pow10_pos((s.len() - 1) as nat);
        assert(0 <= d <= 9);
        assert(d * p <= 9 * p) by (nonlinear_arith)
            requires 0 <= d <= 9, p >= 1;
        assert(d * p >= 0) by (nonlinear_arith)
            requires 0 <= d, p >= 1;
        assert(pow10(s.len()) == 10 * p);
    }
}

proof fn lemma_leading_zeros(s: Seq<char>, from: int)
    requires
        0 <= from <= s.len(),
        forall|i: int| 0 <= i < from ==> s[i] == '0',
    ensures
        decimal_value(s) == decimal_value(s.skip(from)),
    decreases from,
{
    if from > 0 {
        assert(s[0] == '0');
        assert(digit_value(s[0]) == 0);
        let t = s.skip(1);
        assert forall|i: int| 0 <= i < from - 1 implies t[i] == '0' by {
            assert(t[i] == s[i + 1]);
        }
        lemma_leading_zeros(t, from - 1);
        assert(t.skip(from - 1) =~= s.skip(from));
    } else {
        assert(s.skip(0) =~= s);
    }
}

proof fn lemma_first_nonzero(s: Seq<char>, from: int)
    requires
        0 <= from <= s.len(),
    ensures
        from <= first_nonzero(s, from) <= s.len(),
        forall|i: int| from <= i < first_nonzero(s, from) ==> s[i] == '0',
        first_nonzero(s, from) < s.len() ==> s[first_nonzero(s, from)] != '0',
    decreases s.len() - from,
{
    if from < s.len() && s[from] == '0' {
        lemma_first_nonzero(s, from + 1);
    }
}

/// If `d` lies in `[d1 * 10^x, (d1 + 1) * 10^x)` for a digit `d1 >= 1`, then
/// `d >= 2 * 10^y` exactly when `x > y`, or `x == y` and `d1 >= 2`.
proof fn lemma_compare(d: int, d1: int, x: nat, y: nat)
    requires
        1 <= d1 <= 9,
        d1 * pow10(x) <= d < (d1 + 1) * pow10(x),
    ensures
        (d >= 2 * pow10(y)) == (x > y || (x == y && d1 >= 2)),
{
    let px = pow10(x);
    let py = pow10(y);
    lemma_pow10_pos(x);
    lemma_pow10_pos(y);
    if x > y {
        lemma_pow10_mono(y + 1, x);
        assert(pow10(y + 1) == 10 * py);
        assert(d1 * px >= px) by (nonlinear_arith)
            requires d1 >= 1, px >= 1;
    } else if x == y {
        if d1 >= 2 {
            assert(d1 * px >= 2 * px) by (nonlinear_arith)
                requires d1 >= 2, px >= 1;
        } else {
            assert(d1 == 1);
        }
    } else {
        lemma_pow10_mono(x + 1, y);
        assert(pow10(x + 1) == 10 * px);
        assert((d1 + 1) * px <= 10 * px) by (nonlinear_arith)
            requires d1 <= 9, px >= 1;
    }
}

/// The exact comparison and the decision by the leading digit agree.
pub proof fn lemma_decide(s: Seq<char>, f: nat, e: int)
    requires
        all_digits(s),
    ensures
        at_least_two(decimal_value(s), f, e) == decide(s, f as int, e),
{
    lemma_first_nonzero(s, 0);
    let z = first_nonzero(s, 0);
    lemma_leading_zeros(s, z);
    let t = s.skip(z);
    let dv = decimal_value(s);
    assert(all_digits(t)) by {
        assert forall|i: int| 0 <= i < t.len() implies is_digit(#[trigger] t[i]) by {
            assert(t[i] == s[i + z]);
        }
    }
    if z >= s.len() {
        assert(t.len() == 0);
        assert(dv == 0);
        lemma_pow10_pos(f);
        if e >= 0 {
            lemma_pow10_pos(e as nat);
            assert(dv * pow10(e as nat) == 0);
        } else {
            lemma_pow10_pos((f - e) as nat);
        }
    } else {
        let l = (t.len() - 1) as nat;
        let d1 = digit_value(t[0]);
        assert(t[0] == s[z]);
        assert(is_digit(s[z]));
        assert(1 <= d1 <= 9);
        let r = t.skip(1);
        assert(all_digits(r)) by {
            assert forall|i: int| 0 <= i < r.len() implies is_digit(#[trigger] r[i]) by {
                assert(r[i] == t[i + 1]);
            }
        }
        lemma_value_bounds(r);
        assert(dv == d1 * pow10(l) + decimal_value(r));
        assert((d1 + 1) * pow10(l) == d1 * pow10(l) + pow10(l)) by (nonlinear_arith);
        if e >= 0 {
            let en = e as nat;
            let pe = pow10(en);
            lemma_pow10_pos(en);
            lemma_pow10_add(l, en);
            assert(d1 * pow10(l) * pe <= dv * pe) by (nonlinear_arith)
                requires d1 * pow10(l) <= dv, pe >= 1;
            assert(dv * pe < (d1 + 1) * pow10(l) * pe) by (nonlinear_arith)
                requires dv < (d1 + 1) * pow10(l), pe >= 1;
            assert(d1 * pow10(l) * pe == d1 * pow10(l + en)) by (nonlinear_arith)
                requires pow10(l + en) == pow10(l) * pe;
            assert((d1 + 1) * pow10(l) * pe == (d1 + 1) * pow10(l + en)) by (nonlinear_arith)
                requires pow10(l + en) == pow10(l) * pe;
            lemma_compare(dv * pe, d1, l + en, f);
        } else {
            lemma_compare(dv, d1, l, (f - e) as nat);
        }
    }
}

/// Bound on the exponents kept exactly; larger ones decide alike.
pub const EXP_CAP: u128 = 0x40_0000_0000_0000_0000;

/// `e` held within `[-EXP_CAP, EXP_CAP]`.
pub open spec fn capped(e: int) -> int {
    if e > EXP_CAP {
        EXP_CAP as int
    } else if e < -(EXP_CAP as int) {
        -(EXP_CAP as int)
    } else {
        e
    }
}

/// Capping the exponent does not change the decision for digit strings and
/// decimal counts that fit a `usize`.
pub proof fn lemma_cap(s: Seq<char>, f: int, e: int)
    requires
        s.len() <= usize::MAX,
        0 <= f <= usize::MAX,
    ensures
        decide(s, f, e) == decide(s, f, capped(e)),
{
    lemma_first_nonzero(s, 0);
}

proof fn lemma_value_push(s: Seq<char>, c: char)
    ensures
        decimal_value(s.push(c)) == decimal_value(s) * 10 + digit_value(c),
    decreases s.len(),
{
    let t = s.push(c);
    if s.len() > 0 {
        assert(t.skip(1) =~= s.skip(1).push(c));
        lemma_value_push(s.skip(1), c);
        assert(t[0] == s[0]);
        let p = pow10((s.len() - 1) as nat);
        let d0 = digit_value(s[0]);
        let rs = decimal_value(s.skip(1));
        assert(pow10(s.len()) == 10 * p);
        assert(decimal_value(t) == d0 * pow10(s.len()) + decimal_value(t.skip(1)));
        assert(decimal_value(s) == d0 * p + rs);
        assert(d0 * (10 * p) + (rs * 10 + digit_value(c)) == (d0 * p + rs) * 10 + digit_value(c))
            by (nonlinear_arith);
    } else {
        assert(t.skip(1) =~= Seq::<char>::empty());
        assert(pow10(0) == 1);
        assert(decimal_value(t) == digit_value(t[0]) * pow10(0) + decimal_value(t.skip(1)));
        assert(decimal_value(s) == 0);
    }
}

// ---- Executable parts. ----

fn find_either_exec(s: &Vec<char>, from: usize, to: usize, c: char, d: char) -> (r: usize)
    requires
        from <= to <= s@.len(),
    ensures
        from <= r <= to,
        r == find_either(s@.subrange(from as int, to as int), 0, c, d) + from,
{
    let ghost t = s@.subrange(from as int, to as int);
    let mut i = from;
    while i < to && s[i] != c && s[i] != d
        invariant
            from <= i <= to <= s@.len(),
            t == s@.subrange(from as int, to as int),
            find_either(t, 0, c, d) == find_either(t, i - from, c, d),
        decreases to - i,
    {
        assert(t[i - from] == s@[i as int]);
        i = i + 1;
    }
    if i < to {
        assert(t[i - from] == s@[i as int]);
    }
    i
}

fn digits_in(s: &Vec<char>, lo: usize, hi: usize) -> (r: bool)
    requires
        lo <= hi <= s@.len(),
    ensures
        r == all_digits(s@.subrange(lo as int, hi as int)),
{
    let mut i = lo;
    while i < hi
        invariant
            lo <= i <= hi <= s@.len(),
            forall|q: int| lo <= q < i ==> is_digit(s@[q]),
        decreases hi - i,
    {
        if !('0' <= s[i] && s[i] <= '9') {
            assert(!is_digit(s@.subrange(lo as int, hi as int)[i - lo]));
            return false;
        }
        i = i + 1;
    }
    assert forall|q: int| 0 <= q < hi - lo implies is_digit(#[trigger] s@.subrange(lo as int, hi as int)[q]) by {
        assert(s@.subrange(lo as int, hi as int)[q] == s@[lo + q]);
    }
    true
}

fn word_at(s: &Vec<char>, from: usize, w: &Vec<char>) -> (r: bool)
    requires
        from <= s@.len(),
    ensures
        r == is_word(s@.skip(from as int), w@),
{
    let ghost t = s@.skip(from as int);
    let sl = s.len();
    if sl - from != w.len() {
        return false;
    }
    let mut i: usize = 0;
    while i < w.len()
        invariant
            t == s@.skip(from as int),
            sl == s@.len(),
            t.len() == w@.len(),
            from + w@.len() == s@.len(),
            i <= w@.len(),
            forall|q: int| 0 <= q < i ==> lower_ascii(#[trigger] t[q]) == w@[q],
        decreases w@.len() - i,
    {
        let c = s[from + i];
        assert(t[i as int] == c);
        let l = if 'A' <= c && c <= 'Z' {
            ((c as u8) + 32) as char
        } else {
            c
        };
        if l != w[i] {
            return false;
        }
        i = i + 1;
    }
    true
}

/// The value of the exponent digits `s[lo..hi]`, capped at `EXP_CAP`.
fn capped_value(s: &Vec<char>, lo: usize, hi: usize) -> (r: u128)
    requires
        lo <= hi <= s@.len(),
        all_digits(s@.subrange(lo as int, hi as int)),
    ensures
        r == if decimal_value(s@.subrange(lo as int, hi as int)) > EXP_CAP {
            EXP_CAP as int
        } else {
            decimal_value(s@.subrange(lo as int, hi as int))
        },
{
    let mut acc: u128 = 0;
    let mut i = lo;
    assert(s@.subrange(lo as int, lo as int) =~= Seq::<char>::empty());
    while i < hi
        invariant
            lo <= i <= hi <= s@.len(),
            all_digits(s@.subrange(lo as int, hi as int)),
            acc == if decimal_value(s@.subrange(lo as int, i as int)) > EXP_CAP {
                EXP_CAP as int
            } else {
                decimal_value(s@.subrange(lo as int, i as int))
            },
            decimal_value(s@.subrange(lo as int, i as int)) >= 0,
        decreases hi - i,
    {
        let ghost pre = s@.subrange(lo as int, i as int);
        assert(s@.subrange(lo as int, i + 1) =~= pre.push(s@[i as int]));
        assert(s@.subrange(lo as int, hi as int)[i - lo] == s@[i as int]);
        proof {
            lemma_value_push(pre, s@[i as int]);
        }
        let d = ((s[i] as u32) - ('0' as u32)) as u128;
        let next = acc * 10 + d;
        acc = if next > EXP_CAP {
            EXP_CAP
        } else {
            next
        };
        i = i + 1;
    }
    acc
}

/// Decides `version_trusted`.
pub fn version_trusted_exec(text: &str) -> (r: bool)
    ensures
        r == version_trusted(text@),
{
    let v = chars_of(text);
    let n = v.len();
    let signed = n > 0 && (v[0] == '+' || v[0] == '-');
    let neg = n > 0 && v[0] == '-';
    let start: usize = if signed {
        1
    } else {
        0
    };
    let ghost body = if v@.len() > 0 && (v@[0] == '+' || v@[0] == '-') {
        v@.skip(1)
    } else {
        v@
    };
    assert(body =~= v@.skip(start as int));
    proof {
        reveal_strlit("nan");
        reveal_strlit("inf");
        reveal_strlit("infinity");
    }
    if word_at(&v, start, &chars_of("nan")) {
        return true;
    }
    if word_at(&v, start, &chars_of("inf")) || word_at(&v, start, &chars_of("infinity")) {
        return !neg;
    }
    if neg {
        return false;
    }
    number_exec(&v, start)
}

/// Decides `number_at_least_two` for `v[start..]`.
#[verifier::rlimit(40)]
fn number_exec(v: &Vec<char>, start: usize) -> (r: bool)
    requires
        start <= v@.len(),
    ensures
        r == number_at_least_two(v@.skip(start as int)),
{
    let n = v.len();
    let ghost body = v@.skip(start as int);
    assert(body =~= v@.subrange(start as int, n as int));
    let p = find_either_exec(v, start, n, 'e', 'E');
    let ghost pr = p - start;
    let ghost m = body.take(pr);
    assert(m =~= v@.subrange(start as int, p as int));
    let dot = find_either_exec(v, start, p, '.', '.');
    let ghost dr = dot - start;
    let mant_ok = if dot < p {
        assert(m.take(dr) =~= v@.subrange(start as int, dot as int));
        assert(m.skip(dr + 1) =~= v@.subrange(dot + 1, p as int));
        p - start > 1 && digits_in(v, start, dot) && digits_in(v, dot + 1, p)
    } else {
        p > start && digits_in(v, start, p)
    };
    assert(mant_ok == is_mantissa(m));
    if !mant_ok {
        return false;
    }
    // The exponent, with its sign.
    let mut e_neg = false;
    let mut e_abs: u128 = 0;
    if p < n {
        let ghost x = body.skip(pr + 1);
        assert(x =~= v@.subrange(p + 1, n as int));
        match exponent_exec(v, p + 1) {
            Some((en, ea)) => {
                e_neg = en;
                e_abs = ea;
            },
            None => {
                return false;
            },
        }
    }
    // The digits of the mantissa, and its number of decimals.
    let mut digits = sub_chars(v, start, dot);
    if dot < p {
        let rest = sub_chars(v, dot + 1, p);
        let mut k: usize = 0;
        let ghost head = digits@;
        while k < rest.len()
            invariant
                k <= rest@.len(),
                digits@ == head + rest@.take(k as int),
            decreases rest@.len() - k,
        {
            digits.push(rest[k]);
            k = k + 1;
            assert(digits@ =~= head + rest@.take(k as int));
        }
        assert(rest@.take(rest@.len() as int) =~= rest@);
    }
    let decimals: usize = if dot < p {
        p - dot - 1
    } else {
        0
    };
    proof {
        if dot < p {
            assert(digits@ =~= m.take(dr) + m.skip(dr + 1));
        } else {
            assert(digits@ =~= m);
        }
    }
    let z = first_nonzero_exec(&digits);
    let dl = digits.len();
    let result = if z >= dl {
        false
    } else {
        let lead = ((digits[z] as u32) - ('0' as u32)) as i128;
        let e: i128 = if e_neg {
            -(e_abs as i128)
        } else {
            e_abs as i128
        };
        let q: i128 = (dl as i128) - (z as i128) - 1 - (decimals as i128) + e;
        q >= 1 || (q == 0 && lead >= 2)
    };
    proof {
        let md = mantissa_digits(m);
        assert(digits@ == md);
        assert(all_digits(md)) by {
            if dot < p {
                assert forall|k: int| 0 <= k < md.len() implies is_digit(#[trigger] md[k]) by {
                    if k < dr {
                        assert(md[k] == m.take(dr)[k]);
                    } else {
                        assert(md[k] == m.skip(dr + 1)[k - dr]);
                    }
                }
            }
        }
        let ex = if pr < body.len() {
            exponent_value(body.skip(pr + 1))
        } else {
            0
        };
        assert((if e_neg { -(e_abs as int) } else { e_abs as int }) == capped(ex));
        lemma_decide(md, mantissa_decimals(m), ex);
        lemma_cap(md, decimals as int, ex);
    }
    result
}


/// Reads the exponent `v[from..]`: `None` when it is no exponent; otherwise
/// its sign and its magnitude, capped.
fn exponent_exec(v: &Vec<char>, from: usize) -> (r: Option<(bool, u128)>)
    requires
        from <= v@.len(),
    ensures
        r is None <==> !is_exponent(v@.skip(from as int)),
        r matches Some((neg, a)) ==> (if neg {
            -(a as int)
        } else {
            a as int
        }) == capped(exponent_value(v@.skip(from as int))),
{
    let n = v.len();
    let ghost x = v@.skip(from as int);
    let mut es = from;
    let mut e_neg = false;
    if es < n && (v[es] == '+' || v[es] == '-') {
        e_neg = v[es] == '-';
        es = es + 1;
    }
    let ghost t = if x.len() > 0 && (x[0] == '+' || x[0] == '-') {
        x.skip(1)
    } else {
        x
    };
    assert(t =~= v@.subrange(es as int, n as int));
    if es >= n || !digits_in(v, es, n) {
        return None;
    }
    let a = capped_value(v, es, n);
    proof {
        lemma_value_bounds(t);
    }
    Some((e_neg, a))
}

fn first_nonzero_exec(s: &Vec<char>) -> (r: usize)
    ensures
        r == first_nonzero(s@, 0),
{
    let mut i: usize = 0;
    while i < s.len() && s[i] == '0'
        invariant
            i <= s@.len(),
            first_nonzero(s@, 0) == first_nonzero(s@, i as int),
        decreases s@.len() - i,
    {
        i = i + 1;
    }
    i
}

} // verus!
