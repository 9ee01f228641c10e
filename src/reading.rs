//! Non-negative decimal readings such as `2400.000`, `12345.67` or `2.4e3`,
//! and their whole part.
use vstd::prelude::*;
use crate::number::{all_digits, digits_value, is_digit, lemma_digits_value_prefix, parse_u64, u64_of};
use crate::text::{find_char, index_of, slice_chars};

verus! {

pub open spec fn pow10(n: nat) -> nat
    decreases n,
{
    if n == 0 {
        1
    } else {
        10 * pow10((n - 1) as nat)
    }
}

pub open spec fn zeros(n: nat) -> Seq<char> {
    Seq::new(n, |i: int| '0')
}

pub open spec fn all_zero(s: Seq<char>) -> bool {
    forall|i: int| 0 <= i < s.len() ==> s[i] == '0'
}

/// Position of the first `e` or `E` in `s`, or -1 if there is none.
pub open spec fn exp_index(s: Seq<char>) -> int
    decreases s.len(),
{
    if s.len() == 0 {
        -1
    } else if s[0] == 'e' || s[0] == 'E' {
        0
    } else {
        let r = exp_index(s.drop_first());
        if r < 0 {
            -1
        } else {
            r + 1
        }
    }
}

pub open spec fn has_sign(s: Seq<char>) -> bool {
    s.len() > 0 && (s[0] == '+' || s[0] == '-')
}

pub open spec fn is_negative(s: Seq<char>) -> bool {
    s.len() > 0 && s[0] == '-'
}

/// `s` without a leading `'+'` or `'-'`.
pub open spec fn unsigned_body(s: Seq<char>) -> Seq<char> {
    if has_sign(s) {
        s.drop_first()
    } else {
        s
    }
}

/// The part of a reading before its exponent mark.
pub open spec fn mantissa(s: Seq<char>) -> Seq<char> {
    let b = unsigned_body(s);
    let e = exp_index(b);
    if e < 0 {
        b
    } else {
        b.take(e)
    }
}

/// The part of a reading after its exponent mark, if it has one.
pub open spec fn exponent_text(s: Seq<char>) -> Option<Seq<char>> {
    let b = unsigned_body(s);
    let e = exp_index(b);
    if e < 0 {
        None
    } else {
        Some(b.skip(e + 1))
    }
}

/// The digits of a mantissa before its point.
pub open spec fn int_part(m: Seq<char>) -> Seq<char> {
    let k = index_of(m, '.');
    if k < 0 {
        m
    } else {
        m.take(k)
    }
}

/// The digits of a mantissa after its point.
pub open spec fn frac_part(m: Seq<char>) -> Seq<char> {
    let k = index_of(m, '.');
    if k < 0 {
        seq![]
    } else {
        m.skip(k + 1)
    }
}

/// The value of an exponent: an optional sign, then one or more digits.
pub open spec fn exponent_value(x: Seq<char>) -> Option<int> {
    let d = unsigned_body(x);
    if d.len() > 0 && all_digits(d) {
        Some(
            if is_negative(x) {
                -digits_value(d)
            } else {
                digits_value(d)
            },
        )
    } else {
        None
    }
}

/// The digits `d` with the decimal point, which stands after them, moved
/// `shift` places to the right (left when `shift` is negative), and what
/// then stands after the point dropped.
pub open spec fn shifted_whole(d: Seq<char>, shift: int) -> Seq<char> {
    if shift >= 0 {
        d + zeros(shift as nat)
    } else if d.len() + shift > 0 {
        d.take(d.len() + shift)
    } else {
        seq![]
    }
}

/// The whole part (the floor) of the reading `s`, a decimal number in the
/// notation of a floating parse: an optional sign, digits with an optional
/// point and at least one digit in all, then optionally `e` or `E`, an
/// optional sign and digits (`12`, `12.5`, `12.`, `.5`, `2.4e3`, `5E-1`).
/// `None` when `s` is not in this notation, is below zero (`-0` and `-0.0`
/// are zero), or has a whole part past `u64::MAX`. The words `inf` and `NaN`
/// are no finite reading and not part of this notation.
pub open spec fn floor_of(s: Seq<char>) -> Option<u64> {
    let m = mantissa(s);
    let ip = int_part(m);
    let fp = frac_part(m);
    let d = ip + fp;
    let e = match exponent_text(s) {
        None => Some(0int),
        Some(x) => exponent_value(x),
    };
    if !(all_digits(ip) && all_digits(fp) && d.len() > 0 && e is Some) {
        None
    } else if is_negative(s) && !all_zero(d) {
        None
    } else {
        let w = digits_value(shifted_whole(d, e->0 - fp.len()));
        if w <= u64::MAX {
            Some(w as u64)
        } else {
            None
        }
    }
}

/// Appending `n` zeros multiplies a value by `10^n`.
pub proof fn lemma_append_zeros(d: Seq<char>, n: nat)
    ensures
        digits_value(d + zeros(n)) == digits_value(d) * pow10(n),
    decreases n,
{
    if n == 0 {
        assert(d + zeros(0) =~= d);
        assert(pow10(0) == 1);
        assert(digits_value(d) * 1 == digits_value(d));
    } else {
        lemma_append_zeros(d, (n - 1) as nat);
        assert((d + zeros(n)).drop_last() =~= d + zeros((n - 1) as nat));
        assert((d + zeros(n)).last() == '0');
        let a = digits_value(d);
        let p = pow10((n - 1) as nat);
        assert(pow10(n) == 10 * p);
        assert(digits_value(d + zeros(n)) == 10 * digits_value(d + zeros((n - 1) as nat)));
        assert(10 * (a * p) == a * (10 * p)) by (nonlinear_arith);
        assert(digits_value(d + zeros(n)) == a * pow10(n));
    }
}

proof fn lemma_zero_digits(s: Seq<char>)
    requires
        all_zero(s),
    ensures
        digits_value(s) == 0,
    decreases s.len(),
{
    if s.len() > 0 {
        lemma_zero_digits(s.drop_last());
    }
}

proof fn lemma_nonzero_digits(s: Seq<char>)
    requires
        all_digits(s),
        !all_zero(s),
    ensures
        digits_value(s) >= 1,
    decreases s.len(),
{
    if s.last() == '0' {
        assert(!all_zero(s.drop_last())) by {
            let i = choose|i: int| 0 <= i < s.len() && s[i] != '0';
            assert(s.drop_last()[i] != '0');
        }
        lemma_nonzero_digits(s.drop_last());
    } else {
        lemma_digits_value_prefix(s, s.len() - 1);
        assert(s.take(s.len() - 1) =~= s.drop_last());
    }
}

proof fn lemma_digits_below_pow10(s: Seq<char>)
    requires
        all_digits(s),
    ensures
        digits_value(s) < pow10(s.len()),
    decreases s.len(),
{
    if s.len() > 0 {
        lemma_digits_below_pow10(s.drop_last());
    }
}

proof fn lemma_pow10_mono(a: nat, b: nat)
    requires
        a <= b,
    ensures
        pow10(a) <= pow10(b),
    decreases b,
{
    if a < b {
        lemma_pow10_mono(a, (b - 1) as nat);
    }
}

proof fn lemma_pow10_20()
    ensures
        pow10(20) > u64::MAX,
        pow10(19) <= u64::MAX,
{
    reveal_with_fuel(pow10, 21);
}

proof fn lemma_exp_index(s: Seq<char>, k: int)
    requires
        0 <= k <= s.len(),
        forall|j: int| 0 <= j < k ==> s[j] != 'e' && s[j] != 'E',
        k == s.len() || s[k] == 'e' || s[k] == 'E',
    ensures
        exp_index(s) == (if k == s.len() {
            -1
        } else {
            k
        }),
    decreases k,
{
    if s.len() > 0 && k > 0 {
        lemma_exp_index(s.drop_first(), k - 1);
    }
}

/// The position of the first exponent mark of `v`, if any.
fn find_exp(v: &Vec<char>) -> (r: Option<usize>)
    ensures
        exp_index(v@) == (match r {
            Some(k) => k as int,
            None => -1,
        }),
        r matches Some(k) ==> k < v@.len(),
{
    let mut i: usize = 0;
    while i < v.len()
        invariant
            0 <= i <= v@.len(),
            forall|j: int| 0 <= j < i ==> v@[j] != 'e' && v@[j] != 'E',
        decreases v@.len() - i,
    {
        if v[i] == 'e' || v[i] == 'E' {
            proof {
                lemma_exp_index(v@, i as int);
            }
            return Some(i);
        }
        i = i + 1;
    }
    proof {
        lemma_exp_index(v@, v@.len() as int);
    }
    None
}

fn all_digit_chars(v: &Vec<char>) -> (r: bool)
    ensures
        r == all_digits(v@),
{
    let mut i: usize = 0;
    while i < v.len()
        invariant
            0 <= i <= v@.len(),
            forall|j: int| 0 <= j < i ==> is_digit(v@[j]),
        decreases v@.len() - i,
    {
        if v[i] < '0' || v[i] > '9' {
            return false;
        }
        i = i + 1;
    }
    true
}

fn all_zero_chars(v: &Vec<char>) -> (r: bool)
    ensures
        r == all_zero(v@),
{
    let mut i: usize = 0;
    while i < v.len()
        invariant
            0 <= i <= v@.len(),
            forall|j: int| 0 <= j < i ==> v@[j] == '0',
        decreases v@.len() - i,
    {
        if v[i] != '0' {
            return false;
        }
        i = i + 1;
    }
    true
}

/// `a` followed by `b`.
fn concat_chars(a: &Vec<char>, b: &Vec<char>) -> (r: Vec<char>)
    ensures
        r@ == a@ + b@,
{
    let mut out = slice_chars(a, 0, a.len());
    let mut i: usize = 0;
    while i < b.len()
        invariant
            0 <= i <= b@.len(),
            out@ == a@ + b@.take(i as int),
        decreases b@.len() - i,
    {
        out.push(b[i]);
        i = i + 1;
        assert(out@ =~= a@ + b@.take(i as int));
    }
    assert(b@.take(b@.len() as int) =~= b@);
    out
}

/// `d` followed by `n` zeros.
fn with_zeros(d: &Vec<char>, n: usize) -> (r: Vec<char>)
    ensures
        r@ == d@ + zeros(n as nat),
{
    let mut out = slice_chars(d, 0, d.len());
    let mut i: usize = 0;
    while i < n
        invariant
            0 <= i <= n,
            out@ == d@ + zeros(i as nat),
        decreases n - i,
    {
        out.push('0');
        i = i + 1;
        assert(out@ =~= d@ + zeros(i as nat));
    }
    out
}

/// Digits that begin with a digit read as `u64_of` reads them.
proof fn lemma_plain_digits(w: Seq<char>)
    requires
        w.len() > 0,
        all_digits(w),
    ensures
        digits_value(w) >= 0,
        u64_of(w) == (if digits_value(w) <= u64::MAX {
            Some(digits_value(w) as u64)
        } else {
            None
        }),
{
    assert(is_digit(w[0]));
    lemma_digits_value_prefix(w, w.len() as int);
    assert(w.take(w.len() as int) =~= w);
}

/// Shifting nonzero digits 20 or more places left passes `u64::MAX`.
proof fn lemma_big_shift(d: Seq<char>, shift: int)
    requires
        all_digits(d),
        !all_zero(d),
        shift >= 20,
    ensures
        digits_value(shifted_whole(d, shift)) > u64::MAX,
{
    lemma_append_zeros(d, shift as nat);
    lemma_nonzero_digits(d);
    lemma_pow10_mono(20, shift as nat);
    lemma_pow10_20();
    let a = digits_value(d);
    let p = pow10(shift as nat);
    assert(a * p >= p) by (nonlinear_arith)
        requires
            a >= 1,
            p >= 0,
    ;
}

/// Reads an exponent: its sign, and its size when that fits a `u64`
/// (`None` for a larger one, which then has at least 20 digits).
fn read_exponent(xs: &Vec<char>) -> (r: Option<(bool, Option<u64>)>)
    ensures
        r is None <==> exponent_value(xs@) is None,
        r matches Some((neg, Some(u))) ==> exponent_value(xs@) == Some(
            if neg {
                -(u as int)
            } else {
                u as int
            },
        ),
        r matches Some((neg, None)) ==> {
            let ev = exponent_value(xs@)->0;
            &&& xs@.len() >= 20
            &&& neg ==> ev < -(u64::MAX as int)
            &&& !neg ==> ev > u64::MAX
        },
{
    let xl = xs.len();
    let neg = xl > 0 && xs[0] == '-';
    let xst: usize = if xl > 0 && (xs[0] == '+' || xs[0] == '-') {
        1
    } else {
        0
    };
    let dx = slice_chars(xs, xst, xl);
    assert(dx@ =~= unsigned_body(xs@));
    if dx.len() == 0 || !all_digit_chars(&dx) {
        return None;
    }
    proof {
        lemma_plain_digits(dx@);
    }
    match parse_u64(&dx) {
        Some(u) => {
            assert(digits_value(dx@) == u as int);
            assert(is_negative(xs@) == neg);
            assert(exponent_value(xs@) == Some(
                if neg {
                    -(u as int)
                } else {
                    u as int
                },
            ));
            Some((neg, Some(u)))
        },
        None => {
            proof {
                lemma_digits_below_pow10(dx@);
                if dx@.len() <= 19 {
                    lemma_pow10_mono(dx@.len(), 19);
                    lemma_pow10_20();
                }
            }
            Some((neg, None))
        },
    }
}

/// The whole part of the nonzero digits `d` with the point moved `shift`
/// places, when it fits a `u64`.
fn shifted_value(d: &Vec<char>, shift: i128) -> (r: Option<u64>)
    requires
        d@.len() > 0,
        all_digits(d@),
        !all_zero(d@),
    ensures
        r == (if digits_value(shifted_whole(d@, shift as int)) <= u64::MAX {
            Some(digits_value(shifted_whole(d@, shift as int)) as u64)
        } else {
            None
        }),
{
    if shift >= 0 {
        if shift >= 20 {
            proof {
                lemma_big_shift(d@, shift as int);
            }
            return None;
        }
        let w = with_zeros(d, shift as usize);
        proof {
            assert(all_digits(w@));
            lemma_plain_digits(w@);
        }
        parse_u64(&w)
    } else {
        let k: i128 = d.len() as i128 + shift;
        if k <= 0 {
            assert(shifted_whole(d@, shift as int) =~= seq![]);
            return Some(0);
        }
        let w = slice_chars(d, 0, k as usize);
        proof {
            assert(w@ =~= d@.take(d@.len() + shift));
            assert(all_digits(w@));
            lemma_plain_digits(w@);
        }
        parse_u64(&w)
    }
}

/// Splits a reading into its integer digits, its fraction digits and its
/// exponent text, if any.
fn split_reading(v: &Vec<char>) -> (r: (Vec<char>, Vec<char>, Option<Vec<char>>))
    ensures
        r.0@ == int_part(mantissa(v@)),
        r.1@ == frac_part(mantissa(v@)),
        match r.2 {
            Some(xs) => exponent_text(v@) == Some(xs@) && r.1@.len() + xs@.len() + 1
                <= v@.len(),
            None => exponent_text(v@) is None,
        },
{
    let n = v.len();
    let start: usize = if n > 0 && (v[0] == '+' || v[0] == '-') {
        1
    } else {
        0
    };
    let body = slice_chars(v, start, n);
    assert(body@ =~= unsigned_body(v@));
    let bl = body.len();
    let found = find_exp(&body);
    let (m, x) = match found {
        None => (slice_chars(&body, 0, bl), None),
        Some(e) => (slice_chars(&body, 0, e), Some(slice_chars(&body, e + 1, bl))),
    };
    assert(m@ =~= mantissa(v@));
    let ml = m.len();
    assert(m@.skip(0) =~= m@);
    let dot = find_char(&m, 0, '.');
    let (ip, fp) = match dot {
        None => (slice_chars(&m, 0, ml), Vec::new()),
        Some(k) => (slice_chars(&m, 0, k), slice_chars(&m, k + 1, ml)),
    };
    assert(ip@ =~= int_part(m@));
    assert(fp@ =~= frac_part(m@));
    (ip, fp, x)
}

/// Reads the whole part of a non-negative decimal reading, in the notation
/// that `floor_of` describes.
pub fn parse_floor(v: &Vec<char>) -> (r: Option<u64>)
    ensures
        r == floor_of(v@),
{
    let n = v.len();
    let neg = n > 0 && v[0] == '-';
    let (ip, fp, x) = split_reading(v);
    if !all_digit_chars(&ip) || !all_digit_chars(&fp) {
        return None;
    }
    let d = concat_chars(&ip, &fp);
    if d.len() == 0 {
        return None;
    }
    let f = fp.len();
    let exponent: (bool, Option<u64>) = match x {
        None => (false, Some(0)),
        Some(xs) => match read_exponent(&xs) {
            None => {
                return None;
            },
            Some(e) => e,
        },
    };
    let ghost ev: int = match exponent_text(v@) {
        None => 0int,
        Some(xt) => exponent_value(xt)->0,
    };
    let ghost shift: int = ev - f;
    if all_zero_chars(&d) {
        proof {
            let w = shifted_whole(d@, shift);
            assert(all_zero(w));
            lemma_zero_digits(w);
        }
        return Some(0);
    }
    if neg {
        return None;
    }
    match exponent {
        (true, None) => {
            assert(shifted_whole(d@, shift) =~= seq![]);
            Some(0)
        },
        (false, None) => {
            proof {
                lemma_big_shift(d@, shift);
            }
            None
        },
        (en, Some(u)) => {
            let sh: i128 = if en {
                -(u as i128)
            } else {
                u as i128
            } - (f as i128);
            shifted_value(&d, sh)
        },
    }
}

} // verus!
