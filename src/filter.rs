use vstd::prelude::*;
use crate::errors::{Error, ErrorCode};
use crate::text::{digit_value, is_digit, parse_u128_from, u128_of};

verus! {

/// How a value is tested against the value a subscription gave.
#[derive(Clone, Copy, Debug, PartialEq, Eq, Structural)]
pub enum FilterOperator {
    /// Every value passes.
    Any,
    /// The two strings are the same.
    Equal,
    /// The two strings differ.
    NotEqual,
    /// Both are numbers and the first is the smaller.
    LessThan,
    /// Both are numbers and the first is the larger.
    GreaterThan,
}

pub open spec fn pow10(e: nat) -> nat
    decreases e,
{
    if e == 0 {
        1
    } else {
        10 * pow10((e - 1) as nat)
    }
}

/// Reads the digits of an unsigned decimal, with at most one point among them:
/// the value of all the digits taken as one integer, how many digits there are,
/// how many of them follow the point, and whether a point was seen.
pub open spec fn read_digits(s: Seq<char>) -> Option<(nat, nat, nat, bool)>
    decreases s.len(),
{
    if s.len() == 0 {
        Some((0, 0, 0, false))
    } else {
        match read_digits(s.drop_last()) {
            None => None,
            Some((v, n, f, point)) => {
                let c = s.last();
                if is_digit(c) {
                    Some((v * 10 + digit_value(c), n + 1, if point { f + 1 } else { f }, point))
                } else if c == '.' && !point {
                    Some((v, n, f, true))
                } else {
                    None
                }
            },
        }
    }
}

pub open spec fn has_sign(s: Seq<char>) -> bool {
    s.len() > 0 && (s[0] == '-' || s[0] == '+')
}

pub open spec fn is_exp_mark(c: char) -> bool {
    c == 'e' || c == 'E'
}

/// `k` is the position of the first exponent mark in `s`.
pub open spec fn first_mark(s: Seq<char>, k: int) -> bool {
    &&& 0 <= k < s.len()
    &&& is_exp_mark(s[k])
    &&& forall|j: int| 0 <= j < k ==> !is_exp_mark(#[trigger] s[j])
}

/// Where the digits before the exponent end: at the first exponent mark, or at the
/// end where there is none.
pub open spec fn mantissa_end(s: Seq<char>) -> int {
    if exists|k: int| first_mark(s, k) {
        choose|k: int| first_mark(s, k)
    } else {
        s.len() as int
    }
}

/// The exponent after the mark: an optional sign and at least one digit, of a size
/// that fits in 64 bits.
pub open spec fn exponent_of(t: Seq<char>) -> Option<int> {
    let start: int = if has_sign(t) { 1 } else { 0 };
    match u128_of(t.subrange(start, t.len() as int)) {
        Some(e) => if e <= u64::MAX {
            Some(if t.len() > 0 && t[0] == '-' { -(e as int) } else { e as int })
        } else {
            None
        },
        None => None,
    }
}

/// A number written in decimal: an optional sign, then digits with at most one
/// point and at least one digit, then optionally `e` or `E` and an exponent. Its
/// value is `(-1 if negative) * digits / 10^scale`, given as (negative, digits,
/// scale), where the scale is the count of digits after the point less the exponent.
pub open spec fn decimal_of_text(s: Seq<char>) -> Option<(bool, nat, int)> {
    let start: int = if has_sign(s) { 1 } else { 0 };
    let body = s.subrange(start, s.len() as int);
    let k = mantissa_end(body);
    let exp = if k < body.len() {
        exponent_of(body.subrange(k + 1, body.len() as int))
    } else {
        Some(0int)
    };
    decimal_of_parts(s.len() > 0 && s[0] == '-', read_digits(body.subrange(0, k)), exp)
}

/// The decimal that a sign, a reading of the digits and an exponent give, where the
/// reading holds at least one digit and the exponent was read.
pub open spec fn decimal_of_parts(neg: bool, reading: Option<(nat, nat, nat, bool)>, exp: Option<int>) -> Option<
    (bool, nat, int),
> {
    match (reading, exp) {
        (Some((v, n, f, _)), Some(e)) => if 1 <= n {
            Some((neg, v, f - e))
        } else {
            None
        },
        _ => None,
    }
}

pub open spec fn signed(neg: bool, v: nat) -> int {
    if neg { -(v as int) } else { v as int }
}

pub open spec fn max_scale(a: int, b: int) -> int {
    if a >= b { a } else { b }
}

/// Whether the first decimal is smaller than the second: both are brought to the
/// larger of their scales and the numerators compared.
pub open spec fn decimal_less(a: (bool, nat, int), b: (bool, nat, int)) -> bool {
    let m = max_scale(a.2, b.2);
    signed(a.0, a.1) * pow10((m - a.2) as nat) < signed(b.0, b.1) * pow10((m - b.2) as nat)
}

/// What a filter says of `l` against `r`; `None` where a numeric operand is not a number.
pub open spec fn eval_spec(op: FilterOperator, l: Seq<char>, r: Seq<char>) -> Option<bool> {
    match op {
        FilterOperator::Any => Some(true),
        FilterOperator::Equal => Some(l == r),
        FilterOperator::NotEqual => Some(l != r),
        FilterOperator::LessThan => match (decimal_of_text(l), decimal_of_text(r)) {
            (Some(a), Some(b)) => Some(decimal_less(a, b)),
            _ => None,
        },
        FilterOperator::GreaterThan => match (decimal_of_text(l), decimal_of_text(r)) {
            (Some(a), Some(b)) => Some(decimal_less(b, a)),
            _ => None,
        },
    }
}

impl FilterOperator {
    /// Tests `lvalue` against `rvalue`. `Equal` and `NotEqual` compare the strings;
    /// `LessThan` and `GreaterThan` compare the exact values of the decimal numbers
    /// they write (see `decimal_of_text`), and fail with `InvalidArgument` where one
    /// of them is not such a number.
    pub fn eval(&self, lvalue: &str, rvalue: &str) -> (r: Result<bool, Error>)
        ensures
            match eval_spec(*self, lvalue@, rvalue@) {
                Some(b) => r == Ok::<bool, Error>(b),
                None => r is Err && r->Err_0.code == ErrorCode::InvalidArgument,
            },
    {
        match self {
            FilterOperator::Any => Ok(true),
            FilterOperator::Equal => Ok(crate::text::str_equal(lvalue, rvalue)),
            FilterOperator::NotEqual => Ok(!crate::text::str_equal(lvalue, rvalue)),
            FilterOperator::LessThan | FilterOperator::GreaterThan => {
                let a = match parse_decimal(lvalue) {
                    Some(a) => a,
                    None => return Err(not_a_number()),
                };
                let b = match parse_decimal(rvalue) {
                    Some(b) => b,
                    None => return Err(not_a_number()),
                };
                match self {
                    FilterOperator::LessThan => Ok(less_than(&a, &b)),
                    _ => Ok(less_than(&b, &a)),
                }
            },
        }
    }
}

fn not_a_number() -> (e: Error)
    ensures
        e.code == ErrorCode::InvalidArgument,
{
    Error::new(ErrorCode::InvalidArgument, "operand of a numeric filter is not a number")
}

/// The number written by a sequence of digit values, most significant first.
pub open spec fn num_value(ds: Seq<u8>) -> nat
    decreases ds.len(),
{
    if ds.len() == 0 {
        0
    } else {
        num_value(ds.drop_last()) * 10 + (ds.last() as nat)
    }
}

pub open spec fn small_digits(ds: Seq<u8>) -> bool {
    forall|i: int| 0 <= i < ds.len() ==> #[trigger] ds[i] < 10
}

/// A bound on the size of a scale: digits after the point, less an exponent that
/// fits in 64 bits.
pub const SCALE_BOUND: i128 = 0x2_0000_0000_0000_0000;

pub open spec fn zeros(k: nat) -> Seq<u8> {
    Seq::new(k, |i: int| 0u8)
}

proof fn lemma_pow10_positive(e: nat)
    ensures
        pow10(e) >= 1,
    decreases e,
{
    if e > 0 {
        lemma_pow10_positive((e - 1) as nat);
    }
}

proof fn lemma_pow10_monotone(a: nat, b: nat)
    requires
        a <= b,
    ensures
        pow10(a) <= pow10(b),
    decreases b - a,
{
    if a < b {
        lemma_pow10_monotone(a, (b - 1) as nat);
        lemma_pow10_positive((b - 1) as nat);
    }
}

/// The value of a concatenation.
proof fn lemma_num_value_concat(s: Seq<u8>, t: Seq<u8>)
    ensures
        num_value(s + t) == num_value(s) * pow10(t.len()) + num_value(t),
    decreases t.len(),
{
    if t.len() == 0 {
        assert(s + t =~= s);
        assert(num_value(t) == 0);
        assert(pow10(0) == 1);
        assert(num_value(s) * 1 == num_value(s));
    } else {
        lemma_num_value_concat(s, t.drop_last());
        assert((s + t).drop_last() =~= s + t.drop_last());
        assert((s + t).last() == t.last());
        let a = num_value(s);
        let p = pow10((t.len() - 1) as nat);
        let b = num_value(t.drop_last());
        assert(num_value(s + t) == num_value(s + t.drop_last()) * 10 + (t.last() as nat));
        assert(pow10(t.len()) == 10 * p);
        assert(num_value(t) == b * 10 + (t.last() as nat));
        assert((a * p + b) * 10 + (t.last() as nat) == a * (10 * p) + (b * 10 + (t.last() as nat)))
            by (nonlinear_arith);
    }
}

proof fn lemma_num_value_zeros(k: nat)
    ensures
        num_value(zeros(k)) == 0,
    decreases k,
{
    if k > 0 {
        assert(zeros(k).drop_last() =~= zeros((k - 1) as nat));
        lemma_num_value_zeros((k - 1) as nat);
    }
}

proof fn lemma_num_value_below(s: Seq<u8>)
    requires
        small_digits(s),
    ensures
        num_value(s) < pow10(s.len()),
    decreases s.len(),
{
    if s.len() > 0 {
        let d = s.drop_last();
        assert(small_digits(d)) by {
            assert forall|i: int| 0 <= i < d.len() implies #[trigger] d[i] < 10 by {
                assert(d[i] == s[i]);
            }
        }
        lemma_num_value_below(d);
        assert(s.last() == s[s.len() - 1]);
        let v = num_value(d);
        let p = pow10(d.len());
        assert(v * 10 + (s.last() as nat) < 10 * p) by (nonlinear_arith)
            requires
                v < p,
                s.last() < 10,
        ;
    }
}

proof fn lemma_num_value_above(s: Seq<u8>)
    requires
        s.len() > 0,
        s[0] != 0,
    ensures
        num_value(s) >= pow10((s.len() - 1) as nat),
{
    let h = s.subrange(0, 1);
    let t = s.subrange(1, s.len() as int);
    assert(h + t =~= s);
    lemma_num_value_concat(h, t);
    assert(h.drop_last() =~= Seq::<u8>::empty());
    assert(num_value(Seq::<u8>::empty()) == 0);
    assert(h.last() == s[0]);
    assert(num_value(h) == s[0] as nat);
    let p = pow10(t.len());
    assert(num_value(h) * p >= p) by (nonlinear_arith)
        requires
            num_value(h) >= 1,
    ;
}

/// Of two digit sequences of one length that agree before position `i` and differ
/// there, the one with the smaller digit is the smaller number.
proof fn lemma_num_value_first_difference(x: Seq<u8>, y: Seq<u8>, i: int)
    requires
        x.len() == y.len(),
        0 <= i < x.len(),
        x.subrange(0, i) == y.subrange(0, i),
        x[i] < y[i],
        small_digits(x),
        small_digits(y),
    ensures
        num_value(x) < num_value(y),
{
    let n = x.len() as int;
    let xh = x.subrange(0, i + 1);
    let xt = x.subrange(i + 1, n);
    let yh = y.subrange(0, i + 1);
    let yt = y.subrange(i + 1, n);
    assert(xh + xt =~= x);
    assert(yh + yt =~= y);
    lemma_num_value_concat(xh, xt);
    lemma_num_value_concat(yh, yt);
    assert(xh.drop_last() =~= x.subrange(0, i));
    assert(yh.drop_last() =~= y.subrange(0, i));
    assert(xh.last() == x[i]);
    assert(yh.last() == y[i]);
    assert(small_digits(xt)) by {
        assert forall|k: int| 0 <= k < xt.len() implies #[trigger] xt[k] < 10 by {
            assert(xt[k] == x[i + 1 + k]);
        }
    }
    lemma_num_value_below(xt);
    let p = pow10(xt.len());
    let a = num_value(xh);
    let b = num_value(yh);
    assert(a + 1 <= b);
    assert(a * p + num_value(xt) < b * p + num_value(yt)) by (nonlinear_arith)
        requires
            a + 1 <= b,
            num_value(xt) < p,
    ;
}

/// How reading a prefix bounds reading the whole.
proof fn lemma_read_digits_prefix(s: Seq<char>, j: int)
    requires
        0 <= j <= s.len(),
    ensures
        read_digits(s.subrange(0, j)) is None ==> read_digits(s) is None,
    decreases s.len() - j,
{
    if j < s.len() {
        lemma_read_digits_prefix(s.drop_last(), j);
        assert(s.drop_last().subrange(0, j) =~= s.subrange(0, j));
    } else {
        assert(s.subrange(0, j) =~= s);
    }
}

/// The position of the first exponent mark at or after `from`, or the length.
fn find_mark(s: &str, from: usize) -> (k: usize)
    requires
        from <= s@.len(),
    ensures
        from <= k <= s@.len(),
        forall|j: int| from <= j < k ==> !is_exp_mark(#[trigger] s@[j]),
        k < s@.len() ==> is_exp_mark(s@[k as int]),
{
    let len = s.unicode_len();
    let mut k: usize = from;
    while k < len
        invariant
            len == s@.len(),
            from <= k <= len,
            forall|j: int| from <= j < k ==> !is_exp_mark(#[trigger] s@[j]),
        decreases len - k,
    {
        let c = s.get_char(k);
        if c == 'e' || c == 'E' {
            return k;
        }
        k = k + 1;
    }
    k
}

/// Reads a decimal number (see `decimal_of_text`): its sign, its digits as values,
/// and its scale.
pub fn parse_decimal(s: &str) -> (r: Option<(bool, Vec<u8>, i128)>)
    ensures
        match decimal_of_text(s@) {
            Some((neg, v, sc)) => r is Some && r->Some_0.0 == neg && num_value(r->Some_0.1@) == v
                && small_digits(r->Some_0.1@) && r->Some_0.2 == sc,
            None => r is None,
        },
        r is Some ==> -SCALE_BOUND < r->Some_0.2 < SCALE_BOUND,
{
    let len = s.unicode_len();
    let mut start: usize = 0;
    let mut neg = false;
    if len > 0 {
        let c0 = s.get_char(0);
        if c0 == '-' {
            neg = true;
            start = 1;
        } else if c0 == '+' {
            start = 1;
        }
    }
    let ghost body = s@.subrange(start as int, len as int);
    assert(start == (if has_sign(s@) { 1int } else { 0int }));
    assert(neg == (s@.len() > 0 && s@[0] == '-'));
    let k = find_mark(s, start);
    proof {
        let kb = k - start;
        if k < len {
            assert(first_mark(body, kb)) by {
                assert forall|j: int| 0 <= j < kb implies !is_exp_mark(#[trigger] body[j]) by {
                    assert(body[j] == s@[start + j]);
                }
                assert(body[kb] == s@[k as int]);
            }
            let c = choose|c: int| first_mark(body, c);
            if c < kb {
                assert(body[c] == s@[start + c]);
            } else if c > kb {
                assert(!is_exp_mark(body[kb]));
            }
            assert(mantissa_end(body) == kb);
        } else {
            assert forall|c: int| !first_mark(body, c) by {
                if 0 <= c < body.len() {
                    assert(body[c] == s@[start + c]);
                }
            }
            assert(mantissa_end(body) == kb);
        }
    }
    // The exponent, where there is one.
    let mut exp: i128 = 0;
    let ghost exp_spec: Option<int> = Some(0int);
    if k < len {
        let ghost t = body.subrange(k - start + 1, body.len() as int);
        assert(t =~= s@.subrange(k + 1, len as int));
        let mut from = k + 1;
        let mut eneg = false;
        if from < len {
            let c = s.get_char(from);
            if c == '-' {
                eneg = true;
                from = from + 1;
            } else if c == '+' {
                from = from + 1;
            }
        }
        assert(from == k + 1 + (if has_sign(t) { 1int } else { 0int }));
        assert(t.subrange(from - k - 1, t.len() as int) =~= s@.subrange(from as int, len as int));
        match parse_u128_from(s, from) {
            Some(e) => {
                if e > u64::MAX as u128 {
                    proof {
                        assert(exponent_of(t) is None);
                    }
                    return None;
                }
                exp = if eneg { -(e as i128) } else { e as i128 };
                proof {
                    exp_spec = exponent_of(t);
                    assert(exp_spec == Some(exp as int));
                }
            },
            None => {
                proof {
                    assert(exponent_of(t) is None);
                }
                return None;
            },
        }
        proof {
            exp_spec = exponent_of(t);
        }
    }
    let ghost mant = s@.subrange(start as int, k as int);
    assert(mant =~= body.subrange(0, k - start));
    assert(decimal_of_text(s@) == decimal_of_parts(neg, read_digits(mant), exp_spec));
    let mut digits: Vec<u8> = Vec::new();
    let mut f: usize = 0;
    let mut point = false;
    let mut i: usize = start;
    proof {
        assert(mant.subrange(0, 0) =~= Seq::<char>::empty());
    }
    while i < k
        invariant
            len == s@.len(),
            start <= i <= k <= len,
            mant == s@.subrange(start as int, k as int),
            decimal_of_text(s@) == decimal_of_parts(neg, read_digits(mant), exp_spec),
            exp_spec == Some(exp as int),
            -0x1_0000_0000_0000_0000i128 <= exp <= 0x1_0000_0000_0000_0000i128,
            read_digits(mant.subrange(0, i - start)) == Some(
                (num_value(digits@), digits@.len(), f as nat, point),
            ),
            small_digits(digits@),
            f <= digits@.len(),
            digits@.len() <= i - start,
        decreases k - i,
    {
        let c = s.get_char(i);
        let ghost p = mant.subrange(0, i - start + 1);
        proof {
            assert(p.drop_last() =~= mant.subrange(0, i - start));
            assert(p.last() == c);
            lemma_read_digits_prefix(mant, i - start + 1);
        }
        if '0' <= c && c <= '9' {
            let d = (c as u32 - '0' as u32) as u8;
            let ghost before = digits@;
            digits.push(d);
            proof {
                assert(digits@.drop_last() =~= before);
                assert forall|j: int| 0 <= j < digits@.len() implies #[trigger] digits@[j] < 10 by {
                    if j < before.len() {
                        assert(digits@[j] == before[j]);
                    }
                }
            }
            if point {
                f = f + 1;
            }
        } else if c == '.' && !point {
            point = true;
        } else {
            proof {
                assert(mant.subrange(0, mant.len() as int) =~= mant);
                assert(read_digits(p) is None);
            }
            return None;
        }
        i = i + 1;
    }
    proof {
        assert(mant.subrange(0, k - start) =~= mant);
    }
    if digits.len() == 0 {
        return None;
    }
    Some((neg, digits, f as i128 - exp))
}

/// The position of the first non-zero digit, or the length where there is none.
fn first_nonzero(x: &Vec<u8>) -> (r: usize)
    ensures
        r <= x@.len(),
        forall|k: int| 0 <= k < r ==> x@[k] == 0,
        r < x@.len() ==> x@[r as int] != 0,
{
    let mut i: usize = 0;
    while i < x.len()
        invariant
            i <= x@.len(),
            forall|k: int| 0 <= k < i ==> x@[k] == 0,
        decreases x@.len() - i,
    {
        if x[i] != 0 {
            return i;
        }
        i = i + 1;
    }
    i
}

/// The digits of `x` without its leading zeros, followed by `px` zeros: the same
/// number as `x` times `10^px`.
pub open spec fn scaled(x: Seq<u8>, lz: int, px: nat) -> Seq<u8> {
    x.subrange(lz, x.len() as int) + zeros(px)
}

proof fn lemma_scaled(x: Seq<u8>, lz: int, px: nat)
    requires
        0 <= lz <= x.len(),
        forall|k: int| 0 <= k < lz ==> x[k] == 0,
        small_digits(x),
    ensures
        num_value(scaled(x, lz, px)) == num_value(x) * pow10(px),
        small_digits(scaled(x, lz, px)),
        scaled(x, lz, px).len() == x.len() - lz + px,
{
    let h = x.subrange(0, lz);
    let t = x.subrange(lz, x.len() as int);
    assert(h =~= zeros(lz as nat));
    assert(h + t =~= x);
    lemma_num_value_concat(h, t);
    lemma_num_value_zeros(lz as nat);
    lemma_num_value_concat(t, zeros(px));
    lemma_num_value_zeros(px);
    let sc = scaled(x, lz, px);
    assert forall|k: int| 0 <= k < sc.len() implies #[trigger] sc[k] < 10 by {
        if k < t.len() {
            assert(sc[k] == x[lz + k]);
        }
    }
}

/// Compares `x * 10^px` with `y * 10^py`: below zero, zero or above zero as the
/// first is smaller, equal or larger.
fn compare_scaled(x: &Vec<u8>, px: u128, y: &Vec<u8>, py: u128) -> (r: i8)
    requires
        small_digits(x@),
        small_digits(y@),
        px < 0x1_0000_0000_0000_0000_0000,
        py < 0x1_0000_0000_0000_0000_0000,
    ensures
        (r < 0) == (num_value(x@) * pow10(px as nat) < num_value(y@) * pow10(py as nat)),
        (r == 0) == (num_value(x@) * pow10(px as nat) == num_value(y@) * pow10(py as nat)),
{
    let lx = first_nonzero(x);
    let ly = first_nonzero(y);
    let ghost sx = scaled(x@, lx as int, px as nat);
    let ghost sy = scaled(y@, ly as int, py as nat);
    proof {
        lemma_scaled(x@, lx as int, px as nat);
        lemma_scaled(y@, ly as int, py as nat);
        lemma_pow10_positive(px as nat);
        lemma_pow10_positive(py as nat);
    }
    let ghost ma = num_value(x@) * pow10(px as nat);
    let ghost mb = num_value(y@) * pow10(py as nat);
    let zx = lx == x.len();
    let zy = ly == y.len();
    proof {
        if zx {
            assert(x@ =~= zeros(x@.len()));
            lemma_num_value_zeros(x@.len());
        } else {
            assert(sx[0] == x@[lx as int]);
            lemma_num_value_above(sx);
            lemma_pow10_positive((sx.len() - 1) as nat);
        }
        if zy {
            assert(y@ =~= zeros(y@.len()));
            lemma_num_value_zeros(y@.len());
        } else {
            assert(sy[0] == y@[ly as int]);
            lemma_num_value_above(sy);
            lemma_pow10_positive((sy.len() - 1) as nat);
        }
    }
    if zx && zy {
        return 0;
    }
    if zx {
        return -1;
    }
    if zy {
        return 1;
    }
    let nx: u128 = (x.len() - lx) as u128 + px as u128;
    let ny: u128 = (y.len() - ly) as u128 + py as u128;
    if nx != ny {
        proof {
            lemma_num_value_below(sx);
            lemma_num_value_below(sy);
            if nx < ny {
                lemma_pow10_monotone(nx as nat, (ny - 1) as nat);
            } else {
                lemma_pow10_monotone(ny as nat, (nx - 1) as nat);
            }
        }
        if nx < ny {
            return -1;
        } else {
            return 1;
        }
    }
    let mut i: u128 = 0;
    let rx: u128 = (x.len() - lx) as u128;
    let ry: u128 = (y.len() - ly) as u128;
    while i < nx
        invariant
            rx == x@.len() - lx,
            ry == y@.len() - ly,
            nx == ny,
            nx == sx.len(),
            ny == sy.len(),
            i <= nx,
            sx == scaled(x@, lx as int, px as nat),
            sy == scaled(y@, ly as int, py as nat),
            lx <= x@.len(),
            ly <= y@.len(),
            small_digits(sx),
            small_digits(sy),
            num_value(sx) == ma,
            num_value(sy) == mb,
            ma == num_value(x@) * pow10(px as nat),
            mb == num_value(y@) * pow10(py as nat),
            sx.subrange(0, i as int) == sy.subrange(0, i as int),
        decreases nx - i,
    {
        if i >= rx && i >= ry {
            // Only the appended zeros are left on both sides.
            proof {
                assert(sx =~= sy) by {
                    assert forall|j: int| 0 <= j < sx.len() implies sx[j] == sy[j] by {
                        if j < i {
                            assert(sx[j] == sx.subrange(0, i as int)[j]);
                            assert(sy[j] == sy.subrange(0, i as int)[j]);
                        }
                    }
                }
            }
            return 0;
        }
        let dx: u8 = if i < (x.len() - lx) as u128 {
            x[lx + i as usize]
        } else {
            0
        };
        let dy: u8 = if i < (y.len() - ly) as u128 {
            y[ly + i as usize]
        } else {
            0
        };
        proof {
            assert(dx == sx[i as int]);
            assert(dy == sy[i as int]);
        }
        if dx < dy {
            proof {
                lemma_num_value_first_difference(sx, sy, i as int);
                assert(num_value(sx) < num_value(sy));
                assert(ma < mb);
            }
            return -1;
        }
        if dx > dy {
            proof {
                assert(sy.subrange(0, i as int) == sx.subrange(0, i as int));
                lemma_num_value_first_difference(sy, sx, i as int);
                assert(mb < ma);
            }
            return 1;
        }
        proof {
            assert(sx.subrange(0, i + 1) =~= sx.subrange(0, i as int).push(sx[i as int]));
            assert(sy.subrange(0, i + 1) =~= sy.subrange(0, i as int).push(sy[i as int]));
        }
        i = i + 1;
    }
    proof {
        assert(sx.subrange(0, nx as int) =~= sx);
        assert(sy.subrange(0, ny as int) =~= sy);
    }
    0
}

/// Whether the decimal `a` is smaller than `b`, both as `parse_decimal` gives them.
fn less_than(a: &(bool, Vec<u8>, i128), b: &(bool, Vec<u8>, i128)) -> (r: bool)
    requires
        small_digits(a.1@),
        small_digits(b.1@),
        -SCALE_BOUND < a.2 < SCALE_BOUND,
        -SCALE_BOUND < b.2 < SCALE_BOUND,
    ensures
        r == decimal_less((a.0, num_value(a.1@), a.2 as int), (b.0, num_value(b.1@), b.2 as int)),
{
    let m: i128 = if a.2 >= b.2 { a.2 } else { b.2 };
    let pa: u128 = (m - a.2) as u128;
    let pb: u128 = (m - b.2) as u128;
    let c = compare_scaled(&a.1, pa, &b.1, pb);
    let ghost xa = num_value(a.1@) * pow10(pa as nat);
    let ghost xb = num_value(b.1@) * pow10(pb as nat);
    proof {
        assert(m as int == max_scale(a.2 as int, b.2 as int));
        assert(signed(a.0, num_value(a.1@)) * pow10(pa as nat) == if a.0 { -(xa as int) } else { xa as int }) by (
        nonlinear_arith)
            requires
                xa == num_value(a.1@) * pow10(pa as nat),
        ;
        assert(signed(b.0, num_value(b.1@)) * pow10(pb as nat) == if b.0 { -(xb as int) } else { xb as int }) by (
        nonlinear_arith)
            requires
                xb == num_value(b.1@) * pow10(pb as nat),
        ;
        lemma_pow10_positive(pa as nat);
        let v = num_value(a.1@);
        let p = pow10(pa as nat);
        assert((xa == 0) == (v == 0)) by (nonlinear_arith)
            requires
                xa == v * p,
                p >= 1,
        ;
    }
    match (a.0, b.0) {
        (false, false) => c < 0,
        (true, false) => !(c == 0 && is_zero(&a.1)),
        (false, true) => false,
        (true, true) => c > 0,
    }
}

/// Whether the digits write zero.
fn is_zero(x: &Vec<u8>) -> (r: bool)
    requires
        small_digits(x@),
    ensures
        r == (num_value(x@) == 0),
{
    let lx = first_nonzero(x);
    proof {
        if lx == x@.len() {
            assert(x@ =~= zeros(x@.len()));
            lemma_num_value_zeros(x@.len());
            assert(num_value(x@) == 0);
        } else {
            lemma_scaled(x@, lx as int, 0);
            assert(scaled(x@, lx as int, 0)[0] == x@[lx as int]);
            lemma_num_value_above(scaled(x@, lx as int, 0));
            lemma_pow10_positive((scaled(x@, lx as int, 0).len() - 1) as nat);
            assert(pow10(0) == 1);
            assert(num_value(scaled(x@, lx as int, 0)) >= 1);
            assert(num_value(x@) * 1 == num_value(x@));
            assert(num_value(x@) >= 1);
        }
    }
    lx == x.len()
}

} // verus!
