use vstd::prelude::*;

verus! {

pub open spec fn is_digit(c: char) -> bool {
    '0' <= c && c <= '9'
}

pub open spec fn digit_value(c: char) -> nat {
    (c as int - '0' as int) as nat
}

/// The number written by a sequence of decimal digits (zero for no digits).
pub open spec fn digits_value(s: Seq<char>) -> nat
    decreases s.len(),
{
    if s.len() == 0 {
        0
    } else {
        digits_value(s.drop_last()) * 10 + digit_value(s.last())
    }
}

pub open spec fn all_digits(s: Seq<char>) -> bool {
    forall|i: int| 0 <= i < s.len() ==> is_digit(#[trigger] s[i])
}

pub open spec fn digit_char(d: nat) -> char {
    if d < 10 {
        ('0' as nat + d) as char
    } else {
        ('a' as nat + (d - 10)) as char
    }
}

/// Decimal digits of `n`, most significant first, without leading zeros.
pub open spec fn decimal_of(n: nat) -> Seq<char>
    decreases n,
{
    if n < 10 {
        seq![digit_char(n)]
    } else {
        decimal_of(n / 10) + seq![digit_char(n % 10)]
    }
}

/// Lower-case hexadecimal of a byte string, two digits for each byte.
pub open spec fn hex_of(b: Seq<u8>) -> Seq<char>
    decreases b.len(),
{
    if b.len() == 0 {
        Seq::empty()
    } else {
        hex_of(b.drop_last()) + seq![
            digit_char((b.last() / 16) as nat),
            digit_char((b.last() % 16) as nat),
        ]
    }
}

/// The number that a decimal key suffix names, where it is one that fits in 128 bits.
pub open spec fn u128_of(s: Seq<char>) -> Option<u128> {
    if s.len() > 0 && all_digits(s) && digits_value(s) <= u128::MAX {
        Some(digits_value(s) as u128)
    } else {
        None
    }
}

/// Reading back the decimal digits of a number gives the number.
pub proof fn lemma_decimal_round_trip(n: nat)
    ensures
        decimal_of(n).len() > 0,
        all_digits(decimal_of(n)),
        digits_value(decimal_of(n)) == n,
    decreases n,
{
    if n < 10 {
        let s = decimal_of(n);
        assert(s.drop_last() =~= Seq::<char>::empty());
        assert(digit_value(digit_char(n)) == n);
        assert(s.last() == digit_char(n));
        assert(digits_value(s) == digits_value(s.drop_last()) * 10 + digit_value(s.last()));
    } else {
        lemma_decimal_round_trip(n / 10);
        let s = decimal_of(n);
        let d = (n % 10) as nat;
        assert(s.drop_last() =~= decimal_of(n / 10));
        assert(s.last() == digit_char(d));
        assert(digit_value(digit_char(d)) == d);
        assert(digits_value(s) == digits_value(decimal_of(n / 10)) * 10 + d);
        assert((n / 10) * 10 + n % 10 == n) by (nonlinear_arith);
        assert forall|i: int| 0 <= i < s.len() implies is_digit(#[trigger] s[i]) by {
            if i < s.len() - 1 {
                assert(s[i] == decimal_of(n / 10)[i]);
            }
        }
    }
}

/// The key suffix written for a request id is read back as the same id.
pub proof fn lemma_request_id_round_trip(id: u128)
    ensures
        u128_of(decimal_of(id as nat)) == Some(id),
{
    lemma_decimal_round_trip(id as nat);
}

/// Whether two strings hold the same characters.
pub fn str_equal(a: &str, b: &str) -> (r: bool)
    ensures
        r == (a@ == b@),
{
    let n = a.unicode_len();
    if n != b.unicode_len() {
        return false;
    }
    let mut i: usize = 0;
    while i < n
        invariant
            n == a@.len(),
            n == b@.len(),
            i <= n,
            forall|k: int| 0 <= k < i ==> a@[k] == b@[k],
        decreases n - i,
    {
        if a.get_char(i) != b.get_char(i) {
            return false;
        }
        i = i + 1;
    }
    assert(a@ =~= b@);
    true
}

/// Whether `s` begins with `prefix`.
pub fn starts_with(s: &str, prefix: &str) -> (r: bool)
    ensures
        r == (prefix@.len() <= s@.len() && s@.subrange(0, prefix@.len() as int) == prefix@),
{
    let n = prefix.unicode_len();
    if n > s.unicode_len() {
        return false;
    }
    let mut i: usize = 0;
    while i < n
        invariant
            n == prefix@.len(),
            n <= s@.len(),
            i <= n,
            forall|k: int| 0 <= k < i ==> s@[k] == prefix@[k],
        decreases n - i,
    {
        if s.get_char(i) != prefix.get_char(i) {
            return false;
        }
        i = i + 1;
    }
    assert(s@.subrange(0, n as int) =~= prefix@);
    true
}

/// The one-character string of the digit `d` (below sixteen).
fn digit_str(d: u8) -> (r: &'static str)
    requires
        d < 16,
    ensures
        r@ == seq![digit_char(d as nat)],
{
    let digits = "0123456789abcdef";
    proof {
        reveal_strlit("0123456789abcdef");
    }
    let r = digits.substring_char(d as usize, d as usize + 1);
    proof {
        assert(r@ =~= seq![digit_char(d as nat)]);
    }
    r
}

/// `n` in decimal.
pub fn decimal_string(n: u128) -> (r: String)
    ensures
        r@ == decimal_of(n as nat),
    decreases n,
{
    if n < 10 {
        String::from_str(digit_str(n as u8))
    } else {
        let mut s = decimal_string(n / 10);
        s.append(digit_str((n % 10) as u8));
        s
    }
}

/// The bytes in lower-case hexadecimal.
pub fn hex_string(b: &[u8]) -> (r: String)
    ensures
        r@ == hex_of(b@),
{
    let mut s = String::new();
    let mut i: usize = 0;
    while i < b.len()
        invariant
            i <= b@.len(),
            s@ == hex_of(b@.subrange(0, i as int)),
        decreases b@.len() - i,
    {
        let x = b[i];
        s.append(digit_str(x / 16));
        s.append(digit_str(x % 16));
        proof {
            let p = b@.subrange(0, i + 1);
            assert(p.drop_last() =~= b@.subrange(0, i as int));
        }
        i = i + 1;
    }
    assert(b@.subrange(0, b@.len() as int) =~= b@);
    s
}

/// The value of the decimal digits in `s[from..]`, if they are all digits, there is
/// at least one, and the value fits in 128 bits.
pub fn parse_u128_from(s: &str, from: usize) -> (r: Option<u128>)
    requires
        from <= s@.len(),
    ensures
        r == u128_of(s@.subrange(from as int, s@.len() as int)),
{
    let n = s.unicode_len();
    let ghost t = s@.subrange(from as int, n as int);
    if from == n {
        return None;
    }
    let mut v: u128 = 0;
    let mut i: usize = from;
    while i < n
        invariant
            n == s@.len(),
            from < n,
            from <= i <= n,
            t == s@.subrange(from as int, n as int),
            all_digits(t.subrange(0, i - from)),
            v as nat == digits_value(t.subrange(0, i - from)),
        decreases n - i,
    {
        let c = s.get_char(i);
        let ghost p = t.subrange(0, i - from + 1);
        proof {
            assert(p.drop_last() =~= t.subrange(0, i - from));
            assert(p.last() == c);
        }
        if !('0' <= c && c <= '9') {
            proof {
                assert(t[i - from] == c);
                assert(!is_digit(t[i - from]));
            }
            return None;
        }
        let d = (c as u32 - '0' as u32) as u128;
        if v > (u128::MAX - d) / 10 {
            proof {
                assert(t[i - from] == c);
                lemma_digits_value_prefix_grows(t, i - from + 1);
                assert(digits_value(p) == v * 10 + d);
                assert(t.subrange(0, t.len() as int) =~= t);
                if all_digits(t) {
                    assert(digits_value(p) <= digits_value(t.subrange(0, t.len() as int)));
                }
                assert(v * 10 + d > u128::MAX) by (nonlinear_arith)
                    requires
                        v > (u128::MAX - d) / 10,
                        d < 10,
                ;
            }
            return None;
        }
        proof {
            assert(v * 10 + d <= u128::MAX) by (nonlinear_arith)
                requires
                    v <= (u128::MAX - d) / 10,
                    d < 10,
            ;
            assert forall|k: int| 0 <= k < p.len() implies is_digit(#[trigger] p[k]) by {
                if k < p.len() - 1 {
                    assert(p[k] == t.subrange(0, i - from)[k]);
                }
            }
        }
        v = v * 10 + d;
        i = i + 1;
    }
    proof {
        assert(t.subrange(0, n - from) =~= t);
    }
    Some(v)
}

/// The value of a digit prefix never shrinks as the prefix grows.
pub proof fn lemma_digits_value_prefix_grows(t: Seq<char>, j: int)
    requires
        0 < j <= t.len(),
        all_digits(t.subrange(0, j - 1)),
        is_digit(t[j - 1]),
    ensures
        all_digits(t.subrange(0, j)),
        forall|k: int| j <= k <= t.len() && all_digits(t.subrange(0, k)) ==>
            digits_value(t.subrange(0, j)) <= #[trigger] digits_value(t.subrange(0, k)),
    decreases t.len() - j,
{
    let p = t.subrange(0, j);
    assert(p.drop_last() =~= t.subrange(0, j - 1));
    assert forall|k: int| 0 <= k < p.len() implies is_digit(#[trigger] p[k]) by {
        if k < p.len() - 1 {
            assert(p[k] == t.subrange(0, j - 1)[k]);
        }
    }
    assert forall|k: int| j <= k <= t.len() && all_digits(t.subrange(0, k)) implies
        digits_value(t.subrange(0, j)) <= #[trigger] digits_value(t.subrange(0, k)) by {
        lemma_digits_value_monotone(t, j, k);
    }
}

proof fn lemma_digits_value_monotone(t: Seq<char>, j: int, k: int)
    requires
        0 <= j <= k <= t.len(),
        all_digits(t.subrange(0, k)),
    ensures
        digits_value(t.subrange(0, j)) <= digits_value(t.subrange(0, k)),
    decreases k - j,
{
    if j < k {
        let q = t.subrange(0, k);
        assert(q.drop_last() =~= t.subrange(0, k - 1));
        assert(is_digit(q[k - 1]));
        assert forall|m: int| 0 <= m < k - 1 implies is_digit(#[trigger] t.subrange(0, k - 1)[m]) by {
            assert(t.subrange(0, k - 1)[m] == q[m]);
        }
        lemma_digits_value_monotone(t, j, k - 1);
    }
}

} // verus!
