use vstd::prelude::*;

use crate::text::{digits_of, digits_text, push_char};

verus! {

/// An exact decimal number: `mantissa / 10^scale`, negated when `negative`.
///
/// Expectations compare a step's output against a threshold in this form.
#[derive(Clone, Copy, Debug, PartialEq, Eq)]
pub struct Number {
    pub negative: bool,
    pub mantissa: u64,
    pub scale: usize,
}

pub open spec fn pow10(k: nat) -> int
    decreases k,
{
    if k == 0 {
        1
    } else {
        10 * pow10((k - 1) as nat)
    }
}

/// The signed numerator of a number over `10^scale`.
pub open spec fn numerator(n: Number) -> int {
    if n.negative {
        -(n.mantissa as int)
    } else {
        n.mantissa as int
    }
}

/// `a < b` as rational numbers.
pub open spec fn number_lt(a: Number, b: Number) -> bool {
    numerator(a) * pow10(b.scale as nat) < numerator(b) * pow10(a.scale as nat)
}

pub open spec fn is_digit(c: char) -> bool {
    '0' <= c && c <= '9'
}

pub open spec fn digit_value(c: char) -> int {
    (c as int) - ('0' as int)
}

pub open spec fn digit_count(s: Seq<char>) -> nat
    decreases s.len(),
{
    if s.len() == 0 {
        0
    } else if is_digit(s.last()) {
        digit_count(s.drop_last()) + 1
    } else {
        digit_count(s.drop_last())
    }
}

pub open spec fn dot_count(s: Seq<char>) -> nat
    decreases s.len(),
{
    if s.len() == 0 {
        0
    } else if s.last() == '.' {
        dot_count(s.drop_last()) + 1
    } else {
        dot_count(s.drop_last())
    }
}

/// The integer that the digits of `s` spell, the dot left out.
pub open spec fn digits_value(s: Seq<char>) -> int
    decreases s.len(),
{
    if s.len() == 0 {
        0
    } else if is_digit(s.last()) {
        digits_value(s.drop_last()) * 10 + digit_value(s.last())
    } else {
        digits_value(s.drop_last())
    }
}

/// The number of digits after the dot.
pub open spec fn fraction_len(s: Seq<char>) -> nat
    decreases s.len(),
{
    if s.len() == 0 {
        0
    } else if is_digit(s.last()) && dot_count(s.drop_last()) > 0 {
        fraction_len(s.drop_last()) + 1
    } else {
        fraction_len(s.drop_last())
    }
}

pub open spec fn has_sign(s: Seq<char>) -> bool {
    s.len() > 0 && (s[0] == '-' || s[0] == '+')
}

/// The text after an optional leading sign.
pub open spec fn unsigned_part(s: Seq<char>) -> Seq<char> {
    if has_sign(s) {
        s.drop_first()
    } else {
        s
    }
}

/// Decimal notation: an optional sign, then digits with at most one dot,
/// at least one digit.
pub open spec fn is_number_text(s: Seq<char>) -> bool {
    let b = unsigned_part(s);
    &&& forall|i: int| 0 <= i < b.len() ==> is_digit(b[i]) || b[i] == '.'
    &&& dot_count(b) <= 1
    &&& digit_count(b) >= 1
}

/// The number that decimal notation `s` denotes.
pub open spec fn number_of_text(s: Seq<char>) -> Number {
    Number {
        negative: s.len() > 0 && s[0] == '-',
        mantissa: digits_value(unsigned_part(s)) as u64,
        scale: fraction_len(unsigned_part(s)) as usize,
    }
}

/// Whether `s` is decimal notation whose digits fit the mantissa.
pub open spec fn parses_as_number(s: Seq<char>) -> bool {
    is_number_text(s) && digits_value(unsigned_part(s)) <= u64::MAX
}

pub proof fn lemma_digits_value_nonneg(s: Seq<char>)
    ensures
        digits_value(s) >= 0,
    decreases s.len(),
{
    if s.len() > 0 {
        lemma_digits_value_nonneg(s.drop_last());
    }
}

proof fn lemma_fraction_len_bound(s: Seq<char>)
    ensures
        fraction_len(s) <= s.len(),
    decreases s.len(),
{
    if s.len() > 0 {
        lemma_fraction_len_bound(s.drop_last());
    }
}

proof fn lemma_pow10_positive(k: nat)
    ensures
        pow10(k) >= 1,
    decreases k,
{
    if k > 0 {
        lemma_pow10_positive((k - 1) as nat);
    }
}

proof fn lemma_pow10_add(a: nat, b: nat)
    ensures
        pow10(a + b) == pow10(a) * pow10(b),
    decreases a,
{
    if a > 0 {
        lemma_pow10_add((a - 1) as nat, b);
        assert(pow10(a + b) == 10 * pow10((a - 1 + b) as nat));
        assert(10 * (pow10((a - 1) as nat) * pow10(b)) == (10 * pow10((a - 1) as nat)) * pow10(
            b,
        )) by (nonlinear_arith);
    }
}

/// Reads decimal notation: an optional `-` or `+`, digits, and at most one
/// dot. `None` when `s` is no such text or has too many digits.
pub fn parse_number(s: &str) -> (r: Option<Number>)
    ensures
        r is Some <==> parses_as_number(s@),
        r matches Some(n) ==> n == number_of_text(s@),
{
    let n = s.unicode_len();
    let mut start: usize = 0;
    if n > 0 {
        let c0 = s.get_char(0);
        if c0 == '-' || c0 == '+' {
            start = 1;
        }
    }
    let ghost b = unsigned_part(s@);
    assert(b =~= s@.subrange(start as int, n as int));
    let mut mantissa: u64 = 0;
    let mut overflow = false;
    let mut digits: usize = 0;
    let mut dots: usize = 0;
    let mut scale: usize = 0;
    let mut shape_ok = true;
    let mut i: usize = start;
    while i < n
        invariant
            n == s@.len(),
            start <= i <= n,
            b == s@.subrange(start as int, n as int),
            ({
                let p = b.subrange(0, i - start);
                &&& shape_ok == (forall|j: int|
                    0 <= j < p.len() ==> is_digit(p[j]) || p[j] == '.')
                &&& digits == digit_count(p)
                &&& dots == dot_count(p)
                &&& scale == fraction_len(p)
                &&& !overflow ==> mantissa == digits_value(p)
                &&& overflow ==> digits_value(p) > u64::MAX
            }),
            digits <= i,
            dots <= i,
            scale <= i,
        decreases n - i,
    {
        let c = s.get_char(i);
        let ghost p = b.subrange(0, i - start);
        let ghost q = b.subrange(0, i + 1 - start);
        assert(q.drop_last() =~= p);
        assert(q.last() == c);
        proof {
            lemma_digits_value_nonneg(p);
        }
        if '0' <= c && c <= '9' {
            let d = (c as u32 - '0' as u32) as u64;
            if !overflow {
                if mantissa <= (u64::MAX - d) / 10 {
                    mantissa = mantissa * 10 + d;
                } else {
                    overflow = true;
                }
            }
            digits = digits + 1;
            if dots > 0 {
                scale = scale + 1;
            }
        } else if c == '.' {
            dots = dots + 1;
        } else {
            shape_ok = false;
        }
        proof {
            if shape_ok {
                assert forall|j: int| 0 <= j < q.len() implies is_digit(q[j]) || q[j] == '.' by {
                    if j < p.len() {
                        assert(q[j] == p[j]);
                    }
                }
            } else {
                if forall|j: int| 0 <= j < q.len() ==> is_digit(q[j]) || q[j] == '.' {
                    assert forall|j: int| 0 <= j < p.len() implies is_digit(p[j]) || p[j]
                        == '.' by {
                        assert(p[j] == q[j]);
                    }
                    assert(is_digit(q[q.len() - 1]) || q[q.len() - 1] == '.');
                }
            }
        }
        i = i + 1;
    }
    assert(b.subrange(0, n - start) =~= b);
    if shape_ok && dots <= 1 && digits >= 1 && !overflow {
        Some(Number { negative: start == 1 && s.get_char(0) == '-', mantissa, scale })
    } else {
        None
    }
}

/// Compares `am * 10^k` with `bm`: `-1`, `0` or `1`.
fn compare_shifted(am: u64, k: usize, bm: u64) -> (r: i8)
    ensures
        r == -1 <==> (am as int) * pow10(k as nat) < bm as int,
        r == 0 <==> (am as int) * pow10(k as nat) == bm as int,
        r == 1 <==> (am as int) * pow10(k as nat) > bm as int,
{
    let mut v: u128 = am as u128;
    let mut i: usize = 0;
    while i < k && v <= u64::MAX as u128
        invariant
            i <= k,
            v as int == (am as int) * pow10(i as nat),
            v <= 10 * (u64::MAX as u128),
        decreases k - i,
    {
        assert((am as int) * pow10((i + 1) as nat) == 10 * ((am as int) * pow10(i as nat)))
            by (nonlinear_arith)
            requires
                pow10((i + 1) as nat) == 10 * pow10(i as nat),
        ;
        v = v * 10;
        i = i + 1;
    }
    proof {
        lemma_pow10_add(i as nat, (k - i) as nat);
        lemma_pow10_positive((k - i) as nat);
        let t = pow10((k - i) as nat);
        let a = (am as int) * pow10(i as nat);
        assert((am as int) * pow10(k as nat) == a * t) by (nonlinear_arith)
            requires
                pow10(k as nat) == pow10(i as nat) * t,
                a == (am as int) * pow10(i as nat),
        ;
        assert(a >= 0) by (nonlinear_arith)
            requires
                a == v as int,
                v >= 0,
        ;
        assert(a * t >= a) by (nonlinear_arith)
            requires
                a >= 0,
                t >= 1,
        ;
        if i == k {
            assert(t == 1);
            assert(a * t == a);
        }
    }
    if i < k {
        1
    } else if v < bm as u128 {
        -1
    } else if v == bm as u128 {
        0
    } else {
        1
    }
}

/// Compares the magnitudes `am / 10^as_` and `bm / 10^bs`: `-1`, `0` or `1`.
fn compare_magnitudes(am: u64, as_: usize, bm: u64, bs: usize) -> (r: i8)
    ensures
        r == -1 <==> (am as int) * pow10(bs as nat) < (bm as int) * pow10(as_ as nat),
        r == 0 <==> (am as int) * pow10(bs as nat) == (bm as int) * pow10(as_ as nat),
        r == 1 <==> (am as int) * pow10(bs as nat) > (bm as int) * pow10(as_ as nat),
{
    if as_ <= bs {
        let k = bs - as_;
        let r = compare_shifted(am, k, bm);
        proof {
            lemma_pow10_add(k as nat, as_ as nat);
            lemma_pow10_positive(as_ as nat);
            let p = pow10(as_ as nat);
            let x = (am as int) * pow10(k as nat);
            assert((am as int) * pow10(bs as nat) == x * p) by (nonlinear_arith)
                requires
                    pow10(bs as nat) == pow10(k as nat) * p,
                    x == (am as int) * pow10(k as nat),
            ;
            assert(x < bm ==> x * p < (bm as int) * p) by (nonlinear_arith)
                requires
                    p >= 1,
            ;
            assert(x > bm ==> x * p > (bm as int) * p) by (nonlinear_arith)
                requires
                    p >= 1,
            ;
        }
        r
    } else {
        let k = as_ - bs;
        let r = compare_shifted(bm, k, am);
        proof {
            lemma_pow10_add(k as nat, bs as nat);
            lemma_pow10_positive(bs as nat);
            let p = pow10(bs as nat);
            let x = (bm as int) * pow10(k as nat);
            assert((bm as int) * pow10(as_ as nat) == x * p) by (nonlinear_arith)
                requires
                    pow10(as_ as nat) == pow10(k as nat) * p,
                    x == (bm as int) * pow10(k as nat),
            ;
            assert(x < am ==> x * p < (am as int) * p) by (nonlinear_arith)
                requires
                    p >= 1,
            ;
            assert(x > am ==> x * p > (am as int) * p) by (nonlinear_arith)
                requires
                    p >= 1,
            ;
        }
        -r
    }
}

impl Number {
    /// Whether `self < other` as rational numbers.
    pub fn less_than(&self, other: &Number) -> (r: bool)
        ensures
            r == number_lt(*self, *other),
    {
        let a_neg = self.negative && self.mantissa != 0;
        let b_neg = other.negative && other.mantissa != 0;
        let c = compare_magnitudes(self.mantissa, self.scale, other.mantissa, other.scale);
        proof {
            lemma_pow10_positive(self.scale as nat);
            lemma_pow10_positive(other.scale as nat);
            let pa = pow10(self.scale as nat);
            let pb = pow10(other.scale as nat);
            let am = self.mantissa as int;
            let bm = other.mantissa as int;
            assert(am * pb >= 0 && bm * pa >= 0) by (nonlinear_arith)
                requires
                    am >= 0,
                    bm >= 0,
                    pa >= 1,
                    pb >= 1,
            ;
            assert((-am) * pb == -(am * pb)) by (nonlinear_arith);
            assert((-bm) * pa == -(bm * pa)) by (nonlinear_arith);
            assert(am > 0 ==> am * pb > 0) by (nonlinear_arith)
                requires
                    pb >= 1,
            ;
            assert(bm > 0 ==> bm * pa > 0) by (nonlinear_arith)
                requires
                    pa >= 1,
            ;
        }
        if a_neg && !b_neg {
            true
        } else if !a_neg && b_neg {
            false
        } else if !a_neg {
            c == -1
        } else {
            c == 1
        }
    }
}


/// `k` zeros.
pub open spec fn zeros(k: nat) -> Seq<char> {
    Seq::new(k, |i: int| '0')
}

/// Decimal text of a number: its digits, with a dot before the last
/// `scale` of them, padded with zeros where there are too few.
pub open spec fn number_text(n: Number) -> Seq<char> {
    let d = digits_of(n.mantissa as nat);
    let sign = if n.negative {
        "-"@
    } else {
        ""@
    };
    let s = n.scale as int;
    if s == 0 {
        sign + d
    } else if d.len() > s {
        sign + d.subrange(0, d.len() - s) + "."@ + d.subrange(d.len() - s, d.len() as int)
    } else {
        sign + "0."@ + zeros((s - d.len()) as nat) + d
    }
}

impl Number {
    /// The number as decimal text.
    pub fn to_text(&self) -> (r: String)
        ensures
            r@ == number_text(*self),
    {
        let mut r = if self.negative {
            String::from_str("-")
        } else {
            String::new()
        };
        let d = digits_text(self.mantissa as u128);
        let len = d.as_str().unicode_len();
        let s = self.scale;
        if s == 0 {
            r.append(d.as_str());
        } else if len > s {
            r.append(d.as_str().substring_char(0, len - s));
            r.append(".");
            r.append(d.as_str().substring_char(len - s, len));
        } else {
            r.append("0.");
            let mut k: usize = 0;
            let ghost base = r@;
            while k < s - len
                invariant
                    k <= s - len,
                    r@ == base + zeros(k as nat),
                decreases s - len - k,
            {
                push_char(&mut r, '0');
                assert(zeros((k + 1) as nat) =~= zeros(k as nat).push('0'));
                k = k + 1;
            }
            r.append(d.as_str());
        }
        proof {
            reveal_strlit("-");
            reveal_strlit("");
            reveal_strlit(".");
            reveal_strlit("0.");
        }
        assert(r@ =~= number_text(*self));
        r
    }
}

} // verus!
