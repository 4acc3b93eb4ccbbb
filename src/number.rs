use vstd::prelude::*;
use vstd::arithmetic::div_mod::lemma_fundamental_div_mod;
use crate::text::chars_of;

verus! {

/// An exact number of the language. A finite value is `num / den` with
/// `den > 0`; `den == 0` stands for positive infinity (`num == 1`), negative
/// infinity (`num == -1`) and not-a-number (`num == 0`). The arithmetic keeps
/// the rules of floating point for these three: `x / 0` is an infinity,
/// `0 / 0` and `inf - inf` are not-a-number, and so on.
#[derive(Clone, Copy, Debug, PartialEq, Eq, Structural)]
pub struct Number {
    pub num: i64,
    pub den: i64,
}

pub open spec fn sign(n: int) -> int {
    if n > 0 {
        1
    } else if n < 0 {
        -1
    } else {
        0
    }
}

pub open spec fn fits(n: int) -> bool {
    i64::MIN <= n <= i64::MAX
}

/// `r` holds the value `n / d` (`d >= 0`, with `d == 0` as above).
pub open spec fn represents(r: Number, n: int, d: int) -> bool {
    if d == 0 {
        r.den == 0 && r.num == sign(n)
    } else {
        r.den > 0 && r.num * d == n * r.den
    }
}

/// Numerator and denominator of `a + b` before reduction.
pub open spec fn sum_parts(a: Number, b: Number) -> (int, int) {
    (a.num * b.den + b.num * a.den, a.den * b.den)
}

/// Numerator and denominator of `a * b` before reduction.
pub open spec fn prod_parts(a: Number, b: Number) -> (int, int) {
    (a.num * b.num, a.den * b.den)
}

/// Numerator and denominator of `1 / b`: `1 / 0` is positive infinity.
pub open spec fn recip_parts(b: Number) -> (int, int) {
    if b.num > 0 {
        (b.den as int, b.num as int)
    } else if b.num < 0 {
        (-b.den, -b.num)
    } else if b.den > 0 {
        (1, 0)
    } else {
        (0, 0)
    }
}

/// Numerator and denominator of `a / b` before reduction.
pub open spec fn quot_parts(a: Number, b: Number) -> (int, int) {
    (a.num * recip_parts(b).0, a.den * recip_parts(b).1)
}

impl Number {
    pub open spec fn wf(self) -> bool {
        self.den >= 0 && (self.den == 0 ==> -1 <= self.num <= 1)
    }

    pub open spec fn is_nan(self) -> bool {
        self.den == 0 && self.num == 0
    }

    /// The ordering of the language: not-a-number is unordered.
    pub open spec fn spec_less(self, o: Number) -> bool {
        if self.is_nan() || o.is_nan() {
            false
        } else if self.den == 0 && o.den == 0 {
            self.num < o.num
        } else {
            self.num * o.den < o.num * self.den
        }
    }

    /// Numeric equality: not-a-number equals nothing.
    pub open spec fn spec_same(self, o: Number) -> bool {
        if self.is_nan() || o.is_nan() {
            false
        } else if self.den == 0 && o.den == 0 {
            self.num == o.num
        } else {
            self.num * o.den == o.num * self.den
        }
    }

    /// Whether this number keeps the representation's rules.
    pub fn is_wf(&self) -> (r: bool)
        ensures
            r == self.wf(),
    {
        self.den >= 0 && (self.den != 0 || (-1 <= self.num && self.num <= 1))
    }

    /// The whole number `n`.
    pub fn whole(n: i64) -> (r: Number)
        ensures
            r.wf(),
            represents(r, n as int, 1),
    {
        Number { num: n, den: 1 }
    }

    pub fn less(&self, o: &Number) -> (r: bool)
        requires
            self.wf(),
            o.wf(),
        ensures
            r == self.spec_less(*o),
    {
        if (self.den == 0 && self.num == 0) || (o.den == 0 && o.num == 0) {
            false
        } else if self.den == 0 && o.den == 0 {
            self.num < o.num
        } else {
            proof {
                lemma_cross_bound(self.num as int, o.den as int);
                lemma_cross_bound(o.num as int, self.den as int);
            }
            (self.num as i128) * (o.den as i128) < (o.num as i128) * (self.den as i128)
        }
    }

    pub fn same(&self, o: &Number) -> (r: bool)
        requires
            self.wf(),
            o.wf(),
        ensures
            r == self.spec_same(*o),
    {
        if (self.den == 0 && self.num == 0) || (o.den == 0 && o.num == 0) {
            false
        } else if self.den == 0 && o.den == 0 {
            self.num == o.num
        } else {
            proof {
                lemma_cross_bound(self.num as int, o.den as int);
                lemma_cross_bound(o.num as int, self.den as int);
            }
            (self.num as i128) * (o.den as i128) == (o.num as i128) * (self.den as i128)
        }
    }

    /// `self + o`; `None` only where the exact sum does not fit.
    pub fn plus(&self, o: &Number) -> (r: Number)
        requires
            self.wf(),
            o.wf(),
        ensures
            r == settle(sum_parts(*self, *o).0, sum_parts(*self, *o).1),
            r.wf(),
            fits(sum_parts(*self, *o).0) && fits(sum_parts(*self, *o).1) ==> represents(r, sum_parts(*self, *o).0, sum_parts(*self, *o).1),
    {
        proof {
            lemma_cross_bound(self.num as int, o.den as int);
            lemma_cross_bound(o.num as int, self.den as int);
            lemma_den_product(self.den as int, o.den as int);
        }
        let n: i128 = (self.num as i128) * (o.den as i128) + (o.num as i128) * (self.den as i128);
        let d: i128 = (self.den as i128) * (o.den as i128);
        normalize(n, d)
    }

    /// `self - o`; `None` only where the exact difference does not fit.
    pub fn minus(&self, o: &Number) -> (r: Number)
        requires
            self.wf(),
            o.wf(),
        ensures
            r == settle(self.num * o.den - o.num * self.den, self.den * o.den),
            r.wf(),
            fits(self.num * o.den - o.num * self.den) && fits(self.den * o.den) ==> represents(r, self.num * o.den - o.num * self.den, self.den * o.den),
    {
        proof {
            lemma_cross_bound(self.num as int, o.den as int);
            lemma_cross_bound(o.num as int, self.den as int);
            lemma_den_product(self.den as int, o.den as int);
        }
        let n: i128 = (self.num as i128) * (o.den as i128) - (o.num as i128) * (self.den as i128);
        let d: i128 = (self.den as i128) * (o.den as i128);
        normalize(n, d)
    }

    /// `self * o`; `None` only where the exact product does not fit.
    pub fn times(&self, o: &Number) -> (r: Number)
        requires
            self.wf(),
            o.wf(),
        ensures
            r == settle(prod_parts(*self, *o).0, prod_parts(*self, *o).1),
            r.wf(),
            fits(prod_parts(*self, *o).0) && fits(prod_parts(*self, *o).1) ==> represents(r, prod_parts(*self, *o).0, prod_parts(*self, *o).1),
    {
        proof {
            lemma_num_bound(self.num as int, o.num as int);
            lemma_den_product(self.den as int, o.den as int);
        }
        let n: i128 = (self.num as i128) * (o.num as i128);
        let d: i128 = (self.den as i128) * (o.den as i128);
        normalize(n, d)
    }

    /// `self / o`; `None` only where the exact quotient does not fit.
    pub fn over(&self, o: &Number) -> (r: Number)
        requires
            self.wf(),
            o.wf(),
        ensures
            r == settle(quot_parts(*self, *o).0, quot_parts(*self, *o).1),
            r.wf(),
            fits(quot_parts(*self, *o).0) && fits(quot_parts(*self, *o).1) ==> represents(r, quot_parts(*self, *o).0, quot_parts(*self, *o).1),
    {
        let (rn, rd): (i128, i128) = if o.num > 0 {
            (o.den as i128, o.num as i128)
        } else if o.num < 0 {
            (0 - (o.den as i128), 0 - (o.num as i128))
        } else if o.den > 0 {
            (1, 0)
        } else {
            (0, 0)
        };
        proof {
            lemma_cross_bound(self.num as int, rn as int);
            lemma_den_product(self.den as int, rd as int);
        }
        let n: i128 = (self.num as i128) * rn;
        let d: i128 = (self.den as i128) * rd;
        normalize(n, d)
    }

    /// `-self`; `None` only for the least `i64` numerator.
    pub fn negated(&self) -> (r: Number)
        requires
            self.wf(),
        ensures
            r == settle(-self.num, self.den as int),
            r.wf(),
            fits(-self.num) ==> represents(r, -self.num, self.den as int),
    {
        normalize(0 - (self.num as i128), self.den as i128)
    }
}

/// A numerator times a denominator-sized factor stays well inside `i128`.
proof fn lemma_cross_bound(a: int, b: int)
    requires
        fits(a),
        -i64::MAX <= b <= i64::MAX,
    ensures
        -0x3fff_ffff_ffff_ffff_8000_0000_0000_0000 <= a * b <= 0x3fff_ffff_ffff_ffff_8000_0000_0000_0000,
{
    assert(-0x3fff_ffff_ffff_ffff_8000_0000_0000_0000 <= a * b <= 0x3fff_ffff_ffff_ffff_8000_0000_0000_0000)
        by (nonlinear_arith)
        requires
            -0x8000_0000_0000_0000 <= a <= 0x8000_0000_0000_0000,
            -0x7fff_ffff_ffff_ffff <= b <= 0x7fff_ffff_ffff_ffff,
    ;
}

/// The product of two numerators fits in `i128`.
proof fn lemma_num_bound(a: int, b: int)
    requires
        fits(a),
        fits(b),
    ensures
        -0x4000_0000_0000_0000_0000_0000_0000_0000 <= a * b <= 0x4000_0000_0000_0000_0000_0000_0000_0000,
{
    assert(-0x4000_0000_0000_0000_0000_0000_0000_0000 <= a * b <= 0x4000_0000_0000_0000_0000_0000_0000_0000)
        by (nonlinear_arith)
        requires
            -0x8000_0000_0000_0000 <= a <= 0x8000_0000_0000_0000,
            -0x8000_0000_0000_0000 <= b <= 0x8000_0000_0000_0000,
    ;
}

proof fn lemma_den_product(a: int, b: int)
    requires
        0 <= a <= i64::MAX,
        0 <= b <= 0x8000_0000_0000_0000,
    ensures
        0 <= a * b <= 0x4000_0000_0000_0000_0000_0000_0000_0000,
{
    assert(0 <= a * b <= 0x4000_0000_0000_0000_0000_0000_0000_0000) by (nonlinear_arith)
        requires
            0 <= a <= 0x8000_0000_0000_0000,
            0 <= b <= 0x8000_0000_0000_0000,
    ;
}

/// The decimal digit `d` (`0 <= d <= 9`).
pub open spec fn digit(d: int) -> char {
    if d == 0 {
        '0'
    } else if d == 1 {
        '1'
    } else if d == 2 {
        '2'
    } else if d == 3 {
        '3'
    } else if d == 4 {
        '4'
    } else if d == 5 {
        '5'
    } else if d == 6 {
        '6'
    } else if d == 7 {
        '7'
    } else if d == 8 {
        '8'
    } else {
        '9'
    }
}

/// The decimal text of `n`, without leading zeros.
pub open spec fn nat_text(n: nat) -> Seq<char>
    decreases n,
{
    if n < 10 {
        seq![digit(n as int)]
    } else {
        nat_text(n / 10).push(digit((n % 10) as int))
    }
}

/// At most `k` digits of the fraction `r / d` by long division, stopping
/// early where the division comes out even.
pub open spec fn frac_text(r: nat, d: nat, k: nat) -> Seq<char>
    decreases k,
{
    if k == 0 || r == 0 || d == 0 {
        seq![]
    } else {
        seq![digit(((r * 10) / d) as int)] + frac_text((r * 10) % d, d, (k - 1) as nat)
    }
}

/// `s` without its trailing zeros.
pub open spec fn trim_zeros(s: Seq<char>) -> Seq<char>
    decreases s.len(),
{
    if s.len() > 0 && s.last() == '0' {
        trim_zeros(s.drop_last())
    } else {
        s
    }
}

/// How many digits of a fraction are shown.
pub const FRACTION_DIGITS: u64 = 16;

/// The text of a number: `inf`, `-inf` or `NaN` for the three special
/// values; else a sign, the whole part and, where the fraction is not zero,
/// a point and up to sixteen digits of it without trailing zeros.
pub open spec fn number_text(x: Number) -> Seq<char> {
    if x.den == 0 {
        if x.num > 0 {
            seq!['i', 'n', 'f']
        } else if x.num < 0 {
            seq!['-', 'i', 'n', 'f']
        } else {
            seq!['N', 'a', 'N']
        }
    } else {
        let a = abs(x.num as int);
        let d = x.den as nat;
        let f = trim_zeros(frac_text(a % d, d, FRACTION_DIGITS as nat));
        (if x.num < 0 {
            seq!['-']
        } else {
            seq![]
        }) + nat_text(a / d) + (if f.len() == 0 {
            seq![]
        } else {
            seq!['.'] + f
        })
    }
}

fn digit_char(d: u128) -> (c: char)
    requires
        d < 10,
    ensures
        c == digit(d as int),
{
    if d == 0 {
        '0'
    } else if d == 1 {
        '1'
    } else if d == 2 {
        '2'
    } else if d == 3 {
        '3'
    } else if d == 4 {
        '4'
    } else if d == 5 {
        '5'
    } else if d == 6 {
        '6'
    } else if d == 7 {
        '7'
    } else if d == 8 {
        '8'
    } else {
        '9'
    }
}

pub fn push_nat_text(n: u128, out: &mut Vec<char>)
    ensures
        final(out)@ == old(out)@ + nat_text(n as nat),
    decreases n,
{
    if n >= 10 {
        push_nat_text(n / 10, out);
    }
    out.push(digit_char(n % 10));
    proof {
        if n < 10 {
            assert(old(out)@ + nat_text(n as nat) =~= old(out)@.push(digit(n as int)));
        } else {
            assert(old(out)@ + nat_text(n as nat) =~= (old(out)@ + nat_text((n / 10) as nat)).push(
                digit((n % 10) as int),
            ));
        }
    }
}

fn push_frac_text(r: u128, d: u128, k: u64, out: &mut Vec<char>)
    requires
        r < d,
        d <= i64::MAX,
    ensures
        final(out)@ == old(out)@ + frac_text(r as nat, d as nat, k as nat),
    decreases k,
{
    if k == 0 || r == 0 {
        assert(old(out)@ + frac_text(r as nat, d as nat, k as nat) =~= old(out)@);
        return;
    }
    let t: u128 = r * 10;
    assert(t / d < 10) by (nonlinear_arith)
        requires
            t == r * 10,
            r < d,
            d > 0,
    ;
    out.push(digit_char(t / d));
    push_frac_text(t % d, d, k - 1, out);
    proof {
        let mid = old(out)@.push(digit((t / d) as int));
        assert(old(out)@ + frac_text(r as nat, d as nat, k as nat) =~= mid + frac_text(
            (t % d) as nat,
            d as nat,
            (k - 1) as nat,
        ));
    }
}

impl Number {
    /// The text of this number, as `number_text` states it.
    pub fn text(&self) -> (r: Vec<char>)
        requires
            self.wf(),
        ensures
            r@ == number_text(*self),
    {
        let mut out: Vec<char> = Vec::new();
        if self.den == 0 {
            if self.num > 0 {
                out.push('i');
                out.push('n');
                out.push('f');
            } else if self.num < 0 {
                out.push('-');
                out.push('i');
                out.push('n');
                out.push('f');
            } else {
                out.push('N');
                out.push('a');
                out.push('N');
            }
            assert(out@ =~= number_text(*self));
            return out;
        }
        if self.num < 0 {
            out.push('-');
        }
        let a: u128 = if self.num < 0 {
            (0 - (self.num as i128)) as u128
        } else {
            self.num as u128
        };
        let d: u128 = self.den as u128;
        push_nat_text(a / d, &mut out);
        let mut frac: Vec<char> = Vec::new();
        push_frac_text(a % d, d, FRACTION_DIGITS, &mut frac);
        let ghost full = frac@;
        assert(full =~= seq![] + frac_text((a % d) as nat, d as nat, FRACTION_DIGITS as nat));
        while frac.len() > 0 && frac[frac.len() - 1] == '0'
            invariant
                trim_zeros(frac@) == trim_zeros(full),
            decreases frac.len(),
        {
            assert(frac@.drop_last() =~= frac@.take(frac.len() - 1));
            frac.pop();
        }
        assert(trim_zeros(frac@) == frac@);
        if frac.len() > 0 {
            out.push('.');
            let mut i: usize = 0;
            let ghost before = out@;
            while i < frac.len()
                invariant
                    i <= frac.len(),
                    out@ == before + frac@.take(i as int),
                decreases frac.len() - i,
            {
                out.push(frac[i]);
                i = i + 1;
                assert(frac@.take(i as int) =~= frac@.take(i - 1).push(frac@[i - 1]));
            }
            assert(frac@.take(frac.len() as int) =~= frac@);
        }
        proof {
            let sgn: Seq<char> = if self.num < 0 {
                seq!['-']
            } else {
                seq![]
            };
            let f = trim_zeros(frac_text((a % d) as nat, d as nat, FRACTION_DIGITS as nat));
            assert(f == frac@);
            if f.len() == 0 {
                assert(out@ =~= number_text(*self));
            } else {
                assert(out@ =~= number_text(*self));
            }
        }
        out
    }
}

pub open spec fn is_digit(c: char) -> bool {
    48 <= c as u32 <= 57
}

pub open spec fn digit_value(c: char) -> int {
    c as u32 - 48
}

/// Whether `s` holds a point.
pub open spec fn has_dot(s: Seq<char>) -> bool
    decreases s.len(),
{
    s.len() > 0 && (s.last() == '.' || has_dot(s.drop_last()))
}

/// Digits with at most one point among them.
pub open spec fn numeral(s: Seq<char>) -> bool
    decreases s.len(),
{
    s.len() == 0 || (numeral(s.drop_last()) && (is_digit(s.last()) || (s.last() == '.' && !has_dot(
        s.drop_last(),
    ))))
}

/// The digits of a numeral read as one whole number, the point left out.
pub open spec fn numeral_digits(s: Seq<char>) -> int
    decreases s.len(),
{
    if s.len() == 0 {
        0
    } else if s.last() == '.' {
        numeral_digits(s.drop_last())
    } else {
        numeral_digits(s.drop_last()) * 10 + digit_value(s.last())
    }
}

/// How many digits follow the point of a numeral.
pub open spec fn fraction_len(s: Seq<char>) -> nat
    decreases s.len(),
{
    if s.len() == 0 || s.last() == '.' {
        0
    } else if has_dot(s.drop_last()) {
        fraction_len(s.drop_last()) + 1
    } else {
        0
    }
}

pub open spec fn pow10(k: nat) -> int
    decreases k,
{
    if k == 0 {
        1
    } else {
        10 * pow10((k - 1) as nat)
    }
}

/// The largest digits and power of ten that a numeral may have: ten to
/// the 37th.
pub const NUMERAL_LIMIT: i128 = 10_000_000_000_000_000_000_000_000_000_000_000_000;

/// The value of a numeral: its digits over the power of ten that its
/// fraction calls for, settled into a number (rounded where the exact
/// value does not fit), where neither exceeds `NUMERAL_LIMIT`.
pub open spec fn numeral_value(s: Seq<char>) -> Option<Number> {
    if numeral_digits(s) <= NUMERAL_LIMIT && pow10(fraction_len(s)) <= NUMERAL_LIMIT {
        Some(settle(numeral_digits(s), pow10(fraction_len(s))))
    } else {
        None
    }
}

proof fn lemma_numeral_step(s: Seq<char>, k: int)
    requires
        0 <= k < s.len(),
        numeral(s.take(k + 1)),
    ensures
        numeral(s.take(k)),
        numeral_digits(s.take(k)) <= numeral_digits(s.take(k + 1)),
        fraction_len(s.take(k)) <= fraction_len(s.take(k + 1)),
        pow10(fraction_len(s.take(k))) <= pow10(fraction_len(s.take(k + 1))),
        0 <= numeral_digits(s.take(k)),
        1 <= pow10(fraction_len(s.take(k))),
{
    let t = s.take(k + 1);
    assert(t.drop_last() =~= s.take(k));
    lemma_digits_nonneg(s.take(k));
    lemma_pow10_pos(fraction_len(s.take(k)));
    if t.last() == '.' {
        lemma_no_dot_no_fraction(s.take(k));
    }
}

proof fn lemma_digits_nonneg(s: Seq<char>)
    requires
        numeral(s),
    ensures
        numeral_digits(s) >= 0,
    decreases s.len(),
{
    if s.len() > 0 {
        lemma_digits_nonneg(s.drop_last());
    }
}

proof fn lemma_pow10_pos(k: nat)
    ensures
        pow10(k) >= 1,
    decreases k,
{
    if k > 0 {
        lemma_pow10_pos((k - 1) as nat);
    }
}

proof fn lemma_no_dot_no_fraction(s: Seq<char>)
    requires
        !has_dot(s),
    ensures
        fraction_len(s) == 0,
{
}

/// Numerals only grow as digits are added to them.
proof fn lemma_numeral_mono(s: Seq<char>, j: int, k: int)
    requires
        0 <= j <= k <= s.len(),
        numeral(s.take(k)),
    ensures
        numeral(s.take(j)),
        numeral_digits(s.take(j)) <= numeral_digits(s.take(k)),
        pow10(fraction_len(s.take(j))) <= pow10(fraction_len(s.take(k))),
    decreases k - j,
{
    if j < k {
        lemma_numeral_step(s, k - 1);
        lemma_numeral_mono(s, j, k - 1);
    }
}

/// The value of the numeral `s`, or `None` where its digits or its scale
/// do not fit in `i64`.
pub fn numeral_number(s: &Vec<char>) -> (r: Option<Number>)
    requires
        numeral(s@),
    ensures
        r == numeral_value(s@),
{
    let mut n: i128 = 0;
    let mut den: i128 = 1;
    let mut dot = false;
    let mut i: usize = 0;
    assert(s@.take(0) =~= Seq::<char>::empty());
    while i < s.len()
        invariant
            i <= s.len(),
            numeral(s@),
            n == numeral_digits(s@.take(i as int)),
            den == pow10(fraction_len(s@.take(i as int))),
            dot == has_dot(s@.take(i as int)),
            0 <= n <= NUMERAL_LIMIT,
            1 <= den <= NUMERAL_LIMIT,
        decreases s.len() - i,
    {
        let c = s[i];
        let ghost t = s@.take(i + 1);
        assert(t.drop_last() =~= s@.take(i as int));
        assert(s@.take(s.len() as int) =~= s@);
        proof {
            lemma_numeral_mono(s@, i + 1, s.len() as int);
            lemma_digits_nonneg(s@.take(i as int));
        }
        if c == '.' {
            dot = true;
        } else {
            n = n * 10 + (c as u32 - 48) as i128;
            if dot {
                den = den * 10;
            }
            if n > NUMERAL_LIMIT || den > NUMERAL_LIMIT {
                proof {
                    lemma_numeral_mono(s@, i + 1, s.len() as int);
                }
                return None;
            }
        }
        i = i + 1;
    }
    assert(s@.take(s.len() as int) =~= s@);
    Some(normalize(n, den))
}

/// Whether `v` is a numeral: digits with at most one point.
pub fn is_numeral(v: &Vec<char>) -> (r: bool)
    ensures
        r == numeral(v@),
{
    let mut dot = false;
    let mut i: usize = 0;
    assert(v@.take(0) =~= Seq::<char>::empty());
    while i < v.len()
        invariant
            i <= v.len(),
            numeral(v@.take(i as int)),
            dot == has_dot(v@.take(i as int)),
        decreases v.len() - i,
    {
        let c = v[i];
        let ghost t = v@.take(i + 1);
        assert(t.drop_last() =~= v@.take(i as int));
        if c == '.' {
            if dot {
                proof {
                    lemma_not_numeral_after(v@, i + 1);
                }
                return false;
            }
            dot = true;
        } else if !(48 <= c as u32 && c as u32 <= 57) {
            proof {
                lemma_not_numeral_after(v@, i + 1);
            }
            return false;
        }
        i = i + 1;
    }
    assert(v@.take(v.len() as int) =~= v@);
    true
}

/// A prefix that is no numeral spoils every longer text.
proof fn lemma_not_numeral_after(s: Seq<char>, k: int)
    requires
        0 <= k <= s.len(),
        !numeral(s.take(k)),
    ensures
        !numeral(s),
    decreases s.len() - k,
{
    if k < s.len() {
        assert(s.take(k + 1).drop_last() =~= s.take(k));
        lemma_not_numeral_after(s, k + 1);
    } else {
        assert(s.take(k) =~= s);
    }
}

impl Number {
    /// The number that a numeral such as `12.34` writes, where it fits.
    pub fn parse(s: &str) -> (r: Option<Number>)
        ensures
            numeral(s@) ==> r == numeral_value(s@),
            !numeral(s@) ==> r is None,
    {
        let v = chars_of(s);
        if is_numeral(&v) {
            numeral_number(&v)
        } else {
            None
        }
    }
}

/// Greatest common divisor by Euclid's rule.
pub open spec fn spec_gcd(a: nat, b: nat) -> nat
    decreases b,
{
    if b == 0 {
        a
    } else {
        spec_gcd(b, a % b)
    }
}

pub open spec fn abs(n: int) -> nat {
    if n < 0 {
        (-n) as nat
    } else {
        n as nat
    }
}

/// `n / d` divided through by the greatest common divisor of `|n|` and `d`.
pub open spec fn reduce(n: int, d: int) -> (int, int) {
    let g = spec_gcd(abs(n), d as nat);
    if g > 1 && abs(n) % g == 0 && (d as nat) % g == 0 {
        (if n < 0 {
            -((abs(n) / g) as int)
        } else {
            (abs(n) / g) as int
        }, ((d as nat) / g) as int)
    } else {
        (n, d)
    }
}

/// `n` halved, rounded toward zero.
pub open spec fn halve(n: int) -> int {
    if n < 0 {
        -((abs(n) / 2) as int)
    } else {
        n / 2
    }
}

/// `n / d` with both halved (toward zero) until both fit in `i64`: a value
/// near `n / d` with less precision. A value too large for the
/// representation ends with denominator zero, one too small with
/// numerator zero.
pub open spec fn shrink(n: int, d: int) -> (int, int)
    decreases abs(n) + d,
{
    if d < 0 || (fits(n) && fits(d)) {
        (n, d)
    } else {
        shrink(halve(n), d / 2)
    }
}

/// The number of the language for `n / d` (`d >= 0`): in lowest terms
/// where that fits, else the nearby value that `shrink` gives, which is an
/// infinity of the right sign where the magnitude is too large and zero
/// where it is too small.
pub open spec fn settle(n: int, d: int) -> Number {
    if d == 0 {
        Number { num: sign(n) as i64, den: 0 }
    } else if fits(reduce(n, d).0) && fits(reduce(n, d).1) {
        Number { num: reduce(n, d).0 as i64, den: reduce(n, d).1 as i64 }
    } else {
        let (p, q) = shrink(reduce(n, d).0, reduce(n, d).1);
        if q == 0 {
            Number { num: sign(p) as i64, den: 0 }
        } else {
            Number { num: reduce(p, q).0 as i64, den: reduce(p, q).1 as i64 }
        }
    }
}

fn gcd(a: u128, b: u128) -> (g: u128)
    ensures
        g == spec_gcd(a as nat, b as nat),
    decreases b,
{
    if b == 0 {
        a
    } else {
        gcd(b, a % b)
    }
}

/// `n / d` (`d > 0`) divided through by the greatest common divisor.
fn reduce_exec(n: i128, d: i128) -> (r: (i128, i128))
    requires
        0 < d <= 0x7fff_ffff_ffff_ffff_ffff_ffff_ffff_ffff,
        -0x7fff_ffff_ffff_ffff_ffff_ffff_ffff_ffff <= n <= 0x7fff_ffff_ffff_ffff_ffff_ffff_ffff_ffff,
    ensures
        (r.0 as int, r.1 as int) == reduce(n as int, d as int),
        abs(r.0 as int) <= abs(n as int),
        0 < r.1 <= d,
        r.0 * d == n * r.1,
{
    let an: u128 = if n < 0 {
        (0 - n) as u128
    } else {
        n as u128
    };
    let g = gcd(an, d as u128);
    let mut nn: i128 = n;
    let mut dd: i128 = d;
    if g > 1 && an % g == 0 && (d as u128) % g == 0 {
        let an2: u128 = an / g;
        let d2: u128 = (d as u128) / g;
        proof {
            lemma_fundamental_div_mod(an as int, g as int);
            lemma_fundamental_div_mod(d as int, g as int);
            let q = an2 as int;
            let e = d2 as int;
            let gg = g as int;
            assert(an as int == gg * q);
            assert(d as int == gg * e);
            assert(q <= an) by (nonlinear_arith)
                requires
                    an as int == gg * q,
                    gg >= 1,
                    q >= 0,
            ;
            assert(e <= d) by (nonlinear_arith)
                requires
                    d as int == gg * e,
                    gg >= 1,
                    e >= 0,
            ;
            assert(e > 0) by (nonlinear_arith)
                requires
                    d as int == gg * e,
                    d > 0,
                    e >= 0,
            ;
            assert(q * (d as int) == (an as int) * e) by (nonlinear_arith)
                requires
                    an as int == gg * q,
                    d as int == gg * e,
            ;
        }
        nn = if n < 0 {
            0 - (an2 as i128)
        } else {
            an2 as i128
        };
        dd = d2 as i128;
        proof {
            assert(nn * d == n * dd) by (nonlinear_arith)
                requires
                    (nn == an2 && n == an) || (nn == -an2 && n == -an),
                    an2 * d == an * dd,
            ;
        }
    }
    (nn, dd)
}

fn sign_of(n: i128) -> (s: i64)
    ensures
        s as int == sign(n as int),
{
    if n > 0 {
        1
    } else if n < 0 {
        -1
    } else {
        0
    }
}

/// The number of the language for `n / d`, as `settle` states it.
pub fn normalize(n: i128, d: i128) -> (r: Number)
    requires
        0 <= d <= 0x4000_0000_0000_0000_0000_0000_0000_0000,
        -0x7fff_ffff_ffff_ffff_ffff_ffff_ffff_ffff <= n <= 0x7fff_ffff_ffff_ffff_ffff_ffff_ffff_ffff,
    ensures
        r == settle(n as int, d as int),
        r.wf(),
        fits(n as int) && fits(d as int) ==> represents(r, n as int, d as int),
{
    if d == 0 {
        return Number { num: sign_of(n), den: 0 };
    }
    let (a, b) = reduce_exec(n, d);
    if i64::MIN as i128 <= a && a <= i64::MAX as i128 && b <= i64::MAX as i128 {
        return Number { num: a as i64, den: b as i64 };
    }
    let mut p = a;
    let mut q = b;
    while !(i64::MIN as i128 <= p && p <= i64::MAX as i128 && q <= i64::MAX as i128)
        invariant
            0 <= q <= d,
            abs(p as int) <= abs(a as int),
            abs(a as int) <= abs(n as int),
            -0x7fff_ffff_ffff_ffff_ffff_ffff_ffff_ffff <= n <= 0x7fff_ffff_ffff_ffff_ffff_ffff_ffff_ffff,
            shrink(p as int, q as int) == shrink(a as int, b as int),
        decreases abs(p as int) + q,
    {
        p = if p < 0 {
            0 - ((0 - p) / 2)
        } else {
            p / 2
        };
        q = q / 2;
    }
    assert(shrink(p as int, q as int) == (p as int, q as int));
    if q == 0 {
        return Number { num: sign_of(p), den: 0 };
    }
    let (x, y) = reduce_exec(p, q);
    Number { num: x as i64, den: y as i64 }
}

} // verus!
