//! Arbitrary-precision decimal values.
//!
//! A [`Number`] is a value computed at a fixed working precision.  It is held
//! as the decimal rendering of the underlying binary float, about a hundred
//! digits; the view of a `Number` is that rendering as a sequence of
//! characters.  Each operation reads its operands' renderings back at the
//! working precision, computes, and renders the result: the re-reading is one
//! more rounding step per operation, below the displayed digits.  Every
//! `Number` is built by one of the trusted wrappers in this module, so every
//! `repr` field is a string the underlying library itself wrote (or, at the
//! root, a numeral it accepts), and re-reading it cannot fail.
//!
//! What an operation returns is named by an uninterpreted spec function
//! (`add_num`, `sqrt_num`, ...): the result of the corresponding operation at
//! the working precision, a function of the operand renderings alone.

use astro_float::BigFloat;
use astro_float::Consts;
use astro_float::Radix;
use astro_float::RoundingMode;
use vstd::prelude::*;

verus! {

/// Number of significant decimal digits the evaluator works with.
pub const PRECISION_DIGITS: u32 = 100;

/// Working precision in bits: enough binary digits for `PRECISION_DIGITS`
/// decimal digits, with headroom.
pub const PRECISION: usize = 342;

/// `c` is one of the decimal digits `'0'` through `'9'`.
pub open spec fn spec_digit(c: char) -> bool {
    48 <= c as u32 && c as u32 <= 57
}

/// The continuation of a numeral: digits and at most one decimal point in
/// all, `seen_dot` telling whether the point was already passed.
pub open spec fn numeral_rest(s: Seq<char>, seen_dot: bool) -> bool
    decreases s.len(),
{
    s.len() == 0 || ((spec_digit(s[0]) || (s[0] == '.' && !seen_dot)) && numeral_rest(
        s.drop_first(),
        seen_dot || s[0] == '.',
    ))
}

/// A literal as the tokenizer collects it: a leading digit, then digits and
/// at most one decimal point.
pub open spec fn is_numeral(s: Seq<char>) -> bool {
    s.len() > 0 && spec_digit(s[0]) && numeral_rest(s.drop_first(), false)
}

/// The value a numeral denotes, read at the working precision and rendered.
pub uninterp spec fn parse_num(s: Seq<char>) -> Seq<char>;

/// The sum of two values at the working precision.
pub uninterp spec fn add_num(a: Seq<char>, b: Seq<char>) -> Seq<char>;

/// The difference of two values at the working precision.
pub uninterp spec fn sub_num(a: Seq<char>, b: Seq<char>) -> Seq<char>;

/// The product of two values at the working precision.
pub uninterp spec fn mul_num(a: Seq<char>, b: Seq<char>) -> Seq<char>;

/// The quotient of two values at the working precision.
pub uninterp spec fn div_num(a: Seq<char>, b: Seq<char>) -> Seq<char>;

/// The first value raised to the second at the working precision.
pub uninterp spec fn pow_num(a: Seq<char>, b: Seq<char>) -> Seq<char>;

/// The negation of a value.
pub uninterp spec fn neg_num(a: Seq<char>) -> Seq<char>;

/// Whether a value is exactly zero.
pub uninterp spec fn is_zero_num(a: Seq<char>) -> bool;

/// The smaller of two values.
pub uninterp spec fn min_num(a: Seq<char>, b: Seq<char>) -> Seq<char>;

/// The larger of two values.
pub uninterp spec fn max_num(a: Seq<char>, b: Seq<char>) -> Seq<char>;

/// The sine of a value at the working precision.
pub uninterp spec fn sin_num(a: Seq<char>) -> Seq<char>;

/// The hyperbolic sine of a value at the working precision.
pub uninterp spec fn sinh_num(a: Seq<char>) -> Seq<char>;

/// The cosine of a value at the working precision.
pub uninterp spec fn cos_num(a: Seq<char>) -> Seq<char>;

/// The hyperbolic cosine of a value at the working precision.
pub uninterp spec fn cosh_num(a: Seq<char>) -> Seq<char>;

/// The tangent of a value at the working precision.
pub uninterp spec fn tan_num(a: Seq<char>) -> Seq<char>;

/// The hyperbolic tangent of a value at the working precision.
pub uninterp spec fn tanh_num(a: Seq<char>) -> Seq<char>;

/// The square root of a value at the working precision.
pub uninterp spec fn sqrt_num(a: Seq<char>) -> Seq<char>;

/// The value of an unsigned integer at the working precision.
pub uninterp spec fn of_u64_num(v: int) -> Seq<char>;

/// Pi at the given precision in bits.
pub uninterp spec fn pi_num(prec: int) -> Seq<char>;

/// An arbitrary-precision decimal value.
pub struct Number {
    repr: String,
}

impl View for Number {
    type V = Seq<char>;

    closed spec fn view(&self) -> Seq<char> {
        self.repr@
    }
}

impl DeepView for Number {
    type V = Seq<char>;

    open spec fn deep_view(&self) -> Seq<char> {
        self.view()
    }
}

impl Clone for Number {
    fn clone(&self) -> (r: Self)
        ensures
            r == *self,
    {
        Number { repr: self.repr.clone() }
    }
}

/// Relies on `str::chars`: the characters of the string, in order.
#[verifier::external_body]
pub(crate) fn chars_of(s: &str) -> (r: Vec<char>)
    ensures
        r@ == s@,
{
    s.chars().collect()
}

/// Relies on `astro_float::BigFloat::parse` (which accepts a numeral of
/// digits with at most one decimal point) and `BigFloat::format`: the value
/// of the numeral at the working precision, rendered.
#[verifier::external_body]
pub(crate) fn num_from_numeral(s: &Vec<char>) -> (r: Number)
    requires
        is_numeral(s@),
    ensures
        r@ == parse_num(s@),
{
    let text: String = s.iter().collect();
    let mut cc = Consts::new().unwrap();
    let f = BigFloat::parse(&text, Radix::Dec, PRECISION, RoundingMode::ToEven, &mut cc);
    Number { repr: f.format(Radix::Dec, RoundingMode::ToEven, &mut cc).unwrap() }
}

/// Relies on `astro_float::BigFloat::add` at the working precision.
#[verifier::external_body]
pub(crate) fn num_add(a: &Number, b: &Number) -> (r: Number)
    ensures
        r@ == add_num(a@, b@),
{
    let mut cc = Consts::new().unwrap();
    let x = BigFloat::parse(&a.repr, Radix::Dec, PRECISION, RoundingMode::ToEven, &mut cc);
    let y = BigFloat::parse(&b.repr, Radix::Dec, PRECISION, RoundingMode::ToEven, &mut cc);
    let f = x.add(&y, PRECISION, RoundingMode::ToEven);
    Number { repr: f.format(Radix::Dec, RoundingMode::ToEven, &mut cc).unwrap() }
}

/// Relies on `astro_float::BigFloat::sub` at the working precision.
#[verifier::external_body]
pub(crate) fn num_sub(a: &Number, b: &Number) -> (r: Number)
    ensures
        r@ == sub_num(a@, b@),
{
    let mut cc = Consts::new().unwrap();
    let x = BigFloat::parse(&a.repr, Radix::Dec, PRECISION, RoundingMode::ToEven, &mut cc);
    let y = BigFloat::parse(&b.repr, Radix::Dec, PRECISION, RoundingMode::ToEven, &mut cc);
    let f = x.sub(&y, PRECISION, RoundingMode::ToEven);
    Number { repr: f.format(Radix::Dec, RoundingMode::ToEven, &mut cc).unwrap() }
}

/// Relies on `astro_float::BigFloat::mul` at the working precision.
#[verifier::external_body]
pub(crate) fn num_mul(a: &Number, b: &Number) -> (r: Number)
    ensures
        r@ == mul_num(a@, b@),
{
    let mut cc = Consts::new().unwrap();
    let x = BigFloat::parse(&a.repr, Radix::Dec, PRECISION, RoundingMode::ToEven, &mut cc);
    let y = BigFloat::parse(&b.repr, Radix::Dec, PRECISION, RoundingMode::ToEven, &mut cc);
    let f = x.mul(&y, PRECISION, RoundingMode::ToEven);
    Number { repr: f.format(Radix::Dec, RoundingMode::ToEven, &mut cc).unwrap() }
}

/// Relies on `astro_float::BigFloat::div` at the working precision; division by
/// zero yields an infinity, never a failure.
#[verifier::external_body]
pub(crate) fn num_div(a: &Number, b: &Number) -> (r: Number)
    ensures
        r@ == div_num(a@, b@),
{
    let mut cc = Consts::new().unwrap();
    let x = BigFloat::parse(&a.repr, Radix::Dec, PRECISION, RoundingMode::ToEven, &mut cc);
    let y = BigFloat::parse(&b.repr, Radix::Dec, PRECISION, RoundingMode::ToEven, &mut cc);
    let f = x.div(&y, PRECISION, RoundingMode::ToEven);
    Number { repr: f.format(Radix::Dec, RoundingMode::ToEven, &mut cc).unwrap() }
}

/// Relies on `astro_float::BigFloat::pow` at the working precision.
#[verifier::external_body]
pub(crate) fn num_pow(a: &Number, b: &Number) -> (r: Number)
    ensures
        r@ == pow_num(a@, b@),
{
    let mut cc = Consts::new().unwrap();
    let x = BigFloat::parse(&a.repr, Radix::Dec, PRECISION, RoundingMode::ToEven, &mut cc);
    let y = BigFloat::parse(&b.repr, Radix::Dec, PRECISION, RoundingMode::ToEven, &mut cc);
    let f = x.pow(&y, PRECISION, RoundingMode::ToEven, &mut cc);
    Number { repr: f.format(Radix::Dec, RoundingMode::ToEven, &mut cc).unwrap() }
}

/// Relies on `astro_float::BigFloat::neg`.
#[verifier::external_body]
pub(crate) fn num_neg(a: &Number) -> (r: Number)
    ensures
        r@ == neg_num(a@),
{
    let mut cc = Consts::new().unwrap();
    let x = BigFloat::parse(&a.repr, Radix::Dec, PRECISION, RoundingMode::ToEven, &mut cc);
    let f = x.neg();
    Number { repr: f.format(Radix::Dec, RoundingMode::ToEven, &mut cc).unwrap() }
}

/// Relies on `astro_float::BigFloat::is_zero`.
#[verifier::external_body]
pub(crate) fn num_is_zero(a: &Number) -> (r: bool)
    ensures
        r == is_zero_num(a@),
{
    let mut cc = Consts::new().unwrap();
    let x = BigFloat::parse(&a.repr, Radix::Dec, PRECISION, RoundingMode::ToEven, &mut cc);
    x.is_zero()
}

/// Relies on `astro_float::BigFloat::min`: the smaller of the two values,
/// re-rendered.
#[verifier::external_body]
pub(crate) fn num_min(a: &Number, b: &Number) -> (r: Number)
    ensures
        r@ == min_num(a@, b@),
{
    let mut cc = Consts::new().unwrap();
    let x = BigFloat::parse(&a.repr, Radix::Dec, PRECISION, RoundingMode::ToEven, &mut cc);
    let y = BigFloat::parse(&b.repr, Radix::Dec, PRECISION, RoundingMode::ToEven, &mut cc);
    let f = x.min(&y);
    Number { repr: f.format(Radix::Dec, RoundingMode::ToEven, &mut cc).unwrap() }
}

/// Relies on `astro_float::BigFloat::max`: the larger of the two values,
/// re-rendered.
#[verifier::external_body]
pub(crate) fn num_max(a: &Number, b: &Number) -> (r: Number)
    ensures
        r@ == max_num(a@, b@),
{
    let mut cc = Consts::new().unwrap();
    let x = BigFloat::parse(&a.repr, Radix::Dec, PRECISION, RoundingMode::ToEven, &mut cc);
    let y = BigFloat::parse(&b.repr, Radix::Dec, PRECISION, RoundingMode::ToEven, &mut cc);
    let f = x.max(&y);
    Number { repr: f.format(Radix::Dec, RoundingMode::ToEven, &mut cc).unwrap() }
}

/// Relies on `astro_float::BigFloat::sin` at the working precision.
#[verifier::external_body]
pub(crate) fn num_sin(a: &Number) -> (r: Number)
    ensures
        r@ == sin_num(a@),
{
    let mut cc = Consts::new().unwrap();
    let x = BigFloat::parse(&a.repr, Radix::Dec, PRECISION, RoundingMode::ToEven, &mut cc);
    let f = x.sin(PRECISION, RoundingMode::ToEven, &mut cc);
    Number { repr: f.format(Radix::Dec, RoundingMode::ToEven, &mut cc).unwrap() }
}

/// Relies on `astro_float::BigFloat::sinh` at the working precision.
#[verifier::external_body]
pub(crate) fn num_sinh(a: &Number) -> (r: Number)
    ensures
        r@ == sinh_num(a@),
{
    let mut cc = Consts::new().unwrap();
    let x = BigFloat::parse(&a.repr, Radix::Dec, PRECISION, RoundingMode::ToEven, &mut cc);
    let f = x.sinh(PRECISION, RoundingMode::ToEven, &mut cc);
    Number { repr: f.format(Radix::Dec, RoundingMode::ToEven, &mut cc).unwrap() }
}

/// Relies on `astro_float::BigFloat::cos` at the working precision.
#[verifier::external_body]
pub(crate) fn num_cos(a: &Number) -> (r: Number)
    ensures
        r@ == cos_num(a@),
{
    let mut cc = Consts::new().unwrap();
    let x = BigFloat::parse(&a.repr, Radix::Dec, PRECISION, RoundingMode::ToEven, &mut cc);
    let f = x.cos(PRECISION, RoundingMode::ToEven, &mut cc);
    Number { repr: f.format(Radix::Dec, RoundingMode::ToEven, &mut cc).unwrap() }
}

/// Relies on `astro_float::BigFloat::cosh` at the working precision.
#[verifier::external_body]
pub(crate) fn num_cosh(a: &Number) -> (r: Number)
    ensures
        r@ == cosh_num(a@),
{
    let mut cc = Consts::new().unwrap();
    let x = BigFloat::parse(&a.repr, Radix::Dec, PRECISION, RoundingMode::ToEven, &mut cc);
    let f = x.cosh(PRECISION, RoundingMode::ToEven, &mut cc);
    Number { repr: f.format(Radix::Dec, RoundingMode::ToEven, &mut cc).unwrap() }
}

/// Relies on `astro_float::BigFloat::tan` at the working precision.
#[verifier::external_body]
pub(crate) fn num_tan(a: &Number) -> (r: Number)
    ensures
        r@ == tan_num(a@),
{
    let mut cc = Consts::new().unwrap();
    let x = BigFloat::parse(&a.repr, Radix::Dec, PRECISION, RoundingMode::ToEven, &mut cc);
    let f = x.tan(PRECISION, RoundingMode::ToEven, &mut cc);
    Number { repr: f.format(Radix::Dec, RoundingMode::ToEven, &mut cc).unwrap() }
}

/// Relies on `astro_float::BigFloat::tanh` at the working precision.
#[verifier::external_body]
pub(crate) fn num_tanh(a: &Number) -> (r: Number)
    ensures
        r@ == tanh_num(a@),
{
    let mut cc = Consts::new().unwrap();
    let x = BigFloat::parse(&a.repr, Radix::Dec, PRECISION, RoundingMode::ToEven, &mut cc);
    let f = x.tanh(PRECISION, RoundingMode::ToEven, &mut cc);
    Number { repr: f.format(Radix::Dec, RoundingMode::ToEven, &mut cc).unwrap() }
}

/// Relies on `astro_float::BigFloat::sqrt` at the working precision.
#[verifier::external_body]
pub(crate) fn num_sqrt(a: &Number) -> (r: Number)
    ensures
        r@ == sqrt_num(a@),
{
    let mut cc = Consts::new().unwrap();
    let x = BigFloat::parse(&a.repr, Radix::Dec, PRECISION, RoundingMode::ToEven, &mut cc);
    let f = x.sqrt(PRECISION, RoundingMode::ToEven);
    Number { repr: f.format(Radix::Dec, RoundingMode::ToEven, &mut cc).unwrap() }
}

/// Relies on `astro_float::BigFloat::from_word`: the exact value of the
/// integer (it fits in far fewer bits than the working precision).
#[verifier::external_body]
pub(crate) fn num_of_u64(v: u64) -> (r: Number)
    ensures
        r@ == of_u64_num(v as int),
{
    let mut cc = Consts::new().unwrap();
    let f = BigFloat::from_word(v, PRECISION);
    Number { repr: f.format(Radix::Dec, RoundingMode::ToEven, &mut cc).unwrap() }
}

/// Relies on `astro_float::Consts::pi`: pi at the given precision, a
/// function of the precision alone.
#[verifier::external_body]
pub(crate) fn num_pi(prec: usize) -> (r: Number)
    ensures
        r@ == pi_num(prec as int),
{
    let mut cc = Consts::new().unwrap();
    let f = cc.pi(prec, RoundingMode::ToEven);
    Number { repr: f.format(Radix::Dec, RoundingMode::ToEven, &mut cc).unwrap() }
}

/// Relies on `rand::random` for fresh draws and on
/// `astro_float::BigFloat::parse`: a value in the unit interval; nothing is
/// assumed of which one.
#[verifier::external_body]
pub(crate) fn num_random() -> Number {
    let hi: u64 = rand::random();
    let lo: u64 = rand::random();
    let text = format!("0.{:020}{:020}", hi, lo);
    let mut cc = Consts::new().unwrap();
    let f = BigFloat::parse(&text, Radix::Dec, PRECISION, RoundingMode::ToEven, &mut cc);
    Number { repr: f.format(Radix::Dec, RoundingMode::ToEven, &mut cc).unwrap() }
}

impl Number {
    /// The decimal rendering this value is held as.
    pub fn repr(&self) -> (r: &str)
        ensures
            r@ == self@,
    {
        self.repr.as_str()
    }

    /// Read a numeral (a leading digit, then digits and at most one decimal
    /// point) at the working precision; any other string is rejected.
    pub fn from_numeral(s: &str) -> (r: Option<Number>)
        ensures
            match r {
                Some(n) => is_numeral(s@) && n@ == parse_num(s@),
                None => !is_numeral(s@),
            },
    {
        let chars = chars_of(s);
        if chars.len() == 0 {
            return None;
        }
        let c0 = chars[0] as u32;
        if !(48 <= c0 && c0 <= 57) {
            return None;
        }
        let mut j: usize = 1;
        let mut seen_dot: bool = false;
        loop
            invariant
                1 <= j <= chars.len(),
                chars@ == s@,
                is_numeral(s@) <==> numeral_rest(s@.skip(j as int), seen_dot),
            decreases chars.len() - j,
        {
            if j == chars.len() {
                proof {
                    assert(s@.skip(j as int) =~= Seq::<char>::empty());
                }
                return Some(num_from_numeral(&chars));
            }
            let c = chars[j] as u32;
            let is_dot = chars[j] == '.';
            proof {
                assert(s@.skip(j as int).drop_first() =~= s@.skip(j as int + 1));
            }
            if 48 <= c && c <= 57 {
                j = j + 1;
            } else if is_dot && !seen_dot {
                seen_dot = true;
                j = j + 1;
            } else {
                return None;
            }
        }
    }

    /// The sum of this value and another, at the working precision.
    pub fn plus(&self, other: &Number) -> (r: Number)
        ensures
            r@ == add_num(self@, other@),
    {
        num_add(self, other)
    }

    /// The difference of this value and another, at the working precision.
    pub fn minus(&self, other: &Number) -> (r: Number)
        ensures
            r@ == sub_num(self@, other@),
    {
        num_sub(self, other)
    }

    /// The product of this value and another, at the working precision.
    pub fn times(&self, other: &Number) -> (r: Number)
        ensures
            r@ == mul_num(self@, other@),
    {
        num_mul(self, other)
    }

    /// The quotient of this value and another, at the working precision.
    pub fn divided_by(&self, other: &Number) -> (r: Number)
        ensures
            r@ == div_num(self@, other@),
    {
        num_div(self, other)
    }

    /// This value negated.
    pub fn negated(&self) -> (r: Number)
        ensures
            r@ == neg_num(self@),
    {
        num_neg(self)
    }

    /// This value raised to another, at the working precision.
    pub fn to_power(&self, other: &Number) -> (r: Number)
        ensures
            r@ == pow_num(self@, other@),
    {
        num_pow(self, other)
    }

    /// Whether this value is exactly zero.
    pub fn is_zero(&self) -> (r: bool)
        ensures
            r == is_zero_num(self@),
    {
        num_is_zero(self)
    }
}

} // verus!
