//! The constant registry and the providers of its values: pi from an outside
//! provider, `e` summed from its factorial series at the working precision.

use crate::number::add_num;
use crate::number::div_num;
use crate::number::mul_num;
use crate::number::num_add;
use crate::number::num_div;
use crate::number::num_mul;
use crate::number::num_of_u64;
use crate::number::num_pi;
use crate::number::of_u64_num;
use crate::number::pi_num;
use crate::number::Number;
use crate::number::PRECISION;
use crate::number::PRECISION_DIGITS;
use vstd::prelude::*;

verus! {

/// The value of pi the registry holds: pi at the working precision.
pub open spec fn spec_pi() -> Seq<char> {
    pi_num(PRECISION as int)
}

/// Pi at the working precision, from the outside provider.
pub fn pi() -> (r: Number)
    ensures
        r@ == spec_pi(),
{
    num_pi(PRECISION)
}

/// The factorial of `i` as the library computes it: an exact 1 for zero,
/// then each next factorial is the previous one times the index, at the
/// working precision.
pub open spec fn spec_factorial(i: nat) -> Seq<char>
    decreases i,
{
    if i == 0 {
        of_u64_num(1)
    } else {
        mul_num(spec_factorial((i - 1) as nat), of_u64_num(i as int))
    }
}

/// The factorials of 0 through `n`, each at the working precision.
fn factorial(n: usize) -> (r: Vec<Number>)
    requires
        n <= 1000,
    ensures
        r@.len() == n + 1,
        forall|i: int| 0 <= i <= n ==> (#[trigger] r@[i])@ == spec_factorial(i as nat),
{
    let mut out: Vec<Number> = Vec::new();
    out.push(num_of_u64(1));
    let mut i: usize = 1;
    while i <= n
        invariant
            1 <= i <= n + 1,
            n <= 1000,
            out@.len() == i,
            forall|k: int| 0 <= k < i ==> (#[trigger] out@[k])@ == spec_factorial(k as nat),
        decreases n + 1 - i,
    {
        let next = num_mul(&out[i - 1], &num_of_u64(i as u64));
        out.push(next);
        i = i + 1;
    }
    out
}

/// The partial sum of the series for `e` after `i` terms: 2, plus
/// `(2k + 2) / (2k + 1)!` for each `k` from 1 through `i`, every operation at
/// the working precision.
pub open spec fn spec_e_terms(i: nat) -> Seq<char>
    decreases i,
{
    if i == 0 {
        of_u64_num(2)
    } else {
        add_num(
            spec_e_terms((i - 1) as nat),
            div_num(of_u64_num((2 * i + 2) as int), spec_factorial((2 * i + 1) as nat)),
        )
    }
}

/// The value of `e` the registry holds: the series summed to as many terms
/// as the evaluator carries decimal digits.
pub open spec fn spec_e() -> Seq<char> {
    spec_e_terms(PRECISION_DIGITS as nat)
}

/// Euler's number, summed from its factorial series at the working
/// precision.
pub fn e() -> (r: Number)
    ensures
        r@ == spec_e(),
{
    let n: usize = PRECISION_DIGITS as usize;
    let factorials = factorial(2 * n + 1);
    let mut acc = num_of_u64(2);
    let mut i: usize = 1;
    while i <= n
        invariant
            1 <= i <= n + 1,
            n == PRECISION_DIGITS,
            factorials@.len() == 2 * n + 2,
            forall|k: int|
                0 <= k <= 2 * n + 1 ==> (#[trigger] factorials@[k])@ == spec_factorial(k as nat),
            acc@ == spec_e_terms((i - 1) as nat),
        decreases n + 1 - i,
    {
        let counter = num_of_u64((2 * i + 2) as u64);
        let term = num_div(&counter, &factorials[2 * i + 1]);
        acc = num_add(&acc, &term);
        i = i + 1;
    }
    acc
}

/// The model of the constant registry: the values bound to `pi` and `e`.
pub struct ConstantsV {
    pub pi: Seq<char>,
    pub e: Seq<char>,
}

/// The read-only constant registry: precomputed values for `pi` (and its
/// Greek alias) and `e`.
pub struct Constants {
    pi: Number,
    e: Number,
}

impl View for Constants {
    type V = ConstantsV;

    closed spec fn view(&self) -> ConstantsV {
        ConstantsV { pi: self.pi@, e: self.e@ }
    }
}

/// What a name resolves to in a registry holding these values: `pi` under
/// its Latin and Greek spellings, `e` under its own; nothing else is bound.
pub open spec fn spec_lookup_constant(c: ConstantsV, name: Seq<char>) -> Option<Seq<char>> {
    if name == "pi"@ || name == "\u{3c0}"@ {
        Some(c.pi)
    } else if name == "e"@ {
        Some(c.e)
    } else {
        None
    }
}

/// Whether a string equals a literal, decided by comparing the owned copies.
pub(crate) fn string_eq(a: &String, b: &str) -> (r: bool)
    ensures
        r == (a@ == b@),
{
    let owned = b.to_owned();
    *a == owned
}

impl Constants {
    /// A registry holding the given values.
    pub fn new(pi_value: Number, e_value: Number) -> (r: Constants)
        ensures
            r@.pi == pi_value@,
            r@.e == e_value@,
    {
        Constants { pi: pi_value, e: e_value }
    }

    /// The standard registry: pi from the provider, `e` from its series.
    pub fn standard() -> (r: Constants)
        ensures
            r@.pi == spec_pi(),
            r@.e == spec_e(),
    {
        Constants::new(pi(), e())
    }

    /// The registered value of pi.
    pub fn pi_value(&self) -> (r: &Number)
        ensures
            r@ == self@.pi,
    {
        &self.pi
    }

    /// The registered value of `e`.
    pub fn e_value(&self) -> (r: &Number)
        ensures
            r@ == self@.e,
    {
        &self.e
    }

    /// Resolve a name against the registry.
    pub fn lookup(&self, name: &String) -> (r: Option<Number>)
        ensures
            match r {
                Some(v) => spec_lookup_constant(self@, name@) == Some(v@),
                None => spec_lookup_constant(self@, name@) is None,
            },
    {
        if string_eq(name, "pi") || string_eq(name, "\u{3c0}") {
            Some(self.pi.clone())
        } else if string_eq(name, "e") {
            Some(self.e.clone())
        } else {
            None
        }
    }
}

} // verus!
