//! The function registry: the built-in computations the evaluator can call,
//! each with its fixed arity.

use crate::constants::string_eq;
use crate::constants::Constants;
use crate::number::cos_num;
use crate::number::cosh_num;
use crate::number::div_num;
use crate::number::max_num;
use crate::number::min_num;
use crate::number::mul_num;
use crate::number::num_cos;
use crate::number::num_cosh;
use crate::number::num_div;
use crate::number::num_max;
use crate::number::num_min;
use crate::number::num_mul;
use crate::number::num_of_u64;
use crate::number::num_sin;
use crate::number::num_sinh;
use crate::number::num_sqrt;
use crate::number::num_tan;
use crate::number::num_tanh;
use crate::number::of_u64_num;
use crate::number::sin_num;
use crate::number::sinh_num;
use crate::number::sqrt_num;
use crate::number::tan_num;
use crate::number::tanh_num;
use crate::number::Number;
use vstd::prelude::*;

verus! {

/// A built-in function of the evaluator.
#[derive(Clone, Copy)]
pub enum Builtin {
    Sin,
    Sinh,
    Cos,
    Cosh,
    Tan,
    Tanh,
    Min,
    Max,
    Rand,
    Rad,
    Deg,
    Sqrt,
}

/// The registry: which built-in a name is bound to, if any.
pub open spec fn spec_lookup_function(name: Seq<char>) -> Option<Builtin> {
    if name == "sin"@ {
        Some(Builtin::Sin)
    } else if name == "sinh"@ {
        Some(Builtin::Sinh)
    } else if name == "cos"@ {
        Some(Builtin::Cos)
    } else if name == "cosh"@ {
        Some(Builtin::Cosh)
    } else if name == "tan"@ {
        Some(Builtin::Tan)
    } else if name == "tanh"@ {
        Some(Builtin::Tanh)
    } else if name == "min"@ {
        Some(Builtin::Min)
    } else if name == "max"@ {
        Some(Builtin::Max)
    } else if name == "rand"@ {
        Some(Builtin::Rand)
    } else if name == "rad"@ {
        Some(Builtin::Rad)
    } else if name == "deg"@ {
        Some(Builtin::Deg)
    } else if name == "sqrt"@ {
        Some(Builtin::Sqrt)
    } else {
        None
    }
}

/// The declared arity of a built-in; it is enforced exactly.
pub open spec fn spec_arity(b: Builtin) -> int {
    match b {
        Builtin::Min => 2,
        Builtin::Max => 2,
        Builtin::Rand => 0,
        _ => 1,
    }
}

/// Resolve a called name against the registry.
pub fn lookup_function(name: &String) -> (r: Option<Builtin>)
    ensures
        match r {
            Some(b) => spec_lookup_function(name@) == Some(b),
            None => spec_lookup_function(name@) is None,
        },
{
    if string_eq(name, "sin") {
        Some(Builtin::Sin)
    } else if string_eq(name, "sinh") {
        Some(Builtin::Sinh)
    } else if string_eq(name, "cos") {
        Some(Builtin::Cos)
    } else if string_eq(name, "cosh") {
        Some(Builtin::Cosh)
    } else if string_eq(name, "tan") {
        Some(Builtin::Tan)
    } else if string_eq(name, "tanh") {
        Some(Builtin::Tanh)
    } else if string_eq(name, "min") {
        Some(Builtin::Min)
    } else if string_eq(name, "max") {
        Some(Builtin::Max)
    } else if string_eq(name, "rand") {
        Some(Builtin::Rand)
    } else if string_eq(name, "rad") {
        Some(Builtin::Rad)
    } else if string_eq(name, "deg") {
        Some(Builtin::Deg)
    } else if string_eq(name, "sqrt") {
        Some(Builtin::Sqrt)
    } else {
        None
    }
}

/// The declared arity of a built-in.
pub fn arity(b: Builtin) -> (r: usize)
    ensures
        r == spec_arity(b),
{
    match b {
        Builtin::Min => 2,
        Builtin::Max => 2,
        Builtin::Rand => 0,
        _ => 1,
    }
}

/// What a built-in other than `rand` computes from its argument list, with
/// the registered value of pi at hand for the angle conversions: radians are
/// the argument times pi over 180, degrees the argument divided by pi over
/// 180.
pub open spec fn spec_apply(b: Builtin, args: Seq<Seq<char>>, cpi: Seq<char>) -> Seq<char>
    recommends
        args.len() == spec_arity(b),
        !(b is Rand),
{
    match b {
        Builtin::Sin => sin_num(args[0]),
        Builtin::Sinh => sinh_num(args[0]),
        Builtin::Cos => cos_num(args[0]),
        Builtin::Cosh => cosh_num(args[0]),
        Builtin::Tan => tan_num(args[0]),
        Builtin::Tanh => tanh_num(args[0]),
        Builtin::Min => min_num(args[0], args[1]),
        Builtin::Max => max_num(args[0], args[1]),
        Builtin::Rand => Seq::empty(),
        Builtin::Rad => div_num(mul_num(args[0], cpi), of_u64_num(180)),
        Builtin::Deg => div_num(args[0], div_num(cpi, of_u64_num(180))),
        Builtin::Sqrt => sqrt_num(args[0]),
    }
}

/// Invoke a built-in other than `rand` on its arguments.
pub fn apply(b: Builtin, args: &Vec<Number>, consts: &Constants) -> (r: Number)
    requires
        args.deep_view().len() == spec_arity(b),
        !(b is Rand),
    ensures
        r@ == spec_apply(b, args.deep_view(), consts@.pi),
{
    match b {
        Builtin::Sin => num_sin(&args[0]),
        Builtin::Sinh => num_sinh(&args[0]),
        Builtin::Cos => num_cos(&args[0]),
        Builtin::Cosh => num_cosh(&args[0]),
        Builtin::Tan => num_tan(&args[0]),
        Builtin::Tanh => num_tanh(&args[0]),
        Builtin::Min => num_min(&args[0], &args[1]),
        Builtin::Max => num_max(&args[0], &args[1]),
        Builtin::Rand => vstd::pervasive::unreached(),
        Builtin::Rad => num_div(&num_mul(&args[0], consts.pi_value()), &num_of_u64(180)),
        Builtin::Deg => num_div(&args[0], &num_div(consts.pi_value(), &num_of_u64(180))),
        Builtin::Sqrt => num_sqrt(&args[0]),
    }
}

} // verus!
