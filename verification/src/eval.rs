//! The postfix evaluator: a postfix token sequence executed against an
//! operand stack, and the whole pipeline from text to value.
//!
//! `spec_eval` is the mathematical model.  The one impurity is the `rand`
//! built-in, so the model takes an oracle: the sequence of values the random
//! draws return, consumed in order.  The executable evaluator is proved to
//! return, for the oracle made of the draws it actually saw, exactly what the
//! model says; on inputs without `rand` the model ignores the oracle, so the
//! result is pinned down (see [`crate::laws`]).

use crate::constants::spec_lookup_constant;
use crate::constants::Constants;
use crate::error::CalculatorError;
use crate::error::ErrorV;
use crate::functions::arity;
use crate::functions::lookup_function;
use crate::functions::spec_apply;
use crate::functions::spec_arity;
use crate::functions::spec_lookup_function;
use crate::functions::Builtin;
use crate::number::add_num;
use crate::number::div_num;
use crate::number::is_zero_num;
use crate::number::mul_num;
use crate::number::neg_num;
use crate::number::num_add;
use crate::number::num_div;
use crate::number::num_mul;
use crate::number::num_neg;
use crate::number::num_pow;
use crate::number::num_random;
use crate::number::num_sub;
use crate::number::pow_num;
use crate::number::sub_num;
use crate::number::Number;
use crate::parser::all_postfix;
use crate::parser::infix_to_postfix;
use crate::parser::spec_infix_to_postfix;
use crate::parser::spec_tokenize;
use crate::parser::tokenize;
use crate::token::spec_is_operator;
use crate::token::Token;
use crate::token::TokenV;
use vstd::prelude::*;

verus! {

/// What evaluating a postfix sequence against an operand stack yields, with
/// `rands` the oracle of values the random draws return.  At the end the top
/// of the stack is the result; an empty stack is an error.
pub open spec fn spec_eval(
    input: Seq<TokenV>,
    st: Seq<Seq<char>>,
    c: crate::constants::ConstantsV,
    rands: Seq<Seq<char>>,
) -> Result<Seq<char>, ErrorV>
    decreases input.len(),
{
    if input.len() == 0 {
        if st.len() == 0 {
            Err(ErrorV::ExpectedLiteral)
        } else {
            Ok(st.last())
        }
    } else {
        let t = input[0];
        let rest = input.drop_first();
        if t is Lit {
            spec_eval(rest, st.push(t->Lit_0), c, rands)
        } else if t is Identifier {
            match spec_lookup_constant(c, t->Identifier_0) {
                Some(v) => spec_eval(rest, st.push(v), c, rands),
                None => Err(ErrorV::UnknownIdentifier(t->Identifier_0)),
            }
        } else if spec_is_operator(t) {
            if t is Minus && st.len() == 1 {
                spec_eval(rest, seq![neg_num(st[0])], c, rands)
            } else if st.len() < 2 {
                Err(ErrorV::ExpectedLiteral)
            } else {
                let rhs = st[st.len() - 1];
                let lhs = st[st.len() - 2];
                let st2 = st.take(st.len() - 2);
                if t is Plus {
                    spec_eval(rest, st2.push(add_num(lhs, rhs)), c, rands)
                } else if t is Minus {
                    spec_eval(rest, st2.push(sub_num(lhs, rhs)), c, rands)
                } else if t is Star {
                    spec_eval(rest, st2.push(mul_num(lhs, rhs)), c, rands)
                } else if t is Slash {
                    if is_zero_num(rhs) {
                        Err(ErrorV::DivisionByZero)
                    } else {
                        spec_eval(rest, st2.push(div_num(lhs, rhs)), c, rands)
                    }
                } else {
                    spec_eval(rest, st2.push(pow_num(lhs, rhs)), c, rands)
                }
            }
        } else if t is FnCall {
            match spec_lookup_function(t->FnCall_0) {
                None => Err(ErrorV::UnknownFunction(t->FnCall_0)),
                Some(b) => {
                    let a = spec_arity(b);
                    if st.len() < a {
                        Err(ErrorV::IncorrectArguments(st.len() as int, a))
                    } else if b is Rand {
                        spec_eval(rest, st.push(rands.first()), c, rands.drop_first())
                    } else {
                        // The evaluator drains the oldest-pushed operands and
                        // hands them over newest first.
                        let args = st.take(a).reverse();
                        spec_eval(rest, st.skip(a).push(spec_apply(b, args, c.pi)), c, rands)
                    }
                },
            }
        } else {
            // Parentheses and commas never reach the evaluator.
            Err(ErrorV::ExpectedLiteral)
        }
    }
}

/// The sequence never calls the `rand` built-in, so its evaluation ignores
/// the oracle.
pub open spec fn no_rand(ts: Seq<TokenV>) -> bool {
    forall|k: int|
        0 <= k < ts.len() ==> ((#[trigger] ts[k]) is FnCall ==> spec_lookup_function(
            ts[k]->FnCall_0,
        ) != Some(Builtin::Rand))
}

/// Execute a postfix token sequence against an operand stack: for the oracle
/// of the random draws the run actually saw, exactly what `spec_eval` says,
/// errors included; the result, when there is one, is a literal token.
pub fn evaluate_postfix(tokens: Vec<Token>, consts: &Constants) -> (r: Result<
    Token,
    CalculatorError,
>)
    requires
        all_postfix(tokens.deep_view()),
    ensures
        match r {
            Ok(tok) => tok@ is Lit && exists|rands: Seq<Seq<char>>|
                spec_eval(tokens.deep_view(), Seq::empty(), consts@, rands) == Ok::<
                    Seq<char>,
                    ErrorV,
                >(tok@->Lit_0),
            Err(e) => exists|rands: Seq<Seq<char>>|
                spec_eval(tokens.deep_view(), Seq::empty(), consts@, rands) == Err::<
                    Seq<char>,
                    ErrorV,
                >(e@),
        },
{
    let ghost input = tokens.deep_view();
    let mut stack: Vec<Number> = Vec::new();
    let ghost mut oracle: Seq<Seq<char>> = Seq::empty();
    let n = tokens.len();
    let mut i: usize = 0;
    proof {
        assert(input.skip(0) =~= input);
        assert(stack.deep_view() =~= Seq::<Seq<char>>::empty());
        assert forall|fut: Seq<Seq<char>>|
            #[trigger] spec_eval(input.skip(0), stack.deep_view(), consts@, fut) == spec_eval(
                input,
                Seq::empty(),
                consts@,
                oracle + fut,
            ) by {
            assert(oracle + fut =~= fut);
        }
    }
    while i < n
        invariant
            i <= n,
            n == tokens.len(),
            input == tokens.deep_view(),
            all_postfix(input),
            forall|fut: Seq<Seq<char>>|
                #[trigger] spec_eval(input.skip(i as int), stack.deep_view(), consts@, fut)
                    == spec_eval(input, Seq::empty(), consts@, oracle + fut),
        decreases n - i,
    {
        let ghost st0 = stack.deep_view();
        let t = &tokens[i];
        proof {
            assert(input.skip(i as int)[0] == t@);
            assert(input.skip(i as int).drop_first() =~= input.skip(i as int + 1));
            assert(crate::parser::postfix_token(input[i as int]));
        }
        if t.is_lit() {
            let v = t.lit_val();
            stack.push(v);
            proof {
                assert(stack.deep_view() =~= st0.push(t@->Lit_0));
                lemma_eval_step(input, i as int, st0, stack.deep_view(), consts@, oracle);
            }
        } else if t.is_ident() {
            let name = t.identifier();
            match consts.lookup(&name) {
                Some(v) => {
                    let ghost vv = v@;
                    stack.push(v);
                    proof {
                        assert(spec_lookup_constant(consts@, t@->Identifier_0) == Some(vv));
                        assert(stack.deep_view() =~= st0.push(vv));
                        lemma_eval_step(input, i as int, st0, stack.deep_view(), consts@, oracle);
                    }
                },
                None => {
                    proof {
                        lemma_eval_err(
                            input,
                            i as int,
                            st0,
                            consts@,
                            oracle,
                            ErrorV::UnknownIdentifier(t@->Identifier_0),
                        );
                    }
                    return Err(CalculatorError::UnknownIdentifier(name));
                },
            }
        } else if t.is_operator() {
            if matches!(t, Token::Minus) && stack.len() == 1 {
                let v = stack.pop().unwrap();
                let negated = num_neg(&v);
                stack.push(negated);
                proof {
                    assert(st0.len() == 1);
                    assert(stack.deep_view() =~= seq![neg_num(st0[0])]);
                    lemma_eval_step(input, i as int, st0, stack.deep_view(), consts@, oracle);
                }
            } else if stack.len() < 2 {
                proof {
                    lemma_eval_err(
                        input,
                        i as int,
                        st0,
                        consts@,
                        oracle,
                        ErrorV::ExpectedLiteral,
                    );
                }
                return Err(CalculatorError::ExpectedLiteral);
            } else {
                let rhs = stack.pop().unwrap();
                let lhs = stack.pop().unwrap();
                proof {
                    assert(stack.deep_view() =~= st0.take(st0.len() - 2));
                    assert(rhs@ == st0[st0.len() - 1]);
                    assert(lhs@ == st0[st0.len() - 2]);
                }
                let ghost st2 = stack.deep_view();
                if matches!(t, Token::Plus) {
                    let v = num_add(&lhs, &rhs);
                    stack.push(v);
                    proof {
                        assert(stack.deep_view() =~= st2.push(add_num(lhs@, rhs@)));
                        lemma_eval_step(input, i as int, st0, stack.deep_view(), consts@, oracle);
                    }
                } else if matches!(t, Token::Minus) {
                    let v = num_sub(&lhs, &rhs);
                    stack.push(v);
                    proof {
                        assert(stack.deep_view() =~= st2.push(sub_num(lhs@, rhs@)));
                        lemma_eval_step(input, i as int, st0, stack.deep_view(), consts@, oracle);
                    }
                } else if matches!(t, Token::Star) {
                    let v = num_mul(&lhs, &rhs);
                    stack.push(v);
                    proof {
                        assert(stack.deep_view() =~= st2.push(mul_num(lhs@, rhs@)));
                        lemma_eval_step(input, i as int, st0, stack.deep_view(), consts@, oracle);
                    }
                } else if matches!(t, Token::Slash) {
                    if rhs.is_zero() {
                        proof {
                            lemma_eval_err(
                                input,
                                i as int,
                                st0,
                                consts@,
                                oracle,
                                ErrorV::DivisionByZero,
                            );
                        }
                        return Err(CalculatorError::DivisionByZero);
                    }
                    let v = num_div(&lhs, &rhs);
                    stack.push(v);
                    proof {
                        assert(stack.deep_view() =~= st2.push(div_num(lhs@, rhs@)));
                        lemma_eval_step(input, i as int, st0, stack.deep_view(), consts@, oracle);
                    }
                } else {
                    let v = num_pow(&lhs, &rhs);
                    stack.push(v);
                    proof {
                        assert(stack.deep_view() =~= st2.push(pow_num(lhs@, rhs@)));
                        lemma_eval_step(input, i as int, st0, stack.deep_view(), consts@, oracle);
                    }
                }
            }
        } else {
            // A function call: everything else is excluded by the contract.
            let name = t.identifier();
            match lookup_function(&name) {
                None => {
                    proof {
                        lemma_eval_err(
                            input,
                            i as int,
                            st0,
                            consts@,
                            oracle,
                            ErrorV::UnknownFunction(t@->FnCall_0),
                        );
                    }
                    return Err(CalculatorError::UnknownFunction(name));
                },
                Some(b) => {
                    let a = arity(b);
                    if stack.len() < a {
                        let found = stack.len();
                        proof {
                            lemma_eval_err(
                                input,
                                i as int,
                                st0,
                                consts@,
                                oracle,
                                ErrorV::IncorrectArguments(st0.len() as int, spec_arity(b)),
                            );
                        }
                        return Err(CalculatorError::IncorrectArguments(found, a));
                    }
                    if matches!(b, Builtin::Rand) {
                        let v = num_random();
                        let ghost drawn = v@;
                        stack.push(v);
                        proof {
                            assert(stack.deep_view() =~= st0.push(drawn));
                            let old_oracle = oracle;
                            oracle = oracle.push(drawn);
                            assert forall|fut: Seq<Seq<char>>|
                                #[trigger] spec_eval(
                                    input.skip(i as int + 1),
                                    stack.deep_view(),
                                    consts@,
                                    fut,
                                ) == spec_eval(input, Seq::empty(), consts@, oracle + fut) by {
                                let fed = seq![drawn] + fut;
                                assert(spec_eval(
                                    input.skip(i as int),
                                    st0,
                                    consts@,
                                    fed,
                                ) == spec_eval(input, Seq::empty(), consts@, old_oracle + fed));
                                assert(fed.first() == drawn);
                                assert(fed.drop_first() =~= fut);
                                assert(old_oracle + fed =~= oracle + fut);
                            }
                        }
                        i = i + 1;
                        continue ;
                    }
                    // Drain the oldest-pushed operands, hand them over newest
                    // first, and push the one result.
                    let mut args: Vec<Number> = Vec::new();
                    let mut k: usize = 0;
                    while k < a
                        invariant
                            k <= a,
                            a <= stack.len(),
                            a == spec_arity(b),
                            args.deep_view() =~= stack.deep_view().take(a as int).reverse().take(
                                k as int,
                            ),
                        decreases a - k,
                    {
                        let picked = stack[a - 1 - k].clone();
                        let ghost args_pre = args.deep_view();
                        args.push(picked);
                        proof {
                            assert(picked@ == stack.deep_view()[a - 1 - k as int]);
                            assert(args.deep_view() =~= args_pre.push(picked@));
                            assert(stack.deep_view().take(a as int).reverse()[k as int]
                                == stack.deep_view().take(a as int)[a - 1 - k as int]);
                            assert(args.deep_view() =~= stack.deep_view().take(
                                a as int,
                            ).reverse().take(k as int + 1));
                        }
                        k = k + 1;
                    }
                    let mut rest_stack: Vec<Number> = Vec::new();
                    let mut k2: usize = a;
                    while k2 < stack.len()
                        invariant
                            a <= k2 <= stack.len(),
                            rest_stack.deep_view() =~= stack.deep_view().subrange(
                                a as int,
                                k2 as int,
                            ),
                        decreases stack.len() - k2,
                    {
                        let picked = stack[k2].clone();
                        let ghost rest_pre = rest_stack.deep_view();
                        rest_stack.push(picked);
                        proof {
                            assert(picked@ == stack.deep_view()[k2 as int]);
                            assert(rest_stack.deep_view() =~= rest_pre.push(picked@));
                            assert(rest_stack.deep_view() =~= stack.deep_view().subrange(
                                a as int,
                                k2 as int + 1,
                            ));
                        }
                        k2 = k2 + 1;
                    }
                    proof {
                        assert(args.deep_view() =~= st0.take(a as int).reverse());
                        assert(rest_stack.deep_view() =~= st0.skip(a as int));
                    }
                    let result = crate::functions::apply(b, &args, consts);
                    stack = rest_stack;
                    stack.push(result);
                    proof {
                        assert(stack.deep_view() =~= st0.skip(a as int).push(
                            spec_apply(b, st0.take(a as int).reverse(), consts@.pi),
                        ));
                        lemma_eval_step(input, i as int, st0, stack.deep_view(), consts@, oracle);
                    }
                },
            }
        }
        i = i + 1;
    }
    proof {
        assert(input.skip(n as int) =~= Seq::<TokenV>::empty());
    }
    let ghost st_end = stack.deep_view();
    match stack.pop() {
        Some(v) => {
            proof {
                assert(st_end.len() > 0);
                assert(st_end.last() == v@);
                assert(spec_eval(input.skip(n as int), st_end, consts@, Seq::<Seq<char>>::empty())
                    == spec_eval(input, Seq::empty(), consts@, oracle + Seq::<Seq<char>>::empty()));
                assert(spec_eval(input.skip(n as int), st_end, consts@, Seq::<Seq<char>>::empty())
                    == Ok::<Seq<char>, ErrorV>(v@));
            }
            Ok(Token::Lit(v))
        },
        None => {
            proof {
                assert(st_end.len() == 0);
                assert(spec_eval(input.skip(n as int), st_end, consts@, Seq::<Seq<char>>::empty())
                    == spec_eval(input, Seq::empty(), consts@, oracle + Seq::<Seq<char>>::empty()));
                assert(spec_eval(input.skip(n as int), st_end, consts@, Seq::<Seq<char>>::empty())
                    == Err::<Seq<char>, ErrorV>(ErrorV::ExpectedLiteral));
            }
            Err(CalculatorError::ExpectedLiteral)
        },
    }
}

/// When a step of the model errs whatever the oracle, the whole run errs
/// with that error under some oracle.
proof fn lemma_eval_err(
    input: Seq<TokenV>,
    i: int,
    st: Seq<Seq<char>>,
    c: crate::constants::ConstantsV,
    oracle: Seq<Seq<char>>,
    e: ErrorV,
)
    requires
        0 <= i < input.len(),
        forall|fut: Seq<Seq<char>>|
            #[trigger] spec_eval(input.skip(i), st, c, fut) == spec_eval(
                input,
                Seq::empty(),
                c,
                oracle + fut,
            ),
        spec_eval(input.skip(i), st, c, Seq::empty()) == Err::<Seq<char>, ErrorV>(e),
    ensures
        exists|rands: Seq<Seq<char>>| spec_eval(input, Seq::empty(), c, rands) == Err::<
            Seq<char>,
            ErrorV,
        >(e),
{
    let rands = oracle + Seq::<Seq<char>>::empty();
    assert(spec_eval(input.skip(i), st, c, Seq::empty()) == spec_eval(
        input,
        Seq::empty(),
        c,
        rands,
    ));
}

/// One model step that neither errs nor draws: the loop relation carries
/// over unchanged.
proof fn lemma_eval_step(
    input: Seq<TokenV>,
    i: int,
    st0: Seq<Seq<char>>,
    st1: Seq<Seq<char>>,
    c: crate::constants::ConstantsV,
    oracle: Seq<Seq<char>>,
)
    requires
        0 <= i < input.len(),
        forall|fut: Seq<Seq<char>>|
            #[trigger] spec_eval(input.skip(i), st0, c, fut) == spec_eval(
                input,
                Seq::empty(),
                c,
                oracle + fut,
            ),
        forall|fut: Seq<Seq<char>>|
            #[trigger] spec_eval(input.skip(i), st0, c, fut) == spec_eval(
                input.skip(i + 1),
                st1,
                c,
                fut,
            ),
    ensures
        forall|fut: Seq<Seq<char>>|
            #[trigger] spec_eval(input.skip(i + 1), st1, c, fut) == spec_eval(
                input,
                Seq::empty(),
                c,
                oracle + fut,
            ),
{
    assert forall|fut: Seq<Seq<char>>|
        #[trigger] spec_eval(input.skip(i + 1), st1, c, fut) == spec_eval(
            input,
            Seq::empty(),
            c,
            oracle + fut,
        ) by {
        assert(spec_eval(input.skip(i), st0, c, fut) == spec_eval(input.skip(i + 1), st1, c, fut));
        assert(spec_eval(input.skip(i), st0, c, fut) == spec_eval(
            input,
            Seq::empty(),
            c,
            oracle + fut,
        ));
    }
}

/// Run the whole pipeline on one line of text: tokenize, convert to postfix,
/// evaluate against the given constant registry.
pub open spec fn spec_evaluate_expression(
    s: Seq<char>,
    c: crate::constants::ConstantsV,
    rands: Seq<Seq<char>>,
) -> Result<Seq<char>, ErrorV> {
    match spec_tokenize(s) {
        Err(e) => Err(e),
        Ok(ts) => match spec_infix_to_postfix(ts) {
            Err(e) => Err(e),
            Ok(ps) => spec_eval(ps, Seq::empty(), c, rands),
        },
    }
}

/// Evaluate one line of infix text against the given constant registry: for
/// the oracle of the random draws the run actually saw, exactly what
/// `spec_evaluate_expression` says, errors included.
pub fn evaluate_expression(text: &str, consts: &Constants) -> (r: Result<Token, CalculatorError>)
    ensures
        match r {
            Ok(tok) => tok@ is Lit && exists|rands: Seq<Seq<char>>|
                spec_evaluate_expression(text@, consts@, rands) == Ok::<Seq<char>, ErrorV>(
                    tok@->Lit_0,
                ),
            Err(e) => exists|rands: Seq<Seq<char>>|
                spec_evaluate_expression(text@, consts@, rands) == Err::<Seq<char>, ErrorV>(e@),
        },
{
    let tokens = match tokenize(text) {
        Ok(ts) => ts,
        Err(e) => {
            proof {
                let rands = Seq::<Seq<char>>::empty();
                assert(spec_evaluate_expression(text@, consts@, rands) == Err::<
                    Seq<char>,
                    ErrorV,
                >(e@));
            }
            return Err(e);
        },
    };
    let postfix = match infix_to_postfix(tokens) {
        Ok(ps) => ps,
        Err(e) => {
            proof {
                let rands = Seq::<Seq<char>>::empty();
                assert(spec_evaluate_expression(text@, consts@, rands) == Err::<
                    Seq<char>,
                    ErrorV,
                >(e@));
            }
            return Err(e);
        },
    };
    let r = evaluate_postfix(postfix, consts);
    proof {
        match &r {
            Ok(tok) => {
                let rands = choose|rands: Seq<Seq<char>>|
                    spec_eval(postfix.deep_view(), Seq::empty(), consts@, rands) == Ok::<
                        Seq<char>,
                        ErrorV,
                    >(tok@->Lit_0);
                assert(spec_evaluate_expression(text@, consts@, rands) == Ok::<Seq<char>, ErrorV>(
                    tok@->Lit_0,
                ));
            },
            Err(e) => {
                let rands = choose|rands: Seq<Seq<char>>|
                    spec_eval(postfix.deep_view(), Seq::empty(), consts@, rands) == Err::<
                        Seq<char>,
                        ErrorV,
                    >(e@);
                assert(spec_evaluate_expression(text@, consts@, rands) == Err::<Seq<char>, ErrorV>(
                    e@,
                ));
            },
        }
    }
    r
}

} // verus!
