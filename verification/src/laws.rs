//! Laws of the pipeline, each proved from the models the executable
//! functions are specified against.

use crate::constants::ConstantsV;
use crate::error::ErrorV;
use crate::eval::no_rand;
use crate::eval::spec_eval;
use crate::functions::spec_lookup_function;
use crate::functions::Builtin;
use crate::number::add_num;
use crate::number::mul_num;
use crate::number::pow_num;
use crate::parser::spec_infix_to_postfix;
use crate::token::TokenV;
use vstd::prelude::*;

verus! {

/// Evaluation is deterministic but for the random draws: a postfix sequence
/// that never calls the `rand` built-in evaluates to the same outcome under
/// every oracle, so evaluating the same literal-only expression twice yields
/// identical results.
pub proof fn lemma_eval_deterministic(
    input: Seq<TokenV>,
    st: Seq<Seq<char>>,
    c: ConstantsV,
    r1: Seq<Seq<char>>,
    r2: Seq<Seq<char>>,
)
    requires
        no_rand(input),
    ensures
        spec_eval(input, st, c, r1) == spec_eval(input, st, c, r2),
    decreases input.len(),
{
    if input.len() == 0 {
    } else {
        let t = input[0];
        let rest = input.drop_first();
        assert(no_rand(rest)) by {
            assert forall|k: int|
                0 <= k < rest.len() && (#[trigger] rest[k]) is FnCall implies
                spec_lookup_function(rest[k]->FnCall_0) != Some(Builtin::Rand) by {
                assert(rest[k] == input[k + 1]);
            }
        }
        if t is Lit {
            lemma_eval_deterministic(rest, st.push(t->Lit_0), c, r1, r2);
        } else if t is Identifier {
            match crate::constants::spec_lookup_constant(c, t->Identifier_0) {
                Some(v) => {
                    lemma_eval_deterministic(rest, st.push(v), c, r1, r2);
                },
                None => {},
            }
        } else if crate::token::spec_is_operator(t) {
            if t is Minus && st.len() == 1 {
                lemma_eval_deterministic(rest, seq![crate::number::neg_num(st[0])], c, r1, r2);
            } else if st.len() < 2 {
            } else {
                let rhs = st[st.len() - 1];
                let lhs = st[st.len() - 2];
                let st2 = st.take(st.len() - 2);
                if t is Plus {
                    lemma_eval_deterministic(rest, st2.push(add_num(lhs, rhs)), c, r1, r2);
                } else if t is Minus {
                    lemma_eval_deterministic(
                        rest,
                        st2.push(crate::number::sub_num(lhs, rhs)),
                        c,
                        r1,
                        r2,
                    );
                } else if t is Star {
                    lemma_eval_deterministic(rest, st2.push(mul_num(lhs, rhs)), c, r1, r2);
                } else if t is Slash {
                    if !crate::number::is_zero_num(rhs) {
                        lemma_eval_deterministic(
                            rest,
                            st2.push(crate::number::div_num(lhs, rhs)),
                            c,
                            r1,
                            r2,
                        );
                    }
                } else {
                    lemma_eval_deterministic(rest, st2.push(pow_num(lhs, rhs)), c, r1, r2);
                }
            }
        } else if t is FnCall {
            match spec_lookup_function(t->FnCall_0) {
                None => {},
                Some(b) => {
                    assert(!(b is Rand));
                    let a = crate::functions::spec_arity(b);
                    if st.len() < a {
                    } else {
                        let args = st.take(a).reverse();
                        lemma_eval_deterministic(
                            rest,
                            st.skip(a).push(crate::functions::spec_apply(b, args, c.pi)),
                            c,
                            r1,
                            r2,
                        );
                    }
                },
            }
        } else {
        }
    }
}

/// Unfolding aid: one step of the conversion, spelled out.
proof fn lemma_shunt_unfold(input: Seq<TokenV>, out: Seq<TokenV>, st: Seq<TokenV>)
    requires
        input.len() > 0,
    ensures
        crate::parser::shunt_from(input, out, st) == (match crate::parser::shunt_step(
            out,
            st,
            input[0],
        ) {
            Ok((out2, st2)) => crate::parser::shunt_from(input.drop_first(), out2, st2),
            Err(e) => Err(e),
        }),
{
}

/// Unfolding aid: one step of the evaluation, spelled out, for a literal.
proof fn lemma_eval_push_lit(
    input: Seq<TokenV>,
    st: Seq<Seq<char>>,
    c: ConstantsV,
    rands: Seq<Seq<char>>,
    v: Seq<char>,
)
    requires
        input.len() > 0,
        input[0] == TokenV::Lit(v),
    ensures
        spec_eval(input, st, c, rands) == spec_eval(input.drop_first(), st.push(v), c, rands),
{
}

/// A sequence of non-parenthesis tokens holds no opening parenthesis.
proof fn lemma_no_parens(s: Seq<TokenV>)
    requires
        forall|k: int| 0 <= k < s.len() ==> !((#[trigger] s[k]) is LeftParen),
    ensures
        !s.contains(TokenV::LeftParen),
{
}

/// Exponentiation associates to the right: the infix sequence
/// `a ^ b ^ c` converts to the postfix sequence `a b c ^ ^` and evaluates to
/// `a` raised to (`b` raised to `c`), never to (`a` raised to `b`) raised to
/// `c`.
pub proof fn lemma_caret_right_associated(
    a: Seq<char>,
    b: Seq<char>,
    d: Seq<char>,
    c: ConstantsV,
    rands: Seq<Seq<char>>,
)
    ensures
        spec_infix_to_postfix(
            seq![TokenV::Lit(a), TokenV::Caret, TokenV::Lit(b), TokenV::Caret, TokenV::Lit(d)],
        ) == Ok::<Seq<TokenV>, ErrorV>(
            seq![TokenV::Lit(a), TokenV::Lit(b), TokenV::Lit(d), TokenV::Caret, TokenV::Caret],
        ),
        spec_eval(
            seq![TokenV::Lit(a), TokenV::Lit(b), TokenV::Lit(d), TokenV::Caret, TokenV::Caret],
            Seq::empty(),
            c,
            rands,
        ) == Ok::<Seq<char>, ErrorV>(pow_num(a, pow_num(b, d))),
{
    let infix = seq![TokenV::Lit(a), TokenV::Caret, TokenV::Lit(b), TokenV::Caret, TokenV::Lit(d)];
    let postfix = seq![
        TokenV::Lit(a),
        TokenV::Lit(b),
        TokenV::Lit(d),
        TokenV::Caret,
        TokenV::Caret,
    ];
    let ee = Seq::<TokenV>::empty();
    let s1 = seq![TokenV::Caret, TokenV::Lit(b), TokenV::Caret, TokenV::Lit(d)];
    let s2 = seq![TokenV::Lit(b), TokenV::Caret, TokenV::Lit(d)];
    let s3 = seq![TokenV::Caret, TokenV::Lit(d)];
    let s4 = seq![TokenV::Lit(d)];
    let oa = seq![TokenV::Lit(a)];
    let oab = seq![TokenV::Lit(a), TokenV::Lit(b)];
    let oabd = seq![TokenV::Lit(a), TokenV::Lit(b), TokenV::Lit(d)];
    let t1 = seq![TokenV::Caret];
    let t2 = seq![TokenV::Caret, TokenV::Caret];
    let sf = crate::parser::shunt_from(infix, ee, ee);
    lemma_shunt_unfold(infix, ee, ee);
    assert(infix.drop_first() =~= s1);
    assert(ee.push(TokenV::Lit(a)) =~= oa);
    assert(sf == crate::parser::shunt_from(s1, oa, ee));
    lemma_shunt_unfold(s1, oa, ee);
    assert(s1.drop_first() =~= s2);
    assert(crate::parser::pops_for_op(ee, TokenV::Caret) == (ee, ee));
    assert(oa + ee =~= oa);
    assert(ee.push(TokenV::Caret) =~= t1);
    assert(sf == crate::parser::shunt_from(s2, oa, t1));
    lemma_shunt_unfold(s2, oa, t1);
    assert(s2.drop_first() =~= s3);
    assert(oa.push(TokenV::Lit(b)) =~= oab);
    assert(sf == crate::parser::shunt_from(s3, oab, t1));
    lemma_shunt_unfold(s3, oab, t1);
    assert(s3.drop_first() =~= s4);
    assert(crate::parser::pops_for_op(t1, TokenV::Caret) == (ee, t1));
    assert(oab + ee =~= oab);
    assert(t1.push(TokenV::Caret) =~= t2);
    assert(sf == crate::parser::shunt_from(s4, oab, t2));
    lemma_shunt_unfold(s4, oab, t2);
    assert(s4.drop_first() =~= ee);
    assert(oab.push(TokenV::Lit(d)) =~= oabd);
    assert(sf == crate::parser::shunt_from(ee, oabd, t2));
    lemma_no_parens(t2);
    assert(oabd + t2.reverse() =~= postfix);
    assert(sf == Ok::<Seq<TokenV>, ErrorV>(postfix));
    // Evaluation of the converted sequence.
    let se = Seq::<Seq<char>>::empty();
    let p1 = seq![TokenV::Lit(b), TokenV::Lit(d), TokenV::Caret, TokenV::Caret];
    let p2 = seq![TokenV::Lit(d), TokenV::Caret, TokenV::Caret];
    let p3 = seq![TokenV::Caret, TokenV::Caret];
    let p4 = seq![TokenV::Caret];
    let ev = spec_eval(postfix, se, c, rands);
    lemma_eval_push_lit(postfix, se, c, rands, a);
    assert(postfix.drop_first() =~= p1);
    assert(ev == spec_eval(p1, se.push(a), c, rands));
    lemma_eval_push_lit(p1, se.push(a), c, rands, b);
    assert(p1.drop_first() =~= p2);
    assert(ev == spec_eval(p2, se.push(a).push(b), c, rands));
    lemma_eval_push_lit(p2, se.push(a).push(b), c, rands, d);
    assert(p2.drop_first() =~= p3);
    let st3 = se.push(a).push(b).push(d);
    assert(ev == spec_eval(p3, st3, c, rands));
    assert(p3.drop_first() =~= p4);
    assert(st3.len() == 3);
    assert(st3[2] == d && st3[1] == b && st3[0] == a);
    assert(st3.take(1) =~= se.push(a));
    assert(ev == spec_eval(p4, se.push(a).push(pow_num(b, d)), c, rands));
    let st2 = se.push(a).push(pow_num(b, d));
    assert(p4.drop_first() =~= ee);
    assert(st2.take(0) =~= se);
    assert(ev == spec_eval(ee, se.push(pow_num(a, pow_num(b, d))), c, rands));
    assert(se.push(pow_num(a, pow_num(b, d))).last() == pow_num(a, pow_num(b, d)));
}

/// Parenthesizing the sum changes the result exactly as expected: the infix
/// sequence `( a + b ) * c` converts to the postfix sequence `a b + c *` and
/// evaluates to the sum times `c`.
pub proof fn lemma_paren_grouping(
    a: Seq<char>,
    b: Seq<char>,
    d: Seq<char>,
    c: ConstantsV,
    rands: Seq<Seq<char>>,
)
    ensures
        spec_infix_to_postfix(
            seq![
                TokenV::LeftParen,
                TokenV::Lit(a),
                TokenV::Plus,
                TokenV::Lit(b),
                TokenV::RightParen,
                TokenV::Star,
                TokenV::Lit(d),
            ],
        ) == Ok::<Seq<TokenV>, ErrorV>(
            seq![TokenV::Lit(a), TokenV::Lit(b), TokenV::Plus, TokenV::Lit(d), TokenV::Star],
        ),
        spec_eval(
            seq![TokenV::Lit(a), TokenV::Lit(b), TokenV::Plus, TokenV::Lit(d), TokenV::Star],
            Seq::empty(),
            c,
            rands,
        ) == Ok::<Seq<char>, ErrorV>(mul_num(add_num(a, b), d)),
{
    let infix = seq![
        TokenV::LeftParen,
        TokenV::Lit(a),
        TokenV::Plus,
        TokenV::Lit(b),
        TokenV::RightParen,
        TokenV::Star,
        TokenV::Lit(d),
    ];
    let postfix = seq![TokenV::Lit(a), TokenV::Lit(b), TokenV::Plus, TokenV::Lit(d), TokenV::Star];
    let ee = Seq::<TokenV>::empty();
    let s1 = seq![
        TokenV::Lit(a),
        TokenV::Plus,
        TokenV::Lit(b),
        TokenV::RightParen,
        TokenV::Star,
        TokenV::Lit(d),
    ];
    let s2 = seq![TokenV::Plus, TokenV::Lit(b), TokenV::RightParen, TokenV::Star, TokenV::Lit(d)];
    let s3 = seq![TokenV::Lit(b), TokenV::RightParen, TokenV::Star, TokenV::Lit(d)];
    let s4 = seq![TokenV::RightParen, TokenV::Star, TokenV::Lit(d)];
    let s5 = seq![TokenV::Star, TokenV::Lit(d)];
    let s6 = seq![TokenV::Lit(d)];
    let oa = seq![TokenV::Lit(a)];
    let oab = seq![TokenV::Lit(a), TokenV::Lit(b)];
    let oabp = seq![TokenV::Lit(a), TokenV::Lit(b), TokenV::Plus];
    let oabpd = seq![TokenV::Lit(a), TokenV::Lit(b), TokenV::Plus, TokenV::Lit(d)];
    let tl = seq![TokenV::LeftParen];
    let tlp = seq![TokenV::LeftParen, TokenV::Plus];
    let ts = seq![TokenV::Star];
    let sf = crate::parser::shunt_from(infix, ee, ee);
    lemma_shunt_unfold(infix, ee, ee);
    assert(infix.drop_first() =~= s1);
    assert(ee.push(TokenV::LeftParen) =~= tl);
    assert(sf == crate::parser::shunt_from(s1, ee, tl));
    lemma_shunt_unfold(s1, ee, tl);
    assert(s1.drop_first() =~= s2);
    assert(ee.push(TokenV::Lit(a)) =~= oa);
    assert(sf == crate::parser::shunt_from(s2, oa, tl));
    lemma_shunt_unfold(s2, oa, tl);
    assert(s2.drop_first() =~= s3);
    assert(tl.last() == TokenV::LeftParen);
    assert(crate::parser::pops_for_op(tl, TokenV::Plus) == (ee, tl));
    assert(oa + ee =~= oa);
    assert(tl.push(TokenV::Plus) =~= tlp);
    assert(sf == crate::parser::shunt_from(s3, oa, tlp));
    lemma_shunt_unfold(s3, oa, tlp);
    assert(s3.drop_first() =~= s4);
    assert(oa.push(TokenV::Lit(b)) =~= oab);
    assert(sf == crate::parser::shunt_from(s4, oab, tlp));
    lemma_shunt_unfold(s4, oab, tlp);
    assert(s4.drop_first() =~= s5);
    assert(tlp.drop_last() =~= tl);
    assert(crate::parser::pops_to_paren(tl) == (ee, tl));
    assert(crate::parser::pops_to_paren(tlp) == (seq![TokenV::Plus] + ee, tl));
    assert(seq![TokenV::Plus] + ee =~= seq![TokenV::Plus]);
    assert(tl.drop_last() =~= ee);
    assert(oab + seq![TokenV::Plus] =~= oabp);
    assert(sf == crate::parser::shunt_from(s5, oabp, ee));
    lemma_shunt_unfold(s5, oabp, ee);
    assert(s5.drop_first() =~= s6);
    assert(crate::parser::pops_for_op(ee, TokenV::Star) == (ee, ee));
    assert(oabp + ee =~= oabp);
    assert(ee.push(TokenV::Star) =~= ts);
    assert(sf == crate::parser::shunt_from(s6, oabp, ts));
    lemma_shunt_unfold(s6, oabp, ts);
    assert(s6.drop_first() =~= ee);
    assert(oabp.push(TokenV::Lit(d)) =~= oabpd);
    assert(sf == crate::parser::shunt_from(ee, oabpd, ts));
    lemma_no_parens(ts);
    assert(oabpd + ts.reverse() =~= postfix);
    assert(sf == Ok::<Seq<TokenV>, ErrorV>(postfix));
    // Evaluation of the converted sequence.
    let se = Seq::<Seq<char>>::empty();
    let p1 = seq![TokenV::Lit(b), TokenV::Plus, TokenV::Lit(d), TokenV::Star];
    let p2 = seq![TokenV::Plus, TokenV::Lit(d), TokenV::Star];
    let p3 = seq![TokenV::Lit(d), TokenV::Star];
    let p4 = seq![TokenV::Star];
    let ev = spec_eval(postfix, se, c, rands);
    lemma_eval_push_lit(postfix, se, c, rands, a);
    assert(postfix.drop_first() =~= p1);
    assert(ev == spec_eval(p1, se.push(a), c, rands));
    lemma_eval_push_lit(p1, se.push(a), c, rands, b);
    assert(p1.drop_first() =~= p2);
    let stab = se.push(a).push(b);
    assert(ev == spec_eval(p2, stab, c, rands));
    assert(p2.drop_first() =~= p3);
    assert(stab.len() == 2);
    assert(stab[1] == b && stab[0] == a);
    assert(stab.take(0) =~= se);
    assert(ev == spec_eval(p3, se.push(add_num(a, b)), c, rands));
    lemma_eval_push_lit(p3, se.push(add_num(a, b)), c, rands, d);
    assert(p3.drop_first() =~= p4);
    let stsd = se.push(add_num(a, b)).push(d);
    assert(ev == spec_eval(p4, stsd, c, rands));
    assert(p4.drop_first() =~= ee);
    assert(stsd.len() == 2);
    assert(stsd[1] == d && stsd[0] == add_num(a, b));
    assert(stsd.take(0) =~= se);
    assert(ev == spec_eval(ee, se.push(mul_num(add_num(a, b), d)), c, rands));
    assert(se.push(mul_num(add_num(a, b), d)).last() == mul_num(add_num(a, b), d));
}


/// The round trip for one binary operation: the infix sequence `a op b`,
/// with `op` one of the four left-associative operators, converts to the
/// postfix sequence `a b op` and evaluates to that operation applied to the
/// two literals at the working precision — with division by zero reported,
/// never computed.
pub proof fn lemma_single_operation_round_trip(
    a: Seq<char>,
    b: Seq<char>,
    op: TokenV,
    c: ConstantsV,
    rands: Seq<Seq<char>>,
)
    requires
        crate::token::spec_is_operator(op),
        !(op is Caret),
    ensures
        spec_infix_to_postfix(seq![TokenV::Lit(a), op, TokenV::Lit(b)]) == Ok::<
            Seq<TokenV>,
            ErrorV,
        >(seq![TokenV::Lit(a), TokenV::Lit(b), op]),
        spec_eval(seq![TokenV::Lit(a), TokenV::Lit(b), op], Seq::empty(), c, rands) == (
        if op is Plus {
            Ok::<Seq<char>, ErrorV>(add_num(a, b))
        } else if op is Minus {
            Ok::<Seq<char>, ErrorV>(crate::number::sub_num(a, b))
        } else if op is Star {
            Ok::<Seq<char>, ErrorV>(mul_num(a, b))
        } else if crate::number::is_zero_num(b) {
            Err::<Seq<char>, ErrorV>(ErrorV::DivisionByZero)
        } else {
            Ok::<Seq<char>, ErrorV>(crate::number::div_num(a, b))
        }),
{
    let infix = seq![TokenV::Lit(a), op, TokenV::Lit(b)];
    let postfix = seq![TokenV::Lit(a), TokenV::Lit(b), op];
    let ee = Seq::<TokenV>::empty();
    let s1 = seq![op, TokenV::Lit(b)];
    let s2 = seq![TokenV::Lit(b)];
    let oa = seq![TokenV::Lit(a)];
    let oab = seq![TokenV::Lit(a), TokenV::Lit(b)];
    let tp = seq![op];
    let sf = crate::parser::shunt_from(infix, ee, ee);
    lemma_shunt_unfold(infix, ee, ee);
    assert(infix.drop_first() =~= s1);
    assert(ee.push(TokenV::Lit(a)) =~= oa);
    assert(sf == crate::parser::shunt_from(s1, oa, ee));
    lemma_shunt_unfold(s1, oa, ee);
    assert(s1.drop_first() =~= s2);
    assert(crate::parser::pops_for_op(ee, op) == (ee, ee));
    assert(oa + ee =~= oa);
    assert(ee.push(op) =~= tp);
    assert(sf == crate::parser::shunt_from(s2, oa, tp));
    lemma_shunt_unfold(s2, oa, tp);
    assert(s2.drop_first() =~= ee);
    assert(oa.push(TokenV::Lit(b)) =~= oab);
    assert(sf == crate::parser::shunt_from(ee, oab, tp));
    lemma_no_parens(tp);
    assert(oab + tp.reverse() =~= postfix);
    assert(sf == Ok::<Seq<TokenV>, ErrorV>(postfix));
    // Evaluation of the converted sequence.
    let se = Seq::<Seq<char>>::empty();
    let p1 = seq![TokenV::Lit(b), op];
    let p2 = seq![op];
    let ev = spec_eval(postfix, se, c, rands);
    lemma_eval_push_lit(postfix, se, c, rands, a);
    assert(postfix.drop_first() =~= p1);
    assert(ev == spec_eval(p1, se.push(a), c, rands));
    lemma_eval_push_lit(p1, se.push(a), c, rands, b);
    assert(p1.drop_first() =~= p2);
    let stab = se.push(a).push(b);
    assert(ev == spec_eval(p2, stab, c, rands));
    assert(p2.drop_first() =~= ee);
    assert(stab.len() == 2);
    assert(stab[1] == b && stab[0] == a);
    assert(stab.take(0) =~= se);
    if op is Plus {
        assert(ev == spec_eval(ee, se.push(add_num(a, b)), c, rands));
        assert(se.push(add_num(a, b)).last() == add_num(a, b));
    } else if op is Minus {
        let v = crate::number::sub_num(a, b);
        assert(ev == spec_eval(ee, se.push(v), c, rands));
        assert(se.push(v).last() == v);
    } else if op is Star {
        assert(ev == spec_eval(ee, se.push(mul_num(a, b)), c, rands));
        assert(se.push(mul_num(a, b)).last() == mul_num(a, b));
    } else if !crate::number::is_zero_num(b) {
        let v = crate::number::div_num(a, b);
        assert(ev == spec_eval(ee, se.push(v), c, rands));
        assert(se.push(v).last() == v);
    }
}


/// The sequence holds only literals and operators, as a converted flat
/// expression does.
pub open spec fn ops_only(ts: Seq<TokenV>) -> bool {
    forall|k: int|
        0 <= k < ts.len() ==> ((#[trigger] ts[k]) is Lit || crate::token::spec_is_operator(ts[k]))
}

/// What a binary operator computes from its two operands.
pub open spec fn apply_op(op: TokenV, lhs: Seq<char>, rhs: Seq<char>) -> Seq<char> {
    if op is Plus {
        add_num(lhs, rhs)
    } else if op is Minus {
        crate::number::sub_num(lhs, rhs)
    } else if op is Star {
        mul_num(lhs, rhs)
    } else if op is Slash {
        crate::number::div_num(lhs, rhs)
    } else {
        pow_num(lhs, rhs)
    }
}

/// What a literals-and-operators sequence does to the operand stack: the
/// steps of `spec_eval`, keeping the whole stack instead of taking the final
/// top.
pub open spec fn eval_stack(ts: Seq<TokenV>, st: Seq<Seq<char>>) -> Result<Seq<Seq<char>>, ErrorV>
    decreases ts.len(),
{
    if ts.len() == 0 {
        Ok(st)
    } else {
        let t = ts[0];
        let rest = ts.drop_first();
        if t is Lit {
            eval_stack(rest, st.push(t->Lit_0))
        } else if crate::token::spec_is_operator(t) {
            if t is Minus && st.len() == 1 {
                eval_stack(rest, seq![crate::number::neg_num(st[0])])
            } else if st.len() < 2 {
                Err(ErrorV::ExpectedLiteral)
            } else {
                let rhs = st[st.len() - 1];
                let lhs = st[st.len() - 2];
                let st2 = st.take(st.len() - 2);
                if t is Slash && crate::number::is_zero_num(rhs) {
                    Err(ErrorV::DivisionByZero)
                } else {
                    eval_stack(rest, st2.push(apply_op(t, lhs, rhs)))
                }
            }
        } else {
            Err(ErrorV::ExpectedLiteral)
        }
    }
}

/// On a literals-and-operators sequence, `spec_eval` is `eval_stack`
/// followed by taking the top of the final stack.
proof fn lemma_eval_as_stack(
    ts: Seq<TokenV>,
    st: Seq<Seq<char>>,
    c: ConstantsV,
    rands: Seq<Seq<char>>,
)
    requires
        ops_only(ts),
    ensures
        spec_eval(ts, st, c, rands) == (match eval_stack(ts, st) {
            Ok(stk) => if stk.len() == 0 {
                Err::<Seq<char>, ErrorV>(ErrorV::ExpectedLiteral)
            } else {
                Ok::<Seq<char>, ErrorV>(stk.last())
            },
            Err(e) => Err::<Seq<char>, ErrorV>(e),
        }),
    decreases ts.len(),
{
    if ts.len() == 0 {
    } else {
        let t = ts[0];
        let rest = ts.drop_first();
        assert(ops_only(rest)) by {
            assert forall|k: int| 0 <= k < rest.len() implies ((#[trigger] rest[k]) is Lit
                || crate::token::spec_is_operator(rest[k])) by {
                assert(rest[k] == ts[k + 1]);
            }
        }
        if t is Lit {
            lemma_eval_as_stack(rest, st.push(t->Lit_0), c, rands);
        } else {
            assert(crate::token::spec_is_operator(t));
            if t is Minus && st.len() == 1 {
                lemma_eval_as_stack(rest, seq![crate::number::neg_num(st[0])], c, rands);
            } else if st.len() < 2 {
            } else {
                let rhs = st[st.len() - 1];
                let lhs = st[st.len() - 2];
                let st2 = st.take(st.len() - 2);
                if t is Slash && crate::number::is_zero_num(rhs) {
                } else {
                    lemma_eval_as_stack(rest, st2.push(apply_op(t, lhs, rhs)), c, rands);
                }
            }
        }
    }
}

/// `eval_stack` splits over concatenation.
proof fn lemma_eval_stack_append(xs: Seq<TokenV>, ys: Seq<TokenV>, st: Seq<Seq<char>>)
    ensures
        eval_stack(xs + ys, st) == (match eval_stack(xs, st) {
            Ok(stk) => eval_stack(ys, stk),
            Err(e) => Err::<Seq<Seq<char>>, ErrorV>(e),
        }),
    decreases xs.len(),
{
    if xs.len() == 0 {
        assert(xs + ys =~= ys);
    } else {
        let t = xs[0];
        assert((xs + ys)[0] == t);
        assert((xs + ys).drop_first() =~= xs.drop_first() + ys);
        let rest = xs.drop_first();
        if t is Lit {
            lemma_eval_stack_append(rest, ys, st.push(t->Lit_0));
        } else if crate::token::spec_is_operator(t) {
            if t is Minus && st.len() == 1 {
                lemma_eval_stack_append(rest, ys, seq![crate::number::neg_num(st[0])]);
            } else if st.len() < 2 {
            } else {
                let rhs = st[st.len() - 1];
                let lhs = st[st.len() - 2];
                let st2 = st.take(st.len() - 2);
                if t is Slash && crate::number::is_zero_num(rhs) {
                } else {
                    lemma_eval_stack_append(rest, ys, st2.push(apply_op(t, lhs, rhs)));
                }
            }
        } else {
        }
    }
}

/// One literal pushes its value.
proof fn lemma_es_lit(x: Seq<char>, stk: Seq<Seq<char>>)
    ensures
        eval_stack(seq![TokenV::Lit(x)], stk) == Ok::<Seq<Seq<char>>, ErrorV>(stk.push(x)),
{
    reveal_with_fuel(eval_stack, 2);
    assert(seq![TokenV::Lit(x)].drop_first() =~= Seq::<TokenV>::empty());
}

/// One operator on a stack of at least two combines the two top values.
proof fn lemma_es_op(op: TokenV, stk: Seq<Seq<char>>)
    requires
        crate::token::spec_is_operator(op),
        stk.len() >= 2,
        op is Slash ==> !crate::number::is_zero_num(stk.last()),
    ensures
        eval_stack(seq![op], stk) == Ok::<Seq<Seq<char>>, ErrorV>(
            stk.take(stk.len() - 2).push(apply_op(op, stk[stk.len() - 2], stk[stk.len() - 1])),
        ),
{
    reveal_with_fuel(eval_stack, 2);
    assert(seq![op].drop_first() =~= Seq::<TokenV>::empty());
    assert(stk.last() == stk[stk.len() - 1]);
}

/// Appending a literal token to the output pushes its value.
proof fn lemma_es_push_lit(out: Seq<TokenV>, x: Seq<char>, stk: Seq<Seq<char>>)
    requires
        eval_stack(out, Seq::empty()) == Ok::<Seq<Seq<char>>, ErrorV>(stk),
    ensures
        eval_stack(out.push(TokenV::Lit(x)), Seq::empty()) == Ok::<Seq<Seq<char>>, ErrorV>(
            stk.push(x),
        ),
{
    assert(out.push(TokenV::Lit(x)) =~= out + seq![TokenV::Lit(x)]);
    lemma_eval_stack_append(out, seq![TokenV::Lit(x)], Seq::empty());
    lemma_es_lit(x, stk);
}

/// Appending an operator token to the output combines the two top values.
proof fn lemma_es_push_op(out: Seq<TokenV>, op: TokenV, stk: Seq<Seq<char>>)
    requires
        eval_stack(out, Seq::empty()) == Ok::<Seq<Seq<char>>, ErrorV>(stk),
        crate::token::spec_is_operator(op),
        stk.len() >= 2,
        op is Slash ==> !crate::number::is_zero_num(stk.last()),
    ensures
        eval_stack(out.push(op), Seq::empty()) == Ok::<Seq<Seq<char>>, ErrorV>(
            stk.take(stk.len() - 2).push(apply_op(op, stk[stk.len() - 2], stk[stk.len() - 1])),
        ),
{
    assert(out.push(op) =~= out + seq![op]);
    lemma_eval_stack_append(out, seq![op], Seq::empty());
    lemma_es_op(op, stk);
}

/// A well-formed flat infix expression: literals alternating with the four
/// left-associative binary operators.
pub open spec fn flat_expr(ts: Seq<TokenV>) -> bool {
    &&& ts.len() % 2 == 1
    &&& forall|k: int| 0 <= k < ts.len() && k % 2 == 0 ==> (#[trigger] ts[k]) is Lit
    &&& forall|k: int|
        0 <= k < ts.len() && k % 2 == 1 ==> crate::token::spec_is_operator(#[trigger] ts[k]) && !(
        ts[k] is Caret)
}

/// The value so far of a direct left-to-right evaluation: a pending additive
/// part, if any, applied to the current multiplicative term.
pub open spec fn collapse(sum: Option<(Seq<char>, TokenV)>, term: Seq<char>) -> Seq<char> {
    match sum {
        None => term,
        Some((s, aop)) => apply_op(aop, s, term),
    }
}

/// Direct left-to-right evaluation honoring precedence, from the operator at
/// position `i` on: a multiplicative operator folds into the current term at
/// once; an additive operator closes the term into the pending sum and opens
/// a new term.  Division by zero fails the whole evaluation.
pub open spec fn flat_eval_from(
    ts: Seq<TokenV>,
    i: int,
    sum: Option<(Seq<char>, TokenV)>,
    term: Seq<char>,
) -> Result<Seq<char>, ErrorV>
    decreases ts.len() - i,
{
    if i < 0 || i + 1 >= ts.len() {
        Ok(collapse(sum, term))
    } else {
        let op = ts[i];
        let x = ts[i + 1]->Lit_0;
        if op is Star || op is Slash {
            if op is Slash && crate::number::is_zero_num(x) {
                Err(ErrorV::DivisionByZero)
            } else {
                flat_eval_from(ts, i + 2, sum, apply_op(op, term, x))
            }
        } else {
            flat_eval_from(ts, i + 2, Some((collapse(sum, term), op)), x)
        }
    }
}

/// Direct left-to-right evaluation of a flat expression, honoring precedence.
pub open spec fn flat_eval(ts: Seq<TokenV>) -> Result<Seq<char>, ErrorV>
    recommends
        flat_expr(ts),
{
    flat_eval_from(ts, 1, None, ts[0]->Lit_0)
}

/// The converter's stack during a flat expression: operators only, never a
/// parenthesis or a call.
pub open spec fn flat_stack(st: Seq<TokenV>) -> bool {
    forall|k: int|
        0 <= k < st.len() ==> crate::token::spec_is_operator(#[trigger] st[k]) && !(st[k] is Caret)
}

proof fn lemma_flat_stack_no_paren(st: Seq<TokenV>)
    requires
        flat_stack(st),
    ensures
        !st.contains(TokenV::LeftParen),
{
    if st.contains(TokenV::LeftParen) {
        let k = choose|k: int| 0 <= k < st.len() && st[k] == TokenV::LeftParen;
        assert(crate::token::spec_is_operator(st[k]));
    }
}

/// How the converter's output and stack mirror the direct evaluation's
/// registers during a flat expression.
pub open spec fn flat_state(
    out: Seq<TokenV>,
    st: Seq<TokenV>,
    sum: Option<(Seq<char>, TokenV)>,
    term: Seq<char>,
) -> bool {
    &&& ops_only(out)
    &&& flat_stack(st)
    &&& if st.len() == 0 {
        sum is None && eval_stack(out, Seq::empty()) == Ok::<Seq<Seq<char>>, ErrorV>(seq![term])
    } else if st.len() == 1 {
        if st[0] is Plus || st[0] is Minus {
            sum matches Some((s, aop)) && aop == st[0] && eval_stack(out, Seq::empty()) == Ok::<
                Seq<Seq<char>>,
                ErrorV,
            >(seq![s, term])
        } else {
            sum is None && (eval_stack(out, Seq::empty()) matches Ok(stk) && stk.len() == 2
                && term == apply_op(st[0], stk[0], stk[1]) && (st[0] is Slash
                ==> !crate::number::is_zero_num(stk[1])))
        }
    } else if st.len() == 2 {
        (st[0] is Plus || st[0] is Minus) && (st[1] is Star || st[1] is Slash) && (sum matches
        Some((s, aop)) && aop == st[0] && (
        eval_stack(out, Seq::empty()) matches Ok(stk) && stk.len() == 3 && stk[0] == s && term
            == apply_op(st[1], stk[1], stk[2]) && (st[1] is Slash
            ==> !crate::number::is_zero_num(stk[2]))))
    } else {
        false
    }
}

/// Once a division by zero is in the books — in the output already, or as
/// the operator waiting on top of the stack — the conversion still succeeds
/// and the evaluation of whatever it produces fails with that very error.
proof fn lemma_flat_doomed(ts: Seq<TokenV>, i: int, out: Seq<TokenV>, st: Seq<TokenV>, e: ErrorV)
    requires
        flat_expr(ts),
        i % 2 == 1,
        1 <= i <= ts.len(),
        ops_only(out),
        flat_stack(st),
        (eval_stack(out, Seq::empty()) == Err::<Seq<Seq<char>>, ErrorV>(e)) || (st.len() >= 1
            && st.last() is Slash && eval_stack(out.push(st.last()), Seq::empty()) == Err::<
            Seq<Seq<char>>,
            ErrorV,
        >(e)),
    ensures
        crate::parser::shunt_from(ts.skip(i), out, st) matches Ok(res) && ops_only(res)
            && eval_stack(res, Seq::empty()) == Err::<Seq<Seq<char>>, ErrorV>(e),
    decreases ts.len() - i,
{
    if i == ts.len() {
        assert(ts.skip(i) =~= Seq::<TokenV>::empty());
        lemma_flat_stack_no_paren(st);
        let res = out + st.reverse();
        assert(ops_only(res)) by {
            assert forall|k: int| 0 <= k < res.len() implies ((#[trigger] res[k]) is Lit
                || crate::token::spec_is_operator(res[k])) by {
                if k >= out.len() {
                    assert(res[k] == st.reverse()[k - out.len()]);
                    assert(st.reverse()[k - out.len()] == st[st.len() - 1 - (k - out.len())]);
                }
            }
        }
        if eval_stack(out, Seq::empty()) == Err::<Seq<Seq<char>>, ErrorV>(e) {
            lemma_eval_stack_append(out, st.reverse(), Seq::empty());
        } else {
            assert(st.reverse()[0] == st.last());
            assert(res =~= out.push(st.last()) + st.reverse().drop_first());
            lemma_eval_stack_append(out.push(st.last()), st.reverse().drop_first(), Seq::empty());
        }
    } else {
        let op = ts[i];
        let x = ts[i + 1];
        assert(crate::token::spec_is_operator(op) && !(op is Caret));
        assert(x is Lit);
        assert(ts.skip(i)[0] == op);
        assert(ts.skip(i).drop_first() =~= ts.skip(i + 1));
        assert(ts.skip(i + 1)[0] == x);
        assert(ts.skip(i + 1).drop_first() =~= ts.skip(i + 2));
        let pops = crate::parser::pops_for_op(st, op);
        let out1 = out + pops.0;
        let st1 = pops.1.push(op);
        let out2 = out1.push(x);
        // The moved operators extend the output; the error stays in front.
        lemma_pops_flat(st, op);
        assert(flat_stack(st1)) by {
            assert forall|k: int| 0 <= k < st1.len() implies crate::token::spec_is_operator(
                #[trigger] st1[k],
            ) && !(st1[k] is Caret) by {
                if k < st1.len() - 1 {
                    lemma_pops_prefix_elems(st, op, k);
                }
            }
        }
        if eval_stack(out, Seq::empty()) == Err::<Seq<Seq<char>>, ErrorV>(e) {
            lemma_eval_stack_append(out, pops.0, Seq::empty());
            assert(out1 =~= out + pops.0);
            assert(out2 =~= out1 + seq![x]);
            lemma_eval_stack_append(out1, seq![x], Seq::empty());
        } else {
            // The stack top is the failing division; any operator pops it
            // first, so the output now carries the error.
            assert(st.len() >= 1);
            assert(crate::token::spec_is_operator(st[st.len() - 1]) && !(st[st.len() - 1]
                is Caret));
            assert(!(st.last() is LeftParen));
            assert(crate::token::spec_precedence(st.last()) == 3);
            assert(crate::token::spec_left_associated(op));
            assert(crate::parser::pops_for_op(st, op).0 == seq![st.last()]
                + crate::parser::pops_for_op(st.drop_last(), op).0);
            assert(out1 =~= out.push(st.last()) + crate::parser::pops_for_op(
                st.drop_last(),
                op,
            ).0);
            lemma_eval_stack_append(
                out.push(st.last()),
                crate::parser::pops_for_op(st.drop_last(), op).0,
                Seq::empty(),
            );
            assert(out2 =~= out1 + seq![x]);
            lemma_eval_stack_append(out1, seq![x], Seq::empty());
        }
        assert(ops_only(out2)) by {
            lemma_pops_prefix_ops(st, op);
            assert forall|k: int| 0 <= k < out2.len() implies ((#[trigger] out2[k]) is Lit
                || crate::token::spec_is_operator(out2[k])) by {}
        }
        lemma_flat_doomed(ts, i + 2, out2, st1, e);
        assert(crate::parser::shunt_step(out, st, op) == Ok::<(Seq<TokenV>, Seq<TokenV>), ErrorV>(
            (out1, st1),
        ));
        assert(crate::parser::shunt_from(ts.skip(i), out, st) == crate::parser::shunt_from(
            ts.skip(i + 1),
            out1,
            st1,
        ));
        assert(crate::parser::shunt_step(out1, st1, x) == Ok::<(Seq<TokenV>, Seq<TokenV>), ErrorV>(
            (out2, st1),
        ));
        assert(crate::parser::shunt_from(ts.skip(i + 1), out1, st1) == crate::parser::shunt_from(
            ts.skip(i + 2),
            out2,
            st1,
        ));
    }
}

/// On a flat stack every operator of the four pops the whole stack prefix
/// allowed by precedence; in particular the popped part is a prefix of the
/// stack read from the top, made of operators.
proof fn lemma_pops_prefix_ops(st: Seq<TokenV>, op: TokenV)
    requires
        flat_stack(st),
    ensures
        forall|k: int|
            0 <= k < crate::parser::pops_for_op(st, op).0.len()
                ==> crate::token::spec_is_operator(#[trigger] crate::parser::pops_for_op(
                st,
                op,
            ).0[k]),
    decreases st.len(),
{
    if st.len() > 0 && !(st.last() is LeftParen) && (crate::token::spec_precedence(st.last())
        > crate::token::spec_precedence(op) || (crate::token::spec_precedence(st.last())
        == crate::token::spec_precedence(op) && crate::token::spec_left_associated(op))) {
        assert(flat_stack(st.drop_last())) by {
            assert forall|k: int|
                0 <= k < st.drop_last().len() implies crate::token::spec_is_operator(
                #[trigger] st.drop_last()[k],
            ) && !(st.drop_last()[k] is Caret) by {
                assert(st.drop_last()[k] == st[k]);
            }
        }
        lemma_pops_prefix_ops(st.drop_last(), op);
        assert forall|k: int|
            0 <= k < crate::parser::pops_for_op(st, op).0.len()
                implies crate::token::spec_is_operator(#[trigger] crate::parser::pops_for_op(
                st,
                op,
            ).0[k]) by {
            if k == 0 {
                assert(crate::parser::pops_for_op(st, op).0[0] == st.last());
            } else {
                assert(crate::parser::pops_for_op(st, op).0[k]
                    == crate::parser::pops_for_op(st.drop_last(), op).0[k - 1]);
            }
        }
    }
}

/// The remaining stack after the pops is a prefix of the old stack.
proof fn lemma_pops_flat(st: Seq<TokenV>, op: TokenV)
    requires
        flat_stack(st),
    ensures
        flat_stack(crate::parser::pops_for_op(st, op).1),
        crate::parser::pops_for_op(st, op).1.len() <= st.len(),
        forall|k: int|
            0 <= k < crate::parser::pops_for_op(st, op).1.len()
                ==> #[trigger] crate::parser::pops_for_op(st, op).1[k] == st[k],
    decreases st.len(),
{
    if st.len() > 0 && !(st.last() is LeftParen) && (crate::token::spec_precedence(st.last())
        > crate::token::spec_precedence(op) || (crate::token::spec_precedence(st.last())
        == crate::token::spec_precedence(op) && crate::token::spec_left_associated(op))) {
        assert(flat_stack(st.drop_last())) by {
            assert forall|k: int|
                0 <= k < st.drop_last().len() implies crate::token::spec_is_operator(
                #[trigger] st.drop_last()[k],
            ) && !(st.drop_last()[k] is Caret) by {
                assert(st.drop_last()[k] == st[k]);
            }
        }
        lemma_pops_flat(st.drop_last(), op);
    }
}

proof fn lemma_pops_prefix_elems(st: Seq<TokenV>, op: TokenV, k: int)
    requires
        flat_stack(st),
        0 <= k < crate::parser::pops_for_op(st, op).1.len(),
    ensures
        crate::token::spec_is_operator(crate::parser::pops_for_op(st, op).1[k]) && !(
        crate::parser::pops_for_op(st, op).1[k] is Caret),
{
    lemma_pops_flat(st, op);
}


/// Appending a division whose right operand is zero fails the evaluation.
proof fn lemma_es_push_divzero(out: Seq<TokenV>, stk: Seq<Seq<char>>)
    requires
        eval_stack(out, Seq::empty()) == Ok::<Seq<Seq<char>>, ErrorV>(stk),
        stk.len() >= 2,
        crate::number::is_zero_num(stk.last()),
    ensures
        eval_stack(out.push(TokenV::Slash), Seq::empty()) == Err::<Seq<Seq<char>>, ErrorV>(
            ErrorV::DivisionByZero,
        ),
{
    assert(out.push(TokenV::Slash) =~= out + seq![TokenV::Slash]);
    lemma_eval_stack_append(out, seq![TokenV::Slash], Seq::empty());
    assert(stk.last() == stk[stk.len() - 1]);
}

/// The conversion of the rest of a flat expression, from a state whose
/// output and stack mirror the direct evaluation's registers: it succeeds,
/// and evaluating its output gives exactly what the direct evaluation gives.
proof fn lemma_flat_from(
    ts: Seq<TokenV>,
    i: int,
    out: Seq<TokenV>,
    st: Seq<TokenV>,
    sum: Option<(Seq<char>, TokenV)>,
    term: Seq<char>,
)
    requires
        flat_expr(ts),
        i % 2 == 1,
        1 <= i <= ts.len(),
        flat_state(out, st, sum, term),
    ensures
        crate::parser::shunt_from(ts.skip(i), out, st) matches Ok(res) && ops_only(res)
            && eval_stack(res, Seq::empty()) == (match flat_eval_from(ts, i, sum, term) {
            Ok(v) => Ok::<Seq<Seq<char>>, ErrorV>(seq![v]),
            Err(e) => Err::<Seq<Seq<char>>, ErrorV>(e),
        }),
    decreases ts.len() - i,
{
    if i == ts.len() {
        // End of input: the stack flushes onto the output and the pending
        // registers collapse into the one result.
        assert(ts.skip(i) =~= Seq::<TokenV>::empty());
        lemma_flat_stack_no_paren(st);
        let res = out + st.reverse();
        assert(flat_eval_from(ts, i, sum, term) == Ok::<Seq<char>, ErrorV>(collapse(sum, term)));
        if st.len() == 0 {
            assert(res =~= out);
        } else if st.len() == 1 {
            assert(st.reverse() =~= seq![st[0]]);
            assert(res =~= out.push(st[0]));
            if st[0] is Plus || st[0] is Minus {
                let s = sum->Some_0.0;
                lemma_es_push_op(out, st[0], seq![s, term]);
                assert(seq![s, term].take(0) =~= Seq::<Seq<char>>::empty());
                assert(Seq::<Seq<char>>::empty().push(apply_op(st[0], s, term)) =~= seq![
                    collapse(sum, term),
                ]);
            } else {
                let stk = eval_stack(out, Seq::empty())->Ok_0;
                assert(stk.last() == stk[1]);
                lemma_es_push_op(out, st[0], stk);
                assert(stk.take(0) =~= Seq::<Seq<char>>::empty());
                assert(Seq::<Seq<char>>::empty().push(apply_op(st[0], stk[0], stk[1])) =~= seq![
                    term,
                ]);
            }
        } else {
            let s = sum->Some_0.0;
            let stk = eval_stack(out, Seq::empty())->Ok_0;
            assert(st.reverse() =~= seq![st[1], st[0]]);
            assert(res =~= out.push(st[1]).push(st[0]));
            assert(stk.last() == stk[2]);
            lemma_es_push_op(out, st[1], stk);
            assert(stk.take(1) =~= seq![s]);
            assert(seq![s].push(apply_op(st[1], stk[1], stk[2])) =~= seq![s, term]);
            lemma_es_push_op(out.push(st[1]), st[0], seq![s, term]);
            assert(seq![s, term].take(0) =~= Seq::<Seq<char>>::empty());
            assert(Seq::<Seq<char>>::empty().push(apply_op(st[0], s, term)) =~= seq![
                collapse(sum, term),
            ]);
        }
        assert(ops_only(res)) by {
            assert forall|k: int| 0 <= k < res.len() implies ((#[trigger] res[k]) is Lit
                || crate::token::spec_is_operator(res[k])) by {
                if k >= out.len() {
                    assert(res[k] == st.reverse()[k - out.len()]);
                    assert(st.reverse()[k - out.len()] == st[st.len() - 1 - (k - out.len())]);
                }
            }
        }
    } else {
        // One more pair: the operator, then its right operand.
        assert(i + 1 < ts.len()) by {
            assert(i != ts.len() - 1);
        }
        let op = ts[i];
        let xt = ts[i + 1];
        assert(crate::token::spec_is_operator(op) && !(op is Caret));
        assert(xt is Lit);
        let x = xt->Lit_0;
        assert(ts.skip(i)[0] == op);
        assert(ts.skip(i).drop_first() =~= ts.skip(i + 1));
        assert(ts.skip(i + 1)[0] == xt);
        assert(ts.skip(i + 1).drop_first() =~= ts.skip(i + 2));
        let pops = crate::parser::pops_for_op(st, op);
        let out1 = out + pops.0;
        let st1 = pops.1.push(op);
        let out2 = out1.push(xt);
        assert(crate::parser::shunt_step(out, st, op) == Ok::<(Seq<TokenV>, Seq<TokenV>), ErrorV>(
            (out1, st1),
        ));
        assert(crate::parser::shunt_from(ts.skip(i), out, st) == crate::parser::shunt_from(
            ts.skip(i + 1),
            out1,
            st1,
        ));
        assert(crate::parser::shunt_step(out1, st1, xt) == Ok::<
            (Seq<TokenV>, Seq<TokenV>),
            ErrorV,
        >((out2, st1)));
        assert(crate::parser::shunt_from(ts.skip(i + 1), out1, st1) == crate::parser::shunt_from(
            ts.skip(i + 2),
            out2,
            st1,
        ));
        let mul = op is Star || op is Slash;
        // How the stack pops, per state, and what the new output evaluates to.
        let ghost mut mid: Seq<Seq<char>> = Seq::empty();
        if st.len() == 0 {
            assert(pops == (Seq::<TokenV>::empty(), st));
            assert(out1 =~= out);
            mid = seq![term];
        } else if st.len() == 1 && (st[0] is Plus || st[0] is Minus) {
            let s = sum->Some_0.0;
            if mul {
                // The additive operator stays under the stronger one.
                assert(crate::token::spec_precedence(st.last()) == 2);
                assert(crate::token::spec_precedence(op) == 3);
                assert(pops == (Seq::<TokenV>::empty(), st));
                assert(out1 =~= out);
                mid = seq![s, term];
            } else {
                assert(crate::token::spec_is_operator(st[st.len() - 1]) && !(st[st.len() - 1]
                    is Caret));
                assert(crate::token::spec_precedence(st.last()) == 2);
                assert(crate::token::spec_precedence(op) == 2);
                assert(crate::token::spec_left_associated(op));
                assert(st.drop_last() =~= Seq::<TokenV>::empty());
                assert(crate::parser::pops_for_op(st.drop_last(), op) == (
                    Seq::<TokenV>::empty(),
                    st.drop_last(),
                ));
                assert(pops.0 == seq![st.last()] + crate::parser::pops_for_op(
                    st.drop_last(),
                    op,
                ).0);
                assert(pops.0 =~= seq![st[0]]);
                assert(pops.1 =~= Seq::<TokenV>::empty());
                assert(out1 =~= out.push(st[0]));
                lemma_es_push_op(out, st[0], seq![s, term]);
                assert(seq![s, term].take(0) =~= Seq::<Seq<char>>::empty());
                assert(Seq::<Seq<char>>::empty().push(apply_op(st[0], s, term)) =~= seq![
                    collapse(sum, term),
                ]);
                mid = seq![collapse(sum, term)];
            }
        } else if st.len() == 1 {
            // A multiplicative operator on top is popped by any of the four.
            let stk = eval_stack(out, Seq::empty())->Ok_0;
            assert(crate::token::spec_is_operator(st[st.len() - 1]) && !(st[st.len() - 1]
                is Caret));
            assert(crate::token::spec_precedence(st.last()) == 3);
            assert(crate::token::spec_left_associated(op));
            assert(st.drop_last() =~= Seq::<TokenV>::empty());
            assert(crate::parser::pops_for_op(st.drop_last(), op) == (
                Seq::<TokenV>::empty(),
                st.drop_last(),
            ));
            assert(pops.0 == seq![st.last()] + crate::parser::pops_for_op(st.drop_last(), op).0);
            assert(pops.0 =~= seq![st[0]]);
            assert(pops.1 =~= Seq::<TokenV>::empty());
            assert(out1 =~= out.push(st[0]));
            assert(stk.last() == stk[1]);
            lemma_es_push_op(out, st[0], stk);
            assert(stk.take(0) =~= Seq::<Seq<char>>::empty());
            assert(Seq::<Seq<char>>::empty().push(apply_op(st[0], stk[0], stk[1])) =~= seq![term]);
            mid = seq![term];
        } else {
            let s = sum->Some_0.0;
            let stk = eval_stack(out, Seq::empty())->Ok_0;
            assert(crate::token::spec_is_operator(st[st.len() - 1]) && !(st[st.len() - 1]
                is Caret));
            assert(crate::token::spec_precedence(st.last()) == 3);
            assert(crate::token::spec_left_associated(op));
            assert(st.drop_last() =~= seq![st[0]]);
            assert(pops.0 == seq![st.last()] + crate::parser::pops_for_op(st.drop_last(), op).0);
            assert(pops.1 == crate::parser::pops_for_op(st.drop_last(), op).1);
            assert(seq![st[0]].last() == st[0]);
            assert(stk.last() == stk[2]);
            lemma_es_push_op(out, st[1], stk);
            assert(stk.take(1) =~= seq![s]);
            assert(seq![s].push(apply_op(st[1], stk[1], stk[2])) =~= seq![s, term]);
            if mul {
                assert(crate::token::spec_precedence(seq![st[0]].last()) == 2);
                assert(crate::token::spec_precedence(op) == 3);
                assert(crate::parser::pops_for_op(seq![st[0]], op) == (
                    Seq::<TokenV>::empty(),
                    seq![st[0]],
                ));
                assert(pops.0 =~= seq![st[1]]);
                assert(pops.1 =~= seq![st[0]]);
                assert(out1 =~= out.push(st[1]));
                mid = seq![s, term];
            } else {
                assert(crate::token::spec_precedence(op) == 2);
                assert(seq![st[0]].drop_last() =~= Seq::<TokenV>::empty());
                assert(crate::parser::pops_for_op(seq![st[0]], op).0 == seq![st[0]]
                    + crate::parser::pops_for_op(seq![st[0]].drop_last(), op).0);
                assert(crate::parser::pops_for_op(seq![st[0]].drop_last(), op) == (
                    Seq::<TokenV>::empty(),
                    seq![st[0]].drop_last(),
                ));
                assert(pops.0 =~= seq![st[1], st[0]]);
                assert(pops.1 =~= Seq::<TokenV>::empty());
                assert(out1 =~= out.push(st[1]).push(st[0]));
                lemma_es_push_op(out.push(st[1]), st[0], seq![s, term]);
                assert(seq![s, term].take(0) =~= Seq::<Seq<char>>::empty());
                assert(Seq::<Seq<char>>::empty().push(apply_op(st[0], s, term)) =~= seq![
                    collapse(sum, term),
                ]);
                mid = seq![collapse(sum, term)];
            }
        }
        assert(eval_stack(out1, Seq::empty()) == Ok::<Seq<Seq<char>>, ErrorV>(mid));
        lemma_es_push_lit(out1, x, mid);
        assert(eval_stack(out2, Seq::empty()) == Ok::<Seq<Seq<char>>, ErrorV>(mid.push(x)));
        assert(ops_only(out2)) by {
            lemma_pops_prefix_ops(st, op);
            assert forall|k: int| 0 <= k < out2.len() implies ((#[trigger] out2[k]) is Lit
                || crate::token::spec_is_operator(out2[k])) by {
                if k < out.len() {
                    assert(out2[k] == out[k]);
                } else if k < out1.len() {
                    assert(out2[k] == pops.0[k - out.len()]);
                }
            }
        }
        assert(flat_stack(st1)) by {
            lemma_pops_flat(st, op);
            assert forall|k: int| 0 <= k < st1.len() implies crate::token::spec_is_operator(
                #[trigger] st1[k],
            ) && !(st1[k] is Caret) by {
                if k < st1.len() - 1 {
                    assert(st1[k] == pops.1[k]);
                    assert(pops.1[k] == st[k]);
                }
            }
        }
        // Step the direct evaluation and recurse, or fall to the doomed path
        // on a division by zero.
        if mul {
            if op is Slash && crate::number::is_zero_num(x) {
                assert(mid.push(x).last() == x);
                lemma_es_push_divzero(out2, mid.push(x));
                assert(st1.last() == op);
                lemma_flat_doomed(ts, i + 2, out2, st1, ErrorV::DivisionByZero);
                assert(flat_eval_from(ts, i, sum, term) == Err::<Seq<char>, ErrorV>(
                    ErrorV::DivisionByZero,
                ));
            } else {
                let term2 = apply_op(op, term, x);
                let sum2 = if st.len() == 0 || st.len() == 1 && !(st[0] is Plus || st[0] is Minus) {
                    Option::<(Seq<char>, TokenV)>::None
                } else {
                    sum
                };
                assert(flat_state(out2, st1, sum2, term2)) by {
                    let stk2 = mid.push(x);
                    assert(stk2[mid.len() as int] == x);
                    if st.len() == 0 {
                        assert(st1 =~= seq![op]);
                        assert(stk2[0] == term && stk2[1] == x);
                    } else if st.len() == 1 && (st[0] is Plus || st[0] is Minus) {
                        assert(st1 =~= seq![st[0], op]);
                        assert(stk2[0] == mid[0] && stk2[1] == mid[1] && stk2[2] == x);
                    } else if st.len() == 1 {
                        assert(st1 =~= seq![op]);
                        assert(stk2[0] == term && stk2[1] == x);
                    } else {
                        assert(st1 =~= seq![st[0], op]);
                        assert(stk2[0] == mid[0] && stk2[1] == mid[1] && stk2[2] == x);
                    }
                }
                lemma_flat_from(ts, i + 2, out2, st1, sum2, term2);
                assert(flat_eval_from(ts, i, sum, term) == flat_eval_from(ts, i + 2, sum2, term2));
            }
        } else {
            let sum2 = Some((collapse(sum, term), op));
            assert(flat_state(out2, st1, sum2, x)) by {
                assert(st1 =~= seq![op]);
                if st.len() == 0 || st.len() == 1 && !(st[0] is Plus || st[0] is Minus) {
                    assert(collapse(sum, term) == term);
                }
                assert(mid.push(x) =~= seq![collapse(sum, term), x]);
            }
            lemma_flat_from(ts, i + 2, out2, st1, sum2, x);
            assert(flat_eval_from(ts, i, sum, term) == flat_eval_from(ts, i + 2, sum2, x));
        }
    }
}

/// The round trip for any well-formed flat infix expression — literals
/// alternating with the four left-associative binary operators: conversion to
/// postfix succeeds, and evaluating the converted sequence gives exactly the
/// direct left-to-right evaluation honoring precedence, division by zero
/// included.
pub proof fn lemma_flat_round_trip(ts: Seq<TokenV>, c: ConstantsV, rands: Seq<Seq<char>>)
    requires
        flat_expr(ts),
    ensures
        spec_infix_to_postfix(ts) matches Ok(res) && spec_eval(res, Seq::empty(), c, rands)
            == flat_eval(ts),
{
    let ee = Seq::<TokenV>::empty();
    assert(ts.len() >= 1);
    assert(ts[0] is Lit);
    let term = ts[0]->Lit_0;
    let out = seq![ts[0]];
    assert(ts.skip(0) =~= ts);
    assert(crate::parser::shunt_step(ee, ee, ts[0]) == Ok::<(Seq<TokenV>, Seq<TokenV>), ErrorV>(
        (ee.push(ts[0]), ee),
    ));
    assert(ts.drop_first() =~= ts.skip(1));
    assert(crate::parser::shunt_from(ts, ee, ee) == crate::parser::shunt_from(
        ts.skip(1),
        ee.push(ts[0]),
        ee,
    ));
    assert(ee.push(ts[0]) =~= out);
    assert(flat_state(out, ee, Option::<(Seq<char>, TokenV)>::None, term)) by {
        lemma_es_lit(term, Seq::empty());
        assert(out =~= seq![TokenV::Lit(term)]);
        assert(Seq::<Seq<char>>::empty().push(term) =~= seq![term]);
    }
    lemma_flat_from(ts, 1, out, ee, Option::<(Seq<char>, TokenV)>::None, term);
    let res = crate::parser::shunt_from(ts, ee, ee)->Ok_0;
    lemma_eval_as_stack(res, Seq::empty(), c, rands);
    match flat_eval_from(ts, 1, Option::<(Seq<char>, TokenV)>::None, term) {
        Ok(v) => {
            assert(eval_stack(res, Seq::empty()) == Ok::<Seq<Seq<char>>, ErrorV>(seq![v]));
            assert(seq![v].last() == v);
        },
        Err(_) => {},
    }
}

} // verus!



