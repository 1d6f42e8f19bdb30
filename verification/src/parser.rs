//! The tokenizer and the infix-to-postfix converter.
//!
//! `spec_tokenize` and `spec_infix_to_postfix` are the mathematical models;
//! the executable functions are proved to return exactly what the models say,
//! errors included.

use crate::error::CalculatorError;
use crate::error::ErrorV;
use crate::number::chars_of;
use crate::number::is_numeral;
use crate::number::num_from_numeral;
use crate::number::numeral_rest;
use crate::number::parse_num;
use crate::number::spec_digit;
use crate::token::spec_is_operator;
use crate::token::spec_left_associated;
use crate::token::spec_precedence;
use crate::token::Token;
use crate::token::TokenV;
use vstd::prelude::*;

verus! {

/// Whether a character has the Unicode `Alphabetic` property.
pub uninterp spec fn alphabetic_char(c: char) -> bool;

/// Relies on `char::is_alphabetic`: the Unicode `Alphabetic` property, a
/// fixed classification of each character.
pub assume_specification[ char::is_alphabetic ](c: char) -> (r: bool)
    ensures
        r == alphabetic_char(c),
;

/// Whether a character has the Unicode `White_Space` property.
pub uninterp spec fn whitespace_char(c: char) -> bool;

/// Relies on `char::is_whitespace`: the Unicode `White_Space` property, a
/// fixed classification of each character.
pub assume_specification[ char::is_whitespace ](c: char) -> (r: bool)
    ensures
        r == whitespace_char(c),
;

/// An ASCII letter.
pub open spec fn ascii_alpha(c: char) -> bool {
    (97 <= c as u32 && c as u32 <= 122) || (65 <= c as u32 && c as u32 <= 90)
}

fn is_ascii_alpha(c: char) -> (r: bool)
    ensures
        r == ascii_alpha(c),
{
    let u = c as u32;
    (97 <= u && u <= 122) || (65 <= u && u <= 90)
}

fn is_digit_char(c: char) -> (r: bool)
    ensures
        r == spec_digit(c),
{
    let u = c as u32;
    48 <= u && u <= 57
}

/// The token a single punctuation or operator character maps to, if any.
pub open spec fn spec_single_token(c: char) -> Option<TokenV> {
    if c == '+' {
        Some(TokenV::Plus)
    } else if c == '-' {
        Some(TokenV::Minus)
    } else if c == '*' {
        Some(TokenV::Star)
    } else if c == '/' {
        Some(TokenV::Slash)
    } else if c == '^' {
        Some(TokenV::Caret)
    } else if c == '(' {
        Some(TokenV::LeftParen)
    } else if c == ')' {
        Some(TokenV::RightParen)
    } else if c == ',' {
        Some(TokenV::Comma)
    } else {
        None
    }
}

fn single_token(c: char) -> (r: Option<Token>)
    ensures
        match r {
            Some(t) => spec_single_token(c) == Some(t@),
            None => spec_single_token(c) is None,
        },
{
    if c == '+' {
        Some(Token::Plus)
    } else if c == '-' {
        Some(Token::Minus)
    } else if c == '*' {
        Some(Token::Star)
    } else if c == '/' {
        Some(Token::Slash)
    } else if c == '^' {
        Some(Token::Caret)
    } else if c == '(' {
        Some(Token::LeftParen)
    } else if c == ')' {
        Some(Token::RightParen)
    } else if c == ',' {
        Some(Token::Comma)
    } else {
        None
    }
}

/// The length of the run of ASCII letters at the front of `s`.
pub open spec fn ident_run(s: Seq<char>) -> nat
    decreases s.len(),
{
    if s.len() > 0 && ascii_alpha(s[0]) {
        1 + ident_run(s.drop_first())
    } else {
        0
    }
}

pub proof fn lemma_ident_run_le(s: Seq<char>)
    ensures
        ident_run(s) <= s.len(),
    decreases s.len(),
{
    if s.len() > 0 && ascii_alpha(s[0]) {
        lemma_ident_run_le(s.drop_first());
    }
}

/// The length of the run of digits, with at most one decimal point, at the
/// front of `s`.
pub open spec fn numeral_run(s: Seq<char>, seen_dot: bool) -> nat
    decreases s.len(),
{
    if s.len() > 0 && (spec_digit(s[0]) || (s[0] == '.' && !seen_dot)) {
        1 + numeral_run(s.drop_first(), seen_dot || s[0] == '.')
    } else {
        0
    }
}

pub proof fn lemma_numeral_run_le(s: Seq<char>, seen_dot: bool)
    ensures
        numeral_run(s, seen_dot) <= s.len(),
    decreases s.len(),
{
    if s.len() > 0 && (spec_digit(s[0]) || (s[0] == '.' && !seen_dot)) {
        lemma_numeral_run_le(s.drop_first(), seen_dot || s[0] == '.');
    }
}

pub proof fn lemma_numeral_run_rest(s: Seq<char>, seen_dot: bool)
    ensures
        numeral_rest(s.take(numeral_run(s, seen_dot) as int), seen_dot),
    decreases s.len(),
{
    lemma_numeral_run_le(s, seen_dot);
    if s.len() > 0 && (spec_digit(s[0]) || (s[0] == '.' && !seen_dot)) {
        let n = numeral_run(s, seen_dot) as int;
        lemma_numeral_run_rest(s.drop_first(), seen_dot || s[0] == '.');
        assert(s.take(n).drop_first() =~= s.drop_first().take(n - 1));
    }
}

/// What the tokenizer produces on `s`: white space skipped; a run of
/// alphabetic characters is a name (a function call when `(` follows, else an
/// identifier); a run beginning with a digit is a literal read at the working
/// precision; single punctuation characters map to their tokens; anything
/// else is an error.
pub open spec fn spec_tokenize(s: Seq<char>) -> Result<Seq<TokenV>, ErrorV>
    decreases s.len(),
{
    if s.len() == 0 {
        Ok(Seq::empty())
    } else {
        let c = s[0];
        if whitespace_char(c) {
            spec_tokenize(s.drop_first())
        } else if alphabetic_char(c) {
            let n = 1 + ident_run(s.drop_first());
            proof {
                lemma_ident_run_le(s.drop_first());
            }
            let name = s.take(n as int);
            let rest = s.skip(n as int);
            let t = if rest.len() > 0 && rest[0] == '(' {
                TokenV::FnCall(name)
            } else {
                TokenV::Identifier(name)
            };
            match spec_tokenize(rest) {
                Ok(ts) => Ok(seq![t] + ts),
                Err(e) => Err(e),
            }
        } else if spec_digit(c) {
            let n = 1 + numeral_run(s.drop_first(), false);
            proof {
                lemma_numeral_run_le(s.drop_first(), false);
            }
            match spec_tokenize(s.skip(n as int)) {
                Ok(ts) => Ok(seq![TokenV::Lit(parse_num(s.take(n as int)))] + ts),
                Err(e) => Err(e),
            }
        } else {
            match spec_single_token(c) {
                Some(t) => match spec_tokenize(s.drop_first()) {
                    Ok(ts) => Ok(seq![t] + ts),
                    Err(e) => Err(e),
                },
                None => Err(ErrorV::UnrecognizedCharacter(c)),
            }
        }
    }
}

/// The loop relation of the tokenizer: what the model says of the whole
/// text is what it says of the rest, appended to the tokens already made.
pub open spec fn tok_inv(full: Seq<char>, done: Seq<TokenV>, i: int) -> bool {
    match spec_tokenize(full.skip(i)) {
        Ok(ts) => spec_tokenize(full) == Ok::<Seq<TokenV>, ErrorV>(done + ts),
        Err(e) => spec_tokenize(full) == Err::<Seq<TokenV>, ErrorV>(e),
    }
}

proof fn lemma_tok_inv_step(full: Seq<char>, done: Seq<TokenV>, i: int, t: TokenV, j: int)
    requires
        tok_inv(full, done, i),
        spec_tokenize(full.skip(j)) matches Ok(ts) ==> spec_tokenize(full.skip(i))
            == Ok::<Seq<TokenV>, ErrorV>(seq![t] + ts),
        spec_tokenize(full.skip(j)) matches Err(e) ==> spec_tokenize(full.skip(i))
            == Err::<Seq<TokenV>, ErrorV>(e),
    ensures
        tok_inv(full, done.push(t), j),
{
    match spec_tokenize(full.skip(j)) {
        Ok(ts) => {
            assert(done + (seq![t] + ts) =~= done.push(t) + ts);
        },
        Err(_) => {},
    }
}

/// Convert a line of text into its token sequence: exactly what
/// `spec_tokenize` says, errors included.
pub fn tokenize(text: &str) -> (r: Result<Vec<Token>, CalculatorError>)
    ensures
        match r {
            Ok(ts) => spec_tokenize(text@) == Ok::<Seq<TokenV>, ErrorV>(ts.deep_view()),
            Err(e) => spec_tokenize(text@) == Err::<Seq<TokenV>, ErrorV>(e@),
        },
{
    let chars = chars_of(text);
    let n = chars.len();
    let mut tokens: Vec<Token> = Vec::new();
    let mut i: usize = 0;
    proof {
        assert(text@.skip(0) =~= text@);
        assert(tokens.deep_view() =~= Seq::<TokenV>::empty());
        match spec_tokenize(text@) {
            Ok(ts) => {
                assert(Seq::<TokenV>::empty() + ts =~= ts);
            },
            Err(_) => {},
        }
    }
    while i < n
        invariant
            i <= n,
            n == chars.len(),
            chars@ == text@,
            tok_inv(text@, tokens.deep_view(), i as int),
        decreases n - i,
    {
        let ghost s = text@.skip(i as int);
        let c = chars[i];
        proof {
            assert(s[0] == c);
            assert(s.drop_first() =~= text@.skip(i as int + 1));
        }
        if c.is_whitespace() {
            proof {
                assert(spec_tokenize(s) == spec_tokenize(text@.skip(i as int + 1)));
            }
            i = i + 1;
        } else if c.is_alphabetic() {
            // Collect the run of ASCII letters that continues the name.
            let mut j: usize = i + 1;
            while j < n && is_ascii_alpha(chars[j])
                invariant
                    i < j <= n,
                    n == chars.len(),
                    chars@ == text@,
                    ident_run(text@.skip(i as int + 1)) == (j - i - 1) + ident_run(
                        text@.skip(j as int),
                    ),
                decreases n - j,
            {
                proof {
                    assert(text@.skip(j as int)[0] == text@[j as int]);
                    assert(text@.skip(j as int).drop_first() =~= text@.skip(j as int + 1));
                }
                j = j + 1;
            }
            proof {
                if j < n {
                    assert(text@.skip(j as int)[0] == text@[j as int]);
                } else {
                    assert(text@.skip(j as int) =~= Seq::<char>::empty());
                }
                assert(ident_run(text@.skip(j as int)) == 0);
            }
            let ghost run: int = 1 + ident_run(s.drop_first()) as int;
            proof {
                assert(run == j - i);
            }
            // Copy the name out and decide between a call and an identifier.
            let mut namev: Vec<char> = Vec::new();
            let mut k: usize = i;
            while k < j
                invariant
                    i <= k <= j <= n,
                    n == chars.len(),
                    namev@ =~= chars@.subrange(i as int, k as int),
                decreases j - k,
            {
                namev.push(chars[k]);
                k = k + 1;
            }
            let name = string_from_chars(&namev);
            let tok = if j < n && chars[j] == '(' {
                Token::FnCall(name)
            } else {
                Token::Identifier(name)
            };
            let ghost old_deep = tokens.deep_view();
            tokens.push(tok);
            proof {
                assert(tokens.deep_view() =~= old_deep.push(tokens.deep_view().last()));
                assert(s.take(run) =~= chars@.subrange(i as int, j as int));
                assert(s.skip(run) =~= text@.skip(j as int));
                let rest = s.skip(run);
                let tv = tokens.deep_view().last();
                assert(tv == (if rest.len() > 0 && rest[0] == '(' {
                    TokenV::FnCall(s.take(run))
                } else {
                    TokenV::Identifier(s.take(run))
                }));
                match spec_tokenize(text@.skip(j as int)) {
                    Ok(ts) => {
                        assert(spec_tokenize(s) == Ok::<Seq<TokenV>, ErrorV>(seq![tv] + ts));
                    },
                    Err(e) => {
                        assert(spec_tokenize(s) == Err::<Seq<TokenV>, ErrorV>(e));
                    },
                }
                lemma_tok_inv_step(text@, old_deep, i as int, tv, j as int);
            }
            i = j;
        } else if is_digit_char(c) {
            // Collect digits and at most one decimal point.
            let mut j: usize = i + 1;
            let mut seen_dot: bool = false;
            while j < n && (is_digit_char(chars[j]) || (chars[j] == '.' && !seen_dot))
                invariant
                    i < j <= n,
                    n == chars.len(),
                    chars@ == text@,
                    numeral_run(text@.skip(i as int + 1), false) == (j - i - 1) + numeral_run(
                        text@.skip(j as int),
                        seen_dot,
                    ),
                decreases n - j,
            {
                proof {
                    assert(text@.skip(j as int)[0] == text@[j as int]);
                    assert(text@.skip(j as int).drop_first() =~= text@.skip(j as int + 1));
                }
                if chars[j] == '.' {
                    seen_dot = true;
                }
                j = j + 1;
            }
            proof {
                if j < n {
                    assert(text@.skip(j as int)[0] == text@[j as int]);
                } else {
                    assert(text@.skip(j as int) =~= Seq::<char>::empty());
                }
                assert(numeral_run(text@.skip(j as int), seen_dot) == 0);
            }
            let ghost run: int = 1 + numeral_run(s.drop_first(), false) as int;
            proof {
                assert(run == j - i);
            }
            let mut numv: Vec<char> = Vec::new();
            let mut k: usize = i;
            while k < j
                invariant
                    i <= k <= j <= n,
                    n == chars.len(),
                    numv@ =~= chars@.subrange(i as int, k as int),
                decreases j - k,
            {
                numv.push(chars[k]);
                k = k + 1;
            }
            proof {
                assert(numv@ =~= s.take(run));
                lemma_numeral_run_rest(s.drop_first(), false);
                assert(numv@.drop_first() =~= s.drop_first().take(
                    numeral_run(s.drop_first(), false) as int,
                ));
                assert(is_numeral(numv@));
            }
            let tok = Token::Lit(num_from_numeral(&numv));
            let ghost tv = tok@;
            let ghost old_deep = tokens.deep_view();
            tokens.push(tok);
            proof {
                assert(tokens.deep_view() =~= old_deep.push(tv));
                assert(tv == TokenV::Lit(parse_num(s.take(run))));
                assert(s.skip(run) =~= text@.skip(j as int));
                match spec_tokenize(text@.skip(j as int)) {
                    Ok(ts) => {
                        assert(spec_tokenize(s) == Ok::<Seq<TokenV>, ErrorV>(seq![tv] + ts));
                    },
                    Err(e) => {
                        assert(spec_tokenize(s) == Err::<Seq<TokenV>, ErrorV>(e));
                    },
                }
                lemma_tok_inv_step(text@, old_deep, i as int, tv, j as int);
            }
            i = j;
        } else {
            match single_token(c) {
                Some(tok) => {
                    let ghost tv = tok@;
                    let ghost old_deep = tokens.deep_view();
                    tokens.push(tok);
                    proof {
                        assert(tokens.deep_view() =~= old_deep.push(tv));
                        match spec_tokenize(text@.skip(i as int + 1)) {
                            Ok(ts) => {
                                assert(spec_tokenize(s) == Ok::<Seq<TokenV>, ErrorV>(
                                    seq![tv] + ts,
                                ));
                            },
                            Err(e) => {
                                assert(spec_tokenize(s) == Err::<Seq<TokenV>, ErrorV>(e));
                            },
                        }
                        lemma_tok_inv_step(text@, old_deep, i as int, tv, i as int + 1);
                    }
                    i = i + 1;
                },
                None => {
                    proof {
                        assert(spec_tokenize(s) == Err::<Seq<TokenV>, ErrorV>(
                            ErrorV::UnrecognizedCharacter(c),
                        ));
                    }
                    return Err(CalculatorError::UnrecognizedCharacter(c));
                },
            }
        }
    }
    proof {
        assert(text@.skip(n as int) =~= Seq::<char>::empty());
        match spec_tokenize(text@.skip(n as int)) {
            Ok(ts) => {
                assert(tokens.deep_view() + ts =~= tokens.deep_view());
            },
            Err(_) => {},
        }
    }
    Ok(tokens)
}

/// Relies on `String::from_iter`: the string holding exactly these
/// characters.
#[verifier::external_body]
fn string_from_chars(v: &Vec<char>) -> (r: String)
    ensures
        r@ == v@,
{
    v.iter().collect()
}

/// The operators the converter pops before pushing `t`: the longest run from
/// the top of the stack of tokens that are not an opening parenthesis and
/// bind at least as strongly as `t` (strictly, when `t` is right
/// associative).  Returns what moves to the output, in order, and the stack
/// that remains.
pub open spec fn pops_for_op(st: Seq<TokenV>, t: TokenV) -> (Seq<TokenV>, Seq<TokenV>)
    decreases st.len(),
{
    if st.len() > 0 && !(st.last() is LeftParen) && (spec_precedence(st.last())
        > spec_precedence(t) || (spec_precedence(st.last()) == spec_precedence(t)
        && spec_left_associated(t))) {
        let (m, r) = pops_for_op(st.drop_last(), t);
        (seq![st.last()] + m, r)
    } else {
        (Seq::empty(), st)
    }
}

/// Everything above the nearest opening parenthesis: what moves to the
/// output, in order, and the stack that remains (whose top, if anything
/// remains, is that parenthesis).
pub open spec fn pops_to_paren(st: Seq<TokenV>) -> (Seq<TokenV>, Seq<TokenV>)
    decreases st.len(),
{
    if st.len() > 0 && !(st.last() is LeftParen) {
        let (m, r) = pops_to_paren(st.drop_last());
        (seq![st.last()] + m, r)
    } else {
        (Seq::empty(), st)
    }
}

/// One step of the shunting-yard conversion: how one input token changes the
/// output sequence and the operator stack.
pub open spec fn shunt_step(out: Seq<TokenV>, st: Seq<TokenV>, t: TokenV) -> Result<
    (Seq<TokenV>, Seq<TokenV>),
    ErrorV,
> {
    if t is Lit || t is Identifier {
        Ok((out.push(t), st))
    } else if t is FnCall {
        Ok((out, st.push(t)))
    } else if spec_is_operator(t) {
        let (m, r) = pops_for_op(st, t);
        Ok((out + m, r.push(t)))
    } else if t is Comma {
        let (m, r) = pops_to_paren(st);
        Ok((out + m, r))
    } else if t is LeftParen {
        Ok((out, st.push(t)))
    } else {
        // A closing parenthesis.
        let (m, r) = pops_to_paren(st);
        if r.len() == 0 {
            Err(ErrorV::UnmatchedParentheses)
        } else {
            let r2 = r.drop_last();
            if r2.len() > 0 && r2.last() is FnCall {
                Ok((out + m + seq![r2.last()], r2.drop_last()))
            } else {
                Ok((out + m, r2))
            }
        }
    }
}

/// The rest of the conversion, starting from an output sequence and an
/// operator stack: when the input is exhausted, the stack is flushed to the
/// output, and a leftover opening parenthesis is an error.
pub open spec fn shunt_from(input: Seq<TokenV>, out: Seq<TokenV>, st: Seq<TokenV>) -> Result<
    Seq<TokenV>,
    ErrorV,
>
    decreases input.len(),
{
    if input.len() == 0 {
        if st.contains(TokenV::LeftParen) {
            Err(ErrorV::UnmatchedParentheses)
        } else {
            Ok(out + st.reverse())
        }
    } else {
        match shunt_step(out, st, input[0]) {
            Ok((out2, st2)) => shunt_from(input.drop_first(), out2, st2),
            Err(e) => Err(e),
        }
    }
}

/// What the converter produces on an infix token sequence.
pub open spec fn spec_infix_to_postfix(input: Seq<TokenV>) -> Result<Seq<TokenV>, ErrorV> {
    shunt_from(input, Seq::empty(), Seq::empty())
}

/// A token that may appear in a converted (postfix) sequence: a literal, an
/// identifier, a function call or an operator — never a parenthesis or a
/// comma.
pub open spec fn postfix_token(t: TokenV) -> bool {
    t is Lit || t is Identifier || t is FnCall || spec_is_operator(t)
}

/// Every token of the sequence may appear in a postfix sequence.
pub open spec fn all_postfix(ts: Seq<TokenV>) -> bool {
    forall|k: int| 0 <= k < ts.len() ==> postfix_token(#[trigger] ts[k])
}

/// A token the converter keeps on its operator stack.
pub open spec fn stack_token(t: TokenV) -> bool {
    t is FnCall || t is LeftParen || spec_is_operator(t)
}

/// Whether the converter pops the stack top before pushing operator `t`.
fn should_pop_for(stack: &Vec<Token>, t: &Token) -> (r: bool)
    ensures
        r == (stack.deep_view().len() > 0 && !(stack.deep_view().last() is LeftParen) && (
        spec_precedence(stack.deep_view().last()) > spec_precedence(t@) || (spec_precedence(
            stack.deep_view().last(),
        ) == spec_precedence(t@) && spec_left_associated(t@)))),
{
    if stack.len() == 0 {
        return false;
    }
    let top = &stack[stack.len() - 1];
    proof {
        assert(top@ == stack.deep_view().last());
    }
    if matches!(top, Token::LeftParen) {
        return false;
    }
    top.precedence() > t.precedence() || (top.precedence() == t.precedence()
        && t.left_associated())
}

/// Whether the stack still has something above an opening parenthesis.
fn top_not_paren(stack: &Vec<Token>) -> (r: bool)
    ensures
        r == (stack.deep_view().len() > 0 && !(stack.deep_view().last() is LeftParen)),
{
    if stack.len() == 0 {
        return false;
    }
    let top = &stack[stack.len() - 1];
    proof {
        assert(top@ == stack.deep_view().last());
    }
    !matches!(top, Token::LeftParen)
}

/// Rewrite an infix token sequence into postfix (reverse Polish) order:
/// exactly what `spec_infix_to_postfix` says, errors included; a converted
/// sequence holds only literals, identifiers, function calls and operators.
pub fn infix_to_postfix(tokens: Vec<Token>) -> (r: Result<Vec<Token>, CalculatorError>)
    ensures
        match r {
            Ok(v) => spec_infix_to_postfix(tokens.deep_view()) == Ok::<Seq<TokenV>, ErrorV>(
                v.deep_view(),
            ) && all_postfix(v.deep_view()),
            Err(e) => spec_infix_to_postfix(tokens.deep_view()) == Err::<Seq<TokenV>, ErrorV>(e@),
        },
{
    let ghost input = tokens.deep_view();
    let mut output: Vec<Token> = Vec::new();
    let mut stack: Vec<Token> = Vec::new();
    let n = tokens.len();
    let mut i: usize = 0;
    proof {
        assert(input.skip(0) =~= input);
        assert(output.deep_view() =~= Seq::<TokenV>::empty());
        assert(stack.deep_view() =~= Seq::<TokenV>::empty());
    }
    while i < n
        invariant
            i <= n,
            n == tokens.len(),
            input == tokens.deep_view(),
            shunt_from(input, Seq::empty(), Seq::empty()) == shunt_from(
                input.skip(i as int),
                output.deep_view(),
                stack.deep_view(),
            ),
            all_postfix(output.deep_view()),
            forall|k: int|
                0 <= k < stack.deep_view().len() ==> stack_token(#[trigger] stack.deep_view()[k]),
        decreases n - i,
    {
        let ghost out0 = output.deep_view();
        let ghost st0 = stack.deep_view();
        let t = &tokens[i];
        proof {
            assert(input.skip(i as int)[0] == t@);
            assert(input.skip(i as int).drop_first() =~= input.skip(i as int + 1));
        }
        if t.is_lit() || t.is_ident() {
            output.push(t.clone());
            proof {
                assert(output.deep_view() =~= out0.push(t@));
            }
        } else if t.is_function() {
            stack.push(t.clone());
            proof {
                assert(stack.deep_view() =~= st0.push(t@));
            }
        } else if t.is_operator() {
            let ghost mut moved: Seq<TokenV> = Seq::empty();
            proof {
                assert(out0 + moved =~= out0);
                assert(moved + pops_for_op(st0, t@).0 =~= pops_for_op(st0, t@).0);
            }
            while should_pop_for(&stack, t)
                invariant
                    output.deep_view() == out0 + moved,
                    all_postfix(output.deep_view()),
                    forall|k: int|
                        0 <= k < stack.deep_view().len() ==> stack_token(
                            #[trigger] stack.deep_view()[k],
                        ),
                    pops_for_op(st0, t@).0 == moved + pops_for_op(stack.deep_view(), t@).0,
                    pops_for_op(st0, t@).1 == pops_for_op(stack.deep_view(), t@).1,
                decreases stack.len(),
            {
                let ghost st_pre = stack.deep_view();
                let ghost out_pre = output.deep_view();
                let popped = stack.pop().unwrap();
                output.push(popped);
                proof {
                    assert(stack.deep_view() =~= st_pre.drop_last());
                    assert(output.deep_view() =~= out_pre.push(st_pre.last()));
                    assert(pops_for_op(st_pre, t@).0 == seq![st_pre.last()] + pops_for_op(
                        st_pre.drop_last(),
                        t@,
                    ).0);
                    assert(moved + (seq![st_pre.last()] + pops_for_op(stack.deep_view(), t@).0)
                        =~= moved.push(st_pre.last()) + pops_for_op(stack.deep_view(), t@).0);
                    moved = moved.push(st_pre.last());
                    assert(output.deep_view() =~= out0 + moved);
                }
            }
            proof {
                assert(pops_for_op(stack.deep_view(), t@).0 =~= Seq::<TokenV>::empty());
                assert(moved + Seq::<TokenV>::empty() =~= moved);
                assert(output.deep_view() == out0 + pops_for_op(st0, t@).0);
            }
            let ghost st_mid = stack.deep_view();
            stack.push(t.clone());
            proof {
                assert(stack.deep_view() =~= st_mid.push(t@));
            }
        } else if matches!(t, Token::Comma) {
            pop_to_paren(&mut output, &mut stack);
        } else if matches!(t, Token::LeftParen) {
            stack.push(t.clone());
            proof {
                assert(stack.deep_view() =~= st0.push(t@));
            }
        } else {
            // A closing parenthesis.
            pop_to_paren(&mut output, &mut stack);
            if stack.len() == 0 {
                proof {
                    assert(stack.deep_view().len() == 0);
                    assert(shunt_from(input.skip(i as int), out0, st0)
                        == Err::<Seq<TokenV>, ErrorV>(ErrorV::UnmatchedParentheses));
                }
                return Err(CalculatorError::UnmatchedParentheses);
            }
            let ghost st_mid = stack.deep_view();
            let ghost out_mid = output.deep_view();
            let _open = stack.pop().unwrap();
            proof {
                assert(stack.deep_view() =~= st_mid.drop_last());
            }
            let ghost st2 = stack.deep_view();
            let top_is_call = if stack.len() > 0 {
                let top = &stack[stack.len() - 1];
                proof {
                    assert(top@ == stack.deep_view().last());
                }
                matches!(top, Token::FnCall(_))
            } else {
                false
            };
            if top_is_call {
                let call = stack.pop().unwrap();
                output.push(call);
                proof {
                    assert(stack.deep_view() =~= st2.drop_last());
                    assert(output.deep_view() =~= out_mid.push(st2.last()));
                    assert(output.deep_view() =~= out_mid + seq![st2.last()]);
                }
            }
        }
        proof {
            assert(shunt_step(out0, st0, t@) == Ok::<(Seq<TokenV>, Seq<TokenV>), ErrorV>(
                (output.deep_view(), stack.deep_view()),
            ));
            assert(shunt_from(input.skip(i as int), out0, st0) == shunt_from(
                input.skip(i as int + 1),
                output.deep_view(),
                stack.deep_view(),
            ));
        }
        i = i + 1;
    }
    proof {
        assert(input.skip(n as int) =~= Seq::<TokenV>::empty());
        assert(shunt_from(input, Seq::empty(), Seq::empty()) == shunt_from(
            Seq::<TokenV>::empty(),
            output.deep_view(),
            stack.deep_view(),
        ));
    }
    // Flush the remaining operators; a leftover opening parenthesis means the
    // input was short of a closing one.
    while stack.len() > 0
        invariant
            input == tokens.deep_view(),
            all_postfix(output.deep_view()),
            forall|k: int|
                0 <= k < stack.deep_view().len() ==> stack_token(#[trigger] stack.deep_view()[k]),
            shunt_from(input, Seq::empty(), Seq::empty()) == (if stack.deep_view().contains(
                TokenV::LeftParen,
            ) {
                Err::<Seq<TokenV>, ErrorV>(ErrorV::UnmatchedParentheses)
            } else {
                Ok::<Seq<TokenV>, ErrorV>(output.deep_view() + stack.deep_view().reverse())
            }),
        decreases stack.len(),
    {
        let ghost st_pre = stack.deep_view();
        let ghost out_pre = output.deep_view();
        let tok = stack.pop().unwrap();
        if matches!(tok, Token::LeftParen) {
            proof {
                assert(st_pre.contains(TokenV::LeftParen)) by {
                    assert(st_pre[st_pre.len() - 1] == TokenV::LeftParen);
                }
            }
            return Err(CalculatorError::UnmatchedParentheses);
        }
        output.push(tok);
        proof {
            assert(stack.deep_view() =~= st_pre.drop_last());
            assert(output.deep_view() =~= out_pre.push(st_pre.last()));
            assert(st_pre.contains(TokenV::LeftParen) == stack.deep_view().contains(
                TokenV::LeftParen,
            )) by {
                if st_pre.contains(TokenV::LeftParen) {
                    let k = choose|k: int| 0 <= k < st_pre.len() && st_pre[k] == TokenV::LeftParen;
                    assert(k < st_pre.len() - 1);
                    assert(stack.deep_view()[k] == TokenV::LeftParen);
                }
                if stack.deep_view().contains(TokenV::LeftParen) {
                    let k = choose|k: int|
                        0 <= k < stack.deep_view().len() && stack.deep_view()[k]
                            == TokenV::LeftParen;
                    assert(st_pre[k] == TokenV::LeftParen);
                }
            }
            assert(out_pre + st_pre.reverse() =~= output.deep_view()
                + stack.deep_view().reverse());
        }
    }
    proof {
        assert(stack.deep_view().len() == 0);
        assert(!stack.deep_view().contains(TokenV::LeftParen));
        assert(output.deep_view() + stack.deep_view().reverse() =~= output.deep_view());
        assert(spec_infix_to_postfix(input) == Ok::<Seq<TokenV>, ErrorV>(output.deep_view()));
    }
    Ok(output)
}

/// Pop everything above the nearest opening parenthesis into the output.
fn pop_to_paren(output: &mut Vec<Token>, stack: &mut Vec<Token>)
    requires
        all_postfix(old(output).deep_view()),
        forall|k: int|
            0 <= k < old(stack).deep_view().len() ==> stack_token(
                #[trigger] old(stack).deep_view()[k],
            ),
    ensures
        final(output).deep_view() == old(output).deep_view() + pops_to_paren(
            old(stack).deep_view(),
        ).0,
        final(stack).deep_view() == pops_to_paren(old(stack).deep_view()).1,
        all_postfix(final(output).deep_view()),
        forall|k: int|
            0 <= k < final(stack).deep_view().len() ==> stack_token(
                #[trigger] final(stack).deep_view()[k],
            ),
{
    let ghost out0 = output.deep_view();
    let ghost st0 = stack.deep_view();
    let ghost mut moved: Seq<TokenV> = Seq::empty();
    proof {
        assert(out0 + moved =~= out0);
        assert(moved + pops_to_paren(st0).0 =~= pops_to_paren(st0).0);
    }
    while top_not_paren(stack)
        invariant
            output.deep_view() == out0 + moved,
            all_postfix(output.deep_view()),
            forall|k: int|
                0 <= k < stack.deep_view().len() ==> stack_token(#[trigger] stack.deep_view()[k]),
            pops_to_paren(st0).0 == moved + pops_to_paren(stack.deep_view()).0,
            pops_to_paren(st0).1 == pops_to_paren(stack.deep_view()).1,
        decreases stack.len(),
    {
        let ghost st_pre = stack.deep_view();
        let ghost out_pre = output.deep_view();
        let popped = stack.pop().unwrap();
        output.push(popped);
        proof {
            assert(stack.deep_view() =~= st_pre.drop_last());
            assert(output.deep_view() =~= out_pre.push(st_pre.last()));
            assert(pops_to_paren(st_pre).0 == seq![st_pre.last()] + pops_to_paren(
                st_pre.drop_last(),
            ).0);
            assert(moved + (seq![st_pre.last()] + pops_to_paren(stack.deep_view()).0)
                =~= moved.push(st_pre.last()) + pops_to_paren(stack.deep_view()).0);
            moved = moved.push(st_pre.last());
            assert(output.deep_view() =~= out0 + moved);
        }
    }
    proof {
        assert(pops_to_paren(stack.deep_view()).0 =~= Seq::<TokenV>::empty());
        assert(moved + Seq::<TokenV>::empty() =~= moved);
        assert(output.deep_view() == out0 + pops_to_paren(st0).0);
    }
}

} // verus!
