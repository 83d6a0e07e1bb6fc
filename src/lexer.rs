//! The lexer: from source text to a sequence of tokens.
//!
//! The text is read in one forward pass. A `"` opens a string literal, a
//! lower-case letter opens a word, a digit opens a number, a space is
//! skipped and a `;` is a token of its own. Any other character stops the
//! pass with [`LexError::UnexpectedCharacter`]. A word runs up to the next
//! space, whatever it holds, and must be the keyword `echo`; any other word
//! stops the pass with [`LexError::UnknownExpression`].
//!
//! Numbers saturate: a literal above `i64::MAX` reads as `i64::MAX`.

use vstd::prelude::*;
use crate::token::{
    push_char, lex_result_model, tokens_model, Expression, LexError, LexErrorModel, Token, TokenModel, Type,
};

verus! {

pub open spec fn is_lower(c: char) -> bool {
    'a' <= c && c <= 'z'
}

pub open spec fn is_digit(c: char) -> bool {
    '0' <= c && c <= '9'
}

/// Whether `c` can start a token or be skipped between tokens.
pub open spec fn is_accepted(c: char) -> bool {
    c == '"' || is_lower(c) || is_digit(c) || c == ' ' || c == ';'
}

pub open spec fn digit_value(c: char) -> int {
    c as int - '0' as int
}

/// The number that a sequence of decimal digits denotes.
pub open spec fn decimal_value(d: Seq<char>) -> int
    decreases d.len(),
{
    if d.len() == 0 {
        0
    } else {
        decimal_value(d.drop_last()) * 10 + digit_value(d.last())
    }
}

/// `v` as an `i64`, with values above `i64::MAX` cut down to it.
pub open spec fn saturate(v: int) -> i64 {
    if v > i64::MAX {
        i64::MAX
    } else {
        v as i64
    }
}

/// The length of the run of characters other than a space at the start of `s`.
pub open spec fn word_len(s: Seq<char>) -> nat
    decreases s.len(),
{
    if s.len() == 0 || s[0] == ' ' {
        0
    } else {
        1 + word_len(s.drop_first())
    }
}

/// The length of the run of digits at the start of `s`.
pub open spec fn digits_len(s: Seq<char>) -> nat
    decreases s.len(),
{
    if s.len() == 0 || !is_digit(s[0]) {
        0
    } else {
        1 + digits_len(s.drop_first())
    }
}

/// The body of a string literal that starts at `s`, just after its opening
/// quote: its content, and how many characters it takes, the closing quote
/// included. A backslash stands for the character after it, whatever that
/// is; a backslash at the very end stands for nothing. Without a closing
/// quote the literal runs to the end of the text.
pub open spec fn string_body(s: Seq<char>) -> (Seq<char>, nat)
    decreases s.len(),
{
    if s.len() == 0 {
        (seq![], 0)
    } else if s[0] == '"' {
        (seq![], 1)
    } else if s[0] == '\\' && s.len() == 1 {
        (seq![], 1)
    } else if s[0] == '\\' {
        let rest = string_body(s.skip(2));
        (seq![s[1]] + rest.0, rest.1 + 2)
    } else {
        let rest = string_body(s.drop_first());
        (seq![s[0]] + rest.0, rest.1 + 1)
    }
}

/// The only keyword of the language.
pub open spec fn echo_word() -> Seq<char> {
    seq!['e', 'c', 'h', 'o']
}

/// `t` in front of the tokens of `r`, or the error of `r`.
pub open spec fn prepend(t: TokenModel, r: Result<Seq<TokenModel>, LexErrorModel>) -> Result<
    Seq<TokenModel>,
    LexErrorModel,
> {
    match r {
        Ok(ts) => Ok(seq![t] + ts),
        Err(e) => Err(e),
    }
}

/// The tokens of `acc` in front of the tokens of `r`, or the error of `r`.
pub open spec fn append_all(acc: Seq<TokenModel>, r: Result<Seq<TokenModel>, LexErrorModel>) -> Result<
    Seq<TokenModel>,
    LexErrorModel,
> {
    match r {
        Ok(ts) => Ok(acc + ts),
        Err(e) => Err(e),
    }
}

/// What lexing the text `s` gives: its tokens, or the first error.
pub open spec fn lex_spec(s: Seq<char>) -> Result<Seq<TokenModel>, LexErrorModel>
    decreases s.len(),
    via lex_spec_decreases
{
    if s.len() == 0 {
        Ok(seq![])
    } else {
        let c = s[0];
        if c == '"' {
            let body = string_body(s.drop_first());
            prepend(TokenModel::Str(body.0), lex_spec(s.skip(1 + body.1 as int)))
        } else if is_lower(c) {
            let w = s.take(word_len(s) as int);
            if w == echo_word() {
                prepend(TokenModel::Echo, lex_spec(s.skip(word_len(s) as int)))
            } else {
                Err(LexErrorModel::UnknownExpression(w))
            }
        } else if is_digit(c) {
            let n = digits_len(s) as int;
            prepend(TokenModel::Num(saturate(decimal_value(s.take(n)))), lex_spec(s.skip(n)))
        } else if c == ' ' {
            lex_spec(s.drop_first())
        } else if c == ';' {
            prepend(TokenModel::Semicolon, lex_spec(s.drop_first()))
        } else {
            Err(LexErrorModel::UnexpectedCharacter(c))
        }
    }
}

#[via_fn]
proof fn lex_spec_decreases(s: Seq<char>) {
    if s.len() > 0 {
        lemma_string_body_len(s.drop_first());
        lemma_word_len_bounds(s);
        lemma_digits_len_bounds(s);
    }
}

pub proof fn lemma_string_body_len(s: Seq<char>)
    ensures
        string_body(s).1 <= s.len(),
        s.len() > 0 ==> string_body(s).1 > 0,
    decreases s.len(),
{
    if s.len() > 1 && s[0] == '\\' {
        lemma_string_body_len(s.skip(2));
    } else if s.len() > 0 && s[0] != '"' && s[0] != '\\' {
        lemma_string_body_len(s.drop_first());
    }
}

pub proof fn lemma_word_len_bounds(s: Seq<char>)
    ensures
        word_len(s) <= s.len(),
        s.len() > 0 && s[0] != ' ' ==> word_len(s) > 0,
        forall|i: int| 0 <= i < word_len(s) ==> s[i] != ' ',
    decreases s.len(),
{
    if s.len() > 0 && s[0] != ' ' {
        lemma_word_len_bounds(s.drop_first());
        assert forall|i: int| 0 <= i < word_len(s) implies s[i] != ' ' by {
            if i > 0 {
                assert(s[i] == s.drop_first()[i - 1]);
            }
        }
    }
}

pub proof fn lemma_digits_len_bounds(s: Seq<char>)
    ensures
        digits_len(s) <= s.len(),
        s.len() > 0 && is_digit(s[0]) ==> digits_len(s) > 0,
        forall|i: int| 0 <= i < digits_len(s) ==> is_digit(s[i]),
        digits_len(s) < s.len() ==> !is_digit(s[digits_len(s) as int]),
    decreases s.len(),
{
    if s.len() > 0 && is_digit(s[0]) {
        lemma_digits_len_bounds(s.drop_first());
        assert forall|i: int| 0 <= i < digits_len(s) implies is_digit(s[i]) by {
            if i > 0 {
                assert(s[i] == s.drop_first()[i - 1]);
            }
        }
    }
}

pub proof fn lemma_decimal_value_nonneg(d: Seq<char>)
    requires
        forall|i: int| 0 <= i < d.len() ==> is_digit(d[i]),
    ensures
        decimal_value(d) >= 0,
    decreases d.len(),
{
    if d.len() > 0 {
        lemma_decimal_value_nonneg(d.drop_last());
    }
}

/// `acc` with `t` after it, in front of `r`, is `acc` in front of `t` in front of `r`.
proof fn lemma_append_prepend(
    acc: Seq<TokenModel>,
    t: TokenModel,
    r: Result<Seq<TokenModel>, LexErrorModel>,
)
    ensures
        append_all(acc.push(t), r) == append_all(acc, prepend(t, r)),
{
    if let Ok(ts) = r {
        assert(acc.push(t) + ts =~= acc + (seq![t] + ts));
    }
}

/// The characters of `s`, in order.
fn chars_of(s: &str) -> (r: Vec<char>)
    ensures
        r@ == s@,
{
    let mut v: Vec<char> = Vec::new();
    for c in it: s.chars()
        invariant
            v@ == it.seq().take(it.index() as int),
    {
        v.push(c);
    }
    assert(v@ =~= s@);
    v
}

/// Scans the body of a string literal that starts at `pos`, just after its
/// opening quote. Returns the literal and the position after its closing
/// quote (or the end of the text).
pub fn eat_string(chars: &Vec<char>, pos: usize) -> (r: (Type, usize))
    requires
        pos <= chars@.len(),
    ensures
        r.0 is String,
        r.0->String_0@ == string_body(chars@.skip(pos as int)).0,
        r.1 == pos + string_body(chars@.skip(pos as int)).1,
{
    let mut s = String::new();
    let mut i: usize = pos;
    let mut closed = false;
    while i < chars.len() && !closed
        invariant
            pos <= i <= chars@.len(),
            closed ==> string_body(chars@.skip(pos as int)).0 == s@,
            closed ==> string_body(chars@.skip(pos as int)).1 == i - pos,
            !closed ==> string_body(chars@.skip(pos as int)).0 == s@ + string_body(
                chars@.skip(i as int),
            ).0,
            !closed ==> string_body(chars@.skip(pos as int)).1 == (i - pos) + string_body(
                chars@.skip(i as int),
            ).1,
        decreases chars.len() - i,
    {
        let c = chars[i];
        let ghost rest = chars@.skip(i as int);
        assert(rest[0] == c);
        if c == '"' {
            assert(s@ + seq![] =~= s@);
            i += 1;
            closed = true;
        } else if c == '\\' {
            if i + 1 < chars.len() {
                assert(rest.skip(2) =~= chars@.skip(i + 2));
                assert(rest[1] == chars@[i + 1]);
                let ghost old_s = s@;
                push_char(&mut s, chars[i + 1]);
                assert(old_s + (seq![chars@[i + 1]] + string_body(rest.skip(2)).0) =~= s@
                    + string_body(rest.skip(2)).0);
                i += 2;
            } else {
                assert(s@ + seq![] =~= s@);
                i += 1;
                closed = true;
            }
        } else {
            assert(rest.drop_first() =~= chars@.skip(i + 1));
            let ghost old_s = s@;
            push_char(&mut s, c);
            assert(old_s + (seq![c] + string_body(rest.drop_first()).0) =~= s@ + string_body(
                rest.drop_first(),
            ).0);
            i += 1;
        }
    }
    proof {
        if !closed {
            assert(chars@.skip(i as int).len() == 0);
            assert(s@ + seq![] =~= s@);
        }
    }
    (Type::String(s), i)
}

/// Scans the word that starts at `pos`: the run of characters up to the next
/// space or the end of the text. Returns the keyword it spells, or
/// [`LexError::UnknownExpression`], and the position after the word.
pub fn eat_expression(chars: &Vec<char>, pos: usize) -> (r: (Result<Expression, LexError>, usize))
    requires
        pos <= chars@.len(),
    ensures
        r.1 == pos + word_len(chars@.skip(pos as int)),
        r.1 <= chars@.len(),
        r.0 is Ok <==> chars@.subrange(pos as int, r.1 as int) == echo_word(),
        r.0 is Ok ==> r.0->Ok_0 == Expression::EchoExpression,
        r.0 is Err ==> r.0->Err_0@ == LexErrorModel::UnknownExpression(
            chars@.subrange(pos as int, r.1 as int),
        ),
{
    let mut word = String::new();
    let mut i: usize = pos;
    proof {
        lemma_word_len_bounds(chars@.skip(pos as int));
    }
    while i < chars.len() && chars[i] != ' '
        invariant
            pos <= i <= chars@.len(),
            word@ == chars@.subrange(pos as int, i as int),
            word_len(chars@.skip(pos as int)) == (i - pos) + word_len(chars@.skip(i as int)),
        decreases chars.len() - i,
    {
        assert(chars@.skip(i as int).drop_first() =~= chars@.skip(i + 1));
        push_char(&mut word, chars[i]);
        i += 1;
        assert(word@ =~= chars@.subrange(pos as int, i as int));
    }
    let echo = String::from_str("echo");
    proof {
        reveal_strlit("echo");
        assert(echo@ =~= echo_word());
    }
    if word == echo {
        (Ok(Expression::EchoExpression), i)
    } else {
        (Err(LexError::UnknownExpression(word)), i)
    }
}

/// Scans the run of digits that starts at `pos`. Returns its value, cut down
/// to `i64::MAX` where it is larger, and the position after the run.
pub fn get_number(chars: &Vec<char>, pos: usize) -> (r: (i64, usize))
    requires
        pos < chars@.len(),
        is_digit(chars@[pos as int]),
    ensures
        r.1 == pos + digits_len(chars@.skip(pos as int)),
        r.1 <= chars@.len(),
        r.0 == saturate(decimal_value(chars@.subrange(pos as int, r.1 as int))),
{
    let mut number: i64 = 0;
    let mut i: usize = pos;
    proof {
        lemma_digits_len_bounds(chars@.skip(pos as int));
        assert(chars@.subrange(pos as int, pos as int) =~= seq![]);
    }
    while i < chars.len() && '0' <= chars[i] && chars[i] <= '9'
        invariant
            pos <= i <= chars@.len(),
            forall|j: int| pos <= j < i ==> is_digit(chars@[j]),
            number == saturate(decimal_value(chars@.subrange(pos as int, i as int))),
            digits_len(chars@.skip(pos as int)) == (i - pos) + digits_len(chars@.skip(i as int)),
        decreases chars.len() - i,
    {
        let c = chars[i];
        let d = (c as u32 - '0' as u32) as i64;
        let ghost before = chars@.subrange(pos as int, i as int);
        let ghost after = chars@.subrange(pos as int, i + 1);
        proof {
            assert(chars@.skip(i as int).drop_first() =~= chars@.skip(i + 1));
            assert(after.drop_last() =~= before);
            assert(decimal_value(after) == decimal_value(before) * 10 + d);
            lemma_decimal_value_nonneg(before);
        }
        number = match number.checked_mul(10) {
            Some(m) => match m.checked_add(d) {
                Some(x) => x,
                None => i64::MAX,
            },
            None => i64::MAX,
        };
        i += 1;
    }
    (number, i)
}

/// Lexes the source text `input` into its tokens.
///
/// Fails with the first character that starts no token, or with the first
/// word that is no keyword; no tokens are returned then.
pub fn lex(input: &String) -> (r: Result<Vec<Token>, LexError>)
    ensures
        lex_result_model(r) == lex_spec(input@),
{
    let chars = chars_of(input.as_str());
    let mut result: Vec<Token> = Vec::new();
    let mut i: usize = 0;
    assert(chars@.skip(0) =~= chars@);
    assert(tokens_model(result@) =~= seq![]);
    assert(seq![] + lex_spec(input@)->Ok_0 =~= lex_spec(input@)->Ok_0);
    while i < chars.len()
        invariant
            i <= chars@.len(),
            chars@ == input@,
            lex_spec(input@) == append_all(tokens_model(result@), lex_spec(chars@.skip(i as int))),
        decreases chars.len() - i,
    {
        let c = chars[i];
        let ghost rest = chars@.skip(i as int);
        let ghost before = result@;
        assert(rest[0] == c);
        assert(rest.drop_first() =~= chars@.skip(i + 1));
        if c == '"' {
            let (t, next) = eat_string(&chars, i + 1);
            proof {
                lemma_string_body_len(chars@.skip(i + 1));
                assert(rest.skip(1 + string_body(rest.drop_first()).1 as int) =~= chars@.skip(
                    next as int,
                ));
                lemma_append_prepend(tokens_model(result@), TokenModel::Str(t->String_0@),
                    lex_spec(chars@.skip(next as int)));
            }
            let ghost t_model = Token::Type(t)@;
            result.push(Token::Type(t));
            assert(tokens_model(result@) =~= tokens_model(before).push(t_model));
            i = next;
        } else if 'a' <= c && c <= 'z' {
            let (e, next) = eat_expression(&chars, i);
            assert(rest.take(word_len(rest) as int) =~= chars@.subrange(i as int, next as int));
            assert(rest.skip(word_len(rest) as int) =~= chars@.skip(next as int));
            match e {
                Ok(x) => {
                    proof {
                        lemma_append_prepend(tokens_model(result@), TokenModel::Echo,
                            lex_spec(chars@.skip(next as int)));
                    }
                    result.push(Token::Expression(x));
                    assert(tokens_model(result@) =~= tokens_model(before).push(
                        TokenModel::Echo,
                    ));
                    i = next;
                },
                Err(err) => {
                    return Err(err);
                },
            }
        } else if '0' <= c && c <= '9' {
            let (n, next) = get_number(&chars, i);
            assert(rest.take(digits_len(rest) as int) =~= chars@.subrange(i as int, next as int));
            assert(rest.skip(digits_len(rest) as int) =~= chars@.skip(next as int));
            proof {
                lemma_append_prepend(tokens_model(result@), TokenModel::Num(n),
                    lex_spec(chars@.skip(next as int)));
            }
            result.push(Token::Type(Type::Number(n)));
            assert(tokens_model(result@) =~= tokens_model(before).push(TokenModel::Num(n)));
            i = next;
        } else if c == ' ' {
            i += 1;
        } else if c == ';' {
            proof {
                lemma_append_prepend(tokens_model(result@), TokenModel::Semicolon,
                    lex_spec(chars@.skip(i + 1)));
            }
            result.push(Token::Semicolon);
            assert(tokens_model(result@) =~= tokens_model(before).push(
                TokenModel::Semicolon,
            ));
            i += 1;
        } else {
            return Err(LexError::UnexpectedCharacter(c));
        }
    }
    assert(chars@.skip(i as int) =~= seq![]);
    assert(tokens_model(result@) + seq![] =~= tokens_model(result@));
    Ok(result)
}

} // verus!
