//! Properties of the language that hold of every input.

use vstd::prelude::*;
use crate::interpreter::{eval_spec, run_spec};
use crate::lexer::{
    decimal_value, digits_len, is_accepted, is_digit, lemma_digits_len_bounds, lex_spec, saturate,
};
use crate::token::{LexErrorModel, TokenModel};

verus! {

/// A text made of decimal digits alone, whose value fits in an `i64`, lexes
/// to exactly one number token holding that value.
pub proof fn lemma_digits_lex_to_one_number(s: Seq<char>)
    requires
        s.len() > 0,
        forall|i: int| 0 <= i < s.len() ==> is_digit(s[i]),
        decimal_value(s) <= i64::MAX,
    ensures
        lex_spec(s) == Ok::<Seq<TokenModel>, LexErrorModel>(
            seq![TokenModel::Num(decimal_value(s) as i64)],
        ),
{
    lemma_digits_len_bounds(s);
    lemma_all_digits_len(s);
    assert(s.take(s.len() as int) =~= s);
    assert(s.skip(s.len() as int) =~= seq![]);
    assert(lex_spec(s.skip(s.len() as int)) == Ok::<Seq<TokenModel>, LexErrorModel>(seq![]));
    assert(saturate(decimal_value(s)) == decimal_value(s) as i64);
    assert(seq![TokenModel::Num(decimal_value(s) as i64)] + seq![] =~= seq![
        TokenModel::Num(decimal_value(s) as i64),
    ]);
}

proof fn lemma_all_digits_len(s: Seq<char>)
    requires
        forall|i: int| 0 <= i < s.len() ==> is_digit(s[i]),
    ensures
        digits_len(s) == s.len(),
    decreases s.len(),
{
    if s.len() > 0 {
        assert forall|i: int| 0 <= i < s.drop_first().len() implies is_digit(s.drop_first()[i]) by {
            assert(s.drop_first()[i] == s[i + 1]);
        }
        lemma_all_digits_len(s.drop_first());
    }
}

/// A text that starts with a character that can start no token and is no
/// space fails to lex, with that character as the error; no tokens come out.
pub proof fn lemma_unexpected_character(s: Seq<char>)
    requires
        s.len() > 0,
        !is_accepted(s[0]),
    ensures
        lex_spec(s) == Err::<Seq<TokenModel>, LexErrorModel>(
            LexErrorModel::UnexpectedCharacter(s[0]),
        ),
        run_spec(s) == Err::<Seq<char>, LexErrorModel>(LexErrorModel::UnexpectedCharacter(s[0])),
{
}

/// Running the same text twice gives the same result: the outcome depends on
/// the text alone.
pub proof fn lemma_run_depends_on_text_alone(s1: Seq<char>, s2: Seq<char>)
    requires
        s1 == s2,
    ensures
        lex_spec(s1) == lex_spec(s2),
        run_spec(s1) == run_spec(s2),
{
}

/// The empty text lexes to no tokens, and running no tokens prints nothing.
pub proof fn lemma_empty_input()
    ensures
        lex_spec(seq![]) == Ok::<Seq<TokenModel>, LexErrorModel>(seq![]),
        eval_spec(seq![]) == Seq::<char>::empty(),
        run_spec(seq![]) == Ok::<Seq<char>, LexErrorModel>(seq![]),
{
}

/// A complete statement `echo "<text>";` in front of any tokens prints its
/// text, then whatever those tokens print.
pub proof fn lemma_echo_statement(text: Seq<char>, rest: Seq<TokenModel>)
    ensures
        eval_spec(seq![TokenModel::Echo, TokenModel::Str(text), TokenModel::Semicolon] + rest)
            == text + eval_spec(rest),
{
    let ts = seq![TokenModel::Echo, TokenModel::Str(text), TokenModel::Semicolon] + rest;
    assert(ts[0] is Echo);
    assert(ts[1] == TokenModel::Str(text));
    assert(ts.skip(3) =~= rest);
}

} // verus!
