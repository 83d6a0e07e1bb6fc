//! The interpreter: runs the `echo` statements of a token sequence.
//!
//! An `echo` statement takes three tokens: the keyword, the string literal to
//! print, and the token that ends it (the `;`). The interpreter steps over all
//! three at once, whatever the second and third are; a keyword that is not
//! followed by a string literal prints nothing. Every other token is stepped
//! over alone.

use vstd::prelude::*;
use crate::lexer::{lex, lex_spec};
use crate::token::{tokens_model, Expression, LexError, LexErrorModel, Token, TokenModel, Type};

verus! {

/// What running the tokens `ts` prints.
pub open spec fn eval_spec(ts: Seq<TokenModel>) -> Seq<char>
    decreases ts.len(),
{
    if ts.len() == 0 {
        seq![]
    } else if ts[0] is Echo {
        let printed = if ts.len() >= 2 && ts[1] is Str {
            ts[1]->Str_0
        } else {
            seq![]
        };
        let step = if ts.len() >= 3 {
            3
        } else {
            ts.len() as int
        };
        printed + eval_spec(ts.skip(step))
    } else {
        eval_spec(ts.drop_first())
    }
}

/// What lexing and then running the source text `s` gives: the printed text,
/// or the lexing error.
pub open spec fn run_spec(s: Seq<char>) -> Result<Seq<char>, LexErrorModel> {
    match lex_spec(s) {
        Ok(ts) => Ok(eval_spec(ts)),
        Err(e) => Err(e),
    }
}

/// Runs the `echo` statements of `tokens` and returns what they print.
pub fn interpret(tokens: &Vec<Token>) -> (r: String)
    ensures
        r@ == eval_spec(tokens_model(tokens@)),
{
    let ghost ts = tokens_model(tokens@);
    let mut output = String::new();
    let mut i: usize = 0;
    assert(ts.skip(0) =~= ts);
    assert(seq![] + eval_spec(ts) =~= eval_spec(ts));
    while i < tokens.len()
        invariant
            ts == tokens_model(tokens@),
            i <= tokens@.len(),
            eval_spec(ts) == output@ + eval_spec(ts.skip(i as int)),
        decreases tokens.len() - i,
    {
        let ghost rest = ts.skip(i as int);
        assert(rest[0] == tokens@[i as int]@);
        match &tokens[i] {
            Token::Expression(Expression::EchoExpression) => {
                let ghost before = output@;
                if i + 1 < tokens.len() {
                    assert(rest[1] == tokens@[i + 1]@);
                    if let Token::Type(Type::String(s)) = &tokens[i + 1] {
                        output.append(s.as_str());
                    }
                }
                let next = if tokens.len() - i >= 3 {
                    i + 3
                } else {
                    tokens.len()
                };
                assert(rest.skip(next - i) =~= ts.skip(next as int));
                assert(before + (output@.skip(before.len() as int) + eval_spec(ts.skip(next as int)))
                    =~= output@ + eval_spec(ts.skip(next as int)));
                assert(output@.skip(before.len() as int) + eval_spec(ts.skip(next as int))
                    =~= eval_spec(rest));
                i = next;
            },
            _ => {
                assert(rest.drop_first() =~= ts.skip(i + 1));
                i += 1;
            },
        }
    }
    assert(ts.skip(i as int) =~= seq![]);
    assert(output@ + seq![] =~= output@);
    output
}

/// Lexes the source text `input` and runs its `echo` statements. Returns what
/// they print, or the lexing error; nothing runs when lexing fails.
pub fn run(input: &String) -> (r: Result<String, LexError>)
    ensures
        match r {
            Ok(out) => run_spec(input@) == Ok::<Seq<char>, LexErrorModel>(out@),
            Err(e) => run_spec(input@) == Err::<Seq<char>, LexErrorModel>(e@),
        },
{
    match lex(input) {
        Ok(tokens) => Ok(interpret(&tokens)),
        Err(e) => Err(e),
    }
}

} // verus!
