//! A lexer and interpreter for a tiny scripting language made of
//! `echo "<text>";` statements and bare number or string literals.
//!
//! The lexer turns source text into [`Token`]s, and the interpreter walks the
//! tokens and collects the text of every `echo` statement. Both are proved
//! against the mathematical definitions in [`token`], [`lexer`] and
//! [`interpreter`].

pub mod token;
pub mod lexer;
pub mod interpreter;
pub mod laws;

pub use token::{Expression, LexError, Token, Type};
pub use lexer::{eat_expression, eat_string, get_number, lex};
pub use interpreter::{interpret, run};
