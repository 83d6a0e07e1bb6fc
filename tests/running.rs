use echo_lang::{interpret, lex, run, Expression, LexError, Token, Type};

fn echo() -> Token {
    Token::Expression(Expression::EchoExpression)
}

fn string(s: &str) -> Token {
    Token::Type(Type::String(String::from(s)))
}

#[test]
fn echo_prints_its_string() {
    let tokens = lex(&"echo \"1236\";".to_owned()).unwrap();
    assert_eq!(interpret(&tokens), "1236");
}

#[test]
fn empty_tokens_print_nothing() {
    assert_eq!(interpret(&vec![]), "");
    assert_eq!(run(&String::new()), Ok(String::new()));
}

#[test]
fn escaped_backslash_is_printed_once() {
    assert_eq!(
        run(&r##"echo "Hallo \\Welt";"##.to_owned()),
        Ok(String::from("Hallo \\Welt"))
    );
}

#[test]
fn statements_print_in_order() {
    assert_eq!(
        run(&"echo \"a\"; echo \"b\";echo \"c\";".to_owned()),
        Ok(String::from("abc"))
    );
}

#[test]
fn echo_of_a_number_prints_nothing() {
    assert_eq!(
        run(&"echo 5; echo \"x\";".to_owned()),
        Ok(String::from("x"))
    );
}

#[test]
fn bare_literals_print_nothing() {
    assert_eq!(run(&"\"a\"; 12; \"b\";".to_owned()), Ok(String::new()));
}

#[test]
fn echo_steps_over_the_token_after_its_literal() {
    let tokens = vec![echo(), string("a"), echo(), string("b")];
    assert_eq!(interpret(&tokens), "a");
    let tokens = vec![echo(), string("a"), Token::Semicolon, echo(), string("b")];
    assert_eq!(interpret(&tokens), "ab");
}

#[test]
fn echo_at_the_end_prints_nothing() {
    assert_eq!(interpret(&vec![string("a"), echo()]), "");
    assert_eq!(interpret(&vec![echo(), Token::Semicolon]), "");
}

#[test]
fn lex_error_stops_the_run() {
    assert_eq!(
        run(&"echo \"a\"; +".to_owned()),
        Err(LexError::UnexpectedCharacter('+'))
    );
    assert_eq!(
        run(&"say \"a\";".to_owned()),
        Err(LexError::UnknownExpression(String::from("say")))
    );
}

#[test]
fn running_twice_gives_the_same_output() {
    let input = "echo \"Hallo Welt\"; echo \"!\";".to_owned();
    let first = run(&input);
    let second = run(&input);
    assert_eq!(first, second);
    assert_eq!(first, Ok(String::from("Hallo Welt!")));
}
