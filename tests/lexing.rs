use echo_lang::{eat_expression, eat_string, get_number, lex, Expression, LexError, Token, Type};

fn chars(s: &str) -> Vec<char> {
    s.chars().collect()
}

#[test]
fn integer_parsing() {
    let result = lex(&"1234".to_owned());

    assert!(result.is_ok());

    assert_eq!(result.unwrap(), vec![Token::Type(Type::Number(1234))]);
}

#[test]
fn basic_output() {
    let result = lex(&"echo \"Hallo Welt\";".to_owned());

    assert!(result.is_ok());

    assert_eq!(
        result.unwrap(),
        vec![
            Token::Expression(Expression::EchoExpression),
            Token::Type(Type::String(String::from("Hallo Welt"))),
            Token::Semicolon
        ]
    );
}

#[test]
fn escaped_output() {
    let result = lex(&r##"echo "Hallo \\Welt";"##.to_owned());

    assert!(result.is_ok());

    assert_eq!(
        result.unwrap(),
        vec![
            Token::Expression(Expression::EchoExpression),
            Token::Type(Type::String(String::from("Hallo \\Welt"))),
            Token::Semicolon
        ]
    );
}

#[test]
fn empty_input_lexes_to_no_tokens() {
    assert_eq!(lex(&String::new()), Ok(vec![]));
}

#[test]
fn single_digit_number() {
    assert_eq!(lex(&"0".to_owned()), Ok(vec![Token::Type(Type::Number(0))]));
    assert_eq!(lex(&"7".to_owned()), Ok(vec![Token::Type(Type::Number(7))]));
}

#[test]
fn largest_number_is_exact() {
    assert_eq!(
        lex(&"9223372036854775807".to_owned()),
        Ok(vec![Token::Type(Type::Number(i64::MAX))])
    );
}

#[test]
fn too_large_number_saturates() {
    assert_eq!(
        lex(&"9223372036854775808".to_owned()),
        Ok(vec![Token::Type(Type::Number(i64::MAX))])
    );
    assert_eq!(
        lex(&"123456789012345678901234567890".to_owned()),
        Ok(vec![Token::Type(Type::Number(i64::MAX))])
    );
}

#[test]
fn numbers_separated_by_spaces() {
    assert_eq!(
        lex(&"12 034;".to_owned()),
        Ok(vec![
            Token::Type(Type::Number(12)),
            Token::Type(Type::Number(34)),
            Token::Semicolon
        ])
    );
}

#[test]
fn unexpected_plus() {
    assert_eq!(
        lex(&"+".to_owned()),
        Err(LexError::UnexpectedCharacter('+'))
    );
}

#[test]
fn unexpected_at_after_tokens() {
    assert_eq!(
        lex(&"echo \"x\" @;".to_owned()),
        Err(LexError::UnexpectedCharacter('@'))
    );
}

#[test]
fn upper_case_letter_is_unexpected() {
    assert_eq!(
        lex(&"Echo".to_owned()),
        Err(LexError::UnexpectedCharacter('E'))
    );
}

#[test]
fn unknown_word_is_an_error() {
    assert_eq!(
        lex(&"print \"x\";".to_owned()),
        Err(LexError::UnknownExpression(String::from("print")))
    );
}

#[test]
fn keyword_runs_to_the_next_space() {
    assert_eq!(
        lex(&"echo;".to_owned()),
        Err(LexError::UnknownExpression(String::from("echo;")))
    );
}

#[test]
fn escaped_quote_stays_in_the_string() {
    assert_eq!(
        lex(&r#""say \"hi\"""#.to_owned()),
        Ok(vec![Token::Type(Type::String(String::from("say \"hi\"")))])
    );
}

#[test]
fn unterminated_string_runs_to_the_end() {
    assert_eq!(
        lex(&"\"abc".to_owned()),
        Ok(vec![Token::Type(Type::String(String::from("abc")))])
    );
}

#[test]
fn trailing_backslash_is_dropped() {
    assert_eq!(
        lex(&"\"ab\\".to_owned()),
        Ok(vec![Token::Type(Type::String(String::from("ab")))])
    );
}

#[test]
fn string_keeps_any_character() {
    assert_eq!(
        lex(&"\"+@ A;ü\"".to_owned()),
        Ok(vec![Token::Type(Type::String(String::from("+@ A;ü")))])
    );
}

#[test]
fn error_messages() {
    assert_eq!(
        LexError::UnexpectedCharacter('+').message(),
        "unexpected character +"
    );
    assert_eq!(
        LexError::UnknownExpression(String::from("print")).message(),
        "unknown expression print"
    );
}

#[test]
fn eat_string_stops_after_closing_quote() {
    let cs = chars("x\"a\\\"b\" rest");
    assert_eq!(eat_string(&cs, 2), (Type::String(String::from("a\"b")), 7));
}

#[test]
fn eat_string_at_end_of_text() {
    let cs = chars("\"");
    assert_eq!(eat_string(&cs, 1), (Type::String(String::new()), 1));
}

#[test]
fn eat_expression_reads_one_word() {
    let cs = chars(" echo \"x\"");
    assert_eq!(eat_expression(&cs, 1), (Ok(Expression::EchoExpression), 5));
    let cs = chars("ec ho");
    assert_eq!(
        eat_expression(&cs, 0),
        (Err(LexError::UnknownExpression(String::from("ec"))), 2)
    );
}

#[test]
fn get_number_reads_the_digit_run() {
    let cs = chars("a4096;");
    assert_eq!(get_number(&cs, 1), (4096, 5));
}
