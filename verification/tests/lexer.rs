use acc::lexer::{
    digit_of, drop_front, fixed_pattern, fixed_rule_token, fixed_token, fixed_width,
    identifier_token, literal_of, literal_token, parse, peek, skip, LexError, Token,
};

fn text(source: &str) -> String {
    source.to_string()
}

fn name(word: &str) -> Token {
    Token::Identifier(word.to_string())
}

#[test]
fn lexes_a_function_that_returns_a_constant() {
    let tokens = parse(text("int main() {\n    return 2;\n}\n")).unwrap();
    assert_eq!(
        tokens,
        vec![
            Token::KeywordInt,
            name("main"),
            Token::OpenParen,
            Token::CloseParen,
            Token::OpenBrace,
            Token::KeywordReturn,
            Token::IntegerLiteral(2),
            Token::Semicolon,
            Token::CloseBrace,
        ]
    );
}

#[test]
fn lexes_every_operator() {
    let tokens = parse(text("- + * / ! ~ && || == != < <= > >= =")).unwrap();
    assert_eq!(
        tokens,
        vec![
            Token::MinusSign,
            Token::PlusSign,
            Token::MultiplicationSign,
            Token::DivisionSign,
            Token::LogicalNegation,
            Token::BitwiseComplement,
            Token::And,
            Token::Or,
            Token::Equal,
            Token::NotEqual,
            Token::LessThan,
            Token::LessThanOrEqual,
            Token::GreaterThan,
            Token::GreaterThanOrEqual,
            Token::Assignment,
        ]
    );
}

#[test]
fn lexes_operators_without_spaces() {
    let tokens = parse(text("a<=b==c=1")).unwrap();
    assert_eq!(
        tokens,
        vec![
            name("a"),
            Token::LessThanOrEqual,
            name("b"),
            Token::Equal,
            name("c"),
            Token::Assignment,
            Token::IntegerLiteral(1),
        ]
    );
}

#[test]
fn lexes_a_declaration() {
    let tokens = parse(text("int a = 1 + 2 * 3;")).unwrap();
    assert_eq!(
        tokens,
        vec![
            Token::KeywordInt,
            name("a"),
            Token::Assignment,
            Token::IntegerLiteral(1),
            Token::PlusSign,
            Token::IntegerLiteral(2),
            Token::MultiplicationSign,
            Token::IntegerLiteral(3),
            Token::Semicolon,
        ]
    );
}

#[test]
fn empty_text_has_no_tokens() {
    assert_eq!(parse(text("")), Ok(vec![]));
    assert_eq!(parse(text("  \n\t ")), Ok(vec![]));
}

#[test]
fn white_space_between_tokens_is_dropped() {
    assert_eq!(
        parse(text(" \t( \n ) ")),
        Ok(vec![Token::OpenParen, Token::CloseParen])
    );
}

#[test]
fn a_keyword_takes_the_character_after_it() {
    assert_eq!(
        parse(text("return 5;")),
        Ok(vec![Token::KeywordReturn, Token::IntegerLiteral(5), Token::Semicolon])
    );
    assert_eq!(
        parse(text("int\tx")),
        Ok(vec![Token::KeywordInt, name("x")])
    );
}

#[test]
fn a_keyword_at_the_end_of_the_text_is_an_error() {
    assert_eq!(parse(text("int")), Err(LexError { leftover: text("int") }));
    assert_eq!(parse(text("x return")), Err(LexError { leftover: text("return") }));
}

#[test]
fn an_unknown_character_is_an_error() {
    assert_eq!(parse(text("1 + @")), Err(LexError { leftover: text("@") }));
    assert_eq!(parse(text("#")), Err(LexError { leftover: text("#") }));
}

#[test]
fn a_number_out_of_range_is_an_error() {
    assert_eq!(
        parse(text("9223372036854775807")),
        Ok(vec![Token::IntegerLiteral(9223372036854775807)])
    );
    assert_eq!(
        parse(text("9223372036854775808")),
        Err(LexError { leftover: text("9223372036854775808") })
    );
}

#[test]
fn digits_before_letters_are_a_number() {
    assert_eq!(parse(text("12ab")), Ok(vec![Token::IntegerLiteral(12), name("ab")]));
    assert_eq!(parse(text("ab12")), Ok(vec![name("ab12")]));
    assert_eq!(parse(text("a_b")), Ok(vec![name("a_b")]));
}

#[test]
fn from_string_gives_the_token_and_the_rest() {
    assert_eq!(Token::from_string("&& x"), Some((Token::And, " x")));
    assert_eq!(Token::from_string("42)"), Some((Token::IntegerLiteral(42), ")")));
    assert_eq!(Token::from_string("foo+1"), Some((name("foo"), "+1")));
    assert_eq!(Token::from_string("?"), None);
    assert_eq!(Token::from_string(""), None);
}

#[test]
fn rules_are_tried_in_order() {
    assert_eq!(fixed_pattern(0), "^\\{");
    assert_eq!(fixed_pattern(6), "^\\|\\|");
    assert_eq!(fixed_pattern(21), "^return");
    assert_eq!(fixed_token(7), Token::Equal);
    assert_eq!(fixed_token(19), Token::Assignment);
    assert_eq!(fixed_token(20), Token::KeywordInt);
    assert_eq!(fixed_width(7), 2);
    assert_eq!(fixed_width(10), 1);
    assert_eq!(fixed_width(20), 4);
    assert_eq!(fixed_width(21), 7);
}

#[test]
fn fixed_rule_token_drops_the_width_of_the_rule() {
    assert_eq!(fixed_rule_token(9, "<=1"), Some((Token::LessThanOrEqual, "1")));
    assert_eq!(fixed_rule_token(20, "int x"), Some((Token::KeywordInt, "x")));
    assert_eq!(fixed_rule_token(20, "int"), None);
    assert_eq!(fixed_rule_token(21, "return(1)"), Some((Token::KeywordReturn, "1)")));
}

#[test]
fn drop_front_counts_characters() {
    assert_eq!(drop_front("abc", 1), Some("bc"));
    assert_eq!(drop_front("abc", 3), Some(""));
    assert_eq!(drop_front("abc", 4), None);
    assert_eq!(drop_front("abc", 0), None);
    assert_eq!(drop_front("\u{e9}t\u{e9}", 1), Some("t\u{e9}"));
}

#[test]
fn literal_of_reads_decimal_digits() {
    assert_eq!(literal_of("0"), Some(0));
    assert_eq!(literal_of("007"), Some(7));
    assert_eq!(literal_of("1234567890"), Some(1234567890));
    assert_eq!(literal_of("9223372036854775807"), Some(i64::MAX));
    assert_eq!(literal_of("9223372036854775808"), None);
    assert_eq!(literal_of("99999999999999999999"), None);
    assert_eq!(literal_of(""), None);
    assert_eq!(literal_of("12a"), None);
    assert_eq!(literal_of("-1"), None);
    assert_eq!(literal_of("\u{661}"), None);
}

#[test]
fn literal_token_and_identifier_token_drop_what_was_found() {
    assert_eq!(literal_token("12", "12+3"), Some((Token::IntegerLiteral(12), "+3")));
    assert_eq!(literal_token("12", "1"), None);
    assert_eq!(identifier_token("ab", "ab;"), Some((name("ab"), ";")));
    assert_eq!(identifier_token("", "ab;"), None);
}

#[test]
fn a_digit_that_is_not_ascii_is_an_error() {
    assert_eq!(parse(text("\u{661}")), Err(LexError { leftover: text("\u{661}") }));
}

#[test]
fn digit_of_knows_the_ten_digits() {
    assert_eq!(digit_of('0'), Some(0));
    assert_eq!(digit_of('7'), Some(7));
    assert_eq!(digit_of('9'), Some(9));
    assert_eq!(digit_of('a'), None);
    assert_eq!(digit_of('/'), None);
    assert_eq!(digit_of(':'), None);
}

#[test]
fn peek_and_skip_walk_the_tokens() {
    let tokens = vec![Token::OpenParen, name("x"), Token::CloseParen];
    assert_eq!(peek(&tokens), Some(Token::OpenParen));
    assert_eq!(peek(skip(&tokens, 1)), Some(name("x")));
    assert_eq!(skip(&tokens, 2), &[Token::CloseParen]);
    assert_eq!(peek(skip(&tokens, 3)), None);
    assert_eq!(peek(&[]), None);
}

#[test]
fn a_copy_of_a_token_is_the_same_token() {
    for token in [name("abc"), Token::IntegerLiteral(-3), Token::Assignment, Token::Or] {
        assert_eq!(token.clone(), token);
    }
}
