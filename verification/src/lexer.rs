//! The tokenizer: from source text to lexical tokens.
//!
//! A token is recognized by the first rule, in a fixed order, whose pattern
//! matches at the front of the text. Patterns are regular expressions, and
//! the `regex` crate decides whether one matches. White space around tokens
//! is dropped.

use vstd::prelude::*;
use vstd::string::*;
use regex::Regex;

verus! {

/// A lexical token of the source language.
#[derive(Debug, PartialEq, Eq)]
pub enum Token {
    OpenBrace,
    CloseBrace,
    OpenParen,
    CloseParen,
    Semicolon,
    KeywordInt,
    KeywordReturn,
    Identifier(String),
    IntegerLiteral(i64),
    BitwiseComplement,
    LogicalNegation,
    MinusSign,
    PlusSign,
    MultiplicationSign,
    DivisionSign,
    And,
    Or,
    Equal,
    NotEqual,
    LessThan,
    LessThanOrEqual,
    GreaterThan,
    GreaterThanOrEqual,
    Assignment,
}

/// What a token says, with an identifier's name as a sequence of characters.
pub enum Lexeme {
    OpenBrace,
    CloseBrace,
    OpenParen,
    CloseParen,
    Semicolon,
    KeywordInt,
    KeywordReturn,
    Identifier(Seq<char>),
    IntegerLiteral(i64),
    BitwiseComplement,
    LogicalNegation,
    MinusSign,
    PlusSign,
    MultiplicationSign,
    DivisionSign,
    And,
    Or,
    Equal,
    NotEqual,
    LessThan,
    LessThanOrEqual,
    GreaterThan,
    GreaterThanOrEqual,
    Assignment,
}

impl View for Token {
    type V = Lexeme;

    open spec fn view(&self) -> Lexeme {
        match self {
            Token::OpenBrace => Lexeme::OpenBrace,
            Token::CloseBrace => Lexeme::CloseBrace,
            Token::OpenParen => Lexeme::OpenParen,
            Token::CloseParen => Lexeme::CloseParen,
            Token::Semicolon => Lexeme::Semicolon,
            Token::KeywordInt => Lexeme::KeywordInt,
            Token::KeywordReturn => Lexeme::KeywordReturn,
            Token::Identifier(name) => Lexeme::Identifier(name@),
            Token::IntegerLiteral(value) => Lexeme::IntegerLiteral(*value),
            Token::BitwiseComplement => Lexeme::BitwiseComplement,
            Token::LogicalNegation => Lexeme::LogicalNegation,
            Token::MinusSign => Lexeme::MinusSign,
            Token::PlusSign => Lexeme::PlusSign,
            Token::MultiplicationSign => Lexeme::MultiplicationSign,
            Token::DivisionSign => Lexeme::DivisionSign,
            Token::And => Lexeme::And,
            Token::Or => Lexeme::Or,
            Token::Equal => Lexeme::Equal,
            Token::NotEqual => Lexeme::NotEqual,
            Token::LessThan => Lexeme::LessThan,
            Token::LessThanOrEqual => Lexeme::LessThanOrEqual,
            Token::GreaterThan => Lexeme::GreaterThan,
            Token::GreaterThanOrEqual => Lexeme::GreaterThanOrEqual,
            Token::Assignment => Lexeme::Assignment,
        }
    }
}

impl Clone for Token {
    fn clone(&self) -> (r: Self)
        ensures
            r == *self,
    {
        match self {
            Token::OpenBrace => Token::OpenBrace,
            Token::CloseBrace => Token::CloseBrace,
            Token::OpenParen => Token::OpenParen,
            Token::CloseParen => Token::CloseParen,
            Token::Semicolon => Token::Semicolon,
            Token::KeywordInt => Token::KeywordInt,
            Token::KeywordReturn => Token::KeywordReturn,
            Token::Identifier(name) => Token::Identifier(name.clone()),
            Token::IntegerLiteral(value) => Token::IntegerLiteral(*value),
            Token::BitwiseComplement => Token::BitwiseComplement,
            Token::LogicalNegation => Token::LogicalNegation,
            Token::MinusSign => Token::MinusSign,
            Token::PlusSign => Token::PlusSign,
            Token::MultiplicationSign => Token::MultiplicationSign,
            Token::DivisionSign => Token::DivisionSign,
            Token::And => Token::And,
            Token::Or => Token::Or,
            Token::Equal => Token::Equal,
            Token::NotEqual => Token::NotEqual,
            Token::LessThan => Token::LessThan,
            Token::LessThanOrEqual => Token::LessThanOrEqual,
            Token::GreaterThan => Token::GreaterThan,
            Token::GreaterThanOrEqual => Token::GreaterThanOrEqual,
            Token::Assignment => Token::Assignment,
        }
    }
}

/// The token at the front of `tokens`, if there is one.
pub open spec fn head(tokens: Seq<Token>) -> Option<Token> {
    if tokens.len() > 0 {
        Some(tokens[0])
    } else {
        None
    }
}

/// A copy of the token at the front of `tokens`, if there is one.
pub fn peek(tokens: &[Token]) -> (r: Option<Token>)
    ensures
        r == head(tokens@),
{
    if tokens.len() > 0 {
        Some(tokens[0].clone())
    } else {
        None
    }
}

/// The tokens after the first `count`.
pub fn skip<'a>(tokens: &'a [Token], count: usize) -> (r: &'a [Token])
    requires
        count <= tokens@.len(),
    ensures
        r@ == tokens@.skip(count as int),
{
    vstd::slice::slice_subrange(tokens, count, tokens.len())
}

/// What the tokens say, one lexeme for each.
pub open spec fn lexemes(tokens: Seq<Token>) -> Seq<Lexeme> {
    tokens.map_values(|token: Token| token@)
}

/// The text could not be split into tokens: no rule matches at the front of
/// `leftover`, or the number at its front is too large to hold.
#[derive(Debug, PartialEq, Eq)]
pub struct LexError {
    pub leftover: String,
}

/// Whether the regular expression `pattern` matches somewhere in `text`,
/// as the `regex` crate decides. An invalid pattern matches nothing.
pub uninterp spec fn pattern_matches(pattern: Seq<char>, text: Seq<char>) -> bool;

/// The first match of the regular expression `pattern` in `text`, as the
/// `regex` crate finds it. An invalid pattern has no match.
pub uninterp spec fn pattern_find(pattern: Seq<char>, text: Seq<char>) -> Option<Seq<char>>;

/// The text without the white space at its two ends, as `str::trim` of the
/// standard library returns it.
pub uninterp spec fn trimmed(text: Seq<char>) -> Seq<char>;

/// Calls `Regex::new` and `Regex::is_match` of the `regex` crate. The
/// contract only names the answer.
#[verifier::external_body]
fn prefix_matches(pattern: &str, text: &str) -> (r: bool)
    ensures
        r == pattern_matches(pattern@, text@),
{
    match Regex::new(pattern) {
        Ok(regex) => regex.is_match(text),
        Err(_) => false,
    }
}

/// Calls `Regex::new`, `Regex::find` and `Match::as_str` of the `regex`
/// crate. The contract names the answer, and claims of it that the match,
/// which is a piece of `text`, is no longer than `text`.
#[verifier::external_body]
fn first_match<'a>(pattern: &str, text: &'a str) -> (r: Option<&'a str>)
    ensures
        match pattern_find(pattern@, text@) {
            Some(found) => r matches Some(piece) && piece@ == found,
            None => r is None,
        },
        r matches Some(piece) ==> piece@.len() <= text@.len(),
{
    match Regex::new(pattern) {
        Ok(regex) => match regex.find(text) {
            Some(found) => Some(found.as_str()),
            None => None,
        },
        Err(_) => None,
    }
}

/// Calls `str::trim` of the standard library. The contract names the
/// answer, and claims of it that the result, which is a piece of `text`, is
/// no longer than `text`.
#[verifier::external_body]
fn trim<'a>(text: &'a str) -> (r: &'a str)
    ensures
        r@ == trimmed(text@),
        r@.len() <= text@.len(),
{
    text.trim()
}

/// The number of rules with a fixed token.
pub const FIXED_RULES: usize = 22;

/// The pattern of a rule with a fixed token. The rules stand in the order
/// in which they are tried.
pub open spec fn rule_pattern(rule: int) -> Seq<char> {
    if rule == 0 {
        "^\\{"@
    } else if rule == 1 {
        "^\\}"@
    } else if rule == 2 {
        "^\\("@
    } else if rule == 3 {
        "^\\)"@
    } else if rule == 4 {
        "^;"@
    } else if rule == 5 {
        "^&&"@
    } else if rule == 6 {
        "^\\|\\|"@
    } else if rule == 7 {
        "^=="@
    } else if rule == 8 {
        "^!="@
    } else if rule == 9 {
        "^<="@
    } else if rule == 10 {
        "^<"@
    } else if rule == 11 {
        "^>="@
    } else if rule == 12 {
        "^>"@
    } else if rule == 13 {
        "^~"@
    } else if rule == 14 {
        "^!"@
    } else if rule == 15 {
        "^-"@
    } else if rule == 16 {
        "^\\+"@
    } else if rule == 17 {
        "^\\*"@
    } else if rule == 18 {
        "^/"@
    } else if rule == 19 {
        "^="@
    } else if rule == 20 {
        "^int"@
    } else {
        "^return"@
    }
}

/// What the token of a rule says.
pub open spec fn rule_lexeme(rule: int) -> Lexeme {
    if rule == 0 {
        Lexeme::OpenBrace
    } else if rule == 1 {
        Lexeme::CloseBrace
    } else if rule == 2 {
        Lexeme::OpenParen
    } else if rule == 3 {
        Lexeme::CloseParen
    } else if rule == 4 {
        Lexeme::Semicolon
    } else if rule == 5 {
        Lexeme::And
    } else if rule == 6 {
        Lexeme::Or
    } else if rule == 7 {
        Lexeme::Equal
    } else if rule == 8 {
        Lexeme::NotEqual
    } else if rule == 9 {
        Lexeme::LessThanOrEqual
    } else if rule == 10 {
        Lexeme::LessThan
    } else if rule == 11 {
        Lexeme::GreaterThanOrEqual
    } else if rule == 12 {
        Lexeme::GreaterThan
    } else if rule == 13 {
        Lexeme::BitwiseComplement
    } else if rule == 14 {
        Lexeme::LogicalNegation
    } else if rule == 15 {
        Lexeme::MinusSign
    } else if rule == 16 {
        Lexeme::PlusSign
    } else if rule == 17 {
        Lexeme::MultiplicationSign
    } else if rule == 18 {
        Lexeme::DivisionSign
    } else if rule == 19 {
        Lexeme::Assignment
    } else if rule == 20 {
        Lexeme::KeywordInt
    } else {
        Lexeme::KeywordReturn
    }
}

/// The number of characters that the token of a rule takes from the text.
/// A keyword takes the character after it as well.
pub open spec fn rule_width(rule: int) -> nat {
    if rule == 5 || rule == 6 || rule == 7 || rule == 8 || rule == 9 || rule == 11 {
        2
    } else if rule == 20 {
        4
    } else if rule == 21 {
        7
    } else {
        1
    }
}

/// The pattern that finds an integer literal.
pub open spec fn digits_pattern() -> Seq<char> {
    "^\\d+"@
}

/// The pattern that finds an identifier.
pub open spec fn word_pattern() -> Seq<char> {
    "^\\w+"@
}

/// The first rule from `from` on whose pattern matches `text`.
pub open spec fn first_rule(text: Seq<char>, from: int) -> Option<int>
    decreases FIXED_RULES - from,
{
    if from >= FIXED_RULES {
        None
    } else if pattern_matches(rule_pattern(from), text) {
        Some(from)
    } else {
        first_rule(text, from + 1)
    }
}

/// The text after its first `width` characters, where it has that many and
/// `width` is not zero.
pub open spec fn after(text: Seq<char>, width: nat) -> Option<Seq<char>> {
    if 0 < width <= text.len() {
        Some(text.skip(width as int))
    } else {
        None
    }
}

/// The value of a decimal digit.
pub open spec fn digit_value(c: char) -> Option<int> {
    if '0' <= c <= '9' {
        Some(c as int - '0' as int)
    } else {
        None
    }
}

/// The number that a sequence of decimal digits stands for. The empty
/// sequence stands for zero, and a sequence with anything but the digits
/// `0` to `9` in it stands for no number.
pub open spec fn digits_value(digits: Seq<char>) -> Option<int>
    decreases digits.len(),
{
    if digits.len() == 0 {
        Some(0)
    } else {
        match (digits_value(digits.drop_last()), digit_value(digits.last())) {
            (Some(front), Some(last)) => Some(10 * front + last),
            _ => None,
        }
    }
}

/// The value of an integer literal: the number that its digits stand for,
/// where there is a digit, all are decimal digits, and the number fits the
/// signed 64-bit range.
pub open spec fn literal_value(digits: Seq<char>) -> Option<i64> {
    match digits_value(digits) {
        Some(value) => {
            if digits.len() > 0 && value <= i64::MAX {
                Some(value as i64)
            } else {
                None
            }
        },
        None => None,
    }
}

/// What a token of a rule with a fixed token gives: the token and the text
/// after it.
pub open spec fn fixed(rule: int, text: Seq<char>) -> Option<(Lexeme, Seq<char>)> {
    match after(text, rule_width(rule)) {
        Some(rest) => Some((rule_lexeme(rule), rest)),
        None => None,
    }
}

/// What an integer literal with the digits `digits` gives.
pub open spec fn literal(digits: Seq<char>, text: Seq<char>) -> Option<(Lexeme, Seq<char>)> {
    match (literal_value(digits), after(text, digits.len())) {
        (Some(value), Some(rest)) => Some((Lexeme::IntegerLiteral(value), rest)),
        _ => None,
    }
}

/// What an identifier with the name `word` gives.
pub open spec fn identifier(word: Seq<char>, text: Seq<char>) -> Option<(Lexeme, Seq<char>)> {
    match after(text, word.len()) {
        Some(rest) => Some((Lexeme::Identifier(word), rest)),
        None => None,
    }
}

/// The token at the front of `text` and the text after it. The rules with
/// a fixed token come first, in their order, then the integer literal,
/// then the identifier.
pub open spec fn scan(text: Seq<char>) -> Option<(Lexeme, Seq<char>)> {
    match first_rule(text, 0) {
        Some(rule) => fixed(rule, text),
        None => match pattern_find(digits_pattern(), text) {
            Some(digits) => literal(digits, text),
            None => match pattern_find(word_pattern(), text) {
                Some(word) => identifier(word, text),
                None => None,
            },
        },
    }
}

/// The tokens of `text`, which has no white space at its ends, or the text
/// at which no token was found.
pub open spec fn lex(text: Seq<char>) -> Result<Seq<Lexeme>, Seq<char>>
    decreases text.len(),
{
    if text.len() == 0 {
        Ok(Seq::empty())
    } else {
        match scan(text) {
            Some((lexeme, rest)) => {
                if trimmed(rest).len() < text.len() {
                    match lex(trimmed(rest)) {
                        Ok(more) => Ok(seq![lexeme] + more),
                        Err(leftover) => Err(leftover),
                    }
                } else {
                    Err(text)
                }
            },
            None => Err(text),
        }
    }
}

/// The pattern of the rule numbered `rule`.
pub fn fixed_pattern(rule: usize) -> (r: &'static str)
    requires
        rule < FIXED_RULES,
    ensures
        r@ == rule_pattern(rule as int),
{
    if rule == 0 {
        "^\\{"
    } else if rule == 1 {
        "^\\}"
    } else if rule == 2 {
        "^\\("
    } else if rule == 3 {
        "^\\)"
    } else if rule == 4 {
        "^;"
    } else if rule == 5 {
        "^&&"
    } else if rule == 6 {
        "^\\|\\|"
    } else if rule == 7 {
        "^=="
    } else if rule == 8 {
        "^!="
    } else if rule == 9 {
        "^<="
    } else if rule == 10 {
        "^<"
    } else if rule == 11 {
        "^>="
    } else if rule == 12 {
        "^>"
    } else if rule == 13 {
        "^~"
    } else if rule == 14 {
        "^!"
    } else if rule == 15 {
        "^-"
    } else if rule == 16 {
        "^\\+"
    } else if rule == 17 {
        "^\\*"
    } else if rule == 18 {
        "^/"
    } else if rule == 19 {
        "^="
    } else if rule == 20 {
        "^int"
    } else {
        "^return"
    }
}

/// The token of the rule numbered `rule`.
pub fn fixed_token(rule: usize) -> (r: Token)
    requires
        rule < FIXED_RULES,
    ensures
        r@ == rule_lexeme(rule as int),
{
    if rule == 0 {
        Token::OpenBrace
    } else if rule == 1 {
        Token::CloseBrace
    } else if rule == 2 {
        Token::OpenParen
    } else if rule == 3 {
        Token::CloseParen
    } else if rule == 4 {
        Token::Semicolon
    } else if rule == 5 {
        Token::And
    } else if rule == 6 {
        Token::Or
    } else if rule == 7 {
        Token::Equal
    } else if rule == 8 {
        Token::NotEqual
    } else if rule == 9 {
        Token::LessThanOrEqual
    } else if rule == 10 {
        Token::LessThan
    } else if rule == 11 {
        Token::GreaterThanOrEqual
    } else if rule == 12 {
        Token::GreaterThan
    } else if rule == 13 {
        Token::BitwiseComplement
    } else if rule == 14 {
        Token::LogicalNegation
    } else if rule == 15 {
        Token::MinusSign
    } else if rule == 16 {
        Token::PlusSign
    } else if rule == 17 {
        Token::MultiplicationSign
    } else if rule == 18 {
        Token::DivisionSign
    } else if rule == 19 {
        Token::Assignment
    } else if rule == 20 {
        Token::KeywordInt
    } else {
        Token::KeywordReturn
    }
}

/// The number of characters that the token of the rule numbered `rule`
/// takes from the text.
pub fn fixed_width(rule: usize) -> (r: usize)
    ensures
        r == rule_width(rule as int),
{
    if rule == 5 || rule == 6 || rule == 7 || rule == 8 || rule == 9 || rule == 11 {
        2
    } else if rule == 20 {
        4
    } else if rule == 21 {
        7
    } else {
        1
    }
}

/// The text after its first `width` characters, where it has that many and
/// `width` is not zero.
pub fn drop_front<'a>(text: &'a str, width: usize) -> (r: Option<&'a str>)
    ensures
        match after(text@, width as nat) {
            Some(rest) => r matches Some(left) && left@ == rest,
            None => r is None,
        },
{
    let length = text.unicode_len();
    if 0 < width && width <= length {
        Some(text.substring_char(width, length))
    } else {
        None
    }
}

/// The token of the rule numbered `rule`, which matched at the front of
/// `text`, and the text after the token.
pub fn fixed_rule_token<'a>(rule: usize, text: &'a str) -> (r: Option<(Token, &'a str)>)
    requires
        rule < FIXED_RULES,
    ensures
        match fixed(rule as int, text@) {
            Some((lexeme, rest)) => r matches Some((token, left)) && token@ == lexeme && left@
                == rest,
            None => r is None,
        },
{
    match drop_front(text, fixed_width(rule)) {
        Some(rest) => Some((fixed_token(rule), rest)),
        None => None,
    }
}

/// The value of the decimal digit `c`, if it is one.
pub fn digit_of(c: char) -> (r: Option<i64>)
    ensures
        match digit_value(c) {
            Some(value) => r == Some(value as i64) && 0 <= value <= 9,
            None => r is None,
        },
{
    if '0' <= c && c <= '9' {
        Some((c as u32 - '0' as u32) as i64)
    } else {
        None
    }
}

/// The digits before a place of a sequence that stands for a number stand
/// for a number too, and for no larger one.
pub proof fn lemma_digits_prefix(digits: Seq<char>, k: int)
    requires
        0 <= k <= digits.len(),
    ensures
        digits_value(digits) matches Some(value) ==> digits_value(digits.take(k)) matches Some(
            front,
        ) && 0 <= front <= value,
    decreases digits.len(),
{
    if k == digits.len() {
        assert(digits.take(k) =~= digits);
        if digits.len() > 0 {
            lemma_digits_prefix(digits.drop_last(), digits.len() - 1);
            assert(digits.drop_last().take(digits.len() - 1) =~= digits.drop_last());
        }
    } else {
        lemma_digits_prefix(digits.drop_last(), k);
        assert(digits.drop_last().take(k) =~= digits.take(k));
        lemma_digits_prefix(digits.drop_last(), digits.len() - 1);
        assert(digits.drop_last().take(digits.len() - 1) =~= digits.drop_last());
    }
}

/// The value of the integer literal with the digits `digits`, where it has
/// one.
pub fn literal_of(digits: &str) -> (r: Option<i64>)
    ensures
        r == literal_value(digits@),
{
    let length = digits.unicode_len();
    if length == 0 {
        return None;
    }
    let mut value: i64 = 0;
    let mut i: usize = 0;
    while i < length
        invariant
            i <= length,
            length == digits@.len(),
            0 <= value,
            digits_value(digits@.take(i as int)) == Some(value as int),
        decreases length - i,
    {
        let c = digits.get_char(i);
        proof {
            lemma_digits_prefix(digits@, i + 1);
            assert(digits@.take(i + 1).drop_last() =~= digits@.take(i as int));
            assert(digits@.take(i + 1).last() == c);
        }
        let digit = match digit_of(c) {
            Some(digit) => digit,
            None => return None,
        };
        if value > (i64::MAX - digit) / 10 {
            return None;
        }
        value = value * 10 + digit;
        i = i + 1;
    }
    proof {
        assert(digits@.take(length as int) =~= digits@);
    }
    Some(value)
}

/// The integer literal with the digits `digits`, which were found at the
/// front of `text`, and the text after it.
pub fn literal_token<'a>(digits: &str, text: &'a str) -> (r: Option<(Token, &'a str)>)
    ensures
        match literal(digits@, text@) {
            Some((lexeme, rest)) => r matches Some((token, left)) && token@ == lexeme && left@
                == rest,
            None => r is None,
        },
{
    let value = match literal_of(digits) {
        Some(value) => value,
        None => return None,
    };
    match drop_front(text, digits.unicode_len()) {
        Some(rest) => Some((Token::IntegerLiteral(value), rest)),
        None => None,
    }
}

/// The identifier with the name `word`, which was found at the front of
/// `text`, and the text after it.
pub fn identifier_token<'a>(word: &str, text: &'a str) -> (r: Option<(Token, &'a str)>)
    ensures
        match identifier(word@, text@) {
            Some((lexeme, rest)) => r matches Some((token, left)) && token@ == lexeme && left@
                == rest,
            None => r is None,
        },
{
    match drop_front(text, word.unicode_len()) {
        Some(rest) => Some((Token::Identifier(String::from_str(word)), rest)),
        None => None,
    }
}

impl Token {
    /// The token at the front of `string` and the text after it, if a rule
    /// matches there.
    pub fn from_string<'a>(string: &'a str) -> (r: Option<(Token, &'a str)>)
        ensures
            match scan(string@) {
                Some((lexeme, rest)) => r matches Some((token, left)) && token@ == lexeme
                    && left@ == rest && rest.len() < string@.len(),
                None => r is None,
            },
    {
        let mut rule: usize = 0;
        while rule < FIXED_RULES
            invariant
                rule <= FIXED_RULES,
                first_rule(string@, 0) == first_rule(string@, rule as int),
            decreases FIXED_RULES - rule,
        {
            if prefix_matches(fixed_pattern(rule), string) {
                return fixed_rule_token(rule, string);
            }
            rule = rule + 1;
        }
        match first_match("^\\d+", string) {
            Some(digits) => {
                return literal_token(digits, string);
            },
            None => {},
        }
        match first_match("^\\w+", string) {
            Some(word) => identifier_token(word, string),
            None => None,
        }
    }
}

/// Splits `contents` into tokens.
///
/// White space at the ends of the text and between tokens is dropped. The
/// result is the error where no rule matches at the front of what is left,
/// and the text that is left stands in the error.
pub fn parse(contents: String) -> (r: Result<Vec<Token>, LexError>)
    ensures
        match lex(trimmed(contents@)) {
            Ok(found) => r matches Ok(tokens) && lexemes(tokens@) == found,
            Err(leftover) => r matches Err(error) && error.leftover@ == leftover,
        },
{
    let mut tokens: Vec<Token> = Vec::new();
    let mut leftover_contents: &str = trim(contents.as_str());
    proof {
        match lex(leftover_contents@) {
            Ok(found) => assert(lexemes(tokens@) + found =~= found),
            Err(_) => {},
        }
    }
    loop
        invariant
            lex(trimmed(contents@)) == following(lexemes(tokens@), lex(leftover_contents@)),
        decreases leftover_contents@.len(),
    {
        if leftover_contents.unicode_len() == 0 {
            assert(lexemes(tokens@) + Seq::<Lexeme>::empty() =~= lexemes(tokens@));
            return Ok(tokens);
        }
        match Token::from_string(leftover_contents) {
            Some((token, leftover_string)) => {
                let next = trim(leftover_string);
                proof {
                    let done = lexemes(tokens@);
                    assert(lexemes(tokens@.push(token)) =~= done.push(token@));
                    match lex(next@) {
                        Ok(found) => assert(done + (seq![token@] + found) =~= done.push(token@)
                            + found),
                        Err(_) => {},
                    }
                }
                tokens.push(token);
                leftover_contents = next;
            },
            None => {
                return Err(LexError { leftover: String::from_str(leftover_contents) });
            },
        }
    }
}

/// What the rest of a text gives when the lexemes `done` stand before it.
pub open spec fn following(
    done: Seq<Lexeme>,
    rest: Result<Seq<Lexeme>, Seq<char>>,
) -> Result<Seq<Lexeme>, Seq<char>> {
    match rest {
        Ok(more) => Ok(done + more),
        Err(leftover) => Err(leftover),
    }
}

} // verus!
