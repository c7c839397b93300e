//! The lexer on its own: token kinds, lexemes, line counting, and the
//! fixed-lexeme round trip on concrete texts.

use riku::numeric::{add_num, cmp_num, decode_small, display_number, encode_small, NumCmp};
use riku::source::Source;
use riku::token::TokenType;

fn lex(src: &str) -> Vec<(TokenType, String, usize)> {
    let mut s = Source::new(src.chars().collect());
    s.tokenize().expect("text should lex");
    s.get_tokens()
        .iter()
        .map(|t| (t.token_type, t.lexeme.iter().collect::<String>(), t.line))
        .collect()
}

#[test]
fn lexes_a_binding() {
    let toks = lex("let x = 42");
    let kinds: Vec<TokenType> = toks.iter().map(|t| t.0).collect();
    assert_eq!(
        kinds,
        vec![
            TokenType::Let,
            TokenType::Ident,
            TokenType::Equal,
            TokenType::Number,
            TokenType::EOF,
        ],
    );
    assert_eq!(toks[1].1, "x");
    assert_eq!(toks[3].1, "42");
}

#[test]
fn every_fixed_lexeme_is_one_token_on_line_one() {
    let cases: Vec<(&str, TokenType)> = vec![
        ("+", TokenType::Plus),
        ("-", TokenType::Minus),
        ("*", TokenType::Star),
        ("/", TokenType::Slash),
        ("%", TokenType::Modulo),
        ("(", TokenType::LParen),
        (")", TokenType::RParen),
        ("{", TokenType::LBrace),
        ("}", TokenType::RBrace),
        (",", TokenType::Comma),
        ("&", TokenType::Ampersand),
        ("|", TokenType::Pipe),
        (";", TokenType::EOL),
        ("<", TokenType::Less),
        ("<=", TokenType::LessEqual),
        (">", TokenType::Greater),
        (">=", TokenType::GreaterEqual),
        ("=", TokenType::Equal),
        ("==", TokenType::EqualEqual),
        ("!", TokenType::Bang),
        ("!=", TokenType::BangEqual),
        ("let", TokenType::Let),
        ("print", TokenType::Print),
        ("if", TokenType::If),
        ("else", TokenType::Else),
        ("while", TokenType::While),
        ("break", TokenType::Break),
        ("continue", TokenType::Continue),
        ("input", TokenType::Input),
        ("int", TokenType::Int),
        ("true", TokenType::True),
        ("false", TokenType::False),
        ("function", TokenType::Fn),
        ("return", TokenType::Return),
    ];
    for (text, kind) in cases {
        let toks = lex(text);
        assert_eq!(toks.len(), 2, "{}", text);
        assert_eq!(toks[0].0, kind, "{}", text);
        assert_eq!(toks[0].1, text, "{}", text);
        assert_eq!(toks[0].2, 1, "{}", text);
        assert_eq!(toks[1].0, TokenType::EOF);
    }
}

#[test]
fn newlines_count_lines_and_produce_eol_tokens() {
    let toks = lex("a\nb\n\nc");
    let lines: Vec<(TokenType, usize)> = toks.iter().map(|t| (t.0, t.2)).collect();
    assert_eq!(
        lines,
        vec![
            (TokenType::Ident, 1),
            (TokenType::EOL, 1),
            (TokenType::Ident, 2),
            (TokenType::EOL, 2),
            (TokenType::EOL, 3),
            (TokenType::Ident, 4),
            (TokenType::EOF, 4),
        ],
    );
}

#[test]
fn string_literal_loses_its_delimiters() {
    let toks = lex("\"hi there\"");
    assert_eq!(toks[0].0, TokenType::String);
    assert_eq!(toks[0].1, "hi there");
}

#[test]
fn maximal_munch_prefers_two_character_operators() {
    let toks = lex("a<=b==c");
    let kinds: Vec<TokenType> = toks.iter().map(|t| t.0).collect();
    assert_eq!(
        kinds,
        vec![
            TokenType::Ident,
            TokenType::LessEqual,
            TokenType::Ident,
            TokenType::EqualEqual,
            TokenType::Ident,
            TokenType::EOF,
        ],
    );
}

#[test]
fn number_accepts_digits_dot_digits() {
    let toks = lex("3.14");
    assert_eq!(toks[0].0, TokenType::Number);
    assert_eq!(toks[0].1, "3.14");
}

#[test]
fn a_second_dot_stops_the_number_and_is_rejected() {
    let mut s = Source::new("1.2.3".chars().collect());
    let e = s.tokenize().unwrap_err();
    assert_eq!(e.kind, riku::error::ErrorType::SyntaxError);
    let ctx: String = e.ctx.iter().collect();
    assert_eq!(ctx, ".3");
}

#[test]
fn identifiers_take_letters_digits_and_underscores() {
    let toks = lex("snake_case2");
    assert_eq!(toks[0].0, TokenType::Ident);
    assert_eq!(toks[0].1, "snake_case2");
}

#[test]
fn unterminated_string_reports_its_line() {
    let mut s = Source::new("x\n\"oops".chars().collect());
    let e = s.tokenize().unwrap_err();
    assert_eq!(e.kind, riku::error::ErrorType::SyntaxError);
    assert_eq!(e.line, Some(2));
}

#[test]
fn numeric_fast_path_matches_integer_arithmetic() {
    let a = encode_small(20);
    let b = encode_small(22);
    assert_eq!(decode_small(add_num(a, b)), Some(42));
    assert_eq!(cmp_num(a, b), NumCmp::Lt);
    assert_eq!(cmp_num(b, b), NumCmp::Eq);
    let neg = encode_small(-5);
    assert_eq!(decode_small(neg), Some(-5));
    assert_eq!(f64::from_bits(neg), -5.0);
    assert_eq!(f64::from_bits(encode_small(42)), 42.0);
}

#[test]
fn number_display_matches_decimal() {
    let shown: String = display_number(encode_small(-120)).iter().collect();
    assert_eq!(shown, "-120");
    let shown0: String = display_number(0).iter().collect();
    assert_eq!(shown0, "0");
}
