use script_core::ast::lex;
use script_core::ast::lex::{scan_at, Found};
use script_core::diag::{Diagnostic, Problem};
use script_core::number::Number;
use script_core::types::{is_literal, Keyword, Span, Symbol, Tkn, Token};

fn tokens(src: &str) -> Vec<Tkn> {
    let (tokens, errors) = lex(src.as_bytes());
    assert!(errors.is_empty(), "{:?}", errors);
    tokens.unwrap().into_iter().map(|t| t.tkn).collect()
}

fn ident(name: &str) -> Tkn {
    Tkn::Identifier(name.as_bytes().to_vec())
}

fn raw(n: i128) -> Tkn {
    Tkn::Number(Number { raw: n })
}

#[test]
fn tokens_carry_their_spans() {
    let (tokens, errors) = lex(b"let a = 12");
    assert!(errors.is_empty());
    assert_eq!(
        tokens.unwrap(),
        vec![
            Token { tkn: Tkn::Keyword(Keyword::Let), span: Span { start: 0, end: 3 } },
            Token { tkn: ident("a"), span: Span { start: 4, end: 5 } },
            Token { tkn: Tkn::Symbol(Symbol::Assign), span: Span { start: 6, end: 7 } },
            Token { tkn: raw(12_000_000_000), span: Span { start: 8, end: 10 } },
        ]
    );
}

#[test]
fn keywords_booleans_and_words() {
    assert_eq!(
        tokens("let fn return if else while true false and or letter iffy _x1"),
        vec![
            Tkn::Keyword(Keyword::Let),
            Tkn::Keyword(Keyword::Fn),
            Tkn::Keyword(Keyword::Return),
            Tkn::Keyword(Keyword::If),
            Tkn::Keyword(Keyword::Else),
            Tkn::Keyword(Keyword::While),
            Tkn::Bool(true),
            Tkn::Bool(false),
            Tkn::Symbol(Symbol::And),
            Tkn::Symbol(Symbol::Or),
            ident("letter"),
            ident("iffy"),
            ident("_x1"),
        ]
    );
}

#[test]
fn numbers_whole_and_with_a_fraction() {
    assert_eq!(tokens("0 7 2.5 0.125 1.0000000019"), vec![
        raw(0),
        raw(7_000_000_000),
        raw(2_500_000_000),
        raw(125_000_000),
        raw(1_000_000_001),
    ]);
}

#[test]
fn minus_before_a_digit_belongs_to_the_number() {
    assert_eq!(tokens("-5 - 5 -x"), vec![
        raw(-5_000_000_000),
        Tkn::Symbol(Symbol::Minus),
        raw(5_000_000_000),
        Tkn::Symbol(Symbol::Minus),
        ident("x"),
    ]);
}

#[test]
fn dot_without_a_digit_is_a_symbol() {
    assert_eq!(tokens("1.x"), vec![raw(1_000_000_000), Tkn::Symbol(Symbol::Dot), ident("x")]);
}

#[test]
fn strings_keep_their_bytes() {
    assert_eq!(tokens("\"a b\\n\" \"\""), vec![
        Tkn::Str(b"a b\\n".to_vec()),
        Tkn::Str(Vec::new()),
    ]);
}

#[test]
fn symbols_of_two_bytes_come_before_those_of_one() {
    assert_eq!(
        tokens("<= >= == != && || ++ -- < > = ! & | + - * / % , . : ; # \\ '"),
        vec![
            Symbol::LessEq,
            Symbol::GreaterEq,
            Symbol::EqEq,
            Symbol::NotEq,
            Symbol::And,
            Symbol::Or,
            Symbol::PlusPlus,
            Symbol::MinusMinus,
            Symbol::Less,
            Symbol::Greater,
            Symbol::Assign,
            Symbol::Bang,
            Symbol::Amp,
            Symbol::Pipe,
            Symbol::Plus,
            Symbol::Minus,
            Symbol::Star,
            Symbol::Slash,
            Symbol::Percent,
            Symbol::Comma,
            Symbol::Dot,
            Symbol::Colon,
            Symbol::Semicolon,
            Symbol::Hash,
            Symbol::Backslash,
            Symbol::Apostrophe,
        ]
        .into_iter()
        .map(Tkn::Symbol)
        .collect::<Vec<_>>()
    );
}

#[test]
fn delimiters() {
    assert_eq!(tokens("([{}])"), vec![
        Tkn::Delimiter('('),
        Tkn::Delimiter('['),
        Tkn::Delimiter('{'),
        Tkn::Delimiter('}'),
        Tkn::Delimiter(']'),
        Tkn::Delimiter(')'),
    ]);
}

#[test]
fn comments_are_stripped_and_line_ends_kept() {
    assert_eq!(tokens("a // rest\nb /* in\nside */ c\r\nd\re"), vec![
        ident("a"),
        Tkn::Newline,
        ident("b"),
        ident("c"),
        Tkn::Newline,
        ident("d"),
        Tkn::Newline,
        ident("e"),
    ]);
}

#[test]
fn every_lexical_error_is_reported() {
    let (tokens, errors) = lex("a $ b \u{e9} c".as_bytes());
    assert_eq!(tokens, None);
    assert_eq!(errors, vec![
        Diagnostic {
            problem: Problem::UnexpectedCharacter,
            span: Span { start: 2, end: 3 },
            contexts: vec![],
        },
        Diagnostic {
            problem: Problem::UnexpectedCharacter,
            span: Span { start: 6, end: 8 },
            contexts: vec![],
        },
    ]);
}

#[test]
fn lexing_goes_on_after_an_error() {
    let (tokens, errors) = script_core::ast::lex::lex(b"a $ b");
    assert_eq!(errors.len(), 1);
    assert_eq!(tokens.into_iter().map(|t| t.tkn).collect::<Vec<_>>(), vec![ident("a"), ident("b")]);
}

#[test]
fn unterminated_string_and_comment() {
    let (_, errors) = lex(b"a \"bc");
    assert_eq!(errors.len(), 1);
    assert_eq!(errors[0].problem, Problem::UnterminatedString);
    assert_eq!(errors[0].span, Span { start: 2, end: 5 });
    let (_, errors) = lex(b"a /* bc");
    assert_eq!(errors.len(), 1);
    assert_eq!(errors[0].problem, Problem::UnterminatedComment);
}

#[test]
fn number_too_large_is_an_error() {
    let (_, errors) = lex(b"170141183460469231731687303716");
    assert_eq!(errors.len(), 1);
    assert_eq!(errors[0].problem, Problem::NumberOutOfRange);
    assert_eq!(errors[0].message(), b"number out of range".to_vec());
    assert_eq!(tokens("170141183460469231731687303715"), vec![raw(
        170141183460469231731687303715_000_000_000
    )]);
    let (_, errors) = lex(b"170141183460469231731687303715.9");
    assert_eq!(errors.len(), 1);
}

#[test]
fn scan_at_gives_the_token_and_its_end() {
    assert_eq!(scan_at(b"  x", 0), (Found::Skip, 1));
    assert_eq!(scan_at(b"  xy+", 2), (Found::Token(ident("xy")), 4));
    assert_eq!(scan_at(b"@", 0), (Found::Bad(Problem::UnexpectedCharacter), 1));
}

#[test]
fn literal_tokens() {
    assert!(is_literal(&raw(1)));
    assert!(is_literal(&Tkn::Str(Vec::new())));
    assert!(is_literal(&Tkn::Bool(false)));
    assert!(!is_literal(&ident("a")));
    assert!(!is_literal(&Tkn::Newline));
    assert!(!is_literal(&Tkn::Keyword(Keyword::If)));
}

#[test]
fn tokens_stand_in_the_order_of_the_source() {
    let src = b"let a = [1, \"two\"] // c\nprint(a)";
    let (tokens, _) = script_core::ast::lex::lex(src);
    let mut last = 0;
    for t in &tokens {
        assert!(last <= t.span.start && t.span.start < t.span.end && t.span.end <= src.len());
        last = t.span.end;
    }
    assert_eq!(tokens.len(), 13);
}

#[test]
fn text_of_a_number_reads_back_as_the_number() {
    for n in [0i128, 1, -1, 7_000_000_000, -2_500_000_000, 123_456_789_123_456_789, i128::MAX, -i128::MAX] {
        let written = Number { raw: n }.to_text();
        assert_eq!(scan_at(&written, 0), (Found::Token(raw(n)), written.len()));
    }
}
