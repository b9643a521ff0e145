use snax::tokenizer::{parse_html_token, HtmlToken, TokenizeError};
use snax::tokens::{Delimiter, Span, Token};
use snax::{parse, ParseError};

fn sp() -> Span {
    Span::call_site()
}

fn ident(name: &str) -> Token {
    Token::Ident { name: name.to_string(), span: sp() }
}

fn punct(ch: char) -> Token {
    Token::Punct { ch, span: sp() }
}

fn lit(repr: &str) -> Token {
    Token::Literal { repr: repr.to_string(), span: sp() }
}

#[test]
fn tokenize_open_tag_with_attributes() {
    let mut cursor = vec![
        punct('<'),
        ident("div"),
        ident("foo"),
        punct('='),
        lit("\"bar\""),
        punct('>'),
        lit("5"),
    ];
    let token = parse_html_token(&mut cursor).unwrap();

    match token {
        HtmlToken::OpenTag(open) => {
            assert_eq!(open.name, "div");
            assert_eq!(open.attributes.len(), 1);
        },
        other => panic!("expected an opening tag, got {:?}", other),
    }
    // Only the classified construct is consumed; the content token stays.
    assert_eq!(cursor.len(), 1);
}

#[test]
fn tokenize_close_fragment() {
    let mut cursor = vec![punct('<'), punct('/'), punct('>')];
    let token = parse_html_token(&mut cursor).unwrap();

    assert!(matches!(token, HtmlToken::CloseFragment));
    assert_eq!(cursor.len(), 0);
}

#[test]
fn tokenize_rejects_stray_equals() {
    let mut cursor = vec![punct('<'), ident("div"), ident("foo"), punct('>'), lit("1")];
    let error = parse_html_token(&mut cursor).unwrap_err();

    // The attribute name must be followed by `=`; the `>` is the offender.
    assert!(matches!(error, TokenizeError::UnexpectedToken(Token::Punct { ch: '>', .. })));
}

#[test]
fn tokenize_reports_end_of_input() {
    let mut cursor = vec![punct('<'), ident("div")];
    let error = parse_html_token(&mut cursor).unwrap_err();

    assert!(matches!(error, TokenizeError::UnexpectedEnd));
}

#[test]
fn what_describes_tokens() {
    let mut cursor = vec![punct('<'), ident("div"), punct('>')];
    let token = parse_html_token(&mut cursor).unwrap();
    assert_eq!(token.what(), "opening tag 'div'");

    let mut cursor = vec![punct('<'), punct('/'), ident("div"), punct('>')];
    let token = parse_html_token(&mut cursor).unwrap();
    assert_eq!(token.what(), "closing tag 'div'");

    let mut cursor = vec![punct('<'), ident("br"), punct('/'), punct('>')];
    let token = parse_html_token(&mut cursor).unwrap();
    assert_eq!(token.what(), "self-closing tag 'br'");

    let mut cursor = vec![lit("5")];
    let token = parse_html_token(&mut cursor).unwrap();
    assert_eq!(token.what(), "content");

    let mut cursor = vec![punct('<'), punct('>')];
    let token = parse_html_token(&mut cursor).unwrap();
    assert_eq!(token.what(), "opening fragment");

    let mut cursor = vec![punct('<'), punct('/'), punct('>')];
    let token = parse_html_token(&mut cursor).unwrap();
    assert_eq!(token.what(), "closing fragment");
}

#[test]
fn spans_point_at_the_construct() {
    let mut cursor = vec![
        Token::Punct { ch: '<', span: Span { lo: 10, hi: 11 } },
        Token::Ident { name: "div".to_string(), span: Span { lo: 11, hi: 14 } },
        Token::Punct { ch: '>', span: Span { lo: 14, hi: 15 } },
    ];
    let token = parse_html_token(&mut cursor).unwrap();

    let (start, end) = token.spans();
    assert_eq!(start, Span { lo: 10, hi: 11 });
    assert_eq!(end, Span { lo: 14, hi: 15 });
}

#[test]
fn compile_error_tokens_carry_the_message() {
    let input = vec![
        punct('<'),
        ident("div"),
        punct('>'),
        punct('<'),
        punct('/'),
        ident("span"),
        punct('>'),
    ];
    let error = parse(input).unwrap_err();
    let emitted = error.to_compile_error();

    assert_eq!(emitted.len(), 3);
    assert_eq!(emitted[0], ident("compile_error"));
    assert_eq!(emitted[1], punct('!'));
    match &emitted[2] {
        Token::Group { delimiter, tokens, .. } => {
            assert!(matches!(delimiter, Delimiter::Brace));
            assert_eq!(tokens.len(), 1);
            assert_eq!(
                tokens[0],
                lit("\"Unexpected closing tag 'span', expected closing tag for 'div'\""),
            );
        },
        other => panic!("expected a braced group, got {:?}", other),
    }
}

#[test]
fn compile_error_for_unexpected_end() {
    let error = ParseError::UnexpectedEnd;
    let emitted = error.to_compile_error();

    assert_eq!(emitted.len(), 3);
    match &emitted[2] {
        Token::Group { tokens, .. } => {
            assert_eq!(tokens[0], lit("\"Unexpected end of macro\""));
        },
        other => panic!("expected a braced group, got {:?}", other),
    }
}
