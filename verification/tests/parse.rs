use snax::tokens::{Delimiter, Span, Token};
use snax::{parse, ParseError, SnaxAttribute, SnaxFragment, SnaxItem, SnaxSelfClosingTag, SnaxTag};

fn sp() -> Span {
    Span::call_site()
}

fn ident(name: &str) -> Token {
    Token::Ident { name: name.to_string(), span: sp() }
}

fn punct(ch: char) -> Token {
    Token::Punct { ch, span: sp() }
}

fn lit(repr: &str) -> Token {
    Token::Literal { repr: repr.to_string(), span: sp() }
}

fn group(delimiter: Delimiter, tokens: Vec<Token>) -> Token {
    Token::Group { delimiter, tokens, span: sp() }
}

fn brace(tokens: Vec<Token>) -> Token {
    group(Delimiter::Brace, tokens)
}

fn attr(name: &str, value: Token) -> SnaxAttribute {
    SnaxAttribute::Simple { name: name.to_string(), value }
}

fn tag(name: &str, attributes: Vec<SnaxAttribute>, children: Vec<SnaxItem>) -> SnaxItem {
    SnaxItem::Tag(SnaxTag { name: name.to_string(), attributes, children })
}

fn self_closing(name: &str, attributes: Vec<SnaxAttribute>) -> SnaxItem {
    SnaxItem::SelfClosingTag(SnaxSelfClosingTag { name: name.to_string(), attributes })
}

#[test]
fn test_just_string() {
    let input = vec![lit("\"hello\"")];
    let output = parse(input).unwrap();

    let expected = SnaxItem::Content(lit("\"hello\""));
    assert_eq!(output, expected);
}

#[test]
fn just_number() {
    let input = vec![lit("5")];
    let output = parse(input).unwrap();

    let expected = SnaxItem::Content(lit("5"));
    assert_eq!(output, expected);
}

#[test]
fn empty_div() {
    let input = vec![
        punct('<'),
        ident("div"),
        punct('>'),
        punct('<'),
        punct('/'),
        ident("div"),
        punct('>'),
    ];
    let output = parse(input).unwrap();

    let expected = tag("div", Vec::new(), Vec::new());
    assert_eq!(output, expected);
}

#[test]
fn self_closing_div() {
    let input = vec![punct('<'), ident("div"), punct('/'), punct('>')];
    let output = parse(input).unwrap();

    let expected = self_closing("div", Vec::new());
    assert_eq!(output, expected);
}

#[test]
fn empty_div_comment() {
    // A comment between the tags is discarded by the host tokenizer and
    // never reaches the token stream.
    let input = vec![
        punct('<'),
        ident("div"),
        punct('>'),
        punct('<'),
        punct('/'),
        ident("div"),
        punct('>'),
    ];
    let output = parse(input).unwrap();

    let expected = tag("div", Vec::new(), Vec::new());
    assert_eq!(output, expected);
}

#[test]
fn test_empty_fragment() {
    let input = vec![punct('<'), punct('>'), punct('<'), punct('/'), punct('>')];
    let output = parse(input).unwrap();

    let expected = SnaxItem::Fragment(SnaxFragment { children: Vec::new() });
    assert_eq!(output, expected);
}

#[test]
fn empty_with_literal_attributes() {
    let input = vec![
        punct('<'),
        ident("div"),
        ident("foo"),
        punct('='),
        lit("\"bar\""),
        ident("baz"),
        punct('='),
        lit("\"qux\""),
        punct('>'),
        punct('<'),
        punct('/'),
        ident("div"),
        punct('>'),
    ];
    let output = parse(input).unwrap();

    let expected = tag(
        "div",
        vec![attr("foo", lit("\"bar\"")), attr("baz", lit("\"qux\""))],
        Vec::new(),
    );
    assert_eq!(output, expected);
}

#[test]
fn test_empty_with_block_attribute() {
    let sum_block = brace(vec![lit("5"), punct('+'), lit("5")]);
    let input = vec![
        punct('<'),
        ident("label"),
        ident("sum"),
        punct('='),
        brace(vec![lit("5"), punct('+'), lit("5")]),
        punct('>'),
        punct('<'),
        punct('/'),
        ident("label"),
        punct('>'),
    ];
    let output = parse(input).unwrap();

    let expected = tag("label", vec![attr("sum", sum_block)], Vec::new());
    assert_eq!(output, expected);
}

#[test]
fn self_closing_with_literal_attributes() {
    let input = vec![
        punct('<'),
        ident("div"),
        ident("foo"),
        punct('='),
        lit("\"bar\""),
        ident("baz"),
        punct('='),
        lit("\"qux\""),
        punct('/'),
        punct('>'),
    ];
    let output = parse(input).unwrap();

    let expected = self_closing(
        "div",
        vec![attr("foo", lit("\"bar\"")), attr("baz", lit("\"qux\""))],
    );
    assert_eq!(output, expected);
}

#[test]
fn self_closing_with_block_attribute() {
    let sum_block = brace(vec![lit("5"), punct('+'), lit("5")]);
    let input = vec![
        punct('<'),
        ident("label"),
        ident("sum"),
        punct('='),
        brace(vec![lit("5"), punct('+'), lit("5")]),
        punct('/'),
        punct('>'),
    ];
    let output = parse(input).unwrap();

    let expected = self_closing("label", vec![attr("sum", sum_block)]);
    assert_eq!(output, expected);
}

#[test]
fn test_nested_tags() {
    let input = vec![
        punct('<'),
        ident("div"),
        punct('>'),
        punct('<'),
        ident("span"),
        punct('>'),
        punct('<'),
        punct('/'),
        ident("span"),
        punct('>'),
        punct('<'),
        punct('/'),
        ident("div"),
        punct('>'),
    ];
    let output = parse(input).unwrap();

    let expected = tag("div", Vec::new(), vec![tag("span", Vec::new(), Vec::new())]);
    assert_eq!(output, expected);
}

#[test]
fn test_adjacent_tags() {
    let input = vec![
        punct('<'),
        ident("div"),
        punct('>'),
        punct('<'),
        ident("span"),
        punct('>'),
        punct('<'),
        punct('/'),
        ident("span"),
        punct('>'),
        punct('<'),
        ident("div"),
        punct('>'),
        punct('<'),
        punct('/'),
        ident("div"),
        punct('>'),
        punct('<'),
        punct('/'),
        ident("div"),
        punct('>'),
    ];
    let output = parse(input).unwrap();

    let expected = tag(
        "div",
        Vec::new(),
        vec![
            tag("span", Vec::new(), Vec::new()),
            tag("div", Vec::new(), Vec::new()),
        ],
    );
    assert_eq!(output, expected);
}

#[test]
fn adjacent_tags_in_fragment() {
    let input = vec![
        punct('<'),
        punct('>'),
        punct('<'),
        ident("span"),
        punct('>'),
        punct('<'),
        punct('/'),
        ident("span"),
        punct('>'),
        punct('<'),
        ident("div"),
        punct('>'),
        punct('<'),
        punct('/'),
        ident("div"),
        punct('>'),
        punct('<'),
        punct('/'),
        punct('>'),
    ];
    let output = parse(input).unwrap();

    let expected = SnaxItem::Fragment(SnaxFragment {
        children: vec![
            tag("span", Vec::new(), Vec::new()),
            tag("div", Vec::new(), Vec::new()),
        ],
    });
    assert_eq!(output, expected);
}

#[test]
fn test_nested_tags_self_closing() {
    let input = vec![
        punct('<'),
        ident("div"),
        punct('>'),
        punct('<'),
        ident("span"),
        punct('/'),
        punct('>'),
        punct('<'),
        punct('/'),
        ident("div"),
        punct('>'),
    ];
    let output = parse(input).unwrap();

    let expected = tag("div", Vec::new(), vec![self_closing("span", Vec::new())]);
    assert_eq!(output, expected);
}

#[test]
fn content_literal_string() {
    let input = vec![
        punct('<'),
        ident("div"),
        punct('>'),
        lit("\"Hello, world!\""),
        punct('<'),
        punct('/'),
        ident("div"),
        punct('>'),
    ];
    let output = parse(input).unwrap();

    let expected = tag(
        "div",
        Vec::new(),
        vec![SnaxItem::Content(lit("\"Hello, world!\""))],
    );
    assert_eq!(output, expected);
}

#[test]
fn content_literal_number() {
    let input = vec![
        punct('<'),
        ident("div"),
        punct('>'),
        lit("5"),
        punct('<'),
        punct('/'),
        ident("div"),
        punct('>'),
    ];
    let output = parse(input).unwrap();

    let expected = tag("div", Vec::new(), vec![SnaxItem::Content(lit("5"))]);
    assert_eq!(output, expected);
}

fn format_block() -> Token {
    brace(vec![
        ident("format"),
        punct('!'),
        group(
            Delimiter::Parenthesis,
            vec![
                lit("\"{} + {} = {}\""),
                punct(','),
                lit("1"),
                punct(','),
                lit("2"),
                punct(','),
                lit("3"),
            ],
        ),
    ])
}

#[test]
fn content_block() {
    let input = vec![
        punct('<'),
        ident("div"),
        punct('>'),
        format_block(),
        punct('<'),
        punct('/'),
        ident("div"),
        punct('>'),
    ];
    let output = parse(input).unwrap();

    let expected = tag("div", Vec::new(), vec![SnaxItem::Content(format_block())]);
    assert_eq!(output, expected);
}

#[test]
fn mismatched_close_names_expected_closer() {
    let input = vec![
        punct('<'),
        ident("div"),
        punct('>'),
        punct('<'),
        punct('/'),
        ident("span"),
        punct('>'),
    ];
    let error = parse(input).unwrap_err();

    match error {
        ParseError::UnexpectedItem { expected, .. } => {
            assert_eq!(expected, "closing tag for 'div'");
        },
        other => panic!("expected an UnexpectedItem error, got {:?}", other),
    }
}

#[test]
fn close_without_open_fails() {
    let input = vec![punct('<'), punct('/'), ident("div"), punct('>')];
    let error = parse(input).unwrap_err();

    match error {
        ParseError::UnexpectedItem { expected, .. } => {
            assert_eq!(expected, "anything else");
        },
        other => panic!("expected an UnexpectedItem error, got {:?}", other),
    }
}

#[test]
fn close_fragment_without_open_fails() {
    let input = vec![punct('<'), punct('/'), punct('>')];
    let error = parse(input).unwrap_err();

    assert!(matches!(error, ParseError::UnexpectedItem { .. }));
}

#[test]
fn close_fragment_over_open_tag_fails() {
    let input = vec![punct('<'), ident("div"), punct('>'), punct('<'), punct('/'), punct('>')];
    let error = parse(input).unwrap_err();

    match error {
        ParseError::UnexpectedItem { expected, .. } => {
            assert_eq!(expected, "closing fragment");
        },
        other => panic!("expected an UnexpectedItem error, got {:?}", other),
    }
}

#[test]
fn trailing_tokens_rejected() {
    let input = vec![
        punct('<'),
        ident("div"),
        punct('>'),
        punct('<'),
        punct('/'),
        ident("div"),
        punct('>'),
        punct('<'),
        ident("div"),
        punct('>'),
        punct('<'),
        punct('/'),
        ident("div"),
        punct('>'),
    ];
    let error = parse(input).unwrap_err();

    assert!(matches!(error, ParseError::UnexpectedToken(Token::Punct { ch: '<', .. })));
}

#[test]
fn unexpected_end_of_input() {
    let input = vec![punct('<'), ident("div"), punct('>')];
    let error = parse(input).unwrap_err();

    assert!(matches!(error, ParseError::UnexpectedEnd));
}

#[test]
fn unexpected_leading_token() {
    let input = vec![punct('+')];
    let error = parse(input).unwrap_err();

    assert!(matches!(error, ParseError::UnexpectedToken(Token::Punct { ch: '+', .. })));
}

#[test]
fn empty_input_is_unexpected_end() {
    let error = parse(Vec::new()).unwrap_err();

    assert!(matches!(error, ParseError::UnexpectedEnd));
}

#[test]
fn reparsing_equal_tokens_gives_equal_trees() {
    let build_input = || {
        vec![
            punct('<'),
            ident("div"),
            ident("foo"),
            punct('='),
            lit("\"bar\""),
            punct('>'),
            lit("\"hi\""),
            punct('<'),
            punct('/'),
            ident("div"),
            punct('>'),
        ]
    };
    let first = parse(build_input()).unwrap();
    let second = parse(build_input()).unwrap();

    assert_eq!(first, second);
}

#[test]
fn equality_ignores_spans() {
    let spanned = Token::Ident { name: "div".to_string(), span: Span { lo: 3, hi: 7 } };
    let unspanned = ident("div");

    assert_eq!(spanned, unspanned);
    assert_eq!(
        SnaxItem::Content(Token::Literal { repr: "5".to_string(), span: Span { lo: 1, hi: 2 } }),
        SnaxItem::Content(lit("5")),
    );
    assert_ne!(SnaxItem::Content(lit("5")), SnaxItem::Content(lit("6")));
}

#[test]
fn attribute_order_is_preserved() {
    let input = vec![
        punct('<'),
        ident("div"),
        ident("foo"),
        punct('='),
        lit("\"bar\""),
        ident("baz"),
        punct('='),
        lit("\"qux\""),
        punct('>'),
        punct('<'),
        punct('/'),
        ident("div"),
        punct('>'),
    ];
    let output = parse(input).unwrap();

    match output {
        SnaxItem::Tag(tag) => {
            assert_eq!(tag.attributes.len(), 2);
            assert_eq!(tag.attributes[0], attr("foo", lit("\"bar\"")));
            assert_eq!(tag.attributes[1], attr("baz", lit("\"qux\"")));
        },
        other => panic!("expected a tag, got {:?}", other),
    }
}
