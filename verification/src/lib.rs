//! A parser for an XML/JSX-like tag syntax over a flat stream of lexical
//! tokens.
//!
//! The tokenizer classifies raw tokens into tag-level tokens, and the tree
//! builder reduces those into a single item tree, checking that open and
//! close markers nest and that tag names match.

use vstd::prelude::*;
use vstd::string::StringExecFns;

pub mod content;
pub mod grammar;
pub mod tokenizer;
pub mod tokens;

use crate::tokenizer::{
    html_token_view, parse_html_token, spec_spans, spec_tokenize, what_of, HtmlOpenToken,
    HtmlToken, HtmlTokenView, TokenizeError, TokenizeErrorView,
};
use crate::tokens::{
    token_span, token_view, tokens_view, Delimiter, Span, Token, TokenView,
};

verus! {

/// An attribute on a tag: a name together with one opaque value token
/// (a literal or a bracketed group).
#[derive(Debug)]
pub enum SnaxAttribute {
    /// A name-value pair describing a property.
    Simple { name: String, value: Token },
}

/// The mathematical model of an attribute.
#[verifier::ext_equal]
pub struct AttrView {
    pub name: Seq<char>,
    pub value: TokenView,
}

pub open spec fn attr_view(a: SnaxAttribute) -> AttrView {
    match a {
        SnaxAttribute::Simple { name, value } => AttrView { name: name@, value: token_view(value) },
    }
}

pub open spec fn attrs_view(s: Seq<SnaxAttribute>) -> Seq<AttrView> {
    Seq::new(s.len(), |i: int| attr_view(s[i]))
}

impl View for SnaxAttribute {
    type V = AttrView;

    open spec fn view(&self) -> AttrView {
        attr_view(*self)
    }
}

pub broadcast proof fn lemma_attrs_view_push(s: Seq<SnaxAttribute>, a: SnaxAttribute)
    ensures
        #[trigger] attrs_view(s.push(a)) == attrs_view(s).push(attr_view(a)),
{
    assert(attrs_view(s.push(a)) =~= attrs_view(s).push(attr_view(a)));
}

/// One complete block in the syntax: a tag with children, a self-closing
/// tag, an anonymous fragment, or one opaque content token.
#[derive(Debug)]
pub enum SnaxItem {
    /// A standard tag, which can have attributes and children.
    Tag(SnaxTag),
    /// An empty tag, which can only have attributes.
    SelfClosingTag(SnaxSelfClosingTag),
    /// A fragment, containing a list of zero or more children.
    Fragment(SnaxFragment),
    /// A block of content wrapping one opaque expression token.
    Content(Token),
}

/// A standard tag: `<name attr=value> ... </name>`.
#[derive(Debug)]
pub struct SnaxTag {
    pub name: String,
    pub attributes: Vec<SnaxAttribute>,
    pub children: Vec<SnaxItem>,
}

/// A self-closing tag, which has no children: `<name attr=value />`.
#[derive(Debug)]
pub struct SnaxSelfClosingTag {
    pub name: String,
    pub attributes: Vec<SnaxAttribute>,
}

/// A fragment, which only contains children: `<> ... </>`.
#[derive(Debug)]
pub struct SnaxFragment {
    pub children: Vec<SnaxItem>,
}

/// The mathematical model of a parsed item tree.
#[verifier::ext_equal]
pub enum ItemView {
    Tag { name: Seq<char>, attributes: Seq<AttrView>, children: Seq<ItemView> },
    SelfClosingTag { name: Seq<char>, attributes: Seq<AttrView> },
    Fragment { children: Seq<ItemView> },
    Content { token: TokenView },
}

pub open spec fn item_view(t: SnaxItem) -> ItemView
    decreases t,
{
    match t {
        SnaxItem::Tag(tag) => ItemView::Tag {
            name: tag.name@,
            attributes: attrs_view(tag.attributes@),
            children: items_view(tag.children@),
        },
        SnaxItem::SelfClosingTag(tag) => ItemView::SelfClosingTag {
            name: tag.name@,
            attributes: attrs_view(tag.attributes@),
        },
        SnaxItem::Fragment(fragment) => ItemView::Fragment {
            children: items_view(fragment.children@),
        },
        SnaxItem::Content(token) => ItemView::Content { token: token_view(token) },
    }
}

pub open spec fn items_view(s: Seq<SnaxItem>) -> Seq<ItemView>
    decreases s,
{
    if s.len() == 0 {
        Seq::empty()
    } else {
        seq![item_view(s[0])] + items_view(s.drop_first())
    }
}

impl View for SnaxItem {
    type V = ItemView;

    open spec fn view(&self) -> ItemView {
        item_view(*self)
    }
}

pub broadcast proof fn lemma_items_view_len(s: Seq<SnaxItem>)
    ensures
        #[trigger] items_view(s).len() == s.len(),
    decreases s,
{
    if s.len() > 0 {
        lemma_items_view_len(s.drop_first());
    }
}

pub broadcast proof fn lemma_items_view_index(s: Seq<SnaxItem>, i: int)
    requires
        0 <= i < s.len(),
    ensures
        #[trigger] items_view(s)[i] == item_view(s[i]),
    decreases s,
{
    lemma_items_view_len(s);
    if i > 0 {
        lemma_items_view_index(s.drop_first(), i - 1);
    }
}

pub broadcast proof fn lemma_items_view_push(s: Seq<SnaxItem>, x: SnaxItem)
    ensures
        #[trigger] items_view(s.push(x)) == items_view(s).push(item_view(x)),
{
    lemma_items_view_len(s);
    lemma_items_view_len(s.push(x));
    assert forall|i: int| 0 <= i < s.len() + 1 implies items_view(s.push(x))[i] == items_view(
        s,
    ).push(item_view(x))[i] by {
        lemma_items_view_index(s.push(x), i);
        if i < s.len() {
            lemma_items_view_index(s, i);
        }
    }
    assert(items_view(s.push(x)) =~= items_view(s).push(item_view(x)));
}

/// A failure to reduce the token stream into one item tree.
#[derive(Debug)]
pub enum ParseError {
    /// The cursor ran out before the tree was complete.
    UnexpectedEnd,
    /// A structurally valid tag-level token violates the nesting or naming
    /// discipline; `expected` describes what would have been accepted.
    UnexpectedItem { token: HtmlToken, expected: String },
    /// A raw token appeared where the tokenizer grammar allows none.
    UnexpectedToken(Token),
}

/// The mathematical model of a parse failure.
#[verifier::ext_equal]
pub enum ParseErrorView {
    UnexpectedEnd,
    UnexpectedItem { token: HtmlTokenView, expected: Seq<char> },
    UnexpectedToken(TokenView),
}

pub open spec fn parse_error_view(e: ParseError) -> ParseErrorView {
    match e {
        ParseError::UnexpectedEnd => ParseErrorView::UnexpectedEnd,
        ParseError::UnexpectedItem { token, expected } => ParseErrorView::UnexpectedItem {
            token: html_token_view(token),
            expected: expected@,
        },
        ParseError::UnexpectedToken(t) => ParseErrorView::UnexpectedToken(token_view(t)),
    }
}

impl View for ParseError {
    type V = ParseErrorView;

    open spec fn view(&self) -> ParseErrorView {
        parse_error_view(*self)
    }
}

/// How a tokenize failure surfaces as a parse failure: losslessly, variant
/// by variant.
pub open spec fn parse_error_of_tokenize(e: TokenizeErrorView) -> ParseErrorView {
    match e {
        TokenizeErrorView::UnexpectedEnd => ParseErrorView::UnexpectedEnd,
        TokenizeErrorView::UnexpectedToken(t) => ParseErrorView::UnexpectedToken(t),
    }
}

impl From<TokenizeError> for ParseError {
    fn from(error: TokenizeError) -> (r: ParseError) {
        match error {
            TokenizeError::UnexpectedEnd => ParseError::UnexpectedEnd,
            TokenizeError::UnexpectedToken(token) => ParseError::UnexpectedToken(token),
        }
    }
}

impl vstd::std_specs::convert::FromSpecImpl<TokenizeError> for ParseError {
    open spec fn obeys_from_spec() -> bool {
        true
    }

    open spec fn from_spec(error: TokenizeError) -> ParseError {
        match error {
            TokenizeError::UnexpectedEnd => ParseError::UnexpectedEnd,
            TokenizeError::UnexpectedToken(token) => ParseError::UnexpectedToken(token),
        }
    }
}

/// The diagnostic message for a parse failure, as placed into the emitted
/// `compile_error!` invocation.
pub open spec fn compile_error_message(e: ParseErrorView) -> Seq<char> {
    match e {
        ParseErrorView::UnexpectedEnd => "Unexpected end of macro"@,
        ParseErrorView::UnexpectedItem { token, expected } => "Unexpected "@ + what_of(token)
            + ", expected "@ + expected,
        ParseErrorView::UnexpectedToken(_) => "Unexpected Rust token"@,
    }
}

/// The message wrapped as a string literal's source text.
pub open spec fn quoted(s: Seq<char>) -> Seq<char> {
    "\""@ + s + "\""@
}

/// The spans at which a parse failure points: the offending construct's
/// bounds, or an empty span where none was recorded.
pub open spec fn error_spans(e: ParseError) -> (Span, Span) {
    match e {
        ParseError::UnexpectedEnd => (Span { lo: 0, hi: 0 }, Span { lo: 0, hi: 0 }),
        ParseError::UnexpectedItem { token, .. } => spec_spans(token),
        ParseError::UnexpectedToken(t) => (token_span(t), token_span(t)),
    }
}

/// The token form of the `compile_error!` invocation for a parse failure:
/// the macro name, a bang, and a braced group holding the quoted message.
pub open spec fn compile_error_tokens(e: ParseError) -> Seq<TokenView> {
    seq![
        TokenView::Ident { name: "compile_error"@ },
        TokenView::Punct { ch: '!' },
        TokenView::Group {
            delimiter: Delimiter::Brace,
            tokens: seq![
                TokenView::Literal { repr: quoted(compile_error_message(parse_error_view(e))) },
            ],
        },
    ]
}

impl ParseError {
    /// The token form of a `compile_error!` invocation carrying this error's
    /// message, positioned at the offending construct's spans. The message is
    /// wrapped in double quotes verbatim: the messages this library builds
    /// never contain a quote or a backslash.
    pub fn to_compile_error(&self) -> (r: Vec<Token>)
        ensures
            tokens_view(r@) == compile_error_tokens(*self),
            r@.len() == 3,
            token_span(r@[0]) == error_spans(*self).0,
            token_span(r@[1]) == error_spans(*self).0,
            token_span(r@[2]) == error_spans(*self).1,
    {
        broadcast use crate::tokens::lemma_tokens_view_len, crate::tokens::lemma_tokens_view_index;

        let message = match self {
            ParseError::UnexpectedEnd => String::from_str("Unexpected end of macro"),
            ParseError::UnexpectedItem { token, expected } => {
                let mut m = String::from_str("Unexpected ");
                let w = token.what();
                m.append(w.as_str());
                m.append(", expected ");
                m.append(expected.as_str());
                m
            },
            ParseError::UnexpectedToken(_) => String::from_str("Unexpected Rust token"),
        };
        let (start, end) = match self {
            ParseError::UnexpectedEnd => (Span::call_site(), Span::call_site()),
            ParseError::UnexpectedItem { token, .. } => token.spans(),
            ParseError::UnexpectedToken(t) => {
                let sp = t.span();
                (sp, sp)
            },
        };
        let mut lit = String::from_str("\"");
        lit.append(message.as_str());
        lit.append("\"");
        let mut inner: Vec<Token> = Vec::new();
        inner.push(Token::Literal { repr: lit, span: end });
        let mut out: Vec<Token> = Vec::new();
        out.push(Token::Ident { name: String::from_str("compile_error"), span: start });
        out.push(Token::Punct { ch: '!', span: start });
        out.push(Token::Group { delimiter: Delimiter::Brace, tokens: inner, span: end });
        proof {
            assert(tokens_view(inner@) =~= seq![
                TokenView::Literal {
                    repr: quoted(compile_error_message(parse_error_view(*self))),
                },
            ]);
            assert(tokens_view(out@) =~= compile_error_tokens(*self));
        }
        out
    }
}

/// An open context awaiting its closer: a tag or an anonymous fragment.
enum OpenToken {
    Tag(HtmlOpenToken),
    Fragment,
}

/// The mathematical model of an open context.
#[verifier::ext_equal]
pub enum OpenView {
    Tag { name: Seq<char>, attributes: Seq<AttrView> },
    Fragment,
}

spec fn open_view(o: OpenToken) -> OpenView {
    match o {
        OpenToken::Tag(tok) => OpenView::Tag { name: tok.name@, attributes: attrs_view(tok.attributes@) },
        OpenToken::Fragment => OpenView::Fragment,
    }
}

spec fn stack_view(s: Seq<(OpenToken, Vec<SnaxItem>)>) -> Seq<(OpenView, Seq<ItemView>)> {
    Seq::new(s.len(), |i: int| (open_view(s[i].0), items_view(s[i].1@)))
}

/// The description used when a close tag's name does not match the open tag
/// awaiting it.
pub open spec fn expected_closing_msg(name: Seq<char>) -> Seq<char> {
    "closing tag for '"@ + name + "'"@
}

/// Appends the given item to the children of the top of the stack.
pub open spec fn push_child(
    stack: Seq<(OpenView, Seq<ItemView>)>,
    item: ItemView,
) -> Seq<(OpenView, Seq<ItemView>)>
    recommends
        stack.len() > 0,
{
    stack.update(stack.len() - 1, (stack.last().0, stack.last().1.push(item)))
}

/// The state machine of the tree builder, run to completion: reads tag-level
/// tokens from `ts` and reduces them over the stack of open contexts until a
/// root item is produced or a violation is found.
pub open spec fn spec_parse_loop(
    ts: Seq<TokenView>,
    stack: Seq<(OpenView, Seq<ItemView>)>,
) -> Result<ItemView, ParseErrorView>
    decreases ts.len(), 0int,
{
    proof {
        crate::tokenizer::lemma_spec_tokenize_shrinks(ts);
    }
    match spec_tokenize(ts) {
        Err(e) => Err(parse_error_of_tokenize(e)),
        Ok((tok, rest)) => match tok {
            HtmlTokenView::OpenTag { name, attributes } => spec_parse_loop(
                rest,
                stack.push((OpenView::Tag { name, attributes }, Seq::empty())),
            ),
            HtmlTokenView::OpenFragment => spec_parse_loop(
                rest,
                stack.push((OpenView::Fragment, Seq::empty())),
            ),
            HtmlTokenView::CloseTag { name } => {
                if stack.len() == 0 {
                    Err(
                        ParseErrorView::UnexpectedItem {
                            token: tok,
                            expected: "anything else"@,
                        },
                    )
                } else {
                    match stack.last().0 {
                        OpenView::Fragment => Err(
                            ParseErrorView::UnexpectedItem {
                                token: tok,
                                expected: "something"@,
                            },
                        ),
                        OpenView::Tag { name: open_name, attributes } => {
                            if open_name != name {
                                Err(
                                    ParseErrorView::UnexpectedItem {
                                        token: tok,
                                        expected: expected_closing_msg(open_name),
                                    },
                                )
                            } else {
                                spec_emit(
                                    ItemView::Tag {
                                        name: open_name,
                                        attributes,
                                        children: stack.last().1,
                                    },
                                    rest,
                                    stack.drop_last(),
                                )
                            }
                        },
                    }
                }
            },
            HtmlTokenView::CloseFragment => {
                if stack.len() == 0 {
                    Err(
                        ParseErrorView::UnexpectedItem {
                            token: tok,
                            expected: "anything else"@,
                        },
                    )
                } else {
                    match stack.last().0 {
                        OpenView::Tag { .. } => Err(
                            ParseErrorView::UnexpectedItem {
                                token: tok,
                                expected: "closing fragment"@,
                            },
                        ),
                        OpenView::Fragment => spec_emit(
                            ItemView::Fragment { children: stack.last().1 },
                            rest,
                            stack.drop_last(),
                        ),
                    }
                }
            },
            HtmlTokenView::SelfClosingTag { name, attributes } => spec_emit(
                ItemView::SelfClosingTag { name, attributes },
                rest,
                stack,
            ),
            HtmlTokenView::Textish { content } => spec_emit(
                ItemView::Content { token: content },
                rest,
                stack,
            ),
        },
    }
}

/// What happens once an item is materialized: with an empty stack it is the
/// root, owed an exhausted cursor; otherwise it joins the children of the
/// innermost open context and the machine continues.
pub open spec fn spec_emit(
    item: ItemView,
    ts: Seq<TokenView>,
    stack: Seq<(OpenView, Seq<ItemView>)>,
) -> Result<ItemView, ParseErrorView>
    decreases ts.len(), 1int,
{
    if stack.len() == 0 {
        if ts.len() == 0 {
            Ok(item)
        } else {
            Err(ParseErrorView::UnexpectedToken(ts[0]))
        }
    } else {
        spec_parse_loop(ts, push_child(stack, item))
    }
}

/// What parsing a whole token stream yields: the machine run from an empty
/// stack.
pub open spec fn spec_parse(ts: Seq<TokenView>) -> Result<ItemView, ParseErrorView> {
    spec_parse_loop(ts, Seq::empty())
}

/// The view of an executable parse result, for comparison against
/// [`spec_parse`].
pub open spec fn parse_result_view(r: Result<SnaxItem, ParseError>) -> Result<
    ItemView,
    ParseErrorView,
> {
    match r {
        Ok(item) => Ok(item_view(item)),
        Err(e) => Err(parse_error_view(e)),
    }
}

/// Builds the diagnostic description for a close tag that does not match the
/// open tag awaiting it.
fn expected_closing_message(name: &String) -> (r: String)
    ensures
        r@ == expected_closing_msg(name@),
{
    let mut msg = String::from_str("closing tag for '");
    msg.append(name.as_str());
    msg.append("'");
    msg
}

/// Emits a materialized item: returns the final parse result if the stack is
/// empty (checking for trailing tokens), or appends the item to the
/// innermost open context's children and signals the caller to continue.
fn emit_item(
    cursor: &mut Vec<Token>,
    stack: &mut Vec<(OpenToken, Vec<SnaxItem>)>,
    item: SnaxItem,
) -> (r: Option<Result<SnaxItem, ParseError>>)
    ensures
        match r {
            Some(res) => parse_result_view(res) == spec_emit(
                item_view(item),
                tokens_view(old(cursor)@),
                stack_view(old(stack)@),
            ),
            None => {
                &&& final(cursor)@ == old(cursor)@
                &&& spec_emit(item_view(item), tokens_view(old(cursor)@), stack_view(old(stack)@))
                    == spec_parse_loop(tokens_view(final(cursor)@), stack_view(final(stack)@))
            },
        },
{
    broadcast use crate::tokens::lemma_tokens_view_len, crate::tokens::lemma_tokens_view_index;

    if stack.len() == 0 {
        if cursor.len() == 0 {
            Some(Ok(item))
        } else {
            let unexpected = cursor.remove(0);
            Some(Err(ParseError::UnexpectedToken(unexpected)))
        }
    } else {
        let ghost pre_stack = stack@;
        match stack.pop() {
            Some((open_token, mut children)) => {
                proof {
                    lemma_items_view_push(children@, item);
                }
                children.push(item);
                stack.push((open_token, children));
                proof {
                    assert(stack_view(stack@) =~= push_child(
                        stack_view(pre_stack),
                        item_view(item),
                    ));
                }
                None
            },
            None => {
                proof {
                    assert(false);
                }
                Some(Err(ParseError::UnexpectedEnd))
            },
        }
    }
}

/// Attempts to parse a stream of raw tokens into a single item tree: the
/// result is exactly the one that [`spec_parse`] gives for the stream.
#[verifier::loop_isolation(false)]
pub fn parse(input: Vec<Token>) -> (r: Result<SnaxItem, ParseError>)
    ensures
        parse_result_view(r) == spec_parse(tokens_view(input@)),
{
    let ghost orig: Seq<TokenView> = tokens_view(input@);
    let mut cursor = input;
    let mut stack: Vec<(OpenToken, Vec<SnaxItem>)> = Vec::new();
    proof {
        assert(stack_view(stack@) =~= Seq::<(OpenView, Seq<ItemView>)>::empty());
    }
    loop
        invariant
            spec_parse_loop(tokens_view(cursor@), stack_view(stack@)) == spec_parse(orig),
        decreases cursor@.len(),
    {
        let ghost sv_pre = stack_view(stack@);
        let tok = match parse_html_token(&mut cursor) {
            Err(e) => {
                return Err(ParseError::from(e));
            },
            Ok(tok) => tok,
        };
        match tok {
            HtmlToken::OpenTag(opening_tag) => {
                let ghost entry_view = (
                    OpenView::Tag {
                        name: opening_tag.name@,
                        attributes: attrs_view(opening_tag.attributes@),
                    },
                    Seq::<ItemView>::empty(),
                );
                stack.push((OpenToken::Tag(opening_tag), Vec::new()));
                proof {
                    assert(stack_view(stack@) =~= sv_pre.push(entry_view));
                }
            },
            HtmlToken::OpenFragment => {
                stack.push((OpenToken::Fragment, Vec::new()));
                proof {
                    assert(stack_view(stack@) =~= sv_pre.push(
                        (OpenView::Fragment, Seq::<ItemView>::empty()),
                    ));
                }
            },
            HtmlToken::CloseTag(closing_tag) => {
                let top = match stack.pop() {
                    None => {
                        return Err(
                            ParseError::UnexpectedItem {
                                token: HtmlToken::CloseTag(closing_tag),
                                expected: String::from_str("anything else"),
                            },
                        );
                    },
                    Some(top) => top,
                };
                proof {
                    assert(stack_view(stack@) =~= sv_pre.drop_last());
                    assert(sv_pre.last() == (open_view(top.0), items_view(top.1@)));
                }
                let (open_token, children) = top;
                let opening_tag = match open_token {
                    OpenToken::Tag(tag) => tag,
                    OpenToken::Fragment => {
                        return Err(
                            ParseError::UnexpectedItem {
                                token: HtmlToken::CloseTag(closing_tag),
                                expected: String::from_str("something"),
                            },
                        );
                    },
                };
                if opening_tag.name != closing_tag.name {
                    let expected = expected_closing_message(&opening_tag.name);
                    return Err(
                        ParseError::UnexpectedItem {
                            token: HtmlToken::CloseTag(closing_tag),
                            expected,
                        },
                    );
                }
                let tag = SnaxTag {
                    name: opening_tag.name,
                    attributes: opening_tag.attributes,
                    children,
                };
                match emit_item(&mut cursor, &mut stack, SnaxItem::Tag(tag)) {
                    Some(res) => {
                        return res;
                    },
                    None => {},
                }
            },
            HtmlToken::CloseFragment => {
                let top = match stack.pop() {
                    None => {
                        return Err(
                            ParseError::UnexpectedItem {
                                token: HtmlToken::CloseFragment,
                                expected: String::from_str("anything else"),
                            },
                        );
                    },
                    Some(top) => top,
                };
                proof {
                    assert(stack_view(stack@) =~= sv_pre.drop_last());
                    assert(sv_pre.last() == (open_view(top.0), items_view(top.1@)));
                }
                let (open_token, children) = top;
                match open_token {
                    OpenToken::Fragment => {},
                    OpenToken::Tag(_) => {
                        return Err(
                            ParseError::UnexpectedItem {
                                token: HtmlToken::CloseFragment,
                                expected: String::from_str("closing fragment"),
                            },
                        );
                    },
                }
                let fragment = SnaxFragment { children };
                match emit_item(&mut cursor, &mut stack, SnaxItem::Fragment(fragment)) {
                    Some(res) => {
                        return res;
                    },
                    None => {},
                }
            },
            HtmlToken::SelfClosingTag(self_closing_tag) => {
                let tag = SnaxSelfClosingTag {
                    name: self_closing_tag.name,
                    attributes: self_closing_tag.attributes,
                };
                match emit_item(&mut cursor, &mut stack, SnaxItem::SelfClosingTag(tag)) {
                    Some(res) => {
                        return res;
                    },
                    None => {},
                }
            },
            HtmlToken::Textish(textish) => {
                match emit_item(&mut cursor, &mut stack, SnaxItem::Content(textish.content)) {
                    Some(res) => {
                        return res;
                    },
                    None => {},
                }
            },
        }
    }
}


/// Structural equality of attributes, ignoring spans: two attributes are
/// equal when their models are.
pub fn attr_eq(a: &SnaxAttribute, b: &SnaxAttribute) -> (r: bool)
    ensures
        r == (attr_view(*a) == attr_view(*b)),
{
    match a {
        SnaxAttribute::Simple { name: n1, value: v1 } => match b {
            SnaxAttribute::Simple { name: n2, value: v2 } => *n1 == *n2 && crate::tokens::token_eq(
                v1,
                v2,
            ),
        },
    }
}

/// Structural equality of attribute lists, elementwise and in order.
#[verifier::loop_isolation(false)]
pub fn attrs_eq(a: &Vec<SnaxAttribute>, b: &Vec<SnaxAttribute>) -> (r: bool)
    ensures
        r == (attrs_view(a@) == attrs_view(b@)),
{
    proof {
        assert(attrs_view(a@).len() == a@.len());
        assert(attrs_view(b@).len() == b@.len());
    }
    if a.len() != b.len() {
        return false;
    }
    let mut i: usize = 0;
    while i < a.len()
        invariant
            a@.len() == b@.len(),
            i <= a@.len(),
            forall|j: int| 0 <= j < i ==> attr_view(a@[j]) == attr_view(b@[j]),
        decreases a@.len() - i,
    {
        proof {
            assert(attrs_view(a@)[i as int] == attr_view(a@[i as int]));
            assert(attrs_view(b@)[i as int] == attr_view(b@[i as int]));
        }
        if !attr_eq(&a[i], &b[i]) {
            return false;
        }
        i = i + 1;
    }
    proof {
        assert(attrs_view(a@) =~= attrs_view(b@));
    }
    true
}

/// Structural equality of items, ignoring spans: two items are equal when
/// their models are.
#[verifier::loop_isolation(false)]
pub fn item_eq(a: &SnaxItem, b: &SnaxItem) -> (r: bool)
    ensures
        r == (item_view(*a) == item_view(*b)),
    decreases *a,
{
    broadcast use lemma_items_view_len, lemma_items_view_index;

    match a {
        SnaxItem::Tag(t1) => match b {
            SnaxItem::Tag(t2) => {
                if !(t1.name == t2.name) || !attrs_eq(&t1.attributes, &t2.attributes) {
                    return false;
                }
                if t1.children.len() != t2.children.len() {
                    proof {
                        lemma_items_view_len(t1.children@);
                        lemma_items_view_len(t2.children@);
                    }
                    return false;
                }
                let mut i: usize = 0;
                while i < t1.children.len()
                    invariant
                        t1.children@.len() == t2.children@.len(),
                        i <= t1.children@.len(),
                        forall|j: int|
                            0 <= j < i ==> item_view(t1.children@[j]) == item_view(
                                t2.children@[j],
                            ),
                    decreases t1.children@.len() - i,
                {
                    proof {
                        assert(decreases_to!(*a => *t1));
                        assert(decreases_to!(*t1 => t1.children));
                        assert(decreases_to!(t1.children => t1.children@));
                        assert(decreases_to!(t1.children@ => t1.children@[i as int]));
                    }
                    if !item_eq(&t1.children[i], &t2.children[i]) {
                        proof {
                            lemma_items_view_index(t1.children@, i as int);
                            lemma_items_view_index(t2.children@, i as int);
                        }
                        return false;
                    }
                    i = i + 1;
                }
                proof {
                    assert(items_view(t1.children@) =~= items_view(t2.children@));
                }
                true
            },
            _ => false,
        },
        SnaxItem::SelfClosingTag(t1) => match b {
            SnaxItem::SelfClosingTag(t2) => t1.name == t2.name && attrs_eq(
                &t1.attributes,
                &t2.attributes,
            ),
            _ => false,
        },
        SnaxItem::Fragment(f1) => match b {
            SnaxItem::Fragment(f2) => {
                if f1.children.len() != f2.children.len() {
                    proof {
                        lemma_items_view_len(f1.children@);
                        lemma_items_view_len(f2.children@);
                    }
                    return false;
                }
                let mut i: usize = 0;
                while i < f1.children.len()
                    invariant
                        f1.children@.len() == f2.children@.len(),
                        i <= f1.children@.len(),
                        forall|j: int|
                            0 <= j < i ==> item_view(f1.children@[j]) == item_view(
                                f2.children@[j],
                            ),
                    decreases f1.children@.len() - i,
                {
                    proof {
                        assert(decreases_to!(*a => *f1));
                        assert(decreases_to!(*f1 => f1.children));
                        assert(decreases_to!(f1.children => f1.children@));
                        assert(decreases_to!(f1.children@ => f1.children@[i as int]));
                    }
                    if !item_eq(&f1.children[i], &f2.children[i]) {
                        proof {
                            lemma_items_view_index(f1.children@, i as int);
                            lemma_items_view_index(f2.children@, i as int);
                        }
                        return false;
                    }
                    i = i + 1;
                }
                proof {
                    assert(items_view(f1.children@) =~= items_view(f2.children@));
                }
                true
            },
            _ => false,
        },
        SnaxItem::Content(v1) => match b {
            SnaxItem::Content(v2) => crate::tokens::token_eq(v1, v2),
            _ => false,
        },
    }
}

impl PartialEq for SnaxAttribute {
    fn eq(&self, other: &SnaxAttribute) -> (r: bool) {
        attr_eq(self, other)
    }
}

impl vstd::std_specs::cmp::PartialEqSpecImpl for SnaxAttribute {
    open spec fn obeys_eq_spec() -> bool {
        true
    }

    open spec fn eq_spec(&self, other: &SnaxAttribute) -> bool {
        attr_view(*self) == attr_view(*other)
    }
}

impl PartialEq for SnaxItem {
    fn eq(&self, other: &SnaxItem) -> (r: bool) {
        item_eq(self, other)
    }
}

impl vstd::std_specs::cmp::PartialEqSpecImpl for SnaxItem {
    open spec fn obeys_eq_spec() -> bool {
        true
    }

    open spec fn eq_spec(&self, other: &SnaxItem) -> bool {
        item_view(*self) == item_view(*other)
    }
}

} // verus!

