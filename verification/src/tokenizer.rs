//! The tokenizer: classifies a prefix of a raw token cursor into exactly one
//! tag-level token per call, consuming the tokens it reads.

use vstd::prelude::*;
use vstd::string::StringExecFns;

use crate::tokens::{
    lemma_tokens_view_drop_first, lemma_tokens_view_index, lemma_tokens_view_len, token_view,
    tokens_view, Span, Token, TokenView,
};
use crate::{attrs_view, AttrView, SnaxAttribute};

verus! {

/// One tag-level token, as classified from the raw token stream.
#[derive(Debug)]
pub enum HtmlToken {
    OpenTag(HtmlOpenToken),
    CloseTag(HtmlCloseToken),
    SelfClosingTag(HtmlSelfClosingToken),
    Textish(HtmlTextishToken),
    OpenFragment,
    CloseFragment,
}

/// An opening tag: `<name attr=value ...>`.
#[derive(Debug)]
pub struct HtmlOpenToken {
    pub name: String,
    pub attributes: Vec<SnaxAttribute>,
    pub start: Span,
    pub end: Span,
}

/// A closing tag: `</name>`.
#[derive(Debug)]
pub struct HtmlCloseToken {
    pub name: String,
    pub start: Span,
    pub end: Span,
}

/// A self-closing tag: `<name attr=value ... />`.
#[derive(Debug)]
pub struct HtmlSelfClosingToken {
    pub name: String,
    pub name_span: Span,
    pub attributes: Vec<SnaxAttribute>,
}

/// A content token: one opaque literal or bracketed group.
#[derive(Debug)]
pub struct HtmlTextishToken {
    pub content: Token,
}

/// A failure to classify the next tag-level token.
#[derive(Debug)]
pub enum TokenizeError {
    /// The cursor ran out before a construct was complete.
    UnexpectedEnd,
    /// A raw token appeared where none of the accepted shapes allows it.
    UnexpectedToken(Token),
}

/// The mathematical model of a tag-level token.
#[verifier::ext_equal]
pub enum HtmlTokenView {
    OpenTag { name: Seq<char>, attributes: Seq<AttrView> },
    CloseTag { name: Seq<char> },
    SelfClosingTag { name: Seq<char>, attributes: Seq<AttrView> },
    Textish { content: TokenView },
    OpenFragment,
    CloseFragment,
}

pub open spec fn html_token_view(t: HtmlToken) -> HtmlTokenView {
    match t {
        HtmlToken::OpenTag(tok) => HtmlTokenView::OpenTag {
            name: tok.name@,
            attributes: attrs_view(tok.attributes@),
        },
        HtmlToken::CloseTag(tok) => HtmlTokenView::CloseTag { name: tok.name@ },
        HtmlToken::SelfClosingTag(tok) => HtmlTokenView::SelfClosingTag {
            name: tok.name@,
            attributes: attrs_view(tok.attributes@),
        },
        HtmlToken::Textish(tok) => HtmlTokenView::Textish { content: token_view(tok.content) },
        HtmlToken::OpenFragment => HtmlTokenView::OpenFragment,
        HtmlToken::CloseFragment => HtmlTokenView::CloseFragment,
    }
}

impl View for HtmlToken {
    type V = HtmlTokenView;

    open spec fn view(&self) -> HtmlTokenView {
        html_token_view(*self)
    }
}

/// The description of a tag-level token, as used in diagnostics.
pub open spec fn what_of(v: HtmlTokenView) -> Seq<char> {
    match v {
        HtmlTokenView::OpenTag { name, .. } => "opening tag '"@ + name + "'"@,
        HtmlTokenView::CloseTag { name } => "closing tag '"@ + name + "'"@,
        HtmlTokenView::SelfClosingTag { name, .. } => "self-closing tag '"@ + name + "'"@,
        HtmlTokenView::Textish { .. } => "content"@,
        HtmlTokenView::OpenFragment => "opening fragment"@,
        HtmlTokenView::CloseFragment => "closing fragment"@,
    }
}

/// The source spans of a tag-level token: the start and end of the
/// construct, falling back to an empty span where none was recorded.
pub open spec fn spec_spans(t: HtmlToken) -> (Span, Span) {
    match t {
        HtmlToken::OpenTag(tok) => (tok.start, tok.end),
        HtmlToken::CloseTag(tok) => (tok.start, tok.end),
        HtmlToken::SelfClosingTag(tok) => (tok.name_span, tok.name_span),
        HtmlToken::Textish(tok) => (
            crate::tokens::token_span(tok.content),
            crate::tokens::token_span(tok.content),
        ),
        HtmlToken::OpenFragment => (Span { lo: 0, hi: 0 }, Span { lo: 0, hi: 0 }),
        HtmlToken::CloseFragment => (Span { lo: 0, hi: 0 }, Span { lo: 0, hi: 0 }),
    }
}

impl HtmlToken {
    /// A short description of this token for diagnostics, such as
    /// `opening tag 'div'`.
    pub fn what(&self) -> (r: String)
        ensures
            r@ == what_of(html_token_view(*self)),
    {
        match self {
            HtmlToken::OpenTag(tok) => {
                let mut s = String::from_str("opening tag '");
                s.append(tok.name.as_str());
                s.append("'");
                s
            },
            HtmlToken::CloseTag(tok) => {
                let mut s = String::from_str("closing tag '");
                s.append(tok.name.as_str());
                s.append("'");
                s
            },
            HtmlToken::SelfClosingTag(tok) => {
                let mut s = String::from_str("self-closing tag '");
                s.append(tok.name.as_str());
                s.append("'");
                s
            },
            HtmlToken::Textish(_) => String::from_str("content"),
            HtmlToken::OpenFragment => String::from_str("opening fragment"),
            HtmlToken::CloseFragment => String::from_str("closing fragment"),
        }
    }

    /// The start and end source spans of this token's construct.
    pub fn spans(&self) -> (r: (Span, Span))
        ensures
            r == spec_spans(*self),
    {
        match self {
            HtmlToken::OpenTag(tok) => (tok.start, tok.end),
            HtmlToken::CloseTag(tok) => (tok.start, tok.end),
            HtmlToken::SelfClosingTag(tok) => (tok.name_span, tok.name_span),
            HtmlToken::Textish(tok) => {
                let sp = tok.content.span();
                (sp, sp)
            },
            HtmlToken::OpenFragment => (Span::call_site(), Span::call_site()),
            HtmlToken::CloseFragment => (Span::call_site(), Span::call_site()),
        }
    }
}

/// The mathematical model of a tokenize failure.
pub enum TokenizeErrorView {
    UnexpectedEnd,
    UnexpectedToken(TokenView),
}

pub open spec fn tokenize_error_view(e: TokenizeError) -> TokenizeErrorView {
    match e {
        TokenizeError::UnexpectedEnd => TokenizeErrorView::UnexpectedEnd,
        TokenizeError::UnexpectedToken(t) => TokenizeErrorView::UnexpectedToken(token_view(t)),
    }
}

impl View for TokenizeError {
    type V = TokenizeErrorView;

    open spec fn view(&self) -> TokenizeErrorView {
        tokenize_error_view(*self)
    }
}

/// A token that may stand as opaque content: a literal or a bracketed group.
pub open spec fn is_textish(t: TokenView) -> bool {
    t is Literal || t is Group
}

/// The given punctuation character.
pub open spec fn is_punct(t: TokenView, c: char) -> bool {
    t matches TokenView::Punct { ch } && ch == c
}

/// What one call of the tokenizer yields on a token stream: the classified
/// tag-level token and the remaining stream, or the error.
pub open spec fn spec_tokenize(ts: Seq<TokenView>) -> Result<
    (HtmlTokenView, Seq<TokenView>),
    TokenizeErrorView,
> {
    if ts.len() == 0 {
        Err(TokenizeErrorView::UnexpectedEnd)
    } else if is_textish(ts[0]) {
        Ok((HtmlTokenView::Textish { content: ts[0] }, ts.drop_first()))
    } else if is_punct(ts[0], '<') {
        spec_tokenize_marker(ts.drop_first())
    } else {
        Err(TokenizeErrorView::UnexpectedToken(ts[0]))
    }
}

/// Classification after a leading `<`.
pub open spec fn spec_tokenize_marker(ts: Seq<TokenView>) -> Result<
    (HtmlTokenView, Seq<TokenView>),
    TokenizeErrorView,
> {
    if ts.len() == 0 {
        Err(TokenizeErrorView::UnexpectedEnd)
    } else {
        match ts[0] {
            TokenView::Punct { ch } => if ch == '/' {
                spec_tokenize_close(ts.drop_first())
            } else if ch == '>' {
                Ok((HtmlTokenView::OpenFragment, ts.drop_first()))
            } else {
                Err(TokenizeErrorView::UnexpectedToken(ts[0]))
            },
            TokenView::Ident { name } => spec_scan_attrs(name, Seq::empty(), ts.drop_first()),
            _ => Err(TokenizeErrorView::UnexpectedToken(ts[0])),
        }
    }
}

/// Classification after a leading `</`.
pub open spec fn spec_tokenize_close(ts: Seq<TokenView>) -> Result<
    (HtmlTokenView, Seq<TokenView>),
    TokenizeErrorView,
> {
    if ts.len() == 0 {
        Err(TokenizeErrorView::UnexpectedEnd)
    } else {
        match ts[0] {
            TokenView::Punct { ch } => if ch == '>' {
                Ok((HtmlTokenView::CloseFragment, ts.drop_first()))
            } else {
                Err(TokenizeErrorView::UnexpectedToken(ts[0]))
            },
            TokenView::Ident { name } => {
                let rest = ts.drop_first();
                if rest.len() == 0 {
                    Err(TokenizeErrorView::UnexpectedEnd)
                } else if is_punct(rest[0], '>') {
                    Ok((HtmlTokenView::CloseTag { name }, rest.drop_first()))
                } else {
                    Err(TokenizeErrorView::UnexpectedToken(rest[0]))
                }
            },
            _ => Err(TokenizeErrorView::UnexpectedToken(ts[0])),
        }
    }
}

/// The attribute-scanning loop after `<name`: collects name-value pairs in
/// encounter order until `>` ends an opening tag or `/>` ends a self-closing
/// tag.
pub open spec fn spec_scan_attrs(
    name: Seq<char>,
    attrs: Seq<AttrView>,
    ts: Seq<TokenView>,
) -> Result<(HtmlTokenView, Seq<TokenView>), TokenizeErrorView>
    decreases ts.len(),
{
    if ts.len() == 0 {
        Err(TokenizeErrorView::UnexpectedEnd)
    } else {
        match ts[0] {
            TokenView::Ident { name: attr_name } => {
                let rest = ts.drop_first();
                if rest.len() == 0 {
                    Err(TokenizeErrorView::UnexpectedEnd)
                } else if is_punct(rest[0], '=') {
                    let rest2 = rest.drop_first();
                    if rest2.len() == 0 {
                        Err(TokenizeErrorView::UnexpectedEnd)
                    } else if is_textish(rest2[0]) {
                        spec_scan_attrs(
                            name,
                            attrs.push(AttrView { name: attr_name, value: rest2[0] }),
                            rest2.drop_first(),
                        )
                    } else {
                        Err(TokenizeErrorView::UnexpectedToken(rest2[0]))
                    }
                } else {
                    Err(TokenizeErrorView::UnexpectedToken(rest[0]))
                }
            },
            TokenView::Punct { ch } => if ch == '>' {
                Ok((HtmlTokenView::OpenTag { name, attributes: attrs }, ts.drop_first()))
            } else if ch == '/' {
                let rest = ts.drop_first();
                if rest.len() == 0 {
                    Err(TokenizeErrorView::UnexpectedEnd)
                } else if is_punct(rest[0], '>') {
                    Ok(
                        (
                            HtmlTokenView::SelfClosingTag { name, attributes: attrs },
                            rest.drop_first(),
                        ),
                    )
                } else {
                    Err(TokenizeErrorView::UnexpectedToken(rest[0]))
                }
            } else {
                Err(TokenizeErrorView::UnexpectedToken(ts[0]))
            },
            _ => Err(TokenizeErrorView::UnexpectedToken(ts[0])),
        }
    }
}

/// The attribute scan consumes at least one token before it yields a
/// tag-level token.
pub proof fn lemma_scan_attrs_shrinks(name: Seq<char>, attrs: Seq<AttrView>, ts: Seq<TokenView>)
    ensures
        spec_scan_attrs(name, attrs, ts) matches Ok(p) ==> p.1.len() < ts.len(),
    decreases ts.len(),
{
    if ts.len() > 0 {
        match ts[0] {
            TokenView::Ident { name: attr_name } => {
                let rest = ts.drop_first();
                if rest.len() > 0 && is_punct(rest[0], '=') {
                    let rest2 = rest.drop_first();
                    if rest2.len() > 0 && is_textish(rest2[0]) {
                        lemma_scan_attrs_shrinks(
                            name,
                            attrs.push(AttrView { name: attr_name, value: rest2[0] }),
                            rest2.drop_first(),
                        );
                    }
                }
            },
            _ => {},
        }
    }
}

/// Every successful classification consumes at least one token.
pub proof fn lemma_spec_tokenize_shrinks(ts: Seq<TokenView>)
    ensures
        spec_tokenize(ts) matches Ok(p) ==> p.1.len() < ts.len(),
{
    if ts.len() > 0 && is_punct(ts[0], '<') {
        let rest = ts.drop_first();
        if rest.len() > 0 {
            match rest[0] {
                TokenView::Ident { name } => {
                    lemma_scan_attrs_shrinks(name, Seq::empty(), rest.drop_first());
                },
                _ => {},
            }
        }
    }
}

/// The view of an executable tokenizer result, paired with the remaining
/// cursor contents, for comparison against [`spec_tokenize`].
pub open spec fn tokenize_result_view(
    r: Result<HtmlToken, TokenizeError>,
    rest: Seq<TokenView>,
) -> Result<(HtmlTokenView, Seq<TokenView>), TokenizeErrorView> {
    match r {
        Ok(tok) => Ok((html_token_view(tok), rest)),
        Err(e) => Err(tokenize_error_view(e)),
    }
}

/// Removes and returns the first token of the cursor, if any.
fn next_token(input: &mut Vec<Token>) -> (r: Option<Token>)
    ensures
        old(input)@.len() == 0 ==> r is None && final(input)@ == old(input)@,
        old(input)@.len() > 0 ==> {
            &&& r == Some(old(input)@[0])
            &&& final(input)@ == old(input)@.drop_first()
            &&& tokens_view(final(input)@) == tokens_view(old(input)@).drop_first()
            &&& token_view(old(input)@[0]) == tokens_view(old(input)@)[0]
            &&& tokens_view(old(input)@).len() == old(input)@.len()
        },
{
    proof {
        lemma_tokens_view_len(input@);
        if input@.len() > 0 {
            lemma_tokens_view_index(input@, 0);
            lemma_tokens_view_drop_first(input@);
        }
    }
    if input.len() == 0 {
        None
    } else {
        let t = input.remove(0);
        proof {
            assert(input@ =~= old(input)@.drop_first());
        }
        Some(t)
    }
}

/// Reads the minimum number of raw tokens needed to classify and return one
/// tag-level token, or fails; the classification is exactly the one that
/// [`spec_tokenize`] gives for the cursor's contents.
pub fn parse_html_token(input: &mut Vec<Token>) -> (r: Result<HtmlToken, TokenizeError>)
    ensures
        spec_tokenize(tokens_view(old(input)@)) == tokenize_result_view(
            r,
            tokens_view(final(input)@),
        ),
        r is Ok ==> final(input)@.len() < old(input)@.len(),
{
    proof {
        lemma_tokens_view_len(input@);
    }
    let first = match next_token(input) {
        None => {
            return Err(TokenizeError::UnexpectedEnd);
        },
        Some(t) => t,
    };
    match first {
        Token::Punct { ch, span } => {
            if ch == '<' {
                tokenize_marker(input, span)
            } else {
                Err(TokenizeError::UnexpectedToken(Token::Punct { ch, span }))
            }
        },
        content @ Token::Literal { .. } => Ok(
            HtmlToken::Textish(HtmlTextishToken { content }),
        ),
        content @ Token::Group { .. } => Ok(HtmlToken::Textish(HtmlTextishToken { content })),
        unexpected => Err(TokenizeError::UnexpectedToken(unexpected)),
    }
}

/// Classification after a leading `<`: a close marker, an open fragment, or
/// a tag name followed by its attributes.
fn tokenize_marker(input: &mut Vec<Token>, start_span: Span) -> (r: Result<
    HtmlToken,
    TokenizeError,
>)
    ensures
        spec_tokenize_marker(tokens_view(old(input)@)) == tokenize_result_view(
            r,
            tokens_view(final(input)@),
        ),
        r is Ok ==> final(input)@.len() < old(input)@.len(),
{
    let second = match next_token(input) {
        None => {
            return Err(TokenizeError::UnexpectedEnd);
        },
        Some(t) => t,
    };
    match second {
        Token::Punct { ch, .. } if ch == '/' => tokenize_close(input, start_span),
        Token::Punct { ch, .. } if ch == '>' => Ok(HtmlToken::OpenFragment),
        Token::Ident { name, span } => scan_attributes(input, name, span, start_span),
        unexpected => Err(TokenizeError::UnexpectedToken(unexpected)),
    }
}

/// Classification after a leading `</`: a close fragment or a close tag.
fn tokenize_close(input: &mut Vec<Token>, start_span: Span) -> (r: Result<
    HtmlToken,
    TokenizeError,
>)
    ensures
        spec_tokenize_close(tokens_view(old(input)@)) == tokenize_result_view(
            r,
            tokens_view(final(input)@),
        ),
        r is Ok ==> final(input)@.len() < old(input)@.len(),
{
    let third = match next_token(input) {
        None => {
            return Err(TokenizeError::UnexpectedEnd);
        },
        Some(t) => t,
    };
    match third {
        Token::Punct { ch, .. } if ch == '>' => Ok(HtmlToken::CloseFragment),
        Token::Ident { name, .. } => {
            let end_tok = match next_token(input) {
                None => {
                    return Err(TokenizeError::UnexpectedEnd);
                },
                Some(t) => t,
            };
            match end_tok {
                Token::Punct { ch, span: end_span } if ch == '>' => Ok(
                    HtmlToken::CloseTag(
                        HtmlCloseToken { name, start: start_span, end: end_span },
                    ),
                ),
                unexpected => Err(TokenizeError::UnexpectedToken(unexpected)),
            }
        },
        unexpected => Err(TokenizeError::UnexpectedToken(unexpected)),
    }
}

/// The attribute-scanning loop after `<name`: collects attributes in
/// encounter order and ends on `>` (opening tag) or `/>` (self-closing tag).
#[verifier::loop_isolation(false)]
fn scan_attributes(input: &mut Vec<Token>, name: String, name_span: Span, start_span: Span) -> (r:
    Result<HtmlToken, TokenizeError>)
    ensures
        spec_scan_attrs(name@, Seq::empty(), tokens_view(old(input)@)) == tokenize_result_view(
            r,
            tokens_view(final(input)@),
        ),
        r is Ok ==> final(input)@.len() < old(input)@.len(),
{
    let mut attributes: Vec<SnaxAttribute> = Vec::new();
    proof {
        assert(attrs_view(attributes@) =~= Seq::<AttrView>::empty());
    }
    loop
        invariant
            spec_scan_attrs(name@, attrs_view(attributes@), tokens_view(input@))
                == spec_scan_attrs(name@, Seq::empty(), tokens_view(old(input)@)),
            input@.len() <= old(input)@.len(),
        decreases input@.len(),
    {
        let t = match next_token(input) {
            None => {
                return Err(TokenizeError::UnexpectedEnd);
            },
            Some(t) => t,
        };
        match t {
            Token::Ident { name: attr_name, .. } => {
                let eq_tok = match next_token(input) {
                    None => {
                        return Err(TokenizeError::UnexpectedEnd);
                    },
                    Some(t) => t,
                };
                match eq_tok {
                    Token::Punct { ch, .. } if ch == '=' => {},
                    unexpected => {
                        return Err(TokenizeError::UnexpectedToken(unexpected));
                    },
                }
                let val = match next_token(input) {
                    None => {
                        return Err(TokenizeError::UnexpectedEnd);
                    },
                    Some(t) => t,
                };
                match val {
                    value @ Token::Literal { .. } => {
                        proof {
                            crate::lemma_attrs_view_push(
                                attributes@,
                                SnaxAttribute::Simple { name: attr_name, value: value },
                            );
                        }
                        attributes.push(SnaxAttribute::Simple { name: attr_name, value });
                    },
                    value @ Token::Group { .. } => {
                        proof {
                            crate::lemma_attrs_view_push(
                                attributes@,
                                SnaxAttribute::Simple { name: attr_name, value: value },
                            );
                        }
                        attributes.push(SnaxAttribute::Simple { name: attr_name, value });
                    },
                    unexpected => {
                        return Err(TokenizeError::UnexpectedToken(unexpected));
                    },
                }
            },
            Token::Punct { ch, span: end_span } if ch == '>' => {
                return Ok(
                    HtmlToken::OpenTag(
                        HtmlOpenToken { name, attributes, start: start_span, end: end_span },
                    ),
                );
            },
            Token::Punct { ch, .. } if ch == '/' => {
                let gt = match next_token(input) {
                    None => {
                        return Err(TokenizeError::UnexpectedEnd);
                    },
                    Some(t) => t,
                };
                match gt {
                    Token::Punct { ch, .. } if ch == '>' => {
                        return Ok(
                            HtmlToken::SelfClosingTag(
                                HtmlSelfClosingToken { name, name_span, attributes },
                            ),
                        );
                    },
                    unexpected => {
                        return Err(TokenizeError::UnexpectedToken(unexpected));
                    },
                }
            },
            unexpected => {
                return Err(TokenizeError::UnexpectedToken(unexpected));
            },
        }
    }
}

} // verus!
