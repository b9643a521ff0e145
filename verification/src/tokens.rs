//! The raw lexical tokens that the parser consumes: identifiers, punctuation
//! characters, literals, and bracketed groups, each carrying a source span.

use vstd::prelude::*;
use vstd::string::StringExecFns;

verus! {

/// A source position: byte offsets of the start and end of a construct in
/// the original source text.
#[derive(Clone, Copy, Debug, PartialEq, Eq, Structural)]
pub struct Span {
    pub lo: u32,
    pub hi: u32,
}

impl Span {
    /// The span used where no better position is known.
    pub fn call_site() -> (s: Span)
        ensures
            s == (Span { lo: 0u32, hi: 0u32 }),
    {
        Span { lo: 0, hi: 0 }
    }
}

/// The bracket shape of a group token.
#[derive(Clone, Copy, Debug, PartialEq, Eq, Structural)]
pub enum Delimiter {
    Parenthesis,
    Brace,
    Bracket,
    Invisible,
}

/// One lexical token. A group holds its interior tokens verbatim; the parser
/// never looks inside a group, it treats the whole group as one opaque unit.
#[derive(Debug)]
pub enum Token {
    Ident { name: String, span: Span },
    Punct { ch: char, span: Span },
    Literal { repr: String, span: Span },
    Group { delimiter: Delimiter, tokens: Vec<Token>, span: Span },
}

/// The mathematical model of a token. Spans are dropped: they locate a token
/// in the source but play no part in any parsing decision or in equality.
#[verifier::ext_equal]
pub enum TokenView {
    Ident { name: Seq<char> },
    Punct { ch: char },
    Literal { repr: Seq<char> },
    Group { delimiter: Delimiter, tokens: Seq<TokenView> },
}

pub open spec fn token_view(t: Token) -> TokenView
    decreases t,
{
    match t {
        Token::Ident { name, .. } => TokenView::Ident { name: name@ },
        Token::Punct { ch, .. } => TokenView::Punct { ch },
        Token::Literal { repr, .. } => TokenView::Literal { repr: repr@ },
        Token::Group { delimiter, tokens, .. } => TokenView::Group {
            delimiter,
            tokens: tokens_view(tokens@),
        },
    }
}

pub open spec fn tokens_view(s: Seq<Token>) -> Seq<TokenView>
    decreases s,
{
    if s.len() == 0 {
        Seq::empty()
    } else {
        seq![token_view(s[0])] + tokens_view(s.drop_first())
    }
}

impl View for Token {
    type V = TokenView;

    open spec fn view(&self) -> TokenView {
        token_view(*self)
    }
}

pub broadcast proof fn lemma_tokens_view_len(s: Seq<Token>)
    ensures
        #[trigger] tokens_view(s).len() == s.len(),
    decreases s,
{
    if s.len() > 0 {
        lemma_tokens_view_len(s.drop_first());
    }
}

pub broadcast proof fn lemma_tokens_view_index(s: Seq<Token>, i: int)
    requires
        0 <= i < s.len(),
    ensures
        #[trigger] tokens_view(s)[i] == token_view(s[i]),
    decreases s,
{
    lemma_tokens_view_len(s);
    if i > 0 {
        lemma_tokens_view_index(s.drop_first(), i - 1);
    }
}

/// Removing the first token of a cursor drops the first model token.
pub broadcast proof fn lemma_tokens_view_drop_first(s: Seq<Token>)
    requires
        s.len() > 0,
    ensures
        #[trigger] tokens_view(s.drop_first()) == tokens_view(s).drop_first(),
{
    lemma_tokens_view_len(s);
    lemma_tokens_view_len(s.drop_first());
    assert forall|i: int| 0 <= i < s.len() - 1 implies tokens_view(s.drop_first())[i]
        == tokens_view(s).drop_first()[i] by {
        lemma_tokens_view_index(s.drop_first(), i);
        lemma_tokens_view_index(s, i + 1);
    }
    assert(tokens_view(s.drop_first()) =~= tokens_view(s).drop_first());
}

/// The source span a token carries.
pub open spec fn token_span(t: Token) -> Span {
    match t {
        Token::Ident { span, .. } => span,
        Token::Punct { span, .. } => span,
        Token::Literal { span, .. } => span,
        Token::Group { span, .. } => span,
    }
}

impl Token {
    /// The source span of this token.
    pub fn span(&self) -> (r: Span)
        ensures
            r == token_span(*self),
    {
        match self {
            Token::Ident { span, .. } => *span,
            Token::Punct { span, .. } => *span,
            Token::Literal { span, .. } => *span,
            Token::Group { span, .. } => *span,
        }
    }
}

/// A copy of a string that is known, in specifications, to equal the
/// original.
pub fn dup_string(s: &String) -> (r: String)
    ensures
        r@ == s@,
{
    String::from_str(s.as_str())
}

/// Structural equality of tokens, ignoring spans: two tokens are equal when
/// their models are.
#[verifier::loop_isolation(false)]
pub fn token_eq(a: &Token, b: &Token) -> (r: bool)
    ensures
        r == (token_view(*a) == token_view(*b)),
    decreases *a,
{
    match a {
        Token::Ident { name: n1, .. } => match b {
            Token::Ident { name: n2, .. } => *n1 == *n2,
            _ => false,
        },
        Token::Punct { ch: c1, .. } => match b {
            Token::Punct { ch: c2, .. } => *c1 == *c2,
            _ => false,
        },
        Token::Literal { repr: r1, .. } => match b {
            Token::Literal { repr: r2, .. } => *r1 == *r2,
            _ => false,
        },
        Token::Group { delimiter: d1, tokens: t1, .. } => match b {
            Token::Group { delimiter: d2, tokens: t2, .. } => {
                proof {
                    lemma_tokens_view_len(t1@);
                    lemma_tokens_view_len(t2@);
                }
                if *d1 != *d2 || t1.len() != t2.len() {
                    return false;
                }
                let mut i: usize = 0;
                while i < t1.len()
                    invariant
                        i <= t1@.len(),
                        forall|j: int| 0 <= j < i ==> token_view(t1@[j]) == token_view(t2@[j]),
                    decreases t1@.len() - i,
                {
                    proof {
                        lemma_tokens_view_index(t1@, i as int);
                        lemma_tokens_view_index(t2@, i as int);
                        assert(decreases_to!(*a => t1@));
                        assert(decreases_to!(t1@ => t1@[i as int]));
                    }
                    if !token_eq(&t1[i], &t2[i]) {
                        return false;
                    }
                    i = i + 1;
                }
                proof {
                    assert forall|j: int| 0 <= j < t1@.len() implies tokens_view(t1@)[j]
                        == tokens_view(t2@)[j] by {
                        lemma_tokens_view_index(t1@, j);
                        lemma_tokens_view_index(t2@, j);
                    }
                    assert(tokens_view(t1@) =~= tokens_view(t2@));
                }
                true
            },
            _ => false,
        },
    }
}

impl PartialEq for Token {
    fn eq(&self, other: &Token) -> (r: bool) {
        token_eq(self, other)
    }
}

impl vstd::std_specs::cmp::PartialEqSpecImpl for Token {
    open spec fn obeys_eq_spec() -> bool {
        true
    }

    open spec fn eq_spec(&self, other: &Token) -> bool {
        token_view(*self) == token_view(*other)
    }
}

} // verus!
