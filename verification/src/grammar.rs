//! The grammar, stated the other way around: a printer from item trees back
//! to raw tokens, and the laws tying the parser to it. Parsing the printed
//! form of any well-formed tree yields exactly that tree back; trailing
//! tokens, mismatched close tags and unopened closers are rejected with the
//! errors the parser's model names.

use vstd::prelude::*;

use crate::tokenizer::{
    is_punct, is_textish, spec_scan_attrs, spec_tokenize, HtmlTokenView, TokenizeErrorView,
};
use crate::tokens::TokenView;
use crate::{
    expected_closing_msg, push_child, spec_emit, spec_parse, spec_parse_loop, AttrView, ItemView,
    OpenView, ParseErrorView,
};

verus! {

/// A punctuation token.
pub open spec fn punct(c: char) -> TokenView {
    TokenView::Punct { ch: c }
}

/// The token form of one attribute: `name = value`.
pub open spec fn attr_tokens(a: AttrView) -> Seq<TokenView> {
    seq![TokenView::Ident { name: a.name }, punct('='), a.value]
}

/// The token form of an attribute list, in order.
pub open spec fn attrs_tokens(attrs: Seq<AttrView>) -> Seq<TokenView>
    decreases attrs.len(),
{
    if attrs.len() == 0 {
        Seq::empty()
    } else {
        attr_tokens(attrs[0]) + attrs_tokens(attrs.drop_first())
    }
}

/// The token form of an opening tag: `<name attrs... >`.
pub open spec fn open_tag_tokens(name: Seq<char>, attrs: Seq<AttrView>) -> Seq<TokenView> {
    seq![punct('<'), TokenView::Ident { name }] + attrs_tokens(attrs) + seq![punct('>')]
}

/// The token form of a self-closing tag: `<name attrs... />`.
pub open spec fn self_closing_tokens(name: Seq<char>, attrs: Seq<AttrView>) -> Seq<TokenView> {
    seq![punct('<'), TokenView::Ident { name }] + attrs_tokens(attrs) + seq![
        punct('/'),
        punct('>'),
    ]
}

/// The token form of a closing tag: `</name>`.
pub open spec fn close_tag_tokens(name: Seq<char>) -> Seq<TokenView> {
    seq![punct('<'), punct('/'), TokenView::Ident { name }, punct('>')]
}

/// The token form of an opening fragment marker: `<>`.
pub open spec fn open_fragment_tokens() -> Seq<TokenView> {
    seq![punct('<'), punct('>')]
}

/// The token form of a closing fragment marker: `</>`.
pub open spec fn close_fragment_tokens() -> Seq<TokenView> {
    seq![punct('<'), punct('/'), punct('>')]
}

/// The token form of a whole item tree: the canonical input that parses to
/// that tree.
pub open spec fn item_tokens(t: ItemView) -> Seq<TokenView>
    decreases t,
{
    match t {
        ItemView::Tag { name, attributes, children } => open_tag_tokens(name, attributes)
            + items_tokens(children) + close_tag_tokens(name),
        ItemView::SelfClosingTag { name, attributes } => self_closing_tokens(name, attributes),
        ItemView::Fragment { children } => open_fragment_tokens() + items_tokens(children)
            + close_fragment_tokens(),
        ItemView::Content { token } => seq![token],
    }
}

/// The token forms of a list of sibling items, in order.
pub open spec fn items_tokens(s: Seq<ItemView>) -> Seq<TokenView>
    decreases s,
{
    if s.len() == 0 {
        Seq::empty()
    } else {
        item_tokens(s[0]) + items_tokens(s.drop_first())
    }
}

/// Well-formedness of an attribute list: every value is a literal or a
/// bracketed group, as the tokenizer produces.
pub open spec fn wf_attrs(attrs: Seq<AttrView>) -> bool {
    forall|i: int| 0 <= i < attrs.len() ==> is_textish(#[trigger] attrs[i].value)
}

/// Well-formedness of an item tree: every content leaf and attribute value
/// is a literal or a bracketed group, the only shapes the tokenizer accepts
/// in those positions.
pub open spec fn wf_item(t: ItemView) -> bool
    decreases t,
{
    match t {
        ItemView::Tag { name, attributes, children } => wf_attrs(attributes) && wf_items(children),
        ItemView::SelfClosingTag { name, attributes } => wf_attrs(attributes),
        ItemView::Fragment { children } => wf_items(children),
        ItemView::Content { token } => is_textish(token),
    }
}

/// Well-formedness of a list of sibling items.
pub open spec fn wf_items(s: Seq<ItemView>) -> bool
    decreases s,
{
    if s.len() == 0 {
        true
    } else {
        wf_item(s[0]) && wf_items(s.drop_first())
    }
}

/// The attribute scan, fed the printed form of an attribute list followed by
/// `>`, accepts every attribute in order and ends the opening tag there.
proof fn lemma_scan_printed_attrs_open(
    name: Seq<char>,
    acc: Seq<AttrView>,
    attrs: Seq<AttrView>,
    rest: Seq<TokenView>,
)
    requires
        wf_attrs(attrs),
    ensures
        spec_scan_attrs(name, acc, attrs_tokens(attrs) + seq![punct('>')] + rest) == Ok::<
            _,
            TokenizeErrorView,
        >((HtmlTokenView::OpenTag { name, attributes: acc + attrs }, rest)),
    decreases attrs.len(),
{
    let ts = attrs_tokens(attrs) + seq![punct('>')] + rest;
    if attrs.len() == 0 {
        assert(ts =~= seq![punct('>')] + rest);
        assert(ts.drop_first() =~= rest);
        assert(acc + attrs =~= acc);
    } else {
        let a0 = attrs[0];
        assert(ts =~= attr_tokens(a0) + (attrs_tokens(attrs.drop_first()) + seq![punct('>')]
            + rest));
        assert(ts[0] == TokenView::Ident { name: a0.name });
        assert(ts[1] == punct('='));
        assert(ts[2] == a0.value);
        assert(is_textish(a0.value));
        let ts3 = ts.drop_first().drop_first().drop_first();
        assert(ts3 =~= attrs_tokens(attrs.drop_first()) + seq![punct('>')] + rest);
        assert(AttrView { name: a0.name, value: a0.value } =~= a0);
        assert(wf_attrs(attrs.drop_first()));
        lemma_scan_printed_attrs_open(name, acc.push(a0), attrs.drop_first(), rest);
        assert(acc.push(a0) + attrs.drop_first() =~= acc + attrs);
    }
}

/// The attribute scan, fed the printed form of an attribute list followed by
/// `/>`, accepts every attribute in order and ends the self-closing tag
/// there.
proof fn lemma_scan_printed_attrs_self_closing(
    name: Seq<char>,
    acc: Seq<AttrView>,
    attrs: Seq<AttrView>,
    rest: Seq<TokenView>,
)
    requires
        wf_attrs(attrs),
    ensures
        spec_scan_attrs(name, acc, attrs_tokens(attrs) + seq![punct('/'), punct('>')] + rest)
            == Ok::<_, TokenizeErrorView>(
            (HtmlTokenView::SelfClosingTag { name, attributes: acc + attrs }, rest),
        ),
    decreases attrs.len(),
{
    let ts = attrs_tokens(attrs) + seq![punct('/'), punct('>')] + rest;
    if attrs.len() == 0 {
        assert(ts =~= seq![punct('/'), punct('>')] + rest);
        assert(ts.drop_first() =~= seq![punct('>')] + rest);
        assert(ts.drop_first().drop_first() =~= rest);
        assert(acc + attrs =~= acc);
    } else {
        let a0 = attrs[0];
        assert(ts[0] == TokenView::Ident { name: a0.name });
        assert(ts[1] == punct('='));
        assert(ts[2] == a0.value);
        assert(is_textish(a0.value));
        let ts3 = ts.drop_first().drop_first().drop_first();
        assert(ts3 =~= attrs_tokens(attrs.drop_first()) + seq![punct('/'), punct('>')] + rest);
        assert(AttrView { name: a0.name, value: a0.value } =~= a0);
        assert(wf_attrs(attrs.drop_first()));
        lemma_scan_printed_attrs_self_closing(name, acc.push(a0), attrs.drop_first(), rest);
        assert(acc.push(a0) + attrs.drop_first() =~= acc + attrs);
    }
}

/// Tokenizing a printed opening tag yields that opening tag.
proof fn lemma_tokenize_open_tag(name: Seq<char>, attrs: Seq<AttrView>, rest: Seq<TokenView>)
    requires
        wf_attrs(attrs),
    ensures
        spec_tokenize(open_tag_tokens(name, attrs) + rest) == Ok::<_, TokenizeErrorView>(
            (HtmlTokenView::OpenTag { name, attributes: attrs }, rest),
        ),
{
    let ts = open_tag_tokens(name, attrs) + rest;
    assert(ts[0] == punct('<'));
    assert(ts[1] == TokenView::Ident { name });
    assert(ts.drop_first().drop_first() =~= attrs_tokens(attrs) + seq![punct('>')] + rest);
    lemma_scan_printed_attrs_open(name, Seq::empty(), attrs, rest);
    assert(Seq::<AttrView>::empty() + attrs =~= attrs);
}

/// Tokenizing a printed self-closing tag yields that self-closing tag.
proof fn lemma_tokenize_self_closing(name: Seq<char>, attrs: Seq<AttrView>, rest: Seq<TokenView>)
    requires
        wf_attrs(attrs),
    ensures
        spec_tokenize(self_closing_tokens(name, attrs) + rest) == Ok::<_, TokenizeErrorView>(
            (HtmlTokenView::SelfClosingTag { name, attributes: attrs }, rest),
        ),
{
    let ts = self_closing_tokens(name, attrs) + rest;
    assert(ts[0] == punct('<'));
    assert(ts[1] == TokenView::Ident { name });
    assert(ts.drop_first().drop_first() =~= attrs_tokens(attrs) + seq![punct('/'), punct('>')]
        + rest);
    lemma_scan_printed_attrs_self_closing(name, Seq::empty(), attrs, rest);
    assert(Seq::<AttrView>::empty() + attrs =~= attrs);
}

/// Tokenizing a printed closing tag yields that closing tag.
proof fn lemma_tokenize_close_tag(name: Seq<char>, rest: Seq<TokenView>)
    ensures
        spec_tokenize(close_tag_tokens(name) + rest) == Ok::<_, TokenizeErrorView>(
            (HtmlTokenView::CloseTag { name }, rest),
        ),
{
    let ts = close_tag_tokens(name) + rest;
    assert(ts[0] == punct('<'));
    assert(ts[1] == punct('/'));
    assert(ts[2] == TokenView::Ident { name });
    assert(ts[3] == punct('>'));
    assert(ts.drop_first().drop_first() =~= seq![TokenView::Ident { name }, punct('>')] + rest);
    assert(ts.drop_first().drop_first().drop_first() =~= seq![punct('>')] + rest);
    assert(ts.drop_first().drop_first().drop_first().drop_first() =~= rest);
}

/// Tokenizing a printed opening fragment marker yields an opening fragment.
proof fn lemma_tokenize_open_fragment(rest: Seq<TokenView>)
    ensures
        spec_tokenize(open_fragment_tokens() + rest) == Ok::<_, TokenizeErrorView>(
            (HtmlTokenView::OpenFragment, rest),
        ),
{
    let ts = open_fragment_tokens() + rest;
    assert(ts[0] == punct('<'));
    assert(ts[1] == punct('>'));
    assert(ts.drop_first().drop_first() =~= rest);
}

/// Tokenizing a printed closing fragment marker yields a closing fragment.
proof fn lemma_tokenize_close_fragment(rest: Seq<TokenView>)
    ensures
        spec_tokenize(close_fragment_tokens() + rest) == Ok::<_, TokenizeErrorView>(
            (HtmlTokenView::CloseFragment, rest),
        ),
{
    let ts = close_fragment_tokens() + rest;
    assert(ts[0] == punct('<'));
    assert(ts[1] == punct('/'));
    assert(ts[2] == punct('>'));
    assert(ts.drop_first().drop_first().drop_first() =~= rest);
}

/// Tokenizing a content token yields that token as content.
proof fn lemma_tokenize_textish(token: TokenView, rest: Seq<TokenView>)
    requires
        is_textish(token),
    ensures
        spec_tokenize(seq![token] + rest) == Ok::<_, TokenizeErrorView>(
            (HtmlTokenView::Textish { content: token }, rest),
        ),
{
    let ts = seq![token] + rest;
    assert(ts[0] == token);
    assert(ts.drop_first() =~= rest);
}

/// Appends a whole list of items to the children of the top of the stack.
pub open spec fn push_children(
    stack: Seq<(OpenView, Seq<ItemView>)>,
    items: Seq<ItemView>,
) -> Seq<(OpenView, Seq<ItemView>)>
    recommends
        stack.len() > 0,
{
    stack.update(stack.len() - 1, (stack.last().0, stack.last().1 + items))
}

/// Running the builder on the printed form of one well-formed item, inside
/// any open context, consumes exactly that printed form and appends the item
/// to the innermost context's children.
#[verifier::rlimit(50)]
pub proof fn lemma_parse_item(t: ItemView, rest: Seq<TokenView>, stack: Seq<(OpenView, Seq<ItemView>)>)
    requires
        wf_item(t),
        stack.len() > 0,
    ensures
        spec_parse_loop(item_tokens(t) + rest, stack) == spec_parse_loop(
            rest,
            push_child(stack, t),
        ),
    decreases t,
{
    match t {
        ItemView::Content { token } => {
            lemma_tokenize_textish(token, rest);
            assert(spec_parse_loop(item_tokens(t) + rest, stack) == spec_emit(
                ItemView::Content { token },
                rest,
                stack,
            ));
        },
        ItemView::SelfClosingTag { name, attributes } => {
            lemma_tokenize_self_closing(name, attributes, rest);
            assert(item_tokens(t) + rest =~= self_closing_tokens(name, attributes) + rest);
            assert(spec_parse_loop(item_tokens(t) + rest, stack) == spec_emit(
                ItemView::SelfClosingTag { name, attributes },
                rest,
                stack,
            ));
        },
        ItemView::Tag { name, attributes, children } => {
            let inner = items_tokens(children) + (close_tag_tokens(name) + rest);
            assert(item_tokens(t) + rest =~= open_tag_tokens(name, attributes) + inner);
            lemma_tokenize_open_tag(name, attributes, inner);
            let stack1 = stack.push((OpenView::Tag { name, attributes }, Seq::empty()));
            assert(spec_parse_loop(item_tokens(t) + rest, stack) == spec_parse_loop(
                inner,
                stack1,
            ));
            lemma_parse_items(children, close_tag_tokens(name) + rest, stack1);
            let stack2 = push_children(stack1, children);
            assert(stack2.last().0 == OpenView::Tag { name, attributes });
            assert(stack2.last().1 =~= children);
            lemma_tokenize_close_tag(name, rest);
            assert(stack2.drop_last() =~= stack);
            assert(stack2.last() == (OpenView::Tag { name, attributes }, stack2.last().1));
            assert(spec_parse_loop(close_tag_tokens(name) + rest, stack2) == spec_emit(
                ItemView::Tag { name, attributes, children: stack2.last().1 },
                rest,
                stack,
            ));
            assert(ItemView::Tag { name, attributes, children: stack2.last().1 } == t);
        },
        ItemView::Fragment { children } => {
            let inner = items_tokens(children) + (close_fragment_tokens() + rest);
            assert(item_tokens(t) + rest =~= open_fragment_tokens() + inner);
            lemma_tokenize_open_fragment(inner);
            let stack1 = stack.push((OpenView::Fragment, Seq::empty()));
            assert(spec_parse_loop(item_tokens(t) + rest, stack) == spec_parse_loop(
                inner,
                stack1,
            ));
            lemma_parse_items(children, close_fragment_tokens() + rest, stack1);
            let stack2 = push_children(stack1, children);
            assert(stack2.last().0 == OpenView::Fragment);
            assert(stack2.last().1 =~= children);
            lemma_tokenize_close_fragment(rest);
            assert(stack2.drop_last() =~= stack);
            assert(spec_parse_loop(close_fragment_tokens() + rest, stack2) == spec_emit(
                ItemView::Fragment { children: stack2.last().1 },
                rest,
                stack,
            ));
            assert(ItemView::Fragment { children: stack2.last().1 } == t);
        },
    }
}

/// Running the builder on the printed forms of a list of well-formed items,
/// inside any open context, appends them all, in order, to the innermost
/// context's children.
pub proof fn lemma_parse_items(
    items: Seq<ItemView>,
    rest: Seq<TokenView>,
    stack: Seq<(OpenView, Seq<ItemView>)>,
)
    requires
        wf_items(items),
        stack.len() > 0,
    ensures
        spec_parse_loop(items_tokens(items) + rest, stack) == spec_parse_loop(
            rest,
            push_children(stack, items),
        ),
    decreases items,
{
    if items.len() == 0 {
        assert(items_tokens(items) + rest =~= rest);
        assert(push_children(stack, items) =~= stack);
    } else {
        let x = items[0];
        assert(items_tokens(items) + rest =~= item_tokens(x) + (items_tokens(items.drop_first())
            + rest));
        lemma_parse_item(x, items_tokens(items.drop_first()) + rest, stack);
        let stack1 = push_child(stack, x);
        lemma_parse_items(items.drop_first(), rest, stack1);
        assert(stack.last().1.push(x) + items.drop_first() =~= stack.last().1 + items);
        assert(push_children(stack1, items.drop_first()) =~= push_children(stack, items));
    }
}

/// The root law of the grammar: the printed form of any well-formed item
/// tree parses back to exactly that tree, and anything left after it is
/// rejected as a trailing token.
#[verifier::rlimit(80)]
pub proof fn lemma_parse_printed_item(t: ItemView, rest: Seq<TokenView>)
    requires
        wf_item(t),
    ensures
        spec_parse(item_tokens(t) + rest) == if rest.len() == 0 {
            Ok::<_, ParseErrorView>(t)
        } else {
            Err::<ItemView, _>(ParseErrorView::UnexpectedToken(rest[0]))
        },
{
    let empty_stack = Seq::<(OpenView, Seq<ItemView>)>::empty();
    match t {
        ItemView::Content { token } => {
            lemma_tokenize_textish(token, rest);
            assert(spec_parse_loop(item_tokens(t) + rest, empty_stack) == spec_emit(
                ItemView::Content { token },
                rest,
                empty_stack,
            ));
        },
        ItemView::SelfClosingTag { name, attributes } => {
            lemma_tokenize_self_closing(name, attributes, rest);
            assert(item_tokens(t) + rest =~= self_closing_tokens(name, attributes) + rest);
            assert(spec_parse_loop(item_tokens(t) + rest, empty_stack) == spec_emit(
                ItemView::SelfClosingTag { name, attributes },
                rest,
                empty_stack,
            ));
        },
        ItemView::Tag { name, attributes, children } => {
            let inner = items_tokens(children) + (close_tag_tokens(name) + rest);
            assert(item_tokens(t) + rest =~= open_tag_tokens(name, attributes) + inner);
            lemma_tokenize_open_tag(name, attributes, inner);
            let stack1 = empty_stack.push((OpenView::Tag { name, attributes }, Seq::empty()));
            lemma_parse_items(children, close_tag_tokens(name) + rest, stack1);
            let stack2 = push_children(stack1, children);
            assert(stack2.last().0 == OpenView::Tag { name, attributes });
            assert(stack2.last().1 =~= children);
            lemma_tokenize_close_tag(name, rest);
            assert(stack2.drop_last() =~= empty_stack);
            assert(spec_parse_loop(close_tag_tokens(name) + rest, stack2) == spec_emit(
                ItemView::Tag { name, attributes, children: stack2.last().1 },
                rest,
                empty_stack,
            ));
            assert(ItemView::Tag { name, attributes, children: stack2.last().1 } == t);
        },
        ItemView::Fragment { children } => {
            let inner = items_tokens(children) + (close_fragment_tokens() + rest);
            assert(item_tokens(t) + rest =~= open_fragment_tokens() + inner);
            lemma_tokenize_open_fragment(inner);
            let stack1 = empty_stack.push((OpenView::Fragment, Seq::empty()));
            lemma_parse_items(children, close_fragment_tokens() + rest, stack1);
            let stack2 = push_children(stack1, children);
            assert(stack2.last().0 == OpenView::Fragment);
            assert(stack2.last().1 =~= children);
            lemma_tokenize_close_fragment(rest);
            assert(stack2.drop_last() =~= empty_stack);
            assert(spec_parse_loop(close_fragment_tokens() + rest, stack2) == spec_emit(
                ItemView::Fragment { children: stack2.last().1 },
                rest,
                empty_stack,
            ));
            assert(ItemView::Fragment { children: stack2.last().1 } == t);
        },
    }
}

/// Re-parsing the token form of a well-formed tree yields an equal tree:
/// parsing is a left inverse of printing.
pub proof fn lemma_parse_print_round_trip(t: ItemView)
    requires
        wf_item(t),
    ensures
        spec_parse(item_tokens(t)) == Ok::<_, ParseErrorView>(t),
{
    lemma_parse_printed_item(t, Seq::empty());
    assert(item_tokens(t) + Seq::<TokenView>::empty() =~= item_tokens(t));
}

/// Trailing tokens after a complete root are rejected: the parse fails on
/// the first token past the root, whatever it is.
pub proof fn lemma_trailing_tokens_rejected(t: ItemView, rest: Seq<TokenView>)
    requires
        wf_item(t),
        rest.len() > 0,
    ensures
        spec_parse(item_tokens(t) + rest) == Err::<ItemView, _>(
            ParseErrorView::UnexpectedToken(rest[0]),
        ),
{
    lemma_parse_printed_item(t, rest);
}

/// Attribute order is preserved: a tag whose printed form carries any list
/// of attributes parses back with that list, in that exact order.
pub proof fn lemma_attribute_order_preserved(name: Seq<char>, attrs: Seq<AttrView>)
    requires
        wf_attrs(attrs),
    ensures
        spec_parse(open_tag_tokens(name, attrs) + close_tag_tokens(name)) == Ok::<
            _,
            ParseErrorView,
        >(ItemView::Tag { name, attributes: attrs, children: Seq::empty() }),
{
    let t = ItemView::Tag { name, attributes: attrs, children: Seq::empty() };
    lemma_parse_print_round_trip(t);
    assert(item_tokens(t) =~= open_tag_tokens(name, attrs) + close_tag_tokens(name));
}

/// A self-closing tag parses to a childless item: there is no children field
/// at all, and the attribute list is exactly the printed one.
pub proof fn lemma_self_closing_childless(name: Seq<char>, attrs: Seq<AttrView>)
    requires
        wf_attrs(attrs),
    ensures
        spec_parse(self_closing_tokens(name, attrs)) == Ok::<_, ParseErrorView>(
            ItemView::SelfClosingTag { name, attributes: attrs },
        ),
{
    lemma_parse_print_round_trip(ItemView::SelfClosingTag { name, attributes: attrs });
}

/// A mismatched close tag is always an error naming the expected closer.
pub proof fn lemma_mismatched_close_rejected(
    name: Seq<char>,
    attrs: Seq<AttrView>,
    other: Seq<char>,
)
    requires
        wf_attrs(attrs),
        name != other,
    ensures
        spec_parse(open_tag_tokens(name, attrs) + close_tag_tokens(other)) == Err::<ItemView, _>(
            ParseErrorView::UnexpectedItem {
                token: HtmlTokenView::CloseTag { name: other },
                expected: expected_closing_msg(name),
            },
        ),
{
    let ts = open_tag_tokens(name, attrs) + close_tag_tokens(other);
    lemma_tokenize_open_tag(name, attrs, close_tag_tokens(other));
    let empty_stack = Seq::<(OpenView, Seq<ItemView>)>::empty();
    let stack1 = empty_stack.push((OpenView::Tag { name, attributes: attrs }, Seq::empty()));
    assert(spec_parse(ts) == spec_parse_loop(close_tag_tokens(other), stack1));
    lemma_tokenize_close_tag(other, Seq::empty());
    assert(close_tag_tokens(other) + Seq::<TokenView>::empty() =~= close_tag_tokens(other));
    assert(spec_tokenize(close_tag_tokens(other)) == Ok::<_, TokenizeErrorView>(
        (HtmlTokenView::CloseTag { name: other }, Seq::<TokenView>::empty()),
    ));
    assert(stack1.last().0 == OpenView::Tag { name, attributes: attrs });
    assert(spec_parse_loop(close_tag_tokens(other), stack1) == Err::<ItemView, _>(
        ParseErrorView::UnexpectedItem {
            token: HtmlTokenView::CloseTag { name: other },
            expected: expected_closing_msg(name),
        },
    ));
}

/// Closing a context that was never opened fails: a bare closing tag is
/// rejected, never silently accepted.
pub proof fn lemma_close_without_open_rejected(name: Seq<char>)
    ensures
        spec_parse(close_tag_tokens(name)) == Err::<ItemView, _>(
            ParseErrorView::UnexpectedItem {
                token: HtmlTokenView::CloseTag { name },
                expected: "anything else"@,
            },
        ),
{
    lemma_tokenize_close_tag(name, Seq::empty());
    assert(close_tag_tokens(name) + Seq::<TokenView>::empty() =~= close_tag_tokens(name));
}

/// Closing a fragment that was never opened fails in the same way.
pub proof fn lemma_close_fragment_without_open_rejected()
    ensures
        spec_parse(close_fragment_tokens()) == Err::<ItemView, _>(
            ParseErrorView::UnexpectedItem {
                token: HtmlTokenView::CloseFragment,
                expected: "anything else"@,
            },
        ),
{
    lemma_tokenize_close_fragment(Seq::empty());
    assert(close_fragment_tokens() + Seq::<TokenView>::empty() =~= close_fragment_tokens());
}


/// Well-formedness of one tag-level token: attribute values and content are
/// literals or bracketed groups.
pub open spec fn wf_html_token(t: HtmlTokenView) -> bool {
    match t {
        HtmlTokenView::OpenTag { attributes, .. } => wf_attrs(attributes),
        HtmlTokenView::SelfClosingTag { attributes, .. } => wf_attrs(attributes),
        HtmlTokenView::Textish { content } => is_textish(content),
        _ => true,
    }
}

/// Well-formedness of the open-context stack: every open tag's attributes
/// and every accumulated child list are well-formed.
pub open spec fn wf_stack(stack: Seq<(OpenView, Seq<ItemView>)>) -> bool {
    forall|i: int|
        0 <= i < stack.len() ==> {
            &&& ((#[trigger] stack[i]).0 matches OpenView::Tag { attributes, .. }
                ==> wf_attrs(attributes))
            &&& wf_items(stack[i].1)
        }
}

proof fn lemma_wf_items_push(s: Seq<ItemView>, x: ItemView)
    requires
        wf_items(s),
        wf_item(x),
    ensures
        wf_items(s.push(x)),
    decreases s.len(),
{
    if s.len() == 0 {
        assert(s.push(x).drop_first() =~= Seq::<ItemView>::empty());
        assert(s.push(x)[0] == x);
        assert(wf_items(Seq::<ItemView>::empty()));
    } else {
        assert(s.push(x)[0] == s[0]);
        assert(s.push(x).drop_first() =~= s.drop_first().push(x));
        lemma_wf_items_push(s.drop_first(), x);
    }
}

/// The attribute scan only ever collects literal or bracketed-group values.
proof fn lemma_scan_attrs_wf(name: Seq<char>, acc: Seq<AttrView>, ts: Seq<TokenView>)
    requires
        wf_attrs(acc),
    ensures
        spec_scan_attrs(name, acc, ts) matches Ok(p) ==> wf_html_token(p.0),
    decreases ts.len(),
{
    if ts.len() > 0 {
        match ts[0] {
            TokenView::Ident { name: attr_name } => {
                let rest = ts.drop_first();
                if rest.len() > 0 && is_punct(rest[0], '=') {
                    let rest2 = rest.drop_first();
                    if rest2.len() > 0 && is_textish(rest2[0]) {
                        let acc2 = acc.push(AttrView { name: attr_name, value: rest2[0] });
                        assert forall|i: int| 0 <= i < acc2.len() implies is_textish(
                            #[trigger] acc2[i].value,
                        ) by {
                            if i < acc.len() {
                                assert(acc2[i] == acc[i]);
                            }
                        }
                        lemma_scan_attrs_wf(name, acc2, rest2.drop_first());
                    }
                }
            },
            _ => {},
        }
    }
}

/// Every tag-level token the tokenizer yields is well-formed.
proof fn lemma_tokenize_wf(ts: Seq<TokenView>)
    ensures
        spec_tokenize(ts) matches Ok(p) ==> wf_html_token(p.0),
{
    if ts.len() > 0 && is_punct(ts[0], '<') {
        let rest = ts.drop_first();
        if rest.len() > 0 {
            match rest[0] {
                TokenView::Ident { name } => {
                    assert(wf_attrs(Seq::<AttrView>::empty()));
                    lemma_scan_attrs_wf(name, Seq::empty(), rest.drop_first());
                },
                _ => {},
            }
        }
    }
}

/// On a well-formed stack, a successful run of the builder yields a
/// well-formed tree.
proof fn lemma_parse_loop_wf(ts: Seq<TokenView>, stack: Seq<(OpenView, Seq<ItemView>)>)
    requires
        wf_stack(stack),
    ensures
        spec_parse_loop(ts, stack) matches Ok(t) ==> wf_item(t),
    decreases ts.len(), 0int,
{
    crate::tokenizer::lemma_spec_tokenize_shrinks(ts);
    lemma_tokenize_wf(ts);
    match spec_tokenize(ts) {
        Err(_) => {},
        Ok((tok, rest)) => match tok {
            HtmlTokenView::OpenTag { name, attributes } => {
                let stack1 = stack.push((OpenView::Tag { name, attributes }, Seq::empty()));
                assert forall|i: int| 0 <= i < stack1.len() implies {
                    &&& ((#[trigger] stack1[i]).0 matches OpenView::Tag { attributes: a, .. }
                        ==> wf_attrs(a))
                    &&& wf_items(stack1[i].1)
                } by {
                    if i < stack.len() {
                        assert(stack1[i] == stack[i]);
                    }
                }
                lemma_parse_loop_wf(rest, stack1);
            },
            HtmlTokenView::OpenFragment => {
                let stack1 = stack.push((OpenView::Fragment, Seq::empty()));
                assert forall|i: int| 0 <= i < stack1.len() implies {
                    &&& ((#[trigger] stack1[i]).0 matches OpenView::Tag { attributes: a, .. }
                        ==> wf_attrs(a))
                    &&& wf_items(stack1[i].1)
                } by {
                    if i < stack.len() {
                        assert(stack1[i] == stack[i]);
                    }
                }
                lemma_parse_loop_wf(rest, stack1);
            },
            HtmlTokenView::CloseTag { name } => {
                if stack.len() > 0 {
                    match stack.last().0 {
                        OpenView::Fragment => {},
                        OpenView::Tag { name: open_name, attributes } => {
                            if open_name == name {
                                assert(stack.last() == stack[stack.len() - 1]);
                                let item = ItemView::Tag {
                                    name: open_name,
                                    attributes,
                                    children: stack.last().1,
                                };
                                assert(wf_item(item));
                                lemma_emit_wf(item, rest, stack.drop_last());
                            }
                        },
                    }
                }
            },
            HtmlTokenView::CloseFragment => {
                if stack.len() > 0 {
                    match stack.last().0 {
                        OpenView::Tag { .. } => {},
                        OpenView::Fragment => {
                            assert(stack.last() == stack[stack.len() - 1]);
                            let item = ItemView::Fragment { children: stack.last().1 };
                            assert(wf_item(item));
                            lemma_emit_wf(item, rest, stack.drop_last());
                        },
                    }
                }
            },
            HtmlTokenView::SelfClosingTag { name, attributes } => {
                lemma_emit_wf(ItemView::SelfClosingTag { name, attributes }, rest, stack);
            },
            HtmlTokenView::Textish { content } => {
                lemma_emit_wf(ItemView::Content { token: content }, rest, stack);
            },
        },
    }
}

/// Emitting a well-formed item over a well-formed stack keeps every
/// reachable result well-formed.
proof fn lemma_emit_wf(item: ItemView, ts: Seq<TokenView>, stack: Seq<(OpenView, Seq<ItemView>)>)
    requires
        wf_item(item),
        wf_stack(stack),
    ensures
        spec_emit(item, ts, stack) matches Ok(t) ==> wf_item(t),
    decreases ts.len(), 1int,
{
    if stack.len() > 0 {
        let stack1 = push_child(stack, item);
        lemma_wf_items_push(stack.last().1, item);
        assert forall|i: int| 0 <= i < stack1.len() implies {
            &&& ((#[trigger] stack1[i]).0 matches OpenView::Tag { attributes: a, .. }
                ==> wf_attrs(a))
            &&& wf_items(stack1[i].1)
        } by {
            if i < stack.len() - 1 {
                assert(stack1[i] == stack[i]);
            } else {
                assert(stack1[i] == (stack.last().0, stack.last().1.push(item)));
            }
        }
        lemma_parse_loop_wf(ts, stack1);
    }
}

/// Every tree the parser returns is well-formed: its content leaves and
/// attribute values are literals or bracketed groups. Together with the
/// round-trip law, re-parsing the token form of any parsed tree yields an
/// equal tree.
pub proof fn lemma_parse_output_well_formed(ts: Seq<TokenView>)
    ensures
        spec_parse(ts) matches Ok(t) ==> wf_item(t),
{
    let empty_stack = Seq::<(OpenView, Seq<ItemView>)>::empty();
    assert(wf_stack(empty_stack));
    lemma_parse_loop_wf(ts, empty_stack);
}

} // verus!
