//! The runtime content values that parsed trees construct: tags, fragments
//! and text, with their HTML serialization. Escaped text is entity-encoded
//! on output; appending a fragment to a parent contributes each of its
//! children rather than one fragment-shaped child.

use vstd::prelude::*;
use vstd::string::StringExecFns;

verus! {

/// The minimal HTML entity encoding of one character: the five significant
/// characters become entities, every other character is kept.
pub open spec fn escape_char(c: char) -> Seq<char> {
    if c == '"' {
        "&quot;"@
    } else if c == '&' {
        "&amp;"@
    } else if c == '\'' {
        "&#x27;"@
    } else if c == '<' {
        "&lt;"@
    } else if c == '>' {
        "&gt;"@
    } else {
        seq![c]
    }
}

/// The minimal HTML entity encoding of a string, character by character.
pub open spec fn escape_min(s: Seq<char>) -> Seq<char>
    decreases s.len(),
{
    if s.len() == 0 {
        Seq::empty()
    } else {
        escape_char(s[0]) + escape_min(s.drop_first())
    }
}

/// Relies on htmlescape::encode_minimal: it replaces each of `"` `&` `'`
/// `<` `>` with its entity (`&quot;` `&amp;` `&#x27;` `&lt;` `&gt;`) and
/// keeps every other character, in order.
#[verifier::external_body]
fn encode_minimal(s: &str) -> (r: String)
    ensures
        r@ == escape_min(s@),
{
    htmlescape::encode_minimal(s)
}

/// The value stored under the given name: the first entry carrying it, if
/// any. A map built only through [`AttributeMap::set_attribute`] never holds
/// a name twice.
pub open spec fn spec_get(
    s: Seq<(Seq<char>, Seq<char>)>,
    k: Seq<char>,
) -> Option<Seq<char>>
    decreases s.len(),
{
    if s.len() == 0 {
        Option::None
    } else if s[0].0 == k {
        Option::Some(s[0].1)
    } else {
        spec_get(s.drop_first(), k)
    }
}

/// What setting an attribute does: the first entry with that name is
/// replaced, keeping its position, or a new entry is appended. Writing the
/// same name twice keeps the last value.
pub open spec fn spec_set(
    s: Seq<(Seq<char>, Seq<char>)>,
    k: Seq<char>,
    v: Seq<char>,
) -> Seq<(Seq<char>, Seq<char>)>
    decreases s.len(),
{
    if s.len() == 0 {
        seq![(k, v)]
    } else if s[0].0 == k {
        seq![(k, v)] + s.drop_first()
    } else {
        seq![s[0]] + spec_set(s.drop_first(), k, v)
    }
}

/// Two attribute maps hold the same names and values, regardless of
/// insertion order.
pub open spec fn map_equiv(a: Seq<(Seq<char>, Seq<char>)>, b: Seq<(Seq<char>, Seq<char>)>) -> bool {
    &&& a.len() == b.len()
    &&& forall|i: int|
        0 <= i < a.len() ==> spec_get(b, (#[trigger] a[i]).0) == Option::Some(a[i].1)
}

/// Setting a name that the first `i` entries do not carry, and entry `i`
/// does, replaces entry `i` in place.
proof fn lemma_spec_set_found(s: Seq<(Seq<char>, Seq<char>)>, k: Seq<char>, v: Seq<char>, i: int)
    requires
        0 <= i < s.len(),
        s[i].0 == k,
        forall|j: int| 0 <= j < i ==> (#[trigger] s[j]).0 != k,
    ensures
        spec_set(s, k, v) == s.update(i, (k, v)),
    decreases s.len(),
{
    if i == 0 {
        assert(spec_set(s, k, v) =~= s.update(0, (k, v)));
    } else {
        lemma_spec_set_found(s.drop_first(), k, v, i - 1);
        assert(spec_set(s, k, v) =~= s.update(i, (k, v)));
    }
}

/// Setting a name that no entry carries appends a new entry.
proof fn lemma_spec_set_missing(s: Seq<(Seq<char>, Seq<char>)>, k: Seq<char>, v: Seq<char>)
    requires
        forall|j: int| 0 <= j < s.len() ==> (#[trigger] s[j]).0 != k,
    ensures
        spec_set(s, k, v) == s.push((k, v)),
    decreases s.len(),
{
    if s.len() > 0 {
        lemma_spec_set_missing(s.drop_first(), k, v);
        assert(spec_set(s, k, v) =~= s.push((k, v)));
    } else {
        assert(spec_set(s, k, v) =~= s.push((k, v)));
    }
}

/// A name that the first `i` entries do not carry, carried by entry `i`,
/// is looked up at entry `i`.
proof fn lemma_spec_get_found(s: Seq<(Seq<char>, Seq<char>)>, k: Seq<char>, i: int)
    requires
        0 <= i < s.len(),
        s[i].0 == k,
        forall|j: int| 0 <= j < i ==> (#[trigger] s[j]).0 != k,
    ensures
        spec_get(s, k) == Option::Some(s[i].1),
    decreases s.len(),
{
    if i > 0 {
        lemma_spec_get_found(s.drop_first(), k, i - 1);
    }
}

/// A name that no entry carries is not found.
proof fn lemma_spec_get_missing(s: Seq<(Seq<char>, Seq<char>)>, k: Seq<char>)
    requires
        forall|j: int| 0 <= j < s.len() ==> (#[trigger] s[j]).0 != k,
    ensures
        spec_get(s, k) is None,
    decreases s.len(),
{
    if s.len() > 0 {
        lemma_spec_get_missing(s.drop_first(), k);
    }
}

/// An attribute name-value map, as the runtime tags carry: insertion order
/// is kept, and writing to an existing name replaces its value in place.
#[derive(Debug)]
pub struct AttributeMap {
    entries: Vec<(String, String)>,
}

pub open spec fn entries_view(s: Seq<(String, String)>) -> Seq<(Seq<char>, Seq<char>)> {
    Seq::new(s.len(), |i: int| (s[i].0@, s[i].1@))
}

impl View for AttributeMap {
    type V = Seq<(Seq<char>, Seq<char>)>;

    closed spec fn view(&self) -> Seq<(Seq<char>, Seq<char>)> {
        entries_view(self.entries@)
    }
}

impl AttributeMap {
    /// An empty map.
    pub fn new() -> (m: AttributeMap)
        ensures
            m@ == Seq::<(Seq<char>, Seq<char>)>::empty(),
    {
        let m = AttributeMap { entries: Vec::new() };
        proof {
            assert(m@ =~= Seq::<(Seq<char>, Seq<char>)>::empty());
        }
        m
    }

    /// The number of attributes held.
    pub fn len(&self) -> (n: usize)
        ensures
            n == self@.len(),
    {
        self.entries.len()
    }

    /// The name and value at the given position, in insertion order.
    pub fn entry_at(&self, i: usize) -> (r: (&String, &String))
        requires
            i < self@.len(),
        ensures
            r.0@ == self@[i as int].0,
            r.1@ == self@[i as int].1,
    {
        (&self.entries[i].0, &self.entries[i].1)
    }

    /// Sets an attribute: replaces the value of an existing name in place,
    /// or appends a new entry. Writing the same name twice keeps the last
    /// value.
    #[verifier::loop_isolation(false)]
    pub fn set_attribute(&mut self, name: String, value: String)
        ensures
            final(self)@ == spec_set(old(self)@, name@, value@),
    {
        let n = self.entries.len();
        let mut i: usize = 0;
        while i < n
            invariant
                n == self.entries@.len(),
                i <= n,
                self == old(self),
                forall|j: int| 0 <= j < i ==> (#[trigger] self@[j]).0 != name@,
            decreases n - i,
        {
            if self.entries[i].0 == name {
                proof {
                    lemma_spec_set_found(self@, name@, value@, i as int);
                }
                let ghost pre = self@;
                self.entries[i] = (name, value);
                proof {
                    assert(self@ =~= pre.update(i as int, (name@, value@)));
                }
                return;
            }
            i = i + 1;
        }
        proof {
            lemma_spec_set_missing(self@, name@, value@);
        }
        let ghost pre = self@;
        self.entries.push((name, value));
        proof {
            assert(self@ =~= pre.push((name@, value@)));
        }
    }

    /// Looks an attribute up by name.
    #[verifier::loop_isolation(false)]
    pub fn get<'a>(&'a self, name: &str) -> (r: Option<&'a String>)
        ensures
            match r {
                Some(v) => spec_get(self@, name@) == Option::Some(v@),
                None => spec_get(self@, name@) is None,
            },
    {
        let key = name.to_owned();
        let n = self.entries.len();
        let mut i: usize = 0;
        while i < n
            invariant
                n == self.entries@.len(),
                i <= n,
                forall|j: int| 0 <= j < i ==> (#[trigger] self@[j]).0 != name@,
            decreases n - i,
        {
            if self.entries[i].0 == key {
                proof {
                    lemma_spec_get_found(self@, name@, i as int);
                }
                return Some(&self.entries[i].1);
            }
            i = i + 1;
        }
        proof {
            lemma_spec_get_missing(self@, name@);
        }
        None
    }
}

impl PartialEq for AttributeMap {
    fn eq(&self, other: &AttributeMap) -> (r: bool) {
        attribute_map_eq(self, other)
    }
}

impl vstd::std_specs::cmp::PartialEqSpecImpl for AttributeMap {
    open spec fn obeys_eq_spec() -> bool {
        true
    }

    open spec fn eq_spec(&self, other: &AttributeMap) -> bool {
        map_equiv(self@, other@)
    }
}

/// Whether two attribute maps hold the same entries, in any order.
#[verifier::loop_isolation(false)]
pub fn attribute_map_eq(a: &AttributeMap, b: &AttributeMap) -> (r: bool)
    ensures
        r == map_equiv(a@, b@),
{
    let na = a.len();
    if na != b.len() {
        return false;
    }
    let mut i: usize = 0;
    while i < na
        invariant
            na == a@.len(),
            a@.len() == b@.len(),
            i <= na,
            forall|j: int|
                0 <= j < i ==> spec_get(b@, (#[trigger] a@[j]).0) == Option::Some(a@[j].1),
        decreases na - i,
    {
        let (name, value) = a.entry_at(i);
        match b.get(name.as_str()) {
            None => {
                return false;
            },
            Some(found) => {
                if !(*found == *value) {
                    return false;
                }
            },
        }
        i = i + 1;
    }
    true
}


/// A standard tag value: a name, an attribute map, and children.
#[derive(Debug)]
pub struct HtmlTag {
    pub name: String,
    pub attributes: AttributeMap,
    pub children: Vec<HtmlContent>,
}

/// A self-closing tag value: a name and an attribute map, no children.
#[derive(Debug)]
pub struct HtmlSelfClosingTag {
    pub name: String,
    pub attributes: AttributeMap,
}

/// An anonymous grouping of children, serialized with no wrapper of its own.
#[derive(Debug)]
pub struct Fragment {
    pub children: Vec<HtmlContent>,
}

/// Text that is HTML-escaped on output.
#[derive(Debug)]
pub struct EscapedText {
    text: String,
}

impl EscapedText {
    /// The text held, before escaping.
    pub closed spec fn text_spec(&self) -> Seq<char> {
        self.text@
    }
}

/// Text that is written out as it is.
#[derive(Debug)]
pub struct UnescapedText {
    text: String,
}

impl UnescapedText {
    /// The text held.
    pub closed spec fn text_spec(&self) -> Seq<char> {
        self.text@
    }
}

/// One renderable content value.
#[derive(Debug)]
pub enum HtmlContent {
    Tag(HtmlTag),
    SelfClosingTag(HtmlSelfClosingTag),
    EscapedText(EscapedText),
    UnescapedText(UnescapedText),
    Fragment(Fragment),
    Empty,
}

/// The mathematical model of a content value.
#[verifier::ext_equal]
pub enum ContentView {
    Tag { name: Seq<char>, attributes: Seq<(Seq<char>, Seq<char>)>, children: Seq<ContentView> },
    SelfClosingTag { name: Seq<char>, attributes: Seq<(Seq<char>, Seq<char>)> },
    EscapedText { text: Seq<char> },
    UnescapedText { text: Seq<char> },
    Fragment { children: Seq<ContentView> },
    Empty,
}

pub open spec fn content_view(c: HtmlContent) -> ContentView
    decreases c,
{
    match c {
        HtmlContent::Tag(tag) => ContentView::Tag {
            name: tag.name@,
            attributes: tag.attributes@,
            children: contents_view(tag.children@),
        },
        HtmlContent::SelfClosingTag(tag) => ContentView::SelfClosingTag {
            name: tag.name@,
            attributes: tag.attributes@,
        },
        HtmlContent::EscapedText(text) => ContentView::EscapedText { text: text.text_spec() },
        HtmlContent::UnescapedText(text) => ContentView::UnescapedText { text: text.text_spec() },
        HtmlContent::Fragment(fragment) => ContentView::Fragment {
            children: contents_view(fragment.children@),
        },
        HtmlContent::Empty => ContentView::Empty,
    }
}

pub open spec fn contents_view(s: Seq<HtmlContent>) -> Seq<ContentView>
    decreases s,
{
    if s.len() == 0 {
        Seq::empty()
    } else {
        seq![content_view(s[0])] + contents_view(s.drop_first())
    }
}

impl View for HtmlContent {
    type V = ContentView;

    open spec fn view(&self) -> ContentView {
        content_view(*self)
    }
}

pub broadcast proof fn lemma_contents_view_len(s: Seq<HtmlContent>)
    ensures
        #[trigger] contents_view(s).len() == s.len(),
    decreases s,
{
    if s.len() > 0 {
        lemma_contents_view_len(s.drop_first());
    }
}

pub broadcast proof fn lemma_contents_view_index(s: Seq<HtmlContent>, i: int)
    requires
        0 <= i < s.len(),
    ensures
        #[trigger] contents_view(s)[i] == content_view(s[i]),
    decreases s,
{
    lemma_contents_view_len(s);
    if i > 0 {
        lemma_contents_view_index(s.drop_first(), i - 1);
    }
}

pub broadcast proof fn lemma_contents_view_concat(a: Seq<HtmlContent>, b: Seq<HtmlContent>)
    ensures
        #[trigger] contents_view(a + b) == contents_view(a) + contents_view(b),
{
    lemma_contents_view_len(a);
    lemma_contents_view_len(b);
    lemma_contents_view_len(a + b);
    assert forall|i: int| 0 <= i < a.len() + b.len() implies contents_view(a + b)[i]
        == (contents_view(a) + contents_view(b))[i] by {
        lemma_contents_view_index(a + b, i);
        if i < a.len() {
            lemma_contents_view_index(a, i);
            assert((a + b)[i] == a[i]);
        } else {
            lemma_contents_view_index(b, i - a.len());
            assert((a + b)[i] == b[i - a.len()]);
        }
    }
    assert(contents_view(a + b) =~= contents_view(a) + contents_view(b));
}

pub broadcast proof fn lemma_contents_view_push(s: Seq<HtmlContent>, x: HtmlContent)
    ensures
        #[trigger] contents_view(s.push(x)) == contents_view(s).push(content_view(x)),
{
    lemma_contents_view_concat(s, seq![x]);
    assert(s.push(x) =~= s + seq![x]);
    assert(seq![x].drop_first() =~= Seq::<HtmlContent>::empty());
    assert(contents_view(Seq::<HtmlContent>::empty()) =~= Seq::<ContentView>::empty());
    assert(contents_view(seq![x]) =~= seq![content_view(x)]);
    assert(contents_view(s) + seq![content_view(x)] =~= contents_view(s).push(content_view(x)));
}

/// What appending one content value contributes to a parent's child list: a
/// fragment contributes each of its children, an empty value contributes
/// nothing, and anything else contributes exactly itself.
pub open spec fn flatten_content(c: ContentView) -> Seq<ContentView> {
    match c {
        ContentView::Fragment { children } => children,
        ContentView::Empty => Seq::empty(),
        _ => seq![c],
    }
}

impl HtmlTag {
    /// Appends a content value to this tag's children, flattening fragments:
    /// a fragment's children join individually, in order, and an empty value
    /// adds nothing.
    pub fn add_child(&mut self, child: HtmlContent)
        ensures
            final(self).name@ == old(self).name@,
            final(self).attributes@ == old(self).attributes@,
            contents_view(final(self).children@) == contents_view(old(self).children@)
                + flatten_content(content_view(child)),
    {
        add_to_children(&mut self.children, child);
    }

    /// Serializes this tag: attributes, then children, then a closing tag.
    pub fn to_html_string(&self) -> (r: String)
        ensures
            r@ == tag_html(self.name@, self.attributes@, contents_view(self.children@)),
        decreases *self,
    {
        let mut out = String::from_str("<");
        out.append(self.name.as_str());
        let attrs = attrs_html_string(&self.attributes);
        out.append(attrs.as_str());
        out.append(">");
        let ghost head = out@;
        let mut i: usize = 0;
        let n = self.children.len();
        while i < n
            invariant
                n == self.children@.len(),
                i <= n,
                out@ == head + contents_html(contents_view(self.children@.take(i as int))),
            decreases n - i,
        {
            proof {
                assert(decreases_to!(*self => self.children));
                assert(decreases_to!(self.children => self.children@));
                assert(decreases_to!(self.children@ => self.children@[i as int]));
            }
            let piece = self.children[i].to_html_string();
            out.append(piece.as_str());
            proof {
                lemma_contents_view_push(self.children@.take(i as int), self.children@[i as int]);
                lemma_contents_html_push(
                    contents_view(self.children@.take(i as int)),
                    content_view(self.children@[i as int]),
                );
                assert(self.children@.take(i as int).push(self.children@[i as int])
                    =~= self.children@.take(i as int + 1));
            }
            i = i + 1;
        }
        proof {
            assert(self.children@.take(n as int) =~= self.children@);
        }
        out.append("</");
        out.append(self.name.as_str());
        out.append(">");
        out
    }
}

impl HtmlSelfClosingTag {
    /// Serializes this tag: attributes only, closed in place.
    pub fn to_html_string(&self) -> (r: String)
        ensures
            r@ == self_closing_html(self.name@, self.attributes@),
    {
        let mut out = String::from_str("<");
        out.append(self.name.as_str());
        let attrs = attrs_html_string(&self.attributes);
        out.append(attrs.as_str());
        out.append("/>");
        out
    }
}

impl Fragment {
    /// A fragment holding the given children, as they are.
    pub fn new(children: Vec<HtmlContent>) -> (r: Fragment)
        ensures
            contents_view(r.children@) == contents_view(children@),
    {
        Fragment { children }
    }

    /// Appends a content value to this fragment's children, flattening
    /// fragments, as [`HtmlTag::add_child`] does.
    pub fn add_child(&mut self, child: HtmlContent)
        ensures
            contents_view(final(self).children@) == contents_view(old(self).children@)
                + flatten_content(content_view(child)),
    {
        add_to_children(&mut self.children, child);
    }

    /// Serializes this fragment: its children's serializations concatenated,
    /// with no wrapper.
    pub fn to_html_string(&self) -> (r: String)
        ensures
            r@ == contents_html(contents_view(self.children@)),
        decreases *self,
    {
        let mut out = String::new();
        let ghost head = out@;
        let mut i: usize = 0;
        let n = self.children.len();
        while i < n
            invariant
                n == self.children@.len(),
                i <= n,
                out@ == head + contents_html(contents_view(self.children@.take(i as int))),
            decreases n - i,
        {
            proof {
                assert(decreases_to!(*self => self.children));
                assert(decreases_to!(self.children => self.children@));
                assert(decreases_to!(self.children@ => self.children@[i as int]));
            }
            let piece = self.children[i].to_html_string();
            out.append(piece.as_str());
            proof {
                lemma_contents_view_push(self.children@.take(i as int), self.children@[i as int]);
                lemma_contents_html_push(
                    contents_view(self.children@.take(i as int)),
                    content_view(self.children@[i as int]),
                );
                assert(self.children@.take(i as int).push(self.children@[i as int])
                    =~= self.children@.take(i as int + 1));
            }
            i = i + 1;
        }
        proof {
            assert(self.children@.take(n as int) =~= self.children@);
            assert(head + contents_html(contents_view(self.children@)) =~= contents_html(
                contents_view(self.children@),
            ));
        }
        out
    }
}

impl UnescapedText {
    /// Text written out as it is, with no escaping.
    pub fn new(value: String) -> (r: UnescapedText)
        ensures
            content_view(HtmlContent::UnescapedText(r)) == (ContentView::UnescapedText {
                text: value@,
            }),
    {
        UnescapedText { text: value }
    }

    /// Serializes this text: the text itself, unchanged.
    pub fn to_html_string(&self) -> (r: String)
        ensures
            r@ == self.text_spec(),
    {
        crate::tokens::dup_string(&self.text)
    }
}

impl EscapedText {
    /// Serializes this text: its minimal HTML entity encoding.
    pub fn to_html_string(&self) -> (r: String)
        ensures
            r@ == escape_min(self.text_spec()),
    {
        encode_minimal(self.text.as_str())
    }
}

/// Appends one content value to a child list, flattening fragments.
fn add_to_children(children: &mut Vec<HtmlContent>, child: HtmlContent)
    ensures
        contents_view(final(children)@) == contents_view(old(children)@) + flatten_content(
            content_view(child),
        ),
{
    let ghost pre = children@;
    match child {
        HtmlContent::Fragment(mut fragment) => {
            let ghost added = fragment.children@;
            children.append(&mut fragment.children);
            proof {
                lemma_contents_view_concat(pre, added);
            }
        },
        HtmlContent::Empty => {
            proof {
                assert(contents_view(children@) =~= contents_view(pre) + flatten_content(
                    ContentView::Empty,
                ));
            }
        },
        other => {
            children.push(other);
            proof {
                lemma_contents_view_push(pre, other);
                assert(contents_view(pre).push(content_view(other)) =~= contents_view(pre)
                    + flatten_content(content_view(other)));
            }
        },
    }
}

/// The serialized form of one attribute: a space, the name, and the escaped
/// value in quotes.
pub open spec fn attr_html(k: Seq<char>, v: Seq<char>) -> Seq<char> {
    " "@ + k + "=\""@ + escape_min(v) + "\""@
}

/// The serialized form of an attribute map, in insertion order.
pub open spec fn attrs_html(m: Seq<(Seq<char>, Seq<char>)>) -> Seq<char>
    decreases m.len(),
{
    if m.len() == 0 {
        Seq::empty()
    } else {
        attr_html(m[0].0, m[0].1) + attrs_html(m.drop_first())
    }
}

/// The serialized form of a standard tag.
pub open spec fn tag_html(
    name: Seq<char>,
    attrs: Seq<(Seq<char>, Seq<char>)>,
    children: Seq<ContentView>,
) -> Seq<char>
    decreases children, 1int,
{
    "<"@ + name + attrs_html(attrs) + ">"@ + contents_html(children) + "</"@ + name + ">"@
}

/// The serialized form of a self-closing tag.
pub open spec fn self_closing_html(name: Seq<char>, attrs: Seq<(Seq<char>, Seq<char>)>) -> Seq<
    char,
> {
    "<"@ + name + attrs_html(attrs) + "/>"@
}

/// The serialized form of one content value.
pub open spec fn content_html(c: ContentView) -> Seq<char>
    decreases c, 2int,
{
    match c {
        ContentView::Tag { name, attributes, children } => tag_html(name, attributes, children),
        ContentView::SelfClosingTag { name, attributes } => self_closing_html(name, attributes),
        ContentView::EscapedText { text } => escape_min(text),
        ContentView::UnescapedText { text } => text,
        ContentView::Fragment { children } => contents_html(children),
        ContentView::Empty => Seq::empty(),
    }
}

/// The serialized forms of a list of content values, concatenated in order.
pub open spec fn contents_html(s: Seq<ContentView>) -> Seq<char>
    decreases s, 0int,
{
    if s.len() == 0 {
        Seq::empty()
    } else {
        content_html(s[0]) + contents_html(s.drop_first())
    }
}

proof fn lemma_contents_html_push(s: Seq<ContentView>, x: ContentView)
    ensures
        contents_html(s.push(x)) == contents_html(s) + content_html(x),
    decreases s.len(),
{
    if s.len() == 0 {
        assert(s.push(x).drop_first() =~= Seq::<ContentView>::empty());
        assert(s.push(x)[0] == x);
        assert(contents_html(Seq::<ContentView>::empty()) =~= Seq::<char>::empty());
        assert(contents_html(s.push(x)) =~= contents_html(s) + content_html(x));
    } else {
        assert(s.push(x).drop_first() =~= s.drop_first().push(x));
        assert(s.push(x)[0] == s[0]);
        lemma_contents_html_push(s.drop_first(), x);
        assert((content_html(s[0]) + contents_html(s.drop_first())) + content_html(x)
            =~= content_html(s[0]) + (contents_html(s.drop_first()) + content_html(x)));
        assert(contents_html(s.push(x)) =~= contents_html(s) + content_html(x));
    }
}

proof fn lemma_attrs_html_push(m: Seq<(Seq<char>, Seq<char>)>, p: (Seq<char>, Seq<char>))
    ensures
        attrs_html(m.push(p)) == attrs_html(m) + attr_html(p.0, p.1),
    decreases m.len(),
{
    if m.len() == 0 {
        assert(m.push(p).drop_first() =~= Seq::<(Seq<char>, Seq<char>)>::empty());
        assert(m.push(p)[0] == p);
        assert(attrs_html(Seq::<(Seq<char>, Seq<char>)>::empty()) =~= Seq::<char>::empty());
        assert(attrs_html(m.push(p)) =~= attrs_html(m) + attr_html(p.0, p.1));
    } else {
        assert(m.push(p).drop_first() =~= m.drop_first().push(p));
        assert(m.push(p)[0] == m[0]);
        lemma_attrs_html_push(m.drop_first(), p);
        assert((attr_html(m[0].0, m[0].1) + attrs_html(m.drop_first())) + attr_html(p.0, p.1)
            =~= attr_html(m[0].0, m[0].1) + (attrs_html(m.drop_first()) + attr_html(p.0, p.1)));
        assert(attrs_html(m.push(p)) =~= attrs_html(m) + attr_html(p.0, p.1));
    }
}

/// Serializes an attribute map: one ` name="value"` piece per attribute, in
/// insertion order, values escaped.
#[verifier::loop_isolation(false)]
fn attrs_html_string(m: &AttributeMap) -> (r: String)
    ensures
        r@ == attrs_html(m@),
{
    let mut out = String::new();
    let n = m.len();
    let mut i: usize = 0;
    while i < n
        invariant
            n == m@.len(),
            i <= n,
            out@ == attrs_html(m@.take(i as int)),
        decreases n - i,
    {
        let (name, value) = m.entry_at(i);
        out.append(" ");
        out.append(name.as_str());
        out.append("=\"");
        let escaped = encode_minimal(value.as_str());
        out.append(escaped.as_str());
        out.append("\"");
        proof {
            lemma_attrs_html_push(m@.take(i as int), m@[i as int]);
            assert(m@.take(i as int).push(m@[i as int]) =~= m@.take(i as int + 1));
        }
        i = i + 1;
    }
    proof {
        assert(m@.take(n as int) =~= m@);
    }
    out
}

impl HtmlContent {
    /// Serializes this content value: tags wrap their children, fragments
    /// concatenate theirs, escaped text is entity-encoded, unescaped text is
    /// written as it is, and an empty value serializes to nothing.
    pub fn to_html_string(&self) -> (r: String)
        ensures
            r@ == content_html(content_view(*self)),
        decreases *self,
    {
        match self {
            HtmlContent::Tag(tag) => tag.to_html_string(),
            HtmlContent::SelfClosingTag(tag) => tag.to_html_string(),
            HtmlContent::EscapedText(text) => text.to_html_string(),
            HtmlContent::UnescapedText(text) => text.to_html_string(),
            HtmlContent::Fragment(fragment) => fragment.to_html_string(),
            HtmlContent::Empty => String::new(),
        }
    }
}


/// Equivalence of content values: structural, except that attribute maps
/// compare by their entries regardless of insertion order, as a name-value
/// map should.
pub open spec fn content_equiv(a: ContentView, b: ContentView) -> bool
    decreases a,
{
    match a {
        ContentView::Tag { name: n1, attributes: a1, children: c1 } => {
            &&& b matches ContentView::Tag { name: n2, attributes: a2, children: c2 }
            &&& n1 == n2
            &&& map_equiv(a1, a2)
            &&& contents_equiv(c1, c2)
        },
        ContentView::SelfClosingTag { name: n1, attributes: a1 } => {
            &&& b matches ContentView::SelfClosingTag { name: n2, attributes: a2 }
            &&& n1 == n2
            &&& map_equiv(a1, a2)
        },
        ContentView::EscapedText { text: t1 } => b matches ContentView::EscapedText { text: t2 }
            && t1 == t2,
        ContentView::UnescapedText { text: t1 } => b matches ContentView::UnescapedText {
            text: t2,
        } && t1 == t2,
        ContentView::Fragment { children: c1 } => b matches ContentView::Fragment { children: c2 }
            && contents_equiv(c1, c2),
        ContentView::Empty => b is Empty,
    }
}

/// Elementwise equivalence of content lists, in order.
pub open spec fn contents_equiv(s1: Seq<ContentView>, s2: Seq<ContentView>) -> bool
    decreases s1,
{
    if s1.len() != s2.len() {
        false
    } else if s1.len() == 0 {
        true
    } else {
        content_equiv(s1[0], s2[0]) && contents_equiv(s1.drop_first(), s2.drop_first())
    }
}

proof fn lemma_contents_equiv_pointwise(s1: Seq<ContentView>, s2: Seq<ContentView>)
    requires
        s1.len() == s2.len(),
        forall|j: int| 0 <= j < s1.len() ==> content_equiv(#[trigger] s1[j], s2[j]),
    ensures
        contents_equiv(s1, s2),
    decreases s1.len(),
{
    if s1.len() > 0 {
        lemma_contents_equiv_pointwise(s1.drop_first(), s2.drop_first());
    }
}

proof fn lemma_contents_equiv_index(s1: Seq<ContentView>, s2: Seq<ContentView>, i: int)
    requires
        contents_equiv(s1, s2),
        0 <= i < s1.len(),
    ensures
        s1.len() == s2.len(),
        content_equiv(s1[i], s2[i]),
    decreases s1.len(),
{
    if i > 0 {
        lemma_contents_equiv_index(s1.drop_first(), s2.drop_first(), i - 1);
    }
}

/// Whether two content values are equivalent: structurally equal, with
/// attribute maps compared regardless of insertion order.
#[verifier::loop_isolation(false)]
pub fn content_eq(a: &HtmlContent, b: &HtmlContent) -> (r: bool)
    ensures
        r == content_equiv(content_view(*a), content_view(*b)),
    decreases *a,
{
    broadcast use lemma_contents_view_len, lemma_contents_view_index;

    match a {
        HtmlContent::Tag(t1) => match b {
            HtmlContent::Tag(t2) => {
                if !(t1.name == t2.name) || !attribute_map_eq(&t1.attributes, &t2.attributes) {
                    return false;
                }
                children_eq_tag(a, b)
            },
            _ => false,
        },
        HtmlContent::SelfClosingTag(t1) => match b {
            HtmlContent::SelfClosingTag(t2) => t1.name == t2.name && attribute_map_eq(
                &t1.attributes,
                &t2.attributes,
            ),
            _ => false,
        },
        HtmlContent::EscapedText(t1) => match b {
            HtmlContent::EscapedText(t2) => t1.text == t2.text,
            _ => false,
        },
        HtmlContent::UnescapedText(t1) => match b {
            HtmlContent::UnescapedText(t2) => t1.text == t2.text,
            _ => false,
        },
        HtmlContent::Fragment(f1) => match b {
            HtmlContent::Fragment(f2) => children_eq_fragment(a, b),
            _ => false,
        },
        HtmlContent::Empty => match b {
            HtmlContent::Empty => true,
            _ => false,
        },
    }
}

/// Compares the children of two tag values, elementwise and in order.
#[verifier::loop_isolation(false)]
fn children_eq_tag(a: &HtmlContent, b: &HtmlContent) -> (r: bool)
    requires
        a is Tag,
        b is Tag,
    ensures
        r == contents_equiv(
            contents_view(a->Tag_0.children@),
            contents_view(b->Tag_0.children@),
        ),
    decreases *a, 0int,
{
    broadcast use lemma_contents_view_len, lemma_contents_view_index;

    let c1 = match a {
        HtmlContent::Tag(t1) => &t1.children,
        _ => {
            proof {
                assert(false);
            }
            return false;
        },
    };
    let c2 = match b {
        HtmlContent::Tag(t2) => &t2.children,
        _ => {
            proof {
                assert(false);
            }
            return false;
        },
    };
    if c1.len() != c2.len() {
        return false;
    }
    let mut i: usize = 0;
    while i < c1.len()
        invariant
            c1@.len() == c2@.len(),
            i <= c1@.len(),
            forall|j: int|
                0 <= j < i ==> content_equiv(
                    content_view(#[trigger] c1@[j]),
                    content_view(c2@[j]),
                ),
        decreases c1@.len() - i,
    {
        proof {
            assert(decreases_to!(*a => a->Tag_0));
            assert(decreases_to!(a->Tag_0 => a->Tag_0.children));
            assert(decreases_to!(a->Tag_0.children => c1@));
            assert(decreases_to!(c1@ => c1@[i as int]));
        }
        if !content_eq(&c1[i], &c2[i]) {
            proof {
                if contents_equiv(contents_view(c1@), contents_view(c2@)) {
                    lemma_contents_equiv_index(contents_view(c1@), contents_view(c2@), i as int);
                }
            }
            return false;
        }
        i = i + 1;
    }
    proof {
        lemma_contents_equiv_pointwise(contents_view(c1@), contents_view(c2@));
    }
    true
}

/// Compares the children of two fragment values, elementwise and in order.
#[verifier::loop_isolation(false)]
fn children_eq_fragment(a: &HtmlContent, b: &HtmlContent) -> (r: bool)
    requires
        a is Fragment,
        b is Fragment,
    ensures
        r == contents_equiv(
            contents_view(a->Fragment_0.children@),
            contents_view(b->Fragment_0.children@),
        ),
    decreases *a, 0int,
{
    broadcast use lemma_contents_view_len, lemma_contents_view_index;

    let c1 = match a {
        HtmlContent::Fragment(f1) => &f1.children,
        _ => {
            proof {
                assert(false);
            }
            return false;
        },
    };
    let c2 = match b {
        HtmlContent::Fragment(f2) => &f2.children,
        _ => {
            proof {
                assert(false);
            }
            return false;
        },
    };
    if c1.len() != c2.len() {
        return false;
    }
    let mut i: usize = 0;
    while i < c1.len()
        invariant
            c1@.len() == c2@.len(),
            i <= c1@.len(),
            forall|j: int|
                0 <= j < i ==> content_equiv(
                    content_view(#[trigger] c1@[j]),
                    content_view(c2@[j]),
                ),
        decreases c1@.len() - i,
    {
        proof {
            assert(decreases_to!(*a => a->Fragment_0));
            assert(decreases_to!(a->Fragment_0 => a->Fragment_0.children));
            assert(decreases_to!(a->Fragment_0.children => c1@));
            assert(decreases_to!(c1@ => c1@[i as int]));
        }
        if !content_eq(&c1[i], &c2[i]) {
            proof {
                if contents_equiv(contents_view(c1@), contents_view(c2@)) {
                    lemma_contents_equiv_index(contents_view(c1@), contents_view(c2@), i as int);
                }
            }
            return false;
        }
        i = i + 1;
    }
    proof {
        lemma_contents_equiv_pointwise(contents_view(c1@), contents_view(c2@));
    }
    true
}

impl PartialEq for HtmlContent {
    fn eq(&self, other: &HtmlContent) -> (r: bool) {
        content_eq(self, other)
    }
}

impl vstd::std_specs::cmp::PartialEqSpecImpl for HtmlContent {
    open spec fn obeys_eq_spec() -> bool {
        true
    }

    open spec fn eq_spec(&self, other: &HtmlContent) -> bool {
        content_equiv(content_view(*self), content_view(*other))
    }
}

impl From<HtmlTag> for HtmlContent {
    fn from(tag: HtmlTag) -> (r: HtmlContent) {
        HtmlContent::Tag(tag)
    }
}

impl vstd::std_specs::convert::FromSpecImpl<HtmlTag> for HtmlContent {
    open spec fn obeys_from_spec() -> bool {
        true
    }

    open spec fn from_spec(tag: HtmlTag) -> HtmlContent {
        HtmlContent::Tag(tag)
    }
}

impl From<HtmlSelfClosingTag> for HtmlContent {
    fn from(tag: HtmlSelfClosingTag) -> (r: HtmlContent) {
        HtmlContent::SelfClosingTag(tag)
    }
}

impl vstd::std_specs::convert::FromSpecImpl<HtmlSelfClosingTag> for HtmlContent {
    open spec fn obeys_from_spec() -> bool {
        true
    }

    open spec fn from_spec(tag: HtmlSelfClosingTag) -> HtmlContent {
        HtmlContent::SelfClosingTag(tag)
    }
}

impl From<Fragment> for HtmlContent {
    fn from(fragment: Fragment) -> (r: HtmlContent) {
        HtmlContent::Fragment(fragment)
    }
}

impl vstd::std_specs::convert::FromSpecImpl<Fragment> for HtmlContent {
    open spec fn obeys_from_spec() -> bool {
        true
    }

    open spec fn from_spec(fragment: Fragment) -> HtmlContent {
        HtmlContent::Fragment(fragment)
    }
}

impl From<UnescapedText> for HtmlContent {
    fn from(text: UnescapedText) -> (r: HtmlContent) {
        HtmlContent::UnescapedText(text)
    }
}

impl vstd::std_specs::convert::FromSpecImpl<UnescapedText> for HtmlContent {
    open spec fn obeys_from_spec() -> bool {
        true
    }

    open spec fn from_spec(text: UnescapedText) -> HtmlContent {
        HtmlContent::UnescapedText(text)
    }
}

impl HtmlContent {
    /// Text content that is escaped on output: how a plain string becomes
    /// content.
    pub fn escaped_text(text: String) -> (r: HtmlContent)
        ensures
            content_view(r) == (ContentView::EscapedText { text: text@ }),
    {
        HtmlContent::EscapedText(EscapedText { text })
    }
}

/// No two pairs share a name.
pub open spec fn unique_keys(s: Seq<(Seq<char>, Seq<char>)>) -> bool {
    forall|i: int, j: int| 0 <= i < j < s.len() ==> (#[trigger] s[i]).0 != (#[trigger] s[j]).0
}

/// Inserting a list of attribute pairs into a map, in order.
pub open spec fn set_all(
    m: Seq<(Seq<char>, Seq<char>)>,
    pairs: Seq<(Seq<char>, Seq<char>)>,
) -> Seq<(Seq<char>, Seq<char>)>
    decreases pairs.len(),
{
    if pairs.len() == 0 {
        m
    } else {
        set_all(spec_set(m, pairs[0].0, pairs[0].1), pairs.drop_first())
    }
}

/// Appending a list of content values to a child list, in order, with the
/// fragment-flattening rule of [`HtmlTag::add_child`].
pub open spec fn add_all(children: Seq<ContentView>, items: Seq<ContentView>) -> Seq<ContentView>
    decreases items.len(),
{
    if items.len() == 0 {
        children
    } else {
        add_all(children + flatten_content(items[0]), items.drop_first())
    }
}

proof fn lemma_spec_set_get(
    m: Seq<(Seq<char>, Seq<char>)>,
    k: Seq<char>,
    v: Seq<char>,
    k2: Seq<char>,
)
    ensures
        spec_get(spec_set(m, k, v), k2) == if k2 == k {
            Option::Some(v)
        } else {
            spec_get(m, k2)
        },
    decreases m.len(),
{
    if m.len() == 0 {
        assert(spec_set(m, k, v) == seq![(k, v)]);
        assert(spec_get(seq![(k, v)], k2) == if k2 == k {
            Option::Some(v)
        } else {
            spec_get(seq![(k, v)].drop_first(), k2)
        });
        assert(seq![(k, v)].drop_first() =~= Seq::<(Seq<char>, Seq<char>)>::empty());
    } else if m[0].0 == k {
        let out = seq![(k, v)] + m.drop_first();
        assert(out[0] == (k, v));
        assert(out.drop_first() =~= m.drop_first());
    } else {
        let out = seq![m[0]] + spec_set(m.drop_first(), k, v);
        assert(out[0] == m[0]);
        assert(out.drop_first() =~= spec_set(m.drop_first(), k, v));
        assert(out.len() > 0);
        lemma_spec_set_get(m.drop_first(), k, v, k2);
    }
}

proof fn lemma_spec_set_len(m: Seq<(Seq<char>, Seq<char>)>, k: Seq<char>, v: Seq<char>)
    ensures
        spec_get(m, k) is Some ==> spec_set(m, k, v).len() == m.len(),
        spec_get(m, k) is None ==> spec_set(m, k, v).len() == m.len() + 1,
    decreases m.len(),
{
    if m.len() > 0 && m[0].0 != k {
        lemma_spec_set_len(m.drop_first(), k, v);
    }
}

/// The runtime half of the construction round trip: building a tag value the
/// way emitted construction code does — inserting each attribute pair, in
/// order, into a map, and appending each child in order — reproduces the
/// attribute pairs (each name looks up its value, and nothing else enters
/// the map) and keeps the children in the order they were appended. The attribute
/// names are taken distinct and absent from the starting map; the children
/// are taken to be single values, since a fragment contributes its children
/// rather than itself.
pub proof fn lemma_construction_round_trip(
    m: Seq<(Seq<char>, Seq<char>)>,
    pairs: Seq<(Seq<char>, Seq<char>)>,
    children: Seq<ContentView>,
    items: Seq<ContentView>,
)
    requires
        unique_keys(pairs),
        forall|i: int| 0 <= i < pairs.len() ==> spec_get(m, (#[trigger] pairs[i]).0) is None,
        forall|i: int|
            0 <= i < items.len() ==> !((#[trigger] items[i]) is Fragment) && !(items[i] is Empty),
    ensures
        set_all(m, pairs).len() == m.len() + pairs.len(),
        forall|i: int|
            0 <= i < pairs.len() ==> spec_get(set_all(m, pairs), (#[trigger] pairs[i]).0)
                == Option::Some(pairs[i].1),
        forall|k: Seq<char>|
            spec_get(pairs, k) is None ==> #[trigger] spec_get(set_all(m, pairs), k) == spec_get(
                m,
                k,
            ),
        add_all(children, items) == children + items,
    decreases pairs.len() + items.len(),
{
    if pairs.len() == 0 {
        assert(set_all(m, pairs) == m);
    } else {
        let p0 = pairs[0];
        let m1 = spec_set(m, p0.0, p0.1);
        let rest = pairs.drop_first();
        lemma_spec_set_len(m, p0.0, p0.1);
        assert forall|i: int| 0 <= i < rest.len() implies spec_get(
            m1,
            (#[trigger] rest[i]).0,
        ) is None by {
            lemma_spec_set_get(m, p0.0, p0.1, rest[i].0);
            assert(rest[i] == pairs[i + 1]);
            assert(pairs[0].0 != pairs[i + 1].0);
        }
        lemma_construction_round_trip(m1, rest, children, Seq::empty());
        assert forall|i: int| 0 <= i < pairs.len() implies spec_get(
            set_all(m, pairs),
            (#[trigger] pairs[i]).0,
        ) == Option::Some(pairs[i].1) by {
            if i == 0 {
                assert forall|j: int| 0 <= j < rest.len() implies (#[trigger] rest[j]).0
                    != p0.0 by {
                    assert(rest[j] == pairs[j + 1]);
                }
                lemma_spec_get_missing(rest, p0.0);
                lemma_spec_set_get(m, p0.0, p0.1, p0.0);
                assert(set_all(m, pairs) == set_all(m1, rest));
            } else {
                assert(pairs[i] == rest[i - 1]);
            }
        }
        assert forall|k: Seq<char>| spec_get(pairs, k) is None implies #[trigger] spec_get(
            set_all(m, pairs),
            k,
        ) == spec_get(m, k) by {
            assert(pairs.drop_first() =~= rest);
            assert(spec_get(rest, k) is None);
            assert(p0.0 != k);
            lemma_spec_set_get(m, p0.0, p0.1, k);
        }
    }
    if items.len() == 0 {
        assert(children + items =~= children);
    } else {
        let x = items[0];
        assert(flatten_content(x) == seq![x]);
        assert forall|i: int| 0 <= i < items.drop_first().len() implies !((
        #[trigger] items.drop_first()[i]) is Fragment) && !(items.drop_first()[i] is Empty) by {
            assert(items.drop_first()[i] == items[i + 1]);
        }
        lemma_construction_round_trip(
            Seq::empty(),
            Seq::empty(),
            children + seq![x],
            items.drop_first(),
        );
        assert((children + seq![x]) + items.drop_first() =~= children + items);
    }
}

} // verus!
