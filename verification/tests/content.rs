use snax::content::{
    AttributeMap, Fragment, HtmlContent, HtmlSelfClosingTag, HtmlTag, UnescapedText,
};

fn empty_tag(name: &str) -> HtmlTag {
    HtmlTag { name: name.to_string(), attributes: AttributeMap::new(), children: Vec::new() }
}

#[test]
fn serialize_empty_tag() {
    let tag = empty_tag("div");
    assert_eq!(tag.to_html_string(), "<div></div>");
}

#[test]
fn serialize_tag_with_attribute_and_text() {
    let mut tag = empty_tag("div");
    tag.attributes.set_attribute("foo".to_string(), "bar".to_string());
    tag.add_child(HtmlContent::escaped_text("hello".to_string()));

    assert_eq!(tag.to_html_string(), "<div foo=\"bar\">hello</div>");
}

#[test]
fn serialize_self_closing_tag() {
    let mut tag = HtmlSelfClosingTag { name: "br".to_string(), attributes: AttributeMap::new() };
    assert_eq!(tag.to_html_string(), "<br/>");

    tag.attributes.set_attribute("class".to_string(), "wide".to_string());
    assert_eq!(tag.to_html_string(), "<br class=\"wide\"/>");
}

#[test]
fn escaped_text_is_entity_encoded() {
    let content = HtmlContent::escaped_text("a<b&c\"d'e>f".to_string());
    assert_eq!(content.to_html_string(), "a&lt;b&amp;c&quot;d&#x27;e&gt;f");
}

#[test]
fn attribute_values_are_entity_encoded() {
    let mut tag = empty_tag("div");
    tag.attributes.set_attribute("title".to_string(), "a<b".to_string());
    assert_eq!(tag.to_html_string(), "<div title=\"a&lt;b\"></div>");
}

#[test]
fn unescaped_text_is_kept() {
    let content = HtmlContent::UnescapedText(UnescapedText::new("a<b&c".to_string()));
    assert_eq!(content.to_html_string(), "a<b&c");
}

#[test]
fn empty_content_serializes_to_nothing() {
    assert_eq!(HtmlContent::Empty.to_html_string(), "");
}

#[test]
fn fragment_serializes_children_without_wrapper() {
    let fragment = Fragment::new(vec![
        HtmlContent::Tag(empty_tag("div")),
        HtmlContent::escaped_text("hi".to_string()),
    ]);
    assert_eq!(fragment.to_html_string(), "<div></div>hi");
}

#[test]
fn appending_a_fragment_flattens_it() {
    let inner = Fragment::new(vec![
        HtmlContent::Tag(empty_tag("span")),
        HtmlContent::Tag(empty_tag("div")),
    ]);

    let mut parent = empty_tag("section");
    parent.add_child(HtmlContent::Fragment(inner));

    // Two children, not one fragment-shaped child.
    assert_eq!(parent.children.len(), 2);
    assert_eq!(parent.to_html_string(), "<section><span></span><div></div></section>");
}

#[test]
fn appending_empty_adds_nothing() {
    let mut parent = empty_tag("div");
    parent.add_child(HtmlContent::Empty);
    assert_eq!(parent.children.len(), 0);
}

#[test]
fn appending_keeps_child_order() {
    let mut parent = empty_tag("div");
    parent.add_child(HtmlContent::escaped_text("one".to_string()));
    parent.add_child(HtmlContent::Tag(empty_tag("span")));
    parent.add_child(HtmlContent::escaped_text("two".to_string()));

    assert_eq!(parent.to_html_string(), "<div>one<span></span>two</div>");
}

#[test]
fn fragment_add_child_flattens_too() {
    let mut fragment = Fragment::new(Vec::new());
    fragment.add_child(HtmlContent::Fragment(Fragment::new(vec![
        HtmlContent::escaped_text("a".to_string()),
        HtmlContent::escaped_text("b".to_string()),
    ])));

    assert_eq!(fragment.children.len(), 2);
    assert_eq!(fragment.to_html_string(), "ab");
}

#[test]
fn set_attribute_last_write_wins() {
    let mut map = AttributeMap::new();
    map.set_attribute("foo".to_string(), "one".to_string());
    map.set_attribute("bar".to_string(), "two".to_string());
    map.set_attribute("foo".to_string(), "three".to_string());

    assert_eq!(map.len(), 2);
    assert_eq!(map.get("foo"), Some(&"three".to_string()));
    assert_eq!(map.get("bar"), Some(&"two".to_string()));
    assert_eq!(map.get("baz"), None);
}

#[test]
fn attribute_maps_compare_order_insensitively() {
    let mut first = AttributeMap::new();
    first.set_attribute("foo".to_string(), "bar".to_string());
    first.set_attribute("baz".to_string(), "qux".to_string());

    let mut second = AttributeMap::new();
    second.set_attribute("baz".to_string(), "qux".to_string());
    second.set_attribute("foo".to_string(), "bar".to_string());

    assert_eq!(first, second);

    let mut third = AttributeMap::new();
    third.set_attribute("foo".to_string(), "other".to_string());
    third.set_attribute("baz".to_string(), "qux".to_string());
    assert_ne!(first, third);
}

#[test]
fn serialization_keeps_attribute_insertion_order() {
    let mut tag = empty_tag("div");
    tag.attributes.set_attribute("foo".to_string(), "bar".to_string());
    tag.attributes.set_attribute("baz".to_string(), "qux".to_string());

    assert_eq!(tag.to_html_string(), "<div foo=\"bar\" baz=\"qux\"></div>");
}

#[test]
fn content_equality_uses_map_equivalence() {
    let mut first = empty_tag("div");
    first.attributes.set_attribute("a".to_string(), "1".to_string());
    first.attributes.set_attribute("b".to_string(), "2".to_string());

    let mut second = empty_tag("div");
    second.attributes.set_attribute("b".to_string(), "2".to_string());
    second.attributes.set_attribute("a".to_string(), "1".to_string());

    assert_eq!(HtmlContent::Tag(first), HtmlContent::Tag(second));
}

#[test]
fn content_equality_distinguishes_kinds() {
    let escaped = HtmlContent::escaped_text("hi".to_string());
    let unescaped = HtmlContent::UnescapedText(UnescapedText::new("hi".to_string()));
    assert_ne!(escaped, unescaped);
    assert_ne!(HtmlContent::Empty, HtmlContent::escaped_text(String::new()));
}

#[test]
fn from_wraps_values_as_content() {
    let tag: HtmlContent = HtmlContent::from(empty_tag("div"));
    assert!(matches!(tag, HtmlContent::Tag(_)));

    let fragment: HtmlContent = HtmlContent::from(Fragment::new(Vec::new()));
    assert!(matches!(fragment, HtmlContent::Fragment(_)));

    let self_closing: HtmlContent = HtmlContent::from(HtmlSelfClosingTag {
        name: "br".to_string(),
        attributes: AttributeMap::new(),
    });
    assert!(matches!(self_closing, HtmlContent::SelfClosingTag(_)));

    let text: HtmlContent = HtmlContent::from(UnescapedText::new("raw".to_string()));
    assert!(matches!(text, HtmlContent::UnescapedText(_)));
}

#[test]
fn emitted_construction_round_trip() {
    // Build the value the way emitted construction code does: name first,
    // then each attribute in order, then each child in order.
    let mut tag = empty_tag("label");
    tag.attributes.set_attribute("for".to_string(), "name".to_string());
    tag.attributes.set_attribute("class".to_string(), "wide".to_string());
    tag.add_child(HtmlContent::escaped_text("Name".to_string()));
    tag.add_child(HtmlContent::Tag(empty_tag("span")));

    // The serialization reproduces the name, both attribute pairs, and the
    // children in order.
    assert_eq!(
        tag.to_html_string(),
        "<label for=\"name\" class=\"wide\">Name<span></span></label>",
    );
    assert_eq!(tag.attributes.get("for"), Some(&"name".to_string()));
    assert_eq!(tag.attributes.get("class"), Some(&"wide".to_string()));
    assert_eq!(tag.children.len(), 2);
}

#[test]
fn escaped_text_value_round_trip() {
    // The same text, reached once through a tag child and once directly,
    // serializes identically.
    let mut tag = empty_tag("p");
    tag.add_child(HtmlContent::escaped_text("5 < 6".to_string()));
    let direct = HtmlContent::escaped_text("5 < 6".to_string());

    assert_eq!(tag.to_html_string(), "<p>5 &lt; 6</p>");
    assert_eq!(direct.to_html_string(), "5 &lt; 6");
}

#[test]
fn escaped_text_partial_eq() {
    let first = HtmlContent::escaped_text("same".to_string());
    let second = HtmlContent::escaped_text("same".to_string());
    assert_eq!(first, second);
}
