//! The tree serializer and the parse-then-render composition.

use textile::convenience::convert;
use textile::options::{Options, Symbol};
use textile::parcom::{parcom, Element, Node, Tag};
use textile::renderer::render;

fn options_with(pairs: Vec<(Symbol, &str)>) -> Options {
    Options {
        symbols: pairs.into_iter().map(|(s, t)| (s, t.to_string())).collect(),
        document_root_directory: None,
    }
}

#[test]
fn blank_line_block_separation() {
    let doc = parcom("orange\n\nmocha").unwrap();
    let html = render(&doc, &Options::default()).unwrap();
    assert_eq!(html, "<p>orange</p>\n\n<p>mocha</p>");
}

#[test]
fn heading_signature() {
    let html = convert("h1. orange\n\nmocha", &Options::default()).unwrap();
    assert_eq!(html, "<h1>orange</h1>\n\n<p>mocha</p>");
}

#[test]
fn plain_round_trip() {
    let input = "just some plain words";
    let html = convert(input, &Options::default()).unwrap();
    assert_eq!(html, format!("<p>{}</p>", input));
}

#[test]
fn symbol_substitution_is_table_driven() {
    let table = options_with(vec![(Symbol::Apostrophe, "&#8217;")]);
    let html = render(&Node::Symbol(Symbol::Apostrophe), &table).unwrap();
    assert_eq!(html, "&#8217;");
}

#[test]
fn symbol_substitution_empty_table() {
    let empty = options_with(vec![]);
    let html = render(&Node::Symbol(Symbol::Apostrophe), &empty).unwrap();
    assert_eq!(html, "");
}

#[test]
fn symbol_substitution_last_entry_wins() {
    let table = options_with(vec![
        (Symbol::Copyright, "first"),
        (Symbol::Copyright, "second"),
    ]);
    let html = render(&Node::Symbol(Symbol::Copyright), &table).unwrap();
    assert_eq!(html, "second");
}

#[test]
fn attribute_order_is_href_class_id() {
    let html = convert("h2(big loud #top). shout", &Options::default()).unwrap();
    assert_eq!(html, "<h2 class=\"big loud\" id=\"top\">shout</h2>");
}

#[test]
fn caps_run_becomes_span() {
    let html = convert("the BBC said", &Options::default()).unwrap();
    assert_eq!(html, "<p>the <span class=\"caps\">BBC</span> said</p>");
}

#[test]
fn emphasis_and_symbols_render() {
    let html = convert("*hi* there(tm)", &Options::default()).unwrap();
    assert_eq!(html, "<p><strong>hi</strong> there&#8482;</p>");
}

#[test]
fn link_renders_href_and_display() {
    let html = convert("\"two pence\":http://coins.example/a?b", &Options::default()).unwrap();
    assert_eq!(
        html,
        "<p><a href=\"http://coins.example/a?b\">two pence</a></p>"
    );
}

#[test]
fn blockquote_wraps_paragraph() {
    let html = convert("bq. quoted words", &Options::default()).unwrap();
    assert_eq!(html, "<blockquote><p>quoted words</p></blockquote>");
}

#[test]
fn footnote_renders_marker_and_text() {
    let html = convert("fn1. note text", &Options::default()).unwrap();
    assert_eq!(
        html,
        "<p class=\"footnote\" id=\"fn\"><sup>1</sup> note text</p>"
    );
}

#[test]
fn unterminated_delimiter_is_parse_error() {
    assert!(convert("*unterminated", &Options::default()).is_err());
}

#[test]
fn nested_document_root_is_render_error() {
    let bad = Node::Element(Element::nodes(
        Tag::Doc,
        vec![Node::Element(Element::new(Tag::Doc))],
    ));
    assert!(matches!(
        render(&bad, &Options::default()),
        Err(textile::Error::IntoTagError)
    ));
}

#[test]
fn tag_conversion_rejects_unknown_word() {
    assert!(matches!(
        Tag::try_from("zz"),
        Err(textile::Error::IntoTagError)
    ));
    assert!(matches!(Tag::try_from("h3"), Ok(Tag::H3)));
}

#[test]
fn ellipsis_en_and_em_dashes() {
    let html = convert("a - b -- c ...", &Options::default()).unwrap();
    assert_eq!(html, "<p>a&#8211;b &#8212; c &#8230;</p>");
}
