//! The convenience entry points and the signature extractor.

use textile::convenience::textile_to_html_with_options;
use textile::modifiers::{extract_block, BlockTag};
use textile::options::Options;

fn block_tag(signature: &str) -> BlockTag {
    BlockTag::new(signature.to_string(), false, Vec::new(), None, None, None)
}

#[test]
fn simple() {
    assert_eq!(
        "<p>orange</p><p>mocha</p>",
        textile_to_html_with_options("orange\n\nmocha", Options::default()).unwrap()
    );
}

#[test]
fn line_breaks_inside_a_paragraph() {
    assert_eq!(
        "<p>orange<br>\nmocha</p>",
        textile_to_html_with_options("orange\nmocha", Options::default()).unwrap()
    );
}

#[test]
fn empty_document_renders_nothing() {
    assert_eq!(
        "",
        textile_to_html_with_options("", Options::default()).unwrap()
    );
}

#[test]
fn degenerate_input_is_a_lexing_error() {
    let r = textile_to_html_with_options("\u{0}", Options::default());
    assert!(matches!(r, Err(textile::Error::LexerError)));
}

#[test]
fn invalid() {
    let result = extract_block("p.".to_string());
    assert_eq!(result, (None, "p.".to_string()));
}

#[test]
fn signature() {
    let (block, text) = extract_block("p.  orange".to_string());
    assert_eq!(block.unwrap(), block_tag("p"));
    assert_eq!(text, " orange");
}

#[test]
fn canonical_table_covers_every_symbol() {
    let opts = Options::default();
    assert_eq!(opts.symbols.len(), 12);
    assert_eq!(opts.symbols[0].1, "&#8217;");
}
