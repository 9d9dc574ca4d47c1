//! The token-based tree builder, exercised through tokenize and parse.

use textile::lexer::tokenize;
use textile::lexer::Token;
use textile::options::Options;
use textile::parser::{parse, Attributes, Element, Node, Plain, Tag};

use Attributes as A;

fn doc(nodes: Vec<Node>) -> Node {
    Node::Element(Element::new(Tag::Doc, A::new(), nodes))
}

fn text(content: &str) -> Node {
    Node::Plain(Plain::new("text", content))
}

fn n() -> Node {
    Node::NewLine
}

fn h1(attrs: A, nodes: Vec<Node>) -> Node {
    Node::Element(Element::new(Tag::H1, attrs, nodes))
}

fn p(attrs: A, nodes: Vec<Node>) -> Node {
    Node::Element(Element::new(Tag::P, attrs, nodes))
}

fn bq(attrs: A, nodes: Vec<Node>) -> Node {
    Node::Element(Element::new(Tag::Bq, attrs, nodes))
}

fn bq_(attrs: A, nodes: Vec<Node>) -> Node {
    let mut el = Element::new(Tag::Bq, attrs, nodes);
    el.extended = true;
    Node::Element(el)
}

#[test]
fn blocks() {
    let options = Options::default();
    let input = tokenize("h1. they're\n\nin the computer", &options).unwrap();
    let nodes = parse(input, &options).unwrap();
    assert_eq!(
        nodes,
        doc(vec![
            h1(A::new(), vec![text("they're")]),
            Node::NewLine,
            Node::NewLine,
            p(A::new(), vec![text("in the computer")]),
        ])
    );
}

#[test]
fn blockquote_implicit_p() {
    let options = Options::default();
    let input = tokenize(
        "bq. they're in the computer\n\nthey're in the computer?",
        &options,
    )
    .unwrap();
    let nodes = parse(input, &options).unwrap();
    assert_eq!(
        nodes,
        doc(vec![
            bq(
                A::new(),
                vec![p(A::new(), vec![text("they're in the computer")])],
            ),
            n(),
            n(),
            p(A::new(), vec![text("they're in the computer?")]),
        ])
    );
}

#[test]
fn blockquote_extended_explicit_end() {
    let options = Options::default();
    let input = tokenize(
        "bq.. they're in the computer\n\nthey're in the computer?\n\np. what do they look like?",
        &options,
    )
    .unwrap();
    let nodes = parse(input, &options).unwrap();
    assert_eq!(
        nodes,
        doc(vec![
            bq_(
                A::new(),
                vec![
                    p(A::new(), vec![text("they're in the computer")]),
                    n(),
                    n(),
                    p(A::new(), vec![text("they're in the computer?")]),
                ],
            ),
            n(),
            n(),
            p(A::new(), vec![text("what do they look like?")]),
        ])
    );
}

#[test]
fn extended_bq_then_bq() {
    let options = Options::default();
    let input = tokenize(
        "bq.. they're in the computer\n\nthey're in the computer?\n\nbq.. what do they look like?",
        &options,
    )
    .unwrap();
    let nodes = parse(input, &options).unwrap();
    assert_eq!(
        nodes,
        doc(vec![
            bq_(
                A::new(),
                vec![
                    p(A::new(), vec![text("they're in the computer")]),
                    n(),
                    n(),
                    p(A::new(), vec![text("they're in the computer?")]),
                ],
            ),
            n(),
            n(),
            bq_(
                A::new(),
                vec![p(A::new(), vec![text("what do they look like?")])],
            ),
        ])
    );
}

#[test]
fn parser_error_on_tokens_after_eof() {
    let options = Options::default();
    let r = parse(
        vec![Token::Eof, Token::Text("late".to_string())],
        &options,
    );
    assert!(matches!(r, Err(textile::Error::ParserError)));
}
