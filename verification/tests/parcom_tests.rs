//! The combinator engine: attributes, inline matchers, and block fragments.

use textile::parcom::{
    blockquote, doc_fragment, explicit_block, handle_attributes, handle_inline, implicit_block,
    newline, parcom, strong, take_until_block_ending, Node, Tag,
};

#[test]
fn handle_attributes_class() {
    let (_, attrs) = handle_attributes("(orange mocha)");
    assert_eq!(attrs.classes, vec!["orange", "mocha"]);
    assert_eq!(attrs.id, None);
    assert_eq!(attrs.style, None);
}

#[test]
fn handle_attributes_id() {
    let (_, attrs) = handle_attributes("(#frap)");
    assert!(attrs.classes.is_empty());
    assert_eq!(attrs.id, Some("frap".to_string()));
    assert_eq!(attrs.style, None);
}

#[test]
fn handle_attributes_classes_id() {
    let (_, attrs) = handle_attributes("(orange mocha #frap)");
    assert_eq!(attrs.classes, vec!["orange", "mocha"]);
    assert_eq!(attrs.id, Some("frap".to_string()));
    assert_eq!(attrs.style, None);
}

#[test]
fn handle_attributes_styles() {
    let (_, attrs) = handle_attributes("{color: orange}");
    assert!(attrs.classes.is_empty());
    assert_eq!(attrs.id, None);
    assert_eq!(attrs.style, Some("color: orange".to_string()));
}

#[test]
fn handle_attributes_styles_classes() {
    let (_, attrs) = handle_attributes("{color: orange}(mocha)");
    assert_eq!(attrs.classes, vec!["mocha"]);
    assert_eq!(attrs.id, None);
    assert_eq!(attrs.style, Some("color: orange".to_string()));
}

#[test]
fn handle_attributes_classes_styles() {
    let (_, attrs) = handle_attributes("(mocha){color: orange}");
    assert_eq!(attrs.classes, vec!["mocha"]);
    assert_eq!(attrs.id, None);
    assert_eq!(attrs.style, Some("color: orange".to_string()));
}

#[test]
fn handle_inline1() {
    let input = "they're in the computer";
    let (remaining, _nodes) = handle_inline(input).unwrap();
    assert_eq!(remaining, "");
}

#[test]
fn handle_inline2() {
    let input = "*hi* **hello** *hi*";
    let (remaining, _nodes) = handle_inline(input).unwrap();
    assert_eq!(remaining, "");
}

#[test]
fn strong1() {
    let input = "*testing testing*";
    let (remaining_input, _element) = strong(input).unwrap();
    assert_eq!("", remaining_input);
}

#[test]
fn take_until_block_ending1() {
    assert!(matches!(take_until_block_ending(""), Err(_)));
}

#[test]
fn integration1() {
    let input = "bq. Don't suck the **brown stuff(tm)** off of \"2 pence\":http://royalmint.gov.uk coins; it ain't chocolate.";
    let doc = parcom(input);
    assert!(doc.is_ok());
}

#[test]
fn integration2() {
    let input = "\n\n";
    let doc = parcom(input);
    assert!(doc.is_ok());
}

#[test]
fn ensure_no_match_is_error() {
    assert!(matches!(blockquote(""), Err(_)));
    assert!(matches!(explicit_block(""), Err(_)));
    assert!(matches!(implicit_block(""), Err(_)));
    assert!(matches!(newline(""), Err(_)));
    assert!(matches!(doc_fragment(""), Err(_)));
}

#[test]
fn explicit_block1() {
    let input = "p. hello\n";
    let (remaining_input, _element) = explicit_block(input).unwrap();
    assert_eq!("\n", remaining_input);
}

#[test]
fn delimiters_do_not_nest() {
    let input = "*hi* **hello** *hi*";
    let (_, nodes) = handle_inline(input).unwrap();
    assert_eq!(nodes.len(), 5);
    match &nodes[0] {
        Node::Element(e) => assert_eq!(e.tag, Tag::Strong),
        other => panic!("expected a strong element, got {:?}", other),
    }
    match &nodes[1] {
        Node::Plain(p) => assert_eq!(p.content, " "),
        other => panic!("expected a plain space, got {:?}", other),
    }
    match &nodes[2] {
        Node::Element(e) => {
            assert_eq!(e.tag, Tag::Bold);
            assert_eq!(e.nodes.len(), 1);
            match &e.nodes[0] {
                Node::Plain(p) => assert_eq!(p.content, "hello"),
                other => panic!("expected plain bold content, got {:?}", other),
            }
        },
        other => panic!("expected a bold element, got {:?}", other),
    }
    match &nodes[3] {
        Node::Plain(p) => assert_eq!(p.content, " "),
        other => panic!("expected a plain space, got {:?}", other),
    }
    match &nodes[4] {
        Node::Element(e) => {
            assert_eq!(e.tag, Tag::Strong);
            assert_eq!(e.nodes.len(), 1);
            match &e.nodes[0] {
                Node::Plain(p) => assert_eq!(p.content, "hi"),
                other => panic!("expected plain strong content, got {:?}", other),
            }
        },
        other => panic!("expected a strong element, got {:?}", other),
    }
}

#[test]
fn last_id_wins_within_one_group() {
    let (_, attrs) = handle_attributes("(a b #one#two)");
    assert_eq!(attrs.classes, vec!["a", "b"]);
    assert_eq!(attrs.id, Some("two".to_string()));
}

#[test]
fn unterminated_delimiter_fails() {
    assert!(parcom("*unterminated").is_err());
}

#[test]
fn footnote_reference_links() {
    let (_, nodes) = handle_inline("[1]").unwrap();
    assert_eq!(nodes.len(), 1);
    match &nodes[0] {
        Node::Element(e) => {
            assert_eq!(e.tag, Tag::FootnoteRef);
            assert_eq!(e.attrs.classes, vec!["footnote"]);
            assert_eq!(e.attrs.id, Some("fnrev".to_string()));
            match &e.nodes[0] {
                Node::Element(a) => {
                    assert_eq!(a.tag, Tag::Anchor);
                    assert_eq!(a.attrs.href, Some("#fn".to_string()));
                },
                other => panic!("expected an anchor marker, got {:?}", other),
            }
        },
        other => panic!("expected a footnote reference, got {:?}", other),
    }
}

#[test]
fn footnote_block_back_reference() {
    let doc = parcom("fn1^. note text").unwrap();
    let root = match doc {
        Node::Element(e) => e,
        other => panic!("expected the document root, got {:?}", other),
    };
    assert_eq!(root.tag, Tag::Doc);
    assert_eq!(root.nodes.len(), 1);
    let footnote = match &root.nodes[0] {
        Node::Element(e) => e,
        other => panic!("expected a footnote element, got {:?}", other),
    };
    assert_eq!(footnote.tag, Tag::Footnote);
    assert_eq!(footnote.attrs.classes, vec!["footnote"]);
    assert_eq!(footnote.attrs.id, Some("fn".to_string()));
    let marker = match &footnote.nodes[0] {
        Node::Element(e) => e,
        other => panic!("expected a marker element, got {:?}", other),
    };
    assert_eq!(marker.tag, Tag::FootnoteId);
    match &marker.nodes[0] {
        Node::Element(a) => {
            assert_eq!(a.tag, Tag::Anchor);
            assert_eq!(a.attrs.href, Some("#fnrev".to_string()));
        },
        other => panic!("expected the back-link anchor, got {:?}", other),
    }
}
