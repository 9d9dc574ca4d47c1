//! The combinator-style parsing engine: the input is segmented into block
//! fragments (newlines, blockquotes, footnotes, explicit and implicit
//! blocks), each block's inner span is tokenized into inline nodes, and the
//! results are gathered under a single document root.

pub mod attributes;
pub mod inline;
pub mod types;

use vstd::prelude::*;
use vstd::string::StrSliceExecFns;
use crate::chars::{count_pred, find2, find_two, lemma_count_pred, lemma_find2, scan_while,
    CharPred};
use crate::error::Error;

pub use attributes::handle_attributes;
pub use attributes::spec_handle_attributes;
pub use inline::handle_inline;
pub use inline::strong;
pub use inline::spec_handle_inline;
pub use types::Attributes;
pub use types::AttrsView;
pub use types::Element;
pub use types::ElementView;
pub use types::Node;
pub use types::NodeView;
pub use types::Plain;
pub use types::Tag;
pub use types::node_view;
pub use types::nodes_view;

use types::{spec_tag_of_signature, lemma_nodes_view_singleton, lemma_nodes_view_push,
    lemma_nodes_view_concat};
use inline::simple_el;

verus! {

broadcast use vstd::seq::group_seq_axioms;

/// One block's textual extent: the text up to, but not including, the next
/// blank-line run; or up to a single trailing newline at the end of input;
/// or all of it. An empty input has no extent at all.
pub open spec fn spec_take_until_block_ending(s: Seq<char>) -> Option<(Seq<char>, Seq<char>)> {
    if s.len() == 0 {
        None
    } else {
        let loc = find2(s, '\n', '\n');
        if loc >= 0 {
            Some((s.skip(loc), s.take(loc)))
        } else if s.last() == '\n' {
            Some((s.skip(s.len() - 1), s.take(s.len() - 1)))
        } else {
            Some((Seq::empty(), s))
        }
    }
}

/// A single newline character at the top level.
pub open spec fn spec_block_newline(s: Seq<char>) -> Option<(Seq<char>, NodeView)> {
    if s.len() >= 1 && s[0] == '\n' {
        Some((s.skip(1), NodeView::NewLine))
    } else {
        None
    }
}

/// The explicit signature word at the head of `s`, if any: `p` or a heading,
/// with its length.
pub open spec fn spec_block_tag_word(s: Seq<char>) -> Option<int> {
    if s.len() >= 1 && s[0] == 'p' {
        Some(1)
    } else if s.len() >= 2 && s[0] == 'h' && '1' <= s[1] && s[1] <= '6' {
        Some(2)
    } else {
        None
    }
}

/// An explicit heading or paragraph block: signature, optional attributes,
/// `. `, then the block extent, inline-tokenized.
pub open spec fn spec_explicit_block(s: Seq<char>) -> Option<(Seq<char>, NodeView)> {
    match spec_block_tag_word(s) {
        None => None,
        Some(tl) => {
            let word = s.take(tl);
            let (after_attrs, attrs) = spec_handle_attributes(s.skip(tl));
            if !(after_attrs.len() >= 2 && after_attrs[0] == '.' && after_attrs[1] == ' ') {
                None
            } else {
                match spec_take_until_block_ending(after_attrs.skip(2)) {
                    None => None,
                    Some((rest, content)) => match spec_handle_inline(content) {
                        None => None,
                        Some(ns) => Some(
                            (
                                rest,
                                NodeView::Element(
                                    ElementView {
                                        tag: spec_tag_of_signature(word)->Some_0,
                                        attrs,
                                        nodes: ns,
                                    },
                                ),
                            ),
                        ),
                    },
                }
            }
        },
    }
}

/// A blockquote block: its inline content is wrapped in an implicit
/// paragraph inside the blockquote element.
pub open spec fn spec_blockquote(s: Seq<char>) -> Option<(Seq<char>, NodeView)> {
    if !(s.len() >= 2 && s[0] == 'b' && s[1] == 'q') {
        None
    } else {
        let (after_attrs, attrs) = spec_handle_attributes(s.skip(2));
        if !(after_attrs.len() >= 2 && after_attrs[0] == '.' && after_attrs[1] == ' ') {
            None
        } else {
            match spec_take_until_block_ending(after_attrs.skip(2)) {
                None => None,
                Some((rest, content)) => match spec_handle_inline(content) {
                    None => None,
                    Some(ns) => Some(
                        (
                            rest,
                            NodeView::Element(
                                ElementView {
                                    tag: Tag::Blockquote,
                                    attrs,
                                    nodes: seq![simple_el(Tag::Paragraph, ns)],
                                },
                            ),
                        ),
                    ),
                },
            }
        }
    }
}

/// An implicit paragraph: the block extent with no signature.
pub open spec fn spec_implicit_block(s: Seq<char>) -> Option<(Seq<char>, NodeView)> {
    match spec_take_until_block_ending(s) {
        None => None,
        Some((rest, content)) => match spec_handle_inline(content) {
            None => None,
            Some(ns) => Some((rest, simple_el(Tag::Paragraph, ns))),
        },
    }
}

/// A footnote block `fn<digits>. text` (or `fn<digits>^. text` for a
/// back-linking marker): a footnote element whose first child is the marker,
/// followed by a space and the inline content.
pub open spec fn spec_footnote(s: Seq<char>) -> Option<(Seq<char>, NodeView)> {
    if !(s.len() >= 2 && s[0] == 'f' && s[1] == 'n') {
        None
    } else {
        let d = count_pred(s.skip(2), CharPred::Digit);
        if d < 1 {
            None
        } else {
            let digits = s.subrange(2, 2 + d);
            let after = s.skip(2 + d);
            let linked = after.len() >= 1 && after[0] == '^';
            let sup_content: NodeView = if linked {
                NodeView::Element(
                    ElementView {
                        tag: Tag::Anchor,
                        attrs: AttrsView {
                            classes: Seq::empty(),
                            href: Some("#fnrev"@),
                            id: None,
                            style: None,
                        },
                        nodes: seq![NodeView::Plain(digits)],
                    },
                )
            } else {
                NodeView::Plain(digits)
            };
            let after2: Seq<char> = if linked {
                after.skip(1)
            } else {
                after
            };
            let (after_attrs, el_attrs) = spec_handle_attributes(after2);
            if !(after_attrs.len() >= 2 && after_attrs[0] == '.' && after_attrs[1] == ' ') {
                None
            } else {
                match spec_take_until_block_ending(after_attrs.skip(2)) {
                    None => None,
                    Some((rest, content)) => match spec_handle_inline(content) {
                        None => None,
                        Some(ns) => {
                            let classes: Seq<Seq<char>> = if el_attrs.classes.len() == 0 {
                                seq!["footnote"@]
                            } else {
                                el_attrs.classes
                            };
                            let own_id = el_attrs.id is Some;
                            let el_id: Option<Seq<char>> = if own_id {
                                el_attrs.id
                            } else {
                                Some("fn"@)
                            };
                            let sup_id: Option<Seq<char>> = if own_id {
                                Some("fn"@)
                            } else {
                                None
                            };
                            let superscript = NodeView::Element(
                                ElementView {
                                    tag: Tag::FootnoteId,
                                    attrs: AttrsView {
                                        classes: Seq::empty(),
                                        href: None,
                                        id: sup_id,
                                        style: None,
                                    },
                                    nodes: seq![sup_content],
                                },
                            );
                            Some(
                                (
                                    rest,
                                    NodeView::Element(
                                        ElementView {
                                            tag: Tag::Footnote,
                                            attrs: AttrsView {
                                                classes,
                                                href: el_attrs.href,
                                                id: el_id,
                                                style: el_attrs.style,
                                            },
                                            nodes: seq![superscript, NodeView::Plain(" "@)] + ns,
                                        },
                                    ),
                                ),
                            )
                        },
                    },
                }
            }
        }
    }
}

/// One fragment of the document, in precedence order: a newline, a
/// blockquote, a footnote, an explicit block, an implicit paragraph.
pub open spec fn spec_doc_fragment(s: Seq<char>) -> Option<(Seq<char>, NodeView)> {
    match spec_block_newline(s) {
        Some(r) => Some(r),
        None => match spec_blockquote(s) {
            Some(r) => Some(r),
            None => match spec_footnote(s) {
                Some(r) => Some(r),
                None => match spec_explicit_block(s) {
                    Some(r) => Some(r),
                    None => spec_implicit_block(s),
                },
            },
        },
    }
}

/// The longest run of document fragments from the head of `s`: the remaining
/// input and the fragments' node views in order.
pub open spec fn spec_fragments(s: Seq<char>) -> (Seq<char>, Seq<NodeView>)
    decreases s.len(),
{
    match spec_doc_fragment(s) {
        None => (s, Seq::empty()),
        Some((rest, n)) => {
            if rest.len() >= s.len() {
                (s, Seq::empty())
            } else {
                let (r2, tail) = spec_fragments(rest);
                (r2, seq![n] + tail)
            }
        },
    }
}

/// What the whole engine makes of an input: the document root over the
/// fragments, or nothing when an unconsumed remainder is left.
pub open spec fn spec_parcom(s: Seq<char>) -> Option<NodeView> {
    let (rest, ns) = spec_fragments(s);
    if rest.len() != 0 {
        None
    } else {
        Some(NodeView::Element(ElementView { tag: Tag::Doc, attrs: AttrsView::empty(), nodes: ns }))
    }
}

/// A block extent leaves exactly the input after the matched text.
pub proof fn lemma_take_until_len(s: Seq<char>)
    ensures
        spec_take_until_block_ending(s) matches Some(p) ==> p.0.len() + p.1.len() == s.len(),
{
    if s.len() > 0 {
        lemma_find2(s, '\n', '\n');
    }
}

/// A successfully tokenized span is never empty.
pub proof fn lemma_inline_nonempty(s: Seq<char>)
    ensures
        spec_handle_inline(s) is Some ==> s.len() > 0,
{
}

/// Every fragment consumes at least one character.
pub proof fn lemma_doc_fragment_consumes(s: Seq<char>)
    ensures
        spec_doc_fragment(s) matches Some(p) ==> p.0.len() < s.len(),
{
    lemma_take_until_len(s);
    lemma_inline_nonempty(s);
    if s.len() >= 2 {
        crate::parcom::attributes::lemma_attr_parts_shrinks(s.skip(2));
        let (aa_bq, _) = spec_handle_attributes(s.skip(2));
        lemma_take_until_len(aa_bq.skip(2));
        let d = count_pred(s.skip(2), CharPred::Digit);
        lemma_count_pred(s.skip(2), CharPred::Digit);
        if d >= 1 {
            let after = s.skip(2 + d);
            let linked = after.len() >= 1 && after[0] == '^';
            let after2: Seq<char> = if linked {
                after.skip(1)
            } else {
                after
            };
            crate::parcom::attributes::lemma_attr_parts_shrinks(after2);
            let (aa_fn, _) = spec_handle_attributes(after2);
            lemma_take_until_len(aa_fn.skip(2));
        }
    }
    match spec_block_tag_word(s) {
        Some(tl) => {
            crate::parcom::attributes::lemma_attr_parts_shrinks(s.skip(tl));
            let (aa_ex, _) = spec_handle_attributes(s.skip(tl));
            lemma_take_until_len(aa_ex.skip(2));
        },
        None => {},
    }
    match spec_implicit_block(s) {
        Some((rest, n)) => {
            let (r0, content) = spec_take_until_block_ending(s)->Some_0;
        },
        None => {},
    }
}

/// Whether a character is a heading level digit.
fn is_heading_digit(c: char) -> (r: bool)
    ensures
        r == ('1' <= c && c <= '6'),
{
    let u = c as u32;
    49 <= u && u <= 54
}

/// Finds one block's textual extent: the text up to the next blank-line run,
/// or up to a single trailing newline, or all of the input; empty input is a
/// failure.
pub fn take_until_block_ending<'a>(i: &'a str) -> (r: Result<(&'a str, &'a str), Error>)
    ensures
        match spec_take_until_block_ending(i@) {
            Some((rest, matched)) => r matches Ok(p) && p.0@ == rest && p.1@ == matched,
            None => r is Err,
        },
{
    let n = i.unicode_len();
    if n == 0 {
        return Err(Error::ParComError { msg: "empty block" });
    }
    proof {
        assert(i@.skip(0) =~= i@);
    }
    match find_two(i, 0, '\n', '\n') {
        Some(loc) => {
            proof {
                lemma_find2(i@, '\n', '\n');
            }
            let matched = i.substring_char(0, loc);
            let rest = i.substring_char(loc, n);
            proof {
                assert(matched@ =~= i@.take(loc as int));
                assert(rest@ =~= i@.skip(loc as int));
            }
            Ok((rest, matched))
        },
        None => {
            if i.get_char(n - 1) == '\n' {
                let matched = i.substring_char(0, n - 1);
                let rest = i.substring_char(n - 1, n);
                proof {
                    assert(matched@ =~= i@.take(n - 1));
                    assert(rest@ =~= i@.skip(n - 1));
                }
                Ok((rest, matched))
            } else {
                let rest = i.substring_char(n, n);
                proof {
                    assert(rest@ =~= Seq::<char>::empty());
                }
                Ok((rest, i))
            }
        },
    }
}

/// A single newline character at the top level.
pub fn newline<'a>(i: &'a str) -> (r: Result<(&'a str, Node), Error>)
    ensures
        match spec_block_newline(i@) {
            Some((rest, nv)) => r matches Ok(p) && p.0@ == rest && p.1@ == nv,
            None => r is Err,
        },
{
    let n = i.unicode_len();
    if n == 0 || i.get_char(0) != '\n' {
        return Err(Error::ParComError { msg: "no newline" });
    }
    let rest = i.substring_char(1, n);
    proof {
        assert(rest@ =~= i@.skip(1));
    }
    Ok((rest, Node::NewLine))
}

/// An explicit heading or paragraph block.
pub fn explicit_block<'a>(i: &'a str) -> (r: Result<(&'a str, Node), Error>)
    ensures
        match spec_explicit_block(i@) {
            Some((rest, nv)) => r matches Ok(p) && p.0@ == rest && p.1@ == nv,
            None => r is Err,
        },
{
    let n = i.unicode_len();
    let tl: usize = if n >= 1 && i.get_char(0) == 'p' {
        1
    } else if n >= 2 && i.get_char(0) == 'h' && is_heading_digit(i.get_char(1)) {
        2
    } else {
        return Err(Error::ParComError { msg: "no block signature" });
    };
    let word = i.substring_char(0, tl);
    let after_sig = i.substring_char(tl, n);
    proof {
        assert(word@ =~= i@.take(tl as int));
        assert(after_sig@ =~= i@.skip(tl as int));
    }
    let (after_attrs, attrs) = handle_attributes(after_sig);
    let m = after_attrs.unicode_len();
    if !(m >= 2 && after_attrs.get_char(0) == '.' && after_attrs.get_char(1) == ' ') {
        return Err(Error::ParComError { msg: "no block terminator" });
    }
    let rest1 = after_attrs.substring_char(2, m);
    proof {
        assert(rest1@ =~= after_attrs@.skip(2));
    }
    let (rest2, content) = take_until_block_ending(rest1)?;
    let (_, nodes) = handle_inline(content)?;
    proof {
        reveal_strlit("p");
        reveal_strlit("h1");
        reveal_strlit("h2");
        reveal_strlit("h3");
        reveal_strlit("h4");
        reveal_strlit("h5");
        reveal_strlit("h6");
        if tl == 1 {
            assert(word@ =~= "p"@);
        } else {
            let c = i@[1];
            if c == '1' {
                assert(word@ =~= "h1"@);
            } else if c == '2' {
                assert(word@ =~= "h2"@);
            } else if c == '3' {
                assert(word@ =~= "h3"@);
            } else if c == '4' {
                assert(word@ =~= "h4"@);
            } else if c == '5' {
                assert(word@ =~= "h5"@);
            } else {
                assert(word@ =~= "h6"@);
            }
        }
        assert(spec_tag_of_signature(word@) is Some);
    }
    let tag = match Tag::try_from(word) {
        Ok(t) => t,
        Err(e) => {
            proof {
                assert(false);
            }
            return Err(e);
        },
    };
    let el = Element::attrs_nodes(tag, attrs, nodes);
    Ok((rest2, Node::Element(el)))
}

/// A blockquote block: the extent's inline nodes are wrapped in an implicit
/// paragraph inside the blockquote.
pub fn blockquote<'a>(i: &'a str) -> (r: Result<(&'a str, Node), Error>)
    ensures
        match spec_blockquote(i@) {
            Some((rest, nv)) => r matches Ok(p) && p.0@ == rest && p.1@ == nv,
            None => r is Err,
        },
{
    let n = i.unicode_len();
    if !(n >= 2 && i.get_char(0) == 'b' && i.get_char(1) == 'q') {
        return Err(Error::ParComError { msg: "no blockquote" });
    }
    let after_sig = i.substring_char(2, n);
    proof {
        assert(after_sig@ =~= i@.skip(2));
    }
    let (after_attrs, attrs) = handle_attributes(after_sig);
    let m = after_attrs.unicode_len();
    if !(m >= 2 && after_attrs.get_char(0) == '.' && after_attrs.get_char(1) == ' ') {
        return Err(Error::ParComError { msg: "no block terminator" });
    }
    let rest1 = after_attrs.substring_char(2, m);
    proof {
        assert(rest1@ =~= after_attrs@.skip(2));
    }
    let (rest2, content) = take_until_block_ending(rest1)?;
    let (_, nodes) = handle_inline(content)?;
    let p_el = Element::nodes(Tag::Paragraph, nodes);
    let p_node = Node::Element(p_el);
    proof {
        lemma_nodes_view_singleton(p_node);
    }
    let bq = Element::attrs_nodes(Tag::Blockquote, attrs, types::one_node(p_node));
    Ok((rest2, Node::Element(bq)))
}

/// An implicit paragraph: the extent with no signature.
pub fn implicit_block<'a>(i: &'a str) -> (r: Result<(&'a str, Node), Error>)
    ensures
        match spec_implicit_block(i@) {
            Some((rest, nv)) => r matches Ok(p) && p.0@ == rest && p.1@ == nv,
            None => r is Err,
        },
{
    let (rest, content) = take_until_block_ending(i)?;
    let (_, nodes) = handle_inline(content)?;
    let el = Element::nodes(Tag::Paragraph, nodes);
    Ok((rest, Node::Element(el)))
}

/// A footnote block: a marker child (a back-link anchor when the signature
/// carries `^`), a space, then the inline content.
pub fn footnote<'a>(i: &'a str) -> (r: Result<(&'a str, Node), Error>)
    ensures
        match spec_footnote(i@) {
            Some((rest, nv)) => r matches Ok(p) && p.0@ == rest && p.1@ == nv,
            None => r is Err,
        },
{
    let n = i.unicode_len();
    if !(n >= 2 && i.get_char(0) == 'f' && i.get_char(1) == 'n') {
        return Err(Error::ParComError { msg: "no footnote" });
    }
    let d = scan_while(i, 2, CharPred::Digit);
    if d == 0 {
        return Err(Error::ParComError { msg: "no footnote" });
    }
    let digits = i.substring_char(2, 2 + d);
    proof {
        assert(digits@ =~= i@.subrange(2, 2 + d as int));
        assert(i@.skip(2 + d as int).len() == n - 2 - d);
    }
    let linked = 2 + d < n && i.get_char(2 + d) == '^';
    let (sup_content, after_from): (Node, usize) = if linked {
        let dnode = Node::Plain(Plain::new(digits));
        proof {
            lemma_nodes_view_singleton(dnode);
        }
        let link_up = Element::attrs_nodes(
            Tag::Anchor,
            Attributes::href(String::from_str("#fnrev")),
            types::one_node(dnode),
        );
        (Node::Element(link_up), 2 + d + 1)
    } else {
        (Node::Plain(Plain::new(digits)), 2 + d)
    };
    let after2 = i.substring_char(after_from, n);
    proof {
        assert(after2@ =~= i@.skip(after_from as int));
        if linked {
            assert(i@.skip(2 + d as int).skip(1) =~= i@.skip(2 + d + 1));
        }
    }
    let (after_attrs, el_attrs) = handle_attributes(after2);
    let mut el_attrs = el_attrs;
    let m = after_attrs.unicode_len();
    if !(m >= 2 && after_attrs.get_char(0) == '.' && after_attrs.get_char(1) == ' ') {
        return Err(Error::ParComError { msg: "no block terminator" });
    }
    let rest1 = after_attrs.substring_char(2, m);
    proof {
        assert(rest1@ =~= after_attrs@.skip(2));
    }
    let (rest2, content) = take_until_block_ending(rest1)?;
    let (_, mut nodes) = handle_inline(content)?;
    let mut superscript_attrs = Attributes::new();
    if el_attrs.classes.len() == 0 {
        el_attrs.classes.push(String::from_str("footnote"));
        proof {
            assert(types::strs_view(el_attrs.classes@) =~= seq!["footnote"@]);
        }
    }
    if el_attrs.id.is_none() {
        el_attrs.id = Some(String::from_str("fn"));
    } else {
        superscript_attrs.id = Some(String::from_str("fn"));
    }
    proof {
        lemma_nodes_view_singleton(sup_content);
    }
    let superscript = Element::attrs_nodes(
        Tag::FootnoteId,
        superscript_attrs,
        types::one_node(sup_content),
    );
    let sup_node = Node::Element(superscript);
    let spc_node = Node::Plain(Plain::new(" "));
    let ghost g_sup = sup_node;
    let ghost g_spc = spc_node;
    let mut children: Vec<Node> = Vec::new();
    children.push(sup_node);
    children.push(spc_node);
    let ghost first_two = children@;
    let ghost tail = nodes@;
    children.append(&mut nodes);
    proof {
        assert(first_two =~= seq![g_sup, g_spc]);
        assert(children@ =~= first_two + tail);
        lemma_nodes_view_concat(first_two, tail);
        assert(seq![g_sup, g_spc].drop_last() =~= seq![g_sup]);
        lemma_nodes_view_singleton(g_sup);
        assert(nodes_view(first_two) =~= seq![node_view(g_sup), node_view(g_spc)]);
    }
    let el = Element::attrs_nodes(Tag::Footnote, el_attrs, children);
    proof {
        assert(node_view(Node::Element(el)) =~= spec_footnote(i@)->Some_0.1);
    }
    Ok((rest2, Node::Element(el)))
}

/// One document fragment, by precedence: newline, blockquote, footnote,
/// explicit block, implicit paragraph.
pub fn doc_fragment<'a>(i: &'a str) -> (r: Result<(&'a str, Node), Error>)
    ensures
        match spec_doc_fragment(i@) {
            Some((rest, nv)) => r matches Ok(p) && p.0@ == rest && p.1@ == nv,
            None => r is Err,
        },
{
    match newline(i) {
        Ok(p) => {
            return Ok(p);
        },
        Err(_) => {},
    }
    match blockquote(i) {
        Ok(p) => {
            return Ok(p);
        },
        Err(_) => {},
    }
    match footnote(i) {
        Ok(p) => {
            return Ok(p);
        },
        Err(_) => {},
    }
    match explicit_block(i) {
        Ok(p) => {
            return Ok(p);
        },
        Err(_) => {},
    }
    implicit_block(i)
}

/// Parses a whole document: the fragments in order under one document root;
/// an unconsumed remainder fails the parse.
pub fn parcom(i: &str) -> (r: Result<Node, Error>)
    ensures
        match spec_parcom(i@) {
            Some(dv) => r matches Ok(nd) && nd@ == dv,
            None => r is Err,
        },
{
    let mut rest: &str = i;
    let mut acc: Vec<Node> = Vec::new();
    proof {
        assert(nodes_view(acc@) =~= Seq::<NodeView>::empty());
        assert(nodes_view(acc@) + spec_fragments(rest@).1 =~= spec_fragments(i@).1);
    }
    loop
        invariant
            spec_fragments(i@).0 == spec_fragments(rest@).0,
            spec_fragments(i@).1 == nodes_view(acc@) + spec_fragments(rest@).1,
        ensures
            spec_fragments(i@).0 == rest@,
            spec_fragments(i@).1 == nodes_view(acc@),
        decreases rest@.len(),
    {
        let ghost pre = rest@;
        match doc_fragment(rest) {
            Ok((r2, node)) => {
                proof {
                    lemma_doc_fragment_consumes(pre);
                    let (fr, tail) = spec_fragments(r2@);
                    assert(spec_fragments(pre).1 =~= seq![node@] + tail);
                    lemma_nodes_view_push(acc@, node);
                    assert(nodes_view(acc@.push(node)) + tail =~= nodes_view(acc@) + (seq![node@]
                        + tail));
                }
                acc.push(node);
                rest = r2;
            },
            Err(_) => {
                proof {
                    assert(spec_fragments(rest@) == (rest@, Seq::<NodeView>::empty()));
                    assert(nodes_view(acc@) + Seq::<NodeView>::empty() =~= nodes_view(acc@));
                }
                break ;
            },
        }
    }
    if !rest.is_empty() {
        return Err(Error::ParComError { msg: "Nonparsed fragment" });
    }
    let doc = Element::nodes(Tag::Doc, acc);
    Ok(Node::Element(doc))
}

} // verus!
