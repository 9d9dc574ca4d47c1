//! The inline tokenizer: one block's inner text becomes an ordered sequence
//! of inline nodes, by trying a fixed list of matchers at each position and
//! recursing into emphasis spans and link display text.

use vstd::prelude::*;
use vstd::string::StrSliceExecFns;
use vstd::string::StringExecFns;
use crate::chars::{count_pred, find2, find_two, lemma_count_pred, lemma_find2, scan_while,
    CharPred};
use crate::error::Error;
use crate::options::Symbol;
use crate::parcom::types::{Attributes, AttrsView, Element, ElementView, Node, NodeView, Plain,
    Tag, node_view, nodes_view, one_class, one_node, lemma_nodes_view_singleton,
    lemma_nodes_view_prepend};

verus! {

broadcast use vstd::seq::group_seq_axioms;

/// An element with no attributes, as a view.
pub open spec fn simple_el(tag: Tag, nodes: Seq<NodeView>) -> NodeView {
    NodeView::Element(ElementView { tag, attrs: AttrsView::empty(), nodes })
}

/// A run of three or more uppercase letters, wrapped in a span of class
/// `caps`.
pub open spec fn spec_caps(s: Seq<char>) -> Option<(int, NodeView)> {
    let k = count_pred(s, CharPred::Uppercase);
    if !(3 <= k && k <= s.len()) {
        None
    } else {
        Some(
            (
                k,
                NodeView::Element(
                    ElementView {
                        tag: Tag::Span,
                        attrs: AttrsView {
                            classes: seq!["caps"@],
                            href: None,
                            id: None,
                            style: None,
                        },
                        nodes: seq![NodeView::Plain(s.take(k))],
                    },
                ),
            ),
        )
    }
}

/// A run of alphabetic characters, kept verbatim.
pub open spec fn spec_plain(s: Seq<char>) -> Option<(int, NodeView)> {
    let k = count_pred(s, CharPred::Alphabetic);
    if !(1 <= k && k <= s.len()) {
        None
    } else {
        Some((k, NodeView::Plain(s.take(k))))
    }
}

/// A word: a caps run if long enough, else a plain alphabetic run.
pub open spec fn spec_word(s: Seq<char>) -> Option<(int, NodeView)> {
    match spec_caps(s) {
        Some(r) => Some(r),
        None => spec_plain(s),
    }
}

/// A run of space characters, kept verbatim.
pub open spec fn spec_whitespace(s: Seq<char>) -> Option<(int, NodeView)> {
    let k = count_pred(s, CharPred::Space);
    if !(1 <= k && k <= s.len()) {
        None
    } else {
        Some((k, NodeView::Plain(s.take(k))))
    }
}

/// Any single remaining character, consumed verbatim — except a bare
/// emphasis delimiter, which is left for its matcher so that an unterminated
/// span fails the block instead of passing silently.
pub open spec fn spec_fallback1(s: Seq<char>) -> Option<(int, NodeView)> {
    if s.len() >= 1 && s[0] != '*' && s[0] != '_' {
        Some((1, NodeView::Plain(s.take(1))))
    } else {
        None
    }
}

/// An interior line break.
pub open spec fn spec_newline(s: Seq<char>) -> Option<(int, NodeView)> {
    if s.len() >= 1 && s[0] == '\n' {
        Some((1, NodeView::NewLine))
    } else {
        None
    }
}

/// `**...**`: the content up to the first following `*`, recursively
/// tokenized, wrapped in a bold element.
pub open spec fn spec_bold(s: Seq<char>) -> Option<(int, NodeView)>
    decreases s.len(), 0int,
{
    if !(s.len() >= 2 && s[0] == '*' && s[1] == '*') {
        None
    } else {
        let i1 = s.skip(2);
        let k = count_pred(i1, CharPred::NotChar('*'));
        if !(0 <= k && k + 1 < i1.len() && i1[k + 1] == '*') {
            None
        } else {
            match spec_handle_inline(i1.take(k)) {
                Some(ns) => Some((2 + k + 2, simple_el(Tag::Bold, ns))),
                None => None,
            }
        }
    }
}

/// `*...*`: the content up to the first following `*`, recursively
/// tokenized, wrapped in a strong element.
pub open spec fn spec_strong(s: Seq<char>) -> Option<(int, NodeView)>
    decreases s.len(), 0int,
{
    if !(s.len() >= 1 && s[0] == '*') {
        None
    } else {
        let i1 = s.skip(1);
        let k = count_pred(i1, CharPred::NotChar('*'));
        if !(0 <= k && k < i1.len()) {
            None
        } else {
            match spec_handle_inline(i1.take(k)) {
                Some(ns) => Some((1 + k + 1, simple_el(Tag::Strong, ns))),
                None => None,
            }
        }
    }
}

/// `__...__`: the content up to the first following `__`, recursively
/// tokenized, wrapped in an italic element.
pub open spec fn spec_italic(s: Seq<char>) -> Option<(int, NodeView)>
    decreases s.len(), 0int,
{
    if !(s.len() >= 2 && s[0] == '_' && s[1] == '_') {
        None
    } else {
        let i1 = s.skip(2);
        let k = find2(i1, '_', '_');
        if !(0 <= k && k + 1 < i1.len()) {
            None
        } else {
            match spec_handle_inline(i1.take(k)) {
                Some(ns) => Some((2 + k + 2, simple_el(Tag::Italic, ns))),
                None => None,
            }
        }
    }
}

/// `_..._`: the content up to the first following `_`, recursively
/// tokenized, wrapped in an emphasis element.
pub open spec fn spec_emphasized(s: Seq<char>) -> Option<(int, NodeView)>
    decreases s.len(), 0int,
{
    if !(s.len() >= 1 && s[0] == '_') {
        None
    } else {
        let i1 = s.skip(1);
        let k = count_pred(i1, CharPred::NotChar('_'));
        if !(0 <= k && k < i1.len()) {
            None
        } else {
            match spec_handle_inline(i1.take(k)) {
                Some(ns) => Some((1 + k + 1, simple_el(Tag::Emphasis, ns))),
                None => None,
            }
        }
    }
}

/// A spaced hyphen ` - `, which must be recognized before whitespace runs.
pub open spec fn spec_endash(s: Seq<char>) -> Option<(int, NodeView)> {
    if s.len() >= 3 && s[0] == ' ' && s[1] == '-' && s[2] == ' ' {
        Some((3, NodeView::Symbol(Symbol::Endash)))
    } else {
        None
    }
}

/// `[digits]` for a back-linking reference, `[digits!]` for a plain one.
pub open spec fn spec_footnote_ref(s: Seq<char>) -> Option<(int, NodeView)> {
    if !(s.len() >= 1 && s[0] == '[') {
        None
    } else {
        let d = count_pred(s.skip(1), CharPred::Digit);
        if d < 1 {
            None
        } else {
            let digits = s.subrange(1, 1 + d);
            let after = s.skip(1 + d);
            let marker: Option<(int, NodeView)> = if after.len() >= 2 && after[0] == '!'
                && after[1] == ']' {
                Some((1 + d + 2, NodeView::Plain(digits)))
            } else if after.len() >= 1 && after[0] == ']' {
                Some(
                    (
                        1 + d + 1,
                        NodeView::Element(
                            ElementView {
                                tag: Tag::Anchor,
                                attrs: AttrsView {
                                    classes: Seq::empty(),
                                    href: Some("#fn"@),
                                    id: None,
                                    style: None,
                                },
                                nodes: seq![NodeView::Plain(digits)],
                            },
                        ),
                    ),
                )
            } else {
                None
            };
            match marker {
                Some((consumed, m)) => Some(
                    (
                        consumed,
                        NodeView::Element(
                            ElementView {
                                tag: Tag::FootnoteRef,
                                attrs: AttrsView {
                                    classes: seq!["footnote"@],
                                    href: None,
                                    id: Some("fnrev"@),
                                    style: None,
                                },
                                nodes: seq![m],
                            },
                        ),
                    ),
                ),
                None => None,
            }
        }
    }
}

pub open spec fn spec_apostrophe(s: Seq<char>) -> Option<(int, NodeView)> {
    if s.len() >= 1 && s[0] == '\'' {
        Some((1, NodeView::Symbol(Symbol::Apostrophe)))
    } else {
        None
    }
}

pub open spec fn spec_ellipsis(s: Seq<char>) -> Option<(int, NodeView)> {
    if s.len() >= 3 && s[0] == '.' && s[1] == '.' && s[2] == '.' {
        Some((3, NodeView::Symbol(Symbol::Ellipsis)))
    } else {
        None
    }
}

pub open spec fn spec_emdash(s: Seq<char>) -> Option<(int, NodeView)> {
    if s.len() >= 2 && s[0] == '-' && s[1] == '-' {
        Some((2, NodeView::Symbol(Symbol::Emdash)))
    } else {
        None
    }
}

/// The symbol word inside a bracketed simple symbol, with how many
/// characters it takes: trademark, registered, copyright, the three
/// fractions, degrees, plus-minus.
pub open spec fn spec_symbol_word(s: Seq<char>) -> Option<(int, Symbol)> {
    if s.len() >= 2 && (s[0] == 't' || s[0] == 'T') && (s[1] == 'm' || s[1] == 'M') {
        Some((2, Symbol::Trademark))
    } else if s.len() >= 1 && (s[0] == 'r' || s[0] == 'R') {
        Some((1, Symbol::Registered))
    } else if s.len() >= 1 && (s[0] == 'c' || s[0] == 'C') {
        Some((1, Symbol::Copyright))
    } else if s.len() >= 3 && s[0] == '1' && s[1] == '/' && s[2] == '2' {
        Some((3, Symbol::Half))
    } else if s.len() >= 3 && s[0] == '1' && s[1] == '/' && s[2] == '4' {
        Some((3, Symbol::Quarter))
    } else if s.len() >= 3 && s[0] == '3' && s[1] == '/' && s[2] == '4' {
        Some((3, Symbol::ThreeQuarters))
    } else if s.len() >= 1 && (s[0] == 'o' || s[0] == 'O') {
        Some((1, Symbol::Degrees))
    } else if s.len() >= 3 && s[0] == '+' && s[1] == '/' && s[2] == '-' {
        Some((3, Symbol::PlusMinus))
    } else {
        None
    }
}

/// A simple symbol word between parentheses or between square brackets.
pub open spec fn spec_simple_symbols(s: Seq<char>) -> Option<(int, NodeView)> {
    if s.len() >= 1 && (s[0] == '(' || s[0] == '[') {
        let close = if s[0] == '(' {
            ')'
        } else {
            ']'
        };
        match spec_symbol_word(s.skip(1)) {
            Some((w, sym)) => {
                if 1 + w < s.len() && s[1 + w] == close {
                    Some((2 + w, NodeView::Symbol(sym)))
                } else {
                    None
                }
            },
            None => None,
        }
    } else {
        None
    }
}

/// `"display":url`: the display text, recursively tokenized, becomes the
/// children of an anchor whose target is the following run of URL-safe
/// characters.
pub open spec fn spec_link(s: Seq<char>) -> Option<(int, NodeView)>
    decreases s.len(), 0int,
{
    if !(s.len() >= 1 && s[0] == '"') {
        None
    } else {
        let i1 = s.skip(1);
        let k = count_pred(i1, CharPred::NotChar('"'));
        if !(0 <= k && k + 1 < i1.len() && i1[k + 1] == ':') {
            None
        } else {
            let u = count_pred(i1.skip(k + 2), CharPred::Url);
            if u < 1 {
                None
            } else {
                match spec_handle_inline(i1.take(k)) {
                    Some(ns) => Some(
                        (
                            1 + k + 2 + u,
                            NodeView::Element(
                                ElementView {
                                    tag: Tag::Anchor,
                                    attrs: AttrsView {
                                        classes: Seq::empty(),
                                        href: Some(i1.subrange(k + 2, k + 2 + u)),
                                        id: None,
                                        style: None,
                                    },
                                    nodes: ns,
                                },
                            ),
                        ),
                    ),
                    None => None,
                }
            }
        }
    }
}

/// The first matcher that accepts the head of `s`, with how many characters
/// it consumes; the order is the precedence contract of the tokenizer.
pub open spec fn spec_match_one(s: Seq<char>) -> Option<(int, NodeView)>
    decreases s.len(), 1int,
{
    match spec_word(s) {
        Some(r) => Some(r),
        None => match spec_bold(s) {
            Some(r) => Some(r),
            None => match spec_strong(s) {
                Some(r) => Some(r),
                None => match spec_italic(s) {
                    Some(r) => Some(r),
                    None => match spec_emphasized(s) {
                        Some(r) => Some(r),
                        None => match spec_endash(s) {
                            Some(r) => Some(r),
                            None => match spec_whitespace(s) {
                                Some(r) => Some(r),
                                None => match spec_footnote_ref(s) {
                                    Some(r) => Some(r),
                                    None => match spec_apostrophe(s) {
                                        Some(r) => Some(r),
                                        None => match spec_ellipsis(s) {
                                            Some(r) => Some(r),
                                            None => match spec_emdash(s) {
                                                Some(r) => Some(r),
                                                None => match spec_simple_symbols(s) {
                                                    Some(r) => Some(r),
                                                    None => match spec_link(s) {
                                                        Some(r) => Some(r),
                                                        None => match spec_newline(s) {
                                                            Some(r) => Some(r),
                                                            None => spec_fallback1(s),
                                                        },
                                                    },
                                                },
                                            },
                                        },
                                    },
                                },
                            },
                        },
                    },
                },
            },
        },
    }
}

/// What inline tokenization makes of a whole span: the ordered node views,
/// or nothing when the span is empty, no matcher accepts at some position,
/// or a recursive span does not tokenize.
pub open spec fn spec_handle_inline(s: Seq<char>) -> Option<Seq<NodeView>>
    decreases s.len(), 2int,
{
    if s.len() == 0 {
        None
    } else {
        match spec_match_one(s) {
            None => None,
            Some((k, n)) => {
                if !(1 <= k && k <= s.len()) {
                    None
                } else if k == s.len() {
                    Some(seq![n])
                } else {
                    match spec_handle_inline(s.skip(k)) {
                        Some(rest) => Some(seq![n] + rest),
                        None => None,
                    }
                }
            },
        }
    }
}

/// Every successful matcher consumes at least one character and no more
/// than the whole span.
pub proof fn lemma_match_one_consumes(s: Seq<char>)
    ensures
        spec_match_one(s) matches Some(r) ==> 1 <= r.0 <= s.len(),
{
    lemma_count_pred(s, CharPred::Uppercase);
    lemma_count_pred(s, CharPred::Alphabetic);
    lemma_count_pred(s, CharPred::Space);
    if s.len() >= 1 {
        lemma_count_pred(s.skip(1), CharPred::NotChar('*'));
        lemma_count_pred(s.skip(1), CharPred::NotChar('_'));
        lemma_count_pred(s.skip(1), CharPred::NotChar('"'));
        lemma_count_pred(s.skip(1), CharPred::Digit);
        if s.len() >= 2 {
            lemma_count_pred(s.skip(2), CharPred::NotChar('*'));
            lemma_find2(s.skip(2), '_', '_');
        }
        if spec_footnote_ref(s) is Some {
            let d = count_pred(s.skip(1), CharPred::Digit);
            assert(1 + d <= s.len());
        }
        if spec_link(s) is Some {
            let i1 = s.skip(1);
            let k = count_pred(i1, CharPred::NotChar('"'));
            lemma_count_pred(i1.skip(k + 2), CharPred::Url);
        }
    }
}

/// A run of three or more uppercase letters becomes a span of class `caps`.
fn caps<'a>(i: &'a str) -> (r: Result<(&'a str, Node), Error>)
    ensures
        match spec_caps(i@) {
            Some((k, nv)) => r matches Ok(p) && p.0@ == i@.skip(k) && p.1@ == nv,
            None => r is Err,
        },
{
    let n = i.unicode_len();
    let k = scan_while(i, 0, CharPred::Uppercase);
    proof {
        assert(i@.skip(0) =~= i@);
    }
    if k <= 2 {
        return Err(Error::ParComError { msg: "no caps run" });
    }
    let matched = i.substring_char(0, k);
    let pnode = Node::Plain(Plain::new(matched));
    proof {
        lemma_nodes_view_singleton(pnode);
    }
    let element = Element::attrs_nodes(
        Tag::Span,
        Attributes::classes(one_class("caps")),
        one_node(pnode),
    );
    let rest = i.substring_char(k, n);
    proof {
        assert(matched@ =~= i@.take(k as int));
        assert(rest@ =~= i@.skip(k as int));
        assert(node_view(Node::Element(element)) =~= spec_caps(i@)->Some_0.1);
    }
    Ok((rest, Node::Element(element)))
}

/// A run of alphabetic characters becomes a plain node.
fn plain<'a>(i: &'a str) -> (r: Result<(&'a str, Node), Error>)
    ensures
        match spec_plain(i@) {
            Some((k, nv)) => r matches Ok(p) && p.0@ == i@.skip(k) && p.1@ == nv,
            None => r is Err,
        },
{
    let n = i.unicode_len();
    let k = scan_while(i, 0, CharPred::Alphabetic);
    proof {
        assert(i@.skip(0) =~= i@);
    }
    if k == 0 {
        return Err(Error::ParComError { msg: "no word" });
    }
    let matched = i.substring_char(0, k);
    let rest = i.substring_char(k, n);
    proof {
        assert(matched@ =~= i@.take(k as int));
        assert(rest@ =~= i@.skip(k as int));
    }
    Ok((rest, Node::Plain(Plain::new(matched))))
}

/// A word: a caps run when long enough, else a plain alphabetic run.
fn word<'a>(i: &'a str) -> (r: Result<(&'a str, Node), Error>)
    ensures
        match spec_word(i@) {
            Some((k, nv)) => r matches Ok(p) && p.0@ == i@.skip(k) && p.1@ == nv,
            None => r is Err,
        },
{
    match caps(i) {
        Ok(p) => Ok(p),
        Err(_) => plain(i),
    }
}

/// A run of spaces, kept verbatim.
fn whitespace<'a>(i: &'a str) -> (r: Result<(&'a str, Node), Error>)
    ensures
        match spec_whitespace(i@) {
            Some((k, nv)) => r matches Ok(p) && p.0@ == i@.skip(k) && p.1@ == nv,
            None => r is Err,
        },
{
    let n = i.unicode_len();
    let k = scan_while(i, 0, CharPred::Space);
    proof {
        assert(i@.skip(0) =~= i@);
    }
    if k == 0 {
        return Err(Error::ParComError { msg: "no whitespace" });
    }
    let matched = i.substring_char(0, k);
    let rest = i.substring_char(k, n);
    proof {
        assert(matched@ =~= i@.take(k as int));
        assert(rest@ =~= i@.skip(k as int));
    }
    Ok((rest, Node::Plain(Plain::new(matched))))
}

/// One character, consumed verbatim; a bare emphasis delimiter is refused so
/// that an unterminated span surfaces as a parse failure.
fn fallback1<'a>(i: &'a str) -> (r: Result<(&'a str, Node), Error>)
    ensures
        match spec_fallback1(i@) {
            Some((k, nv)) => r matches Ok(p) && p.0@ == i@.skip(k) && p.1@ == nv,
            None => r is Err,
        },
{
    let n = i.unicode_len();
    if n == 0 {
        return Err(Error::ParComError { msg: "empty input" });
    }
    let c = i.get_char(0);
    if c == '*' || c == '_' {
        return Err(Error::ParComError { msg: "unterminated delimiter" });
    }
    let matched = i.substring_char(0, 1);
    let rest = i.substring_char(1, n);
    proof {
        assert(matched@ =~= i@.take(1));
        assert(rest@ =~= i@.skip(1));
    }
    Ok((rest, Node::Plain(Plain::new(matched))))
}

/// A literal newline inside a block becomes a line-break node.
fn newline<'a>(i: &'a str) -> (r: Result<(&'a str, Node), Error>)
    ensures
        match spec_newline(i@) {
            Some((k, nv)) => r matches Ok(p) && p.0@ == i@.skip(k) && p.1@ == nv,
            None => r is Err,
        },
{
    let n = i.unicode_len();
    if n == 0 || i.get_char(0) != '\n' {
        return Err(Error::ParComError { msg: "no newline" });
    }
    let rest = i.substring_char(1, n);
    proof {
        assert(rest@ =~= i@.skip(1));
    }
    Ok((rest, Node::NewLine))
}

/// A single apostrophe.
fn apostrophe<'a>(i: &'a str) -> (r: Result<(&'a str, Node), Error>)
    ensures
        match spec_apostrophe(i@) {
            Some((k, nv)) => r matches Ok(p) && p.0@ == i@.skip(k) && p.1@ == nv,
            None => r is Err,
        },
{
    let n = i.unicode_len();
    if n == 0 || i.get_char(0) != '\'' {
        return Err(Error::ParComError { msg: "no apostrophe" });
    }
    let rest = i.substring_char(1, n);
    proof {
        assert(rest@ =~= i@.skip(1));
    }
    Ok((rest, Node::Symbol(Symbol::Apostrophe)))
}

/// A literal ellipsis `...`.
fn ellipsis<'a>(i: &'a str) -> (r: Result<(&'a str, Node), Error>)
    ensures
        match spec_ellipsis(i@) {
            Some((k, nv)) => r matches Ok(p) && p.0@ == i@.skip(k) && p.1@ == nv,
            None => r is Err,
        },
{
    let n = i.unicode_len();
    if n >= 3 && i.get_char(0) == '.' && i.get_char(1) == '.' && i.get_char(2) == '.' {
        let rest = i.substring_char(3, n);
        proof {
            assert(rest@ =~= i@.skip(3));
        }
        Ok((rest, Node::Symbol(Symbol::Ellipsis)))
    } else {
        Err(Error::ParComError { msg: "no ellipsis" })
    }
}

/// A literal `--`.
fn emdash<'a>(i: &'a str) -> (r: Result<(&'a str, Node), Error>)
    ensures
        match spec_emdash(i@) {
            Some((k, nv)) => r matches Ok(p) && p.0@ == i@.skip(k) && p.1@ == nv,
            None => r is Err,
        },
{
    let n = i.unicode_len();
    if n >= 2 && i.get_char(0) == '-' && i.get_char(1) == '-' {
        let rest = i.substring_char(2, n);
        proof {
            assert(rest@ =~= i@.skip(2));
        }
        Ok((rest, Node::Symbol(Symbol::Emdash)))
    } else {
        Err(Error::ParComError { msg: "no emdash" })
    }
}

/// A spaced hyphen ` - `; it must be tried before whitespace runs.
fn endash<'a>(i: &'a str) -> (r: Result<(&'a str, Node), Error>)
    ensures
        match spec_endash(i@) {
            Some((k, nv)) => r matches Ok(p) && p.0@ == i@.skip(k) && p.1@ == nv,
            None => r is Err,
        },
{
    let n = i.unicode_len();
    if n >= 3 && i.get_char(0) == ' ' && i.get_char(1) == '-' && i.get_char(2) == ' ' {
        let rest = i.substring_char(3, n);
        proof {
            assert(rest@ =~= i@.skip(3));
        }
        Ok((rest, Node::Symbol(Symbol::Endash)))
    } else {
        Err(Error::ParComError { msg: "no endash" })
    }
}

/// The symbol word inside a bracketed simple symbol, with the count of
/// characters it takes.
fn symbol_word(s: &str) -> (r: Option<(usize, Symbol)>)
    ensures
        match spec_symbol_word(s@) {
            Some((w, sym)) => r matches Some(p) && p.0 == w && p.1 == sym,
            None => r is None,
        },
{
    let n = s.unicode_len();
    let c0 = if n >= 1 {
        s.get_char(0)
    } else {
        ' '
    };
    let c1 = if n >= 2 {
        s.get_char(1)
    } else {
        ' '
    };
    let c2 = if n >= 3 {
        s.get_char(2)
    } else {
        ' '
    };
    if n >= 2 && (c0 == 't' || c0 == 'T') && (c1 == 'm' || c1 == 'M') {
        Some((2, Symbol::Trademark))
    } else if n >= 1 && (c0 == 'r' || c0 == 'R') {
        Some((1, Symbol::Registered))
    } else if n >= 1 && (c0 == 'c' || c0 == 'C') {
        Some((1, Symbol::Copyright))
    } else if n >= 3 && c0 == '1' && c1 == '/' && c2 == '2' {
        Some((3, Symbol::Half))
    } else if n >= 3 && c0 == '1' && c1 == '/' && c2 == '4' {
        Some((3, Symbol::Quarter))
    } else if n >= 3 && c0 == '3' && c1 == '/' && c2 == '4' {
        Some((3, Symbol::ThreeQuarters))
    } else if n >= 1 && (c0 == 'o' || c0 == 'O') {
        Some((1, Symbol::Degrees))
    } else if n >= 3 && c0 == '+' && c1 == '/' && c2 == '-' {
        Some((3, Symbol::PlusMinus))
    } else {
        None
    }
}

/// A simple symbol word between parentheses or square brackets.
fn simple_symbols<'a>(i: &'a str) -> (r: Result<(&'a str, Node), Error>)
    ensures
        match spec_simple_symbols(i@) {
            Some((k, nv)) => r matches Ok(p) && p.0@ == i@.skip(k) && p.1@ == nv,
            None => r is Err,
        },
{
    let n = i.unicode_len();
    if n == 0 {
        return Err(Error::ParComError { msg: "no simple symbol" });
    }
    let open = i.get_char(0);
    if open != '(' && open != '[' {
        return Err(Error::ParComError { msg: "no simple symbol" });
    }
    let close = if open == '(' {
        ')'
    } else {
        ']'
    };
    let inner = i.substring_char(1, n);
    proof {
        assert(inner@ =~= i@.skip(1));
    }
    match symbol_word(inner) {
        Some((w, sym)) => {
            if 1 + w < n && i.get_char(1 + w) == close {
                let rest = i.substring_char(2 + w, n);
                proof {
                    assert(rest@ =~= i@.skip(2 + w as int));
                }
                Ok((rest, Node::Symbol(sym)))
            } else {
                Err(Error::ParComError { msg: "no simple symbol" })
            }
        },
        None => Err(Error::ParComError { msg: "no simple symbol" }),
    }
}

/// `[digits]` or `[digits!]`: a footnote reference, back-linking in the
/// first form, plain in the second.
fn footnote_ref<'a>(i: &'a str) -> (r: Result<(&'a str, Node), Error>)
    ensures
        match spec_footnote_ref(i@) {
            Some((k, nv)) => r matches Ok(p) && p.0@ == i@.skip(k) && p.1@ == nv,
            None => r is Err,
        },
{
    let n = i.unicode_len();
    if n == 0 || i.get_char(0) != '[' {
        return Err(Error::ParComError { msg: "no footnote reference" });
    }
    let d = scan_while(i, 1, CharPred::Digit);
    if d == 0 {
        return Err(Error::ParComError { msg: "no footnote reference" });
    }
    let digits = i.substring_char(1, 1 + d);
    proof {
        assert(digits@ =~= i@.subrange(1, 1 + d as int));
        assert(i@.skip(1 + d as int).len() == n - 1 - d);
    }
    let rem = n - (1 + d);
    let (consumed, marker): (usize, Node) = if rem >= 2 && i.get_char(1 + d) == '!' && i.get_char(
        1 + d + 1,
    ) == ']' {
        (1 + d + 2, Node::Plain(Plain::new(digits)))
    } else if rem >= 1 && i.get_char(1 + d) == ']' {
        let dnode = Node::Plain(Plain::new(digits));
        proof {
            lemma_nodes_view_singleton(dnode);
        }
        let link_down = Element::attrs_nodes(
            Tag::Anchor,
            Attributes::href(String::from_str("#fn")),
            one_node(dnode),
        );
        (1 + d + 1, Node::Element(link_down))
    } else {
        return Err(Error::ParComError { msg: "no footnote reference" });
    };
    let element = Element::attrs_nodes(
        Tag::FootnoteRef,
        Attributes::classes_id(one_class("footnote"), String::from_str("fnrev")),
        one_node(marker),
    );
    let rest = i.substring_char(consumed, n);
    proof {
        lemma_nodes_view_singleton(marker);
        assert(rest@ =~= i@.skip(consumed as int));
        assert(node_view(Node::Element(element)) =~= spec_footnote_ref(i@)->Some_0.1);
    }
    Ok((rest, Node::Element(element)))
}

/// `**...**`, with its content recursively tokenized.
fn bold<'a>(i: &'a str) -> (r: Result<(&'a str, Node), Error>)
    ensures
        match spec_bold(i@) {
            Some((k, nv)) => r matches Ok(p) && p.0@ == i@.skip(k) && p.1@ == nv,
            None => r is Err,
        },
    decreases i@.len(), 0int,
{
    let n = i.unicode_len();
    if !(n >= 2 && i.get_char(0) == '*' && i.get_char(1) == '*') {
        return Err(Error::ParComError { msg: "no bold" });
    }
    let k = scan_while(i, 2, CharPred::NotChar('*'));
    if !(2 + k < n && n - (2 + k) >= 2 && i.get_char(2 + k + 1) == '*') {
        return Err(Error::ParComError { msg: "no bold" });
    }
    let inside = i.substring_char(2, 2 + k);
    proof {
        assert(inside@ =~= i@.skip(2).take(k as int));
        assert(inside@.len() < i@.len());
    }
    let (_, nodes) = handle_inline(inside)?;
    let rest = i.substring_char(2 + k + 2, n);
    proof {
        assert(rest@ =~= i@.skip(2 + k + 2));
    }
    let element = Element::nodes(Tag::Bold, nodes);
    Ok((rest, Node::Element(element)))
}

/// `*...*`, with its content recursively tokenized.
pub fn strong<'a>(i: &'a str) -> (r: Result<(&'a str, Node), Error>)
    ensures
        match spec_strong(i@) {
            Some((k, nv)) => r matches Ok(p) && p.0@ == i@.skip(k) && p.1@ == nv,
            None => r is Err,
        },
    decreases i@.len(), 0int,
{
    let n = i.unicode_len();
    if !(n >= 1 && i.get_char(0) == '*') {
        return Err(Error::ParComError { msg: "no strong" });
    }
    let k = scan_while(i, 1, CharPred::NotChar('*'));
    if !(1 + k < n) {
        return Err(Error::ParComError { msg: "no strong" });
    }
    let inside = i.substring_char(1, 1 + k);
    proof {
        assert(inside@ =~= i@.skip(1).take(k as int));
        assert(inside@.len() < i@.len());
    }
    let (_, nodes) = handle_inline(inside)?;
    let rest = i.substring_char(1 + k + 1, n);
    proof {
        assert(rest@ =~= i@.skip(1 + k + 1));
    }
    let element = Element::nodes(Tag::Strong, nodes);
    Ok((rest, Node::Element(element)))
}

/// `__...__`, with its content recursively tokenized.
fn italic<'a>(i: &'a str) -> (r: Result<(&'a str, Node), Error>)
    ensures
        match spec_italic(i@) {
            Some((k, nv)) => r matches Ok(p) && p.0@ == i@.skip(k) && p.1@ == nv,
            None => r is Err,
        },
    decreases i@.len(), 0int,
{
    let n = i.unicode_len();
    if !(n >= 2 && i.get_char(0) == '_' && i.get_char(1) == '_') {
        return Err(Error::ParComError { msg: "no italic" });
    }
    let k = match find_two(i, 2, '_', '_') {
        Some(k) => k,
        None => {
            return Err(Error::ParComError { msg: "no italic" });
        },
    };
    proof {
        lemma_find2(i@.skip(2), '_', '_');
    }
    let inside = i.substring_char(2, 2 + k);
    proof {
        assert(inside@ =~= i@.skip(2).take(k as int));
        assert(inside@.len() < i@.len());
    }
    let (_, nodes) = handle_inline(inside)?;
    let rest = i.substring_char(2 + k + 2, n);
    proof {
        assert(rest@ =~= i@.skip(2 + k + 2));
    }
    let element = Element::nodes(Tag::Italic, nodes);
    Ok((rest, Node::Element(element)))
}

/// `_..._`, with its content recursively tokenized.
fn emphasized<'a>(i: &'a str) -> (r: Result<(&'a str, Node), Error>)
    ensures
        match spec_emphasized(i@) {
            Some((k, nv)) => r matches Ok(p) && p.0@ == i@.skip(k) && p.1@ == nv,
            None => r is Err,
        },
    decreases i@.len(), 0int,
{
    let n = i.unicode_len();
    if !(n >= 1 && i.get_char(0) == '_') {
        return Err(Error::ParComError { msg: "no emphasis" });
    }
    let k = scan_while(i, 1, CharPred::NotChar('_'));
    if !(1 + k < n) {
        return Err(Error::ParComError { msg: "no emphasis" });
    }
    let inside = i.substring_char(1, 1 + k);
    proof {
        assert(inside@ =~= i@.skip(1).take(k as int));
        assert(inside@.len() < i@.len());
    }
    let (_, nodes) = handle_inline(inside)?;
    let rest = i.substring_char(1 + k + 1, n);
    proof {
        assert(rest@ =~= i@.skip(1 + k + 1));
    }
    let element = Element::nodes(Tag::Emphasis, nodes);
    Ok((rest, Node::Element(element)))
}

/// `"display":url`, with the display text recursively tokenized and the
/// target stored verbatim.
fn link<'a>(i: &'a str) -> (r: Result<(&'a str, Node), Error>)
    ensures
        match spec_link(i@) {
            Some((k, nv)) => r matches Ok(p) && p.0@ == i@.skip(k) && p.1@ == nv,
            None => r is Err,
        },
    decreases i@.len(), 0int,
{
    let n = i.unicode_len();
    if !(n >= 1 && i.get_char(0) == '"') {
        return Err(Error::ParComError { msg: "no link" });
    }
    let k = scan_while(i, 1, CharPred::NotChar('"'));
    if !(1 + k < n && n - (1 + k) >= 2 && i.get_char(1 + k + 1) == ':') {
        return Err(Error::ParComError { msg: "no link" });
    }
    proof {
        assert(i@.skip(1).skip(k + 2) =~= i@.skip(1 + k + 2));
    }
    let u = scan_while(i, 1 + k + 2, CharPred::Url);
    if u == 0 {
        return Err(Error::ParComError { msg: "no link" });
    }
    let display = i.substring_char(1, 1 + k);
    proof {
        assert(display@ =~= i@.skip(1).take(k as int));
        assert(display@.len() < i@.len());
    }
    let (_, nodes) = handle_inline(display)?;
    let url = i.substring_char(1 + k + 2, 1 + k + 2 + u);
    let rest = i.substring_char(1 + k + 2 + u, n);
    proof {
        assert(url@ =~= i@.skip(1).subrange(k + 2, k + 2 + u));
        assert(rest@ =~= i@.skip(1 + k + 2 + u));
    }
    let mut element = Element::nodes(Tag::Anchor, nodes);
    element.attrs.href = Some(url.to_owned());
    proof {
        assert(node_view(Node::Element(element)) =~= spec_link(i@)->Some_0.1);
    }
    Ok((rest, Node::Element(element)))
}

/// The matchers in precedence order; the first that accepts wins.
fn inline_alt<'a>(i: &'a str) -> (r: Result<(&'a str, Node), Error>)
    ensures
        match spec_match_one(i@) {
            Some((k, nv)) => r matches Ok(p) && p.0@ == i@.skip(k) && p.1@ == nv,
            None => r is Err,
        },
    decreases i@.len(), 1int,
{
    match word(i) {
        Ok(p) => {
            return Ok(p);
        },
        Err(_) => {},
    }
    match bold(i) {
        Ok(p) => {
            return Ok(p);
        },
        Err(_) => {},
    }
    match strong(i) {
        Ok(p) => {
            return Ok(p);
        },
        Err(_) => {},
    }
    match italic(i) {
        Ok(p) => {
            return Ok(p);
        },
        Err(_) => {},
    }
    match emphasized(i) {
        Ok(p) => {
            return Ok(p);
        },
        Err(_) => {},
    }
    match endash(i) {
        Ok(p) => {
            return Ok(p);
        },
        Err(_) => {},
    }
    match whitespace(i) {
        Ok(p) => {
            return Ok(p);
        },
        Err(_) => {},
    }
    match footnote_ref(i) {
        Ok(p) => {
            return Ok(p);
        },
        Err(_) => {},
    }
    match apostrophe(i) {
        Ok(p) => {
            return Ok(p);
        },
        Err(_) => {},
    }
    match ellipsis(i) {
        Ok(p) => {
            return Ok(p);
        },
        Err(_) => {},
    }
    match emdash(i) {
        Ok(p) => {
            return Ok(p);
        },
        Err(_) => {},
    }
    match simple_symbols(i) {
        Ok(p) => {
            return Ok(p);
        },
        Err(_) => {},
    }
    match link(i) {
        Ok(p) => {
            return Ok(p);
        },
        Err(_) => {},
    }
    match newline(i) {
        Ok(p) => {
            return Ok(p);
        },
        Err(_) => {},
    }
    fallback1(i)
}

/// Converts one block's inner text into its inline nodes; the whole span
/// must be consumed, and an empty span or an unterminated emphasis delimiter
/// is a failure.
pub fn handle_inline<'a>(i: &'a str) -> (r: Result<(&'a str, Vec<Node>), Error>)
    ensures
        match spec_handle_inline(i@) {
            Some(nvs) => r matches Ok(p) && p.0@.len() == 0 && nodes_view(p.1@) == nvs,
            None => r is Err,
        },
    decreases i@.len(), 2int,
{
    let n = i.unicode_len();
    if n == 0 {
        return Err(Error::ParComError { msg: "empty inline span" });
    }
    let (rest, node) = inline_alt(i)?;
    proof {
        lemma_match_one_consumes(i@);
    }
    if rest.is_empty() {
        let out = one_node(node);
        proof {
            lemma_nodes_view_singleton(node);
        }
        return Ok((rest, out));
    }
    let (rest2, mut nodes) = handle_inline(rest)?;
    let ghost tail = nodes@;
    proof {
        lemma_nodes_view_prepend(node, tail);
    }
    nodes.insert(0, node);
    proof {
        assert(nodes@ =~= seq![node] + tail);
    }
    Ok((rest2, nodes))
}

} // verus!
