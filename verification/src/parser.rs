//! The token-based tree builder: a preparse pass rewrites the token stream
//! so that blockquote content sits inside implicit paragraphs and extended
//! blockquotes stay open across blank-line boundaries, and a recursive walk
//! then assembles the document tree.

use vstd::prelude::*;
use vstd::string::StrSliceExecFns;
use vstd::string::StringExecFns;
use crate::chars::str_eq;
use crate::error::Error;
use crate::lexer::{close_block_with_newlines, spec_close, toks_view, lemma_toks_view_len,
    lemma_toks_view_index, lemma_toks_view_push, Token, TokenView};
use crate::options::{Options, Symbol};

verus! {

broadcast use vstd::seq::group_seq_axioms;

/// The block tags this iteration of the tree builder knows: the document
/// root, paragraphs, headings, blockquotes, and a catch-all for any other
/// signature word.
#[derive(Debug, PartialEq)]
pub enum Tag {
    Doc,
    P,
    H1,
    H2,
    H3,
    H4,
    H5,
    H6,
    Bq,
    Other(String),
}

/// The view of [`Tag`].
#[verifier::ext_equal]
pub enum TagView {
    Doc,
    P,
    H1,
    H2,
    H3,
    H4,
    H5,
    H6,
    Bq,
    Other(Seq<char>),
}

impl View for Tag {
    type V = TagView;

    open spec fn view(&self) -> TagView {
        match self {
            Tag::Doc => TagView::Doc,
            Tag::P => TagView::P,
            Tag::H1 => TagView::H1,
            Tag::H2 => TagView::H2,
            Tag::H3 => TagView::H3,
            Tag::H4 => TagView::H4,
            Tag::H5 => TagView::H5,
            Tag::H6 => TagView::H6,
            Tag::Bq => TagView::Bq,
            Tag::Other(s) => TagView::Other(s@),
        }
    }
}

/// The tag a signature word names; an unknown word is kept verbatim.
pub open spec fn spec_tag_from(s: Seq<char>) -> TagView {
    if s == "doc"@ {
        TagView::Doc
    } else if s == "p"@ {
        TagView::P
    } else if s == "h1"@ {
        TagView::H1
    } else if s == "h2"@ {
        TagView::H2
    } else if s == "h3"@ {
        TagView::H3
    } else if s == "h4"@ {
        TagView::H4
    } else if s == "h5"@ {
        TagView::H5
    } else if s == "h6"@ {
        TagView::H6
    } else if s == "bq"@ {
        TagView::Bq
    } else {
        TagView::Other(s)
    }
}

impl Tag {
    /// Resolves a signature word to its tag, keeping an unknown word
    /// verbatim.
    pub fn from(tag_string: String) -> (r: Tag)
        ensures
            r@ == spec_tag_from(tag_string@),
    {
        if str_eq(tag_string.as_str(), "doc") {
            Tag::Doc
        } else if str_eq(tag_string.as_str(), "p") {
            Tag::P
        } else if str_eq(tag_string.as_str(), "h1") {
            Tag::H1
        } else if str_eq(tag_string.as_str(), "h2") {
            Tag::H2
        } else if str_eq(tag_string.as_str(), "h3") {
            Tag::H3
        } else if str_eq(tag_string.as_str(), "h4") {
            Tag::H4
        } else if str_eq(tag_string.as_str(), "h5") {
            Tag::H5
        } else if str_eq(tag_string.as_str(), "h6") {
            Tag::H6
        } else if str_eq(tag_string.as_str(), "bq") {
            Tag::Bq
        } else {
            Tag::Other(tag_string)
        }
    }
}

/// The raw attribute text of a block, kept unparsed in this iteration.
#[derive(Debug, PartialEq)]
pub struct Attributes {
    pub unparsed: String,
}

impl View for Attributes {
    type V = Seq<char>;

    open spec fn view(&self) -> Seq<char> {
        self.unparsed@
    }
}

impl Attributes {
    /// No attribute text.
    pub fn new() -> (r: Attributes)
        ensures
            r@ == Seq::<char>::empty(),
    {
        let r = Attributes { unparsed: String::new() };
        proof {
            assert(r@ =~= Seq::<char>::empty());
        }
        r
    }
}

/// One element of the tree: a tag, raw attributes, ordered children, and
/// whether its signature was extended.
#[derive(Debug, PartialEq)]
pub struct Element {
    pub identifier: Tag,
    pub attrs: Attributes,
    pub nodes: Vec<Node>,
    pub extended: bool,
}

/// A verbatim text run with the marker it was read under.
#[derive(Debug, PartialEq)]
pub struct Plain {
    pub identifier: String,
    pub content: String,
}

/// One unit of this iteration's document tree.
#[derive(Debug, PartialEq)]
pub enum Node {
    NewLine,
    Element(Element),
    Plain(Plain),
}

/// The view of [`Element`].
#[verifier::ext_equal]
pub struct ElementView {
    pub identifier: TagView,
    pub attrs: Seq<char>,
    pub nodes: Seq<NodeView>,
    pub extended: bool,
}

/// The view of [`Node`].
#[verifier::ext_equal]
pub enum NodeView {
    NewLine,
    Element(ElementView),
    Plain { identifier: Seq<char>, content: Seq<char> },
}

pub open spec fn pnode_view(n: Node) -> NodeView
    decreases n,
{
    match n {
        Node::NewLine => NodeView::NewLine,
        Node::Element(e) => NodeView::Element(
            ElementView {
                identifier: e.identifier@,
                attrs: e.attrs@,
                nodes: pnodes_view(e.nodes@),
                extended: e.extended,
            },
        ),
        Node::Plain(p) => NodeView::Plain { identifier: p.identifier@, content: p.content@ },
    }
}

pub open spec fn pnodes_view(s: Seq<Node>) -> Seq<NodeView>
    decreases s,
{
    if s.len() == 0 {
        Seq::empty()
    } else {
        pnodes_view(s.drop_last()).push(pnode_view(s.last()))
    }
}

pub broadcast proof fn lemma_pnodes_view_len(s: Seq<Node>)
    ensures
        #[trigger] pnodes_view(s).len() == s.len(),
    decreases s.len(),
{
    if s.len() > 0 {
        lemma_pnodes_view_len(s.drop_last());
    }
}

pub broadcast proof fn lemma_pnodes_view_push(s: Seq<Node>, n: Node)
    ensures
        #[trigger] pnodes_view(s.push(n)) == pnodes_view(s).push(pnode_view(n)),
{
    assert(s.push(n).drop_last() =~= s);
    assert(s.push(n).last() == n);
}

impl View for Node {
    type V = NodeView;

    open spec fn view(&self) -> NodeView {
        pnode_view(*self)
    }
}

impl View for Element {
    type V = ElementView;

    open spec fn view(&self) -> ElementView {
        ElementView {
            identifier: self.identifier@,
            attrs: self.attrs@,
            nodes: pnodes_view(self.nodes@),
            extended: self.extended,
        }
    }
}

impl Element {
    /// An element with the given tag, attribute text and children, not
    /// extended.
    pub fn new(identifier: Tag, attrs: Attributes, nodes: Vec<Node>) -> (r: Element)
        ensures
            r@ == (ElementView {
                identifier: identifier@,
                attrs: attrs@,
                nodes: pnodes_view(nodes@),
                extended: false,
            }),
    {
        Element { identifier, attrs, nodes, extended: false }
    }

    /// An element with no children.
    pub fn empty(identifier: Tag, attrs: Attributes) -> (r: Element)
        ensures
            r@ == (ElementView {
                identifier: identifier@,
                attrs: attrs@,
                nodes: Seq::empty(),
                extended: false,
            }),
    {
        let r = Element::new(identifier, attrs, Vec::new());
        proof {
            assert(pnodes_view(Seq::<Node>::empty()) =~= Seq::<NodeView>::empty());
        }
        r
    }

    /// Appends a child.
    fn push_node(&mut self, node: Node)
        ensures
            final(self)@ == (ElementView {
                nodes: old(self)@.nodes.push(pnode_view(node)),
                ..old(self)@
            }),
    {
        proof {
            lemma_pnodes_view_push(self.nodes@, node);
        }
        self.nodes.push(node);
    }

    /// Replaces the tag.
    fn set_identifier(&mut self, identifier: Tag) -> (r: Result<(), Error>)
        ensures
            r is Ok,
            final(self)@ == (ElementView { identifier: identifier@, ..old(self)@ }),
    {
        self.identifier = identifier;
        Ok(())
    }
}

impl Plain {
    /// A text run under the given marker.
    pub fn new(identifier: &str, content: &str) -> (r: Plain)
        ensures
            r@ == (NodeView::Plain { identifier: identifier@, content: content@ }),
    {
        Plain { identifier: identifier.to_owned(), content: content.to_owned() }
    }
}

impl View for Plain {
    type V = NodeView;

    open spec fn view(&self) -> NodeView {
        NodeView::Plain { identifier: self.identifier@, content: self.content@ }
    }
}

/// The preparse states: an ordinary open block, an open blockquote, or an
/// open extended blockquote.
#[derive(Debug, Clone, Copy, PartialEq, Eq, Structural)]
pub enum PreparseContext {
    Regular,
    Bq,
    BqExtended,
}

/// One preparse step: the updated context stack and output for one token.
/// An implicit block inside an open extended blockquote does not open a new
/// context; an explicit block closes the extended scope retroactively, in
/// front of the trailing newline run.
pub open spec fn spec_preparse_rec(
    ts: Seq<TokenView>,
    i: int,
    ctxs: Seq<PreparseContext>,
    acc: Seq<TokenView>,
) -> Seq<TokenView>
    decreases ts.len() - i,
{
    if !(0 <= i && i < ts.len()) {
        acc
    } else {
        match ts[i] {
            TokenView::BlockStartImplicit => {
                let c2 = if !(ctxs.len() > 0 && ctxs.last() == PreparseContext::BqExtended) {
                    ctxs.push(PreparseContext::Regular)
                } else {
                    ctxs
                };
                spec_preparse_rec(ts, i + 1, c2, acc.push(TokenView::BlockStartImplicit))
            },
            TokenView::BlockStartExplicit => {
                let closing = ctxs.len() > 0 && ctxs.last() == PreparseContext::BqExtended;
                let a2 = if closing {
                    spec_close(acc)
                } else {
                    acc
                };
                let c2 = if closing {
                    ctxs.drop_last()
                } else {
                    ctxs
                };
                spec_preparse_rec(
                    ts,
                    i + 1,
                    c2.push(PreparseContext::Regular),
                    a2.push(TokenView::BlockStartExplicit),
                )
            },
            TokenView::BlockEnd => {
                if ctxs.len() == 0 {
                    spec_preparse_rec(ts, i + 1, ctxs, acc.push(TokenView::BlockEnd))
                } else if ctxs.last() == PreparseContext::Regular {
                    spec_preparse_rec(ts, i + 1, ctxs.drop_last(), acc.push(TokenView::BlockEnd))
                } else if ctxs.last() == PreparseContext::Bq {
                    spec_preparse_rec(
                        ts,
                        i + 1,
                        ctxs.drop_last(),
                        acc.push(TokenView::BlockEnd).push(TokenView::BlockEnd),
                    )
                } else {
                    spec_preparse_rec(ts, i + 1, ctxs, acc.push(TokenView::BlockEnd))
                }
            },
            TokenView::SignatureStart(name) => {
                let c2 = if name == "bq"@ {
                    (if ctxs.len() > 0 {
                        ctxs.drop_last()
                    } else {
                        ctxs
                    }).push(PreparseContext::Bq)
                } else {
                    ctxs
                };
                spec_preparse_rec(ts, i + 1, c2, acc.push(TokenView::SignatureStart(name)))
            },
            TokenView::SignatureEnd => {
                let a2 = if ctxs.len() > 0 && (ctxs.last() == PreparseContext::Bq || ctxs.last()
                    == PreparseContext::BqExtended) {
                    acc.push(TokenView::BlockStartImplicit)
                } else {
                    acc
                };
                spec_preparse_rec(ts, i + 1, ctxs, a2.push(TokenView::SignatureEnd))
            },
            TokenView::ModifierExtended => {
                let c2 = if ctxs.len() > 0 && ctxs.last() == PreparseContext::Bq {
                    ctxs.drop_last().push(PreparseContext::BqExtended)
                } else {
                    ctxs
                };
                spec_preparse_rec(ts, i + 1, c2, acc.push(TokenView::ModifierExtended))
            },
            _ => spec_preparse_rec(ts, i + 1, ctxs, acc.push(ts[i])),
        }
    }
}

pub open spec fn spec_preparse(ts: Seq<TokenView>) -> Seq<TokenView> {
    spec_preparse_rec(ts, 0, Seq::empty(), Seq::empty())
}

/// Rewrites the token stream so blockquote content sits inside implicit
/// paragraphs and extended blockquotes stay open across blank-line runs.
fn preparse(lexer_tokens: Vec<Token>) -> (r: Vec<Token>)
    ensures
        toks_view(r@) == spec_preparse(toks_view(lexer_tokens@)),
{
    let ghost tsv = toks_view(lexer_tokens@);
    let mut work = lexer_tokens;
    let mut result: Vec<Token> = Vec::new();
    let mut contexts: Vec<PreparseContext> = Vec::new();
    let mut i: usize = 0;
    proof {
        lemma_toks_view_len(work@);
        assert(toks_view(result@) =~= Seq::<TokenView>::empty());
        assert(toks_view(work@) =~= tsv.skip(0));
        assert(contexts@ =~= Seq::<PreparseContext>::empty());
    }
    let n = work.len();
    while i < n
        invariant
            tsv == toks_view(lexer_tokens@),
            i <= n,
            n == tsv.len(),
            i + work@.len() == n,
            toks_view(work@) == tsv.skip(i as int),
            spec_preparse_rec(tsv, i as int, contexts@, toks_view(result@)) == spec_preparse(tsv),
        decreases n - i,
    {
        proof {
            lemma_toks_view_len(work@);
            lemma_toks_view_index(work@, 0);
            assert(tsv.skip(i as int)[0] == tsv[i as int]);
        }
        let ghost pre_in = work@;
        let t = work.remove(0);
        proof {
            assert(work@ =~= pre_in.drop_first());
            lemma_toks_view_len(work@);
            assert forall|j: int| 0 <= j < work@.len() implies #[trigger] toks_view(work@)[j]
                == toks_view(pre_in).drop_first()[j] by {
                lemma_toks_view_index(work@, j);
                lemma_toks_view_index(pre_in, j + 1);
            }
            assert(toks_view(work@) =~= toks_view(pre_in).drop_first());
            assert(toks_view(pre_in).drop_first() =~= tsv.skip(i as int + 1));
            assert(t@ == tsv[i as int]);
        }
        let top: Option<PreparseContext> = if contexts.len() == 0 {
            None
        } else {
            Some(contexts[contexts.len() - 1])
        };
        match t {
            Token::BlockStartImplicit => {
                if !matches!(top, Some(PreparseContext::BqExtended)) {
                    contexts.push(PreparseContext::Regular);
                }
                push_tok_p(&mut result, Token::BlockStartImplicit);
            },
            Token::BlockStartExplicit => {
                if matches!(top, Some(PreparseContext::BqExtended)) {
                    close_block_with_newlines(&mut result);
                    contexts.pop();
                    proof {
                        assert(contexts@ =~= old_drop_last(contexts@.push(
                            PreparseContext::BqExtended,
                        )));
                    }
                }
                contexts.push(PreparseContext::Regular);
                push_tok_p(&mut result, Token::BlockStartExplicit);
            },
            Token::BlockEnd => {
                match top {
                    None => {
                        push_tok_p(&mut result, Token::BlockEnd);
                    },
                    Some(PreparseContext::Regular) => {
                        contexts.pop();
                        push_tok_p(&mut result, Token::BlockEnd);
                    },
                    Some(PreparseContext::Bq) => {
                        contexts.pop();
                        push_tok_p(&mut result, Token::BlockEnd);
                        push_tok_p(&mut result, Token::BlockEnd);
                    },
                    Some(PreparseContext::BqExtended) => {
                        push_tok_p(&mut result, Token::BlockEnd);
                    },
                }
            },
            Token::SignatureStart(name) => {
                if str_eq(name.as_str(), "bq") {
                    contexts.pop();
                    contexts.push(PreparseContext::Bq);
                }
                push_tok_p(&mut result, Token::SignatureStart(name));
            },
            Token::SignatureEnd => {
                if matches!(top, Some(PreparseContext::Bq)) || matches!(
                    top,
                    Some(PreparseContext::BqExtended),
                ) {
                    push_tok_p(&mut result, Token::BlockStartImplicit);
                }
                push_tok_p(&mut result, Token::SignatureEnd);
            },
            Token::ModifierExtended => {
                if matches!(top, Some(PreparseContext::Bq)) {
                    contexts.pop();
                    contexts.push(PreparseContext::BqExtended);
                }
                push_tok_p(&mut result, Token::ModifierExtended);
            },
            other => {
                push_tok_p(&mut result, other);
            },
        }
        i += 1;
    }
    result
}

/// The sequence with its last element dropped, for the preparse proofs.
pub open spec fn old_drop_last(s: Seq<PreparseContext>) -> Seq<PreparseContext> {
    s.drop_last()
}

/// Pushes a token, tracking the view of the sequence.
fn push_tok_p(v: &mut Vec<Token>, t: Token)
    ensures
        toks_view(final(v)@) == toks_view(old(v)@).push(t@),
{
    proof {
        lemma_toks_view_push(v@, t);
    }
    v.push(t);
}

/// The canonical source spelling of a symbol, used when a symbol token is
/// folded back into the surrounding text of this iteration's plain nodes.
pub open spec fn spec_symbol_source(sym: Symbol) -> Seq<char> {
    match sym {
        Symbol::Apostrophe => "'"@,
        Symbol::Trademark => "(tm)"@,
        Symbol::Registered => "(r)"@,
        Symbol::Copyright => "(c)"@,
        Symbol::Half => "(1/2)"@,
        Symbol::Quarter => "(1/4)"@,
        Symbol::ThreeQuarters => "(3/4)"@,
        Symbol::Degrees => "(o)"@,
        Symbol::PlusMinus => "(+/-)"@,
        Symbol::Emdash => "--"@,
        Symbol::Endash => " - "@,
        Symbol::Ellipsis => "..."@,
    }
}

/// The canonical source spelling of a symbol.
pub fn symbol_source(sym: Symbol) -> (r: &'static str)
    ensures
        r@ == spec_symbol_source(sym),
{
    match sym {
        Symbol::Apostrophe => "'",
        Symbol::Trademark => "(tm)",
        Symbol::Registered => "(r)",
        Symbol::Copyright => "(c)",
        Symbol::Half => "(1/2)",
        Symbol::Quarter => "(1/4)",
        Symbol::ThreeQuarters => "(3/4)",
        Symbol::Degrees => "(o)",
        Symbol::PlusMinus => "(+/-)",
        Symbol::Emdash => "--",
        Symbol::Endash => " - ",
        Symbol::Ellipsis => "...",
    }
}

/// Text folded into the tree: it extends a trailing plain node, so that the
/// pieces around a substituted symbol read as one run, or starts a new one.
pub open spec fn spec_merge_text(nodes: Seq<NodeView>, txt: Seq<char>) -> Seq<NodeView> {
    if nodes.len() > 0 && (nodes.last() matches NodeView::Plain { identifier, content }) {
        let idv = nodes.last()->Plain_identifier;
        let cv = nodes.last()->Plain_content;
        nodes.drop_last().push(NodeView::Plain { identifier: idv, content: cv + txt })
    } else {
        nodes.push(NodeView::Plain { identifier: "text"@, content: txt })
    }
}

/// A fresh implicit paragraph, as a view.
pub open spec fn spec_empty_p() -> ElementView {
    ElementView {
        identifier: TagView::P,
        attrs: Seq::empty(),
        nodes: Seq::empty(),
        extended: false,
    }
}

/// What the tree walk makes of the tokens from position `i` with the given
/// open parent: the position after the walk and the finished parent, or a
/// parse error (tokens after the end-of-input mark, or a raw token that only
/// earlier passes may hold).
pub open spec fn spec_rparse(ts: Seq<TokenView>, i: int, parent: ElementView) -> Option<
    (int, ElementView),
>
    decreases ts.len() - i,
{
    if !(0 <= i && i < ts.len()) {
        Some((i, parent))
    } else {
        match ts[i] {
            TokenView::BlockStartImplicit => spec_rparse_block(ts, i, parent),
            TokenView::BlockStartExplicit => spec_rparse_block(ts, i, parent),
            TokenView::BlockEnd => Some((i + 1, parent)),
            TokenView::SignatureStart(name) => spec_rparse(
                ts,
                i + 1,
                ElementView { identifier: spec_tag_from(name), ..parent },
            ),
            TokenView::SignatureEnd => spec_rparse(ts, i + 1, parent),
            TokenView::NewLine => spec_rparse(
                ts,
                i + 1,
                ElementView { nodes: parent.nodes.push(NodeView::NewLine), ..parent },
            ),
            TokenView::Text(t) => spec_rparse(
                ts,
                i + 1,
                ElementView { nodes: spec_merge_text(parent.nodes, t), ..parent },
            ),
            TokenView::Symbol(sym) => spec_rparse(
                ts,
                i + 1,
                ElementView {
                    nodes: spec_merge_text(parent.nodes, spec_symbol_source(sym)),
                    ..parent
                },
            ),
            TokenView::Eof => {
                if i + 1 < ts.len() {
                    None
                } else {
                    Some((i + 1, parent))
                }
            },
            TokenView::ModifierExtended => spec_rparse(
                ts,
                i + 1,
                ElementView { extended: true, ..parent },
            ),
            TokenView::ModifierParenOpen => spec_rparse(ts, i + 1, parent),
            TokenView::ModifierParenClose => spec_rparse(ts, i + 1, parent),
            TokenView::ModifierSquareOpen => spec_rparse(ts, i + 1, parent),
            TokenView::ModifierSquareClose => spec_rparse(ts, i + 1, parent),
            TokenView::ModifierCurlyOpen => spec_rparse(ts, i + 1, parent),
            TokenView::ModifierCurlyClose => spec_rparse(ts, i + 1, parent),
            TokenView::Modifier(_) => spec_rparse(ts, i + 1, parent),
            TokenView::Unparsed(_) => None,
        }
    }
}

/// A nested block: the tokens after the block-start mark build a fresh
/// implicit paragraph, which becomes a child of the parent.
pub open spec fn spec_rparse_block(ts: Seq<TokenView>, i: int, parent: ElementView) -> Option<
    (int, ElementView),
>
    decreases ts.len() - i, 0int,
{
    if !(0 <= i && i < ts.len()) {
        None
    } else {
        match spec_rparse(ts, i + 1, spec_empty_p()) {
            None => None,
            Some((j, blk)) => {
                let j2: int = if !(i + 1 <= j && j <= ts.len()) {
                    i + 1
                } else {
                    j
                };
                spec_rparse(
                    ts,
                    j2,
                    ElementView { nodes: parent.nodes.push(NodeView::Element(blk)), ..parent },
                )
            },
        }
    }
}

/// The walk never moves backwards and never runs past the stream.
pub proof fn lemma_rparse_bounds(ts: Seq<TokenView>, i: int, parent: ElementView)
    requires
        0 <= i <= ts.len(),
    ensures
        spec_rparse(ts, i, parent) matches Some(r) ==> i <= r.0 <= ts.len(),
    decreases ts.len() - i, 1int,
{
    if 0 <= i && i < ts.len() {
        match ts[i] {
            TokenView::BlockStartImplicit => lemma_rparse_block_bounds(ts, i, parent),
            TokenView::BlockStartExplicit => lemma_rparse_block_bounds(ts, i, parent),
            TokenView::SignatureStart(name) => lemma_rparse_bounds(
                ts,
                i + 1,
                ElementView { identifier: spec_tag_from(name), ..parent },
            ),
            TokenView::SignatureEnd => lemma_rparse_bounds(ts, i + 1, parent),
            TokenView::NewLine => lemma_rparse_bounds(
                ts,
                i + 1,
                ElementView { nodes: parent.nodes.push(NodeView::NewLine), ..parent },
            ),
            TokenView::Text(t) => lemma_rparse_bounds(
                ts,
                i + 1,
                ElementView { nodes: spec_merge_text(parent.nodes, t), ..parent },
            ),
            TokenView::Symbol(sym) => lemma_rparse_bounds(
                ts,
                i + 1,
                ElementView {
                    nodes: spec_merge_text(parent.nodes, spec_symbol_source(sym)),
                    ..parent
                },
            ),
            TokenView::ModifierExtended => lemma_rparse_bounds(
                ts,
                i + 1,
                ElementView { extended: true, ..parent },
            ),
            TokenView::ModifierParenOpen => lemma_rparse_bounds(ts, i + 1, parent),
            TokenView::ModifierParenClose => lemma_rparse_bounds(ts, i + 1, parent),
            TokenView::ModifierSquareOpen => lemma_rparse_bounds(ts, i + 1, parent),
            TokenView::ModifierSquareClose => lemma_rparse_bounds(ts, i + 1, parent),
            TokenView::ModifierCurlyOpen => lemma_rparse_bounds(ts, i + 1, parent),
            TokenView::ModifierCurlyClose => lemma_rparse_bounds(ts, i + 1, parent),
            TokenView::Modifier(_) => lemma_rparse_bounds(ts, i + 1, parent),
            _ => {},
        }
    }
}

pub proof fn lemma_rparse_block_bounds(ts: Seq<TokenView>, i: int, parent: ElementView)
    requires
        0 <= i < ts.len(),
    ensures
        spec_rparse_block(ts, i, parent) matches Some(r) ==> i <= r.0 <= ts.len(),
    decreases ts.len() - i, 0int,
{
    lemma_rparse_bounds(ts, i + 1, spec_empty_p());
    match spec_rparse(ts, i + 1, spec_empty_p()) {
        None => {},
        Some((j, blk)) => {
            let j2: int = if !(i + 1 <= j && j <= ts.len()) {
                i + 1
            } else {
                j
            };
            lemma_rparse_bounds(
                ts,
                j2,
                ElementView { nodes: parent.nodes.push(NodeView::Element(blk)), ..parent },
            );
        },
    }
}

/// Extends a trailing plain node with `txt`, or starts a new one.
fn merge_text(parent: &mut Element, txt: &str)
    ensures
        final(parent)@ == (ElementView {
            nodes: spec_merge_text(old(parent)@.nodes, txt@),
            ..old(parent)@
        }),
{
    proof {
        lemma_pnodes_view_len(parent.nodes@);
        if parent.nodes@.len() > 0 {
            assert(pnodes_view(parent.nodes@).last() == pnode_view(parent.nodes@.last()));
        }
    }
    let ghost pre_nodes = parent.nodes@;
    let is_plain = match parent.nodes.pop() {
        Some(Node::Plain(mut p)) => {
            proof {
                assert(parent.nodes@ =~= pre_nodes.drop_last());
                assert(pnodes_view(pre_nodes).drop_last() =~= pnodes_view(pre_nodes.drop_last()));
            }
            p.content.append(txt);
            proof {
                lemma_pnodes_view_push(parent.nodes@, Node::Plain(p));
            }
            parent.nodes.push(Node::Plain(p));
            true
        },
        Some(other) => {
            proof {
                lemma_pnodes_view_push(pre_nodes.drop_last(), other);
                assert(pre_nodes.drop_last().push(other) =~= pre_nodes);
            }
            parent.nodes.push(other);
            proof {
                assert(parent.nodes@ =~= pre_nodes);
            }
            false
        },
        None => false,
    };
    if !is_plain {
        let p = Plain::new("text", txt);
        proof {
            lemma_pnodes_view_push(parent.nodes@, Node::Plain(p));
        }
        parent.nodes.push(Node::Plain(p));
    }
}

/// Walks the tokens from `*i`, assembling children of `parent`; a nested
/// block-start recurses into a fresh implicit paragraph.
fn recursively_parse(tokens: &Vec<Token>, i: &mut usize, parent: &mut Element) -> (r: Result<
    (),
    Error,
>)
    requires
        *old(i) <= tokens@.len(),
    ensures
        match spec_rparse(toks_view(tokens@), *old(i) as int, old(parent)@) {
            Some((j, pv)) => r is Ok && *final(i) == j && final(parent)@ == pv,
            None => r is Err,
        },
    decreases tokens@.len() - *old(i),
{
    let ghost tsv = toks_view(tokens@);
    let ghost i0 = *i as int;
    let ghost p0 = parent@;
    let n = tokens.len();
    proof {
        lemma_toks_view_len(tokens@);
    }
    while *i < n
        invariant
            i0 == *old(i) as int,
            p0 == old(parent)@,
            i0 <= *i <= n,
            n == tokens@.len(),
            tsv == toks_view(tokens@),
            tsv.len() == n,
            match spec_rparse(tsv, *i as int, parent@) {
                Some((j, pv)) => spec_rparse(tsv, i0, p0) == Some::<(int, ElementView)>((j, pv)),
                None => spec_rparse(tsv, i0, p0) is None,
            },
        decreases n - *i,
    {
        proof {
            lemma_toks_view_index(tokens@, *i as int);
        }
        let cur = *i;
        let ghost p_pre = parent@;
        *i = cur + 1;
        match &tokens[cur] {
            Token::BlockStartImplicit | Token::BlockStartExplicit => {
                let mut block = Element::empty(Tag::P, Attributes::new());
                proof {
                    assert(block@ =~= spec_empty_p());
                    lemma_rparse_bounds(tsv, cur + 1, spec_empty_p());
                }
                match recursively_parse(tokens, i, &mut block) {
                    Ok(()) => {},
                    Err(e) => {
                        proof {
                            assert(spec_rparse_block(tsv, cur as int, p_pre) is None);
                        }
                        return Err(e);
                    },
                }
                let ghost bv = block@;
                let ghost jj = *i as int;
                proof {
                    assert(spec_rparse(tsv, cur + 1, spec_empty_p()) == Some::<(int, ElementView)>(
                        (jj, bv),
                    ));
                    assert(cur + 1 <= jj <= tsv.len());
                }
                parent.push_node(Node::Element(block));
                proof {
                    assert(parent@ =~= (ElementView {
                        nodes: p_pre.nodes.push(NodeView::Element(bv)),
                        ..p_pre
                    }));
                    assert(spec_rparse_block(tsv, cur as int, p_pre) == spec_rparse(
                        tsv,
                        jj,
                        (ElementView { nodes: p_pre.nodes.push(NodeView::Element(bv)), ..p_pre }),
                    ));
                }
            },
            Token::BlockEnd => {
                return Ok(());
            },
            Token::SignatureStart(identifier) => {
                let tag = Tag::from(identifier.clone());
                let res = parent.set_identifier(tag);
                match res {
                    Ok(()) => {},
                    Err(e) => {
                        return Err(e);
                    },
                }
            },
            Token::SignatureEnd => {},
            Token::NewLine => {
                parent.push_node(Node::NewLine);
            },
            Token::Text(text) => {
                let owned = text.clone();
                merge_text(parent, owned.as_str());
            },
            Token::Symbol(sym) => {
                merge_text(parent, symbol_source(*sym));
            },
            Token::Eof => {
                if cur + 1 < n {
                    return Err(Error::ParserError);
                }
                return Ok(());
            },
            Token::ModifierCurlyOpen => {},
            Token::ModifierCurlyClose => {},
            Token::ModifierParenOpen => {},
            Token::ModifierParenClose => {},
            Token::ModifierSquareOpen => {},
            Token::ModifierSquareClose => {},
            Token::Modifier(_) => {},
            Token::ModifierExtended => {
                parent.extended = true;
            },
            Token::Unparsed(_) => {
                return Err(Error::ParserError);
            },
        }
    }
    Ok(())
}

/// Builds the document tree from a preparsed token stream: one root element
/// whose children are the blocks, newline marks kept between them.
pub fn parse(lexer_tokens: Vec<Token>, _options: &Options) -> (r: Result<Node, Error>)
    ensures
        match spec_rparse(
            spec_preparse(toks_view(lexer_tokens@)),
            0,
            (ElementView {
                identifier: TagView::Doc,
                attrs: Seq::empty(),
                nodes: Seq::empty(),
                extended: false,
            }),
        ) {
            Some((j, dv)) => r matches Ok(nd) && nd@ == NodeView::Element(dv),
            None => r is Err,
        },
{
    let mut doc = Element::empty(Tag::Doc, Attributes::new());
    let prepared = preparse(lexer_tokens);
    let mut i: usize = 0;
    proof {
        lemma_toks_view_len(prepared@);
    }
    match recursively_parse(&prepared, &mut i, &mut doc) {
        Ok(()) => {},
        Err(e) => {
            return Err(e);
        },
    }
    Ok(Node::Element(doc))
}

} // verus!
