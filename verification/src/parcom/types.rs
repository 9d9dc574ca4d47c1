//! The document tree: tags, attributes, elements and nodes, with their
//! mathematical views.

use vstd::prelude::*;
use crate::chars::str_eq;
use crate::error::Error;
use crate::options::Symbol;

verus! {

broadcast use vstd::seq::group_seq_axioms;

/// The views of a sequence of strings.
pub open spec fn strs_view(v: Seq<String>) -> Seq<Seq<char>> {
    v.map_values(|s: String| s@)
}

/// The view of an optional string.
pub open spec fn opt_str_view(o: Option<String>) -> Option<Seq<char>> {
    match o {
        Some(s) => Some(s@),
        None => None,
    }
}

/// The closed set of block and inline element kinds.
#[derive(Debug, Clone, Copy, PartialEq, Eq, Structural)]
pub enum Tag {
    Doc,
    Paragraph,
    H1,
    H2,
    H3,
    H4,
    H5,
    H6,
    Blockquote,
    Strong,
    Bold,
    Emphasis,
    Italic,
    Anchor,
    Span,
    Footnote,
    FootnoteId,
    FootnoteRef,
}

/// The tag named by an explicit block signature word, if any.
pub open spec fn spec_tag_of_signature(s: Seq<char>) -> Option<Tag> {
    if s == "p"@ {
        Some(Tag::Paragraph)
    } else if s == "h1"@ {
        Some(Tag::H1)
    } else if s == "h2"@ {
        Some(Tag::H2)
    } else if s == "h3"@ {
        Some(Tag::H3)
    } else if s == "h4"@ {
        Some(Tag::H4)
    } else if s == "h5"@ {
        Some(Tag::H5)
    } else if s == "h6"@ {
        Some(Tag::H6)
    } else {
        None
    }
}

impl Tag {
    /// Resolves an explicit signature word to its tag; a word outside the
    /// heading/paragraph set is a tag-conversion error.
    pub fn try_from(tag_string: &str) -> (r: Result<Tag, Error>)
        ensures
            match spec_tag_of_signature(tag_string@) {
                Some(t) => r == Ok::<Tag, Error>(t),
                None => r == Err::<Tag, Error>(Error::IntoTagError),
            },
    {
        if str_eq(tag_string, "p") {
            Ok(Tag::Paragraph)
        } else if str_eq(tag_string, "h1") {
            Ok(Tag::H1)
        } else if str_eq(tag_string, "h2") {
            Ok(Tag::H2)
        } else if str_eq(tag_string, "h3") {
            Ok(Tag::H3)
        } else if str_eq(tag_string, "h4") {
            Ok(Tag::H4)
        } else if str_eq(tag_string, "h5") {
            Ok(Tag::H5)
        } else if str_eq(tag_string, "h6") {
            Ok(Tag::H6)
        } else {
            Err(Error::IntoTagError)
        }
    }
}

/// The attributes a signature or inline marker can carry.
#[derive(Debug, PartialEq)]
pub struct Attributes {
    pub classes: Vec<String>,
    pub href: Option<String>,
    pub id: Option<String>,
    pub style: Option<String>,
}

/// The view of [`Attributes`]: class list in insertion order, and the three
/// optional fields.
#[verifier::ext_equal]
pub struct AttrsView {
    pub classes: Seq<Seq<char>>,
    pub href: Option<Seq<char>>,
    pub id: Option<Seq<char>>,
    pub style: Option<Seq<char>>,
}

impl AttrsView {
    /// The empty attribute set.
    pub open spec fn empty() -> AttrsView {
        AttrsView { classes: Seq::empty(), href: None, id: None, style: None }
    }
}

impl View for Attributes {
    type V = AttrsView;

    open spec fn view(&self) -> AttrsView {
        AttrsView {
            classes: strs_view(self.classes@),
            href: opt_str_view(self.href),
            id: opt_str_view(self.id),
            style: opt_str_view(self.style),
        }
    }
}

impl Attributes {
    /// No classes, no id, no style, no link target.
    pub fn new() -> (r: Attributes)
        ensures
            r@ == AttrsView::empty(),
    {
        let r = Attributes { classes: Vec::new(), href: None, id: None, style: None };
        proof {
            assert(r@ =~= AttrsView::empty());
        }
        r
    }

    /// Only a link target.
    pub fn href(href: String) -> (r: Attributes)
        ensures
            r@ == (AttrsView { href: Some(href@), ..AttrsView::empty() }),
    {
        let r = Attributes { classes: Vec::new(), href: Some(href), id: None, style: None };
        proof {
            assert(r@ =~= (AttrsView { href: Some(href@), ..AttrsView::empty() }));
        }
        r
    }

    /// Only a class list.
    pub fn classes(classes: Vec<String>) -> (r: Attributes)
        ensures
            r@ == (AttrsView { classes: strs_view(classes@), ..AttrsView::empty() }),
    {
        Attributes { classes, href: None, id: None, style: None }
    }

    /// A class list and an id.
    pub fn classes_id(classes: Vec<String>, id: String) -> (r: Attributes)
        ensures
            r@ == (AttrsView {
                classes: strs_view(classes@),
                id: Some(id@),
                ..AttrsView::empty()
            }),
    {
        Attributes { classes, href: None, id: Some(id), style: None }
    }
}

/// One element of the tree: a tag, its attributes, and its ordered children.
#[derive(Debug, PartialEq)]
pub struct Element {
    pub tag: Tag,
    pub attrs: Attributes,
    pub nodes: Vec<Node>,
}

/// A verbatim text run.
#[derive(Debug, PartialEq)]
pub struct Plain {
    pub content: String,
}

/// One unit of the parsed document.
#[derive(Debug, PartialEq)]
pub enum Node {
    NewLine,
    Element(Element),
    Plain(Plain),
    Symbol(Symbol),
    Multiple(Vec<Node>),
}

/// The view of [`Element`].
#[verifier::ext_equal]
pub struct ElementView {
    pub tag: Tag,
    pub attrs: AttrsView,
    pub nodes: Seq<NodeView>,
}

/// The view of [`Node`]: only `Element` has children; `Plain`, `Symbol` and
/// `NewLine` are leaves.
#[verifier::ext_equal]
pub enum NodeView {
    NewLine,
    Element(ElementView),
    Plain(Seq<char>),
    Symbol(Symbol),
    Multiple(Seq<NodeView>),
}

/// The view of one node.
pub open spec fn node_view(n: Node) -> NodeView
    decreases n,
{
    match n {
        Node::NewLine => NodeView::NewLine,
        Node::Element(e) => NodeView::Element(
            ElementView { tag: e.tag, attrs: e.attrs@, nodes: nodes_view(e.nodes@) },
        ),
        Node::Plain(p) => NodeView::Plain(p.content@),
        Node::Symbol(s) => NodeView::Symbol(s),
        Node::Multiple(v) => NodeView::Multiple(nodes_view(v@)),
    }
}

/// The views of a sequence of nodes.
pub open spec fn nodes_view(s: Seq<Node>) -> Seq<NodeView>
    decreases s,
{
    if s.len() == 0 {
        Seq::empty()
    } else {
        nodes_view(s.drop_last()).push(node_view(s.last()))
    }
}

pub broadcast proof fn lemma_nodes_view_len(s: Seq<Node>)
    ensures
        #[trigger] nodes_view(s).len() == s.len(),
    decreases s.len(),
{
    if s.len() > 0 {
        lemma_nodes_view_len(s.drop_last());
    }
}

pub broadcast proof fn lemma_nodes_view_index(s: Seq<Node>, i: int)
    requires
        0 <= i < s.len(),
    ensures
        #[trigger] nodes_view(s)[i] == node_view(s[i]),
    decreases s.len(),
{
    lemma_nodes_view_len(s);
    if i < s.len() - 1 {
        lemma_nodes_view_len(s.drop_last());
        lemma_nodes_view_index(s.drop_last(), i);
    }
}

pub proof fn lemma_nodes_view_singleton(n: Node)
    ensures
        nodes_view(seq![n]) == seq![node_view(n)],
{
    assert(seq![n].drop_last() =~= Seq::<Node>::empty());
    assert(nodes_view(Seq::<Node>::empty()) =~= Seq::<NodeView>::empty());
    assert(seq![n].last() == n);
    assert(nodes_view(seq![n]) =~= seq![node_view(n)]);
}

pub proof fn lemma_nodes_view_prepend(x: Node, s: Seq<Node>)
    ensures
        nodes_view(seq![x] + s) == seq![node_view(x)] + nodes_view(s),
    decreases s.len(),
{
    if s.len() == 0 {
        assert(seq![x] + s =~= seq![x]);
        lemma_nodes_view_singleton(x);
        assert(seq![node_view(x)] + nodes_view(s) =~= seq![node_view(x)]);
    } else {
        let whole = seq![x] + s;
        assert(whole.drop_last() =~= seq![x] + s.drop_last());
        assert(whole.last() == s.last());
        lemma_nodes_view_prepend(x, s.drop_last());
        assert(nodes_view(whole) =~= seq![node_view(x)] + nodes_view(s));
    }
}

pub broadcast proof fn lemma_nodes_view_push(s: Seq<Node>, n: Node)
    ensures
        #[trigger] nodes_view(s.push(n)) == nodes_view(s).push(node_view(n)),
{
    assert(s.push(n).drop_last() =~= s);
    assert(s.push(n).last() == n);
}

pub proof fn lemma_nodes_view_concat(a: Seq<Node>, b: Seq<Node>)
    ensures
        nodes_view(a + b) == nodes_view(a) + nodes_view(b),
    decreases b.len(),
{
    if b.len() == 0 {
        assert(a + b =~= a);
        assert(nodes_view(a) + nodes_view(b) =~= nodes_view(a));
    } else {
        assert((a + b).drop_last() =~= a + b.drop_last());
        assert((a + b).last() == b.last());
        lemma_nodes_view_concat(a, b.drop_last());
        assert(nodes_view(a + b) =~= nodes_view(a) + nodes_view(b));
    }
}

/// A vector holding one node.
pub fn one_node(n: Node) -> (r: Vec<Node>)
    ensures
        r@ == seq![n],
{
    let mut v: Vec<Node> = Vec::new();
    v.push(n);
    proof {
        assert(v@ =~= seq![n]);
    }
    v
}

/// A vector holding one class name.
pub fn one_class(s: &str) -> (r: Vec<String>)
    ensures
        strs_view(r@) == seq![s@],
{
    let mut v: Vec<String> = Vec::new();
    v.push(s.to_owned());
    proof {
        assert(strs_view(v@) =~= seq![s@]);
    }
    v
}

impl View for Node {
    type V = NodeView;

    open spec fn view(&self) -> NodeView {
        node_view(*self)
    }
}

impl View for Element {
    type V = ElementView;

    open spec fn view(&self) -> ElementView {
        ElementView { tag: self.tag, attrs: self.attrs@, nodes: nodes_view(self.nodes@) }
    }
}

impl View for Plain {
    type V = Seq<char>;

    open spec fn view(&self) -> Seq<char> {
        self.content@
    }
}

impl Element {
    /// An element with no attributes and no children.
    pub fn new(tag: Tag) -> (r: Element)
        ensures
            r@ == (ElementView { tag, attrs: AttrsView::empty(), nodes: Seq::empty() }),
    {
        let r = Element { tag, attrs: Attributes::new(), nodes: Vec::new() };
        proof {
            assert(nodes_view(r.nodes@) =~= Seq::<NodeView>::empty());
        }
        r
    }

    /// An element with attributes and no children.
    pub fn attrs(tag: Tag, attrs: Attributes) -> (r: Element)
        ensures
            r@ == (ElementView { tag, attrs: attrs@, nodes: Seq::empty() }),
    {
        let r = Element { tag, attrs, nodes: Vec::new() };
        proof {
            assert(nodes_view(r.nodes@) =~= Seq::<NodeView>::empty());
        }
        r
    }

    /// An element with children and no attributes.
    pub fn nodes(tag: Tag, nodes: Vec<Node>) -> (r: Element)
        ensures
            r@ == (ElementView { tag, attrs: AttrsView::empty(), nodes: nodes_view(nodes@) }),
    {
        Element { tag, attrs: Attributes::new(), nodes }
    }

    /// An element with attributes and children.
    pub fn attrs_nodes(tag: Tag, attrs: Attributes, nodes: Vec<Node>) -> (r: Element)
        ensures
            r@ == (ElementView { tag, attrs: attrs@, nodes: nodes_view(nodes@) }),
    {
        Element { tag, attrs, nodes }
    }
}

impl Plain {
    /// A text run holding a copy of `content`.
    pub fn new(content: &str) -> (r: Plain)
        ensures
            r@ == content@,
    {
        Plain { content: content.to_owned() }
    }
}

} // verus!
