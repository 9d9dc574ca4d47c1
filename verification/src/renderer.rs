//! The serializer: a depth-first walk of the document tree that emits
//! markup text. The root's children are rendered without the root itself;
//! every other element emits an opening tag (name, then link target, then
//! class list, then id), its children, and a closing tag. Symbols are
//! resolved through the caller's table; a missing entry renders as empty
//! text.

use vstd::prelude::*;
use vstd::string::StrSliceExecFns;
use vstd::string::StringExecFns;
use crate::error::Error;
use crate::options::{spec_lookup, table_view, Options, Symbol};
use crate::parcom::types::{lemma_nodes_view_index, lemma_nodes_view_len, node_view, nodes_view,
    AttrsView, Node, NodeView, Tag};

verus! {

broadcast use vstd::seq::group_seq_axioms;

/// The output tag name of each element kind; the document root has none and
/// is never itself rendered.
pub open spec fn spec_tag_name(t: Tag) -> Option<Seq<char>> {
    match t {
        Tag::Doc => None,
        Tag::Paragraph => Some("p"@),
        Tag::H1 => Some("h1"@),
        Tag::H2 => Some("h2"@),
        Tag::H3 => Some("h3"@),
        Tag::H4 => Some("h4"@),
        Tag::H5 => Some("h5"@),
        Tag::H6 => Some("h6"@),
        Tag::Blockquote => Some("blockquote"@),
        Tag::Strong => Some("strong"@),
        Tag::Bold => Some("b"@),
        Tag::Emphasis => Some("em"@),
        Tag::Italic => Some("i"@),
        Tag::Anchor => Some("a"@),
        Tag::Span => Some("span"@),
        Tag::Footnote => Some("p"@),
        Tag::FootnoteId => Some("sup"@),
        Tag::FootnoteRef => Some("sup"@),
    }
}

/// The class names joined with single spaces, in insertion order.
pub open spec fn spec_join_classes(xs: Seq<Seq<char>>) -> Seq<char>
    decreases xs.len(),
{
    if xs.len() == 0 {
        Seq::empty()
    } else if xs.len() == 1 {
        xs[0]
    } else {
        xs[0] + " "@ + spec_join_classes(xs.drop_first())
    }
}

/// The serialized attributes: the link target, then the class list, then
/// the id, each omitted when absent.
pub open spec fn spec_attrs_str(a: AttrsView) -> Seq<char> {
    let href_part: Seq<char> = match a.href {
        Some(h) => " href=\""@ + h + "\""@,
        None => Seq::empty(),
    };
    let class_part: Seq<char> = if a.classes.len() > 0 {
        " class=\""@ + spec_join_classes(a.classes) + "\""@
    } else {
        Seq::empty()
    };
    let id_part: Seq<char> = match a.id {
        Some(x) => " id=\""@ + x + "\""@,
        None => Seq::empty(),
    };
    href_part + class_part + id_part
}

/// What one node renders to, or nothing when a tag with no name mapping
/// stands below the root.
pub open spec fn spec_render_node(n: NodeView, table: Seq<(Symbol, Seq<char>)>) -> Option<
    Seq<char>,
>
    decreases n, 0int,
{
    match n {
        NodeView::NewLine => Some("\n"@),
        NodeView::Plain(t) => Some(t),
        NodeView::Symbol(sym) => Some(
            match spec_lookup(table, sym) {
                Some(t) => t,
                None => Seq::empty(),
            },
        ),
        NodeView::Multiple(ns) => spec_render_nodes(ns, table),
        NodeView::Element(e) => match spec_tag_name(e.tag) {
            None => None,
            Some(name) => match spec_render_nodes(e.nodes, table) {
                None => None,
                Some(inner) => Some(
                    "<"@ + name + spec_attrs_str(e.attrs) + ">"@ + inner + "</"@ + name + ">"@,
                ),
            },
        },
    }
}

/// What a node list renders to, in order.
pub open spec fn spec_render_nodes(ns: Seq<NodeView>, table: Seq<(Symbol, Seq<char>)>) -> Option<
    Seq<char>,
>
    decreases ns, 1int,
{
    if ns.len() == 0 {
        Some(Seq::empty())
    } else {
        match spec_render_node(ns[0], table) {
            None => None,
            Some(h) => match spec_render_nodes(ns.drop_first(), table) {
                None => None,
                Some(t) => Some(h + t),
            },
        }
    }
}

/// What a whole tree renders to: a document root emits only its children.
pub open spec fn spec_render(root: NodeView, table: Seq<(Symbol, Seq<char>)>) -> Option<Seq<char>> {
    match root {
        NodeView::Element(e) => {
            if e.tag == Tag::Doc {
                spec_render_nodes(e.nodes, table)
            } else {
                spec_render_node(root, table)
            }
        },
        _ => spec_render_node(root, table),
    }
}

/// The output tag name of an element kind; the root kind has none.
fn tag_name(t: Tag) -> (r: Result<&'static str, Error>)
    ensures
        match spec_tag_name(t) {
            Some(name) => r matches Ok(s) && s@ == name,
            None => r is Err,
        },
{
    match t {
        Tag::Doc => Err(Error::IntoTagError),
        Tag::Paragraph => Ok("p"),
        Tag::H1 => Ok("h1"),
        Tag::H2 => Ok("h2"),
        Tag::H3 => Ok("h3"),
        Tag::H4 => Ok("h4"),
        Tag::H5 => Ok("h5"),
        Tag::H6 => Ok("h6"),
        Tag::Blockquote => Ok("blockquote"),
        Tag::Strong => Ok("strong"),
        Tag::Bold => Ok("b"),
        Tag::Emphasis => Ok("em"),
        Tag::Italic => Ok("i"),
        Tag::Anchor => Ok("a"),
        Tag::Span => Ok("span"),
        Tag::Footnote => Ok("p"),
        Tag::FootnoteId => Ok("sup"),
        Tag::FootnoteRef => Ok("sup"),
    }
}

/// Serializes the attributes of one element.
fn attrs_string(a: &crate::parcom::types::Attributes) -> (r: String)
    ensures
        r@ == spec_attrs_str(a@),
{
    let mut out = String::new();
    match &a.href {
        Some(h) => {
            out.append(" href=\"");
            out.append(h.as_str());
            out.append("\"");
        },
        None => {},
    }
    if a.classes.len() > 0 {
        out.append(" class=\"");
        let ghost classes = crate::parcom::types::strs_view(a.classes@);
        let mut j: usize = 0;
        let ghost mid = out@;
        proof {
            assert(mid + joined_prefix(classes, 0) =~= mid);
        }
        while j < a.classes.len()
            invariant
                0 <= j <= a.classes@.len(),
                classes == crate::parcom::types::strs_view(a.classes@),
                classes.len() == a.classes@.len(),
                j < a.classes@.len() ==> out@ == mid + joined_prefix(classes, j as int),
                j == a.classes@.len() ==> out@ == mid + spec_join_classes(classes),
                a.classes@.len() > 0,
            decreases a.classes@.len() - j,
        {
            if j > 0 {
                out.append(" ");
            }
            out.append(a.classes[j].as_str());
            proof {
                lemma_join_step(classes, j as int);
            }
            j += 1;
        }
        out.append("\"");
    }
    match &a.id {
        Some(x) => {
            out.append(" id=\"");
            out.append(x.as_str());
            out.append("\"");
        },
        None => {},
    }
    proof {
        assert(out@ =~= spec_attrs_str(a@));
    }
    out
}

/// The classes already joined, up to but not including index `j`, with a
/// trailing separator owed when more follow.
pub open spec fn joined_prefix(xs: Seq<Seq<char>>, j: int) -> Seq<char>
    decreases j,
{
    if j <= 0 {
        Seq::empty()
    } else {
        joined_prefix(xs, j - 1) + (if j - 1 > 0 {
            " "@
        } else {
            Seq::empty()
        }) + xs[j - 1]
    }
}

/// Appending the next class extends the joined prefix as the join does.
pub proof fn lemma_join_step(xs: Seq<Seq<char>>, j: int)
    requires
        0 <= j < xs.len(),
    ensures
        j + 1 < xs.len() ==> joined_prefix(xs, j + 1) == joined_prefix(xs, j) + (if j > 0 {
            " "@
        } else {
            Seq::<char>::empty()
        }) + xs[j],
        j + 1 == xs.len() ==> spec_join_classes(xs) == joined_prefix(xs, j) + (if j > 0 {
            " "@
        } else {
            Seq::<char>::empty()
        }) + xs[j],
{
    lemma_join_prefix_full(xs);
}

/// The joined prefix over the whole list is the join itself.
pub proof fn lemma_join_prefix_full(xs: Seq<Seq<char>>)
    ensures
        xs.len() > 0 ==> spec_join_classes(xs) == joined_prefix(xs, xs.len() as int),
    decreases xs.len(),
{
    if xs.len() == 1 {
        assert(joined_prefix(xs, 0) =~= Seq::<char>::empty());
        assert(joined_prefix(xs, 1) =~= xs[0]);
    } else if xs.len() > 1 {
        lemma_join_prefix_full(xs.drop_first());
        lemma_join_prefix_shift(xs, xs.len() as int - 1);
        assert(spec_join_classes(xs) =~= joined_prefix(xs, xs.len() as int));
    }
}

/// A joined prefix of the tail, shifted by one, matches the head plus
/// separator plus that prefix.
pub proof fn lemma_join_prefix_shift(xs: Seq<Seq<char>>, j: int)
    requires
        xs.len() > 1,
        1 <= j <= xs.len() - 1,
    ensures
        joined_prefix(xs, j + 1) == xs[0] + " "@ + joined_prefix(xs.drop_first(), j),
    decreases j,
{
    if j == 1 {
        assert(joined_prefix(xs, 0) =~= Seq::<char>::empty());
        assert(joined_prefix(xs, 1) =~= xs[0]);
        assert(joined_prefix(xs.drop_first(), 0) =~= Seq::<char>::empty());
        assert(joined_prefix(xs.drop_first(), 1) =~= xs.drop_first()[0]);
        assert(joined_prefix(xs, 2) =~= xs[0] + " "@ + joined_prefix(xs.drop_first(), 1));
    } else {
        lemma_join_prefix_shift(xs, j - 1);
        assert(joined_prefix(xs, j + 1) =~= xs[0] + " "@ + joined_prefix(xs.drop_first(), j));
    }
}

/// Renders one node below the root.
fn render_node(n: &Node, options: &Options) -> (r: Result<String, Error>)
    ensures
        match spec_render_node(n@, table_view(options.symbols@)) {
            Some(out) => r matches Ok(s) && s@ == out,
            None => r is Err,
        },
    decreases *n, 0int,
{
    match n {
        Node::NewLine => Ok(String::from_str("\n")),
        Node::Plain(p) => Ok(p.content.clone()),
        Node::Symbol(sym) => match options.get_symbol(*sym) {
            Some(t) => Ok(t),
            None => Ok(String::new()),
        },
        Node::Multiple(ns) => render_nodes(ns, options),
        Node::Element(e) => {
            let name = tag_name(e.tag)?;
            let inner = render_nodes(&e.nodes, options)?;
            let mut out = String::new();
            out.append("<");
            out.append(name);
            let attrs = attrs_string(&e.attrs);
            out.append(attrs.as_str());
            out.append(">");
            out.append(inner.as_str());
            out.append("</");
            out.append(name);
            out.append(">");
            Ok(out)
        },
    }
}

/// Renders a node list in order.
fn render_nodes(ns: &Vec<Node>, options: &Options) -> (r: Result<String, Error>)
    ensures
        match spec_render_nodes(nodes_view(ns@), table_view(options.symbols@)) {
            Some(out) => r matches Ok(s) && s@ == out,
            None => r is Err,
        },
    decreases ns@, 1int,
{
    let ghost table = table_view(options.symbols@);
    let ghost nsv = nodes_view(ns@);
    let mut out = String::new();
    let mut i: usize = 0;
    proof {
        lemma_nodes_view_len(ns@);
        assert(nsv.skip(0) =~= nsv);
        match spec_render_nodes(nsv, table) {
            Some(t) => {
                assert(out@ + t =~= t);
            },
            None => {},
        }
    }
    while i < ns.len()
        invariant
            0 <= i <= ns@.len(),
            nsv == nodes_view(ns@),
            table == table_view(options.symbols@),
            nsv.len() == ns@.len(),
            match spec_render_nodes(nsv.skip(i as int), table) {
                Some(t) => spec_render_nodes(nsv, table) == Some(out@ + t),
                None => spec_render_nodes(nsv, table) is None,
            },
        decreases ns@.len() - i,
    {
        let ghost suf = nsv.skip(i as int);
        proof {
            lemma_nodes_view_index(ns@, i as int);
            assert(suf[0] == nsv[i as int]);
            assert(suf.drop_first() =~= nsv.skip(i as int + 1));
        }
        let ghost before = out@;
        match render_node(&ns[i], options) {
            Ok(s) => {
                out.append(s.as_str());
                proof {
                    match spec_render_nodes(nsv.skip(i as int + 1), table) {
                        Some(t) => {
                            assert(before + (s@ + t) =~= out@ + t);
                        },
                        None => {},
                    }
                }
                i += 1;
            },
            Err(e) => {
                return Err(e);
            },
        }
    }
    proof {
        assert(nsv.skip(i as int) =~= Seq::<NodeView>::empty());
        assert(spec_render_nodes(Seq::<NodeView>::empty(), table) == Some(Seq::<char>::empty()));
        assert(out@ + Seq::<char>::empty() =~= out@);
    }
    Ok(out)
}

/// Serializes a document tree to markup text; the root's children are
/// emitted without the root itself. Fails only when a tag with no name
/// mapping stands below the root.
pub fn render(tree: &Node, options: &Options) -> (r: Result<String, Error>)
    ensures
        match spec_render(tree@, table_view(options.symbols@)) {
            Some(out) => r matches Ok(s) && s@ == out,
            None => r is Err,
        },
{
    match tree {
        Node::Element(e) => {
            if matches!(e.tag, Tag::Doc) {
                render_nodes(&e.nodes, options)
            } else {
                render_node(tree, options)
            }
        },
        _ => render_node(tree, options),
    }
}

} // verus!
