//! The laws of the engine: statements that relate parsing and rendering,
//! proved over their models.

use vstd::prelude::*;
use crate::chars::{char_alphabetic, char_uppercase, count_pred, lemma_count_pred,
    lemma_find2_none, CharPred};
use crate::options::{spec_lookup, Symbol};
use crate::parcom::types::{AttrsView, NodeView};
use crate::parcom::{spec_block_newline, spec_block_tag_word, spec_blockquote, spec_doc_fragment,
    spec_explicit_block, spec_footnote, spec_fragments, spec_handle_attributes,
    spec_handle_inline, spec_implicit_block, spec_parcom, spec_take_until_block_ending, Tag};
use crate::parcom::inline::spec_match_one;
use crate::renderer::{spec_attrs_str, spec_render, spec_render_node, spec_render_nodes,
    spec_tag_name};

verus! {

broadcast use vstd::seq::group_seq_axioms;

/// A character that no signature and no inline marker reacts to: a space or
/// a lowercase letter, and none of the marker characters.
pub open spec fn inert_char(c: char) -> bool {
    &&& (c == ' ' || char_alphabetic(c))
    &&& !char_uppercase(c)
    &&& c != '\n'
    &&& c != '*'
    &&& c != '_'
    &&& c != '-'
    &&& c != '['
    &&& c != '('
    &&& c != '{'
    &&& c != '\''
    &&& c != '.'
    &&& c != '"'
}

/// Text of inert characters only.
pub open spec fn inert_text(s: Seq<char>) -> bool {
    forall|i: int| 0 <= i < s.len() ==> #[trigger] inert_char(s[i])
}

/// On inert text the tokenizer always takes a plain run: a word or a
/// whitespace run, never a span, a symbol or an emphasis element.
proof fn lemma_inert_match_one(s: Seq<char>)
    requires
        s.len() > 0,
        inert_text(s),
    ensures
        spec_match_one(s) matches Some(p) && 1 <= p.0 <= s.len() && p.1 == NodeView::Plain(
            s.take(p.0),
        ),
{
    assert(inert_char(s[0]));
    lemma_count_pred(s, CharPred::Uppercase);
    lemma_count_pred(s, CharPred::Alphabetic);
    lemma_count_pred(s, CharPred::Space);
    assert(count_pred(s, CharPred::Uppercase) == 0);
    if s.len() >= 3 {
        assert(inert_char(s[1]));
    }
    if char_alphabetic(s[0]) {
        assert(count_pred(s, CharPred::Alphabetic) >= 1);
    } else {
        assert(s[0] == ' ');
        assert(count_pred(s, CharPred::Space) >= 1);
    }
}

/// Inline tokenization of inert text succeeds with plain nodes whose texts
/// concatenate back to the input, and rendering those nodes reproduces it.
proof fn lemma_inert_inline(s: Seq<char>, table: Seq<(Symbol, Seq<char>)>)
    requires
        s.len() > 0,
        inert_text(s),
    ensures
        spec_handle_inline(s) matches Some(ns) && spec_render_nodes(ns, table) == Some(s),
    decreases s.len(),
{
    lemma_inert_match_one(s);
    let (k, n) = spec_match_one(s)->Some_0;
    if k == s.len() {
        assert(s.take(k) =~= s);
        assert(seq![n][0] == n);
        assert(spec_render_node(n, table) == Some(s));
        assert(seq![n].drop_first() =~= Seq::<NodeView>::empty());
        assert(spec_render_nodes(Seq::<NodeView>::empty(), table) == Some(Seq::<char>::empty()));
        assert(s + Seq::<char>::empty() =~= s);
        assert(spec_render_nodes(seq![n], table) == Some(s));
    } else {
        let rest = s.skip(k);
        assert(inert_text(rest)) by {
            assert forall|i: int| 0 <= i < rest.len() implies inert_char(rest[i]) by {
                assert(inert_char(s[k + i]));
            }
        }
        lemma_inert_inline(rest, table);
        let tail = spec_handle_inline(rest)->Some_0;
        assert((seq![n] + tail)[0] == n);
        assert(spec_render_node(n, table) == Some(s.take(k)));
        assert((seq![n] + tail).drop_first() =~= tail);
        assert(s.take(k) + s.skip(k) =~= s);
        assert(spec_render_nodes(seq![n] + tail, table) == Some(s));
    }
}

/// No attribute group opens on inert text: attribute parsing leaves it
/// unchanged.
proof fn lemma_inert_attrs(x: Seq<char>)
    requires
        inert_text(x),
    ensures
        spec_handle_attributes(x) == (x, AttrsView::empty()),
{
    if x.len() > 0 {
        assert(inert_char(x[0]));
    }
}

/// A suffix of inert text is inert.
proof fn lemma_inert_skip(s: Seq<char>, k: int)
    requires
        inert_text(s),
        0 <= k <= s.len(),
    ensures
        inert_text(s.skip(k)),
{
    assert forall|i: int| 0 <= i < s.skip(k).len() implies inert_char(s.skip(k)[i]) by {
        assert(inert_char(s[k + i]));
    }
}

/// The round trip of plain text: an input of inert characters parses to a
/// single implicit paragraph holding its text, and rendering the tree
/// reproduces that text inside exactly one paragraph tag pair, whatever the
/// symbol table holds.
pub proof fn lemma_plain_text_round_trip(s: Seq<char>, table: Seq<(Symbol, Seq<char>)>)
    requires
        s.len() > 0,
        inert_text(s),
    ensures
        spec_parcom(s) matches Some(dv) && spec_render(dv, table) == Some(
            "<p>"@ + s + "</p>"@,
        ),
{
    assert(inert_char(s[0]));
    assert(inert_char(s[s.len() - 1]));
    assert forall|i: int| 0 <= i && i + 1 < s.len() implies !((#[trigger] s[i]) == '\n' && s[i + 1]
        == '\n') by {
        assert(inert_char(s[i]));
    }
    lemma_find2_none(s, '\n', '\n');
    assert(spec_take_until_block_ending(s) == Some((Seq::<char>::empty(), s)));
    lemma_inert_inline(s, table);
    let ns = spec_handle_inline(s)->Some_0;

    // None of the signature forms completes: there is no dot-and-space
    // terminator and no attribute group in inert text.
    assert(spec_block_newline(s) is None);
    if s.len() >= 2 && s[0] == 'b' && s[1] == 'q' {
        lemma_inert_skip(s, 2);
        lemma_inert_attrs(s.skip(2));
        if s.skip(2).len() >= 2 {
            assert(inert_char(s.skip(2)[0]));
        }
    }
    assert(spec_blockquote(s) is None);
    if s.len() >= 2 && s[0] == 'f' && s[1] == 'n' {
        lemma_inert_skip(s, 2);
        let d = count_pred(s.skip(2), CharPred::Digit);
        lemma_count_pred(s.skip(2), CharPred::Digit);
        if d >= 1 {
            let after = s.skip(2 + d);
            lemma_inert_skip(s, 2 + d);
            if after.len() >= 1 && after[0] == '^' {
                lemma_inert_skip(s, 2 + d + 1);
                assert(after.skip(1) =~= s.skip(2 + d + 1));
                lemma_inert_attrs(after.skip(1));
                if after.skip(1).len() >= 2 {
                    assert(inert_char(after.skip(1)[0]));
                }
            } else {
                lemma_inert_attrs(after);
                if after.len() >= 2 {
                    assert(inert_char(after[0]));
                }
            }
        }
    }
    assert(spec_footnote(s) is None);
    match spec_block_tag_word(s) {
        Some(tl) => {
            lemma_inert_skip(s, tl);
            lemma_inert_attrs(s.skip(tl));
            if s.skip(tl).len() >= 2 {
                assert(inert_char(s.skip(tl)[0]));
            }
            assert(spec_explicit_block(s) is None);
        },
        None => {
            assert(spec_explicit_block(s) is None);
        },
    }
    let pnode = spec_implicit_block(s)->Some_0.1;
    assert(spec_doc_fragment(s) == Some((Seq::<char>::empty(), pnode)));

    // The fragment run: one paragraph, then the empty remainder.
    assert(spec_take_until_block_ending(Seq::<char>::empty()) is None);
    assert(spec_doc_fragment(Seq::<char>::empty()) is None);
    assert(spec_fragments(Seq::<char>::empty()) == (
        Seq::<char>::empty(),
        Seq::<NodeView>::empty(),
    ));
    assert(spec_fragments(s).1 =~= seq![pnode]);
    assert(spec_fragments(s).0 =~= Seq::<char>::empty());
    let dv = spec_parcom(s)->Some_0;

    // Rendering: the root emits only the paragraph, whose attributes are
    // empty and whose children reproduce the text.
    assert(spec_tag_name(Tag::Paragraph) == Some("p"@));
    assert(spec_attrs_str(AttrsView::empty()) =~= Seq::<char>::empty());
    assert(spec_render_node(pnode, table) == Some(
        "<"@ + "p"@ + spec_attrs_str(AttrsView::empty()) + ">"@ + s + "</"@ + "p"@ + ">"@,
    ));
    assert(seq![pnode].drop_first() =~= Seq::<NodeView>::empty());
    assert(spec_render_nodes(Seq::<NodeView>::empty(), table) == Some(Seq::<char>::empty()));
    reveal_strlit("<");
    reveal_strlit("p");
    reveal_strlit(">");
    reveal_strlit("</");
    reveal_strlit("<p>");
    reveal_strlit("</p>");
    assert(spec_render(dv, table) == Some("<p>"@ + s + "</p>"@)) by {
        assert(("<"@ + "p"@ + spec_attrs_str(AttrsView::empty()) + ">"@ + s + "</"@ + "p"@ + ">"@)
            + Seq::<char>::empty() =~= "<p>"@ + s + "</p>"@);
    }
}

/// Symbol substitution is table-driven: rendering a symbol node emits
/// exactly the table's replacement for it, and empty text when the table
/// has no entry — never a recovered default.
pub proof fn lemma_symbol_substitution_table_driven(sym: Symbol, table: Seq<(Symbol, Seq<char>)>)
    ensures
        spec_render(NodeView::Symbol(sym), table) == Some(
            match spec_lookup(table, sym) {
                Some(t) => t,
                None => Seq::<char>::empty(),
            },
        ),
{
}

} // verus!
