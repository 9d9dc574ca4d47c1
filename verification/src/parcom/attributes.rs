//! The attribute parser: an optional run of parenthesized class/id groups
//! and braced style groups after a block signature.

use vstd::prelude::*;
use vstd::string::StrSliceExecFns;
use crate::chars::{count_pred, scan_while, CharPred, spec_pred};
use crate::error::Error;
use crate::parcom::types::{Attributes, AttrsView, strs_view, opt_str_view};

verus! {

broadcast use vstd::seq::group_seq_axioms;

/// One recognized attribute group.
pub enum AttrField {
    ClassesId(Vec<String>, Option<String>),
    Style(Option<String>),
}

/// The view of [`AttrField`].
pub enum AttrFieldV {
    ClassesId(Seq<Seq<char>>, Option<Seq<char>>),
    Style(Option<Seq<char>>),
}

impl View for AttrField {
    type V = AttrFieldV;

    open spec fn view(&self) -> AttrFieldV {
        match self {
            AttrField::ClassesId(c, id) => AttrFieldV::ClassesId(strs_view(c@), opt_str_view(*id)),
            AttrField::Style(st) => AttrFieldV::Style(opt_str_view(*st)),
        }
    }
}

/// The non-empty segments of `s` between occurrences of `sep`, in order.
pub open spec fn spec_split_nonempty(s: Seq<char>, sep: char) -> Seq<Seq<char>>
    decreases s.len(),
{
    if s.len() == 0 {
        Seq::empty()
    } else {
        let k = count_pred(s, CharPred::NotChar(sep));
        let seg = s.take(k);
        let rest: Seq<char> = if !(0 <= k && k < s.len()) {
            Seq::empty()
        } else {
            s.skip(k + 1)
        };
        let tail = spec_split_nonempty(rest, sep);
        if seg.len() == 0 {
            tail
        } else {
            seq![seg] + tail
        }
    }
}

/// The last non-empty segment of `s` between occurrences of `sep`, if any.
pub open spec fn spec_last_split(s: Seq<char>, sep: char) -> Option<Seq<char>> {
    let segs = spec_split_nonempty(s, sep);
    if segs.len() > 0 {
        Some(segs.last())
    } else {
        None
    }
}

/// What a parenthesized group `(class1 class2 #id)` at the head of `s`
/// parses to: the rest of the input and the recognized field, or nothing.
pub open spec fn spec_classes_ids(s: Seq<char>) -> Option<(Seq<char>, AttrFieldV)> {
    if s.len() == 0 || s[0] != '(' {
        None
    } else {
        let k = count_pred(s.skip(1), CharPred::AttrParen);
        if k < 1 {
            None
        } else if !(1 + k < s.len() && s[1 + k] == ')') {
            None
        } else {
            let caught = s.subrange(1, 1 + k);
            let cl = count_pred(caught, CharPred::NotChar('#'));
            let classes = spec_split_nonempty(caught.take(cl), ' ');
            let id = spec_last_split(caught.skip(cl), '#');
            Some((s.skip(2 + k), AttrFieldV::ClassesId(classes, id)))
        }
    }
}

/// What a braced group `{declarations}` at the head of `s` parses to.
pub open spec fn spec_style(s: Seq<char>) -> Option<(Seq<char>, AttrFieldV)> {
    if s.len() == 0 || s[0] != '{' {
        None
    } else {
        let k = count_pred(s.skip(1), CharPred::AttrBrace);
        if k < 1 {
            None
        } else if !(1 + k < s.len() && s[1 + k] == '}') {
            None
        } else {
            Some((s.skip(2 + k), AttrFieldV::Style(Some(s.subrange(1, 1 + k)))))
        }
    }
}

/// The longest run of attribute groups at the head of `s`: the remaining
/// input and the recognized fields in order.
pub open spec fn spec_attr_parts(s: Seq<char>) -> (Seq<char>, Seq<AttrFieldV>)
    decreases s.len(),
{
    match spec_classes_ids(s) {
        Some((rest, f)) => {
            let (r2, ps) = spec_attr_parts(rest);
            (r2, seq![f] + ps)
        },
        None => match spec_style(s) {
            Some((rest, f)) => {
                let (r2, ps) = spec_attr_parts(rest);
                (r2, seq![f] + ps)
            },
            None => (s, Seq::empty()),
        },
    }
}

/// One field folded into the attribute set: a class group replaces the class
/// list and the id; a style group replaces the style.
pub open spec fn spec_apply_attr(a: AttrsView, f: AttrFieldV) -> AttrsView {
    match f {
        AttrFieldV::ClassesId(c, id) => AttrsView { classes: c, href: a.href, id, style: a.style },
        AttrFieldV::Style(st) => AttrsView {
            classes: a.classes,
            href: a.href,
            id: a.id,
            style: st,
        },
    }
}

pub open spec fn spec_fold_attrs(a: AttrsView, parts: Seq<AttrFieldV>) -> AttrsView
    decreases parts.len(),
{
    if parts.len() == 0 {
        a
    } else {
        spec_fold_attrs(spec_apply_attr(a, parts[0]), parts.drop_first())
    }
}

/// What attribute parsing makes of the head of `s`: the remaining input and
/// the attribute set, with later groups overwriting earlier ones.
pub open spec fn spec_handle_attributes(s: Seq<char>) -> (Seq<char>, AttrsView) {
    let (rest, parts) = spec_attr_parts(s);
    (rest, spec_fold_attrs(AttrsView::empty(), parts))
}

/// Attribute parsing never grows the input.
pub proof fn lemma_attr_parts_shrinks(s: Seq<char>)
    ensures
        spec_attr_parts(s).0.len() <= s.len(),
    decreases s.len(),
{
    match spec_classes_ids(s) {
        Some((rest, f)) => {
            lemma_attr_parts_shrinks(rest);
        },
        None => match spec_style(s) {
            Some((rest, f)) => {
                lemma_attr_parts_shrinks(rest);
            },
            None => {},
        },
    }
}

/// The non-empty segments of `s` between occurrences of `sep`, as owned
/// strings.
fn split_nonempty(s: &str, sep: char) -> (r: Vec<String>)
    ensures
        strs_view(r@) == spec_split_nonempty(s@, sep),
{
    let n = s.unicode_len();
    let mut pos: usize = 0;
    let mut out: Vec<String> = Vec::new();
    proof {
        assert(s@.skip(0) =~= s@);
        assert(strs_view(out@) + spec_split_nonempty(s@.skip(0), sep) =~= spec_split_nonempty(
            s@,
            sep,
        ));
    }
    while pos < n
        invariant
            pos <= n,
            n == s@.len(),
            spec_split_nonempty(s@, sep) == strs_view(out@) + spec_split_nonempty(
                s@.skip(pos as int),
                sep,
            ),
        decreases n - pos,
    {
        let ghost old_out = out@;
        let ghost rem = s@.skip(pos as int);
        let k = scan_while(s, pos, CharPred::NotChar(sep));
        proof {
            assert(rem.take(k as int) =~= s@.subrange(pos as int, pos + k));
        }
        if k > 0 {
            let seg = s.substring_char(pos, pos + k);
            out.push(seg.to_owned());
            proof {
                assert(strs_view(out@) =~= strs_view(old_out) + seq![rem.take(k as int)]);
            }
        }
        if pos + k == n {
            proof {
                assert(rem.len() > 0);
                assert(spec_split_nonempty(Seq::<char>::empty(), sep)
                    =~= Seq::<Seq<char>>::empty());
                assert(spec_split_nonempty(rem, sep) =~= if k > 0 {
                    seq![rem.take(k as int)]
                } else {
                    Seq::<Seq<char>>::empty()
                });
                assert(s@.skip(n as int) =~= Seq::<char>::empty());
                assert(strs_view(out@) + spec_split_nonempty(s@.skip(n as int), sep)
                    =~= spec_split_nonempty(s@, sep));
            }
            pos = n;
        } else {
            proof {
                assert(rem.skip(k + 1) =~= s@.skip(pos + k + 1));
                assert(spec_split_nonempty(rem, sep) =~= if k > 0 {
                    seq![rem.take(k as int)] + spec_split_nonempty(rem.skip(k + 1), sep)
                } else {
                    spec_split_nonempty(rem.skip(k + 1), sep)
                });
                assert(strs_view(out@) + spec_split_nonempty(s@.skip(pos + k + 1), sep)
                    =~= spec_split_nonempty(s@, sep));
            }
            pos = pos + k + 1;
        }
    }
    proof {
        assert(s@.skip(n as int) =~= Seq::<char>::empty());
        assert(strs_view(out@) =~= spec_split_nonempty(s@, sep));
    }
    out
}

/// Parses a parenthesized class/id group at the head of `i`.
fn classes_ids<'a>(i: &'a str) -> (r: Result<(&'a str, AttrField), Error>)
    ensures
        match spec_classes_ids(i@) {
            Some((rest, f)) => r matches Ok(o) && o.0@ == rest && o.1@ == f,
            None => r is Err,
        },
{
    let n = i.unicode_len();
    if n == 0 {
        return Err(Error::ParComError { msg: "no attribute group" });
    }
    if i.get_char(0) != '(' {
        return Err(Error::ParComError { msg: "no attribute group" });
    }
    let k = scan_while(i, 1, CharPred::AttrParen);
    if k == 0 {
        return Err(Error::ParComError { msg: "empty attribute group" });
    }
    if 1 + k >= n {
        return Err(Error::ParComError { msg: "unterminated attribute group" });
    }
    if i.get_char(1 + k) != ')' {
        return Err(Error::ParComError { msg: "unterminated attribute group" });
    }
    let caught = i.substring_char(1, 1 + k);
    proof {
        assert(caught@ =~= i@.subrange(1, 1 + k as int));
    }
    let cl = scan_while(caught, 0, CharPred::NotChar('#'));
    proof {
        assert(caught@.skip(0) =~= caught@);
    }
    let classes_part = caught.substring_char(0, cl);
    let ids_part = caught.substring_char(cl, k);
    proof {
        assert(classes_part@ =~= caught@.take(cl as int));
        assert(ids_part@ =~= caught@.skip(cl as int));
    }
    let classes = split_nonempty(classes_part, ' ');
    let id_segs = split_nonempty(ids_part, '#');
    let id: Option<String> = if id_segs.len() > 0 {
        Some(id_segs[id_segs.len() - 1].clone())
    } else {
        None
    };
    let rest = i.substring_char(2 + k, n);
    proof {
        assert(rest@ =~= i@.skip(2 + k as int));
    }
    Ok((rest, AttrField::ClassesId(classes, id)))
}

/// Parses a braced style group at the head of `i`.
fn style<'a>(i: &'a str) -> (r: Result<(&'a str, AttrField), Error>)
    ensures
        match spec_style(i@) {
            Some((rest, f)) => r matches Ok(o) && o.0@ == rest && o.1@ == f,
            None => r is Err,
        },
{
    let n = i.unicode_len();
    if n == 0 {
        return Err(Error::ParComError { msg: "no style group" });
    }
    if i.get_char(0) != '{' {
        return Err(Error::ParComError { msg: "no style group" });
    }
    let k = scan_while(i, 1, CharPred::AttrBrace);
    if k == 0 {
        return Err(Error::ParComError { msg: "empty style group" });
    }
    if 1 + k >= n {
        return Err(Error::ParComError { msg: "unterminated style group" });
    }
    if i.get_char(1 + k) != '}' {
        return Err(Error::ParComError { msg: "unterminated style group" });
    }
    let caught = i.substring_char(1, 1 + k);
    proof {
        assert(caught@ =~= i@.subrange(1, 1 + k as int));
    }
    let rest = i.substring_char(2 + k, n);
    proof {
        assert(rest@ =~= i@.skip(2 + k as int));
    }
    Ok((rest, AttrField::Style(Some(caught.to_owned()))))
}

/// Parses zero or more attribute groups at the head of `i`; absence of any
/// group leaves the attributes empty and the input unchanged.
pub fn handle_attributes<'a>(i: &'a str) -> (r: (&'a str, Attributes))
    ensures
        r.0@ == spec_handle_attributes(i@).0,
        r.1@ == spec_handle_attributes(i@).1,
{
    let mut rest: &str = i;
    let mut attrs = Attributes::new();
    proof {
        assert(attrs@ =~= AttrsView::empty());
    }
    loop
        invariant
            spec_attr_parts(i@).0 == spec_attr_parts(rest@).0,
            spec_fold_attrs(attrs@, spec_attr_parts(rest@).1) == spec_fold_attrs(
                AttrsView::empty(),
                spec_attr_parts(i@).1,
            ),
        decreases rest@.len(),
    {
        let ghost pre = rest@;
        let step = match classes_ids(rest) {
            Ok(p) => Some(p),
            Err(_) => match style(rest) {
                Ok(p) => Some(p),
                Err(_) => None,
            },
        };
        match step {
            Some((r2, f)) => {
                proof {
                    let (tail_rest, tail_parts) = spec_attr_parts(r2@);
                    assert(spec_attr_parts(pre).1 =~= seq![f@] + tail_parts);
                    assert((seq![f@] + tail_parts).drop_first() =~= tail_parts);
                }
                match f {
                    AttrField::ClassesId(c, id) => {
                        attrs.classes = c;
                        attrs.id = id;
                    },
                    AttrField::Style(st) => {
                        attrs.style = st;
                    },
                }
                rest = r2;
            },
            None => {
                return (rest, attrs);
            },
        }
    }
}

} // verus!
