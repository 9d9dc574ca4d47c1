//! The convenience entry points: the event-driven conversion to markup, and
//! the composition of the combinator parser with the tree serializer.

use vstd::prelude::*;
use vstd::string::StrSliceExecFns;
use vstd::string::StringExecFns;
use vstd::string::StringSliceAdditionalSpecFns;
use vstd::utf8::{decode_utf8, encode_utf8_decode_utf8, is_char_boundary};
use crate::error::Error;
use crate::options::{table_view, Options};
use crate::pulp::pass_2::{lemma_sp_next_inp, spec_sp_next, SecondPass, SecondPassEvent, SpView};

verus! {

broadcast use vstd::seq::group_seq_axioms;

/// Relies on str::get: a byte range yields a slice exactly when it lies on
/// character boundaries within the string, and the slice holds those bytes.
#[verifier::external_body]
fn slice_str<'a>(s: &'a str, start: usize, end: usize) -> (r: Option<&'a str>)
    ensures
        r matches Some(t) ==> t.spec_bytes() == s.spec_bytes().subrange(
            start as int,
            end as int,
        ),
        r is Some <==> (start <= end && end <= s.spec_bytes().len() && is_char_boundary(
            s.spec_bytes(),
            start as int,
        ) && is_char_boundary(s.spec_bytes(), end as int)),
{
    s.get(start..end)
}

/// The event budget of one conversion: enough for every event the pass can
/// yield from an input of this byte length.
pub open spec fn spec_pulp_fuel(len: nat) -> nat {
    if 2 * len + 4 > usize::MAX {
        usize::MAX as nat
    } else {
        2 * len + 4
    }
}

/// What draining the event pass appends to `acc`: a paragraph pair per
/// block, the text between them decoded from the input bytes, and a break
/// mark per interior newline. Nothing when a text range misses a character
/// boundary or the budget runs out.
pub open spec fn spec_pulp_run(st: SpView, acc: Seq<char>, fuel: nat) -> Option<Seq<char>>
    decreases fuel,
{
    if fuel == 0 {
        None
    } else {
        let (st2, out) = spec_sp_next(st);
        match out {
            None => Some(acc),
            Some(SecondPassEvent::Paragraph) => spec_pulp_run(st2, acc + "<p>"@, (fuel - 1) as nat),
            Some(SecondPassEvent::ParagraphEnd) => spec_pulp_run(
                st2,
                acc + "</p>"@,
                (fuel - 1) as nat,
            ),
            Some(SecondPassEvent::Text(a, b)) => {
                if a <= b && b <= st.inp.len() && is_char_boundary(st.inp, a as int)
                    && is_char_boundary(st.inp, b as int) {
                    spec_pulp_run(
                        st2,
                        acc + decode_utf8(st.inp.subrange(a as int, b as int)),
                        (fuel - 1) as nat,
                    )
                } else {
                    None
                }
            },
            Some(SecondPassEvent::LineBreak(_, _)) => spec_pulp_run(
                st2,
                acc + "<br>\n"@,
                (fuel - 1) as nat,
            ),
        }
    }
}

/// The starting state of the event pass over `s`.
pub open spec fn spec_sp_init(s: Seq<u8>) -> SpView {
    SpView {
        inp: s,
        fp_pos: 0,
        current: None,
        position: 0,
        stack: Seq::empty(),
        expecting: true,
    }
}

/// Converts a document to markup through the event pipeline: each
/// blank-line-separated block becomes one paragraph pair, with its text and
/// line breaks in between.
pub fn textile_to_html_with_options(textile: &str, options: Options) -> (r: Result<String, Error>)
    ensures
        match spec_pulp_run(
            spec_sp_init(textile.spec_bytes()),
            Seq::empty(),
            spec_pulp_fuel(textile.spec_bytes().len()),
        ) {
            Some(out) => r matches Ok(s) && s@ == out,
            None => r is Err,
        },
{
    let _ = options;
    let n = textile.as_bytes().len();
    let mut fuel: usize = if n > (usize::MAX - 4) / 2 {
        usize::MAX
    } else {
        2 * n + 4
    };
    proof {
        assert(fuel == spec_pulp_fuel(textile.spec_bytes().len()));
    }
    let ghost f0 = fuel as nat;
    let mut iterator = SecondPass::new(textile);
    let ghost v0 = iterator.view();
    let mut buffer = String::new();
    proof {
        assert(v0 =~= spec_sp_init(textile.spec_bytes()));
        assert(buffer@ =~= Seq::<char>::empty());
    }
    loop
        invariant
            v0 == spec_sp_init(textile.spec_bytes()),
            f0 == spec_pulp_fuel(textile.spec_bytes().len()),
            iterator.wf(),
            iterator.doc() == textile@,
            spec_pulp_run(iterator.view(), buffer@, fuel as nat) == spec_pulp_run(
                v0,
                Seq::empty(),
                f0,
            ),
            iterator.view().inp == textile.spec_bytes(),
        decreases fuel,
    {
        if fuel == 0 {
            return Err(Error::LexerError);
        }
        let ghost v_it = iterator.view();
        let ghost acc_it = buffer@;
        proof {
            lemma_sp_next_inp(v_it);
        }
        let ev = iterator.next();
        match ev {
            None => {
                return Ok(buffer);
            },
            Some(SecondPassEvent::Paragraph) => {
                buffer.append("<p>");
            },
            Some(SecondPassEvent::ParagraphEnd) => {
                buffer.append("</p>");
            },
            Some(SecondPassEvent::Text(start, end)) => {
                match slice_str(textile, start, end) {
                    Some(t) => {
                        proof {
                            encode_utf8_decode_utf8(t@);
                        }
                        buffer.append(t);
                    },
                    None => {
                        return Err(Error::LexerError);
                    },
                }
            },
            Some(SecondPassEvent::LineBreak(_, _)) => {
                buffer.append("<br>\n");
            },
        }
        fuel = fuel - 1;
    }
}

/// Converts a document by parsing it with the combinator engine and
/// serializing the resulting tree.
pub fn convert(input: &str, options: &Options) -> (r: Result<String, Error>)
    ensures
        match crate::parcom::spec_parcom(input@) {
            None => r is Err,
            Some(dv) => match crate::renderer::spec_render(dv, table_view(options.symbols@)) {
                Some(out) => r matches Ok(s) && s@ == out,
                None => r is Err,
            },
        },
{
    let tree = match crate::parcom::parcom(input) {
        Ok(t) => t,
        Err(e) => {
            return Err(e);
        },
    };
    crate::renderer::render(&tree, options)
}

} // verus!
