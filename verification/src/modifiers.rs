//! Block signature extraction for single lines: the signature word, a dot
//! and one space, then the line's inner text.

use vstd::prelude::*;
use vstd::string::StrSliceExecFns;
use crate::chars::str_eq;

verus! {

broadcast use vstd::seq::group_seq_axioms;

/// A parsed block signature: the word, whether it was extended, and the
/// modifier fields, kept for later passes.
#[derive(Debug, PartialEq)]
pub struct BlockTag {
    pub signature: String,
    pub extended: bool,
    pub modifiers: Vec<String>,
    pub css: Option<String>,
    pub lang: Option<String>,
    pub selector: Option<String>,
}

impl BlockTag {
    /// A block tag from its parts.
    pub fn new(
        signature: String,
        extended: bool,
        modifiers: Vec<String>,
        css: Option<String>,
        lang: Option<String>,
        selector: Option<String>,
    ) -> (r: BlockTag)
        ensures
            r.signature == signature,
            r.extended == extended,
            r.modifiers == modifiers,
            r.css == css,
            r.lang == lang,
            r.selector == selector,
    {
        BlockTag { signature, extended, modifiers, css, lang, selector }
    }

    /// A bare tag: only the signature word, nothing else.
    pub fn blank(signature: String) -> (r: BlockTag)
        ensures
            r.signature == signature,
            !r.extended,
            r.modifiers@.len() == 0,
            r.css is None,
            r.lang is None,
            r.selector is None,
    {
        BlockTag::new(signature, false, Vec::new(), None, None, None)
    }
}

/// The signature words this extractor recognizes, with their lengths.
pub open spec fn spec_extract_word(s: Seq<char>) -> Option<int> {
    if s.len() >= 9 && s.subrange(0, 9) == "notextile"@ {
        Some(9)
    } else if s.len() >= 3 && s.subrange(0, 3) == "pre"@ {
        Some(3)
    } else if s.len() >= 3 && s.subrange(0, 3) == "###"@ {
        Some(3)
    } else if s.len() >= 2 && s[0] == 'h' && '1' <= s[1] && s[1] <= '6' {
        Some(2)
    } else if s.len() >= 2 && s[0] == 'b' && (s[1] == 'c' || s[1] == 'q') {
        Some(2)
    } else if s.len() >= 1 && s[0] == 'p' {
        Some(1)
    } else {
        None
    }
}

/// Whether the line opens with a recognized signature word followed by a dot
/// and exactly one space; the rest of the line is the inner text.
pub open spec fn spec_extract_block(s: Seq<char>) -> Option<(Seq<char>, Seq<char>)> {
    match spec_extract_word(s) {
        None => None,
        Some(w) => {
            if w + 2 <= s.len() && s[w] == '.' && s[w + 1] == ' ' {
                Some((s.take(w), s.skip(w + 2)))
            } else {
                None
            }
        },
    }
}

/// Splits a signature off the head of `line`: the bare block tag and the
/// inner text, or no tag and the line unchanged.
pub fn extract_block(line: String) -> (r: (Option<BlockTag>, String))
    ensures
        match spec_extract_block(line@) {
            Some((sig, inner)) => r.0 matches Some(bt) && bt.signature@ == sig && !bt.extended
                && r.1@ == inner,
            None => r.0 is None && r.1@ == line@,
        },
{
    let n = line.as_str().unicode_len();
    let w: usize = if n >= 9 && str_eq(line.as_str().substring_char(0, 9), "notextile") {
        9
    } else if n >= 3 && str_eq(line.as_str().substring_char(0, 3), "pre") {
        3
    } else if n >= 3 && str_eq(line.as_str().substring_char(0, 3), "###") {
        3
    } else if n >= 2 && line.as_str().get_char(0) == 'h' && {
        let u = line.as_str().get_char(1) as u32;
        49 <= u && u <= 54
    } {
        2
    } else if n >= 2 && line.as_str().get_char(0) == 'b' && (line.as_str().get_char(1) == 'c'
        || line.as_str().get_char(1) == 'q') {
        2
    } else if n >= 1 && line.as_str().get_char(0) == 'p' {
        1
    } else {
        return (None, line);
    };
    proof {
        assert(line@.subrange(0, w as int) =~= line@.take(w as int));
    }
    if w + 2 <= n && line.as_str().get_char(w) == '.' && line.as_str().get_char(w + 1) == ' ' {
        let signature = line.as_str().substring_char(0, w).to_owned();
        let inner = line.as_str().substring_char(w + 2, n).to_owned();
        proof {
            assert(signature@ =~= line@.take(w as int));
            assert(inner@ =~= line@.skip(w + 2));
        }
        (Some(BlockTag::blank(signature)), inner)
    } else {
        (None, line)
    }
}

} // verus!
