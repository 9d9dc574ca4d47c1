//! The second pass of the event pipeline: first-pass events are grouped
//! into paragraphs, with text and line breaks between the paragraph marks.

use vstd::prelude::*;
use vstd::string::StringSliceAdditionalSpecFns;
use crate::pulp::pass_1::{lemma_fp_scan_bounds, spec_fp_next, FirstPass, FirstPassEvent};

verus! {

broadcast use vstd::seq::group_seq_axioms;

/// One event of the second pass: a paragraph opening or closing, a text
/// range, or a line break.
#[derive(Debug)]
pub enum SecondPassEvent {
    Paragraph,
    ParagraphEnd,
    Text(usize, usize),
    LineBreak(usize, usize),
}

/// The grouping pass over the first pass's events.
pub struct SecondPass<'a> {
    input: &'a str,
    len: usize,
    first_pass: FirstPass<'a>,
    current_1_event: Option<FirstPassEvent>,
    position: usize,
    previous: Option<SecondPassEvent>,
    stack: Vec<SecondPassEvent>,
    expecting_block: bool,
}

/// The abstract state of the pass: the input bytes, the scanner position,
/// the buffered event, the reading position, the stack of open marks, and
/// whether a new block is expected.
#[verifier::ext_equal]
pub struct SpView {
    pub inp: Seq<u8>,
    pub fp_pos: int,
    pub current: Option<FirstPassEvent>,
    pub position: int,
    pub stack: Seq<SecondPassEvent>,
    pub expecting: bool,
}

/// Where an event starts.
pub open spec fn spec_ev_start(ev: FirstPassEvent) -> usize {
    match ev {
        FirstPassEvent::Line(s, _) => s,
        FirstPassEvent::Break(s, _) => s,
        FirstPassEvent::NewLine(s, _) => s,
        FirstPassEvent::Error(s, _) => s,
    }
}

/// The termination measure of one step: scanner distance to the end, a
/// buffered event, and the open marks.
pub open spec fn sp_measure(st: SpView) -> int {
    2 * (if st.fp_pos >= st.inp.len() {
        0
    } else {
        st.inp.len() - st.fp_pos
    }) + (if st.current is Some {
        1int
    } else {
        0int
    }) + st.stack.len()
}

/// What one step of the pass yields: the state after it and the event it
/// reports, or nothing at the end of the document once all marks are closed.
pub open spec fn spec_sp_next(st: SpView) -> (SpView, Option<SecondPassEvent>)
    decreases sp_measure(st),
        via spec_sp_next_decreases
{
    let len = st.inp.len() as int;
    let pulled: (int, Option<FirstPassEvent>, int) = if st.current is None {
        match spec_fp_next(st.inp, st.fp_pos) {
            None => (st.fp_pos, None, len),
            Some((np, ev)) => (np, Some(ev), spec_ev_start(ev) as int),
        }
    } else {
        (st.fp_pos, st.current, st.position)
    };
    let (fp2, cur1, pos1) = pulled;
    let cur2: Option<FirstPassEvent> = if cur1 is None && st.stack.len() > 0 {
        Some(FirstPassEvent::Break(len as usize, len as usize))
    } else {
        cur1
    };
    match cur2 {
        None => (
            SpView { fp_pos: fp2, current: None, position: pos1, ..st },
            None,
        ),
        Some(FirstPassEvent::Line(start, end)) => {
            if st.expecting {
                (
                    SpView {
                        fp_pos: fp2,
                        current: cur2,
                        position: pos1,
                        stack: st.stack.push(SecondPassEvent::Paragraph),
                        expecting: false,
                        ..st
                    },
                    Some(SecondPassEvent::Paragraph),
                )
            } else {
                (
                    SpView { fp_pos: fp2, current: None, position: pos1, ..st },
                    Some(SecondPassEvent::Text(start, end)),
                )
            }
        },
        Some(FirstPassEvent::Break(_, _)) => {
            let st2 = SpView {
                fp_pos: fp2,
                current: None,
                position: pos1,
                expecting: true,
                stack: if st.stack.len() > 0 {
                    st.stack.drop_last()
                } else {
                    st.stack
                },
                ..st
            };
            if st.stack.len() == 0 {
                spec_sp_next(st2)
            } else {
                match st.stack.last() {
                    SecondPassEvent::Paragraph => (st2, Some(SecondPassEvent::ParagraphEnd)),
                    _ => spec_sp_next(st2),
                }
            }
        },
        Some(FirstPassEvent::NewLine(s0, e0)) => (
            SpView { fp_pos: fp2, current: None, position: pos1, ..st },
            Some(SecondPassEvent::LineBreak(s0, e0)),
        ),
        Some(FirstPassEvent::Error(_, _)) => {
            let st2 = SpView { fp_pos: fp2, current: None, position: pos1, ..st };
            if st.current is Some {
                spec_sp_next(st2)
            } else {
                (st2, None)
            }
        },
    }
}

/// A step never changes the input bytes.
pub proof fn lemma_sp_next_inp(st: SpView)
    ensures
        spec_sp_next(st).0.inp == st.inp,
    decreases sp_measure(st),
{
    if st.current is None && st.fp_pos >= 0 {
        lemma_fp_scan_bounds(st.inp, st.fp_pos, 0, false);
    }
    let len = st.inp.len() as int;
    let pulled: (int, Option<FirstPassEvent>, int) = if st.current is None {
        match spec_fp_next(st.inp, st.fp_pos) {
            None => (st.fp_pos, None, len),
            Some((np, ev)) => (np, Some(ev), spec_ev_start(ev) as int),
        }
    } else {
        (st.fp_pos, st.current, st.position)
    };
    let (fp2, cur1, pos1) = pulled;
    let cur2: Option<FirstPassEvent> = if cur1 is None && st.stack.len() > 0 {
        Some(FirstPassEvent::Break(len as usize, len as usize))
    } else {
        cur1
    };
    match cur2 {
        Some(FirstPassEvent::Break(_, _)) => {
            let st2 = SpView {
                fp_pos: fp2,
                current: None,
                position: pos1,
                expecting: true,
                stack: if st.stack.len() > 0 {
                    st.stack.drop_last()
                } else {
                    st.stack
                },
                ..st
            };
            if st.stack.len() == 0 {
                lemma_sp_next_inp(st2);
            } else {
                match st.stack.last() {
                    SecondPassEvent::Paragraph => {},
                    _ => {
                        lemma_sp_next_inp(st2);
                    },
                }
            }
        },
        Some(FirstPassEvent::Error(_, _)) => {
            let st2 = SpView { fp_pos: fp2, current: None, position: pos1, ..st };
            if st.current is Some {
                lemma_sp_next_inp(st2);
            }
        },
        _ => {},
    }
}

#[via_fn]
proof fn spec_sp_next_decreases(st: SpView) {
    if st.current is None && st.fp_pos >= 0 {
        lemma_fp_scan_bounds(st.inp, st.fp_pos, 0, false);
    }
}

impl<'a> SecondPass<'a> {
    /// The characters being read.
    pub closed spec fn doc(&self) -> Seq<char> {
        self.input@
    }

    /// The abstract state.
    pub closed spec fn view(&self) -> SpView {
        SpView {
            inp: self.input.spec_bytes(),
            fp_pos: self.first_pass.pos(),
            current: self.current_1_event,
            position: self.position as int,
            stack: self.stack@,
            expecting: self.expecting_block,
        }
    }

    /// The stored length and the scanner agree with the input.
    pub closed spec fn wf(&self) -> bool {
        &&& self.len == self.input.spec_bytes().len()
        &&& self.first_pass.wf()
        &&& self.first_pass.inp() == self.input.spec_bytes()
        &&& self.first_pass.pos() <= self.input.spec_bytes().len()
    }

    /// A pass over `input`, at the start and expecting a block.
    pub fn new(input: &'a str) -> (r: SecondPass<'a>)
        ensures
            r.wf(),
            r.doc() == input@,
            r.view() == (SpView {
                inp: input.spec_bytes(),
                fp_pos: 0,
                current: None,
                position: 0,
                stack: Seq::empty(),
                expecting: true,
            }),
    {
        let byte_len = input.as_bytes().len();
        let r = SecondPass {
            input,
            len: byte_len,
            first_pass: FirstPass::new(input),
            current_1_event: None,
            position: 0,
            previous: None,
            stack: Vec::new(),
            expecting_block: true,
        };
        proof {
            assert(r.view() =~= (SpView {
                inp: input.spec_bytes(),
                fp_pos: 0,
                current: None,
                position: 0,
                stack: Seq::empty(),
                expecting: true,
            }));
        }
        r
    }

    /// The next event: paragraph marks around each blank-line-separated
    /// block, the text and line breaks inside it, and a final closing mark
    /// at the end of the document.
    pub fn next(&mut self) -> (r: Option<SecondPassEvent>)
        requires
            old(self).wf(),
        ensures
            final(self).wf(),
            final(self).doc() == old(self).doc(),
            ({
                let (st2, out) = spec_sp_next(old(self).view());
                final(self).view() == st2 && r == out
            }),
    {
        let ghost v0 = self.view();
        let ghost d0 = self.doc();
        loop
            invariant
                v0 == old(self).view(),
                d0 == old(self).doc(),
                self.wf(),
                self.doc() == d0,
                spec_sp_next(self.view()) == spec_sp_next(v0),
            decreases sp_measure(self.view()),
        {
            let ghost v_it = self.view();
            let had_current = self.current_1_event.is_some();
            if !had_current {
                let pulled = self.first_pass.next();
                match &pulled {
                    None => {
                        self.position = self.len;
                    },
                    Some(ev) => {
                        let s0 = match ev {
                            FirstPassEvent::Line(s, _) => *s,
                            FirstPassEvent::Break(s, _) => *s,
                            FirstPassEvent::NewLine(s, _) => *s,
                            FirstPassEvent::Error(s, _) => *s,
                        };
                        self.position = s0;
                    },
                }
                self.current_1_event = pulled;
            }
            if self.current_1_event.is_none() && self.stack.len() > 0 {
                self.current_1_event = Some(FirstPassEvent::Break(self.len, self.len));
            }
            let cur = self.current_1_event;
            match cur {
                None => {
                    proof {
                        assert(self.view() =~= spec_sp_next(v_it).0);
                        assert(spec_sp_next(v_it).1 == Option::<SecondPassEvent>::None);
                    }
                    return None;
                },
                Some(FirstPassEvent::Line(start, end)) => {
                    if self.expecting_block {
                        self.expecting_block = false;
                        self.stack.push(SecondPassEvent::Paragraph);
                        proof {
                            assert(self.view() =~= spec_sp_next(v_it).0);
                            assert(spec_sp_next(v_it).1 == Some(SecondPassEvent::Paragraph));
                        }
                        return Some(SecondPassEvent::Paragraph);
                    }
                    self.current_1_event = None;
                    proof {
                        assert(self.view() =~= spec_sp_next(v_it).0);
                        assert(spec_sp_next(v_it).1 == Some(SecondPassEvent::Text(start, end)));
                    }
                    return Some(SecondPassEvent::Text(start, end));
                },
                Some(FirstPassEvent::Break(_, _)) => {
                    self.current_1_event = None;
                    self.expecting_block = true;
                    match self.stack.pop() {
                        None => {
                            proof {
                                assert(spec_sp_next(self.view()) == spec_sp_next(v_it));
                                if v_it.current is None && v_it.fp_pos >= 0 {
                                    lemma_fp_scan_bounds(v_it.inp, v_it.fp_pos, 0, false);
                                }
                                assert(sp_measure(self.view()) < sp_measure(v_it));
                            }
                            continue ;
                        },
                        Some(SecondPassEvent::Paragraph) => {
                            proof {
                                assert(self.view() =~= spec_sp_next(v_it).0);
                                assert(spec_sp_next(v_it).1 == Some(SecondPassEvent::ParagraphEnd));
                            }
                            return Some(SecondPassEvent::ParagraphEnd);
                        },
                        Some(_) => {
                            proof {
                                assert(spec_sp_next(self.view()) == spec_sp_next(v_it));
                                if v_it.current is None && v_it.fp_pos >= 0 {
                                    lemma_fp_scan_bounds(v_it.inp, v_it.fp_pos, 0, false);
                                }
                                assert(sp_measure(self.view()) < sp_measure(v_it));
                            }
                            continue ;
                        },
                    }
                },
                Some(FirstPassEvent::NewLine(s0, e0)) => {
                    self.current_1_event = None;
                    proof {
                        assert(self.view() =~= spec_sp_next(v_it).0);
                        assert(spec_sp_next(v_it).1 == Some(SecondPassEvent::LineBreak(s0, e0)));
                    }
                    return Some(SecondPassEvent::LineBreak(s0, e0));
                },
                Some(FirstPassEvent::Error(_, _)) => {
                    self.current_1_event = None;
                    if had_current {
                        proof {
                            assert(spec_sp_next(self.view()) == spec_sp_next(v_it));
                            assert(sp_measure(self.view()) < sp_measure(v_it));
                        }
                        continue ;
                    }
                    proof {
                        assert(self.view() =~= spec_sp_next(v_it).0);
                        assert(spec_sp_next(v_it).1 == Option::<SecondPassEvent>::None);
                    }
                    return None;
                },
            }
        }
    }
}

} // verus!
