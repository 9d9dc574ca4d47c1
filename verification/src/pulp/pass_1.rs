//! The first pass of the event pipeline: the input bytes are cut into line
//! runs, single newlines, and blank-line breaks, reported as byte ranges.

use vstd::prelude::*;
use vstd::string::StringSliceAdditionalSpecFns;

verus! {

broadcast use vstd::seq::group_seq_axioms;

/// One event of the first pass: a line of text, a blank-line break, a single
/// newline, or an empty marker, each with its byte range.
#[derive(Debug, Clone, Copy)]
pub enum FirstPassEvent {
    Line(usize, usize),
    Break(usize, usize),
    NewLine(usize, usize),
    Error(usize, usize),
}

/// The scanner over the input bytes.
pub struct FirstPass<'a> {
    input: &'a [u8],
    len: usize,
    position: usize,
}

/// How far one event reaches from `pos + delta` on, and whether it is a
/// newline run: scanning stops at the end of input, at a NUL byte, at a
/// newline after text, or at text after a newline run.
pub open spec fn spec_fp_scan(input: Seq<u8>, pos: int, delta: int, sn: bool) -> (int, bool)
    decreases input.len() - pos - delta,
{
    let inb = 0 <= pos && 0 <= delta && pos + delta < input.len();
    let c: u8 = if inb {
        input[pos + delta]
    } else {
        0
    };
    if c == 0 {
        (delta, sn)
    } else if c == 10 && delta == 0 {
        spec_fp_scan(input, pos, delta + 1, true)
    } else if c == 10 && !sn {
        (delta, sn)
    } else if c == 10 {
        spec_fp_scan(input, pos, delta + 1, sn)
    } else if sn {
        (delta, sn)
    } else {
        spec_fp_scan(input, pos, delta + 1, sn)
    }
}

/// The scan never moves backwards.
pub proof fn lemma_fp_scan_bounds(input: Seq<u8>, pos: int, delta: int, sn: bool)
    requires
        0 <= pos,
        0 <= delta,
    ensures
        spec_fp_scan(input, pos, delta, sn).0 >= delta,
        pos + delta <= input.len() ==> pos + spec_fp_scan(input, pos, delta, sn).0 <= input.len(),
        sn ==> spec_fp_scan(input, pos, delta, sn).1,
        delta >= 1 && !sn ==> !spec_fp_scan(input, pos, delta, sn).1,
    decreases input.len() - pos - delta,
{
    let inb = 0 <= pos && 0 <= delta && pos + delta < input.len();
    let c: u8 = if inb {
        input[pos + delta]
    } else {
        0
    };
    if c == 0 {
    } else if c == 10 && delta == 0 {
        lemma_fp_scan_bounds(input, pos, delta + 1, true);
    } else if c == 10 && !sn {
    } else if c == 10 {
        lemma_fp_scan_bounds(input, pos, delta + 1, sn);
    } else if sn {
    } else {
        lemma_fp_scan_bounds(input, pos, delta + 1, sn);
    }
}

/// What one step of the first pass yields: the new position and the event,
/// or nothing at the end of the input.
pub open spec fn spec_fp_next(input: Seq<u8>, pos: int) -> Option<(int, FirstPassEvent)> {
    if pos >= input.len() || pos < 0 {
        None
    } else {
        let (delta, sn) = spec_fp_scan(input, pos, 0, false);
        let np = pos + delta;
        let ev: FirstPassEvent = if sn {
            if delta == 0 {
                FirstPassEvent::Error(pos as usize, np as usize)
            } else if delta == 1 {
                FirstPassEvent::NewLine(pos as usize, np as usize)
            } else {
                FirstPassEvent::Break(pos as usize, np as usize)
            }
        } else {
            FirstPassEvent::Line(pos as usize, np as usize)
        };
        Some((np, ev))
    }
}

impl<'a> FirstPass<'a> {
    /// The input bytes being scanned.
    pub closed spec fn inp(&self) -> Seq<u8> {
        self.input@
    }

    /// The current position.
    pub closed spec fn pos(&self) -> int {
        self.position as int
    }

    /// The stored length matches the input.
    pub closed spec fn wf(&self) -> bool {
        self.len == self.input@.len()
    }

    /// A scanner over the bytes of `input`, at the start.
    pub fn new(input: &'a str) -> (r: FirstPass<'a>)
        ensures
            r.wf(),
            r.inp() == input.spec_bytes(),
            r.pos() == 0,
    {
        let bytes = input.as_bytes();
        FirstPass { input: bytes, len: bytes.len(), position: 0 }
    }

    /// The byte at `delta` past the position, or zero past the end.
    fn peek(&self, delta: usize) -> (r: u8)
        requires
            self.wf(),
            self.pos() + delta <= self.inp().len(),
        ensures
            r == (if self.pos() + delta < self.inp().len() {
                self.inp()[self.pos() + delta]
            } else {
                0u8
            }),
    {
        let pos = self.position + delta;
        if pos < self.len {
            self.input[pos]
        } else {
            u8::MIN
        }
    }

    /// The next event: a line, a single newline, or a blank-line break, or
    /// nothing once the input is consumed.
    pub fn next(&mut self) -> (r: Option<FirstPassEvent>)
        requires
            old(self).wf(),
            old(self).pos() <= old(self).inp().len(),
        ensures
            final(self).wf(),
            final(self).inp() == old(self).inp(),
            final(self).pos() <= final(self).inp().len(),
            match spec_fp_next(old(self).inp(), old(self).pos()) {
                None => r is None && final(self).pos() == old(self).pos(),
                Some((np, ev)) => r == Some(ev) && final(self).pos() == np,
            },
    {
        if self.position >= self.len {
            return None;
        }
        let ghost inp = self.inp();
        let start = self.position;
        let mut delta: usize = 0;
        let mut starting_newline = false;
        loop
            invariant
                self.wf(),
                inp == self.inp(),
                start == self.pos(),
                start + delta <= inp.len(),
                start < inp.len(),
                spec_fp_scan(inp, start as int, 0, false) == spec_fp_scan(
                    inp,
                    start as int,
                    delta as int,
                    starting_newline,
                ),
            ensures
                self.wf(),
                inp == self.inp(),
                start == self.pos(),
                start + delta <= inp.len(),
                spec_fp_scan(inp, start as int, 0, false) == (delta as int, starting_newline),
            decreases inp.len() - start - delta,
        {
            let c = self.peek(delta);
            if c == 0 {
                proof {
                    assert(spec_fp_scan(inp, start as int, delta as int, starting_newline) == (
                        delta as int,
                        starting_newline,
                    ));
                }
                break ;
            } else if c == 10 {
                if delta == 0 {
                    starting_newline = true;
                } else if !starting_newline {
                    proof {
                        assert(spec_fp_scan(inp, start as int, delta as int, starting_newline)
                            == (delta as int, starting_newline));
                    }
                    break ;
                }
            } else {
                if starting_newline {
                    proof {
                        assert(spec_fp_scan(inp, start as int, delta as int, starting_newline)
                            == (delta as int, starting_newline));
                    }
                    break ;
                }
            }
            delta = delta + 1;
        }
        self.position = start + delta;
        if starting_newline {
            if delta == 0 {
                Some(FirstPassEvent::Error(start, start + delta))
            } else if delta == 1 {
                Some(FirstPassEvent::NewLine(start, start + delta))
            } else {
                Some(FirstPassEvent::Break(start, start + delta))
            }
        } else {
            Some(FirstPassEvent::Line(start, start + delta))
        }
    }
}

} // verus!
