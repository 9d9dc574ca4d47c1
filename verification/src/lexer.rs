//! The line-oriented tokenizer: the input text is cut into lines, the lines
//! are grouped into blocks at blank-line runs, explicit block signatures are
//! recognized on each block's first line, and apostrophe contractions are
//! split out as symbols.

use vstd::prelude::*;
use vstd::string::StrSliceExecFns;
use vstd::string::StringExecFns;
use crate::chars::{count_pred, scan_while, spec_is_word_char, is_word_char, CharPred};
use crate::error::Error;
use crate::options::{spec_lookup, table_view, Options, Symbol};

verus! {

broadcast use vstd::seq::group_seq_axioms;

/// One token of the line-oriented pipeline, from raw lines through block
/// marks and signature marks to final text and symbols.
#[derive(Debug, PartialEq)]
pub enum Token {
    NewLine,
    Eof,
    Unparsed(String),
    BlockStartImplicit,
    BlockEnd,
    BlockStartExplicit,
    SignatureStart(String),
    SignatureEnd,
    Modifier(String),
    ModifierParenOpen,
    ModifierParenClose,
    ModifierSquareOpen,
    ModifierSquareClose,
    ModifierCurlyOpen,
    ModifierCurlyClose,
    ModifierExtended,
    Text(String),
    Symbol(Symbol),
}

/// The view of [`Token`].
pub enum TokenView {
    NewLine,
    Eof,
    Unparsed(Seq<char>),
    BlockStartImplicit,
    BlockEnd,
    BlockStartExplicit,
    SignatureStart(Seq<char>),
    SignatureEnd,
    Modifier(Seq<char>),
    ModifierParenOpen,
    ModifierParenClose,
    ModifierSquareOpen,
    ModifierSquareClose,
    ModifierCurlyOpen,
    ModifierCurlyClose,
    ModifierExtended,
    Text(Seq<char>),
    Symbol(Symbol),
}

impl View for Token {
    type V = TokenView;

    open spec fn view(&self) -> TokenView {
        match self {
            Token::NewLine => TokenView::NewLine,
            Token::Eof => TokenView::Eof,
            Token::Unparsed(s) => TokenView::Unparsed(s@),
            Token::BlockStartImplicit => TokenView::BlockStartImplicit,
            Token::BlockEnd => TokenView::BlockEnd,
            Token::BlockStartExplicit => TokenView::BlockStartExplicit,
            Token::SignatureStart(s) => TokenView::SignatureStart(s@),
            Token::SignatureEnd => TokenView::SignatureEnd,
            Token::Modifier(s) => TokenView::Modifier(s@),
            Token::ModifierParenOpen => TokenView::ModifierParenOpen,
            Token::ModifierParenClose => TokenView::ModifierParenClose,
            Token::ModifierSquareOpen => TokenView::ModifierSquareOpen,
            Token::ModifierSquareClose => TokenView::ModifierSquareClose,
            Token::ModifierCurlyOpen => TokenView::ModifierCurlyOpen,
            Token::ModifierCurlyClose => TokenView::ModifierCurlyClose,
            Token::ModifierExtended => TokenView::ModifierExtended,
            Token::Text(s) => TokenView::Text(s@),
            Token::Symbol(s) => TokenView::Symbol(*s),
        }
    }
}

/// The views of a token sequence.
pub open spec fn toks_view(s: Seq<Token>) -> Seq<TokenView>
    decreases s,
{
    if s.len() == 0 {
        Seq::empty()
    } else {
        toks_view(s.drop_last()).push(s.last()@)
    }
}

pub broadcast proof fn lemma_toks_view_len(s: Seq<Token>)
    ensures
        #[trigger] toks_view(s).len() == s.len(),
    decreases s.len(),
{
    if s.len() > 0 {
        lemma_toks_view_len(s.drop_last());
    }
}

pub broadcast proof fn lemma_toks_view_index(s: Seq<Token>, i: int)
    requires
        0 <= i < s.len(),
    ensures
        #[trigger] toks_view(s)[i] == s[i]@,
    decreases s.len(),
{
    lemma_toks_view_len(s);
    if i < s.len() - 1 {
        lemma_toks_view_len(s.drop_last());
        lemma_toks_view_index(s.drop_last(), i);
    }
}

pub broadcast proof fn lemma_toks_view_push(s: Seq<Token>, t: Token)
    ensures
        #[trigger] toks_view(s.push(t)) == toks_view(s).push(t@),
{
    assert(s.push(t).drop_last() =~= s);
    assert(s.push(t).last() == t);
}

pub proof fn lemma_toks_view_take(s: Seq<Token>, k: int)
    requires
        0 <= k <= s.len(),
    ensures
        toks_view(s.take(k)) == toks_view(s).take(k),
    decreases s.len() - k,
{
    lemma_toks_view_len(s);
    lemma_toks_view_len(s.take(k));
    if k == s.len() {
        assert(s.take(k) =~= s);
        assert(toks_view(s).take(k) =~= toks_view(s));
    } else {
        lemma_toks_view_take(s, k + 1);
        assert(s.take(k + 1).drop_last() =~= s.take(k));
        assert(s.take(k + 1).last() == s[k]);
        assert(toks_view(s.take(k + 1)).drop_last() =~= toks_view(s.take(k)));
        lemma_toks_view_index(s, k);
        assert(toks_view(s).take(k) =~= toks_view(s).take(k + 1).drop_last());
    }
}

/// A queue of the tokens gathered for the block being assembled.
#[derive(Debug)]
pub struct CurrentBlockProcessor {
    backing: Vec<Token>,
}

impl View for CurrentBlockProcessor {
    type V = Seq<TokenView>;

    closed spec fn view(&self) -> Seq<TokenView> {
        toks_view(self.backing@)
    }
}

impl CurrentBlockProcessor {
    /// An empty queue.
    pub fn new() -> (r: CurrentBlockProcessor)
        ensures
            r@ == Seq::<TokenView>::empty(),
    {
        let r = CurrentBlockProcessor { backing: Vec::new() };
        proof {
            assert(r@ =~= Seq::<TokenView>::empty());
        }
        r
    }

    /// Adds a token at the back.
    pub fn push_back(&mut self, token: Token)
        ensures
            final(self)@ == old(self)@.push(token@),
    {
        proof {
            lemma_toks_view_push(self.backing@, token);
        }
        self.backing.push(token);
    }

    /// The token at the back, if any.
    pub fn back(&self) -> (r: Option<&Token>)
        ensures
            match r {
                Some(t) => self@.len() > 0 && t@ == self@.last(),
                None => self@.len() == 0,
            },
    {
        proof {
            lemma_toks_view_len(self.backing@);
            if self.backing@.len() > 0 {
                lemma_toks_view_index(self.backing@, self.backing@.len() - 1);
            }
        }
        if self.backing.len() == 0 {
            None
        } else {
            Some(&self.backing[self.backing.len() - 1])
        }
    }

    /// Removes and returns the token at the front, if any.
    pub fn pop_front(&mut self) -> (r: Option<Token>)
        ensures
            match r {
                Some(t) => old(self)@.len() > 0 && t@ == old(self)@[0] && final(self)@ == old(
                    self,
                )@.drop_first(),
                None => old(self)@.len() == 0 && final(self)@ == old(self)@,
            },
    {
        proof {
            lemma_toks_view_len(self.backing@);
        }
        if self.backing.len() == 0 {
            return None;
        }
        proof {
            lemma_toks_view_index(self.backing@, 0);
            lemma_toks_view_take(self.backing@, 1);
            let pre = self.backing@;
            assert forall|j: int| 0 <= j < pre.len() - 1 implies #[trigger] toks_view(
                pre.remove(0),
            )[j] == toks_view(pre).drop_first()[j] by {
                lemma_toks_view_len(pre.remove(0));
                lemma_toks_view_index(pre.remove(0), j);
                lemma_toks_view_index(pre, j + 1);
                assert(pre.remove(0)[j] == pre[j + 1]);
            }
            lemma_toks_view_len(pre.remove(0));
            assert(toks_view(pre.remove(0)) =~= toks_view(pre).drop_first());
        }
        Some(self.backing.remove(0))
    }

    /// How many tokens the queue holds.
    pub fn len(&self) -> (r: usize)
        ensures
            r == self@.len(),
    {
        proof {
            lemma_toks_view_len(self.backing@);
        }
        self.backing.len()
    }
}

/// What cutting the input into lines appends to `acc`: each line as an
/// unparsed token (empty lines omitted), a newline token per line ending,
/// and a final end-of-input token.
pub open spec fn spec_lines_rec(s: Seq<char>, acc: Seq<TokenView>) -> Seq<TokenView>
    decreases s.len(),
{
    if s.len() == 0 {
        acc.push(TokenView::Eof)
    } else {
        let k = count_pred(s, CharPred::NotChar('\n'));
        if 0 <= k && k < s.len() {
            let acc2 = if k > 0 {
                acc.push(TokenView::Unparsed(s.take(k)))
            } else {
                acc
            };
            spec_lines_rec(s.skip(k + 1), acc2.push(TokenView::NewLine))
        } else {
            acc.push(TokenView::Unparsed(s)).push(TokenView::Eof)
        }
    }
}

pub open spec fn spec_tokenize_lines(s: Seq<char>) -> Seq<TokenView> {
    spec_lines_rec(s, Seq::empty())
}

/// What flushing the gathered block into the result appends: an implicit
/// block-start before a leading line, then the block's tokens in order.
pub open spec fn spec_shove(acc: Seq<TokenView>, block: Seq<TokenView>, j: int) -> Seq<TokenView>
    decreases block.len() - j,
{
    if !(0 <= j && j < block.len()) {
        acc
    } else {
        match block[j] {
            TokenView::NewLine => spec_shove(acc.push(TokenView::NewLine), block, j + 1),
            TokenView::Unparsed(l) => spec_shove(
                (if j == 0 {
                    acc.push(TokenView::BlockStartImplicit)
                } else {
                    acc
                }).push(TokenView::Unparsed(l)),
                block,
                j + 1,
            ),
            _ => spec_shove(acc.push(block[j]), block, j + 1),
        }
    }
}

/// The number of newline tokens at the back of `res`.
pub open spec fn spec_trailing_newlines(res: Seq<TokenView>) -> int
    decreases res.len(),
{
    if res.len() > 0 && res.last() == TokenView::NewLine {
        1 + spec_trailing_newlines(res.drop_last())
    } else {
        0
    }
}

pub open spec fn spec_newlines(m: int) -> Seq<TokenView>
    decreases m,
{
    if m <= 0 {
        Seq::empty()
    } else {
        spec_newlines(m - 1).push(TokenView::NewLine)
    }
}

/// The block-end mark slid in front of the trailing newline run.
pub open spec fn spec_close(res: Seq<TokenView>) -> Seq<TokenView> {
    let m = spec_trailing_newlines(res);
    res.take(res.len() - m).push(TokenView::BlockEnd) + spec_newlines(m)
}

pub proof fn lemma_trailing_newlines_is(s: Seq<TokenView>, m: int)
    requires
        0 <= m <= s.len(),
        forall|j: int| s.len() - m <= j < s.len() ==> s[j] == TokenView::NewLine,
        s.len() - m == 0 || s[s.len() - m - 1] != TokenView::NewLine,
    ensures
        m == spec_trailing_newlines(s),
    decreases m,
{
    if m == 0 {
        if s.len() > 0 {
            assert(s.last() != TokenView::NewLine);
        }
    } else {
        assert(s.last() == TokenView::NewLine);
        assert forall|j: int|
            s.drop_last().len() - (m - 1) <= j < s.drop_last().len() implies s.drop_last()[j]
            == TokenView::NewLine by {
            assert(s[j] == TokenView::NewLine);
        }
        lemma_trailing_newlines_is(s.drop_last(), m - 1);
    }
}

/// What grouping lines into blocks makes of the token stream: blank-line
/// runs separate blocks, each block is flushed with an implicit start and a
/// closing mark placed before its trailing newlines, and the end-of-input
/// token flushes the last block.
pub open spec fn spec_blocks_rec(
    ts: Seq<TokenView>,
    i: int,
    block: Seq<TokenView>,
    acc: Seq<TokenView>,
) -> Seq<TokenView>
    decreases ts.len() - i,
{
    if !(0 <= i && i < ts.len()) {
        acc
    } else {
        match ts[i] {
            TokenView::Unparsed(x) => spec_blocks_rec(
                ts,
                i + 1,
                block.push(TokenView::Unparsed(x)),
                acc,
            ),
            TokenView::Eof => {
                let a2 = spec_shove(acc, block, 0);
                let a3 = if block.len() > 0 {
                    spec_close(a2)
                } else {
                    a2
                };
                a3.push(TokenView::Eof)
            },
            TokenView::NewLine => {
                if block.len() > 0 && block.last() == TokenView::NewLine {
                    let a2 = spec_close(spec_shove(acc, block, 0));
                    spec_blocks_rec(ts, i + 1, Seq::empty(), a2.push(TokenView::NewLine))
                } else if block.len() > 0 {
                    spec_blocks_rec(ts, i + 1, block.push(TokenView::NewLine), acc)
                } else {
                    spec_blocks_rec(ts, i + 1, block, acc.push(TokenView::NewLine))
                }
            },
            _ => spec_blocks_rec(ts, i + 1, block, acc.push(ts[i])),
        }
    }
}

pub open spec fn spec_tokenize_blocks(ts: Seq<TokenView>) -> Seq<TokenView> {
    spec_blocks_rec(ts, 0, Seq::empty(), Seq::empty())
}

/// The explicit signature word at the head of a block's first line: a
/// paragraph, a heading, or a blockquote, with its length.
pub open spec fn spec_sig_word(line: Seq<char>) -> Option<int> {
    if line.len() >= 1 && line[0] == 'p' {
        Some(1)
    } else if line.len() >= 2 && line[0] == 'h' && '1' <= line[1] && line[1] <= '6' {
        Some(2)
    } else if line.len() >= 2 && line[0] == 'b' && line[1] == 'q' {
        Some(2)
    } else {
        None
    }
}

/// A parsed signature line: the signature word, the modifier text before the
/// terminating dot, whether the dot is doubled (an extended block), and the
/// text after the single space that follows.
pub open spec fn spec_signature(line: Seq<char>) -> Option<(Seq<char>, Seq<char>, bool, Seq<char>)> {
    match spec_sig_word(line) {
        None => None,
        Some(sl) => {
            let m = count_pred(line.skip(sl), CharPred::NotChar('.'));
            if !(0 <= m && sl + m < line.len()) {
                None
            } else {
                let dot = sl + m;
                if dot + 2 < line.len() && line[dot + 1] == '.' && line[dot + 2] == ' ' {
                    Some((line.take(sl), line.subrange(sl, dot), true, line.skip(dot + 3)))
                } else if dot + 1 < line.len() && line[dot + 1] == ' ' {
                    Some((line.take(sl), line.subrange(sl, dot), false, line.skip(dot + 2)))
                } else {
                    None
                }
            }
        },
    }
}

pub open spec fn spec_is_bracket(c: char) -> bool {
    c == '(' || c == ')' || c == '[' || c == ']' || c == '{' || c == '}'
}

pub open spec fn spec_bracket_tok(c: char) -> TokenView {
    if c == '(' {
        TokenView::ModifierParenOpen
    } else if c == ')' {
        TokenView::ModifierParenClose
    } else if c == '[' {
        TokenView::ModifierSquareOpen
    } else if c == ']' {
        TokenView::ModifierSquareClose
    } else if c == '{' {
        TokenView::ModifierCurlyOpen
    } else {
        TokenView::ModifierCurlyClose
    }
}

/// What tokenizing the modifier text appends: bracket marks, and the runs of
/// other characters between them (a trailing run with no closing bracket is
/// dropped); `start` is the pending run's first index, or -1.
pub open spec fn spec_mods(mods: Seq<char>, j: int, start: int, acc: Seq<TokenView>) -> Seq<
    TokenView,
>
    decreases mods.len() - j,
{
    if !(0 <= j && j < mods.len()) {
        acc
    } else if spec_is_bracket(mods[j]) {
        let acc2 = if start >= 0 {
            acc.push(TokenView::Modifier(mods.subrange(start, j)))
        } else {
            acc
        };
        spec_mods(mods, j + 1, -1, acc2.push(spec_bracket_tok(mods[j])))
    } else {
        spec_mods(mods, j + 1, if start < 0 {
            j
        } else {
            start
        }, acc)
    }
}

/// What recognizing signatures makes of the stream: on each block's first
/// line a signature match replaces the implicit start with an explicit one
/// followed by the signature tokens; a first-line mark in an impossible
/// place is a lexing error.
pub open spec fn spec_sigs_rec(
    ts: Seq<TokenView>,
    i: int,
    first: bool,
    acc: Seq<TokenView>,
) -> Option<Seq<TokenView>>
    decreases ts.len() - i,
{
    if !(0 <= i && i < ts.len()) {
        Some(acc)
    } else {
        match ts[i] {
            TokenView::NewLine => if first {
                None
            } else {
                spec_sigs_rec(ts, i + 1, false, acc.push(ts[i]))
            },
            TokenView::Eof => if first {
                None
            } else {
                spec_sigs_rec(ts, i + 1, false, acc.push(ts[i]))
            },
            TokenView::BlockEnd => if first {
                None
            } else {
                spec_sigs_rec(ts, i + 1, false, acc.push(ts[i]))
            },
            TokenView::BlockStartImplicit => if first {
                None
            } else {
                spec_sigs_rec(ts, i + 1, true, acc.push(TokenView::BlockStartImplicit))
            },
            TokenView::Unparsed(line) => {
                if first {
                    match spec_signature(line) {
                        Some((sig, mods, ext, inner)) => {
                            if acc.len() > 0 && acc.last() == TokenView::BlockStartImplicit {
                                let acc1 = acc.drop_last().push(TokenView::BlockStartExplicit).push(
                                    TokenView::SignatureStart(sig),
                                );
                                let acc2 = spec_mods(mods, 0, -1, acc1);
                                let acc3 = if ext {
                                    acc2.push(TokenView::ModifierExtended)
                                } else {
                                    acc2
                                };
                                let acc4 = acc3.push(TokenView::SignatureEnd).push(
                                    TokenView::Unparsed(inner),
                                );
                                spec_sigs_rec(ts, i + 1, false, acc4)
                            } else {
                                None
                            }
                        },
                        None => spec_sigs_rec(ts, i + 1, false, acc.push(TokenView::Unparsed(line))),
                    }
                } else {
                    spec_sigs_rec(ts, i + 1, false, acc.push(TokenView::Unparsed(line)))
                }
            },
            _ => None,
        }
    }
}

pub open spec fn spec_tokenize_signatures(ts: Seq<TokenView>) -> Option<Seq<TokenView>> {
    spec_sigs_rec(ts, 0, false, Seq::empty())
}

/// Whether a contraction stands at position `m`: a word character or a
/// closing parenthesis, an apostrophe, and a word character.
pub open spec fn spec_con_at(s: Seq<char>, m: int) -> bool {
    &&& 0 <= m
    &&& m + 2 < s.len()
    &&& (spec_is_word_char(s[m]) || s[m] == ')')
    &&& s[m + 1] == '\''
    &&& spec_is_word_char(s[m + 2])
}

/// The first contraction position at or after `from`, or -1.
pub open spec fn spec_find_con(s: Seq<char>, from: int) -> int
    decreases s.len() - from,
{
    if !(0 <= from && from + 2 < s.len()) {
        -1
    } else if spec_con_at(s, from) {
        from
    } else {
        spec_find_con(s, from + 1)
    }
}

pub proof fn lemma_find_con(s: Seq<char>, from: int)
    requires
        0 <= from,
    ensures
        spec_find_con(s, from) == -1 ==> forall|j: int| from <= j ==> !spec_con_at(s, j),
        spec_find_con(s, from) >= 0 ==> {
            let m = spec_find_con(s, from);
            &&& from <= m
            &&& spec_con_at(s, m)
            &&& forall|j: int| from <= j < m ==> !spec_con_at(s, j)
        },
    decreases s.len() - from,
{
    if !(from + 2 < s.len()) {
        assert forall|j: int| from <= j implies !spec_con_at(s, j) by {}
    } else if spec_con_at(s, from) {
    } else {
        lemma_find_con(s, from + 1);
        if spec_find_con(s, from + 1) == -1 {
            assert forall|j: int| from <= j implies !spec_con_at(s, j) by {
                if j > from {
                    assert(!spec_con_at(s, j));
                }
            }
        }
    }
}

pub proof fn lemma_find_con_is(s: Seq<char>, from: int, m: int)
    requires
        0 <= from <= m,
        spec_con_at(s, m),
        forall|j: int| from <= j < m ==> !spec_con_at(s, j),
    ensures
        spec_find_con(s, from) == m,
    decreases m - from,
{
    if from == m {
    } else {
        lemma_find_con_is(s, from + 1, m);
    }
}

pub proof fn lemma_find_con_none(s: Seq<char>, from: int)
    requires
        0 <= from,
        forall|j: int| from <= j ==> !spec_con_at(s, j),
    ensures
        spec_find_con(s, from) == -1,
    decreases s.len() - from,
{
    if 0 <= from && from + 2 < s.len() {
        lemma_find_con_none(s, from + 1);
    }
}

/// What splitting contractions out of one text run appends: the text around
/// each contraction's apostrophe, with a symbol token in between; the search
/// for the next contraction resumes after the matched word character.
pub open spec fn spec_con_split(s: Seq<char>, from: int, acc: Seq<TokenView>) -> Seq<TokenView>
    decreases s.len(),
{
    let m = spec_find_con(s, from);
    if !(0 <= m && m + 2 < s.len()) {
        acc.push(TokenView::Text(s))
    } else {
        spec_con_split(
            s.skip(m + 2),
            1,
            acc.push(TokenView::Text(s.take(m + 1))).push(TokenView::Symbol(Symbol::Apostrophe)),
        )
    }
}

/// What the final pass makes of the stream: each unparsed run becomes text,
/// with apostrophe contractions split out as symbols when the table resolves
/// the apostrophe; every other token passes through.
pub open spec fn spec_text_rec(
    ts: Seq<TokenView>,
    i: int,
    apos: bool,
    acc: Seq<TokenView>,
) -> Seq<TokenView>
    decreases ts.len() - i,
{
    if !(0 <= i && i < ts.len()) {
        acc
    } else {
        match ts[i] {
            TokenView::Unparsed(t) => spec_text_rec(
                ts,
                i + 1,
                apos,
                if apos {
                    spec_con_split(t, 0, acc)
                } else {
                    acc.push(TokenView::Text(t))
                },
            ),
            _ => spec_text_rec(ts, i + 1, apos, acc.push(ts[i])),
        }
    }
}

pub open spec fn spec_tokenize_text(ts: Seq<TokenView>, apos: bool) -> Seq<TokenView> {
    spec_text_rec(ts, 0, apos, Seq::empty())
}

/// What the whole tokenizer makes of an input, given whether the apostrophe
/// has a substitution.
pub open spec fn spec_tokenize(s: Seq<char>, apos: bool) -> Option<Seq<TokenView>> {
    match spec_tokenize_signatures(spec_tokenize_blocks(spec_tokenize_lines(s))) {
        None => None,
        Some(ts) => Some(spec_tokenize_text(ts, apos)),
    }
}

/// Pushes a token, tracking the view of the sequence.
fn push_tok(v: &mut Vec<Token>, t: Token)
    ensures
        toks_view(final(v)@) == toks_view(old(v)@).push(t@),
{
    proof {
        lemma_toks_view_push(v@, t);
    }
    v.push(t);
}

/// Cuts the input into lines: an unparsed token per non-empty line, a
/// newline token per line ending, and a final end-of-input token.
fn tokenize_lines(input: &str) -> (r: Result<Vec<Token>, Error>)
    ensures
        r matches Ok(v) && toks_view(v@) == spec_tokenize_lines(input@),
{
    let n = input.unicode_len();
    let mut pos: usize = 0;
    let mut out: Vec<Token> = Vec::new();
    proof {
        assert(input@.skip(0) =~= input@);
        assert(toks_view(out@) =~= Seq::<TokenView>::empty());
    }
    loop
        invariant
            pos <= n,
            n == input@.len(),
            spec_lines_rec(input@.skip(pos as int), toks_view(out@)) == spec_tokenize_lines(input@),
        decreases n - pos,
    {
        let ghost rem = input@.skip(pos as int);
        let ghost pre = toks_view(out@);
        if pos == n {
            push_tok(&mut out, Token::Eof);
            proof {
                assert(rem =~= Seq::<char>::empty());
                assert(spec_lines_rec(rem, pre) == pre.push(TokenView::Eof));
            }
            return Ok(out);
        }
        let k = scan_while(input, pos, CharPred::NotChar('\n'));
        proof {
            assert(rem.take(k as int) =~= input@.subrange(pos as int, pos + k));
        }
        if pos + k < n {
            if k > 0 {
                let line = input.substring_char(pos, pos + k);
                push_tok(&mut out, Token::Unparsed(line.to_owned()));
            }
            push_tok(&mut out, Token::NewLine);
            proof {
                assert(rem.skip(k + 1) =~= input@.skip(pos + k + 1));
            }
            pos = pos + k + 1;
        } else {
            let line = input.substring_char(pos, n);
            proof {
                assert(line@ =~= rem);
            }
            push_tok(&mut out, Token::Unparsed(line.to_owned()));
            push_tok(&mut out, Token::Eof);
            proof {
                assert(spec_lines_rec(rem, pre) == pre.push(TokenView::Unparsed(rem)).push(
                    TokenView::Eof,
                ));
            }
            return Ok(out);
        }
    }
}

/// Flushes the gathered block into the result, marking an implicit block
/// start before a leading line; returns how many tokens were flushed.
fn shove_block_into_result(result: &mut Vec<Token>, current_block: &mut CurrentBlockProcessor) -> (
    count: usize)
    ensures
        toks_view(final(result)@) == spec_shove(toks_view(old(result)@), old(current_block)@, 0),
        final(current_block)@ == Seq::<TokenView>::empty(),
        count == old(current_block)@.len(),
{
    let ghost block0 = current_block@;
    let total = current_block.len();
    let mut count: usize = 0;
    proof {
        assert(block0.skip(0) =~= block0);
    }
    loop
        invariant
            count <= total,
            total == block0.len(),
            current_block@ == block0.skip(count as int),
            spec_shove(toks_view(old(result)@), block0, 0) == spec_shove(
                toks_view(result@),
                block0,
                count as int,
            ),
        ensures
            count == block0.len(),
            current_block@ == block0.skip(count as int),
            spec_shove(toks_view(old(result)@), block0, 0) == toks_view(result@),
        decreases total - count,
    {
        let ghost pre = toks_view(result@);
        match current_block.pop_front() {
            None => {
                proof {
                    assert(block0.skip(count as int).len() == 0);
                    assert(spec_shove(pre, block0, count as int) == pre);
                }
                break ;
            },
            Some(wip) => {
                proof {
                    assert(block0.skip(count as int)[0] == block0[count as int]);
                    assert(block0.skip(count as int).drop_first() =~= block0.skip(count + 1));
                }
                match wip {
                    Token::NewLine => {
                        push_tok(result, Token::NewLine);
                    },
                    Token::Unparsed(line) => {
                        if count == 0 {
                            push_tok(result, Token::BlockStartImplicit);
                        }
                        push_tok(result, Token::Unparsed(line));
                    },
                    other => {
                        push_tok(result, other);
                    },
                }
                count = count + 1;
            },
        }
    }
    count
}

/// Slides a block-end mark in front of the trailing newline run.
pub(crate) fn close_block_with_newlines(result: &mut Vec<Token>)
    ensures
        toks_view(final(result)@) == spec_close(toks_view(old(result)@)),
{
    let ghost orig = toks_view(result@);
    let initial_len = result.len();
    let mut newlines_count: usize = 0;
    proof {
        lemma_toks_view_len(result@);
        assert(orig.take(orig.len() - 0) =~= orig);
    }
    loop
        invariant
            newlines_count <= initial_len,
            initial_len == orig.len(),
            toks_view(result@) == orig.take(orig.len() - newlines_count as int),
            forall|j: int|
                orig.len() - newlines_count <= j < orig.len() ==> orig[j] == TokenView::NewLine,
        ensures
            newlines_count == spec_trailing_newlines(orig),
            toks_view(result@) == orig.take(orig.len() - newlines_count as int),
        decreases initial_len - newlines_count,
    {
        proof {
            lemma_toks_view_len(result@);
        }
        let cur_len = result.len();
        let flush = if cur_len == 0 {
            false
        } else {
            matches!(&result[cur_len - 1], Token::NewLine)
        };
        proof {
            if result@.len() > 0 {
                lemma_toks_view_index(result@, result@.len() - 1);
            }
        }
        if !flush {
            proof {
                let m = newlines_count as int;
                if orig.len() - m > 0 {
                    assert(orig.take(orig.len() - m).last() == orig[orig.len() - m - 1]);
                    assert(orig[orig.len() - m - 1] != TokenView::NewLine);
                }
                lemma_trailing_newlines_is(orig, m);
            }
            break ;
        }
        let ghost pre_vec = result@;
        result.pop();
        newlines_count += 1;
        proof {
            assert(result@ =~= pre_vec.drop_last());
            assert(toks_view(pre_vec).drop_last() =~= toks_view(pre_vec.drop_last()));
            assert(orig.take(orig.len() - newlines_count + 1).drop_last() =~= orig.take(
                orig.len() - newlines_count as int,
            ));
            assert(orig[orig.len() - newlines_count as int] == toks_view(pre_vec).last());
        }
    }
    let ghost closed = toks_view(result@);
    push_tok(result, Token::BlockEnd);
    let ghost base = toks_view(result@);
    proof {
        assert(base == closed.push(TokenView::BlockEnd));
        assert(base + spec_newlines(0) =~= base);
    }
    let mut i: usize = 0;
    while i < newlines_count
        invariant
            i <= newlines_count,
            toks_view(result@) == base + spec_newlines(i as int),
        decreases newlines_count - i,
    {
        push_tok(result, Token::NewLine);
        proof {
            assert(base + spec_newlines(i as int + 1) =~= (base + spec_newlines(i as int)).push(
                TokenView::NewLine,
            ));
        }
        i += 1;
    }
    proof {
        assert(toks_view(result@) =~= spec_close(orig));
    }
}

/// Groups the line tokens into blocks at blank-line runs.
fn tokenize_blocks(input: Vec<Token>) -> (r: Result<Vec<Token>, Error>)
    ensures
        r matches Ok(v) && toks_view(v@) == spec_tokenize_blocks(toks_view(input@)),
{
    let ghost tsv = toks_view(input@);
    let mut work = input;
    let mut result: Vec<Token> = Vec::new();
    let mut current_block = CurrentBlockProcessor::new();
    let mut i: usize = 0;
    proof {
        lemma_toks_view_len(work@);
        assert(toks_view(result@) =~= Seq::<TokenView>::empty());
        assert(toks_view(work@) =~= tsv.skip(0));
    }
    let n = work.len();
    while i < n
        invariant
            tsv == toks_view(input@),
            i <= n,
            n == tsv.len(),
            i + work@.len() == n,
            toks_view(work@) == tsv.skip(i as int),
            spec_blocks_rec(tsv, i as int, current_block@, toks_view(result@))
                == spec_tokenize_blocks(tsv),
        decreases n - i,
    {
        proof {
            lemma_toks_view_len(work@);
            lemma_toks_view_index(work@, 0);
            assert(tsv.skip(i as int)[0] == tsv[i as int]);
        }
        let ghost pre_in = work@;
        let ghost block_pre = current_block@;
        let ghost acc_pre = toks_view(result@);
        let t = work.remove(0);
        proof {
            assert(work@ =~= pre_in.drop_first());
            lemma_toks_view_len(work@);
            assert forall|j: int| 0 <= j < work@.len() implies #[trigger] toks_view(work@)[j]
                == toks_view(pre_in).drop_first()[j] by {
                lemma_toks_view_index(work@, j);
                lemma_toks_view_index(pre_in, j + 1);
            }
            assert(toks_view(work@) =~= toks_view(pre_in).drop_first());
            assert(toks_view(pre_in).drop_first() =~= tsv.skip(i as int + 1));
            assert(t@ == tsv[i as int]);
        }
        match t {
            Token::Unparsed(line) => {
                current_block.push_back(Token::Unparsed(line));
            },
            Token::Eof => {
                let count = shove_block_into_result(&mut result, &mut current_block);
                if count > 0 {
                    close_block_with_newlines(&mut result);
                }
                push_tok(&mut result, Token::Eof);
                proof {
                    assert(spec_blocks_rec(tsv, i as int, block_pre, acc_pre) == toks_view(
                        result@,
                    ));
                }
                return Ok(result);
            },
            Token::NewLine => {
                let flush = match current_block.back() {
                    Some(b) => matches!(b, Token::NewLine),
                    None => false,
                };
                let empty_block = current_block.len() == 0;
                if flush {
                    let count = shove_block_into_result(&mut result, &mut current_block);
                    close_block_with_newlines(&mut result);
                    push_tok(&mut result, Token::NewLine);
                } else if !empty_block {
                    current_block.push_back(Token::NewLine);
                } else {
                    push_tok(&mut result, Token::NewLine);
                }
            },
            other => {
                push_tok(&mut result, other);
            },
        }
        i += 1;
    }
    Ok(result)
}

/// Decides whether a modifier character is one of the bracket marks.
fn is_bracket_char(c: char) -> (r: bool)
    ensures
        r == spec_is_bracket(c),
{
    c == '(' || c == ')' || c == '[' || c == ']' || c == '{' || c == '}'
}

/// The token for one bracket mark.
fn bracket_token(c: char) -> (r: Token)
    requires
        spec_is_bracket(c),
    ensures
        r@ == spec_bracket_tok(c),
{
    if c == '(' {
        Token::ModifierParenOpen
    } else if c == ')' {
        Token::ModifierParenClose
    } else if c == '[' {
        Token::ModifierSquareOpen
    } else if c == ']' {
        Token::ModifierSquareClose
    } else if c == '{' {
        Token::ModifierCurlyOpen
    } else {
        Token::ModifierCurlyClose
    }
}

/// Parses a signature line: the signature word length, the position of the
/// terminating dot, whether it is doubled, and where the inner text starts.
fn parse_signature(line: &str) -> (r: Option<(usize, usize, bool, usize)>)
    ensures
        match spec_signature(line@) {
            Some((sig, mods, ext, inner)) => r matches Some(p) && sig == line@.take(p.0 as int)
                && mods == line@.subrange(p.0 as int, p.1 as int) && ext == p.2 && inner
                == line@.skip(p.3 as int) && p.0 <= p.1 && p.1 + 2 <= p.3 && p.3 <= line@.len(),
            None => r is None,
        },
{
    let ln = line.unicode_len();
    let sl: usize = if ln >= 1 && line.get_char(0) == 'p' {
        1
    } else if ln >= 2 && line.get_char(0) == 'h' && {
        let u = line.get_char(1) as u32;
        49 <= u && u <= 54
    } {
        2
    } else if ln >= 2 && line.get_char(0) == 'b' && line.get_char(1) == 'q' {
        2
    } else {
        return None;
    };
    let m = scan_while(line, sl, CharPred::NotChar('.'));
    let dot = sl + m;
    if dot >= ln {
        return None;
    }
    if ln - dot > 2 && line.get_char(dot + 1) == '.' && line.get_char(dot + 2) == ' ' {
        Some((sl, dot, true, dot + 3))
    } else if ln - dot > 1 && line.get_char(dot + 1) == ' ' {
        Some((sl, dot, false, dot + 2))
    } else {
        None
    }
}

/// Recognizes explicit block signatures on each block's first line.
fn tokenize_signatures(input: Vec<Token>) -> (r: Result<Vec<Token>, Error>)
    ensures
        match spec_tokenize_signatures(toks_view(input@)) {
            Some(out) => r matches Ok(v) && toks_view(v@) == out,
            None => r is Err,
        },
{
    let ghost tsv = toks_view(input@);
    let mut work = input;
    let mut result: Vec<Token> = Vec::new();
    let mut is_first_line = false;
    let mut i: usize = 0;
    proof {
        lemma_toks_view_len(work@);
        assert(toks_view(result@) =~= Seq::<TokenView>::empty());
        assert(toks_view(work@) =~= tsv.skip(0));
    }
    let n = work.len();
    while i < n
        invariant
            tsv == toks_view(input@),
            i <= n,
            n == tsv.len(),
            i + work@.len() == n,
            toks_view(work@) == tsv.skip(i as int),
            spec_sigs_rec(tsv, i as int, is_first_line, toks_view(result@))
                == spec_tokenize_signatures(tsv),
        decreases n - i,
    {
        proof {
            lemma_toks_view_len(work@);
            lemma_toks_view_index(work@, 0);
            assert(tsv.skip(i as int)[0] == tsv[i as int]);
        }
        let ghost pre_in = work@;
        let t = work.remove(0);
        proof {
            assert(work@ =~= pre_in.drop_first());
            lemma_toks_view_len(work@);
            assert forall|j: int| 0 <= j < work@.len() implies #[trigger] toks_view(work@)[j]
                == toks_view(pre_in).drop_first()[j] by {
                lemma_toks_view_index(work@, j);
                lemma_toks_view_index(pre_in, j + 1);
            }
            assert(toks_view(work@) =~= toks_view(pre_in).drop_first());
            assert(toks_view(pre_in).drop_first() =~= tsv.skip(i as int + 1));
            assert(t@ == tsv[i as int]);
        }
        match t {
            Token::NewLine => {
                if is_first_line {
                    return Err(Error::LexerError);
                }
                push_tok(&mut result, Token::NewLine);
            },
            Token::Eof => {
                if is_first_line {
                    return Err(Error::LexerError);
                }
                push_tok(&mut result, Token::Eof);
            },
            Token::BlockEnd => {
                if is_first_line {
                    return Err(Error::LexerError);
                }
                push_tok(&mut result, Token::BlockEnd);
            },
            Token::BlockStartImplicit => {
                if is_first_line {
                    return Err(Error::LexerError);
                }
                is_first_line = true;
                push_tok(&mut result, Token::BlockStartImplicit);
            },
            Token::Unparsed(line) => {
                let sig = if is_first_line {
                    parse_signature(line.as_str())
                } else {
                    None
                };
                match sig {
                    Some((sl, dot, ext, inner_start)) => {
                        let ghost acc_v = toks_view(result@);
                        let ghost pre_vec = result@;
                        proof {
                            lemma_toks_view_len(result@);
                            if result@.len() > 0 {
                                lemma_toks_view_index(result@, result@.len() - 1);
                            }
                        }
                        let popped_ok = match result.pop() {
                            Some(Token::BlockStartImplicit) => true,
                            _ => false,
                        };
                        if !popped_ok {
                            return Err(Error::LexerError);
                        }
                        proof {
                            assert(acc_v.len() > 0 && acc_v.last()
                                == TokenView::BlockStartImplicit);
                            assert(result@ =~= pre_vec.drop_last());
                            assert(toks_view(result@) =~= acc_v.drop_last());
                        }
                        push_tok(&mut result, Token::BlockStartExplicit);
                        let word = line.substring_char(0, sl);
                        push_tok(&mut result, Token::SignatureStart(word.to_owned()));
                        let ghost modsv = line@.subrange(sl as int, dot as int);
                        let ghost v1 = toks_view(result@);
                        let mut j: usize = 0;
                        let mut start: Option<usize> = None;
                        let modn = dot - sl;
                        proof {
                            assert(line@.take(sl as int) =~= word@);
                        }
                        while j < modn
                            invariant
                                j <= modn,
                                modn == modsv.len(),
                                modsv == line@.subrange(sl as int, dot as int),
                                sl + modn <= line@.len(),
                                dot == sl + modn,
                                match start {
                                    Some(st) => st < j,
                                    None => true,
                                },
                                spec_mods(
                                    modsv,
                                    j as int,
                                    match start {
                                        Some(st) => st as int,
                                        None => -1,
                                    },
                                    toks_view(result@),
                                ) == spec_mods(modsv, 0, -1, v1),
                            decreases modn - j,
                        {
                            let c = line.get_char(sl + j);
                            proof {
                                assert(modsv[j as int] == line@[sl + j]);
                            }
                            if is_bracket_char(c) {
                                match start {
                                    Some(st) => {
                                        let sub = line.substring_char(sl + st, sl + j);
                                        proof {
                                            assert(sub@ =~= modsv.subrange(st as int, j as int));
                                        }
                                        push_tok(&mut result, Token::Modifier(sub.to_owned()));
                                        start = None;
                                    },
                                    None => {},
                                }
                                push_tok(&mut result, bracket_token(c));
                                start = None;
                            } else {
                                if start.is_none() {
                                    start = Some(j);
                                }
                            }
                            j += 1;
                        }
                        if ext {
                            push_tok(&mut result, Token::ModifierExtended);
                        }
                        push_tok(&mut result, Token::SignatureEnd);
                        let inner = line.substring_char(inner_start, line.unicode_len());
                        proof {
                            assert(inner@ =~= line@.skip(inner_start as int));
                        }
                        push_tok(&mut result, Token::Unparsed(inner.to_owned()));
                        is_first_line = false;
                    },
                    None => {
                        is_first_line = false;
                        push_tok(&mut result, Token::Unparsed(line));
                    },
                }
            },
            _ => {
                return Err(Error::LexerError);
            },
        }
        i += 1;
    }
    Ok(result)
}

/// The position of the first contraction at or after `from`.
fn find_con(s: &str, from: usize) -> (r: Option<usize>)
    requires
        from <= s@.len(),
    ensures
        match r {
            Some(m) => m == spec_find_con(s@, from as int) && spec_con_at(s@, m as int),
            None => spec_find_con(s@, from as int) == -1,
        },
{
    let n = s.unicode_len();
    let mut j: usize = from;
    while n - j > 2
        invariant
            from <= j <= n,
            n == s@.len(),
            forall|t: int| from <= t < j ==> !spec_con_at(s@, t),
        decreases n - j,
    {
        let c0 = s.get_char(j);
        let c1 = s.get_char(j + 1);
        let c2 = s.get_char(j + 2);
        if (is_word_char(c0) || c0 == ')') && c1 == '\'' && is_word_char(c2) {
            proof {
                lemma_find_con_is(s@, from as int, j as int);
            }
            return Some(j);
        }
        j += 1;
    }
    proof {
        assert forall|t: int| from <= t implies !spec_con_at(s@, t) by {
            if t < j {
            } else {
                assert(!(t + 2 < s@.len()));
            }
        }
        lemma_find_con_none(s@, from as int);
    }
    None
}

/// Splits the contractions out of one text run, pushing the text pieces and
/// apostrophe symbols.
fn push_contractions(s: &str, from: usize, out: &mut Vec<Token>)
    requires
        from <= s@.len(),
    ensures
        toks_view(final(out)@) == spec_con_split(s@, from as int, toks_view(old(out)@)),
    decreases s@.len(),
{
    let n = s.unicode_len();
    match find_con(s, from) {
        None => {
            push_tok(out, Token::Text(s.to_owned()));
        },
        Some(m) => {
            let seg = s.substring_char(0, m + 1);
            proof {
                assert(seg@ =~= s@.take(m + 1));
            }
            push_tok(out, Token::Text(seg.to_owned()));
            push_tok(out, Token::Symbol(Symbol::Apostrophe));
            let rest = s.substring_char(m + 2, n);
            proof {
                assert(rest@ =~= s@.skip(m + 2));
            }
            push_contractions(rest, 1, out);
        },
    }
}

/// The final pass: unparsed runs become text, with apostrophe contractions
/// split out as symbols when the table resolves the apostrophe.
fn tokenize_text(input: Vec<Token>, options: &Options) -> (r: Result<Vec<Token>, Error>)
    ensures
        r matches Ok(v) && toks_view(v@) == spec_tokenize_text(
            toks_view(input@),
            spec_lookup(table_view(options.symbols@), Symbol::Apostrophe) is Some,
        ),
{
    let ghost tsv = toks_view(input@);
    let apos = options.has_symbol(Symbol::Apostrophe);
    let mut work = input;
    let mut result: Vec<Token> = Vec::new();
    let mut i: usize = 0;
    proof {
        lemma_toks_view_len(work@);
        assert(toks_view(result@) =~= Seq::<TokenView>::empty());
        assert(toks_view(work@) =~= tsv.skip(0));
    }
    let n = work.len();
    while i < n
        invariant
            tsv == toks_view(input@),
            i <= n,
            n == tsv.len(),
            i + work@.len() == n,
            toks_view(work@) == tsv.skip(i as int),
            apos == (spec_lookup(table_view(options.symbols@), Symbol::Apostrophe) is Some),
            spec_text_rec(tsv, i as int, apos, toks_view(result@)) == spec_tokenize_text(
                tsv,
                apos,
            ),
        decreases n - i,
    {
        proof {
            lemma_toks_view_len(work@);
            lemma_toks_view_index(work@, 0);
            assert(tsv.skip(i as int)[0] == tsv[i as int]);
        }
        let ghost pre_in = work@;
        let t = work.remove(0);
        proof {
            assert(work@ =~= pre_in.drop_first());
            lemma_toks_view_len(work@);
            assert forall|j: int| 0 <= j < work@.len() implies #[trigger] toks_view(work@)[j]
                == toks_view(pre_in).drop_first()[j] by {
                lemma_toks_view_index(work@, j);
                lemma_toks_view_index(pre_in, j + 1);
            }
            assert(toks_view(work@) =~= toks_view(pre_in).drop_first());
            assert(toks_view(pre_in).drop_first() =~= tsv.skip(i as int + 1));
            assert(t@ == tsv[i as int]);
        }
        match t {
            Token::Unparsed(text) => {
                if apos {
                    push_contractions(text.as_str(), 0, &mut result);
                } else {
                    push_tok(&mut result, Token::Text(text));
                }
            },
            other => {
                push_tok(&mut result, other);
            },
        }
        i += 1;
    }
    Ok(result)
}

/// Tokenizes a whole input: lines, blocks, signatures, then text and
/// symbols.
pub fn tokenize(input: &str, options: &Options) -> (r: Result<Vec<Token>, Error>)
    ensures
        match spec_tokenize(
            input@,
            spec_lookup(table_view(options.symbols@), Symbol::Apostrophe) is Some,
        ) {
            Some(out) => r matches Ok(v) && toks_view(v@) == out,
            None => r is Err,
        },
{
    let lined = tokenize_lines(input)?;
    let blocked = tokenize_blocks(lined)?;
    let signed = match tokenize_signatures(blocked) {
        Ok(v) => v,
        Err(e) => {
            return Err(e);
        },
    };
    tokenize_text(signed, options)
}

} // verus!