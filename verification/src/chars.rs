//! Character classification and small string utilities.
//!
//! The Unicode character classes used by the tokenizers are those of std's
//! `char` methods; their full definitions span the Unicode tables, so each
//! gets an abstract name here and the contracts of the tokenizers are stated
//! over those names.

use vstd::prelude::*;
use vstd::string::StrSliceExecFns;

verus! {

broadcast use vstd::seq::group_seq_axioms;

pub uninterp spec fn char_alphabetic(c: char) -> bool;

pub uninterp spec fn char_uppercase(c: char) -> bool;

pub uninterp spec fn char_alphanumeric(c: char) -> bool;

pub uninterp spec fn char_control(c: char) -> bool;

/// Relies on char::is_alphabetic: whether a character is in the Unicode
/// Alphabetic class; the result depends on the character alone.
pub assume_specification[ char::is_alphabetic ](c: char) -> (r: bool)
    ensures
        r == char_alphabetic(c),
;

/// Relies on char::is_uppercase: whether a character is in the Unicode
/// Uppercase class; the result depends on the character alone.
pub assume_specification[ char::is_uppercase ](c: char) -> (r: bool)
    ensures
        r == char_uppercase(c),
;

/// Relies on char::is_alphanumeric: whether a character is in the Unicode
/// Alphabetic class or one of its number classes; the result depends on the
/// character alone.
pub assume_specification[ char::is_alphanumeric ](c: char) -> (r: bool)
    ensures
        r == char_alphanumeric(c),
;

/// Relies on char::is_control: whether a character is in the Unicode control
/// class; the result depends on the character alone.
pub assume_specification[ char::is_control ](c: char) -> (r: bool)
    ensures
        r == char_control(c),
;

/// An ASCII decimal digit.
pub open spec fn spec_is_digit(c: char) -> bool {
    48 <= (c as u32) <= 57
}

/// An ASCII decimal digit, decided without consulting Unicode tables.
pub fn is_digit_char(c: char) -> (r: bool)
    ensures
        r == spec_is_digit(c),
{
    let u = c as u32;
    48 <= u && u <= 57
}

/// A word character of the contraction pattern: alphanumeric or underscore.
pub open spec fn spec_is_word_char(c: char) -> bool {
    char_alphanumeric(c) || c == '_'
}

pub fn is_word_char(c: char) -> (r: bool)
    ensures
        r == spec_is_word_char(c),
{
    c.is_alphanumeric() || c == '_'
}

/// The character classes the scanners select on.
#[derive(Clone, Copy)]
pub enum CharPred {
    /// Not a control character and not a closing parenthesis.
    AttrParen,
    /// Not a control character and not a closing brace.
    AttrBrace,
    /// Anything but the given character.
    NotChar(char),
    /// A Unicode uppercase letter.
    Uppercase,
    /// A Unicode alphabetic character.
    Alphabetic,
    /// An ASCII decimal digit.
    Digit,
    /// A space character.
    Space,
    /// A character a link target may contain.
    Url,
}

/// A character a link target may contain: letters, digits, and a few
/// punctuation marks.
pub open spec fn spec_is_url_char(c: char) -> bool {
    ('a' <= c && c <= 'z') || ('A' <= c && c <= 'Z') || ('0' <= c && c <= '9') || c == ':' || c
        == '/' || c == '.' || c == '?' || c == '&' || c == '%'
}

pub open spec fn spec_pred(kind: CharPred, c: char) -> bool {
    match kind {
        CharPred::AttrParen => !char_control(c) && c != ')',
        CharPred::AttrBrace => !char_control(c) && c != '}',
        CharPred::NotChar(x) => c != x,
        CharPred::Uppercase => char_uppercase(c),
        CharPred::Alphabetic => char_alphabetic(c),
        CharPred::Digit => spec_is_digit(c),
        CharPred::Space => c == ' ',
        CharPred::Url => spec_is_url_char(c),
    }
}

pub fn eval_pred(kind: CharPred, c: char) -> (r: bool)
    ensures
        r == spec_pred(kind, c),
{
    match kind {
        CharPred::AttrParen => !c.is_control() && c != ')',
        CharPred::AttrBrace => !c.is_control() && c != '}',
        CharPred::NotChar(x) => c != x,
        CharPred::Uppercase => c.is_uppercase(),
        CharPred::Alphabetic => c.is_alphabetic(),
        CharPred::Digit => is_digit_char(c),
        CharPred::Space => c == ' ',
        CharPred::Url => {
            let u = c as u32;
            (97 <= u && u <= 122) || (65 <= u && u <= 90) || (48 <= u && u <= 57) || c == ':' || c
                == '/' || c == '.' || c == '?' || c == '&' || c == '%'
        },
    }
}

/// The length of the longest prefix of `s` whose characters are all of
/// class `kind`.
pub open spec fn count_pred(s: Seq<char>, kind: CharPred) -> int
    decreases s.len(),
{
    if s.len() == 0 || !spec_pred(kind, s[0]) {
        0
    } else {
        1 + count_pred(s.drop_first(), kind)
    }
}

pub proof fn lemma_count_pred(s: Seq<char>, kind: CharPred)
    ensures
        0 <= count_pred(s, kind) <= s.len(),
        forall|j: int| 0 <= j < count_pred(s, kind) ==> spec_pred(kind, s[j]),
        count_pred(s, kind) < s.len() ==> !spec_pred(kind, s[count_pred(s, kind)]),
    decreases s.len(),
{
    if s.len() > 0 && spec_pred(kind, s[0]) {
        lemma_count_pred(s.drop_first(), kind);
        assert forall|j: int| 0 <= j < count_pred(s, kind) implies spec_pred(kind, s[j]) by {
            if j > 0 {
                assert(spec_pred(kind, s.drop_first()[j - 1]));
            }
        }
    }
}

/// The characterization of `count_pred`: a prefix length whose characters
/// are all of class `kind`, bounded by a failing character or the end, is
/// unique.
pub proof fn lemma_count_pred_is(s: Seq<char>, kind: CharPred, k: int)
    requires
        0 <= k <= s.len(),
        forall|j: int| 0 <= j < k ==> spec_pred(kind, s[j]),
        k < s.len() ==> !spec_pred(kind, s[k]),
    ensures
        k == count_pred(s, kind),
    decreases s.len(),
{
    if k == 0 {
    } else {
        assert(spec_pred(kind, s[0]));
        assert forall|j: int| 0 <= j < k - 1 implies spec_pred(kind, s.drop_first()[j]) by {
            assert(spec_pred(kind, s[j + 1]));
        }
        lemma_count_pred_is(s.drop_first(), kind, k - 1);
    }
}

/// The length of the run of characters of class `kind` in `s` starting at
/// `from`.
pub fn scan_while(s: &str, from: usize, kind: CharPred) -> (k: usize)
    requires
        from <= s@.len(),
    ensures
        from + k <= s@.len(),
        k == count_pred(s@.skip(from as int), kind),
{
    let n = s.unicode_len();
    let mut i: usize = from;
    while i < n
        invariant
            from <= i <= n,
            n == s@.len(),
            forall|j: int| from <= j < i ==> spec_pred(kind, s@[j]),
        ensures
            from <= i <= n,
            n == s@.len(),
            forall|j: int| from <= j < i ==> spec_pred(kind, s@[j]),
            i < n ==> !spec_pred(kind, s@[i as int]),
        decreases n - i,
    {
        if !eval_pred(kind, s.get_char(i)) {
            break ;
        }
        i += 1;
    }
    proof {
        let rest = s@.skip(from as int);
        assert forall|j: int| 0 <= j < i - from implies spec_pred(kind, rest[j]) by {
            assert(spec_pred(kind, s@[from + j]));
        }
        lemma_count_pred_is(rest, kind, i - from);
    }
    i - from
}

/// The index of the first occurrence of the two-character pattern `ab` in
/// `s`, or -1 when there is none.
pub open spec fn find2(s: Seq<char>, a: char, b: char) -> int
    decreases s.len(),
{
    if s.len() < 2 {
        -1
    } else if s[0] == a && s[1] == b {
        0
    } else {
        let r = find2(s.drop_first(), a, b);
        if r < 0 {
            -1
        } else {
            1 + r
        }
    }
}

pub proof fn lemma_find2(s: Seq<char>, a: char, b: char)
    ensures
        find2(s, a, b) == -1 ==> forall|i: int|
            0 <= i && i + 1 < s.len() ==> !((#[trigger] s[i]) == a && s[i + 1] == b),
        find2(s, a, b) >= 0 ==> {
            let k = find2(s, a, b);
            &&& k + 1 < s.len()
            &&& s[k] == a
            &&& s[k + 1] == b
            &&& forall|i: int| 0 <= i < k ==> !((#[trigger] s[i]) == a && s[i + 1] == b)
        },
    decreases s.len(),
{
    if s.len() < 2 {
    } else if s[0] == a && s[1] == b {
    } else {
        lemma_find2(s.drop_first(), a, b);
        let r = find2(s.drop_first(), a, b);
        if r == -1 {
            assert forall|i: int| 0 <= i && i + 1 < s.len() implies !((#[trigger] s[i]) == a && s[i + 1] == b) by {
                if i > 0 {
                    assert(!(s.drop_first()[i - 1] == a && s.drop_first()[i] == b));
                }
            }
        } else {
            assert(s.drop_first()[r] == a && s.drop_first()[r + 1] == b);
            assert forall|i: int| 0 <= i < r + 1 implies !((#[trigger] s[i]) == a && s[i + 1] == b) by {
                if i > 0 {
                    assert(!(s.drop_first()[i - 1] == a && s.drop_first()[i] == b));
                }
            }
        }
    }
}

/// The characterization of `find2`: the first match position is unique.
pub proof fn lemma_find2_is(s: Seq<char>, a: char, b: char, k: int)
    requires
        0 <= k,
        k + 1 < s.len(),
        s[k] == a,
        s[k + 1] == b,
        forall|i: int| 0 <= i < k ==> !((#[trigger] s[i]) == a && s[i + 1] == b),
    ensures
        find2(s, a, b) == k,
    decreases s.len(),
{
    if k == 0 {
    } else {
        assert forall|i: int| 0 <= i < k - 1 implies !((#[trigger] s.drop_first()[i]) == a
            && s.drop_first()[i + 1] == b) by {
            assert(!(s[i + 1] == a && s[i + 2] == b));
        }
        assert(s.drop_first()[k - 1] == a && s.drop_first()[k] == b);
        lemma_find2_is(s.drop_first(), a, b, k - 1);
        assert(!(s[0] == a && s[1] == b));
    }
}

/// There is no occurrence of the pattern: `find2` comes back empty.
pub proof fn lemma_find2_none(s: Seq<char>, a: char, b: char)
    requires
        forall|i: int| 0 <= i && i + 1 < s.len() ==> !((#[trigger] s[i]) == a && s[i + 1] == b),
    ensures
        find2(s, a, b) == -1,
    decreases s.len(),
{
    if s.len() >= 2 {
        assert(!(s[0] == a && s[1] == b));
        assert forall|i: int| 0 <= i && i + 1 < s.drop_first().len() implies !((
        #[trigger] s.drop_first()[i]) == a && s.drop_first()[i + 1] == b) by {
            assert(!(s[i + 1] == a && s[i + 2] == b));
        }
        lemma_find2_none(s.drop_first(), a, b);
    }
}

/// The position of the first occurrence of the two-character pattern `ab` in
/// `s` at or after `from`, as an offset from `from`.
pub fn find_two(s: &str, from: usize, a: char, b: char) -> (r: Option<usize>)
    requires
        from <= s@.len(),
    ensures
        match r {
            Some(k) => k == find2(s@.skip(from as int), a, b),
            None => find2(s@.skip(from as int), a, b) == -1,
        },
{
    let n = s.unicode_len();
    let ghost rest = s@.skip(from as int);
    let mut j: usize = from;
    while n - j > 1
        invariant
            from <= j,
            j <= n,
            n == s@.len(),
            rest == s@.skip(from as int),
            forall|t: int| from <= t && t + 1 < j + 1 ==> !((#[trigger] s@[t]) == a && s@[t + 1] == b),
        decreases n - j,
    {
        if s.get_char(j) == a && s.get_char(j + 1) == b {
            proof {
                assert(rest[j - from] == a && rest[j - from + 1] == b);
                assert forall|i: int| 0 <= i < j - from implies !((#[trigger] rest[i]) == a && rest[i + 1]
                    == b) by {
                    assert(!(s@[from + i] == a && s@[from + i + 1] == b));
                }
                lemma_find2_is(rest, a, b, j - from);
            }
            return Some(j - from);
        }
        j += 1;
    }
    proof {
        assert forall|i: int| 0 <= i && i + 1 < rest.len() implies !((#[trigger] rest[i]) == a
            && rest[i + 1] == b) by {
            assert(!(s@[from + i] == a && s@[from + i + 1] == b));
        }
        lemma_find2_none(rest, a, b);
    }
    None
}

/// Whether two string slices hold the same characters.
pub fn str_eq(a: &str, b: &str) -> (r: bool)
    ensures
        r == (a@ == b@),
{
    let n = a.unicode_len();
    let m = b.unicode_len();
    if n != m {
        proof {
            assert(a@ != b@) by {
                assert(a@.len() != b@.len());
            }
        }
        return false;
    }
    let mut i: usize = 0;
    while i < n
        invariant
            n == a@.len(),
            n == b@.len(),
            i <= n,
            forall|j: int| 0 <= j < i ==> a@[j] == b@[j],
        decreases n - i,
    {
        if a.get_char(i) != b.get_char(i) {
            return false;
        }
        i += 1;
    }
    proof {
        assert(a@ =~= b@);
    }
    true
}

} // verus!
