//! Character classes, runs of one class, and fixed tokens.

use crate::source::Source;
use vstd::prelude::*;

verus! {

/// The sets of characters that the grammar distinguishes.
#[derive(Debug, Clone, Copy, PartialEq, Eq)]
pub enum CharClass {
    /// Space, tab and carriage return.
    Blank,
    /// What may stand between fragments: a blank or a line feed.
    Trivia,
    /// What a name is made of: ASCII letters, `_` and `-`.
    Symbol,
    /// `0` to `9`.
    Decimal,
    /// `0` to `9`, `a` to `f` and `A` to `F`.
    Hex,
    /// `0` and `1`.
    Binary,
    /// Everything but a line feed.
    CommentText,
}

/// Space, tab or carriage return.
pub open spec fn is_blank(c: char) -> bool {
    c == ' ' || c == '\t' || c == '\r'
}

/// An ASCII letter in lower case.
pub open spec fn is_lower(c: char) -> bool {
    'a' <= c && c <= 'z'
}

/// An ASCII letter in upper case.
pub open spec fn is_upper(c: char) -> bool {
    'A' <= c && c <= 'Z'
}

/// `0` to `9`.
pub open spec fn is_decimal_digit(c: char) -> bool {
    '0' <= c && c <= '9'
}

/// `0` to `9`, `a` to `f` or `A` to `F`.
pub open spec fn is_hex_digit(c: char) -> bool {
    is_decimal_digit(c) || ('a' <= c && c <= 'f') || ('A' <= c && c <= 'F')
}

impl CharClass {
    /// Whether `c` belongs to the class.
    pub open spec fn contains(self, c: char) -> bool {
        match self {
            CharClass::Blank => is_blank(c),
            CharClass::Trivia => is_blank(c) || c == '\n',
            CharClass::Symbol => is_lower(c) || is_upper(c) || c == '_' || c == '-',
            CharClass::Decimal => is_decimal_digit(c),
            CharClass::Hex => is_hex_digit(c),
            CharClass::Binary => c == '0' || c == '1',
            CharClass::CommentText => c != '\n',
        }
    }

    /// Decides whether `c` belongs to the class.
    pub fn has(self, c: char) -> (b: bool)
        ensures
            b == self.contains(c),
    {
        match self {
            CharClass::Blank => c == ' ' || c == '\t' || c == '\r',
            CharClass::Trivia => c == ' ' || c == '\t' || c == '\r' || c == '\n',
            CharClass::Symbol => ('a' <= c && c <= 'z') || ('A' <= c && c <= 'Z') || c == '_'
                || c == '-',
            CharClass::Decimal => '0' <= c && c <= '9',
            CharClass::Hex => ('0' <= c && c <= '9') || ('a' <= c && c <= 'f') || ('A' <= c && c
                <= 'F'),
            CharClass::Binary => c == '0' || c == '1',
            CharClass::CommentText => c != '\n',
        }
    }
}

/// Where the longest run of characters of `class` that starts at `pos` ends.
/// It is `pos` itself where no character of the class stands at `pos`.
pub open spec fn run_end(s: Seq<char>, pos: int, class: CharClass) -> int
    decreases s.len() - pos,
{
    if 0 <= pos < s.len() && class.contains(s[pos]) {
        run_end(s, pos + 1, class)
    } else {
        pos
    }
}

/// A run ends inside the input, at or after its start.
pub proof fn lemma_run_end_bounds(s: Seq<char>, pos: int, class: CharClass)
    ensures
        pos <= run_end(s, pos, class),
        0 <= pos <= s.len() ==> run_end(s, pos, class) <= s.len(),
        !(0 <= pos < s.len()) ==> run_end(s, pos, class) == pos,
    decreases s.len() - pos,
{
    if 0 <= pos < s.len() && class.contains(s[pos]) {
        lemma_run_end_bounds(s, pos + 1, class);
    }
}

/// Every character of a run is of the class, and the character after it,
/// if there is one, is not.
pub proof fn lemma_run_end_maximal(s: Seq<char>, pos: int, class: CharClass)
    requires
        0 <= pos,
    ensures
        forall|i: int| pos <= i < run_end(s, pos, class) ==> class.contains(#[trigger] s[i]),
        run_end(s, pos, class) < s.len() ==> !class.contains(s[run_end(s, pos, class)]),
    decreases s.len() - pos,
{
    if pos < s.len() && class.contains(s[pos]) {
        lemma_run_end_maximal(s, pos + 1, class);
    }
}

/// A stretch of characters of the class that cannot be extended is the run.
pub proof fn lemma_run_end_is(s: Seq<char>, pos: int, end: int, class: CharClass)
    requires
        0 <= pos <= end <= s.len(),
        forall|i: int| pos <= i < end ==> class.contains(#[trigger] s[i]),
        end < s.len() ==> !class.contains(s[end]),
    ensures
        run_end(s, pos, class) == end,
    decreases end - pos,
{
    if pos < end {
        lemma_run_end_is(s, pos + 1, end, class);
    }
}

/// A run that is entered after some of its characters ends where it would
/// have ended.
pub proof fn lemma_run_end_resumes(s: Seq<char>, pos: int, mid: int, class: CharClass)
    requires
        0 <= pos <= mid <= s.len(),
        forall|i: int| pos <= i < mid ==> class.contains(#[trigger] s[i]),
    ensures
        run_end(s, pos, class) == run_end(s, mid, class),
    decreases mid - pos,
{
    if pos < mid {
        lemma_run_end_resumes(s, pos + 1, mid, class);
    }
}

/// Finds the end of the run of `class` that starts at `pos`.
pub fn scan(src: &Source, pos: usize, class: CharClass) -> (end: usize)
    ensures
        end as int == run_end(src@, pos as int, class),
{
    let n: usize = src.len();
    if pos >= n {
        proof {
            lemma_run_end_bounds(src@, pos as int, class);
        }
        return pos;
    }
    let mut i: usize = pos;
    while i < n && class.has(src.char_at(i))
        invariant
            n == src@.len(),
            pos <= i <= n,
            forall|j: int| pos <= j < i ==> class.contains(#[trigger] src@[j]),
        decreases n - i,
    {
        i += 1;
    }
    proof {
        lemma_run_end_is(src@, pos as int, i as int, class);
    }
    i
}

/// Whether two characters are equal once the case of ASCII letters is
/// set aside.
pub open spec fn same_ignoring_case(a: char, b: char) -> bool {
    a == b || (is_lower(a) && is_upper(b) && a as u32 == b as u32 + 32) || (is_upper(a)
        && is_lower(b) && a as u32 + 32 == b as u32)
}

/// Decides [`same_ignoring_case`].
pub fn eq_ignoring_case(a: char, b: char) -> (r: bool)
    ensures
        r == same_ignoring_case(a, b),
{
    if a == b {
        true
    } else if 'a' <= a && a <= 'z' && 'A' <= b && b <= 'Z' {
        a as u32 == b as u32 + 32
    } else if 'A' <= a && a <= 'Z' && 'a' <= b && b <= 'z' {
        a as u32 + 32 == b as u32
    } else {
        false
    }
}

/// Whether the characters of `tag` stand at `pos`, one for one.
pub open spec fn has_tag(s: Seq<char>, pos: int, tag: Seq<char>) -> bool {
    &&& 0 <= pos
    &&& pos + tag.len() <= s.len()
    &&& forall|i: int| 0 <= i < tag.len() ==> s[pos + i] == #[trigger] tag[i]
}

/// Whether the characters of `tag` stand at `pos`, in either case.
pub open spec fn has_tag_no_case(s: Seq<char>, pos: int, tag: Seq<char>) -> bool {
    &&& 0 <= pos
    &&& pos + tag.len() <= s.len()
    &&& forall|i: int| 0 <= i < tag.len() ==> same_ignoring_case(s[pos + i], #[trigger] tag[i])
}

/// The position after `tag` where it stands at `pos`.
pub open spec fn after_tag(s: Seq<char>, pos: int, tag: Seq<char>) -> Option<int> {
    if has_tag(s, pos, tag) {
        Some(pos + tag.len())
    } else {
        None
    }
}

/// The position after `tag` where it stands at `pos` in either case.
pub open spec fn after_tag_no_case(s: Seq<char>, pos: int, tag: Seq<char>) -> Option<int> {
    if has_tag_no_case(s, pos, tag) {
        Some(pos + tag.len())
    } else {
        None
    }
}

/// Matches `token` at `pos` exactly; on success gives the position after it.
pub fn tag(src: &Source, pos: usize, token: &str) -> (r: Option<usize>)
    ensures
        match r {
            Some(next) => after_tag(src@, pos as int, token@) == Some(next as int),
            None => after_tag(src@, pos as int, token@) is None,
        },
{
    let n: usize = src.len();
    let m: usize = token.unicode_len();
    if pos > n || m > n - pos {
        return None;
    }
    let mut i: usize = 0;
    while i < m
        invariant
            n == src@.len(),
            m == token@.len(),
            pos + m <= n,
            i <= m,
            forall|j: int| 0 <= j < i ==> src@[pos + j] == #[trigger] token@[j],
        decreases m - i,
    {
        if src.char_at(pos + i) != token.get_char(i) {
            return None;
        }
        i += 1;
    }
    Some(pos + m)
}

/// Matches `token` at `pos` in either case; on success gives the position
/// after it.
pub fn tag_no_case(src: &Source, pos: usize, token: &str) -> (r: Option<usize>)
    ensures
        match r {
            Some(next) => after_tag_no_case(src@, pos as int, token@) == Some(next as int),
            None => after_tag_no_case(src@, pos as int, token@) is None,
        },
{
    let n: usize = src.len();
    let m: usize = token.unicode_len();
    if pos > n || m > n - pos {
        return None;
    }
    let mut i: usize = 0;
    while i < m
        invariant
            n == src@.len(),
            m == token@.len(),
            pos + m <= n,
            i <= m,
            forall|j: int|
                0 <= j < i ==> same_ignoring_case(src@[pos + j], #[trigger] token@[j]),
        decreases m - i,
    {
        if !eq_ignoring_case(src.char_at(pos + i), token.get_char(i)) {
            return None;
        }
        i += 1;
    }
    Some(pos + m)
}

/// The number of line feeds among the characters from `from` up to, not
/// including, `to`.
pub open spec fn count_newlines(s: Seq<char>, from: int, to: int) -> int
    decreases to - from,
{
    if 0 <= from < to <= s.len() {
        count_newlines(s, from, to - 1) + if s[to - 1] == '\n' {
            1int
        } else {
            0int
        }
    } else {
        0
    }
}

/// A stretch holds no more line feeds than characters.
pub proof fn lemma_count_newlines_bounds(s: Seq<char>, from: int, to: int)
    ensures
        0 <= count_newlines(s, from, to),
        from <= to ==> count_newlines(s, from, to) <= to - from,
    decreases to - from,
{
    if 0 <= from < to <= s.len() {
        lemma_count_newlines_bounds(s, from, to - 1);
    }
}

/// Counting over two adjoining stretches adds up.
pub proof fn lemma_count_newlines_split(s: Seq<char>, from: int, mid: int, to: int)
    requires
        0 <= from <= mid <= to <= s.len(),
    ensures
        count_newlines(s, from, to) == count_newlines(s, from, mid) + count_newlines(s, mid, to),
    decreases to - mid,
{
    if mid < to {
        lemma_count_newlines_split(s, from, mid, to - 1);
    }
}

/// A stretch without a line feed counts as none.
pub proof fn lemma_count_newlines_none(s: Seq<char>, from: int, to: int)
    requires
        forall|i: int| from <= i < to && 0 <= i < s.len() ==> #[trigger] s[i] != '\n',
    ensures
        count_newlines(s, from, to) == 0,
    decreases to - from,
{
    if 0 <= from < to <= s.len() {
        lemma_count_newlines_none(s, from, to - 1);
    }
}

/// Counts the line feeds from `from` up to, not including, `to`.
pub fn newlines_between(src: &Source, from: usize, to: usize) -> (n: usize)
    ensures
        n as int == count_newlines(src@, from as int, to as int),
{
    if from > to || to > src.len() {
        return 0;
    }
    let mut n: usize = 0;
    let mut i: usize = from;
    while i < to
        invariant
            from <= i <= to <= src@.len(),
            n as int == count_newlines(src@, from as int, i as int),
            n <= i - from,
        decreases to - i,
    {
        if src.char_at(i) == '\n' {
            n += 1;
        }
        i += 1;
        proof {
            lemma_count_newlines_bounds(src@, from as int, i as int);
        }
    }
    n
}

} // verus!
