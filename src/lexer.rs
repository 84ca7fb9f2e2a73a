//! Characters, words and lines: how the source text is cut up.
use vstd::prelude::*;

verus! {

broadcast use vstd::string::group_string_axioms;

/// Copies the characters of `s` into a vector.
pub fn chars_of(s: &str) -> (r: Vec<char>)
    ensures
        r@ == s@,
{
    let mut r: Vec<char> = Vec::new();
    for c in it: s.chars()
        invariant
            r@ == it.history(),
    {
        r.push(c);
    }
    assert(r@ =~= s@);
    r
}

pub open spec fn starts_with(s: Seq<char>, p: Seq<char>) -> bool {
    p.len() <= s.len() && s.subrange(0, p.len() as int) == p
}

pub open spec fn ends_with(s: Seq<char>, p: Seq<char>) -> bool {
    p.len() <= s.len() && s.subrange(s.len() - p.len(), s.len() as int) == p
}

fn seq_starts_with(s: &str, p: &str) -> (r: bool)
    ensures
        r == starts_with(s@, p@),
{
    let n = s.unicode_len();
    let m = p.unicode_len();
    if m > n {
        return false;
    }
    let mut i: usize = 0;
    while i < m
        invariant
            n == s@.len(),
            m == p@.len(),
            m <= n,
            i <= m,
            forall|j: int| 0 <= j < i ==> s@[j] == p@[j],
        decreases m - i,
    {
        if s.get_char(i) != p.get_char(i) {
            assert(s@.subrange(0, m as int)[i as int] != p@[i as int]);
            return false;
        }
        i = i + 1;
    }
    assert(s@.subrange(0, m as int) =~= p@);
    true
}

fn seq_ends_with(s: &str, p: &str) -> (r: bool)
    ensures
        r == ends_with(s@, p@),
{
    let n = s.unicode_len();
    let m = p.unicode_len();
    if m > n {
        return false;
    }
    let off = n - m;
    let mut i: usize = 0;
    while i < m
        invariant
            n == s@.len(),
            m == p@.len(),
            off == n - m,
            i <= m,
            forall|j: int| 0 <= j < i ==> s@[off + j] == p@[j],
        decreases m - i,
    {
        if s.get_char(off + i) != p.get_char(i) {
            assert(s@.subrange(off as int, n as int)[i as int] != p@[i as int]);
            return false;
        }
        i = i + 1;
    }
    assert(s@.subrange(off as int, n as int) =~= p@);
    true
}

/// A word that ends in `:` and does not start with `@` names a label.
pub open spec fn spec_is_label(w: Seq<char>) -> bool {
    !(w.len() > 0 && w[0] == '@') && w.len() > 0 && w[w.len() - 1] == ':'
}

/// A word that starts with `@` names a directive.
pub open spec fn spec_is_preprocessor(w: Seq<char>) -> bool {
    w.len() > 0 && w[0] == '@'
}

/// Whether the characters `w` name a label.
pub fn label_word(w: &[char]) -> (r: bool)
    ensures
        r == spec_is_label(w@),
{
    let n = w.len();
    n > 0 && w[0] != '@' && w[n - 1] == ':'
}

/// Whether the characters `w` name a directive.
pub fn directive_word(w: &[char]) -> (r: bool)
    ensures
        r == spec_is_preprocessor(w@),
{
    w.len() > 0 && w[0] == '@'
}

pub fn is_label(word: &str) -> (r: bool)
    ensures
        r == spec_is_label(word@),
{
    let w = chars_of(word);
    label_word(w.as_slice())
}

pub fn is_preprocessor(word: &str) -> (r: bool)
    ensures
        r == spec_is_preprocessor(word@),
{
    let w = chars_of(word);
    directive_word(w.as_slice())
}

/// `s` without `p` at its end, where it ends so; else `s` itself.
pub open spec fn spec_remove_suffix(s: Seq<char>, p: Seq<char>) -> Seq<char> {
    if ends_with(s, p) { s.subrange(0, s.len() - p.len()) } else { s }
}

/// `s` without `p` at its start, where it starts so; else `s` itself.
pub open spec fn spec_remove_prefix(s: Seq<char>, p: Seq<char>) -> Seq<char> {
    if starts_with(s, p) { s.subrange(p.len() as int, s.len() as int) } else { s }
}

pub fn remove_suffix<'a>(s: &'a str, p: &str) -> (r: &'a str)
    ensures
        r@ == spec_remove_suffix(s@, p@),
{
    if seq_ends_with(s, p) {
        let n = s.unicode_len();
        s.substring_char(0, n - p.unicode_len())
    } else {
        s
    }
}

pub fn remove_prefix<'a>(s: &'a str, p: &str) -> (r: &'a str)
    ensures
        r@ == spec_remove_prefix(s@, p@),
{
    if seq_starts_with(s, p) {
        let n = s.unicode_len();
        s.substring_char(p.unicode_len(), n)
    } else {
        s
    }
}

/// The characters that separate words, as `char::is_whitespace` has them.
pub open spec fn is_ws(c: char) -> bool {
    c == ' ' || ('\t' <= c && c <= '\r') || c == '\u{85}' || c == '\u{a0}' || c == '\u{1680}'
        || ('\u{2000}' <= c && c <= '\u{200a}') || c == '\u{2028}' || c == '\u{2029}'
        || c == '\u{202f}' || c == '\u{205f}' || c == '\u{3000}'
}

fn is_whitespace(c: char) -> (r: bool)
    ensures
        r == is_ws(c),
{
    c == ' ' || ('\t' <= c && c <= '\r') || c == '\u{85}' || c == '\u{a0}' || c == '\u{1680}'
        || ('\u{2000}' <= c && c <= '\u{200a}') || c == '\u{2028}' || c == '\u{2029}'
        || c == '\u{202f}' || c == '\u{205f}' || c == '\u{3000}'
}

/// `words` with the word being read, `cur`, closed, if it has begun.
pub open spec fn flush(words: Seq<Seq<char>>, cur: Seq<char>) -> Seq<Seq<char>> {
    if cur.len() > 0 { words.push(cur) } else { words }
}

/// After reading `s[0..i]`: the finished lines, the words of the current
/// line, and the word being read. A `\n` ends a line; a run of other
/// whitespace ends a word.
pub open spec fn scan(s: Seq<char>, i: nat) -> (Seq<Seq<Seq<char>>>, Seq<Seq<char>>, Seq<char>)
    decreases i,
{
    if i == 0 {
        (Seq::empty(), Seq::empty(), Seq::empty())
    } else {
        let (l, w, c) = scan(s, (i - 1) as nat);
        let ch = s[i - 1];
        if ch == '\n' {
            (l.push(flush(w, c)), Seq::empty(), Seq::empty())
        } else if is_ws(ch) {
            (l, flush(w, c), Seq::empty())
        } else {
            (l, w, c.push(ch))
        }
    }
}

/// The source cut into lines, each line into its words.
pub open spec fn source_lines(s: Seq<char>) -> Seq<Seq<Seq<char>>> {
    let (l, w, c) = scan(s, s.len());
    l.push(flush(w, c))
}

pub open spec fn words_view(v: Seq<Vec<char>>) -> Seq<Seq<char>> {
    v.map_values(|w: Vec<char>| w@)
}

pub open spec fn lines_view(v: Seq<Vec<Vec<char>>>) -> Seq<Seq<Seq<char>>> {
    v.map_values(|l: Vec<Vec<char>>| words_view(l@))
}

fn push_word(words: &mut Vec<Vec<char>>, cur: Vec<char>)
    ensures
        words_view(final(words)@) == flush(words_view(old(words)@), cur@),
{
    if cur.len() > 0 {
        words.push(cur);
        assert(words_view(final(words)@) =~= words_view(old(words)@).push(cur@));
    }
}

/// Cuts `src` into lines at `\n`, and each line into whitespace-separated
/// words.
pub fn split_lines(src: &[char]) -> (r: Vec<Vec<Vec<char>>>)
    ensures
        lines_view(r@) == source_lines(src@),
{
    let mut lines: Vec<Vec<Vec<char>>> = Vec::new();
    let mut words: Vec<Vec<char>> = Vec::new();
    let mut cur: Vec<char> = Vec::new();
    let mut i: usize = 0;
    assert(lines_view(lines@) =~= Seq::<Seq<Seq<char>>>::empty());
    assert(words_view(words@) =~= Seq::<Seq<char>>::empty());
    while i < src.len()
        invariant
            i <= src@.len(),
            (lines_view(lines@), words_view(words@), cur@) == scan(src@, i as nat),
        decreases src@.len() - i,
    {
        let ch = src[i];
        if ch == '\n' {
            push_word(&mut words, cur);
            cur = Vec::new();
            let ghost before = lines_view(lines@);
            let ghost line = words_view(words@);
            lines.push(words);
            words = Vec::new();
            assert(lines_view(lines@) =~= before.push(line));
            assert(words_view(words@) =~= Seq::<Seq<char>>::empty());
        } else if is_whitespace(ch) {
            push_word(&mut words, cur);
            cur = Vec::new();
        } else {
            cur.push(ch);
        }
        i = i + 1;
    }
    push_word(&mut words, cur);
    let ghost before = lines_view(lines@);
    let ghost line = words_view(words@);
    lines.push(words);
    assert(lines_view(lines@) =~= before.push(line));
    lines
}

} // verus!
