//! Text primitives for line-oriented protocols, over sequences of chars.
//!
//! The spec functions of this module say what a line, a word and an occurrence
//! are. The executable functions compute them on `&str`, and what they cut
//! from a text they hand out as slices of it.

use vstd::prelude::*;
use vstd::string::*;

verus! {

/// Whether `c` has the Unicode property `White_Space`.
pub open spec fn is_whitespace(c: char) -> bool {
    ||| '\u{9}' <= c <= '\u{d}'
    ||| c == ' '
    ||| c == '\u{85}'
    ||| c == '\u{a0}'
    ||| c == '\u{1680}'
    ||| '\u{2000}' <= c <= '\u{200a}'
    ||| c == '\u{2028}'
    ||| c == '\u{2029}'
    ||| c == '\u{202f}'
    ||| c == '\u{205f}'
    ||| c == '\u{3000}'
}

/// The position of the first `c` in `s`, or `s.len()` where `s` holds none.
pub open spec fn position(s: Seq<char>, c: char) -> nat
    decreases s.len(),
{
    if s.len() == 0 || s[0] == c {
        0
    } else {
        1 + position(s.drop_first(), c)
    }
}

/// The length of the longest prefix of `s` that holds no whitespace.
pub open spec fn word_len(s: Seq<char>) -> nat
    decreases s.len(),
{
    if s.len() == 0 || is_whitespace(s[0]) {
        0
    } else {
        1 + word_len(s.drop_first())
    }
}

/// Whether `pat` occurs in `s` at position `i`.
pub open spec fn occurs_at(s: Seq<char>, pat: Seq<char>, i: int) -> bool {
    0 <= i && i + pat.len() <= s.len() && s.subrange(i, i + pat.len()) == pat
}

/// Whether `pat` occurs somewhere in `s`.
pub open spec fn occurs_in(s: Seq<char>, pat: Seq<char>) -> bool {
    exists|i: int| occurs_at(s, pat, i)
}

/// `l` without the carriage return at its end, where it has one.
pub open spec fn without_cr(l: Seq<char>) -> Seq<char> {
    if l.len() > 0 && l.last() == '\r' {
        l.drop_last()
    } else {
        l
    }
}

/// The lines of `s`. A line feed ends a line, and so does a carriage return
/// with a line feed directly behind it; neither belongs to the line. What
/// follows the last line feed is a line too, unless nothing follows it.
pub open spec fn lines(s: Seq<char>) -> Seq<Seq<char>>
    decreases s.len(),
{
    if s.len() == 0 {
        Seq::empty()
    } else {
        let n = position(s, '\n');
        if n >= s.len() {
            seq![s]
        } else {
            seq![without_cr(s.take(n as int))] + lines(s.skip(n as int + 1))
        }
    }
}

/// The words of `s`: its longest runs of chars that are not whitespace, from
/// left to right.
pub open spec fn words(s: Seq<char>) -> Seq<Seq<char>>
    decreases s.len(),
{
    if s.len() == 0 {
        Seq::empty()
    } else if is_whitespace(s[0]) {
        words(s.drop_first())
    } else {
        let n = word_len(s);
        proof {
            lemma_word_len_is_first(s);
        }
        seq![s.take(n as int)] + words(s.skip(n as int))
    }
}

/// What stands before the first `c` of `s`: all of `s` where it holds no `c`.
pub open spec fn before_first(s: Seq<char>, c: char) -> Seq<char> {
    s.take(position(s, c) as int)
}

/// What stands behind the first `c` of `s`: nothing where it holds no `c`.
pub open spec fn after_first(s: Seq<char>, c: char) -> Seq<char> {
    if position(s, c) < s.len() {
        s.skip(position(s, c) as int + 1)
    } else {
        Seq::empty()
    }
}

/// `position(s, c)` is the one index that holds `c` with no `c` before it, or
/// the length of a sequence without `c`.
pub proof fn lemma_position(s: Seq<char>, c: char, i: int)
    requires
        0 <= i <= s.len(),
        forall|j: int| 0 <= j < i ==> s[j] != c,
        i < s.len() ==> s[i] == c,
    ensures
        position(s, c) == i,
    decreases i,
{
    if i > 0 {
        let t = s.drop_first();
        assert forall|j: int| 0 <= j < i - 1 implies t[j] != c by {
            assert(t[j] == s[j + 1]);
        }
        lemma_position(t, c, i - 1);
    }
}

/// `position(s, c)` lies within `s` or at its end, no `c` stands before it,
/// and within `s` it holds `c`.
pub proof fn lemma_position_is_first(s: Seq<char>, c: char)
    ensures
        position(s, c) <= s.len(),
        forall|j: int| 0 <= j < position(s, c) ==> s[j] != c,
        position(s, c) < s.len() ==> s[position(s, c) as int] == c,
    decreases s.len(),
{
    if s.len() > 0 && s[0] != c {
        let t = s.drop_first();
        lemma_position_is_first(t, c);
        assert forall|j: int| 0 <= j < position(s, c) implies s[j] != c by {
            if j > 0 {
                assert(s[j] == t[j - 1]);
            }
        }
    }
}

/// `word_len(s)` is the one index that holds whitespace with none before it,
/// or the length of a sequence without whitespace.
pub proof fn lemma_word_len(s: Seq<char>, i: int)
    requires
        0 <= i <= s.len(),
        forall|j: int| 0 <= j < i ==> !is_whitespace(s[j]),
        i < s.len() ==> is_whitespace(s[i]),
    ensures
        word_len(s) == i,
    decreases i,
{
    if i > 0 {
        let t = s.drop_first();
        assert forall|j: int| 0 <= j < i - 1 implies !is_whitespace(t[j]) by {
            assert(t[j] == s[j + 1]);
        }
        lemma_word_len(t, i - 1);
    }
}

/// `word_len(s)` lies within `s` or at its end, no whitespace stands before
/// it, and within `s` it holds whitespace.
pub proof fn lemma_word_len_is_first(s: Seq<char>)
    ensures
        word_len(s) <= s.len(),
        forall|j: int| 0 <= j < word_len(s) ==> !is_whitespace(s[j]),
        word_len(s) < s.len() ==> is_whitespace(s[word_len(s) as int]),
    decreases s.len(),
{
    if s.len() > 0 && !is_whitespace(s[0]) {
        let t = s.drop_first();
        lemma_word_len_is_first(t);
        assert forall|j: int| 0 <= j < word_len(s) implies !is_whitespace(s[j]) by {
            if j > 0 {
                assert(s[j] == t[j - 1]);
            }
        }
    }
}

/// What occurs in a part of `s` occurs in `s`.
pub proof fn lemma_occurs_in_part(s: Seq<char>, part: Seq<char>, pat: Seq<char>)
    requires
        occurs_in(s, part),
        occurs_in(part, pat),
    ensures
        occurs_in(s, pat),
{
    let a = choose|a: int| occurs_at(s, part, a);
    let b = choose|b: int| occurs_at(part, pat, b);
    assert(s.subrange(a + b, a + b + pat.len()) =~= s.subrange(a, a + part.len()).subrange(
        b,
        b + pat.len(),
    ));
    assert(occurs_at(s, pat, a + b));
}

/// Every line of `s` occurs in `s`.
pub proof fn lemma_line_occurs(s: Seq<char>, i: int)
    requires
        0 <= i < lines(s).len(),
    ensures
        occurs_in(s, lines(s)[i]),
    decreases s.len(),
{
    let n = position(s, '\n') as int;
    let line = lines(s)[i];
    lemma_position_is_first(s, '\n');
    if n >= s.len() {
        assert(s.subrange(0, s.len() as int) =~= s);
        assert(occurs_at(s, line, 0));
    } else if i == 0 {
        if n > 0 {
            assert(s.take(n).drop_last() =~= s.subrange(0, n - 1));
        }
        assert(occurs_at(s, line, 0));
    } else {
        let rest = s.skip(n + 1);
        assert(line == lines(rest)[i - 1]);
        lemma_line_occurs(rest, i - 1);
        let k = choose|k: int| occurs_at(rest, line, k);
        assert(s.subrange(n + 1 + k, n + 1 + k + line.len()) =~= rest.subrange(
            k,
            k + line.len(),
        ));
        assert(occurs_at(s, line, n + 1 + k));
    }
}

/// No line of `s` holds a line feed.
pub proof fn lemma_lines_hold_no_line_feed(s: Seq<char>, i: int)
    requires
        0 <= i < lines(s).len(),
    ensures
        !lines(s)[i].contains('\n'),
    decreases s.len(),
{
    let n = position(s, '\n') as int;
    lemma_position_is_first(s, '\n');
    if n < s.len() && i > 0 {
        lemma_lines_hold_no_line_feed(s.skip(n + 1), i - 1);
    }
}

/// Every word of `s` has a char, and none of its chars is whitespace.
pub proof fn lemma_words_hold_no_whitespace(s: Seq<char>, i: int)
    requires
        0 <= i < words(s).len(),
    ensures
        words(s)[i].len() > 0,
        forall|j: int| 0 <= j < words(s)[i].len() ==> !is_whitespace(#[trigger] words(s)[i][j]),
    decreases s.len(),
{
    if is_whitespace(s[0]) {
        lemma_words_hold_no_whitespace(s.drop_first(), i);
    } else {
        lemma_word_len_is_first(s);
        if i > 0 {
            lemma_words_hold_no_whitespace(s.skip(word_len(s) as int), i - 1);
        }
    }
}

/// The chars of `s`, in a vector.
pub fn chars_of(s: &str) -> (v: Vec<char>)
    ensures
        v@ == s@,
{
    let mut v: Vec<char> = Vec::new();
    for c in it: s.chars()
        invariant
            it.seq() == s@,
            v@ == it.seq().take(it.index() as int),
    {
        v.push(c);
    }
    v
}

/// Whether `c` is whitespace.
pub fn char_is_whitespace(c: char) -> (b: bool)
    ensures
        b == is_whitespace(c),
{
    ('\u{9}' <= c && c <= '\u{d}') || c == ' ' || c == '\u{85}' || c == '\u{a0}' || c
        == '\u{1680}' || ('\u{2000}' <= c && c <= '\u{200a}') || c == '\u{2028}' || c
        == '\u{2029}' || c == '\u{202f}' || c == '\u{205f}' || c == '\u{3000}'
}

/// The index of the first `c` in `chars` at or after `from`, or the length of
/// `chars` where none follows.
fn find_char(chars: &Vec<char>, from: usize, c: char) -> (at: usize)
    requires
        from <= chars.len(),
    ensures
        at == from + position(chars@.skip(from as int), c),
        from <= at <= chars.len(),
{
    let mut i: usize = from;
    while i < chars.len() && chars[i] != c
        invariant
            from <= i <= chars.len(),
            forall|j: int| from <= j < i ==> chars@[j] != c,
        decreases chars.len() - i,
    {
        i += 1;
    }
    proof {
        lemma_position(chars@.skip(from as int), c, i - from);
    }
    i
}

/// The index of the first whitespace in `chars` at or after `from`, or the
/// length of `chars` where none follows.
fn find_whitespace(chars: &Vec<char>, from: usize) -> (at: usize)
    requires
        from <= chars.len(),
    ensures
        at == from + word_len(chars@.skip(from as int)),
        from <= at <= chars.len(),
{
    let mut i: usize = from;
    while i < chars.len() && !char_is_whitespace(chars[i])
        invariant
            from <= i <= chars.len(),
            forall|j: int| from <= j < i ==> !is_whitespace(chars@[j]),
        decreases chars.len() - i,
    {
        i += 1;
    }
    proof {
        lemma_word_len(chars@.skip(from as int), i - from);
    }
    i
}

/// Whether `pat` stands in `chars` at index `at`.
fn matches_at(chars: &Vec<char>, pat: &Vec<char>, at: usize) -> (b: bool)
    requires
        at + pat.len() <= chars.len(),
    ensures
        b == occurs_at(chars@, pat@, at as int),
{
    let mut k: usize = 0;
    while k < pat.len()
        invariant
            k <= pat.len(),
            at + pat.len() <= chars.len(),
            forall|j: int| 0 <= j < k ==> chars@[at + j] == pat@[j],
        decreases pat.len() - k,
    {
        if chars[at + k] != pat[k] {
            assert(chars@.subrange(at as int, at + pat.len())[k as int] != pat@[k as int]);
            return false;
        }
        k += 1;
    }
    assert(chars@.subrange(at as int, at + pat.len()) =~= pat@);
    true
}

/// Whether `pat` occurs in `s`.
pub fn contains(s: &str, pat: &str) -> (b: bool)
    ensures
        b == occurs_in(s@, pat@),
{
    let chars = chars_of(s);
    let pat_chars = chars_of(pat);
    if pat_chars.len() > chars.len() {
        return false;
    }
    let last: usize = chars.len() - pat_chars.len();
    let mut i: usize = 0;
    while i < last
        invariant
            chars@ == s@,
            pat_chars@ == pat@,
            last == chars.len() - pat_chars.len(),
            i <= last,
            forall|k: int| 0 <= k < i ==> !occurs_at(chars@, pat_chars@, k),
        decreases last - i,
    {
        if matches_at(&chars, &pat_chars, i) {
            return true;
        }
        i += 1;
    }
    matches_at(&chars, &pat_chars, last)
}

/// Whether `a` and `b` hold the same chars.
pub fn same_text(a: &str, b: &str) -> (eq: bool)
    ensures
        eq == (a@ == b@),
{
    let left = chars_of(a);
    let right = chars_of(b);
    if left.len() != right.len() {
        return false;
    }
    let eq = matches_at(&left, &right, 0);
    assert(left@.subrange(0, left@.len() as int) =~= left@);
    eq
}

/// Whether `s` holds `c`.
pub fn contains_char(s: &str, c: char) -> (b: bool)
    ensures
        b == s@.contains(c),
{
    let chars = chars_of(s);
    let at = find_char(&chars, 0, c);
    proof {
        assert(s@.skip(0) =~= s@);
        lemma_position_is_first(s@, c);
    }
    at < chars.len()
}

/// The lines of `s`, as slices of it.
pub fn split_lines<'a>(s: &'a str) -> (ls: Vec<&'a str>)
    ensures
        ls.deep_view() == lines(s@),
{
    let chars = chars_of(s);
    let n = chars.len();
    let mut ls: Vec<&'a str> = Vec::new();
    let mut start: usize = 0;
    assert(s@.skip(0) =~= s@);
    assert(ls.deep_view() =~= Seq::<Seq<char>>::empty());
    while start < n
        invariant
            chars@ == s@,
            n == chars.len(),
            start <= n,
            lines(s@) == ls.deep_view() + lines(s@.skip(start as int)),
        decreases n - start,
    {
        let ghost rest = s@.skip(start as int);
        let ghost done = ls.deep_view();
        let feed = find_char(&chars, start, '\n');
        if feed == n {
            let line = s.substring_char(start, n);
            ls.push(line);
            assert(line@ =~= rest);
            assert(ls.deep_view() =~= done.push(line@));
            assert(lines(s@.skip(n as int)) =~= Seq::<Seq<char>>::empty());
            start = n;
        } else {
            let end = if feed > start && chars[feed - 1] == '\r' {
                feed - 1
            } else {
                feed
            };
            let line = s.substring_char(start, end);
            ls.push(line);
            assert(rest.take(feed - start) =~= s@.subrange(start as int, feed as int));
            assert(line@ =~= without_cr(rest.take(feed - start)));
            assert(rest.skip(feed - start + 1) =~= s@.skip(feed + 1));
            assert(ls.deep_view() =~= done.push(line@));
            start = feed + 1;
        }
    }
    ls
}

/// The words of `s`, as slices of it.
pub fn split_words<'a>(s: &'a str) -> (ws: Vec<&'a str>)
    ensures
        ws.deep_view() == words(s@),
{
    let chars = chars_of(s);
    let n = chars.len();
    let mut ws: Vec<&'a str> = Vec::new();
    let mut i: usize = 0;
    assert(s@.skip(0) =~= s@);
    assert(ws.deep_view() =~= Seq::<Seq<char>>::empty());
    while i < n
        invariant
            chars@ == s@,
            n == chars.len(),
            i <= n,
            words(s@) == ws.deep_view() + words(s@.skip(i as int)),
        decreases n - i,
    {
        let ghost rest = s@.skip(i as int);
        let ghost done = ws.deep_view();
        if char_is_whitespace(chars[i]) {
            assert(rest.drop_first() =~= s@.skip(i + 1));
            i += 1;
        } else {
            let end = find_whitespace(&chars, i);
            let word = s.substring_char(i, end);
            ws.push(word);
            assert(word@ =~= rest.take(end - i));
            assert(rest.skip(end - i) =~= s@.skip(end as int));
            assert(ws.deep_view() =~= done.push(word@));
            i = end;
        }
    }
    ws
}

/// `s` cut at its first `c`: what stands before it and what stands behind it,
/// or `None` where `s` holds no `c`.
pub fn split_at_first<'a>(s: &'a str, c: char) -> (parts: Option<(&'a str, &'a str)>)
    ensures
        parts is Some <==> s@.contains(c),
        parts matches Some((head, tail)) ==> head@ == before_first(s@, c) && tail@
            == after_first(s@, c),
{
    let chars = chars_of(s);
    let at = find_char(&chars, 0, c);
    proof {
        assert(s@.skip(0) =~= s@);
        lemma_position_is_first(s@, c);
    }
    if at < chars.len() {
        Some((s.substring_char(0, at), s.substring_char(at + 1, chars.len())))
    } else {
        None
    }
}

} // verus!
