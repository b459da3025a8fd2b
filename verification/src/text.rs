//! Lines and words in text.

use vstd::prelude::*;

verus! {

/// `String::push` appends one character to the end of the string.
pub assume_specification[ String::push ](s: &mut String, c: char)
    ensures
        final(s)@ == old(s)@.push(c),
;

/// The characters of `s`.
pub fn chars_of(s: &str) -> (r: Vec<char>)
    ensures
        r@ == s@,
{
    let mut r: Vec<char> = Vec::new();
    let iter = s.chars();
    let ghost all = vstd::std_specs::iter::IteratorSpec::remaining(&iter);
    for c in it: iter
        invariant
            it.seq() == all,
            r@ == all.take(it.index()),
    {
        r.push(c);
    }
    assert(all.take(all.len() as int) =~= all);
    r
}

/// Appends `chars` to `s`.
pub fn push_chars(s: &mut String, chars: &Vec<char>)
    ensures
        final(s)@ == old(s)@ + chars@,
{
    let mut i: usize = 0;
    while i < chars.len()
        invariant
            i <= chars@.len(),
            s@ == old(s)@ + chars@.take(i as int),
        decreases chars@.len() - i,
    {
        s.push(chars[i]);
        i += 1;
        assert(s@ =~= old(s)@ + chars@.take(i as int));
    }
    assert(chars@.take(i as int) =~= chars@);
}

/// The text that `chars` spell.
pub fn string_of(chars: &Vec<char>) -> (r: String)
    ensures
        r@ == chars@,
{
    let mut r: String = String::new();
    push_chars(&mut r, chars);
    assert(r@ =~= chars@);
    r
}

/// Whether `c` has the Unicode property `White_Space`.
pub open spec fn is_white(c: char) -> bool {
    ||| '\u{0009}' <= c <= '\u{000D}'
    ||| c == '\u{0020}'
    ||| c == '\u{0085}'
    ||| c == '\u{00A0}'
    ||| c == '\u{1680}'
    ||| '\u{2000}' <= c <= '\u{200A}'
    ||| c == '\u{2028}'
    ||| c == '\u{2029}'
    ||| c == '\u{202F}'
    ||| c == '\u{205F}'
    ||| c == '\u{3000}'
}

/// Whether `c` is white space.
pub fn is_white_space(c: char) -> (r: bool)
    ensures
        r == is_white(c),
{
    ('\u{0009}' <= c && c <= '\u{000D}') || c == '\u{0020}' || c == '\u{0085}' || c == '\u{00A0}'
        || c == '\u{1680}' || ('\u{2000}' <= c && c <= '\u{200A}') || c == '\u{2028}' || c
        == '\u{2029}' || c == '\u{202F}' || c == '\u{205F}' || c == '\u{3000}'
}

/// The end of the run of non-white characters that starts at `i`.
pub open spec fn word_end(s: Seq<char>, i: int) -> int
    decreases s.len() - i,
{
    if i < 0 || i >= s.len() || is_white(s[i]) {
        i
    } else {
        word_end(s, i + 1)
    }
}

/// The words of `s` from position `i` on: the longest runs of characters that
/// are no white space.
pub open spec fn words_from(s: Seq<char>, i: int) -> Seq<Seq<char>>
    decreases s.len() - i,
    via words_from_decreases
{
    if i < 0 || i >= s.len() {
        Seq::empty()
    } else if is_white(s[i]) {
        words_from(s, i + 1)
    } else {
        seq![s.subrange(i, word_end(s, i))] + words_from(s, word_end(s, i))
    }
}

#[via_fn]
proof fn words_from_decreases(s: Seq<char>, i: int) {
    if 0 <= i < s.len() {
        lemma_word_end(s, i);
    }
}

/// A word reaches from its start to the next white space or the end.
proof fn lemma_word_end(s: Seq<char>, i: int)
    requires
        0 <= i <= s.len(),
    ensures
        i <= word_end(s, i) <= s.len(),
        i < s.len() && !is_white(s[i]) ==> i < word_end(s, i),
        forall|k: int| i <= k < word_end(s, i) ==> !is_white(#[trigger] s[k]),
    decreases s.len() - i,
{
    if i < s.len() && !is_white(s[i]) {
        lemma_word_end(s, i + 1);
    }
}

/// The words of `s`.
pub open spec fn words(s: Seq<char>) -> Seq<Seq<char>> {
    words_from(s, 0)
}

/// The texts of a list of words.
pub open spec fn texts(v: Seq<Vec<char>>) -> Seq<Seq<char>> {
    v.map_values(|w: Vec<char>| w@)
}

/// Splits `s` into its words.
pub fn split_words(s: &Vec<char>) -> (r: Vec<Vec<char>>)
    ensures
        texts(r@) == words(s@),
{
    let mut r: Vec<Vec<char>> = Vec::new();
    let mut i: usize = 0;
    assert(texts(r@) + words_from(s@, 0) =~= words(s@));
    while i < s.len()
        invariant
            i <= s@.len(),
            texts(r@) + words_from(s@, i as int) == words(s@),
        decreases s@.len() - i,
    {
        if is_white_space(s[i]) {
            i += 1;
        } else {
            let ghost start = i as int;
            let ghost old_r = r@;
            let mut word: Vec<char> = Vec::new();
            while i < s.len() && !is_white_space(s[i])
                invariant
                    0 <= start <= i <= s@.len(),
                    word@ == s@.subrange(start, i as int),
                    word_end(s@, i as int) == word_end(s@, start),
                decreases s@.len() - i,
            {
                word.push(s[i]);
                i += 1;
                assert(word@ =~= s@.subrange(start, i as int));
            }
            proof {
                lemma_word_end(s@, start);
            }
            assert(i == word_end(s@, start));
            r.push(word);
            assert(texts(r@) =~= texts(old_r).push(word@));
            assert(texts(r@) + words_from(s@, i as int) =~= texts(old_r) + words_from(s@, start));
        }
    }
    assert(texts(r@) =~= words(s@));
    r
}

/// Whether `w` can stand as one word: not empty, and no white space in it.
pub open spec fn is_word(w: Seq<char>) -> bool {
    w.len() > 0 && forall|i: int| 0 <= i < w.len() ==> !is_white(#[trigger] w[i])
}

/// Words written one after the other with a space between neighbours.
pub open spec fn joined(f: Seq<Seq<char>>) -> Seq<char>
    decreases f.len(),
{
    if f.len() == 0 {
        Seq::empty()
    } else if f.len() == 1 {
        f[0]
    } else {
        f[0] + seq![' '] + joined(f.drop_first())
    }
}

/// The end of a word does not depend on what stands before it.
proof fn lemma_word_end_shift(a: Seq<char>, b: Seq<char>, i: int)
    requires
        0 <= i <= b.len(),
    ensures
        word_end(a + b, a.len() + i) == a.len() + word_end(b, i),
    decreases b.len() - i,
{
    if i < b.len() {
        assert((a + b)[a.len() + i] == b[i]);
        if !is_white(b[i]) {
            lemma_word_end_shift(a, b, i + 1);
        }
    }
}

/// The words from a place on do not depend on what stands before it.
proof fn lemma_words_shift(a: Seq<char>, b: Seq<char>, i: int)
    requires
        0 <= i <= b.len(),
    ensures
        words_from(a + b, a.len() + i) == words_from(b, i),
    decreases b.len() - i,
{
    if i < b.len() {
        assert((a + b)[a.len() + i] == b[i]);
        if is_white(b[i]) {
            lemma_words_shift(a, b, i + 1);
        } else {
            lemma_word_end_shift(a, b, i);
            lemma_word_end(b, i);
            let end = word_end(b, i);
            lemma_words_shift(a, b, end);
            assert((a + b).subrange(a.len() + i, a.len() + end) =~= b.subrange(i, end));
        }
    }
}

/// A word that white space or the end follows reaches as far as that.
proof fn lemma_word_reaches(w: Seq<char>, rest: Seq<char>, i: int)
    requires
        is_word(w),
        0 <= i <= w.len(),
        rest.len() == 0 || is_white(rest[0]),
    ensures
        word_end(w + rest, i) == w.len(),
    decreases w.len() - i,
{
    if i < w.len() {
        assert((w + rest)[i] == w[i]);
        lemma_word_reaches(w, rest, i + 1);
    } else if rest.len() > 0 {
        assert((w + rest)[i] == rest[0]);
    }
}

/// A word that white space or the end follows is the first word of the text.
proof fn lemma_first_word(w: Seq<char>, rest: Seq<char>)
    requires
        is_word(w),
        rest.len() == 0 || is_white(rest[0]),
    ensures
        words(w + rest) == seq![w] + words(rest),
{
    lemma_word_reaches(w, rest, 0);
    assert((w + rest)[0] == w[0]);
    assert((w + rest).subrange(0, w.len() as int) =~= w);
    lemma_words_shift(w, rest, 0);
}

/// Splitting undoes joining: words written with single spaces between them
/// come back as they were.
pub proof fn law_split_undoes_join(f: Seq<Seq<char>>)
    requires
        forall|i: int| 0 <= i < f.len() ==> is_word(#[trigger] f[i]),
    ensures
        words(joined(f)) == f,
    decreases f.len(),
{
    if f.len() == 1 {
        lemma_first_word(f[0], Seq::empty());
        assert(f[0] + Seq::<char>::empty() =~= f[0]);
        assert(words(Seq::<char>::empty()) =~= Seq::empty());
        assert(f =~= seq![f[0]]);
    } else if f.len() > 1 {
        let tail = joined(f.drop_first());
        let rest = seq![' '] + tail;
        law_split_undoes_join(f.drop_first());
        lemma_words_shift(seq![' '], tail, 0);
        assert(words(rest) == words_from(rest, 1));
        lemma_first_word(f[0], rest);
        assert(joined(f) =~= f[0] + rest);
        assert(f =~= seq![f[0]] + f.drop_first());
    } else {
        assert(words(joined(f)) =~= f);
    }
}

/// Every word is a word.
pub proof fn lemma_words_are_words(s: Seq<char>, i: int)
    requires
        0 <= i <= s.len(),
    ensures
        forall|k: int|
            0 <= k < words_from(s, i).len() ==> is_word(#[trigger] words_from(s, i)[k]),
    decreases s.len() - i,
{
    if i < s.len() {
        if is_white(s[i]) {
            lemma_words_are_words(s, i + 1);
            assert(words_from(s, i) == words_from(s, i + 1));
        } else {
            lemma_word_end(s, i);
            let end = word_end(s, i);
            lemma_words_are_words(s, end);
            let w = s.subrange(i, end);
            assert forall|k: int| 0 <= k < w.len() implies !is_white(#[trigger] w[k]) by {
                assert(w[k] == s[i + k]);
            }
            assert forall|k: int| 0 <= k < words_from(s, i).len() implies is_word(
                #[trigger] words_from(s, i)[k],
            ) by {
                if k > 0 {
                    assert(words_from(s, i)[k] == words_from(s, end)[k - 1]);
                }
            }
        }
    }
}

/// The end of the line that holds position `i`: the next line feed, or the end
/// of the text.
pub open spec fn line_end(s: Seq<char>, i: int) -> int
    decreases s.len() - i,
{
    if i < 0 || i >= s.len() || s[i] == '\n' {
        i
    } else {
        line_end(s, i + 1)
    }
}

/// The lines of `s` from position `i` on, without their line feeds.
pub open spec fn lines_from(s: Seq<char>, i: int) -> Seq<Seq<char>>
    decreases s.len() + 1 - i,
    via lines_from_decreases
{
    if i < 0 || i >= s.len() {
        Seq::empty()
    } else {
        seq![s.subrange(i, line_end(s, i))] + lines_from(s, line_end(s, i) + 1)
    }
}

#[via_fn]
proof fn lines_from_decreases(s: Seq<char>, i: int) {
    if 0 <= i < s.len() {
        lemma_line_end(s, i);
    }
}

/// A line ends at or after each of its positions.
proof fn lemma_line_end(s: Seq<char>, i: int)
    requires
        0 <= i <= s.len(),
    ensures
        i <= line_end(s, i) <= s.len(),
        line_end(s, i) < s.len() ==> s[line_end(s, i)] == '\n',
    decreases s.len() - i,
{
    if i < s.len() && s[i] != '\n' {
        lemma_line_end(s, i + 1);
    }
}

/// The lines of `s`.
pub open spec fn lines(s: Seq<char>) -> Seq<Seq<char>> {
    lines_from(s, 0)
}

/// Splits `s` into its lines.
pub fn split_lines(s: &Vec<char>) -> (r: Vec<Vec<char>>)
    ensures
        texts(r@) == lines(s@),
{
    let mut r: Vec<Vec<char>> = Vec::new();
    let mut i: usize = 0;
    assert(texts(r@) + lines_from(s@, 0) =~= lines(s@));
    while i < s.len()
        invariant
            i <= s@.len(),
            texts(r@) + lines_from(s@, i as int) == lines(s@),
        decreases s@.len() - i,
    {
        let ghost start = i as int;
        let ghost old_r = r@;
        let mut line: Vec<char> = Vec::new();
        while i < s.len() && s[i] != '\n'
            invariant
                0 <= start <= i <= s@.len(),
                line@ == s@.subrange(start, i as int),
                line_end(s@, i as int) == line_end(s@, start),
            decreases s@.len() - i,
        {
            line.push(s[i]);
            i += 1;
            assert(line@ =~= s@.subrange(start, i as int));
        }
        assert(i == line_end(s@, start));
        r.push(line);
        assert(texts(r@) =~= texts(old_r).push(line@));
        assert(texts(r@) + lines_from(s@, i + 1) =~= texts(old_r) + lines_from(s@, start));
        if i < s.len() {
            i += 1;
        } else {
            assert(lines_from(s@, i + 1) =~= lines_from(s@, i as int));
        }
    }
    assert(texts(r@) =~= lines(s@));
    r
}

/// The end of a line does not depend on what stands before it.
proof fn lemma_line_end_shift(a: Seq<char>, b: Seq<char>, i: int)
    requires
        0 <= i <= b.len(),
    ensures
        line_end(a + b, a.len() + i) == a.len() + line_end(b, i),
    decreases b.len() - i,
{
    if i < b.len() {
        assert((a + b)[a.len() + i] == b[i]);
        if b[i] != '\n' {
            lemma_line_end_shift(a, b, i + 1);
        }
    }
}

/// The lines from a place on do not depend on what stands before it.
proof fn lemma_lines_shift(a: Seq<char>, b: Seq<char>, i: int)
    requires
        0 <= i <= b.len(),
    ensures
        lines_from(a + b, a.len() + i) == lines_from(b, i),
    decreases b.len() - i,
{
    if i < b.len() {
        lemma_line_end_shift(a, b, i);
        lemma_line_end(b, i);
        let end = line_end(b, i);
        assert((a + b).subrange(a.len() + i, a.len() + end) =~= b.subrange(i, end));
        if end < b.len() {
            lemma_lines_shift(a, b, end + 1);
        } else {
            assert(lines_from(a + b, a.len() + end + 1) =~= lines_from(b, end + 1));
        }
    }
}

/// A line that ends with a line feed or with the text is the same whatever
/// follows that line feed.
proof fn lemma_line_end_before(a: Seq<char>, b: Seq<char>, i: int)
    requires
        0 <= i <= a.len(),
    ensures
        line_end(a + seq!['\n'] + b, i) == line_end(a, i),
    decreases a.len() - i,
{
    let s = a + seq!['\n'] + b;
    if i < a.len() {
        assert(s[i] == a[i]);
        if a[i] != '\n' {
            lemma_line_end_before(a, b, i + 1);
        }
    } else {
        assert(s[i] == '\n');
    }
}

/// Text after a line feed adds its lines to those before it.  Where the text
/// before the line feed is empty or ends a line itself, the line feed adds an
/// empty line.
proof fn lemma_lines_append_from(a: Seq<char>, b: Seq<char>, i: int)
    requires
        0 <= i <= a.len(),
    ensures
        ({
            let blank = if i == a.len() || a.last() == '\n' {
                seq![Seq::<char>::empty()]
            } else {
                Seq::empty()
            };
            lines_from(a + seq!['\n'] + b, i) == lines_from(a, i) + blank + lines(b)
        }),
    decreases a.len() - i,
{
    let s = a + seq!['\n'] + b;
    let head = a + seq!['\n'];
    lemma_line_end_before(a, b, i);
    lemma_line_end(a, i);
    let end = line_end(a, i);
    assert(s.subrange(i, end) =~= a.subrange(i, end));
    assert(s =~= head + b);
    if end == a.len() {
        lemma_lines_shift(head, b, 0);
        assert(lines_from(s, i) == seq![a.subrange(i, end)] + lines(b));
        if i == a.len() {
            assert(a.subrange(i, end) =~= Seq::empty());
            assert(lines_from(s, i) =~= lines_from(a, i) + seq![Seq::<char>::empty()] + lines(b));
        } else {
            lemma_last_of_line(a, i);
            assert(lines_from(a, end + 1) =~= Seq::empty());
            assert(lines_from(s, i) =~= lines_from(a, i) + Seq::empty() + lines(b));
        }
    } else {
        lemma_lines_append_from(a, b, end + 1);
        let blank = if i == a.len() || a.last() == '\n' {
            seq![Seq::<char>::empty()]
        } else {
            Seq::empty()
        };
        if end + 1 == a.len() {
            assert(a.last() == a[end]);
        }
        assert(lines_from(s, i) =~= lines_from(a, i) + blank + lines(b));
    }
}

/// A last line that is not empty does not end with a line feed.
proof fn lemma_last_of_line(a: Seq<char>, i: int)
    requires
        0 <= i < a.len(),
        line_end(a, i) == a.len(),
    ensures
        a.last() != '\n',
    decreases a.len() - i,
{
    if i + 1 < a.len() {
        lemma_last_of_line(a, i + 1);
    }
}

/// Text after a line feed adds its lines to those before it, with an empty line
/// between them where the text before is empty or ends a line itself.
pub proof fn lemma_lines_append(a: Seq<char>, b: Seq<char>)
    ensures
        ({
            let blank = if a.len() == 0 || a.last() == '\n' {
                seq![Seq::<char>::empty()]
            } else {
                Seq::empty()
            };
            lines(a + seq!['\n'] + b) == lines(a) + blank + lines(b)
        }),
{
    lemma_lines_append_from(a, b, 0);
}

/// Text without a line feed is one line, or none where it is empty.
pub proof fn lemma_single_line(s: Seq<char>)
    requires
        !s.contains('\n'),
    ensures
        lines(s) == (if s.len() == 0 {
            Seq::empty()
        } else {
            seq![s]
        }),
{
    lemma_line_end(s, 0);
    let end = line_end(s, 0);
    if end < s.len() {
        assert(s.contains(s[end]));
    }
    assert(s.subrange(0, s.len() as int) =~= s);
    if s.len() > 0 {
        assert(lines_from(s, end + 1) =~= Seq::empty());
        assert(lines(s) =~= seq![s]);
    }
}

/// White space alone holds no words.
pub proof fn lemma_blank_has_no_words(s: Seq<char>, i: int)
    requires
        0 <= i <= s.len(),
        forall|k: int| i <= k < s.len() ==> is_white(#[trigger] s[k]),
    ensures
        words_from(s, i).len() == 0,
    decreases s.len() - i,
{
    if i < s.len() {
        lemma_blank_has_no_words(s, i + 1);
    }
}

/// Each line of blank text is blank.
pub proof fn lemma_blank_lines(s: Seq<char>, i: int)
    requires
        0 <= i,
        forall|k: int| 0 <= k < s.len() ==> is_white(#[trigger] s[k]),
    ensures
        forall|n: int|
            0 <= n < lines_from(s, i).len() ==> words(#[trigger] lines_from(s, i)[n]).len() == 0,
    decreases s.len() + 1 - i,
{
    if i < s.len() {
        lemma_line_end(s, i);
        let end = line_end(s, i);
        let line = s.subrange(i, end);
        assert forall|k: int| 0 <= k < line.len() implies is_white(#[trigger] line[k]) by {
            assert(line[k] == s[i + k]);
        }
        lemma_blank_has_no_words(line, 0);
        lemma_blank_lines(s, end + 1);
        assert forall|n: int| 0 <= n < lines_from(s, i).len() implies words(
            #[trigger] lines_from(s, i)[n],
        ).len() == 0 by {
            if n > 0 {
                assert(lines_from(s, i)[n] == lines_from(s, end + 1)[n - 1]);
            }
        }
    }
}

/// The first position from `i` on that holds no white space.
pub open spec fn white_end(s: Seq<char>, i: int) -> int
    decreases s.len() - i,
{
    if 0 <= i < s.len() && is_white(s[i]) {
        white_end(s, i + 1)
    } else {
        i
    }
}

/// The position behind the last character before `j` that is no white space.
pub open spec fn white_start(s: Seq<char>, j: int) -> int
    decreases j,
{
    if 0 < j <= s.len() && is_white(s[j - 1]) {
        white_start(s, j - 1)
    } else {
        j
    }
}

/// `s` without white space at its start and its end.
pub open spec fn trimmed(s: Seq<char>) -> Seq<char> {
    let start = white_end(s, 0);
    let end = white_start(s, s.len() as int);
    if start < end {
        s.subrange(start, end)
    } else {
        Seq::empty()
    }
}

/// The characters of `s` without white space at its start and its end.
pub fn trim_chars(s: &Vec<char>) -> (r: Vec<char>)
    ensures
        r@ == trimmed(s@),
{
    let mut start: usize = 0;
    while start < s.len() && is_white_space(s[start])
        invariant
            start <= s@.len(),
            white_end(s@, start as int) == white_end(s@, 0),
        decreases s@.len() - start,
    {
        start += 1;
    }
    let mut end: usize = s.len();
    while end > 0 && is_white_space(s[end - 1])
        invariant
            end <= s@.len(),
            white_start(s@, end as int) == white_start(s@, s@.len() as int),
        decreases end,
    {
        end -= 1;
    }
    let mut r: Vec<char> = Vec::new();
    let mut i: usize = start;
    while i < end
        invariant
            start <= i,
            end <= s@.len(),
            i <= end || i == start,
            start < end ==> r@ == s@.subrange(start as int, i as int),
            start >= end ==> r@.len() == 0,
        decreases end - i,
    {
        r.push(s[i]);
        i += 1;
        assert(r@ =~= s@.subrange(start as int, i as int));
    }
    assert(r@ =~= trimmed(s@));
    r
}

/// White space reaches from a position to where it ends.
proof fn lemma_white_end(s: Seq<char>, i: int)
    requires
        0 <= i <= s.len(),
    ensures
        i <= white_end(s, i) <= s.len(),
        forall|k: int| i <= k < white_end(s, i) ==> is_white(#[trigger] s[k]),
        white_end(s, i) < s.len() ==> !is_white(s[white_end(s, i)]),
    decreases s.len() - i,
{
    if i < s.len() && is_white(s[i]) {
        lemma_white_end(s, i + 1);
    }
}

/// White space reaches back from a position to where it starts.
proof fn lemma_white_start(s: Seq<char>, j: int)
    requires
        0 <= j <= s.len(),
    ensures
        0 <= white_start(s, j) <= j,
        forall|k: int| white_start(s, j) <= k < j ==> is_white(#[trigger] s[k]),
        white_start(s, j) > 0 ==> !is_white(s[white_start(s, j) - 1]),
    decreases j,
{
    if j > 0 && is_white(s[j - 1]) {
        lemma_white_start(s, j - 1);
    }
}

/// White space before a position holds none of the words.
proof fn lemma_words_behind_white(s: Seq<char>, i: int, start: int)
    requires
        0 <= i <= start <= s.len(),
        forall|k: int| i <= k < start ==> is_white(#[trigger] s[k]),
    ensures
        words_from(s, i) == words_from(s, start),
    decreases start - i,
{
    if i < start {
        lemma_words_behind_white(s, i + 1, start);
    }
}

/// A word ends no later for white space behind it.
proof fn lemma_word_end_before_white(t: Seq<char>, trail: Seq<char>, i: int)
    requires
        0 <= i <= t.len(),
        trail.len() > 0 ==> is_white(trail[0]),
    ensures
        word_end(t + trail, i) == word_end(t, i),
    decreases t.len() - i,
{
    if i < t.len() {
        assert((t + trail)[i] == t[i]);
        if !is_white(t[i]) {
            lemma_word_end_before_white(t, trail, i + 1);
        }
    } else if trail.len() > 0 {
        assert((t + trail)[i] == trail[0]);
    }
}

/// White space behind a text adds no words.
proof fn lemma_words_before_white(t: Seq<char>, trail: Seq<char>, i: int)
    requires
        0 <= i <= t.len(),
        forall|k: int| 0 <= k < trail.len() ==> is_white(#[trigger] trail[k]),
    ensures
        words_from(t + trail, i) == words_from(t, i),
    decreases t.len() - i,
{
    let s = t + trail;
    if i == t.len() {
        lemma_words_shift(t, trail, 0);
        lemma_blank_has_no_words(trail, 0);
        assert(words_from(s, i) =~= words_from(t, i));
    } else {
        assert(s[i] == t[i]);
        if is_white(t[i]) {
            lemma_words_before_white(t, trail, i + 1);
        } else {
            lemma_word_end_before_white(t, trail, i);
            lemma_word_end(t, i);
            let end = word_end(t, i);
            assert(s.subrange(i, end) =~= t.subrange(i, end));
            lemma_words_before_white(t, trail, end);
        }
    }
}

/// Trimming changes no words.
pub proof fn law_trimming_keeps_the_words(s: Seq<char>)
    ensures
        words(trimmed(s)) == words(s),
{
    let start = white_end(s, 0);
    let end = white_start(s, s.len() as int);
    lemma_white_end(s, 0);
    lemma_white_start(s, s.len() as int);
    if start < end {
        let lead = s.take(start);
        let middle = s.subrange(start, end);
        let trail = s.skip(end);
        assert(s =~= lead + (middle + trail));
        lemma_words_behind_white(s, 0, start);
        lemma_words_shift(lead, middle + trail, 0);
        assert forall|k: int| 0 <= k < trail.len() implies is_white(#[trigger] trail[k]) by {
            assert(trail[k] == s[end + k]);
        }
        lemma_words_before_white(middle, trail, 0);
    } else {
        lemma_blank_has_no_words(s, 0);
        assert(words(trimmed(s)) =~= words(s));
    }
}

/// White space is the code points 9 to 13, 32, 133, 160, 5760, 8192 to 8202,
/// 8232, 8233, 8239, 8287 and 12288, and no others.
pub proof fn law_white_space_is_these_code_points(c: char)
    ensures
        is_white(c) <==> {
            let code = c as int;
            ||| 9 <= code <= 13
            ||| code == 32
            ||| code == 133
            ||| code == 160
            ||| code == 5760
            ||| 8192 <= code <= 8202
            ||| code == 8232
            ||| code == 8233
            ||| code == 8239
            ||| code == 8287
            ||| code == 12288
        },
{
}

/// Whether `s` is white space only.
pub open spec fn is_blank(s: Seq<char>) -> bool {
    forall|i: int| 0 <= i < s.len() ==> is_white(#[trigger] s[i])
}

/// Words, each behind the white space that goes with it, and `trail` behind them
/// all.
pub open spec fn spaced(f: Seq<(Seq<char>, Seq<char>)>, trail: Seq<char>) -> Seq<char>
    decreases f.len(),
{
    if f.len() == 0 {
        trail
    } else {
        f[0].0 + f[0].1 + spaced(f.drop_first(), trail)
    }
}

/// The words come back whatever white space stands before, between and behind
/// them, as long as there is some between any two.
pub proof fn law_any_white_space_separates_words(
    f: Seq<(Seq<char>, Seq<char>)>,
    trail: Seq<char>,
)
    requires
        is_blank(trail),
        forall|i: int|
            0 <= i < f.len() ==> is_blank((#[trigger] f[i]).0) && is_word(f[i].1) && (i > 0
                ==> f[i].0.len() > 0),
    ensures
        words(spaced(f, trail)) == f.map_values(|x: (Seq<char>, Seq<char>)| x.1),
    decreases f.len(),
{
    let expected = f.map_values(|x: (Seq<char>, Seq<char>)| x.1);
    if f.len() == 0 {
        lemma_blank_has_no_words(trail, 0);
        assert(words(spaced(f, trail)) =~= expected);
    } else {
        let rest = f.drop_first();
        let (white, word) = f[0];
        let behind = spaced(rest, trail);
        let s = spaced(f, trail);
        assert(is_blank(f[0].0) && is_word(f[0].1));
        assert forall|i: int| 0 <= i < rest.len() implies is_blank((#[trigger] rest[i]).0)
            && is_word(rest[i].1) && (i > 0 ==> rest[i].0.len() > 0) by {
            assert(rest[i] == f[i + 1]);
        }
        law_any_white_space_separates_words(rest, trail);
        if rest.len() > 0 {
            assert(is_blank(f[1].0) && f[1].0.len() > 0);
            assert(behind[0] == f[1].0[0]);
        } else if trail.len() > 0 {
            assert(behind[0] == trail[0]);
        }
        lemma_first_word(word, behind);
        assert(s =~= white + (word + behind));
        assert forall|k: int| 0 <= k < white.len() implies is_white(#[trigger] s[k]) by {
            assert(s[k] == white[k]);
        }
        lemma_words_behind_white(s, 0, white.len() as int);
        lemma_words_shift(white, word + behind, 0);
        assert(expected =~= seq![word] + rest.map_values(|x: (Seq<char>, Seq<char>)| x.1));
    }
}

/// Trimming takes away white space at both ends and nothing else: what is left
/// starts and ends with something else, or is empty.
pub proof fn law_trimming_takes_white_space_only(s: Seq<char>) -> (parts: (Seq<char>, Seq<char>))
    ensures
        s == parts.0 + trimmed(s) + parts.1,
        is_blank(parts.0),
        is_blank(parts.1),
        trimmed(s).len() > 0 ==> !is_white(trimmed(s)[0]) && !is_white(trimmed(s).last()),
{
    let start = white_end(s, 0);
    let end = white_start(s, s.len() as int);
    lemma_white_end(s, 0);
    lemma_white_start(s, s.len() as int);
    if start < end {
        let parts = (s.take(start), s.skip(end));
        assert(s =~= parts.0 + trimmed(s) + parts.1);
        parts
    } else {
        assert(s =~= s + trimmed(s) + Seq::<char>::empty());
        (s, Seq::empty())
    }
}

/// The texts of a list of words are those of its members, in their order.
pub proof fn law_texts_are_those_of_the_members(v: Seq<Vec<char>>, i: int)
    ensures
        texts(v).len() == v.len(),
        0 <= i < v.len() ==> texts(v)[i] == v[i]@,
{
}

} // verus!
