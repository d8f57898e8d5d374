//! Text as sequences of characters: lines, joining, ordering and trimming.
//!
//! Every function here is stated over `Seq<char>`, the view of `str` and
//! `String`.

use vstd::prelude::*;

verus! {

/// `String::push` appends the character to the end of the string and changes
/// nothing else of it.
pub assume_specification[ String::push ](s: &mut String, c: char)
    ensures
        final(s)@ == old(s)@.push(c),
;

/// The characters of `text`, in order.
pub fn chars_of(text: &str) -> (chars: Vec<char>)
    ensures
        chars@ == text@,
{
    let mut chars: Vec<char> = Vec::new();
    for c in it: text.chars()
        invariant
            chars@ == it.seq().take(it.index() as int),
            it.seq() == text@,
    {
        chars.push(c);
    }
    chars
}

/// The string made of `chars[from..to]`.
pub fn string_of_range(chars: &Vec<char>, from: usize, to: usize) -> (s: String)
    requires
        from <= to <= chars.len(),
    ensures
        s@ == chars@.subrange(from as int, to as int),
{
    let mut s = String::new();
    let mut i: usize = from;
    while i < to
        invariant
            from <= i <= to <= chars.len(),
            s@ == chars@.subrange(from as int, i as int),
        decreases to - i,
    {
        s.push(chars[i]);
        i += 1;
    }
    s
}

/// The index of the first `c` in `s`, or `s.len()` where `s` holds none.
pub open spec fn first_index(s: Seq<char>, c: char) -> int
    decreases s.len(),
{
    if s.len() == 0 || s[0] == c {
        0
    } else {
        1 + first_index(s.drop_first(), c)
    }
}

/// `first_index` is the one position before which no `c` stands and at which
/// one does, or the sequence ends.
pub proof fn lemma_first_index(s: Seq<char>, c: char, k: int)
    requires
        0 <= k <= s.len(),
        forall|j: int| 0 <= j < k ==> s[j] != c,
        k == s.len() || s[k] == c,
    ensures
        first_index(s, c) == k,
    decreases s.len(),
{
    if s.len() == 0 || s[0] == c {
    } else {
        lemma_first_index(s.drop_first(), c, k - 1);
    }
}

/// A line without the carriage return that may end it.
pub open spec fn strip_cr(line: Seq<char>) -> Seq<char> {
    if line.len() > 0 && line.last() == '\r' {
        line.drop_last()
    } else {
        line
    }
}

/// The lines of a text. A line ends at a line feed; a carriage return just
/// before that line feed belongs to the line ending. The last line needs no
/// line ending, and a text that ends in one has no further, empty line.
pub open spec fn lines(s: Seq<char>) -> Seq<Seq<char>>
    decreases s.len(),
{
    let k = first_index(s, '\n');
    if s.len() == 0 {
        Seq::empty()
    } else if !(0 <= k < s.len()) {
        seq![s]
    } else {
        seq![strip_cr(s.take(k))] + lines(s.skip(k + 1))
    }
}

/// The lines of `text`, see [`lines`].
pub fn split_lines(text: &str) -> (out: Vec<String>)
    ensures
        out.deep_view() == lines(text@),
{
    let chars = chars_of(text);
    let mut out: Vec<String> = Vec::new();
    let mut start: usize = 0;
    let mut i: usize = 0;
    proof {
        assert(chars@.skip(0) =~= chars@);
        assert(out.deep_view() =~= Seq::<Seq<char>>::empty());
    }
    while i < chars.len()
        invariant
            start <= i <= chars.len(),
            chars@ == text@,
            forall|j: int| start <= j < i ==> chars@[j] != '\n',
            lines(text@) == out.deep_view() + lines(chars@.skip(start as int)),
        decreases chars.len() - i,
    {
        if chars[i] == '\n' {
            let end: usize = if i > start && chars[i - 1] == '\r' {
                i - 1
            } else {
                i
            };
            let line = string_of_range(&chars, start, end);
            proof {
                let rest = chars@.skip(start as int);
                let k = i - start;
                lemma_first_index(rest, '\n', k);
                assert(rest.take(k) =~= chars@.subrange(start as int, i as int));
                assert(strip_cr(rest.take(k)) =~= line@);
                assert(rest.skip(k + 1) =~= chars@.skip(i + 1));
                assert(out.deep_view().push(line@) + lines(chars@.skip(i + 1)) =~= out.deep_view()
                    + lines(rest));
            }
            let ghost before = out.deep_view();
            out.push(line);
            proof {
                assert(out.deep_view() =~= before.push(line@));
            }
            start = i + 1;
        }
        i += 1;
    }
    if start < chars.len() {
        let line = string_of_range(&chars, start, chars.len());
        proof {
            let rest = chars@.skip(start as int);
            lemma_first_index(rest, '\n', rest.len() as int);
            assert(line@ =~= rest);
            assert(out.deep_view().push(line@) =~= out.deep_view() + lines(rest));
        }
        let ghost before = out.deep_view();
        out.push(line);
        proof {
            assert(out.deep_view() =~= before.push(line@));
        }
    } else {
        proof {
            assert(out.deep_view() + lines(chars@.skip(start as int)) =~= out.deep_view());
        }
    }
    out
}

/// The lines joined by single line feeds; the empty text for no line.
pub open spec fn join_lines(ls: Seq<Seq<char>>) -> Seq<char>
    decreases ls.len(),
{
    if ls.len() == 0 {
        Seq::empty()
    } else if ls.len() == 1 {
        ls[0]
    } else {
        join_lines(ls.drop_last()) + seq!['\n'] + ls.last()
    }
}

/// Joins `ls[from..to]` by single line feeds, see [`join_lines`].
pub fn join_range(ls: &Vec<String>, from: usize, to: usize) -> (text: String)
    requires
        from <= to <= ls.len(),
    ensures
        text@ == join_lines(ls.deep_view().subrange(from as int, to as int)),
{
    let mut text = String::new();
    let mut i: usize = from;
    let ghost part = ls.deep_view().subrange(from as int, to as int);
    proof {
        assert(part.take(0) =~= Seq::<Seq<char>>::empty());
    }
    while i < to
        invariant
            from <= i <= to <= ls.len(),
            part == ls.deep_view().subrange(from as int, to as int),
            text@ == join_lines(part.take(i - from)),
        decreases to - i,
    {
        proof {
            let next = part.take(i - from + 1);
            assert(next.drop_last() =~= part.take(i - from));
            assert(next.last() == ls[i as int]@);
        }
        if i > from {
            text.push('\n');
        }
        text.append(ls[i].as_str());
        i += 1;
    }
    proof {
        assert(part.take(to - from) =~= part);
    }
    text
}

/// Whether `a` comes strictly before `b` when texts are ordered character by
/// character, by code point, a text coming after each of its proper prefixes.
pub open spec fn text_lt(a: Seq<char>, b: Seq<char>) -> bool
    decreases a.len(),
{
    if b.len() == 0 {
        false
    } else if a.len() == 0 {
        true
    } else if a[0] != b[0] {
        (a[0] as int) < (b[0] as int)
    } else {
        text_lt(a.drop_first(), b.drop_first())
    }
}

/// No text comes before itself.
pub proof fn lemma_text_lt_irreflexive(a: Seq<char>)
    ensures
        !text_lt(a, a),
    decreases a.len(),
{
    if a.len() > 0 {
        lemma_text_lt_irreflexive(a.drop_first());
    }
}

/// Of two different texts one comes before the other.
pub proof fn lemma_text_lt_total(a: Seq<char>, b: Seq<char>)
    ensures
        text_lt(a, b) || text_lt(b, a) || a == b,
        !(text_lt(a, b) && text_lt(b, a)),
    decreases a.len(),
{
    if a.len() > 0 && b.len() > 0 && a[0] == b[0] {
        lemma_text_lt_total(a.drop_first(), b.drop_first());
        if a.drop_first() == b.drop_first() {
            assert(a =~= seq![a[0]] + a.drop_first());
            assert(b =~= seq![b[0]] + b.drop_first());
        }
    } else if a.len() == 0 && b.len() == 0 {
        assert(a =~= b);
    } else if a.len() > 0 && b.len() > 0 {
        assert((a[0] as int) != (b[0] as int));
    }
}

/// The order of texts is transitive.
pub proof fn lemma_text_lt_transitive(a: Seq<char>, b: Seq<char>, c: Seq<char>)
    requires
        text_lt(a, b),
        text_lt(b, c),
    ensures
        text_lt(a, c),
    decreases a.len(),
{
    if a.len() > 0 && a[0] == b[0] && b[0] == c[0] {
        lemma_text_lt_transitive(a.drop_first(), b.drop_first(), c.drop_first());
    }
}

/// Whether `a` comes strictly before `b`, see [`text_lt`].
pub fn text_less(a: &str, b: &str) -> (less: bool)
    ensures
        less == text_lt(a@, b@),
{
    let x = chars_of(a);
    let y = chars_of(b);
    let mut i: usize = 0;
    proof {
        assert(x@.skip(0) =~= x@);
        assert(y@.skip(0) =~= y@);
    }
    while i < x.len() && i < y.len()
        invariant
            i <= x.len(),
            i <= y.len(),
            x@ == a@,
            y@ == b@,
            text_lt(a@, b@) == text_lt(x@.skip(i as int), y@.skip(i as int)),
        decreases x.len() - i,
    {
        proof {
            assert(x@.skip(i as int).drop_first() =~= x@.skip(i + 1));
            assert(y@.skip(i as int).drop_first() =~= y@.skip(i + 1));
        }
        if x[i] != y[i] {
            proof {
                assert(x@.skip(i as int)[0] == x@[i as int]);
                assert(y@.skip(i as int)[0] == y@[i as int]);
            }
            return x[i] < y[i];
        }
        i += 1;
    }
    i < y.len()
}

/// Whether `text` ends with `suffix`.
pub fn ends_with(text: &str, suffix: &str) -> (yes: bool)
    ensures
        yes == suffix@.is_suffix_of(text@),
{
    let x = chars_of(text);
    let y = chars_of(suffix);
    if y.len() > x.len() {
        return false;
    }
    let shift: usize = x.len() - y.len();
    let mut i: usize = 0;
    while i < y.len()
        invariant
            i <= y.len(),
            shift + y.len() == x.len(),
            x@ == text@,
            y@ == suffix@,
            forall|j: int| 0 <= j < i ==> x@[shift + j] == y@[j],
        decreases y.len() - i,
    {
        if x[shift + i] != y[i] {
            proof {
                assert(x@.subrange(shift as int, x.len() as int)[i as int] == x@[shift + i]);
            }
            return false;
        }
        i += 1;
    }
    proof {
        assert(y@ =~= x@.subrange(shift as int, x.len() as int));
    }
    true
}

/// The index of the first of `ls` that equals `line`, or `ls.len()` where
/// none does.
pub open spec fn first_line(ls: Seq<Seq<char>>, line: Seq<char>) -> int
    decreases ls.len(),
{
    if ls.len() == 0 || ls[0] == line {
        0
    } else {
        1 + first_line(ls.drop_first(), line)
    }
}

/// `first_line` is the one position before which no line equals `line` and
/// at which one does, or the lines end.
pub proof fn lemma_first_line(ls: Seq<Seq<char>>, line: Seq<char>, k: int)
    requires
        0 <= k <= ls.len(),
        forall|j: int| 0 <= j < k ==> ls[j] != line,
        k == ls.len() || ls[k] == line,
    ensures
        first_line(ls, line) == k,
    decreases ls.len(),
{
    if ls.len() == 0 || ls[0] == line {
    } else {
        lemma_first_line(ls.drop_first(), line, k - 1);
    }
}

/// Whether `c` is white space: one of the characters that Unicode marks
/// `White_Space`.
pub open spec fn is_space(c: char) -> bool {
    ||| c == '\u{9}'
    ||| c == '\u{a}'
    ||| c == '\u{b}'
    ||| c == '\u{c}'
    ||| c == '\u{d}'
    ||| c == '\u{20}'
    ||| c == '\u{85}'
    ||| c == '\u{a0}'
    ||| c == '\u{1680}'
    ||| c == '\u{2000}'
    ||| c == '\u{2001}'
    ||| c == '\u{2002}'
    ||| c == '\u{2003}'
    ||| c == '\u{2004}'
    ||| c == '\u{2005}'
    ||| c == '\u{2006}'
    ||| c == '\u{2007}'
    ||| c == '\u{2008}'
    ||| c == '\u{2009}'
    ||| c == '\u{200a}'
    ||| c == '\u{2028}'
    ||| c == '\u{2029}'
    ||| c == '\u{202f}'
    ||| c == '\u{205f}'
    ||| c == '\u{3000}'
}

/// Whether `c` is white space, see [`is_space`].
pub fn is_white_space(c: char) -> (yes: bool)
    ensures
        yes == is_space(c),
{
    c == '\u{9}' || c == '\u{a}' || c == '\u{b}' || c == '\u{c}' || c == '\u{d}' || c == '\u{20}'
        || c == '\u{85}' || c == '\u{a0}' || c == '\u{1680}' || c == '\u{2000}' || c == '\u{2001}'
        || c == '\u{2002}' || c == '\u{2003}' || c == '\u{2004}' || c == '\u{2005}' || c
        == '\u{2006}' || c == '\u{2007}' || c == '\u{2008}' || c == '\u{2009}' || c == '\u{200a}'
        || c == '\u{2028}' || c == '\u{2029}' || c == '\u{202f}' || c == '\u{205f}' || c
        == '\u{3000}'
}

/// The text without the white space that it begins with.
pub open spec fn trim_start(s: Seq<char>) -> Seq<char>
    decreases s.len(),
{
    if s.len() > 0 && is_space(s[0]) {
        trim_start(s.drop_first())
    } else {
        s
    }
}

/// The text without the white space that it ends with.
pub open spec fn trim_end(s: Seq<char>) -> Seq<char>
    decreases s.len(),
{
    if s.len() > 0 && is_space(s.last()) {
        trim_end(s.drop_last())
    } else {
        s
    }
}

/// The text without the white space at its two ends.
pub open spec fn trimmed(s: Seq<char>) -> Seq<char> {
    trim_end(trim_start(s))
}

/// Where the first `k` characters are white space and the next is not,
/// `trim_start` drops just those.
pub proof fn lemma_trim_start(s: Seq<char>, k: int)
    requires
        0 <= k <= s.len(),
        forall|j: int| 0 <= j < k ==> is_space(s[j]),
        k == s.len() || !is_space(s[k]),
    ensures
        trim_start(s) == s.skip(k),
    decreases k,
{
    if k == 0 {
        assert(s.skip(0) =~= s);
    } else {
        lemma_trim_start(s.drop_first(), k - 1);
        assert(s.drop_first().skip(k - 1) =~= s.skip(k));
    }
}

/// Where the last characters from `k` on are white space and the one before
/// is not, `trim_end` drops just those.
pub proof fn lemma_trim_end(s: Seq<char>, k: int)
    requires
        0 <= k <= s.len(),
        forall|j: int| k <= j < s.len() ==> is_space(s[j]),
        k == 0 || !is_space(s[k - 1]),
    ensures
        trim_end(s) == s.take(k),
    decreases s.len() - k,
{
    if k == s.len() {
        assert(s.take(k) =~= s);
    } else {
        lemma_trim_end(s.drop_last(), k);
        assert(s.drop_last().take(k) =~= s.take(k));
    }
}

/// The text without the white space at its two ends, see [`trimmed`].
pub fn trim(text: &str) -> (out: String)
    ensures
        out@ == trimmed(text@),
{
    let chars = chars_of(text);
    let n: usize = chars.len();
    let mut from: usize = 0;
    while from < n && is_white_space(chars[from])
        invariant
            from <= n,
            n == chars.len(),
            forall|j: int| 0 <= j < from ==> is_space(chars@[j]),
        decreases n - from,
    {
        from += 1;
    }
    let mut to: usize = n;
    while to > from && is_white_space(chars[to - 1])
        invariant
            from <= to <= n,
            n == chars.len(),
            forall|j: int| to <= j < n ==> is_space(chars@[j]),
        decreases to,
    {
        to -= 1;
    }
    proof {
        lemma_trim_start(chars@, from as int);
        let rest = chars@.skip(from as int);
        lemma_trim_end(rest, to - from);
        assert(rest.take(to - from) =~= chars@.subrange(from as int, to as int));
    }
    string_of_range(&chars, from, to)
}

/// Whether the text can be a line of its own: it holds no line feed and
/// does not end with a carriage return.
pub open spec fn is_plain_line(line: Seq<char>) -> bool {
    (forall|j: int| 0 <= j < line.len() ==> line[j] != '\n') && (line.len() == 0 || line.last()
        != '\r')
}

/// The lines joined are the first line, a line feed, and the other lines
/// joined.
pub proof fn lemma_join_lines_first(ls: Seq<Seq<char>>)
    requires
        ls.len() >= 2,
    ensures
        join_lines(ls) == ls[0] + seq!['\n'] + join_lines(ls.drop_first()),
    decreases ls.len(),
{
    let feed = seq!['\n'];
    let front = ls.drop_last();
    let back = ls.drop_first();
    assert(front[0] == ls[0]);
    assert(back.last() == ls.last());
    if ls.len() == 2 {
        assert(join_lines(front) == ls[0]);
        assert(join_lines(back) == ls.last());
    } else {
        lemma_join_lines_first(front);
        let middle = back.drop_last();
        assert(front.drop_first() =~= middle);
        assert(join_lines(front) == ls[0] + feed + join_lines(middle));
        assert(join_lines(back) == join_lines(middle) + feed + ls.last());
        assert(join_lines(ls) == join_lines(front) + feed + ls.last());
        assert((ls[0] + feed + join_lines(middle)) + feed + ls.last() =~= ls[0] + feed + (
        join_lines(middle) + feed + ls.last()));
    }
}

/// Cutting joined lines gives the lines again, where each can be a line of
/// its own and the last is not empty.
pub proof fn lemma_lines_of_joined(ls: Seq<Seq<char>>)
    requires
        forall|i: int| 0 <= i < ls.len() ==> is_plain_line(#[trigger] ls[i]),
        ls.len() > 0 ==> ls.last().len() > 0,
    ensures
        lines(join_lines(ls)) == ls,
    decreases ls.len(),
{
    if ls.len() == 0 {
    } else if ls.len() == 1 {
        assert(is_plain_line(ls[0]));
        lemma_first_index(ls[0], '\n', ls[0].len() as int);
        assert(lines(ls[0]) =~= ls);
    } else {
        let rest = ls.drop_first();
        assert forall|i: int| 0 <= i < rest.len() implies is_plain_line(#[trigger] rest[i]) by {
            assert(rest[i] == ls[i + 1]);
        }
        assert(rest.last() == ls.last());
        lemma_lines_of_joined(rest);
        lemma_join_lines_first(ls);
        let text = join_lines(ls);
        let k = ls[0].len() as int;
        assert(is_plain_line(ls[0]));
        assert forall|j: int| 0 <= j < k implies text[j] != '\n' by {
            assert(text[j] == ls[0][j]);
        }
        assert(text[k] == '\n');
        lemma_first_index(text, '\n', k);
        assert(text.take(k) =~= ls[0]);
        assert(text.skip(k + 1) =~= join_lines(rest));
        assert(seq![ls[0]] + rest =~= ls);
    }
}

} // verus!
