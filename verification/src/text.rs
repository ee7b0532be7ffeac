//! Text as sequences of characters: lines, trimming, literal search and
//! lexicographic order. Every contract is stated over `Seq<char>`.

use vstd::prelude::*;

verus! {

/// `String::push` appends the given character to the end of the string.
pub assume_specification[ String::push ](s: &mut String, c: char)
    ensures
        final(s)@ == old(s)@.push(c),
;

/// The characters of `s`, in order.
pub fn chars_of(s: &str) -> (v: Vec<char>)
    ensures
        v@ == s@,
{
    let mut v: Vec<char> = Vec::new();
    for c in it: s.chars()
        invariant
            v@ == it.seq().subrange(0, it.index@),
    {
        v.push(c);
    }
    v
}

/// The string made of the characters of `v`, in order.
pub fn string_of(v: &Vec<char>) -> (s: String)
    ensures
        s@ == v@,
{
    let mut s = String::new();
    let mut i: usize = 0;
    while i < v.len()
        invariant
            i <= v.len(),
            s@ == v@.take(i as int),
        decreases v.len() - i,
    {
        s.push(v[i]);
        assert(v@.take(i + 1) == v@.take(i as int).push(v@[i as int]));
        i = i + 1;
    }
    assert(v@.take(v.len() as int) == v@);
    s
}

/// What an optional string holds, as an optional character sequence.
pub open spec fn option_view(o: Option<String>) -> Option<Seq<char>> {
    match o {
        Some(s) => Some(s@),
        None => None,
    }
}

/// The character sequences that the strings of `v` hold.
pub open spec fn texts(v: Seq<String>) -> Seq<Seq<char>> {
    Seq::new(v.len(), |i: int| v[i]@)
}

/// A list of strings that hold the same characters as those of `list`.
pub fn copy_texts(list: &Vec<String>) -> (out: Vec<String>)
    ensures
        texts(out@) == texts(list@),
{
    let mut out: Vec<String> = Vec::new();
    let mut i: usize = 0;
    while i < list.len()
        invariant
            i <= list.len(),
            texts(out@) == texts(list@).take(i as int),
        decreases list.len() - i,
    {
        let ghost before = texts(out@);
        out.push(list[i].clone());
        assert(texts(out@) =~= before.push(list@[i as int]@));
        assert(texts(list@).take(i + 1) =~= before.push(list@[i as int]@));
        i = i + 1;
    }
    assert(texts(list@).take(list.len() as int) == texts(list@));
    out
}

/// Whether one of `list` holds the characters of `item`.
pub fn holds(list: &Vec<String>, item: &str) -> (r: bool)
    ensures
        r == texts(list@).contains(item@),
{
    let wanted = chars_of(item);
    let mut i: usize = 0;
    while i < list.len()
        invariant
            i <= list.len(),
            wanted@ == item@,
            forall|k: int| 0 <= k < i ==> texts(list@)[k] != item@,
        decreases list.len() - i,
    {
        let here = chars_of(list[i].as_str());
        if same_chars(&here, &wanted) {
            assert(texts(list@)[i as int] == item@);
            return true;
        }
        i = i + 1;
    }
    false
}

/// Whether `c` is white space in the sense of Unicode's `White_Space`
/// property, which is what trimming removes.
pub open spec fn is_space(c: char) -> bool {
    ||| c == '\u{9}'
    ||| c == '\u{A}'
    ||| c == '\u{B}'
    ||| c == '\u{C}'
    ||| c == '\u{D}'
    ||| c == '\u{20}'
    ||| c == '\u{85}'
    ||| c == '\u{A0}'
    ||| c == '\u{1680}'
    ||| ('\u{2000}' as u32 <= c as u32 && c as u32 <= '\u{200A}' as u32)
    ||| c == '\u{2028}'
    ||| c == '\u{2029}'
    ||| c == '\u{202F}'
    ||| c == '\u{205F}'
    ||| c == '\u{3000}'
}

/// Whether `c` is white space.
pub fn is_space_char(c: char) -> (b: bool)
    ensures
        b == is_space(c),
{
    let n: u32 = c as u32;
    c == '\u{9}' || c == '\u{A}' || c == '\u{B}' || c == '\u{C}' || c == '\u{D}' || c == '\u{20}'
        || c == '\u{85}' || c == '\u{A0}' || c == '\u{1680}' || (0x2000 <= n && n <= 0x200A)
        || c == '\u{2028}' || c == '\u{2029}' || c == '\u{202F}' || c == '\u{205F}' || c
        == '\u{3000}'
}

/// `s` without its leading white space.
pub open spec fn trim_front(s: Seq<char>) -> Seq<char>
    decreases s.len(),
{
    if s.len() > 0 && is_space(s[0]) {
        trim_front(s.drop_first())
    } else {
        s
    }
}

/// `s` without its trailing white space.
pub open spec fn trim_back(s: Seq<char>) -> Seq<char>
    decreases s.len(),
{
    if s.len() > 0 && is_space(s.last()) {
        trim_back(s.drop_last())
    } else {
        s
    }
}

/// `s` without leading and trailing white space.
pub open spec fn trimmed(s: Seq<char>) -> Seq<char> {
    trim_back(trim_front(s))
}

proof fn lemma_trim_front_skip(s: Seq<char>, n: int)
    requires
        0 <= n <= s.len(),
        forall|k: int| 0 <= k < n ==> is_space(s[k]),
    ensures
        trim_front(s) == trim_front(s.skip(n)),
    decreases n,
{
    if n > 0 {
        assert(s.drop_first().skip(n - 1) == s.skip(n));
        lemma_trim_front_skip(s.drop_first(), n - 1);
    } else {
        assert(s.skip(0) == s);
    }
}

proof fn lemma_trim_back_take(s: Seq<char>, n: int)
    requires
        0 <= n <= s.len(),
        forall|k: int| n <= k < s.len() ==> is_space(s[k]),
    ensures
        trim_back(s) == trim_back(s.take(n)),
    decreases s.len() - n,
{
    if n < s.len() {
        assert(s.drop_last().take(n) == s.take(n));
        lemma_trim_back_take(s.drop_last(), n);
    } else {
        assert(s.take(n) == s);
    }
}

/// Removes leading and trailing white space.
pub fn trim(s: &Vec<char>) -> (t: Vec<char>)
    ensures
        t@ == trimmed(s@),
{
    let mut start: usize = 0;
    while start < s.len() && is_space_char(s[start])
        invariant
            start <= s.len(),
            forall|k: int| 0 <= k < start ==> is_space(s@[k]),
        decreases s.len() - start,
    {
        start = start + 1;
    }
    let mut end: usize = s.len();
    while end > start && is_space_char(s[end - 1])
        invariant
            start <= end <= s.len(),
            forall|k: int| end <= k < s.len() ==> is_space(s@[k]),
        decreases end,
    {
        end = end - 1;
    }
    let t = slice(s, start, end);
    proof {
        let rest = s@.skip(start as int);
        lemma_trim_front_skip(s@, start as int);
        assert(trim_front(rest) == rest);
        let n = end - start;
        assert forall|k: int| n <= k < rest.len() implies is_space(rest[k]) by {
            assert(rest[k] == s@[k + start]);
        }
        lemma_trim_back_take(rest, n);
        assert(rest.take(n) == s@.subrange(start as int, end as int));
        assert(n > 0 ==> rest.take(n).last() == s@[end - 1]);
        assert(trim_back(rest.take(n)) == rest.take(n));
    }
    t
}

/// The characters of `s` from position `from` up to, not including, `to`.
pub fn slice(s: &Vec<char>, from: usize, to: usize) -> (t: Vec<char>)
    requires
        from <= to <= s.len(),
    ensures
        t@ == s@.subrange(from as int, to as int),
{
    let mut t: Vec<char> = Vec::new();
    let mut i: usize = from;
    while i < to
        invariant
            from <= i <= to <= s.len(),
            t@ == s@.subrange(from as int, i as int),
        decreases to - i,
    {
        t.push(s[i]);
        assert(s@.subrange(from as int, i + 1) == s@.subrange(from as int, i as int).push(
            s@[i as int],
        ));
        i = i + 1;
    }
    t
}

/// Whether the two sequences hold the same characters.
pub fn same_chars(a: &Vec<char>, b: &Vec<char>) -> (r: bool)
    ensures
        r == (a@ == b@),
{
    if a.len() != b.len() {
        return false;
    }
    let mut i: usize = 0;
    while i < a.len()
        invariant
            i <= a.len(),
            a.len() == b.len(),
            forall|k: int| 0 <= k < i ==> a@[k] == b@[k],
        decreases a.len() - i,
    {
        if a[i] != b[i] {
            return false;
        }
        i = i + 1;
    }
    assert(a@ =~= b@);
    true
}

/// The number of characters of `s` before the first `stop`, or the length
/// of `s` where it holds none.
pub open spec fn span(s: Seq<char>, stop: char) -> int
    decreases s.len(),
{
    if s.len() == 0 || s[0] == stop {
        0
    } else {
        1 + span(s.drop_first(), stop)
    }
}

/// `s` without one trailing carriage return, if it ends in one.
pub open spec fn strip_cr(s: Seq<char>) -> Seq<char> {
    if s.len() > 0 && s.last() == '\r' {
        s.drop_last()
    } else {
        s
    }
}

/// The lines of `s`. A line ends at a line feed, or at a carriage return
/// directly followed by one; neither belongs to the line. What follows the
/// last line feed is a line only if it is not empty.
pub open spec fn lines_of(s: Seq<char>) -> Seq<Seq<char>>
    decreases s.len(),
{
    if s.len() == 0 {
        Seq::empty()
    } else {
        let n = span(s, '\n');
        if 0 <= n < s.len() {
            seq![strip_cr(s.take(n))] + lines_of(s.skip(n + 1))
        } else {
            seq![s]
        }
    }
}

/// The character sequences that the rows of `v` hold.
pub open spec fn views(v: Seq<Vec<char>>) -> Seq<Seq<char>> {
    Seq::new(v.len(), |i: int| v[i]@)
}

/// `span` is the position of the first `stop`.
pub proof fn lemma_span(s: Seq<char>, stop: char, m: int)
    requires
        0 <= m <= s.len(),
        forall|k: int| 0 <= k < m ==> s[k] != stop,
        m == s.len() || s[m] == stop,
    ensures
        span(s, stop) == m,
    decreases m,
{
    if m > 0 {
        lemma_span(s.drop_first(), stop, m - 1);
    }
}

/// Splits `text` into its lines.
pub fn split_lines(text: &Vec<char>) -> (out: Vec<Vec<char>>)
    ensures
        views(out@) == lines_of(text@),
{
    let mut out: Vec<Vec<char>> = Vec::new();
    let mut start: usize = 0;
    assert(text@.skip(0) == text@);
    assert(views(out@) + lines_of(text@) == lines_of(text@));
    while start < text.len()
        invariant
            start <= text.len(),
            lines_of(text@) == views(out@) + lines_of(text@.skip(start as int)),
        decreases text.len() - start,
    {
        let mut end: usize = start;
        while end < text.len() && text[end] != '\n'
            invariant
                start <= end <= text.len(),
                forall|k: int| start <= k < end ==> text@[k] != '\n',
            decreases text.len() - end,
        {
            end = end + 1;
        }
        let ghost rest = text@.skip(start as int);
        let ghost before = views(out@);
        proof {
            assert forall|k: int| 0 <= k < end - start implies rest[k] != '\n' by {
                assert(rest[k] == text@[k + start]);
            }
            lemma_span(rest, '\n', end - start);
        }
        if end < text.len() {
            let mut stop: usize = end;
            if stop > start && text[stop - 1] == '\r' {
                stop = stop - 1;
            }
            let line = slice(text, start, stop);
            proof {
                let raw = rest.take(end - start);
                assert(raw == text@.subrange(start as int, end as int));
                assert(end > start ==> raw.last() == text@[end - 1]);
                assert(strip_cr(raw) == line@);
                assert(rest.skip(end - start + 1) == text@.skip(end + 1));
                assert(lines_of(rest) == seq![line@] + lines_of(text@.skip(end + 1)));
            }
            out.push(line);
            start = end + 1;
            assert(views(out@) == before + seq![line@]);
        } else {
            let line = slice(text, start, end);
            proof {
                assert(rest == line@);
                assert(lines_of(rest) == seq![rest]);
                assert(text@.skip(end as int).len() == 0);
                assert(lines_of(text@.skip(end as int)) == Seq::<Seq<char>>::empty());
            }
            out.push(line);
            start = end;
            assert(views(out@) == before + seq![line@]);
            assert(before + seq![line@] + Seq::<Seq<char>>::empty() == before + seq![line@]);
        }
    }
    assert(lines_of(text@.skip(start as int)) == Seq::<Seq<char>>::empty());
    assert(views(out@) + Seq::<Seq<char>>::empty() == views(out@));
    out
}

/// The lines joined into one text, with a line feed between each two.
pub open spec fn join_lines(lines: Seq<Seq<char>>) -> Seq<char>
    decreases lines.len(),
{
    if lines.len() == 0 {
        Seq::empty()
    } else if lines.len() == 1 {
        lines[0]
    } else {
        join_lines(lines.drop_last()) + seq!['\n'] + lines.last()
    }
}

/// Joins the rows `from..to` of `lines` with line feeds.
pub fn join_range(lines: &Vec<Vec<char>>, from: usize, to: usize) -> (out: Vec<char>)
    requires
        from <= to <= lines.len(),
    ensures
        out@ == join_lines(views(lines@).subrange(from as int, to as int)),
{
    let mut out: Vec<char> = Vec::new();
    let mut i: usize = from;
    while i < to
        invariant
            from <= i <= to <= lines.len(),
            out@ == join_lines(views(lines@).subrange(from as int, i as int)),
        decreases to - i,
    {
        let ghost before = views(lines@).subrange(from as int, i as int);
        let ghost after = views(lines@).subrange(from as int, i + 1);
        if i > from {
            out.push('\n');
        }
        let row = &lines[i];
        let mut k: usize = 0;
        let ghost base = out@;
        while k < row.len()
            invariant
                k <= row.len(),
                out@ == base + row@.take(k as int),
            decreases row.len() - k,
        {
            out.push(row[k]);
            assert(row@.take(k + 1) == row@.take(k as int).push(row@[k as int]));
            k = k + 1;
        }
        proof {
            assert(row@.take(row.len() as int) == row@);
            assert(after.drop_last() == before);
            assert(after.last() == row@);
            if i > from {
                assert(out@ == join_lines(before) + seq!['\n'] + row@);
            } else {
                assert(join_lines(before) == Seq::<char>::empty());
                assert(out@ == row@);
            }
        }
        i = i + 1;
    }
    out
}

/// What `span` returns lies within `s`, no `stop` stands before it, and one
/// stands at it unless it is the length of `s`.
pub proof fn lemma_span_bounds(s: Seq<char>, stop: char)
    ensures
        0 <= span(s, stop) <= s.len(),
        forall|k: int| 0 <= k < span(s, stop) ==> s[k] != stop,
        span(s, stop) < s.len() ==> s[span(s, stop)] == stop,
    decreases s.len(),
{
    if s.len() > 0 && s[0] != stop {
        let rest = s.drop_first();
        lemma_span_bounds(rest, stop);
        assert forall|k: int| 0 <= k < span(s, stop) implies s[k] != stop by {
            if k > 0 {
                assert(s[k] == rest[k - 1]);
            }
        }
        if span(s, stop) < s.len() {
            assert(s[span(s, stop)] == rest[span(rest, stop)]);
        }
    }
}

/// A text has no line exactly if it is empty.
pub proof fn lemma_lines_of_empty(s: Seq<char>)
    ensures
        lines_of(s).len() == 0 <==> s.len() == 0,
{
    lemma_span_bounds(s, '\n');
}

/// Joining a line with the lines behind it puts a line feed between them.
pub proof fn lemma_join_first(first: Seq<char>, rest: Seq<Seq<char>>)
    ensures
        join_lines(seq![first] + rest) == if rest.len() == 0 {
            first
        } else {
            first + seq!['\n'] + join_lines(rest)
        },
    decreases rest.len(),
{
    let all = seq![first] + rest;
    if rest.len() == 0 {
        assert(all =~= seq![first]);
        assert(all.len() == 1 && all[0] == first);
    } else if rest.len() == 1 {
        assert(all.len() == 2);
        assert(all.drop_last() =~= seq![first]);
        assert(all.drop_last().len() == 1 && all.drop_last()[0] == first);
        assert(join_lines(all.drop_last()) == first);
        assert(all.last() == rest[0]);
        assert(join_lines(rest) == rest[0]);
        assert(join_lines(all) == join_lines(all.drop_last()) + seq!['\n'] + all.last());
    } else {
        let front = rest.drop_last();
        lemma_join_first(first, front);
        assert(all.len() == rest.len() + 1);
        assert(all.drop_last() =~= seq![first] + front);
        assert(all.last() == rest.last());
        assert(join_lines(all) == join_lines(all.drop_last()) + seq!['\n'] + all.last());
        assert(join_lines(all.drop_last()) == first + seq!['\n'] + join_lines(front));
        assert(join_lines(rest) == join_lines(front) + seq!['\n'] + rest.last());
        assert(join_lines(all) =~= first + seq!['\n'] + join_lines(rest));
    }
}

/// Whether no carriage return of `s` stands directly before a line feed.
pub open spec fn no_crlf(s: Seq<char>) -> bool {
    forall|i: int| 0 <= i < s.len() - 1 ==> !(#[trigger] s[i] == '\r' && s[i + 1] == '\n')
}

/// The text without one line feed at its end, if it ends in one.
pub open spec fn without_final_newline(s: Seq<char>) -> Seq<char> {
    if s.len() > 0 && s.last() == '\n' {
        s.drop_last()
    } else {
        s
    }
}

/// Splitting a text into lines and joining them again gives the text back,
/// but for a line feed at its end, where no line of it ends in a carriage
/// return and a line feed.
pub proof fn lemma_join_lines_of(s: Seq<char>)
    requires
        no_crlf(s),
    ensures
        join_lines(lines_of(s)) == without_final_newline(s),
    decreases s.len(),
{
    if s.len() > 0 {
        lemma_span_bounds(s, '\n');
        let n = span(s, '\n');
        if n < s.len() {
            let head = s.take(n);
            let rest = s.skip(n + 1);
            if n > 0 {
                assert(head.last() == s[n - 1]);
                assert(!(s[n - 1] == '\r' && s[n - 1 + 1] == '\n'));
            }
            assert(strip_cr(head) == head);
            assert forall|i: int| 0 <= i < rest.len() - 1 implies !(#[trigger] rest[i] == '\r'
                && rest[i + 1] == '\n') by {
                assert(rest[i] == s[i + n + 1]);
                assert(rest[i + 1] == s[i + n + 1 + 1]);
            }
            lemma_join_lines_of(rest);
            lemma_lines_of_empty(rest);
            lemma_join_first(head, lines_of(rest));
            if rest.len() == 0 {
                assert(s.drop_last() =~= head);
            } else if rest.last() == '\n' {
                assert(s.last() == rest.last());
                assert(s.drop_last() =~= head + seq!['\n'] + rest.drop_last());
            } else {
                assert(s.last() == rest.last());
                assert(s =~= head + seq!['\n'] + rest);
            }
        } else {
            assert(s.last() == s[s.len() - 1]);
        }
    }
}

/// White space at the end of a text does not show in the trimmed text.
pub proof fn lemma_trimmed_drop_last(s: Seq<char>)
    requires
        s.len() > 0,
        is_space(s.last()),
    ensures
        trimmed(s.drop_last()) == trimmed(s),
    decreases s.len(),
{
    let front = s.drop_last();
    if is_space(s[0]) {
        assert(trim_front(s) == trim_front(s.drop_first()));
        if s.len() == 1 {
            assert(s.drop_first().len() == 0);
            assert(front.len() == 0);
            assert(trim_front(s.drop_first()) == s.drop_first());
            assert(trim_front(front) == front);
            assert(trim_back(front) == front);
            assert(trim_back(s.drop_first()) == s.drop_first());
            assert(front =~= s.drop_first());
        } else {
            let inner = s.drop_first();
            assert(inner.last() == s.last());
            lemma_trimmed_drop_last(inner);
            assert(front.drop_first() =~= inner.drop_last());
            assert(front[0] == s[0]);
            assert(trim_front(front) == trim_front(front.drop_first()));
        }
    } else {
        assert(s.len() >= 2);
        assert(front[0] == s[0]);
        assert(trim_front(s) == s);
        assert(trim_front(front) == front);
        assert(trim_back(s) == trim_back(front));
    }
}

/// Whether `needle` stands in `hay` at position `i`.
pub open spec fn matches_at(hay: Seq<char>, needle: Seq<char>, i: int) -> bool {
    0 <= i && i + needle.len() <= hay.len() && hay.subrange(i, i + needle.len()) == needle
}

/// The first position at or after `from` where `needle` stands in `hay`, or
/// -1 where there is none.
pub open spec fn find_from(hay: Seq<char>, needle: Seq<char>, from: int) -> int
    decreases hay.len() - from + 1,
{
    if from < 0 || from + needle.len() > hay.len() {
        -1
    } else if matches_at(hay, needle, from) {
        from
    } else {
        find_from(hay, needle, from + 1)
    }
}

/// How often `needle` occurs in `hay` at or after `from`, counted from the
/// left without overlap; an empty `needle` counts as not occurring.
pub open spec fn count_from(hay: Seq<char>, needle: Seq<char>, from: int) -> nat
    decreases hay.len() - from,
{
    let i = find_from(hay, needle, from);
    if needle.len() == 0 || from < 0 || i < from || i + needle.len() > hay.len() {
        0
    } else {
        1 + count_from(hay, needle, i + needle.len())
    }
}

/// `hay` with the first occurrence of `needle` replaced by `with`; `hay`
/// itself where `needle` does not occur.
pub open spec fn replace_first(hay: Seq<char>, needle: Seq<char>, with: Seq<char>) -> Seq<char> {
    let i = find_from(hay, needle, 0);
    if i < 0 {
        hay
    } else {
        hay.take(i) + with + hay.skip(i + needle.len())
    }
}

/// What `find_from` returns is -1 or a position in range where the needle stands.
pub proof fn lemma_find_from(hay: Seq<char>, needle: Seq<char>, from: int)
    ensures
        find_from(hay, needle, from) == -1 || (from <= find_from(hay, needle, from)
            && matches_at(hay, needle, find_from(hay, needle, from))),
        forall|k: int| from <= k && 0 <= from && (find_from(hay, needle, from) == -1 || k < find_from(hay, needle, from))
            ==> !matches_at(hay, needle, k),
    decreases hay.len() - from + 1,
{
    if from < 0 || from + needle.len() > hay.len() {
    } else if matches_at(hay, needle, from) {
    } else {
        lemma_find_from(hay, needle, from + 1);
    }
}

/// Whether `needle` stands in `hay` at position `i`.
pub fn stands_at(hay: &Vec<char>, needle: &Vec<char>, i: usize) -> (r: bool)
    ensures
        r == matches_at(hay@, needle@, i as int),
{
    if needle.len() > hay.len() || i > hay.len() - needle.len() {
        return false;
    }
    let mut k: usize = 0;
    while k < needle.len()
        invariant
            k <= needle.len(),
            i + needle.len() <= hay.len(),
            forall|j: int| 0 <= j < k ==> hay@[i + j] == needle@[j],
        decreases needle.len() - k,
    {
        if hay[i + k] != needle[k] {
            assert(hay@.subrange(i as int, i + needle.len())[k as int] != needle@[k as int]);
            return false;
        }
        k = k + 1;
    }
    assert(hay@.subrange(i as int, i + needle.len()) =~= needle@);
    true
}

/// The first position at or after `from` where `needle` stands in `hay`.
pub fn find(hay: &Vec<char>, needle: &Vec<char>, from: usize) -> (r: Option<usize>)
    ensures
        match r {
            Some(i) => find_from(hay@, needle@, from as int) == i,
            None => find_from(hay@, needle@, from as int) == -1,
        },
{
    if needle.len() > hay.len() {
        return None;
    }
    let last: usize = hay.len() - needle.len();
    let mut i: usize = from;
    while i <= last
        invariant
            from <= i,
            last == hay.len() - needle.len(),
            find_from(hay@, needle@, from as int) == find_from(hay@, needle@, i as int),
        decreases last + 1 - i,
    {
        if stands_at(hay, needle, i) {
            return Some(i);
        }
        if i == last {
            assert(find_from(hay@, needle@, i + 1) == -1);
            return None;
        }
        i = i + 1;
    }
    None
}

/// How often `needle` occurs in `hay`, counted from the left without
/// overlap; an empty `needle` counts as not occurring.
pub fn count_matches(hay: &Vec<char>, needle: &Vec<char>) -> (n: usize)
    ensures
        n == count_from(hay@, needle@, 0),
{
    if needle.len() == 0 {
        return 0;
    }
    let mut n: usize = 0;
    let mut pos: usize = 0;
    loop
        invariant
            needle@.len() > 0,
            n <= pos <= hay.len(),
            n + count_from(hay@, needle@, pos as int) == count_from(hay@, needle@, 0),
        decreases hay.len() - pos,
    {
        match find(hay, needle, pos) {
            None => {
                return n;
            },
            Some(i) => {
                proof {
                    lemma_find_from(hay@, needle@, pos as int);
                }
                n = n + 1;
                pos = i + needle.len();
            },
        }
    }
}

/// Replaces the first occurrence of `needle` in `hay` by `with`.
pub fn replace_once(hay: &Vec<char>, needle: &Vec<char>, with: &Vec<char>) -> (out: Vec<char>)
    ensures
        out@ == replace_first(hay@, needle@, with@),
{
    match find(hay, needle, 0) {
        None => slice(hay, 0, hay.len()),
        Some(i) => {
            proof {
                lemma_find_from(hay@, needle@, 0);
                assert(find_from(hay@, needle@, 0) == i);
                assert(matches_at(hay@, needle@, i as int));
            }
            let mut out = slice(hay, 0, i);
            append(&mut out, with, 0, with.len());
            append(&mut out, hay, i + needle.len(), hay.len());
            proof {
                assert(hay@.subrange(0, i as int) == hay@.take(i as int));
                assert(with@.subrange(0, with.len() as int) == with@);
                assert(hay@.subrange(i + needle.len(), hay.len() as int) == hay@.skip(
                    i + needle.len(),
                ));
            }
            out
        },
    }
}

/// Appends the characters `from..to` of `src` to `out`.
pub fn append(out: &mut Vec<char>, src: &Vec<char>, from: usize, to: usize)
    requires
        from <= to <= src.len(),
    ensures
        final(out)@ == old(out)@ + src@.subrange(from as int, to as int),
{
    let mut i: usize = from;
    assert(src@.subrange(from as int, from as int) == Seq::<char>::empty());
    assert(out@ + Seq::<char>::empty() == out@);
    while i < to
        invariant
            from <= i <= to <= src.len(),
            out@ == old(out)@ + src@.subrange(from as int, i as int),
        decreases to - i,
    {
        out.push(src[i]);
        assert(src@.subrange(from as int, i + 1) == src@.subrange(from as int, i as int).push(
            src@[i as int],
        ));
        i = i + 1;
    }
}

/// The decimal digit that stands for `d`.
pub open spec fn digit_char(d: int) -> char {
    if d == 0 {
        '0'
    } else if d == 1 {
        '1'
    } else if d == 2 {
        '2'
    } else if d == 3 {
        '3'
    } else if d == 4 {
        '4'
    } else if d == 5 {
        '5'
    } else if d == 6 {
        '6'
    } else if d == 7 {
        '7'
    } else if d == 8 {
        '8'
    } else {
        '9'
    }
}

/// The decimal form of `n`, without leading zeros.
pub open spec fn decimal_of(n: nat) -> Seq<char>
    decreases n,
{
    if n < 10 {
        seq![digit_char(n as int)]
    } else {
        decimal_of(n / 10).push(digit_char((n % 10) as int))
    }
}

fn digit(d: usize) -> (c: char)
    requires
        d < 10,
    ensures
        c == digit_char(d as int),
{
    if d == 0 {
        '0'
    } else if d == 1 {
        '1'
    } else if d == 2 {
        '2'
    } else if d == 3 {
        '3'
    } else if d == 4 {
        '4'
    } else if d == 5 {
        '5'
    } else if d == 6 {
        '6'
    } else if d == 7 {
        '7'
    } else if d == 8 {
        '8'
    } else {
        '9'
    }
}

/// Writes `n` in decimal digits.
pub fn decimal(n: usize) -> (out: Vec<char>)
    ensures
        out@ == decimal_of(n as nat),
    decreases n,
{
    if n < 10 {
        let mut out: Vec<char> = Vec::new();
        out.push(digit(n));
        assert(out@ =~= seq![digit_char(n as int)]);
        out
    } else {
        let mut out = decimal(n / 10);
        out.push(digit(n % 10));
        out
    }
}

/// Whether `a` comes strictly before `b` in lexicographic order, characters
/// compared by their code points.
pub open spec fn lex_less(a: Seq<char>, b: Seq<char>) -> bool
    decreases a.len(),
{
    if b.len() == 0 {
        false
    } else if a.len() == 0 {
        true
    } else if a[0] != b[0] {
        (a[0] as u32) < (b[0] as u32)
    } else {
        lex_less(a.drop_first(), b.drop_first())
    }
}

/// No text comes before itself.
pub proof fn lemma_lex_irreflexive(a: Seq<char>)
    ensures
        !lex_less(a, a),
    decreases a.len(),
{
    if a.len() > 0 {
        lemma_lex_irreflexive(a.drop_first());
    }
}

/// The order is transitive.
pub proof fn lemma_lex_transitive(a: Seq<char>, b: Seq<char>, c: Seq<char>)
    requires
        lex_less(a, b),
        lex_less(b, c),
    ensures
        lex_less(a, c),
    decreases a.len(),
{
    if a.len() > 0 && b.len() > 0 && c.len() > 0 {
        if a[0] == b[0] && b[0] == c[0] {
            lemma_lex_transitive(a.drop_first(), b.drop_first(), c.drop_first());
        }
    }
}

/// Of two different texts one comes before the other.
pub proof fn lemma_lex_total(a: Seq<char>, b: Seq<char>)
    ensures
        a == b || lex_less(a, b) || lex_less(b, a),
    decreases a.len(),
{
    if a.len() > 0 && b.len() > 0 {
        if a[0] != b[0] {
            vstd::utf8::char_u32_cast(a[0], a[0] as u32);
            vstd::utf8::char_u32_cast(b[0], b[0] as u32);
        }
        if a[0] == b[0] {
            lemma_lex_total(a.drop_first(), b.drop_first());
            if a.drop_first() == b.drop_first() {
                assert(a =~= seq![a[0]] + a.drop_first());
                assert(b =~= seq![b[0]] + b.drop_first());
            }
        }
    } else if a.len() == 0 && b.len() == 0 {
        assert(a =~= b);
    }
}

proof fn lemma_lex_skip(a: Seq<char>, b: Seq<char>, n: int)
    requires
        0 <= n <= a.len(),
        n <= b.len(),
        forall|k: int| 0 <= k < n ==> a[k] == b[k],
    ensures
        lex_less(a, b) == lex_less(a.skip(n), b.skip(n)),
    decreases n,
{
    if n > 0 {
        assert(a.drop_first().skip(n - 1) == a.skip(n));
        assert(b.drop_first().skip(n - 1) == b.skip(n));
        lemma_lex_skip(a.drop_first(), b.drop_first(), n - 1);
    } else {
        assert(a.skip(0) == a);
        assert(b.skip(0) == b);
    }
}

/// Whether `a` comes strictly before `b` in lexicographic order.
pub fn precedes(a: &Vec<char>, b: &Vec<char>) -> (r: bool)
    ensures
        r == lex_less(a@, b@),
{
    let mut i: usize = 0;
    while i < a.len() && i < b.len()
        invariant
            i <= a.len(),
            i <= b.len(),
            forall|k: int| 0 <= k < i ==> a@[k] == b@[k],
        decreases a.len() - i,
    {
        if a[i] != b[i] {
            proof {
                lemma_lex_skip(a@, b@, i as int);
            }
            return (a[i] as u32) < (b[i] as u32);
        }
        i = i + 1;
    }
    proof {
        lemma_lex_skip(a@, b@, i as int);
    }
    i < b.len()
}

} // verus!
