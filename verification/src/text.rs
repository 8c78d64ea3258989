//! Characters and character sequences: the vocabulary the parser is written in.
//!
//! Text enters the library as `&str` and is worked on as a slice of `char`, so
//! that every position is one character and every contract can speak of a
//! `Seq<char>`.

use vstd::prelude::*;
use vstd::slice::slice_subrange;

verus! {

/// White space is a character with Unicode's `White_Space` property.
pub open spec fn is_space(c: char) -> bool {
    let n = c as u32;
    ||| 0x09 <= n <= 0x0D
    ||| n == 0x20
    ||| n == 0x85
    ||| n == 0xA0
    ||| n == 0x1680
    ||| 0x2000 <= n <= 0x200A
    ||| n == 0x2028
    ||| n == 0x2029
    ||| n == 0x202F
    ||| n == 0x205F
    ||| n == 0x3000
}

/// Tells whether `c` is white space.
pub fn is_whitespace(c: char) -> (b: bool)
    ensures
        b == is_space(c),
{
    let n: u32 = c as u32;
    (0x09 <= n && n <= 0x0D) || n == 0x20 || n == 0x85 || n == 0xA0 || n == 0x1680 || (0x2000 <= n
        && n <= 0x200A) || n == 0x2028 || n == 0x2029 || n == 0x202F || n == 0x205F || n == 0x3000
}

/// The lower-case form of an ASCII capital letter; every other character is
/// its own lower-case form.
pub open spec fn lower(c: char) -> char {
    if 'A' <= c <= 'Z' {
        ((c as u8) + 32) as char
    } else {
        c
    }
}

/// Lowers one character.
pub fn to_lower(c: char) -> (r: char)
    ensures
        r == lower(c),
{
    if 'A' <= c && c <= 'Z' {
        ((c as u8) + 32) as char
    } else {
        c
    }
}

/// A sequence with every character lowered.
pub open spec fn lowered(s: Seq<char>) -> Seq<char> {
    Seq::new(s.len(), |i: int| lower(s[i]))
}

/// The position of the first `c` in `s` at or after `from`, or the length of
/// `s` where there is none.
pub open spec fn find(s: Seq<char>, c: char, from: int) -> int
    decreases s.len() - from,
{
    if from >= s.len() {
        s.len() as int
    } else if s[from] == c {
        from
    } else {
        find(s, c, from + 1)
    }
}

/// `find` returns the least position at or after `from` that holds `c`.
pub proof fn lemma_find(s: Seq<char>, c: char, from: int)
    requires
        0 <= from <= s.len(),
    ensures
        from <= find(s, c, from) <= s.len(),
        find(s, c, from) < s.len() ==> s[find(s, c, from)] == c,
        forall|k: int| from <= k < find(s, c, from) ==> s[k] != c,
    decreases s.len() - from,
{
    if from < s.len() && s[from] != c {
        lemma_find(s, c, from + 1);
    }
}

/// Finds the first `c` in `text` at or after `from`.
pub fn find_char(text: &[char], c: char, from: usize) -> (at: usize)
    requires
        from <= text@.len(),
    ensures
        at == find(text@, c, from as int),
        from <= at <= text@.len(),
{
    let mut at: usize = from;
    while at < text.len() && text[at] != c
        invariant
            from <= at <= text@.len(),
            find(text@, c, at as int) == find(text@, c, from as int),
        decreases text@.len() - at,
    {
        at += 1;
    }
    proof {
        lemma_find(text@, c, at as int);
    }
    at
}

/// The characters of `s`, in order.
pub fn chars_of(s: &str) -> (v: Vec<char>)
    ensures
        v@ == s@,
{
    let mut v: Vec<char> = Vec::new();
    for c in it: s.chars()
        invariant
            it.seq() == s@,
            v@ == it.seq().take(it.index() as int),
    {
        v.push(c);
    }
    v
}

/// std's `String::push`, taken on trust: the call appends `ch` to the end of
/// the string and leaves what the string held before in place.
pub assume_specification[ String::push ](s: &mut String, ch: char)
    ensures
        final(s)@ == old(s)@.push(ch),
;

/// The string made of the characters of `text`, in order.
pub fn string_of(text: &[char]) -> (s: String)
    ensures
        s@ == text@,
{
    let mut s = String::new();
    let mut i: usize = 0;
    while i < text.len()
        invariant
            i <= text@.len(),
            s@ == text@.take(i as int),
        decreases text@.len() - i,
    {
        s.push(text[i]);
        i += 1;
    }
    s
}

/// The length of `name` where `text` begins with `name`.
pub fn match_prefix(text: &[char], name: &str) -> (n: Option<usize>)
    ensures
        n is Some <==> name@.is_prefix_of(text@),
        n is Some ==> n->0 == name@.len(),
{
    let mut i: usize = 0;
    for c in it: name.chars()
        invariant
            it.seq() == name@,
            i == it.index(),
            i <= text@.len(),
            text@.take(i as int) == name@.take(i as int),
    {
        if i >= text.len() || text[i] != c {
            assert(!name@.is_prefix_of(text@)) by {
                if name@.is_prefix_of(text@) {
                    assert(text@.subrange(0, name@.len() as int)[i as int] == name@[i as int]);
                }
            }
            return None;
        }
        assert(text@.take(i + 1) == text@.take(i as int).push(text@[i as int]));
        assert(name@.take(i + 1) == name@.take(i as int).push(name@[i as int]));
        i += 1;
    }
    Some(i)
}

/// Whether `text`, lowered, spells `name`.
pub fn spells(text: &[char], name: &str) -> (b: bool)
    ensures
        b == (lowered(text@) == name@),
{
    let mut i: usize = 0;
    for c in it: name.chars()
        invariant
            it.seq() == name@,
            i == it.index(),
            i <= text@.len(),
            lowered(text@).take(i as int) == name@.take(i as int),
    {
        if i >= text.len() || to_lower(text[i]) != c {
            assert(lowered(text@) != name@) by {
                if lowered(text@) == name@ {
                    assert(lowered(text@)[i as int] == name@[i as int]);
                }
            }
            return false;
        }
        assert(lowered(text@).take(i + 1) == lowered(text@).take(i as int).push(
            lowered(text@)[i as int],
        ));
        assert(name@.take(i + 1) == name@.take(i as int).push(name@[i as int]));
        i += 1;
    }
    assert(name@.take(i as int) == name@);
    assert(i == text@.len() ==> lowered(text@).take(i as int) == lowered(text@));
    i == text.len()
}

/// A line without the carriage return that it may end in.
pub open spec fn strip_cr(line: Seq<char>) -> Seq<char> {
    if line.len() > 0 && line.last() == '\r' {
        line.drop_last()
    } else {
        line
    }
}

/// The lines of `text` from position `start` on. A line ends before a line
/// feed, or before a carriage return and a line feed; the last line may also
/// end with the text. Neither belongs to the line.
pub open spec fn lines_from(text: Seq<char>, start: int) -> Seq<Seq<char>>
    decreases text.len() - start,
{
    if start < 0 || start >= text.len() {
        Seq::empty()
    } else {
        let end = find(text, '\n', start);
        if end >= text.len() {
            seq![text.subrange(start, text.len() as int)]
        } else {
            proof {
                lemma_find(text, '\n', start);
            }
            seq![strip_cr(text.subrange(start, end))] + lines_from(text, end + 1)
        }
    }
}

/// The lines of `text`.
pub open spec fn lines_of(text: Seq<char>) -> Seq<Seq<char>> {
    lines_from(text, 0)
}

/// What a sequence of slices holds.
pub open spec fn views(parts: Seq<&[char]>) -> Seq<Seq<char>> {
    Seq::new(parts.len(), |i: int| parts[i]@)
}

/// Splits `text` into its lines.
pub fn split_lines<'a>(text: &'a [char]) -> (lines: Vec<&'a [char]>)
    ensures
        views(lines@) == lines_of(text@),
{
    let mut lines: Vec<&'a [char]> = Vec::new();
    let mut start: usize = 0;
    while start < text.len()
        invariant
            start <= text@.len(),
            lines_of(text@) == views(lines@) + lines_from(text@, start as int),
        decreases text@.len() - start,
    {
        let ghost before = views(lines@);
        let end = find_char(text, '\n', start);
        let stop = if end < text.len() && end > start && text[end - 1] == '\r' {
            end - 1
        } else {
            end
        };
        let line = slice_subrange(text, start, stop);
        lines.push(line);
        proof {
            let whole = text@.subrange(start as int, end as int);
            let rest = if end < text@.len() {
                lines_from(text@, end + 1)
            } else {
                Seq::empty()
            };
            assert(line@ == if end < text@.len() {
                strip_cr(whole)
            } else {
                whole
            }) by {
                if stop < end {
                    assert(whole.last() == text@[end - 1]);
                    assert(whole.drop_last() == text@.subrange(start as int, stop as int));
                }
            }
            assert(lines_from(text@, start as int) == seq![line@] + rest);
            assert(views(lines@) == before.push(line@));
            assert(before + (seq![line@] + rest) == before.push(line@) + rest);
        }
        start = if end < text.len() {
            end + 1
        } else {
            end
        };
    }
    assert(views(lines@) + Seq::<Seq<char>>::empty() == views(lines@));
    lines
}

} // verus!
