//! What holds of every line and every file.

use crate::connection::kind_of;
use crate::parse::{
    assignment_of, assignments, bare_end, ends_bare, is_marker, is_quote, key_of, unescaped,
    value_of, Key,
};
use crate::profile::{delegates_security, listed, profile_from, profile_of, sentinel, Profile};
use crate::text::{
    find, is_space, lemma_find, lines_from, lines_of, lower, lowered, strip_cr,
};
use vstd::prelude::*;

verus! {

/// A plain character needs neither quotes nor a backslash to stand in a value.
pub open spec fn is_plain(c: char) -> bool {
    !is_quote(c) && c != '\\' && !is_space(c) && c != '#'
}

/// Whether every character of `s` is plain.
pub open spec fn all_plain(s: Seq<char>) -> bool {
    forall|i: int| 0 <= i < s.len() ==> is_plain(#[trigger] s[i])
}

/// Whether a bare value would stop at `c`.
pub open spec fn stops_bare(c: char) -> bool {
    is_space(c) || c == '#'
}

/// A line begins with exactly one key, or with none: it begins with a key's
/// name if and only if that key is the one that is read from it.
pub proof fn lemma_key_of_is_the_prefix(line: Seq<char>, key: Key)
    ensures
        key_of(line) == Some(key) <==> key.name().is_prefix_of(line),
{
    reveal_strlit("Description");
    reveal_strlit("Connection");
    reveal_strlit("Interface");
    reveal_strlit("Security");
    reveal_strlit("ESSID");
    if key.name().is_prefix_of(line) {
        assert(line.subrange(0, key.name().len() as int)[0] == key.name()[0]);
        assert forall|other: Key| other != key implies !other.name().is_prefix_of(line) by {
            if other.name().is_prefix_of(line) {
                assert(line.subrange(0, other.name().len() as int)[0] == other.name()[0]);
            }
        }
        assert(key == Key::Description || !Key::Description.name().is_prefix_of(line));
        assert(key == Key::Connection || !Key::Connection.name().is_prefix_of(line));
        assert(key == Key::Interface || !Key::Interface.name().is_prefix_of(line));
        assert(key == Key::Security || !Key::Security.name().is_prefix_of(line));
    }
}

/// A line that begins with no key's name sets nothing.
pub proof fn lemma_line_without_key(line: Seq<char>)
    requires
        forall|key: Key| !(#[trigger] key.name()).is_prefix_of(line),
    ensures
        assignment_of(line) is None,
{
    if key_of(line) is Some {
        lemma_key_of_is_the_prefix(line, key_of(line)->0);
    }
}

/// A line made of a key's name, `=` and a value sets that key to whatever the
/// value reads as.
pub proof fn lemma_assignment_of_parts(key: Key, rest: Seq<char>)
    ensures
        assignment_of(key.name() + seq!['='] + rest) == match value_of(rest) {
            Some(value) => Some((key, value)),
            None => None,
        },
{
    let line = key.name() + seq!['='] + rest;
    let n = key.name().len() as int;
    assert(line.subrange(0, n) == key.name());
    lemma_key_of_is_the_prefix(line, key);
    assert(line[n] == '=');
    assert(line.skip(n + 1) == rest);
}

/// Up to `n`, a text of plain characters holds no escape and no end of a bare
/// value, and reads as itself.
proof fn lemma_plain_prefix(s: Seq<char>, n: int)
    requires
        0 <= n <= s.len(),
        all_plain(s.take(n)),
    ensures
        unescaped(s, n) == s.take(n),
        bare_end(s, 0) == bare_end(s, n),
        n > 0 ==> !is_marker(s, n - 1),
    decreases n,
{
    if n > 0 {
        assert(s.take(n - 1) == s.take(n).take(n - 1));
        assert forall|i: int| 0 <= i < n implies is_plain(s[i]) by {
            assert(s.take(n)[i] == s[i]);
        }
        assert(all_plain(s.take(n - 1))) by {
            assert forall|i: int| 0 <= i < n - 1 implies is_plain(#[trigger] s.take(n - 1)[i]) by {
                assert(s.take(n - 1)[i] == s[i]);
            }
        }
        lemma_plain_prefix(s, n - 1);
        assert(is_plain(s[n - 1]));
        assert(!is_marker(s, n - 1));
        assert(!ends_bare(s, n - 1));
        assert(s.take(n) == s.take(n - 1).push(s[n - 1]));
    } else {
        assert(s.take(0) == Seq::<char>::empty());
    }
}

/// A bare value of plain characters reads as itself, whether the line ends
/// with it or goes on with white space or `#`.
pub proof fn lemma_plain_value(value: Seq<char>, tail: Seq<char>)
    requires
        value.len() > 0,
        all_plain(value),
        tail.len() == 0 || stops_bare(tail[0]),
    ensures
        value_of(value + tail) == Some(value),
{
    let s = value + tail;
    let n = value.len() as int;
    assert(s.take(n) == value);
    assert(s[0] == value[0]);
    assert(is_plain(value[0]));
    lemma_plain_prefix(s, n);
    if tail.len() > 0 {
        assert(s[n] == tail[0]);
        assert(ends_bare(s, n));
    }
}

/// For every key and every value that is not empty and holds no quote, no
/// backslash, no white space and no `#`, the line `key=value` sets the key to
/// the value.
pub proof fn lemma_bare_assignment(key: Key, value: Seq<char>)
    requires
        value.len() > 0,
        all_plain(value),
    ensures
        assignment_of(key.name() + seq!['='] + value) == Some((key, value)),
{
    lemma_plain_value(value, Seq::empty());
    assert(value + Seq::<char>::empty() == value);
    lemma_assignment_of_parts(key, value);
}

/// A comment after a bare value, or anything else that white space or `#`
/// parts from it, does not belong to the value.
pub proof fn lemma_comment_is_cut(key: Key, value: Seq<char>, tail: Seq<char>)
    requires
        value.len() > 0,
        all_plain(value),
        tail.len() > 0,
        stops_bare(tail[0]),
    ensures
        assignment_of(key.name() + seq!['='] + value + tail) == Some((key, value)),
{
    lemma_plain_value(value, tail);
    lemma_assignment_of_parts(key, value + tail);
    assert(key.name() + seq!['='] + (value + tail) == key.name() + seq!['='] + value + tail);
}

/// The first `c` at or after `from` stands at `at` where `c` stands there and
/// nowhere between.
proof fn lemma_find_is(s: Seq<char>, c: char, from: int, at: int)
    requires
        0 <= from <= at < s.len(),
        s[at] == c,
        forall|k: int| from <= k < at ==> s[k] != c,
    ensures
        find(s, c, from) == at,
    decreases at - from,
{
    if from < at {
        lemma_find_is(s, c, from + 1, at);
    }
}

/// A value between two quotes of one kind reads as what stands between them,
/// white space and `#` included and backslashes kept, as long as it does not
/// hold that quote. What follows the closing quote is not looked at.
pub proof fn lemma_quoted_value(quote: char, value: Seq<char>, tail: Seq<char>)
    requires
        is_quote(quote),
        !value.contains(quote),
    ensures
        value_of(seq![quote] + value + seq![quote] + tail) == Some(value),
{
    let s = seq![quote] + value + seq![quote] + tail;
    let close = value.len() as int + 1;
    assert(s[0] == quote);
    assert(s[close] == quote);
    assert forall|k: int| 1 <= k < close implies s[k] != quote by {
        assert(s[k] == value[k - 1]);
    }
    lemma_find_is(s, quote, 1, close);
    assert(s.subrange(1, close) == value);
}

/// For every key, either quote and every value without that quote, the line
/// `key=` with the quoted value after it sets the key to the value.
pub proof fn lemma_quoted_assignment(key: Key, quote: char, value: Seq<char>)
    requires
        is_quote(quote),
        !value.contains(quote),
    ensures
        assignment_of(key.name() + seq!['=', quote] + value + seq![quote]) == Some((key, value)),
{
    lemma_quoted_value(quote, value, Seq::empty());
    let rest = seq![quote] + value + seq![quote];
    assert(rest + Seq::<char>::empty() == rest);
    lemma_assignment_of_parts(key, rest);
    assert(key.name() + seq!['='] + rest == key.name() + seq!['=', quote] + value + seq![quote]);
}

/// `value` with a backslash before each of its characters.
pub open spec fn escaped_all(value: Seq<char>) -> Seq<char> {
    Seq::new(
        2 * value.len(),
        |i: int|
            if i % 2 == 0 {
                '\\'
            } else {
                value[i / 2]
            },
    )
}

/// In a text with a backslash before each character, the backslashes at the
/// even positions are the ones that escape, and the first `2 * k` characters
/// read as the first `k` of the value.
proof fn lemma_escaped_prefix(value: Seq<char>, k: int)
    requires
        0 <= k <= value.len(),
    ensures
        forall|i: int| 0 <= i < 2 * k ==> is_marker(escaped_all(value), i) == (i % 2 == 0),
        unescaped(escaped_all(value), 2 * k) == value.take(k),
        bare_end(escaped_all(value), 0) == bare_end(escaped_all(value), 2 * k),
    decreases k,
{
    let s = escaped_all(value);
    if k > 0 {
        lemma_escaped_prefix(value, k - 1);
        let even = 2 * k - 2;
        let odd = 2 * k - 1;
        assert(s[even] == '\\');
        assert(s[odd] == value[k - 1]);
        if even > 0 {
            assert(!is_marker(s, even - 1));
        }
        assert(is_marker(s, even));
        assert(!is_marker(s, odd));
        assert(!is_space('\\'));
        assert(!ends_bare(s, even));
        assert(!ends_bare(s, odd));
        assert(bare_end(s, even) == bare_end(s, odd));
        assert(unescaped(s, odd) == unescaped(s, even));
        assert(value.take(k) == value.take(k - 1).push(value[k - 1]));
    } else {
        assert(value.take(0) == Seq::<char>::empty());
    }
}

/// A backslash makes the character after it part of a bare value, whatever
/// the character is: for every key and every value that is not empty, the
/// line `key=` with the value after it, a backslash before each of its
/// characters, sets the key to the value.
pub proof fn lemma_escaped_assignment(key: Key, value: Seq<char>)
    requires
        value.len() > 0,
    ensures
        assignment_of(key.name() + seq!['='] + escaped_all(value)) == Some((key, value)),
{
    let s = escaped_all(value);
    lemma_escaped_prefix(value, value.len() as int);
    assert(value.take(value.len() as int) == value);
    assert(s[0] == '\\');
    lemma_assignment_of_parts(key, s);
}

/// Letter case makes no difference to the connection kind that a name spells.
pub proof fn lemma_kind_ignores_case(first: Seq<char>, second: Seq<char>)
    requires
        first.len() == second.len(),
        forall|i: int| 0 <= i < first.len() ==> lower(first[i]) == lower(second[i]),
    ensures
        kind_of(first) == kind_of(second),
{
    assert(lowered(first) == lowered(second));
}

/// Whether `line` sets the option `key`.
pub open spec fn sets(line: Seq<char>, key: Key) -> bool {
    assignment_of(line) matches Some(pair) && pair.0 == key
}

/// An option that no line sets is not set.
pub proof fn lemma_unset_option(lines: Seq<Seq<char>>, key: Key)
    requires
        forall|i: int| 0 <= i < lines.len() ==> !sets(#[trigger] lines[i], key),
    ensures
        !assignments(lines).contains_key(key),
    decreases lines.len(),
{
    if lines.len() > 0 {
        assert forall|i: int| 0 <= i < lines.drop_last().len() implies !sets(
            #[trigger] lines.drop_last()[i],
            key,
        ) by {
            assert(lines.drop_last()[i] == lines[i]);
        }
        lemma_unset_option(lines.drop_last(), key);
        assert(!sets(lines[lines.len() - 1], key));
    }
}

/// The last line that sets an option decides its value.
pub proof fn lemma_last_setting_wins(lines: Seq<Seq<char>>, i: int, key: Key)
    requires
        0 <= i < lines.len(),
        sets(lines[i], key),
        forall|j: int| i < j < lines.len() ==> !sets(#[trigger] lines[j], key),
    ensures
        assignments(lines).contains_key(key),
        assignments(lines)[key] == (assignment_of(lines[i])->0).1,
    decreases lines.len(),
{
    if i < lines.len() - 1 {
        assert forall|j: int| i < j < lines.drop_last().len() implies !sets(
            #[trigger] lines.drop_last()[j],
            key,
        ) by {
            assert(lines.drop_last()[j] == lines[j]);
        }
        assert(lines.drop_last()[i] == lines[i]);
        lemma_last_setting_wins(lines.drop_last(), i, key);
        assert(!sets(lines[lines.len() - 1], key));
    }
}

/// A file in which no line sets `Interface` describes no profile. So does,
/// for one, a file in which no line sets anything.
pub proof fn lemma_no_interface_no_profile(path: std::path::PathBuf, lines: Seq<Seq<char>>)
    requires
        forall|i: int| 0 <= i < lines.len() ==> !sets(#[trigger] lines[i], Key::Interface),
    ensures
        profile_from(path, lines) is None,
{
    lemma_unset_option(lines, Key::Interface);
}

/// A file in which some line sets `Security` to the sentinel describes no
/// profile, wherever the line stands and whatever the other lines set.
pub proof fn lemma_sentinel_rejects(path: std::path::PathBuf, lines: Seq<Seq<char>>, i: int)
    requires
        0 <= i < lines.len(),
        assignment_of(lines[i]) == Some((Key::Security, sentinel())),
    ensures
        profile_from(path, lines) is None,
{
}

/// Looking for `c` in what follows the first `k` characters is looking for it
/// from position `k` on.
proof fn lemma_find_shift(s: Seq<char>, c: char, k: int, from: int)
    requires
        0 <= k,
        0 <= from <= s.len() - k,
    ensures
        find(s, c, k + from) == k + find(s.skip(k), c, from),
    decreases s.len() - k - from,
{
    if from < s.len() - k {
        assert(s.skip(k)[from] == s[k + from]);
        if s[k + from] != c {
            lemma_find_shift(s, c, k, from + 1);
        }
    }
}

/// The lines of what follows the first `k` characters are the lines from
/// position `k` on.
proof fn lemma_lines_shift(text: Seq<char>, k: int, start: int)
    requires
        0 <= k,
        0 <= start <= text.len() - k,
    ensures
        lines_from(text, k + start) == lines_from(text.skip(k), start),
    decreases text.len() - k - start,
{
    let rest = text.skip(k);
    if start < rest.len() {
        lemma_find_shift(text, '\n', k, start);
        lemma_find(rest, '\n', start);
        let end = find(rest, '\n', start);
        assert(text.subrange(k + start, k + end) == rest.subrange(start, end));
        if end < rest.len() {
            lemma_lines_shift(text, k, end + 1);
        }
    }
}

/// The text made of `lines`, with `ending` after each of them.
pub open spec fn joined(lines: Seq<Seq<char>>, ending: Seq<char>) -> Seq<char>
    decreases lines.len(),
{
    if lines.len() == 0 {
        Seq::empty()
    } else {
        lines[0] + ending + joined(lines.skip(1), ending)
    }
}

/// A line feed, or a carriage return and a line feed.
pub open spec fn is_line_ending(ending: Seq<char>) -> bool {
    ending == seq!['\n'] || ending == seq!['\r', '\n']
}

/// A text written line by line reads as those lines: with a line ending after
/// each line, the lines of the text are the lines written, as long as none of
/// them holds a line feed, and none ends in a carriage return where the
/// ending is the line feed alone.
pub proof fn lemma_lines_of_joined(lines: Seq<Seq<char>>, ending: Seq<char>)
    requires
        is_line_ending(ending),
        forall|i: int| 0 <= i < lines.len() ==> !(#[trigger] lines[i]).contains('\n'),
        ending.len() == 1 ==> forall|i: int|
            0 <= i < lines.len() ==> strip_cr(#[trigger] lines[i]) == lines[i],
    ensures
        lines_of(joined(lines, ending)) == lines,
    decreases lines.len(),
{
    let text = joined(lines, ending);
    if lines.len() > 0 {
        let first = lines[0];
        let rest = lines.skip(1);
        let stop = first.len() + ending.len() - 1;
        assert forall|i: int| 0 <= i < rest.len() implies !(#[trigger] rest[i]).contains('\n') by {
            assert(rest[i] == lines[i + 1]);
        }
        if ending.len() == 1 {
            assert forall|i: int| 0 <= i < rest.len() implies strip_cr(#[trigger] rest[i])
                == rest[i] by {
                assert(rest[i] == lines[i + 1]);
            }
        }
        lemma_lines_of_joined(rest, ending);
        assert(text[stop] == '\n');
        assert forall|k: int| 0 <= k < stop implies text[k] != '\n' by {
            if k < first.len() {
                assert(text[k] == first[k]);
                assert(first.contains(first[k]));
            }
        }
        lemma_find_is(text, '\n', 0, stop);
        assert(strip_cr(text.subrange(0, stop)) == first) by {
            if ending.len() == 1 {
                assert(text.subrange(0, stop) == first);
            } else {
                assert(text.subrange(0, stop) == first.push('\r'));
                assert(first.push('\r').drop_last() == first);
            }
        }
        assert(text.skip(stop + 1) == joined(rest, ending));
        lemma_lines_shift(text, stop + 1, 0);
        assert(seq![first] + rest == lines);
    }
}

/// No line from `start` on holds a line feed.
proof fn lemma_no_line_feed_from(text: Seq<char>, start: int, i: int)
    requires
        0 <= start,
        0 <= i < lines_from(text, start).len(),
    ensures
        !lines_from(text, start)[i].contains('\n'),
    decreases text.len() - start,
{
    let end = find(text, '\n', start);
    lemma_find(text, '\n', start);
    if i == 0 {
        let line = lines_from(text, start)[0];
        if line.contains('\n') {
            let k = choose|k: int| 0 <= k < line.len() && line[k] == '\n';
            assert(line[k] == text[start + k]);
        }
    } else {
        lemma_no_line_feed_from(text, end + 1, i - 1);
    }
}

/// No line of a text holds a line feed.
pub proof fn lemma_lines_hold_no_line_feed(text: Seq<char>)
    ensures
        forall|i: int|
            0 <= i < lines_of(text).len() ==> !(#[trigger] lines_of(text)[i]).contains('\n'),
{
    assert forall|i: int| 0 <= i < lines_of(text).len() implies !(#[trigger] lines_of(
        text,
    )[i]).contains('\n') by {
        lemma_no_line_feed_from(text, 0, i);
    }
}

/// The lines from `from` on end with the lines from `start` on, where `start`
/// is where a line begins: the lines of the first are `k` more.
proof fn lemma_lines_reach(text: Seq<char>, from: int, start: int) -> (k: int)
    requires
        0 <= from <= start < text.len(),
        from == start || text[start - 1] == '\n',
    ensures
        0 <= k,
        lines_from(text, from).len() == k + lines_from(text, start).len(),
        forall|j: int|
            0 <= j < lines_from(text, start).len() ==> lines_from(text, from)[k + j] == lines_from(
                text,
                start,
            )[j],
    decreases start - from,
{
    if from == start {
        0
    } else {
        let end = find(text, '\n', from);
        lemma_find(text, '\n', from);
        assert(end <= start - 1);
        let k = lemma_lines_reach(text, end + 1, start);
        k + 1
    }
}

/// The line `Security=wpa-configsection`.
pub open spec fn sentinel_line() -> Seq<char> {
    Key::Security.name() + seq!['='] + sentinel()
}

/// The sentinel is a value that can stand bare.
proof fn lemma_sentinel_is_plain()
    ensures
        sentinel().len() == 17,
        all_plain(sentinel()),
{
    reveal_strlit("wpa-configsection");
    let value = sentinel();
    assert forall|i: int| 0 <= i < value.len() implies is_plain(#[trigger] value[i]) by {
        assert(i == 0 || i == 1 || i == 2 || i == 3 || i == 4 || i == 5 || i == 6 || i == 7
            || i == 8 || i == 9 || i == 10 || i == 11 || i == 12 || i == 13 || i == 14
            || i == 15 || i == 16);
    }
}

/// The sentinel line holds no line feed and does not end in a carriage
/// return.
proof fn lemma_sentinel_line_is_one_line()
    ensures
        sentinel_line().len() == 26,
        !sentinel_line().contains('\n'),
        sentinel_line().last() != '\r',
{
    reveal_strlit("Security");
    lemma_sentinel_is_plain();
    let set = sentinel_line();
    assert forall|i: int| 0 <= i < set.len() implies set[i] != '\n' && set[i] != '\r' by {
        if i < 8 {
            assert(set[i] == Key::Security.name()[i]);
        } else if i > 8 {
            assert(set[i] == sentinel()[i - 9]);
            assert(is_plain(sentinel()[i - 9]));
        }
    }
}

/// Where the text goes on at `start` with `set`, and after it ends or goes on
/// with white space or `#`, the line that begins at `start` is `set` and a
/// `tail` that is empty or begins with white space or `#`.
proof fn lemma_line_begins_with(text: Seq<char>, start: int, set: Seq<char>) -> (tail: Seq<char>)
    requires
        0 <= start,
        start + set.len() <= text.len(),
        set.len() > 0,
        text.subrange(start, start + set.len()) == set,
        !set.contains('\n'),
        set.last() != '\r',
        start + set.len() == text.len() || stops_bare(text[start + set.len()]),
    ensures
        lines_from(text, start).len() > 0,
        lines_from(text, start)[0] == set + tail,
        tail.len() == 0 || stops_bare(tail[0]),
{
    let n = set.len() as int;
    let end = find(text, '\n', start);
    lemma_find(text, '\n', start);
    assert(end >= start + n) by {
        if end < start + n {
            assert(text.subrange(start, start + n)[end - start] == text[end]);
            assert(set.contains(set[end - start]));
        }
    }
    let whole = text.subrange(start, end);
    let line = lines_from(text, start)[0];
    assert(line == if end < text.len() {
        strip_cr(whole)
    } else {
        whole
    });
    assert(whole.take(n) == set) by {
        assert(whole.take(n) == text.subrange(start, start + n));
    }
    assert(line.len() >= n && line.take(n) == set) by {
        if line.len() < whole.len() {
            assert(line == whole.drop_last());
            assert(whole.last() == '\r');
            if whole.len() == n {
                assert(whole == whole.take(n));
            }
            assert(line.take(n) == whole.take(n));
        }
    }
    let tail = line.skip(n);
    assert(line == line.take(n) + line.skip(n));
    if tail.len() > 0 {
        assert(tail[0] == text[start + n]);
    }
    tail
}

/// A file with the line `Security=wpa-configsection` describes no profile,
/// wherever in the file the line stands, whatever stands before it and after
/// it, and whether it ends with the file, with a line ending or with a
/// comment.
pub proof fn lemma_sentinel_line_rejects(
    path: std::path::PathBuf,
    before: Seq<char>,
    after: Seq<char>,
)
    requires
        before.len() == 0 || before.last() == '\n',
        after.len() == 0 || stops_bare(after[0]),
    ensures
        profile_of(path, before + sentinel_line() + after) is None,
{
    lemma_sentinel_is_plain();
    lemma_sentinel_line_is_one_line();
    let set = sentinel_line();
    let text = before + set + after;
    let start = before.len() as int;
    assert(text.subrange(start, start + set.len()) == set);
    if start > 0 {
        assert(text[start - 1] == before.last());
    }
    if after.len() > 0 {
        assert(text[start + set.len()] == after[0]);
    }
    let k = lemma_lines_reach(text, 0, start);
    let tail = lemma_line_begins_with(text, start, set);
    let line = lines_of(text)[k];
    assert(line == set + tail);
    assert(assignment_of(line) == Some((Key::Security, sentinel()))) by {
        if tail.len() == 0 {
            assert(set + tail == set);
            lemma_bare_assignment(Key::Security, sentinel());
        } else {
            lemma_comment_is_cut(Key::Security, sentinel(), tail);
        }
    }
}

/// A file describes a profile exactly where it sets `Interface` and no line
/// sets `Security` to the sentinel. What it sets `Connection` to, or whether
/// it does, makes no difference.
pub proof fn lemma_profile_iff(path: std::path::PathBuf, lines: Seq<Seq<char>>)
    ensures
        profile_from(path, lines) is Some <==> assignments(lines).contains_key(Key::Interface)
            && !delegates_security(lines),
{
}

/// Reading the same file twice gives the same: both times no profile, or
/// both times a profile with the same path, texts, connection kind and
/// status. Here `first` and `second` are any two results that `get_profile`
/// may give for the file.
pub proof fn lemma_reading_twice(
    path: std::path::PathBuf,
    text: Seq<char>,
    first: Option<Profile>,
    second: Option<Profile>,
)
    requires
        match first {
            Some(profile) => profile_of(path, text) == Some(profile@),
            None => profile_of(path, text) is None,
        },
        match second {
            Some(profile) => profile_of(path, text) == Some(profile@),
            None => profile_of(path, text) is None,
        },
    ensures
        first is Some <==> second is Some,
        first is Some ==> first->0@ == second->0@,
{
}

/// Listing goes file by file: the profiles of two batches, one after the
/// other, are the profiles of the first and then those of the second.
pub proof fn lemma_listed_in_order(
    first: Seq<(std::path::PathBuf, String)>,
    second: Seq<(std::path::PathBuf, String)>,
)
    ensures
        listed(first + second) == listed(first) + listed(second),
    decreases second.len(),
{
    if second.len() == 0 {
        assert(first + second == first);
        assert(listed(first) + listed(second) == listed(first));
    } else {
        lemma_listed_in_order(first, second.drop_last());
        assert((first + second).drop_last() == first + second.drop_last());
        assert((first + second).last() == second.last());
        let before = listed(second.drop_last());
        match profile_of(second.last().0, second.last().1@) {
            Some(profile) => {
                assert((listed(first) + before).push(profile) == listed(first) + before.push(
                    profile,
                ));
            },
            None => {},
        }
    }
}

/// A file that describes no profile leaves no gap in the list: the list is
/// that of the files before it and after it.
pub proof fn lemma_rejected_file_is_skipped(
    before: Seq<(std::path::PathBuf, String)>,
    source: (std::path::PathBuf, String),
    after: Seq<(std::path::PathBuf, String)>,
)
    requires
        profile_of(source.0, source.1@) is None,
    ensures
        listed(before.push(source) + after) == listed(before) + listed(after),
{
    lemma_listed_in_order(before.push(source), after);
    assert(before.push(source).drop_last() == before);
}

} // verus!
