//! The lines of a profile file and what they set.
//!
//! A line that sets an option has the form `key=value`, with nothing before
//! the key and nothing around the `=`. The key is one of five names, spelled
//! exactly. The value takes one of two forms.
//!
//! A quoted value begins with `"` or `'` and ends at the next quote of the
//! same kind. What stands between the two is the value, character for
//! character. A value that opens a quote and never closes it is no value, and
//! its line sets nothing.
//!
//! A bare value is any other. It ends before the first white space or `#`, or
//! with the line. A backslash makes the character after it part of the value,
//! whatever that character is, and is itself left out; at the very end of the
//! line, where it has nothing to escape, a backslash stands for itself. A bare
//! value may be empty, as in `key= x`. Only where nothing at all follows the
//! `=` is there no value.
//!
//! Whatever follows the value, a comment for one, is not looked at. A line of
//! any other form sets nothing.
//!
//! A file sets what its lines set; where two lines set the same option, the
//! later one counts.

use crate::text::{
    chars_of, find, find_char, is_space, is_whitespace, lines_of, match_prefix, split_lines,
    string_of, views,
};
use vstd::hash_map::StringHashMap;
use vstd::prelude::*;
use vstd::slice::slice_subrange;

verus! {

/// The options that a line can set.
#[derive(Debug, Clone, Copy, PartialEq, Eq, Structural)]
pub enum Key {
    Description,
    Connection,
    Interface,
    Security,
    Essid,
}

impl Key {
    /// The name by which a line sets the option.
    pub open spec fn name(self) -> Seq<char> {
        match self {
            Key::Description => "Description"@,
            Key::Connection => "Connection"@,
            Key::Interface => "Interface"@,
            Key::Security => "Security"@,
            Key::Essid => "ESSID"@,
        }
    }

    /// The name by which a line sets the option.
    pub fn as_str(&self) -> (r: &'static str)
        ensures
            r@ == self.name(),
    {
        match self {
            Key::Description => "Description",
            Key::Connection => "Connection",
            Key::Interface => "Interface",
            Key::Security => "Security",
            Key::Essid => "ESSID",
        }
    }
}

/// The key that `line` begins with.
pub open spec fn key_of(line: Seq<char>) -> Option<Key> {
    if Key::Description.name().is_prefix_of(line) {
        Some(Key::Description)
    } else if Key::Connection.name().is_prefix_of(line) {
        Some(Key::Connection)
    } else if Key::Interface.name().is_prefix_of(line) {
        Some(Key::Interface)
    } else if Key::Security.name().is_prefix_of(line) {
        Some(Key::Security)
    } else if Key::Essid.name().is_prefix_of(line) {
        Some(Key::Essid)
    } else {
        None
    }
}

/// A quote opens and closes a quoted value.
pub open spec fn is_quote(c: char) -> bool {
    c == '"' || c == '\''
}

/// The value of `s` read as a quoted value: what stands between the quote that
/// `s` begins with and the next quote of the same kind. There is none where
/// `s` does not begin with a quote or the quote is never closed.
pub open spec fn quoted_value(s: Seq<char>) -> Option<Seq<char>> {
    if s.len() > 0 && is_quote(s[0]) && find(s, s[0], 1) < s.len() {
        Some(s.subrange(1, find(s, s[0], 1)))
    } else {
        None
    }
}

/// Whether position `i` of `s` holds a backslash that escapes the character
/// after it: a backslash that is not itself escaped. A backslash that ends `s`
/// has nothing to escape.
pub open spec fn is_marker(s: Seq<char>, i: int) -> bool
    decreases i,
{
    0 <= i < s.len() - 1 && s[i] == '\\' && (i == 0 || !is_marker(s, i - 1))
}

/// Whether position `i` of `s` ends a bare value: white space or `#`, not
/// escaped.
pub open spec fn ends_bare(s: Seq<char>, i: int) -> bool {
    0 <= i < s.len() && (is_space(s[i]) || s[i] == '#') && !is_marker(s, i - 1)
}

/// The first position at or after `from` that ends a bare value, or the
/// length of `s` where there is none.
pub open spec fn bare_end(s: Seq<char>, from: int) -> int
    decreases s.len() - from,
{
    if from >= s.len() {
        s.len() as int
    } else if ends_bare(s, from) {
        from
    } else {
        bare_end(s, from + 1)
    }
}

/// The first `n` characters of `s` without the backslashes that escape.
pub open spec fn unescaped(s: Seq<char>, n: int) -> Seq<char>
    decreases n,
{
    if n <= 0 {
        Seq::empty()
    } else if is_marker(s, n - 1) {
        unescaped(s, n - 1)
    } else {
        unescaped(s, n - 1).push(s[n - 1])
    }
}

/// The value of `s` read as a bare value: the characters before the first
/// white space or `#` that is not escaped, without the backslashes that
/// escape. There is none where `s` is empty.
pub open spec fn bare_value(s: Seq<char>) -> Option<Seq<char>> {
    if s.len() == 0 {
        None
    } else {
        Some(unescaped(s, bare_end(s, 0)))
    }
}

/// The value that `s` holds: quoted where `s` begins with a quote, bare
/// otherwise.
pub open spec fn value_of(s: Seq<char>) -> Option<Seq<char>> {
    if s.len() > 0 && is_quote(s[0]) {
        quoted_value(s)
    } else {
        bare_value(s)
    }
}

/// What `line` sets: its key, where it begins with one that `=` and a value
/// follow, and that value.
pub open spec fn assignment_of(line: Seq<char>) -> Option<(Key, Seq<char>)> {
    match key_of(line) {
        Some(key) => {
            let n = key.name().len() as int;
            if n < line.len() && line[n] == '=' {
                match value_of(line.skip(n + 1)) {
                    Some(value) => Some((key, value)),
                    None => None,
                }
            } else {
                None
            }
        },
        None => None,
    }
}

/// Reads the key that `input` begins with, and the length of its name.
pub fn parse_key(input: &[char]) -> (r: Option<(Key, usize)>)
    ensures
        match r {
            Some((key, n)) => key_of(input@) == Some(key) && n == key.name().len(),
            None => key_of(input@) is None,
        },
{
    if let Some(n) = match_prefix(input, Key::Description.as_str()) {
        Some((Key::Description, n))
    } else if let Some(n) = match_prefix(input, Key::Connection.as_str()) {
        Some((Key::Connection, n))
    } else if let Some(n) = match_prefix(input, Key::Interface.as_str()) {
        Some((Key::Interface, n))
    } else if let Some(n) = match_prefix(input, Key::Security.as_str()) {
        Some((Key::Security, n))
    } else if let Some(n) = match_prefix(input, Key::Essid.as_str()) {
        Some((Key::Essid, n))
    } else {
        None
    }
}

/// Reads a quoted value: what stands between the quote that `input` begins
/// with and the next quote of the same kind.
pub fn quote_surrounded(input: &[char]) -> (r: Option<String>)
    ensures
        match r {
            Some(value) => quoted_value(input@) == Some(value@),
            None => quoted_value(input@) is None,
        },
{
    if input.len() == 0 {
        return None;
    }
    let quote = input[0];
    if quote != '"' && quote != '\'' {
        return None;
    }
    let close = find_char(input, quote, 1);
    if close < input.len() {
        Some(string_of(slice_subrange(input, 1, close)))
    } else {
        None
    }
}

/// Reads a bare value: the characters up to the first white space or `#` that
/// no backslash escapes, without the backslashes that escape.
pub fn take_until_ws(input: &[char]) -> (r: Option<String>)
    ensures
        match r {
            Some(value) => bare_value(input@) == Some(value@),
            None => bare_value(input@) is None,
        },
{
    let mut output = String::new();
    let mut skip = false;
    let mut i: usize = 0;
    while i < input.len()
        invariant
            i <= input@.len(),
            skip == is_marker(input@, i - 1),
            bare_end(input@, i as int) == bare_end(input@, 0),
            output@ == unescaped(input@, i as int),
        decreases input@.len() - i,
    {
        let c = input[i];
        if c == '\\' && !skip && i + 1 < input.len() {
            skip = true;
        } else if (is_whitespace(c) || c == '#') && !skip {
            return Some(output);
        } else {
            output.push(c);
            skip = false;
        }
        i += 1;
    }
    if input.len() == 0 {
        None
    } else {
        Some(output)
    }
}

/// Reads a value: a quoted one where `input` begins with a quote, a bare one
/// otherwise.
pub fn parse_value(input: &[char]) -> (r: Option<String>)
    ensures
        match r {
            Some(value) => value_of(input@) == Some(value@),
            None => value_of(input@) is None,
        },
{
    if input.len() > 0 && (input[0] == '"' || input[0] == '\'') {
        quote_surrounded(input)
    } else {
        take_until_ws(input)
    }
}

/// Reads what a line, given by its characters, sets.
pub fn parse_line_chars(line: &[char]) -> (r: Option<(Key, String)>)
    ensures
        match r {
            Some((key, value)) => assignment_of(line@) == Some((key, value@)),
            None => assignment_of(line@) is None,
        },
{
    match parse_key(line) {
        Some((key, n)) => {
            if n < line.len() && line[n] == '=' {
                match parse_value(slice_subrange(line, n + 1, line.len())) {
                    Some(value) => Some((key, value)),
                    None => None,
                }
            } else {
                None
            }
        },
        None => None,
    }
}

/// Reads what a line sets: the key and the value, or nothing where the line
/// sets no option.
pub fn parse_line(line: &str) -> (r: Option<(Key, String)>)
    ensures
        match r {
            Some((key, value)) => assignment_of(line@) == Some((key, value@)),
            None => assignment_of(line@) is None,
        },
{
    let chars = chars_of(line);
    parse_line_chars(chars.as_slice())
}

/// What the lines set, one after the other: a later line overrides an
/// earlier one that sets the same option.
pub open spec fn assignments(lines: Seq<Seq<char>>) -> Map<Key, Seq<char>>
    decreases lines.len(),
{
    if lines.len() == 0 {
        Map::empty()
    } else {
        let before = assignments(lines.drop_last());
        match assignment_of(lines.last()) {
            Some((key, value)) => before.insert(key, value),
            None => before,
        }
    }
}

/// Whether `map` holds, under the names of their options, the values that
/// `set` holds, and nothing else.
pub open spec fn holds_by_name(map: Map<Seq<char>, String>, set: Map<Key, Seq<char>>) -> bool {
    &&& forall|key: Key|
        #![trigger key.name()]
        map.contains_key(key.name()) == set.contains_key(key)
    &&& forall|key: Key|
        #![trigger key.name()]
        set.contains_key(key) ==> map[key.name()]@ == set[key]
    &&& forall|name: Seq<char>| #![trigger map.contains_key(name)]
        map.contains_key(name) ==> exists|key: Key| name == key.name()
}

/// Reads every option that the text of a profile file sets, and returns the
/// values under the names of their options.
pub fn parse_profile_to_hashmap(config: &str) -> (map: StringHashMap<String>)
    ensures
        holds_by_name(map@, assignments(lines_of(config@))),
{
    let text = chars_of(config);
    let lines = split_lines(text.as_slice());
    let mut map: StringHashMap<String> = StringHashMap::new();
    let mut i: usize = 0;
    while i < lines.len()
        invariant
            i <= lines@.len(),
            views(lines@) == lines_of(config@),
            holds_by_name(map@, assignments(views(lines@).take(i as int))),
        decreases lines@.len() - i,
    {
        proof {
            let upto = views(lines@).take(i + 1);
            assert(upto.drop_last() == views(lines@).take(i as int));
            assert(upto.last() == lines@[i as int]@);
            lemma_names_differ();
        }
        if let Some((key, value)) = parse_line_chars(lines[i]) {
            map.insert(key.as_str().to_owned(), value);
        }
        i += 1;
    }
    assert(views(lines@).take(i as int) == views(lines@));
    map
}

/// No two options have the same name.
pub proof fn lemma_names_differ()
    ensures
        forall|a: Key, b: Key| a.name() == b.name() ==> a == b,
{
    reveal_strlit("Description");
    reveal_strlit("Connection");
    reveal_strlit("Interface");
    reveal_strlit("Security");
    reveal_strlit("ESSID");
    assert forall|a: Key, b: Key| a.name() == b.name() implies a == b by {
        assert(a.name()[0] == b.name()[0]);
    }
}

} // verus!
