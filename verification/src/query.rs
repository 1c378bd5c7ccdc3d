//! Records of the TeamSpeak query interface.

use vstd::prelude::*;

use crate::text::{same_text, split_on};

verus! {

/// The fields of a record as a map. Where a key stands twice, the first field counts.
pub open spec fn field_map(fields: Seq<(String, String)>) -> Map<Seq<char>, Seq<char>>
    decreases fields.len(),
{
    if fields.len() == 0 {
        Map::empty()
    } else {
        field_map(fields.drop_first()).insert(fields[0].0@, fields[0].1@)
    }
}

/// One record of a response: named fields, their values still escaped.
#[derive(Debug)]
pub struct Record {
    pub fields: Vec<(String, String)>,
}

impl View for Record {
    type V = Map<Seq<char>, Seq<char>>;

    open spec fn view(&self) -> Map<Seq<char>, Seq<char>> {
        field_map(self.fields@)
    }
}

impl Record {
    /// The value of the field `key`.
    pub fn get(&self, key: &str) -> (value: Option<&String>)
        ensures
            value is Some == self@.contains_key(key@),
            value is Some ==> value->0@ == self@[key@],
    {
        let len: usize = self.fields.len();
        let mut i: usize = 0;
        assert(self.fields@.skip(0) =~= self.fields@);
        while i < len
            invariant
                len == self.fields@.len(),
                i <= len,
                self@.contains_key(key@) == field_map(self.fields@.skip(i as int)).contains_key(
                    key@,
                ),
                self@.contains_key(key@) ==> self@[key@] == field_map(
                    self.fields@.skip(i as int),
                )[key@],
            decreases len - i,
        {
            proof {
                assert(self.fields@.skip(i as int).drop_first() =~= self.fields@.skip(i + 1));
            }
            if same_text(self.fields[i].0.as_str(), key) {
                return Some(&self.fields[i].1);
            }
            i = i + 1;
        }
        assert(self.fields@.skip(len as int) =~= Seq::<(String, String)>::empty());
        None
    }
}

/// The character that stands, after a backslash, for `c`, where `c` is written with an escape.
pub open spec fn escape_letter(c: char) -> Option<char> {
    match c {
        '\\' => Some('\\'),
        '/' => Some('/'),
        ' ' => Some('s'),
        '|' => Some('p'),
        '\u{7}' => Some('a'),
        '\u{8}' => Some('b'),
        '\u{c}' => Some('f'),
        '\n' => Some('n'),
        '\r' => Some('r'),
        '\t' => Some('t'),
        '\u{b}' => Some('v'),
        _ => None,
    }
}

/// What the character `c` stands for after a backslash.
pub open spec fn unescape_letter(c: char) -> char {
    match c {
        's' => ' ',
        'p' => '|',
        'a' => '\u{7}',
        'b' => '\u{8}',
        'f' => '\u{c}',
        'n' => '\n',
        'r' => '\r',
        't' => '\t',
        'v' => '\u{b}',
        _ => c,
    }
}

/// `arg` with an escape for each character that has one.
pub open spec fn escaped(arg: Seq<char>) -> Seq<char>
    decreases arg.len(),
{
    if arg.len() == 0 {
        Seq::empty()
    } else {
        (match escape_letter(arg[0]) {
            Some(letter) => seq!['\\', letter],
            None => seq![arg[0]],
        }) + escaped(arg.skip(1))
    }
}

/// `value` with each escape replaced by what it stands for. A backslash at the very end is dropped.
pub open spec fn unescaped(value: Seq<char>) -> Seq<char>
    decreases value.len(),
{
    if value.len() == 0 {
        Seq::empty()
    } else if value[0] != '\\' {
        seq![value[0]] + unescaped(value.skip(1))
    } else if value.len() == 1 {
        Seq::empty()
    } else {
        seq![unescape_letter(value[1])] + unescaped(value.skip(2))
    }
}

/// Whether `c` has the property White_Space of Unicode.
pub open spec fn is_white_space(c: char) -> bool {
    ||| '\u{9}' <= c <= '\u{d}'
    ||| c == ' '
    ||| c == '\u{85}'
    ||| c == '\u{a0}'
    ||| c == '\u{1680}'
    ||| '\u{2000}' <= c <= '\u{200a}'
    ||| c == '\u{2028}'
    ||| c == '\u{2029}'
    ||| c == '\u{202f}'
    ||| c == '\u{205f}'
    ||| c == '\u{3000}'
}

/// The words of `s`: what stands between white space, in order, without empty words.
pub open spec fn words(s: Seq<char>) -> Seq<Seq<char>>
    decreases s.len(),
{
    if s.len() == 0 {
        Seq::empty()
    } else {
        let before = words(s.drop_last());
        if is_white_space(s.last()) {
            before
        } else if s.len() == 1 || is_white_space(s[s.len() - 2]) {
            before.push(seq![s.last()])
        } else {
            before.drop_last().push(before.last().push(s.last()))
        }
    }
}

/// The fields that `words` write as `key=value`. A word without `=` writes none, a second `=` ends
/// the value, and of a key that is written twice the last value counts.
pub open spec fn word_fields(words: Seq<Seq<char>>, unescape: bool) -> Map<Seq<char>, Seq<char>>
    decreases words.len(),
{
    if words.len() == 0 {
        Map::empty()
    } else {
        let before = word_fields(words.drop_last(), unescape);
        let pieces = split_on(words.last(), '=');
        if pieces.len() < 2 {
            before
        } else if unescape {
            before.insert(pieces[0], unescaped(pieces[1]))
        } else {
            before.insert(pieces[0], pieces[1])
        }
    }
}

/// The records of one line, with `|` between them.
pub open spec fn line_records(line: Seq<char>, unescape: bool) -> Seq<Map<Seq<char>, Seq<char>>> {
    split_on(line, '|').map_values(|part: Seq<char>| word_fields(words(part), unescape))
}

/// The records of a response, line by line, the values with or without their escapes.
pub open spec fn parsed_records(lines: Seq<Seq<char>>, unescape: bool) -> Seq<
    Map<Seq<char>, Seq<char>>,
> {
    lines.map_values(|line: Seq<char>| line_records(line, unescape)).flatten()
}

/// Whether `arg` has none of the characters that end an argument, a record or a command.
pub open spec fn is_one_argument(arg: Seq<char>) -> bool {
    forall|i: int|
        0 <= i < arg.len() ==> (#[trigger] arg[i]) != ' ' && arg[i] != '|' && arg[i] != '\n'
            && arg[i] != '\r'
}

/// The texts of a list of strings.
pub open spec fn texts(strings: Seq<String>) -> Seq<Seq<char>> {
    strings.map_values(|s: String| s@)
}

/// The maps of a list of records.
pub open spec fn record_maps(records: Seq<Record>) -> Seq<Map<Seq<char>, Seq<char>>> {
    records.map_values(|r: Record| r@)
}

/// Calls `ts3_query::raw::parse_multi_hashmap`, which cuts the lines of a response into records and
/// each record into named values. Claimed is that it cuts each line at `|`, each part at white space
/// and each word at `=`, takes the first two pieces of a word for key and value, and lets the last
/// word with a key count; and that each record holds the fields of the hash map in its place. The
/// order of the fields within a record is left open.
#[verifier::external_body]
pub(crate) fn parse_multi_hashmap(lines: Vec<String>, unescape: bool) -> (records: Vec<Record>)
    ensures
        record_maps(records@) == parsed_records(texts(lines@), unescape),
{
    ts3_query::raw::parse_multi_hashmap(lines, unescape)
        .into_iter()
        .map(|fields| Record { fields: fields.into_iter().collect() })
        .collect()
}

/// Calls `ts3_query::raw::unescape_val`, which undoes the escapes in a value. Claimed is that it
/// replaces each backslash and the character after it by what they stand for together.
#[verifier::external_body]
pub(crate) fn unescape_val(value: &str) -> (plain: String)
    ensures
        plain@ == unescaped(value@),
{
    ts3_query::raw::unescape_val(value)
}

/// Calls `ts3_query::raw::escape_arg`, which escapes an argument of a command. Claimed is that it
/// replaces each character that has an escape by it, and keeps every other.
#[verifier::external_body]
pub(crate) fn escape_arg(arg: &str) -> (safe: String)
    ensures
        safe@ == escaped(arg@),
{
    ts3_query::raw::escape_arg(arg)
}

/// Nothing in an escaped argument ends an argument, a record or a command.
pub proof fn law_escaped_is_one_argument(arg: Seq<char>)
    ensures
        is_one_argument(escaped(arg)),
    decreases arg.len(),
{
    if arg.len() > 0 {
        law_escaped_is_one_argument(arg.skip(1));
        let rest = escaped(arg.skip(1));
        let all = escaped(arg);
        let n = all.len() - rest.len();
        assert forall|i: int| 0 <= i < all.len() implies (#[trigger] all[i]) != ' ' && all[i] != '|'
            && all[i] != '\n' && all[i] != '\r' by {
            if i >= n {
                assert(all[i] == rest[i - n]);
            }
        }
    }
}

/// Texts are escaped piece by piece.
pub proof fn law_escaped_piecewise(first: Seq<char>, second: Seq<char>)
    ensures
        escaped(first + second) == escaped(first) + escaped(second),
    decreases first.len(),
{
    if first.len() == 0 {
        assert(first + second =~= second);
        assert(escaped(first) + escaped(second) =~= escaped(second));
    } else {
        law_escaped_piecewise(first.skip(1), second);
        assert((first + second).skip(1) =~= first.skip(1) + second);
        assert(escaped(first + second) =~= escaped(first) + escaped(second));
    }
}

/// Letters, digits and signs other than the backslash, the slash and the bar are written as they are
/// and read as they are, in a text of any length.
pub proof fn law_plain_text_stays(s: Seq<char>)
    requires
        forall|i: int|
            0 <= i < s.len() ==> ('!' <= #[trigger] s[i] <= '~' || s[i] >= '\u{80}') && s[i]
                != '\\' && s[i] != '/' && s[i] != '|',
    ensures
        escaped(s) == s,
        unescaped(s) == s,
    decreases s.len(),
{
    if s.len() > 0 {
        let rest = s.skip(1);
        assert forall|i: int| 0 <= i < rest.len() implies ('!' <= #[trigger] rest[i] <= '~'
            || rest[i] >= '\u{80}') && rest[i] != '\\' && rest[i] != '/' && rest[i] != '|' by {
            assert(rest[i] == s[i + 1]);
        }
        law_plain_text_stays(rest);
        assert(s[0] != '\\');
        assert(seq![s[0]] + rest =~= s);
        assert(escaped(s) =~= s);
        assert(unescaped(s) =~= s);
    } else {
        assert(escaped(s) =~= s);
        assert(unescaped(s) =~= s);
    }
}

/// A backslash and the character behind it stand for one character, and what follows is not touched
/// by that. Every character without an escape of its own stands for itself.
pub proof fn law_unescaped_step(c: char, rest: Seq<char>)
    ensures
        unescaped(seq!['\\', c] + rest).len() == unescaped(rest).len() + 1,
        unescaped(seq!['\\', c] + rest).skip(1) == unescaped(rest),
        c == '\\' || c == '/' || c < 'a' || c > 'z' ==> unescaped(seq!['\\', c] + rest)[0] == c,
        c != '\\' ==> unescaped(seq![c] + rest) == seq![c] + unescaped(rest),
{
    assert((seq!['\\', c] + rest).skip(2) =~= rest);
    assert(unescaped(seq!['\\', c] + rest).skip(1) =~= unescaped(rest));
    assert((seq![c] + rest).skip(1) =~= rest);
}

/// The escapes of the query interface, in front of any text.
pub proof fn law_escapes(rest: Seq<char>)
    ensures
        escaped(seq!['\\'] + rest) == seq!['\\', '\\'] + escaped(rest),
        escaped(seq!['/'] + rest) == seq!['\\', '/'] + escaped(rest),
        escaped(seq![' '] + rest) == seq!['\\', 's'] + escaped(rest),
        escaped(seq!['|'] + rest) == seq!['\\', 'p'] + escaped(rest),
        escaped(seq!['\u{7}'] + rest) == seq!['\\', 'a'] + escaped(rest),
        escaped(seq!['\u{8}'] + rest) == seq!['\\', 'b'] + escaped(rest),
        escaped(seq!['\u{c}'] + rest) == seq!['\\', 'f'] + escaped(rest),
        escaped(seq!['\n'] + rest) == seq!['\\', 'n'] + escaped(rest),
        escaped(seq!['\r'] + rest) == seq!['\\', 'r'] + escaped(rest),
        escaped(seq!['\t'] + rest) == seq!['\\', 't'] + escaped(rest),
        escaped(seq!['\u{b}'] + rest) == seq!['\\', 'v'] + escaped(rest),
        unescaped(seq!['\\', '\\'] + rest) == seq!['\\'] + unescaped(rest),
        unescaped(seq!['\\', '/'] + rest) == seq!['/'] + unescaped(rest),
        unescaped(seq!['\\', 's'] + rest) == seq![' '] + unescaped(rest),
        unescaped(seq!['\\', 'p'] + rest) == seq!['|'] + unescaped(rest),
        unescaped(seq!['\\', 'a'] + rest) == seq!['\u{7}'] + unescaped(rest),
        unescaped(seq!['\\', 'b'] + rest) == seq!['\u{8}'] + unescaped(rest),
        unescaped(seq!['\\', 'f'] + rest) == seq!['\u{c}'] + unescaped(rest),
        unescaped(seq!['\\', 'n'] + rest) == seq!['\n'] + unescaped(rest),
        unescaped(seq!['\\', 'r'] + rest) == seq!['\r'] + unescaped(rest),
        unescaped(seq!['\\', 't'] + rest) == seq!['\t'] + unescaped(rest),
        unescaped(seq!['\\', 'v'] + rest) == seq!['\u{b}'] + unescaped(rest),
{
    assert((seq!['\\'] + rest).skip(1) =~= rest);
    assert((seq!['/'] + rest).skip(1) =~= rest);
    assert((seq![' '] + rest).skip(1) =~= rest);
    assert((seq!['|'] + rest).skip(1) =~= rest);
    assert((seq!['\u{7}'] + rest).skip(1) =~= rest);
    assert((seq!['\u{8}'] + rest).skip(1) =~= rest);
    assert((seq!['\u{c}'] + rest).skip(1) =~= rest);
    assert((seq!['\n'] + rest).skip(1) =~= rest);
    assert((seq!['\r'] + rest).skip(1) =~= rest);
    assert((seq!['\t'] + rest).skip(1) =~= rest);
    assert((seq!['\u{b}'] + rest).skip(1) =~= rest);
    assert((seq!['\\', '\\'] + rest).skip(2) =~= rest);
    assert((seq!['\\', '/'] + rest).skip(2) =~= rest);
    assert((seq!['\\', 's'] + rest).skip(2) =~= rest);
    assert((seq!['\\', 'p'] + rest).skip(2) =~= rest);
    assert((seq!['\\', 'a'] + rest).skip(2) =~= rest);
    assert((seq!['\\', 'b'] + rest).skip(2) =~= rest);
    assert((seq!['\\', 'f'] + rest).skip(2) =~= rest);
    assert((seq!['\\', 'n'] + rest).skip(2) =~= rest);
    assert((seq!['\\', 'r'] + rest).skip(2) =~= rest);
    assert((seq!['\\', 't'] + rest).skip(2) =~= rest);
    assert((seq!['\\', 'v'] + rest).skip(2) =~= rest);
}

/// Unescaping gives back what was escaped.
pub proof fn law_unescaped_escaped(arg: Seq<char>)
    ensures
        unescaped(escaped(arg)) == arg,
    decreases arg.len(),
{
    if arg.len() > 0 {
        law_unescaped_escaped(arg.skip(1));
        let rest = escaped(arg.skip(1));
        let all = escaped(arg);
        if escape_letter(arg[0]) is Some {
            assert(all.skip(2) =~= rest);
        } else {
            assert(all.skip(1) =~= rest);
        }
        assert(unescaped(all) =~= seq![arg[0]] + arg.skip(1));
        assert(seq![arg[0]] + arg.skip(1) =~= arg);
    } else {
        assert(unescaped(escaped(arg)) =~= arg);
    }
}

} // verus!
