//! Responses as a server writes them, and what is read of them.

use vstd::prelude::*;

use crate::query::{
    field_map, is_white_space, line_records, parsed_records, record_maps, texts, unescaped,
    word_fields, words, Record,
};
use crate::text::{joined, law_split_of_joined};

verus! {

/// Whether `s` can stand as a key or a value: nothing in it ends a value, a word or a record.
pub open spec fn is_plain(s: Seq<char>) -> bool {
    forall|i: int|
        0 <= i < s.len() ==> !is_white_space(#[trigger] s[i]) && s[i] != '=' && s[i] != '|'
}

/// A field as it is written.
pub open spec fn written_field(field: (Seq<char>, Seq<char>)) -> Seq<char> {
    field.0 + seq!['='] + field.1
}

/// A record as it is written: its fields with spaces between them.
pub open spec fn written_record(fields: Seq<(Seq<char>, Seq<char>)>) -> Seq<char> {
    joined(
        fields.map_values(|field: (Seq<char>, Seq<char>)| written_field(field)),
        ' ',
    )
}

/// A line as it is written: its records with `|` between them.
pub open spec fn written_line(records: Seq<Seq<(Seq<char>, Seq<char>)>>) -> Seq<char> {
    joined(
        records.map_values(|fields: Seq<(Seq<char>, Seq<char>)>| written_record(fields)),
        '|',
    )
}

/// Whether every key and value can stand in a record.
pub open spec fn plain_fields(fields: Seq<(Seq<char>, Seq<char>)>) -> bool {
    forall|i: int|
        0 <= i < fields.len() ==> is_plain((#[trigger] fields[i]).0) && is_plain(fields[i].1)
}

/// Whether `record` has the values of `fields` and no others; of a key that stands there twice, the
/// value that comes last.
pub open spec fn holds_fields(
    record: Map<Seq<char>, Seq<char>>,
    fields: Seq<(Seq<char>, Seq<char>)>,
) -> bool {
    &&& forall|key: Seq<char>| #[trigger]
        record.contains_key(key) ==> exists|i: int|
            0 <= i < fields.len() && (#[trigger] fields[i]).0 == key
    &&& forall|i: int|
        0 <= i < fields.len() ==> {
            &&& record.contains_key((#[trigger] fields[i]).0)
            &&& (forall|j: int| i < j < fields.len() ==> (#[trigger] fields[j]).0 != fields[i].0)
                ==> record[fields[i].0] == fields[i].1
        }
}

/// The first field with a key is the one that counts.
pub proof fn law_first_field_counts(record: Record, i: int)
    requires
        0 <= i < record.fields@.len(),
        forall|j: int| 0 <= j < i ==> (#[trigger] record.fields@[j]).0@ != record.fields@[i].0@,
    ensures
        record@.contains_key(record.fields@[i].0@),
        record@[record.fields@[i].0@] == record.fields@[i].1@,
{
    lemma_first_field(record.fields@, i);
}

proof fn lemma_first_field(fields: Seq<(String, String)>, i: int)
    requires
        0 <= i < fields.len(),
        forall|j: int| 0 <= j < i ==> (#[trigger] fields[j]).0@ != fields[i].0@,
    ensures
        field_map(fields).contains_key(fields[i].0@),
        field_map(fields)[fields[i].0@] == fields[i].1@,
    decreases fields.len(),
{
    if i > 0 {
        let rest = fields.drop_first();
        assert forall|j: int| 0 <= j < i - 1 implies (#[trigger] rest[j]).0@ != rest[i - 1].0@ by {
            assert(fields[j + 1].0@ != fields[i].0@);
        }
        lemma_first_field(rest, i - 1);
        assert(fields[0].0@ != fields[i].0@);
    }
}

/// A record has no field but those that it is made of.
pub proof fn law_no_other_fields(record: Record, key: Seq<char>)
    requires
        forall|i: int| 0 <= i < record.fields@.len() ==> (#[trigger] record.fields@[i]).0@ != key,
    ensures
        !record@.contains_key(key),
{
    lemma_no_other_fields(record.fields@, key);
}

proof fn lemma_no_other_fields(fields: Seq<(String, String)>, key: Seq<char>)
    requires
        forall|i: int| 0 <= i < fields.len() ==> (#[trigger] fields[i]).0@ != key,
    ensures
        !field_map(fields).contains_key(key),
    decreases fields.len(),
{
    if fields.len() > 0 {
        let rest = fields.drop_first();
        assert forall|i: int| 0 <= i < rest.len() implies (#[trigger] rest[i]).0@ != key by {
            assert(fields[i + 1].0@ != key);
        }
        lemma_no_other_fields(rest, key);
        assert(fields[0].0@ != key);
    }
}

/// Lists of strings and of records are taken whole, in order.
pub proof fn law_lists_are_taken_whole(strings: Seq<String>, records: Seq<Record>)
    ensures
        texts(strings).len() == strings.len(),
        forall|i: int| 0 <= i < strings.len() ==> #[trigger] texts(strings)[i] == strings[i]@,
        record_maps(records).len() == records.len(),
        forall|i: int| 0 <= i < records.len() ==> #[trigger] record_maps(records)[i] == records[i]@,
{
}

/// White space are the space, the characters from the tab to the carriage return, and the spaces and
/// breaks beyond ASCII; letters, digits and signs are not.
pub proof fn law_white_space(c: char)
    ensures
        c == ' ' || c == '\t' || c == '\n' || c == '\r' ==> is_white_space(c),
        '!' <= c <= '~' ==> !is_white_space(c),
        is_white_space(c) <==> {
            let n = c as int;
            ||| 0x9 <= n <= 0xd
            ||| 0x2000 <= n <= 0x200a
            ||| n == 0x20 || n == 0x85 || n == 0xa0 || n == 0x1680 || n == 0x2028 || n == 0x2029
            ||| n == 0x202f || n == 0x205f || n == 0x3000
        },
{
}

/// What has no white space in it is one word, or none where it is empty.
pub proof fn law_text_without_white_space(s: Seq<char>)
    requires
        forall|i: int| 0 <= i < s.len() ==> !is_white_space(#[trigger] s[i]),
    ensures
        words(s) == (if s.len() == 0 {
            Seq::<Seq<char>>::empty()
        } else {
            seq![s]
        }),
    decreases s.len(),
{
    if s.len() > 0 {
        let front = s.drop_last();
        assert forall|i: int| 0 <= i < front.len() implies !is_white_space(#[trigger] front[i]) by {
            assert(front[i] == s[i]);
        }
        law_text_without_white_space(front);
        assert(!is_white_space(s[s.len() - 1]));
        if s.len() > 1 {
            assert(!is_white_space(s[s.len() - 2]));
            assert(front.push(s.last()) =~= s);
        } else {
            assert(seq![s.last()] =~= s);
        }
        assert(words(s) =~= seq![s]);
    }
}

/// A text that ends in a word has one.
proof fn lemma_some_word(s: Seq<char>)
    requires
        s.len() > 0,
        !is_white_space(s.last()),
    ensures
        words(s).len() > 0,
{
}

/// White space anywhere in a text parts the words before it from those behind it.
pub proof fn law_words_on_both_sides(before: Seq<char>, space: char, behind: Seq<char>)
    requires
        is_white_space(space),
    ensures
        words(before + seq![space] + behind) == words(before) + words(behind),
    decreases behind.len(),
{
    let s = before + seq![space] + behind;
    if behind.len() == 0 {
        assert(s.drop_last() =~= before);
        assert(words(before) + words(behind) =~= words(before));
    } else {
        let shorter = behind.drop_last();
        law_words_on_both_sides(before, space, shorter);
        assert(s.drop_last() =~= before + seq![space] + shorter);
        assert(s.last() == behind.last());
        let a = words(before);
        let b = words(shorter);
        if behind.len() > 1 {
            assert(s[s.len() - 2] == behind[behind.len() - 2]);
            if !is_white_space(shorter.last()) {
                lemma_some_word(shorter);
                assert((a + b).drop_last() =~= a + b.drop_last());
            }
        } else {
            assert(s[s.len() - 2] == space);
            assert(b =~= Seq::<Seq<char>>::empty());
        }
        assert(words(s) =~= a + words(behind));
    }
}

/// Words with spaces between them come out again, however many there are.
pub proof fn law_words_of_joined(parts: Seq<Seq<char>>)
    requires
        forall|i: int|
            0 <= i < parts.len() ==> (#[trigger] parts[i]).len() > 0 && forall|k: int|
                0 <= k < parts[i].len() ==> !is_white_space(#[trigger] parts[i][k]),
    ensures
        words(joined(parts, ' ')) == parts,
    decreases parts.len(),
{
    if parts.len() == 0 {
        assert(words(joined(parts, ' ')) =~= parts);
    } else {
        let last = parts[parts.len() - 1];
        law_text_without_white_space(last);
        if parts.len() == 1 {
            assert(seq![last] =~= parts);
        } else {
            let fewer = parts.drop_last();
            assert forall|i: int| 0 <= i < fewer.len() implies (#[trigger] fewer[i]).len() > 0
                && forall|k: int|
                0 <= k < fewer[i].len() ==> !is_white_space(#[trigger] fewer[i][k]) by {
                assert(fewer[i] == parts[i]);
            }
            law_words_of_joined(fewer);
            law_words_on_both_sides(joined(fewer, ' '), ' ', last);
            assert(fewer + seq![last] =~= parts);
        }
    }
}

/// A further word `key=value` sets that value, with or without what follows a second `=`, and its
/// escapes are undone where that is asked for. A word without `=` changes nothing.
pub proof fn law_fields_of_longer(
    front: Seq<Seq<char>>,
    pieces: Seq<Seq<char>>,
    unescape: bool,
)
    requires
        pieces.len() > 0,
        forall|i: int| 0 <= i < pieces.len() ==> !(#[trigger] pieces[i]).contains('='),
    ensures
        word_fields(front.push(joined(pieces, '=')), unescape) == (if pieces.len() == 1 {
            word_fields(front, unescape)
        } else {
            word_fields(front, unescape).insert(
                pieces[0],
                if unescape {
                    unescaped(pieces[1])
                } else {
                    pieces[1]
                },
            )
        }),
        word_fields(Seq::empty(), unescape) == Map::<Seq<char>, Seq<char>>::empty(),
{
    law_split_of_joined(pieces, '=');
    assert(front.push(joined(pieces, '=')).drop_last() =~= front);
}

/// Parts with `|` between them are one record each, in order, made of their words.
pub proof fn law_records_of_line(parts: Seq<Seq<char>>, unescape: bool)
    requires
        parts.len() > 0,
        forall|i: int| 0 <= i < parts.len() ==> !(#[trigger] parts[i]).contains('|'),
    ensures
        line_records(joined(parts, '|'), unescape).len() == parts.len(),
        forall|i: int|
            0 <= i < parts.len() ==> #[trigger] line_records(joined(parts, '|'), unescape)[i]
                == word_fields(words(parts[i]), unescape),
{
    law_split_of_joined(parts, '|');
}

/// A response of one line has the records of that line.
pub proof fn law_records_of_one_line(line: Seq<char>, unescape: bool)
    ensures
        parsed_records(seq![line], unescape) == line_records(line, unescape),
{
    let lists = seq![line].map_values(|line: Seq<char>| line_records(line, unescape));
    assert(lists =~= seq![line_records(line, unescape)]);
    assert(lists.drop_first() =~= Seq::empty());
    assert(lists.drop_first().flatten() =~= Seq::empty());
    assert(lists.flatten() =~= line_records(line, unescape));
}

/// The records of a response are those of its first lines, and then those of the others.
pub proof fn law_records_of_more_lines(
    first: Seq<Seq<char>>,
    second: Seq<Seq<char>>,
    unescape: bool,
)
    ensures
        parsed_records(first + second, unescape) == parsed_records(first, unescape)
            + parsed_records(second, unescape),
    decreases first.len(),
{
    let records = |line: Seq<char>| line_records(line, unescape);
    let all = (first + second).map_values(records);
    if first.len() == 0 {
        assert(first + second =~= second);
        assert(first.map_values(records).flatten() =~= Seq::empty());
        assert(parsed_records(first + second, unescape) =~= parsed_records(first, unescape)
            + parsed_records(second, unescape));
    } else {
        law_records_of_more_lines(first.drop_first(), second, unescape);
        assert(all.drop_first() =~= (first.drop_first() + second).map_values(records));
        assert(first.map_values(records).drop_first() =~= first.drop_first().map_values(records));
        assert(parsed_records(first + second, unescape) =~= parsed_records(first, unescape)
            + parsed_records(second, unescape));
    }
}

proof fn lemma_written_field(field: (Seq<char>, Seq<char>))
    requires
        is_plain(field.0),
        is_plain(field.1),
    ensures
        written_field(field) == joined(seq![field.0, field.1], '='),
        written_field(field).len() > 0,
        !field.0.contains('='),
        !field.1.contains('='),
        forall|k: int|
            0 <= k < written_field(field).len() ==> !is_white_space(
                #[trigger] written_field(field)[k],
            ) && written_field(field)[k] != '|',
{
    let pieces = seq![field.0, field.1];
    let text = written_field(field);
    assert(pieces.drop_last() =~= seq![field.0]);
    assert(joined(pieces.drop_last(), '=') == field.0);
    assert forall|k: int| 0 <= k < text.len() implies !is_white_space(#[trigger] text[k])
        && text[k] != '|' by {
        if k < field.0.len() {
            assert(text[k] == field.0[k]);
        } else if k > field.0.len() {
            assert(text[k] == field.1[k - field.0.len() - 1]);
        }
    }
}

proof fn lemma_fields_of_written(fields: Seq<(Seq<char>, Seq<char>)>)
    requires
        plain_fields(fields),
    ensures
        holds_fields(
            word_fields(
                fields.map_values(|field: (Seq<char>, Seq<char>)| written_field(field)),
                false,
            ),
            fields,
        ),
    decreases fields.len(),
{
    let parts = fields.map_values(|field: (Seq<char>, Seq<char>)| written_field(field));
    let record = word_fields(parts, false);
    if fields.len() > 0 {
        let n = fields.len() - 1;
        let fewer = fields.drop_last();
        let front = fewer.map_values(|field: (Seq<char>, Seq<char>)| written_field(field));
        assert forall|i: int| 0 <= i < fewer.len() implies is_plain((#[trigger] fewer[i]).0)
            && is_plain(fewer[i].1) by {
            assert(fewer[i] == fields[i]);
        }
        lemma_fields_of_written(fewer);
        let before = word_fields(front, false);
        let field = fields[n];
        lemma_written_field(field);
        let pieces = seq![field.0, field.1];
        assert forall|i: int| 0 <= i < pieces.len() implies !(#[trigger] pieces[i]).contains(
            '=',
        ) by {
            if i == 0 {
                assert(pieces[i] == field.0);
            } else {
                assert(pieces[i] == field.1);
            }
        }
        law_fields_of_longer(front, pieces, false);
        assert(front.push(written_field(field)) =~= parts);
        assert(record == before.insert(field.0, field.1));
        assert forall|key: Seq<char>| #[trigger] record.contains_key(key) implies exists|i: int|
            0 <= i < fields.len() && (#[trigger] fields[i]).0 == key by {
            if key == field.0 {
                assert(fields[n].0 == key);
            } else {
                assert(before.contains_key(key));
                let i = choose|i: int| 0 <= i < fewer.len() && (#[trigger] fewer[i]).0 == key;
                assert(fields[i].0 == key);
            }
        }
        assert forall|i: int| 0 <= i < fields.len() implies {
            &&& record.contains_key((#[trigger] fields[i]).0)
            &&& (forall|j: int| i < j < fields.len() ==> (#[trigger] fields[j]).0 != fields[i].0)
                ==> record[fields[i].0] == fields[i].1
        } by {
            if i < n {
                assert(fewer[i] == fields[i]);
                assert(before.contains_key(fewer[i].0));
                if forall|j: int|
                    i < j < fields.len() ==> (#[trigger] fields[j]).0 != fields[i].0 {
                    assert(fields[n].0 != fields[i].0);
                    assert forall|j: int| i < j < fewer.len() implies (#[trigger] fewer[j]).0
                        != fewer[i].0 by {
                        assert(fields[j].0 != fields[i].0);
                    }
                }
            }
        }
    }
}

proof fn lemma_joined_lacks(parts: Seq<Seq<char>>, sep: char, c: char)
    requires
        sep != c,
        forall|i: int| 0 <= i < parts.len() ==> !(#[trigger] parts[i]).contains(c),
    ensures
        !joined(parts, sep).contains(c),
    decreases parts.len(),
{
    let text = joined(parts, sep);
    if parts.len() == 1 {
        assert(!parts[0].contains(c));
    } else if parts.len() > 1 {
        let fewer = parts.drop_last();
        let last = parts[parts.len() - 1];
        assert forall|i: int| 0 <= i < fewer.len() implies !(#[trigger] fewer[i]).contains(c) by {
            assert(fewer[i] == parts[i]);
        }
        lemma_joined_lacks(fewer, sep, c);
        let front = joined(fewer, sep);
        assert forall|k: int| 0 <= k < text.len() implies text[k] != c by {
            if k < front.len() {
                assert(front[k] == text[k]);
            } else if k > front.len() {
                assert(last[k - front.len() - 1] == text[k]);
            }
        }
    }
}

/// A record that is written reads back with all its fields, however many and however long they are.
pub proof fn law_written_record_reads_back(fields: Seq<(Seq<char>, Seq<char>)>)
    requires
        plain_fields(fields),
    ensures
        holds_fields(word_fields(words(written_record(fields)), false), fields),
        !written_record(fields).contains('|'),
{
    let parts = fields.map_values(|field: (Seq<char>, Seq<char>)| written_field(field));
    assert forall|i: int| 0 <= i < parts.len() implies (#[trigger] parts[i]).len() > 0 && forall|
        k: int,
    |
        0 <= k < parts[i].len() ==> !is_white_space(#[trigger] parts[i][k]) by {
        assert(is_plain(fields[i].0) && is_plain(fields[i].1));
        lemma_written_field(fields[i]);
    }
    assert forall|i: int| 0 <= i < parts.len() implies !(#[trigger] parts[i]).contains('|') by {
        assert(is_plain(fields[i].0) && is_plain(fields[i].1));
        lemma_written_field(fields[i]);
    }
    law_words_of_joined(parts);
    lemma_joined_lacks(parts, ' ', '|');
    lemma_fields_of_written(fields);
}

/// A line that is written reads back with all its records, in order, however many there are.
pub proof fn law_written_line_reads_back(records: Seq<Seq<(Seq<char>, Seq<char>)>>)
    requires
        records.len() > 0,
        forall|i: int| 0 <= i < records.len() ==> plain_fields(#[trigger] records[i]),
    ensures
        parsed_records(seq![written_line(records)], false).len() == records.len(),
        forall|i: int|
            0 <= i < records.len() ==> holds_fields(
                #[trigger] parsed_records(seq![written_line(records)], false)[i],
                records[i],
            ),
{
    let parts = records.map_values(
        |fields: Seq<(Seq<char>, Seq<char>)>| written_record(fields),
    );
    assert forall|i: int| 0 <= i < parts.len() implies !(#[trigger] parts[i]).contains('|') by {
        law_written_record_reads_back(records[i]);
    }
    law_records_of_line(parts, false);
    law_records_of_one_line(written_line(records), false);
    assert forall|i: int| 0 <= i < records.len() implies holds_fields(
        #[trigger] parsed_records(seq![written_line(records)], false)[i],
        records[i],
    ) by {
        law_written_record_reads_back(records[i]);
        assert(parsed_records(seq![written_line(records)], false)[i] == word_fields(
            words(parts[i]),
            false,
        ));
    }
}

} // verus!
