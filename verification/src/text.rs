//! Numbers and lists as the query interface writes them.

use vstd::prelude::*;

verus! {

/// The character that stands for the digit `d`.
pub open spec fn digit_char(d: int) -> char {
    ('0' as int + d) as char
}

pub open spec fn is_digit(c: char) -> bool {
    '0' <= c <= '9'
}

/// What the digit `c` counts for.
pub open spec fn digit_value(c: char) -> int {
    c as int - '0' as int
}

/// The decimal digits of `n`, without leading zeros.
pub open spec fn decimal_digits(n: nat) -> Seq<char>
    decreases n,
{
    if n < 10 {
        seq![digit_char(n as int)]
    } else {
        decimal_digits(n / 10).push(digit_char((n % 10) as int))
    }
}

/// The decimal text of `n`, with a minus sign in front where it is negative.
pub open spec fn decimal(n: int) -> Seq<char> {
    if n < 0 {
        seq!['-'] + decimal_digits((-n) as nat)
    } else {
        decimal_digits(n as nat)
    }
}

pub open spec fn all_digits(s: Seq<char>) -> bool {
    forall|i: int| 0 <= i < s.len() ==> is_digit(#[trigger] s[i])
}

/// The number that a row of digits writes.
pub open spec fn digits_value(s: Seq<char>) -> int
    decreases s.len(),
{
    if s.len() == 0 {
        0
    } else {
        10 * digits_value(s.drop_last()) + digit_value(s.last())
    }
}

pub open spec fn has_sign(s: Seq<char>) -> bool {
    s.len() > 0 && (s[0] == '+' || s[0] == '-')
}

/// `s` without the sign in front, where it has one.
pub open spec fn unsigned_part(s: Seq<char>) -> Seq<char> {
    if has_sign(s) {
        s.skip(1)
    } else {
        s
    }
}

/// The number that `s` writes: an optional sign and at least one digit, and nothing else.
pub open spec fn signed_value(s: Seq<char>) -> int {
    if s.len() > 0 && s[0] == '-' {
        -digits_value(unsigned_part(s))
    } else {
        digits_value(unsigned_part(s))
    }
}

/// The 32-bit number that `s` writes, if it writes one.
pub open spec fn number_of(s: Seq<char>) -> Option<i32> {
    if unsigned_part(s).len() > 0 && all_digits(unsigned_part(s)) && i32::MIN <= signed_value(s)
        <= i32::MAX {
        Some(signed_value(s) as i32)
    } else {
        None
    }
}

/// `s` cut at every `sep`: one part more than `s` has separators.
pub open spec fn split_on(s: Seq<char>, sep: char) -> Seq<Seq<char>>
    decreases s.len(),
{
    if s.len() == 0 {
        seq![Seq::<char>::empty()]
    } else {
        let parts = split_on(s.drop_last(), sep);
        if s.last() == sep {
            parts.push(Seq::empty())
        } else {
            parts.drop_last().push(parts.last().push(s.last()))
        }
    }
}

/// The numbers of a list with commas between them, if every part of it writes one.
pub open spec fn number_list_of(s: Seq<char>) -> Option<Seq<i32>> {
    let parts = split_on(s, ',');
    if forall|i: int| 0 <= i < parts.len() ==> (#[trigger] number_of(parts[i])) is Some {
        Some(parts.map_values(|part: Seq<char>| number_of(part)->0))
    } else {
        None
    }
}

/// Whether two texts are the same.
pub fn same_text(a: &str, b: &str) -> (same: bool)
    ensures
        same == (a@ == b@),
{
    a.to_owned() == b.to_owned()
}

/// The characters of `s`.
pub fn chars_of(s: &str) -> (v: Vec<char>)
    ensures
        v@ == s@,
{
    let mut v: Vec<char> = Vec::new();
    for c in it: s.chars()
        invariant
            v@ == s@.take(it.index()),
            it.seq() == s@,
    {
        proof {
            assert(s@.take(it.index() as int + 1) =~= s@.take(it.index() as int).push(c));
        }
        v.push(c);
    }
    assert(s@.take(s@.len() as int) =~= s@);
    v
}

fn digit_text(d: u32) -> (s: &'static str)
    requires
        d < 10,
    ensures
        s@ == seq![digit_char(d as int)],
{
    proof {
        reveal_strlit("0");
        reveal_strlit("1");
        reveal_strlit("2");
        reveal_strlit("3");
        reveal_strlit("4");
        reveal_strlit("5");
        reveal_strlit("6");
        reveal_strlit("7");
        reveal_strlit("8");
        reveal_strlit("9");
    }
    match d {
        0 => "0",
        1 => "1",
        2 => "2",
        3 => "3",
        4 => "4",
        5 => "5",
        6 => "6",
        7 => "7",
        8 => "8",
        _ => "9",
    }
}

fn digits_text(n: u32) -> (s: String)
    ensures
        s@ == decimal_digits(n as nat),
    decreases n,
{
    if n < 10 {
        digit_text(n).to_owned()
    } else {
        let mut s = digits_text(n / 10);
        s.append(digit_text(n % 10));
        s
    }
}

/// Writes `n` in decimal.
pub fn decimal_text(n: i32) -> (s: String)
    ensures
        s@ == decimal(n as int),
{
    if n < 0 {
        proof {
            reveal_strlit("-");
        }
        let mut s = "-".to_owned();
        let digits = digits_text((-(n as i64)) as u32);
        s.append(digits.as_str());
        assert(s@ =~= decimal(n as int));
        s
    } else {
        digits_text(n as u32)
    }
}

/// Digits only ever add to a number: what a prefix writes is a lower bound.
proof fn lemma_digits_value_prefix(s: Seq<char>, k: int)
    requires
        all_digits(s),
        0 <= k <= s.len(),
    ensures
        0 <= digits_value(s.take(k)) <= digits_value(s),
    decreases s.len() - k, s.len(),
{
    if k < s.len() {
        lemma_digits_value_prefix(s, k + 1);
        let t = s.take(k + 1);
        assert(t.drop_last() =~= s.take(k));
        assert(is_digit(s[k]));
        lemma_digits_value_nonnegative(s.take(k));
    } else {
        assert(s.take(k) =~= s);
        lemma_digits_value_nonnegative(s);
    }
}

proof fn lemma_digits_value_nonnegative(s: Seq<char>)
    requires
        all_digits(s),
    ensures
        0 <= digits_value(s),
    decreases s.len(),
{
    if s.len() > 0 {
        assert(is_digit(s[s.len() - 1]));
        assert(all_digits(s.drop_last())) by {
            assert forall|i: int| 0 <= i < s.drop_last().len() implies is_digit(
                #[trigger] s.drop_last()[i],
            ) by {
                assert(is_digit(s[i]));
            }
        }
        lemma_digits_value_nonnegative(s.drop_last());
    }
}

/// Reads a number: an optional sign, then digits alone. Gives `None` for any other text and for a
/// number that does not fit.
pub fn parse_number(text: &Vec<char>) -> (n: Option<i32>)
    ensures
        n == number_of(text@),
{
    let len: usize = text.len();
    let mut i: usize = 0;
    let mut negative = false;
    if len > 0 && (text[0] == '+' || text[0] == '-') {
        negative = text[0] == '-';
        i = 1;
    }
    let start: usize = i;
    let ghost body = unsigned_part(text@);
    assert(body =~= text@.skip(start as int));
    if start == len {
        return None;
    }
    let mut value: i64 = 0;
    assert(body.take(0) =~= Seq::<char>::empty());
    while i < len
        invariant
            len == text@.len(),
            start <= i <= len,
            body == text@.skip(start as int),
            body == unsigned_part(text@),
            negative == (text@.len() > 0 && text@[0] == '-'),
            forall|j: int| start <= j < i ==> is_digit(#[trigger] text@[j]),
            value == digits_value(body.take(i - start)),
            0 <= value <= 2147483648,
        decreases len - i,
    {
        let c = text[i];
        if !('0' <= c && c <= '9') {
            assert(body[i - start] == c);
            return None;
        }
        value = 10 * value + (c as u32 - '0' as u32) as i64;
        proof {
            assert(body.take(i + 1 - start).drop_last() =~= body.take(i - start));
        }
        i = i + 1;
        if value > 2147483648 {
            proof {
                if all_digits(body) {
                    lemma_digits_value_prefix(body, i - start);
                }
            }
            return None;
        }
    }
    proof {
        assert(body.take(len - start) =~= body);
        assert forall|j: int| 0 <= j < body.len() implies is_digit(#[trigger] body[j]) by {
            assert(is_digit(text@[j + start]));
        }
    }
    let signed: i64 = if negative {
        -value
    } else {
        value
    };
    if signed <= 2147483647 {
        Some(signed as i32)
    } else {
        None
    }
}

/// Cuts `text` at every `sep`.
pub fn split(text: &str, sep: char) -> (parts: Vec<Vec<char>>)
    ensures
        parts@.len() == split_on(text@, sep).len(),
        forall|i: int| 0 <= i < parts@.len() ==> (#[trigger] parts@[i])@ == split_on(text@, sep)[i],
{
    let chars = chars_of(text);
    let len: usize = chars.len();
    let mut parts: Vec<Vec<char>> = Vec::new();
    let mut part: Vec<char> = Vec::new();
    let mut i: usize = 0;
    assert(text@.take(0) =~= Seq::<char>::empty());
    while i < len
        invariant
            chars@ == text@,
            len == chars@.len(),
            i <= len,
            parts@.len() + 1 == split_on(text@.take(i as int), sep).len(),
            forall|k: int|
                0 <= k < parts@.len() ==> (#[trigger] parts@[k])@ == split_on(
                    text@.take(i as int),
                    sep,
                )[k],
            part@ == split_on(text@.take(i as int), sep).last(),
        decreases len - i,
    {
        let c = chars[i];
        proof {
            assert(text@.take(i + 1).drop_last() =~= text@.take(i as int));
        }
        if c == sep {
            parts.push(part);
            part = Vec::new();
        } else {
            part.push(c);
        }
        i = i + 1;
    }
    assert(text@.take(len as int) =~= text@);
    parts.push(part);
    parts
}

/// Reads a list of numbers with commas between them.
pub fn parse_number_list(text: &str) -> (list: Option<Vec<i32>>)
    ensures
        list is Some == number_list_of(text@) is Some,
        list is Some ==> list->0@ == number_list_of(text@)->0,
{
    let parts = split(text, ',');
    let ghost specs = split_on(text@, ',');
    let len: usize = parts.len();
    let mut list: Vec<i32> = Vec::new();
    let mut i: usize = 0;
    while i < len
        invariant
            len == parts@.len(),
            specs == split_on(text@, ','),
            parts@.len() == specs.len(),
            forall|k: int| 0 <= k < parts@.len() ==> (#[trigger] parts@[k])@ == specs[k],
            i <= len,
            list@.len() == i,
            forall|k: int|
                0 <= k < i ==> (#[trigger] number_of(specs[k])) == Some(list@[k]),
        decreases len - i,
    {
        assert(parts@[i as int]@ == specs[i as int]);
        match parse_number(&parts[i]) {
            Some(n) => list.push(n),
            None => {
                assert(number_of(specs[i as int]) is None);
                return None;
            },
        }
        i = i + 1;
    }
    assert(list@ =~= number_list_of(text@)->0) by {
        assert forall|k: int| 0 <= k < list@.len() implies list@[k] == number_list_of(
            text@,
        )->0[k] by {
            assert(number_of(specs[k]) == Some(list@[k]));
        }
    }
    Some(list)
}

pub(crate) proof fn lemma_decimal_digits(n: nat)
    ensures
        decimal_digits(n).len() > 0,
        all_digits(decimal_digits(n)),
        digits_value(decimal_digits(n)) == n,
    decreases n,
{
    if n < 10 {
        let s = seq![digit_char(n as int)];
        assert(s.drop_last() =~= Seq::<char>::empty());
        assert(digits_value(s.drop_last()) == 0);
    } else {
        lemma_decimal_digits(n / 10);
        let s = decimal_digits(n);
        assert(s.drop_last() =~= decimal_digits(n / 10));
    }
}

/// Reading back what was written gives the same number.
pub proof fn law_number_of_decimal(n: i32)
    ensures
        number_of(decimal(n as int)) == Some(n),
{
    if n < 0 {
        lemma_decimal_digits((-n) as nat);
        assert(unsigned_part(decimal(n as int)) =~= decimal_digits((-n) as nat));
    } else {
        lemma_decimal_digits(n as nat);
        assert(is_digit(decimal(n as int)[0]));
    }
}

/// Two numbers with the same decimal text are the same number.
pub proof fn law_decimal_injective(a: i32, b: i32)
    requires
        decimal(a as int) == decimal(b as int),
    ensures
        a == b,
{
    law_number_of_decimal(a);
    law_number_of_decimal(b);
}

/// Numbers below ten are written with one digit.
pub proof fn law_decimal_of_digit(n: int)
    requires
        0 <= n < 10,
    ensures
        decimal(n) == seq![('0' as int + n) as char],
{
}

/// A number of more digits is written as the number without its last digit, and that digit behind
/// it.
pub proof fn law_decimal_of_longer(n: int)
    requires
        n >= 10,
    ensures
        decimal(n) == decimal(n / 10).push(('0' as int + n % 10) as char),
{
}

/// A negative number is written as its opposite, with a minus sign in front.
pub proof fn law_decimal_of_negative(n: int)
    requires
        n < 0,
    ensures
        decimal(n) == seq!['-'] + decimal(-n),
{
}

/// A digit reads as the number that it stands for.
pub proof fn law_number_of_digit(c: char)
    requires
        '0' <= c <= '9',
    ensures
        number_of(seq![c]) == Some((c as int - '0' as int) as i32),
{
    let s = seq![c];
    assert(s.drop_last() =~= Seq::<char>::empty());
    assert(digits_value(s.drop_last()) == 0);
    assert(all_digits(s));
}

/// A digit behind a row of digits makes it ten times the number and that digit more, as far as that
/// fits.
pub proof fn law_number_of_longer(s: Seq<char>, c: char)
    requires
        s.len() > 0,
        forall|i: int| 0 <= i < s.len() ==> '0' <= #[trigger] s[i] <= '9',
        '0' <= c <= '9',
    ensures
        ({
            let digit = c as int - '0' as int;
            match number_of(s) {
                Some(n) => n >= 0 && number_of(s.push(c)) == (if 10 * n + digit <= 2147483647 {
                    Some((10 * n + digit) as i32)
                } else {
                    None::<i32>
                }),
                None => number_of(s.push(c)) is None,
            }
        }),
{
    let longer = s.push(c);
    assert(longer.drop_last() =~= s);
    assert(s[0] == longer[0]);
    assert(all_digits(s));
    assert(all_digits(longer)) by {
        assert forall|i: int| 0 <= i < longer.len() implies is_digit(#[trigger] longer[i]) by {
            if i < s.len() {
                assert(longer[i] == s[i]);
            }
        }
    }
    lemma_digits_value_nonnegative(s);
}

/// A plus sign changes nothing.
pub proof fn law_number_of_plus(s: Seq<char>)
    requires
        s.len() > 0,
        s[0] != '+' && s[0] != '-',
    ensures
        number_of(seq!['+'] + s) == number_of(s),
{
    assert((seq!['+'] + s).skip(1) =~= s);
}

/// A minus sign gives the opposite number.
pub proof fn law_number_of_minus(s: Seq<char>, n: i32)
    requires
        s.len() > 0,
        s[0] != '+' && s[0] != '-',
        n > -2147483648,
    ensures
        number_of(seq!['-'] + s) == Some(n) <==> number_of(s) == Some((-n) as i32) && n <= 0,
{
    assert((seq!['-'] + s).skip(1) =~= s);
    if all_digits(s) {
        lemma_digits_value_nonnegative(s);
    }
}

/// Behind a minus sign too, a further digit makes the number ten times as far from zero and that
/// digit further, as far as that fits.
pub proof fn law_number_of_longer_negative(s: Seq<char>, c: char)
    requires
        s.len() > 0,
        forall|i: int| 0 <= i < s.len() ==> '0' <= #[trigger] s[i] <= '9',
        '0' <= c <= '9',
    ensures
        ({
            let digit = c as int - '0' as int;
            let negative = seq!['-'] + s;
            match number_of(negative) {
                Some(n) => n <= 0 && number_of(negative.push(c)) == (if 10 * n - digit
                    >= -2147483648 {
                    Some((10 * n - digit) as i32)
                } else {
                    None::<i32>
                }),
                None => number_of(negative.push(c)) is None,
            }
        }),
{
    let negative = seq!['-'] + s;
    let longer = s.push(c);
    assert(negative.skip(1) =~= s);
    assert(negative.push(c).skip(1) =~= longer);
    assert(longer.drop_last() =~= s);
    assert(all_digits(s));
    assert(all_digits(longer)) by {
        assert forall|i: int| 0 <= i < longer.len() implies is_digit(#[trigger] longer[i]) by {
            if i < s.len() {
                assert(longer[i] == s[i]);
            }
        }
    }
    lemma_digits_value_nonnegative(s);
}

/// Nothing but digits and one sign in front is a number.
pub proof fn law_number_of_refuses(s: Seq<char>, i: int)
    requires
        0 <= i < s.len(),
        s[i] < '0' || '9' < s[i],
        i > 0 || s.len() == 1 || (s[0] != '+' && s[0] != '-'),
    ensures
        number_of(s) is None,
{
    if unsigned_part(s).len() > 0 {
        let k = if has_sign(s) {
            i - 1
        } else {
            i
        };
        assert(unsigned_part(s)[k] == s[i]);
        assert(!is_digit(unsigned_part(s)[k]));
    }
}

/// An empty text is no number.
pub proof fn law_number_of_nothing()
    ensures
        number_of(Seq::empty()) is None,
{
}

/// `parts` in a row, with `sep` between them.
pub open spec fn joined(parts: Seq<Seq<char>>, sep: char) -> Seq<char>
    decreases parts.len(),
{
    if parts.len() == 0 {
        Seq::empty()
    } else if parts.len() == 1 {
        parts[0]
    } else {
        joined(parts.drop_last(), sep) + seq![sep] + parts.last()
    }
}

/// Text without a separator goes to the last part.
proof fn lemma_split_longer(s: Seq<char>, word: Seq<char>, sep: char)
    requires
        !word.contains(sep),
    ensures
        split_on(s, sep).len() > 0,
        split_on(s + word, sep) == split_on(s, sep).drop_last().push(
            split_on(s, sep).last() + word,
        ),
    decreases word.len(), s.len(),
{
    let parts = split_on(s, sep);
    if word.len() == 0 {
        if s.len() > 0 {
            lemma_split_longer(s.drop_last(), word, sep);
        }
        assert(s + word =~= s);
        assert(parts.last() + word =~= parts.last());
        assert(parts.drop_last().push(parts.last()) =~= parts);
    } else {
        let shorter = word.drop_last();
        assert(word[word.len() - 1] == word.last());
        assert(word.last() != sep);
        assert forall|i: int| 0 <= i < shorter.len() implies shorter[i] != sep by {
            assert(word[i] == shorter[i]);
        }
        lemma_split_longer(s, shorter, sep);
        assert((s + word).drop_last() =~= s + shorter);
        let before = split_on(s + shorter, sep);
        assert(before.drop_last() =~= parts.drop_last());
        assert(before.last().push(word.last()) =~= parts.last() + word);
    }
}

/// A text is its parts with the separator between them, and no part holds the separator.
pub proof fn law_split_parts_make_the_text(s: Seq<char>, sep: char)
    ensures
        split_on(s, sep).len() > 0,
        joined(split_on(s, sep), sep) == s,
        forall|i: int| 0 <= i < split_on(s, sep).len() ==> !(#[trigger] split_on(s, sep)[i]).contains(
            sep,
        ),
    decreases s.len(),
{
    let parts = split_on(s, sep);
    if s.len() == 0 {
        assert(joined(parts, sep) =~= s);
    } else {
        let front = split_on(s.drop_last(), sep);
        law_split_parts_make_the_text(s.drop_last(), sep);
        assert(s.drop_last().push(s.last()) =~= s);
        if s.last() == sep {
            assert(parts.drop_last() =~= front);
            assert(joined(parts, sep) =~= s);
        } else {
            let longer = front.last().push(s.last());
            assert(front[front.len() - 1] == front.last());
            assert(!longer.contains(sep)) by {
                assert forall|i: int| 0 <= i < longer.len() implies longer[i] != sep by {
                    if i < front.last().len() {
                        assert(front.last()[i] == longer[i]);
                    }
                }
            }
            if front.len() > 1 {
                assert(parts.drop_last() =~= front.drop_last());
            }
            assert(joined(parts, sep) =~= s);
        }
        assert forall|i: int| 0 <= i < parts.len() implies !(#[trigger] parts[i]).contains(sep) by {
            if i < parts.len() - 1 {
                assert(parts[i] == front[i]);
            }
        }
    }
}

/// Parts without the separator that are put in a row come out of it again, however many there are.
pub proof fn law_split_of_joined(parts: Seq<Seq<char>>, sep: char)
    requires
        parts.len() > 0,
        forall|i: int| 0 <= i < parts.len() ==> !(#[trigger] parts[i]).contains(sep),
    ensures
        split_on(joined(parts, sep), sep) == parts,
    decreases parts.len(),
{
    let last = parts[parts.len() - 1];
    if parts.len() == 1 {
        lemma_split_longer(Seq::empty(), last, sep);
        assert(Seq::<char>::empty() + last =~= last);
        assert(split_on(last, sep) =~= parts);
    } else {
        let fewer = parts.drop_last();
        assert forall|i: int| 0 <= i < fewer.len() implies !(#[trigger] fewer[i]).contains(sep) by {
            assert(parts[i] == fewer[i]);
        }
        law_split_of_joined(fewer, sep);
        let front = joined(fewer, sep);
        assert((front + seq![sep]).drop_last() =~= front);
        lemma_split_longer(front + seq![sep], last, sep);
        assert(split_on(front + seq![sep], sep) =~= fewer.push(Seq::empty()));
        assert(Seq::<char>::empty() + last =~= last);
        assert(split_on(joined(parts, sep), sep) =~= parts);
    }
}

/// There is one part more than there are separators in the text.
pub proof fn law_split_counts_separators(s: Seq<char>, sep: char)
    ensures
        split_on(s, sep).len() == s.filter(|c: char| c == sep).len() + 1,
    decreases s.len(),
{
    reveal(Seq::filter);
    if s.len() > 0 {
        law_split_counts_separators(s.drop_last(), sep);
        law_split_parts_make_the_text(s.drop_last(), sep);
    }
}

/// A list has as many numbers as its text has commas, and one more.
pub proof fn law_number_list_length(s: Seq<char>)
    ensures
        number_list_of(s) is Some ==> number_list_of(s)->0.len() == s.filter(
            |c: char| c == ',',
        ).len() + 1,
{
    law_split_counts_separators(s, ',');
}

/// Texts with commas between them are a list where every one of them is a number, and the list has
/// those numbers, in order.
pub proof fn law_number_list_of_parts(parts: Seq<Seq<char>>)
    requires
        parts.len() > 0,
        forall|i: int| 0 <= i < parts.len() ==> !(#[trigger] parts[i]).contains(','),
    ensures
        number_list_of(joined(parts, ',')) is Some <==> forall|i: int|
            0 <= i < parts.len() ==> number_of(#[trigger] parts[i]) is Some,
        number_list_of(joined(parts, ',')) is Some ==> {
            let list = number_list_of(joined(parts, ','))->0;
            &&& list.len() == parts.len()
            &&& forall|i: int|
                0 <= i < parts.len() ==> number_of(#[trigger] parts[i]) == Some(list[i])
        },
{
    law_split_of_joined(parts, ',');
    if forall|i: int| 0 <= i < parts.len() ==> number_of(#[trigger] parts[i]) is Some {
        assert forall|i: int| 0 <= i < parts.len() implies (#[trigger] number_of(parts[i])) is Some by {
            assert(number_of(parts[i]) is Some);
        }
    }
    if number_list_of(joined(parts, ',')) is Some {
        assert forall|i: int| 0 <= i < parts.len() implies number_of(#[trigger] parts[i]) is Some by {
            assert((number_of(parts[i])) is Some);
        }
    }
}

/// No number is written with a character that is neither a digit nor a minus sign.
pub(crate) proof fn lemma_decimal_chars(n: int, c: char)
    requires
        c != '-',
        c < '0' || '9' < c,
    ensures
        decimal(n).len() > 0,
        !decimal(n).contains(c),
{
    let digits = decimal_digits(
        if n < 0 {
            (-n) as nat
        } else {
            n as nat
        },
    );
    lemma_decimal_digits(
        if n < 0 {
            (-n) as nat
        } else {
            n as nat
        },
    );
    assert forall|i: int| 0 <= i < decimal(n).len() implies decimal(n)[i] != c by {
        if n >= 0 {
            assert(is_digit(digits[i]));
        } else if i > 0 {
            assert(is_digit(digits[i - 1]));
        }
    }
}

/// Numbers written with commas between them read back, however many there are.
pub proof fn law_number_list_reads_back(list: Seq<i32>)
    requires
        list.len() > 0,
    ensures
        number_list_of(joined(list.map_values(|n: i32| decimal(n as int)), ',')) == Some(list),
{
    let parts = list.map_values(|n: i32| decimal(n as int));
    assert forall|i: int| 0 <= i < parts.len() implies !(#[trigger] parts[i]).contains(',')
        && number_of(parts[i]) == Some(list[i]) by {
        lemma_decimal_chars(list[i] as int, ',');
        law_number_of_decimal(list[i]);
    }
    law_number_list_of_parts(parts);
    assert(number_list_of(joined(parts, ','))->0 =~= list) by {
        assert forall|i: int| 0 <= i < list.len() implies number_list_of(
            joined(parts, ','),
        )->0[i] == list[i] by {
            assert(number_of(parts[i]) == Some(list[i]));
        }
    }
}

} // verus!
