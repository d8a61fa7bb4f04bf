//! The names of the data files.

use vstd::prelude::*;

use crate::paths::extension;
use crate::paths::lemma_last_dot_at;
use crate::text::chars_of;
use crate::text::decimal;
use crate::text::is_digit;
use crate::text::lemma_padded_digits;
use crate::text::lemma_padded_value;
use crate::text::numeral_value;
use crate::text::push_zero_padded;
use crate::text::texts;
use crate::text::zero_padded;

verus! {

/// The name of the data file with number `seq` for an hour: `{hour}_{seq}.parquet`, the
/// number padded to six digits.
pub open spec fn data_file_name(hour: Seq<char>, seq: u64) -> Seq<char> {
    hour + "_"@ + zero_padded(seq as nat, 6) + ".parquet"@
}

pub(crate) fn make_data_file_name(hour: &str, seq: u64) -> (name: String)
    ensures
        name@ == data_file_name(hour@, seq),
{
    let mut name = hour.to_owned();
    name.append("_");
    push_zero_padded(&mut name, seq, 6);
    name.append(".parquet");
    name
}

/// The number of digits that a text ends with.
pub open spec fn digits_at_end(text: Seq<char>) -> nat
    decreases text.len(),
{
    if text.len() > 0 && is_digit(text.last()) {
        digits_at_end(text.drop_last()) + 1
    } else {
        0
    }
}

/// The number in the name of a data file: the digits between an underscore and `.parquet`.
/// A name without them has none, nor has one whose number no data file can have.
pub open spec fn file_number(name: Seq<char>) -> Option<u64> {
    let end = name.len() - 8;
    let stem = name.take(end);
    let start = end - digits_at_end(stem);
    let value = numeral_value(name.subrange(start, end));
    if end > 0 && name.skip(end) == ".parquet"@ && 0 < start < end && name[start - 1] == '_'
        && value <= u64::MAX {
        Some(value as u64)
    } else {
        None
    }
}

proof fn lemma_digits_at_end(text: Seq<char>)
    ensures
        digits_at_end(text) <= text.len(),
        forall|i: int| text.len() - digits_at_end(text) <= i < text.len() ==> is_digit(#[trigger] text[i]),
        digits_at_end(text) < text.len() ==> !is_digit(text[text.len() - digits_at_end(text) - 1]),
    decreases text.len(),
{
    if text.len() > 0 && is_digit(text.last()) {
        let rest = text.drop_last();
        lemma_digits_at_end(rest);
        assert forall|i: int| text.len() - digits_at_end(text) <= i < text.len() implies is_digit(
            #[trigger] text[i],
        ) by {
            if i < rest.len() {
                assert(rest[i] == text[i]);
            }
        }
        if digits_at_end(text) < text.len() {
            assert(rest[rest.len() - digits_at_end(rest) - 1] == text[text.len() - digits_at_end(text)
                - 1]);
        }
    }
}

/// A text ends with the digits that stand behind something else.
proof fn lemma_digits_behind(front: Seq<char>, digits: Seq<char>)
    requires
        front.len() > 0,
        !is_digit(front.last()),
        forall|i: int| 0 <= i < digits.len() ==> is_digit(#[trigger] digits[i]),
    ensures
        digits_at_end(front + digits) == digits.len(),
{
    let text = front + digits;
    lemma_digits_at_end(text);
    let n = digits_at_end(text);
    if n < digits.len() {
        assert(text[text.len() - n - 1] == digits[digits.len() - n - 1]);
    } else if n > digits.len() {
        assert(text[front.len() - 1] == front.last());
    }
}

/// The name of a data file holds its number.
pub proof fn law_name_holds_its_number(hour: Seq<char>, seq: u64)
    ensures
        file_number(data_file_name(hour, seq)) == Some(seq),
{
    reveal_strlit("_");
    reveal_strlit(".parquet");
    let name = data_file_name(hour, seq);
    let number = zero_padded(seq as nat, 6);
    let end = name.len() - 8;
    let front = hour + "_"@;
    lemma_padded_digits(seq as nat, 6);
    lemma_padded_value(seq as nat, 6);
    assert(name.take(end) =~= front + number);
    lemma_digits_behind(front, number);
    assert(name.skip(end) =~= ".parquet"@);
    assert(name.subrange(end - number.len(), end) =~= number);
    assert(name[front.len() - 1] == '_');
}

proof fn lemma_more_digits(text: Seq<char>, k: int)
    requires
        0 <= k <= text.len(),
        forall|i: int| 0 <= i < text.len() ==> is_digit(#[trigger] text[i]),
    ensures
        0 <= numeral_value(text.take(k)) <= numeral_value(text),
    decreases text.len() - k,
{
    if k == text.len() {
        assert(text.take(k) =~= text);
        lemma_digits_not_negative(text);
    } else {
        lemma_more_digits(text, k + 1);
        let more = text.take(k + 1);
        assert(more.drop_last() =~= text.take(k));
        assert(is_digit(text[k]));
        lemma_digits_not_negative(text.take(k));
        assert(more.last() == text[k]);
    }
}

proof fn lemma_digits_not_negative(text: Seq<char>)
    requires
        forall|i: int| 0 <= i < text.len() ==> is_digit(#[trigger] text[i]),
    ensures
        numeral_value(text) >= 0,
    decreases text.len(),
{
    if text.len() > 0 {
        let rest = text.drop_last();
        assert forall|i: int| 0 <= i < rest.len() implies is_digit(#[trigger] rest[i]) by {
            assert(rest[i] == text[i]);
        }
        lemma_digits_not_negative(rest);
        assert(is_digit(text[text.len() - 1]));
    }
}

/// The number in the name of a data file.
pub fn number_in(name: &str) -> (number: Option<u64>)
    ensures
        number == file_number(name@),
{
    let chars = chars_of(name);
    let suffix = chars_of(".parquet");
    proof {
        reveal_strlit(".parquet");
    }
    if chars.len() <= 8 {
        return None;
    }
    let end: usize = chars.len() - 8;
    let mut i: usize = 0;
    while i < 8
        invariant
            chars@ == name@,
            suffix@ == ".parquet"@,
            suffix@.len() == 8,
            end + 8 == chars.len(),
            i <= 8,
            forall|j: int| 0 <= j < i ==> name@[end + j] == #[trigger] suffix@[j],
        decreases 8 - i,
    {
        if chars[end + i] != suffix[i] {
            assert(name@.skip(end as int)[i as int] != ".parquet"@[i as int]);
            return None;
        }
        i = i + 1;
    }
    assert(name@.skip(end as int) =~= ".parquet"@);
    let ghost stem = name@.take(end as int);
    let mut start: usize = end;
    assert(stem.take(start as int) =~= stem);
    while start > 0 && '0' <= chars[start - 1] && chars[start - 1] <= '9'
        invariant
            chars@ == name@,
            stem == name@.take(end as int),
            start <= end < chars.len(),
            digits_at_end(stem) == digits_at_end(stem.take(start as int)) + (end - start),
        decreases start,
    {
        assert(stem.take(start as int).drop_last() =~= stem.take(start - 1));
        assert(stem.take(start as int).last() == chars@[start - 1]);
        start = start - 1;
    }
    proof {
        if start > 0 {
            assert(stem.take(start as int).last() == chars@[start - 1]);
        }
        assert(digits_at_end(stem.take(start as int)) == 0);
        lemma_digits_at_end(stem);
    }
    if start == 0 || start == end || chars[start - 1] != '_' {
        return None;
    }
    let ghost digits = name@.subrange(start as int, end as int);
    assert forall|j: int| 0 <= j < digits.len() implies is_digit(#[trigger] digits[j]) by {
        assert(digits[j] == stem[start + j]);
    }
    let mut value: u64 = 0;
    let mut k: usize = start;
    assert(digits.take(0) =~= Seq::<char>::empty());
    while k < end
        invariant
            chars@ == name@,
            start <= k <= end < chars.len(),
            digits == name@.subrange(start as int, end as int),
            forall|j: int| 0 <= j < digits.len() ==> is_digit(#[trigger] digits[j]),
            value == numeral_value(digits.take(k - start)),
            numeral_value(digits) <= u64::MAX || file_number(name@) is None,
        decreases end - k,
    {
        let ghost more = digits.take(k - start + 1);
        assert(more.drop_last() =~= digits.take(k - start));
        assert(more.last() == chars@[k as int]);
        assert(is_digit(digits[k - start]));
        let digit: u64 = (chars[k] as u32 - 48) as u64;
        proof {
            lemma_more_digits(digits, k - start + 1);
        }
        if value > (u64::MAX - digit) / 10 {
            return None;
        }
        value = value * 10 + digit;
        k = k + 1;
    }
    assert(digits.take(k - start) =~= digits);
    Some(value)
}

/// The number behind all those in the names of some files.
pub open spec fn number_behind(names: Seq<Seq<char>>) -> int
    decreases names.len(),
{
    if names.len() == 0 {
        0
    } else {
        let rest = number_behind(names.drop_last());
        match file_number(names.last()) {
            Some(number) => if number >= rest {
                number + 1
            } else {
                rest
            },
            None => rest,
        }
    }
}

/// The number to begin with where files with the given names exist already; `None` where
/// one of them has the last number that there is.
pub fn next_number(names: &Vec<String>) -> (number: Option<u64>)
    ensures
        match number {
            Some(n) => n == number_behind(texts(names@)),
            None => number_behind(texts(names@)) > u64::MAX,
        },
{
    let ghost all = texts(names@);
    let mut next: Option<u64> = Some(0);
    let mut i: usize = 0;
    assert(all.take(0) =~= Seq::<Seq<char>>::empty());
    while i < names.len()
        invariant
            i <= names.len(),
            all == texts(names@),
            number_behind(all.take(i as int)) <= u64::MAX + 1,
            match next {
                Some(n) => n == number_behind(all.take(i as int)),
                None => number_behind(all.take(i as int)) > u64::MAX,
            },
        decreases names.len() - i,
    {
        assert(all.take(i + 1).drop_last() =~= all.take(i as int));
        assert(all.take(i + 1).last() == names@[i as int]@);
        if let Some(number) = number_in(names[i].as_str()) {
            next = match next {
                Some(n) => if number < n {
                    Some(n)
                } else if number < u64::MAX {
                    Some(number + 1)
                } else {
                    None
                },
                None => None,
            };
        }
        i = i + 1;
    }
    assert(all.take(i as int) =~= all);
    next
}

proof fn lemma_numbers_are_before(names: Seq<Seq<char>>, k: int)
    requires
        0 <= k < names.len(),
        file_number(names[k]) is Some,
    ensures
        file_number(names[k])->0 < number_behind(names),
    decreases names.len(),
{
    if k < names.len() - 1 {
        assert(names.drop_last()[k] == names[k]);
        lemma_numbers_are_before(names.drop_last(), k);
    }
}

/// From the number behind those in use on, no name of a data file is among the names in
/// use, whatever the hour.
pub proof fn law_new_names_are_free(names: Seq<Seq<char>>, hour: Seq<char>, seq: u64)
    requires
        seq >= number_behind(names),
    ensures
        !names.contains(data_file_name(hour, seq)),
{
    let name = data_file_name(hour, seq);
    law_name_holds_its_number(hour, seq);
    if names.contains(name) {
        let k = choose|k: int| 0 <= k < names.len() && names[k] == name;
        lemma_numbers_are_before(names, k);
    }
}

/// Data files of different numbers have different names, and so have those of different
/// hours.
pub proof fn law_file_names_tell_apart(hour: Seq<char>, seq: u64, other_hour: Seq<char>, other: u64)
    requires
        data_file_name(hour, seq) == data_file_name(other_hour, other),
    ensures
        hour == other_hour,
        seq == other,
{
    law_name_holds_its_number(hour, seq);
    law_name_holds_its_number(other_hour, other);
    let n = hour.len() as int;
    assert(data_file_name(hour, seq).len() == n + "_"@.len() + zero_padded(seq as nat, 6).len()
        + ".parquet"@.len());
    assert(data_file_name(hour, seq).take(n) =~= hour);
    assert(data_file_name(other_hour, other).take(n) =~= other_hour);
}

/// A data file has the extension by which old data files are found and the dashboard reads
/// them.
pub proof fn law_data_files_have_the_parquet_extension(hour: Seq<char>, seq: u64)
    ensures
        extension(data_file_name(hour, seq)) == Some("parquet"@),
{
    reveal_strlit("_");
    reveal_strlit(".parquet");
    reveal_strlit("parquet");
    let name = data_file_name(hour, seq);
    lemma_padded_digits(seq as nat, 6);
    let at = name.len() - 8;
    assert(name[at] == '.');
    assert(at > 1);
    lemma_last_dot_at(name, at);
    assert(name.skip(at + 1) =~= "parquet"@);
}

/// Up to a million files, a data file is named by the hour, an underscore, six digits and
/// `.parquet`.
pub proof fn law_data_file_names_have_six_digits(hour: Seq<char>, seq: u64)
    requires
        seq < 1_000_000,
    ensures
        data_file_name(hour, seq).len() == hour.len() + 15,
        data_file_name(hour, seq).take(hour.len() as int) == hour,
        data_file_name(hour, seq)[hour.len() as int] == '_',
        forall|i: int|
            hour.len() < i <= hour.len() + 6 ==> is_digit(
                #[trigger] data_file_name(hour, seq)[i],
            ),
        data_file_name(hour, seq).skip(hour.len() as int + 7) == ".parquet"@,
{
    reveal_strlit("_");
    reveal_strlit(".parquet");
    let name = data_file_name(hour, seq);
    let number = zero_padded(seq as nat, 6);
    lemma_padded_digits(seq as nat, 6);
    assert(decimal(seq as nat).len() <= 6) by {
        reveal_with_fuel(decimal, 7);
    }
    assert(number.len() == 6);
    assert(name.take(hour.len() as int) =~= hour);
    assert forall|i: int| hour.len() < i <= hour.len() + 6 implies is_digit(
        #[trigger] name[i],
    ) by {
        assert(name[i] == number[i - hour.len() - 1]);
    }
    assert(name.skip(hour.len() as int + 7) =~= ".parquet"@);
}

/// The name of a data file begins with the hour, an underscore and digits that stand for its
/// number, at least six of them, and ends with `.parquet`.
pub proof fn law_name_shows_hour_and_number(hour: Seq<char>, seq: u64)
    ensures
        data_file_name(hour, seq).len() >= hour.len() + 15,
        data_file_name(hour, seq).take(hour.len() as int) == hour,
        data_file_name(hour, seq)[hour.len() as int] == '_',
        data_file_name(hour, seq).skip(data_file_name(hour, seq).len() - 8) == ".parquet"@,
        numeral_value(
            data_file_name(hour, seq).subrange(
                hour.len() as int + 1,
                data_file_name(hour, seq).len() - 8,
            ),
        ) == seq,
        forall|i: int|
            hour.len() < i < data_file_name(hour, seq).len() - 8 ==> is_digit(
                #[trigger] data_file_name(hour, seq)[i],
            ),
{
    reveal_strlit("_");
    reveal_strlit(".parquet");
    let name = data_file_name(hour, seq);
    let number = zero_padded(seq as nat, 6);
    lemma_padded_digits(seq as nat, 6);
    lemma_padded_value(seq as nat, 6);
    assert(name.take(hour.len() as int) =~= hour);
    assert(name.skip(name.len() - 8) =~= ".parquet"@);
    assert(name.subrange(hour.len() as int + 1, name.len() - 8) =~= number);
    assert forall|i: int| hour.len() < i < name.len() - 8 implies is_digit(#[trigger] name[i]) by {
        assert(name[i] == number[i - hour.len() - 1]);
    }
}

/// Whatever stands before the underscore, the digits between it and `.parquet` are the number
/// of a file.
pub proof fn law_digits_are_the_number(front: Seq<char>, digits: Seq<char>)
    requires
        digits.len() > 0,
        forall|i: int| 0 <= i < digits.len() ==> is_digit(#[trigger] digits[i]),
        numeral_value(digits) <= u64::MAX,
    ensures
        file_number(front + "_"@ + digits + ".parquet"@) is Some,
        file_number(front + "_"@ + digits + ".parquet"@)->0 == numeral_value(digits),
{
    reveal_strlit("_");
    reveal_strlit(".parquet");
    let name = front + "_"@ + digits + ".parquet"@;
    let end = name.len() - 8;
    lemma_digits_behind(front + "_"@, digits);
    lemma_digits_not_negative(digits);
    assert(name.take(end) =~= front + "_"@ + digits);
    assert(name.skip(end) =~= ".parquet"@);
    assert(name.subrange(end - digits.len(), end) =~= digits);
    assert(name[end - digits.len() - 1] == '_');
}

/// A file with a number has a name of that form: it ends with an underscore, the digits of
/// the number and `.parquet`.
pub proof fn law_numbered_files_are_named_so(name: Seq<char>) -> (parts: (Seq<char>, Seq<char>))
    requires
        file_number(name) is Some,
    ensures
        name == parts.0 + "_"@ + parts.1 + ".parquet"@,
        parts.1.len() > 0,
        forall|i: int| 0 <= i < parts.1.len() ==> is_digit(#[trigger] parts.1[i]),
        numeral_value(parts.1) == file_number(name)->0,
{
    reveal_strlit("_");
    reveal_strlit(".parquet");
    let end = name.len() - 8;
    let stem = name.take(end);
    let start = end - digits_at_end(stem);
    lemma_digits_at_end(stem);
    let front = name.take(start - 1);
    let digits = name.subrange(start, end);
    assert forall|i: int| 0 <= i < digits.len() implies is_digit(#[trigger] digits[i]) by {
        assert(digits[i] == stem[start + i]);
    }
    lemma_digits_not_negative(digits);
    assert(name =~= front + "_"@ + digits + ".parquet"@) by {
        assert forall|i: int| end <= i < name.len() implies name[i] == ".parquet"@[i - end] by {
            assert(name.skip(end)[i - end] == name[i]);
        }
    }
    (front, digits)
}

/// The number to begin with is the smallest behind those in use: zero, or right behind one
/// that a file has.
pub proof fn law_first_number_is_right_behind(names: Seq<Seq<char>>)
    ensures
        number_behind(names) >= 0,
        forall|k: int|
            0 <= k < names.len() && file_number(#[trigger] names[k]) is Some ==> file_number(
                names[k],
            )->0 < number_behind(names),
        number_behind(names) == 0 || exists|k: int|
            0 <= k < names.len() && file_number(#[trigger] names[k]) is Some && file_number(
                names[k],
            )->0 + 1 == number_behind(names),
    decreases names.len(),
{
    assert forall|k: int|
        0 <= k < names.len() && file_number(#[trigger] names[k]) is Some implies file_number(
        names[k],
    )->0 < number_behind(names) by {
        lemma_numbers_are_before(names, k);
    }
    if names.len() > 0 {
        let rest = names.drop_last();
        law_first_number_is_right_behind(rest);
        if number_behind(names) != 0 {
            if number_behind(names) == number_behind(rest) {
                let k = choose|k: int|
                    0 <= k < rest.len() && file_number(#[trigger] rest[k]) is Some && file_number(
                        rest[k],
                    )->0 + 1 == number_behind(rest);
                assert(names[k] == rest[k]);
            } else {
                assert(names[names.len() - 1] == names.last());
            }
        }
    }
}

} // verus!
