//! Text building blocks: decimal numbers, line splitting, comparison.

use vstd::prelude::*;

verus! {

/// `String::push` of the standard library appends one character.
pub assume_specification[ String::push ](s: &mut String, c: char)
    ensures
        final(s)@ == old(s)@.push(c),
;

/// The character of a decimal digit.
pub open spec fn digit(d: int) -> char
    recommends
        0 <= d < 10,
{
    (48 + d) as char
}

/// The decimal numeral of a natural number, without leading zeros.
pub open spec fn decimal(n: nat) -> Seq<char>
    decreases n,
{
    if n < 10 {
        seq![digit(n as int)]
    } else {
        decimal(n / 10).push(digit((n % 10) as int))
    }
}

/// The decimal numeral of an integer: a minus sign stands before the negative ones.
pub open spec fn signed_decimal(n: int) -> Seq<char> {
    if n < 0 {
        seq!['-'] + decimal((-n) as nat)
    } else {
        decimal(n as nat)
    }
}

/// The decimal numeral with zeros in front of it, up to `width` characters.
pub open spec fn zero_padded(n: nat, width: nat) -> Seq<char> {
    let plain = decimal(n);
    if plain.len() >= width {
        plain
    } else {
        Seq::new((width - plain.len()) as nat, |i: int| '0') + plain
    }
}

/// Appends the decimal numeral of `n`.
pub fn push_decimal(out: &mut String, n: u64)
    ensures
        final(out)@ == old(out)@ + decimal(n as nat),
    decreases n,
{
    if n >= 10 {
        push_decimal(out, n / 10);
    }
    let c: char = (48u8 + (n % 10) as u8) as char;
    assert(c == digit((n % 10) as int));
    out.push(c);
    assert(out@ =~= old(out)@ + decimal(n as nat));
}

/// Appends the decimal numeral of the signed number `n`.
pub fn push_signed_decimal(out: &mut String, n: i64)
    ensures
        final(out)@ == old(out)@ + signed_decimal(n as int),
{
    if n < 0 {
        out.push('-');
        push_decimal(out, (-(n as i128)) as u64);
        assert(out@ =~= old(out)@ + signed_decimal(n as int));
    } else {
        push_decimal(out, n as u64);
    }
}

/// The number of characters of the decimal numeral of `n`.
fn decimal_width(n: u64) -> (w: u64)
    ensures
        w == decimal(n as nat).len(),
        1 <= w <= 20,
{
    let mut rest: u64 = n;
    let mut w: u64 = 1;
    proof {
        lemma_decimal_len_bound(n);
    }
    while rest >= 10
        invariant
            w >= 1,
            decimal(n as nat).len() == w - 1 + decimal(rest as nat).len(),
            decimal(n as nat).len() <= 20,
        decreases rest,
    {
        proof {
            lemma_decimal_nonempty((rest / 10) as nat);
        }
        rest = rest / 10;
        w = w + 1;
    }
    w
}

proof fn lemma_decimal_nonempty(n: nat)
    ensures
        decimal(n).len() >= 1,
    decreases n,
{
    if n >= 10 {
        lemma_decimal_nonempty(n / 10);
    }
}

proof fn lemma_decimal_len_bound(n: u64)
    ensures
        decimal(n as nat).len() <= 20,
{
    reveal_with_fuel(decimal, 20);
}

/// Appends `n` padded with zeros to `width` characters.
pub fn push_zero_padded(out: &mut String, n: u64, width: u64)
    ensures
        final(out)@ == old(out)@ + zero_padded(n as nat, width as nat),
{
    let mut w: u64 = decimal_width(n);
    let ghost plain = decimal(n as nat);
    let ghost start = out@;
    while w < width
        invariant
            plain.len() <= w,
            w <= width || w == plain.len(),
            out@ == start + Seq::new((w - plain.len()) as nat, |i: int| '0'),
        decreases width - w,
    {
        out.push('0');
        w = w + 1;
        assert(out@ =~= start + Seq::new((w - plain.len()) as nat, |i: int| '0'));
    }
    push_decimal(out, n);
    assert(out@ =~= start + zero_padded(n as nat, width as nat));
}

/// The number that a row of decimal digits stands for.
pub open spec fn numeral_value(text: Seq<char>) -> int
    decreases text.len(),
{
    if text.len() == 0 {
        0
    } else {
        numeral_value(text.drop_last()) * 10 + (text.last() as int - 48)
    }
}

/// A numeral stands for its number.
pub proof fn lemma_decimal_value(n: nat)
    ensures
        numeral_value(decimal(n)) == n,
    decreases n,
{
    if n < 10 {
        assert(decimal(n).drop_last() =~= Seq::<char>::empty());
        assert(numeral_value(decimal(n).drop_last()) == 0);
    } else {
        lemma_decimal_value(n / 10);
        assert(decimal(n).drop_last() =~= decimal(n / 10));
    }
}

proof fn lemma_zeros_in_front(zeros: Seq<char>, text: Seq<char>)
    requires
        forall|i: int| 0 <= i < zeros.len() ==> #[trigger] zeros[i] == '0',
    ensures
        numeral_value(zeros + text) == numeral_value(text),
    decreases zeros.len() + text.len(),
{
    let all = zeros + text;
    if text.len() > 0 {
        lemma_zeros_in_front(zeros, text.drop_last());
        assert(all.drop_last() =~= zeros + text.drop_last());
    } else if zeros.len() > 0 {
        lemma_zeros_in_front(zeros.drop_last(), text);
        assert(all.drop_last() =~= zeros.drop_last() + text);
        assert(all.last() == '0');
    }
}

/// Padded numerals of one width tell the numbers apart.
pub proof fn law_padded_numerals_differ(a: nat, b: nat, width: nat)
    requires
        zero_padded(a, width) == zero_padded(b, width),
    ensures
        a == b,
{
    lemma_padded_value(a, width);
    lemma_padded_value(b, width);
}

/// A padded numeral stands for its number.
pub proof fn lemma_padded_value(n: nat, width: nat)
    ensures
        numeral_value(zero_padded(n, width)) == n,
{
    lemma_decimal_value(n);
    let plain = decimal(n);
    if plain.len() < width {
        lemma_zeros_in_front(Seq::new((width - plain.len()) as nat, |i: int| '0'), plain);
    }
}

/// Numerals tell the numbers apart.
pub proof fn law_numerals_differ(a: nat, b: nat)
    requires
        decimal(a) == decimal(b),
    ensures
        a == b,
{
    lemma_decimal_value(a);
    lemma_decimal_value(b);
}

/// A number of at most `width` digits takes up exactly `width` characters.
pub proof fn lemma_padded_width(n: nat, width: nat)
    requires
        decimal(n).len() <= width,
    ensures
        zero_padded(n, width).len() == width,
{
}

/// A decimal digit.
pub open spec fn is_digit(c: char) -> bool {
    '0' <= c && c <= '9'
}

/// A numeral consists of digits.
pub proof fn lemma_decimal_digits(n: nat)
    ensures
        decimal(n).len() >= 1,
        forall|i: int| 0 <= i < decimal(n).len() ==> is_digit(#[trigger] decimal(n)[i]),
    decreases n,
{
    if n >= 10 {
        lemma_decimal_digits(n / 10);
    }
}

/// A padded numeral consists of digits.
pub proof fn lemma_padded_digits(n: nat, width: nat)
    ensures
        zero_padded(n, width).len() >= width,
        zero_padded(n, width).len() >= 1,
        forall|i: int|
            0 <= i < zero_padded(n, width).len() ==> is_digit(#[trigger] zero_padded(n, width)[i]),
{
    lemma_decimal_digits(n);
}

/// Whether two texts are the same.
pub fn same_text(a: &str, b: &str) -> (r: bool)
    ensures
        r == (a@ == b@),
{
    a.to_owned() == b.to_owned()
}

/// The characters of a text.
pub fn chars_of(text: &str) -> (chars: Vec<char>)
    ensures
        chars@ == text@,
{
    let mut chars: Vec<char> = Vec::new();
    for c in it: text.chars()
        invariant
            chars@ == it.seq().take(it.index() as int),
            it.seq() == text@,
    {
        chars.push(c);
    }
    chars
}

/// The number of characters before the first line feed, or of all of them.
pub open spec fn line_end(text: Seq<char>) -> nat
    decreases text.len(),
{
    if text.len() == 0 || text[0] == '\n' {
        0
    } else {
        1 + line_end(text.skip(1))
    }
}

/// A line without the carriage return at its end.
pub open spec fn without_cr(line: Seq<char>) -> Seq<char> {
    if line.len() > 0 && line.last() == '\r' {
        line.drop_last()
    } else {
        line
    }
}

/// The lines of a text. A line ends at a line feed, which is not part of it, and
/// neither is a carriage return right before the line feed. What follows the last
/// line feed is a line of its own where it is not empty.
pub open spec fn lines(text: Seq<char>) -> Seq<Seq<char>>
    decreases text.len(),
{
    if text.len() == 0 {
        Seq::empty()
    } else {
        let end = line_end(text) as int;
        if 0 <= end < text.len() {
            seq![without_cr(text.take(end))] + lines(text.skip(end + 1))
        } else {
            seq![text]
        }
    }
}

proof fn lemma_line_end(head: Seq<char>, tail: Seq<char>)
    requires
        !head.contains('\n'),
        tail.len() > 0 ==> tail[0] == '\n',
    ensures
        line_end(head + tail) == head.len(),
    decreases head.len(),
{
    let whole = head + tail;
    if head.len() > 0 {
        assert(head.contains(head[0]));
        assert(whole.skip(1) =~= head.skip(1) + tail);
        assert forall|c: char| head.skip(1).contains(c) implies head.contains(c) by {
            let i = choose|i: int| 0 <= i < head.skip(1).len() && head.skip(1)[i] == c;
            assert(head[i + 1] == c);
        }
        lemma_line_end(head.skip(1), tail);
    }
}

proof fn lemma_lines_step(line: Seq<char>, tail: Seq<char>)
    requires
        !line.contains('\n'),
    ensures
        lines(line.push('\n') + tail) == seq![without_cr(line)] + lines(tail),
{
    let whole = line.push('\n') + tail;
    assert(whole =~= line + (seq!['\n'] + tail));
    lemma_line_end(line, seq!['\n'] + tail);
    assert(whole.take(line.len() as int) =~= line);
    assert(whole.skip(line.len() as int + 1) =~= tail);
}

proof fn lemma_lines_last(line: Seq<char>)
    requires
        !line.contains('\n'),
        line.len() > 0,
    ensures
        lines(line) == seq![line],
{
    lemma_line_end(line, Seq::empty());
    assert(line + Seq::<char>::empty() =~= line);
}

/// What a list of texts holds.
pub open spec fn texts(list: Seq<String>) -> Seq<Seq<char>> {
    list.map_values(|s: String| s@)
}

/// The text of `line`, and a carriage return where one is pending.
spec fn with_pending(line: Seq<char>, pending: bool) -> Seq<char> {
    if pending {
        line.push('\r')
    } else {
        line
    }
}

/// Splits a text into its lines.
pub fn split_lines(text: &str) -> (list: Vec<String>)
    ensures
        texts(list@) == lines(text@),
{
    let chars = chars_of(text);
    let mut list: Vec<String> = Vec::new();
    let mut line = String::new();
    // a carriage return that may turn out to be part of a line's end
    let mut pending = false;
    let mut i: usize = 0;
    assert(line@ + text@.skip(0) =~= text@);
    assert(texts(list@) + lines(text@) =~= lines(text@));
    while i < chars.len()
        invariant
            chars@ == text@,
            i <= chars.len(),
            !with_pending(line@, pending).contains('\n'),
            without_cr(with_pending(line@, pending)) == line@,
            lines(text@) == texts(list@) + lines(
                with_pending(line@, pending) + text@.skip(i as int),
            ),
        decreases chars.len() - i,
    {
        let c = chars[i];
        let ghost whole = with_pending(line@, pending);
        let ghost rest = text@.skip(i + 1);
        if c == '\n' {
            proof {
                lemma_lines_step(whole, rest);
                assert(whole + text@.skip(i as int) =~= whole.push('\n') + rest);
                assert(texts(list@.push(line)) =~= texts(list@).push(line@));
                assert(texts(list@) + (seq![line@] + lines(rest)) =~= texts(list@).push(line@)
                    + lines(rest));
                assert(Seq::<char>::empty() + rest =~= rest);
            }
            list.push(line);
            line = String::new();
            pending = false;
        } else {
            proof {
                assert(whole + text@.skip(i as int) =~= whole.push(c) + rest);
                lemma_push_keeps_out(whole, c, '\n');
            }
            if pending {
                line.push('\r');
            }
            pending = c == '\r';
            if !pending {
                line.push(c);
            }
            assert(with_pending(line@, pending) =~= whole.push(c));
            assert(without_cr(with_pending(line@, pending)) =~= line@);
        }
        i = i + 1;
    }
    if pending {
        line.push('\r');
    }
    assert(line@ + text@.skip(i as int) =~= line@);
    if !line.as_str().is_empty() {
        proof {
            lemma_lines_last(line@);
            assert(texts(list@.push(line)) =~= texts(list@).push(line@));
            assert(texts(list@) + seq![line@] =~= texts(list@).push(line@));
        }
        list.push(line);
    } else {
        assert(line@ =~= Seq::<char>::empty());
        assert(texts(list@) + Seq::<Seq<char>>::empty() =~= texts(list@));
    }
    list
}

proof fn lemma_push_keeps_out(s: Seq<char>, c: char, other: char)
    requires
        !s.contains(other),
        c != other,
    ensures
        !s.push(c).contains(other),
{
    assert forall|i: int| 0 <= i < s.push(c).len() implies s.push(c)[i] != other by {
        if i < s.len() {
            assert(s.contains(s[i]));
        }
    }
}

/// A numeral consists of digits, stands for its number and has no zero in front of it.
pub proof fn law_numeral_stands_for_its_number(n: nat)
    ensures
        decimal(n).len() >= 1,
        forall|i: int| 0 <= i < decimal(n).len() ==> '0' <= #[trigger] decimal(n)[i] <= '9',
        numeral_value(decimal(n)) == n,
        decimal(n)[0] == '0' ==> n == 0 && decimal(n).len() == 1,
    decreases n,
{
    lemma_decimal_digits(n);
    assert forall|i: int| 0 <= i < decimal(n).len() implies '0' <= #[trigger] decimal(n)[i]
        <= '9' by {
        assert(is_digit(decimal(n)[i]));
    }
    lemma_decimal_value(n);
    if n >= 10 {
        law_numeral_stands_for_its_number(n / 10);
        assert(decimal(n)[0] == decimal(n / 10)[0]);
    }
}

/// The numeral of a number below zero is a minus sign before the numeral of its amount. That
/// of another number has no sign.
pub proof fn law_signed_numeral_stands_for_its_number(n: int)
    ensures
        n < 0 ==> signed_decimal(n)[0] == '-' && numeral_value(signed_decimal(n).skip(1)) == -n,
        n >= 0 ==> is_digit(signed_decimal(n)[0]) && numeral_value(signed_decimal(n)) == n,
        forall|i: int|
            1 <= i < signed_decimal(n).len() ==> is_digit(#[trigger] signed_decimal(n)[i]),
{
    if n < 0 {
        let amount = decimal((-n) as nat);
        lemma_decimal_value((-n) as nat);
        lemma_decimal_digits((-n) as nat);
        assert(signed_decimal(n).skip(1) =~= amount);
        assert forall|i: int| 1 <= i < signed_decimal(n).len() implies is_digit(
            #[trigger] signed_decimal(n)[i],
        ) by {
            assert(signed_decimal(n)[i] == amount[i - 1]);
        }
    } else {
        lemma_decimal_value(n as nat);
        lemma_decimal_digits(n as nat);
    }
}

/// A padded numeral stands for its number. It is as wide as asked for, and wider only where
/// the number needs it.
pub proof fn law_padded_numeral_stands_for_its_number(n: nat, width: nat)
    ensures
        numeral_value(zero_padded(n, width)) == n,
        zero_padded(n, width).len() >= width,
        zero_padded(n, width).len() > width ==> zero_padded(n, width) == decimal(n),
        forall|i: int|
            0 <= i < zero_padded(n, width).len() ==> is_digit(#[trigger] zero_padded(n, width)[i]),
{
    lemma_padded_value(n, width);
    lemma_padded_digits(n, width);
}

/// What stands before the first line feed of a text is its first line, whatever characters
/// it consists of, and the lines of the rest follow. A carriage return right before the line
/// feed belongs to the end of the line.
pub proof fn law_line_ends_at_its_line_feed(line: Seq<char>, rest: Seq<char>)
    requires
        !line.contains('\n'),
    ensures
        line.len() > 0 && line.last() == '\r' ==> lines(line + seq!['\n'] + rest)
            == seq![line.drop_last()] + lines(rest),
        !(line.len() > 0 && line.last() == '\r') ==> lines(line + seq!['\n'] + rest)
            == seq![line] + lines(rest),
{
    lemma_lines_step(line, rest);
    assert(line + seq!['\n'] + rest =~= line.push('\n') + rest);
}

/// A text without a line feed is one line, and an empty text has none.
pub proof fn law_rest_of_a_text_is_its_last_line(line: Seq<char>)
    requires
        !line.contains('\n'),
    ensures
        line.len() > 0 ==> lines(line) == seq![line],
        line.len() == 0 ==> lines(line).len() == 0,
{
    if line.len() > 0 {
        lemma_lines_last(line);
    }
}

/// The lines of a text that ends with a line feed are followed by those of what is added.
pub proof fn law_lines_of_one_text_behind_another(first: Seq<char>, second: Seq<char>)
    requires
        first.len() == 0 || first.last() == '\n',
    ensures
        lines(first + second) == lines(first) + lines(second),
    decreases first.len(),
{
    if first.len() == 0 {
        assert(first + second =~= second);
        assert(lines(first) + lines(second) =~= lines(second));
    } else {
        let line = lemma_first_line(first);
        let rest = first.skip(line.len() as int + 1);
        assert(first =~= line.push('\n') + rest);
        assert(first + second =~= line.push('\n') + (rest + second));
        lemma_lines_step(line, rest);
        lemma_lines_step(line, rest + second);
        law_lines_of_one_text_behind_another(rest, second);
        assert(seq![without_cr(line)] + (lines(rest) + lines(second)) =~= seq![without_cr(line)]
            + lines(rest) + lines(second));
    }
}

proof fn lemma_first_line(text: Seq<char>) -> (line: Seq<char>)
    requires
        text.len() > 0,
        text.last() == '\n',
    ensures
        !line.contains('\n'),
        line.len() < text.len(),
        text.take(line.len() as int) == line,
        text[line.len() as int] == '\n',
    decreases text.len(),
{
    if text[0] == '\n' {
        assert(text.take(0) =~= Seq::<char>::empty());
        Seq::empty()
    } else {
        let rest = lemma_first_line(text.skip(1));
        let line = seq![text[0]] + rest;
        assert(text.take(line.len() as int) =~= line) by {
            assert forall|i: int| 0 <= i < line.len() implies text[i] == line[i] by {
                if i > 0 {
                    assert(text.skip(1).take(rest.len() as int)[i - 1] == rest[i - 1]);
                }
            }
        }
        assert forall|i: int| 0 <= i < line.len() implies line[i] != '\n' by {
            if i > 0 {
                assert(rest.contains(rest[i - 1]));
            }
        }
        line
    }
}

/// A list of texts holds what its strings hold, in their order.
pub proof fn law_texts_are_those_of_the_strings(list: Seq<String>, i: int)
    requires
        0 <= i < list.len(),
    ensures
        texts(list).len() == list.len(),
        texts(list)[i] == list[i]@,
{
}

} // verus!
