//! Texts as sequences of characters: numerals, splitting and trimming.

use vstd::prelude::*;

verus! {

/// The digits of numerals in any base up to sixteen.
pub const DIGITS: [char; 16] = [
    '0', '1', '2', '3', '4', '5', '6', '7', '8', '9', 'a', 'b', 'c', 'd', 'e', 'f',
];

/// `String::push` appends one character to the text.
pub assume_specification[ String::push ](text: &mut String, c: char)
    ensures
        final(text)@ == old(text)@.push(c),
;

/// The characters of a text, in order.
pub fn chars_of(text: &str) -> (chars: Vec<char>)
    ensures
        chars@ == text@,
{
    let mut chars: Vec<char> = Vec::new();
    for c in it: text.chars()
        invariant
            it.seq() == text@,
            chars@ == it.seq().take(it.index() as int),
    {
        chars.push(c);
    }
    chars
}

/// The text made of the given characters.
pub fn text_of(chars: &[char]) -> (text: String)
    ensures
        text@ == chars@,
{
    let mut text = String::new();
    for i in 0..chars.len()
        invariant
            text@ == chars@.take(i as int),
    {
        text.push(chars[i]);
    }
    text
}

/// The numeral of `value` in base `base`, without leading zeros.
pub open spec fn numeral_of(value: nat, base: nat) -> Seq<char>
    recommends
        2 <= base <= 16,
    decreases value,
{
    if value < base || base < 2 {
        seq![DIGITS@[value as int]]
    } else {
        proof {
            assert(value / base < value) by (nonlinear_arith)
                requires
                    2 <= base <= value,
            ;
        }
        numeral_of(value / base, base).push(DIGITS@[(value % base) as int])
    }
}

/// Writes `value` in base `base`.
pub fn numeral(value: u16, base: u16) -> (text: String)
    requires
        2 <= base <= 16,
    ensures
        text@ == numeral_of(value as nat, base as nat),
    decreases value,
{
    let mut text = if value < base {
        String::new()
    } else {
        assert(value / base < value) by (nonlinear_arith)
            requires
                2 <= base <= value,
        ;
        numeral(value / base, base)
    };
    text.push(DIGITS[(value % base) as usize]);
    proof {
        if value < base {
            assert(value % base == value) by (nonlinear_arith)
                requires
                    value < base,
            ;
        }
    }
    text
}

/// Whether a character is a hexadecimal digit in either case.
pub open spec fn is_hex_digit(c: char) -> bool {
    '0' <= c <= '9' || 'a' <= c <= 'f' || 'A' <= c <= 'F'
}

/// The value of a hexadecimal digit.
pub open spec fn hex_digit_value(c: char) -> int {
    if c <= '9' {
        c as int - '0' as int
    } else if c >= 'a' {
        c as int - 'a' as int + 10
    } else {
        c as int - 'A' as int + 10
    }
}

/// The number that a numeral in base `base` stands for.
pub open spec fn numeral_value(text: Seq<char>, base: nat) -> int
    decreases text.len(),
{
    if text.len() == 0 {
        0
    } else {
        base * numeral_value(text.drop_last(), base) + hex_digit_value(text.last())
    }
}

/// A numeral consists of one or more digits and stands for the number that it was written for.
pub proof fn numeral_reads_back(value: nat, base: nat)
    requires
        2 <= base <= 16,
    ensures
        numeral_value(numeral_of(value, base), base) == value,
        numeral_of(value, base).len() > 0,
        forall|i: int|
            0 <= i < numeral_of(value, base).len() ==> is_hex_digit(
                #[trigger] numeral_of(value, base)[i],
            ),
    decreases value,
{
    let text = numeral_of(value, base);
    if value < base {
        assert(text.drop_last() == Seq::<char>::empty());
        assert(numeral_value(text.drop_last(), base) == 0);
        assert(base * 0 == 0) by (nonlinear_arith);
        assert(hex_digit_value(DIGITS@[value as int]) == value);
    } else {
        assert(value / base < value && value == base * (value / base) + value % base && value % base
            < base) by (nonlinear_arith)
            requires
                2 <= base <= value,
        ;
        numeral_reads_back(value / base, base);
        assert(text.drop_last() == numeral_of(value / base, base));
        assert(hex_digit_value(DIGITS@[(value % base) as int]) == value % base);
    }
}

/// The numerals of `values` with `separator` between each two.
pub open spec fn numerals_of(values: Seq<u16>, separator: char, base: nat) -> Seq<char>
    decreases values.len(),
{
    if values.len() == 0 {
        Seq::empty()
    } else if values.len() == 1 {
        numeral_of(values[0] as nat, base)
    } else {
        numerals_of(values.drop_last(), separator, base).push(separator) + numeral_of(
            values.last() as nat,
            base,
        )
    }
}

/// Writes `values` in base `base` with `separator` between each two.
pub fn numerals(values: &[u16], separator: char, base: u16) -> (text: String)
    requires
        2 <= base <= 16,
    ensures
        text@ == numerals_of(values@, separator, base as nat),
{
    let mut text = String::new();
    for i in 0..values.len()
        invariant
            2 <= base <= 16,
            text@ == numerals_of(values@.take(i as int), separator, base as nat),
    {
        proof {
            assert(values@.take(i + 1).drop_last() == values@.take(i as int));
        }
        if i > 0 {
            text.push(separator);
        }
        text.append(numeral(values[i], base).as_str());
    }
    assert(values@.take(values@.len() as int) == values@);
    text
}

/// The pieces of a text between the occurrences of `separator`; there is always at least one.
pub open spec fn split_of(text: Seq<char>, separator: char) -> Seq<Seq<char>>
    decreases text.len(),
{
    if text.len() == 0 {
        seq![Seq::empty()]
    } else {
        let pieces = split_of(text.drop_last(), separator);
        if text.last() == separator {
            pieces.push(Seq::empty())
        } else {
            pieces.drop_last().push(pieces.last().push(text.last()))
        }
    }
}

/// The contents of a list of pieces.
pub open spec fn pieces_of(pieces: Seq<Vec<char>>) -> Seq<Seq<char>> {
    pieces.map_values(|piece: Vec<char>| piece@)
}

/// Splitting a text gives at least one piece.
pub proof fn split_is_not_empty(text: Seq<char>, separator: char)
    ensures
        split_of(text, separator).len() > 0,
    decreases text.len(),
{
    if text.len() > 0 {
        split_is_not_empty(text.drop_last(), separator);
    }
}

/// A text without the separator is its own only piece.
pub proof fn split_keeps_one_piece(text: Seq<char>, separator: char)
    requires
        forall|i: int| 0 <= i < text.len() ==> #[trigger] text[i] != separator,
    ensures
        split_of(text, separator) == seq![text],
    decreases text.len(),
{
    if text.len() > 0 {
        let front = text.drop_last();
        assert forall|i: int| 0 <= i < front.len() implies #[trigger] front[i] != separator by {
            assert(front[i] == text[i]);
        }
        split_keeps_one_piece(front, separator);
        assert(text[text.len() - 1] != separator);
        assert(front.push(text.last()) == text);
    } else {
        assert(text == Seq::<char>::empty());
    }
}

/// What follows the last separator is the last piece.
pub proof fn split_ends_with_last_piece(text: Seq<char>, separator: char, last: Seq<char>)
    requires
        forall|i: int| 0 <= i < last.len() ==> #[trigger] last[i] != separator,
    ensures
        split_of(text.push(separator) + last, separator) == split_of(text, separator).push(last),
    decreases last.len(),
{
    let whole = text.push(separator) + last;
    if last.len() > 0 {
        let front = last.drop_last();
        assert forall|i: int| 0 <= i < front.len() implies #[trigger] front[i] != separator by {
            assert(front[i] == last[i]);
        }
        split_ends_with_last_piece(text, separator, front);
        assert(whole.drop_last() == text.push(separator) + front);
        assert(last[last.len() - 1] != separator);
        let pieces = split_of(text, separator).push(front);
        assert(pieces.drop_last() == split_of(text, separator));
        assert(front.push(last.last()) == last);
    } else {
        assert(whole.drop_last() == text);
        assert(last == Seq::<char>::empty());
    }
}

/// The numbers that stand in a text between separators; none in an empty text.
pub open spec fn numbers_of(text: Seq<char>, separator: char, base: nat) -> Seq<int> {
    if text.len() == 0 {
        Seq::empty()
    } else {
        split_of(text, separator).map_values(|piece: Seq<char>| numeral_value(piece, base))
    }
}

/// Numerals with separators between them read back as the numbers that they were written for.
pub proof fn numerals_read_back(values: Seq<u16>, separator: char, base: nat)
    requires
        2 <= base <= 16,
        !is_hex_digit(separator),
    ensures
        numbers_of(numerals_of(values, separator, base), separator, base) == values.map_values(
            |value: u16| value as int,
        ),
        numerals_of(values, separator, base).len() == 0 <==> values.len() == 0,
    decreases values.len(),
{
    let text = numerals_of(values, separator, base);
    let expected = values.map_values(|value: u16| value as int);
    if values.len() > 0 {
        let last = numeral_of(values.last() as nat, base);
        numeral_reads_back(values.last() as nat, base);
        assert forall|i: int| 0 <= i < last.len() implies #[trigger] last[i] != separator by {
            assert(is_hex_digit(last[i]));
        }
        if values.len() == 1 {
            split_keeps_one_piece(last, separator);
            assert(numbers_of(text, separator, base) =~= expected);
        } else {
            let front = numerals_of(values.drop_last(), separator, base);
            numerals_read_back(values.drop_last(), separator, base);
            split_ends_with_last_piece(front, separator, last);
            assert(numbers_of(text, separator, base) =~= numbers_of(front, separator, base).push(
                values.last() as int,
            ));
            assert(expected =~= values.drop_last().map_values(|value: u16| value as int).push(
                values.last() as int,
            ));
        }
    } else {
        assert(numbers_of(text, separator, base) =~= expected);
    }
}

/// Numerals with separators between them hold nothing but digits and separators; a separator stands
/// neither at an end nor beside another one.
pub proof fn separators_stand_alone(values: Seq<u16>, separator: char, base: nat)
    requires
        2 <= base <= 16,
        !is_hex_digit(separator),
    ensures
        ({
            let text = numerals_of(values, separator, base);
            &&& forall|i: int|
                0 <= i < text.len() ==> is_hex_digit(#[trigger] text[i]) || text[i] == separator
            &&& text.len() > 0 ==> text[0] != separator && text.last() != separator
            &&& forall|i: int|
                0 <= i < text.len() - 1 && #[trigger] text[i] == separator ==> text[i + 1]
                    != separator
        }),
    decreases values.len(),
{
    if values.len() > 0 {
        let last = numeral_of(values.last() as nat, base);
        numeral_reads_back(values.last() as nat, base);
        if values.len() > 1 {
            let front = numerals_of(values.drop_last(), separator, base);
            separators_stand_alone(values.drop_last(), separator, base);
            numerals_read_back(values.drop_last(), separator, base);
            let text = front.push(separator) + last;
            assert forall|i: int| 0 <= i < text.len() implies is_hex_digit(#[trigger] text[i])
                || text[i] == separator by {
                if i > front.len() {
                    assert(text[i] == last[i - front.len() - 1]);
                } else if i < front.len() {
                    assert(text[i] == front[i]);
                }
            }
            assert forall|i: int|
                0 <= i < text.len() - 1 && #[trigger] text[i] == separator implies text[i + 1]
                != separator by {
                if i >= front.len() {
                    assert(text[i + 1] == last[i - front.len()]);
                    assert(is_hex_digit(last[i - front.len()]));
                } else if i < front.len() - 1 {
                    assert(text[i] == front[i] && text[i + 1] == front[i + 1]);
                } else {
                    assert(text[i] == front.last());
                }
            }
            assert(text[0] == front[0]);
            assert(text.last() == last[last.len() - 1]);
        }
    }
}

/// Splits a text at every `separator`.
pub fn split(text: &[char], separator: char) -> (pieces: Vec<Vec<char>>)
    ensures
        pieces_of(pieces@) == split_of(text@, separator),
{
    let mut pieces: Vec<Vec<char>> = Vec::new();
    let mut piece: Vec<char> = Vec::new();
    for i in 0..text.len()
        invariant
            pieces_of(pieces@).push(piece@) == split_of(text@.take(i as int), separator),
    {
        proof {
            assert(text@.take(i + 1).drop_last() == text@.take(i as int));
            let before = pieces_of(pieces@).push(piece@);
            assert(before.drop_last() == pieces_of(pieces@));
            assert(before.last() == piece@);
        }
        if text[i] == separator {
            let ghost done = pieces_of(pieces@).push(piece@);
            pieces.push(piece);
            assert(pieces_of(pieces@) == done);
            piece = Vec::new();
        } else {
            piece.push(text[i]);
        }
    }
    proof {
        assert(text@.take(text@.len() as int) == text@);
    }
    let ghost done = pieces_of(pieces@).push(piece@);
    pieces.push(piece);
    assert(pieces_of(pieces@) == done);
    pieces
}

/// Whether a character has the Unicode property White_Space.
pub open spec fn white_space(c: char) -> bool {
    ||| '\u{9}' <= c <= '\u{d}'
    ||| c == ' '
    ||| c == '\u{85}'
    ||| c == '\u{a0}'
    ||| c == '\u{1680}'
    ||| '\u{2000}' <= c <= '\u{200a}'
    ||| c == '\u{2028}'
    ||| c == '\u{2029}'
    ||| c == '\u{202f}'
    ||| c == '\u{205f}'
    ||| c == '\u{3000}'
}

/// Tests for white space.
pub fn is_white_space(c: char) -> (white: bool)
    ensures
        white == white_space(c),
{
    ('\u{9}' <= c && c <= '\u{d}') || c == ' ' || c == '\u{85}' || c == '\u{a0}' || c == '\u{1680}'
        || ('\u{2000}' <= c && c <= '\u{200a}') || c == '\u{2028}' || c == '\u{2029}' || c
        == '\u{202f}' || c == '\u{205f}' || c == '\u{3000}'
}

/// A text without the white space at its front.
pub open spec fn trim_start_of(text: Seq<char>) -> Seq<char>
    decreases text.len(),
{
    if text.len() > 0 && white_space(text[0]) {
        trim_start_of(text.skip(1))
    } else {
        text
    }
}

/// A text without the white space at its end.
pub open spec fn trim_end_of(text: Seq<char>) -> Seq<char>
    decreases text.len(),
{
    if text.len() > 0 && white_space(text.last()) {
        trim_end_of(text.drop_last())
    } else {
        text
    }
}

/// A text without the white space at its front and its end.
pub open spec fn trim_of(text: Seq<char>) -> Seq<char> {
    trim_end_of(trim_start_of(text))
}

/// Cuts the white space off a text at both ends.
pub fn trim(text: &[char]) -> (trimmed: Vec<char>)
    ensures
        trimmed@ == trim_of(text@),
{
    let mut start: usize = 0;
    assert(text@.skip(0) == text@);
    while start < text.len() && is_white_space(text[start])
        invariant
            start <= text@.len(),
            trim_start_of(text@.skip(start as int)) == trim_start_of(text@),
        decreases text@.len() - start,
    {
        assert(text@.skip(start as int).skip(1) == text@.skip(start + 1));
        start = start + 1;
    }
    let ghost rest = text@.skip(start as int);
    let mut end: usize = text.len();
    assert(text@.subrange(start as int, end as int) == rest);
    while end > start && is_white_space(text[end - 1])
        invariant
            start <= end <= text@.len(),
            trim_end_of(text@.subrange(start as int, end as int)) == trim_end_of(rest),
        decreases end - start,
    {
        assert(text@.subrange(start as int, end as int).drop_last() == text@.subrange(
            start as int,
            end - 1,
        ));
        end = end - 1;
    }
    vstd::slice::slice_to_vec(vstd::slice::slice_subrange(text, start, end))
}

/// A number below the base is written as one ASCII digit, letters being small; any other is written
/// as the numeral of its quotient by the base followed by that of the remainder.
pub proof fn numeral_is_positional(value: nat, base: nat)
    requires
        2 <= base <= 16,
    ensures
        value < base ==> numeral_of(value, base).len() == 1 && numeral_of(value, base)[0] as int == (
        if value < 10 {
            48 + value
        } else {
            87 + value
        }),
        value >= base ==> numeral_of(value, base) == numeral_of(value / base, base) + numeral_of(
            value % base,
            base,
        ),
{
    if value < base {
        assert(numeral_of(value, base)[0] == DIGITS@[value as int]);
    } else {
        let rest = value % base;
        assert(rest < base) by (nonlinear_arith)
            requires
                2 <= base,
                rest == value % base,
        ;
        assert(numeral_of(rest, base) == seq![DIGITS@[rest as int]]);
        assert(numeral_of(value, base) == numeral_of(value / base, base) + numeral_of(rest, base));
    }
}

/// A list of numbers is written by joining their numerals with the separator.
pub proof fn numerals_are_joined(values: Seq<u16>, value: u16, separator: char, base: nat)
    ensures
        numerals_of(Seq::empty(), separator, base) == Seq::<char>::empty(),
        numerals_of(seq![value], separator, base) == numeral_of(value as nat, base),
        values.len() > 0 ==> numerals_of(values.push(value), separator, base) == numerals_of(
            values,
            separator,
            base,
        ) + seq![separator] + numeral_of(value as nat, base),
{
    if values.len() > 0 {
        let all = values.push(value);
        assert(all.drop_last() == values);
        assert(all.last() == value);
        assert(numerals_of(values, separator, base).push(separator) == numerals_of(
            values,
            separator,
            base,
        ) + seq![separator]);
    }
}

/// The hexadecimal digits and their values, by their codes.
pub proof fn hex_digits_by_code(c: char)
    ensures
        is_hex_digit(c) <==> (48 <= c as int <= 57 || 65 <= c as int <= 70 || 97 <= c as int <= 102),
        48 <= c as int <= 57 ==> hex_digit_value(c) == c as int - 48,
        65 <= c as int <= 70 ==> hex_digit_value(c) == c as int - 55,
        97 <= c as int <= 102 ==> hex_digit_value(c) == c as int - 87,
{
}

/// A list of pieces holds what each of its pieces holds.
pub proof fn pieces_are_the_pieces(pieces: Seq<Vec<char>>, i: int)
    requires
        0 <= i < pieces.len(),
    ensures
        pieces_of(pieces).len() == pieces.len(),
        pieces_of(pieces)[i] == pieces[i]@,
{
}

/// The white space of Unicode, by its codes.
pub proof fn white_space_by_code(c: char)
    ensures
        white_space(c) <==> ({
            let code = c as int;
            ||| 9 <= code <= 13
            ||| code == 32
            ||| code == 0x85
            ||| code == 0xa0
            ||| code == 0x1680
            ||| 0x2000 <= code <= 0x200a
            ||| code == 0x2028
            ||| code == 0x2029
            ||| code == 0x202f
            ||| code == 0x205f
            ||| code == 0x3000
        }),
{
}

/// White space in front is cut off.
proof fn trim_start_drops_front(front: Seq<char>, text: Seq<char>)
    requires
        forall|i: int| 0 <= i < front.len() ==> white_space(#[trigger] front[i]),
    ensures
        trim_start_of(front + text) == trim_start_of(text),
    decreases front.len(),
{
    if front.len() > 0 {
        let rest = front.skip(1);
        assert forall|i: int| 0 <= i < rest.len() implies white_space(#[trigger] rest[i]) by {
            assert(rest[i] == front[i + 1]);
        }
        trim_start_drops_front(rest, text);
        assert(white_space(front[0]));
        assert((front + text).skip(1) == rest + text);
    } else {
        assert(front + text == text);
    }
}

/// White space at the end is cut off.
proof fn trim_end_drops_end(text: Seq<char>, end: Seq<char>)
    requires
        forall|i: int| 0 <= i < end.len() ==> white_space(#[trigger] end[i]),
    ensures
        trim_end_of(text + end) == trim_end_of(text),
    decreases end.len(),
{
    if end.len() > 0 {
        let rest = end.drop_last();
        assert forall|i: int| 0 <= i < rest.len() implies white_space(#[trigger] rest[i]) by {
            assert(rest[i] == end[i]);
        }
        trim_end_drops_end(text, rest);
        assert(white_space(end[end.len() - 1]));
        assert((text + end).drop_last() == text + rest);
        assert((text + end).last() == end[end.len() - 1]);
    } else {
        assert(text + end == text);
    }
}

/// Trimming takes the white space off both ends, and nothing of what stands between.
pub proof fn trim_keeps_the_middle(front: Seq<char>, middle: Seq<char>, end: Seq<char>)
    requires
        forall|i: int| 0 <= i < front.len() ==> white_space(#[trigger] front[i]),
        forall|i: int| 0 <= i < end.len() ==> white_space(#[trigger] end[i]),
        middle.len() > 0 ==> !white_space(middle[0]) && !white_space(middle.last()),
    ensures
        trim_of(front + middle + end) == middle,
{
    let whole = front + middle + end;
    if middle.len() > 0 {
        assert(whole == front + (middle + end));
        trim_start_drops_front(front, middle + end);
        assert((middle + end)[0] == middle[0]);
        trim_end_drops_end(middle, end);
    } else {
        assert(front + middle == front);
        assert forall|i: int| 0 <= i < whole.len() implies white_space(#[trigger] whole[i]) by {
            if i < front.len() {
                assert(whole[i] == front[i]);
            } else {
                assert(whole[i] == end[i - front.len()]);
            }
        }
        trim_start_drops_front(whole, Seq::empty());
        assert(whole + Seq::<char>::empty() == whole);
        assert(middle == Seq::<char>::empty());
    }
}

/// Pieces with a separator between each two.
pub open spec fn joined(pieces: Seq<Seq<char>>, separator: char) -> Seq<char>
    decreases pieces.len(),
{
    if pieces.len() == 0 {
        Seq::empty()
    } else if pieces.len() == 1 {
        pieces[0]
    } else {
        joined(pieces.drop_last(), separator) + seq![separator] + pieces.last()
    }
}

/// The pieces of a text hold no separator, and joined they are the text again.
pub proof fn split_joins_back(text: Seq<char>, separator: char)
    ensures
        split_of(text, separator).len() > 0,
        joined(split_of(text, separator), separator) == text,
        forall|i: int, j: int|
            0 <= i < split_of(text, separator).len() && 0 <= j < split_of(text, separator)[i].len()
                ==> #[trigger] split_of(text, separator)[i][j] != separator,
    decreases text.len(),
{
    if text.len() == 0 {
        assert(split_of(text, separator)[0] == Seq::<char>::empty());
        assert(text == Seq::<char>::empty());
    } else {
        let front = text.drop_last();
        let before = split_of(front, separator);
        let pieces = split_of(text, separator);
        split_joins_back(front, separator);
        assert(front.push(text.last()) == text);
        if text.last() == separator {
            assert(pieces.drop_last() == before);
            assert(joined(pieces, separator) =~= text);
        } else {
            let last = before.last().push(text.last());
            assert(pieces.drop_last() == before.drop_last());
            assert(pieces.last() == last);
            assert(joined(pieces, separator) =~= text);
            assert forall|i: int, j: int|
                0 <= i < pieces.len() && 0 <= j < pieces[i].len() implies #[trigger] pieces[i][j]
                != separator by {
                if i < before.len() - 1 {
                    assert(pieces[i] == before[i]);
                } else if j < before.last().len() {
                    assert(pieces[i][j] == before[i][j]);
                }
            }
        }
    }
}

/// What follows a text behind a separator leaves the pieces of the text as they are.
pub proof fn split_keeps_earlier_pieces(text: Seq<char>, separator: char, more: Seq<char>)
    requires
        more.len() > 0 ==> more[0] == separator,
    ensures
        split_of(text, separator).len() <= split_of(text + more, separator).len(),
        more.len() > 0 ==> split_of(text, separator).len() < split_of(text + more, separator).len(),
        forall|i: int|
            0 <= i < split_of(text, separator).len() ==> #[trigger] split_of(text + more, separator)[i]
                == split_of(text, separator)[i],
    decreases more.len(),
{
    if more.len() > 0 {
        let front = more.drop_last();
        split_keeps_earlier_pieces(text, separator, front);
        assert((text + more).drop_last() == text + front);
        assert((text + more).last() == more.last());
        if more.len() == 1 {
            assert(text + front == text);
        }
    } else {
        assert(text + more == text);
    }
}

} // verus!
