//! How numbers, addresses and texts are written and read, character by
//! character.

use crate::text;
use crate::win;
use vstd::prelude::*;

verus! {

/// A digit up to nine is one of the characters from 0 on, a higher one one of
/// those from a on; a byte is its upper digit and its lower one.
pub proof fn a_byte_is_two_digits(byte: u8)
    ensures
        text::hex_of(byte).len() == 2,
        byte / 16 < 10 ==> text::hex_of(byte)[0] as int == '0' as int + byte / 16,
        byte / 16 >= 10 ==> text::hex_of(byte)[0] as int == 'a' as int + byte / 16 - 10,
        byte % 16 < 10 ==> text::hex_of(byte)[1] as int == '0' as int + byte % 16,
        byte % 16 >= 10 ==> text::hex_of(byte)[1] as int == 'a' as int + byte % 16 - 10,
{
}

/// A number in decimal ends in its last digit, and what stands before that is
/// the rest of the number; a number below ten is one digit.
pub proof fn a_number_ends_in_its_last_digit(n: nat)
    ensures
        text::decimal_of(n).len() >= 1,
        text::decimal_of(n).last() as int == '0' as int + n % 10,
        n < 10 ==> text::decimal_of(n).len() == 1,
        n >= 10 ==> text::decimal_of(n).drop_last() == text::decimal_of(n / 10),
{
    if n >= 10 {
        assert(text::decimal_of(n).drop_last() =~= text::decimal_of(n / 10));
    }
}

/// A negative number is a minus sign and the number without it.
pub proof fn a_negative_number_has_a_minus(n: int)
    ensures
        n >= 0 ==> text::signed_of(n) == text::decimal_of(n as nat),
        n < 0 ==> text::signed_of(n)[0] == '-' && text::signed_of(n).skip(1) == text::decimal_of(
            (-n) as nat,
        ),
{
    if n < 0 {
        assert(text::signed_of(n).skip(1) =~= text::decimal_of((-n) as nat));
    }
}

/// A number below a hundred takes two digits, the first of which is the tens.
pub proof fn two_digits_are_tens_and_ones(n: nat)
    requires
        n < 100,
    ensures
        text::two_digits_of(n).len() == 2,
        text::two_digits_of(n)[0] as int == '0' as int + n / 10,
        text::two_digits_of(n)[1] as int == '0' as int + n % 10,
{
    reveal_with_fuel(text::decimal_of, 2);
}

/// A number of three digits or more is written as it is.
pub proof fn more_than_two_digits_stay(n: nat)
    requires
        n >= 100,
    ensures
        text::two_digits_of(n) == text::decimal_of(n),
{
}

/// An address is written byte by byte, two digits each, with a colon between
/// one byte and the next.
pub proof fn an_address_is_written_byte_by_byte(mac: [u8; 6], k: int)
    requires
        0 <= k < 6,
    ensures
        text::mac_of(mac).len() == 17,
        text::mac_of(mac).subrange(3 * k, 3 * k + 2) == text::hex_of(mac[k]),
        k < 5 ==> text::mac_of(mac)[3 * k + 2] == ':',
{
    text::address_digits(mac);
    assert(text::mac_of(mac).subrange(3 * k, 3 * k + 2) =~= text::hex_of(mac[k]));
}

/// A list is written in brackets, its numbers with a comma and a space between
/// one and the next.
pub proof fn a_list_is_written_number_by_number(values: Seq<u64>, next: u64)
    ensures
        text::numbers_of(values) == "["@ + text::commas_of(values) + "]"@,
        text::commas_of(Seq::empty()).len() == 0,
        text::commas_of(seq![next]) == text::decimal_of(next as nat),
        values.len() > 0 ==> text::commas_of(values.push(next)) == text::commas_of(values) + ", "@
            + text::decimal_of(next as nat),
{
    assert(values.push(next).drop_last() =~= values);
}

/// Lists of duties and of speeds are lists of those numbers.
pub proof fn duties_and_speeds_are_listed_as_numbers(duties: Seq<u8>, speeds: Seq<u16>)
    ensures
        text::list_of(duties) == text::numbers_of(
            Seq::new(duties.len(), |i: int| duties[i] as u64),
        ),
        text::speeds_of(speeds) == text::numbers_of(
            Seq::new(speeds.len(), |i: int| speeds[i] as u64),
        ),
{
    assert(duties.map_values(|v: u8| v as u64) =~= Seq::new(
        duties.len(),
        |i: int| duties[i] as u64,
    ));
    assert(speeds.map_values(|v: u16| v as u64) =~= Seq::new(
        speeds.len(),
        |i: int| speeds[i] as u64,
    ));
}

/// A text is padded with spaces in front to a width, and not where it is as
/// long already.
pub proof fn padding_is_spaces_in_front(text: Seq<char>, width: nat, i: int)
    requires
        0 <= i < text::padded_of(text, width).len(),
    ensures
        text.len() >= width ==> text::padded_of(text, width) == text,
        text.len() < width ==> text::padded_of(text, width).len() == width && (if i < width
            - text.len() {
            text::padded_of(text, width)[i] == ' '
        } else {
            text::padded_of(text, width)[i] == text[i - (width - text.len())]
        }),
{
}

/// Texts are joined with what goes between them between one and the next.
pub proof fn texts_are_joined_one_by_one(
    parts: Seq<Seq<char>>,
    between: Seq<char>,
    next: Seq<char>,
)
    ensures
        text::joined_of(Seq::empty(), between).len() == 0,
        text::joined_of(seq![next], between) == next,
        parts.len() > 0 ==> text::joined_of(parts.push(next), between) == text::joined_of(
            parts,
            between,
        ) + between + next,
{
    assert(parts.push(next).drop_last() =~= parts);
}

/// A text with anything in it but digits, and a plus sign in front, spells no
/// number, and neither does one without a digit.
pub proof fn only_digits_spell_a_number(text: Seq<char>, max: int, i: int)
    requires
        0 <= i < text.len(),
        text[i] < '0' || text[i] > '9',
        i > 0 || text[i] != '+',
    ensures
        text::number_of(text, max) is None,
        text::number_of(Seq::empty(), max) is None,
        text::number_of(seq!['+'], max) is None,
{
    if text[0] == '+' {
        assert(text.skip(1)[i - 1] == text[i]);
    }
    assert(seq!['+'].skip(1).len() == 0);
}

/// One digit spells itself, and a further digit makes ten times the number and
/// itself; a number above the most that is allowed does not count. A plus sign
/// in front changes nothing.
pub proof fn a_further_digit_is_worth_one(text: Seq<char>, digit: char, max: int)
    requires
        '0' <= digit <= '9',
        text.len() > 0,
        text[0] != '+',
    ensures
        ({
            let d = digit as int - '0' as int;
            let more = text.push(digit);
            &&& d <= max ==> text::number_of(seq![digit], max) == Some(d)
            &&& text::number_of(text, max) matches Some(n) ==> (10 * n + d <= max
                ==> text::number_of(more, max) == Some(10 * n + d))
            &&& text::number_of(text, max) matches Some(n) ==> (10 * n + d > max
                ==> text::number_of(more, max) is None)
            &&& text::number_of(text, max) == text::number_of(seq!['+'] + text, max)
            &&& text::number_of(text, max) matches Some(n) ==> 0 <= n <= max
        }),
{
    let more = text.push(digit);
    reveal_with_fuel(text::value_of, 2);
    assert(more.drop_last() =~= text);
    assert(seq![digit].drop_last().len() == 0);
    assert((seq!['+'] + text).skip(1) =~= text);
    assert(seq![digit][0] == digit);
    if text::is_digits(text) {
        assert forall|i: int| 0 <= i < more.len() implies '0' <= #[trigger] more[i] <= '9' by {
            if i < text.len() {
                assert(more[i] == text[i]);
            }
        }
        a_value_is_no_less_than_zero(text);
    }
}

/// A number that a text spells lies between zero and the most that is allowed.
pub proof fn a_number_is_in_its_range(text: Seq<char>, max: int)
    ensures
        text::number_of(text, max) matches Some(n) ==> 0 <= n <= max,
{
    let digits = if text.len() > 0 && text[0] == '+' {
        text.skip(1)
    } else {
        text
    };
    if text::is_digits(digits) {
        a_value_is_no_less_than_zero(digits);
    }
}

/// Digits spell no negative number.
proof fn a_value_is_no_less_than_zero(digits: Seq<char>)
    requires
        forall|i: int| 0 <= i < digits.len() ==> '0' <= #[trigger] digits[i] <= '9',
    ensures
        text::value_of(digits) >= 0,
    decreases digits.len(),
{
    if digits.len() > 0 {
        assert forall|i: int| 0 <= i < digits.drop_last().len() implies '0'
            <= #[trigger] digits.drop_last()[i] <= '9' by {
            assert(digits.drop_last()[i] == digits[i]);
        }
        a_value_is_no_less_than_zero(digits.drop_last());
        assert(digits.last() == digits[digits.len() - 1]);
    }
}

/// Case is taken off the letters from A to Z and off nothing else: each
/// becomes the letter 32 places on.
pub proof fn only_capital_letters_are_lowered(text: Seq<char>, i: int)
    requires
        0 <= i < text.len(),
    ensures
        text::lowered_of(text).len() == text.len(),
        65 <= text[i] as int <= 90 ==> text::lowered_of(text)[i] as int == text[i] as int + 32,
        (text[i] as int) < 65 || text[i] as int > 90 ==> text::lowered_of(text)[i] == text[i],
{
}

/// What is left of a text whose white space is taken off is the part between
/// the first character that is none and the last: all that is taken off is
/// white space, and nothing that is left begins or ends with it.
pub proof fn white_space_is_taken_off_both_ends(text: Seq<char>)
    ensures
        exists|i: int, j: int|
            0 <= i <= j <= text.len() && #[trigger] text.subrange(i, j) == text::trimmed(text)
                && are_spaces(text, 0, i) && are_spaces(text, j, text.len() as int),
        text::trimmed(text).len() > 0 ==> !text::is_space(text::trimmed(text)[0])
            && !text::is_space(text::trimmed(text).last()),
{
    let front = text::trimmed_end(text);
    let j = end_of(text);
    let i = start_of(front);
    assert(text::trimmed(text) =~= front.skip(i));
    assert(front.skip(i) =~= text.subrange(i, j));
    assert forall|k: int| 0 <= k < i implies text::is_space(#[trigger] text[k]) by {
        assert(front[k] == text[k]);
    }
    text::end_has_no_space(text);
    text::start_has_no_space(front);
    text::start_keeps_the_end(front);
}

/// Whether a part of a text is white space.
pub open spec fn are_spaces(text: Seq<char>, from: int, to: int) -> bool {
    forall|k: int| from <= k < to ==> text::is_space(#[trigger] text[k])
}

/// Where the white space at the end of a text begins.
proof fn end_of(text: Seq<char>) -> (j: int)
    ensures
        0 <= j <= text.len(),
        text::trimmed_end(text) == text.take(j),
        are_spaces(text, j, text.len() as int),
    decreases text.len(),
{
    if text.len() > 0 && text::is_space(text.last()) {
        let j = end_of(text.drop_last());
        assert(text.drop_last().take(j) =~= text.take(j));
        assert forall|k: int| j <= k < text.len() implies text::is_space(#[trigger] text[k]) by {
            if k < text.len() - 1 {
                assert(text.drop_last()[k] == text[k]);
            }
        }
        j
    } else {
        assert(text.take(text.len() as int) =~= text);
        text.len() as int
    }
}

/// Where the white space at the start of a text ends.
proof fn start_of(text: Seq<char>) -> (i: int)
    ensures
        0 <= i <= text.len(),
        text::trimmed_start(text) == text.skip(i),
        are_spaces(text, 0, i),
    decreases text.len(),
{
    if text.len() > 0 && text::is_space(text[0]) {
        let i = start_of(text.skip(1));
        assert(text.skip(1).skip(i) =~= text.skip(i + 1));
        assert forall|k: int| 0 <= k < i + 1 implies text::is_space(#[trigger] text[k]) by {
            if k > 0 {
                assert(text.skip(1)[k - 1] == text[k]);
            }
        }
        i + 1
    } else {
        assert(text.skip(0) =~= text);
        0
    }
}

/// What counts as white space: the tab and the four behind it, the space, and
/// the others that Unicode names; no letter, digit or other sign of ASCII does.
pub proof fn what_counts_as_white_space(c: char)
    ensures
        c == ' ' || c == '\t' || c == '\n' || c == '\r' ==> text::is_space(c),
        33 <= c as int <= 126 ==> !text::is_space(c),
        (c as int) < 9 || 14 <= c as int <= 31 ==> !text::is_space(c),
        c as int > 0x3000 ==> !text::is_space(c),
        text::is_space(c) <==> (c as int == 9 || c as int == 10 || c as int == 11 || c as int == 12
            || c as int == 13 || c as int == 32 || c as int == 133 || c as int == 160 || c as int
            == 5760 || 8192 <= c as int <= 8202 || c as int == 8232 || c as int == 8233 || c as int
            == 8239 || c as int == 8287 || c as int == 12288),
{
}

/// A part is found where it first stands: it stands there, and at no place
/// before; where it is not found it stands nowhere.
pub proof fn a_part_is_found_where_it_first_stands(
    text: Seq<char>,
    part: Seq<char>,
    from: int,
    k: int,
)
    requires
        0 <= from <= k,
        k + part.len() <= text.len(),
    ensures
        match text::place_of(text, part, from) {
            Some(i) => from <= i && i + part.len() <= text.len() && text.subrange(
                i,
                i + part.len(),
            ) == part && (k < i ==> text.subrange(k, k + part.len()) != part),
            None => text.subrange(k, k + part.len()) != part,
        },
    decreases k - from,
{
    if text.subrange(from, from + part.len()) != part {
        if k > from {
            a_part_is_found_where_it_first_stands(text, part, from + 1, k);
        } else {
            a_part_found_stands(text, part, from + 1);
        }
    }
}

/// Where a part is found it stands.
pub proof fn a_part_found_stands(text: Seq<char>, part: Seq<char>, from: int)
    ensures
        text::place_of(text, part, from) matches Some(i) ==> from <= i && i + part.len()
            <= text.len() && text.subrange(i, i + part.len()) == part,
    decreases text.len() - from + 1,
{
    if from + part.len() <= text.len() && text.subrange(from, from + part.len()) != part {
        a_part_found_stands(text, part, from + 1);
    }
}

/// A character below 65536 is one unit, itself; a higher one is a pair of
/// surrogates that spells what is left of it above 65536 in two halves of ten
/// bits.
pub proof fn a_character_is_one_unit_or_two(c: char)
    ensures
        ({
            let units = text::units_of(c);
            &&& (c as int) < 65536 ==> units.len() == 1 && units[0] == c as int
            &&& c as int >= 65536 ==> {
                &&& units.len() == 2
                &&& 0xD800 <= units[0] <= 0xDBFF
                &&& 0xDC00 <= units[1] <= 0xDFFF
                &&& (units[0] - 0xD800) * 1024 + (units[1] - 0xDC00) == c as int - 65536
            }
        }),
{
}

/// The units of a text are those of its characters, one after the other.
pub proof fn units_follow_the_characters(text: Seq<char>, next: char)
    ensures
        text::utf16_of(Seq::empty()).len() == 0,
        text::utf16_of(text.push(next)) == text::utf16_of(text) + text::units_of(next),
{
    assert(text.push(next).drop_last() =~= text);
}

/// What units spell, from one place on: a pair of surrogates one character
/// above 65535, a surrogate alone the sign for what cannot be read, anything
/// else itself; and then what the units behind it spell.
pub proof fn what_units_spell(units: Seq<u16>, at: int)
    requires
        0 <= at < units.len(),
    ensures
        ({
            let u = units[at];
            let high = 0xD800 <= u <= 0xDBFF;
            let low = 0xDC00 <= u <= 0xDFFF;
            let pair = high && at + 1 < units.len() && 0xDC00 <= units[at + 1] <= 0xDFFF;
            let read = text::spelled(units, at);
            &&& read.len() > 0
            &&& pair ==> read[0] as int == 65536 + (u - 0xD800) * 1024 + (units[at + 1] - 0xDC00)
                && read.skip(1) == text::spelled(units, at + 2)
            &&& !pair && (high || low) ==> read[0] as int == 0xFFFD && read.skip(1)
                == text::spelled(units, at + 1)
            &&& !high && !low ==> read[0] as int == u && read.skip(1) == text::spelled(
                units,
                at + 1,
            )
        }),
        text::spelled(units, units.len() as int).len() == 0,
{
    let read = text::spelled(units, at);
    assert(read.skip(1) =~= text::spelled(units, at + 1) || read.skip(1) =~= text::spelled(
        units,
        at + 2,
    ));
}

/// A failed call is told with its name and code, and with what the system
/// says of the code where it says anything.
pub proof fn a_failed_call_is_told_with_its_code(error: win::WinError, message: Seq<char>)
    ensures
        message.len() == 0 ==> error.text_of(message) == error.call@ + " failed with error "@
            + text::decimal_of(error.code as nat),
        message.len() > 0 ==> error.text_of(message) == error.call@ + " failed with error "@
            + text::decimal_of(error.code as nat) + ": "@ + message,
{
}

/// The numbers that are characters: those below 55296 and those from 57344 to
/// 1114111.
pub proof fn which_numbers_are_characters(code: int)
    ensures
        text::is_scalar(code) <==> 0 <= code <= 55295 || 57344 <= code <= 1114111,
{
}

} // verus!
