//! Text: numbers and addresses written out, UTF-16 taken apart and put
//! together, ASCII case, white space.

use vstd::prelude::*;

verus! {

/// `String::push`: puts one character behind the others. This is believed of
/// std, which documents the call as appending the character to the end of
/// the string.
pub assume_specification[ String::push ](string: &mut String, c: char)
    ensures
        final(string)@ == old(string)@.push(c),
;

/// Whether a number is a character: below 0x110000 and no surrogate.
pub open spec fn is_scalar(code: int) -> bool {
    0 <= code < 0xD800 || 0xE000 <= code < 0x110000
}

/// `char::from_u32`: the character with that number, where there is one.
/// This is believed of std, which documents `None` for a number that is no
/// Unicode scalar value and the character otherwise.
pub assume_specification[ char::from_u32 ](code: u32) -> (c: Option<char>)
    ensures
        c == if is_scalar(code as int) {
            Some(code as char)
        } else {
            None
        },
;

/// The characters of a text, one by one.
pub fn chars_of(text: &str) -> (chars: Vec<char>)
    ensures
        chars@ == text@,
{
    let mut chars: Vec<char> = Vec::new();
    for c in it: text.chars()
        invariant
            chars@ == it.seq().take(it.index()),
            it.seq() == text@,
    {
        chars.push(c);
    }
    assert(chars@ =~= text@);
    chars
}

/// The text made of `chars`.
pub fn text_of(chars: &[char]) -> (text: String)
    ensures
        text@ == chars@,
{
    let mut text = String::new();
    let mut i: usize = 0;
    while i < chars.len()
        invariant
            0 <= i <= chars.len(),
            text@ =~= chars@.take(i as int),
        decreases chars.len() - i,
    {
        text.push(chars[i]);
        i += 1;
    }
    assert(text@ =~= chars@);
    text
}

/// A text of its own with the same characters.
pub fn owned(text: &str) -> (r: String)
    ensures
        r@ == text@,
{
    let mut r = String::new();
    r.append(text);
    assert(r@ =~= text@);
    r
}

/// The character that writes a digit, sixteen at most.
pub open spec fn digit_char(digit: int) -> char {
    if digit < 10 {
        (48 + digit) as char
    } else {
        (87 + digit) as char
    }
}

fn digit(value: u8) -> (c: char)
    requires
        value < 16,
    ensures
        c == digit_char(value as int),
{
    if value < 10 {
        (48 + value) as char
    } else {
        (87 + value) as char
    }
}

/// A number in decimal.
pub open spec fn decimal_of(n: nat) -> Seq<char>
    decreases n,
{
    if n < 10 {
        seq![digit_char(n as int)]
    } else {
        decimal_of(n / 10).push(digit_char((n % 10) as int))
    }
}

/// A number in decimal.
pub fn decimal(n: u64) -> (text: String)
    ensures
        text@ == decimal_of(n as nat),
    decreases n,
{
    let mut text = if n < 10 {
        String::new()
    } else {
        decimal(n / 10)
    };
    text.push(digit((n % 10) as u8));
    assert(text@ =~= decimal_of(n as nat));
    text
}

/// A signed number in decimal.
pub open spec fn signed_of(n: int) -> Seq<char> {
    if n < 0 {
        seq!['-'] + decimal_of((-n) as nat)
    } else {
        decimal_of(n as nat)
    }
}

/// A signed number in decimal.
pub fn signed(n: i32) -> (text: String)
    ensures
        text@ == signed_of(n as int),
{
    if n < 0 {
        let mut text = String::new();
        text.push('-');
        text.append(decimal((-(n as i64)) as u64).as_str());
        assert(text@ =~= signed_of(n as int));
        text
    } else {
        decimal(n as u64)
    }
}

/// A decimal number with a zero in front where it has one digit only.
pub open spec fn two_digits_of(n: nat) -> Seq<char> {
    if n < 10 {
        seq!['0'] + decimal_of(n)
    } else {
        decimal_of(n)
    }
}

/// A decimal number with a zero in front where it has one digit only.
pub fn two_digits(n: u64) -> (text: String)
    ensures
        text@ == two_digits_of(n as nat),
{
    let mut text = String::new();
    if n < 10 {
        text.push('0');
    }
    text.append(decimal(n).as_str());
    assert(text@ =~= two_digits_of(n as nat));
    text
}

/// A byte as two hexadecimal digits.
pub open spec fn hex_of(byte: u8) -> Seq<char> {
    seq![digit_char((byte / 16) as int), digit_char((byte % 16) as int)]
}

fn push_hex(text: &mut String, byte: u8)
    ensures
        final(text)@ == old(text)@ + hex_of(byte),
{
    text.push(digit(byte / 16));
    text.push(digit(byte % 16));
    assert(text@ =~= old(text)@ + hex_of(byte));
}

/// A byte as two hexadecimal digits.
pub fn hex(byte: u8) -> (text: String)
    ensures
        text@ == hex_of(byte),
{
    let mut text = String::new();
    push_hex(&mut text, byte);
    assert(text@ =~= hex_of(byte));
    text
}

/// Bytes in hexadecimal with colons in between.
pub open spec fn colons_of(bytes: Seq<u8>) -> Seq<char>
    decreases bytes.len(),
{
    if bytes.len() == 0 {
        Seq::empty()
    } else if bytes.len() == 1 {
        hex_of(bytes[0])
    } else {
        colons_of(bytes.drop_last()).push(':') + hex_of(bytes.last())
    }
}

/// An address, such as `7c:9c:06:f5:17:e1`.
pub open spec fn mac_of(mac: [u8; 6]) -> Seq<char> {
    colons_of(mac@)
}

/// An address, such as `7c:9c:06:f5:17:e1`.
pub fn mac(address: &[u8; 6]) -> (text: String)
    ensures
        text@ == mac_of(*address),
{
    let mut text = String::new();
    push_hex(&mut text, address[0]);
    assert(text@ =~= colons_of(address@.take(1)));
    let mut i: usize = 1;
    while i < 6
        invariant
            1 <= i <= 6,
            text@ == colons_of(address@.take(i as int)),
        decreases 6 - i,
    {
        text.push(':');
        push_hex(&mut text, address[i]);
        assert(address@.take(i + 1).drop_last() =~= address@.take(i as int));
        i += 1;
    }
    assert(address@.take(6) =~= address@);
    text
}

/// Numbers with commas in between.
pub open spec fn commas_of(values: Seq<u64>) -> Seq<char>
    decreases values.len(),
{
    if values.len() == 0 {
        Seq::empty()
    } else if values.len() == 1 {
        decimal_of(values[0] as nat)
    } else {
        commas_of(values.drop_last()) + ", "@ + decimal_of(values.last() as nat)
    }
}

/// A list of numbers, such as `[128, 128, 0]`.
pub open spec fn numbers_of(values: Seq<u64>) -> Seq<char> {
    "["@ + commas_of(values) + "]"@
}

/// A list of bytes, such as `[128, 128, 0]`.
pub open spec fn list_of(values: Seq<u8>) -> Seq<char> {
    numbers_of(values.map_values(|v: u8| v as u64))
}

/// A list of speeds, such as `[1800, 1790]`.
pub open spec fn speeds_of(values: Seq<u16>) -> Seq<char> {
    numbers_of(values.map_values(|v: u16| v as u64))
}

fn numbers(values: &[u64]) -> (text: String)
    ensures
        text@ == numbers_of(values@),
{
    let mut inner = String::new();
    let mut i: usize = 0;
    assert(inner@ =~= commas_of(values@.take(0)));
    while i < values.len()
        invariant
            0 <= i <= values.len(),
            inner@ == commas_of(values@.take(i as int)),
        decreases values.len() - i,
    {
        if i > 0 {
            inner.append(", ");
        }
        inner.append(decimal(values[i]).as_str());
        proof {
            let next = values@.take(i + 1);
            assert(next.drop_last() =~= values@.take(i as int));
            if i == 0 {
                assert(inner@ =~= commas_of(next));
            }
        }
        i += 1;
    }
    assert(values@.take(i as int) =~= values@);
    let mut text = owned("[");
    text.append(inner.as_str());
    text.append("]");
    text
}

/// A list of bytes, such as `[128, 128, 0]`.
pub fn list(values: &[u8]) -> (text: String)
    ensures
        text@ == list_of(values@),
{
    let mut wide: Vec<u64> = Vec::new();
    let mut i: usize = 0;
    while i < values.len()
        invariant
            0 <= i <= values.len(),
            wide@ =~= values@.map_values(|v: u8| v as u64).take(i as int),
        decreases values.len() - i,
    {
        wide.push(values[i] as u64);
        i += 1;
    }
    assert(wide@ =~= values@.map_values(|v: u8| v as u64));
    numbers(&wide)
}

/// A list of speeds, such as `[1800, 1790]`.
pub fn speeds(values: &[u16]) -> (text: String)
    ensures
        text@ == speeds_of(values@),
{
    let mut wide: Vec<u64> = Vec::new();
    let mut i: usize = 0;
    while i < values.len()
        invariant
            0 <= i <= values.len(),
            wide@ =~= values@.map_values(|v: u16| v as u64).take(i as int),
        decreases values.len() - i,
    {
        wide.push(values[i] as u64);
        i += 1;
    }
    assert(wide@ =~= values@.map_values(|v: u16| v as u64));
    numbers(&wide)
}

/// A text with spaces in front up to a width.
pub open spec fn padded_of(text: Seq<char>, width: nat) -> Seq<char> {
    if text.len() >= width {
        text
    } else {
        Seq::new((width - text.len()) as nat, |i: int| ' ') + text
    }
}

/// A number in decimal with spaces in front up to a width.
pub fn padded(n: u64, width: usize) -> (text: String)
    ensures
        text@ == padded_of(decimal_of(n as nat), width as nat),
{
    let digits = decimal(n);
    let chars = chars_of(digits.as_str());
    let mut text = String::new();
    if chars.len() < width {
        let gap: usize = width - chars.len();
        let mut i: usize = 0;
        while i < gap
            invariant
                0 <= i <= gap,
                text@ =~= Seq::new(i as nat, |k: int| ' '),
            decreases gap - i,
        {
            text.push(' ');
            i += 1;
        }
    }
    text.append(digits.as_str());
    assert(text@ =~= padded_of(decimal_of(n as nat), width as nat));
    text
}

/// Texts one behind the other with `between` in between.
pub open spec fn joined_of(parts: Seq<Seq<char>>, between: Seq<char>) -> Seq<char>
    decreases parts.len(),
{
    if parts.len() == 0 {
        Seq::empty()
    } else if parts.len() == 1 {
        parts[0]
    } else {
        joined_of(parts.drop_last(), between) + between + parts.last()
    }
}

/// The texts behind a list of strings.
pub open spec fn texts(list: Seq<String>) -> Seq<Seq<char>> {
    list.map_values(|s: String| s@)
}

/// Texts one behind the other with `between` in between.
pub fn joined(parts: &[String], between: &str) -> (text: String)
    ensures
        text@ == joined_of(texts(parts@), between@),
{
    let mut text = String::new();
    let mut i: usize = 0;
    assert(text@ =~= joined_of(texts(parts@).take(0), between@));
    while i < parts.len()
        invariant
            0 <= i <= parts.len(),
            text@ == joined_of(texts(parts@).take(i as int), between@),
        decreases parts.len() - i,
    {
        if i > 0 {
            text.append(between);
        }
        text.append(parts[i].as_str());
        proof {
            let next = texts(parts@).take(i + 1);
            assert(next.drop_last() =~= texts(parts@).take(i as int));
            if i == 0 {
                assert(text@ =~= joined_of(next, between@));
            }
        }
        i += 1;
    }
    assert(texts(parts@).take(i as int) =~= texts(parts@));
    text
}

/// Whether two texts are the same.
pub fn same(a: &str, b: &str) -> (r: bool)
    ensures
        r == (a@ == b@),
{
    same_chars(&chars_of(a), &chars_of(b))
}

/// Whether a text starts with another.
pub fn starts_with(text: &str, front: &str) -> (r: bool)
    ensures
        r == front@.is_prefix_of(text@),
{
    let all = chars_of(text);
    let part = chars_of(front);
    if part.len() > all.len() {
        return false;
    }
    let head = vstd::slice::slice_subrange(&all, 0, part.len());
    assert(head@ =~= text@.subrange(0, front@.len() as int));
    same_chars(head, &part)
}

/// The number that digits spell.
pub open spec fn value_of(digits: Seq<char>) -> int
    decreases digits.len(),
{
    if digits.len() == 0 {
        0
    } else {
        value_of(digits.drop_last()) * 10 + (digits.last() as int - 48)
    }
}

/// Whether a text is made of digits, and of one at least.
pub open spec fn is_digits(text: Seq<char>) -> bool {
    text.len() > 0 && forall|i: int| 0 <= i < text.len() ==> '0' <= #[trigger] text[i] <= '9'
}

/// The number that a text spells, up to `max`: digits, with a plus sign in
/// front or without.
pub open spec fn number_of(text: Seq<char>, max: int) -> Option<int> {
    let digits = if text.len() > 0 && text[0] == '+' {
        text.skip(1)
    } else {
        text
    };
    if is_digits(digits) && value_of(digits) <= max {
        Some(value_of(digits))
    } else {
        None
    }
}

/// The number that a text spells, up to `max`: digits, with a plus sign in
/// front or without.
pub fn number(text: &str, max: u64) -> (r: Option<u64>)
    ensures
        match r {
            Some(n) => number_of(text@, max as int) == Some(n as int),
            None => number_of(text@, max as int) is None,
        },
{
    let chars = chars_of(text);
    let start: usize = if chars.len() > 0 && chars[0] == '+' {
        1
    } else {
        0
    };
    let ghost digits = text@.skip(start as int);
    proof {
        assert(text@.skip(0) =~= text@);
    }
    if chars.len() == start {
        return None;
    }
    let mut value: u128 = 0;
    let mut i: usize = start;
    let mut over = false;
    assert(digits.take(0) =~= Seq::<char>::empty());
    while i < chars.len()
        invariant
            start <= i <= chars.len(),
            chars@ == text@,
            digits == text@.skip(start as int),
            digits == if text@.len() > 0 && text@[0] == '+' {
                text@.skip(1)
            } else {
                text@
            },
            digits.len() > 0,
            forall|k: int| 0 <= k < i - start ==> '0' <= #[trigger] digits[k] <= '9',
            !over ==> value == value_of(digits.take(i - start)) && value <= max,
            over ==> value_of(digits.take(i - start)) > max,
        decreases chars.len() - i,
    {
        let c: char = chars[i];
        assert(digits[i - start] == c);
        if c < '0' || c > '9' {
            return None;
        }
        let d: u8 = digit_value(c);
        proof {
            let before = digits.take(i - start);
            let next = digits.take(i - start + 1);
            assert(next.drop_last() =~= before);
            assert(next.last() == c);
        }
        if !over {
            value = value * 10 + d as u128;
            if value > max as u128 {
                over = true;
            }
        }
        i += 1;
    }
    assert(digits.take(i - start) =~= digits);
    if over {
        None
    } else {
        Some(value as u64)
    }
}

fn digit_value(c: char) -> (d: u8)
    requires
        '0' <= c <= '9',
    ensures
        d == c as int - 48,
        d < 10,
{
    c as u8 - 48
}

/// A character's lower-case form where it is an ASCII letter.
pub open spec fn lower_of(c: char) -> char {
    if 'A' <= c && c <= 'Z' {
        (c as int + 32) as char
    } else {
        c
    }
}

/// A character's lower-case form where it is an ASCII letter.
pub fn lower(c: char) -> (r: char)
    ensures
        r == lower_of(c),
{
    if 'A' <= c && c <= 'Z' {
        (c as u8 + 32) as char
    } else {
        c
    }
}

/// A text with its ASCII letters in lower case.
pub open spec fn lowered_of(text: Seq<char>) -> Seq<char> {
    text.map_values(|c: char| lower_of(c))
}

/// The characters of a text with its ASCII letters in lower case.
pub fn lowered(text: &str) -> (chars: Vec<char>)
    ensures
        chars@ == lowered_of(text@),
{
    let all = chars_of(text);
    let mut chars: Vec<char> = Vec::new();
    let mut i: usize = 0;
    while i < all.len()
        invariant
            0 <= i <= all.len(),
            chars@ =~= lowered_of(all@).take(i as int),
        decreases all.len() - i,
    {
        chars.push(lower(all[i]));
        i += 1;
    }
    assert(chars@ =~= lowered_of(text@));
    chars
}

/// Whether two texts are the same but for the case of ASCII letters.
pub fn same_but_case(a: &str, b: &str) -> (r: bool)
    ensures
        r == (lowered_of(a@) == lowered_of(b@)),
{
    let a = lowered(a);
    let b = lowered(b);
    same_chars(&a, &b)
}

/// Whether two lists hold the same characters.
pub fn same_chars(a: &[char], b: &[char]) -> (r: bool)
    ensures
        r == (a@ == b@),
{
    if a.len() != b.len() {
        return false;
    }
    let mut i: usize = 0;
    while i < a.len()
        invariant
            0 <= i <= a.len(),
            a.len() == b.len(),
            a@.take(i as int) =~= b@.take(i as int),
        decreases a.len() - i,
    {
        if a[i] != b[i] {
            return false;
        }
        i += 1;
    }
    assert(a@ =~= a@.take(i as int));
    assert(b@ =~= b@.take(i as int));
    true
}

/// Whether a character is white space: the code points to which Unicode
/// gives the property White_Space.
pub open spec fn is_space(c: char) -> bool {
    let n = c as int;
    9 <= n <= 13 || n == 0x20 || n == 0x85 || n == 0xA0 || n == 0x1680 || 0x2000 <= n <= 0x200A || n
        == 0x2028 || n == 0x2029 || n == 0x202F || n == 0x205F || n == 0x3000
}

/// Whether a character is white space.
pub fn space(c: char) -> (r: bool)
    ensures
        r == is_space(c),
{
    let n: u32 = c as u32;
    (9 <= n && n <= 13) || n == 0x20 || n == 0x85 || n == 0xA0 || n == 0x1680 || (0x2000 <= n && n
        <= 0x200A) || n == 0x2028 || n == 0x2029 || n == 0x202F || n == 0x205F || n == 0x3000
}

/// A text without the white space at its end.
pub open spec fn trimmed_end(text: Seq<char>) -> Seq<char>
    decreases text.len(),
{
    if text.len() > 0 && is_space(text.last()) {
        trimmed_end(text.drop_last())
    } else {
        text
    }
}

/// A text without the white space at its start.
pub open spec fn trimmed_start(text: Seq<char>) -> Seq<char>
    decreases text.len(),
{
    if text.len() > 0 && is_space(text[0]) {
        trimmed_start(text.skip(1))
    } else {
        text
    }
}

/// A text without the white space at either end.
pub open spec fn trimmed(text: Seq<char>) -> Seq<char> {
    trimmed_start(trimmed_end(text))
}

/// Takes the white space off the end.
pub fn trim_end(chars: &mut Vec<char>)
    ensures
        final(chars)@ == trimmed_end(old(chars)@),
{
    while chars.len() > 0 && space(chars[chars.len() - 1])
        invariant
            trimmed_end(chars@) == trimmed_end(old(chars)@),
        decreases chars.len(),
    {
        let ghost before = chars@;
        chars.pop();
        assert(chars@ =~= before.drop_last());
    }
}

/// Takes the white space off both ends.
pub fn trim(text: &str) -> (chars: Vec<char>)
    ensures
        chars@ == trimmed(text@),
{
    let mut all = chars_of(text);
    trim_end(&mut all);
    let mut start: usize = 0;
    assert(all@.skip(0) =~= all@);
    while start < all.len() && space(all[start])
        invariant
            0 <= start <= all.len(),
            trimmed_start(all@.skip(start as int)) == trimmed(text@),
        decreases all.len() - start,
    {
        assert(all@.skip(start as int).skip(1) =~= all@.skip(start + 1));
        start += 1;
    }
    let mut chars: Vec<char> = Vec::new();
    let mut i: usize = start;
    while i < all.len()
        invariant
            start <= i <= all.len(),
            chars@ =~= all@.subrange(start as int, i as int),
        decreases all.len() - i,
    {
        chars.push(all[i]);
        i += 1;
    }
    assert(chars@ =~= all@.skip(start as int));
    chars
}

/// Taking off white space twice takes off no more than taking it off once.
pub proof fn trimming_is_final(text: Seq<char>)
    ensures
        trimmed(trimmed(text)) == trimmed(text),
{
    end_has_no_space(text);
    start_has_no_space(trimmed_end(text));
    start_keeps_the_end(trimmed_end(text));
    let t = trimmed(text);
    assert(trimmed_end(t) == t);
}

/// What is left once the end is trimmed does not end in white space.
pub proof fn end_has_no_space(text: Seq<char>)
    ensures
        trimmed_end(text).len() > 0 ==> !is_space(trimmed_end(text).last()),
    decreases text.len(),
{
    if text.len() > 0 && is_space(text.last()) {
        end_has_no_space(text.drop_last());
    }
}

/// What is left once the start is trimmed does not begin with white space.
pub proof fn start_has_no_space(text: Seq<char>)
    ensures
        trimmed_start(text).len() > 0 ==> !is_space(trimmed_start(text)[0]),
    decreases text.len(),
{
    if text.len() > 0 && is_space(text[0]) {
        start_has_no_space(text.skip(1));
    }
}

/// Trimming the start leaves the end.
pub proof fn start_keeps_the_end(text: Seq<char>)
    ensures
        trimmed_start(text).len() > 0 ==> trimmed_start(text).last() == text.last(),
    decreases text.len(),
{
    if text.len() > 0 && is_space(text[0]) {
        start_keeps_the_end(text.skip(1));
    }
}

/// The place, at or behind `from`, where `part` first stands in `text`.
pub open spec fn place_of(text: Seq<char>, part: Seq<char>, from: int) -> Option<int>
    decreases text.len() - from + 1,
{
    if from + part.len() > text.len() {
        None
    } else if text.subrange(from, from + part.len()) == part {
        Some(from)
    } else {
        place_of(text, part, from + 1)
    }
}

/// The place where `part` first stands in `text`.
pub fn place(text: &[char], part: &[char]) -> (r: Option<usize>)
    ensures
        match r {
            Some(i) => place_of(text@, part@, 0) == Some(i as int) && i + part.len() <= text.len(),
            None => place_of(text@, part@, 0) is None,
        },
{
    if part.len() > text.len() {
        return None;
    }
    let mut from: usize = 0;
    while from <= text.len() - part.len()
        invariant
            part.len() <= text.len(),
            0 <= from <= text.len() - part.len() + 1,
            place_of(text@, part@, 0) == place_of(text@, part@, from as int),
        decreases text.len() - from,
    {
        let piece = vstd::slice::slice_subrange(text, from, from + part.len());
        if same_chars(piece, part) {
            return Some(from);
        }
        if from == text.len() - part.len() {
            assert(place_of(text@, part@, from + 1) is None);
            return None;
        }
        from += 1;
    }
    None
}

/// The UTF-16 units of one character.
pub open spec fn units_of(c: char) -> Seq<u16> {
    let n = c as int;
    if n < 0x10000 {
        seq![n as u16]
    } else {
        seq![(0xD800 + (n - 0x10000) / 0x400) as u16, (0xDC00 + (n - 0x10000) % 0x400) as u16]
    }
}

/// The UTF-16 units of a text.
pub open spec fn utf16_of(text: Seq<char>) -> Seq<u16>
    decreases text.len(),
{
    if text.len() == 0 {
        Seq::empty()
    } else {
        utf16_of(text.drop_last()) + units_of(text.last())
    }
}

fn push_units(units: &mut Vec<u16>, c: char)
    ensures
        final(units)@ == old(units)@ + units_of(c),
{
    let n: u32 = c as u32;
    if n < 0x10000 {
        units.push(n as u16);
    } else {
        units.push((0xD800 + (n - 0x10000) / 0x400) as u16);
        units.push((0xDC00 + (n - 0x10000) % 0x400) as u16);
    }
    assert(units@ =~= old(units)@ + units_of(c));
}

/// The UTF-16 units of a text.
pub fn utf16(text: &str) -> (units: Vec<u16>)
    ensures
        units@ == utf16_of(text@),
{
    let chars = chars_of(text);
    let mut units: Vec<u16> = Vec::new();
    let mut i: usize = 0;
    assert(chars@.take(0) =~= Seq::<char>::empty());
    while i < chars.len()
        invariant
            0 <= i <= chars.len(),
            units@ == utf16_of(chars@.take(i as int)),
        decreases chars.len() - i,
    {
        push_units(&mut units, chars[i]);
        assert(chars@.take(i + 1).drop_last() =~= chars@.take(i as int));
        i += 1;
    }
    assert(chars@.take(i as int) =~= chars@);
    units
}

/// Whether a unit opens a surrogate pair.
pub open spec fn is_high(unit: u16) -> bool {
    0xD800 <= unit <= 0xDBFF
}

/// Whether a unit closes a surrogate pair.
pub open spec fn is_low(unit: u16) -> bool {
    0xDC00 <= unit <= 0xDFFF
}

/// The character that a surrogate pair stands for.
pub open spec fn paired(high: u16, low: u16) -> char {
    (0x10000 + (high - 0xD800) * 0x400 + (low - 0xDC00)) as char
}

/// The text that UTF-16 units spell from `from` on. A surrogate without its
/// partner reads as U+FFFD.
pub open spec fn spelled(units: Seq<u16>, from: int) -> Seq<char>
    decreases units.len() - from,
{
    if from < 0 || from >= units.len() {
        Seq::empty()
    } else {
        let unit = units[from];
        if is_high(unit) && from + 1 < units.len() && is_low(units[from + 1]) {
            seq![paired(unit, units[from + 1])] + spelled(units, from + 2)
        } else if is_high(unit) || is_low(unit) {
            seq!['\u{FFFD}'] + spelled(units, from + 1)
        } else {
            seq![unit as char] + spelled(units, from + 1)
        }
    }
}

/// The text that UTF-16 units spell. A surrogate without its partner reads
/// as U+FFFD.
pub fn spell(units: &[u16]) -> (text: String)
    ensures
        text@ == spelled(units@, 0),
{
    let mut text = String::new();
    let mut i: usize = 0;
    while i < units.len()
        invariant
            0 <= i <= units.len(),
            text@ + spelled(units@, i as int) =~= spelled(units@, 0),
        decreases units.len() - i,
    {
        let unit: u16 = units[i];
        let high = 0xD800 <= unit && unit <= 0xDBFF;
        let low = 0xDC00 <= unit && unit <= 0xDFFF;
        if high && i + 1 < units.len() && 0xDC00 <= units[i + 1] && units[i + 1] <= 0xDFFF {
            let code: u32 = 0x10000 + (unit as u32 - 0xD800) * 0x400 + (units[i + 1] as u32 - 0xDC00);
            if let Some(c) = char::from_u32(code) {
                text.push(c);
            }
            i += 2;
        } else if high || low {
            text.push('\u{FFFD}');
            i += 1;
        } else {
            if let Some(c) = char::from_u32(unit as u32) {
                text.push(c);
            }
            i += 1;
        }
    }
    assert(text@ =~= spelled(units@, 0));
    text
}

/// A number written in decimal reads as that number.
pub proof fn a_number_reads_back(n: nat, max: int)
    requires
        n <= max,
    ensures
        number_of(decimal_of(n), max) == Some(n as int),
{
    decimal_is_digits(n);
}

/// Decimal notation is digits that spell the number.
proof fn decimal_is_digits(n: nat)
    ensures
        is_digits(decimal_of(n)),
        value_of(decimal_of(n)) == n,
    decreases n,
{
    reveal_with_fuel(value_of, 2);
    if n < 10 {
        let one = seq![digit_char(n as int)];
        assert(one.drop_last() =~= Seq::empty());
    } else {
        decimal_is_digits(n / 10);
        let all = decimal_of(n);
        assert(all.drop_last() =~= decimal_of(n / 10));
        assert forall|i: int| 0 <= i < all.len() implies '0' <= #[trigger] all[i] <= '9' by {
            if i < all.len() - 1 {
                assert(all[i] == decimal_of(n / 10)[i]);
            }
        }
    }
}

/// A text written in UTF-16 reads as that text.
pub proof fn a_text_survives_utf16(text: Seq<char>)
    ensures
        spelled(utf16_of(text), 0) == text,
{
    let units = utf16_of(text);
    utf16_reads_on(text, Seq::empty());
    assert(units + Seq::<u16>::empty() =~= units);
    assert(text + spelled(units, units.len() as int) =~= text);
}

/// A text written in UTF-16 reads as that text, whatever follows it.
proof fn utf16_reads_on(text: Seq<char>, rest: Seq<u16>)
    ensures
        spelled(utf16_of(text) + rest, 0) == text + spelled(
            utf16_of(text) + rest,
            utf16_of(text).len() as int,
        ),
    decreases text.len(),
{
    let all = utf16_of(text) + rest;
    if text.len() == 0 {
        assert(text + spelled(all, 0) =~= spelled(all, 0));
    } else {
        let front = text.drop_last();
        let last = text.last();
        utf16_reads_on(front, units_of(last) + rest);
        assert(utf16_of(front) + (units_of(last) + rest) =~= all);
        let at = utf16_of(front).len() as int;
        assert(all.subrange(at, at + units_of(last).len()) =~= units_of(last));
        one_char_reads(last, all, at);
        assert(front + (seq![last] + spelled(all, at + units_of(last).len())) =~= text + spelled(
            all,
            at + units_of(last).len(),
        ));
    }
}

/// The units of a character read as that character.
proof fn one_char_reads(c: char, units: Seq<u16>, at: int)
    requires
        0 <= at,
        at + units_of(c).len() <= units.len(),
        units.subrange(at, at + units_of(c).len()) == units_of(c),
    ensures
        spelled(units, at) == seq![c] + spelled(units, at + units_of(c).len()),
{
    let n = c as int;
    let own = units.subrange(at, at + units_of(c).len());
    assert(own[0] == units[at]);
    if n >= 0x10000 {
        assert(own[1] == units[at + 1]);
        let high = units_of(c)[0];
        let low = units_of(c)[1];
        assert(high == 0xD800 + (n - 0x10000) / 0x400);
        assert(low == 0xDC00 + (n - 0x10000) % 0x400);
        assert(0x10000 + (high - 0xD800) * 0x400 + (low - 0xDC00) == n);
        assert(paired(high, low) == c);
    }
}

/// An address has six pairs of digits, each byte's in its place.
pub proof fn address_digits(mac: [u8; 6])
    ensures
        mac_of(mac).len() == 17,
        mac_of(mac)[2] == ':',
        forall|k: int|
            0 <= k < 6 ==> mac_of(mac)[3 * k] == digit_char((#[trigger] mac[k] / 16) as int)
                && mac_of(mac)[3 * k + 1] == digit_char((mac[k] % 16) as int),
        mac_of(mac)[5] == ':',
        mac_of(mac)[8] == ':',
        mac_of(mac)[11] == ':',
        mac_of(mac)[14] == ':',
{
    let b = mac@;
    let c1 = hex_of(b[0]);
    let c2 = c1.push(':') + hex_of(b[1]);
    let c3 = c2.push(':') + hex_of(b[2]);
    let c4 = c3.push(':') + hex_of(b[3]);
    let c5 = c4.push(':') + hex_of(b[4]);
    assert(b.take(1).len() == 1 && b.take(1)[0] == b[0]);
    assert(colons_of(b.take(1)) == c1);
    assert(b.take(2).drop_last() =~= b.take(1));
    assert(colons_of(b.take(2)) == c2);
    assert(b.take(3).drop_last() =~= b.take(2));
    assert(colons_of(b.take(3)) == c3);
    assert(b.take(4).drop_last() =~= b.take(3));
    assert(colons_of(b.take(4)) == c4);
    assert(b.take(5).drop_last() =~= b.take(4));
    assert(colons_of(b.take(5)) == c5);
    assert(b.drop_last() =~= b.take(5));
    let all = mac_of(mac);
    assert(all == c5.push(':') + hex_of(b[5]));
    assert forall|k: int| 0 <= k < 6 implies all[3 * k] == digit_char(
        (#[trigger] mac[k] / 16) as int,
    ) && all[3 * k + 1] == digit_char((mac[k] % 16) as int) by {
        assert(k == 0 || k == 1 || k == 2 || k == 3 || k == 4 || k == 5);
    }
}

/// An address is as long as any other, begins with a digit and has a colon
/// behind its first byte.
pub proof fn an_address_has_its_colon(mac: [u8; 6])
    ensures
        mac_of(mac).len() == 17,
        mac_of(mac)[2] == ':',
        mac_of(mac)[0] <= 'f',
{
    address_digits(mac);
    assert(mac_of(mac)[0] == digit_char((mac[0] / 16) as int));
}

/// A number below a thousand has three digits at most, and no colon.
pub proof fn a_small_number_is_short(n: nat)
    requires
        n < 1000,
    ensures
        1 <= decimal_of(n).len() <= 3,
        forall|i: int| 0 <= i < decimal_of(n).len() ==> #[trigger] decimal_of(n)[i] != ':',
{
    reveal_with_fuel(decimal_of, 3);
    if n >= 10 {
        assert(decimal_of(n / 10).len() <= 2);
    }
}

/// Different addresses are written differently, and all at one length: none
/// is the beginning of another.
pub proof fn addresses_are_told_apart(a: [u8; 6], b: [u8; 6])
    ensures
        mac_of(a).len() == mac_of(b).len() == 17,
        mac_of(a).is_prefix_of(mac_of(b)) ==> a == b,
{
    address_digits(a);
    address_digits(b);
    if mac_of(a).is_prefix_of(mac_of(b)) {
        assert(mac_of(a) =~= mac_of(b));
        assert forall|k: int| 0 <= k < 6 implies a[k] == b[k] by {
            assert(mac_of(a)[3 * k] == mac_of(b)[3 * k]);
            assert(mac_of(a)[3 * k + 1] == mac_of(b)[3 * k + 1]);
            assert(a[k] / 16 == b[k] / 16);
            assert(a[k] % 16 == b[k] % 16);
        }
        assert(a@ =~= b@);
        assert(a =~= b);
    }
}

} // verus!
