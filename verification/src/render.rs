//! The text of the fields of a dump line.
//!
//! Every field is defined twice: as a spec function from the bytes to a
//! sequence of characters, and as executable code that is proved to produce
//! that sequence.

use vstd::prelude::*;

verus! {

/// Number of bytes on a full line.
pub const BYTES_PER_LINE: usize = 16;

/// Number of bytes in the first group of the hex column.
pub const GROUP_SIZE: usize = 8;

/// Width of the hex column: three characters per byte and the gap between
/// the two groups.
pub const HEX_WIDTH: usize = 49;

/// Least number of digits in the offset field.
pub const OFFSET_WIDTH: usize = 6;

/// A contract for `String::push` of std, taken on trust: the call appends
/// `ch` to the end of the string and changes nothing else of its text.
pub assume_specification[ String::push ](s: &mut String, ch: char)
    ensures
        final(s)@ == old(s)@.push(ch),
;

/// The lowercase hexadecimal digit that stands for `v`, for `v` below 16.
pub open spec fn hex_digit(v: nat) -> char {
    if v < 10 {
        ('0' as nat + v) as char
    } else {
        ('a' as nat + v - 10) as char
    }
}

/// The character shown for `b` in the ASCII column: the byte itself where it
/// is printable, a dot where it is not.
pub open spec fn ascii_glyph(b: u8) -> char {
    if 0x20 <= b <= 0x7e {
        b as char
    } else {
        '.'
    }
}

/// The two digits of `b`, the high half first.
pub open spec fn hex_pair(b: u8) -> Seq<char> {
    seq![hex_digit((b / 16) as nat), hex_digit((b % 16) as nat)]
}

/// What stands before the digits of the byte at `index` of a line: one
/// space, and one more where the second group begins.
pub open spec fn separator(index: int) -> Seq<char> {
    if index == GROUP_SIZE {
        seq![' ', ' ']
    } else {
        seq![' ']
    }
}

/// What the byte at `index` of a line adds to the hex column.
pub open spec fn hex_token(index: int, b: u8) -> Seq<char> {
    separator(index) + hex_pair(b)
}

/// The hex column of a line that holds `bytes`, without its padding: the
/// tokens of the bytes, in order.
pub open spec fn hex_column(bytes: Seq<u8>) -> Seq<char>
    decreases bytes.len(),
{
    if bytes.len() == 0 {
        Seq::empty()
    } else {
        hex_column(bytes.drop_last()) + hex_token(bytes.len() - 1, bytes.last())
    }
}

/// The ASCII column of a line that holds `bytes`: one character per byte.
pub open spec fn ascii_column(bytes: Seq<u8>) -> Seq<char> {
    Seq::new(bytes.len(), |i: int| ascii_glyph(bytes[i]))
}

/// `count` copies of `c`; nothing where `count` is negative.
pub open spec fn repeat(c: char, count: int) -> Seq<char> {
    Seq::new(
        if count > 0 {
            count as nat
        } else {
            0
        },
        |i: int| c,
    )
}

/// `n` in lowercase hexadecimal with no leading zero (`0` is one digit).
pub open spec fn hex_digits(n: nat) -> Seq<char>
    decreases n,
{
    if n < 16 {
        seq![hex_digit(n)]
    } else {
        hex_digits(n / 16).push(hex_digit(n % 16))
    }
}

/// The offset field: `n` in lowercase hexadecimal, with zeros in front up to
/// [`OFFSET_WIDTH`] digits. A larger offset takes the digits it needs.
pub open spec fn offset_field(n: nat) -> Seq<char> {
    repeat('0', OFFSET_WIDTH - hex_digits(n).len()) + hex_digits(n)
}

/// The hex column with spaces behind it up to [`HEX_WIDTH`] characters.
pub open spec fn hex_field(bytes: Seq<u8>) -> Seq<char> {
    hex_column(bytes) + repeat(' ', HEX_WIDTH - hex_column(bytes).len())
}

/// The line for `bytes` that begin at `offset`, without a line break: the
/// offset, the padded hex column, a space, and the ASCII column between two
/// bars.
pub open spec fn line_text(offset: nat, bytes: Seq<u8>) -> Seq<char> {
    offset_field(offset) + hex_field(bytes) + seq![' ', '|'] + ascii_column(bytes) + seq!['|']
}

/// Length of the hex column of a line of `count` bytes, without padding.
pub open spec fn hex_column_len(count: int) -> int {
    3 * count + if count > GROUP_SIZE {
        1int
    } else {
        0int
    }
}

/// The hex column of `bytes` is as long as [`hex_column_len`] says.
pub proof fn lemma_hex_column_len(bytes: Seq<u8>)
    ensures
        hex_column(bytes).len() == hex_column_len(bytes.len() as int),
    decreases bytes.len(),
{
    if bytes.len() > 0 {
        lemma_hex_column_len(bytes.drop_last());
    }
}

/// Index, in the hex column, of the first digit of the byte at `index`.
pub open spec fn digit_index(index: int) -> int {
    3 * index + 1 + if index >= GROUP_SIZE {
        1int
    } else {
        0int
    }
}

/// Where the byte at `index` stands in the hex column of `bytes`: its two
/// digits at [`digit_index`], a space before them, and before the first byte
/// of the second group a second space. The digits of one byte and those of
/// the next are one character apart, two where the second group begins.
pub proof fn lemma_hex_column_layout(bytes: Seq<u8>, index: int)
    requires
        0 <= index < bytes.len(),
    ensures
        digit_index(index) + 2 <= hex_column(bytes).len(),
        hex_column(bytes)[digit_index(index)] == hex_digit((bytes[index] / 16) as nat),
        hex_column(bytes)[digit_index(index) + 1] == hex_digit((bytes[index] % 16) as nat),
        hex_column(bytes)[digit_index(index) - 1] == ' ',
        index == GROUP_SIZE ==> hex_column(bytes)[digit_index(index) - 2] == ' ',
        index > 0 ==> digit_index(index) - (digit_index(index - 1) + 2) == if index
            == GROUP_SIZE {
            2int
        } else {
            1int
        },
    decreases bytes.len(),
{
    let front = bytes.drop_last();
    lemma_hex_column_len(front);
    lemma_hex_column_len(bytes);
    if index < bytes.len() - 1 {
        lemma_hex_column_layout(front, index);
    }
}

/// An offset below 16^6 takes exactly [`OFFSET_WIDTH`] characters; no offset
/// takes fewer.
pub proof fn lemma_offset_field_width(n: nat)
    ensures
        offset_field(n).len() >= OFFSET_WIDTH,
        n < 0x100_0000 ==> offset_field(n).len() == OFFSET_WIDTH,
        offset_field(n).len() == OFFSET_WIDTH || offset_field(n) == hex_digits(n),
{
    reveal_with_fuel(hex_digits, 7);
}

/// Sixteen to the power of `k`.
pub open spec fn pow16(k: nat) -> nat
    decreases k,
{
    if k == 0 {
        1
    } else {
        16 * pow16((k - 1) as nat)
    }
}

/// The offset field of an offset below 16^6 is its six-digit positional
/// notation: the character at `index` is the digit of `n` that counts
/// sixteen to the power of `5 - index`.
pub proof fn lemma_offset_field_digits(n: nat, index: int)
    requires
        n < 0x100_0000,
        0 <= index < OFFSET_WIDTH,
    ensures
        offset_field(n).len() == OFFSET_WIDTH,
        offset_field(n)[index] == hex_digit((n / pow16((5 - index) as nat)) % 16),
{
    reveal_with_fuel(hex_digits, 7);
    reveal_with_fuel(pow16, 7);
    let q1 = n / 16;
    let q2 = q1 / 16;
    let q3 = q2 / 16;
    let q4 = q3 / 16;
    let q5 = q4 / 16;
    assert(pow16(0) == 1 && pow16(1) == 16 && pow16(2) == 0x100 && pow16(3) == 0x1000);
    assert(pow16(4) == 0x1_0000 && pow16(5) == 0x10_0000);
    let padded = seq![
        hex_digit(q5 % 16),
        hex_digit(q4 % 16),
        hex_digit(q3 % 16),
        hex_digit(q2 % 16),
        hex_digit(q1 % 16),
        hex_digit(n % 16),
    ];
    assert(offset_field(n) =~= padded);
    if index == 0 {
        assert(padded[0] == hex_digit((n / pow16(5)) % 16));
    } else if index == 1 {
        assert(padded[1] == hex_digit((n / pow16(4)) % 16));
    } else if index == 2 {
        assert(padded[2] == hex_digit((n / pow16(3)) % 16));
    } else if index == 3 {
        assert(padded[3] == hex_digit((n / pow16(2)) % 16));
    } else if index == 4 {
        assert(padded[4] == hex_digit((n / pow16(1)) % 16));
    } else {
        assert(padded[5] == hex_digit((n / pow16(0)) % 16));
    }
}

/// The fields of a line and where they stand. With `w` the width of the
/// offset field, the line of no more than sixteen bytes holds the offset
/// field, then the hex column padded to [`HEX_WIDTH`] characters, a space, a
/// bar, one character for each byte, and a bar.
pub proof fn lemma_line_layout(offset: nat, bytes: Seq<u8>)
    requires
        bytes.len() <= BYTES_PER_LINE,
    ensures
        ({
            let line = line_text(offset, bytes);
            let w = offset_field(offset).len() as int;
            &&& line.len() == w + HEX_WIDTH + 3 + bytes.len()
            &&& line.subrange(0, w) == offset_field(offset)
            &&& line.subrange(w, w + HEX_WIDTH) == hex_field(bytes)
            &&& line.subrange(w, w + hex_column_len(bytes.len() as int)) == hex_column(bytes)
            &&& forall|i: int|
                w + hex_column_len(bytes.len() as int) <= i < w + HEX_WIDTH ==> line[i] == ' '
            &&& line[w + HEX_WIDTH] == ' '
            &&& line[w + HEX_WIDTH + 1] == '|'
            &&& line.subrange(w + HEX_WIDTH + 2, line.len() - 1) == ascii_column(bytes)
            &&& forall|i: int|
                0 <= i < bytes.len() ==> line[w + HEX_WIDTH + 2 + i] == ascii_glyph(bytes[i])
            &&& line[line.len() - 1] == '|'
        }),
{
    lemma_hex_column_len(bytes);
    let line = line_text(offset, bytes);
    let w = offset_field(offset).len() as int;
    assert(line.subrange(w, w + HEX_WIDTH) =~= hex_field(bytes));
    assert(line.subrange(w, w + hex_column_len(bytes.len() as int)) =~= hex_column(bytes));
    assert(line.subrange(w + HEX_WIDTH + 2, line.len() - 1) =~= ascii_column(bytes));
}

/// Computes [`hex_digit`].
pub(crate) fn hex_char(v: u8) -> (c: char)
    requires
        v < 16,
    ensures
        c == hex_digit(v as nat),
{
    if v < 10 {
        (0x30u8 + v) as char
    } else {
        (0x61u8 + (v - 10)) as char
    }
}

/// Computes [`ascii_glyph`].
pub fn ascii_char(b: u8) -> (c: char)
    ensures
        c == ascii_glyph(b),
        0x20 <= b <= 0x7e ==> c == b as char,
        !(0x20 <= b <= 0x7e) ==> c == '.',
{
    if b >= 0x20 && b <= 0x7e {
        b as char
    } else {
        '.'
    }
}

/// Appends to `hex` the token of `b`, the byte at `index` of its line.
pub(crate) fn push_token(hex: &mut String, index: usize, b: u8)
    ensures
        final(hex)@ == old(hex)@ + hex_token(index as int, b),
{
    if index == GROUP_SIZE {
        hex.push(' ');
    }
    hex.push(' ');
    hex.push(hex_char(b / 16));
    hex.push(hex_char(b % 16));
}

/// Appends `count` copies of `c` to `text`.
pub(crate) fn push_repeat(text: &mut String, c: char, count: usize)
    ensures
        final(text)@ == old(text)@ + repeat(c, count as int),
{
    let mut done: usize = 0;
    while done < count
        invariant
            done <= count,
            text@ == old(text)@ + repeat(c, done as int),
        decreases count - done,
    {
        text.push(c);
        done = done + 1;
    }
}

/// Number of digits of `n` in hexadecimal.
pub(crate) fn digit_count(n: usize) -> (count: usize)
    ensures
        count == hex_digits(n as nat).len(),
        count >= 1,
{
    let mut rest: usize = n;
    let mut count: usize = 1;
    while rest >= 16
        invariant
            rest <= n,
            1 <= count <= n - rest + 1,
            hex_digits(n as nat).len() == hex_digits(rest as nat).len() + count - 1,
        decreases rest,
    {
        rest = rest / 16;
        count = count + 1;
    }
    count
}

/// Appends the digits of `n`, without leading zeros, to `text`.
pub(crate) fn push_digits(text: &mut String, n: usize)
    ensures
        final(text)@ == old(text)@ + hex_digits(n as nat),
    decreases n,
{
    if n >= 16 {
        push_digits(text, n / 16);
    }
    text.push(hex_char((n % 16) as u8));
    assert(text@ =~= old(text)@ + hex_digits(n as nat));
}

/// Appends the offset field of `n` to `text`.
pub(crate) fn push_offset(text: &mut String, n: usize)
    ensures
        final(text)@ == old(text)@ + offset_field(n as nat),
{
    let digits: usize = digit_count(n);
    if digits < OFFSET_WIDTH {
        push_repeat(text, '0', OFFSET_WIDTH - digits);
    }
    push_digits(text, n);
}

} // verus!
