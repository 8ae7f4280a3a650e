//! The dump of a whole input.
//!
//! [`dump_lines`] says what the dump of a byte sequence is, line by line.
//! [`session_lines`] says what a formatter emits that is fed the same bytes
//! one at a time and shipped at the end, and [`lemma_session_is_dump`] shows
//! that the two agree. [`dump_to`] computes the dump.

use vstd::prelude::*;
use crate::dumper::{Dumper, LineState};
use crate::render::{
    ascii_column, ascii_glyph, lemma_line_layout, lemma_offset_field_width, line_text,
    offset_field, BYTES_PER_LINE, HEX_WIDTH, OFFSET_WIDTH,
};

verus! {

/// Number of lines in the dump of `len` bytes: one for every sixteen bytes
/// begun.
pub open spec fn line_count(len: nat) -> nat {
    ((len + BYTES_PER_LINE - 1) / (BYTES_PER_LINE as int)) as nat
}

/// The bytes on line `k` of the dump of `data`: sixteen from `16 * k` on, or
/// as many as are left.
pub open spec fn chunk(data: Seq<u8>, k: int) -> Seq<u8> {
    let from = BYTES_PER_LINE * k;
    let to = if from + BYTES_PER_LINE <= data.len() {
        from + BYTES_PER_LINE
    } else {
        data.len() as int
    };
    data.subrange(from, to)
}

/// The dump of `data`: line `k` shows the bytes of [`chunk`] `k` at offset
/// `16 * k`.
pub open spec fn dump_lines(data: Seq<u8>) -> Seq<Seq<char>> {
    Seq::new(
        line_count(data.len()),
        |k: int| line_text((BYTES_PER_LINE * k) as nat, chunk(data, k)),
    )
}

/// The lines that one operation emits: one or none.
pub open spec fn lines_of(line: Option<Seq<char>>) -> Seq<Seq<char>> {
    match line {
        Some(text) => seq![text],
        None => Seq::empty(),
    }
}

/// The state of a formatter that began in state `from` and has taken `data`.
pub open spec fn feed(from: LineState, data: Seq<u8>) -> LineState
    decreases data.len(),
{
    if data.len() == 0 {
        from
    } else {
        feed(from, data.drop_last()).add_byte(data.last())
    }
}

/// The lines that a formatter emits that begins in state `from` and takes
/// `data`, in the order they leave.
pub open spec fn feed_lines(from: LineState, data: Seq<u8>) -> Seq<Seq<char>>
    decreases data.len(),
{
    if data.len() == 0 {
        Seq::empty()
    } else {
        feed_lines(from, data.drop_last()) + lines_of(
            feed(from, data.drop_last()).add_byte_output(),
        )
    }
}

/// The lines of a whole session: a fresh formatter takes `data` byte by
/// byte and is shipped once at the end.
pub open spec fn session_lines(data: Seq<u8>) -> Seq<Seq<char>> {
    feed_lines(LineState::start(), data) + lines_of(
        feed(LineState::start(), data).ship_output(),
    )
}

/// Number of lines that have left a fresh formatter once it has taken `len`
/// bytes: the last line begun is still pending.
pub open spec fn lines_left(len: nat) -> nat {
    if len == 0 {
        0
    } else {
        ((len - 1) / (BYTES_PER_LINE as int)) as nat
    }
}

/// The state of a fresh formatter that has taken `data`, and the lines it
/// has emitted. The offset is the number of bytes on the lines that have
/// left, a multiple of sixteen; the bytes from there on are pending, at
/// least one of them unless `data` is empty; and the lines that have left
/// are the first lines of the dump.
pub proof fn lemma_feed_from_start(data: Seq<u8>)
    ensures
        ({
            let state = feed(LineState::start(), data);
            let left = lines_left(data.len());
            &&& state.wf()
            &&& state.offset == BYTES_PER_LINE * left
            &&& state.byte_count() == data.len()
            &&& state.pending == data.subrange(state.offset as int, data.len() as int)
            &&& data.len() > 0 ==> state.pending.len() >= 1
            &&& feed_lines(LineState::start(), data) == dump_lines(data).take(left as int)
        }),
    decreases data.len(),
{
    if data.len() > 0 {
        let front = data.drop_last();
        lemma_feed_from_start(front);
        // The lines that have left show bytes of `front` alone.
        assert forall|k: int| 0 <= k < lines_left(data.len()) implies chunk(data, k) == chunk(
            front,
            k,
        ) by {}
    }
}

/// Feeding a fresh formatter byte by byte and shipping it at the end emits
/// the dump of the input, line for line.
pub proof fn lemma_session_is_dump(data: Seq<u8>)
    ensures
        session_lines(data) == dump_lines(data),
{
    lemma_feed_from_start(data);
    if data.len() > 0 {
        // What is pending at the end is the last chunk of the dump.
        let last = lines_left(data.len()) as int;
        assert(feed(LineState::start(), data).pending =~= chunk(data, last));
    }
}

/// The dump of `n` bytes has a line for every sixteen bytes begun: none for
/// an empty input, and otherwise the least number of lines that hold `n`
/// bytes at sixteen to a line. A formatter that is fed the bytes and shipped
/// emits as many.
pub proof fn lemma_line_count(data: Seq<u8>)
    ensures
        dump_lines(data).len() == line_count(data.len()),
        session_lines(data).len() == line_count(data.len()),
        data.len() == 0 ==> line_count(data.len()) == 0,
        data.len() > 0 ==> BYTES_PER_LINE * (line_count(data.len()) - 1) < data.len()
            <= BYTES_PER_LINE * line_count(data.len()),
{
    lemma_session_is_dump(data);
}

/// Number of bytes on line `k` of the dump of `len` bytes: sixteen on every
/// line but the last, and on the last what is left over, or sixteen where
/// nothing is.
pub open spec fn line_len(len: nat, k: int) -> nat {
    if k + 1 < line_count(len) || len % BYTES_PER_LINE as nat == 0 {
        BYTES_PER_LINE as nat
    } else {
        len % BYTES_PER_LINE as nat
    }
}

/// Line `k` of a dump, which is the line that a formatter emits as its line
/// `k`, shows [`line_len`] bytes, and its ASCII column holds
/// one character for each of them: the column begins behind the opening
/// bar, two characters after the hex field, and ends before the closing bar,
/// which is the last character of the line.
pub proof fn lemma_line_ascii_width(data: Seq<u8>, k: int)
    requires
        0 <= k < line_count(data.len()),
    ensures
        ({
            let line = dump_lines(data)[k];
            let bytes = chunk(data, k);
            let w = offset_field((BYTES_PER_LINE * k) as nat).len() as int;
            &&& session_lines(data)[k] == line
            &&& bytes.len() == line_len(data.len(), k)
            &&& 1 <= bytes.len() <= BYTES_PER_LINE
            &&& forall|i: int|
                0 <= i < bytes.len() ==> #[trigger] bytes[i] == data[BYTES_PER_LINE * k + i]
            &&& line.len() == w + HEX_WIDTH + 3 + bytes.len()
            &&& line[w + HEX_WIDTH + 1] == '|'
            &&& line[line.len() - 1] == '|'
            &&& line.subrange(w + HEX_WIDTH + 2, line.len() - 1) == ascii_column(bytes)
            &&& ascii_column(bytes).len() == line_len(data.len(), k)
            &&& forall|i: int|
                0 <= i < bytes.len() ==> line[w + HEX_WIDTH + 2 + i] == ascii_glyph(
                    #[trigger] bytes[i],
                )
        }),
{
    lemma_session_is_dump(data);
    lemma_line_layout((BYTES_PER_LINE * k) as nat, chunk(data, k));
}

/// Line `k` of a dump, which is the line that a formatter emits as its line
/// `k`, begins with the offset field of `16 * k`, the number of bytes on the
/// lines before it. The field is six characters wide as long
/// as the offset is below 16^6.
pub proof fn lemma_line_offset(data: Seq<u8>, k: int)
    requires
        0 <= k < line_count(data.len()),
    ensures
        ({
            let line = dump_lines(data)[k];
            let field = offset_field((BYTES_PER_LINE * k) as nat);
            &&& session_lines(data)[k] == line
            &&& field.len() <= line.len()
            &&& line.subrange(0, field.len() as int) == field
            &&& BYTES_PER_LINE * k < 0x100_0000 ==> field.len() == OFFSET_WIDTH
        }),
{
    lemma_session_is_dump(data);
    lemma_line_layout((BYTES_PER_LINE * k) as nat, chunk(data, k));
    lemma_offset_field_width((BYTES_PER_LINE * k) as nat);
}

/// Appends the dump of `data` to `write`, one line per entry, without line
/// breaks. The entries that `write` held stay as they are.
pub fn dump_to(data: &[u8], write: &mut Vec<String>)
    ensures
        final(write)@.len() == old(write)@.len() + line_count(data@.len()),
        final(write)@.take(old(write)@.len() as int) == old(write)@,
        final(write).deep_view().skip(old(write)@.len() as int) == dump_lines(data@),
{
    let ghost held = write@;
    let ghost start = LineState::start();
    let mut dump = Dumper::new();
    let mut taken: usize = 0;
    while taken < data.len()
        invariant
            taken <= data.len(),
            dump.wf(),
            dump@ == feed(start, data@.take(taken as int)),
            dump@.byte_count() == taken,
            start == LineState::start(),
            write@.len() >= held.len(),
            write@.take(held.len() as int) == held,
            write.deep_view().skip(held.len() as int) == feed_lines(
                start,
                data@.take(taken as int),
            ),
        decreases data.len() - taken,
    {
        let line = dump.add_byte(data[taken]);
        match line {
            Some(text) => {
                write.push(text);
            },
            None => {},
        }
        assert(data@.take(taken + 1).drop_last() =~= data@.take(taken as int));
        taken = taken + 1;
        assert(write.deep_view().skip(held.len() as int) =~= feed_lines(
            start,
            data@.take(taken as int),
        ));
    }
    assert(data@.take(taken as int) =~= data@);
    match dump.ship() {
        Some(text) => {
            write.push(text);
        },
        None => {},
    }
    proof {
        lemma_session_is_dump(data@);
        assert(write.deep_view().skip(held.len() as int) =~= session_lines(data@));
    }
}

} // verus!
