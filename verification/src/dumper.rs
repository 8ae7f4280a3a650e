//! The incremental formatter.
//!
//! A [`Dumper`] takes the bytes of a dump one at a time. It keeps the line in
//! progress and the number of bytes that earlier lines took, and hands each
//! line to its caller when the line leaves. A full line leaves late: not with
//! its sixteenth byte but with the byte after it, so that the caller decides
//! where the input ends by calling [`Dumper::ship`].
//!
//! [`LineState`] is what a `Dumper` stands for in contracts, and its spec
//! functions say what each operation does.

use vstd::prelude::*;
use crate::render::{
    ascii_char, ascii_column, hex_column, lemma_hex_column_len, line_text, push_offset,
    push_repeat, push_token, BYTES_PER_LINE, GROUP_SIZE, HEX_WIDTH,
};

verus! {

/// The state of a formatter: the bytes of the line in progress, and the
/// number of bytes on the lines that have left.
pub struct LineState {
    pub pending: Seq<u8>,
    pub offset: nat,
}

impl LineState {
    /// The state before the first byte.
    pub open spec fn start() -> LineState {
        LineState { pending: Seq::empty(), offset: 0 }
    }

    /// The line in progress holds no more than a full line.
    pub open spec fn wf(self) -> bool {
        self.pending.len() <= BYTES_PER_LINE
    }

    /// The line in progress is full.
    pub open spec fn is_full(self) -> bool {
        self.pending.len() == BYTES_PER_LINE
    }

    /// Number of bytes taken so far, pending ones included.
    pub open spec fn byte_count(self) -> nat {
        self.offset + self.pending.len()
    }

    /// The line that shipping emits: none where nothing is pending.
    pub open spec fn ship_output(self) -> Option<Seq<char>> {
        if self.pending.len() == 0 {
            None
        } else {
            Some(line_text(self.offset, self.pending))
        }
    }

    /// The state after shipping: the pending bytes are counted into the
    /// offset. Where nothing is pending the state stays as it is.
    pub open spec fn ship(self) -> LineState {
        if self.pending.len() == 0 {
            self
        } else {
            LineState { pending: Seq::empty(), offset: self.offset + self.pending.len() }
        }
    }

    /// The line that adding a byte emits: the pending line where it is full,
    /// none otherwise.
    pub open spec fn add_byte_output(self) -> Option<Seq<char>> {
        if self.is_full() {
            self.ship_output()
        } else {
            None
        }
    }

    /// The state after adding `b`: a full line is shipped first, then `b`
    /// joins the line in progress.
    pub open spec fn add_byte(self, b: u8) -> LineState {
        let before = if self.is_full() {
            self.ship()
        } else {
            self
        };
        LineState { pending: before.pending.push(b), offset: before.offset }
    }
}

/// Shipping twice in a row emits nothing the second time, and leaves the
/// state as the first shipping left it.
pub proof fn lemma_ship_twice(s: LineState)
    ensures
        s.ship().ship_output() is None,
        s.ship().ship() == s.ship(),
{
}

/// Shipping keeps a state well formed, empties the line in progress, and
/// moves the offset forward by the number of bytes that were pending, so that
/// the number of bytes taken stays the same.
pub proof fn lemma_ship_step(s: LineState)
    requires
        s.wf(),
    ensures
        s.ship().wf(),
        s.ship().pending.len() == 0,
        s.ship().offset == s.offset + s.pending.len(),
        s.ship().byte_count() == s.byte_count(),
        s.ship_output() is Some <==> s.pending.len() > 0,
{
}

/// Adding a byte keeps a state well formed and counts one byte more. It
/// emits a line exactly where the line in progress was full, and then the
/// offset moves by a full line; otherwise the offset stays and the line in
/// progress grows by the byte.
pub proof fn lemma_add_byte_step(s: LineState, b: u8)
    requires
        s.wf(),
    ensures
        s.add_byte(b).wf(),
        1 <= s.add_byte(b).pending.len(),
        s.add_byte(b).pending.last() == b,
        s.add_byte(b).byte_count() == s.byte_count() + 1,
        s.add_byte_output() is Some <==> s.is_full(),
        s.is_full() ==> s.add_byte(b).offset == s.offset + BYTES_PER_LINE
            && s.add_byte(b).pending == seq![b]
            && s.add_byte_output() == Some(line_text(s.offset, s.pending)),
        !s.is_full() ==> s.add_byte(b).offset == s.offset
            && s.add_byte(b).pending == s.pending.push(b),
{
}

/// A hex dumper. It holds the rendered columns of the line in progress, the
/// number of bytes on that line, and the number of bytes on the lines before
/// it.
pub struct Dumper {
    hex: String,
    ascii: String,
    count: usize,
    total_count: usize,
    pending: Ghost<Seq<u8>>,
}

impl View for Dumper {
    type V = LineState;

    closed spec fn view(&self) -> LineState {
        LineState { pending: self.pending@, offset: self.total_count as nat }
    }
}

impl Dumper {
    /// The columns hold exactly the pending bytes, no more than a full line
    /// of them, and the number of bytes taken fits the counter.
    pub closed spec fn wf(&self) -> bool {
        &&& self.count == self.pending@.len()
        &&& self.count <= BYTES_PER_LINE
        &&& self.hex@ =~= hex_column(self.pending@)
        &&& self.ascii@ =~= ascii_column(self.pending@)
        &&& self.total_count + self.count <= usize::MAX
    }

    /// The hex column as rendered so far.
    pub closed spec fn hex_text(&self) -> Seq<char> {
        self.hex@
    }

    /// The ASCII column as rendered so far.
    pub closed spec fn ascii_text(&self) -> Seq<char> {
        self.ascii@
    }

    /// What a well-formed dumper promises of its state: no more than a full
    /// line is pending, the two columns show exactly the pending bytes, and
    /// the number of bytes taken fits `usize`.
    pub proof fn lemma_wf(&self)
        requires
            self.wf(),
        ensures
            self@.wf(),
            self.hex_text() == hex_column(self@.pending),
            self.ascii_text() == ascii_column(self@.pending),
            self.ascii_text().len() == self@.pending.len(),
            self@.byte_count() <= usize::MAX,
    {
    }

    /// A dumper that has taken no byte.
    pub fn new() -> (dumper: Dumper)
        ensures
            dumper.wf(),
            dumper@ == LineState::start(),
    {
        Dumper {
            hex: String::new(),
            ascii: String::new(),
            count: 0,
            total_count: 0,
            pending: Ghost(Seq::empty()),
        }
    }

    /// Number of bytes on the line in progress.
    pub fn pending_count(&self) -> (count: usize)
        requires
            self.wf(),
        ensures
            count == self@.pending.len(),
    {
        self.count
    }

    /// Number of bytes on the lines that have left.
    pub fn offset(&self) -> (offset: usize)
        ensures
            offset == self@.offset,
    {
        self.total_count
    }

    /// Number of bytes taken so far.
    pub fn byte_count(&self) -> (count: usize)
        requires
            self.wf(),
        ensures
            count == self@.byte_count(),
    {
        self.total_count + self.count
    }

    /// Takes one byte. Where the line in progress is full, that line is
    /// shipped first and returned; the byte then begins the next line.
    ///
    /// The number of bytes taken must stay within `usize`.
    pub fn add_byte(&mut self, ch: u8) -> (line: Option<String>)
        requires
            old(self).wf(),
            old(self)@.byte_count() < usize::MAX,
        ensures
            final(self).wf(),
            final(self)@ == old(self)@.add_byte(ch),
            line.deep_view() == old(self)@.add_byte_output(),
    {
        let line = if self.count == BYTES_PER_LINE {
            self.ship()
        } else {
            None
        };
        push_token(&mut self.hex, self.count, ch);
        self.ascii.push(ascii_char(ch));
        self.count = self.count + 1;
        proof {
            let before = self.pending@;
            let after = before.push(ch);
            self.pending@ = after;
            assert(after.drop_last() =~= before);
        }
        line
    }

    /// Ends the line in progress and returns it. Where nothing is pending
    /// there is no line, and the dumper stays as it is.
    pub fn ship(&mut self) -> (line: Option<String>)
        requires
            old(self).wf(),
        ensures
            final(self).wf(),
            final(self)@ == old(self)@.ship(),
            line.deep_view() == old(self)@.ship_output(),
            old(self)@.pending.len() == 0 ==> *final(self) == *old(self),
    {
        if self.count == 0 {
            return None;
        }
        proof {
            lemma_hex_column_len(self.pending@);
        }
        let used: usize = if self.count > GROUP_SIZE {
            3 * self.count + 1
        } else {
            3 * self.count
        };
        let mut line = String::new();
        push_offset(&mut line, self.total_count);
        line.append(self.hex.as_str());
        push_repeat(&mut line, ' ', HEX_WIDTH - used);
        line.push(' ');
        line.push('|');
        line.append(self.ascii.as_str());
        line.push('|');

        self.hex = String::new();
        self.ascii = String::new();
        self.total_count = self.total_count + self.count;
        self.count = 0;
        proof {
            self.pending@ = Seq::empty();
        }
        Some(line)
    }
}

} // verus!
