//! Request bytes split across reads.

use vstd::prelude::*;

use crate::outside::decode_lossy;

verus! {

/// Largest request line a control stream accepts; pastes arrive base64 encoded.
pub const MAX_CONTROL_LINE_BYTES: usize = 0x80_0000;

/// Request bytes split across reads. The line size cap spans every read,
/// so a client cannot grow a line past it by pausing between chunks.
#[derive(Debug)]
pub struct LineBuffer {
    pending: Vec<u8>,
}

impl View for LineBuffer {
    type V = Seq<u8>;

    closed spec fn view(&self) -> Seq<u8> {
        self.pending@
    }
}

impl Default for LineBuffer {
    fn default() -> (buffer: Self)
        ensures
            buffer@ == Seq::<u8>::empty(),
    {
        LineBuffer { pending: Vec::new() }
    }
}

/// Where the first line of some bytes ends: at its newline.
pub open spec fn line_end(bytes: Seq<u8>) -> Option<int> {
    crate::find::first_index(bytes, |byte: u8| byte == 0x0a)
}

/// How many bytes a buffer may still take before an unterminated line is too
/// long.
pub open spec fn room_for(bytes: Seq<u8>) -> usize {
    if bytes.len() < MAX_CONTROL_LINE_BYTES {
        (MAX_CONTROL_LINE_BYTES - bytes.len()) as usize
    } else {
        0
    }
}

impl LineBuffer {
    /// Takes what was read.
    pub fn push(&mut self, bytes: &[u8])
        ensures
            final(self)@ == old(self)@ + bytes@,
    {
        self.pending.extend_from_slice(bytes);
        assert(self@ =~= old(self)@ + bytes@);
    }

    /// Bytes the buffer may still take before an unterminated line is too long.
    pub fn room(&self) -> (room: usize)
        ensures
            room == room_for(self@),
    {
        MAX_CONTROL_LINE_BYTES.saturating_sub(self.pending.len())
    }

    /// Takes the next line out, with its newline.
    pub fn take_line(&mut self) -> (line: Option<Vec<u8>>)
        ensures
            match line_end(old(self)@) {
                Some(end) => {
                    &&& line matches Some(line)
                    &&& line@ == old(self)@.take(end + 1)
                    &&& final(self)@ == old(self)@.skip(end + 1)
                },
                None => line is None && final(self)@ == old(self)@,
            },
    {
        let ghost newline = |byte: u8| byte == 0x0a;
        let mut end: usize = 0;
        while end < self.pending.len() && self.pending[end] != 0x0a
            invariant
                0 <= end <= self.pending.len(),
                newline == (|byte: u8| byte == 0x0a),
                *self == *old(self),
                forall|k: int| 0 <= k < end ==> !newline(#[trigger] self@[k]),
            decreases self.pending.len() - end,
        {
            end += 1;
        }
        proof {
            crate::find::lemma_first_index(self@, newline);
        }
        if end >= self.pending.len() {
            return None;
        }
        proof {
            assert(newline(self@[end as int]));
            assert(line_end(self@) == Some(end as int));
        }
        let rest = self.pending.split_off(end + 1);
        let mut line = rest;
        std::mem::swap(&mut line, &mut self.pending);
        Some(line)
    }

    /// The next line as text, with its newline.
    pub fn next_line(&mut self) -> (line: Option<String>)
        ensures
            match line_end(old(self)@) {
                Some(end) => {
                    let bytes = old(self)@.take(end + 1);
                    &&& line matches Some(line)
                    &&& line@ == crate::outside::lossy_text(bytes)
                    &&& vstd::utf8::valid_utf8(bytes) ==> line@ == vstd::utf8::decode_utf8(bytes)
                    &&& final(self)@ == old(self)@.skip(end + 1)
                },
                None => line is None && final(self)@ == old(self)@,
            },
    {
        match self.take_line() {
            Some(line) => Some(decode_lossy(line.as_slice())),
            None => None,
        }
    }
}

/// The finished lines of some bytes, each with its newline.
pub open spec fn lines(bytes: Seq<u8>) -> Seq<Seq<u8>>
    decreases bytes.len(),
{
    match line_end(bytes) {
        Some(end) => if 0 <= end < bytes.len() {
            seq![bytes.take(end + 1)] + lines(bytes.skip(end + 1))
        } else {
            Seq::empty()
        },
        None => Seq::empty(),
    }
}

/// What is left of some bytes once the finished lines are taken out.
pub open spec fn unterminated(bytes: Seq<u8>) -> Seq<u8>
    decreases bytes.len(),
{
    match line_end(bytes) {
        Some(end) => if 0 <= end < bytes.len() {
            unterminated(bytes.skip(end + 1))
        } else {
            bytes
        },
        None => bytes,
    }
}

/// A finished line stays the first whatever follows.
proof fn lemma_line_end_extends(a: Seq<u8>, b: Seq<u8>)
    requires
        line_end(a) is Some,
    ensures
        line_end(a + b) == line_end(a),
        0 <= line_end(a)->Some_0 < a.len(),
{
    let newline = |byte: u8| byte == 0x0a;
    crate::find::lemma_first_index(a, newline);
    crate::find::lemma_first_index(a + b, newline);
    let end = line_end(a)->Some_0;
    let s = a + b;
    assert(newline(s[end]));
    if let Some(k) = line_end(s) {
        assert(newline(s[k]));
        if k < end {
            assert(s[k] == a[k]);
        }
        if end < k {
            assert(!newline(s[end]));
        }
    }
}

/// How bytes are split across reads makes no difference to the lines: taking
/// the finished lines of the first read and then those of what is left with
/// the second read gives the lines of both together, and leaves the same rest.
pub proof fn split_reads_give_the_same_lines(a: Seq<u8>, b: Seq<u8>)
    ensures
        lines(a + b) == lines(a) + lines(unterminated(a) + b),
        unterminated(a + b) == unterminated(unterminated(a) + b),
    decreases a.len(),
{
    match line_end(a) {
        Some(end) => {
            lemma_line_end_extends(a, b);
            let rest = a.skip(end + 1);
            split_reads_give_the_same_lines(rest, b);
            assert((a + b).skip(end + 1) =~= rest + b);
            assert((a + b).take(end + 1) =~= a.take(end + 1));
            assert(seq![a.take(end + 1)] + (lines(rest) + lines(unterminated(rest) + b)) =~= (
            seq![a.take(end + 1)] + lines(rest)) + lines(unterminated(rest) + b));
        },
        None => {
            assert(lines(a) + lines(a + b) =~= lines(a + b));
        },
    }
}

/// Lines and rest together are the bytes that were read: nothing is lost or
/// made up.
pub proof fn lines_and_rest_are_what_was_read(bytes: Seq<u8>)
    ensures
        lines(bytes).flatten() + unterminated(bytes) == bytes,
    decreases bytes.len(),
{
    let newline = |byte: u8| byte == 0x0a;
    crate::find::lemma_first_index(bytes, newline);
    match line_end(bytes) {
        Some(end) => {
            let line = bytes.take(end + 1);
            let rest = bytes.skip(end + 1);
            lines_and_rest_are_what_was_read(rest);
            let all = seq![line] + lines(rest);
            assert(all.drop_first() =~= lines(rest));
            assert(all.first() == line);
            assert(all.flatten() =~= line + lines(rest).flatten());
            assert(all.flatten() + unterminated(rest) =~= line + (lines(rest).flatten()
                + unterminated(rest)));
            assert(line + rest =~= bytes);
        },
        None => {
            assert(lines(bytes).flatten() =~= Seq::<u8>::empty());
            assert(Seq::<u8>::empty() + bytes =~= bytes);
        },
    }
}

/// Reads no longer than the room keep an unterminated line within the limit,
/// however many there are.
pub proof fn pausing_buys_no_room(bytes: Seq<u8>, read: Seq<u8>)
    requires
        bytes.len() <= MAX_CONTROL_LINE_BYTES,
        read.len() <= room_for(bytes),
    ensures
        (bytes + read).len() <= MAX_CONTROL_LINE_BYTES,
        room_for(bytes + read) == room_for(bytes) - read.len(),
{
}

} // verus!
