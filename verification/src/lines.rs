//! Lines of diagnostics out of the bytes of the child's error pipe. A line
//! ends at a line feed or at a carriage return: progress lines end in a
//! carriage return alone.

use vstd::prelude::*;
use vstd::utf8::{decode_utf8, valid_utf8};

verus! {

/// A line feed or a carriage return.
pub open spec fn is_break(byte: u8) -> bool {
    byte == 0x0A || byte == 0x0D
}

/// What a run of bytes leaves: the bytes of the line that is not ended yet,
/// and the lines that were ended, without their breaks.
pub struct Lines {
    pub pending: Seq<u8>,
    pub lines: Seq<Seq<u8>>,
}

/// Reads `bytes` after the unended line `pending`. Every break ends a line,
/// an empty one too.
pub open spec fn split_lines(pending: Seq<u8>, bytes: Seq<u8>) -> Lines
    decreases bytes.len(),
{
    if bytes.len() == 0 {
        Lines { pending, lines: Seq::empty() }
    } else {
        let before = split_lines(pending, bytes.drop_last());
        if is_break(bytes.last()) {
            Lines { pending: Seq::empty(), lines: before.lines.push(before.pending) }
        } else {
            Lines { pending: before.pending.push(bytes.last()), lines: before.lines }
        }
    }
}

/// The text that `String::from_utf8_lossy` makes of `bytes`.
pub uninterp spec fn lossy_text(bytes: Seq<u8>) -> Seq<char>;

/// The texts of `lines`.
pub open spec fn lossy_texts(lines: Seq<Seq<u8>>) -> Seq<Seq<char>> {
    lines.map_values(|line: Seq<u8>| lossy_text(line))
}

/// The models of `lines`.
pub open spec fn texts(lines: Seq<String>) -> Seq<Seq<char>> {
    lines.map_values(|line: String| line@)
}

/// `String::from_utf8_lossy`: the text of `bytes`, with each invalid
/// sequence replaced. Where the bytes are valid UTF-8 the text is the one
/// that they encode.
#[verifier::external_body]
fn decode_lossy(bytes: &[u8]) -> (text: String)
    ensures
        text@ == lossy_text(bytes@),
        valid_utf8(bytes@) ==> text@ == decode_utf8(bytes@),
{
    String::from_utf8_lossy(bytes).into_owned()
}

/// Splits the bytes of the diagnostics into lines, byte by byte.
#[derive(Debug)]
pub struct FFMpegLineIter {
    state: Vec<u8>,
}

impl View for FFMpegLineIter {
    type V = Seq<u8>;

    /// The bytes of the line that is not ended yet.
    closed spec fn view(&self) -> Seq<u8> {
        self.state@
    }
}

impl FFMpegLineIter {
    /// A splitter that has read nothing.
    pub fn new() -> (lines: Self)
        ensures
            lines@ == Seq::<u8>::empty(),
    {
        FFMpegLineIter { state: Vec::new() }
    }

    /// The bytes read since the last break.
    pub fn state(&self) -> (bytes: &[u8])
        ensures
            bytes@ == self@,
    {
        self.state.as_slice()
    }

    /// The text of the bytes read since the last break: the last line of a
    /// stream that ended without a break.
    pub fn last_line(&self) -> (text: String)
        ensures
            text@ == lossy_text(self@),
            valid_utf8(self@) ==> text@ == decode_utf8(self@),
    {
        decode_lossy(self.state.as_slice())
    }

    /// Reads one byte: a break ends the line, which comes back as text; any
    /// other byte is added to the line.
    pub fn push(&mut self, byte: u8) -> (line: Option<String>)
        ensures
            match line {
                Some(text) => is_break(byte) && text@ == lossy_text(old(self)@) && final(self)@
                    == Seq::<u8>::empty(),
                None => !is_break(byte) && final(self)@ == old(self)@.push(byte),
            },
            line matches Some(text) ==> (valid_utf8(old(self)@) ==> text@ == decode_utf8(
                old(self)@,
            )),
    {
        if byte == 0x0A || byte == 0x0D {
            let text = decode_lossy(self.state.as_slice());
            self.state.clear();
            Some(text)
        } else {
            self.state.push(byte);
            None
        }
    }

    /// Reads `bytes` in order and returns the lines that they end.
    pub fn ffmpeg_lines(&mut self, bytes: &[u8]) -> (lines: Vec<String>)
        ensures
            final(self)@ == split_lines(old(self)@, bytes@).pending,
            texts(lines@) == lossy_texts(split_lines(old(self)@, bytes@).lines),
    {
        let ghost start = self@;
        let mut lines: Vec<String> = Vec::new();
        let mut i: usize = 0;
        proof {
            assert(texts(lines@) =~= lossy_texts(Seq::empty()));
        }
        while i < bytes.len()
            invariant
                i <= bytes.len(),
                self@ == split_lines(start, bytes@.take(i as int)).pending,
                texts(lines@) == lossy_texts(split_lines(start, bytes@.take(i as int)).lines),
            decreases bytes.len() - i,
        {
            let ghost before = lines@;
            let ghost pending = self@;
            proof {
                assert(bytes@.take(i + 1).drop_last() =~= bytes@.take(i as int));
            }
            match self.push(bytes[i]) {
                Some(text) => {
                    lines.push(text);
                    proof {
                        let ended = split_lines(start, bytes@.take(i as int)).lines;
                        assert(texts(lines@) =~= texts(before).push(text@));
                        assert(lossy_texts(ended.push(pending)) =~= lossy_texts(ended).push(
                            lossy_text(pending),
                        ));
                    }
                },
                None => {},
            }
            i += 1;
        }
        proof {
            assert(bytes@.take(bytes.len() as int) =~= bytes@);
        }
        lines
    }
}

/// Whether no byte of `bytes` is a break.
pub open spec fn no_break(bytes: Seq<u8>) -> bool {
    forall|i: int| 0 <= i < bytes.len() ==> !is_break(#[trigger] bytes[i])
}

/// No line holds a break, nor does what is pending, as long as what was
/// pending held none.
pub proof fn lemma_lines_hold_no_break(pending: Seq<u8>, bytes: Seq<u8>)
    requires
        no_break(pending),
    ensures
        no_break(split_lines(pending, bytes).pending),
        forall|k: int|
            0 <= k < split_lines(pending, bytes).lines.len() ==> no_break(
                #[trigger] split_lines(pending, bytes).lines[k],
            ),
    decreases bytes.len(),
{
    if bytes.len() > 0 {
        let before = split_lines(pending, bytes.drop_last());
        let after = split_lines(pending, bytes);
        lemma_lines_hold_no_break(pending, bytes.drop_last());
        if is_break(bytes.last()) {
            assert forall|k: int| 0 <= k < after.lines.len() implies no_break(
                #[trigger] after.lines[k],
            ) by {
                if k < before.lines.len() {
                    assert(after.lines[k] == before.lines[k]);
                }
            }
        } else {
            assert forall|i: int| 0 <= i < after.pending.len() implies !is_break(
                #[trigger] after.pending[i],
            ) by {
                if i < before.pending.len() {
                    assert(after.pending[i] == before.pending[i]);
                }
            }
        }
    }
}

/// Nothing is lost: the lines, a break after each, and what is pending are
/// as many bytes as were read.
pub proof fn lemma_lines_keep_every_byte(pending: Seq<u8>, bytes: Seq<u8>)
    ensures
        total_len(split_lines(pending, bytes).lines) + split_lines(pending, bytes).lines.len()
            + split_lines(pending, bytes).pending.len() == pending.len() + bytes.len(),
    decreases bytes.len(),
{
    if bytes.len() > 0 {
        let before = split_lines(pending, bytes.drop_last());
        lemma_lines_keep_every_byte(pending, bytes.drop_last());
        if is_break(bytes.last()) {
            assert(before.lines.push(before.pending).drop_last() =~= before.lines);
        }
    }
}

/// The number of bytes in `lines`.
pub open spec fn total_len(lines: Seq<Seq<u8>>) -> nat
    decreases lines.len(),
{
    if lines.len() == 0 {
        0
    } else {
        total_len(lines.drop_last()) + lines.last().len()
    }
}

} // verus!
