//! Frame reassembler: a byte-at-a-time state machine that accumulates
//! transport bytes into a bounded buffer, detects line terminators, and on a
//! valid terminator hands the buffered line to the line decoder.
//!
//! A delimiter always resynchronizes the machine, so corruption never
//! persists past one line; a line longer than the buffer only desyncs the
//! machine until that next delimiter.

use crate::decode::decode_line;
use crate::decode::frame_matches;
use crate::decode::lemma_round_trip;
use crate::decode::spec_decode;
use crate::encode::encoded_frame;
use crate::encode::frame_line;
use crate::encode::BELL;
use crate::encode::CARRIAGE_RETURN;
use crate::hex::hex_pairs;
use crate::hex::is_hex_digit;
use crate::hex::lemma_hex_char_val;
use crate::hex::lemma_hex_enc;
use crate::hex::lemma_pairs_round_trip;
use crate::hex::lemma_pow16_values;
use crate::types::CanFrame;
use crate::types::CodecError;
use crate::types::Id;
use vstd::prelude::*;

verus! {

/// Receive buffer capacity: the worst-case line length (command byte, 8
/// identifier digits, 1 length digit, 16 data digits, delimiter) plus one
/// margin byte.
pub const SLCAN_MTU: usize = 28;

/// A line terminator: carriage return ends a line; bell aborts the line in
/// flight.
pub open spec fn is_delim(b: u8) -> bool {
    b == CARRIAGE_RETURN || b == BELL
}

/// A delimiter closes a decodable line only when it is a carriage return,
/// the line is not known corrupt, and more than four bytes are buffered.
pub open spec fn line_accepted(buf: Seq<u8>, desynced: bool, byte: u8) -> bool {
    byte == CARRIAGE_RETURN && !desynced && buf.len() > 4
}

/// The reassembler's state after one byte: a delimiter always resets to an
/// empty, synchronized buffer; any other byte is buffered, or desyncs the
/// machine when the buffer is full, or is dropped while desynced.
pub open spec fn step_state(buf: Seq<u8>, desynced: bool, byte: u8) -> (Seq<u8>, bool) {
    if is_delim(byte) {
        (Seq::<u8>::empty(), false)
    } else if desynced {
        (buf, true)
    } else if buf.len() >= SLCAN_MTU {
        (buf, true)
    } else {
        (buf.push(byte), false)
    }
}

/// What one byte hands to the caller: the decoded line exactly when the
/// delimiter is accepted, nothing otherwise.
pub open spec fn step_output(buf: Seq<u8>, desynced: bool, byte: u8) -> Option<
    Result<(Id, Seq<u8>), CodecError>,
> {
    if line_accepted(buf, desynced, byte) {
        Some(spec_decode(buf))
    } else {
        None
    }
}

/// The executable result carries the same frame or error as the spec-level
/// output.
pub open spec fn output_rel(
    r: Option<Result<CanFrame, CodecError>>,
    o: Option<Result<(Id, Seq<u8>), CodecError>>,
) -> bool {
    match o {
        Option::None => r is None,
        Option::Some(Result::Ok((id, payload))) => r matches Some(Ok(f)) && frame_matches(
            f,
            id,
            payload,
        ),
        Option::Some(Result::Err(e)) => r == Some(Err::<CanFrame, CodecError>(e)),
    }
}

/// The two reassembly states: accumulating a line, or discarding a known
/// corrupt one until its delimiter.
#[derive(Clone, Copy, Debug, PartialEq, Eq, Structural)]
pub enum ReassemblyState {
    Accumulating,
    Discarding,
}

/// The reassembler: a bounded buffer of the line in flight plus the
/// discard flag, driven one transport byte at a time.
pub struct Reassembler {
    rbuff: Vec<u8>,
    state: ReassemblyState,
}

impl Reassembler {
    /// The bytes buffered for the line in flight.
    pub closed spec fn buffered(self) -> Seq<u8> {
        self.rbuff@
    }

    /// The line in flight is known corrupt and will be discarded when its
    /// delimiter arrives.
    pub closed spec fn desynced(self) -> bool {
        self.state is Discarding
    }

    /// Bounded memory: the buffer never holds more than the capacity.
    pub open spec fn wf(self) -> bool {
        self.buffered().len() <= SLCAN_MTU
    }

    /// A fresh reassembler: empty and synchronized.
    pub fn new() -> (r: Reassembler)
        ensures
            r.buffered() == Seq::<u8>::empty(),
            !r.desynced(),
            r.wf(),
    {
        Reassembler { rbuff: Vec::new(), state: ReassemblyState::Accumulating }
    }

    /// Feeds one transport byte. Returns the decoded line exactly when this
    /// byte is an accepted delimiter; a delimiter always resets the buffer
    /// and the discard flag, whether or not the line was accepted.
    pub fn push_byte(&mut self, byte: u8) -> (r: Option<Result<CanFrame, CodecError>>)
        requires
            old(self).wf(),
        ensures
            final(self).wf(),
            final(self).buffered() == step_state(
                old(self).buffered(),
                old(self).desynced(),
                byte,
            ).0,
            final(self).desynced() == step_state(
                old(self).buffered(),
                old(self).desynced(),
                byte,
            ).1,
            output_rel(r, step_output(old(self).buffered(), old(self).desynced(), byte)),
    {
        if byte == CARRIAGE_RETURN || byte == BELL {
            let accepted = byte == CARRIAGE_RETURN && matches!(
                self.state,
                ReassemblyState::Accumulating,
            ) && self.rbuff.len() > 4;
            let result = if accepted {
                Some(decode_line(self.rbuff.as_slice()))
            } else {
                None
            };
            self.rbuff.clear();
            self.state = ReassemblyState::Accumulating;
            result
        } else {
            match self.state {
                ReassemblyState::Discarding => None,
                ReassemblyState::Accumulating => {
                    if self.rbuff.len() < SLCAN_MTU {
                        self.rbuff.push(byte);
                        None
                    } else {
                        self.state = ReassemblyState::Discarding;
                        None
                    }
                },
            }
        }
    }
}

/// The state after feeding a whole byte sequence, one `step_state` at a
/// time.
pub open spec fn feed_state(buf: Seq<u8>, desynced: bool, bytes: Seq<u8>) -> (Seq<u8>, bool)
    decreases bytes.len(),
{
    if bytes.len() == 0 {
        (buf, desynced)
    } else {
        let st = step_state(buf, desynced, bytes[0]);
        feed_state(st.0, st.1, bytes.subrange(1, bytes.len() as int))
    }
}

/// The per-byte outputs of feeding a whole byte sequence.
pub open spec fn feed_outputs(buf: Seq<u8>, desynced: bool, bytes: Seq<u8>) -> Seq<
    Option<Result<(Id, Seq<u8>), CodecError>>,
>
    decreases bytes.len(),
{
    if bytes.len() == 0 {
        Seq::empty()
    } else {
        let st = step_state(buf, desynced, bytes[0]);
        seq![step_output(buf, desynced, bytes[0])] + feed_outputs(
            st.0,
            st.1,
            bytes.subrange(1, bytes.len() as int),
        )
    }
}

/// Feeding a concatenation is feeding the first part, then the second from
/// the state the first part left.
pub proof fn lemma_feed_append(buf: Seq<u8>, desynced: bool, a: Seq<u8>, b: Seq<u8>)
    ensures
        feed_state(buf, desynced, a + b) == feed_state(
            feed_state(buf, desynced, a).0,
            feed_state(buf, desynced, a).1,
            b,
        ),
        feed_outputs(buf, desynced, a + b) == feed_outputs(buf, desynced, a) + feed_outputs(
            feed_state(buf, desynced, a).0,
            feed_state(buf, desynced, a).1,
            b,
        ),
    decreases a.len(),
{
    if a.len() == 0 {
        assert(a + b =~= b);
        assert(feed_outputs(buf, desynced, a) + feed_outputs(buf, desynced, b) =~= feed_outputs(
            buf,
            desynced,
            b,
        ));
    } else {
        let st = step_state(buf, desynced, a[0]);
        let a1 = a.subrange(1, a.len() as int);
        assert((a + b)[0] == a[0]);
        assert((a + b).subrange(1, (a + b).len() as int) =~= a1 + b);
        lemma_feed_append(st.0, st.1, a1, b);
        let o0 = seq![step_output(buf, desynced, a[0])];
        assert(o0 + (feed_outputs(st.0, st.1, a1) + feed_outputs(
            feed_state(st.0, st.1, a1).0,
            feed_state(st.0, st.1, a1).1,
            b,
        )) =~= (o0 + feed_outputs(st.0, st.1, a1)) + feed_outputs(
            feed_state(st.0, st.1, a1).0,
            feed_state(st.0, st.1, a1).1,
            b,
        ));
    }
}

/// Feeding non-delimiter bytes accumulates them while they fit; one more
/// than fits desyncs the machine. Either way no byte yields a frame.
pub proof fn lemma_feed_nondelim(buf: Seq<u8>, bytes: Seq<u8>)
    requires
        forall|i: int| 0 <= i < bytes.len() ==> !is_delim(#[trigger] bytes[i]),
    ensures
        buf.len() + bytes.len() <= SLCAN_MTU ==> feed_state(buf, false, bytes) == (
            buf + bytes,
            false,
        ),
        buf.len() <= SLCAN_MTU && buf.len() + bytes.len() > SLCAN_MTU ==> feed_state(
            buf,
            false,
            bytes,
        ).1,
        feed_outputs(buf, false, bytes).len() == bytes.len(),
        forall|i: int| 0 <= i < bytes.len() ==> feed_outputs(buf, false, bytes)[i] is None,
    decreases bytes.len(),
{
    if bytes.len() == 0 {
        assert(buf + bytes =~= buf);
    } else {
        let b0 = bytes[0];
        let rest = bytes.subrange(1, bytes.len() as int);
        assert(!is_delim(b0));
        if buf.len() < SLCAN_MTU {
            lemma_feed_nondelim(buf.push(b0), rest);
            assert(buf.push(b0) + rest =~= buf + bytes);
        } else {
            lemma_feed_desynced(buf, rest);
        }
    }
}

/// While desynced, non-delimiter bytes are dropped: the state does not
/// change and nothing is produced.
pub proof fn lemma_feed_desynced(buf: Seq<u8>, bytes: Seq<u8>)
    requires
        forall|i: int| 0 <= i < bytes.len() ==> !is_delim(#[trigger] bytes[i]),
    ensures
        feed_state(buf, true, bytes) == (buf, true),
        feed_outputs(buf, true, bytes).len() == bytes.len(),
        forall|i: int| 0 <= i < bytes.len() ==> feed_outputs(buf, true, bytes)[i] is None,
    decreases bytes.len(),
{
    if bytes.len() == 0 {
    } else {
        lemma_feed_desynced(buf, bytes.subrange(1, bytes.len() as int));
    }
}

/// No byte of an encoded data-frame line body is a delimiter, and the body
/// is longer than four bytes yet fits the receive buffer.
pub proof fn lemma_frame_line_bytes(id: Id, data: Seq<u8>)
    requires
        id.wf(),
        data.len() <= 8,
    ensures
        4 < frame_line(id, data).len() <= 26,
        forall|i: int|
            0 <= i < frame_line(id, data).len() ==> !is_delim(#[trigger] frame_line(id, data)[i]),
{
    lemma_pow16_values();
    lemma_pairs_round_trip(data);
    lemma_hex_char_val(data.len() as int);
    let line = frame_line(id, data);
    match id {
        Id::Standard(v) => {
            lemma_hex_enc(v as int, 3);
            assert forall|i: int| 0 <= i < line.len() implies !is_delim(#[trigger] line[i]) by {
                if i == 0 {
                } else if i < 4 {
                    assert(is_hex_digit(line[i]));
                } else if i == 4 {
                    assert(is_hex_digit(line[i]));
                } else {
                    assert(line[i] == hex_pairs(data)[i - 5]);
                    assert(is_hex_digit(line[i]));
                }
            }
        },
        Id::Extended(v) => {
            lemma_hex_enc(v as int, 8);
            assert forall|i: int| 0 <= i < line.len() implies !is_delim(#[trigger] line[i]) by {
                if i == 0 {
                } else if i < 9 {
                    assert(is_hex_digit(line[i]));
                } else if i == 9 {
                    assert(is_hex_digit(line[i]));
                } else {
                    assert(line[i] == hex_pairs(data)[i - 10]);
                    assert(is_hex_digit(line[i]));
                }
            }
        },
    }
}

/// A well-formed data-frame line fed byte-for-byte into a fresh reassembler
/// produces nothing until its carriage return, which yields exactly the
/// frame that was encoded, and leaves the machine empty and synchronized.
pub proof fn lemma_line_reassembles(id: Id, data: Seq<u8>)
    requires
        id.wf(),
        data.len() <= 8,
    ensures
        feed_state(Seq::<u8>::empty(), false, encoded_frame(id, data)) == (
            Seq::<u8>::empty(),
            false,
        ),
        feed_outputs(Seq::<u8>::empty(), false, encoded_frame(id, data)).len() == encoded_frame(
            id,
            data,
        ).len(),
        forall|i: int|
            0 <= i < encoded_frame(id, data).len() - 1 ==> feed_outputs(
                Seq::<u8>::empty(),
                false,
                encoded_frame(id, data),
            )[i] is None,
        feed_outputs(Seq::<u8>::empty(), false, encoded_frame(id, data)).last() == Some(
            Ok::<(Id, Seq<u8>), CodecError>((id, data)),
        ),
{
    let line = frame_line(id, data);
    let tail = seq![CARRIAGE_RETURN];
    lemma_frame_line_bytes(id, data);
    lemma_feed_nondelim(Seq::<u8>::empty(), line);
    assert(Seq::<u8>::empty() + line =~= line);
    assert(encoded_frame(id, data) =~= line + tail);
    lemma_feed_append(Seq::<u8>::empty(), false, line, tail);
    assert(line_accepted(line, false, CARRIAGE_RETURN));
    lemma_round_trip(id, data);
    assert(feed_state(line, false, tail) == (Seq::<u8>::empty(), false)) by {
        reveal_with_fuel(feed_state, 3);
        assert(tail.subrange(1, 1) =~= Seq::<u8>::empty());
    }
    assert(feed_outputs(line, false, tail) =~= seq![
        Some(spec_decode(line)),
    ]) by {
        reveal_with_fuel(feed_outputs, 3);
        assert(tail.subrange(1, 1) =~= Seq::<u8>::empty());
    }
    let outs = feed_outputs(Seq::<u8>::empty(), false, encoded_frame(id, data));
    let outs_line = feed_outputs(Seq::<u8>::empty(), false, line);
    assert(outs == outs_line + feed_outputs(line, false, tail));
    assert(outs.len() == line.len() + 1);
    assert(outs.last() == Some(spec_decode(line)));
    assert forall|i: int| 0 <= i < encoded_frame(id, data).len() - 1 implies outs[i] is None by {
        assert(outs[i] == outs_line[i]);
    }
}

/// Overflow self-heals: more non-delimiter bytes than the buffer holds,
/// closed by one delimiter, yield no frame at all; the very next
/// well-formed line then decodes normally, and the machine ends empty and
/// synchronized.
pub proof fn lemma_overflow_self_heals(junk: Seq<u8>, id: Id, data: Seq<u8>)
    requires
        forall|i: int| 0 <= i < junk.len() ==> !is_delim(#[trigger] junk[i]),
        junk.len() > SLCAN_MTU,
        id.wf(),
        data.len() <= 8,
    ensures
        feed_state(Seq::<u8>::empty(), false, junk.push(CARRIAGE_RETURN) + encoded_frame(id, data))
            == (Seq::<u8>::empty(), false),
        feed_outputs(
            Seq::<u8>::empty(),
            false,
            junk.push(CARRIAGE_RETURN) + encoded_frame(id, data),
        ).len() == junk.len() + 1 + encoded_frame(id, data).len(),
        forall|i: int|
            0 <= i < junk.len() + 1 + encoded_frame(id, data).len() - 1 ==> feed_outputs(
                Seq::<u8>::empty(),
                false,
                junk.push(CARRIAGE_RETURN) + encoded_frame(id, data),
            )[i] is None,
        feed_outputs(
            Seq::<u8>::empty(),
            false,
            junk.push(CARRIAGE_RETURN) + encoded_frame(id, data),
        ).last() == Some(Ok::<(Id, Seq<u8>), CodecError>((id, data))),
{
    let head = junk.push(CARRIAGE_RETURN);
    let body = encoded_frame(id, data);
    lemma_feed_nondelim(Seq::<u8>::empty(), junk);
    let st = feed_state(Seq::<u8>::empty(), false, junk);
    assert(st.1);
    assert(head =~= junk + seq![CARRIAGE_RETURN]);
    lemma_feed_append(Seq::<u8>::empty(), false, junk, seq![CARRIAGE_RETURN]);
    assert(feed_state(st.0, st.1, seq![CARRIAGE_RETURN]) == (Seq::<u8>::empty(), false)) by {
        reveal_with_fuel(feed_state, 3);
        assert(seq![CARRIAGE_RETURN].subrange(1, 1) =~= Seq::<u8>::empty());
    }
    assert(feed_outputs(st.0, st.1, seq![CARRIAGE_RETURN]) =~= seq![
        step_output(st.0, st.1, CARRIAGE_RETURN),
    ]) by {
        reveal_with_fuel(feed_outputs, 3);
        assert(seq![CARRIAGE_RETURN].subrange(1, 1) =~= Seq::<u8>::empty());
    }
    assert(step_output(st.0, st.1, CARRIAGE_RETURN) is None);
    lemma_feed_append(Seq::<u8>::empty(), false, head, body);
    lemma_line_reassembles(id, data);
    assert(feed_outputs(Seq::<u8>::empty(), false, head + body) == feed_outputs(
        Seq::<u8>::empty(),
        false,
        head,
    ) + feed_outputs(Seq::<u8>::empty(), false, body));
    assert(feed_outputs(Seq::<u8>::empty(), false, head).len() == junk.len() + 1);
    assert forall|i: int|
        0 <= i < junk.len() + 1 + body.len() - 1 implies feed_outputs(
        Seq::<u8>::empty(),
        false,
        head + body,
    )[i] is None by {
        if i < junk.len() {
            assert(feed_outputs(Seq::<u8>::empty(), false, head)[i] is None);
        } else if i == junk.len() {
            assert(feed_outputs(Seq::<u8>::empty(), false, head)[i] is None);
        } else {
            assert(feed_outputs(Seq::<u8>::empty(), false, head + body)[i] == feed_outputs(
                Seq::<u8>::empty(),
                false,
                body,
            )[i - (junk.len() + 1)]);
        }
    }
    assert(feed_outputs(Seq::<u8>::empty(), false, head + body).last() == feed_outputs(
        Seq::<u8>::empty(),
        false,
        body,
    ).last());
}

/// Minimum-length rejection: a delimiter that arrives with fewer than five
/// bytes buffered produces no frame; it only resets the machine.
pub proof fn lemma_short_line_discarded(buf: Seq<u8>, desynced: bool, byte: u8)
    requires
        buf.len() <= 4,
        is_delim(byte),
    ensures
        step_output(buf, desynced, byte) is None,
        step_state(buf, desynced, byte) == (Seq::<u8>::empty(), false),
{
}

} // verus!
