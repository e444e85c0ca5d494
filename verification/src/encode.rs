//! Frame encoder: serializes a CAN identifier and payload into one SLCAN
//! command line, and builds the Setup/Open/Close command lines.

use crate::hex::bytestohex;
use crate::hex::hex_char_of;
use crate::hex::hex_enc;
use crate::hex::hex_pairs;
use crate::hex::hexdigit;
use crate::hex::u16tohex3;
use crate::hex::u32tohex8;
use crate::types::bit_rate_digit;
use crate::types::command_byte;
use crate::types::BitRate;
use crate::types::CodecError;
use crate::types::Command;
use crate::types::Id;
use vstd::prelude::*;

verus! {

/// The ASCII carriage return that terminates every SLCAN line.
pub const CARRIAGE_RETURN: u8 = 13;

/// The ASCII bell byte, accepted on input as an abort signal for the line
/// in flight.
pub const BELL: u8 = 7;

/// The body of a data-frame line, without the terminating carriage return:
/// `t` or `T`, the fixed-width identifier, one length digit, and two hex
/// digits per payload byte.
pub open spec fn frame_line(id: Id, data: Seq<u8>) -> Seq<u8> {
    match id {
        Id::Standard(v) => seq![command_byte(Command::TransmitStandardFrame)] + hex_enc(
            v as int,
            3,
        ) + seq![hex_char_of(data.len() as int)] + hex_pairs(data),
        Id::Extended(v) => seq![command_byte(Command::TransmitExtendedFrame)] + hex_enc(
            v as int,
            8,
        ) + seq![hex_char_of(data.len() as int)] + hex_pairs(data),
    }
}

/// A complete data-frame line as written to the transport.
pub open spec fn encoded_frame(id: Id, data: Seq<u8>) -> Seq<u8> {
    frame_line(id, data).push(CARRIAGE_RETURN)
}

/// Serializes one data frame. A payload longer than 8 bytes is a caller
/// contract violation and is rejected, never truncated.
pub fn encode_frame(id: Id, data: &[u8]) -> (r: Result<Vec<u8>, CodecError>)
    requires
        id.wf(),
    ensures
        data@.len() <= 8 ==> (r matches Ok(line) && line@ == encoded_frame(id, data@)),
        data@.len() > 8 ==> r == Err::<Vec<u8>, CodecError>(CodecError::InvalidLength),
{
    let dlc = data.len();
    if dlc > 8 {
        return Err(CodecError::InvalidLength);
    }
    let mut buf: Vec<u8> = Vec::new();
    match id {
        Id::Standard(v) => {
            buf.push(Command::TransmitStandardFrame.byte());
            let h = u16tohex3(v);
            buf.push(h[0]);
            buf.push(h[1]);
            buf.push(h[2]);
        },
        Id::Extended(v) => {
            buf.push(Command::TransmitExtendedFrame.byte());
            let h = u32tohex8(v);
            let mut i: usize = 0;
            while i < 8
                invariant
                    i <= 8,
                    h@ == hex_enc(v as int, 8),
                    h@.len() == 8,
                    buf@.len() == 1 + i,
                    buf@[0] == command_byte(Command::TransmitExtendedFrame),
                    forall|j: int| 0 <= j < i ==> buf@[1 + j] == h@[j],
                decreases 8 - i,
            {
                buf.push(h[i]);
                i += 1;
            }
        },
    }
    buf.push(hexdigit(dlc as u8));
    let mut hexdata = bytestohex(data);
    buf.append(&mut hexdata);
    buf.push(CARRIAGE_RETURN);
    proof {
        assert(buf@ =~= encoded_frame(id, data@));
    }
    Ok(buf)
}

/// Fixed width: whatever its leading zero bits, a standard identifier is
/// encoded as exactly 3 hex digits and an extended one as exactly 8, and
/// those digits denote the identifier value again; the whole line's length
/// is determined by the class and the payload length alone.
pub proof fn lemma_fixed_width(id: Id, data: Seq<u8>)
    requires
        id.wf(),
        data.len() <= 8,
    ensures
        id matches Id::Standard(v) ==> {
            &&& encoded_frame(id, data).len() == 6 + 2 * data.len()
            &&& frame_line(id, data).subrange(1, 4) == hex_enc(v as int, 3)
            &&& hex_enc(v as int, 3).len() == 3
            &&& crate::hex::hex_num(hex_enc(v as int, 3)) == v
        },
        id matches Id::Extended(v) ==> {
            &&& encoded_frame(id, data).len() == 11 + 2 * data.len()
            &&& frame_line(id, data).subrange(1, 9) == hex_enc(v as int, 8)
            &&& hex_enc(v as int, 8).len() == 8
            &&& crate::hex::hex_num(hex_enc(v as int, 8)) == v
        },
{
    crate::hex::lemma_pow16_values();
    crate::hex::lemma_pairs_round_trip(data);
    match id {
        Id::Standard(v) => {
            crate::hex::lemma_hex_enc(v as int, 3);
            assert(frame_line(id, data).subrange(1, 4) =~= hex_enc(v as int, 3));
        },
        Id::Extended(v) => {
            crate::hex::lemma_hex_enc(v as int, 8);
            assert(frame_line(id, data).subrange(1, 9) =~= hex_enc(v as int, 8));
        },
    }
}

/// The byte sequence that opens a channel: the Setup line `S<digit>` and the
/// Open line `O`, each terminated by a carriage return.
pub fn open_command(bitrate: BitRate) -> (r: Vec<u8>)
    ensures
        r@ == seq![
            command_byte(Command::Setup),
            bit_rate_digit(bitrate),
            CARRIAGE_RETURN,
            command_byte(Command::Open),
            CARRIAGE_RETURN,
        ],
{
    let mut buf: Vec<u8> = Vec::new();
    buf.push(Command::Setup.byte());
    buf.push(bitrate.digit());
    buf.push(CARRIAGE_RETURN);
    buf.push(Command::Open.byte());
    buf.push(CARRIAGE_RETURN);
    proof {
        assert(buf@ =~= seq![
            command_byte(Command::Setup),
            bit_rate_digit(bitrate),
            CARRIAGE_RETURN,
            command_byte(Command::Open),
            CARRIAGE_RETURN,
        ]);
    }
    buf
}

/// The byte sequence that closes a channel: the Close line `C` terminated by
/// a carriage return.
pub fn close_command() -> (r: Vec<u8>)
    ensures
        r@ == seq![command_byte(Command::Close), CARRIAGE_RETURN],
{
    let mut buf: Vec<u8> = Vec::new();
    buf.push(Command::Close.byte());
    buf.push(CARRIAGE_RETURN);
    proof {
        assert(buf@ =~= seq![command_byte(Command::Close), CARRIAGE_RETURN]);
    }
    buf
}

} // verus!
