//! Line decoder: parses one complete, delimiter-stripped SLCAN line into a
//! structured CAN frame, or rejects it with a local-line error.

use crate::encode::frame_line;
use crate::hex::hex_char_of;
use crate::hex::hex_enc;
use crate::hex::hex_num;
use crate::hex::hex_pairs;
use crate::hex::hex_seq_valid;
use crate::hex::hex_val;
use crate::hex::hextou16;
use crate::hex::hextou32;
use crate::hex::hextou8;
use crate::hex::is_hex_digit;
use crate::hex::lemma_hex_char_val;
use crate::hex::lemma_hex_enc;
use crate::hex::lemma_pairs_round_trip;
use crate::hex::lemma_pow16_values;
use crate::hex::pairs_to_bytes;
use crate::hex::unpack_data;
use crate::types::command_byte;
use crate::types::CanFrame;
use crate::types::CodecError;
use crate::types::Command;
use crate::types::Id;
use vstd::prelude::*;

verus! {

/// The largest identifier value of a class, by the width of its hex field.
pub open spec fn max_id(idw: int) -> int {
    if idw == 3 {
        0x7FF
    } else {
        0x1FFF_FFFF
    }
}

/// The identifier of a class, by the width of its hex field.
pub open spec fn mk_id(idw: int, v: int) -> Id {
    if idw == 3 {
        Id::Standard(v as u16)
    } else {
        Id::Extended(v as u32)
    }
}

/// What decoding a data-frame line yields once the command letter says the
/// identifier field is `idw` digits wide: the identifier and payload, or the
/// first failure in field order (identifier digits, identifier range, length
/// digit, payload digits).
pub open spec fn spec_decode_data(s: Seq<u8>, idw: int) -> Result<(Id, Seq<u8>), CodecError> {
    if s.len() < idw + 2 {
        Err(CodecError::MalformedHex)
    } else {
        let idd = s.subrange(1, 1 + idw);
        if !hex_seq_valid(idd) {
            Err(CodecError::MalformedHex)
        } else if hex_num(idd) > max_id(idw) {
            Err(CodecError::IdentifierOutOfRange)
        } else if !is_hex_digit(s[1 + idw]) {
            Err(CodecError::MalformedHex)
        } else if hex_val(s[1 + idw]) > 8 {
            Err(CodecError::InvalidLength)
        } else {
            let dlc = hex_val(s[1 + idw]);
            if s.len() < 2 + idw + 2 * dlc {
                Err(CodecError::MalformedHex)
            } else {
                let dd = s.subrange(2 + idw, 2 + idw + 2 * dlc);
                if !hex_seq_valid(dd) {
                    Err(CodecError::MalformedHex)
                } else {
                    Ok((mk_id(idw, hex_num(idd)), pairs_to_bytes(dd)))
                }
            }
        }
    }
}

/// What decoding one delimiter-stripped line yields: a data frame's
/// identifier and payload, or the error for that line. Any leading byte
/// other than `t` or `T` is not a data frame.
pub open spec fn spec_decode(s: Seq<u8>) -> Result<(Id, Seq<u8>), CodecError> {
    if s.len() == 0 {
        Err(CodecError::UnsupportedCommand)
    } else if s[0] == command_byte(Command::TransmitStandardFrame) {
        spec_decode_data(s, 3)
    } else if s[0] == command_byte(Command::TransmitExtendedFrame) {
        spec_decode_data(s, 8)
    } else {
        Err(CodecError::UnsupportedCommand)
    }
}

/// The frame value carries exactly this identifier and payload: declared
/// length and meaningful bytes match, and the container is zero past them.
pub open spec fn frame_matches(f: CanFrame, id: Id, payload: Seq<u8>) -> bool {
    &&& f.id == id
    &&& f.dlc == payload.len()
    &&& f.data@.take(payload.len() as int) == payload
    &&& forall|i: int| payload.len() <= i < 8 ==> f.data@[i] == 0
}

/// The decoder's result agrees with `spec_decode` on this line.
pub open spec fn decode_rel(s: Seq<u8>, r: Result<CanFrame, CodecError>) -> bool {
    match spec_decode(s) {
        Ok((id, payload)) => r matches Ok(f) && frame_matches(f, id, payload),
        Err(e) => r == Err::<CanFrame, CodecError>(e),
    }
}

/// Parses one complete, delimiter-stripped line. Only transmit commands
/// decode to frames; every failure is local to this line.
pub fn decode_line(line: &[u8]) -> (r: Result<CanFrame, CodecError>)
    ensures
        decode_rel(line@, r),
{
    if line.len() == 0 {
        return Err(CodecError::UnsupportedCommand);
    }
    match Command::try_from(line[0]) {
        Ok(Command::TransmitStandardFrame) => {
            if line.len() < 5 {
                return Err(CodecError::MalformedHex);
            }
            let idd = vstd::slice::slice_subrange(line, 1, 4);
            let idv = match hextou16(idd) {
                Ok(v) => v,
                Err(()) => {
                    return Err(CodecError::MalformedHex);
                },
            };
            if idv > 0x7FF {
                return Err(CodecError::IdentifierOutOfRange);
            }
            let dl = match hextou8(line[4]) {
                Ok(d) => d,
                Err(()) => {
                    return Err(CodecError::MalformedHex);
                },
            };
            if dl > 8 {
                return Err(CodecError::InvalidLength);
            }
            let dlc = dl as usize;
            if line.len() < 5 + 2 * dlc {
                return Err(CodecError::MalformedHex);
            }
            let data = match unpack_data(line, 5, dlc) {
                Ok(d) => d,
                Err(()) => {
                    return Err(CodecError::MalformedHex);
                },
            };
            Ok(CanFrame { id: Id::Standard(idv), dlc, data })
        },
        Ok(Command::TransmitExtendedFrame) => {
            if line.len() < 10 {
                return Err(CodecError::MalformedHex);
            }
            let idd = vstd::slice::slice_subrange(line, 1, 9);
            let idv = match hextou32(idd) {
                Ok(v) => v,
                Err(()) => {
                    return Err(CodecError::MalformedHex);
                },
            };
            if idv > 0x1FFF_FFFF {
                return Err(CodecError::IdentifierOutOfRange);
            }
            let dl = match hextou8(line[9]) {
                Ok(d) => d,
                Err(()) => {
                    return Err(CodecError::MalformedHex);
                },
            };
            if dl > 8 {
                return Err(CodecError::InvalidLength);
            }
            let dlc = dl as usize;
            if line.len() < 10 + 2 * dlc {
                return Err(CodecError::MalformedHex);
            }
            let data = match unpack_data(line, 10, dlc) {
                Ok(d) => d,
                Err(()) => {
                    return Err(CodecError::MalformedHex);
                },
            };
            Ok(CanFrame { id: Id::Extended(idv), dlc, data })
        },
        _ => Err(CodecError::UnsupportedCommand),
    }
}

/// Round trip: decoding an encoded data-frame line yields exactly the
/// identifier and payload that went in, for every in-range identifier and
/// every payload of length 0..=8.
pub proof fn lemma_round_trip(id: Id, data: Seq<u8>)
    requires
        id.wf(),
        data.len() <= 8,
    ensures
        spec_decode(frame_line(id, data)) == Ok::<(Id, Seq<u8>), CodecError>((id, data)),
{
    lemma_pairs_round_trip(data);
    lemma_pow16_values();
    lemma_hex_char_val(data.len() as int);
    let s = frame_line(id, data);
    match id {
        Id::Standard(v) => {
            lemma_hex_enc(v as int, 3);
            assert(s.len() == 5 + 2 * data.len());
            assert(s[0] == command_byte(Command::TransmitStandardFrame));
            assert(s.subrange(1, 4) =~= hex_enc(v as int, 3));
            assert(hex_num(s.subrange(1, 4)) == v);
            assert(s[4] == hex_char_of(data.len() as int));
            assert(hex_val(s[4]) == data.len());
            assert(s.subrange(5, 5 + 2 * data.len() as int) =~= hex_pairs(data));
            assert(mk_id(3, hex_num(s.subrange(1, 4))) == id);
            assert(pairs_to_bytes(s.subrange(5, 5 + 2 * data.len() as int)) == data);
        },
        Id::Extended(v) => {
            lemma_hex_enc(v as int, 8);
            assert(s.len() == 10 + 2 * data.len());
            assert(s[0] == command_byte(Command::TransmitExtendedFrame));
            assert(s.subrange(1, 9) =~= hex_enc(v as int, 8));
            assert(hex_num(s.subrange(1, 9)) == v);
            assert(s[9] == hex_char_of(data.len() as int));
            assert(hex_val(s[9]) == data.len());
            assert(s.subrange(10, 10 + 2 * data.len() as int) =~= hex_pairs(data));
            assert(mk_id(8, hex_num(s.subrange(1, 9))) == id);
            assert(pairs_to_bytes(s.subrange(10, 10 + 2 * data.len() as int)) == data);
        },
    }
}

} // verus!
