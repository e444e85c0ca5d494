//! Data model: CAN identifiers, frames, bit rates, command letters and the
//! codec's error taxonomy.

use vstd::prelude::*;

verus! {

/// A CAN arbitration identifier: 11-bit standard or 29-bit extended.
///
/// The class determines both the command letter on the wire and the fixed
/// hex width of the encoded value (3 digits standard, 8 digits extended).
#[derive(Clone, Copy, Debug, PartialEq, Eq, Structural)]
pub enum Id {
    Standard(u16),
    Extended(u32),
}

impl Id {
    /// The identifier value lies within its class's range.
    pub open spec fn wf(self) -> bool {
        match self {
            Id::Standard(v) => v <= 0x7FF,
            Id::Extended(v) => v <= 0x1FFF_FFFF,
        }
    }

    /// Builds a standard (11-bit) identifier; fails on an out-of-range value
    /// rather than truncating it.
    pub fn standard(raw: u16) -> (r: Option<Id>)
        ensures
            raw <= 0x7FF ==> r == Some(Id::Standard(raw)),
            raw > 0x7FF ==> r is None,
            r matches Some(id) ==> id.wf(),
    {
        if raw <= 0x7FF {
            Some(Id::Standard(raw))
        } else {
            None
        }
    }

    /// Builds an extended (29-bit) identifier; fails on an out-of-range value
    /// rather than truncating it.
    pub fn extended(raw: u32) -> (r: Option<Id>)
        ensures
            raw <= 0x1FFF_FFFF ==> r == Some(Id::Extended(raw)),
            raw > 0x1FFF_FFFF ==> r is None,
            r matches Some(id) ==> id.wf(),
    {
        if raw <= 0x1FFF_FFFF {
            Some(Id::Extended(raw))
        } else {
            None
        }
    }
}

/// A CAN data frame: identifier, declared length 0..=8, and a fixed 8-byte
/// payload container of which only the first `dlc` bytes are meaningful.
#[derive(Clone, Copy, Debug)]
pub struct CanFrame {
    pub id: Id,
    pub dlc: usize,
    pub data: [u8; 8],
}

impl PartialEq for CanFrame {
    fn eq(&self, other: &CanFrame) -> (r: bool) {
        if !(self.id == other.id && self.dlc == other.dlc) {
            return false;
        }
        let mut i: usize = 0;
        while i < 8
            invariant
                i <= 8,
                forall|j: int| 0 <= j < i ==> self.data@[j] == other.data@[j],
            decreases 8 - i,
        {
            if self.data[i] != other.data[i] {
                return false;
            }
            i += 1;
        }
        proof {
            assert(self.data@ =~= other.data@);
        }
        true
    }
}

impl vstd::std_specs::cmp::PartialEqSpecImpl for CanFrame {
    open spec fn obeys_eq_spec() -> bool {
        true
    }

    open spec fn eq_spec(&self, other: &CanFrame) -> bool {
        self.id == other.id && self.dlc == other.dlc && self.data@ == other.data@
    }
}

impl CanFrame {
    /// The frame invariant: a valid identifier and a length of at most 8.
    pub open spec fn wf(self) -> bool {
        self.id.wf() && self.dlc <= 8
    }

    /// Builds a frame from an identifier, a declared length and the payload
    /// bytes; bytes past the payload are zero.
    pub fn new(id: Id, dlc: usize, data: &[u8]) -> (r: CanFrame)
        requires
            dlc <= 8,
            data@.len() <= 8,
        ensures
            r.id == id,
            r.dlc == dlc,
            r.data@.take(data@.len() as int) == data@,
            forall|i: int| data@.len() <= i < 8 ==> r.data@[i] == 0,
    {
        let mut copy: [u8; 8] = [0, 0, 0, 0, 0, 0, 0, 0];
        let mut i: usize = 0;
        while i < data.len()
            invariant
                i <= data@.len(),
                data@.len() <= 8,
                copy@.len() == 8,
                forall|j: int| 0 <= j < i ==> copy@[j] == data@[j],
                forall|j: int| i <= j < 8 ==> copy@[j] == 0,
            decreases data@.len() - i,
        {
            copy[i] = data[i];
            i += 1;
        }
        proof {
            assert(copy@.take(data@.len() as int) =~= data@);
        }
        CanFrame { id, dlc, data: copy }
    }
}

/// The nine standard CAN bit rates, each written on the wire as a single
/// ASCII digit `0`..`8`.
#[derive(Clone, Copy, Debug, PartialEq, Eq, Structural)]
pub enum BitRate {
    Setup10Kbit,
    Setup20Kbit,
    Setup50Kbit,
    Setup100Kbit,
    Setup125Kbit,
    Setup250Kbit,
    Setup500Kbit,
    Setup800Kbit,
    Setup1Mbit,
}

/// The ASCII digit that stands for a bit rate in a Setup command.
pub open spec fn bit_rate_digit(b: BitRate) -> u8 {
    match b {
        BitRate::Setup10Kbit => 48,
        BitRate::Setup20Kbit => 49,
        BitRate::Setup50Kbit => 50,
        BitRate::Setup100Kbit => 51,
        BitRate::Setup125Kbit => 52,
        BitRate::Setup250Kbit => 53,
        BitRate::Setup500Kbit => 54,
        BitRate::Setup800Kbit => 55,
        BitRate::Setup1Mbit => 56,
    }
}

impl BitRate {
    /// The ASCII digit for this bit rate.
    pub fn digit(&self) -> (r: u8)
        ensures
            r == bit_rate_digit(*self),
    {
        match self {
            BitRate::Setup10Kbit => 48,
            BitRate::Setup20Kbit => 49,
            BitRate::Setup50Kbit => 50,
            BitRate::Setup100Kbit => 51,
            BitRate::Setup125Kbit => 52,
            BitRate::Setup250Kbit => 53,
            BitRate::Setup500Kbit => 54,
            BitRate::Setup800Kbit => 55,
            BitRate::Setup1Mbit => 56,
        }
    }
}

/// The SLCAN command letters this codec speaks.
#[derive(Clone, Copy, Debug, PartialEq, Eq, Structural)]
pub enum Command {
    /// Set the bit rate (`S`).
    Setup,
    /// Open the channel (`O`).
    Open,
    /// Close the channel (`C`).
    Close,
    /// Transmit a standard (11-bit) frame (`t`).
    TransmitStandardFrame,
    /// Transmit an extended (29-bit) frame (`T`).
    TransmitExtendedFrame,
}

/// The ASCII letter that stands for a command.
pub open spec fn command_byte(c: Command) -> u8 {
    match c {
        Command::Setup => 83,
        Command::Open => 79,
        Command::Close => 67,
        Command::TransmitStandardFrame => 116,
        Command::TransmitExtendedFrame => 84,
    }
}

impl Command {
    /// The ASCII letter for this command.
    pub fn byte(&self) -> (r: u8)
        ensures
            r == command_byte(*self),
    {
        match self {
            Command::Setup => 83,
            Command::Open => 79,
            Command::Close => 67,
            Command::TransmitStandardFrame => 116,
            Command::TransmitExtendedFrame => 84,
        }
    }

    /// Reads a command letter; any other byte is rejected, never guessed.
    pub fn try_from(value: u8) -> (r: Result<Command, CodecError>)
        ensures
            value == 83 ==> r == Ok::<Command, CodecError>(Command::Setup),
            value == 79 ==> r == Ok::<Command, CodecError>(Command::Open),
            value == 67 ==> r == Ok::<Command, CodecError>(Command::Close),
            value == 116 ==> r == Ok::<Command, CodecError>(Command::TransmitStandardFrame),
            value == 84 ==> r == Ok::<Command, CodecError>(Command::TransmitExtendedFrame),
            (value != 83 && value != 79 && value != 67 && value != 116 && value != 84) ==> r
                == Err::<Command, CodecError>(CodecError::UnsupportedCommand),
    {
        if value == 83 {
            Ok(Command::Setup)
        } else if value == 79 {
            Ok(Command::Open)
        } else if value == 67 {
            Ok(Command::Close)
        } else if value == 116 {
            Ok(Command::TransmitStandardFrame)
        } else if value == 84 {
            Ok(Command::TransmitExtendedFrame)
        } else {
            Err(CodecError::UnsupportedCommand)
        }
    }
}

/// Why one line could not be encoded or decoded. Every variant is local to
/// its line: the next line starts fresh.
#[derive(Clone, Copy, Debug, PartialEq, Eq, Structural)]
pub enum CodecError {
    /// A byte where a hex digit was expected is not one.
    MalformedHex,
    /// A decoded identifier value lies outside its class's range.
    IdentifierOutOfRange,
    /// A payload length outside 0..=8.
    InvalidLength,
    /// A leading byte that is not a data-frame command; the line is skipped.
    UnsupportedCommand,
}

} // verus!
