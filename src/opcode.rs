use vstd::prelude::*;

verus! {

/// WebSocket opcodes, one variant for each 4-bit value.
#[derive(Debug, Clone, Copy, PartialEq, Eq, Structural)]
pub enum Opcode {
    /// Continuation frame.
    Continuation,
    /// Text frame.
    Text,
    /// Binary frame.
    Binary,
    /// Reserved for future non-control frames.
    Reserved3,
    /// Reserved for future non-control frames.
    Reserved4,
    /// Reserved for future non-control frames.
    Reserved5,
    /// Reserved for future non-control frames.
    Reserved6,
    /// Reserved for future non-control frames.
    Reserved7,
    /// Connection close.
    Close,
    /// Ping.
    Ping,
    /// Pong.
    Pong,
    /// Reserved for future control frames.
    ReservedB,
    /// Reserved for future control frames.
    ReservedC,
    /// Reserved for future control frames.
    ReservedD,
    /// Reserved for future control frames.
    ReservedE,
    /// Reserved for future control frames.
    ReservedF,
}

/// The nibble that stands for an opcode on the wire.
pub open spec fn opcode_value(op: Opcode) -> u8 {
    match op {
        Opcode::Continuation => 0x0,
        Opcode::Text => 0x1,
        Opcode::Binary => 0x2,
        Opcode::Reserved3 => 0x3,
        Opcode::Reserved4 => 0x4,
        Opcode::Reserved5 => 0x5,
        Opcode::Reserved6 => 0x6,
        Opcode::Reserved7 => 0x7,
        Opcode::Close => 0x8,
        Opcode::Ping => 0x9,
        Opcode::Pong => 0xA,
        Opcode::ReservedB => 0xB,
        Opcode::ReservedC => 0xC,
        Opcode::ReservedD => 0xD,
        Opcode::ReservedE => 0xE,
        Opcode::ReservedF => 0xF,
    }
}

/// The opcode of a nibble.
pub open spec fn opcode_of(x: u8) -> Opcode
    recommends
        x <= 15,
{
    if x == 0 {
        Opcode::Continuation
    } else if x == 1 {
        Opcode::Text
    } else if x == 2 {
        Opcode::Binary
    } else if x == 3 {
        Opcode::Reserved3
    } else if x == 4 {
        Opcode::Reserved4
    } else if x == 5 {
        Opcode::Reserved5
    } else if x == 6 {
        Opcode::Reserved6
    } else if x == 7 {
        Opcode::Reserved7
    } else if x == 8 {
        Opcode::Close
    } else if x == 9 {
        Opcode::Ping
    } else if x == 10 {
        Opcode::Pong
    } else if x == 11 {
        Opcode::ReservedB
    } else if x == 12 {
        Opcode::ReservedC
    } else if x == 13 {
        Opcode::ReservedD
    } else if x == 14 {
        Opcode::ReservedE
    } else {
        Opcode::ReservedF
    }
}

/// Every nibble names an opcode whose nibble it is, and every opcode is
/// named by its own nibble.
pub proof fn lemma_opcode_round_trip(x: u8, op: Opcode)
    requires
        x <= 15,
    ensures
        opcode_value(opcode_of(x)) == x,
        opcode_of(opcode_value(op)) == op,
{
}

/// Failure to read an opcode from an integer.
#[derive(Debug, Clone, Copy, PartialEq, Eq, Structural)]
pub enum OpcodeParseError {
    InvalidOpcode(u8),
}

impl Opcode {
    /// True for the control opcodes, those with the high bit of the nibble set.
    pub fn is_control(self) -> (r: bool)
        ensures
            r == (opcode_value(self) & 0x8 == 0x8),
            r == (opcode_value(self) >= 8),
    {
        let v = self.as_u8();
        assert(v & 0x8 == 0x8 <==> v >= 8) by (bit_vector)
            requires
                v <= 15,
        ;
        v & 0x8 == 0x8
    }

    /// True for the data opcodes: continuation, text and binary.
    pub fn is_data(self) -> (r: bool)
        ensures
            r == (opcode_value(self) <= 2),
    {
        matches!(self, Opcode::Continuation | Opcode::Text | Opcode::Binary)
    }

    /// True for the opcodes that are neither data nor close, ping or pong.
    pub fn is_reserved(self) -> (r: bool)
        ensures
            r == (3 <= opcode_value(self) <= 7 || opcode_value(self) >= 11),
    {
        !self.is_data() && !matches!(self, Opcode::Close | Opcode::Ping | Opcode::Pong)
    }

    /// The nibble of this opcode.
    pub fn as_u8(self) -> (r: u8)
        ensures
            r == opcode_value(self),
            r <= 15,
    {
        match self {
            Opcode::Continuation => 0x0,
            Opcode::Text => 0x1,
            Opcode::Binary => 0x2,
            Opcode::Reserved3 => 0x3,
            Opcode::Reserved4 => 0x4,
            Opcode::Reserved5 => 0x5,
            Opcode::Reserved6 => 0x6,
            Opcode::Reserved7 => 0x7,
            Opcode::Close => 0x8,
            Opcode::Ping => 0x9,
            Opcode::Pong => 0xA,
            Opcode::ReservedB => 0xB,
            Opcode::ReservedC => 0xC,
            Opcode::ReservedD => 0xD,
            Opcode::ReservedE => 0xE,
            Opcode::ReservedF => 0xF,
        }
    }

    /// The opcode of a nibble; any larger value is refused.
    pub fn from_u8(value: u8) -> (r: Result<Opcode, OpcodeParseError>)
        ensures
            value <= 15 ==> r == Ok::<Opcode, OpcodeParseError>(opcode_of(value)),
            value <= 15 ==> r is Ok && opcode_value(r->Ok_0) == value,
            value > 15 ==> r == Err::<Opcode, OpcodeParseError>(
                OpcodeParseError::InvalidOpcode(value),
            ),
    {
        match value {
            0x0 => Ok(Opcode::Continuation),
            0x1 => Ok(Opcode::Text),
            0x2 => Ok(Opcode::Binary),
            0x3 => Ok(Opcode::Reserved3),
            0x4 => Ok(Opcode::Reserved4),
            0x5 => Ok(Opcode::Reserved5),
            0x6 => Ok(Opcode::Reserved6),
            0x7 => Ok(Opcode::Reserved7),
            0x8 => Ok(Opcode::Close),
            0x9 => Ok(Opcode::Ping),
            0xA => Ok(Opcode::Pong),
            0xB => Ok(Opcode::ReservedB),
            0xC => Ok(Opcode::ReservedC),
            0xD => Ok(Opcode::ReservedD),
            0xE => Ok(Opcode::ReservedE),
            0xF => Ok(Opcode::ReservedF),
            _ => Err(OpcodeParseError::InvalidOpcode(value)),
        }
    }
}

} // verus!
