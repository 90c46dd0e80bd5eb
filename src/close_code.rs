use vstd::prelude::*;

verus! {

/// WebSocket close status codes.
#[derive(Debug, Clone, Copy, PartialEq, Eq, Structural)]
pub enum CloseCode {
    /// Normal closure.
    Normal,
    /// The endpoint is going away.
    GoingAway,
    /// The connection ends on a protocol error.
    ProtocolError,
    /// A type of data that cannot be accepted was received.
    UnsupportedData,
    /// Reserved.
    Reserved,
    /// Stands for the absence of a status code; never sent.
    NoStatusReceived,
    /// Stands for an abnormal closure; never sent.
    Abnormal,
    /// Payload data inconsistent with the message type.
    InvalidFramePayloadData,
    /// A policy was violated.
    PolicyViolation,
    /// A message too big to process.
    MessageTooBig,
    /// An expected extension was not negotiated.
    MandatoryExtension,
    /// The server met an unexpected condition.
    InternalError,
    /// The service is restarting.
    ServiceRestart,
    /// The service is overloaded.
    TryAgainLater,
    /// A gateway got an invalid upstream response.
    BadGateway,
    /// The TLS handshake failed; never sent.
    TlsHandshake,
    /// 3000 to 3999: codes of libraries, frameworks and applications.
    Library(u16),
    /// 4000 to 4999: codes for private use.
    Private(u16),
}

/// The integer of a close code.
pub open spec fn close_code_value(c: CloseCode) -> u16 {
    match c {
        CloseCode::Normal => 1000,
        CloseCode::GoingAway => 1001,
        CloseCode::ProtocolError => 1002,
        CloseCode::UnsupportedData => 1003,
        CloseCode::Reserved => 1004,
        CloseCode::NoStatusReceived => 1005,
        CloseCode::Abnormal => 1006,
        CloseCode::InvalidFramePayloadData => 1007,
        CloseCode::PolicyViolation => 1008,
        CloseCode::MessageTooBig => 1009,
        CloseCode::MandatoryExtension => 1010,
        CloseCode::InternalError => 1011,
        CloseCode::ServiceRestart => 1012,
        CloseCode::TryAgainLater => 1013,
        CloseCode::BadGateway => 1014,
        CloseCode::TlsHandshake => 1015,
        CloseCode::Library(code) => code,
        CloseCode::Private(code) => code,
    }
}

/// The integers that name a close code.
pub open spec fn is_close_code_value(x: u16) -> bool {
    (1000 <= x <= 1015) || (3000 <= x <= 4999)
}

/// A close code whose ranged variants hold a value of their range.
pub open spec fn close_code_wf(c: CloseCode) -> bool {
    match c {
        CloseCode::Library(code) => 3000 <= code <= 3999,
        CloseCode::Private(code) => 4000 <= code <= 4999,
        _ => true,
    }
}

/// Failure to read a close code from an integer.
#[derive(Debug, Clone, Copy, PartialEq, Eq, Structural)]
pub enum CloseCodeParseError {
    InvalidCloseCode(u16),
}

impl CloseCode {
    /// True for 1004, 1005 and 1006, which a peer must not send.
    pub fn is_reserved(self) -> (r: bool)
        ensures
            r == (1004 <= close_code_value(self) <= 1006 && !(self is Library)
                && !(self is Private)),
    {
        matches!(self, CloseCode::Reserved | CloseCode::NoStatusReceived | CloseCode::Abnormal)
    }

    /// The integer of this close code.
    pub fn as_u16(self) -> (r: u16)
        ensures
            r == close_code_value(self),
    {
        match self {
            CloseCode::Normal => 1000,
            CloseCode::GoingAway => 1001,
            CloseCode::ProtocolError => 1002,
            CloseCode::UnsupportedData => 1003,
            CloseCode::Reserved => 1004,
            CloseCode::NoStatusReceived => 1005,
            CloseCode::Abnormal => 1006,
            CloseCode::InvalidFramePayloadData => 1007,
            CloseCode::PolicyViolation => 1008,
            CloseCode::MessageTooBig => 1009,
            CloseCode::MandatoryExtension => 1010,
            CloseCode::InternalError => 1011,
            CloseCode::ServiceRestart => 1012,
            CloseCode::TryAgainLater => 1013,
            CloseCode::BadGateway => 1014,
            CloseCode::TlsHandshake => 1015,
            CloseCode::Library(code) => code,
            CloseCode::Private(code) => code,
        }
    }

    /// The close code of an integer: 1000 to 1015, 3000 to 4999; others are refused.
    pub fn from_u16(value: u16) -> (r: Result<CloseCode, CloseCodeParseError>)
        ensures
            is_close_code_value(value) ==> r is Ok && close_code_value(r->Ok_0) == value
                && close_code_wf(r->Ok_0),
            3000 <= value <= 3999 ==> r == Ok::<CloseCode, CloseCodeParseError>(
                CloseCode::Library(value),
            ),
            4000 <= value <= 4999 ==> r == Ok::<CloseCode, CloseCodeParseError>(
                CloseCode::Private(value),
            ),
            !is_close_code_value(value) ==> r == Err::<CloseCode, CloseCodeParseError>(
                CloseCodeParseError::InvalidCloseCode(value),
            ),
    {
        match value {
            1000 => Ok(CloseCode::Normal),
            1001 => Ok(CloseCode::GoingAway),
            1002 => Ok(CloseCode::ProtocolError),
            1003 => Ok(CloseCode::UnsupportedData),
            1004 => Ok(CloseCode::Reserved),
            1005 => Ok(CloseCode::NoStatusReceived),
            1006 => Ok(CloseCode::Abnormal),
            1007 => Ok(CloseCode::InvalidFramePayloadData),
            1008 => Ok(CloseCode::PolicyViolation),
            1009 => Ok(CloseCode::MessageTooBig),
            1010 => Ok(CloseCode::MandatoryExtension),
            1011 => Ok(CloseCode::InternalError),
            1012 => Ok(CloseCode::ServiceRestart),
            1013 => Ok(CloseCode::TryAgainLater),
            1014 => Ok(CloseCode::BadGateway),
            1015 => Ok(CloseCode::TlsHandshake),
            3000..=3999 => Ok(CloseCode::Library(value)),
            4000..=4999 => Ok(CloseCode::Private(value)),
            _ => Err(CloseCodeParseError::InvalidCloseCode(value)),
        }
    }
}

/// The payload of a close frame that reports a protocol error: the
/// big-endian bytes of 1002.
pub fn protocol_error_payload() -> (r: Vec<u8>)
    ensures
        r@ == seq![0x03u8, 0xEAu8],
        r@[0] as int * 256 + r@[1] as int == close_code_value(CloseCode::ProtocolError),
{
    let code = CloseCode::ProtocolError.as_u16();
    let mut r: Vec<u8> = Vec::new();
    r.push((code / 256) as u8);
    r.push((code % 256) as u8);
    assert(r@ =~= seq![0x03u8, 0xEAu8]);
    r
}

/// Two well-formed close codes with the same integer are the same code, so
/// parsing the integer of a well-formed code gives that code back.
pub proof fn lemma_close_code_round_trip(c: CloseCode, d: CloseCode)
    requires
        close_code_wf(c),
        close_code_wf(d),
        close_code_value(c) == close_code_value(d),
    ensures
        c == d,
        is_close_code_value(close_code_value(c)),
{
}

} // verus!
