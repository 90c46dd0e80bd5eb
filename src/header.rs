use vstd::prelude::*;

use crate::opcode::{Opcode, opcode_of};

verus! {

/// A rule of the frame header that an incoming frame broke.
#[derive(Debug, Clone, Copy, PartialEq, Eq, Structural)]
pub enum Violation {
    ReservedBits,
    MaskedFrame,
    ReservedOpcode,
    ControlTooLarge,
    FragmentedControl,
    MissingCloseReason,
    /// The declared payload length cannot be addressed in memory.
    FrameTooLong,
}

/// The text that reports a violation.
pub open spec fn violation_text(v: Violation) -> Seq<char> {
    match v {
        Violation::ReservedBits => "Reserve bit must be 0."@,
        Violation::MaskedFrame => "Server to client communication should be unmasked."@,
        Violation::ReservedOpcode => "Use of reserved opcode."@,
        Violation::ControlTooLarge => "Control frame larger than 125 bytes."@,
        Violation::FragmentedControl => "Control frame cannot be fragmented."@,
        Violation::MissingCloseReason => "Close frame with a missing close reason byte."@,
        Violation::FrameTooLong => "Frame length does not fit in memory."@,
    }
}

impl Violation {
    /// The message that reports this violation.
    pub fn message(self) -> (r: &'static str)
        ensures
            r@ == violation_text(self),
    {
        proof {
            reveal_strlit("Reserve bit must be 0.");
            reveal_strlit("Server to client communication should be unmasked.");
            reveal_strlit("Use of reserved opcode.");
            reveal_strlit("Control frame larger than 125 bytes.");
            reveal_strlit("Control frame cannot be fragmented.");
            reveal_strlit("Close frame with a missing close reason byte.");
            reveal_strlit("Frame length does not fit in memory.");
        }
        match self {
            Violation::ReservedBits => "Reserve bit must be 0.",
            Violation::MaskedFrame => "Server to client communication should be unmasked.",
            Violation::ReservedOpcode => "Use of reserved opcode.",
            Violation::ControlTooLarge => "Control frame larger than 125 bytes.",
            Violation::FragmentedControl => "Control frame cannot be fragmented.",
            Violation::MissingCloseReason => "Close frame with a missing close reason byte.",
            Violation::FrameTooLong => "Frame length does not fit in memory.",
        }
    }
}

/// The first rule, in the order they are checked, that the two header bytes
/// of an incoming frame break.
pub open spec fn header_violation(b1: u8, b2: u8) -> Option<Violation> {
    let fin = b1 & 0x80 != 0;
    let op = b1 & 0x0F;
    let len = b2 & 0x7F;
    if b1 & 0x70 != 0 {
        Some(Violation::ReservedBits)
    } else if b2 & 0x80 != 0 {
        Some(Violation::MaskedFrame)
    } else if (3 <= op <= 7) || op >= 11 {
        Some(Violation::ReservedOpcode)
    } else if op == 8 && len == 1 {
        Some(Violation::MissingCloseReason)
    } else if op >= 8 && len > 125 {
        Some(Violation::ControlTooLarge)
    } else if op >= 8 && !fin {
        Some(Violation::FragmentedControl)
    } else {
        None
    }
}

/// The fields of a valid two-byte frame header.
#[derive(Debug, Clone, Copy, PartialEq, Eq, Structural)]
pub struct BaseHeader {
    pub fin: bool,
    pub opcode: Opcode,
    /// The 7-bit length: the payload length, or 126 / 127 for an extended one.
    pub len7: u8,
}

/// The fields that the two header bytes carry.
pub open spec fn base_header(b1: u8, b2: u8) -> BaseHeader {
    BaseHeader { fin: b1 & 0x80 != 0, opcode: opcode_of(b1 & 0x0F), len7: b2 & 0x7F }
}

/// Reads and checks the two header bytes of an incoming frame.
pub fn parse_base_header(b1: u8, b2: u8) -> (r: Result<BaseHeader, Violation>)
    ensures
        header_violation(b1, b2) is Some ==> r == Err::<BaseHeader, Violation>(
            header_violation(b1, b2)->Some_0,
        ),
        header_violation(b1, b2) is None ==> r == Ok::<BaseHeader, Violation>(
            base_header(b1, b2),
        ),
{
    let fin = b1 & 0x80 != 0;
    let op = b1 & 0x0F;
    let len = b2 & 0x7F;
    assert(b1 & 0x0F <= 15) by (bit_vector);
    if b1 & 0x70 != 0 {
        return Err(Violation::ReservedBits);
    }
    if b2 & 0x80 != 0 {
        return Err(Violation::MaskedFrame);
    }
    let opcode = match Opcode::from_u8(op) {
        Ok(o) => o,
        Err(_) => return Err(Violation::ReservedOpcode),
    };
    if opcode.is_reserved() {
        return Err(Violation::ReservedOpcode);
    }
    if op == 8 && len == 1 {
        return Err(Violation::MissingCloseReason);
    }
    if opcode.is_control() {
        if len > 125 {
            return Err(Violation::ControlTooLarge);
        }
        if !fin {
            return Err(Violation::FragmentedControl);
        }
    }
    Ok(BaseHeader { fin, opcode, len7: len })
}

/// The number that bytes spell in big-endian order.
pub open spec fn be_value(s: Seq<u8>) -> nat
    decreases s.len(),
{
    if s.len() == 0 {
        0
    } else {
        be_value(s.drop_last()) * 256 + s.last() as nat
    }
}

/// Size of the extended length field that a 7-bit length announces.
pub open spec fn ext_len(len7: u8) -> nat {
    if len7 == 126 {
        2
    } else if len7 == 127 {
        8
    } else {
        0
    }
}

/// What to do next with the unparsed bytes of a receive buffer.
#[derive(Debug, Clone, Copy, PartialEq, Eq, Structural)]
pub enum ReadStep {
    /// Read more: the next frame needs this many unparsed bytes in all.
    Need(usize),
    /// A whole frame: its payload is `buf[start..start + len]`, and the
    /// frame ends there.
    Ready { header: BaseHeader, start: usize, len: usize },
    /// The frame breaks a rule; only its two header bytes count as consumed.
    Broken(Violation),
}

/// The next step on `buf` whose bytes before `consumed` are already parsed.
pub open spec fn read_step(buf: Seq<u8>, consumed: nat) -> ReadStep
    recommends
        consumed <= buf.len(),
{
    let avail = buf.len() - consumed;
    if avail < 2 {
        ReadStep::Need(2)
    } else {
        let b1 = buf[consumed as int];
        let b2 = buf[consumed + 1int];
        if header_violation(b1, b2) is Some {
            ReadStep::Broken(header_violation(b1, b2)->Some_0)
        } else {
            let h = base_header(b1, b2);
            let ext = ext_len(h.len7);
            if avail < 2 + ext {
                ReadStep::Need((2 + ext) as usize)
            } else {
                let len = if ext == 0 {
                    h.len7 as nat
                } else {
                    be_value(buf.subrange(consumed + 2int, consumed + 2 + ext as int))
                };
                if consumed + 2 + ext + len > usize::MAX {
                    ReadStep::Broken(Violation::FrameTooLong)
                } else if avail < 2 + ext + len {
                    ReadStep::Need((2 + ext + len) as usize)
                } else {
                    ReadStep::Ready {
                        header: h,
                        start: (consumed + 2 + ext) as usize,
                        len: len as usize,
                    }
                }
            }
        }
    }
}

proof fn lemma_be_value_bound(s: Seq<u8>)
    ensures
        be_value(s) < pow256(s.len()),
    decreases s.len(),
{
    if s.len() > 0 {
        lemma_be_value_bound(s.drop_last());
        let p = pow256((s.len() - 1) as nat);
        let v = be_value(s.drop_last());
        let b = s.last() as nat;
        assert(v * 256 + b < p * 256) by (nonlinear_arith)
            requires
                v < p,
                b < 256,
        ;
    }
}

spec fn pow256(n: nat) -> nat
    decreases n,
{
    if n == 0 {
        1
    } else {
        pow256((n - 1) as nat) * 256
    }
}

/// The big-endian number of `buf[from..from + n]`.
fn read_be(buf: &[u8], from: usize, n: usize) -> (r: u64)
    requires
        from + n <= buf@.len(),
        n <= 8,
    ensures
        r as nat == be_value(buf@.subrange(from as int, from + n)),
{
    let mut v: u64 = 0;
    let mut k: usize = 0;
    assert(buf@.len() == buf.len());
    while k < n
        invariant
            k <= n <= 8,
            from + n <= buf@.len() <= usize::MAX,
            v as nat == be_value(buf@.subrange(from as int, from + k)),
        decreases n - k,
    {
        let ghost prefix = buf@.subrange(from as int, from + k);
        proof {
            lemma_be_value_bound(prefix);
            assert(pow256(k as nat) <= pow256(7)) by {
                lemma_pow256_mono(k as nat, 7);
            }
            reveal_with_fuel(pow256, 8);
            assert(pow256(7) == 0x100000000000000);
        }
        v = v * 256 + buf[from + k] as u64;
        k = k + 1;
        assert(buf@.subrange(from as int, from + k).drop_last() =~= prefix);
    }
    v
}

proof fn lemma_pow256_mono(a: nat, b: nat)
    requires
        a <= b,
    ensures
        pow256(a) <= pow256(b),
    decreases b,
{
    if a < b {
        lemma_pow256_mono(a, (b - 1) as nat);
    }
}

/// The next step on a receive buffer whose first `consumed` bytes are parsed.
pub fn next_read_step(buf: &[u8], consumed: usize) -> (r: ReadStep)
    requires
        consumed <= buf@.len(),
    ensures
        r == read_step(buf@, consumed as nat),
{
    let avail = buf.len() - consumed;
    if avail < 2 {
        return ReadStep::Need(2);
    }
    let b1 = buf[consumed];
    let b2 = buf[consumed + 1];
    let h = match parse_base_header(b1, b2) {
        Ok(h) => h,
        Err(v) => return ReadStep::Broken(v),
    };
    let ext: usize = if h.len7 == 126 {
        2
    } else if h.len7 == 127 {
        8
    } else {
        0
    };
    if avail < 2 + ext {
        return ReadStep::Need(2 + ext);
    }
    let len: u64 = if ext == 0 {
        h.len7 as u64
    } else {
        read_be(buf, consumed + 2, ext)
    };
    let head = consumed + 2 + ext;
    if len > (usize::MAX - head) as u64 {
        return ReadStep::Broken(Violation::FrameTooLong);
    }
    let len = len as usize;
    if avail - (2 + ext) < len {
        return ReadStep::Need(2 + ext + len);
    }
    ReadStep::Ready { header: h, start: head, len }
}

/// Size of one read from the stream.
pub const CHUNK_SIZE: usize = 4096;

/// Whether to drop the parsed prefix of the receive buffer before reading
/// more: only when some of it is parsed and less than a chunk of room is left.
pub fn should_compact(len: usize, capacity: usize, consumed: usize) -> (r: bool)
    ensures
        r == (consumed > 0 && len as int > capacity as int - CHUNK_SIZE as int),
{
    consumed > 0 && (capacity < CHUNK_SIZE || len > capacity - CHUNK_SIZE)
}

/// Whether the buffer must be filled further before `n` more bytes past
/// `consumed` can be parsed.
pub fn needs_read(len: usize, consumed: usize, n: usize) -> (r: bool)
    ensures
        r == (len < consumed + n),
{
    consumed > len || n > len - consumed
}

} // verus!
