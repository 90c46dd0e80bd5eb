use vstd::prelude::*;
use vstd::string::StringSliceAdditionalSpecFns;
use vstd::utf8::valid_utf8;

use crate::header::be_value;
use crate::opcode::{Opcode, lemma_opcode_round_trip, opcode_of, opcode_value};

verus! {

/// Header length of a control frame: two header bytes and the masking key.
pub const CONTROL_HEADER_LEN: usize = 6;

/// Longest header: two header bytes, eight length bytes and the masking key.
pub const MAX_HEADER_LEN: usize = 14;

/// The MASK bit of the second header byte.
pub const MASK_BIT: u8 = 0x80;

/// A borrowed view of one frame.
#[derive(Clone, Copy, Debug)]
pub struct Frame<'a> {
    pub fin: bool,
    pub opcode: Opcode,
    pub data: &'a [u8],
}

/// The payload XORed byte by byte with the key, the key repeating every four bytes.
pub open spec fn masked(data: Seq<u8>, mask: Seq<u8>) -> Seq<u8> {
    Seq::new(data.len(), |i: int| data[i] ^ mask[i % 4])
}

/// The first header byte: FIN in the top bit, the opcode in the low nibble.
pub open spec fn first_byte(fin: bool, op: Opcode) -> u8 {
    if fin {
        (0x80 | opcode_value(op)) as u8
    } else {
        opcode_value(op)
    }
}

/// How many header bytes the narrowest length encoding takes.
pub open spec fn header_len_for(len: nat) -> nat {
    if len <= 125 {
        6
    } else if len <= 65535 {
        8
    } else {
        14
    }
}

/// The big-endian bytes of a 64-bit length.
pub open spec fn be_u64(n: u64) -> Seq<u8> {
    Seq::new(8, |i: int| ((n >> ((7 - i) * 8) as u64) & 0xff) as u8)
}

/// The length field and key of a client frame, narrowest encoding first.
pub open spec fn length_field(len: nat) -> Seq<u8> {
    if len <= 125 {
        seq![(0x80 + len) as u8]
    } else if len <= 65535 {
        seq![0xFEu8, (len / 256) as u8, (len % 256) as u8]
    } else {
        seq![0xFFu8].add(be_u64(len as u64))
    }
}

/// The bytes of a masked client frame.
pub open spec fn encoded(fin: bool, op: Opcode, data: Seq<u8>, mask: Seq<u8>) -> Seq<u8> {
    seq![first_byte(fin, op)].add(length_field(data.len())).add(mask).add(masked(data, mask))
}

/// Masking twice with the same key gives back the payload.
pub proof fn lemma_mask_self_inverse(data: Seq<u8>, mask: Seq<u8>)
    requires
        mask.len() == 4,
    ensures
        masked(masked(data, mask), mask) == data,
{
    assert forall|i: int| 0 <= i < data.len() implies #[trigger] masked(
        masked(data, mask),
        mask,
    )[i] == data[i] by {
        let a = data[i];
        let m = mask[i % 4];
        assert((a ^ m) ^ m == a) by (bit_vector);
    }
    assert(masked(masked(data, mask), mask) =~= data);
}

/// The header of an encoded frame is the narrowest that holds the length:
/// 6 bytes up to 125, 8 up to 65535, 14 beyond; the payload follows it.
pub proof fn lemma_header_minimal(fin: bool, op: Opcode, data: Seq<u8>, mask: Seq<u8>)
    requires
        mask.len() == 4,
        data.len() <= u64::MAX,
    ensures
        encoded(fin, op, data, mask).len() == header_len_for(data.len()) + data.len(),
        encoded(fin, op, data, mask).subrange(
            header_len_for(data.len()) as int,
            encoded(fin, op, data, mask).len() as int,
        ) == masked(data, mask),
        encoded(fin, op, data, mask)[0] == first_byte(fin, op),
{
    let e = encoded(fin, op, data, mask);
    let h = header_len_for(data.len()) as int;
    assert(e.subrange(h, e.len() as int) =~= masked(data, mask));
}

/// Masking one more byte of the payload appends one masked byte.
proof fn lemma_masked_push(src: Seq<u8>, mask: Seq<u8>, i: int)
    requires
        0 <= i < src.len(),
    ensures
        masked(src.subrange(0, i + 1), mask) == masked(src.subrange(0, i), mask).push(
            src[i] ^ mask[i % 4],
        ),
{
    assert(masked(src.subrange(0, i + 1), mask) =~= masked(src.subrange(0, i), mask).push(
        src[i] ^ mask[i % 4],
    ));
}

/// Header length of a client frame, read from its second byte.
pub open spec fn client_header_len(bytes: Seq<u8>) -> nat {
    let len7 = bytes[1] & 0x7F;
    if len7 == 126 {
        8
    } else if len7 == 127 {
        14
    } else {
        6
    }
}

/// Payload length of a client frame, read from its length fields.
pub open spec fn client_payload_len(bytes: Seq<u8>) -> nat {
    let len7 = bytes[1] & 0x7F;
    if len7 == 126 {
        be_value(bytes.subrange(2, 4))
    } else if len7 == 127 {
        be_value(bytes.subrange(2, 10))
    } else {
        len7 as nat
    }
}

/// What a reader of a client frame finds in it: FIN, the opcode and the
/// payload unmasked with the key that precedes it.
pub open spec fn decode_client_frame(bytes: Seq<u8>) -> (bool, Opcode, Seq<u8>) {
    let h = client_header_len(bytes) as int;
    let len = client_payload_len(bytes) as int;
    (
        bytes[0] & 0x80 != 0,
        opcode_of(bytes[0] & 0x0F),
        masked(bytes.subrange(h, h + len), bytes.subrange(h - 4, h)),
    )
}

proof fn lemma_shift_step(n: u64, s: u64)
    requires
        s <= 56,
    ensures
        (n >> s) as int == ((n >> (s + 8) as u64) as int) * 256 + ((n >> s) & 0xff) as int,
{
    assert((n >> s) as int == ((n >> (s + 8) as u64) as int) * 256 + ((n >> s) & 0xff) as int)
        by (bit_vector)
        requires
            s <= 56,
    ;
}

proof fn lemma_be_u64_prefix(n: u64, k: nat)
    requires
        k <= 8,
    ensures
        be_value(be_u64(n).subrange(0, k as int)) == (n >> (64 - 8 * k) as u64) as nat,
    decreases k,
{
    if k == 0 {
        assert(n >> 64u64 == 0) by (bit_vector);
        assert(be_u64(n).subrange(0, 0) =~= Seq::<u8>::empty());
    } else {
        lemma_be_u64_prefix(n, (k - 1) as nat);
        let sub = be_u64(n).subrange(0, k as int);
        assert(sub.drop_last() =~= be_u64(n).subrange(0, k - 1));
        let s = (64 - 8 * k) as u64;
        lemma_shift_step(n, s);
        assert((s + 8) as u64 == (64 - 8 * (k - 1)) as u64);
        let b = ((n >> s) & 0xff) as u8;
        assert(((n >> s) & 0xff) < 256) by (bit_vector);
        assert(sub.last() == b);
    }
}

/// The eight bytes of a 64-bit length read back as that length.
pub proof fn lemma_be_u64_value(n: u64)
    ensures
        be_value(be_u64(n)) == n,
{
    lemma_be_u64_prefix(n, 8);
    assert(be_u64(n).subrange(0, 8) =~= be_u64(n));
    assert(n >> 0u64 == n) by (bit_vector);
}

proof fn lemma_length_field_read_back(b0: u8, len: nat, rest: Seq<u8>)
    requires
        len <= u64::MAX,
        rest.len() >= 4,
    ensures
        ({
            let e = seq![b0].add(length_field(len)).add(rest);
            &&& e[1] & 0x80 != 0
            &&& client_header_len(e) == header_len_for(len)
            &&& client_payload_len(e) == len
        }),
{
    let e = seq![b0].add(length_field(len)).add(rest);
    if len <= 125 {
        let l = len as u8;
        assert(((0x80 + l) as u8) & 0x7F == l && ((0x80 + l) as u8) & 0x80 != 0) by (bit_vector)
            requires
                l <= 125,
        ;
        assert(e[1] == (0x80 + l) as u8);
    } else if len <= 65535 {
        assert(0xFEu8 & 0x7F == 126 && 0xFEu8 & 0x80 != 0) by (bit_vector);
        assert(e[1] == 0xFEu8);
        let hi = (len / 256) as u8;
        let lo = (len % 256) as u8;
        let two = e.subrange(2, 4);
        assert(two =~= seq![hi, lo]);
        assert(two.drop_last() =~= seq![hi]);
        assert(two.drop_last().drop_last() =~= Seq::<u8>::empty());
        assert(seq![hi].drop_last() =~= Seq::<u8>::empty());
        assert(be_value(Seq::<u8>::empty()) == 0);
        assert(seq![hi].last() == hi);
        assert(be_value(seq![hi]) == hi as nat);
        assert(be_value(two) == hi as nat * 256 + lo as nat);
        assert(hi as nat * 256 + lo as nat == len);
    } else {
        assert(0xFFu8 & 0x7F == 127 && 0xFFu8 & 0x80 != 0) by (bit_vector);
        assert(e[1] == 0xFFu8);
        assert(e.subrange(2, 10) =~= be_u64(len as u64));
        lemma_be_u64_value(len as u64);
    }
}

/// Reading back an encoded client frame gives the frame: its FIN, its opcode
/// and its payload; the MASK bit is set and the reserved bits are clear.
pub proof fn lemma_encode_round_trip(fin: bool, op: Opcode, data: Seq<u8>, mask: Seq<u8>)
    requires
        mask.len() == 4,
        data.len() <= u64::MAX,
    ensures
        encoded(fin, op, data, mask)[0] & 0x70 == 0,
        encoded(fin, op, data, mask)[1] & 0x80 != 0,
        client_header_len(encoded(fin, op, data, mask)) == header_len_for(data.len()),
        client_payload_len(encoded(fin, op, data, mask)) == data.len(),
        decode_client_frame(encoded(fin, op, data, mask)) == (fin, op, data),
{
    let e = encoded(fin, op, data, mask);
    let v = opcode_value(op);
    let b0 = first_byte(fin, op);
    lemma_opcode_round_trip(v, op);
    assert(v <= 15);
    assert(e[0] == b0);
    if fin {
        assert((0x80 | v) & 0x80 != 0 && (0x80 | v) & 0x0F == v && (0x80 | v) & 0x70 == 0)
            by (bit_vector)
            requires
                v <= 15,
        ;
    } else {
        assert(v & 0x80 == 0 && v & 0x0F == v && v & 0x70 == 0) by (bit_vector)
            requires
                v <= 15,
        ;
    }
    let len = data.len();
    let h = header_len_for(len) as int;
    let rest = mask.add(masked(data, mask));
    assert(e =~= seq![b0].add(length_field(len)).add(rest));
    lemma_length_field_read_back(b0, len, rest);
    assert(e.subrange(h - 4, h) =~= mask);
    assert(e.subrange(h, h + len) =~= masked(data, mask));
    lemma_mask_self_inverse(data, mask);
}

/// Writes `src` XOR the repeating key after what `dst` already holds, one
/// byte at a time.
pub fn mask_scalar(src: &[u8], dst: &mut Vec<u8>, mask: [u8; 4])
    requires
        old(dst)@.len() + src@.len() <= usize::MAX,
    ensures
        final(dst)@ == old(dst)@ + masked(src@, mask@),
{
    let ghost start = dst@;
    let mut i: usize = 0;
    while i < src.len()
        invariant
            i <= src@.len(),
            start.len() + src@.len() <= usize::MAX,
            dst@ == start + masked(src@.subrange(0, i as int), mask@),
        decreases src@.len() - i,
    {
        proof {
            lemma_masked_push(src@, mask@, i as int);
        }
        dst.push(src[i] ^ mask[i % 4]);
        i = i + 1;
    }
    assert(src@.subrange(0, i as int) =~= src@);
}

/// Writes `src` XOR the repeating key after what `dst` already holds, in
/// blocks of sixteen steps and then a tail; the bytes equal those of
/// `mask_scalar`.
pub fn mask_blocks(src: &[u8], dst: &mut Vec<u8>, mask: [u8; 4])
    requires
        old(dst)@.len() + src@.len() <= usize::MAX,
    ensures
        final(dst)@ == old(dst)@ + masked(src@, mask@),
{
    let ghost start = dst@;
    let n = src.len();
    let mut i: usize = 0;
    while 16 <= n - i
        invariant
            n == src@.len(),
            i <= n,
            start.len() + n <= usize::MAX,
            dst@ == start + masked(src@.subrange(0, i as int), mask@),
        decreases n - i,
    {
        let end = i + 16;
        while i < end
            invariant
                n == src@.len(),
                i <= end <= n,
                start.len() + n <= usize::MAX,
                dst@ == start + masked(src@.subrange(0, i as int), mask@),
            decreases end - i,
        {
            proof {
                lemma_masked_push(src@, mask@, i as int);
            }
            dst.push(src[i] ^ mask[i % 4]);
            i = i + 1;
        }
    }
    while i < n
        invariant
            n == src@.len(),
            i <= n,
            start.len() + n <= usize::MAX,
            dst@ == start + masked(src@.subrange(0, i as int), mask@),
        decreases n - i,
    {
        proof {
            lemma_masked_push(src@, mask@, i as int);
        }
        dst.push(src[i] ^ mask[i % 4]);
        i = i + 1;
    }
    assert(src@.subrange(0, i as int) =~= src@);
}

/// Masks a payload, taking the block kernel for sixteen bytes or more; the
/// bytes are those of `mask_scalar` either way.
pub fn mask_data(src: &[u8], dst: &mut Vec<u8>, mask: [u8; 4])
    requires
        old(dst)@.len() + src@.len() <= usize::MAX,
    ensures
        final(dst)@ == old(dst)@ + masked(src@, mask@),
{
    if src.len() >= 16 {
        mask_blocks(src, dst, mask)
    } else {
        mask_scalar(src, dst, mask)
    }
}

impl<'a> Frame<'a> {
    /// A final binary frame.
    pub fn binary(data: &'a [u8]) -> (r: Self)
        ensures
            r.fin,
            r.opcode == Opcode::Binary,
            r.data@ == data@,
    {
        Frame { fin: true, opcode: Opcode::Binary, data }
    }

    /// A final text frame over the bytes of `data`.
    pub fn text(data: &'a str) -> (r: Self)
        ensures
            r.fin,
            r.opcode == Opcode::Text,
            r.data@ == data.spec_bytes(),
    {
        Frame { fin: true, opcode: Opcode::Text, data: data.as_bytes() }
    }

    /// Encodes a control frame, whose payload is at most 125 bytes, into `dst`,
    /// replacing what it held.
    pub fn encode_control(self, dst: &mut Vec<u8>, mask: [u8; 4])
        requires
            self.data@.len() <= 125,
        ensures
            final(dst)@ == encoded(self.fin, self.opcode, self.data@, mask@),
            final(dst)@.len() == CONTROL_HEADER_LEN + self.data@.len(),
    {
        let len = self.data.len();
        dst.clear();
        dst.push(self.first_byte());
        let l = len as u8;
        assert(MASK_BIT | l == 0x80 + l) by (bit_vector)
            requires
                l <= 125,
        ;
        dst.push(MASK_BIT | l);
        dst.push(mask[0]);
        dst.push(mask[1]);
        dst.push(mask[2]);
        dst.push(mask[3]);
        assert(dst@ =~= seq![first_byte(self.fin, self.opcode)].add(length_field(len as nat)).add(
            mask@,
        ));
        mask_data(self.data, dst, mask);
    }

    /// Encodes a client frame into `dst`, replacing what it held, with the
    /// narrowest length encoding.
    pub fn encode(self, dst: &mut Vec<u8>, mask: [u8; 4])
        requires
            self.data@.len() + MAX_HEADER_LEN <= usize::MAX,
        ensures
            final(dst)@ == encoded(self.fin, self.opcode, self.data@, mask@),
            final(dst)@.len() == header_len_for(self.data@.len()) + self.data@.len(),
    {
        let len = self.data.len();
        dst.clear();
        dst.push(self.first_byte());
        if len <= 125 {
            let l = len as u8;
            assert(MASK_BIT | l == 0x80 + l) by (bit_vector)
                requires
                    l <= 125,
            ;
            dst.push(MASK_BIT | l);
        } else if len <= 65535 {
            assert(0x80u8 | 126u8 == 0xFEu8) by (bit_vector);
            dst.push(MASK_BIT | 126);
            dst.push((len / 256) as u8);
            dst.push((len % 256) as u8);
        } else {
            assert(0x80u8 | 127u8 == 0xFFu8) by (bit_vector);
            dst.push(MASK_BIT | 127);
            let n = len as u64;
            assert(dst@ =~= seq![first_byte(self.fin, self.opcode), 0xFFu8].add(
                be_u64(n).subrange(0, 0),
            ));
            let mut k: usize = 0;
            while k < 8
                invariant
                    k <= 8,
                    len > 65535,
                    n == len as u64,
                    dst@ == seq![first_byte(self.fin, self.opcode), 0xFFu8].add(
                        be_u64(n).subrange(0, k as int),
                    ),
                decreases 8 - k,
            {
                let shift: u64 = ((7 - k) * 8) as u64;
                let b = (#[verifier::truncate] (((n >> shift) & 0xff) as u8));
                dst.push(b);
                k = k + 1;
                assert(be_u64(n).subrange(0, k as int) =~= be_u64(n).subrange(
                    0,
                    (k - 1) as int,
                ).push(b));
            }
            assert(be_u64(n).subrange(0, 8) =~= be_u64(n));
        }
        assert(dst@ =~= seq![first_byte(self.fin, self.opcode)].add(length_field(len as nat)));
        dst.push(mask[0]);
        dst.push(mask[1]);
        dst.push(mask[2]);
        dst.push(mask[3]);
        assert(dst@ =~= seq![first_byte(self.fin, self.opcode)].add(length_field(len as nat)).add(
            mask@,
        ));
        mask_data(self.data, dst, mask);
    }

    /// The text of `data` when it is well-formed UTF-8 (no overlong forms,
    /// no surrogates, nothing past U+10FFFF, no cut sequence); `None` else.
    ///
    /// Relies on simdutf8::basic::from_utf8, which accepts exactly the valid
    /// UTF-8 inputs and returns them as a `str` over the same bytes.
    #[verifier::external_body]
    pub fn validate_utf8(data: &[u8]) -> (r: Option<&str>)
        ensures
            r is Some <==> valid_utf8(data@),
            r is Some ==> r->Some_0.spec_bytes() == data@,
    {
        simdutf8::basic::from_utf8(data).ok()
    }

    /// The first header byte of this frame.
    fn first_byte(&self) -> (r: u8)
        ensures
            r == first_byte(self.fin, self.opcode),
    {
        let op = self.opcode.as_u8();
        if self.fin {
            0x80 | op
        } else {
            op
        }
    }
}

} // verus!
