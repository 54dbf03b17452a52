//! ICMP echo request and reply packets: their wire encoding and decoding.
//!
//! Wire layout: byte 0 is the type, byte 1 the code (always zero), bytes 2-3 the
//! checksum, bytes 4-5 the identifier and bytes 6-7 the sequence number, all
//! big-endian; the payload follows.

use crate::checksum::{
    checksum_from, checksum_of, high_byte, internet_checksum, internet_checksum_incremental,
    lemma_checksum_continues, lemma_checksum_verifies, lemma_word_bits, low_byte, word,
};
use vstd::prelude::*;

verus! {

/// The four kinds of echo message, for ICMP over IPv4 and ICMPv6.
#[derive(Debug, Clone, Copy, PartialEq, Eq, Structural)]
pub enum IcmpEchoType {
    Reply,
    ReplyV6,
    Request,
    RequestV6,
}

impl IcmpEchoType {
    /// The type byte of this kind on the wire.
    pub open spec fn spec_code(self) -> u8 {
        match self {
            IcmpEchoType::Reply => 0,
            IcmpEchoType::ReplyV6 => 129,
            IcmpEchoType::Request => 8,
            IcmpEchoType::RequestV6 => 128,
        }
    }

    /// Whether this kind belongs to ICMP over IPv4, whose checksum is computed here.
    pub open spec fn spec_is_ipv4(self) -> bool {
        self is Reply || self is Request
    }

    /// The type byte of this kind on the wire.
    pub fn code(self) -> (r: u8)
        ensures
            r == self.spec_code(),
    {
        match self {
            IcmpEchoType::Reply => 0,
            IcmpEchoType::ReplyV6 => 129,
            IcmpEchoType::Request => 8,
            IcmpEchoType::RequestV6 => 128,
        }
    }

    /// The kind whose type byte is `code`, if any.
    pub fn from_code(code: u8) -> (r: Option<IcmpEchoType>)
        ensures
            r == echo_type_of(code),
    {
        match code {
            0 => Some(IcmpEchoType::Reply),
            129 => Some(IcmpEchoType::ReplyV6),
            8 => Some(IcmpEchoType::Request),
            128 => Some(IcmpEchoType::RequestV6),
            _ => None,
        }
    }
}

impl Default for IcmpEchoType {
    fn default() -> (r: IcmpEchoType)
        ensures
            r == IcmpEchoType::Reply,
    {
        IcmpEchoType::Reply
    }
}

/// The kind whose type byte is `code`, if any.
pub open spec fn echo_type_of(code: u8) -> Option<IcmpEchoType> {
    if code == 0 {
        Some(IcmpEchoType::Reply)
    } else if code == 129 {
        Some(IcmpEchoType::ReplyV6)
    } else if code == 8 {
        Some(IcmpEchoType::Request)
    } else if code == 128 {
        Some(IcmpEchoType::RequestV6)
    } else {
        None
    }
}

/// An echo packet: kind, identifier, sequence number and payload.
#[derive(Debug, Default)]
pub struct IcmpEchoPacket {
    pub type_: IcmpEchoType,
    pub identifier: u16,
    pub sequence_number: u16,
    pub data: Vec<u8>,
}

/// What a packet is: kind, identifier, sequence number and payload bytes.
pub type EchoModel = (IcmpEchoType, u16, u16, Seq<u8>);

impl View for IcmpEchoPacket {
    type V = EchoModel;

    open spec fn view(&self) -> EchoModel {
        (self.type_, self.identifier, self.sequence_number, self.data@)
    }
}

/// The length of the header that precedes the payload.
pub const HEADER_SIZE: usize = 8;

/// The eight header bytes with the given checksum field.
pub open spec fn header_bytes(t: IcmpEchoType, id: u16, seq: u16, checksum: u16) -> Seq<u8> {
    seq![
        t.spec_code(),
        0u8,
        high_byte(checksum),
        low_byte(checksum),
        high_byte(id),
        low_byte(id),
        high_byte(seq),
        low_byte(seq),
    ]
}

/// The checksum field of an encoded packet: the internet checksum of the whole
/// packet with a zero field for the IPv4 kinds, and zero for the ICMPv6 kinds,
/// whose checksum the sending system fills in.
pub open spec fn checksum_field(m: EchoModel) -> u16 {
    if m.0.spec_is_ipv4() {
        checksum_of(header_bytes(m.0, m.1, m.2, 0) + m.3)
    } else {
        0
    }
}

/// The bytes of an encoded packet.
pub open spec fn encoding(m: EchoModel) -> Seq<u8> {
    header_bytes(m.0, m.1, m.2, checksum_field(m)) + m.3
}

/// The packet that `b` holds, if it is a well-formed echo packet: at least a
/// header, a known type byte and a zero code byte.
pub open spec fn decoding(b: Seq<u8>) -> Option<EchoModel> {
    if b.len() < 8 || b[1] != 0 {
        None
    } else {
        match echo_type_of(b[0]) {
            Some(t) => Some((t, word(b[4], b[5]), word(b[6], b[7]), b.subrange(8, b.len() as int))),
            None => None,
        }
    }
}

/// The length of the IPv4 header at the start of `b`: its low four bits of the
/// first byte, counted in 32-bit words.
pub open spec fn ipv4_header_len(b: Seq<u8>) -> int {
    (b[0] % 16) * 4
}

/// The packet that follows the IPv4 header at the start of `b`, if any.
pub open spec fn decoding_after_ipv4(b: Seq<u8>) -> Option<EchoModel> {
    if b.len() == 0 || ipv4_header_len(b) > b.len() {
        None
    } else {
        decoding(b.subrange(ipv4_header_len(b), b.len() as int))
    }
}

proof fn lemma_byte_bits(v: u16)
    ensures
        (v >> 8u16) as u8 == high_byte(v),
        (v & 0xFFu16) as u8 == low_byte(v),
        word(high_byte(v), low_byte(v)) == v,
{
    assert((v >> 8u16) as u8 == (v / 256) as u8) by (bit_vector);
    assert((v & 0xFFu16) as u8 == (v % 256) as u8) by (bit_vector);
}

fn copy_from(buf: &[u8], start: usize) -> (r: Vec<u8>)
    requires
        start <= buf@.len(),
    ensures
        r@ == buf@.subrange(start as int, buf@.len() as int),
{
    let mut r: Vec<u8> = Vec::new();
    let mut i: usize = start;
    while i < buf.len()
        invariant
            start <= i <= buf@.len(),
            r@ == buf@.subrange(start as int, i as int),
        decreases buf@.len() - i,
    {
        r.push(buf[i]);
        i = i + 1;
        assert(r@ =~= buf@.subrange(start as int, i as int));
    }
    r
}

impl IcmpEchoPacket {
    /// Decodes the packet that follows an IPv4 header, as a raw IPv4 socket
    /// delivers it.
    pub fn from_ipv4(buf: &[u8]) -> (r: Option<IcmpEchoPacket>)
        ensures
            r is Some <==> decoding_after_ipv4(buf@) is Some,
            r is Some ==> decoding_after_ipv4(buf@) == Some(r->Some_0@),
    {
        if buf.len() == 0 {
            return None;
        }
        let first: u8 = buf[0];
        assert(first & 0x0F == first % 16 && first & 0x0F < 16) by (bit_vector);
        let header_len: usize = ((first & 0x0F) * 4) as usize;
        if header_len > buf.len() {
            return None;
        }
        let rest = copy_from(buf, header_len);
        Self::from(rest.as_slice())
    }

    /// Decodes an echo packet; fails on a short buffer, an unknown type byte or a
    /// non-zero code byte.
    pub fn from(buf: &[u8]) -> (r: Option<IcmpEchoPacket>)
        ensures
            r is Some <==> decoding(buf@) is Some,
            r is Some ==> decoding(buf@) == Some(r->Some_0@),
    {
        if buf.len() < HEADER_SIZE {
            return None;
        }
        let type_ = match IcmpEchoType::from_code(buf[0]) {
            Some(t) => t,
            None => return None,
        };
        if buf[1] != 0 {
            return None;
        }
        proof {
            lemma_word_bits(buf@[4], buf@[5]);
            lemma_word_bits(buf@[6], buf@[7]);
        }
        Some(IcmpEchoPacket {
            type_,
            identifier: ((buf[4] as u16) << 8) | buf[5] as u16,
            sequence_number: ((buf[6] as u16) << 8) | buf[7] as u16,
            data: copy_from(buf, HEADER_SIZE),
        })
    }

    /// A packet with the given fields and a copy of `data` as payload.
    pub fn new(type_: IcmpEchoType, identifier: u16, sequence_number: u16, data: &[u8]) -> (r:
        IcmpEchoPacket)
        ensures
            r@ == (type_, identifier, sequence_number, data@),
    {
        let data = copy_from(data, 0);
        assert(data@ =~= data@.subrange(0, data@.len() as int));
        IcmpEchoPacket { type_, identifier, sequence_number, data }
    }

    /// Writes the encoded packet into `buf`, which is exactly as long as the packet.
    pub fn write_to(&self, buf: &mut [u8])
        requires
            old(buf)@.len() == HEADER_SIZE + self.data@.len(),
        ensures
            final(buf)@ == encoding(self@),
    {
        self.write_header_to(buf);
        let total: usize = buf.len();
        let n: usize = self.data.len();
        let mut i: usize = 0;
        while i < n
            invariant
                n == self.data@.len(),
                buf@.len() == HEADER_SIZE + n,
                total == buf@.len(),
                0 <= i <= n,
                buf@.subrange(0, 8) == header_bytes(
                    self.type_,
                    self.identifier,
                    self.sequence_number,
                    checksum_field(self@),
                ),
                buf@.subrange(8, 8 + i) == self.data@.subrange(0, i as int),
            decreases n - i,
        {
            let ghost prev = buf@;
            buf[HEADER_SIZE + i] = self.data[i];
            i = i + 1;
            assert(buf@.subrange(0, 8) =~= prev.subrange(0, 8));
            assert(buf@.subrange(8, 8 + i) =~= self.data@.subrange(0, i as int));
        }
        assert(self.data@.subrange(0, n as int) =~= self.data@);
        assert(buf@ =~= buf@.subrange(0, 8) + buf@.subrange(8, 8 + n));
        assert(buf@ =~= encoding(self@));
    }

    /// Writes the header, checksum included, into the first eight bytes of `buf`;
    /// the rest of `buf` is left as it was.
    pub fn write_header_to(&self, buf: &mut [u8])
        requires
            old(buf)@.len() >= HEADER_SIZE,
        ensures
            final(buf)@.len() == old(buf)@.len(),
            final(buf)@.subrange(0, 8) == header_bytes(
                self.type_,
                self.identifier,
                self.sequence_number,
                checksum_field(self@),
            ),
            final(buf)@.subrange(8, final(buf)@.len() as int) == old(buf)@.subrange(
                8,
                old(buf)@.len() as int,
            ),
    {
        proof {
            lemma_byte_bits(0);
            lemma_byte_bits(self.identifier);
            lemma_byte_bits(self.sequence_number);
        }
        buf[0] = self.type_.code();
        buf[1] = 0;
        buf[2] = 0;
        buf[3] = 0;
        buf[4] = (self.identifier >> 8) as u8;
        buf[5] = (self.identifier & 0xFF) as u8;
        buf[6] = (self.sequence_number >> 8) as u8;
        buf[7] = (self.sequence_number & 0xFF) as u8;
        let ghost zeroed = header_bytes(self.type_, self.identifier, self.sequence_number, 0);
        assert(buf@.subrange(0, 8) =~= zeroed);
        if self.type_ == IcmpEchoType::Reply || self.type_ == IcmpEchoType::Request {
            let mut header: [u8; 8] = [0; 8];
            let mut k: usize = 0;
            while k < 8
                invariant
                    0 <= k <= 8,
                    buf@.len() == old(buf)@.len(),
                    buf@.len() >= 8,
                    header@.len() == 8,
                    header@.subrange(0, k as int) == buf@.subrange(0, k as int),
                decreases 8 - k,
            {
                header[k] = buf[k];
                k = k + 1;
                assert(header@.subrange(0, k as int) =~= buf@.subrange(0, k as int));
            }
            assert(header@ =~= zeroed);
            let checksum = internet_checksum(&header);
            let checksum = internet_checksum_incremental(checksum, self.data.as_slice());
            proof {
                lemma_checksum_continues(zeroed, self.data@);
                lemma_byte_bits(checksum);
            }
            buf[2] = (checksum >> 8) as u8;
            buf[3] = (checksum & 0xFF) as u8;
        }
        assert(buf@.subrange(0, 8) =~= header_bytes(
            self.type_,
            self.identifier,
            self.sequence_number,
            checksum_field(self@),
        ));
        assert(buf@.subrange(8, buf@.len() as int) =~= old(buf)@.subrange(8, old(buf)@.len() as int));
    }

    /// The length of the encoded packet.
    pub fn len(&self) -> (r: usize)
        requires
            HEADER_SIZE + self.data@.len() <= usize::MAX,
        ensures
            r == HEADER_SIZE + self.data@.len(),
    {
        HEADER_SIZE + self.data.len()
    }

    /// The encoded packet.
    pub fn encode(&self) -> (r: Vec<u8>)
        requires
            HEADER_SIZE + self.data@.len() <= usize::MAX,
        ensures
            r@ == encoding(self@),
    {
        let mut buf: Vec<u8> = vec![0u8; self.len()];
        self.write_to(buf.as_mut_slice());
        buf
    }
}

/// Decoding an encoded packet gives back its kind, identifier, sequence number
/// and payload.
pub proof fn lemma_decode_encode(m: EchoModel)
    ensures
        decoding(encoding(m)) == Some(m),
{
    let b = encoding(m);
    lemma_byte_bits(m.1);
    lemma_byte_bits(m.2);
    assert(b.subrange(8, b.len() as int) =~= m.3);
    assert(b[4] == high_byte(m.1) && b[5] == low_byte(m.1));
    assert(b[6] == high_byte(m.2) && b[7] == low_byte(m.2));
}

/// An encoded IPv4 echo packet carries a valid checksum: the checksum of its
/// bytes, recomputed, is zero.
pub proof fn lemma_encoded_checksum_is_zero(m: EchoModel)
    requires
        m.0.spec_is_ipv4(),
    ensures
        checksum_of(encoding(m)) == 0,
{
    let zeroed = header_bytes(m.0, m.1, m.2, 0) + m.3;
    lemma_byte_bits(0);
    lemma_checksum_verifies(zeroed, 2);
    let c = checksum_of(zeroed);
    assert(zeroed.update(2, high_byte(c)).update(3, low_byte(c)) =~= encoding(m));
}

/// Decoding rejects any input whose code byte is not zero or whose type byte is
/// not one of the four echo kinds.
pub proof fn lemma_decode_rejects(b: Seq<u8>)
    requires
        (b.len() > 1 && b[1] != 0) || (b.len() > 0 && echo_type_of(b[0]) is None),
    ensures
        decoding(b) is None,
{
}

} // verus!
