use vstd::prelude::*;

verus! {

/// A fixed-size network packet: its first four bytes carry the packet's id,
/// big-endian; the rest is payload.
#[derive(Clone, Copy, Debug)]
pub struct Packet(pub [u8; 4096]);

impl View for Packet {
    type V = Seq<u8>;

    open spec fn view(&self) -> Seq<u8> {
        self.0@
    }
}

/// The four big-endian base-256 digits of `id`.
pub open spec fn header_bytes(id: u32) -> Seq<u8> {
    seq![
        (id / 0x100_0000) as u8,
        ((id / 0x1_0000) % 0x100) as u8,
        ((id / 0x100) % 0x100) as u8,
        (id % 0x100) as u8,
    ]
}

/// The id that the first four bytes of `bytes` carry, read big-endian.
pub open spec fn header_id(bytes: Seq<u8>) -> int {
    bytes[0] * 0x100_0000 + bytes[1] * 0x1_0000 + bytes[2] * 0x100 + bytes[3]
}

/// The bytes of a packet that carries `id` and an all-zero payload.
pub open spec fn benign_bytes(id: u32) -> Seq<u8> {
    Seq::new(4096, |i: int| if i < 4 { header_bytes(id)[i] } else { 0u8 })
}

/// The bytes of a packet that carries `id` and whose payload has only the lowest
/// bit of its first byte set.
pub open spec fn suspicious_bytes(id: u32) -> Seq<u8> {
    benign_bytes(id).update(4, 1u8)
}

/// The bytes of a suspicious packet for `id` whose last byte also has its highest
/// bit set.
pub open spec fn intrusive_bytes(id: u32) -> Seq<u8> {
    suspicious_bytes(id).update(4095, 0x80u8)
}

/// The single-bit masks of a byte, from the highest bit to the lowest.
pub const BIT_MASKS: [u8; 8] = [
    0b1000_0000,
    0b0100_0000,
    0b0010_0000,
    0b0001_0000,
    0b0000_1000,
    0b0000_0100,
    0b0000_0010,
    0b0000_0001,
];

/// Every constructor writes the id into the first four bytes, big-endian, so
/// that reading them back gives the id.
pub proof fn lemma_header_round_trip(id: u32)
    ensures
        header_id(benign_bytes(id)) == id,
        header_id(suspicious_bytes(id)) == id,
        header_id(intrusive_bytes(id)) == id,
{
    let n = id as int;
    let b0 = n / 0x100_0000;
    let b1 = (n / 0x1_0000) % 0x100;
    let b2 = (n / 0x100) % 0x100;
    let b3 = n % 0x100;
    assert(b0 * 0x100_0000 + b1 * 0x1_0000 + b2 * 0x100 + b3 == n) by (nonlinear_arith)
        requires
            0 <= n < 0x1_0000_0000,
            b0 == n / 0x100_0000,
            b1 == (n / 0x1_0000) % 0x100,
            b2 == (n / 0x100) % 0x100,
            b3 == n % 0x100,
    ;
    assert(benign_bytes(id)[0] == b0);
    assert(benign_bytes(id)[1] == b1);
    assert(benign_bytes(id)[2] == b2);
    assert(benign_bytes(id)[3] == b3);
}

impl Packet {
    pub const BYTE_COUNT: usize = 4 * 1024;

    /// A packet whose payload is all zero.
    pub fn benign(id: u32) -> (packet: Self)
        ensures
            packet@ == benign_bytes(id),
    {
        let mut packet = Packet([0u8; 4096]);
        packet.0[0] = ((id >> 24) & 0xff) as u8;
        packet.0[1] = ((id >> 16) & 0xff) as u8;
        packet.0[2] = ((id >> 8) & 0xff) as u8;
        packet.0[3] = (id & 0xff) as u8;
        proof {
            assert((((id >> 24) & 0xff) as u8) == (id / 0x100_0000) as u8) by (bit_vector);
            assert((((id >> 16) & 0xff) as u8) == ((id / 0x1_0000) % 0x100) as u8) by (bit_vector);
            assert((((id >> 8) & 0xff) as u8) == ((id / 0x100) % 0x100) as u8) by (bit_vector);
            assert(((id & 0xff) as u8) == (id % 0x100) as u8) by (bit_vector);
            assert(packet@ =~= benign_bytes(id));
        }
        packet
    }

    /// A benign packet whose payload has its lowest bit in the first byte set.
    pub fn suspicious(id: u32) -> (packet: Self)
        ensures
            packet@ == suspicious_bytes(id),
    {
        let mut packet = Packet::benign(id);
        packet.0[4] = 0b0000_0001;
        proof {
            assert(packet@ =~= suspicious_bytes(id));
        }
        packet
    }

    /// A suspicious packet whose last byte also has its highest bit set.
    pub fn intrusive(id: u32) -> (packet: Self)
        ensures
            packet@ == intrusive_bytes(id),
    {
        let mut packet = Packet::suspicious(id);
        packet.0[Packet::BYTE_COUNT - 1] = 0b1000_0000;
        proof {
            assert(packet@ =~= intrusive_bytes(id));
        }
        packet
    }
}

} // verus!
