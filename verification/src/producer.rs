use vstd::prelude::*;
use crate::packet::{Packet, benign_bytes, suspicious_bytes, intrusive_bytes, header_id, lemma_header_round_trip};
use crate::prefilter::{prefilter_suspects, lemma_prefilter_classifies};

verus! {

/// The three kinds of packet that the producer sends.
#[derive(Clone, Copy, Debug, PartialEq, Eq, Structural)]
pub enum PacketKind {
    Benign,
    Suspicious,
    Intrusive,
}

/// The bytes of a packet of `kind` that carries `id`.
pub open spec fn kind_bytes(kind: PacketKind, id: u32) -> Seq<u8> {
    match kind {
        PacketKind::Benign => benign_bytes(id),
        PacketKind::Suspicious => suspicious_bytes(id),
        PacketKind::Intrusive => intrusive_bytes(id),
    }
}

/// Whatever its kind, a packet carries its id in its header, and the CPU
/// prefilter flags it exactly when it is not benign.
pub proof fn lemma_kind_detected(kind: PacketKind, id: u32)
    ensures
        header_id(kind_bytes(kind, id)) == id,
        prefilter_suspects(kind_bytes(kind, id)) == (kind != PacketKind::Benign),
{
    lemma_header_round_trip(id);
    lemma_prefilter_classifies(id);
}

/// A traffic pattern: which ids are sent, of what kind, and how long the
/// producer pauses after each.
#[derive(Clone, Copy, Debug, PartialEq, Eq, Structural)]
pub enum Scenario {
    /// Ids up to 25565, alternately intrusive and benign, 50 ns apart.
    Alternating25565,
    /// Ids up to 1024, alternately intrusive and benign, 2 ms apart.
    Alternating1024LowLoad,
    /// Ids up to 2048, alternately intrusive and benign, 2 ms apart but 0.5 ms
    /// apart strictly between ids 1024 and 1536.
    RampMid,
    /// Ids up to 25565, alternately intrusive and benign, 1 µs apart.
    SamAndAlex,
    /// Ids up to 8192, alternately intrusive and benign, 1 µs apart.
    Alternating8192,
    /// Ids up to 8192, alternately intrusive and benign, 100 µs apart.
    Alternating8192Low,
    /// Ids up to 8192 in runs of 32: intrusive runs 1 µs apart, alternating
    /// with runs 100 µs apart in which every fourth id is suspicious and the
    /// others benign.
    TimeWack,
}

/// Even ids intrusive, odd ids benign.
pub open spec fn alternating_kind(id: u32) -> PacketKind {
    if id % 2 == 0 {
        PacketKind::Intrusive
    } else {
        PacketKind::Benign
    }
}

/// Whether `id` lies in an intrusive run of 32 ids of the time-wack pattern.
pub open spec fn in_intrusive_run(id: u32) -> bool {
    (id / 32) % 2 == 0
}

/// In the time-wack pattern, the runs of 32 ids alternate, starting with an
/// intrusive run. Outside intrusive runs every fourth id is suspicious, starting
/// with the first id of the run, and the three ids after a suspicious one are
/// benign; the pattern repeats every four ids within a run, and nothing outside
/// an intrusive run is intrusive.
pub proof fn lemma_time_wack_pattern(id: u32)
    ensures
        id < 32 ==> Scenario::TimeWack.spec_kind(id) == PacketKind::Intrusive,
        id % 64 < 32 ==> Scenario::TimeWack.spec_kind(id) == PacketKind::Intrusive,
        id % 64 == 32 ==> Scenario::TimeWack.spec_kind(id) == PacketKind::Suspicious,
        id % 64 >= 32 ==> Scenario::TimeWack.spec_kind(id) != PacketKind::Intrusive,
        id % 64 >= 32 && Scenario::TimeWack.spec_kind(id) == PacketKind::Suspicious && id % 64 + 3
            < 64 && id + 3 <= u32::MAX ==> {
            &&& Scenario::TimeWack.spec_kind((id + 1) as u32) == PacketKind::Benign
            &&& Scenario::TimeWack.spec_kind((id + 2) as u32) == PacketKind::Benign
            &&& Scenario::TimeWack.spec_kind((id + 3) as u32) == PacketKind::Benign
        },
        id % 64 >= 32 && id % 64 + 4 < 64 && id + 4 <= u32::MAX ==> Scenario::TimeWack.spec_kind(
            (id + 4) as u32,
        ) == Scenario::TimeWack.spec_kind(id),
{
    assert((id / 32) % 2 == (if id % 64 < 32 { 0u32 } else { 1u32 })) by (bit_vector);
    assert(id % 64 == 32 ==> id % 4 == 0) by (bit_vector);
    if id + 4 <= u32::MAX {
        let a = (id + 1) as u32;
        let b = (id + 2) as u32;
        let c = (id + 3) as u32;
        let d = (id + 4) as u32;
        assert(id % 64 >= 32 && id % 64 + 4 < 64 && id + 4 <= 0xffff_ffffu32 ==> {
            &&& (d / 32) % 2 == 1 && (a / 32) % 2 == 1 && (b / 32) % 2 == 1 && (c / 32) % 2 == 1
            &&& d % 4 == id % 4
        }) by (bit_vector)
            requires
                a == id + 1,
                b == id + 2,
                c == id + 3,
                d == id + 4,
        ;
        assert(id % 4 == 0 ==> (a % 4 != 0 && b % 4 != 0 && c % 4 != 0)) by (bit_vector)
            requires
                a == id + 1,
                b == id + 2,
                c == id + 3,
        ;
    }
}

impl Scenario {
    /// The last id sent; ids run from 0 up to it, both included.
    pub open spec fn spec_last_id(self) -> u32 {
        match self {
            Scenario::Alternating25565 => 25565,
            Scenario::Alternating1024LowLoad => 1024,
            Scenario::RampMid => 2048,
            Scenario::SamAndAlex => 25565,
            Scenario::Alternating8192 => 8192,
            Scenario::Alternating8192Low => 8192,
            Scenario::TimeWack => 8192,
        }
    }

    /// The kind of packet sent for `id`.
    pub open spec fn spec_kind(self, id: u32) -> PacketKind {
        match self {
            Scenario::TimeWack => if in_intrusive_run(id) {
                PacketKind::Intrusive
            } else if id % 4 == 0 {
                PacketKind::Suspicious
            } else {
                PacketKind::Benign
            },
            _ => alternating_kind(id),
        }
    }

    /// The pause after sending `id`, in nanoseconds.
    pub open spec fn spec_delay_nanos(self, id: u32) -> u64 {
        match self {
            Scenario::Alternating25565 => 50,
            Scenario::Alternating1024LowLoad => 2_000_000,
            Scenario::RampMid => if 1024 < id < 1536 {
                500_000
            } else {
                2_000_000
            },
            Scenario::SamAndAlex => 1_000,
            Scenario::Alternating8192 => 1_000,
            Scenario::Alternating8192Low => 100_000,
            Scenario::TimeWack => if in_intrusive_run(id) {
                1_000
            } else {
                100_000
            },
        }
    }

    /// The last id sent.
    pub fn last_id(&self) -> (last: u32)
        ensures
            last == self.spec_last_id(),
    {
        match self {
            Scenario::Alternating25565 => 25565,
            Scenario::Alternating1024LowLoad => 1024,
            Scenario::RampMid => 2048,
            Scenario::SamAndAlex => 25565,
            Scenario::Alternating8192 => 8192,
            Scenario::Alternating8192Low => 8192,
            Scenario::TimeWack => 8192,
        }
    }

    /// The kind of packet sent for `id`.
    pub fn kind(&self, id: u32) -> (kind: PacketKind)
        ensures
            kind == self.spec_kind(id),
            *self == Scenario::TimeWack && (id / 32) % 2 == 1 ==> (kind == PacketKind::Suspicious
                <==> id % 4 == 0),
    {
        match self {
            Scenario::TimeWack => {
                if (id / 32) % 2 == 0 {
                    PacketKind::Intrusive
                } else if id % 4 == 0 {
                    PacketKind::Suspicious
                } else {
                    PacketKind::Benign
                }
            },
            _ => {
                if id % 2 == 0 {
                    PacketKind::Intrusive
                } else {
                    PacketKind::Benign
                }
            },
        }
    }

    /// The packet sent for `id`.
    pub fn packet(&self, id: u32) -> (packet: Packet)
        ensures
            packet@ == kind_bytes(self.spec_kind(id), id),
    {
        match self.kind(id) {
            PacketKind::Benign => Packet::benign(id),
            PacketKind::Suspicious => Packet::suspicious(id),
            PacketKind::Intrusive => Packet::intrusive(id),
        }
    }

    /// The pause after sending `id`, in nanoseconds.
    pub fn delay_nanos(&self, id: u32) -> (nanos: u64)
        ensures
            nanos == self.spec_delay_nanos(id),
    {
        match self {
            Scenario::Alternating25565 => 50,
            Scenario::Alternating1024LowLoad => 2_000_000,
            Scenario::RampMid => {
                if id > 1024 && id < 1536 {
                    500_000
                } else {
                    2_000_000
                }
            },
            Scenario::SamAndAlex => 1_000,
            Scenario::Alternating8192 => 1_000,
            Scenario::Alternating8192Low => 100_000,
            Scenario::TimeWack => {
                if (id / 32) % 2 == 1 {
                    100_000
                } else {
                    1_000
                }
            },
        }
    }
}

} // verus!
