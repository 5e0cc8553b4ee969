use vstd::prelude::*;
use crate::packet::Packet;

verus! {

/// The bytes of `packets` laid end to end, as the GPU's storage buffer holds them.
pub open spec fn packet_bytes(packets: Seq<Packet>) -> Seq<u8> {
    packets.map_values(|p: Packet| p@).flatten()
}

/// The per-packet verdicts in a result buffer read back from the GPU: one
/// little-endian word per packet, of which a set low byte flags the packet.
pub open spec fn readback_verdicts(data: Seq<u8>) -> Seq<bool> {
    Seq::new(data.len() / 4, |i: int| data[4 * i] > 0)
}

/// The packets whose verdict is set, in their order; `verdicts` is indexed like
/// `packets`.
pub open spec fn flagged(packets: Seq<Packet>, verdicts: Seq<bool>) -> Seq<Packet>
    decreases packets.len(),
{
    if packets.len() == 0 {
        Seq::empty()
    } else {
        let rest = flagged(packets.drop_last(), verdicts);
        if verdicts[packets.len() - 1] {
            rest.push(packets.last())
        } else {
            rest
        }
    }
}

/// How many of `verdicts` are set.
pub open spec fn set_count(verdicts: Seq<bool>) -> nat {
    verdicts.filter(|b: bool| b).len()
}

/// A result buffer of whole words gives one verdict per word, verdict `i`
/// being whether the low byte of word `i` is non-zero; a trailing partial word
/// gives none.
pub proof fn lemma_readback_one_verdict_per_word(data: Seq<u8>)
    ensures
        readback_verdicts(data).len() * 4 <= data.len() < readback_verdicts(data).len() * 4 + 4,
        data.len() % 4 == 0 ==> readback_verdicts(data).len() * 4 == data.len(),
        forall|i: int|
            0 <= i < readback_verdicts(data).len() ==> (#[trigger] readback_verdicts(data)[i]
                <==> data[4 * i] != 0),
{
}

/// The packets forwarded are the batch filtered by its own verdicts: as many as
/// verdicts are set among the batch's slots, each one a packet of the batch
/// whose verdict is set, and a batch split in two forwards the hits of the
/// first part followed by the hits of the second.
pub proof fn lemma_flagged_filters_by_verdict(packets: Seq<Packet>, verdicts: Seq<bool>)
    requires
        packets.len() <= verdicts.len(),
    ensures
        flagged(packets, verdicts).len() == set_count(verdicts.take(packets.len() as int)),
        forall|x: Packet|
            flagged(packets, verdicts).contains(x) ==> exists|i: int|
                0 <= i < packets.len() && verdicts[i] && #[trigger] packets[i] == x,
    decreases packets.len(),
{
    if packets.len() == 0 {
        assert(verdicts.take(0) =~= Seq::<bool>::empty());
    } else {
        let n = packets.len() as int;
        let init = packets.drop_last();
        lemma_flagged_filters_by_verdict(init, verdicts);
        let pred = |b: bool| b;
        assert(verdicts.take(n).drop_last() =~= verdicts.take(n - 1));
        assert(verdicts.take(n - 1).push(verdicts[n - 1]) =~= verdicts.take(n));
        verdicts.take(n - 1).lemma_filter_push(verdicts[n - 1], pred);
        assert forall|x: Packet| flagged(packets, verdicts).contains(x) implies exists|i: int|
            0 <= i < packets.len() && verdicts[i] && #[trigger] packets[i] == x by {
            if flagged(init, verdicts).contains(x) {
                let i = choose|i: int| 0 <= i < init.len() && verdicts[i] && #[trigger] init[i] == x;
                assert(packets[i] == x);
            } else {
                assert(packets[n - 1] == x);
            }
        }
    }
}

/// Forwarding keeps batch order: the hits among the first `k` packets of a
/// batch are exactly the first hits of the whole batch.
pub proof fn lemma_flagged_keeps_batch_order(packets: Seq<Packet>, verdicts: Seq<bool>, k: int)
    requires
        0 <= k <= packets.len(),
    ensures
        flagged(packets.take(k), verdicts).len() <= flagged(packets, verdicts).len(),
        flagged(packets, verdicts).take(flagged(packets.take(k), verdicts).len() as int)
            == flagged(packets.take(k), verdicts),
    decreases packets.len(),
{
    if k == packets.len() {
        assert(packets.take(k) =~= packets);
        assert(flagged(packets, verdicts).take(flagged(packets, verdicts).len() as int)
            =~= flagged(packets, verdicts));
    } else {
        let init = packets.drop_last();
        assert(init.take(k) =~= packets.take(k));
        lemma_flagged_keeps_batch_order(init, verdicts, k);
        let short = flagged(packets.take(k), verdicts);
        let rest = flagged(init, verdicts);
        if verdicts[packets.len() - 1] {
            assert(rest.push(packets.last()).take(short.len() as int) =~= rest.take(
                short.len() as int,
            ));
        }
    }
}

/// A batch whose verdicts all hold is forwarded whole, one whose verdicts all
/// fail not at all, and nothing forwarded is outside the batch.
pub proof fn lemma_flagged_bounds(packets: Seq<Packet>, verdicts: Seq<bool>)
    requires
        packets.len() <= verdicts.len(),
    ensures
        (forall|i: int| 0 <= i < packets.len() ==> #[trigger] verdicts[i]) ==> flagged(packets, verdicts)
            == packets,
        (forall|i: int| 0 <= i < packets.len() ==> !#[trigger] verdicts[i]) ==> flagged(
            packets,
            verdicts,
        ) == Seq::<Packet>::empty(),
        flagged(packets, verdicts).len() <= packets.len(),
        forall|x: Packet| flagged(packets, verdicts).contains(x) ==> packets.contains(x),
    decreases packets.len(),
{
    if packets.len() > 0 {
        let init = packets.drop_last();
        lemma_flagged_bounds(init, verdicts);
        assert(init.push(packets.last()) =~= packets);
        assert forall|x: Packet| flagged(packets, verdicts).contains(x) implies packets.contains(x) by {
            if flagged(init, verdicts).contains(x) {
                assert(init.contains(x));
                let k = choose|k: int| 0 <= k < init.len() && init[k] == x;
                assert(packets[k] == x);
            } else {
                assert(packets[packets.len() - 1] == x);
            }
        }
    }
}

/// Lays the packets' bytes end to end, the layout in which a batch is uploaded
/// to the GPU.
pub fn packets_to_bytes(packets: &[Packet]) -> (bytes: Vec<u8>)
    ensures
        bytes@ == packet_bytes(packets@),
{
    let mut bytes: Vec<u8> = Vec::new();
    let n = packets.len();
    let mut k: usize = 0;
    while k < n
        invariant
            k <= n,
            n == packets@.len(),
            bytes@ == packet_bytes(packets@.take(k as int)),
        decreases n - k,
    {
        let ghost before = bytes@;
        let packet = &packets[k];
        let mut i: usize = 0;
        while i < Packet::BYTE_COUNT
            invariant
                i <= 4096,
                packet@.len() == 4096,
                bytes@ == before + packet@.take(i as int),
            decreases 4096 - i,
        {
            bytes.push(packet.0[i]);
            i += 1;
            proof {
                assert(packet@.take(i as int) =~= packet@.take(i - 1).push(packet@[i - 1]));
            }
        }
        proof {
            let views = packets@.take(k as int).map_values(|p: Packet| p@);
            assert(packets@.take(k + 1).map_values(|p: Packet| p@) =~= views.push(packet@));
            views.lemma_flatten_push(packet@);
            assert(packet@.take(4096) =~= packet@);
        }
        k += 1;
    }
    proof {
        assert(packets@.take(n as int) =~= packets@);
    }
    bytes
}

/// Reads the per-packet verdicts out of a result buffer read back from the GPU,
/// word by word.
pub fn readback_flags(data: &[u8]) -> (verdicts: Vec<bool>)
    ensures
        verdicts@ == readback_verdicts(data@),
        verdicts@.len() == data@.len() / 4,
        forall|i: int| 0 <= i < verdicts@.len() ==> #[trigger] verdicts@[i] == (data@[4 * i] > 0),
{
    let len = data.len();
    let words = len / 4;
    let mut verdicts: Vec<bool> = Vec::new();
    let mut i: usize = 0;
    while i < words
        invariant
            i <= words,
            len == data@.len(),
            words == len / 4,
            verdicts@ == readback_verdicts(data@).take(i as int),
        decreases words - i,
    {
        assert(4 * i + 3 < len) by (nonlinear_arith)
            requires
                i < words,
                words == len / 4,
        ;
        verdicts.push(data[4 * i] > 0);
        i += 1;
        proof {
            assert(verdicts@ =~= readback_verdicts(data@).take(i as int));
        }
    }
    proof {
        assert(readback_verdicts(data@).take(words as int) =~= readback_verdicts(data@));
    }
    verdicts
}

/// The packets of a closing batch that the GPU flagged, in batch order. The
/// result buffer holds a verdict for every slot of a dispatch, so there are at
/// least as many verdicts as packets.
pub fn flagged_packets(packets: &[Packet], verdicts: &[bool]) -> (hits: Vec<Packet>)
    requires
        packets@.len() <= verdicts@.len(),
    ensures
        hits@ == flagged(packets@, verdicts@),
        hits@.len() == set_count(verdicts@.take(packets@.len() as int)),
{
    let mut hits: Vec<Packet> = Vec::new();
    let n = packets.len();
    let mut bit: usize = 0;
    while bit < n
        invariant
            bit <= n,
            n == packets@.len(),
            n <= verdicts@.len(),
            hits@ == flagged(packets@.take(bit as int), verdicts@),
        decreases n - bit,
    {
        proof {
            assert(packets@.take(bit + 1).drop_last() =~= packets@.take(bit as int));
        }
        if verdicts[bit] {
            hits.push(packets[bit]);
        }
        bit += 1;
    }
    proof {
        assert(packets@.take(n as int) =~= packets@);
        lemma_flagged_filters_by_verdict(packets@, verdicts@);
    }
    hits
}

} // verus!
