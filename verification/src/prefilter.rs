use vstd::prelude::*;
use std::collections::VecDeque;
use rayon::iter::{IntoParallelIterator, ParallelIterator};
use crate::packet::{Packet, BIT_MASKS, benign_bytes, suspicious_bytes, intrusive_bytes};

verus! {

/// How many packets one CPU pass of the prefilter takes at most.
pub const CPU_PARALLEL: usize = 4;

/// How many packets one GPU dispatch takes at most.
pub const GPU_PARALLEL: usize = 256;

/// First payload byte that the CPU prefilter inspects.
pub open spec fn scan_start() -> int {
    4
}

/// One past the last byte that the CPU prefilter inspects: a quarter of the packet.
pub open spec fn scan_end() -> int {
    1024
}

/// Whether the CPU prefilter flags a packet: some byte from `scan_start()` up to `scan_end()` is not zero.
pub open spec fn prefilter_suspects(bytes: Seq<u8>) -> bool {
    exists|i: int| scan_start() <= i < scan_end() && #[trigger] bytes[i] != 0
}

/// Whether some mask among the first `count` of `BIT_MASKS` meets `byte`.
pub open spec fn masked_by_first(byte: u8, count: int) -> bool {
    exists|k: int| 0 <= k < count && (byte & #[trigger] BIT_MASKS@[k]) > 0
}

proof fn lemma_bit_masks_cover(byte: u8)
    ensures
        masked_by_first(byte, 8) == (byte != 0),
{
    assert(BIT_MASKS@ =~= seq![0x80u8, 0x40u8, 0x20u8, 0x10u8, 0x08u8, 0x04u8, 0x02u8, 0x01u8]);
    assert(byte != 0 <==> ((byte & 0x80u8) > 0 || (byte & 0x40u8) > 0 || (byte & 0x20u8) > 0
        || (byte & 0x10u8) > 0 || (byte & 0x08u8) > 0 || (byte & 0x04u8) > 0 || (byte & 0x02u8) > 0
        || (byte & 0x01u8) > 0)) by (bit_vector);
    if byte != 0 {
        if (byte & 0x80u8) > 0 {
            assert((byte & BIT_MASKS@[0]) > 0);
        } else if (byte & 0x40u8) > 0 {
            assert((byte & BIT_MASKS@[1]) > 0);
        } else if (byte & 0x20u8) > 0 {
            assert((byte & BIT_MASKS@[2]) > 0);
        } else if (byte & 0x10u8) > 0 {
            assert((byte & BIT_MASKS@[3]) > 0);
        } else if (byte & 0x08u8) > 0 {
            assert((byte & BIT_MASKS@[4]) > 0);
        } else if (byte & 0x04u8) > 0 {
            assert((byte & BIT_MASKS@[5]) > 0);
        } else if (byte & 0x02u8) > 0 {
            assert((byte & BIT_MASKS@[6]) > 0);
        } else {
            assert((byte & BIT_MASKS@[7]) > 0);
        }
    } else {
        assert(byte == 0u8);
        assert forall|k: int| 0 <= k < 8 implies !((byte & #[trigger] BIT_MASKS@[k]) > 0) by {
            let m = BIT_MASKS@[k];
            assert((0u8 & m) == 0u8) by (bit_vector);
        }
    }
}

/// The CPU prefilter flags a packet exactly when some bit of some byte in the
/// scanned range is set, whichever bit and however many bits the byte has set.
pub proof fn lemma_prefilter_flags_any_set_bit(bytes: Seq<u8>)
    ensures
        prefilter_suspects(bytes) <==> exists|i: int, k: int|
            4 <= i < 1024 && 0 <= k < 8 && (#[trigger] bytes[i] & #[trigger] BIT_MASKS@[k]) != 0,
{
    if prefilter_suspects(bytes) {
        let i = choose|i: int| scan_start() <= i < scan_end() && #[trigger] bytes[i] != 0;
        lemma_bit_masks_cover(bytes[i]);
        let k = choose|k: int| 0 <= k < 8 && (bytes[i] & #[trigger] BIT_MASKS@[k]) > 0;
        assert((bytes[i] & BIT_MASKS@[k]) != 0);
    }
    if exists|i: int, k: int|
        4 <= i < 1024 && 0 <= k < 8 && (#[trigger] bytes[i] & #[trigger] BIT_MASKS@[k]) != 0 {
        let (i, k) = choose|i: int, k: int|
            4 <= i < 1024 && 0 <= k < 8 && (#[trigger] bytes[i] & #[trigger] BIT_MASKS@[k]) != 0;
        let b = bytes[i];
        let m = BIT_MASKS@[k];
        assert((b & m) != 0 ==> b != 0) by (bit_vector);
        assert(bytes[i] != 0);
    }
}

/// Setting more bits of a scanned byte never clears the CPU prefilter's flag,
/// and setting any bit of a scanned byte raises it.
pub proof fn lemma_prefilter_more_bits_still_flagged(bytes: Seq<u8>, i: int, extra: u8)
    requires
        scan_start() <= i < scan_end(),
        bytes.len() == 4096,
    ensures
        prefilter_suspects(bytes) ==> prefilter_suspects(bytes.update(i, bytes[i] | extra)),
        extra != 0 ==> prefilter_suspects(bytes.update(i, bytes[i] | extra)),
{
    let b = bytes[i];
    let after = bytes.update(i, b | extra);
    assert((b | extra) != 0 <==> (b != 0 || extra != 0)) by (bit_vector);
    if prefilter_suspects(bytes) {
        let j = choose|j: int| scan_start() <= j < scan_end() && #[trigger] bytes[j] != 0;
        if j == i {
            assert(after[i] != 0);
        } else {
            assert(after[j] != 0);
        }
    }
    if extra != 0 {
        assert(after[i] != 0);
    }
}

/// A prefilter load queue goes to the GPU exactly from `THRESHOLD` packets on,
/// however long it grows, and then gives a full dispatch of `GPU_PARALLEL`
/// packets; a shorter queue gives the CPU at most `CPU_PARALLEL` packets.
/// More load never moves a batch back to the CPU.
pub proof fn lemma_gpu_from_threshold_on(queued: nat, more: nat)
    ensures
        goes_to_gpu(queued) <==> queued >= Prefilter::THRESHOLD,
        queued >= Prefilter::THRESHOLD ==> batch_size(queued) == GPU_PARALLEL,
        queued < Prefilter::THRESHOLD ==> batch_size(queued) == if queued < CPU_PARALLEL {
            queued
        } else {
            CPU_PARALLEL as nat
        },
        goes_to_gpu(queued) ==> goes_to_gpu(queued + more),
{
}

/// What one poll of the prefilter's inbox gave.
pub enum InboxEvent {
    /// A packet arrived.
    Received(Packet),
    /// Nothing is waiting now.
    Empty,
    /// The sender is gone: nothing more will arrive.
    Disconnected,
}

/// A batch taken off the load queue, with where it is to be scanned.
pub enum Workload {
    /// Scanned on the GPU.
    Gpu(Vec<Packet>),
    /// Scanned on the CPU, by `Prefilter::cpu_prefilter`.
    Cpu(Vec<Packet>),
}

impl Workload {
    /// The packets of the batch, whichever the device.
    pub open spec fn packets(self) -> Seq<Packet> {
        match self {
            Workload::Gpu(v) => v@,
            Workload::Cpu(v) => v@,
        }
    }
}

/// Whether a load queue of `queued` packets is handed to the GPU.
pub open spec fn goes_to_gpu(queued: nat) -> bool {
    queued >= 256
}

/// How many packets the next batch takes from a load queue of `queued` packets:
/// up to `GPU_PARALLEL` once the queue has reached the threshold, else up to
/// `CPU_PARALLEL`.
pub open spec fn batch_size(queued: nat) -> nat {
    let cap: nat = if goes_to_gpu(queued) { 256 } else { 4 };
    if queued < cap { queued } else { cap }
}

/// The packets of `workload` that the CPU prefilter flags, in their order.
pub open spec fn suspects_of(workload: Seq<Packet>) -> Seq<Packet> {
    workload.filter(|p: Packet| prefilter_suspects(p@))
}

/// Filters `workload` in parallel with rayon, keeping the packets that
/// `Prefilter::cpu_prefilter` flags. rayon's `collect` into a `Vec` keeps the
/// order of the items that pass the filter, so the result is the sequential
/// filter of the input.
#[verifier::external_body]
fn par_filter_suspects(workload: Vec<Packet>) -> (suspects: Vec<Packet>)
    ensures
        suspects@ == suspects_of(workload@),
{
    workload.into_par_iter().filter(|p| Prefilter::cpu_prefilter(p)).collect()
}

/// The prefilter stage's scheduling state: the packets received and not yet
/// dispatched, in arrival order, and whether the inbox may still deliver more.
pub struct Prefilter {
    load_queue: VecDeque<Packet>,
    connected: bool,
}

impl Prefilter {
    /// Queue length from which batches go to the GPU.
    pub const THRESHOLD: usize = 256;

    /// Packets received and not yet dispatched, oldest first.
    pub closed spec fn pending(&self) -> Seq<Packet> {
        self.load_queue@
    }

    /// Whether the inbox may still deliver packets.
    pub closed spec fn is_connected(&self) -> bool {
        self.connected
    }

    /// A prefilter with an empty load queue and a connected inbox.
    pub fn new() -> (prefilter: Self)
        ensures
            prefilter.pending() == Seq::<Packet>::empty(),
            prefilter.is_connected(),
    {
        Prefilter { load_queue: VecDeque::with_capacity(GPU_PARALLEL * 2), connected: true }
    }

    /// The stage keeps running while the inbox is connected or packets wait.
    pub fn is_running(&self) -> (running: bool)
        ensures
            running == (self.is_connected() || self.pending().len() > 0),
    {
        self.connected || self.load_queue.len() > 0
    }

    /// Takes one poll of the inbox into account, and says whether to poll again
    /// before dispatching.
    pub fn receive(&mut self, event: InboxEvent) -> (keep_polling: bool)
        ensures
            match event {
                InboxEvent::Received(packet) => {
                    &&& keep_polling
                    &&& final(self).pending() == old(self).pending().push(packet)
                    &&& final(self).is_connected() == old(self).is_connected()
                },
                InboxEvent::Empty => {
                    &&& !keep_polling
                    &&& final(self).pending() == old(self).pending()
                    &&& final(self).is_connected() == old(self).is_connected()
                },
                InboxEvent::Disconnected => {
                    &&& !keep_polling
                    &&& final(self).pending() == old(self).pending()
                    &&& !final(self).is_connected()
                },
            },
    {
        match event {
            InboxEvent::Received(packet) => {
                self.load_queue.push_back(packet);
                true
            },
            InboxEvent::Empty => false,
            InboxEvent::Disconnected => {
                self.connected = false;
                false
            },
        }
    }

    /// Takes the next batch off the front of the load queue: up to
    /// `GPU_PARALLEL` packets for the GPU once `THRESHOLD` packets wait, else up
    /// to `CPU_PARALLEL` packets for the CPU.
    pub fn next_workload(&mut self) -> (workload: Workload)
        ensures
            (workload is Gpu) == goes_to_gpu(old(self).pending().len()),
            (workload is Gpu) == (old(self).pending().len() >= Self::THRESHOLD),
            old(self).pending().len() >= Self::THRESHOLD ==> workload.packets().len()
                == GPU_PARALLEL,
            workload.packets() == old(self).pending().take(
                batch_size(old(self).pending().len()) as int,
            ),
            final(self).pending() == old(self).pending().skip(
                batch_size(old(self).pending().len()) as int,
            ),
            final(self).is_connected() == old(self).is_connected(),
    {
        let ghost start = self.load_queue@;
        let cap = if self.load_queue.len() >= Self::THRESHOLD {
            GPU_PARALLEL
        } else {
            CPU_PARALLEL
        };
        let mut batch: Vec<Packet> = Vec::with_capacity(cap);
        while batch.len() < cap && self.load_queue.len() > 0
            invariant
                batch@ + self.load_queue@ == start,
                batch.len() <= cap,
                cap == (if goes_to_gpu(start.len()) { 256usize } else { 4usize }),
                self.connected == old(self).connected,
            decreases self.load_queue@.len(),
        {
            match self.load_queue.pop_front() {
                Some(packet) => batch.push(packet),
                None => {},
            }
        }
        proof {
            let n = batch_size(start.len()) as int;
            assert(batch.len() == n);
            assert(start.take(n) =~= batch@);
            assert(start.skip(n) =~= self.load_queue@);
        }
        if cap == GPU_PARALLEL {
            Workload::Gpu(batch)
        } else {
            Workload::Cpu(batch)
        }
    }

    /// Runs the CPU prefilter over a batch in parallel and gives back the
    /// packets that it flags, in batch order.
    pub fn cpu_scan(workload: Vec<Packet>) -> (suspects: Vec<Packet>)
        ensures
            suspects@ == suspects_of(workload@),
    {
        par_filter_suspects(workload)
    }

    /// Checks, bit by bit, the payload bytes from `scan_start()` up to a quarter of
    /// the packet; the packet is suspicious when any of them has a bit set.
    pub fn cpu_prefilter(packet: &Packet) -> (suspicious: bool)
        ensures
            suspicious == prefilter_suspects(packet@),
            suspicious == exists|i: int| 4 <= i < 1024 && #[trigger] packet@[i] != 0,
    {
        let mut suspicious = false;
        let end = Packet::BYTE_COUNT / 4;
        let mut chunk: usize = 4;
        while chunk < end
            invariant
                4 <= chunk <= end,
                end == 1024,
                packet@.len() == 4096,
                suspicious == exists|i: int| 4 <= i < chunk && #[trigger] packet@[i] != 0,
            decreases end - chunk,
        {
            let byte = packet.0[chunk];
            let ghost before = suspicious;
            let mut bit: usize = 0;
            while bit < 8
                invariant
                    bit <= 8,
                    suspicious == (before || masked_by_first(byte, bit as int)),
                decreases 8 - bit,
            {
                suspicious = suspicious || (byte & BIT_MASKS[bit]) > 0;
                bit += 1;
            }
            proof {
                lemma_bit_masks_cover(byte);
                assert(byte == packet@[chunk as int]);
            }
            chunk += 1;
        }
        suspicious
    }
}

/// Dispatch splits the load queue into the batch taken and the packets left,
/// losing, duplicating or reordering none; a non-empty queue always gives up at
/// least one packet, so a disconnected stage drains; no batch exceeds the
/// device's parallelism.
pub proof fn lemma_dispatch_partitions_queue(queue: Seq<Packet>)
    ensures
        queue.take(batch_size(queue.len()) as int) + queue.skip(batch_size(queue.len()) as int)
            == queue,
        queue.len() > 0 ==> 0 < batch_size(queue.len()) <= queue.len(),
        queue.len() == 0 ==> batch_size(queue.len()) == 0,
        goes_to_gpu(queue.len()) ==> batch_size(queue.len()) == GPU_PARALLEL,
        !goes_to_gpu(queue.len()) ==> batch_size(queue.len()) <= CPU_PARALLEL,
{
    assert(queue.take(batch_size(queue.len()) as int) + queue.skip(batch_size(queue.len()) as int)
        =~= queue);
}

/// The batches that dispatching a load queue until it is empty hands out, in
/// order, when nothing more arrives meanwhile.
pub open spec fn drain_batches(queue: Seq<Packet>) -> Seq<Seq<Packet>>
    decreases queue.len(),
{
    if queue.len() == 0 {
        Seq::empty()
    } else {
        let n = batch_size(queue.len()) as int;
        seq![queue.take(n)] + drain_batches(queue.skip(n))
    }
}

/// Draining a load queue hands out every packet exactly once, in arrival order.
pub proof fn lemma_drain_hands_out_every_packet(queue: Seq<Packet>)
    ensures
        drain_batches(queue).flatten() == queue,
    decreases queue.len(),
{
    if queue.len() > 0 {
        let n = batch_size(queue.len()) as int;
        lemma_drain_hands_out_every_packet(queue.skip(n));
        let batches = drain_batches(queue);
        assert(batches.first() == queue.take(n));
        assert(batches.drop_first() =~= drain_batches(queue.skip(n)));
        assert(queue.take(n) + queue.skip(n) =~= queue);
    }
}

/// The CPU prefilter lets benign packets pass and flags suspicious and intrusive ones.
pub proof fn lemma_prefilter_classifies(id: u32)
    ensures
        !prefilter_suspects(benign_bytes(id)),
        prefilter_suspects(suspicious_bytes(id)),
        prefilter_suspects(intrusive_bytes(id)),
{
    assert(suspicious_bytes(id)[4] != 0);
    assert(intrusive_bytes(id)[4] != 0);
}

} // verus!
