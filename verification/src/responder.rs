use vstd::prelude::*;
use crate::packet::Packet;

verus! {

/// The byte by which the responder tells packets apart: the packet's first byte,
/// the highest byte of its big-endian id.
pub open spec fn id_byte(packet: Packet) -> u8 {
    packet@[0]
}

/// `sorted` is `original` reordered by a permutation `perm` (entry `i` of `sorted`
/// is entry `perm[i]` of `original`), ordered by first component, with entries of
/// equal first component kept in their original relative order.
pub open spec fn is_stable_sort_of(sorted: Seq<(u8, u64)>, original: Seq<(u8, u64)>) -> bool {
    exists|perm: Seq<int>| is_stable_sort_by(sorted, original, perm)
}

/// `perm` witnesses that `sorted` is a stable sort of `original` by first component.
pub open spec fn is_stable_sort_by(
    sorted: Seq<(u8, u64)>,
    original: Seq<(u8, u64)>,
    perm: Seq<int>,
) -> bool {
    &&& sorted.len() == original.len()
    &&& perm.len() == original.len()
    &&& forall|i: int|
        0 <= i < perm.len() ==> 0 <= #[trigger] perm[i] < original.len() && sorted[i]
            == original[perm[i]]
    &&& forall|i: int, j: int| 0 <= i < j < perm.len() ==> #[trigger] perm[i] != #[trigger] perm[j]
    &&& forall|k: int|
        #![trigger original[k]]
        0 <= k < original.len() ==> exists|i: int| 0 <= i < perm.len() && #[trigger] perm[i] == k
    &&& sorted_by_id(sorted)
    &&& forall|i: int, j: int|
        0 <= i < j < perm.len() && (#[trigger] sorted[i]).0 == (#[trigger] sorted[j]).0 ==> perm[i]
            < perm[j]
}

/// Entries in non-decreasing order of first component.
pub open spec fn sorted_by_id(entries: Seq<(u8, u64)>) -> bool {
    forall|i: int, j: int| 0 <= i <= j < entries.len() ==> (#[trigger] entries[i]).0 <= (#[trigger] entries[j]).0
}

/// Sorts the entries by their first component with std's `slice::sort_by_key`,
/// which its documentation states to be a stable sort: a permutation of the
/// entries, ordered by key, equal keys in their former order.
#[verifier::external_body]
fn sort_by_id(entries: &mut Vec<(u8, u64)>)
    ensures
        is_stable_sort_of(final(entries)@, old(entries)@),
{
    entries.sort_by_key(|entry| entry.0);
}

/// Binary search for an entry whose first component is `id`, in entries sorted by it.
fn find_id(sorted: &Vec<(u8, u64)>, id: u8) -> (index: usize)
    requires
        sorted_by_id(sorted@),
        exists|j: int| 0 <= j < sorted@.len() && (#[trigger] sorted@[j]).0 == id,
    ensures
        index < sorted@.len(),
        sorted@[index as int].0 == id,
{
    let mut lo: usize = 0;
    let mut hi: usize = sorted.len();
    while hi - lo > 1
        invariant
            lo < hi <= sorted@.len(),
            sorted_by_id(sorted@),
            exists|j: int| lo <= j < hi && (#[trigger] sorted@[j]).0 == id,
        decreases hi - lo,
    {
        let mid = lo + (hi - lo) / 2;
        if sorted[mid].0 <= id {
            proof {
                let j = choose|j: int| lo <= j < hi && (#[trigger] sorted@[j]).0 == id;
                if j < mid {
                    assert(sorted@[j].0 <= sorted@[mid as int].0);
                    assert(sorted@[mid as int].0 == id);
                }
            }
            lo = mid;
        } else {
            proof {
                let j = choose|j: int| lo <= j < hi && (#[trigger] sorted@[j]).0 == id;
                if j >= mid {
                    assert(sorted@[mid as int].0 <= sorted@[j].0);
                }
            }
            hi = mid;
        }
    }
    lo
}

/// Every analysed id byte was produced, and no analysed stamp precedes a
/// produced stamp of its id byte.
pub open spec fn deltas_defined(start_times: Seq<(Packet, u64)>, analysis_times: Seq<(Packet, u64)>) -> bool {
    &&& forall|i: int|
        0 <= i < analysis_times.len() ==> exists|j: int|
            0 <= j < start_times.len() && id_byte(#[trigger] start_times[j].0) == id_byte(
                #[trigger] analysis_times[i].0,
            )
    &&& forall|i: int, j: int|
        0 <= i < analysis_times.len() && 0 <= j < start_times.len() && id_byte(
            #[trigger] start_times[j].0,
        ) == id_byte(#[trigger] analysis_times[i].0) ==> start_times[j].1 <= analysis_times[i].1
}

/// For each analysed packet, in order: its id byte, and the time from when a
/// produced packet with that id byte was stamped to when the analysed one was,
/// in nanoseconds. The produced records are ordered by id byte and searched by
/// bisection, so among several produced records with the id byte any one may be
/// the one measured from. Every analysed id byte must have been produced, and
/// no analysed stamp may precede a produced stamp of its id byte.
pub fn delta_report(start_times: &[(Packet, u64)], analysis_times: &[(Packet, u64)]) -> (report:
    Vec<(u8, u64)>)
    requires
        deltas_defined(start_times@, analysis_times@),
    ensures
        report@.len() == analysis_times@.len(),
        forall|i: int|
            0 <= i < report@.len() ==> (#[trigger] report@[i]).0 == id_byte(analysis_times@[i].0)
                && exists|j: int|
                0 <= j < start_times@.len() && id_byte(#[trigger] start_times@[j].0) == report@[i].0
                    && report@[i].1 == analysis_times@[i].1 - start_times@[j].1,
{
    let mut sorted: Vec<(u8, u64)> = Vec::new();
    let n = start_times.len();
    let mut j: usize = 0;
    while j < n
        invariant
            j <= n,
            n == start_times@.len(),
            sorted@.len() == j,
            forall|k: int|
                0 <= k < j ==> #[trigger] sorted@[k] == (id_byte(start_times@[k].0), start_times@[k].1),
        decreases n - j,
    {
        let (packet, time) = start_times[j];
        sorted.push((packet.0[0], time));
        j += 1;
    }
    let ghost keyed = sorted@;
    sort_by_id(&mut sorted);
    let ghost perm = choose|perm: Seq<int>| is_stable_sort_by(sorted@, keyed, perm);
    let mut report: Vec<(u8, u64)> = Vec::new();
    let m = analysis_times.len();
    let mut i: usize = 0;
    while i < m
        invariant
            i <= m,
            m == analysis_times@.len(),
            n == start_times@.len(),
            keyed.len() == n,
            forall|k: int|
                0 <= k < n ==> #[trigger] keyed[k] == (id_byte(start_times@[k].0), start_times@[k].1),
            is_stable_sort_by(sorted@, keyed, perm),
            report@.len() == i,
            deltas_defined(start_times@, analysis_times@),
            forall|r: int|
                0 <= r < i ==> (#[trigger] report@[r]).0 == id_byte(analysis_times@[r].0) && exists|
                    j: int,
                |
                    0 <= j < start_times@.len() && id_byte(#[trigger] start_times@[j].0)
                        == report@[r].0 && report@[r].1 == analysis_times@[r].1
                        - start_times@[j].1,
        decreases m - i,
    {
        let (packet, end_time) = analysis_times[i];
        let id = packet.0[0];
        proof {
            let j = choose|j: int|
                0 <= j < start_times@.len() && id_byte(#[trigger] start_times@[j].0) == id_byte(
                    analysis_times@[i as int].0,
                );
            assert(keyed[j].0 == id);
            let s = choose|s: int| 0 <= s < perm.len() && #[trigger] perm[s] == j;
            assert(sorted@[s].0 == id);
        }
        let index = find_id(&sorted, id);
        let ghost origin = perm[index as int];
        proof {
            assert(sorted@[index as int] == keyed[origin]);
            assert(id_byte(start_times@[origin].0) == id_byte(analysis_times@[i as int].0));
        }
        let start_time = sorted[index].1;
        report.push((id, end_time - start_time));
        proof {
            assert(report@[i as int].1 == analysis_times@[i as int].1 - start_times@[origin].1);
        }
        i += 1;
    }
    report
}

} // verus!
