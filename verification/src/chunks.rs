//! How a download is split into byte ranges for parallel and adaptive
//! transfers.
use vstd::prelude::*;

verus! {

/// The inclusive byte ranges that cover `[start, total)` in pieces of
/// `chunk` bytes, the last one possibly shorter.
pub open spec fn plan(start: nat, total: nat, chunk: nat) -> Seq<(nat, nat)>
    decreases total - start,
{
    if start >= total || chunk == 0 {
        Seq::empty()
    } else {
        let end: nat = if start + chunk - 1 < total - 1 {
            (start + chunk - 1) as nat
        } else {
            (total - 1) as nat
        };
        seq![(start, end)] + plan(end + 1, total, chunk)
    }
}

/// The ranges, in order, cover `[lo, hi)` exactly: each starts where the
/// previous ended, none is empty, the last ends at `hi - 1`.
pub open spec fn covers(s: Seq<(nat, nat)>, lo: nat, hi: nat) -> bool
    decreases s.len(),
{
    if s.len() == 0 {
        lo >= hi
    } else {
        s[0].0 == lo && s[0].0 <= s[0].1 && s[0].1 < hi && covers(s.drop_first(), s[0].1 + 1, hi)
    }
}

/// Every range of a plan holds at most `chunk` bytes, and all but the
/// last exactly `chunk`.
pub open spec fn sized(s: Seq<(nat, nat)>, chunk: nat) -> bool {
    forall|i: int| 0 <= i < s.len() ==> {
        &&& (#[trigger] s[i]).1 - s[i].0 + 1 <= chunk
        &&& (i < s.len() - 1 ==> s[i].1 - s[i].0 + 1 == chunk)
    }
}

/// A chunk plan covers the whole range exactly, in pieces of the chunk
/// size (the last possibly shorter).
pub proof fn lemma_plan_covers(start: nat, total: nat, chunk: nat)
    requires
        chunk > 0,
    ensures
        covers(plan(start, total, chunk), start, total),
        sized(plan(start, total, chunk), chunk),
    decreases total - start,
{
    if start < total {
        let end: nat = if start + chunk - 1 < total - 1 {
            (start + chunk - 1) as nat
        } else {
            (total - 1) as nat
        };
        lemma_plan_covers(end + 1, total, chunk);
        let p = plan(start, total, chunk);
        let rest = plan(end + 1, total, chunk);
        assert(p.drop_first() =~= rest);
        assert forall|i: int| 0 <= i < p.len() implies {
            &&& (#[trigger] p[i]).1 - p[i].0 + 1 <= chunk
            &&& (i < p.len() - 1 ==> p[i].1 - p[i].0 + 1 == chunk)
        } by {
            if i > 0 {
                assert(p[i] == rest[i - 1]);
            } else if p.len() > 1 {
                assert(rest.len() > 0);
                assert(end + 1 < total);
            }
        }
    }
}

/// The inclusive ranges of a plan, as [`plan`] states.
fn plan_ranges(start: u64, total: u64, chunk: u64) -> (r: Vec<(u64, u64)>)
    requires
        chunk > 0,
    ensures
        r@.map_values(|p: (u64, u64)| (p.0 as nat, p.1 as nat)) == plan(start as nat, total as nat, chunk as nat),
{
    let ghost whole = plan(start as nat, total as nat, chunk as nat);
    let mut r: Vec<(u64, u64)> = Vec::new();
    let mut pos = start;
    assert(r@.map_values(|p: (u64, u64)| (p.0 as nat, p.1 as nat)) + plan(pos as nat, total as nat, chunk as nat) =~= whole);
    while pos < total
        invariant
            chunk > 0,
            whole == plan(start as nat, total as nat, chunk as nat),
            r@.map_values(|p: (u64, u64)| (p.0 as nat, p.1 as nat)) + plan(pos as nat, total as nat, chunk as nat) == whole,
        decreases total - pos,
    {
        let end: u64 = if chunk - 1 < total - 1 - pos {
            pos + chunk - 1
        } else {
            total - 1
        };
        let ghost before = r@.map_values(|p: (u64, u64)| (p.0 as nat, p.1 as nat));
        let ghost rest = plan(end as nat + 1, total as nat, chunk as nat);
        assert(plan(pos as nat, total as nat, chunk as nat) == seq![(pos as nat, end as nat)] + rest);
        r.push((pos, end));
        assert(r@.map_values(|p: (u64, u64)| (p.0 as nat, p.1 as nat)) =~= before.push((pos as nat, end as nat)));
        assert(before.push((pos as nat, end as nat)) + rest =~= before + (seq![(pos as nat, end as nat)] + rest));
        pos = end + 1;
    }
    assert(plan(pos as nat, total as nat, chunk as nat) =~= Seq::<(nat, nat)>::empty());
    assert(r@.map_values(|p: (u64, u64)| (p.0 as nat, p.1 as nat)) =~= whole);
    r
}

/// The chunk size of a parallel download: the configured size, else the
/// total split among the connections, but at least 1 MiB.
pub open spec fn parallel_chunk_size(configured: Option<u64>, total: nat, connections: nat) -> nat {
    match configured {
        Some(c) => c as nat,
        None => if total / connections > 0x10_0000 {
            total / connections
        } else {
            0x10_0000
        },
    }
}

/// The byte ranges of a parallel download of `total_size` bytes over
/// `connections` connections (see [`parallel_chunk_size`] and [`plan`]).
pub fn parallel_ranges(total_size: u64, connections: usize, configured_chunk: Option<u64>) -> (r: Vec<(u64, u64)>)
    requires
        connections > 0,
        configured_chunk != Some(0u64),
    ensures
        r@.map_values(|p: (u64, u64)| (p.0 as nat, p.1 as nat)) == plan(0, total_size as nat,
            parallel_chunk_size(configured_chunk, total_size as nat, connections as nat)),
{
    let chunk: u64 = match configured_chunk {
        Some(c) => c,
        None => {
            let share = total_size / (connections as u64);
            if share > 0x10_0000 {
                share
            } else {
                0x10_0000
            }
        },
    };
    plan_ranges(0, total_size, chunk)
}

/// The smallest and largest chunk of an adaptive download.
pub open spec fn min_adaptive_chunk() -> nat {
    256 * 1024
}

/// The largest chunk of an adaptive download.
pub open spec fn max_adaptive_chunk() -> nat {
    10 * 1024 * 1024
}

/// The first chunk size of an adaptive download: the total split among
/// the chunks, held between 256 KiB and 10 MiB.
pub open spec fn initial_chunk_size(total: nat, count: nat) -> nat {
    let s = total / count;
    if s < min_adaptive_chunk() {
        min_adaptive_chunk()
    } else if s > max_adaptive_chunk() {
        max_adaptive_chunk()
    } else {
        s
    }
}

/// Calculate the first chunk size of an adaptive download (see
/// [`initial_chunk_size`]).
pub fn calculate_chunk_size(total_size: u64, chunk_count: usize) -> (r: u64)
    requires
        chunk_count > 0,
    ensures
        r == initial_chunk_size(total_size as nat, chunk_count as nat),
{
    let size = total_size / (chunk_count as u64);
    if size < 256 * 1024 {
        256 * 1024
    } else if size > 10 * 1024 * 1024 {
        10 * 1024 * 1024
    } else {
        size
    }
}

/// Split `[start, end)` into inclusive ranges of `chunk_size` bytes (the
/// last possibly shorter), as [`plan`] states.
pub fn create_chunks(start: u64, end: u64, chunk_size: u64) -> (r: Vec<(u64, u64)>)
    requires
        chunk_size > 0,
    ensures
        r@.map_values(|p: (u64, u64)| (p.0 as nat, p.1 as nat)) == plan(start as nat, end as nat, chunk_size as nat),
{
    plan_ranges(start, end, chunk_size)
}

} // verus!
