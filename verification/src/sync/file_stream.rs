//! Resumable transfer of large files in chunks.

use std::collections::HashSet;
use vstd::prelude::*;

use crate::sync::payload::{chunk_end, chunk_start, chunk_total, CHUNK_SIZE};

verus! {

/// Plans which chunks of a file are still to be uploaded.
#[derive(Debug, PartialEq, Eq, Structural)]
pub struct ResumableUploadPlanner {
    pub file_size: u64,
    pub total_chunks: u32,
}

/// The number of chunks of a file; an empty file has one, which is empty.
pub open spec fn planned_chunks(file_size: int) -> int {
    if file_size == 0 {
        1
    } else {
        chunk_total(file_size)
    }
}

/// The indices below `total` that are not among `present`, in order.
pub open spec fn missing(total: nat, present: Seq<u32>) -> Seq<u32>
    decreases total,
{
    if total == 0 {
        Seq::empty()
    } else {
        let before = missing((total - 1) as nat, present);
        if present.contains((total - 1) as u32) {
            before
        } else {
            before.push((total - 1) as u32)
        }
    }
}

impl ResumableUploadPlanner {
    /// Whether the planner counts all chunks of its file. The count is kept in
    /// 32 bits, which is enough for files below 16 PiB.
    pub open spec fn counts_all(&self) -> bool {
        self.total_chunks == planned_chunks(self.file_size as int)
    }

    /// A planner for a file; the number of chunks is cut to 32 bits.
    pub fn new(file_size: u64) -> (r: ResumableUploadPlanner)
        ensures
            r.file_size == file_size,
            r.total_chunks == planned_chunks(file_size as int) % 0x1_0000_0000,
            planned_chunks(file_size as int) <= u32::MAX ==> r.counts_all(),
    {
        let size: u64 = CHUNK_SIZE as u64;
        let chunks: u64 = if file_size == 0 {
            1
        } else if file_size % size == 0 {
            file_size / size
        } else {
            file_size / size + 1
        };
        let total: u32 = #[verifier::truncate] (chunks as u32);
        assert(total == chunks % 0x1_0000_0000) by (bit_vector)
            requires
                total == chunks as u32,
        ;
        ResumableUploadPlanner { file_size, total_chunks: total }
    }

    /// The chunks that are not among `present`, in order.
    pub fn missing_chunks(&self, present: &[u32]) -> (r: Vec<u32>)
        ensures
            r@ == missing(self.total_chunks as nat, present@),
    {
        broadcast use vstd::std_specs::hash::group_hash_axioms;

        let mut have: HashSet<u32> = HashSet::new();
        let mut i: usize = 0;
        while i < present.len()
            invariant
                i <= present@.len(),
                forall|x: u32| have@.contains(x) <==> present@.take(i as int).contains(x),
            decreases present@.len() - i,
        {
            let ghost before = have@;
            have.insert(present[i]);
            proof {
                let done = present@.take(i as int);
                let more = present@.take(i + 1);
                assert(more =~= done.push(present@[i as int]));
                assert forall|x: u32| have@.contains(x) <==> more.contains(x) by {
                    if more.contains(x) {
                        let k = choose|k: int| 0 <= k < more.len() && more[k] == x;
                        if k < i {
                            assert(done[k] == x);
                        }
                    }
                    if before.contains(x) {
                        let k = choose|k: int| 0 <= k < done.len() && done[k] == x;
                        assert(more[k] == x);
                    }
                    assert(more[i as int] == present@[i as int]);
                }
            }
            i += 1;
        }
        assert(present@.take(i as int) =~= present@);
        let mut out: Vec<u32> = Vec::new();
        let mut k: u32 = 0;
        while k < self.total_chunks
            invariant
                k <= self.total_chunks,
                forall|x: u32| have@.contains(x) <==> present@.contains(x),
                out@ == missing(k as nat, present@),
            decreases self.total_chunks - k,
        {
            if !have.contains(&k) {
                out.push(k);
            }
            k += 1;
        }
        out
    }

    /// What is left to upload when the hub already has some chunks: nothing
    /// once it has committed the whole.
    pub fn plan_upload(&self, committed: bool, present: &[u32]) -> (r: Option<Vec<u32>>)
        ensures
            committed ==> r is None,
            !committed ==> (r matches Some(v) && v@ == missing(self.total_chunks as nat, present@)),
    {
        if committed {
            None
        } else {
            Some(self.missing_chunks(present))
        }
    }

    /// Where a chunk begins in the file and how many bytes it has.
    pub fn chunk_span(&self, index: u32) -> (r: (u64, usize))
        requires
            self.counts_all(),
            index < self.total_chunks,
        ensures
            r.0 == chunk_start(index as int),
            r.0 + r.1 == chunk_end(self.file_size as int, index as int),
            r.1 <= CHUNK_SIZE,
    {
        let offset: u64 = (index as u64) * 4194304;
        proof {
            let size = self.file_size as int;
            assert(chunk_total(size) == (size + 4194303) / 4194304);
            if size > 0 {
                assert(index + 1 <= (size + 4194303) / 4194304);
                assert(index * 4194304 < size);
                if index + 1 == self.total_chunks {
                    assert(size <= (index + 1) * 4194304);
                } else {
                    assert(index + 2 <= (size + 4194303) / 4194304);
                    assert((index + 1) * 4194304 < size);
                }
            }
        }
        if index == self.total_chunks - 1 {
            (offset, (self.file_size - offset) as usize)
        } else {
            (offset, CHUNK_SIZE)
        }
    }
}

/// What is missing is exactly what is below the total and not present, each
/// index once and in ascending order.
pub proof fn missing_is_exact(total: nat, present: Seq<u32>)
    requires
        total <= u32::MAX,
    ensures
        forall|x: u32| #[trigger]
            missing(total, present).contains(x) <==> x < total && !present.contains(x),
        forall|i: int, j: int|
            0 <= i < j < missing(total, present).len() ==> missing(total, present)[i] < missing(
                total,
                present,
            )[j],
    decreases total,
{
    let m = missing(total, present);
    if total > 0 {
        missing_is_exact((total - 1) as nat, present);
        let before = missing((total - 1) as nat, present);
        let last = (total - 1) as u32;
        assert forall|x: u32| #[trigger] m.contains(x) <==> x < total && !present.contains(x) by {
            if m.contains(x) {
                let k = choose|k: int| 0 <= k < m.len() && m[k] == x;
                if k < before.len() {
                    assert(before[k] == x);
                    assert(before.contains(x));
                }
            }
            if x < total && !present.contains(x) {
                if x == last {
                    assert(m[before.len() as int] == x);
                } else {
                    assert(before.contains(x));
                    let k = choose|k: int| 0 <= k < before.len() && before[k] == x;
                    assert(m[k] == x);
                }
            }
        }
        assert forall|i: int, j: int| 0 <= i < j < m.len() implies m[i] < m[j] by {
            assert(i < before.len());
            assert(m[i] == before[i]);
            assert(before.contains(before[i]));
            assert(before[i] < total - 1);
            if j < before.len() {
                assert(m[j] == before[j]);
                assert(before[i] < before[j]);
            } else {
                assert(m[j] == last);
            }
        }
    }
}

/// A file has as many chunks of four mebibytes as it takes to hold it and no more; an
/// empty file has one.
pub proof fn files_are_covered_by_chunks(file_size: int)
    requires
        0 <= file_size,
    ensures
        planned_chunks(file_size) >= 1,
        planned_chunks(file_size) * 4194304 >= file_size,
        file_size > 0 ==> (planned_chunks(file_size) - 1) * 4194304 < file_size,
        file_size == 0 ==> planned_chunks(file_size) == 1,
{
}

/// Each byte of a file is in exactly one chunk, and chunks begin at multiples of four
/// mebibytes.
pub proof fn bytes_are_in_one_chunk(file_size: int, at: int)
    requires
        0 <= at < file_size,
    ensures
        ({
            let i = at / 4194304;
            &&& 0 <= i < planned_chunks(file_size)
            &&& chunk_start(i) <= at < chunk_end(file_size, i)
            &&& chunk_start(i) == i * 4194304
        }),
        forall|j: int|
            0 <= j < planned_chunks(file_size) && #[trigger] chunk_start(j) <= at < chunk_end(
                file_size,
                j,
            ) ==> j == at / 4194304,
{
}


/// What is sent of a file is just what is missing: every chunk below the total that is not
/// there, in order, and nothing of a file that is complete.
pub proof fn missing_chunks_are_sent(
    file_size: u64,
    p: ResumableUploadPlanner,
    committed: bool,
    present: &[u32],
    r: Option<Vec<u32>>,
    m: Vec<u32>,
    x: u32,
    i: int,
    j: int,
)
    requires
        call_ensures(ResumableUploadPlanner::new, (file_size,), p),
        call_ensures(ResumableUploadPlanner::plan_upload, (&p, committed, present), r),
        call_ensures(ResumableUploadPlanner::missing_chunks, (&p, present), m),
    ensures
        p.file_size == file_size,
        file_size <= 0xffff_ffff * 4194304 ==> {
            &&& p.total_chunks >= 1
            &&& p.total_chunks * 4194304 >= file_size
            &&& file_size > 0 ==> (p.total_chunks - 1) * 4194304 < file_size
            &&& file_size == 0 ==> p.total_chunks == 1
        },
        r is None <==> committed,
        r is Some ==> r->0@ == m@,
        m@.contains(x) <==> x < p.total_chunks && !present@.contains(x),
        0 <= i < j < m@.len() ==> m@[i] < m@[j],
{
    missing_is_exact(p.total_chunks as nat, present@);
    files_are_covered_by_chunks(file_size as int);
}

/// The chunks of a file begin every four mebibytes, and only the last may be shorter.
pub proof fn chunks_lie_side_by_side(p: ResumableUploadPlanner, index: u32, r: (u64, usize))
    requires
        p.counts_all(),
        index < p.total_chunks,
        call_ensures(ResumableUploadPlanner::chunk_span, (&p, index), r),
    ensures
        r.0 == index * 4194304,
        index + 1 < p.total_chunks ==> r.1 == 4194304,
        index + 1 == p.total_chunks ==> r.0 + r.1 == p.file_size,
{
    files_are_covered_by_chunks(p.file_size as int);
}


} // verus!
