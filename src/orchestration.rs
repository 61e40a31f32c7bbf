//! Maintenance helpers around the memory session: live-set rewriting, stale
//! surrogate tracking and frame-id assignment for media ingest.

use std::collections::HashSet;
use vstd::prelude::*;
use vstd::std_specs::hash::group_hash_axioms;
use vstd::seq_lib::group_to_multiset_ensures;

verus! {

broadcast use {group_hash_axioms, group_to_multiset_ensures};

/// Sizes of the live set before and after a rewrite.
#[derive(Debug, Clone, Copy, PartialEq, Eq, Structural)]
pub struct LiveSetRewriteReport {
    pub before_count: usize,
    pub after_count: usize,
}

pub open spec fn not_in(s: Set<u64>) -> spec_fn(u64) -> bool {
    |x: u64| !s.contains(x)
}

pub open spec fn ascending(s: Seq<u64>) -> bool {
    forall|i: int, j: int| 0 <= i < j < s.len() ==> s[i] <= s[j]
}

/// Drops the superseded ids from the logical live set and returns the rest in
/// ascending order, with the sizes before and after.
pub fn rewrite_live_set(logical_ids: &[u64], superseded_ids: &[u64]) -> (r: (Vec<u64>, LiveSetRewriteReport))
    ensures
        r.0@.to_multiset() == logical_ids@.filter(not_in(superseded_ids@.to_set())).to_multiset(),
        ascending(r.0@),
        r.1.before_count == logical_ids@.len(),
        r.1.after_count == r.0@.len(),
{
    let mut superseded: HashSet<u64> = HashSet::new();
    let mut i: usize = 0;
    while i < superseded_ids.len()
        invariant
            i <= superseded_ids@.len(),
            superseded@ == superseded_ids@.subrange(0, i as int).to_set(),
        decreases superseded_ids@.len() - i,
    {
        superseded.insert(superseded_ids[i]);
        proof {
            let a = superseded_ids@.subrange(0, i as int);
            let b = superseded_ids@.subrange(0, i as int + 1);
            assert(b =~= a.push(superseded_ids@[i as int]));
            assert forall|x: u64| b.contains(x) <==> a.contains(x) || x == superseded_ids@[i as int] by {
                if b.contains(x) {
                    let k = choose|k: int| 0 <= k < b.len() && b[k] == x;
                    if k < i {
                        assert(a[k] == x);
                    }
                }
                if a.contains(x) {
                    let k = choose|k: int| 0 <= k < a.len() && a[k] == x;
                    assert(b[k] == x);
                }
                if x == superseded_ids@[i as int] {
                    assert(b[i as int] == x);
                }
            }
            assert(b.to_set() =~= a.to_set().insert(superseded_ids@[i as int]));
        }
        i += 1;
    }
    assert(superseded_ids@.subrange(0, i as int) =~= superseded_ids@);
    let ghost sup = superseded_ids@.to_set();
    let ghost keep = not_in(sup);
    let mut rewritten: Vec<u64> = Vec::new();
    let mut j: usize = 0;
    while j < logical_ids.len()
        invariant
            j <= logical_ids@.len(),
            superseded@ == sup,
            keep == not_in(sup),
            ascending(rewritten@),
            rewritten@.to_multiset() == logical_ids@.subrange(0, j as int).filter(keep).to_multiset(),
        decreases logical_ids@.len() - j,
    {
        let x = logical_ids[j];
        let ghost pre = logical_ids@.subrange(0, j as int + 1);
        assert(pre.drop_last() =~= logical_ids@.subrange(0, j as int));
        reveal(Seq::filter);
        if !superseded.contains(&x) {
            let mut p: usize = 0;
            while p < rewritten.len() && rewritten[p] <= x
                invariant
                    p <= rewritten@.len(),
                    forall|k: int| 0 <= k < p ==> rewritten@[k] <= x,
                decreases rewritten@.len() - p,
            {
                p += 1;
            }
            let ghost before = rewritten@;
            rewritten.insert(p, x);
            proof {
                let after = rewritten@;
                assert forall|a: int, b: int| 0 <= a < b < after.len() implies after[a] <= after[b] by {
                    if a < p && b > p {
                        assert(before[a] <= before[b - 1]);
                    } else if a > p {
                        assert(before[a - 1] <= before[b - 1]);
                    } else if a == p && b > p && p < before.len() {
                        assert(before[p as int] <= before[b - 1]);
                    }
                }
                assert(pre.filter(keep) == logical_ids@.subrange(0, j as int).filter(keep).push(x));
            }
        } else {
            assert(pre.filter(keep) == logical_ids@.subrange(0, j as int).filter(keep));
        }
        j += 1;
    }
    assert(logical_ids@.subrange(0, j as int) =~= logical_ids@);
    let n = rewritten.len();
    (rewritten, LiveSetRewriteReport { before_count: logical_ids.len(), after_count: n })
}

/// Ids whose surrogates must be rebuilt.
pub struct SurrogateMaintenance {
    stale: HashSet<u64>,
}

impl Default for SurrogateMaintenance {
    fn default() -> (r: Self)
        ensures
            r.stale() == Set::<u64>::empty(),
    {
        SurrogateMaintenance { stale: HashSet::new() }
    }
}

impl SurrogateMaintenance {
    /// The ids marked stale since the last rebuild.
    pub closed spec fn stale(&self) -> Set<u64> {
        self.stale@
    }

    pub fn mark_stale(&mut self, id: u64)
        ensures
            final(self).stale() == old(self).stale().insert(id),
    {
        self.stale.insert(id);
    }

    /// Rebuilds every stale surrogate: clears the set and returns how many there were.
    pub fn rebuild(&mut self) -> (r: usize)
        ensures
            r == old(self).stale().len(),
            final(self).stale() == Set::<u64>::empty(),
    {
        let count = self.stale.len();
        self.stale.clear();
        count
    }
}

pub const PHOTO_PIPELINE_VERSION: &'static str = "photo_rag_v1";
pub const VIDEO_PIPELINE_VERSION: &'static str = "video_rag_v1";

/// Outcome of ingesting a batch of photos.
#[derive(Debug, Clone, PartialEq, Eq)]
pub struct PhotoIngestReport {
    pub frame_ids: Vec<u64>,
    pub embeddings_generated: usize,
    pub pipeline_version: &'static str,
}

/// Outcome of ingesting a batch of video segments.
#[derive(Debug, Clone, PartialEq, Eq)]
pub struct VideoIngestReport {
    pub frame_ids: Vec<u64>,
    pub embeddings_generated: usize,
    pub pipeline_version: &'static str,
}

/// Hands out `count` consecutive frame ids starting at `*next_id`, and moves
/// `*next_id` past them.
pub fn allocate_frame_ids(next_id: &mut u64, count: usize) -> (r: Vec<u64>)
    requires
        *old(next_id) + count <= u64::MAX,
    ensures
        r@.len() == count,
        forall|i: int| 0 <= i < count ==> #[trigger] r@[i] == *old(next_id) + i,
        *final(next_id) == *old(next_id) + count,
{
    let mut ids: Vec<u64> = Vec::new();
    let mut i: usize = 0;
    while i < count
        invariant
            i <= count,
            *old(next_id) + count <= u64::MAX,
            *next_id == *old(next_id) + i,
            ids@.len() == i,
            forall|k: int| 0 <= k < i ==> #[trigger] ids@[k] == *old(next_id) + k,
        decreases count - i,
    {
        ids.push(*next_id);
        *next_id = *next_id + 1;
        i += 1;
    }
    ids
}

/// The report for photos that received `frame_ids`: one embedding per frame.
pub fn photo_ingest_report(frame_ids: Vec<u64>) -> (r: PhotoIngestReport)
    ensures
        r.frame_ids@ == frame_ids@,
        r.embeddings_generated == frame_ids@.len(),
        r.pipeline_version@ == PHOTO_PIPELINE_VERSION@,
{
    let n = frame_ids.len();
    PhotoIngestReport { frame_ids, embeddings_generated: n, pipeline_version: PHOTO_PIPELINE_VERSION }
}

/// The report for video segments that received `frame_ids`: one embedding per frame.
pub fn video_ingest_report(frame_ids: Vec<u64>) -> (r: VideoIngestReport)
    ensures
        r.frame_ids@ == frame_ids@,
        r.embeddings_generated == frame_ids@.len(),
        r.pipeline_version@ == VIDEO_PIPELINE_VERSION@,
{
    let n = frame_ids.len();
    VideoIngestReport { frame_ids, embeddings_generated: n, pipeline_version: VIDEO_PIPELINE_VERSION }
}

} // verus!
