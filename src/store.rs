//! Frames and the in-memory lifecycle store: identity, status, supersede
//! links, visibility and the timeline projection.

use std::collections::HashMap;
use vstd::prelude::*;
use vstd::std_specs::hash::group_hash_axioms;

verus! {

broadcast use group_hash_axioms;

#[derive(Debug, Clone, Copy, PartialEq, Eq, Structural)]
pub enum FrameStatus {
    Active,
    Deleted,
}

/// Lifecycle metadata of one frame.
#[derive(Debug, Clone, Copy, PartialEq, Eq, Structural)]
pub struct FrameMeta {
    pub id: u64,
    pub status: FrameStatus,
    pub supersedes: Option<u64>,
    pub superseded_by: Option<u64>,
    pub timestamp: u64,
}

pub open spec fn active_meta(id: u64, timestamp: u64) -> FrameMeta {
    FrameMeta { id, status: FrameStatus::Active, supersedes: None, superseded_by: None, timestamp }
}

impl FrameMeta {
    /// Metadata of a freshly stored frame: active, with no links.
    pub fn active(id: u64, timestamp: u64) -> (r: Self)
        ensures
            r == active_meta(id, timestamp),
    {
        FrameMeta { id, status: FrameStatus::Active, supersedes: None, superseded_by: None, timestamp }
    }
}

/// The metadata of frame `id`, where the frame with id `k` sits at index `k - 1`.
pub open spec fn meta_of(ms: Seq<FrameMeta>, id: u64) -> Option<FrameMeta> {
    if 1 <= id <= ms.len() {
        Some(ms[id - 1])
    } else {
        None
    }
}

/// A frame is visible when it is active and nothing supersedes it.
pub open spec fn is_visible(m: FrameMeta) -> bool {
    m.status == FrameStatus::Active && m.superseded_by is None
}

pub open spec fn visible_of(ms: Seq<FrameMeta>, id: u64) -> Option<FrameMeta> {
    match meta_of(ms, id) {
        Some(m) => if is_visible(m) {
            Some(m)
        } else {
            None
        },
        None => None,
    }
}

/// Applies `f` to the metadata of frame `id`, if there is one.
pub open spec fn update_meta(ms: Seq<FrameMeta>, id: u64, f: spec_fn(FrameMeta) -> FrameMeta) -> Seq<FrameMeta> {
    if 1 <= id <= ms.len() {
        ms.update(id - 1, f(ms[id - 1]))
    } else {
        ms
    }
}

pub open spec fn mark_deleted() -> spec_fn(FrameMeta) -> FrameMeta {
    |m: FrameMeta| FrameMeta { status: FrameStatus::Deleted, ..m }
}

pub open spec fn link_superseded_by(by: u64) -> spec_fn(FrameMeta) -> FrameMeta {
    |m: FrameMeta| FrameMeta { superseded_by: Some(by), ..m }
}

pub open spec fn link_supersedes(prior: u64) -> spec_fn(FrameMeta) -> FrameMeta {
    |m: FrameMeta| FrameMeta { supersedes: Some(prior), ..m }
}

/// The metadata after `supersede(old_id, new_id)`.
pub open spec fn supersede_spec(ms: Seq<FrameMeta>, old_id: u64, new_id: u64) -> Seq<FrameMeta> {
    update_meta(update_meta(ms, old_id, link_superseded_by(new_id)), new_id, link_supersedes(old_id))
}

/// Whether `m` appears in the timeline.
pub open spec fn in_timeline(m: FrameMeta, include_superseded: bool) -> bool {
    m.status == FrameStatus::Active && (include_superseded || m.superseded_by is None)
}

/// Timeline order: by timestamp, then by id (which is the order of insertion).
pub open spec fn timeline_before(a: FrameMeta, b: FrameMeta) -> bool {
    a.timestamp < b.timestamp || (a.timestamp == b.timestamp && a.id < b.id)
}

/// Frame ids are assigned 1, 2, 3, ... and each frame's metadata sits at its id minus one.
pub open spec fn ids_in_place(ms: Seq<FrameMeta>) -> bool {
    forall|i: int| 0 <= i < ms.len() ==> (#[trigger] ms[i]).id == i + 1
}

/// Frame metadata and payloads, keyed by frame id.
pub struct LifecycleStore {
    payloads: HashMap<u64, Vec<u8>>,
    metas: Vec<FrameMeta>,
}

impl LifecycleStore {
    #[verifier::type_invariant]
    spec fn inv(&self) -> bool {
        &&& ids_in_place(self.metas@)
    }

    /// Metadata of every frame ever stored, in order of insertion.
    pub closed spec fn metas(&self) -> Seq<FrameMeta> {
        self.metas@
    }

    /// Payloads still held, by frame id.
    pub closed spec fn payloads(&self) -> Map<u64, Seq<u8>> {
        Map::new(|k: u64| self.payloads@.contains_key(k), |k: u64| self.payloads@[k]@)
    }

    /// The id the next `put` assigns: one past the number of frames stored.
    pub closed spec fn next_id(&self) -> int {
        self.metas@.len() as int + 1
    }

    pub fn new() -> (r: Self)
        ensures
            r.metas() == Seq::<FrameMeta>::empty(),
            r.payloads() == Map::<u64, Seq<u8>>::empty(),
            r.next_id() == 1,
    {
        let r = LifecycleStore { payloads: HashMap::new(), metas: Vec::new() };
        assert(r.payloads() =~= Map::<u64, Seq<u8>>::empty());
        r
    }

    /// How many frames have been stored.
    pub fn frame_count(&self) -> (r: usize)
        ensures
            r == self.metas().len(),
    {
        self.metas.len()
    }

    /// Stores a new active frame and returns its id.
    pub fn put(&mut self, payload: Vec<u8>, timestamp: u64) -> (r: u64)
        requires
            old(self).next_id() < u64::MAX,
        ensures
            r == old(self).next_id(),
            final(self).metas() == old(self).metas().push(active_meta(r, timestamp)),
            final(self).payloads() == old(self).payloads().insert(r, payload@),
            ids_in_place(final(self).metas()),
    {
        proof {
            use_type_invariant(&*self);
        }
        let id = self.metas.len() as u64 + 1;
        let ghost pv = payload@;
        let mut metas: Vec<FrameMeta> = Vec::new();
        std::mem::swap(&mut metas, &mut self.metas);
        metas.push(FrameMeta::active(id, timestamp));
        let mut payloads: HashMap<u64, Vec<u8>> = HashMap::new();
        std::mem::swap(&mut payloads, &mut self.payloads);
        payloads.insert(id, payload);
        *self = LifecycleStore { payloads, metas };
        assert(self.payloads() =~= old(self).payloads().insert(id, pv));
        id
    }

    /// Marks frame `id` deleted and drops its payload.
    pub fn delete(&mut self, id: u64)
        ensures
            final(self).metas() == update_meta(old(self).metas(), id, mark_deleted()),
            final(self).payloads() == old(self).payloads().remove(id),
    {
        proof {
            use_type_invariant(&*self);
        }
        let mut metas: Vec<FrameMeta> = Vec::new();
        std::mem::swap(&mut metas, &mut self.metas);
        if 1 <= id && id <= metas.len() as u64 {
            let i = (id - 1) as usize;
            let mut m = metas[i];
            m.status = FrameStatus::Deleted;
            metas.set(i, m);
        }
        let mut payloads: HashMap<u64, Vec<u8>> = HashMap::new();
        std::mem::swap(&mut payloads, &mut self.payloads);
        payloads.remove(&id);
        let ghost ms = metas@;
        assert(ms =~= update_meta(old(self).metas(), id, mark_deleted()));
        *self = LifecycleStore { payloads, metas };
        assert(self.payloads() =~= old(self).payloads().remove(id));
    }

    /// Links `superseded_id` to `superseding_id` in both directions; a side
    /// whose id is absent is left alone.
    pub fn supersede(&mut self, superseded_id: u64, superseding_id: u64)
        ensures
            final(self).metas() == supersede_spec(old(self).metas(), superseded_id, superseding_id),
            final(self).payloads() == old(self).payloads(),
    {
        proof {
            use_type_invariant(&*self);
        }
        let mut metas: Vec<FrameMeta> = Vec::new();
        std::mem::swap(&mut metas, &mut self.metas);
        if 1 <= superseded_id && superseded_id <= metas.len() as u64 {
            let i = (superseded_id - 1) as usize;
            let mut m = metas[i];
            m.superseded_by = Some(superseding_id);
            metas.set(i, m);
        }
        assert(metas@ =~= update_meta(old(self).metas(), superseded_id, link_superseded_by(superseding_id)));
        if 1 <= superseding_id && superseding_id <= metas.len() as u64 {
            let i = (superseding_id - 1) as usize;
            let mut m = metas[i];
            m.supersedes = Some(superseded_id);
            metas.set(i, m);
        }
        let ghost ms = metas@;
        assert(ms =~= supersede_spec(old(self).metas(), superseded_id, superseding_id));
        self.metas = metas;
    }

    /// The metadata of frame `id` if it is active and not superseded.
    pub fn get_visible(&self, id: u64) -> (r: Option<&FrameMeta>)
        ensures
            match r {
                Some(m) => visible_of(self.metas(), id) == Some(*m),
                None => visible_of(self.metas(), id) is None,
            },
    {
        match self.meta(id) {
            Some(m) => if m.status == FrameStatus::Active && m.superseded_by.is_none() {
                Some(m)
            } else {
                None
            },
            None => None,
        }
    }

    /// Active frames (superseded ones only when asked for), by timestamp;
    /// frames of equal timestamp keep their order of insertion.
    pub fn timeline(&self, include_superseded: bool) -> (r: Vec<FrameMeta>)
        ensures
            forall|m: FrameMeta| #[trigger] r@.contains(m) <==> (meta_of(self.metas(), m.id) == Some(m)
                && in_timeline(m, include_superseded)),
            forall|i: int, j: int| 0 <= i < j < r@.len() ==> timeline_before(r@[i], r@[j]),
    {
        proof {
            use_type_invariant(self);
        }
        let ghost ms = self.metas@;
        let mut out: Vec<FrameMeta> = Vec::new();
        let mut i: usize = 0;
        while i < self.metas.len()
            invariant
                i <= ms.len(),
                ms == self.metas@,
                ids_in_place(ms),
                forall|m: FrameMeta| #[trigger] out@.contains(m) <==> (1 <= m.id <= i && ms[m.id - 1] == m
                    && in_timeline(m, include_superseded)),
                forall|a: int, b: int| 0 <= a < b < out@.len() ==> timeline_before(out@[a], out@[b]),
            decreases ms.len() - i,
        {
            let m = self.metas[i];
            assert(m.id == i + 1);
            if m.status == FrameStatus::Active && (include_superseded || m.superseded_by.is_none()) {
                let mut p: usize = 0;
                while p < out.len() && out[p].timestamp <= m.timestamp
                    invariant
                        p <= out@.len(),
                        m.id == i + 1,
                        forall|x: FrameMeta| #[trigger] out@.contains(x) ==> x.id <= i,
                        forall|k: int| 0 <= k < p ==> timeline_before(#[trigger] out@[k], m),
                    decreases out@.len() - p,
                {
                    proof {
                        assert(out@.contains(out@[p as int]));
                    }
                    p += 1;
                }
                let ghost before = out@;
                proof {
                    if p < before.len() {
                        assert(before.contains(before[p as int]));
                        assert(timeline_before(m, before[p as int]));
                    }
                }
                out.insert(p, m);
                proof {
                    let after = out@;
                    assert forall|a: int, b: int| 0 <= a < b < after.len() implies timeline_before(
                        after[a],
                        after[b],
                    ) by {
                        if a < p && b == p {
                        } else if a == p && b > p {
                            if b > p + 1 {
                                assert(timeline_before(before[p as int], before[b - 1]));
                            }
                        }
                    }
                    assert forall|x: FrameMeta| #[trigger] after.contains(x) <==> (before.contains(x)
                        || x == m) by {
                        if after.contains(x) {
                            let k = choose|k: int| 0 <= k < after.len() && after[k] == x;
                            if k < p {
                                assert(before[k] == x);
                            } else if k > p {
                                assert(before[k - 1] == x);
                            }
                        }
                        if before.contains(x) {
                            let k = choose|k: int| 0 <= k < before.len() && before[k] == x;
                            if k < p {
                                assert(after[k] == x);
                            } else {
                                assert(after[k + 1] == x);
                            }
                        }
                        if x == m {
                            assert(after[p as int] == x);
                        }
                    }
                }
            }
            i += 1;
        }
        out
    }

    /// The metadata of frame `id`, whatever its status.
    pub fn meta(&self, id: u64) -> (r: Option<&FrameMeta>)
        ensures
            match r {
                Some(m) => meta_of(self.metas(), id) == Some(*m),
                None => meta_of(self.metas(), id) is None,
            },
    {
        if 1 <= id && id <= self.metas.len() as u64 {
            Some(&self.metas[(id - 1) as usize])
        } else {
            None
        }
    }
}

/// After `supersede(a, b)` of two distinct stored frames where `b` was
/// visible, `a` is hidden and `b` stays visible.
pub proof fn lemma_supersede_hides_old(ms: Seq<FrameMeta>, a: u64, b: u64)
    requires
        meta_of(ms, a) is Some,
        visible_of(ms, b) is Some,
        a != b,
    ensures
        visible_of(supersede_spec(ms, a, b), a) is None,
        visible_of(supersede_spec(ms, a, b), b) is Some,
{
}

} // verus!
