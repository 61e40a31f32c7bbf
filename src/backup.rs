//! Backup manifests, chain verification, full and incremental restore, and
//! point-in-time recovery.

use vstd::prelude::*;

verus! {

/// One snapshot of a backup chain.
#[derive(Debug, Clone, PartialEq, Eq)]
pub struct BackupManifest {
    pub snapshot_id: String,
    pub base_snapshot_id: Option<String>,
    pub generation: u64,
    pub wal_start_seq: u64,
    pub wal_end_seq: u64,
    pub changed_segments: Vec<String>,
}

/// Segment names as character sequences.
pub open spec fn names_view(v: Seq<String>) -> Seq<Seq<char>> {
    v.map_values(|s: String| s@)
}

/// A full manifest: no base and an empty WAL range.
pub fn full_manifest(snapshot_id: &str, generation: u64, segments: Vec<String>) -> (r: BackupManifest)
    ensures
        r.snapshot_id@ == snapshot_id@,
        r.base_snapshot_id is None,
        r.generation == generation,
        r.wal_start_seq == 0,
        r.wal_end_seq == 0,
        r.changed_segments@ == segments@,
{
    BackupManifest {
        snapshot_id: snapshot_id.to_owned(),
        base_snapshot_id: None,
        generation,
        wal_start_seq: 0,
        wal_end_seq: 0,
        changed_segments: segments,
    }
}

/// An incremental manifest on top of `base_snapshot_id`.
pub fn incremental_manifest(
    base_snapshot_id: &str,
    snapshot_id: &str,
    generation: u64,
    wal_start_seq: u64,
    wal_end_seq: u64,
    changed_segments: Vec<String>,
) -> (r: BackupManifest)
    ensures
        r.snapshot_id@ == snapshot_id@,
        r.base_snapshot_id matches Some(b) && b@ == base_snapshot_id@,
        r.generation == generation,
        r.wal_start_seq == wal_start_seq,
        r.wal_end_seq == wal_end_seq,
        r.changed_segments@ == changed_segments@,
{
    BackupManifest {
        snapshot_id: snapshot_id.to_owned(),
        base_snapshot_id: Some(base_snapshot_id.to_owned()),
        generation,
        wal_start_seq,
        wal_end_seq,
        changed_segments,
    }
}

/// Element `i` (from 1 on) builds on element `i - 1` and has an ordered WAL range.
pub open spec fn link_ok(ms: Seq<BackupManifest>, i: int) -> bool {
    &&& ms[i].base_snapshot_id matches Some(b) && b@ == ms[i - 1].snapshot_id@
    &&& ms[i].wal_start_seq <= ms[i].wal_end_seq
}

/// A chain is sound when every element after the first links to its predecessor.
pub open spec fn chain_ok(ms: Seq<BackupManifest>) -> bool {
    forall|i: int| 1 <= i < ms.len() ==> #[trigger] link_ok(ms, i)
}

pub fn verify_chain(manifests: &[BackupManifest]) -> (r: bool)
    ensures
        r == chain_ok(manifests@),
{
    let mut i: usize = 1;
    while i < manifests.len()
        invariant
            1 <= i,
            i <= manifests@.len() || manifests@.len() == 0,
            forall|k: int| 1 <= k < i && k < manifests@.len() ==> #[trigger] link_ok(manifests@, k),
        decreases manifests@.len() - i,
    {
        let prev = &manifests[i - 1];
        let cur = &manifests[i];
        let linked = match &cur.base_snapshot_id {
            Some(b) => *b == prev.snapshot_id,
            None => false,
        };
        if !linked {
            assert(!link_ok(manifests@, i as int));
            return false;
        }
        if cur.wal_start_seq > cur.wal_end_seq {
            assert(!link_ok(manifests@, i as int));
            return false;
        }
        i += 1;
    }
    true
}

/// A chain in which some manifest does not name its predecessor as its base
/// is reported as interrupted.
pub proof fn lemma_broken_link_detected(ms: Seq<BackupManifest>, i: int)
    requires
        1 <= i < ms.len(),
        !(ms[i].base_snapshot_id matches Some(b) && b@ == ms[i - 1].snapshot_id@),
    ensures
        !chain_ok(ms),
{
    assert(!link_ok(ms, i));
}

/// A chain that does not verify was interrupted.
pub fn interrupted_chain_detected(manifests: &[BackupManifest]) -> (r: bool)
    ensures
        r == !chain_ok(manifests@),
{
    !verify_chain(manifests)
}

/// The snapshots applied by a restore, in order.
#[derive(Debug, Clone, PartialEq, Eq)]
pub struct RestoreState {
    pub applied_snapshots: Vec<String>,
}

pub fn restore_full(base: &BackupManifest) -> (r: RestoreState)
    ensures
        names_view(r.applied_snapshots@) == seq![base.snapshot_id@],
{
    let r = RestoreState { applied_snapshots: vec![base.snapshot_id.clone()] };
    assert(names_view(r.applied_snapshots@) =~= seq![base.snapshot_id@]);
    r
}

pub open spec fn snapshot_ids(ms: Seq<BackupManifest>) -> Seq<Seq<char>> {
    ms.map_values(|m: BackupManifest| m.snapshot_id@)
}

/// Replays a verified chain; a broken chain gives nothing.
pub fn restore_incremental(chain: &[BackupManifest]) -> (r: Option<RestoreState>)
    ensures
        r is Some <==> chain_ok(chain@),
        r matches Some(s) ==> names_view(s.applied_snapshots@) == snapshot_ids(chain@),
{
    if !verify_chain(chain) {
        return None;
    }
    let mut applied: Vec<String> = Vec::new();
    let mut i: usize = 0;
    while i < chain.len()
        invariant
            i <= chain@.len(),
            names_view(applied@) == snapshot_ids(chain@.subrange(0, i as int)),
        decreases chain@.len() - i,
    {
        let ghost prev = applied@;
        let id = chain[i].snapshot_id.clone();
        applied.push(id);
        assert(names_view(applied@) =~= names_view(prev).push(chain@[i as int].snapshot_id@));
        assert(snapshot_ids(chain@.subrange(0, i as int + 1)) =~= snapshot_ids(
            chain@.subrange(0, i as int),
        ).push(chain@[i as int].snapshot_id@));
        i += 1;
    }
    assert(chain@.subrange(0, i as int) =~= chain@);
    Some(RestoreState { applied_snapshots: applied })
}

/// The manifest point-in-time recovery picks: among those whose WAL ends at or
/// before `t`, one with the largest end; of several, the last.
pub open spec fn pitr_pick(ms: Seq<BackupManifest>, t: u64) -> Option<int>
    decreases ms.len(),
{
    if ms.len() == 0 {
        None
    } else {
        let p = pitr_pick(ms.drop_last(), t);
        let last = ms.len() - 1;
        if ms[last].wal_end_seq <= t && (p matches Some(k) ==> ms[k].wal_end_seq <= ms[last].wal_end_seq) {
            Some(last)
        } else {
            p
        }
    }
}

/// The snapshot to restore to reach WAL sequence `target_wal_seq`.
pub fn restore_pitr(manifests: &[BackupManifest], target_wal_seq: u64) -> (r: Option<String>)
    ensures
        match pitr_pick(manifests@, target_wal_seq) {
            None => r is None,
            Some(k) => r matches Some(s) && s@ == manifests@[k].snapshot_id@,
        },
{
    let mut best: Option<usize> = None;
    let mut i: usize = 0;
    while i < manifests.len()
        invariant
            i <= manifests@.len(),
            pitr_pick(manifests@.subrange(0, i as int), target_wal_seq) == match best {
                Some(b) => Some(b as int),
                None => None::<int>,
            },
            best matches Some(b) ==> b < i,
        decreases manifests@.len() - i,
    {
        let ghost pre = manifests@.subrange(0, i as int);
        let ghost next = manifests@.subrange(0, i as int + 1);
        assert(next.drop_last() =~= pre);
        assert(next[i as int] == manifests@[i as int]);
        assert(best matches Some(b) ==> next[b as int] == manifests@[b as int]);
        let m = &manifests[i];
        if m.wal_end_seq <= target_wal_seq {
            let take = match best {
                Some(b) => manifests[b].wal_end_seq <= m.wal_end_seq,
                None => true,
            };
            if take {
                best = Some(i);
            }
        }
        i += 1;
    }
    assert(manifests@.subrange(0, i as int) =~= manifests@);
    match best {
        Some(b) => Some(manifests[b].snapshot_id.clone()),
        None => None,
    }
}

/// The picked manifest ends at or before `t`, and no manifest that does ends later.
pub proof fn lemma_pitr_pick_is_latest(ms: Seq<BackupManifest>, t: u64)
    ensures
        pitr_pick(ms, t) matches Some(k) ==> 0 <= k < ms.len() && ms[k].wal_end_seq <= t,
        pitr_pick(ms, t) matches Some(k) ==> forall|j: int| 0 <= j < ms.len() && ms[j].wal_end_seq <= t
            ==> #[trigger] ms[j].wal_end_seq <= ms[k].wal_end_seq,
        pitr_pick(ms, t) is None ==> forall|j: int| 0 <= j < ms.len() ==> #[trigger] ms[j].wal_end_seq > t,
    decreases ms.len(),
{
    if ms.len() > 0 {
        lemma_pitr_pick_is_latest(ms.drop_last(), t);
        assert forall|j: int| 0 <= j < ms.len() - 1 implies #[trigger] ms[j] == ms.drop_last()[j] by {}
    }
}

/// Point-in-time recovery never picks an earlier snapshot for a later target:
/// whatever a target `t1` picks, a target `t2 >= t1` picks one ending no earlier.
pub proof fn lemma_pitr_monotone(ms: Seq<BackupManifest>, t1: u64, t2: u64)
    requires
        t1 <= t2,
    ensures
        pitr_pick(ms, t1) matches Some(i) ==> pitr_pick(ms, t2) matches Some(k) && ms[i].wal_end_seq
            <= ms[k].wal_end_seq,
{
    lemma_pitr_pick_is_latest(ms, t1);
    lemma_pitr_pick_is_latest(ms, t2);
    if let Some(i) = pitr_pick(ms, t1) {
        assert(ms[i].wal_end_seq <= t2);
    }
}

} // verus!
