//! The write-ahead log: entry wire form, the bounded ring of sequenced
//! records, compaction, and replay of the uncommitted working set.

use std::collections::HashMap;
use vstd::prelude::*;
use vstd::bytes::*;
use vstd::std_specs::hash::group_hash_axioms;
use crate::codec::{
    BinaryDecodeError, BinaryDecoder, BinaryEncoder, Prim, PrimKind, decode_prim, encode_blob,
    encode_prim, lemma_decode_one, kind_of,
};

verus! {

broadcast use group_hash_axioms;

/// A logged mutation.
#[derive(Debug, Clone, PartialEq, Eq)]
pub enum WALEntry {
    PutFrame { frame_id: u64, payload: Vec<u8> },
    DeleteFrame { frame_id: u64 },
}

/// What a log entry says, as plain values.
pub enum EntryModel {
    Put(u64, Seq<u8>),
    Delete(u64),
}

impl View for WALEntry {
    type V = EntryModel;

    open spec fn view(&self) -> EntryModel {
        match self {
            WALEntry::PutFrame { frame_id, payload } => EntryModel::Put(*frame_id, payload@),
            WALEntry::DeleteFrame { frame_id } => EntryModel::Delete(*frame_id),
        }
    }
}

/// Wire form: tag (1 put, 2 delete), frame id, and for a put the length-prefixed payload.
pub open spec fn entry_bytes(e: EntryModel) -> Seq<u8> {
    match e {
        EntryModel::Put(id, p) => seq![1u8] + spec_u64_to_le_bytes(id) + encode_blob(p),
        EntryModel::Delete(id) => seq![2u8] + spec_u64_to_le_bytes(id),
    }
}

/// An entry can be written when its payload length fits the `u32` prefix.
pub open spec fn entry_encodable(e: EntryModel) -> bool {
    match e {
        EntryModel::Put(_, p) => p.len() <= u32::MAX,
        EntryModel::Delete(_) => true,
    }
}

/// Reading an entry from the front of `b`; bytes after it are not looked at.
/// An unknown tag reads as a truncated entry.
pub open spec fn entry_decode(b: Seq<u8>) -> Result<EntryModel, BinaryDecodeError> {
    match decode_prim(PrimKind::U8, b, 0) {
        (Err(e), _) => Err(e),
        (Ok(t), at1) => match decode_prim(PrimKind::U64, b, at1) {
            (Err(e), _) => Err(e),
            (Ok(id), at2) => {
                let id = id->U64_0;
                if t->U8_0 == 1 {
                    match decode_prim(PrimKind::Bytes, b, at2) {
                        (Err(e), _) => Err(e),
                        (Ok(p), _) => Ok(EntryModel::Put(id, p->Bytes_0)),
                    }
                } else if t->U8_0 == 2 {
                    Ok(EntryModel::Delete(id))
                } else {
                    Err(BinaryDecodeError::UnexpectedEof)
                }
            },
        },
    }
}

impl WALEntry {
    pub fn encode(&self) -> (r: Vec<u8>)
        requires
            entry_encodable(self@),
        ensures
            r@ == entry_bytes(self@),
    {
        let mut enc = BinaryEncoder::new();
        match self {
            WALEntry::PutFrame { frame_id, payload } => {
                enc.put_u8(1);
                enc.put_u64(*frame_id);
                enc.put_bytes(payload.as_slice());
            },
            WALEntry::DeleteFrame { frame_id } => {
                enc.put_u8(2);
                enc.put_u64(*frame_id);
            },
        }
        let r = enc.finish();
        assert(r@ =~= entry_bytes(self@));
        r
    }

    pub fn decode(bytes: &[u8]) -> (r: Result<Self, BinaryDecodeError>)
        ensures
            match r {
                Ok(e) => entry_decode(bytes@) == Ok::<EntryModel, BinaryDecodeError>(e@),
                Err(x) => entry_decode(bytes@) == Err::<EntryModel, BinaryDecodeError>(x),
            },
    {
        let mut dec = BinaryDecoder::new(bytes);
        let tag = dec.get_u8()?;
        let frame_id = dec.get_u64()?;
        if tag == 1 {
            let payload = dec.get_bytes()?;
            Ok(WALEntry::PutFrame { frame_id, payload })
        } else if tag == 2 {
            Ok(WALEntry::DeleteFrame { frame_id })
        } else {
            Err(BinaryDecodeError::UnexpectedEof)
        }
    }
}

/// An encoded entry decodes back to itself.
pub proof fn lemma_entry_round_trip(e: EntryModel)
    requires
        entry_encodable(e),
        entry_bytes(e).len() <= usize::MAX,
    ensures
        entry_decode(entry_bytes(e)) == Ok::<EntryModel, BinaryDecodeError>(e),
{
    lemma_auto_spec_u64_to_from_le_bytes();
    lemma_auto_spec_u32_to_from_le_bytes();
    let b = entry_bytes(e);
    match e {
        EntryModel::Put(id, p) => {
            let t = Prim::U8(1);
            let i = Prim::U64(id);
            let pb = Prim::Bytes(p);
            assert(b =~= Seq::<u8>::empty() + encode_prim(t) + (encode_prim(i) + encode_prim(pb)));
            lemma_decode_one(t, Seq::empty(), encode_prim(i) + encode_prim(pb));
            assert(b =~= encode_prim(t) + encode_prim(i) + encode_prim(pb));
            lemma_decode_one(i, encode_prim(t), encode_prim(pb));
            assert(b =~= (encode_prim(t) + encode_prim(i)) + encode_prim(pb) + Seq::<u8>::empty());
            lemma_decode_one(pb, encode_prim(t) + encode_prim(i), Seq::empty());
        },
        EntryModel::Delete(id) => {
            let t = Prim::U8(2);
            let i = Prim::U64(id);
            assert(b =~= Seq::<u8>::empty() + encode_prim(t) + encode_prim(i));
            lemma_decode_one(t, Seq::empty(), encode_prim(i));
            assert(b =~= encode_prim(t) + encode_prim(i) + Seq::<u8>::empty());
            lemma_decode_one(i, encode_prim(t), Seq::empty());
        },
    }
}

/// A log entry with its sequence number.
#[derive(Debug, Clone, PartialEq, Eq)]
pub struct WALRecord {
    pub sequence: u64,
    pub entry: WALEntry,
}

impl View for WALRecord {
    type V = (u64, EntryModel);

    open spec fn view(&self) -> (u64, EntryModel) {
        (self.sequence, self.entry@)
    }
}

pub open spec fn records_view(rs: Seq<WALRecord>) -> Seq<(u64, EntryModel)> {
    rs.map_values(|r: WALRecord| r@)
}

/// Sequence numbers strictly increase along the records, and all lie below `next`.
pub open spec fn sequenced_below(rs: Seq<(u64, EntryModel)>, next: u64) -> bool {
    &&& forall|i: int, j: int| 0 <= i < j < rs.len() ==> rs[i].0 < rs[j].0
    &&& forall|i: int| 0 <= i < rs.len() ==> #[trigger] rs[i].0 < next
}

/// What appending `rec` to `rs` leaves in a ring of capacity `cap`: the oldest
/// records are dropped until at most `cap` remain.
pub open spec fn ring_push(rs: Seq<(u64, EntryModel)>, rec: (u64, EntryModel), cap: nat) -> Seq<(u64, EntryModel)> {
    let s = rs.push(rec);
    if s.len() > cap {
        s.subrange(s.len() - cap, s.len() as int)
    } else {
        s
    }
}

/// A capacity-bounded ring of sequenced log records.
#[derive(Debug)]
pub struct WALRing {
    capacity: usize,
    next_sequence: u64,
    records: Vec<WALRecord>,
}

impl View for WALRing {
    type V = Seq<(u64, EntryModel)>;

    /// The records held, oldest first.
    closed spec fn view(&self) -> Seq<(u64, EntryModel)> {
        records_view(self.records@)
    }
}

impl WALRing {
    #[verifier::type_invariant]
    spec fn inv(&self) -> bool {
        &&& self.capacity >= 1
        &&& self.next_sequence >= 1
        &&& self.records@.len() <= self.capacity
        &&& sequenced_below(records_view(self.records@), self.next_sequence)
    }

    /// The most records the ring holds.
    pub closed spec fn capacity(&self) -> nat {
        self.capacity as nat
    }

    /// The sequence number the next append receives.
    pub closed spec fn next_seq(&self) -> u64 {
        self.next_sequence
    }

    pub fn new(capacity: usize) -> (r: Self)
        ensures
            r.capacity() == if capacity == 0 { 1 } else { capacity as nat },
            r.next_seq() == 1,
            r@ == Seq::<(u64, EntryModel)>::empty(),
    {
        let cap = if capacity == 0 { 1 } else { capacity };
        let r = WALRing { capacity: cap, next_sequence: 1, records: Vec::new() };
        assert(records_view(r.records@) =~= Seq::<(u64, EntryModel)>::empty());
        r
    }

    /// The sequence number the next append receives.
    pub fn next_sequence(&self) -> (r: u64)
        ensures
            r == self.next_seq(),
    {
        self.next_sequence
    }

    /// Appends `entry` under the next sequence number and returns that number.
    pub fn append(&mut self, entry: WALEntry) -> (r: u64)
        requires
            old(self).next_seq() < u64::MAX,
        ensures
            r == old(self).next_seq(),
            final(self).next_seq() == r + 1,
            final(self).capacity() == old(self).capacity(),
            final(self)@ == ring_push(old(self)@, (r, entry@), old(self).capacity()),
            sequenced_below(final(self)@, final(self).next_seq()),
            final(self)@.len() <= final(self).capacity(),
    {
        proof {
            use_type_invariant(&*self);
        }
        let seq = self.next_sequence;
        let ghost entry_view = entry@;
        let mut records: Vec<WALRecord> = Vec::new();
        std::mem::swap(&mut records, &mut self.records);
        records.push(WALRecord { sequence: seq, entry });
        let ghost pushed = records@;
        assert(records_view(pushed) =~= old(self)@.push((seq, entry_view)));
        if records.len() > self.capacity {
            records.remove(0);
            assert(records_view(records@) =~= records_view(pushed).subrange(
                records_view(pushed).len() - self.capacity,
                records_view(pushed).len() as int,
            ));
        }
        self.next_sequence = seq + 1;
        self.records = records;
        seq
    }

    /// The records held, oldest first.
    pub fn records(&self) -> (r: &[WALRecord])
        ensures
            records_view(r@) == self@,
            sequenced_below(self@, self.next_seq()),
    {
        proof {
            use_type_invariant(self);
        }
        self.records.as_slice()
    }

    /// Drops every record with a sequence number at or below `committed_seq`
    /// and returns how many were dropped.
    pub fn compact(&mut self, committed_seq: u64) -> (r: usize)
        ensures
            r <= old(self)@.len(),
            forall|i: int| 0 <= i < r ==> #[trigger] old(self)@[i].0 <= committed_seq,
            forall|i: int| r <= i < old(self)@.len() ==> #[trigger] old(self)@[i].0 > committed_seq,
            final(self)@ == old(self)@.subrange(r as int, old(self)@.len() as int),
            final(self).next_seq() == old(self).next_seq(),
            final(self).capacity() == old(self).capacity(),
    {
        proof {
            use_type_invariant(&*self);
        }
        let ghost rv = self@;
        let mut k: usize = 0;
        while k < self.records.len() && self.records[k].sequence <= committed_seq
            invariant
                k <= self.records@.len(),
                rv == records_view(self.records@),
                forall|i: int| 0 <= i < k ==> #[trigger] rv[i].0 <= committed_seq,
            decreases self.records@.len() - k,
        {
            k += 1;
        }
        assert forall|i: int| k <= i < rv.len() implies #[trigger] rv[i].0 > committed_seq by {
            if i > k {
                assert(rv[k as int].0 < rv[i].0);
            }
        }
        let mut records: Vec<WALRecord> = Vec::new();
        std::mem::swap(&mut records, &mut self.records);
        let kept = records.split_off(k);
        assert(records_view(kept@) =~= rv.subrange(k as int, rv.len() as int));
        self.records = kept;
        k
    }
}

/// The working set after applying `rs` in order, from an empty one.
pub open spec fn apply_entries(rs: Seq<(u64, EntryModel)>) -> Map<u64, Seq<u8>>
    decreases rs.len(),
{
    if rs.len() == 0 {
        Map::empty()
    } else {
        let m = apply_entries(rs.drop_last());
        match rs.last().1 {
            EntryModel::Put(id, p) => m.insert(id, p),
            EntryModel::Delete(id) => m.remove(id),
        }
    }
}

/// Replaying `rs` past the watermark `c`: records at or below `c` are skipped,
/// later ones applied in order.
pub open spec fn replay_spec(rs: Seq<(u64, EntryModel)>, c: u64) -> Map<u64, Seq<u8>>
    decreases rs.len(),
{
    if rs.len() == 0 {
        Map::empty()
    } else {
        let m = replay_spec(rs.drop_last(), c);
        let (s, e) = rs.last();
        if s <= c {
            m
        } else {
            match e {
                EntryModel::Put(id, p) => m.insert(id, p),
                EntryModel::Delete(id) => m.remove(id),
            }
        }
    }
}

pub open spec fn past_watermark(c: u64) -> spec_fn((u64, EntryModel)) -> bool {
    |r: (u64, EntryModel)| r.0 > c
}

/// Replay equals the net effect of exactly the records past the watermark, applied in order.
pub proof fn lemma_replay_is_net_effect(rs: Seq<(u64, EntryModel)>, c: u64)
    ensures
        replay_spec(rs, c) == apply_entries(rs.filter(past_watermark(c))),
    decreases rs.len(),
{
    reveal(Seq::filter);
    if rs.len() > 0 {
        lemma_replay_is_net_effect(rs.drop_last(), c);
        let f = rs.filter(past_watermark(c));
        let fd = rs.drop_last().filter(past_watermark(c));
        if rs.last().0 > c {
            assert(f == fd.push(rs.last()));
            assert(f.drop_last() =~= fd);
        } else {
            assert(f == fd);
        }
    }
}

/// The payloads of frames put and not deleted by the records past `committed_sequence`.
pub fn replay_pending_puts(records: &[WALRecord], committed_sequence: u64) -> (r: HashMap<u64, Vec<u8>>)
    ensures
        r@.dom() == replay_spec(records_view(records@), committed_sequence).dom(),
        forall|k: u64| #[trigger] r@.contains_key(k) ==> r@[k]@ == replay_spec(
            records_view(records@),
            committed_sequence,
        )[k],
{
    let ghost rv = records_view(records@);
    let mut out: HashMap<u64, Vec<u8>> = HashMap::new();
    let mut i: usize = 0;
    while i < records.len()
        invariant
            i <= records@.len(),
            rv == records_view(records@),
            out@.dom() == replay_spec(rv.subrange(0, i as int), committed_sequence).dom(),
            forall|k: u64| #[trigger] out@.contains_key(k) ==> out@[k]@ == replay_spec(
                rv.subrange(0, i as int),
                committed_sequence,
            )[k],
        decreases records@.len() - i,
    {
        assert(rv.subrange(0, i as int + 1).drop_last() =~= rv.subrange(0, i as int));
        let record = &records[i];
        if record.sequence > committed_sequence {
            match &record.entry {
                WALEntry::PutFrame { frame_id, payload } => {
                    out.insert(*frame_id, payload.clone());
                },
                WALEntry::DeleteFrame { frame_id } => {
                    out.remove(frame_id);
                },
            }
        }
        i += 1;
    }
    assert(rv.subrange(0, i as int) =~= rv);
    out
}

} // verus!
