//! The decisions of a memory session: mode and lane checks, the vector
//! dimension policy, pending-entry accounting and substring recall. The
//! session's durable store and vector backend are driven by the caller, which
//! hands the outcomes back here.

use std::collections::HashMap;
use vstd::prelude::*;
use crate::text::{chars_of, matches_at, occurs_at};
use crate::structured::{StructuredEntity, StructuredMemory, canonical};

verus! {

#[derive(Debug, Clone, Copy, PartialEq, Eq, Structural)]
pub enum SessionMode {
    ReadOnly,
    ReadWrite,
}

/// Which lanes a session runs, and the declared vector dimension if any.
#[derive(Debug, Clone, Copy, PartialEq, Eq, Structural)]
pub struct SessionConfig {
    pub enable_text_search: bool,
    pub enable_vector_search: bool,
    pub enable_structured_memory: bool,
    pub vector_dimensions: Option<usize>,
}

impl Default for SessionConfig {
    /// Every lane on, dimension inferred from the first embedding.
    fn default() -> (r: Self)
        ensures
            r == (SessionConfig {
                enable_text_search: true,
                enable_vector_search: true,
                enable_structured_memory: true,
                vector_dimensions: None,
            }),
    {
        SessionConfig {
            enable_text_search: true,
            enable_vector_search: true,
            enable_structured_memory: true,
            vector_dimensions: None,
        }
    }
}

#[derive(Debug, Clone, PartialEq, Eq)]
pub enum SessionError {
    ReadOnly,
    TextSearchDisabled,
    VectorSearchDisabled,
    StructuredMemoryDisabled,
    EmptyEmbedding,
    VectorDimensionMismatch { expected: usize, got: usize },
    DurableStoreIo(String),
    EmbeddingProvider(String),
    WriterBusy,
    WriterTimeout,
}

/// Counts handed over by a stage.
#[derive(Debug, Clone, Copy, PartialEq, Eq, Structural)]
pub struct SessionStageReport {
    pub staged_text_entries: usize,
    pub staged_vector_mutations: usize,
    pub staged_vector_entries: usize,
}

impl Default for SessionStageReport {
    fn default() -> (r: Self)
        ensures
            r == (SessionStageReport { staged_text_entries: 0, staged_vector_mutations: 0, staged_vector_entries: 0 }),
    {
        SessionStageReport { staged_text_entries: 0, staged_vector_mutations: 0, staged_vector_entries: 0 }
    }
}

/// Whether `n` occurs in `h`.
pub open spec fn contains_seq(h: Seq<char>, n: Seq<char>) -> bool {
    exists|i: int| occurs_at(h, n, i)
}

/// Whether `needle` occurs in `hay` (an empty needle occurs everywhere).
pub fn contains_str(hay: &str, needle: &str) -> (r: bool)
    ensures
        r == contains_seq(hay@, needle@),
{
    let h = chars_of(hay);
    let n = chars_of(needle);
    let hn = h.len();
    let nn = n.len();
    if nn > hn {
        return false;
    }
    let last = hn - nn;
    let mut i: usize = 0;
    while i < last
        invariant
            h@ == hay@,
            n@ == needle@,
            hn == hay@.len(),
            nn == needle@.len(),
            nn <= hn,
            last == hn - nn,
            i <= last,
            forall|j: int| 0 <= j < i ==> !occurs_at(hay@, needle@, j),
        decreases last - i,
    {
        if matches_at(&h, hn, &n, nn, i) {
            return true;
        }
        i += 1;
    }
    if matches_at(&h, hn, &n, nn, last) {
        return true;
    }
    assert forall|j: int| !occurs_at(hay@, needle@, j) by {
        if j > last {
        }
    }
    false
}

pub open spec fn texts_view(v: Seq<String>) -> Seq<Seq<char>> {
    v.map_values(|s: String| s@)
}

pub open spec fn holds_query(q: Seq<char>) -> spec_fn(Seq<char>) -> bool {
    |m: Seq<char>| contains_seq(m, q)
}

/// The in-memory side of a memory session.
pub struct SessionState {
    mode: SessionMode,
    config: SessionConfig,
    memories: Vec<String>,
    structured: StructuredMemory,
    vector_memories: HashMap<u64, String>,
    vector_dimensions: Option<usize>,
    pending_text_entries: usize,
    next_timestamp_ms: u64,
}

impl SessionState {
    pub closed spec fn mode(&self) -> SessionMode {
        self.mode
    }

    pub closed spec fn config(&self) -> SessionConfig {
        self.config
    }

    /// Texts remembered, in order.
    pub closed spec fn memories(&self) -> Seq<Seq<char>> {
        texts_view(self.memories@)
    }

    /// The vector dimension in force, declared or inferred.
    pub closed spec fn dimensions(&self) -> Option<usize> {
        self.vector_dimensions
    }

    pub closed spec fn pending(&self) -> usize {
        self.pending_text_entries
    }

    pub closed spec fn next_timestamp(&self) -> u64 {
        self.next_timestamp_ms
    }

    pub closed spec fn entities(&self) -> Map<Seq<char>, Map<String, String>> {
        self.structured.entities()
    }

    /// The text remembered for each frame that carries an embedding.
    pub closed spec fn vector_texts(&self) -> Map<u64, Seq<char>> {
        Map::new(|k: u64| self.vector_memories@.contains_key(k), |k: u64| self.vector_memories@[k]@)
    }

    /// A fresh session; `start_ms` seeds the per-session clock.
    pub fn new(mode: SessionMode, config: SessionConfig, start_ms: u64) -> (r: Self)
        ensures
            r.mode() == mode,
            r.config() == config,
            r.memories() == Seq::<Seq<char>>::empty(),
            r.dimensions() == config.vector_dimensions,
            r.pending() == 0,
            r.next_timestamp() == start_ms,
            r.entities() == Map::<Seq<char>, Map<String, String>>::empty(),
            r.vector_texts() == Map::<u64, Seq<char>>::empty(),
    {
        let r = SessionState {
            mode,
            config,
            memories: Vec::new(),
            structured: StructuredMemory::new(),
            vector_memories: HashMap::new(),
            vector_dimensions: config.vector_dimensions,
            pending_text_entries: 0,
            next_timestamp_ms: start_ms,
        };
        assert(r.memories() =~= Seq::<Seq<char>>::empty());
        assert(r.vector_texts() =~= Map::<u64, Seq<char>>::empty());
        r
    }

    pub fn mode_value(&self) -> (r: SessionMode)
        ensures
            r == self.mode(),
    {
        self.mode
    }

    pub fn config_value(&self) -> (r: SessionConfig)
        ensures
            r == self.config(),
    {
        self.config
    }

    pub fn pending_entries(&self) -> (r: usize)
        ensures
            r == self.pending(),
    {
        self.pending_text_entries
    }

    /// Fails with `ReadOnly` in a read-only session.
    pub fn ensure_writable(&self) -> (r: Result<(), SessionError>)
        ensures
            r is Ok <==> self.mode() == SessionMode::ReadWrite,
            r matches Err(e) ==> e == SessionError::ReadOnly,
    {
        if self.mode == SessionMode::ReadOnly {
            return Err(SessionError::ReadOnly);
        }
        Ok(())
    }

    /// Checks that a text memory may be written now.
    pub fn check_remember(&self) -> (r: Result<(), SessionError>)
        ensures
            self.mode() == SessionMode::ReadOnly ==> r == Err::<(), SessionError>(SessionError::ReadOnly),
            self.mode() == SessionMode::ReadWrite && !self.config().enable_text_search ==> r == Err::<
                (),
                SessionError,
            >(SessionError::TextSearchDisabled),
            self.mode() == SessionMode::ReadWrite && self.config().enable_text_search ==> r is Ok,
    {
        self.ensure_writable()?;
        if !self.config.enable_text_search {
            return Err(SessionError::TextSearchDisabled);
        }
        Ok(())
    }

    /// Checks that a memory with an embedding of `len` values may be written
    /// now; the first accepted length fixes the dimension.
    pub fn check_remember_with_embedding(&mut self, len: usize) -> (r: Result<(), SessionError>)
        ensures
            final(self).mode() == old(self).mode(),
            final(self).config() == old(self).config(),
            final(self).memories() == old(self).memories(),
            final(self).pending() == old(self).pending(),
            final(self).next_timestamp() == old(self).next_timestamp(),
            final(self).entities() == old(self).entities(),
            final(self).vector_texts() == old(self).vector_texts(),
            old(self).mode() == SessionMode::ReadOnly ==> r == Err::<(), SessionError>(SessionError::ReadOnly),
            old(self).mode() == SessionMode::ReadWrite && !old(self).config().enable_vector_search ==> r == Err::<
                (),
                SessionError,
            >(SessionError::VectorSearchDisabled),
            old(self).mode() == SessionMode::ReadWrite && old(self).config().enable_vector_search && len == 0 ==> r
                == Err::<(), SessionError>(SessionError::EmptyEmbedding),
            old(self).mode() == SessionMode::ReadWrite && old(self).config().enable_vector_search && len > 0 ==> match old(
                self,
            ).dimensions() {
                Some(d) => if d == len {
                    r is Ok && final(self).dimensions() == Some(d)
                } else {
                    r == Err::<(), SessionError>(SessionError::VectorDimensionMismatch { expected: d, got: len })
                        && final(self).dimensions() == Some(d)
                },
                None => r is Ok && final(self).dimensions() == Some(len),
            },
            r is Err ==> final(self).dimensions() == old(self).dimensions(),
    {
        self.ensure_writable()?;
        if !self.config.enable_vector_search {
            return Err(SessionError::VectorSearchDisabled);
        }
        if len == 0 {
            return Err(SessionError::EmptyEmbedding);
        }
        match self.vector_dimensions {
            Some(expected) => {
                if expected != len {
                    return Err(SessionError::VectorDimensionMismatch { expected, got: len });
                }
                Ok(())
            },
            None => {
                self.vector_dimensions = Some(len);
                Ok(())
            },
        }
    }

    /// The timestamp for the next ingest; the clock then advances by one (saturating).
    pub fn next_session_timestamp(&mut self) -> (r: u64)
        ensures
            r == old(self).next_timestamp(),
            final(self).next_timestamp() == if r == u64::MAX { u64::MAX } else { (r + 1) as u64 },
            final(self).mode() == old(self).mode(),
            final(self).config() == old(self).config(),
            final(self).memories() == old(self).memories(),
            final(self).dimensions() == old(self).dimensions(),
            final(self).pending() == old(self).pending(),
            final(self).entities() == old(self).entities(),
            final(self).vector_texts() == old(self).vector_texts(),
    {
        let ts = self.next_timestamp_ms;
        self.next_timestamp_ms = self.next_timestamp_ms.saturating_add(1);
        ts
    }

    /// Records a text memory that was stored, and counts it as pending.
    pub fn record_memory(&mut self, text: String)
        ensures
            final(self).memories() == old(self).memories().push(text@),
            final(self).pending() == if old(self).pending() == usize::MAX { usize::MAX } else { (old(
                self,
            ).pending() + 1) as usize },
            final(self).mode() == old(self).mode(),
            final(self).config() == old(self).config(),
            final(self).dimensions() == old(self).dimensions(),
            final(self).next_timestamp() == old(self).next_timestamp(),
            final(self).entities() == old(self).entities(),
            final(self).vector_texts() == old(self).vector_texts(),
    {
        let ghost t = text@;
        self.memories.push(text);
        assert(self.memories() =~= old(self).memories().push(t));
        self.pending_text_entries = self.pending_text_entries.saturating_add(1);
    }

    /// Records the text of a frame that carries an embedding.
    pub fn record_vector_memory(&mut self, frame_id: u64, text: String)
        ensures
            final(self).vector_texts() == old(self).vector_texts().insert(frame_id, text@),
            final(self).memories() == old(self).memories(),
            final(self).pending() == old(self).pending(),
            final(self).mode() == old(self).mode(),
            final(self).config() == old(self).config(),
            final(self).dimensions() == old(self).dimensions(),
            final(self).next_timestamp() == old(self).next_timestamp(),
            final(self).entities() == old(self).entities(),
    {
        let ghost t = text@;
        self.vector_memories.insert(frame_id, text);
        assert(self.vector_texts() =~= old(self).vector_texts().insert(frame_id, t));
    }

    /// Counts one more pending entry (saturating).
    pub fn bump_pending(&mut self)
        ensures
            final(self).pending() == if old(self).pending() == usize::MAX { usize::MAX } else { (old(
                self,
            ).pending() + 1) as usize },
            final(self).memories() == old(self).memories(),
            final(self).mode() == old(self).mode(),
            final(self).config() == old(self).config(),
            final(self).dimensions() == old(self).dimensions(),
            final(self).next_timestamp() == old(self).next_timestamp(),
            final(self).entities() == old(self).entities(),
            final(self).vector_texts() == old(self).vector_texts(),
    {
        self.pending_text_entries = self.pending_text_entries.saturating_add(1);
    }

    /// The remembered texts that contain `query`, in order.
    pub fn try_recall(&self, query: &str) -> (r: Result<Vec<String>, SessionError>)
        ensures
            !self.config().enable_text_search ==> r == Err::<Vec<String>, SessionError>(
                SessionError::TextSearchDisabled,
            ),
            self.config().enable_text_search ==> (r matches Ok(v) && texts_view(v@) == self.memories().filter(
                holds_query(query@),
            )),
    {
        if !self.config.enable_text_search {
            return Err(SessionError::TextSearchDisabled);
        }
        Ok(self.legacy_recall(query))
    }

    /// The remembered texts that contain `query`, in order, whatever the lanes.
    pub fn legacy_recall(&self, query: &str) -> (r: Vec<String>)
        ensures
            texts_view(r@) == self.memories().filter(holds_query(query@)),
    {
        let ghost ms = self.memories();
        let mut out: Vec<String> = Vec::new();
        let mut i: usize = 0;
        while i < self.memories.len()
            invariant
                i <= self.memories@.len(),
                ms == texts_view(self.memories@),
                texts_view(out@) == ms.subrange(0, i as int).filter(holds_query(query@)),
            decreases self.memories@.len() - i,
        {
            reveal(Seq::filter);
            let ghost pre = ms.subrange(0, i as int + 1);
            assert(pre.drop_last() =~= ms.subrange(0, i as int));
            let m = &self.memories[i];
            if contains_str(m.as_str(), query) {
                let ghost ov = texts_view(out@);
                out.push(m.clone());
                assert(texts_view(out@) =~= ov.push(m@));
            }
            i += 1;
        }
        assert(ms.subrange(0, i as int) =~= ms);
        out
    }

    /// Hands the pending count over in a report and zeroes it.
    pub fn try_stage(&mut self, vector_entries: usize) -> (r: Result<SessionStageReport, SessionError>)
        ensures
            old(self).mode() == SessionMode::ReadOnly ==> r == Err::<SessionStageReport, SessionError>(
                SessionError::ReadOnly,
            ) && final(self).pending() == old(self).pending(),
            old(self).mode() == SessionMode::ReadWrite ==> r == Ok::<SessionStageReport, SessionError>(
                SessionStageReport {
                    staged_text_entries: old(self).pending(),
                    staged_vector_mutations: 0,
                    staged_vector_entries: vector_entries,
                },
            ) && final(self).pending() == 0,
            final(self).memories() == old(self).memories(),
            final(self).mode() == old(self).mode(),
            final(self).config() == old(self).config(),
            final(self).dimensions() == old(self).dimensions(),
            final(self).next_timestamp() == old(self).next_timestamp(),
            final(self).entities() == old(self).entities(),
            final(self).vector_texts() == old(self).vector_texts(),
    {
        self.ensure_writable()?;
        let report = SessionStageReport {
            staged_text_entries: self.pending_text_entries,
            staged_vector_mutations: 0,
            staged_vector_entries: vector_entries,
        };
        self.pending_text_entries = 0;
        Ok(report)
    }

    /// After a failed flush, puts the staged count back so the caller may retry.
    pub fn restore_pending(&mut self, report: SessionStageReport)
        ensures
            final(self).pending() == if old(self).pending() + report.staged_text_entries > usize::MAX {
                usize::MAX
            } else {
                (old(self).pending() + report.staged_text_entries) as usize
            },
            final(self).memories() == old(self).memories(),
            final(self).mode() == old(self).mode(),
            final(self).config() == old(self).config(),
            final(self).dimensions() == old(self).dimensions(),
            final(self).next_timestamp() == old(self).next_timestamp(),
            final(self).entities() == old(self).entities(),
            final(self).vector_texts() == old(self).vector_texts(),
    {
        self.pending_text_entries = self.pending_text_entries.saturating_add(report.staged_text_entries);
    }

    /// Stores entity attributes under the canonical id.
    pub fn try_upsert_entity(&mut self, id: &str, attrs: HashMap<String, String>) -> (r: Result<(), SessionError>)
        ensures
            old(self).mode() == SessionMode::ReadOnly ==> r == Err::<(), SessionError>(SessionError::ReadOnly),
            old(self).mode() == SessionMode::ReadWrite && !old(self).config().enable_structured_memory ==> r
                == Err::<(), SessionError>(SessionError::StructuredMemoryDisabled),
            r is Ok ==> final(self).entities() == old(self).entities().insert(canonical(id@), attrs@),
            r is Err ==> final(self).entities() == old(self).entities(),
            old(self).mode() == SessionMode::ReadWrite && old(self).config().enable_structured_memory ==> r is Ok,
            final(self).memories() == old(self).memories(),
            final(self).mode() == old(self).mode(),
            final(self).config() == old(self).config(),
            final(self).pending() == old(self).pending(),
    {
        self.ensure_writable()?;
        if !self.config.enable_structured_memory {
            return Err(SessionError::StructuredMemoryDisabled);
        }
        self.structured.upsert(id, attrs);
        Ok(())
    }

    /// The entity stored under the canonical form of `id`.
    pub fn try_get_entity(&self, id: &str) -> (r: Result<Option<&StructuredEntity>, SessionError>)
        ensures
            !self.config().enable_structured_memory ==> (r matches Err(e) && e
                == SessionError::StructuredMemoryDisabled),
            self.config().enable_structured_memory ==> (r matches Ok(o) && match o {
                Some(e) => self.entities().contains_key(canonical(id@)) && e.id@ == canonical(id@) && e.attrs@
                    == self.entities()[canonical(id@)],
                None => !self.entities().contains_key(canonical(id@)),
            }),
    {
        if !self.config.enable_structured_memory {
            return Err(SessionError::StructuredMemoryDisabled);
        }
        Ok(self.structured.get(id))
    }

    /// Checks a semantic recall of `k` hits for a query embedding of `len`
    /// values: `Ok(false)` when nothing is to be searched, `Ok(true)` when the
    /// backend should be asked.
    pub fn check_recall_semantic(&self, len: usize, k: usize) -> (r: Result<bool, SessionError>)
        ensures
            !self.config().enable_vector_search ==> r == Err::<bool, SessionError>(SessionError::VectorSearchDisabled),
            self.config().enable_vector_search && (k == 0 || len == 0) ==> r == Ok::<bool, SessionError>(false),
            self.config().enable_vector_search && k > 0 && len > 0 ==> match self.dimensions() {
                Some(d) => if d == len {
                    r == Ok::<bool, SessionError>(true)
                } else {
                    r == Err::<bool, SessionError>(SessionError::VectorDimensionMismatch { expected: d, got: len })
                },
                None => r == Ok::<bool, SessionError>(true),
            },
    {
        if !self.config.enable_vector_search {
            return Err(SessionError::VectorSearchDisabled);
        }
        if k == 0 || len == 0 {
            return Ok(false);
        }
        let expected = match self.vector_dimensions {
            Some(d) => d,
            None => len,
        };
        if expected != len {
            return Err(SessionError::VectorDimensionMismatch { expected, got: len });
        }
        Ok(true)
    }

    /// The texts of the frames a vector search returned, in hit order; ids
    /// with no text are skipped.
    pub fn texts_for_hits(&self, ids: &[u64]) -> (r: Vec<String>)
        ensures
            texts_view(r@) == ids@.filter(|id: u64| self.vector_texts().contains_key(id)).map_values(
                |id: u64| self.vector_texts()[id],
            ),
    {
        let ghost f = |id: u64| self.vector_texts().contains_key(id);
        let ghost g = |id: u64| self.vector_texts()[id];
        let mut out: Vec<String> = Vec::new();
        let mut i: usize = 0;
        while i < ids.len()
            invariant
                i <= ids@.len(),
                f == (|id: u64| self.vector_texts().contains_key(id)),
                g == (|id: u64| self.vector_texts()[id]),
                texts_view(out@) == ids@.subrange(0, i as int).filter(f).map_values(g),
            decreases ids@.len() - i,
        {
            reveal(Seq::filter);
            let ghost pre = ids@.subrange(0, i as int + 1);
            assert(pre.drop_last() =~= ids@.subrange(0, i as int));
            let ghost ov = texts_view(out@);
            match self.vector_memories.get(&ids[i]) {
                Some(t) => {
                    out.push(t.clone());
                    assert(pre.filter(f) == ids@.subrange(0, i as int).filter(f).push(ids@[i as int]));
                    assert(texts_view(out@) =~= ov.push(t@));
                    assert(pre.filter(f).map_values(g) =~= ids@.subrange(0, i as int).filter(f).map_values(g).push(
                        g(ids@[i as int]),
                    ));
                },
                None => {
                    assert(pre.filter(f) == ids@.subrange(0, i as int).filter(f));
                },
            }
            i += 1;
        }
        assert(ids@.subrange(0, i as int) =~= ids@);
        out
    }
}

} // verus!
