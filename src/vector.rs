//! The integer decisions shared by the vector backends: the dimension
//! policy, the oversampling schedule of approximate search and the widened
//! candidate count of the hybrid backend. Scoring itself works on floats and
//! lives with the backends.

use vstd::prelude::*;

verus! {

/// What an upsert of a vector of `len` values does under the dimension `dims`
/// fixed so far: `None` when it is ignored, else the dimension after it.
pub open spec fn dimension_after(dims: Option<usize>, len: usize) -> Option<usize> {
    if len == 0 {
        None
    } else {
        match dims {
            Some(d) => if d == len {
                Some(d)
            } else {
                None
            },
            None => Some(len),
        }
    }
}

/// Empty vectors are ignored; the first non-empty one fixes the dimension,
/// and later ones of another length are ignored.
pub fn accept_dimension(dims: &mut Option<usize>, len: usize) -> (r: bool)
    ensures
        r == (dimension_after(*old(dims), len) is Some),
        r ==> *final(dims) == dimension_after(*old(dims), len),
        !r ==> *final(dims) == *old(dims),
{
    if len == 0 {
        return false;
    }
    match *dims {
        Some(d) => d == len,
        None => {
            *dims = Some(len);
            true
        },
    }
}

/// A search of `query_len` values runs only against the fixed dimension.
pub fn search_dimension_ok(dims: Option<usize>, query_len: usize) -> (r: bool)
    ensures
        r == (query_len > 0 && dims == Some(query_len)),
{
    match dims {
        Some(d) => query_len > 0 && d == query_len,
        None => false,
    }
}

pub open spec fn min_nat(a: int, b: int) -> int {
    if a < b {
        a
    } else {
        b
    }
}

/// The first number of candidates asked of an approximate index for `k` hits
/// among `live` stored vectors.
pub fn first_ask(k: usize, live: usize) -> (r: usize)
    ensures
        r == min_nat(k as int, live as int),
{
    if k < live {
        k
    } else {
        live
    }
}

/// The next, doubled, candidate count after `ask` fell short, capped at
/// `max_ask`; `None` once it cannot grow.
pub fn next_ask(ask: usize, max_ask: usize) -> (r: Option<usize>)
    ensures
        ({
            let doubled = min_nat(2 * ask, usize::MAX as int);
            let n = min_nat(doubled, max_ask as int);
            if n == ask {
                r is None
            } else {
                r == Some(n as usize)
            }
        }),
{
    let doubled = match ask.checked_mul(2) {
        Some(v) => v,
        None => usize::MAX,
    };
    let next = if doubled < max_ask { doubled } else { max_ask };
    if next == ask {
        None
    } else {
        Some(next)
    }
}

/// The oversampling schedule only grows, and stops at `max_ask`: each step at
/// least doubles the ask or reaches the cap.
pub proof fn lemma_next_ask_grows(ask: usize, max_ask: usize)
    requires
        0 < ask < max_ask,
    ensures
        ({
            let n = min_nat(min_nat(2 * ask, usize::MAX as int), max_ask as int);
            ask < n <= max_ask && (n == max_ask || n == 2 * ask)
        }),
{
}

/// Candidates asked of the primary backend: `base_k` times `multiplier`
/// (at least once), saturating, then clamped to `1..=max_candidates`.
pub fn expanded_k(base_k: usize, multiplier: usize, max_candidates: usize) -> (r: usize)
    requires
        max_candidates >= 1,
    ensures
        ({
            let m = if multiplier == 0 { 1int } else { multiplier as int };
            let ask = min_nat(base_k * m, usize::MAX as int);
            r == (if ask < 1 { 1 } else if ask > max_candidates { max_candidates as int } else { ask })
        }),
{
    let m = if multiplier == 0 { 1 } else { multiplier };
    let ask = match base_k.checked_mul(m) {
        Some(v) => v,
        None => usize::MAX,
    };
    if ask < 1 {
        1
    } else if ask > max_candidates {
        max_candidates
    } else {
        ask
    }
}

/// Tuning of the usearch-backed index.
#[derive(Debug, Clone, Copy, PartialEq, Eq, Structural)]
pub struct USearchConfig {
    pub connectivity: usize,
    pub expansion_add: usize,
    pub expansion_search: usize,
}

impl Default for USearchConfig {
    fn default() -> (r: Self)
        ensures
            r == (USearchConfig { connectivity: 16, expansion_add: 200, expansion_search: 80 }),
    {
        USearchConfig { connectivity: 16, expansion_add: 200, expansion_search: 80 }
    }
}

/// Tuning of the hnsw_rs-backed index.
#[derive(Debug, Clone, Copy, PartialEq, Eq, Structural)]
pub struct HnswRsConfig {
    pub max_nb_connection: usize,
    pub max_elements_hint: usize,
    pub max_layer: usize,
    pub ef_construction: usize,
    pub search_oversampling: usize,
}

impl Default for HnswRsConfig {
    fn default() -> (r: Self)
        ensures
            r == (HnswRsConfig {
                max_nb_connection: 16,
                max_elements_hint: 1_000_000,
                max_layer: 16,
                ef_construction: 200,
                search_oversampling: 8,
            }),
    {
        HnswRsConfig {
            max_nb_connection: 16,
            max_elements_hint: 1_000_000,
            max_layer: 16,
            ef_construction: 200,
            search_oversampling: 8,
        }
    }
}

/// Tuning of the embedvec-backed index.
#[derive(Debug, Clone, Copy, PartialEq, Eq, Structural)]
pub struct EmbedVecConfig {
    pub m: usize,
    pub ef_construction: usize,
    pub search_oversampling: usize,
}

impl Default for EmbedVecConfig {
    fn default() -> (r: Self)
        ensures
            r == (EmbedVecConfig { m: 16, ef_construction: 200, search_oversampling: 8 }),
    {
        EmbedVecConfig { m: 16, ef_construction: 200, search_oversampling: 8 }
    }
}

/// The vector backends a session can be configured with.
#[derive(Debug, Clone, Copy, PartialEq, Eq, Structural)]
pub enum VectorBackend {
    USearch,
}

#[derive(Debug, Clone, Copy, PartialEq, Eq, Structural)]
pub struct VectorSearchConfig {
    pub backend: VectorBackend,
}

impl Default for VectorSearchConfig {
    fn default() -> (r: Self)
        ensures
            r == (VectorSearchConfig { backend: VectorBackend::USearch }),
    {
        VectorSearchConfig { backend: VectorBackend::USearch }
    }
}

} // verus!
