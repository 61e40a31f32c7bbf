//! Retrieval helpers: the query classifier, surrogate tiers, token counting
//! and the budgeted context builder.

use vstd::prelude::*;
use crate::text::chars_of;
use vstd::seq_lib::group_to_multiset_ensures;
use crate::structured::is_white_space;

verus! {

broadcast use group_to_multiset_ensures;

#[derive(Debug, Clone, Copy, PartialEq, Eq, Structural)]
pub enum QueryMode {
    Constraint,
    Semantic,
}

/// A query that names a field (`:` or `=`) is a constraint query.
pub open spec fn is_constraint_query(q: Seq<char>) -> bool {
    exists|i: int| 0 <= i < q.len() && (q[i] == ':' || q[i] == '=')
}

pub fn classify_query(query: &str) -> (r: QueryMode)
    ensures
        r == (if is_constraint_query(query@) { QueryMode::Constraint } else { QueryMode::Semantic }),
{
    let q = chars_of(query);
    let n = q.len();
    let mut i: usize = 0;
    while i < n
        invariant
            q@ == query@,
            n == query@.len(),
            i <= n,
            forall|j: int| 0 <= j < i ==> query@[j] != ':' && query@[j] != '=',
        decreases n - i,
    {
        let c = q[i];
        if c == ':' || c == '=' {
            return QueryMode::Constraint;
        }
        i += 1;
    }
    QueryMode::Semantic
}

#[derive(Debug, Clone, Copy, PartialEq, Eq, Structural)]
pub enum SurrogateTier {
    Tiny,
    Short,
    Long,
}

/// Tiny up to 16 tokens, short up to 64, long beyond.
pub fn select_tier(token_count: usize) -> (r: SurrogateTier)
    ensures
        r == (if token_count <= 16 {
            SurrogateTier::Tiny
        } else if token_count <= 64 {
            SurrogateTier::Short
        } else {
            SurrogateTier::Long
        }),
{
    if token_count <= 16 {
        SurrogateTier::Tiny
    } else if token_count <= 64 {
        SurrogateTier::Short
    } else {
        SurrogateTier::Long
    }
}

/// Whether a word starts at position `i` of `s`.
pub open spec fn word_starts_at(s: Seq<char>, i: int) -> bool {
    !is_white_space(s[i]) && (i == 0 || is_white_space(s[i - 1]))
}

/// The number of maximal runs of non-white-space characters in `s`.
pub open spec fn word_count(s: Seq<char>) -> nat
    decreases s.len(),
{
    if s.len() == 0 {
        0
    } else {
        word_count(s.drop_last()) + if word_starts_at(s, s.len() - 1) { 1nat } else { 0nat }
    }
}

/// Tokens of a text: its white-space separated words.
pub fn count_tokens(text: &str) -> (r: usize)
    ensures
        r == word_count(text@),
{
    let t = chars_of(text);
    let n = t.len();
    let mut count: usize = 0;
    let mut prev_space = true;
    let mut i: usize = 0;
    while i < n
        invariant
            t@ == text@,
            n == text@.len(),
            i <= n,
            count == word_count(text@.subrange(0, i as int)),
            count <= i,
            prev_space == (i == 0 || is_white_space(text@[i - 1])),
        decreases n - i,
    {
        let ghost s = text@.subrange(0, i as int + 1);
        assert(s.drop_last() =~= text@.subrange(0, i as int));
        let c = t[i];
        let space = is_white_space_char(c);
        if !space && prev_space {
            count += 1;
        }
        prev_space = space;
        i += 1;
    }
    assert(text@.subrange(0, i as int) =~= text@);
    count
}

/// Relies on `char::is_whitespace`: true exactly for characters with the Unicode `White_Space` property.
#[verifier::external_body]
pub(crate) fn is_white_space_char(c: char) -> (r: bool)
    ensures
        r == is_white_space(c),
{
    c.is_whitespace()
}

/// A piece of text offered to the context builder.
#[derive(Debug, Clone, PartialEq, Eq)]
pub struct ContextChunk {
    pub id: u64,
    pub text: String,
    pub importance: i32,
}

pub type ChunkView = (u64, Seq<char>, i32);

pub open spec fn chunk_view(c: ContextChunk) -> ChunkView {
    (c.id, c.text@, c.importance)
}

pub open spec fn chunks_view(v: Seq<ContextChunk>) -> Seq<ChunkView> {
    v.map_values(|c: ContextChunk| chunk_view(c))
}

/// Context order: higher importance first, then lower id.
pub open spec fn ranks_before(a: ChunkView, b: ChunkView) -> bool {
    a.2 > b.2 || (a.2 == b.2 && a.0 < b.0)
}

pub open spec fn ranked(s: Seq<ChunkView>) -> bool {
    forall|i: int, j: int| 0 <= i < j < s.len() ==> !ranks_before(#[trigger] s[j], #[trigger] s[i])
}

/// Walking `s` in order, a chunk is taken when its tokens still fit the budget
/// with those taken before it; one that does not fit is skipped. Gives the
/// chunks taken and the tokens they use.
pub open spec fn greedy_take(s: Seq<ChunkView>, budget: nat) -> (Seq<ChunkView>, nat)
    decreases s.len(),
{
    if s.len() == 0 {
        (Seq::empty(), 0)
    } else {
        let (taken, used) = greedy_take(s.drop_last(), budget);
        let t = word_count(s.last().1);
        if used + t > budget {
            (taken, used)
        } else {
            (taken.push(s.last()), used + t)
        }
    }
}

/// Orders the chunks by importance (then id) and takes them greedily within
/// the token budget, skipping those that do not fit.
pub fn build_context(chunks: Vec<ContextChunk>, token_budget: usize) -> (r: Vec<ContextChunk>)
    ensures
        exists|s: Seq<ChunkView>|
            ranked(s) && #[trigger] s.to_multiset() == chunks_view(chunks@).to_multiset() && chunks_view(r@)
                == greedy_take(s, token_budget as nat).0,
{
    let ghost input = chunks_view(chunks@);
    let mut rest = chunks;
    let mut sorted: Vec<ContextChunk> = Vec::new();
    while rest.len() > 0
        invariant
            ranked(chunks_view(sorted@)),
            chunks_view(sorted@).to_multiset().add(chunks_view(rest@).to_multiset()) == input.to_multiset(),
        decreases rest@.len(),
    {
        let ghost rv0 = chunks_view(rest@);
        let c = rest.remove(0);
        assert(chunks_view(rest@) =~= rv0.remove(0));
        let mut p: usize = 0;
        while p < sorted.len() && !(c.importance > sorted[p].importance || (c.importance
            == sorted[p].importance && c.id < sorted[p].id))
            invariant
                p <= sorted@.len(),
                forall|k: int| 0 <= k < p ==> !ranks_before(chunk_view(c), #[trigger] chunks_view(sorted@)[k]),
            decreases sorted@.len() - p,
        {
            p += 1;
        }
        let ghost before = chunks_view(sorted@);
        let ghost cv = chunk_view(c);
        sorted.insert(p, c);
        proof {
            let after = chunks_view(sorted@);
            assert(after =~= before.insert(p as int, cv));
            assert forall|i: int, j: int| 0 <= i < j < after.len() implies !ranks_before(
                #[trigger] after[j],
                #[trigger] after[i],
            ) by {
                if i < p && j == p {
                } else if i == p && j > p {
                    assert(!ranks_before(before[j - 1], before[p as int]) || j - 1 == p);
                } else if i < p && j > p {
                    assert(!ranks_before(before[j - 1], before[i]));
                } else if i > p {
                    assert(!ranks_before(before[j - 1], before[i - 1]));
                }
            }
            assert(rv0.to_multiset() == rv0.remove(0).to_multiset().insert(rv0[0]));
        }
    }
    let ghost sv = chunks_view(sorted@);
    assert(chunks_view(rest@) =~= Seq::<ChunkView>::empty());
    assert(sv.to_multiset() =~= input.to_multiset());
    let mut used: usize = 0;
    let mut out: Vec<ContextChunk> = Vec::new();
    let mut i: usize = 0;
    assert(sv.len() == sorted.len());
    assert(sv.subrange(0, 0) =~= Seq::<ChunkView>::empty());
    assert(sv.subrange(0, sv.len() as int) =~= sv);
    while sorted.len() > 0
        invariant
            i + sorted@.len() == sv.len(),
            sv.len() <= usize::MAX,
            chunks_view(sorted@) == sv.subrange(i as int, sv.len() as int),
            chunks_view(out@) == greedy_take(sv.subrange(0, i as int), token_budget as nat).0,
            used == greedy_take(sv.subrange(0, i as int), token_budget as nat).1,
            used <= token_budget,
        decreases sorted@.len(),
    {
        let ghost rv0 = chunks_view(sorted@);
        let ghost pre = sv.subrange(0, i as int + 1);
        assert(pre.drop_last() =~= sv.subrange(0, i as int));
        assert(pre.last() == rv0[0]);
        let c = sorted.remove(0);
        assert(chunks_view(sorted@) =~= rv0.remove(0));
        assert(rv0.remove(0) =~= sv.subrange(i as int + 1, sv.len() as int));
        let tokens = count_tokens(c.text.as_str());
        if tokens <= token_budget - used {
            let ghost ov = chunks_view(out@);
            used = used + tokens;
            out.push(c);
            assert(chunks_view(out@) =~= ov.push(chunk_view(c)));
        }
        i += 1;
    }
    assert(sv.subrange(0, i as int) =~= sv);
    out
}

} // verus!
