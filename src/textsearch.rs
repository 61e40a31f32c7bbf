//! The lexical index: term-match scoring over ingested documents with an
//! optional metadata filter, ranked and truncated.

use std::collections::HashMap;
use vstd::prelude::*;
use vstd::string::*;
use vstd::seq_lib::group_to_multiset_ensures;
use crate::structured::{ascii_lower, ascii_lowercase, attribute_lookup, has_attribute, is_white_space};
use crate::text::{chars_of, matches_at, occurs_at};

verus! {

broadcast use group_to_multiset_ensures;

/// The white-space separated words of `s`, in order.
pub open spec fn words(s: Seq<char>) -> Seq<Seq<char>>
    decreases s.len(),
{
    if s.len() == 0 {
        Seq::empty()
    } else {
        let w = words(s.drop_last());
        let c = s.last();
        if is_white_space(c) {
            w
        } else if s.len() == 1 || is_white_space(s[s.len() - 2]) {
            w.push(seq![c])
        } else {
            w.update(w.len() - 1, w.last().push(c))
        }
    }
}

/// Non-overlapping occurrences of `n` in `h` found scanning left to right from `at`.
pub open spec fn count_from(h: Seq<char>, n: Seq<char>, at: int) -> nat
    decreases h.len() - at,
{
    if n.len() == 0 || at < 0 || at + n.len() > h.len() {
        0
    } else if occurs_at(h, n, at) {
        1 + count_from(h, n, at + n.len())
    } else {
        count_from(h, n, at + 1)
    }
}

/// The first position at or after `at` where `n` occurs in `h`.
pub open spec fn find_from(h: Seq<char>, n: Seq<char>, at: int) -> Option<int>
    decreases h.len() - at,
{
    if at < 0 || at + n.len() > h.len() {
        None
    } else if occurs_at(h, n, at) {
        Some(at)
    } else if at >= h.len() {
        None
    } else {
        find_from(h, n, at + 1)
    }
}

proof fn lemma_find_from_bounds(h: Seq<char>, n: Seq<char>, at: int)
    ensures
        find_from(h, n, at) matches Some(i) ==> at <= i && i + n.len() <= h.len() && occurs_at(h, n, i),
    decreases h.len() - at,
{
    if !(at < 0 || at + n.len() > h.len()) && !occurs_at(h, n, at) && at < h.len() {
        lemma_find_from_bounds(h, n, at + 1);
    }
}

/// Total matches of all terms in `h`.
pub open spec fn term_matches(h: Seq<char>, terms: Seq<Seq<char>>) -> nat
    decreases terms.len(),
{
    if terms.len() == 0 {
        0
    } else {
        term_matches(h, terms.drop_last()) + count_from(h, terms.last(), 0)
    }
}

/// Where the first term (in query order) that occurs in `h` first occurs.
pub open spec fn first_hit(h: Seq<char>, terms: Seq<Seq<char>>) -> Option<int>
    decreases terms.len(),
{
    if terms.len() == 0 {
        None
    } else {
        match find_from(h, terms[0], 0) {
            Some(i) => Some(i),
            None => first_hit(h, terms.drop_first()),
        }
    }
}

pub open spec fn capped(x: nat) -> u64 {
    if x > u64::MAX {
        u64::MAX
    } else {
        x as u64
    }
}

/// The characters of `body` within 24 of position `i`.
pub open spec fn snippet_of(body: Seq<char>, i: int) -> Seq<char> {
    let start = if i >= 24 { i - 24 } else { 0 };
    let end = if i + 24 <= body.len() { i + 24 } else { body.len() as int };
    body.subrange(start, end)
}

/// A document as plain values: id, body, metadata.
pub type DocView = (Seq<char>, Seq<char>, Map<String, String>);

/// A hit as plain values: id, score, snippet.
pub type HitView = (Seq<char>, u64, Option<Seq<char>>);

pub open spec fn passes_filter(d: DocView, filter: Option<(Seq<char>, Seq<char>)>) -> bool {
    match filter {
        None => true,
        Some((k, v)) => has_attribute(d.2, k, v),
    }
}

/// The hit a document gives for `terms`, if it matches at all.
pub open spec fn doc_hit(d: DocView, terms: Seq<Seq<char>>) -> Option<HitView> {
    let lower = ascii_lower(d.1);
    let score = term_matches(lower, terms);
    if score == 0 {
        None
    } else {
        Some(
            (
                d.0,
                capped(score),
                match first_hit(lower, terms) {
                    Some(i) => Some(snippet_of(d.1, i)),
                    None => None,
                },
            ),
        )
    }
}

/// Hits of the documents passing the filter, in order of ingestion.
pub open spec fn candidates(docs: Seq<DocView>, terms: Seq<Seq<char>>, filter: Option<(Seq<char>, Seq<char>)>) -> Seq<
    HitView,
>
    decreases docs.len(),
{
    if docs.len() == 0 {
        Seq::empty()
    } else {
        let c = candidates(docs.drop_last(), terms, filter);
        let d = docs.last();
        if passes_filter(d, filter) && doc_hit(d, terms) is Some {
            c.push(doc_hit(d, terms)->0)
        } else {
            c
        }
    }
}

/// Strict lexicographic order on character sequences (code point order).
pub open spec fn lex_lt(a: Seq<char>, b: Seq<char>) -> bool
    decreases a.len(),
{
    if a.len() == 0 {
        b.len() > 0
    } else if b.len() == 0 {
        false
    } else if a[0] != b[0] {
        a[0] < b[0]
    } else {
        lex_lt(a.drop_first(), b.drop_first())
    }
}

/// Ranking: higher score first, then smaller id.
pub open spec fn hit_before(a: HitView, b: HitView) -> bool {
    a.1 > b.1 || (a.1 == b.1 && lex_lt(a.0, b.0))
}

pub open spec fn hits_ranked(s: Seq<HitView>) -> bool {
    forall|i: int, j: int| 0 <= i < j < s.len() ==> !hit_before(#[trigger] s[j], #[trigger] s[i])
}

/// An ingested document.
#[derive(Debug, Clone, PartialEq, Eq)]
pub struct TextDocument {
    pub id: String,
    pub body: String,
    pub metadata: HashMap<String, String>,
}

pub open spec fn doc_view(d: TextDocument) -> DocView {
    (d.id@, d.body@, d.metadata@)
}

/// A ranked lexical match; the score counts term matches.
#[derive(Debug, Clone, PartialEq, Eq)]
pub struct SearchHit {
    pub id: String,
    pub score: u64,
    pub snippet: Option<String>,
}

pub open spec fn hit_view(h: SearchHit) -> HitView {
    (
        h.id@,
        h.score,
        match h.snippet {
            Some(s) => Some(s@),
            None => None,
        },
    )
}

pub open spec fn hits_view(v: Seq<SearchHit>) -> Seq<HitView> {
    v.map_values(|h: SearchHit| hit_view(h))
}

/// Splits `s` into its white-space separated words.
fn split_words(s: &Vec<char>) -> (r: Vec<Vec<char>>)
    ensures
        r@.map_values(|w: Vec<char>| w@) == words(s@),
{
    let mut out: Vec<Vec<char>> = Vec::new();
    let mut i: usize = 0;
    while i < s.len()
        invariant
            i <= s@.len(),
            out@.map_values(|w: Vec<char>| w@) == words(s@.subrange(0, i as int)),
            i > 0 && !is_white_space(s@[i - 1]) ==> out@.len() > 0,
        decreases s@.len() - i,
    {
        let ghost pre = s@.subrange(0, i as int + 1);
        assert(pre.drop_last() =~= s@.subrange(0, i as int));
        let ghost ov = out@.map_values(|w: Vec<char>| w@);
        let c = s[i];
        let space = crate::rag::is_white_space_char(c);
        if !space {
            if i == 0 || crate::rag::is_white_space_char(s[i - 1]) {
                let mut w: Vec<char> = Vec::new();
                w.push(c);
                out.push(w);
                assert(out@.map_values(|w: Vec<char>| w@) =~= ov.push(seq![c]));
            } else {
                let mut w = out.pop().unwrap();
                w.push(c);
                out.push(w);
                assert(out@.map_values(|w: Vec<char>| w@) =~= ov.update(ov.len() - 1, ov.last().push(c)));
            }
        }
        i += 1;
    }
    assert(s@.subrange(0, i as int) =~= s@);
    out
}

/// Non-overlapping matches of `n` in `h`, scanning left to right.
fn count_matches(h: &Vec<char>, n: &Vec<char>) -> (r: usize)
    ensures
        r == count_from(h@, n@, 0),
{
    let hn = h.len();
    let nn = n.len();
    if nn == 0 {
        return 0;
    }
    let mut count: usize = 0;
    let mut at: usize = 0;
    while at <= hn && nn <= hn - at
        invariant
            hn == h@.len(),
            nn == n@.len(),
            nn > 0,
            at <= hn + 1,
            count <= at,
            count + count_from(h@, n@, at as int) == count_from(h@, n@, 0),
        decreases hn + 1 - at,
    {
        if matches_at(h, hn, n, nn, at) {
            count += 1;
            at += nn;
        } else {
            at += 1;
        }
    }
    count
}

/// The first position where `n` occurs in `h`.
fn find_first(h: &Vec<char>, n: &Vec<char>) -> (r: Option<usize>)
    ensures
        match find_from(h@, n@, 0) {
            Some(i) => r == Some(i as usize),
            None => r is None,
        },
{
    let hn = h.len();
    let nn = n.len();
    if nn == 0 {
        assert(h@.subrange(0, 0) =~= n@);
        return Some(0);
    }
    let mut at: usize = 0;
    while at <= hn && nn <= hn - at
        invariant
            hn == h@.len(),
            nn == n@.len(),
            nn > 0,
            at <= hn + 1,
            find_from(h@, n@, at as int) == find_from(h@, n@, 0),
        decreases hn + 1 - at,
    {
        if matches_at(h, hn, n, nn, at) {
            return Some(at);
        }
        at += 1;
    }
    None
}

/// Whether `a` sorts strictly before `b`.
fn chars_lt(a: &Vec<char>, b: &Vec<char>) -> (r: bool)
    ensures
        r == lex_lt(a@, b@),
{
    let mut i: usize = 0;
    assert(a@.subrange(0, a@.len() as int) =~= a@);
    assert(b@.subrange(0, b@.len() as int) =~= b@);
    while i < a.len() && i < b.len() && a[i] == b[i]
        invariant
            i <= a@.len(),
            i <= b@.len(),
            lex_lt(a@, b@) == lex_lt(a@.subrange(i as int, a@.len() as int), b@.subrange(i as int, b@.len() as int)),
        decreases a@.len() - i,
    {
        let ghost sa = a@.subrange(i as int, a@.len() as int);
        let ghost sb = b@.subrange(i as int, b@.len() as int);
        assert(sa.drop_first() =~= a@.subrange(i as int + 1, a@.len() as int));
        assert(sb.drop_first() =~= b@.subrange(i as int + 1, b@.len() as int));
        i += 1;
    }
    if i == a.len() {
        i < b.len()
    } else if i == b.len() {
        false
    } else {
        a[i] < b[i]
    }
}

/// The lexical engine is built in and always available.
pub fn fts5_runtime_available() -> (r: bool)
    ensures
        r,
{
    true
}

/// Documents kept in order of ingestion.
pub struct TextSearchEngine {
    docs: Vec<TextDocument>,
}

impl TextSearchEngine {
    pub closed spec fn docs(&self) -> Seq<DocView> {
        self.docs@.map_values(|d: TextDocument| doc_view(d))
    }

    pub fn new() -> (r: Self)
        ensures
            r.docs() == Seq::<DocView>::empty(),
    {
        let r = TextSearchEngine { docs: Vec::new() };
        assert(r.docs() =~= Seq::<DocView>::empty());
        r
    }

    pub fn ingest(&mut self, id: &str, body: &str, metadata: HashMap<String, String>)
        ensures
            final(self).docs() == old(self).docs().push((id@, body@, metadata@)),
    {
        let ghost m = metadata@;
        self.docs.push(TextDocument { id: id.to_owned(), body: body.to_owned(), metadata });
        assert(self.docs() =~= old(self).docs().push((id@, body@, m)));
    }

    /// Scores every document that passes the filter by the matches of the
    /// lowercased query terms in its lowercased body, drops those with no
    /// match, ranks the rest (score descending, id ascending) and keeps the
    /// first `limit`.
    pub fn query(&self, query: &str, metadata_filter: Option<(&str, &str)>, limit: usize) -> (r: Vec<SearchHit>)
        ensures
            exists|s: Seq<HitView>|
                hits_ranked(s) && #[trigger] s.to_multiset() == candidates(
                    self.docs(),
                    words(ascii_lower(query@)),
                    filter_view(metadata_filter),
                ).to_multiset() && hits_view(r@) == s.subrange(
                    0,
                    if limit < s.len() { limit as int } else { s.len() as int },
                ),
    {
        let lowered = ascii_lowercase(query);
        let qchars = chars_of(lowered.as_str());
        let terms = split_words(&qchars);
        let ghost tv = terms@.map_values(|w: Vec<char>| w@);
        let ghost fv = filter_view(metadata_filter);
        let ghost dv = self.docs();
        let mut cands: Vec<SearchHit> = Vec::new();
        let mut i: usize = 0;
        while i < self.docs.len()
            invariant
                i <= self.docs@.len(),
                dv == self.docs(),
                tv == terms@.map_values(|w: Vec<char>| w@),
                tv == words(ascii_lower(query@)),
                fv == filter_view(metadata_filter),
                hits_view(cands@) == candidates(dv.subrange(0, i as int), tv, fv),
            decreases self.docs@.len() - i,
        {
            let ghost pre = dv.subrange(0, i as int + 1);
            assert(pre.drop_last() =~= dv.subrange(0, i as int));
            assert(pre.last() == doc_view(self.docs@[i as int]));
            let doc = &self.docs[i];
            if doc_passes(doc, metadata_filter) {
                match doc_hit_exec(doc, &terms) {
                    Some(h) => {
                        let ghost cv = hits_view(cands@);
                        cands.push(h);
                        assert(hits_view(cands@) =~= cv.push(hit_view(h)));
                    },
                    None => {},
                }
            }
            i += 1;
        }
        assert(dv.subrange(0, i as int) =~= dv);
        let ghost input = hits_view(cands@);
        let mut rest = cands;
        let mut sorted: Vec<SearchHit> = Vec::new();
        while rest.len() > 0
            invariant
                hits_ranked(hits_view(sorted@)),
                hits_view(sorted@).to_multiset().add(hits_view(rest@).to_multiset()) == input.to_multiset(),
            decreases rest@.len(),
        {
            let ghost rv0 = hits_view(rest@);
            let c = rest.remove(0);
            assert(hits_view(rest@) =~= rv0.remove(0));
            let cid = chars_of(c.id.as_str());
            let mut p: usize = 0;
            let mut found = false;
            while p < sorted.len() && !found
                invariant
                    p <= sorted@.len(),
                    cid@ == c.id@,
                    forall|k: int| 0 <= k < p ==> !hit_before(hit_view(c), #[trigger] hits_view(sorted@)[k]),
                    found ==> p < sorted@.len() && hit_before(hit_view(c), hits_view(sorted@)[p as int]),
                decreases sorted@.len() - p + if found { 0int } else { 1int },
            {
                if ranks_first(&c, &cid, &sorted[p]) {
                    found = true;
                } else {
                    p += 1;
                }
            }
            let ghost before = hits_view(sorted@);
            let ghost cv = hit_view(c);
            sorted.insert(p, c);
            proof {
                let after = hits_view(sorted@);
                assert(after =~= before.insert(p as int, cv));
                assert forall|i: int, j: int| 0 <= i < j < after.len() implies !hit_before(
                    #[trigger] after[j],
                    #[trigger] after[i],
                ) by {
                    if i == p && j > p {
                        lemma_lex_lt_total(before[p as int].0, before[p as int].0);
                        assert(!hit_before(before[j - 1], before[p as int]));
                        lemma_hit_before_total(cv, before[p as int], before[j - 1]);
                    } else if i < p && j > p {
                        assert(!hit_before(before[j - 1], before[i]));
                    } else if i > p {
                        assert(!hit_before(before[j - 1], before[i - 1]));
                    }
                }
                assert(rv0.to_multiset() == rv0.remove(0).to_multiset().insert(rv0[0]));
            }
        }
        assert(hits_view(rest@) =~= Seq::<HitView>::empty());
        let ghost sv = hits_view(sorted@);
        assert(sv.to_multiset() =~= input.to_multiset());
        sorted.truncate(limit);
        assert(hits_view(sorted@) =~= sv.subrange(0, if limit < sv.len() { limit as int } else { sv.len() as int }));
        sorted
    }
}

pub open spec fn filter_view(f: Option<(&str, &str)>) -> Option<(Seq<char>, Seq<char>)> {
    match f {
        Some((k, v)) => Some((k@, v@)),
        None => None,
    }
}

proof fn lemma_lex_lt_total(a: Seq<char>, b: Seq<char>)
    ensures
        a != b ==> lex_lt(a, b) || lex_lt(b, a),
        !(lex_lt(a, b) && lex_lt(b, a)),
    decreases a.len(),
{
    if a.len() > 0 && b.len() > 0 && a[0] == b[0] {
        lemma_lex_lt_total(a.drop_first(), b.drop_first());
        if a != b {
            assert(a =~= seq![a[0]] + a.drop_first());
            assert(b =~= seq![b[0]] + b.drop_first());
        }
    } else if a.len() == 0 && b.len() == 0 {
        assert(a =~= b);
    }
}

proof fn lemma_lex_lt_trans(a: Seq<char>, b: Seq<char>, c: Seq<char>)
    requires
        lex_lt(a, b),
        lex_lt(b, c),
    ensures
        lex_lt(a, c),
    decreases a.len(),
{
    if a.len() > 0 && b.len() > 0 && c.len() > 0 && a[0] == b[0] && b[0] == c[0] {
        lemma_lex_lt_trans(a.drop_first(), b.drop_first(), c.drop_first());
    }
}

/// If `x` ranks before `b` and `c` does not rank before `b`, then `c` does
/// not rank before `x`.
proof fn lemma_hit_before_total(x: HitView, b: HitView, c: HitView)
    requires
        hit_before(x, b),
        !hit_before(c, b),
    ensures
        !hit_before(c, x),
{
    lemma_lex_lt_total(b.0, c.0);
    if c.1 == x.1 && x.1 == b.1 && lex_lt(c.0, x.0) {
        lemma_lex_lt_trans(c.0, x.0, b.0);
    }
}

/// Whether hit `c` (whose id has characters `cid`) ranks before `h`.
fn ranks_first(c: &SearchHit, cid: &Vec<char>, h: &SearchHit) -> (r: bool)
    requires
        cid@ == c.id@,
    ensures
        r == hit_before(hit_view(*c), hit_view(*h)),
{
    if c.score != h.score {
        return c.score > h.score;
    }
    let hid = chars_of(h.id.as_str());
    chars_lt(cid, &hid)
}

/// Whether `doc` passes the metadata filter.
fn doc_passes(doc: &TextDocument, filter: Option<(&str, &str)>) -> (r: bool)
    ensures
        r == passes_filter(doc_view(*doc), filter_view(filter)),
{
    match filter {
        None => true,
        Some((k, v)) => match attribute_lookup(&doc.metadata, k) {
            Some(x) => {
                let want = v.to_owned();
                *x == want
            },
            None => false,
        },
    }
}

/// The hit `doc` gives for `terms`, if any.
fn doc_hit_exec(doc: &TextDocument, terms: &Vec<Vec<char>>) -> (r: Option<SearchHit>)
    ensures
        match doc_hit(doc_view(*doc), terms@.map_values(|w: Vec<char>| w@)) {
            Some(h) => r matches Some(x) && hit_view(x) == h,
            None => r is None,
        },
{
    let ghost tv = terms@.map_values(|w: Vec<char>| w@);
    let lowered = ascii_lowercase(doc.body.as_str());
    let lower = chars_of(lowered.as_str());
    let mut score: u64 = 0;
    let mut t: usize = 0;
    while t < terms.len()
        invariant
            t <= terms@.len(),
            tv == terms@.map_values(|w: Vec<char>| w@),
            lower@ == ascii_lower(doc.body@),
            score == capped(term_matches(lower@, tv.subrange(0, t as int))),
        decreases terms@.len() - t,
    {
        assert(tv.subrange(0, t as int + 1).drop_last() =~= tv.subrange(0, t as int));
        let c = count_matches(&lower, &terms[t]);
        score = score.saturating_add(c as u64);
        t += 1;
    }
    assert(tv.subrange(0, t as int) =~= tv);
    if score == 0 {
        return None;
    }
    let mut snippet: Option<String> = None;
    let mut k: usize = 0;
    while k < terms.len()
        invariant
            k <= terms@.len(),
            tv == terms@.map_values(|w: Vec<char>| w@),
            lower@ == ascii_lower(doc.body@),
            lower@.len() == doc.body@.len(),
            first_hit(lower@, tv) == first_hit(lower@, tv.subrange(k as int, tv.len() as int)),
            snippet is None,
            score == capped(term_matches(lower@, tv)),
            score != 0,
        decreases terms@.len() - k,
    {
        let ghost rest = tv.subrange(k as int, tv.len() as int);
        assert(rest.drop_first() =~= tv.subrange(k as int + 1, tv.len() as int));
        assert(rest[0] == terms@[k as int]@);
        proof {
            lemma_find_from_bounds(lower@, terms@[k as int]@, 0);
        }
        match find_first(&lower, &terms[k]) {
            Some(idx) => {
                let len = lower.len();
                let start = if idx >= 24 { idx - 24 } else { 0 };
                let end = if len - idx >= 24 { idx + 24 } else { len };
                let piece = doc.body.as_str().substring_char(start, end);
                snippet = Some(piece.to_owned());
                let h = SearchHit { id: doc.id.clone(), score, snippet };
                assert(first_hit(lower@, tv) == Some(idx as int));
                assert(piece@ == snippet_of(doc.body@, idx as int));
                return Some(h);
            },
            None => {},
        }
        k += 1;
    }
    assert(tv.subrange(k as int, tv.len() as int) =~= Seq::<Seq<char>>::empty());
    Some(SearchHit { id: doc.id.clone(), score, snippet: None })
}

} // verus!
