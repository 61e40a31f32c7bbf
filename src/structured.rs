//! Structured memory: entities with string attributes, addressed by a
//! canonical id (trimmed, ASCII-lowercased).

use std::collections::HashMap;
use vstd::prelude::*;

verus! {

/// Unicode `White_Space`, the characters `str::trim` strips.
pub open spec fn is_white_space(c: char) -> bool {
    ('\u{9}' <= c && c <= '\u{d}') || c == ' ' || c == '\u{85}' || c == '\u{a0}' || c == '\u{1680}'
        || ('\u{2000}' <= c && c <= '\u{200a}') || c == '\u{2028}' || c == '\u{2029}' || c == '\u{202f}'
        || c == '\u{205f}' || c == '\u{3000}'
}

pub open spec fn strip_front(s: Seq<char>) -> Seq<char>
    decreases s.len(),
{
    if s.len() > 0 && is_white_space(s[0]) {
        strip_front(s.drop_first())
    } else {
        s
    }
}

pub open spec fn strip_back(s: Seq<char>) -> Seq<char>
    decreases s.len(),
{
    if s.len() > 0 && is_white_space(s.last()) {
        strip_back(s.drop_last())
    } else {
        s
    }
}

/// `s` without leading and trailing white space.
pub open spec fn trimmed(s: Seq<char>) -> Seq<char> {
    strip_back(strip_front(s))
}

pub open spec fn ascii_lower_char(c: char) -> char {
    if 'A' <= c && c <= 'Z' {
        ((c as int) + 32) as char
    } else {
        c
    }
}

/// `s` with ASCII upper-case letters turned to lower case, all else unchanged.
pub open spec fn ascii_lower(s: Seq<char>) -> Seq<char> {
    s.map_values(|c: char| ascii_lower_char(c))
}

/// The canonical form of an entity id.
pub open spec fn canonical(s: Seq<char>) -> Seq<char> {
    ascii_lower(trimmed(s))
}

/// Relies on `str::trim`: removes leading and trailing characters with the
/// Unicode `White_Space` property.
#[verifier::external_body]
fn trim_str(s: &str) -> (r: &str)
    ensures
        r@ == trimmed(s@),
{
    s.trim()
}

/// Relies on `str::to_ascii_lowercase`: maps `A`..=`Z` to `a`..=`z`, leaves every other character.
#[verifier::external_body]
pub(crate) fn ascii_lowercase(s: &str) -> (r: String)
    ensures
        r@ == ascii_lower(s@),
{
    s.to_ascii_lowercase()
}

/// The canonical id under which an entity is stored.
pub fn canonicalize(id: &str) -> (r: String)
    ensures
        r@ == canonical(id@),
{
    ascii_lowercase(trim_str(id))
}

pub open spec fn no_edge_space(s: Seq<char>) -> bool {
    s.len() > 0 ==> !is_white_space(s[0]) && !is_white_space(s.last())
}

proof fn lemma_strip_back_prefix(s: Seq<char>)
    ensures
        strip_back(s).len() <= s.len(),
        strip_back(s) == s.subrange(0, strip_back(s).len() as int),
        strip_back(s).len() > 0 ==> !is_white_space(strip_back(s).last()),
    decreases s.len(),
{
    if s.len() > 0 && is_white_space(s.last()) {
        lemma_strip_back_prefix(s.drop_last());
        let r = strip_back(s.drop_last());
        assert(s.drop_last().subrange(0, r.len() as int) =~= s.subrange(0, r.len() as int));
    } else {
        assert(s.subrange(0, s.len() as int) =~= s);
    }
}

proof fn lemma_strip_front_head(s: Seq<char>)
    ensures
        strip_front(s).len() > 0 ==> !is_white_space(strip_front(s)[0]),
    decreases s.len(),
{
    if s.len() > 0 && is_white_space(s[0]) {
        lemma_strip_front_head(s.drop_first());
    }
}

proof fn lemma_trimmed_no_edge_space(s: Seq<char>)
    ensures
        no_edge_space(trimmed(s)),
{
    let f = strip_front(s);
    lemma_strip_front_head(s);
    lemma_strip_back_prefix(f);
    let r = strip_back(f);
    if r.len() > 0 {
        assert(r[0] == f[0]);
    }
}

proof fn lemma_trim_fixed(s: Seq<char>)
    requires
        no_edge_space(s),
    ensures
        trimmed(s) == s,
{
}

/// Canonicalizing a canonical id changes nothing.
pub proof fn lemma_canonical_idempotent(s: Seq<char>)
    ensures
        canonical(canonical(s)) == canonical(s),
{
    let t = trimmed(s);
    lemma_trimmed_no_edge_space(s);
    let l = ascii_lower(t);
    assert(no_edge_space(l)) by {
        if l.len() > 0 {
            assert(l[0] == ascii_lower_char(t[0]));
            assert(l.last() == ascii_lower_char(t.last()));
        }
    }
    lemma_trim_fixed(l);
    assert(ascii_lower(l) =~= l);
}

/// Entity with its attributes.
#[derive(Debug, Clone, PartialEq, Eq)]
pub struct StructuredEntity {
    pub id: String,
    pub attrs: HashMap<String, String>,
}

/// The id and attributes of each entity, as plain values.
pub open spec fn entries_view(v: Seq<StructuredEntity>) -> Seq<(Seq<char>, Map<String, String>)> {
    v.map_values(|e: StructuredEntity| (e.id@, e.attrs@))
}

/// The entities by id, later entries winning.
pub open spec fn entries_map(s: Seq<(Seq<char>, Map<String, String>)>) -> Map<Seq<char>, Map<String, String>>
    decreases s.len(),
{
    if s.len() == 0 {
        Map::empty()
    } else {
        entries_map(s.drop_last()).insert(s.last().0, s.last().1)
    }
}

pub open spec fn unique_ids(s: Seq<(Seq<char>, Map<String, String>)>) -> bool {
    forall|i: int, j: int| 0 <= i < j < s.len() ==> s[i].0 != s[j].0
}

proof fn lemma_absent_key(s: Seq<(Seq<char>, Map<String, String>)>, k: Seq<char>)
    requires
        forall|i: int| 0 <= i < s.len() ==> s[i].0 != k,
    ensures
        !entries_map(s).contains_key(k),
    decreases s.len(),
{
    if s.len() > 0 {
        lemma_absent_key(s.drop_last(), k);
    }
}

proof fn lemma_present_key(s: Seq<(Seq<char>, Map<String, String>)>, i: int)
    requires
        unique_ids(s),
        0 <= i < s.len(),
    ensures
        entries_map(s).contains_key(s[i].0),
        entries_map(s)[s[i].0] == s[i].1,
    decreases s.len(),
{
    if i < s.len() - 1 {
        lemma_present_key(s.drop_last(), i);
    }
}

proof fn lemma_remove_key(s: Seq<(Seq<char>, Map<String, String>)>, i: int)
    requires
        unique_ids(s),
        0 <= i < s.len(),
    ensures
        entries_map(s.remove(i)) == entries_map(s).remove(s[i].0),
        unique_ids(s.remove(i)),
    decreases s.len(),
{
    let k = s[i].0;
    if i == s.len() - 1 {
        assert(s.remove(i) =~= s.drop_last());
        lemma_absent_key(s.drop_last(), k);
        assert(entries_map(s.drop_last()) =~= entries_map(s).remove(k));
    } else {
        let d = s.drop_last();
        lemma_remove_key(d, i);
        assert(s.remove(i).drop_last() =~= d.remove(i));
        assert(s.remove(i).last() == s.last());
        assert(entries_map(s.remove(i)) =~= entries_map(s).remove(k));
    }
}

/// Entities keyed by canonical id.
pub struct StructuredMemory {
    entities: Vec<StructuredEntity>,
}

impl StructuredMemory {
    #[verifier::type_invariant]
    spec fn inv(&self) -> bool {
        unique_ids(entries_view(self.entities@))
    }

    /// Attributes of each stored entity, by canonical id.
    pub closed spec fn entities(&self) -> Map<Seq<char>, Map<String, String>> {
        entries_map(entries_view(self.entities@))
    }

    pub fn new() -> (r: Self)
        ensures
            r.entities() == Map::<Seq<char>, Map<String, String>>::empty(),
    {
        let r = StructuredMemory { entities: Vec::new() };
        assert(entries_view(r.entities@) =~= Seq::<(Seq<char>, Map<String, String>)>::empty());
        r
    }

    /// The index of the entity stored under `key`, if any.
    fn find(&self, key: &String) -> (r: Option<usize>)
        ensures
            match r {
                Some(i) => i < self.entities@.len() && self.entities@[i as int].id@ == key@,
                None => forall|i: int| 0 <= i < self.entities@.len() ==> #[trigger] self.entities@[i].id@ != key@,
            },
    {
        let mut i: usize = 0;
        while i < self.entities.len()
            invariant
                i <= self.entities@.len(),
                forall|j: int| 0 <= j < i ==> #[trigger] self.entities@[j].id@ != key@,
            decreases self.entities@.len() - i,
        {
            if self.entities[i].id == *key {
                return Some(i);
            }
            i += 1;
        }
        None
    }

    /// Stores `attrs` under the canonical form of `id`, replacing what was there.
    pub fn upsert(&mut self, id: &str, attrs: HashMap<String, String>)
        ensures
            final(self).entities() == old(self).entities().insert(canonical(id@), attrs@),
    {
        proof {
            use_type_invariant(&*self);
        }
        let key = canonicalize(id);
        let found = self.find(&key);
        let mut entities: Vec<StructuredEntity> = Vec::new();
        std::mem::swap(&mut entities, &mut self.entities);
        let ghost s0 = entries_view(entities@);
        if let Some(i) = found {
            entities.remove(i);
            proof {
                lemma_remove_key(s0, i as int);
                assert(entries_view(entities@) =~= s0.remove(i as int));
            }
        } else {
            proof {
                assert(s0 =~= entries_view(entities@));
                lemma_absent_key(s0, key@);
                assert(entries_map(s0) =~= entries_map(s0).remove(key@));
            }
        }
        let ghost s1 = entries_view(entities@);
        assert(forall|j: int| 0 <= j < s1.len() ==> s1[j].0 != key@) by {
            if let Some(i) = found {
                assert forall|j: int| 0 <= j < s1.len() implies s1[j].0 != key@ by {
                    if j < i {
                        assert(s1[j] == s0[j]);
                    } else {
                        assert(s1[j] == s0[j + 1]);
                    }
                }
            }
        }
        entities.push(StructuredEntity { id: key, attrs });
        proof {
            let s2 = entries_view(entities@);
            assert(s2 =~= s1.push((key@, attrs@)));
            assert(s2.drop_last() =~= s1);
            assert(entries_map(s2) =~= entries_map(s0).remove(key@).insert(key@, attrs@));
            assert(entries_map(s2) =~= entries_map(s0).insert(key@, attrs@));
        }
        self.entities = entities;
    }

    /// The entity stored under the canonical form of `id`.
    pub fn get(&self, id: &str) -> (r: Option<&StructuredEntity>)
        ensures
            match r {
                Some(e) => self.entities().contains_key(canonical(id@)) && e.id@ == canonical(id@)
                    && e.attrs@ == self.entities()[canonical(id@)],
                None => !self.entities().contains_key(canonical(id@)),
            },
    {
        proof {
            use_type_invariant(self);
        }
        let key = canonicalize(id);
        match self.find(&key) {
            Some(i) => {
                proof {
                    lemma_present_key(entries_view(self.entities@), i as int);
                }
                Some(&self.entities[i])
            },
            None => {
                proof {
                    lemma_absent_key(entries_view(self.entities@), key@);
                }
                None
            },
        }
    }

    /// The canonical ids of all stored entities.
    pub fn entity_ids(&self) -> (r: Vec<String>)
        ensures
            forall|k: Seq<char>| #[trigger] self.entities().contains_key(k) <==> exists|i: int|
                0 <= i < r@.len() && r@[i]@ == k,
    {
        proof {
            use_type_invariant(self);
        }
        let ghost ev = entries_view(self.entities@);
        let mut out: Vec<String> = Vec::new();
        let mut i: usize = 0;
        while i < self.entities.len()
            invariant
                i <= self.entities@.len(),
                ev == entries_view(self.entities@),
                out@.len() == i,
                forall|j: int| 0 <= j < i ==> #[trigger] out@[j]@ == ev[j].0,
            decreases self.entities@.len() - i,
        {
            out.push(self.entities[i].id.clone());
            i += 1;
        }
        proof {
            assert forall|k: Seq<char>| #[trigger] self.entities().contains_key(k) <==> exists|j: int|
                0 <= j < out@.len() && out@[j]@ == k by {
                if exists|j: int| 0 <= j < out@.len() && out@[j]@ == k {
                    let j = choose|j: int| 0 <= j < out@.len() && out@[j]@ == k;
                    lemma_present_key(ev, j);
                } else {
                    assert forall|j: int| 0 <= j < ev.len() implies ev[j].0 != k by {
                        assert(out@[j]@ == ev[j].0);
                    }
                    lemma_absent_key(ev, k);
                }
            }
        }
        out
    }

    /// Removes the entity stored under the canonical form of `id`, if any.
    pub fn delete(&mut self, id: &str)
        ensures
            final(self).entities() == old(self).entities().remove(canonical(id@)),
    {
        proof {
            use_type_invariant(&*self);
        }
        let key = canonicalize(id);
        let found = self.find(&key);
        let mut entities: Vec<StructuredEntity> = Vec::new();
        std::mem::swap(&mut entities, &mut self.entities);
        let ghost s0 = entries_view(entities@);
        if let Some(i) = found {
            entities.remove(i);
            proof {
                lemma_remove_key(s0, i as int);
                assert(entries_view(entities@) =~= s0.remove(i as int));
            }
        } else {
            proof {
                lemma_absent_key(s0, key@);
                assert(entries_map(s0) =~= entries_map(s0).remove(key@));
            }
        }
        self.entities = entities;
    }
}

/// Any spelling of an id finds what its canonical form finds: `get(x)` and
/// `get(canonicalize(x))` look up the same key.
pub proof fn lemma_get_canonical(mem: &StructuredMemory, x: Seq<char>)
    ensures
        canonical(canonical(x)) == canonical(x),
        mem.entities().contains_key(canonical(x)) == mem.entities().contains_key(canonical(canonical(x))),
        mem.entities()[canonical(x)] == mem.entities()[canonical(canonical(x))],
{
    lemma_canonical_idempotent(x);
}

/// Relies on `HashMap::get`: finds the value whose key equals `key`, if any.
#[verifier::external_body]
pub(crate) fn attribute_lookup<'a>(m: &'a HashMap<String, String>, key: &str) -> (r: Option<&'a String>)
    ensures
        match r {
            Some(v) => (exists|k: String| #[trigger] m@.contains_key(k) && k@ == key@) && (forall|k: String|
                #[trigger] m@.contains_key(k) && k@ == key@ ==> m@[k] == *v),
            None => forall|k: String| #[trigger] m@.contains_key(k) ==> k@ != key@,
        },
{
    m.get(key)
}

/// Whether the attribute `key` of `attrs` holds exactly `value`.
pub open spec fn has_attribute(attrs: Map<String, String>, key: Seq<char>, value: Seq<char>) -> bool {
    exists|k: String| #[trigger] attrs.contains_key(k) && k@ == key && attrs[k]@ == value
}

/// A typed record with string attributes.
#[derive(Debug, Clone, PartialEq, Eq)]
pub struct StructuredMemoryRecord {
    pub id: String,
    pub entity_type: String,
    pub attributes: HashMap<String, String>,
}

impl StructuredMemoryRecord {
    /// Whether attribute `key` is present with value `value`.
    pub fn matches(&self, key: &str, value: &str) -> (r: bool)
        ensures
            r == has_attribute(self.attributes@, key@, value@),
    {
        match attribute_lookup(&self.attributes, key) {
            Some(v) => {
                let want = value.to_owned();
                let r = *v == want;
                r
            },
            None => false,
        }
    }
}

} // verus!
