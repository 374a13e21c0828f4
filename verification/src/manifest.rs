//! The parsed ecosystem manifest: an object of sections, each section a
//! mapping from package name to a leaf value. Sections keep their entries
//! strictly sorted by key, so that feeding them to the digest in storage
//! order is independent of the order in which an unordered mapping was
//! walked when the manifest was decoded.

use vstd::prelude::*;
use crate::strutil::{lex_lt, str_lt, str_eq};
use crate::strutil::{lemma_lex_lt_irreflexive, lemma_lex_lt_connected, lemma_lex_lt_asymmetric,
    lemma_lex_lt_transitive};

verus! {

/// A leaf value under a section: a version string, or any other value,
/// kept as a rendering of what stood in the manifest so that errors can
/// name it.
#[derive(Debug)]
pub enum DepValue {
    Text(String),
    Other(String),
}

/// Mathematical view of a leaf value.
pub enum DepValueV {
    Text(Seq<char>),
    Other(Seq<char>),
}

impl View for DepValue {
    type V = DepValueV;

    open spec fn view(&self) -> DepValueV {
        match self {
            DepValue::Text(s) => DepValueV::Text(s@),
            DepValue::Other(s) => DepValueV::Other(s@),
        }
    }
}

/// One `name: value` pair of a section.
#[derive(Debug)]
pub struct DepEntry {
    pub key: String,
    pub value: DepValue,
}

/// Mathematical view of one pair.
pub struct DepEntryV {
    pub key: Seq<char>,
    pub value: DepValueV,
}

impl View for DepEntry {
    type V = DepEntryV;

    open spec fn view(&self) -> DepEntryV {
        DepEntryV { key: self.key@, value: self.value@ }
    }
}

impl DeepView for DepEntry {
    type V = DepEntryV;

    open spec fn deep_view(&self) -> DepEntryV {
        self.view()
    }
}

/// Entries strictly ascending by key: keys are unique and in one fixed
/// order, whatever order they were inserted in.
pub open spec fn sorted_entries(s: Seq<DepEntryV>) -> bool {
    forall|i: int, j: int| 0 <= i < j < s.len() ==> lex_lt(s[i].key, s[j].key)
}

/// The mapping a section denotes.
pub open spec fn section_map(s: Seq<DepEntryV>) -> Map<Seq<char>, DepValueV>
    decreases s.len(),
{
    if s.len() == 0 {
        Map::empty()
    } else {
        section_map(s.drop_last()).insert(s.last().key, s.last().value)
    }
}

/// One section of the manifest; inserting keeps entries sorted by key.
#[derive(Debug)]
pub struct Section {
    pub entries: Vec<DepEntry>,
}

impl View for Section {
    type V = Seq<DepEntryV>;

    open spec fn view(&self) -> Seq<DepEntryV> {
        self.entries.deep_view()
    }
}

/// The index at which `k` sits or would be inserted: the first position
/// whose key is not below `k`.
pub open spec fn insert_pos(s: Seq<DepEntryV>, k: Seq<char>) -> int
    decreases s.len(),
{
    if s.len() == 0 {
        0
    } else if lex_lt(s[0].key, k) {
        1 + insert_pos(s.skip(1), k)
    } else {
        0
    }
}

proof fn lemma_insert_pos(s: Seq<DepEntryV>, k: Seq<char>)
    ensures
        0 <= insert_pos(s, k) <= s.len(),
        forall|j: int| 0 <= j < insert_pos(s, k) ==> lex_lt(s[j].key, k),
        insert_pos(s, k) < s.len() ==> !lex_lt(s[insert_pos(s, k)].key, k),
    decreases s.len(),
{
    if s.len() > 0 && lex_lt(s[0].key, k) {
        lemma_insert_pos(s.skip(1), k);
        assert forall|j: int| 0 <= j < insert_pos(s, k) implies lex_lt(s[j].key, k) by {
            if j >= 1 {
                assert(s.skip(1)[j - 1] == s[j]);
            }
        }
        if insert_pos(s, k) < s.len() {
            assert(s.skip(1)[insert_pos(s, k) - 1] == s[insert_pos(s, k)]);
        }
    }
}

/// The entries after inserting `k -> v`: replaces the value when the key
/// is present, splices a new entry in otherwise.
pub open spec fn insert_sorted(s: Seq<DepEntryV>, k: Seq<char>, v: DepValueV) -> Seq<DepEntryV> {
    let p = insert_pos(s, k);
    let e = DepEntryV { key: k, value: v };
    if p < s.len() && s[p].key == k {
        s.update(p, e)
    } else {
        s.take(p) + seq![e] + s.skip(p)
    }
}

/// Inserting keeps the entries strictly sorted.
pub proof fn lemma_insert_sorted_keeps_order(s: Seq<DepEntryV>, k: Seq<char>, v: DepValueV)
    requires
        sorted_entries(s),
    ensures
        sorted_entries(insert_sorted(s, k, v)),
{
    lemma_insert_pos(s, k);
    let p = insert_pos(s, k);
    let e = DepEntryV { key: k, value: v };
    if p < s.len() && s[p].key == k {
        let r = s.update(p, e);
        assert forall|i: int, j: int| 0 <= i < j < r.len() implies lex_lt(r[i].key, r[j].key) by {
            assert(lex_lt(s[i].key, s[j].key));
        }
    } else {
        let r = s.take(p) + seq![e] + s.skip(p);
        if p < s.len() {
            lemma_lex_lt_connected(s[p].key, k);
        }
        assert forall|i: int, j: int| 0 <= i < j < r.len() implies lex_lt(r[i].key, r[j].key) by {
            if i < p {
                assert(r[i] == s[i]);
            } else if i == p {
                assert(r[i] == e);
            } else {
                assert(r[i] == s[i - 1]);
            }
            if j < p {
                assert(r[j] == s[j]);
            } else if j == p {
                assert(r[j] == e);
            } else {
                assert(r[j] == s[j - 1]);
            }
            if j == p {
                // i < p: s[i].key below k by choice of p
            } else if i == p {
                // k below s[j-1].key: p's key is not below k and differs
                if j - 1 > p {
                    lemma_lex_lt_transitive(k, s[p as int].key, s[j - 1].key);
                }
            }
        }
    }
}

/// The map denoted by the entries after an insert is the map before, with
/// `k` now bound to `v`.
pub proof fn lemma_insert_sorted_map(s: Seq<DepEntryV>, k: Seq<char>, v: DepValueV)
    requires
        sorted_entries(s),
    ensures
        section_map(insert_sorted(s, k, v)) == section_map(s).insert(k, v),
    decreases s.len(),
{
    lemma_insert_pos(s, k);
    let p = insert_pos(s, k);
    let e = DepEntryV { key: k, value: v };
    let r = insert_sorted(s, k, v);
    if s.len() == 0 {
        assert(r =~= seq![e]);
        assert(r.drop_last() =~= s);
        assert(r.last() == e);
        assert(section_map(r) == section_map(r.drop_last()).insert(k, v));
        assert(section_map(r) == section_map(s).insert(k, v));
    } else if p == s.len() {
        // appended at the end
        assert(r =~= s.push(e));
        assert(r.drop_last() =~= s);
        assert(section_map(r) =~= section_map(s).insert(k, v));
    } else {
        // the insertion point is inside: the last entry is unchanged
        let s0 = s.drop_last();
        assert(lex_lt(k, s.last().key) || k == s.last().key || lex_lt(s.last().key, k)) by {
            lemma_lex_lt_connected(k, s.last().key);
        }
        if p == s.len() - 1 && s[p].key == k {
            assert(r =~= s.update(p, e));
            assert(r.drop_last() =~= s0);
            assert(r.last() == e);
            assert(section_map(r) =~= section_map(s).insert(k, v));
        } else {
            // p addresses a position strictly before the last entry
            assert(p < s.len() - 1 || (p == s.len() - 1 && s[p].key != k));
            if p == s.len() - 1 {
                // inserted just before the last entry
                assert(!lex_lt(s[p].key, k) && s[p].key != k);
                let r0 = insert_sorted(s0, k, v);
                lemma_insert_pos(s0, k);
                assert(insert_pos(s0, k) == p) by {
                    lemma_insert_pos_is_first(s0, k, p);
                }
                assert(r =~= r0 + seq![s.last()]);
                lemma_insert_sorted_map(s0, k, v);
                assert(r.drop_last() =~= r0);
                assert(r.last() == s.last());
                assert(section_map(r) == section_map(r0).insert(s.last().key, s.last().value));
                assert(section_map(r) =~= section_map(s).insert(k, v)) by {
                    assert(k != s.last().key);
                }
            } else {
                // p < s.len() - 1: the last entry stays last in the result
                let r0 = insert_sorted(s0, k, v);
                lemma_insert_pos(s0, k);
                lemma_insert_pos_is_first(s0, k, p);
                lemma_insert_sorted_map(s0, k, v);
                if s[p].key == k {
                    assert(r =~= s.update(p, e));
                    assert(r0 =~= s0.update(p, e));
                    assert(r.drop_last() =~= r0);
                    assert(r.last() == s.last());
                } else {
                    assert(r =~= s.take(p) + seq![e] + s.skip(p));
                    assert(r0 =~= s0.take(p) + seq![e] + s0.skip(p));
                    assert(r.drop_last() =~= r0);
                    assert(r.last() == s.last());
                }
                assert(section_map(r) == section_map(r0).insert(s.last().key, s.last().value));
                assert(lex_lt(k, s.last().key)) by {
                    if p < s.len() && s[p].key == k {
                        assert(lex_lt(s[p as int].key, s[s.len() - 1].key));
                    } else {
                        assert(!lex_lt(s[p].key, k));
                        lemma_lex_lt_connected(k, s[p as int].key);
                        if k != s[p as int].key {
                            if p < s.len() - 1 {
                                lemma_lex_lt_transitive(k, s[p as int].key, s.last().key);
                            }
                        }
                    }
                }
                assert(k != s.last().key) by {
                    lemma_lex_lt_irreflexive(k);
                }
                assert(section_map(r) =~= section_map(s).insert(k, v));
            }
        }
    }
}

/// A position with every earlier key below `k` and its own key not below
/// `k` is the insert position.
proof fn lemma_insert_pos_is_first(s: Seq<DepEntryV>, k: Seq<char>, p: int)
    requires
        0 <= p <= s.len(),
        forall|j: int| 0 <= j < p ==> lex_lt(s[j].key, k),
        p < s.len() ==> !lex_lt(s[p].key, k),
    ensures
        insert_pos(s, k) == p,
{
    lemma_insert_pos(s, k);
    let q = insert_pos(s, k);
    if q < p {
        assert(lex_lt(s[q].key, k));
    } else if p < q {
        assert(lex_lt(s[p].key, k));
    }
}

impl Section {
    /// An empty section.
    pub fn new() -> (r: Section)
        ensures
            r@ == Seq::<DepEntryV>::empty(),
            sorted_entries(r@),
    {
        let r = Section { entries: Vec::new() };
        proof {
            assert(r@ =~= Seq::<DepEntryV>::empty());
        }
        r
    }

    /// Inserts one pair, keeping entries sorted; an existing key has its
    /// value replaced.
    pub fn insert(&mut self, key: String, value: DepValue)
        requires
            sorted_entries(old(self)@),
        ensures
            final(self)@ == insert_sorted(old(self)@, key@, value@),
            sorted_entries(final(self)@),
            section_map(final(self)@) == section_map(old(self)@).insert(key@, value@),
    {
        proof {
            lemma_insert_pos(self@, key@);
            lemma_insert_sorted_keeps_order(self@, key@, value@);
            lemma_insert_sorted_map(self@, key@, value@);
        }
        let ghost s = self@;
        let mut i: usize = 0;
        while i < self.entries.len() && str_lt(self.entries[i].key.as_str(), key.as_str())
            invariant
                0 <= i <= self.entries.len(),
                self == old(self),
                s == self@,
                forall|j: int| 0 <= j < i ==> lex_lt(s[j].key, key@),
            decreases self.entries.len() - i,
        {
            proof {
                assert(s[i as int].key == self.entries@[i as int].key@);
            }
            i = i + 1;
        }
        proof {
            if i < self.entries.len() {
                assert(s[i as int].key == self.entries@[i as int].key@);
            }
            lemma_insert_pos_is_first(s, key@, i as int);
        }
        let e = DepEntry { key, value };
        if i < self.entries.len() && str_eq(self.entries[i].key.as_str(), e.key.as_str()) {
            self.entries.remove(i);
            self.entries.insert(i, e);
            proof {
                assert(self@ =~= s.update(i as int, DepEntryV { key: e.key@, value: e.value@ }));
            }
        } else {
            self.entries.insert(i, e);
            proof {
                assert(self@ =~= s.take(i as int) + seq![
                    DepEntryV { key: e.key@, value: e.value@ },
                ] + s.skip(i as int));
            }
        }
    }

    /// The number of entries.
    pub fn len(&self) -> (r: usize)
        ensures
            r == self@.len(),
    {
        self.entries.len()
    }
}

/// The value of one top-level manifest key: a section mapping, or some
/// other shape of value.
#[derive(Debug)]
pub enum SectionValue {
    Mapping(Section),
    NotMapping,
}

/// Mathematical view of a top-level value.
pub enum SectionValueV {
    Mapping(Seq<DepEntryV>),
    NotMapping,
}

impl View for SectionValue {
    type V = SectionValueV;

    open spec fn view(&self) -> SectionValueV {
        match self {
            SectionValue::Mapping(s) => SectionValueV::Mapping(s@),
            SectionValue::NotMapping => SectionValueV::NotMapping,
        }
    }
}

/// One top-level `key: value` pair of the manifest.
#[derive(Debug)]
pub struct ManifestEntry {
    pub key: String,
    pub value: SectionValue,
}

/// Mathematical view of one top-level pair.
pub struct ManifestEntryV {
    pub key: Seq<char>,
    pub value: SectionValueV,
}

impl View for ManifestEntry {
    type V = ManifestEntryV;

    open spec fn view(&self) -> ManifestEntryV {
        ManifestEntryV { key: self.key@, value: self.value@ }
    }
}

impl DeepView for ManifestEntry {
    type V = ManifestEntryV;

    open spec fn deep_view(&self) -> ManifestEntryV {
        self.view()
    }
}

/// A decoded manifest: its top-level pairs, in decode order.
#[derive(Debug)]
pub struct Manifest {
    pub entries: Vec<ManifestEntry>,
}

impl View for Manifest {
    type V = Seq<ManifestEntryV>;

    open spec fn view(&self) -> Seq<ManifestEntryV> {
        self.entries.deep_view()
    }
}

/// The first value stored under `k`, if any.
pub open spec fn manifest_find(s: Seq<ManifestEntryV>, k: Seq<char>) -> Option<SectionValueV>
    decreases s.len(),
{
    if s.len() == 0 {
        Option::None
    } else if s[0].key == k {
        Option::Some(s[0].value)
    } else {
        manifest_find(s.skip(1), k)
    }
}

impl Manifest {
    /// A manifest with no keys.
    pub fn new() -> (r: Manifest)
        ensures
            r@ == Seq::<ManifestEntryV>::empty(),
    {
        let r = Manifest { entries: Vec::new() };
        proof {
            assert(r@ =~= Seq::<ManifestEntryV>::empty());
        }
        r
    }

    /// Appends one top-level pair.
    pub fn add(&mut self, key: String, value: SectionValue)
        ensures
            final(self)@ == old(self)@.push(ManifestEntryV { key: key@, value: value@ }),
    {
        let ghost kv = key@;
        let ghost vv = value@;
        self.entries.push(ManifestEntry { key, value });
        proof {
            assert(self@ =~= old(self)@.push(ManifestEntryV { key: kv, value: vv }));
        }
    }

    /// Looks a top-level key up; the first matching pair wins.
    pub fn find(&self, key: &str) -> (r: Option<&SectionValue>)
        ensures
            match r {
                Option::Some(v) => manifest_find(self@, key@) == Option::Some(v@),
                Option::None => manifest_find(self@, key@) == Option::<SectionValueV>::None,
            },
    {
        let mut i: usize = 0;
        proof {
            assert(self@.skip(0) =~= self@);
        }
        while i < self.entries.len()
            invariant
                i <= self.entries.len(),
                self@.len() == self.entries@.len(),
                forall|j: int| 0 <= j < self.entries@.len() ==> self@[j] == self.entries@[j]@,
                manifest_find(self@, key@) == manifest_find(self@.skip(i as int), key@),
            decreases self.entries.len() - i,
        {
            if str_eq(self.entries[i].key.as_str(), key) {
                proof {
                    assert(self@.skip(i as int)[0] == self@[i as int]);
                }
                return Option::Some(&self.entries[i].value);
            }
            proof {
                assert(self@.skip(i as int)[0] == self@[i as int]);
                assert(self@.skip(i as int).skip(1) =~= self@.skip(i + 1));
            }
            i = i + 1;
        }
        Option::None
    }
}

/// Two sorted sections denoting the same mapping are the same entry
/// sequence: the stored order of a well-formed section is a function of
/// the mapping alone, not of insertion order.
pub proof fn lemma_sorted_section_canonical(s1: Seq<DepEntryV>, s2: Seq<DepEntryV>)
    requires
        sorted_entries(s1),
        sorted_entries(s2),
        section_map(s1) == section_map(s2),
    ensures
        s1 == s2,
    decreases s1.len(),
{
    lemma_section_map_dom(s1);
    lemma_section_map_dom(s2);
    if s1.len() == 0 {
        if s2.len() > 0 {
            assert(section_map(s2).dom().contains(s2.last().key));
        }
        assert(s1 =~= s2);
    } else {
        assert(section_map(s1).dom().contains(s1.last().key));
        assert(s2.len() > 0);
        // both last keys are the maximum of the common domain
        let k1 = s1.last().key;
        let k2 = s2.last().key;
        assert(section_map(s2).dom().contains(k1));
        assert(section_map(s1).dom().contains(k2));
        assert(k1 == k2) by {
            if k1 != k2 {
                lemma_lex_lt_connected(k1, k2);
                let i = choose|i: int| 0 <= i < s2.len() && s2[i].key == k1;
                let j = choose|j: int| 0 <= j < s1.len() && s1[j].key == k2;
                if lex_lt(k1, k2) {
                    // k2 occurs in s1 before its last element k1, so k2 < k1
                    assert(j < s1.len() - 1) by {
                        lemma_lex_lt_irreflexive(k1);
                    }
                    assert(lex_lt(k2, k1));
                    lemma_lex_lt_asymmetric(k1, k2);
                } else {
                    assert(i < s2.len() - 1) by {
                        lemma_lex_lt_irreflexive(k2);
                    }
                    assert(lex_lt(k1, k2));
                    lemma_lex_lt_asymmetric(k2, k1);
                }
            }
        }
        // equal values: both maps bind the last key to the last value
        lemma_section_map_last(s1);
        lemma_section_map_last(s2);
        assert(s1.last().value == s2.last().value);
        // the prefixes denote the map without the last key
        lemma_section_map_drop(s1);
        lemma_section_map_drop(s2);
        assert(sorted_entries(s1.drop_last()) && sorted_entries(s2.drop_last())) by {
            assert(forall|i: int, j: int|
                0 <= i < j < s1.len() - 1 ==> lex_lt(s1.drop_last()[i].key, s1.drop_last()[j].key));
            assert(forall|i: int, j: int|
                0 <= i < j < s2.len() - 1 ==> lex_lt(s2.drop_last()[i].key, s2.drop_last()[j].key));
        }
        lemma_sorted_section_canonical(s1.drop_last(), s2.drop_last());
        assert forall|i: int| 0 <= i < s1.len() implies s1[i] == s2[i] by {
            if i < s1.len() - 1 {
                assert(s1.drop_last()[i] == s1[i]);
                assert(s2.drop_last()[i] == s2[i]);
            } else {
                assert(s1[i] == s1.last());
                assert(s2[i] == s2.last());
            }
        }
        assert(s1 =~= s2);
    }
}

/// The domain of a section's map is exactly its key set.
proof fn lemma_section_map_dom(s: Seq<DepEntryV>)
    ensures
        forall|k: Seq<char>| #[trigger]
            section_map(s).dom().contains(k) == exists|i: int| 0 <= i < s.len() && s[i].key == k,
    decreases s.len(),
{
    if s.len() > 0 {
        lemma_section_map_dom(s.drop_last());
        let d = s.drop_last();
        assert forall|k: Seq<char>| #[trigger] section_map(s).dom().contains(k) == exists|i: int|
            0 <= i < s.len() && s[i].key == k by {
            if section_map(s).dom().contains(k) {
                if k == s.last().key {
                    assert(s[s.len() - 1].key == k);
                } else {
                    assert(section_map(d).dom().contains(k));
                    let i = choose|i: int| 0 <= i < d.len() && d[i].key == k;
                    assert(d[i] == s[i]);
                    assert(s[i].key == k);
                }
            }
            if exists|i: int| 0 <= i < s.len() && s[i].key == k {
                let i = choose|i: int| 0 <= i < s.len() && s[i].key == k;
                if i == s.len() - 1 {
                    assert(k == s.last().key);
                    assert(section_map(s).dom().contains(k));
                } else {
                    assert(d[i] == s[i]);
                    assert(d[i].key == k);
                    assert(exists|j: int| 0 <= j < d.len() && d[j].key == k);
                    assert(section_map(d).dom().contains(k));
                    assert(section_map(s).dom().contains(k));
                }
            }
        }
    }
}

/// A sorted section's map binds its last key to its last value.
proof fn lemma_section_map_last(s: Seq<DepEntryV>)
    requires
        s.len() > 0,
    ensures
        section_map(s)[s.last().key] == s.last().value,
{
}

/// Dropping a sorted section's last entry removes exactly its key.
proof fn lemma_section_map_drop(s: Seq<DepEntryV>)
    requires
        sorted_entries(s),
        s.len() > 0,
    ensures
        section_map(s.drop_last()) == section_map(s).remove(s.last().key),
{
    lemma_section_map_dom(s.drop_last());
    assert forall|i: int| 0 <= i < s.len() - 1 implies s[i].key != s.last().key by {
        assert(lex_lt(s[i].key, s.last().key));
        lemma_lex_lt_irreflexive(s.last().key);
    }
    assert(!section_map(s.drop_last()).dom().contains(s.last().key));
    assert(section_map(s.drop_last()) =~= section_map(s).remove(s.last().key));
}

} // verus!
