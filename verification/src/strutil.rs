//! String helpers shared by the digest, the manifest model and the steps:
//! a lexicographic order on character sequences with an executable
//! comparison, plus small building helpers.

use vstd::prelude::*;

verus! {

/// Strict lexicographic order on character sequences, comparing characters
/// by their scalar value.
pub open spec fn lex_lt(a: Seq<char>, b: Seq<char>) -> bool
    decreases a.len(),
{
    if b.len() == 0 {
        false
    } else if a.len() == 0 {
        true
    } else if a[0] < b[0] {
        true
    } else if a[0] != b[0] {
        false
    } else {
        lex_lt(a.skip(1), b.skip(1))
    }
}

pub proof fn lemma_lex_lt_irreflexive(a: Seq<char>)
    ensures
        !lex_lt(a, a),
    decreases a.len(),
{
    if a.len() > 0 {
        lemma_lex_lt_irreflexive(a.skip(1));
    }
}

/// Any two distinct sequences are ordered one way or the other.
pub proof fn lemma_lex_lt_connected(a: Seq<char>, b: Seq<char>)
    ensures
        a != b ==> lex_lt(a, b) || lex_lt(b, a),
    decreases a.len(),
{
    if a.len() > 0 && b.len() > 0 {
        if a[0] == b[0] {
            lemma_lex_lt_connected(a.skip(1), b.skip(1));
            if a.skip(1) == b.skip(1) {
                if a.len() == b.len() {
                    assert forall|i: int| 0 <= i < a.len() implies a[i] == b[i] by {
                        if i >= 1 {
                            assert(a.skip(1)[i - 1] == a[i]);
                            assert(b.skip(1)[i - 1] == b[i]);
                        }
                    }
                    assert(a =~= b);
                } else {
                    assert(a.skip(1).len() != b.skip(1).len());
                }
            } else {
                assert(lex_lt(a.skip(1), b.skip(1)) || lex_lt(b.skip(1), a.skip(1)));
                assert(lex_lt(a, b) == lex_lt(a.skip(1), b.skip(1)));
                assert(lex_lt(b, a) == lex_lt(b.skip(1), a.skip(1)));
            }
        } else {
            assert(a[0] < b[0] || b[0] < a[0]);
        }
    } else if a.len() == 0 && b.len() == 0 {
        assert(a =~= b);
    }
}

pub proof fn lemma_lex_lt_asymmetric(a: Seq<char>, b: Seq<char>)
    ensures
        lex_lt(a, b) ==> !lex_lt(b, a),
    decreases a.len(),
{
    if a.len() > 0 && b.len() > 0 && a[0] == b[0] {
        lemma_lex_lt_asymmetric(a.skip(1), b.skip(1));
    }
}

pub proof fn lemma_lex_lt_transitive(a: Seq<char>, b: Seq<char>, c: Seq<char>)
    ensures
        lex_lt(a, b) && lex_lt(b, c) ==> lex_lt(a, c),
    decreases a.len(),
{
    if a.len() > 0 && b.len() > 0 && c.len() > 0 {
        lemma_lex_lt_transitive(a.skip(1), b.skip(1), c.skip(1));
    }
}

/// Executable comparison agreeing with `lex_lt` on the views.
pub fn str_lt(a: &str, b: &str) -> (r: bool)
    ensures
        r == lex_lt(a@, b@),
{
    let alen: usize = a.unicode_len();
    let blen: usize = b.unicode_len();
    let mut i: usize = 0;
    proof {
        assert(a@.skip(0) =~= a@);
        assert(b@.skip(0) =~= b@);
    }
    loop
        invariant
            i <= alen,
            i <= blen,
            alen == a@.len(),
            blen == b@.len(),
            lex_lt(a@, b@) == lex_lt(a@.skip(i as int), b@.skip(i as int)),
        decreases alen - i,
    {
        if i == blen {
            return false;
        }
        if i == alen {
            return true;
        }
        let ca = a.get_char(i);
        let cb = b.get_char(i);
        if ca < cb {
            return true;
        }
        if ca != cb {
            return false;
        }
        proof {
            assert(a@.skip(i as int).skip(1) =~= a@.skip(i + 1));
            assert(b@.skip(i as int).skip(1) =~= b@.skip(i + 1));
        }
        i = i + 1;
    }
}

/// Executable equality on string slices, by character.
pub fn str_eq(a: &str, b: &str) -> (r: bool)
    ensures
        r == (a@ == b@),
{
    let alen: usize = a.unicode_len();
    let blen: usize = b.unicode_len();
    if alen != blen {
        return false;
    }
    let mut i: usize = 0;
    while i < alen
        invariant
            i <= alen,
            alen == a@.len(),
            alen == b@.len(),
            forall|j: int| 0 <= j < i ==> a@[j] == b@[j],
        decreases alen - i,
    {
        if a.get_char(i) != b.get_char(i) {
            return false;
        }
        i = i + 1;
    }
    proof {
        assert(a@ =~= b@);
    }
    true
}

/// Copies a list of names; the view is unchanged.
pub fn clone_strings(v: &Vec<String>) -> (r: Vec<String>)
    ensures
        r@ == v@,
{
    let mut r: Vec<String> = Vec::new();
    let mut i: usize = 0;
    while i < v.len()
        invariant
            i <= v.len(),
            r@ =~= v@.take(i as int),
        decreases v.len() - i,
    {
        r.push(v[i].clone());
        proof {
            assert(r@ =~= v@.take(i + 1));
        }
        i = i + 1;
    }
    proof {
        assert(v@.take(v@.len() as int) =~= v@);
    }
    r
}

/// The position at which `x` belongs in an ascending list: the first
/// index whose element is not below `x`.
pub open spec fn str_insert_pos(s: Seq<Seq<char>>, x: Seq<char>) -> int
    decreases s.len(),
{
    if s.len() == 0 {
        0
    } else if lex_lt(s[0], x) {
        1 + str_insert_pos(s.skip(1), x)
    } else {
        0
    }
}

proof fn lemma_str_insert_pos(s: Seq<Seq<char>>, x: Seq<char>)
    ensures
        0 <= str_insert_pos(s, x) <= s.len(),
        forall|j: int| 0 <= j < str_insert_pos(s, x) ==> lex_lt(s[j], x),
        str_insert_pos(s, x) < s.len() ==> !lex_lt(s[str_insert_pos(s, x)], x),
    decreases s.len(),
{
    if s.len() > 0 && lex_lt(s[0], x) {
        lemma_str_insert_pos(s.skip(1), x);
        assert forall|j: int| 0 <= j < str_insert_pos(s, x) implies lex_lt(s[j], x) by {
            if j >= 1 {
                assert(s.skip(1)[j - 1] == s[j]);
            }
        }
        if str_insert_pos(s, x) < s.len() {
            assert(s.skip(1)[str_insert_pos(s, x) - 1] == s[str_insert_pos(s, x)]);
        }
    }
}

proof fn lemma_str_insert_pos_is_first(s: Seq<Seq<char>>, x: Seq<char>, p: int)
    requires
        0 <= p <= s.len(),
        forall|j: int| 0 <= j < p ==> lex_lt(s[j], x),
        p < s.len() ==> !lex_lt(s[p], x),
    ensures
        str_insert_pos(s, x) == p,
{
    lemma_str_insert_pos(s, x);
    let q = str_insert_pos(s, x);
    if q < p {
        assert(lex_lt(s[q], x));
    } else if p < q {
        assert(lex_lt(s[p], x));
    }
}

/// `s` with `x` spliced in at its position; duplicates are kept.
pub open spec fn str_insert_sorted(s: Seq<Seq<char>>, x: Seq<char>) -> Seq<Seq<char>> {
    let p = str_insert_pos(s, x);
    s.take(p) + seq![x] + s.skip(p)
}

/// The list in ascending lexicographic order, by repeated insertion.
pub open spec fn sort_lex(s: Seq<Seq<char>>) -> Seq<Seq<char>>
    decreases s.len(),
{
    if s.len() == 0 {
        Seq::empty()
    } else {
        str_insert_sorted(sort_lex(s.drop_last()), s.last())
    }
}

/// Sorts a name list into ascending lexicographic order; duplicates are
/// kept.
pub fn sorted_names(v: &Vec<String>) -> (r: Vec<String>)
    ensures
        r.deep_view() == sort_lex(v.deep_view()),
{
    let mut r: Vec<String> = Vec::new();
    let mut i: usize = 0;
    proof {
        assert(r.deep_view() =~= sort_lex(v.deep_view().take(0)));
    }
    while i < v.len()
        invariant
            i <= v.len(),
            v.deep_view().len() == v@.len(),
            forall|j: int| 0 <= j < v@.len() ==> v.deep_view()[j] == v@[j]@,
            r.deep_view() == sort_lex(v.deep_view().take(i as int)),
        decreases v.len() - i,
    {
        let x = v[i].clone();
        let ghost xv = v.deep_view()[i as int];
        let ghost rd = r.deep_view();
        let mut p: usize = 0;
        while p < r.len() && str_lt(r[p].as_str(), x.as_str())
            invariant
                p <= r.len(),
                x@ == xv,
                rd == r.deep_view(),
                rd.len() == r@.len(),
                forall|j: int| 0 <= j < rd.len() ==> rd[j] == r@[j]@,
                forall|j: int| 0 <= j < p ==> lex_lt(rd[j], xv),
            decreases r.len() - p,
        {
            proof {
                assert(rd[p as int] == r@[p as int]@);
            }
            p = p + 1;
        }
        proof {
            if p < r.len() {
                assert(rd[p as int] == r@[p as int]@);
            }
            lemma_str_insert_pos_is_first(rd, xv, p as int);
        }
        r.insert(p, x);
        proof {
            assert(r.deep_view() =~= rd.take(p as int) + seq![xv] + rd.skip(p as int));
            assert(v.deep_view().take(i + 1).drop_last() =~= v.deep_view().take(i as int));
            assert(v.deep_view().take(i + 1).last() == v.deep_view()[i as int]);
            assert(r.deep_view() =~= sort_lex(v.deep_view().take(i + 1)));
        }
        i = i + 1;
    }
    proof {
        assert(v.deep_view().take(v@.len() as int) =~= v.deep_view());
    }
    r
}

/// Ascending order, duplicates allowed: no later element is below an
/// earlier one.
pub open spec fn names_ascending(s: Seq<Seq<char>>) -> bool {
    forall|i: int, j: int| 0 <= i < j < s.len() ==> !lex_lt(s[j], s[i])
}

/// Sorting yields an ascending list with the same names, multiplicity
/// included.
pub proof fn lemma_sort_lex_ensures(s: Seq<Seq<char>>)
    ensures
        names_ascending(sort_lex(s)),
        sort_lex(s).to_multiset() == s.to_multiset(),
    decreases s.len(),
{
    broadcast use vstd::seq_lib::group_to_multiset_ensures;

    if s.len() > 0 {
        lemma_sort_lex_ensures(s.drop_last());
        let d = sort_lex(s.drop_last());
        let x = s.last();
        lemma_str_insert_pos(d, x);
        let p = str_insert_pos(d, x);
        let r = str_insert_sorted(d, x);
        assert(r.len() == d.len() + 1);
        assert forall|a: int, b: int| 0 <= a < b < r.len() implies !lex_lt(r[b], r[a]) by {
            if a < p {
                assert(r[a] == d[a]);
            } else if a == p {
                assert(r[a] == x);
            } else {
                assert(r[a] == d[a - 1]);
            }
            if b < p {
                assert(r[b] == d[b]);
            } else if b == p {
                assert(r[b] == x);
            } else {
                assert(r[b] == d[b - 1]);
            }
            if b == p {
                // r[a] is d[a] with a < p, so it is below x
                lemma_lex_lt_asymmetric(d[a], x);
            } else if a == p {
                // x is not above d[b - 1]
                if p < d.len() {
                    lemma_lex_lt_connected(x, d[p as int]);
                    lemma_lex_lt_irreflexive(x);
                    if x != d[p as int] {
                        assert(lex_lt(x, d[p as int]));
                        if b - 1 > p {
                            lemma_lex_lt_connected(d[p as int], d[b - 1]);
                            if d[p as int] != d[b - 1] {
                                lemma_lex_lt_transitive(x, d[p as int], d[b - 1]);
                            }
                        }
                        lemma_lex_lt_asymmetric(x, d[p as int]);
                        if lex_lt(d[b - 1], x) {
                            lemma_lex_lt_transitive(d[b - 1], x, d[p as int]);
                            lemma_lex_lt_asymmetric(d[b - 1], d[p as int]);
                        }
                    } else {
                        if lex_lt(d[b - 1], x) {
                            lemma_lex_lt_asymmetric(d[b - 1], d[p as int]);
                        }
                    }
                }
            }
        }
        // the inserted list holds the old names plus the new one
        assert(r.remove(p) =~= d);
        assert(r[p] == x);
        assert(r.remove(p).to_multiset() =~= r.to_multiset().remove(x));
        assert(r.to_multiset().count(x) > 0) by {
            assert(r.contains(x));
        }
        assert forall|e: Seq<char>| #[trigger] r.to_multiset().count(e) == s.to_multiset().count(
            e,
        ) by {
            assert(s.drop_last().push(x) =~= s);
            assert(s.drop_last().push(x).to_multiset() =~= s.drop_last().to_multiset().insert(x));
            if e == x {
                assert(r.to_multiset().remove(x).count(x) == r.to_multiset().count(x) - 1);
            } else {
                assert(r.to_multiset().remove(x).count(e) == r.to_multiset().count(e));
            }
        }
        assert(r.to_multiset() =~= s.to_multiset());
    }
}

/// Two ascending lists of the same names, multiplicity included, are the
/// same list.
pub proof fn lemma_ascending_canonical(s1: Seq<Seq<char>>, s2: Seq<Seq<char>>)
    requires
        names_ascending(s1),
        names_ascending(s2),
        s1.to_multiset() == s2.to_multiset(),
    ensures
        s1 == s2,
    decreases s1.len(),
{
    broadcast use vstd::seq_lib::group_to_multiset_ensures;

    assert(s1.len() == s1.to_multiset().len());
    assert(s2.len() == s2.to_multiset().len());
    assert(s1.len() == s2.len());
    if s1.len() == 0 {
        assert(s1 =~= s2);
    } else {
        let l1 = s1.last();
        let l2 = s2.last();
        assert(l1 == l2) by {
            assert(s2.to_multiset().count(l1) > 0) by {
                assert(s1.contains(l1));
            }
            assert(s2.contains(l1));
            let i = choose|i: int| 0 <= i < s2.len() && s2[i] == l1;
            assert(!lex_lt(l2, l1)) by {
                if i < s2.len() - 1 {
                    assert(!lex_lt(s2[s2.len() - 1], s2[i]));
                }
                lemma_lex_lt_irreflexive(l1);
            }
            assert(s1.to_multiset().count(l2) > 0) by {
                assert(s2.contains(l2));
            }
            assert(s1.contains(l2));
            let j = choose|j: int| 0 <= j < s1.len() && s1[j] == l2;
            assert(!lex_lt(l1, l2)) by {
                if j < s1.len() - 1 {
                    assert(!lex_lt(s1[s1.len() - 1], s1[j]));
                }
                lemma_lex_lt_irreflexive(l2);
            }
            lemma_lex_lt_connected(l1, l2);
        }
        assert(s1.remove(s1.len() - 1) =~= s1.drop_last());
        assert(s2.remove(s2.len() - 1) =~= s2.drop_last());
        assert(s1.drop_last().to_multiset() =~= s1.to_multiset().remove(l1));
        assert(s2.drop_last().to_multiset() =~= s2.to_multiset().remove(l2));
        assert forall|a: int, b: int|
            0 <= a < b < s1.drop_last().len() implies !lex_lt(s1.drop_last()[b], s1.drop_last()[a])
            by {
            assert(s1.drop_last()[a] == s1[a]);
            assert(s1.drop_last()[b] == s1[b]);
        }
        assert forall|a: int, b: int|
            0 <= a < b < s2.drop_last().len() implies !lex_lt(s2.drop_last()[b], s2.drop_last()[a])
            by {
            assert(s2.drop_last()[a] == s2[a]);
            assert(s2.drop_last()[b] == s2[b]);
        }
        lemma_ascending_canonical(s1.drop_last(), s2.drop_last());
        assert forall|i: int| 0 <= i < s1.len() implies s1[i] == s2[i] by {
            if i < s1.len() - 1 {
                assert(s1.drop_last()[i] == s1[i]);
                assert(s2.drop_last()[i] == s2[i]);
            }
        }
        assert(s1 =~= s2);
    }
}

/// Sorting is a function of the names alone, multiplicity included: two
/// lists naming the same packages in any order sort, and therefore hash,
/// the same.
pub proof fn lemma_sort_lex_permutation_stable(s1: Seq<Seq<char>>, s2: Seq<Seq<char>>)
    requires
        s1.to_multiset() == s2.to_multiset(),
    ensures
        sort_lex(s1) == sort_lex(s2),
{
    lemma_sort_lex_ensures(s1);
    lemma_sort_lex_ensures(s2);
    lemma_ascending_canonical(sort_lex(s1), sort_lex(s2));
}

/// Extending a prefix by one element adds exactly that element to the
/// prefix's set.
pub proof fn lemma_take_succ_to_set<A>(s: Seq<A>, i: int)
    requires
        0 <= i < s.len(),
    ensures
        s.take(i + 1).to_set() == s.take(i).to_set().insert(s[i]),
{
    assert forall|x: A| s.take(i + 1).contains(x) == (s.take(i).contains(x) || x == s[i]) by {
        if s.take(i + 1).contains(x) {
            let j = choose|j: int| 0 <= j < i + 1 && #[trigger] s.take(i + 1)[j] == x;
            if j < i {
                assert(s.take(i)[j] == x);
            } else {
                assert(x == s[i]);
            }
        }
        if s.take(i).contains(x) {
            let j = choose|j: int| 0 <= j < i && s.take(i)[j] == x;
            assert(s.take(i + 1)[j] == x);
        }
        if x == s[i] {
            assert(s.take(i + 1)[i] == x);
        }
    }
    assert forall|x: A| s.take(i + 1).to_set().contains(x) == s.take(i).to_set().insert(
        s[i],
    ).contains(x) by {
        assert(s.take(i + 1).to_set().contains(x) == s.take(i + 1).contains(x));
        assert(s.take(i).to_set().contains(x) == s.take(i).contains(x));
    }
    assert(s.take(i + 1).to_set() =~= s.take(i).to_set().insert(s[i]));
}

/// The dependency specification fed to the ecosystem installer for one
/// manifest entry: `name@version`.
pub open spec fn spec_pair(name: Seq<char>, version: Seq<char>) -> Seq<char> {
    name + "@"@ + version
}

/// Builds `name@version` for one manifest entry.
pub fn package_spec(name: &String, version: &String) -> (r: String)
    ensures
        r@ == spec_pair(name@, version@),
{
    let mut r = String::new();
    r.append(name.as_str());
    r.append("@");
    r.append(version.as_str());
    r
}

} // verus!
