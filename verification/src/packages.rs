//! Abstract capability tokens requested by build steps and resolved to
//! concrete OS packages by a distribution backend.

use vstd::prelude::*;

verus! {

/// A capability a step needs on the target filesystem. A distribution
/// backend resolves each token to zero or more concrete packages.
#[derive(Clone, Copy, Debug, PartialEq, Eq, Structural)]
pub enum Package {
    /// Baseline compiler and build tooling.
    BuildEssential,
    /// The ecosystem runtime itself.
    NodeJs,
    /// Development headers of the runtime.
    NodeJsDev,
    /// The ecosystem package manager.
    Npm,
    /// A version-control client, needed for repository-sourced specs.
    Git,
}

/// Whether a specification string names a git source: a bare prefix check,
/// deliberately narrow; every other form counts as a plain registry
/// reference.
pub open spec fn is_git_source(s: Seq<char>) -> bool {
    s.len() >= 6 && s.subrange(0, 6) == "git://"@
}

/// Tokens implied by one specification string.
pub open spec fn feature_of(s: Seq<char>) -> Seq<Package> {
    if is_git_source(s) {
        seq![Package::Git]
    } else {
        Seq::empty()
    }
}

/// Tokens implied by a list of specification strings.
pub open spec fn features_of(specs: Seq<Seq<char>>) -> Seq<Package>
    decreases specs.len(),
{
    if specs.len() == 0 {
        Seq::empty()
    } else {
        features_of(specs.drop_last()) + feature_of(specs.last())
    }
}

/// Classifies one specification string and appends the tokens it implies.
/// A string beginning with `git://` requires a version-control client;
/// no other version syntax is classified.
pub fn parse_feature(info: &str, features: &mut Vec<Package>)
    ensures
        final(features)@ == old(features)@ + feature_of(info@),
{
    proof {
        reveal_strlit("git://");
    }
    let n: usize = info.unicode_len();
    if n >= 6 && info.get_char(0) == 'g' && info.get_char(1) == 'i' && info.get_char(2) == 't'
        && info.get_char(3) == ':' && info.get_char(4) == '/' && info.get_char(5) == '/' {
        proof {
            assert(info@.subrange(0, 6) =~= "git://"@);
        }
        features.push(Package::Git);
        proof {
            assert(features@ =~= old(features)@ + feature_of(info@));
        }
    } else {
        proof {
            if is_git_source(info@) {
                assert(info@.subrange(0, 6)[0] == info@[0] && info@.subrange(0, 6)[1] == info@[1]
                    && info@.subrange(0, 6)[2] == info@[2] && info@.subrange(0, 6)[3] == info@[3]
                    && info@.subrange(0, 6)[4] == info@[4] && info@.subrange(0, 6)[5] == info@[5]);
                assert(info@[0] == 'g' && info@[1] == 'i' && info@[2] == 't' && info@[3] == ':'
                    && info@[4] == '/' && info@[5] == '/');
            }
            assert(features@ =~= old(features)@ + feature_of(info@));
        }
    }
}

/// True when the token list already holds `p`.
pub fn contains_package(v: &Vec<Package>, p: Package) -> (r: bool)
    ensures
        r == v@.contains(p),
{
    let mut i: usize = 0;
    while i < v.len()
        invariant
            i <= v.len(),
            forall|j: int| 0 <= j < i ==> v@[j] != p,
        decreases v.len() - i,
    {
        if v[i] == p {
            return true;
        }
        i = i + 1;
    }
    false
}

/// The token list with duplicates removed, keeping first occurrences.
pub open spec fn dedup_features(s: Seq<Package>) -> Seq<Package>
    decreases s.len(),
{
    if s.len() == 0 {
        Seq::empty()
    } else if s.drop_last().contains(s.last()) {
        dedup_features(s.drop_last())
    } else {
        dedup_features(s.drop_last()).push(s.last())
    }
}

pub proof fn lemma_dedup_features_same_set(s: Seq<Package>)
    ensures
        forall|p: Package| dedup_features(s).contains(p) == s.contains(p),
        forall|i: int, j: int|
            0 <= i < j < dedup_features(s).len() ==> dedup_features(s)[i] != dedup_features(s)[j],
    decreases s.len(),
{
    if s.len() > 0 {
        let d = s.drop_last();
        let l = s.last();
        lemma_dedup_features_same_set(d);
        assert forall|p: Package| dedup_features(s).contains(p) implies s.contains(p) by {
            if d.contains(l) {
                assert(dedup_features(d).contains(p));
                assert(d.contains(p));
                let k = choose|k: int| 0 <= k < d.len() && d[k] == p;
                assert(s[k] == p);
            } else {
                let dd = dedup_features(d).push(l);
                let k = choose|k: int| 0 <= k < dd.len() && dd[k] == p;
                if k < dd.len() - 1 {
                    assert(dedup_features(d)[k] == p);
                    assert(dedup_features(d).contains(p));
                    assert(d.contains(p));
                    let m = choose|m: int| 0 <= m < d.len() && d[m] == p;
                    assert(s[m] == p);
                } else {
                    assert(s[s.len() - 1] == p);
                }
            }
        }
        assert forall|p: Package| s.contains(p) implies dedup_features(s).contains(p) by {
            let k = choose|k: int| 0 <= k < s.len() && s[k] == p;
            if k < s.len() - 1 {
                assert(d[k] == p);
                assert(d.contains(p));
                if !d.contains(l) {
                    let m = choose|m: int|
                        0 <= m < dedup_features(d).len() && dedup_features(d)[m] == p;
                    assert(dedup_features(s)[m] == p);
                }
            } else {
                if d.contains(l) {
                    assert(d.contains(p));
                } else {
                    assert(dedup_features(s)[dedup_features(s).len() - 1] == p);
                }
            }
        }
        if !d.contains(l) {
            assert forall|i: int, j: int|
                0 <= i < j < dedup_features(s).len() implies dedup_features(s)[i]
                != dedup_features(s)[j] by {
                if j == dedup_features(s).len() - 1 {
                    assert(dedup_features(d)[i] == dedup_features(s)[i]);
                    assert(dedup_features(d).contains(dedup_features(d)[i]));
                    assert(d.contains(dedup_features(s)[i]));
                } else {
                    assert(dedup_features(d)[i] == dedup_features(s)[i]);
                    assert(dedup_features(d)[j] == dedup_features(s)[j]);
                }
            }
        }
    }
}

/// Removes duplicate tokens, keeping the first occurrence of each.
pub fn dedup(v: &Vec<Package>) -> (r: Vec<Package>)
    ensures
        r@ == dedup_features(v@),
{
    let mut r: Vec<Package> = Vec::new();
    let mut i: usize = 0;
    while i < v.len()
        invariant
            i <= v.len(),
            r@ == dedup_features(v@.take(i as int)),
            forall|p: Package| r@.contains(p) == v@.take(i as int).contains(p),
        decreases v.len() - i,
    {
        proof {
            assert(v@.take(i + 1).drop_last() =~= v@.take(i as int));
            assert(v@.take(i + 1).last() == v@[i as int]);
            lemma_dedup_features_same_set(v@.take(i + 1));
        }
        if !contains_package(&r, v[i]) {
            r.push(v[i]);
        }
        i = i + 1;
    }
    proof {
        assert(v@.take(v@.len() as int) =~= v@);
    }
    r
}

} // verus!
