//! Metric identities.
//!
//! A metric identity is a name together with a tag set. The tag set is kept
//! as the sequence of key/value pairs in the order they were written; a later
//! pair with the same key overrides an earlier one, as `tag_map` says.

use vstd::prelude::*;

use crate::assoc::{assoc_map, lemma_assoc_absent, lemma_assoc_last};

verus! {

/// A metric name or tag key: one or more ASCII letters.
pub open spec fn is_alpha_char(c: char) -> bool {
    ('a' <= c && c <= 'z') || ('A' <= c && c <= 'Z')
}

/// A well-formed identifier: non-empty and all letters.
pub open spec fn wf_ident(s: Seq<char>) -> bool {
    s.len() > 0 && forall|i: int| 0 <= i < s.len() ==> is_alpha_char(s[i])
}

/// One metric identity: a name and its tag pairs.
pub struct Metric {
    pub name: String,
    pub tags: Vec<(String, String)>,
}

/// The mathematical form of a metric identity.
pub struct MetricV {
    pub name: Seq<char>,
    pub pairs: Seq<(Seq<char>, Seq<char>)>,
}

/// The character sequences of a sequence of strings.
pub open spec fn strs_view(s: Seq<String>) -> Seq<Seq<char>> {
    s.map(|i: int, x: String| x@)
}

/// The character-level form of a pair vector.
pub open spec fn pairs_view(ps: Seq<(String, String)>) -> Seq<(Seq<char>, Seq<char>)> {
    ps.map(|i: int, p: (String, String)| (p.0@, p.1@))
}

impl View for Metric {
    type V = MetricV;

    open spec fn view(&self) -> MetricV {
        MetricV { name: self.name@, pairs: pairs_view(self.tags@) }
    }
}

impl MetricV {
    /// Valid identity: alphabetic name and alphabetic tag keys.
    pub open spec fn wf(self) -> bool {
        wf_ident(self.name) && forall|i: int|
            0 <= i < self.pairs.len() ==> wf_ident(#[trigger] self.pairs[i].0)
    }
}

/// The tag mapping that the pairs denote: the last pair with a key decides.
pub open spec fn tag_map(ps: Seq<(Seq<char>, Seq<char>)>) -> Map<Seq<char>, Seq<char>> {
    assoc_map(ps)
}

/// A tag's value, with the documented substitution: a key the pairs do not
/// carry resolves to the empty string.
pub open spec fn tag_or_default(ps: Seq<(Seq<char>, Seq<char>)>, k: Seq<char>) -> Seq<char> {
    if tag_map(ps).contains_key(k) {
        tag_map(ps)[k]
    } else {
        Seq::empty()
    }
}

/// The label-value tuple of a tag set against a frozen label-name list.
pub open spec fn resolve(labels: Seq<Seq<char>>, ps: Seq<(Seq<char>, Seq<char>)>) -> Seq<
    Seq<char>,
> {
    labels.map(|i: int, k: Seq<char>| tag_or_default(ps, k))
}

/// The tag keys in first-occurrence order, each once.
pub open spec fn dedup_keys(ps: Seq<(Seq<char>, Seq<char>)>) -> Seq<Seq<char>>
    decreases ps.len(),
{
    if ps.len() == 0 {
        Seq::empty()
    } else {
        let rest = dedup_keys(ps.drop_last());
        if rest.contains(ps.last().0) {
            rest
        } else {
            rest.push(ps.last().0)
        }
    }
}

impl Metric {
    /// Valid identity, at the executable level.
    pub open spec fn wf(&self) -> bool {
        self@.wf()
    }

    /// The value of `key` in this tag set, or the empty string when the set
    /// does not carry the key. A later pair with the same key overrides an
    /// earlier one.
    pub fn tag_value(&self, key: &String) -> (v: String)
        ensures
            v@ == tag_or_default(self@.pairs, key@),
    {
        let ghost ps = self@.pairs;
        let mut i: usize = self.tags.len();
        while i > 0
            invariant
                i <= self.tags.len(),
                ps == self@.pairs,
                forall|j: int| i <= j < ps.len() ==> ps[j].0 != key@,
            decreases i,
        {
            i = i - 1;
            if self.tags[i].0.eq(key) {
                proof {
                    lemma_assoc_last(ps, i as int);
                }
                return self.tags[i].1.clone();
            }
        }
        proof {
            lemma_assoc_absent(ps, key@);
        }
        String::new()
    }
}

/// The label-value tuple of a metric against frozen label names, at the
/// executable level.
pub fn resolve_values(labels: &Vec<String>, m: &Metric) -> (r: Vec<String>)
    ensures
        strs_view(r@) == resolve(strs_view(labels@), m@.pairs),
{
    let mut r: Vec<String> = Vec::new();
    let mut i: usize = 0;
    while i < labels.len()
        invariant
            i <= labels.len(),
            strs_view(r@) =~= resolve(strs_view(labels@), m@.pairs).take(i as int),
        decreases labels.len() - i,
    {
        let ghost prev = r@;
        let v = m.tag_value(&labels[i]);
        r.push(v);
        proof {
            let full = resolve(strs_view(labels@), m@.pairs);
            assert(strs_view(prev).len() == prev.len());
            assert(prev.len() == i);
            assert(r@ == prev.push(v));
            assert(strs_view(r@).len() == i + 1);
            assert(full[i as int] == tag_or_default(m@.pairs, strs_view(labels@)[i as int]));
            assert(strs_view(labels@)[i as int] == labels@[i as int]@);
            assert forall|j: int| 0 <= j < i + 1 implies strs_view(r@)[j] == full.take(
                i as int + 1,
            )[j] by {
                if j < i {
                    assert(strs_view(prev)[j] == full.take(i as int)[j]);
                }
            }
            assert(strs_view(r@) =~= full.take(i as int + 1));
        }
        i = i + 1;
    }
    proof {
        assert(resolve(strs_view(labels@), m@.pairs).take(labels@.len() as int) =~= resolve(
            strs_view(labels@),
            m@.pairs,
        ));
    }
    r
}

/// Does the string vector hold a string with these characters?
pub fn contains_str(v: &Vec<String>, s: &String) -> (b: bool)
    ensures
        b == strs_view(v@).contains(s@),
{
    let mut i: usize = 0;
    while i < v.len()
        invariant
            i <= v.len(),
            forall|j: int| 0 <= j < i ==> strs_view(v@)[j] != s@,
        decreases v.len() - i,
    {
        if v[i].eq(s) {
            assert(strs_view(v@)[i as int] == s@);
            return true;
        }
        i = i + 1;
    }
    false
}

/// The tag keys of a metric in first-occurrence order, each once.
pub fn dedup_key_vec(m: &Metric) -> (r: Vec<String>)
    ensures
        strs_view(r@) == dedup_keys(m@.pairs),
{
    let ghost ps = m@.pairs;
    let mut r: Vec<String> = Vec::new();
    let mut i: usize = 0;
    while i < m.tags.len()
        invariant
            i <= m.tags.len(),
            ps == m@.pairs,
            strs_view(r@) =~= dedup_keys(ps.take(i as int)),
        decreases m.tags.len() - i,
    {
        proof {
            assert(ps.take(i as int + 1).drop_last() =~= ps.take(i as int));
            assert(ps.take(i as int + 1).last() == ps[i as int]);
        }
        if !contains_str(&r, &m.tags[i].0) {
            let k = m.tags[i].0.clone();
            r.push(k);
            proof {
                assert(strs_view(r@) =~= dedup_keys(ps.take(i as int + 1)));
            }
        } else {
            proof {
                assert(strs_view(r@) =~= dedup_keys(ps.take(i as int + 1)));
            }
        }
        i = i + 1;
    }
    proof {
        assert(ps.take(ps.len() as int) =~= ps);
    }
    r
}

/// Are two string vectors equal character for character?
pub fn str_vecs_eq(a: &Vec<String>, b: &Vec<String>) -> (r: bool)
    ensures
        r == (strs_view(a@) == strs_view(b@)),
{
    if a.len() != b.len() {
        assert(strs_view(a@).len() != strs_view(b@).len());
        return false;
    }
    let mut i: usize = 0;
    while i < a.len()
        invariant
            a@.len() == b@.len(),
            i <= a.len(),
            forall|j: int| 0 <= j < i ==> strs_view(a@)[j] == strs_view(b@)[j],
        decreases a.len() - i,
    {
        if !a[i].eq(&b[i]) {
            assert(strs_view(a@)[i as int] != strs_view(b@)[i as int]);
            return false;
        }
        i = i + 1;
    }
    proof {
        assert(strs_view(a@) =~= strs_view(b@));
    }
    true
}

} // verus!
