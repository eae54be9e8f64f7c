//! The dynamic metric registry.
//!
//! The registry owns a map from metric name to a gauge family: the label-name
//! list frozen at first creation, and the current series, each a label-value
//! tuple with the 64 bits of its gauge value. Families mirror themselves to
//! the process's exposition surface (the default prometheus registry) through
//! a handful of trusted calls; the family and series data here is the
//! authoritative, verified model.

use vstd::prelude::*;

use crate::assoc::{
    assoc_map, lemma_assoc_absent, lemma_assoc_dom, lemma_assoc_last, lemma_assoc_push,
    lemma_assoc_remove,
};
use crate::metric::{dedup_key_vec, dedup_keys, resolve, resolve_values, str_vecs_eq, strs_view,
    Metric, MetricV};

verus! {

/// What a registry operation can report.
#[derive(Clone, Copy, Debug, PartialEq, Eq, Structural)]
pub enum RegError {
    /// `get` against a name the registry does not hold.
    NotFound,
    /// The exposition surface refused to register a new family.
    Registration,
    /// The exposition surface refused to drop the series.
    SeriesRemoval,
    /// The exposition surface refused to drop an emptied family.
    Unregistration,
}

impl RegError {
    /// The operator-facing description of the error.
    pub fn message(&self) -> (r: String)
        ensures
            *self == RegError::NotFound ==> r@ == "metric not found"@,
            *self == RegError::Registration ==> r@ == "failed to register metric"@,
            *self == RegError::SeriesRemoval ==> r@ == "failed to remove metric"@,
            *self == RegError::Unregistration ==> r@ == "failed to unregister metric"@,
    {
        match self {
            RegError::NotFound => "metric not found".to_owned(),
            RegError::Registration => "failed to register metric".to_owned(),
            RegError::SeriesRemoval => "failed to remove metric".to_owned(),
            RegError::Unregistration => "failed to unregister metric".to_owned(),
        }
    }
}

/// Handle on one gauge family of the exposition surface. The gauge's own
/// child map is a mirror of the verified series list beside it; only the
/// trusted calls below touch it.
#[verifier::external_body]
pub struct GaugeHandle {
    pub vec: prometheus::GaugeVec,
}

#[verifier::external_type_specification]
#[verifier::external_body]
pub struct ExPromError(prometheus::Error);

/// The number of variable labels a gauge family was created with.
pub uninterp spec fn gauge_label_count(h: GaugeHandle) -> int;

/// Relies on prometheus::GaugeVec::new (with prometheus::Opts::new): builds a
/// gauge family with the given variable label names, not yet registered, and
/// refuses invalid or duplicated names.
#[verifier::external_body]
fn gauge_vec_new(name: &String, labels: &Vec<String>) -> (r: Result<GaugeHandle, prometheus::Error>)
    ensures
        r matches Ok(h) ==> gauge_label_count(h) == labels@.len(),
{
    let refs: Vec<&str> = labels.iter().map(|s| s.as_str()).collect();
    match prometheus::GaugeVec::new(prometheus::Opts::new(name.as_str(), "help"), &refs) {
        Ok(v) => Ok(GaugeHandle { vec: v }),
        Err(e) => Err(e),
    }
}

/// Relies on prometheus::Registry::register on the default registry: accepts
/// a new collector and refuses a duplicate or conflicting one.
#[verifier::external_body]
fn register_gauge(h: &GaugeHandle) -> (r: Result<(), prometheus::Error>) {
    prometheus::default_registry().register(Box::new(h.vec.clone()))
}

/// Relies on prometheus::Registry::unregister on the default registry: drops
/// a collector it holds and refuses one it does not hold.
#[verifier::external_body]
fn unregister_gauge(h: &GaugeHandle) -> (r: Result<(), prometheus::Error>) {
    prometheus::default_registry().unregister(Box::new(h.vec.clone()))
}

/// Relies on prometheus::core::MetricVec::with_label_values: makes the series
/// with these label values exist on the gauge, at the default value when new.
/// That call panics on a wrong label count, so the count is required here.
#[verifier::external_body]
fn touch_series(h: &GaugeHandle, values: &Vec<String>)
    requires
        values@.len() == gauge_label_count(*h),
{
    let refs: Vec<&str> = values.iter().map(|s| s.as_str()).collect();
    let _ = h.vec.with_label_values(&refs);
}

/// Relies on prometheus::core::MetricVec::remove_label_values: drops the
/// series with these label values, and reports the series it does not hold.
#[verifier::external_body]
fn remove_series(h: &GaugeHandle, values: &Vec<String>) -> (r: Result<(), prometheus::Error>) {
    let refs: Vec<&str> = values.iter().map(|s| s.as_str()).collect();
    h.vec.remove_label_values(&refs)
}

/// One registered family: its frozen label names and its live series.
pub struct Family {
    pub gauge: GaugeHandle,
    pub label_names: Vec<String>,
    pub series: Vec<(Vec<String>, u64)>,
}

/// The mathematical form of a family.
pub struct FamilyV {
    pub labels: Seq<Seq<char>>,
    pub series: Map<Seq<Seq<char>>, u64>,
}

/// The character-level form of a series vector.
pub open spec fn series_pairs_view(s: Seq<(Vec<String>, u64)>) -> Seq<(Seq<Seq<char>>, u64)> {
    s.map(|i: int, p: (Vec<String>, u64)| (strs_view(p.0@), p.1))
}

impl View for Family {
    type V = FamilyV;

    open spec fn view(&self) -> FamilyV {
        FamilyV {
            labels: strs_view(self.label_names@),
            series: assoc_map(series_pairs_view(self.series@)),
        }
    }
}

impl Family {
    /// Internal consistency: distinct series keys of the family's arity, at
    /// least one series, and a gauge of the same arity.
    pub open spec fn wf(&self) -> bool {
        &&& forall|a: int, b: int|
            0 <= a < b < self.series@.len() ==> strs_view(self.series@[a].0@) != strs_view(
                self.series@[b].0@,
            )
        &&& forall|i: int|
            0 <= i < self.series@.len() ==> (#[trigger] self.series@[i].0)@.len()
                == self.label_names@.len()
        &&& self.series@.len() > 0
        &&& gauge_label_count(self.gauge) == self.label_names@.len()
    }
}

/// The registry: a map from metric name to family.
pub struct DynamicRegistry {
    pub metrics: Vec<(String, Family)>,
}

/// The character-level form of the registry's entries.
pub open spec fn reg_pairs_view(ms: Seq<(String, Family)>) -> Seq<(Seq<char>, FamilyV)> {
    ms.map(|i: int, p: (String, Family)| (p.0@, p.1@))
}

impl View for DynamicRegistry {
    type V = Map<Seq<char>, FamilyV>;

    open spec fn view(&self) -> Map<Seq<char>, FamilyV> {
        assoc_map(reg_pairs_view(self.metrics@))
    }
}

/// What `add` does to the registry map: an existing family keeps its frozen
/// labels and gets the series written; an unknown name gets a fresh family
/// whose labels are the tag keys of this very call.
pub open spec fn spec_add(r: Map<Seq<char>, FamilyV>, m: MetricV, bits: u64) -> Map<
    Seq<char>,
    FamilyV,
> {
    if r.contains_key(m.name) {
        let f = r[m.name];
        r.insert(
            m.name,
            FamilyV { labels: f.labels, series: f.series.insert(resolve(f.labels, m.pairs), bits) },
        )
    } else {
        let labels = dedup_keys(m.pairs);
        r.insert(
            m.name,
            FamilyV {
                labels,
                series: Map::empty().insert(resolve(labels, m.pairs), bits),
            },
        )
    }
}

/// What `get` answers: `None` stands for the unknown-name error; a known
/// family answers its series, an absent series answering the gauge default
/// of zero bits.
pub open spec fn spec_get(r: Map<Seq<char>, FamilyV>, m: MetricV) -> Option<u64> {
    if r.contains_key(m.name) {
        let f = r[m.name];
        let key = resolve(f.labels, m.pairs);
        Some(
            if f.series.contains_key(key) {
                f.series[key]
            } else {
                0u64
            },
        )
    } else {
        None
    }
}

/// Does removing `key` leave the family without any series?
pub open spec fn family_emptied(f: FamilyV, key: Seq<Seq<char>>) -> bool {
    forall|k: Seq<Seq<char>>| f.series.contains_key(k) ==> k == key
}

/// What `remove` does to the registry map: the resolved series leaves its
/// family, and a family left empty leaves the registry.
pub open spec fn spec_remove(r: Map<Seq<char>, FamilyV>, m: MetricV) -> Map<Seq<char>, FamilyV> {
    if r.contains_key(m.name) {
        let f = r[m.name];
        let key = resolve(f.labels, m.pairs);
        if family_emptied(f, key) {
            r.remove(m.name)
        } else {
            r.insert(m.name, FamilyV { labels: f.labels, series: f.series.remove(key) })
        }
    } else {
        r
    }
}

/// Mapping to character level commutes with dropping an entry.
proof fn lemma_reg_view_remove(ms: Seq<(String, Family)>, i: int)
    requires
        0 <= i < ms.len(),
    ensures
        reg_pairs_view(ms.remove(i)) =~= reg_pairs_view(ms).remove(i),
{
}

/// Mapping to character level commutes with appending an entry.
proof fn lemma_reg_view_push(ms: Seq<(String, Family)>, p: (String, Family))
    ensures
        reg_pairs_view(ms.push(p)) =~= reg_pairs_view(ms).push((p.0@, p.1@)),
{
}

/// Mapping to character level commutes with dropping a series.
proof fn lemma_series_view_remove(s: Seq<(Vec<String>, u64)>, i: int)
    requires
        0 <= i < s.len(),
    ensures
        series_pairs_view(s.remove(i)) =~= series_pairs_view(s).remove(i),
{
}

/// Mapping to character level commutes with appending a series.
proof fn lemma_series_view_push(s: Seq<(Vec<String>, u64)>, p: (Vec<String>, u64))
    ensures
        series_pairs_view(s.push(p)) =~= series_pairs_view(s).push((strs_view(p.0@), p.1)),
{
}

/// Writes `(key, value)` into the series vector: in place when the key is
/// held, appended otherwise.
fn upsert_series(series: &mut Vec<(Vec<String>, u64)>, key: Vec<String>, value: u64, arity: usize)
    requires
        forall|a: int, b: int|
            0 <= a < b < old(series)@.len() ==> strs_view(old(series)@[a].0@) != strs_view(
                old(series)@[b].0@,
            ),
        forall|i: int|
            0 <= i < old(series)@.len() ==> (#[trigger] old(series)@[i].0)@.len() == arity as int,
        key@.len() == arity as int,
    ensures
        assoc_map(series_pairs_view(final(series)@)) == assoc_map(
            series_pairs_view(old(series)@),
        ).insert(strs_view(key@), value),
        forall|a: int, b: int|
            0 <= a < b < final(series)@.len() ==> strs_view(final(series)@[a].0@) != strs_view(
                final(series)@[b].0@,
            ),
        forall|i: int|
            0 <= i < final(series)@.len() ==> (#[trigger] final(series)@[i].0)@.len()
                == arity as int,
        final(series)@.len() > 0,
{
    let ghost orig = series@;
    let ghost kview = strs_view(key@);
    proof {
        assert forall|n: int| 0 <= n < orig.len() implies (#[trigger] orig[n].0)@.len()
            == arity as int by {
            assert(old(series)@[n].0@.len() == arity as int);
        }
        assert forall|a: int, b: int|
            0 <= a < b < orig.len() implies strs_view(orig[a].0@) != strs_view(orig[b].0@) by {
            assert(strs_view(old(series)@[a].0@) != strs_view(old(series)@[b].0@));
        }
    }
    let mut i: usize = 0;
    while i < series.len()
        invariant
            series@ == orig,
            old(series)@ == orig,
            i <= orig.len(),
            kview == strs_view(key@),
            key@.len() == arity as int,
            forall|j: int| 0 <= j < i ==> strs_view(orig[j].0@) != kview,
            forall|a: int, b: int|
                0 <= a < b < orig.len() ==> strs_view(orig[a].0@) != strs_view(orig[b].0@),
            forall|n: int| 0 <= n < orig.len() ==> (#[trigger] orig[n].0)@.len() == arity as int,
        decreases series.len() - i,
    {
        if str_vecs_eq(&series[i].0, &key) {
            let (k, _) = series.remove(i);
            series.push((k, value));
            proof {
                let sv = series_pairs_view(orig);
                assert(sv[i as int].0 == kview);
                assert forall|j: int| i < j < sv.len() implies (#[trigger] sv[j]).0 != sv[i as int].0 by {
                    assert(strs_view(orig[j].0@) != strs_view(orig[i as int].0@));
                }
                lemma_assoc_remove(sv, i as int);
                lemma_series_view_remove(orig, i as int);
                lemma_series_view_push(orig.remove(i as int), (k, value));
                lemma_assoc_push(sv.remove(i as int), kview, value);
                assert(assoc_map(sv).remove(kview).insert(kview, value) =~= assoc_map(sv).insert(
                    kview,
                    value,
                ));
                assert(series_pairs_view(series@) =~= sv.remove(i as int).push((kview, value)));
                assert(sv =~= series_pairs_view(old(series)@));
                assert(assoc_map(series_pairs_view(series@)) == assoc_map(
                    series_pairs_view(old(series)@),
                ).insert(kview, value));
                assert forall|a: int, b: int|
                    0 <= a < b < series@.len() implies strs_view(series@[a].0@) != strs_view(
                    series@[b].0@,
                ) by {
                    let a0 = if a < i { a } else { a + 1 };
                    assert(b < series@.len() - 1 ==> series@[b] == orig[if b < i {
                        b
                    } else {
                        b + 1
                    }]);
                    assert(series@[a] == orig[a0]);
                    assert(strs_view(series@[series@.len() - 1].0@) == kview);
                }
                assert forall|n: int|
                    0 <= n < series@.len() implies (#[trigger] series@[n].0)@.len()
                    == arity as int by {
                    if n < series@.len() - 1 {
                        let n0 = if n < i { n } else { n + 1 };
                        assert(series@[n] == orig[n0]);
                    } else {
                        assert(series@[n].0 == orig[i as int].0);
                    }
                }
            }
            return ;
        }
        i = i + 1;
    }
    series.push((key, value));
    proof {
        let p = series@.last();
        assert(series@ == orig.push(p));
        lemma_series_view_push(orig, p);
        lemma_assoc_push(series_pairs_view(orig), kview, value);
        assert(strs_view(p.0@) == kview);
        assert(series_pairs_view(series@) =~= series_pairs_view(orig).push((kview, value)));
        assert(series_pairs_view(orig) =~= series_pairs_view(old(series)@));
        assert(assoc_map(series_pairs_view(series@)) == assoc_map(
            series_pairs_view(old(series)@),
        ).insert(kview, value));
        assert forall|a: int, b: int|
            0 <= a < b < series@.len() implies strs_view(series@[a].0@) != strs_view(
            series@[b].0@,
        ) by {
            assert(series@[a] == orig[a]);
            if b == series@.len() - 1 {
                assert(strs_view(series@[a].0@) != kview);
                assert(strs_view(series@[b].0@) == kview);
            } else {
                assert(series@[b] == orig[b]);
            }
        }
        assert forall|n: int|
            0 <= n < series@.len() implies (#[trigger] series@[n].0)@.len() == arity as int by {
            if n < series@.len() - 1 {
                assert(series@[n] == orig[n]);
            } else {
                assert(series@[n].0 == key);
            }
        }
    }
}

/// The stored bits of the series with this key, if the vector holds it.
fn lookup_series(series: &Vec<(Vec<String>, u64)>, key: &Vec<String>) -> (r: Option<u64>)
    requires
        forall|a: int, b: int|
            0 <= a < b < series@.len() ==> strs_view(series@[a].0@) != strs_view(series@[b].0@),
    ensures
        ({
            let m = assoc_map(series_pairs_view(series@));
            match r {
                Some(b) => m.contains_key(strs_view(key@)) && m[strs_view(key@)] == b,
                None => !m.contains_key(strs_view(key@)),
            }
        }),
{
    let ghost kview = strs_view(key@);
    let ghost sv = series_pairs_view(series@);
    let mut i: usize = 0;
    while i < series.len()
        invariant
            sv == series_pairs_view(series@),
            kview == strs_view(key@),
            i <= series@.len(),
            forall|j: int| 0 <= j < i ==> sv[j].0 != kview,
            forall|a: int, b: int|
                0 <= a < b < series@.len() ==> strs_view(series@[a].0@) != strs_view(
                    series@[b].0@,
                ),
        decreases series.len() - i,
    {
        if str_vecs_eq(&series[i].0, key) {
            proof {
                assert(sv[i as int].0 == kview);
                lemma_assoc_last(sv, i as int);
            }
            return Some(series[i].1);
        }
        i = i + 1;
    }
    proof {
        lemma_assoc_absent(sv, kview);
    }
    None
}

/// Drops the series with this key from the vector, when held; also says
/// whether that leaves the vector empty.
fn delete_series(series: &mut Vec<(Vec<String>, u64)>, key: &Vec<String>, Ghost(arity): Ghost<int>)
    requires
        forall|a: int, b: int|
            0 <= a < b < old(series)@.len() ==> strs_view(old(series)@[a].0@) != strs_view(
                old(series)@[b].0@,
            ),
        forall|i: int| 0 <= i < old(series)@.len() ==> (#[trigger] old(series)@[i].0)@.len() == arity,
    ensures
        assoc_map(series_pairs_view(final(series)@)) == assoc_map(
            series_pairs_view(old(series)@),
        ).remove(strs_view(key@)),
        forall|a: int, b: int|
            0 <= a < b < final(series)@.len() ==> strs_view(final(series)@[a].0@) != strs_view(
                final(series)@[b].0@,
            ),
        forall|i: int|
            0 <= i < final(series)@.len() ==> (#[trigger] final(series)@[i].0)@.len() == arity,
        (final(series)@.len() == 0) <==> (forall|k: Seq<Seq<char>>|
            assoc_map(series_pairs_view(old(series)@)).contains_key(k) ==> k == strs_view(key@)),
{
    let ghost orig = series@;
    let ghost sv = series_pairs_view(orig);
    let ghost kview = strs_view(key@);
    proof {
        assert(sv =~= series_pairs_view(old(series)@));
        assert forall|n: int| 0 <= n < orig.len() implies (#[trigger] orig[n].0)@.len()
            == arity by {
            assert(old(series)@[n].0@.len() == arity);
        }
        assert forall|a: int, b: int|
            0 <= a < b < orig.len() implies strs_view(orig[a].0@) != strs_view(orig[b].0@) by {
            assert(strs_view(old(series)@[a].0@) != strs_view(old(series)@[b].0@));
        }
    }
    let mut i: usize = 0;
    while i < series.len()
        invariant
            series@ == orig,
            old(series)@ == orig,
            i <= orig.len(),
            kview == strs_view(key@),
            forall|j: int| 0 <= j < i ==> sv[j].0 != kview,
            sv == series_pairs_view(orig),
            forall|a: int, b: int|
                0 <= a < b < orig.len() ==> strs_view(orig[a].0@) != strs_view(orig[b].0@),
            forall|n: int| 0 <= n < orig.len() ==> (#[trigger] orig[n].0)@.len() == arity,
        decreases series.len() - i,
    {
        if str_vecs_eq(&series[i].0, key) {
            let _ = series.remove(i);
            proof {
                assert(sv[i as int].0 == kview);
                assert forall|j: int| i < j < sv.len() implies (#[trigger] sv[j]).0 != sv[i as int].0 by {
                    assert(strs_view(orig[j].0@) != strs_view(orig[i as int].0@));
                }
                lemma_assoc_remove(sv, i as int);
                lemma_series_view_remove(orig, i as int);
                assert(series_pairs_view(series@) =~= sv.remove(i as int));
                assert(assoc_map(series_pairs_view(series@)) == assoc_map(
                    series_pairs_view(old(series)@),
                ).remove(kview));
                lemma_assoc_last(sv, i as int);
                let m = assoc_map(sv);
                if series@.len() == 0 {
                    assert forall|k: Seq<Seq<char>>|
                        assoc_map(series_pairs_view(old(series)@)).contains_key(k) implies k
                        == strs_view(key@) by {
                        assert(m.contains_key(k));
                        lemma_assoc_dom(sv, k);
                        let j = choose|j: int| 0 <= j < sv.len() && sv[j].0 == k;
                        assert(j == i);
                    }
                } else {
                    let other = if i == 0 { 1 as int } else { 0 as int };
                    assert(strs_view(orig[other].0@) != strs_view(orig[i as int].0@));
                    assert(sv[other].0 != kview);
                    assert forall|j: int| other < j < sv.len() implies (#[trigger] sv[j]).0 != sv[other].0 by {
                        assert(strs_view(orig[j].0@) != strs_view(orig[other].0@));
                    }
                    lemma_assoc_last(sv, other);
                    assert(m.contains_key(sv[other].0));
                    assert(assoc_map(series_pairs_view(old(series)@)).contains_key(sv[other].0));
                    assert(sv[other].0 != strs_view(key@));
                }
                assert forall|a: int, b: int|
                    0 <= a < b < series@.len() implies strs_view(series@[a].0@) != strs_view(
                    series@[b].0@,
                ) by {
                    let a0 = if a < i { a } else { a + 1 };
                    let b0 = if b < i { b } else { b + 1 };
                    assert(series@[a] == orig[a0]);
                    assert(series@[b] == orig[b0]);
                }
                assert forall|n: int|
                    0 <= n < series@.len() implies (#[trigger] series@[n].0)@.len() == arity by {
                    let n0 = if n < i { n } else { n + 1 };
                    assert(series@[n] == orig[n0]);
                }
            }
            return ;
        }
        i = i + 1;
    }
    proof {
        lemma_assoc_absent(sv, kview);
        assert(assoc_map(sv).remove(kview) =~= assoc_map(sv));
        assert(assoc_map(series_pairs_view(series@)) == assoc_map(
            series_pairs_view(old(series)@),
        ).remove(kview));
        if series@.len() > 0 {
            assert(sv[0].0 != kview);
            assert forall|j: int| 0 < j < sv.len() implies (#[trigger] sv[j]).0 != sv[0].0 by {
                assert(strs_view(orig[j].0@) != strs_view(orig[0].0@));
            }
            lemma_assoc_last(sv, 0);
            assert(assoc_map(sv).contains_key(sv[0].0));
            assert(assoc_map(series_pairs_view(old(series)@)).contains_key(sv[0].0));
            assert(sv[0].0 != strs_view(key@));
        } else {
            assert forall|k: Seq<Seq<char>>|
                assoc_map(series_pairs_view(old(series)@)).contains_key(k) implies k
                == strs_view(key@) by {
                assert(assoc_map(sv).contains_key(k));
                lemma_assoc_dom(sv, k);
            }
        }
        assert(forall|j: int| 0 <= j < series@.len() ==> #[trigger] series@[j] == orig[j]);
    }
}

impl DynamicRegistry {
    /// Every family well-formed, under pairwise distinct names.
    pub open spec fn wf(&self) -> bool {
        &&& forall|a: int, b: int|
            0 <= a < b < self.metrics@.len() ==> (#[trigger] self.metrics@[a].0)@ != (
            #[trigger] self.metrics@[b].0)@
        &&& forall|i: int| 0 <= i < self.metrics@.len() ==> (#[trigger] self.metrics@[i].1).wf()
    }

    /// An empty registry.
    pub fn new() -> (r: DynamicRegistry)
        ensures
            r.wf(),
            r@ == Map::<Seq<char>, FamilyV>::empty(),
    {
        let r = DynamicRegistry { metrics: Vec::new() };
        proof {
            assert(reg_pairs_view(r.metrics@).len() == 0);
        }
        r
    }

    /// The position of a name's entry.
    fn find_name(&self, name: &String) -> (r: Option<usize>)
        requires
            self.wf(),
        ensures
            match r {
                Some(i) => i < self.metrics@.len() && self.metrics@[i as int].0@ == name@
                    && self@.contains_key(name@) && self@[name@] == self.metrics@[i as int].1@,
                None => !self@.contains_key(name@) && forall|j: int|
                    0 <= j < self.metrics@.len() ==> (#[trigger] self.metrics@[j].0)@ != name@,
            },
    {
        let ghost rv = reg_pairs_view(self.metrics@);
        let mut i: usize = 0;
        while i < self.metrics.len()
            invariant
                rv == reg_pairs_view(self.metrics@),
                i <= self.metrics@.len(),
                self.wf(),
                forall|j: int| 0 <= j < i ==> rv[j].0 != name@,
            decreases self.metrics.len() - i,
        {
            if self.metrics[i].0.eq(name) {
                proof {
                    assert(rv[i as int].0 == name@);
                    assert forall|j: int| i < j < rv.len() implies (#[trigger] rv[j]).0 != rv[i as int].0 by {
                        assert(self.metrics@[j].0@ != self.metrics@[i as int].0@);
                    }
                    lemma_assoc_last(rv, i as int);
                }
                return Some(i);
            }
            i = i + 1;
        }
        proof {
            lemma_assoc_absent(rv, name@);
            assert forall|j: int|
                0 <= j < self.metrics@.len() implies (#[trigger] self.metrics@[j].0)@
                != name@ by {
                assert(rv[j].0 == self.metrics@[j].0@);
            }
        }
        None
    }

    /// Creates or updates the series that `metric` names, with `value` the
    /// bits of its gauge value. The first `add` of a name freezes the label
    /// names; a conflicting external registration refuses the creation and
    /// leaves the registry as it was.
    pub fn add(&mut self, metric: &Metric, value: u64) -> (r: Result<(), RegError>)
        requires
            old(self).wf(),
            metric@.wf(),
        ensures
            final(self).wf(),
            r matches Ok(()) ==> final(self)@ == spec_add(old(self)@, metric@, value),
            r matches Err(e) ==> final(self)@ == old(self)@ && e == RegError::Registration
                && !old(self)@.contains_key(metric@.name),
            old(self)@.contains_key(metric@.name) ==> r matches Ok(()),
    {
        let ghost pre = self@;
        match self.find_name(&metric.name) {
            Some(i) => {
                let ghost ms0 = self.metrics@;
                let ghost rv = reg_pairs_view(ms0);
                proof {
                    assert(ms0[i as int].1.wf());
                }
                let (name_s, mut fam) = self.metrics.remove(i);
                let ghost famv = fam@;
                let resolved = resolve_values(&fam.label_names, metric);
                proof {
                    assert(resolved@.len() == strs_view(resolved@).len());
                    assert(resolved@.len() == fam.label_names@.len());
                }
                touch_series(&fam.gauge, &resolved);
                let ghost kview = strs_view(resolved@);
                let arity = fam.label_names.len();
                upsert_series(&mut fam.series, resolved, value, arity);
                let ghost ms1 = self.metrics@;
                self.metrics.push((name_s, fam));
                proof {
                    assert(rv[i as int].0 == metric@.name);
                    assert forall|j: int| i < j < rv.len() implies (#[trigger] rv[j]).0 != rv[i as int].0 by {
                        assert(ms0[j].0@ != ms0[i as int].0@);
                    }
                    lemma_reg_view_remove(ms0, i as int);
                    lemma_assoc_remove(rv, i as int);
                    let p = self.metrics@.last();
                    assert(self.metrics@ == ms1.push(p));
                    lemma_reg_view_push(ms1, p);
                    lemma_assoc_push(reg_pairs_view(ms1), p.0@, p.1@);
                    assert(kview == resolve(famv.labels, metric@.pairs));
                    assert(p.1@ =~= FamilyV {
                        labels: famv.labels,
                        series: famv.series.insert(kview, value),
                    }) by {
                        assert(p.1@.series == famv.series.insert(kview, value));
                    }
                    assert(self@ =~= spec_add(pre, metric@, value));
                    assert forall|a: int, b: int|
                        0 <= a < b < self.metrics@.len() implies (#[trigger] self.metrics@[a].0)@
                        != (#[trigger] self.metrics@[b].0)@ by {
                        if b == self.metrics@.len() - 1 {
                            if a < i {
                                assert(self.metrics@[a] == ms0[a]);
                            } else {
                                assert(self.metrics@[a] == ms0[a + 1]);
                            }
                        } else {
                            let a0 = if a < i { a } else { a + 1 };
                            let b0 = if b < i { b } else { b + 1 };
                            assert(self.metrics@[a] == ms0[a0]);
                            assert(self.metrics@[b] == ms0[b0]);
                        }
                    }
                    assert forall|k: int|
                        0 <= k < self.metrics@.len() implies (
                    #[trigger] self.metrics@[k].1).wf() by {
                        if k < self.metrics@.len() - 1 {
                            let k0 = if k < i { k } else { k + 1 };
                            assert(self.metrics@[k] == ms0[k0]);
                        }
                    }
                }
                Ok(())
            },
            None => {
                let labels = dedup_key_vec(metric);
                let resolved = resolve_values(&labels, metric);
                match gauge_vec_new(&metric.name, &labels) {
                    Err(_) => Err(RegError::Registration),
                    Ok(h) => {
                        match register_gauge(&h) {
                            Err(_) => Err(RegError::Registration),
                            Ok(()) => {
                                proof {
                                    assert(strs_view(resolved@).len() == resolved@.len());
                                    assert(strs_view(labels@).len() == labels@.len());
                                    assert(resolved@.len() == labels@.len());
                                }
                                touch_series(&h, &resolved);
                                let mut series: Vec<(Vec<String>, u64)> = Vec::new();
                                let ghost rkey = strs_view(resolved@);
                                series.push((resolved, value));
                                let name_s = metric.name.clone();
                                let fam = Family { gauge: h, label_names: labels, series };
                                let ghost ms0 = self.metrics@;
                                let ghost rv = reg_pairs_view(ms0);
                                self.metrics.push((name_s, fam));
                                proof {
                                    let p = self.metrics@.last();
                                    assert(self.metrics@ == ms0.push(p));
                                    lemma_reg_view_push(ms0, p);
                                    lemma_assoc_push(rv, p.0@, p.1@);
                                    assert(series_pairs_view(p.1.series@) =~= Seq::empty().push(
                                        (rkey, value),
                                    ));
                                    lemma_assoc_push(
                                        Seq::<(Seq<Seq<char>>, u64)>::empty(),
                                        rkey,
                                        value,
                                    );
                                    assert(assoc_map(Seq::<(Seq<Seq<char>>, u64)>::empty())
                                        =~= Map::<Seq<Seq<char>>, u64>::empty());
                                    assert(p.1@.series =~= Map::empty().insert(rkey, value));
                                    assert(p.1@ =~= FamilyV {
                                        labels: dedup_keys(metric@.pairs),
                                        series: Map::empty().insert(
                                            resolve(dedup_keys(metric@.pairs), metric@.pairs),
                                            value,
                                        ),
                                    });
                                    assert(self@ =~= spec_add(pre, metric@, value));
                                    assert forall|a: int, b: int|
                                        0 <= a < b < self.metrics@.len() implies (
                                    #[trigger] self.metrics@[a].0)@ != (
                                    #[trigger] self.metrics@[b].0)@ by {
                                        if b == self.metrics@.len() - 1 {
                                            assert(self.metrics@[a] == ms0[a]);
                                        }
                                    }
                                    assert forall|k: int|
                                        0 <= k < self.metrics@.len() implies (
                                    #[trigger] self.metrics@[k].1).wf() by {
                                        if k < self.metrics@.len() - 1 {
                                            assert(self.metrics@[k] == ms0[k]);
                                        }
                                    }
                                }
                                Ok(())
                            },
                        }
                    },
                }
            },
        }
    }

    /// The bits of the series value that `metric` names; the documented
    /// default substitutions apply, and only an unknown name is an error.
    pub fn get(&self, metric: &Metric) -> (r: Result<u64, RegError>)
        requires
            self.wf(),
            metric@.wf(),
        ensures
            spec_get(self@, metric@) matches Some(b) ==> r == Ok::<u64, RegError>(b),
            spec_get(self@, metric@) is None ==> r == Err::<u64, RegError>(RegError::NotFound),
    {
        match self.find_name(&metric.name) {
            None => Err(RegError::NotFound),
            Some(i) => {
                let fam = &self.metrics[i].1;
                let resolved = resolve_values(&fam.label_names, metric);
                match lookup_series(&fam.series, &resolved) {
                    Some(bits) => Ok(bits),
                    None => Ok(0),
                }
            },
        }
    }

    /// Drops the series that `metric` names; a family left without series
    /// leaves the registry and the exposition surface. An unknown name is a
    /// no-op; a known name without the resolved series is a lookup error;
    /// surface refusals are reported, an unregistration refusal after the
    /// registry-side removal already happened.
    pub fn remove(&mut self, metric: &Metric) -> (r: Result<(), RegError>)
        requires
            old(self).wf(),
            metric@.wf(),
        ensures
            final(self).wf(),
            r matches Ok(()) ==> final(self)@ == spec_remove(old(self)@, metric@),
            !old(self)@.contains_key(metric@.name) ==> ((r matches Ok(())) && final(self)@ == old(
                self,
            )@),
            old(self)@.contains_key(metric@.name) && !old(self)@[metric@.name].series.contains_key(
                resolve(old(self)@[metric@.name].labels, metric@.pairs),
            ) ==> r == Err::<(), RegError>(RegError::SeriesRemoval),
            r == Err::<(), RegError>(RegError::SeriesRemoval) ==> final(self)@ == old(self)@,
            r == Err::<(), RegError>(RegError::Unregistration) ==> final(self)@ == spec_remove(
                old(self)@,
                metric@,
            ) && !final(self)@.contains_key(metric@.name),
            r matches Err(e) ==> old(self)@.contains_key(metric@.name) && (e
                == RegError::SeriesRemoval || e == RegError::Unregistration),
    {
        let ghost pre = self@;
        match self.find_name(&metric.name) {
            None => Ok(()),
            Some(i) => {
                proof {
                    assert(self.metrics@[i as int].1.wf());
                }
                let resolved = resolve_values(&self.metrics[i].1.label_names, metric);
                if lookup_series(&self.metrics[i].1.series, &resolved).is_none() {
                    // the registry's own series list decides the lookup: the
                    // family holds no series at this tuple
                    return Err(RegError::SeriesRemoval);
                }
                match remove_series(&self.metrics[i].1.gauge, &resolved) {
                    Err(_) => Err(RegError::SeriesRemoval),
                    Ok(()) => {
                        let ghost ms0 = self.metrics@;
                        let ghost rv = reg_pairs_view(ms0);
                        let ghost famv = self.metrics@[i as int].1@;
                        let ghost kview = strs_view(resolved@);
                        proof {
                            assert(ms0[i as int].1.wf());
                        }
                        let (name_s, mut fam) = self.metrics.remove(i);
                        let ghost arity = fam.label_names@.len() as int;
                        delete_series(&mut fam.series, &resolved, Ghost(arity));
                        proof {
                            assert(famv.series == assoc_map(series_pairs_view(ms0[i as int].1.series@)));
                            assert(rv[i as int].0 == metric@.name);
                            assert forall|j: int| i < j < rv.len() implies (#[trigger] rv[j]).0 != rv[i as int].0 by {
                                assert(ms0[j].0@ != ms0[i as int].0@);
                            }
                            lemma_reg_view_remove(ms0, i as int);
                            lemma_assoc_remove(rv, i as int);
                            assert(kview == resolve(famv.labels, metric@.pairs));
                            assert forall|a: int, b: int|
                                0 <= a < b < self.metrics@.len() implies (
                            #[trigger] self.metrics@[a].0)@ != (
                            #[trigger] self.metrics@[b].0)@ by {
                                let a0 = if a < i { a } else { a + 1 };
                                let b0 = if b < i { b } else { b + 1 };
                                assert(self.metrics@[a] == ms0[a0]);
                                assert(self.metrics@[b] == ms0[b0]);
                            }
                            assert forall|k: int|
                                0 <= k < self.metrics@.len() implies (
                            #[trigger] self.metrics@[k].1).wf() by {
                                let k0 = if k < i { k } else { k + 1 };
                                assert(self.metrics@[k] == ms0[k0]);
                            }
                        }
                        if fam.series.len() == 0 {
                            proof {
                                assert forall|k: Seq<Seq<char>>|
                                    famv.series.contains_key(k) implies k == kview by {
                                    assert(assoc_map(
                                        series_pairs_view(ms0[i as int].1.series@),
                                    ).contains_key(k));
                                }
                                assert(family_emptied(famv, kview));
                                assert(self@ =~= spec_remove(pre, metric@));
                            }
                            match unregister_gauge(&fam.gauge) {
                                Ok(()) => Ok(()),
                                Err(_) => Err(RegError::Unregistration),
                            }
                        } else {
                            let ghost ms1 = self.metrics@;
                            let ghost rv2 = reg_pairs_view(ms1);
                            self.metrics.push((name_s, fam));
                            proof {
                                assert(!family_emptied(famv, kview)) by {
                                    if family_emptied(famv, kview) {
                                        assert forall|k: Seq<Seq<char>>|
                                            assoc_map(
                                                series_pairs_view(ms0[i as int].1.series@),
                                            ).contains_key(k) implies k == strs_view(
                                            resolved@,
                                        ) by {
                                            assert(famv.series.contains_key(k));
                                        }
                                    }
                                }
                                let p = self.metrics@.last();
                                assert(self.metrics@ == ms1.push(p));
                                lemma_reg_view_push(ms1, p);
                                lemma_assoc_push(rv2, p.0@, p.1@);
                                assert(p.1@ =~= FamilyV {
                                    labels: famv.labels,
                                    series: famv.series.remove(kview),
                                });
                                assert(self@ =~= spec_remove(pre, metric@));
                                assert forall|a: int, b: int|
                                    0 <= a < b < self.metrics@.len() implies (
                                #[trigger] self.metrics@[a].0)@ != (
                                #[trigger] self.metrics@[b].0)@ by {
                                    if b == self.metrics@.len() - 1 {
                                        let a0 = if a < i { a } else { a + 1 };
                                        assert(self.metrics@[a] == ms0[a0]);
                                    } else {
                                        let a0 = if a < i { a } else { a + 1 };
                                        let b0 = if b < i { b } else { b + 1 };
                                        assert(self.metrics@[a] == ms0[a0]);
                                        assert(self.metrics@[b] == ms0[b0]);
                                    }
                                }
                                assert forall|k: int|
                                    0 <= k < self.metrics@.len() implies (
                                #[trigger] self.metrics@[k].1).wf() by {
                                    if k < self.metrics@.len() - 1 {
                                        let k0 = if k < i { k } else { k + 1 };
                                        assert(self.metrics@[k] == ms0[k0]);
                                    } else {
                                        assert(self.metrics@[k].1 == fam);
                                        assert(gauge_label_count(fam.gauge)
                                            == fam.label_names@.len());
                                    }
                                }
                            }
                            Ok(())
                        }
                    },
                }
            },
        }
    }

    /// The exposition handle of a name's family, for the host process to
    /// mirror gauge values through.
    pub fn gauge_of(&self, name: &String) -> (r: Option<&GaugeHandle>)
        requires
            self.wf(),
        ensures
            r is Some <==> self@.contains_key(name@),
    {
        match self.find_name(name) {
            Some(i) => Some(&self.metrics[i].1.gauge),
            None => None,
        }
    }

    /// The label-value tuple that `metric` resolves to against its family's
    /// frozen label names.
    pub fn resolved_values(&self, metric: &Metric) -> (r: Option<Vec<String>>)
        requires
            self.wf(),
            metric@.wf(),
        ensures
            r matches Some(v) ==> self@.contains_key(metric@.name) && strs_view(v@) == resolve(
                self@[metric@.name].labels,
                metric@.pairs,
            ),
            r is None ==> !self@.contains_key(metric@.name),
    {
        match self.find_name(&metric.name) {
            Some(i) => Some(resolve_values(&self.metrics[i].1.label_names, metric)),
            None => None,
        }
    }
}

} // verus!
