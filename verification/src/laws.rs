//! The registry's and the grammar's laws, stated once and proved.

use vstd::prelude::*;

use crate::grammar::{is_ws_char, parse_del, parse_exit, parse_get, parse_help, parse_line,
    parse_set, first_cmd, lemma_skip_ws, skip_ws, LineV};
use crate::metric::{resolve, tag_map, tag_or_default, MetricV};
use crate::registry::{family_emptied, spec_add, spec_get, spec_remove, FamilyV};

verus! {

/// Round trip: after an `add` of identity `m` with value bits `v`, a `get`
/// of the same identity answers exactly those bits, whatever the registry
/// held before.
pub proof fn lemma_set_then_get(r: Map<Seq<char>, FamilyV>, m: MetricV, v: u64)
    ensures
        spec_get(spec_add(r, m, v), m) == Some(v),
{
}

/// Label freeze: an `add` against an existing name keeps the frozen label
/// names, and writes at the tuple its own tags resolve to against them —
/// whatever keys the call supplied.
pub proof fn lemma_label_set_frozen(
    r: Map<Seq<char>, FamilyV>,
    m1: MetricV,
    v1: u64,
    m2: MetricV,
    v2: u64,
)
    requires
        m2.name == m1.name,
    ensures
        ({
            let r1 = spec_add(r, m1, v1);
            let r2 = spec_add(r1, m2, v2);
            r2[m1.name].labels == r1[m1.name].labels
                && r2[m1.name].series
                == r1[m1.name].series.insert(resolve(r1[m1.name].labels, m2.pairs), v2)
        }),
{
}

/// Tag keys that all lie outside the frozen label names resolve to the
/// all-empty value tuple: such a call aliases the all-default series.
pub proof fn lemma_disjoint_tags_default(labels: Seq<Seq<char>>, ps: Seq<(Seq<char>, Seq<char>)>)
    requires
        forall|i: int| 0 <= i < labels.len() ==> !tag_map(ps).contains_key(#[trigger] labels[i]),
    ensures
        resolve(labels, ps) =~= Seq::new(labels.len(), |i: int| Seq::<char>::empty()),
{
    assert forall|i: int| 0 <= i < labels.len() implies resolve(labels, ps)[i] == Seq::<
        char,
    >::empty() by {
        assert(tag_or_default(ps, labels[i]) == Seq::<char>::empty());
    }
}

/// Delete empties and unregisters: creating a fresh name with its one series
/// and then deleting that series drops the name from the registry, and a
/// later `get` of it is a miss.
pub proof fn lemma_delete_empties(r: Map<Seq<char>, FamilyV>, m: MetricV, v: u64)
    requires
        !r.contains_key(m.name),
    ensures
        !spec_remove(spec_add(r, m, v), m).contains_key(m.name),
        spec_get(spec_remove(spec_add(r, m, v), m), m) is None,
{
    let r1 = spec_add(r, m, v);
    let f = r1[m.name];
    let key = resolve(f.labels, m.pairs);
    assert(family_emptied(f, key));
}

/// Delete retains the rest: deleting one series of a family keeps the family
/// registered with its labels, and every other series keeps its value.
pub proof fn lemma_delete_partial(r: Map<Seq<char>, FamilyV>, m: MetricV, k2: Seq<Seq<char>>)
    requires
        r.contains_key(m.name),
        r[m.name].series.contains_key(k2),
        k2 != resolve(r[m.name].labels, m.pairs),
    ensures
        spec_remove(r, m).contains_key(m.name),
        spec_remove(r, m)[m.name].labels == r[m.name].labels,
        spec_remove(r, m)[m.name].series.contains_key(k2),
        spec_remove(r, m)[m.name].series[k2] == r[m.name].series[k2],
{
    let f = r[m.name];
    let key = resolve(f.labels, m.pairs);
    assert(!family_emptied(f, key));
}

/// A line parses to the empty command exactly when it holds only whitespace
/// — whitespace as the grammar reads it: space, tab, carriage return and
/// newline, no other character. What the empty command does — nothing — is
/// `execute`'s contract.
pub proof fn lemma_empty_line(s: Seq<char>)
    ensures
        (parse_line(s) == Some(LineV::Empty)) <==> (forall|i: int|
            0 <= i < s.len() ==> is_ws_char(#[trigger] s[i])),
{
    lemma_skip_ws(s, 0);
    assert(match parse_set(s) {
        Some(p) => !(p.1 is Empty),
        None => true,
    });
    assert(match parse_del(s) {
        Some(p) => !(p.1 is Empty),
        None => true,
    });
    assert(match parse_get(s) {
        Some(p) => !(p.1 is Empty),
        None => true,
    });
    assert(match parse_exit(s) {
        Some(p) => !(p.1 is Empty),
        None => true,
    });
    assert(match parse_help(s) {
        Some(p) => !(p.1 is Empty),
        None => true,
    });
    if forall|i: int| 0 <= i < s.len() ==> is_ws_char(#[trigger] s[i]) {
        assert(skip_ws(s, 0) == s.len()) by {
            if skip_ws(s, 0) < s.len() {
                assert(is_ws_char(s[skip_ws(s, 0)]));
            }
        }
        assert(first_cmd(s) is None) by {
            if s.len() > 0 {
                assert(is_ws_char(s[0]));
                assert(parse_set(s) is None) by {
                    if 3 <= s.len() && s.subrange(0, 3) == seq!['s', 'e', 't'] {
                        assert(s.subrange(0, 3)[0] == s[0]);
                    }
                }
                assert(parse_del(s) is None) by {
                    if 3 <= s.len() && s.subrange(0, 3) == seq!['d', 'e', 'l'] {
                        assert(s.subrange(0, 3)[0] == s[0]);
                    }
                }
                assert(parse_get(s) is None) by {
                    if 3 <= s.len() && s.subrange(0, 3) == seq!['g', 'e', 't'] {
                        assert(s.subrange(0, 3)[0] == s[0]);
                    }
                }
                assert(parse_exit(s) is None) by {
                    if 4 <= s.len() && s.subrange(0, 4) == seq!['e', 'x', 'i', 't'] {
                        assert(s.subrange(0, 4)[0] == s[0]);
                    }
                    if 4 <= s.len() && s.subrange(0, 4) == seq!['q', 'u', 'i', 't'] {
                        assert(s.subrange(0, 4)[0] == s[0]);
                    }
                }
                assert(parse_help(s) is None) by {
                    if 4 <= s.len() && s.subrange(0, 4) == seq!['h', 'e', 'l', 'p'] {
                        assert(s.subrange(0, 4)[0] == s[0]);
                    }
                }
            }
        }
    }
}

} // verus!
