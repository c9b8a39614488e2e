//! The injection plan: which environment variables are selected, and in what
//! order their attributes are written.
//!
//! Which variables count as public, and what attribute name each one maps
//! to, is explicit configuration (`InjectionConfig`) rather than a constant
//! of the algorithms: a variable is selected when its name starts with one
//! of the configured prefixes, and its attribute is the configured prefix
//! plus the lowercased variable name.  `InjectionConfig::standard` is the
//! convention the product ships: `PUBLIC_` and `public_`, mapped to
//! `data-<lowercased name>`.
//!
//! The plan lists the selected entries of the snapshot sorted ascending by
//! original variable name; `is_plan_for` pins that list down and
//! `lemma_plan_for_unique` shows there is only one such list, so the plan
//! does not depend on the order in which the snapshot is walked.

use vstd::prelude::*;
use std::collections::HashMap;
use crate::dom::AttrView;
use crate::text::{
    data_attr_name, has_prefix, lemma_lex_le_antisym, lemma_lex_le_total, lemma_lex_lt_trans,
    lex_lt, lower_of, str_has_prefix, str_le, to_lowercase,
};
use vstd::string::StringExecFns;

verus! {

/// Which environment variables are injected, and under what attribute names:
/// a variable is selected when its name starts with one of
/// `public_prefixes`, matched exactly, and its attribute name is
/// `attr_name_prefix` plus its lowercased name.
pub struct InjectionConfig {
    pub public_prefixes: Vec<String>,
    pub attr_name_prefix: String,
}

/// The abstract value of an injection configuration.
pub ghost struct ConfigView {
    pub public_prefixes: Seq<Seq<char>>,
    pub attr_name_prefix: Seq<char>,
}

impl View for InjectionConfig {
    type V = ConfigView;

    open spec fn view(&self) -> ConfigView {
        ConfigView {
            public_prefixes: self.public_prefixes@.map_values(|s: String| s@),
            attr_name_prefix: self.attr_name_prefix@,
        }
    }
}

/// Whether the configuration selects a variable name: the name starts with
/// one of the configured prefixes, each matched exactly.
pub open spec fn selects(c: ConfigView, k: Seq<char>) -> bool {
    exists|i: int| 0 <= i < c.public_prefixes.len() && has_prefix(k, #[trigger] c.public_prefixes[i])
}

/// The attribute name the configuration gives a variable.
pub open spec fn config_attr_name(c: ConfigView, k: Seq<char>) -> Seq<char> {
    c.attr_name_prefix + lower_of(k)
}

/// The convention the product ships: `PUBLIC_` and `public_` select a
/// variable, and its attribute is `data-` plus the lowercased name.
pub open spec fn standard_config() -> ConfigView {
    ConfigView { public_prefixes: seq!["PUBLIC_"@, "public_"@], attr_name_prefix: "data-"@ }
}

/// An environment variable is public when the standard configuration selects
/// it; there is no general case-insensitive match.
pub open spec fn is_public_key(k: Seq<char>) -> bool {
    selects(standard_config(), k)
}

/// The standard selection, spelled out: the name starts with `PUBLIC_` or
/// with `public_`.
pub proof fn lemma_is_public_key_prefixes(k: Seq<char>)
    ensures
        is_public_key(k) == (has_prefix(k, "PUBLIC_"@) || has_prefix(k, "public_"@)),
{
    let c = standard_config();
    assert(c.public_prefixes[0] == "PUBLIC_"@);
    assert(c.public_prefixes[1] == "public_"@);
    if has_prefix(k, "PUBLIC_"@) || has_prefix(k, "public_"@) {
        assert(selects(c, k));
    }
    if selects(c, k) {
        let i = choose|i: int|
            0 <= i < c.public_prefixes.len() && has_prefix(k, #[trigger] c.public_prefixes[i]);
        assert(i == 0 || i == 1);
    }
}

/// The standard attribute name is `data-` plus the lowercased variable name.
pub proof fn lemma_standard_attr_name(k: Seq<char>)
    ensures
        config_attr_name(standard_config(), k) == data_attr_name(k),
{
}

impl InjectionConfig {
    /// Builds the standard configuration.
    pub fn standard() -> (c: InjectionConfig)
        ensures
            c@ == standard_config(),
    {
        let c = InjectionConfig {
            public_prefixes: vec![String::from_str("PUBLIC_"), String::from_str("public_")],
            attr_name_prefix: String::from_str("data-"),
        };
        proof {
            assert(c@.public_prefixes =~= standard_config().public_prefixes);
        }
        c
    }

    /// Tests whether the configuration selects a variable name.
    pub fn selects_key(&self, k: &str) -> (r: bool)
        ensures
            r == selects(self@, k@),
    {
        let mut i: usize = 0;
        while i < self.public_prefixes.len()
            invariant
                i <= self.public_prefixes@.len(),
                forall|j: int| 0 <= j < i ==> !has_prefix(k@, #[trigger] self@.public_prefixes[j]),
            decreases self.public_prefixes@.len() - i,
        {
            if str_has_prefix(k, self.public_prefixes[i].as_str()) {
                assert(has_prefix(k@, self@.public_prefixes[i as int]));
                return true;
            }
            i = i + 1;
        }
        false
    }

    /// Builds the attribute name the configuration gives a variable: the
    /// configured prefix followed by the lowercased variable name.
    pub fn attr_name(&self, name: &str) -> (r: String)
        ensures
            r@ == config_attr_name(self@, name@),
    {
        let mut out = self.attr_name_prefix.clone();
        let low = to_lowercase(name);
        out.append(low.as_str());
        out
    }
}

/// The abstract value of a list of (name, value) string pairs.
pub open spec fn pair_views(s: Seq<(String, String)>) -> Seq<(Seq<char>, Seq<char>)> {
    s.map_values(|p: (String, String)| (p.0@, p.1@))
}

/// Keys strictly ascend throughout the list.
pub open spec fn keys_sorted(s: Seq<(Seq<char>, Seq<char>)>) -> bool {
    forall|i: int, j: int|
        0 <= i < j < s.len() ==> lex_lt((#[trigger] s[i]).0, (#[trigger] s[j]).0)
}

/// What the injection plan for the environment `m` is, under configuration
/// `c`: exactly the selected entries of `m`, sorted ascending by original
/// variable name.
pub open spec fn is_plan_for(
    c: ConfigView,
    m: Map<Seq<char>, Seq<char>>,
    plan: Seq<(Seq<char>, Seq<char>)>,
) -> bool {
    &&& keys_sorted(plan)
    &&& forall|i: int|
        0 <= i < plan.len() ==> {
            &&& selects(c, (#[trigger] plan[i]).0)
            &&& m.contains_key(plan[i].0)
            &&& plan[i].1 == m[plan[i].0]
        }
    &&& forall|k: Seq<char>|
        #[trigger] m.contains_key(k) && selects(c, k) ==> exists|i: int|
            0 <= i < plan.len() && plan[i].0 == k
}

/// Whether the environment holds any variable the configuration selects.
pub open spec fn has_selected_entry(c: ConfigView, m: Map<Seq<char>, Seq<char>>) -> bool {
    exists|k: Seq<char>| #[trigger] m.contains_key(k) && selects(c, k)
}

/// Whether the environment holds any public variable, under the standard
/// configuration.
pub open spec fn has_public_entry(m: Map<Seq<char>, Seq<char>>) -> bool {
    has_selected_entry(standard_config(), m)
}

/// The injection plan of an environment under a configuration: the one list
/// `is_plan_for` admits.
pub open spec fn plan_of(c: ConfigView, m: Map<Seq<char>, Seq<char>>) -> Seq<
    (Seq<char>, Seq<char>),
> {
    choose|p: Seq<(Seq<char>, Seq<char>)>| is_plan_for(c, m, p)
}

/// The attributes a plan writes under a configuration, each carrying the
/// variable's value and no namespace.
pub open spec fn plan_attrs(c: ConfigView, plan: Seq<(Seq<char>, Seq<char>)>) -> Seq<AttrView> {
    plan.map_values(
        |p: (Seq<char>, Seq<char>)| crate::attrs::fresh_attr(config_attr_name(c, p.0), p.1),
    )
}

/// A plan is empty exactly when the environment has no selected entry.
pub proof fn lemma_plan_empty(
    c: ConfigView,
    m: Map<Seq<char>, Seq<char>>,
    p: Seq<(Seq<char>, Seq<char>)>,
)
    requires
        is_plan_for(c, m, p),
    ensures
        p.len() == 0 <==> !has_selected_entry(c, m),
{
    if p.len() > 0 {
        assert(m.contains_key(p[0].0) && selects(c, p[0].0));
    }
    if has_selected_entry(c, m) {
        let k = choose|k: Seq<char>| #[trigger] m.contains_key(k) && selects(c, k);
        assert(exists|i: int| 0 <= i < p.len() && p[i].0 == k);
    }
}

/// There is at most one plan for an environment under a configuration: the
/// sorted list of selected entries is unique, whatever order the snapshot
/// was walked in.
pub proof fn lemma_plan_for_unique(
    c: ConfigView,
    m: Map<Seq<char>, Seq<char>>,
    p: Seq<(Seq<char>, Seq<char>)>,
    q: Seq<(Seq<char>, Seq<char>)>,
)
    requires
        is_plan_for(c, m, p),
        is_plan_for(c, m, q),
    ensures
        p == q,
    decreases p.len(),
{
    if p.len() == 0 {
        if q.len() > 0 {
            assert(m.contains_key(q[0].0) && selects(c, q[0].0));
            assert(exists|i: int| 0 <= i < p.len() && p[i].0 == q[0].0);
        }
        assert(p =~= q);
    } else if q.len() == 0 {
        assert(m.contains_key(p[0].0) && selects(c, p[0].0));
        assert(exists|i: int| 0 <= i < q.len() && q[i].0 == p[0].0);
    } else {
        assert(m.contains_key(p[0].0) && selects(c, p[0].0));
        assert(m.contains_key(q[0].0) && selects(c, q[0].0));
        let j = choose|j: int| 0 <= j < q.len() && q[j].0 == p[0].0;
        let i = choose|i: int| 0 <= i < p.len() && p[i].0 == q[0].0;
        if j > 0 {
            assert(lex_lt(q[0].0, q[j].0));
            if i > 0 {
                assert(lex_lt(p[0].0, p[i].0));
                lemma_lex_le_antisym(q[0].0, p[0].0);
            }
        }
        assert(q[0].0 == p[0].0);
        assert(p[0].1 == m[p[0].0] && q[0].1 == m[q[0].0]);
        assert(p[0] == q[0]);
        let m2 = m.remove(p[0].0);
        let pt = p.drop_first();
        let qt = q.drop_first();
        assert(forall|t: int| 0 <= t < pt.len() ==> #[trigger] pt[t] == p[t + 1]);
        assert(forall|t: int| 0 <= t < qt.len() ==> #[trigger] qt[t] == q[t + 1]);
        assert(is_plan_for(c, m2, pt)) by {
            lemma_tail_plan(c, m, p);
        }
        assert(is_plan_for(c, m2, qt)) by {
            lemma_tail_plan(c, m, q);
        }
        lemma_plan_for_unique(c, m2, pt, qt);
        assert forall|w: int| 0 <= w < p.len() implies p[w] == q[w] by {
            if w > 0 {
                assert(pt[w - 1] == p[w]);
                assert(qt[w - 1] == q[w]);
            }
        }
        assert(p =~= q);
    }
}

/// The tail of a plan is the plan for the environment less the head key.
proof fn lemma_tail_plan(
    c: ConfigView,
    m: Map<Seq<char>, Seq<char>>,
    p: Seq<(Seq<char>, Seq<char>)>,
)
    requires
        is_plan_for(c, m, p),
        p.len() > 0,
    ensures
        is_plan_for(c, m.remove(p[0].0), p.drop_first()),
{
    let m2 = m.remove(p[0].0);
    let pt = p.drop_first();
    assert(forall|t: int| 0 <= t < pt.len() ==> #[trigger] pt[t] == p[t + 1]);
    assert forall|t: int| 0 <= t < pt.len() implies {
        &&& selects(c, (#[trigger] pt[t]).0)
        &&& m2.contains_key(pt[t].0)
        &&& pt[t].1 == m2[pt[t].0]
    } by {
        assert(lex_lt(p[0].0, p[t + 1].0));
        assert(pt[t].0 != p[0].0);
    }
    assert forall|k: Seq<char>| #[trigger] m2.contains_key(k) && selects(c, k) implies exists|
        i: int,
    | 0 <= i < pt.len() && pt[i].0 == k by {
        assert(m.contains_key(k));
        let w = choose|w: int| 0 <= w < p.len() && p[w].0 == k;
        assert(k != p[0].0);
        assert(w > 0);
        assert(pt[w - 1].0 == k);
    }
}

/// Relies on HashMap::iter: the iterator yields every entry of the snapshot
/// exactly once; the order in which they come is left open.
#[verifier::external_body]
fn env_pairs<S>(data: &HashMap<String, String, S>) -> (r: Vec<(String, String)>)
    ensures
        forall|i: int, j: int|
            0 <= i < j < r@.len() ==> (#[trigger] r@[i]).0@ != (#[trigger] r@[j]).0@,
        forall|i: int|
            0 <= i < r@.len() ==> #[trigger] data.deep_view().contains_key(r@[i].0@)
                && data.deep_view()[r@[i].0@] == r@[i].1@,
        forall|k: Seq<char>|
            #[trigger] data.deep_view().contains_key(k) ==> exists|i: int|
                0 <= i < r@.len() && r@[i].0@ == k,
{
    data.iter().map(|(k, v)| (k.clone(), v.clone())).collect()
}

/// Inserts a pair with a fresh key into a sorted list, keeping it sorted.
fn sorted_insert(plan: &mut Vec<(String, String)>, p: (String, String))
    requires
        keys_sorted(pair_views(old(plan)@)),
        forall|i: int|
            0 <= i < old(plan)@.len() ==> (#[trigger] pair_views(old(plan)@)[i]).0 != p.0@,
    ensures
        keys_sorted(pair_views(final(plan)@)),
        pair_views(final(plan)@).contains((p.0@, p.1@)),
        forall|x: (Seq<char>, Seq<char>)|
            #[trigger] pair_views(old(plan)@).contains(x) ==> pair_views(
                final(plan)@,
            ).contains(x),
        forall|x: (Seq<char>, Seq<char>)|
            #[trigger] pair_views(final(plan)@).contains(x) ==> pair_views(
                old(plan)@,
            ).contains(x) || x == (p.0@, p.1@),
{
    let ghost vold = pair_views(old(plan)@);
    let ghost pv = (p.0@, p.1@);
    let mut j: usize = 0;
    loop
        invariant
            j <= plan.len(),
            vold == pair_views(plan@),
            vold == pair_views(old(plan)@),
            keys_sorted(vold),
            forall|i: int| 0 <= i < vold.len() ==> (#[trigger] vold[i]).0 != p.0@,
            forall|k: int| 0 <= k < j ==> lex_lt((#[trigger] vold[k]).0, p.0@),
        ensures
            j <= plan.len(),
            vold == pair_views(plan@),
            vold == pair_views(old(plan)@),
            forall|k: int| 0 <= k < j ==> lex_lt((#[trigger] vold[k]).0, p.0@),
            j < plan.len() ==> lex_lt(p.0@, vold[j as int].0),
        decreases plan.len() - j,
    {
        if j == plan.len() {
            break ;
        }
        let keep_going = str_le(plan[j].0.as_str(), p.0.as_str());
        proof {
            assert(vold[j as int].0 == plan@[j as int].0@);
            if keep_going {
                assert(lex_lt(vold[j as int].0, p.0@));
            } else {
                lemma_lex_le_total(vold[j as int].0, p.0@);
                assert(lex_lt(p.0@, vold[j as int].0));
            }
        }
        if !keep_going {
            break ;
        }
        j = j + 1;
    }
    proof {
        assert forall|k: int| j <= k < vold.len() implies lex_lt(p.0@, (#[trigger] vold[k]).0) by {
            if k > j {
                assert(lex_lt(vold[j as int].0, vold[k].0));
                lemma_lex_lt_trans(p.0@, vold[j as int].0, vold[k].0);
            }
        }
    }
    plan.insert(j, p);
    proof {
        let vnew = pair_views(plan@);
        assert(plan@ == old(plan)@.insert(j as int, p));
        assert(vnew =~= vold.insert(j as int, pv)) by {
            assert forall|t: int| 0 <= t < vnew.len() implies vnew[t] == vold.insert(
                j as int,
                pv,
            )[t] by {
                old(plan)@.insert_ensures(j as int, p);
                if t < j {
                    assert(plan@[t] == old(plan)@[t]);
                } else if t == j {
                    assert(plan@[t] == p);
                } else {
                    assert(plan@[t] == old(plan)@[t - 1]);
                }
            }
        }
        vold.insert_ensures(j as int, pv);
        assert forall|a: int, b: int| 0 <= a < b < vnew.len() implies lex_lt(
            (#[trigger] vnew[a]).0,
            (#[trigger] vnew[b]).0,
        ) by {
            if a < j && b < j {
            } else if a < j && b == j {
                assert(vnew[a] == vold[a] && vnew[b] == pv);
            } else if a < j && b > j {
                assert(vnew[a] == vold[a] && vnew[b] == vold[b - 1]);
            } else if a == j {
                assert(vnew[a] == pv && vnew[b] == vold[b - 1]);
            } else {
                assert(vnew[a] == vold[a - 1] && vnew[b] == vold[b - 1]);
            }
        }
        assert(vnew[j as int] == pv);
        assert forall|x: (Seq<char>, Seq<char>)| #[trigger] vold.contains(x) implies vnew.contains(
            x,
        ) by {
            let t = choose|t: int| 0 <= t < vold.len() && vold[t] == x;
            if t < j {
                assert(vnew[t] == x);
            } else {
                assert(vnew[t + 1] == x);
            }
        }
        assert forall|x: (Seq<char>, Seq<char>)| #[trigger] vnew.contains(x) implies vold.contains(
            x,
        ) || x == pv by {
            let t = choose|t: int| 0 <= t < vnew.len() && vnew[t] == x;
            if t < j {
                assert(vold[t] == x);
            } else if t > j {
                assert(vold[t - 1] == x);
            }
        }
    }
}

/// Computes the injection plan of an environment snapshot under a
/// configuration: its selected entries, as (name, value) pairs sorted
/// ascending by original variable name.  The snapshot's iteration order does
/// not matter: the result is the one list that `is_plan_for` admits.
pub fn compute_plan<S>(config: &InjectionConfig, data: &HashMap<String, String, S>) -> (plan: Vec<
    (String, String),
>)
    ensures
        is_plan_for(config@, data.deep_view(), pair_views(plan@)),
{
    let ghost m = data.deep_view();
    let pairs = env_pairs(data);
    let ghost e = pair_views(pairs@);
    proof {
        assert forall|i: int| 0 <= i < e.len() implies #[trigger] m.contains_key(e[i].0)
            && m[e[i].0] == e[i].1 && e[i] == (pairs@[i].0@, pairs@[i].1@) by {
            assert(e[i] == (pairs@[i].0@, pairs@[i].1@));
            assert(data.deep_view().contains_key(pairs@[i].0@));
            assert(data.deep_view()[pairs@[i].0@] == pairs@[i].1@);
        }
        assert forall|k: Seq<char>| #[trigger] m.contains_key(k) implies exists|i: int|
            0 <= i < e.len() && e[i].0 == k by {
            let w = choose|w: int| 0 <= w < pairs@.len() && pairs@[w].0@ == k;
            assert(e[w].0 == k);
        }
    }
    let mut plan: Vec<(String, String)> = Vec::new();
    let mut t: usize = 0;
    while t < pairs.len()
        invariant
            t <= pairs.len(),
            e == pair_views(pairs@),
            forall|i: int, j: int| 0 <= i < j < e.len() ==> (#[trigger] e[i]).0 != (#[trigger] e[j]).0,
            forall|i: int| 0 <= i < e.len() ==> #[trigger] m.contains_key(e[i].0) && m[e[i].0] == e[i].1,
            forall|k: Seq<char>|
                #[trigger] m.contains_key(k) ==> exists|i: int| 0 <= i < e.len() && e[i].0 == k,
            keys_sorted(pair_views(plan@)),
            forall|i: int|
                0 <= i < pair_views(plan@).len() ==> selects(
                    config@,
                    (#[trigger] pair_views(plan@)[i]).0,
                ),
            forall|i: int|
                0 <= i < pair_views(plan@).len() ==> exists|r: int|
                    0 <= r < t && e[r] == #[trigger] pair_views(plan@)[i],
            forall|r: int|
                0 <= r < t && selects(config@, (#[trigger] e[r]).0) ==> pair_views(
                    plan@,
                ).contains(e[r]),
        decreases pairs.len() - t,
    {
        let is_pub = config.selects_key(pairs[t].0.as_str());
        proof {
            assert(e[t as int] == (pairs@[t as int].0@, pairs@[t as int].1@));
        }
        if is_pub {
            let p = (pairs[t].0.clone(), pairs[t].1.clone());
            proof {
                assert(p.0@ == e[t as int].0 && p.1@ == e[t as int].1);
                assert forall|i: int| 0 <= i < pair_views(plan@).len() implies (#[trigger] pair_views(
                    plan@,
                )[i]).0 != p.0@ by {
                    let r = choose|r: int| 0 <= r < t && e[r] == pair_views(plan@)[i];
                    assert(e[r].0 != e[t as int].0);
                }
            }
            let ghost vbefore = pair_views(plan@);
            sorted_insert(&mut plan, p);
            proof {
                let vafter = pair_views(plan@);
                assert forall|i: int| 0 <= i < vafter.len() implies selects(
                    config@,
                    (#[trigger] vafter[i]).0,
                ) && (exists|r: int| 0 <= r < t + 1 && e[r] == vafter[i]) by {
                    assert(vafter.contains(vafter[i]));
                    if vafter[i] == (p.0@, p.1@) {
                        assert(e[t as int] == vafter[i]);
                    } else {
                        assert(vbefore.contains(vafter[i]));
                        let w = choose|w: int| 0 <= w < vbefore.len() && vbefore[w] == vafter[i];
                        let r = choose|r: int| 0 <= r < t && e[r] == vbefore[w];
                        assert(e[r] == vafter[i]);
                    }
                }
                assert forall|r: int|
                    0 <= r < t + 1 && selects(config@, (#[trigger] e[r]).0) implies pair_views(
                    plan@,
                ).contains(e[r]) by {
                    if r < t {
                        assert(vbefore.contains(e[r]));
                    } else {
                        assert(e[r] == (p.0@, p.1@));
                    }
                }
            }
        }
        t = t + 1;
    }
    proof {
        assert forall|k: Seq<char>|
            #[trigger] m.contains_key(k) && selects(config@, k) implies exists|i: int|
            0 <= i < pair_views(plan@).len() && pair_views(plan@)[i].0 == k by {
            let r = choose|r: int| 0 <= r < e.len() && e[r].0 == k;
            assert(pair_views(plan@).contains(e[r]));
            let i = choose|i: int|
                0 <= i < pair_views(plan@).len() && pair_views(plan@)[i] == e[r];
            assert(pair_views(plan@)[i].0 == k);
        }
        assert forall|i: int| 0 <= i < pair_views(plan@).len() implies {
            &&& selects(config@, (#[trigger] pair_views(plan@)[i]).0)
            &&& m.contains_key(pair_views(plan@)[i].0)
            &&& pair_views(plan@)[i].1 == m[pair_views(plan@)[i].0]
        } by {
            let r = choose|r: int| 0 <= r < e.len() && e[r] == pair_views(plan@)[i];
        }
    }
    plan
}

} // verus!
