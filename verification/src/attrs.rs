//! Merging attributes onto an element.
//!
//! `set_attr` writes one (name, value) pair: when the local name is already
//! present, the value of its first occurrence is overwritten in place and
//! the entry keeps its namespace; otherwise a new attribute with no
//! namespace is appended at the end.  `merge_attrs` applies a list of pairs
//! in order; only the names and values of the items matter to it.  The
//! lemmas state the merge laws: no duplicate entries are ever created, and
//! merging the same pairs twice changes nothing beyond the first merge.

use vstd::prelude::*;
use crate::dom::{attrs_view, AttrView, HtmlAttr, HtmlNode, NodeView};

verus! {

/// Whether some attribute is named `name`.
pub open spec fn has_attr(attrs: Seq<AttrView>, name: Seq<char>) -> bool {
    exists|j: int| 0 <= j < attrs.len() && attrs[j].name == name
}

/// The value of the first attribute named `name`, if any.
pub open spec fn attr_value(attrs: Seq<AttrView>, name: Seq<char>) -> Option<Seq<char>>
    decreases attrs.len(),
{
    if attrs.len() == 0 {
        None
    } else if attrs[0].name == name {
        Some(attrs[0].value)
    } else {
        attr_value(attrs.drop_first(), name)
    }
}

/// No two attributes share a name.
pub open spec fn distinct_names(attrs: Seq<AttrView>) -> bool {
    forall|i: int, j: int|
        0 <= i < j < attrs.len() ==> (#[trigger] attrs[i].name) != (#[trigger] attrs[j].name)
}

/// A newly appended attribute: no namespace, as the parser leaves the
/// attributes of plain HTML markup.
pub open spec fn fresh_attr(name: Seq<char>, value: Seq<char>) -> AttrView {
    AttrView { ns: Seq::empty(), name, value }
}

/// Writes one pair: overwrites the value of the first attribute named `name`
/// in place, keeping that entry's namespace, or appends a new attribute at
/// the end.
pub open spec fn set_attr(attrs: Seq<AttrView>, name: Seq<char>, value: Seq<char>) -> Seq<AttrView>
    decreases attrs.len(),
{
    if attrs.len() == 0 {
        seq![fresh_attr(name, value)]
    } else if attrs[0].name == name {
        seq![AttrView { value, ..attrs[0] }] + attrs.drop_first()
    } else {
        seq![attrs[0]] + set_attr(attrs.drop_first(), name, value)
    }
}

/// Applies the pairs of `items` in order.
pub open spec fn merge_attrs(attrs: Seq<AttrView>, items: Seq<AttrView>) -> Seq<AttrView>
    decreases items.len(),
{
    if items.len() == 0 {
        attrs
    } else {
        merge_attrs(set_attr(attrs, items[0].name, items[0].value), items.drop_first())
    }
}

/// The index of the first attribute named `name`.
proof fn first_occurrence(attrs: Seq<AttrView>, name: Seq<char>) -> (j: int)
    requires
        has_attr(attrs, name),
    ensures
        0 <= j < attrs.len(),
        attrs[j].name == name,
        forall|k: int| 0 <= k < j ==> attrs[k].name != name,
    decreases attrs.len(),
{
    if attrs[0].name == name {
        0
    } else {
        assert(has_attr(attrs.drop_first(), name)) by {
            let w = choose|w: int| 0 <= w < attrs.len() && attrs[w].name == name;
            assert(attrs.drop_first()[w - 1].name == name);
        }
        let r = first_occurrence(attrs.drop_first(), name);
        assert forall|k: int| 0 <= k < r + 1 implies attrs[k].name != name by {
            if k > 0 {
                assert(attrs.drop_first()[k - 1].name != name);
            }
        }
        r + 1
    }
}

/// When `name` first occurs at `j`, `set_attr` is a value update at `j`.
proof fn lemma_set_attr_update(attrs: Seq<AttrView>, j: int, name: Seq<char>, value: Seq<char>)
    requires
        0 <= j < attrs.len(),
        attrs[j].name == name,
        forall|k: int| 0 <= k < j ==> attrs[k].name != name,
    ensures
        set_attr(attrs, name, value) == attrs.update(j, AttrView { value, ..attrs[j] }),
    decreases j,
{
    if j == 0 {
        assert(set_attr(attrs, name, value) =~= attrs.update(0, AttrView { value, ..attrs[0] }));
    } else {
        assert(attrs.drop_first()[j - 1].name == name);
        lemma_set_attr_update(attrs.drop_first(), j - 1, name, value);
        assert(set_attr(attrs, name, value) =~= attrs.update(j, AttrView { value, ..attrs[j] }));
    }
}

/// When `name` is absent, `set_attr` appends.
proof fn lemma_set_attr_push(attrs: Seq<AttrView>, name: Seq<char>, value: Seq<char>)
    requires
        !has_attr(attrs, name),
    ensures
        set_attr(attrs, name, value) == attrs.push(fresh_attr(name, value)),
    decreases attrs.len(),
{
    if attrs.len() == 0 {
        assert(set_attr(attrs, name, value) =~= attrs.push(fresh_attr(name, value)));
    } else {
        assert(attrs[0].name != name);
        assert(!has_attr(attrs.drop_first(), name)) by {
            if has_attr(attrs.drop_first(), name) {
                let w = choose|w: int|
                    0 <= w < attrs.drop_first().len() && attrs.drop_first()[w].name == name;
                assert(attrs[w + 1].name == name);
            }
        }
        lemma_set_attr_push(attrs.drop_first(), name, value);
        assert(set_attr(attrs, name, value) =~= attrs.push(fresh_attr(name, value)));
    }
}

/// How `set_attr` reads back: the written name now carries the written value,
/// and every other name keeps the value it had.
pub proof fn lemma_set_attr_value(attrs: Seq<AttrView>, name: Seq<char>, value: Seq<char>)
    ensures
        attr_value(set_attr(attrs, name, value), name) == Some(value),
        forall|m: Seq<char>|
            m != name ==> #[trigger] attr_value(set_attr(attrs, name, value), m) == attr_value(
                attrs,
                m,
            ),
    decreases attrs.len(),
{
    if attrs.len() == 0 {
        let s = set_attr(attrs, name, value);
        assert forall|m: Seq<char>| m != name implies #[trigger] attr_value(s, m) == attr_value(
            attrs,
            m,
        ) by {
            assert(attr_value(s.drop_first(), m) is None);
        }
    } else if attrs[0].name == name {
        assert forall|m: Seq<char>| m != name implies #[trigger] attr_value(
            set_attr(attrs, name, value),
            m,
        ) == attr_value(attrs, m) by {
            assert(set_attr(attrs, name, value).drop_first() =~= attrs.drop_first());
        }
    } else {
        lemma_set_attr_value(attrs.drop_first(), name, value);
        let s = set_attr(attrs, name, value);
        assert(s[0] == attrs[0]);
        assert(s.drop_first() =~= set_attr(attrs.drop_first(), name, value));
        assert forall|m: Seq<char>| m != name implies #[trigger] attr_value(s, m) == attr_value(
            attrs,
            m,
        ) by {
            if attrs[0].name != m {
                assert(attr_value(s, m) == attr_value(s.drop_first(), m));
                assert(attr_value(attrs, m) == attr_value(attrs.drop_first(), m));
            }
        }
    }
}

/// `set_attr` keeps attribute names free of duplicates, and grows the list
/// only when the name was absent.
pub proof fn lemma_set_attr_names(attrs: Seq<AttrView>, name: Seq<char>, value: Seq<char>)
    requires
        distinct_names(attrs),
    ensures
        distinct_names(set_attr(attrs, name, value)),
        has_attr(attrs, name) ==> set_attr(attrs, name, value).len() == attrs.len(),
        !has_attr(attrs, name) ==> set_attr(attrs, name, value) == attrs.push(
            fresh_attr(name, value),
        ),
        forall|i: int|
            0 <= i < attrs.len() ==> (#[trigger] set_attr(attrs, name, value)[i].name)
                == attrs[i].name,
{
    let s = set_attr(attrs, name, value);
    if has_attr(attrs, name) {
        let j = first_occurrence(attrs, name);
        lemma_set_attr_update(attrs, j, name, value);
        assert forall|i: int| 0 <= i < attrs.len() implies (#[trigger] s[i].name)
            == attrs[i].name by {
            assert(s == attrs.update(j, AttrView { value, ..attrs[j] }));
        }
        assert forall|i: int, k: int| 0 <= i < k < s.len() implies (#[trigger] s[i].name)
            != (#[trigger] s[k].name) by {
            assert(attrs[i].name != attrs[k].name);
        }
    } else {
        lemma_set_attr_push(attrs, name, value);
        assert forall|i: int, k: int| 0 <= i < k < s.len() implies (#[trigger] s[i].name)
            != (#[trigger] s[k].name) by {
            if k < attrs.len() {
                assert(attrs[i].name != attrs[k].name);
            } else {
                assert(s[k].name == name);
                assert(attrs[i].name != name);
            }
        }
    }
}

/// Merging one more pair is one more `set_attr`.
proof fn lemma_merge_snoc(attrs: Seq<AttrView>, items: Seq<AttrView>, x: AttrView)
    ensures
        merge_attrs(attrs, items.push(x)) == set_attr(merge_attrs(attrs, items), x.name, x.value),
    decreases items.len(),
{
    let p = items.push(x);
    assert(p.len() > 0);
    assert(merge_attrs(attrs, p) == merge_attrs(set_attr(attrs, p[0].name, p[0].value), p.drop_first()));
    if items.len() == 0 {
        assert(p[0] == x);
        assert(p.drop_first() =~= Seq::<AttrView>::empty());
        assert(merge_attrs(set_attr(attrs, x.name, x.value), p.drop_first()) == set_attr(attrs, x.name, x.value));
    } else {
        assert(p[0] == items[0]);
        assert(p.drop_first() =~= items.drop_first().push(x));
        lemma_merge_snoc(set_attr(attrs, items[0].name, items[0].value), items.drop_first(), x);
    }
}

/// Whether some pair of `items` is named `m`.
pub open spec fn has_item_name(items: Seq<AttrView>, m: Seq<char>) -> bool {
    exists|i: int| 0 <= i < items.len() && items[i].name == m
}

/// What a merge leaves behind: every merged name carries its merged value,
/// and every other name keeps the value it had.
pub proof fn lemma_merge_values(attrs: Seq<AttrView>, items: Seq<AttrView>)
    requires
        distinct_names(items),
    ensures
        forall|i: int|
            0 <= i < items.len() ==> attr_value(
                merge_attrs(attrs, items),
                (#[trigger] items[i]).name,
            ) == Some(items[i].value),
        forall|m: Seq<char>|
            !has_item_name(items, m) ==> #[trigger] attr_value(merge_attrs(attrs, items), m)
                == attr_value(attrs, m),
    decreases items.len(),
{
    if items.len() > 0 {
        let rest = items.drop_first();
        let b = set_attr(attrs, items[0].name, items[0].value);
        assert(forall|i: int| 0 <= i < rest.len() ==> #[trigger] rest[i] == items[i + 1]);
        assert(distinct_names(rest)) by {
            assert forall|i: int, j: int| 0 <= i < j < rest.len() implies (#[trigger] rest[i].name)
                != (#[trigger] rest[j].name) by {
                assert(items[i + 1].name != items[j + 1].name);
            }
        }
        lemma_merge_values(b, rest);
        lemma_set_attr_value(attrs, items[0].name, items[0].value);
        assert(!has_item_name(rest, items[0].name)) by {
            if has_item_name(rest, items[0].name) {
                let w = choose|w: int| 0 <= w < rest.len() && rest[w].name == items[0].name;
                assert(items[w + 1].name == items[0].name);
            }
        }
        assert forall|i: int| 0 <= i < items.len() implies attr_value(
            merge_attrs(attrs, items),
            (#[trigger] items[i]).name,
        ) == Some(items[i].value) by {
            if i == 0 {
                assert(attr_value(merge_attrs(b, rest), items[0].name) == attr_value(
                    b,
                    items[0].name,
                ));
            } else {
                assert(rest[i - 1] == items[i]);
            }
        }
        assert forall|m: Seq<char>| !has_item_name(items, m) implies #[trigger] attr_value(
            merge_attrs(attrs, items),
            m,
        ) == attr_value(attrs, m) by {
            assert(!has_item_name(rest, m)) by {
                if has_item_name(rest, m) {
                    let w = choose|w: int| 0 <= w < rest.len() && rest[w].name == m;
                    assert(items[w + 1].name == m);
                }
            }
            assert(m != items[0].name);
        }
    }
}

/// An element whose attribute names are distinct keeps them distinct through
/// a merge: injection overwrites, it never duplicates an attribute.
pub proof fn lemma_merge_distinct(attrs: Seq<AttrView>, items: Seq<AttrView>)
    requires
        distinct_names(attrs),
    ensures
        distinct_names(merge_attrs(attrs, items)),
    decreases items.len(),
{
    if items.len() > 0 {
        lemma_set_attr_names(attrs, items[0].name, items[0].value);
        lemma_merge_distinct(set_attr(attrs, items[0].name, items[0].value), items.drop_first());
    }
}

/// `set_attr` never drops an entry, and each position that existed keeps its
/// name.
proof fn lemma_set_attr_keeps_names(attrs: Seq<AttrView>, name: Seq<char>, value: Seq<char>)
    ensures
        attrs.len() <= set_attr(attrs, name, value).len(),
        forall|j: int|
            0 <= j < attrs.len() ==> (#[trigger] set_attr(attrs, name, value)[j].name)
                == attrs[j].name,
    decreases attrs.len(),
{
    if attrs.len() == 0 {
    } else if attrs[0].name == name {
    } else {
        lemma_set_attr_keeps_names(attrs.drop_first(), name, value);
        let s = set_attr(attrs, name, value);
        assert forall|j: int| 0 <= j < attrs.len() implies (#[trigger] s[j].name)
            == attrs[j].name by {
            if j > 0 {
                assert(s[j] == set_attr(attrs.drop_first(), name, value)[j - 1]);
                assert(attrs.drop_first()[j - 1] == attrs[j]);
            }
        }
    }
}

/// A merge never drops an entry, and each position that existed keeps its
/// name.
proof fn lemma_merge_keeps_names(attrs: Seq<AttrView>, items: Seq<AttrView>)
    ensures
        attrs.len() <= merge_attrs(attrs, items).len(),
        forall|j: int|
            0 <= j < attrs.len() ==> (#[trigger] merge_attrs(attrs, items)[j].name)
                == attrs[j].name,
    decreases items.len(),
{
    if items.len() > 0 {
        lemma_set_attr_keeps_names(attrs, items[0].name, items[0].value);
        lemma_merge_keeps_names(set_attr(attrs, items[0].name, items[0].value), items.drop_first());
    }
}

/// The value at the first occurrence of a name is what `attr_value` reads.
proof fn lemma_first_occ_value(attrs: Seq<AttrView>, j: int)
    requires
        0 <= j < attrs.len(),
        forall|k: int| 0 <= k < j ==> attrs[k].name != attrs[j].name,
    ensures
        attr_value(attrs, attrs[j].name) == Some(attrs[j].value),
    decreases j,
{
    if j > 0 {
        assert(forall|k: int|
            0 <= k < j - 1 ==> #[trigger] attrs.drop_first()[k].name == attrs[k + 1].name);
        lemma_first_occ_value(attrs.drop_first(), j - 1);
    }
}

/// A name no item carries keeps its first-occurrence entry through a merge.
proof fn lemma_merge_untouched(attrs: Seq<AttrView>, items: Seq<AttrView>, j: int)
    requires
        0 <= j < attrs.len(),
        forall|k: int| 0 <= k < j ==> attrs[k].name != attrs[j].name,
        !has_item_name(items, attrs[j].name),
    ensures
        merge_attrs(attrs, items)[j] == attrs[j],
    decreases items.len(),
{
    if items.len() > 0 {
        let n = attrs[j].name;
        let y = items[0];
        let b = set_attr(attrs, y.name, y.value);
        assert(y.name != n);
        lemma_set_attr_keeps_names(attrs, y.name, y.value);
        if has_attr(attrs, y.name) {
            let w = first_occurrence(attrs, y.name);
            lemma_set_attr_update(attrs, w, y.name, y.value);
            assert(w != j);
            assert(b[j] == attrs[j]);
        } else {
            lemma_set_attr_push(attrs, y.name, y.value);
            assert(b[j] == attrs[j]);
        }
        assert(!has_item_name(items.drop_first(), n)) by {
            if has_item_name(items.drop_first(), n) {
                let w = choose|w: int|
                    0 <= w < items.drop_first().len() && items.drop_first()[w].name == n;
                assert(items[w + 1].name == n);
            }
        }
        lemma_merge_untouched(b, items.drop_first(), j);
    }
}

/// Rewriting the value at the first occurrence of a name that some item sets
/// anyway does not change what the merge produces.
proof fn lemma_merge_absorbs(c: Seq<AttrView>, j: int, w: Seq<char>, items: Seq<AttrView>)
    requires
        0 <= j < c.len(),
        forall|k: int| 0 <= k < j ==> c[k].name != c[j].name,
        has_item_name(items, c[j].name),
    ensures
        merge_attrs(c.update(j, AttrView { value: w, ..c[j] }), items) == merge_attrs(c, items),
    decreases items.len(),
{
    let n = c[j].name;
    let d = c.update(j, AttrView { value: w, ..c[j] });
    let y = items[0];
    assert(forall|k: int| 0 <= k < c.len() ==> (#[trigger] d[k].name) == c[k].name);
    if y.name == n {
        lemma_set_attr_update(c, j, n, y.value);
        lemma_set_attr_update(d, j, n, y.value);
        assert(d.update(j, AttrView { value: y.value, ..d[j] }) =~= c.update(
            j,
            AttrView { value: y.value, ..c[j] },
        ));
    } else {
        assert(has_item_name(items.drop_first(), n)) by {
            let v = choose|v: int| 0 <= v < items.len() && items[v].name == n;
            assert(items.drop_first()[v - 1].name == n);
        }
        if has_attr(c, y.name) {
            let p = first_occurrence(c, y.name);
            assert(p != j);
            lemma_set_attr_update(c, p, y.name, y.value);
            assert(forall|k: int| 0 <= k < p ==> d[k].name != y.name);
            assert(d[p].name == y.name);
            lemma_set_attr_update(d, p, y.name, y.value);
            let c2 = c.update(p, AttrView { value: y.value, ..c[p] });
            assert(d[p] == c[p]);
            assert(set_attr(d, y.name, y.value) =~= c2.update(j, AttrView { value: w, ..c2[j] }));
            assert(forall|k: int| 0 <= k < j ==> (#[trigger] c2[k].name) != c2[j].name);
            assert(c2[j] == c[j]);
            lemma_merge_absorbs(c2, j, w, items.drop_first());
        } else {
            assert(!has_attr(d, y.name)) by {
                if has_attr(d, y.name) {
                    let v = choose|v: int| 0 <= v < d.len() && d[v].name == y.name;
                    assert(c[v].name == y.name);
                }
            }
            lemma_set_attr_push(c, y.name, y.value);
            lemma_set_attr_push(d, y.name, y.value);
            let c2 = c.push(fresh_attr(y.name, y.value));
            assert(set_attr(d, y.name, y.value) =~= c2.update(j, AttrView { value: w, ..c2[j] }));
            assert(forall|k: int| 0 <= k < j ==> (#[trigger] c2[k].name) != c2[j].name);
            assert(c2[j] == c[j]);
            lemma_merge_absorbs(c2, j, w, items.drop_first());
        }
    }
}

/// Merging the same pairs a second time changes nothing: injection is
/// idempotent on the attribute list, whatever pairs the plan holds.
pub proof fn lemma_merge_idempotent(attrs: Seq<AttrView>, items: Seq<AttrView>)
    ensures
        merge_attrs(merge_attrs(attrs, items), items) == merge_attrs(attrs, items),
    decreases items.len(),
{
    if items.len() > 0 {
        let x = items[0];
        let n = x.name;
        let a2 = set_attr(attrs, n, x.value);
        let b = merge_attrs(a2, items.drop_first());
        lemma_merge_idempotent(a2, items.drop_first());
        lemma_set_attr_value(attrs, n, x.value);
        assert(has_attr(a2, n)) by {
            lemma_attr_value_some_has(a2, n);
        }
        let j0 = first_occurrence(a2, n);
        lemma_first_occ_value(a2, j0);
        assert(a2[j0].name == n && a2[j0].value == x.value);
        lemma_merge_keeps_names(a2, items.drop_first());
        assert(forall|k: int| 0 <= k < j0 ==> (#[trigger] b[k].name) != n);
        assert(b[j0].name == n);
        lemma_set_attr_update(b, j0, n, x.value);
        if has_item_name(items.drop_first(), n) {
            lemma_merge_absorbs(b, j0, x.value, items.drop_first());
            assert(merge_attrs(set_attr(b, n, x.value), items.drop_first()) == merge_attrs(
                b,
                items.drop_first(),
            ));
        } else {
            lemma_merge_untouched(a2, items.drop_first(), j0);
            assert(b[j0] == a2[j0]);
            assert(AttrView { value: x.value, ..b[j0 as int] } == b[j0 as int]);
            assert(set_attr(b, n, x.value) =~= b);
        }
        assert(merge_attrs(b, items) == merge_attrs(set_attr(b, n, x.value), items.drop_first()));
    }
}

/// The pairs of `items` whose names are absent from `attrs`, in item order,
/// as the new attributes they become.
pub open spec fn fresh_items(attrs: Seq<AttrView>, items: Seq<AttrView>) -> Seq<AttrView>
    decreases items.len(),
{
    if items.len() == 0 {
        Seq::empty()
    } else if has_attr(attrs, items[0].name) {
        fresh_items(attrs, items.drop_first())
    } else {
        seq![fresh_attr(items[0].name, items[0].value)] + fresh_items(attrs, items.drop_first())
    }
}

/// Lists with the same names in the same places agree on `has_attr`.
proof fn lemma_has_attr_same_names(a: Seq<AttrView>, b: Seq<AttrView>, name: Seq<char>)
    requires
        a.len() == b.len(),
        forall|k: int| 0 <= k < a.len() ==> (#[trigger] a[k].name) == b[k].name,
    ensures
        has_attr(a, name) == has_attr(b, name),
{
    if has_attr(a, name) {
        let w = choose|w: int| 0 <= w < a.len() && a[w].name == name;
        assert(b[w].name == name);
    }
    if has_attr(b, name) {
        let w = choose|w: int| 0 <= w < b.len() && b[w].name == name;
        assert(a[w].name == name);
    }
}

/// Lists with the same names in the same places agree on `fresh_items`.
proof fn lemma_fresh_items_same_names(a: Seq<AttrView>, b: Seq<AttrView>, items: Seq<AttrView>)
    requires
        a.len() == b.len(),
        forall|k: int| 0 <= k < a.len() ==> (#[trigger] a[k].name) == b[k].name,
    ensures
        fresh_items(a, items) == fresh_items(b, items),
    decreases items.len(),
{
    if items.len() > 0 {
        lemma_has_attr_same_names(a, b, items[0].name);
        lemma_fresh_items_same_names(a, b, items.drop_first());
    }
}

/// Appending an attribute whose name no item carries does not change which
/// items are fresh.
proof fn lemma_fresh_items_push(a: Seq<AttrView>, y: AttrView, items: Seq<AttrView>)
    requires
        forall|k: int| 0 <= k < items.len() ==> (#[trigger] items[k].name) != y.name,
    ensures
        fresh_items(a.push(y), items) == fresh_items(a, items),
    decreases items.len(),
{
    if items.len() > 0 {
        let p = a.push(y);
        assert(has_attr(p, items[0].name) == has_attr(a, items[0].name)) by {
            if has_attr(p, items[0].name) {
                let w = choose|w: int| 0 <= w < p.len() && p[w].name == items[0].name;
                assert(w < a.len());
                assert(a[w].name == items[0].name);
            }
            if has_attr(a, items[0].name) {
                let w = choose|w: int| 0 <= w < a.len() && a[w].name == items[0].name;
                assert(p[w].name == items[0].name);
            }
        }
        assert(forall|k: int|
            0 <= k < items.drop_first().len() ==> (#[trigger] items.drop_first()[k].name)
                == items[k + 1].name);
        lemma_fresh_items_push(a, y, items.drop_first());
    }
}

/// How a merge lays its result out: the entries that existed stay in place
/// under their names, and the pairs whose names were absent are appended
/// after them as new attributes, in item order.  With a sorted plan this is
/// the appended-in-ascending-key-order guarantee.
pub proof fn lemma_merge_layout(attrs: Seq<AttrView>, items: Seq<AttrView>)
    requires
        distinct_names(items),
    ensures
        merge_attrs(attrs, items).len() == attrs.len() + fresh_items(attrs, items).len(),
        merge_attrs(attrs, items).skip(attrs.len() as int) == fresh_items(attrs, items),
        forall|j: int|
            0 <= j < attrs.len() ==> (#[trigger] merge_attrs(attrs, items)[j].name)
                == attrs[j].name,
    decreases items.len(),
{
    lemma_merge_keeps_names(attrs, items);
    if items.len() == 0 {
        assert(merge_attrs(attrs, items).skip(attrs.len() as int) =~= fresh_items(attrs, items));
    } else {
        let x = items[0];
        let n = x.name;
        let rest = items.drop_first();
        let b = set_attr(attrs, n, x.value);
        assert(forall|k: int| 0 <= k < rest.len() ==> #[trigger] rest[k] == items[k + 1]);
        assert(distinct_names(rest)) by {
            assert forall|i: int, j: int| 0 <= i < j < rest.len() implies (#[trigger] rest[i].name)
                != (#[trigger] rest[j].name) by {
                assert(items[i + 1].name != items[j + 1].name);
            }
        }
        lemma_merge_layout(b, rest);
        if has_attr(attrs, n) {
            let j = first_occurrence(attrs, n);
            lemma_set_attr_update(attrs, j, n, x.value);
            assert(b.len() == attrs.len());
            assert(forall|k: int| 0 <= k < attrs.len() ==> (#[trigger] b[k].name) == attrs[k].name);
            lemma_fresh_items_same_names(b, attrs, rest);
        } else {
            lemma_set_attr_push(attrs, n, x.value);
            assert(forall|k: int| 0 <= k < rest.len() ==> (#[trigger] rest[k].name) != n);
            lemma_fresh_items_push(attrs, fresh_attr(n, x.value), rest);
            assert(fresh_items(b, rest) == fresh_items(attrs, rest));
            assert(forall|k: int| 0 <= k < attrs.len() ==> (#[trigger] b[k].name) != n);
            assert(b[attrs.len() as int] == fresh_attr(n, x.value));
            assert(!has_item_name(rest, n)) by {
                if has_item_name(rest, n) {
                    let w = choose|w: int| 0 <= w < rest.len() && rest[w].name == n;
                    assert(items[w + 1].name == n);
                }
            }
            lemma_merge_untouched(b, rest, attrs.len() as int);
            let merged = merge_attrs(attrs, items);
            assert(merged == merge_attrs(b, rest));
            assert(merged[attrs.len() as int] == fresh_attr(n, x.value));
            assert(merged.skip(attrs.len() as int) =~= seq![fresh_attr(n, x.value)]
                + merged.skip(attrs.len() as int + 1)) by {
                assert(attrs.len() < merged.len());
            }
            assert(merged.skip(b.len() as int) == fresh_items(b, rest));
            assert(merged.skip(attrs.len() as int + 1) == fresh_items(attrs, rest));
        }
    }
}

/// A name whose value can be read occurs in the list.
proof fn lemma_attr_value_some_has(attrs: Seq<AttrView>, name: Seq<char>)
    requires
        attr_value(attrs, name) is Some,
    ensures
        has_attr(attrs, name),
    decreases attrs.len(),
{
    if attrs.len() > 0 && attrs[0].name != name {
        lemma_attr_value_some_has(attrs.drop_first(), name);
        let w = choose|w: int|
            0 <= w < attrs.drop_first().len() && attrs.drop_first()[w].name == name;
        assert(attrs[w + 1].name == name);
    }
}

/// Writes one attribute: overwrites the first entry with this name in place,
/// or appends a new entry at the end of the list.
pub fn set_attr_exec(attrs: &mut Vec<HtmlAttr>, name: String, value: String)
    ensures
        attrs_view(final(attrs)@) == set_attr(attrs_view(old(attrs)@), name@, value@),
{
    let ghost a0 = attrs_view(attrs@);
    let mut j: usize = 0;
    loop
        invariant
            j <= attrs.len(),
            a0 == attrs_view(attrs@),
            a0 == attrs_view(old(attrs)@),
            forall|k: int| 0 <= k < j ==> a0[k].name != name@,
        decreases attrs.len() - j,
    {
        if j == attrs.len() {
            proof {
                assert(!has_attr(a0, name@));
                lemma_set_attr_push(a0, name@, value@);
            }
            attrs.push(HtmlAttr { ns: String::new(), name, value });
            proof {
                assert(attrs_view(attrs@) =~= a0.push(fresh_attr(name@, value@)));
            }
            return ;
        }
        if attrs[j].name == name {
            proof {
                assert(a0[j as int].name == name@);
                lemma_set_attr_update(a0, j as int, name@, value@);
            }
            let ns = attrs[j].ns.clone();
            attrs[j] = HtmlAttr { ns, name, value };
            proof {
                assert(attrs_view(attrs@) =~= a0.update(
                    j as int,
                    AttrView { value: value@, ..a0[j as int] },
                ));
            }
            return ;
        }
        j = j + 1;
    }
}

/// Applies each pair of `items` in order, overwriting or appending.
pub fn merge_attrs_exec(attrs: &mut Vec<HtmlAttr>, items: &Vec<HtmlAttr>)
    ensures
        attrs_view(final(attrs)@) == merge_attrs(attrs_view(old(attrs)@), attrs_view(items@)),
{
    let ghost a0 = attrs_view(old(attrs)@);
    let ghost iv = attrs_view(items@);
    let mut i: usize = 0;
    proof {
        assert(iv.take(0) =~= Seq::<AttrView>::empty());
    }
    while i < items.len()
        invariant
            i <= items.len(),
            iv == attrs_view(items@),
            a0 == attrs_view(old(attrs)@),
            attrs_view(attrs@) == merge_attrs(a0, iv.take(i as int)),
        decreases items.len() - i,
    {
        let name = items[i].name.clone();
        let value = items[i].value.clone();
        set_attr_exec(attrs, name, value);
        proof {
            lemma_merge_snoc(a0, iv.take(i as int), iv[i as int]);
            assert(iv.take(i as int).push(iv[i as int]) =~= iv.take(i + 1));
        }
        i = i + 1;
    }
    proof {
        assert(iv.take(items@.len() as int) =~= iv);
    }
}

/// Merges the pairs of `items` onto a node's attribute list; nothing else of
/// the node changes.
pub fn merge_node_attrs(node: &mut HtmlNode, items: &Vec<HtmlAttr>)
    ensures
        final(node)@ == (NodeView {
            attrs: merge_attrs(old(node)@.attrs, attrs_view(items@)),
            ..old(node)@
        }),
{
    merge_attrs_exec(&mut node.attrs, items);
}

} // verus!
