//! Injects "public" environment variables into HTML documents as `data-*`
//! attributes on the body element.
//!
//! Given a snapshot of environment variables and the bytes of an HTML
//! document, the library parses the document, finds its body element, writes
//! one `data-<lowercased key>="<value>"` attribute for every variable whose
//! name starts with `PUBLIC_` or `public_` (in ascending byte order of the
//! original names), and renders the document back to text.  When no public
//! variable is present the document is reported unchanged, so a caller that
//! only rewrites changed documents leaves the file untouched.

use vstd::prelude::*;
use std::collections::HashMap;

pub mod attrs;
pub mod dom;
pub mod env;
pub mod errors;
pub mod locate;
pub mod markup;
pub mod metadata;
pub mod text;

use crate::attrs::{merge_attrs, merge_node_attrs};
use crate::dom::{attrs_view, kind_name, kind_name_exec, no_nested_document, node_wf, AttrView,
    HtmlAttr, HtmlDoc, NodeKind, NodeView};
use crate::env::{
    compute_plan, has_public_entry, has_selected_entry, is_plan_for, lemma_plan_empty,
    lemma_plan_for_unique, pair_views, plan_attrs, plan_of, standard_config, ConfigView,
    InjectionConfig,
};
use crate::locate::{find_body, first_body_from};
use crate::markup::{dom_of, parse_html, render_doc, render_of};
use crate::env::config_attr_name;
use crate::text::{decode_utf8, utf8_err_text};
use vstd::string::StringExecFns;

pub use crate::errors::Error;
pub use crate::metadata::{changed_metadata_fields, WebServerLayerMetadata};
pub use crate::text::format_html_data_attr_name;

verus! {

/// Whether a document file was rewritten on disk.
#[derive(Debug)]
pub enum HtmlRewritten {
    Yes,
    No,
}

/// Whether injection changed the parsed document; `Yes` carries the
/// rendered text.
#[derive(Debug)]
pub enum HtmlChanged {
    Yes(String),
    No,
}

/// Whether attributes were written onto the located element.
#[derive(Debug)]
pub enum DataInjected {
    Yes,
    No,
}

/// The tree after injection: the attributes of node `i` merged with the
/// plan's attributes under configuration `c`, everything else unchanged.
pub open spec fn injected_doc(
    d: Seq<NodeView>,
    i: int,
    c: ConfigView,
    m: Map<Seq<char>, Seq<char>>,
) -> Seq<NodeView> {
    d.update(
        i,
        NodeView { attrs: merge_attrs(d[i].attrs, plan_attrs(c, plan_of(c, m))), ..d[i] },
    )
}

/// Injection overwrites, it never duplicates: an element whose attribute
/// names are distinct keeps them distinct through an injection, whatever the
/// environment holds.
pub proof fn lemma_injection_no_duplicates(
    d: Seq<NodeView>,
    i: int,
    c: ConfigView,
    m: Map<Seq<char>, Seq<char>>,
)
    requires
        0 <= i < d.len(),
        crate::attrs::distinct_names(d[i].attrs),
    ensures
        crate::attrs::distinct_names(injected_doc(d, i, c, m)[i].attrs),
{
    crate::attrs::lemma_merge_distinct(d[i].attrs, plan_attrs(c, plan_of(c, m)));
}

/// How injection lays the element's attributes out: the attributes that were
/// present stay in place under their names, and the plan entries whose
/// attribute names were absent are appended after them, in plan order — that
/// is, ascending by original variable name.  The statement asks that no two
/// plan entries collide on one attribute name (two variable names that
/// differ only in case would, after lowercasing).
pub proof fn lemma_injection_appends_in_plan_order(
    d: Seq<NodeView>,
    i: int,
    c: ConfigView,
    m: Map<Seq<char>, Seq<char>>,
)
    requires
        0 <= i < d.len(),
        crate::attrs::distinct_names(plan_attrs(c, plan_of(c, m))),
    ensures
        ({
            let before = d[i].attrs;
            let after = injected_doc(d, i, c, m)[i].attrs;
            let appended = crate::attrs::fresh_items(before, plan_attrs(c, plan_of(c, m)));
            &&& after.len() == before.len() + appended.len()
            &&& after.skip(before.len() as int) == appended
            &&& forall|j: int|
                0 <= j < before.len() ==> (#[trigger] after[j].name) == before[j].name
        }),
{
    crate::attrs::lemma_merge_layout(d[i].attrs, plan_attrs(c, plan_of(c, m)));
}

/// Injecting the same environment into a tree a second time changes nothing
/// beyond the first injection: on an unchanged environment snapshot the
/// operation is idempotent at the tree level.
pub proof fn lemma_injection_stable(
    d: Seq<NodeView>,
    i: int,
    c: ConfigView,
    m: Map<Seq<char>, Seq<char>>,
)
    requires
        0 <= i < d.len(),
    ensures
        injected_doc(injected_doc(d, i, c, m), i, c, m) == injected_doc(d, i, c, m),
{
    let items = plan_attrs(c, plan_of(c, m));
    let once = injected_doc(d, i, c, m);
    crate::attrs::lemma_merge_idempotent(d[i].attrs, items);
    assert(once[i].attrs == merge_attrs(d[i].attrs, items));
    assert(injected_doc(once, i, c, m) =~= once);
}

/// Writes the injection plan of `data` onto node `elem`, under the given
/// configuration: one attribute per selected variable, in ascending order of
/// the original names, overwriting an attribute that already carries the
/// name in place and appending the others at the end.  Reports `No`, and
/// changes nothing, when the environment has no selected variable; reports
/// `ElementExpected` when node `elem` is not an element.
pub fn inject_html_data_attrs<S: std::hash::BuildHasher>(
    config: &InjectionConfig,
    data: &HashMap<String, String, S>,
    doc: &mut HtmlDoc,
    elem: usize,
) -> (r: Result<DataInjected, Error>)
    requires
        elem < old(doc)@.len(),
    ensures
        ({
            let m = data.deep_view();
            let d = old(doc)@;
            match r {
                Err(e) => e matches Error::ElementExpected(g) && g@ == kind_name(
                    d[elem as int].kind,
                ) && d[elem as int].kind != NodeKind::Element && *final(doc) == *old(doc),
                Ok(DataInjected::No) => d[elem as int].kind == NodeKind::Element
                    && !has_selected_entry(config@, m) && *final(doc) == *old(doc),
                Ok(DataInjected::Yes) => {
                    &&& d[elem as int].kind == NodeKind::Element
                    &&& has_selected_entry(config@, m)
                    &&& is_plan_for(config@, m, plan_of(config@, m))
                    &&& final(doc)@ == injected_doc(d, elem as int, config@, m)
                },
            }
        }),
        old(doc).wf() ==> final(doc).wf(),
{
    let kind = doc.nodes[elem].kind;
    let is_elem = match kind {
        NodeKind::Element => true,
        _ => false,
    };
    if !is_elem {
        return Err(Error::ElementExpected(kind_name_exec(kind)));
    }
    let ghost m = data.deep_view();
    let plan = compute_plan(config, data);
    proof {
        assert(is_plan_for(config@, m, pair_views(plan@)));
        assert(is_plan_for(config@, m, plan_of(config@, m)));
        lemma_plan_for_unique(config@, m, plan_of(config@, m), pair_views(plan@));
        lemma_plan_empty(config@, m, pair_views(plan@));
    }
    if plan.len() == 0 {
        return Ok(DataInjected::No);
    }
    let ghost pv = pair_views(plan@);
    let mut items: Vec<HtmlAttr> = Vec::new();
    let mut t: usize = 0;
    proof {
        assert(attrs_view(items@) =~= plan_attrs(config@, pv).take(0));
    }
    while t < plan.len()
        invariant
            t <= plan.len(),
            pv == pair_views(plan@),
            attrs_view(items@) == plan_attrs(config@, pv).take(t as int),
        decreases plan.len() - t,
    {
        let name = config.attr_name(plan[t].0.as_str());
        let value = plan[t].1.clone();
        let a = HtmlAttr { ns: String::new(), name, value };
        let ghost av = a@;
        let ghost prev = attrs_view(items@);
        items.push(a);
        proof {
            assert(pv[t as int] == (plan@[t as int].0@, plan@[t as int].1@));
            assert(plan_attrs(config@, pv)[t as int] == crate::attrs::fresh_attr(
                config_attr_name(config@, pv[t as int].0),
                pv[t as int].1,
            ));
            assert(av == plan_attrs(config@, pv)[t as int]);
            assert(attrs_view(items@) =~= prev.push(av));
            assert(prev.push(av) =~= plan_attrs(config@, pv).take(t + 1));
        }
        t = t + 1;
    }
    proof {
        assert(plan_attrs(config@, pv).take(plan@.len() as int) =~= plan_attrs(config@, pv));
    }
    merge_node_attrs(&mut doc.nodes[elem], &items);
    proof {
        assert(doc@ =~= injected_doc(old(doc)@, elem as int, config@, m));
        if old(doc).wf() {
            assert forall|ii: int| 0 <= ii < doc@.len() implies node_wf(doc@, ii) by {
                assert(node_wf(old(doc)@, ii));
                assert(doc@[ii].children == old(doc)@[ii].children);
                assert forall|jj: int|
                    0 <= jj < doc@[ii].children.len() implies ii < #[trigger] doc@[ii].children[jj]
                    < doc@.len() by {
                    assert(old(doc)@[ii].children[jj] == doc@[ii].children[jj]);
                }
            }
        }
    }
    Ok(DataInjected::Yes)
}

/// Locates the first body element of the document, depth first and in
/// pre-order, and writes the injection plan onto it, under the given
/// configuration.  Reports `NoBodyElementError`, and changes nothing, when
/// the tree has no body element.
pub fn match_html_body_and_inject_data<S: std::hash::BuildHasher>(
    config: &InjectionConfig,
    data: &HashMap<String, String, S>,
    doc: &mut HtmlDoc,
) -> (r: Result<DataInjected, Error>)
    requires
        old(doc).wf(),
    ensures
        ({
            let m = data.deep_view();
            let d = old(doc)@;
            match r {
                Err(e) => e matches Error::NoBodyElementError && first_body_from(d, 0) is None
                    && *final(doc) == *old(doc),
                Ok(DataInjected::No) => first_body_from(d, 0) is Some && !has_selected_entry(
                    config@,
                    m,
                ) && *final(doc) == *old(doc),
                Ok(DataInjected::Yes) => {
                    &&& first_body_from(d, 0) is Some
                    &&& has_selected_entry(config@, m)
                    &&& is_plan_for(config@, m, plan_of(config@, m))
                    &&& final(doc)@ == injected_doc(d, first_body_from(d, 0)->Some_0, config@, m)
                },
            }
        }),
        final(doc).wf(),
{
    match find_body(doc) {
        None => Err(Error::NoBodyElementError),
        Some(b) => inject_html_data_attrs(config, data, doc, b),
    }
}

/// Parses the bytes as an HTML document, writes the injection plan of the
/// standard configuration onto its body element, and renders the document
/// back to text when anything was written.  Reports `ParseError` exactly
/// when the bytes are not valid UTF-8, `NoBodyElementError` when the
/// repaired tree has no body element, and `No` when the environment has no
/// public variable; otherwise the rendered text is owed, since serializing
/// to memory cannot fail.  `SerializeError` and `EncodeError` remain as
/// defensive paths that the contracts rule out.
pub fn parse_html_and_inject_data<S: std::hash::BuildHasher>(
    data: &HashMap<String, String, S>,
    html_bytes: &[u8],
) -> (r: Result<HtmlChanged, Error>)
    ensures
        ({
            let m = data.deep_view();
            let s = vstd::utf8::decode_utf8(html_bytes@);
            let d = dom_of(s);
            if !vstd::utf8::valid_utf8(html_bytes@) {
                match r {
                    Err(Error::ParseError(p)) => p@ == "could not decode HTML as UTF-8 "@
                        + utf8_err_text(html_bytes@),
                    _ => false,
                }
            } else {
                match first_body_from(d, 0) {
                    Option::None => r matches Err(Error::NoBodyElementError),
                    Option::Some(b) => {
                        if !has_public_entry(m) {
                            r matches Ok(HtmlChanged::No)
                        } else {
                            ({
                                let out_bytes = render_of(
                                    injected_doc(d, b, standard_config(), m),
                                );
                                match r {
                                    Ok(HtmlChanged::Yes(out)) => {
                                        &&& is_plan_for(
                                            standard_config(),
                                            m,
                                            plan_of(standard_config(), m),
                                        )
                                        &&& crate::attrs::distinct_names(
                                            injected_doc(d, b, standard_config(), m)[b].attrs,
                                        )
                                        &&& vstd::utf8::valid_utf8(out_bytes)
                                        &&& out@ == vstd::utf8::decode_utf8(out_bytes)
                                    },
                                    _ => false,
                                }
                            })
                        }
                    },
                }
            }
        }),
{
    let s = match decode_utf8(html_bytes) {
        Ok(s) => s,
        Err(t) => {
            let mut msg = String::from_str("could not decode HTML as UTF-8 ");
            msg.append(t.as_str());
            return Err(Error::ParseError(msg));
        },
    };
    let mut doc = parse_html(s);
    let ghost d = doc@;
    let ghost m = data.deep_view();
    let config = InjectionConfig::standard();
    match match_html_body_and_inject_data(&config, data, &mut doc) {
        Err(e) => {
            return Err(e);
        },
        Ok(DataInjected::No) => {
            return Ok(HtmlChanged::No);
        },
        Ok(DataInjected::Yes) => {
        },
    }
    let ghost b = first_body_from(d, 0)->Some_0;
    proof {
        crate::locate::lemma_first_body_from_is_body(d, 0);
        assert(doc@ == injected_doc(d, b, standard_config(), m));
        assert(no_nested_document(doc@)) by {
            assert forall|i: int| 1 <= i < doc@.len() implies (#[trigger] doc@[i]).kind
                != NodeKind::Document by {
                assert(doc@[i].kind == d[i].kind);
            }
        }
        assert(crate::attrs::distinct_names(doc@[b].attrs)) by {
            crate::attrs::lemma_merge_distinct(
                d[b].attrs,
                plan_attrs(standard_config(), plan_of(standard_config(), m)),
            );
        }
    }
    let rendered = match render_doc(&doc) {
        Ok(bytes) => bytes,
        Err(msg) => {
            return Err(Error::SerializeError(msg));
        },
    };
    let out = match decode_utf8(rendered.as_slice()) {
        Ok(s2) => s2,
        Err(t) => {
            return Err(Error::EncodeError(t));
        },
    };
    Ok(HtmlChanged::Yes(out.to_owned()))
}

} // verus!
