use std::collections::HashMap;

use env_as_html_data::dom::{HtmlAttr, HtmlDoc, HtmlNode, NodeKind};
use env_as_html_data::env::InjectionConfig;
use env_as_html_data::{inject_html_data_attrs, match_html_body_and_inject_data, DataInjected};

fn body_doc(attrs: Vec<(&str, &str)>) -> HtmlDoc {
    let root = HtmlNode {
        kind: NodeKind::Document,
        ns: String::new(),
        name: String::new(),
        text: String::new(),
        attrs: Vec::new(),
        children: vec![1],
    };
    let body = HtmlNode {
        kind: NodeKind::Element,
        ns: "http://www.w3.org/1999/xhtml".to_string(),
        name: "body".to_string(),
        text: String::new(),
        attrs: attrs
            .into_iter()
            .map(|(n, v)| HtmlAttr {
                ns: String::new(),
                name: n.to_string(),
                value: v.to_string(),
            })
            .collect(),
        children: Vec::new(),
    };
    HtmlDoc {
        nodes: vec![root, body],
    }
}

#[test]
fn overwrite_keeps_position_and_append_keeps_plan_order() {
    let mut data: HashMap<String, String> = HashMap::new();
    data.insert("PUBLIC_B".to_string(), "2".to_string());
    data.insert("PUBLIC_A".to_string(), "1".to_string());
    let mut doc = body_doc(vec![("class", "hero"), ("data-public_b", "old")]);

    match inject_html_data_attrs(&InjectionConfig::standard(), &data, &mut doc, 1) {
        Ok(DataInjected::Yes) => (),
        other => panic!("expected an injection, got {other:?}"),
    }
    let names: Vec<&str> = doc.nodes[1].attrs.iter().map(|a| a.name.as_str()).collect();
    assert_eq!(names, vec!["class", "data-public_b", "data-public_a"]);
    assert_eq!(doc.nodes[1].attrs[1].value, "2");
    assert_eq!(doc.nodes[1].attrs[2].value, "1");
}

#[test]
fn first_body_in_preorder_receives_the_attributes() {
    let mut data: HashMap<String, String> = HashMap::new();
    data.insert("PUBLIC_A".to_string(), "1".to_string());

    // root -> html -> (body, body): the first body in pre-order wins.
    let mk = |kind: NodeKind, name: &str, children: Vec<usize>| HtmlNode {
        kind,
        ns: String::new(),
        name: name.to_string(),
        text: String::new(),
        attrs: Vec::new(),
        children,
    };
    let mut doc = HtmlDoc {
        nodes: vec![
            mk(NodeKind::Document, "", vec![1]),
            mk(NodeKind::Element, "html", vec![2, 3]),
            mk(NodeKind::Element, "body", vec![]),
            mk(NodeKind::Element, "body", vec![]),
        ],
    };

    match match_html_body_and_inject_data(&InjectionConfig::standard(), &data, &mut doc) {
        Ok(DataInjected::Yes) => (),
        other => panic!("expected an injection, got {other:?}"),
    }
    assert_eq!(doc.nodes[2].attrs.len(), 1);
    assert_eq!(doc.nodes[2].attrs[0].name, "data-public_a");
    assert!(doc.nodes[3].attrs.is_empty());
}

#[test]
fn no_public_variables_leave_the_tree_unchanged() {
    let mut data: HashMap<String, String> = HashMap::new();
    data.insert("HOME".to_string(), "/root".to_string());
    let mut doc = body_doc(vec![("class", "hero")]);

    match match_html_body_and_inject_data(&InjectionConfig::standard(), &data, &mut doc) {
        Ok(DataInjected::No) => (),
        other => panic!("expected no injection, got {other:?}"),
    }
    assert_eq!(doc.nodes[1].attrs.len(), 1);
    assert_eq!(doc.nodes[1].attrs[0].name, "class");
    assert_eq!(doc.nodes[1].attrs[0].value, "hero");
}

#[test]
fn injecting_twice_leaves_the_tree_as_after_once() {
    let mut data: HashMap<String, String> = HashMap::new();
    data.insert("PUBLIC_A".to_string(), "1".to_string());
    let mut doc = body_doc(vec![("id", "main")]);

    match inject_html_data_attrs(&InjectionConfig::standard(), &data, &mut doc, 1) {
        Ok(DataInjected::Yes) => (),
        other => panic!("expected an injection, got {other:?}"),
    }
    let after_once: Vec<(String, String)> = doc.nodes[1]
        .attrs
        .iter()
        .map(|a| (a.name.clone(), a.value.clone()))
        .collect();

    match inject_html_data_attrs(&InjectionConfig::standard(), &data, &mut doc, 1) {
        Ok(DataInjected::Yes) => (),
        other => panic!("expected an injection, got {other:?}"),
    }
    let after_twice: Vec<(String, String)> = doc.nodes[1]
        .attrs
        .iter()
        .map(|a| (a.name.clone(), a.value.clone()))
        .collect();
    assert_eq!(after_once, after_twice);
}
