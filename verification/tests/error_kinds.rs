use std::collections::HashMap;

use env_as_html_data::dom::{HtmlDoc, HtmlNode, NodeKind};
use env_as_html_data::env::InjectionConfig;
use env_as_html_data::{
    inject_html_data_attrs, match_html_body_and_inject_data, parse_html_and_inject_data, Error,
};

fn leaf(kind: NodeKind, name: &str, text: &str) -> HtmlNode {
    HtmlNode {
        kind,
        ns: String::new(),
        name: name.to_string(),
        text: text.to_string(),
        attrs: Vec::new(),
        children: Vec::new(),
    }
}

#[test]
fn invalid_utf8_yields_parse_error() {
    let mut data: HashMap<String, String> = HashMap::new();
    data.insert("PUBLIC_API_URL".to_string(), "u".to_string());
    let bytes = [0x3cu8, 0x68, 0xff, 0xfe, 0x3e];

    match parse_html_and_inject_data(&data, &bytes) {
        Err(Error::ParseError(msg)) => {
            assert!(msg.starts_with("could not decode HTML as UTF-8 "));
        }
        other => panic!("expected a ParseError, got {other:?}"),
    }
}

#[test]
fn missing_body_yields_no_body_element_error() {
    let mut data: HashMap<String, String> = HashMap::new();
    data.insert("PUBLIC_API_URL".to_string(), "u".to_string());

    // A tree whose root has only a head element below it: no body anywhere.
    let mut root = leaf(NodeKind::Document, "", "");
    root.children = vec![1];
    let mut html = leaf(NodeKind::Element, "html", "");
    html.children = vec![2];
    let head = leaf(NodeKind::Element, "head", "");
    let mut doc = HtmlDoc {
        nodes: vec![root, html, head],
    };

    match match_html_body_and_inject_data(&InjectionConfig::standard(), &data, &mut doc) {
        Err(Error::NoBodyElementError) => (),
        other => panic!("expected NoBodyElementError, got {other:?}"),
    }
}

#[test]
fn non_element_node_yields_element_expected() {
    let mut data: HashMap<String, String> = HashMap::new();
    data.insert("PUBLIC_API_URL".to_string(), "u".to_string());

    let mut root = leaf(NodeKind::Document, "", "");
    root.children = vec![1];
    let text = leaf(NodeKind::Text, "", "hello");
    let mut doc = HtmlDoc {
        nodes: vec![root, text],
    };

    match inject_html_data_attrs(&InjectionConfig::standard(), &data, &mut doc, 1) {
        Err(Error::ElementExpected(got)) => assert_eq!(got, "Text"),
        other => panic!("expected ElementExpected, got {other:?}"),
    }
}

#[test]
fn error_kinds_are_distinguishable() {
    let file_err = Error::FileError(
        std::io::Error::new(std::io::ErrorKind::NotFound, "no such file"),
        "Tried to open /missing.html".to_string(),
    );
    let parse_err = Error::ParseError("bad bytes".to_string());
    let no_body = Error::NoBodyElementError;

    assert!(matches!(file_err, Error::FileError(_, _)));
    assert!(matches!(parse_err, Error::ParseError(_)));
    assert!(matches!(no_body, Error::NoBodyElementError));
    assert!(!matches!(file_err, Error::ParseError(_)));
    assert!(!matches!(parse_err, Error::NoBodyElementError));
}

#[test]
fn error_messages_name_each_kind() {
    assert_eq!(
        Error::NoBodyElementError.message(),
        "Env-as-HTML-Data no body element found in document"
    );
    assert_eq!(
        Error::ParseError("oops".to_string()).message(),
        "Env-as-HTML-Data document parsing error, oops"
    );
    assert_eq!(
        Error::SerializeError("bad tree".to_string()).message(),
        "Env-as-HTML-Data document serialization error, bad tree"
    );
    assert_eq!(
        Error::EncodeError("bad text".to_string()).message(),
        "Env-as-HTML-Data output encoding error, bad text"
    );
    assert_eq!(
        Error::ElementExpected("Text".to_string()).message(),
        "Env-as-HTML-Data expected an Element node, but got Text"
    );
    let file_err = Error::FileError(
        std::io::Error::new(std::io::ErrorKind::NotFound, "no such file"),
        "Tried to open x".to_string(),
    );
    assert!(file_err
        .message()
        .starts_with("Env-as-HTML-Data file error, Tried to open x, "));
}
