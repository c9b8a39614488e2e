use std::collections::HashMap;

use env_as_html_data::{parse_html_and_inject_data, HtmlChanged};

#[test]
fn parse_html_and_inject_data_sets_public_data() {
    let mut data: HashMap<String, String> = HashMap::new();
    data.insert(
        "PUBLIC_API_URL".to_string(),
        "https://api.example.com/v1".to_string(),
    );
    data.insert("PUBLIC_RELEASE_VERSION".to_string(), "v101".to_string());
    data.insert(
        "NOT_PUBLIC_VAR".to_string(),
        "non-public should not be included".to_string(),
    );
    let html =
        "<html><head><title>Hello World</title></head><body><h1>Hello World</h1></body></html>";
    let expected_html = r#"<html><head><title>Hello World</title></head><body data-public_api_url="https://api.example.com/v1" data-public_release_version="v101"><h1>Hello World</h1></body></html>"#;

    match parse_html_and_inject_data(&data, html.as_bytes()) {
        Ok(HtmlChanged::Yes(result_value)) => assert_eq!(&result_value, expected_html),
        Ok(HtmlChanged::No) => panic!("should have changed the HTML"),
        Err(e) => panic!("returned error {e:?}"),
    }
}

#[test]
fn parse_html_and_inject_data_corrects_invalid_doc() {
    let mut data: HashMap<String, String> = HashMap::new();
    data.insert(
        "PUBLIC_API_URL".to_string(),
        "https://api.example.com/v1".to_string(),
    );
    data.insert("PUBLIC_RELEASE_VERSION".to_string(), "v101".to_string());
    data.insert(
        "NOT_PUBLIC_VAR".to_string(),
        "non-public should not be included".to_string(),
    );
    let html = "<html><head><title>Hello World</title></head><h1>Hello World</h1></html>";
    let expected_html = r#"<html><head><title>Hello World</title></head><body data-public_api_url="https://api.example.com/v1" data-public_release_version="v101"><h1>Hello World</h1></body></html>"#;

    match parse_html_and_inject_data(&data, html.as_bytes()) {
        Ok(HtmlChanged::Yes(result_value)) => assert_eq!(&result_value, expected_html),
        Ok(HtmlChanged::No) => panic!("should have returned 'true' that inject was successful"),
        Err(e) => panic!("returned error {e:?}"),
    }
}

#[test]
fn parse_html_and_inject_data_overwrites_existing_attrs() {
    let mut data: HashMap<String, String> = HashMap::new();
    data.insert(
        "PUBLIC_API_URL".to_string(),
        "https://api.example.com/v1".to_string(),
    );
    data.insert("PUBLIC_DEBUG_MODE".to_string(), "true".to_string());
    data.insert("PUBLIC_RELEASE_VERSION".to_string(), "v101".to_string());
    let html = r#"<html><head><title>Hello World</title></head><body data-public_api_url="http://localhost:3001/v1" data-public_release_version="v0"><h1>Hello World</h1></body></html>"#;
    let expected_html = r#"<html><head><title>Hello World</title></head><body data-public_api_url="https://api.example.com/v1" data-public_release_version="v101" data-public_debug_mode="true"><h1>Hello World</h1></body></html>"#;

    match parse_html_and_inject_data(&data, html.as_bytes()) {
        Ok(HtmlChanged::Yes(result_value)) => assert_eq!(&result_value, expected_html),
        Ok(HtmlChanged::No) => panic!("should have returned 'true' that inject was successful"),
        Err(e) => panic!("returned error {e:?}"),
    }
}

#[test]
fn parse_html_and_inject_data_without_public_data_makes_no_diff() {
    let mut data: HashMap<String, String> = HashMap::new();
    data.insert(
        "NOT_PUBLIC_VAR".to_string(),
        "non-public should not be included".to_string(),
    );
    let html =
        "<html><head><title>Hello World</title></head><body><h1>Hello World</h1></body></html>";

    match parse_html_and_inject_data(&data, html.as_bytes()) {
        Ok(HtmlChanged::No) => (),
        Ok(HtmlChanged::Yes(_)) => {
            panic!("should have returned 'false' that inject did not happen")
        }
        Err(e) => panic!("returned error {e:?}"),
    }
}

#[test]
fn basic_injection_single_variable() {
    let mut data: HashMap<String, String> = HashMap::new();
    data.insert(
        "PUBLIC_API_URL".to_string(),
        "https://api.example.com/v1".to_string(),
    );
    let html = "<html><head><title>T</title></head><body><h1>H</h1></body></html>";
    let expected =
        r#"<html><head><title>T</title></head><body data-public_api_url="https://api.example.com/v1"><h1>H</h1></body></html>"#;

    match parse_html_and_inject_data(&data, html.as_bytes()) {
        Ok(HtmlChanged::Yes(result_value)) => assert_eq!(&result_value, expected),
        Ok(HtmlChanged::No) => panic!("should have changed the HTML"),
        Err(e) => panic!("returned error {e:?}"),
    }
}

#[test]
fn injection_writes_each_attribute_once() {
    let mut data: HashMap<String, String> = HashMap::new();
    data.insert("PUBLIC_API_URL".to_string(), "new".to_string());
    let html = r#"<html><head></head><body data-public_api_url="old"><p>x</p></body></html>"#;

    match parse_html_and_inject_data(&data, html.as_bytes()) {
        Ok(HtmlChanged::Yes(out)) => {
            assert_eq!(out.matches("data-public_api_url").count(), 1);
            assert!(out.contains(r#"data-public_api_url="new""#));
            assert!(!out.contains("old"));
        }
        Ok(HtmlChanged::No) => panic!("should have changed the HTML"),
        Err(e) => panic!("returned error {e:?}"),
    }
}

#[test]
fn repeated_injection_is_stable() {
    let mut data: HashMap<String, String> = HashMap::new();
    data.insert("PUBLIC_API_URL".to_string(), "u".to_string());
    data.insert("PUBLIC_RELEASE_VERSION".to_string(), "v101".to_string());
    let html = "<html><head><title>T</title></head><body><h1>H</h1></body></html>";

    let first = match parse_html_and_inject_data(&data, html.as_bytes()) {
        Ok(HtmlChanged::Yes(out)) => out,
        Ok(HtmlChanged::No) => panic!("should have changed the HTML"),
        Err(e) => panic!("returned error {e:?}"),
    };
    let second = match parse_html_and_inject_data(&data, first.as_bytes()) {
        Ok(HtmlChanged::Yes(out)) => out,
        Ok(HtmlChanged::No) => panic!("should have changed the HTML"),
        Err(e) => panic!("returned error {e:?}"),
    };
    assert_eq!(first, second);
}
