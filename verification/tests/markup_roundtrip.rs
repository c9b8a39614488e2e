use std::collections::HashMap;

use env_as_html_data::{parse_html_and_inject_data, HtmlChanged};

fn one_var(key: &str, value: &str) -> HashMap<String, String> {
    let mut data = HashMap::new();
    data.insert(key.to_string(), value.to_string());
    data
}

fn inject(data: &HashMap<String, String>, html: &str) -> String {
    match parse_html_and_inject_data(data, html.as_bytes()) {
        Ok(HtmlChanged::Yes(out)) => out,
        Ok(HtmlChanged::No) => panic!("should have changed the HTML"),
        Err(e) => panic!("returned error {e:?}"),
    }
}

#[test]
fn doctype_is_preserved() {
    let data = one_var("PUBLIC_X", "1");
    let out = inject(
        &data,
        "<!DOCTYPE html><html><head></head><body></body></html>",
    );
    assert_eq!(
        out,
        r#"<!DOCTYPE html><html><head></head><body data-public_x="1"></body></html>"#
    );
}

#[test]
fn comments_are_preserved() {
    let data = one_var("PUBLIC_X", "1");
    let out = inject(
        &data,
        "<html><head></head><body><!-- a note --><p>hi</p></body></html>",
    );
    assert_eq!(
        out,
        r#"<html><head></head><body data-public_x="1"><!-- a note --><p>hi</p></body></html>"#
    );
}

#[test]
fn attribute_values_are_escaped() {
    let data = one_var("PUBLIC_X", r#"a"b&c"#);
    let out = inject(&data, "<html><head></head><body></body></html>");
    assert_eq!(
        out,
        r#"<html><head></head><body data-public_x="a&quot;b&amp;c"></body></html>"#
    );
}

#[test]
fn text_stays_escaped() {
    let data = one_var("PUBLIC_X", "1");
    let out = inject(
        &data,
        "<html><head></head><body><p>1 &lt; 2 &amp; 3 &gt; 2</p></body></html>",
    );
    assert_eq!(
        out,
        r#"<html><head></head><body data-public_x="1"><p>1 &lt; 2 &amp; 3 &gt; 2</p></body></html>"#
    );
}

#[test]
fn void_elements_get_no_end_tag() {
    let data = one_var("PUBLIC_X", "1");
    let out = inject(
        &data,
        r#"<html><head><meta charset="utf-8"></head><body><br><hr></body></html>"#,
    );
    assert_eq!(
        out,
        r#"<html><head><meta charset="utf-8"></head><body data-public_x="1"><br><hr></body></html>"#
    );
}

#[test]
fn existing_body_attributes_stay_in_place() {
    let data = one_var("PUBLIC_X", "1");
    let out = inject(
        &data,
        r#"<html><head></head><body class="hero" id="top"></body></html>"#,
    );
    assert_eq!(
        out,
        r#"<html><head></head><body class="hero" id="top" data-public_x="1"></body></html>"#
    );
}

#[test]
fn inline_svg_keeps_namespaced_attributes() {
    let data = one_var("PUBLIC_X", "1");
    let out = inject(
        &data,
        r##"<html><head></head><body><svg><use xlink:href="#icon"></use></svg></body></html>"##,
    );
    assert_eq!(
        out,
        r##"<html><head></head><body data-public_x="1"><svg><use xlink:href="#icon"></use></svg></body></html>"##
    );
}

#[test]
fn svg_style_text_is_escaped_as_foreign_content() {
    let data = one_var("PUBLIC_X", "1");
    // An HTML style element holds raw text: the entity stays as written.  A
    // style element inside SVG is foreign content: the parser decodes the
    // entity to '>', and the serializer escapes it again because the parent
    // is not an HTML-namespace style element.
    let out = inject(
        &data,
        "<html><head><style>a&gt;b{}</style></head><body><svg><style>a&gt;b{}</style></svg></body></html>",
    );
    assert_eq!(
        out,
        r#"<html><head><style>a&gt;b{}</style></head><body data-public_x="1"><svg><style>a&gt;b{}</style></svg></body></html>"#
    );
}

#[test]
fn foreign_element_keeps_both_href_and_xlink_href() {
    let data = one_var("PUBLIC_X", "1");
    // On a foreign-content element the parser keeps href beside xlink:href:
    // two attributes sharing a local name in different namespaces.  Both
    // survive the rewrite unchanged.
    let out = inject(
        &data,
        r##"<html><head></head><body><svg><a href="p" xlink:href="q"></a></svg></body></html>"##,
    );
    assert_eq!(
        out,
        r##"<html><head></head><body data-public_x="1"><svg><a href="p" xlink:href="q"></a></svg></body></html>"##
    );
}
