use env_as_html_data::{changed_metadata_fields, WebServerLayerMetadata};

fn meta(name: &str, version: &str, arch: &str, os: &str) -> WebServerLayerMetadata {
    WebServerLayerMetadata {
        web_server_name: name.to_string(),
        web_server_version: version.to_string(),
        arch: arch.to_string(),
        os: os.to_string(),
    }
}

#[test]
fn no_fields_changed() {
    let a = meta("caddy", "2.7.4", "amd64", "linux");
    let b = meta("caddy", "2.7.4", "amd64", "linux");
    assert!(changed_metadata_fields(&a, &b).is_empty());
}

#[test]
fn one_field_changed() {
    let a = meta("caddy", "2.7.4", "amd64", "linux");
    let b = meta("caddy", "2.7.5", "amd64", "linux");
    assert_eq!(changed_metadata_fields(&a, &b), vec!["web server version"]);
}

#[test]
fn all_fields_changed_sorted() {
    let a = meta("caddy", "2.7.4", "amd64", "linux");
    let b = meta("nginx", "1.25.0", "arm64", "darwin");
    assert_eq!(
        changed_metadata_fields(&a, &b),
        vec![
            "compute architecture",
            "operating system",
            "web server name",
            "web server version",
        ]
    );
}
