use std::collections::HashMap;

use env_as_html_data::env::{compute_plan, InjectionConfig};
use env_as_html_data::format_html_data_attr_name;

fn standard() -> InjectionConfig {
    InjectionConfig::standard()
}

#[test]
fn plan_is_sorted_and_excludes_non_public() {
    let mut data: HashMap<String, String> = HashMap::new();
    data.insert("PUBLIC_API_URL".to_string(), "u".to_string());
    data.insert("PUBLIC_RELEASE_VERSION".to_string(), "v101".to_string());
    data.insert("NOT_PUBLIC_VAR".to_string(), "x".to_string());

    let plan = compute_plan(&standard(), &data);
    assert_eq!(plan.len(), 2);
    assert_eq!(plan[0].0, "PUBLIC_API_URL");
    assert_eq!(plan[0].1, "u");
    assert_eq!(plan[1].0, "PUBLIC_RELEASE_VERSION");
    assert_eq!(plan[1].1, "v101");
}

#[test]
fn plan_accepts_lowercase_prefix_and_sorts_after_uppercase() {
    let mut data: HashMap<String, String> = HashMap::new();
    data.insert("public_b".to_string(), "1".to_string());
    data.insert("PUBLIC_A".to_string(), "2".to_string());
    data.insert("Public_C".to_string(), "3".to_string());

    let plan = compute_plan(&standard(), &data);
    assert_eq!(plan.len(), 2);
    assert_eq!(plan[0].0, "PUBLIC_A");
    assert_eq!(plan[1].0, "public_b");
}

#[test]
fn plan_is_empty_without_public_entries() {
    let mut data: HashMap<String, String> = HashMap::new();
    data.insert("PATH".to_string(), "/usr/bin".to_string());
    data.insert("PUBLIC".to_string(), "no trailing underscore".to_string());
    let plan = compute_plan(&standard(), &data);
    assert!(plan.is_empty());
}

#[test]
fn attr_name_is_lowercased_with_data_prefix() {
    assert_eq!(
        format_html_data_attr_name("PUBLIC_API_URL"),
        "data-public_api_url"
    );
    assert_eq!(format_html_data_attr_name("public_x"), "data-public_x");
    assert_eq!(format_html_data_attr_name(""), "data-");
    assert_eq!(
        format_html_data_attr_name("PUBLIC_RELEASE_VERSION"),
        "data-public_release_version"
    );
}

#[test]
fn case_collision_last_sorted_key_wins() {
    let mut data: HashMap<String, String> = HashMap::new();
    data.insert("PUBLIC_API".to_string(), "upper".to_string());
    data.insert("public_api".to_string(), "lower".to_string());
    let html = "<html><head></head><body></body></html>";

    match env_as_html_data::parse_html_and_inject_data(&data, html.as_bytes()) {
        Ok(env_as_html_data::HtmlChanged::Yes(out)) => {
            assert_eq!(out.matches("data-public_api").count(), 1);
            assert!(out.contains(r#"data-public_api="lower""#));
        }
        Ok(env_as_html_data::HtmlChanged::No) => panic!("should have changed the HTML"),
        Err(e) => panic!("returned error {e:?}"),
    }
}

#[test]
fn custom_configuration_uses_its_own_prefixes_and_naming() {
    let config = InjectionConfig {
        public_prefixes: vec!["APP_".to_string()],
        attr_name_prefix: "x-".to_string(),
    };
    let mut data: HashMap<String, String> = HashMap::new();
    data.insert("APP_PORT".to_string(), "8080".to_string());
    data.insert("PUBLIC_API_URL".to_string(), "u".to_string());

    let plan = compute_plan(&config, &data);
    assert_eq!(plan.len(), 1);
    assert_eq!(plan[0].0, "APP_PORT");
    assert_eq!(config.attr_name("APP_PORT"), "x-app_port");
}
