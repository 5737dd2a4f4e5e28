use probe_sd::config::Args;
use probe_sd::discovery::{expand, tag_key};
use probe_sd::loader::{load, LoadError};

#[test]
fn test_load_full_document() {
    let text = "\
target:
  - module: http_2xx
    url: https://a
    tags: [web]
  - module: icmp
    url: https://b
endpoint:
  - address: 1.2.3.4:1
    geohash: g1
    name: E1
";
    let config = load(Ok(text.to_string())).unwrap();
    assert_eq!(config.target.len(), 2);
    assert_eq!(config.target[0].module, "http_2xx");
    assert_eq!(config.target[0].url, "https://a");
    assert_eq!(config.target[0].tags, vec!["web".to_string()]);
    assert_eq!(config.target[1].module, "icmp");
    assert_eq!(config.endpoint.len(), 1);
    assert_eq!(config.endpoint[0].address, "1.2.3.4:1");
    assert_eq!(config.endpoint[0].geohash, "g1");
    assert_eq!(config.endpoint[0].name, "E1");
}

#[test]
fn test_load_defaults_absent_tags() {
    // A target with no `tags` entry is loaded with the single tag
    // "default"; one with an explicitly empty list keeps it empty.
    let text = "\
target:
  - module: m
    url: https://a
  - module: m
    url: https://b
    tags: []
endpoint: []
";
    let config = load(Ok(text.to_string())).unwrap();
    assert_eq!(config.target[0].tags, vec!["default".to_string()]);
    assert!(config.target[1].tags.is_empty());
}

#[test]
fn test_load_default_tag_groups() {
    let text = "\
target:
  - module: m
    url: https://a
endpoint:
  - address: 1.2.3.4:1
    geohash: g1
    name: E1
";
    let config = load(Ok(text.to_string())).unwrap();
    let groups = expand(&config);
    assert_eq!(groups.len(), 1);
    assert_eq!(
        groups[0].label(&tag_key().to_string()),
        Some(&"default".to_string())
    );
    assert_eq!(groups[0].targets, vec!["https://a".to_string()]);
}

#[test]
fn test_load_missing_url_fails() {
    let text = "\
target:
  - module: http_2xx
    tags: [web]
endpoint: []
";
    match load(Ok(text.to_string())) {
        Err(LoadError::Parse(_)) => {}
        other => panic!("expected a parse error, got {:?}", other),
    }
}

#[test]
fn test_load_missing_endpoint_field_fails() {
    let text = "\
target: []
endpoint:
  - address: 1.2.3.4:1
    name: E1
";
    match load(Ok(text.to_string())) {
        Err(LoadError::Parse(_)) => {}
        other => panic!("expected a parse error, got {:?}", other),
    }
}

#[test]
fn test_load_wrong_type_fails() {
    let text = "\
target:
  - module: m
    url: 17
endpoint: []
";
    match load(Ok(text.to_string())) {
        Err(LoadError::Parse(_)) => {}
        other => panic!("expected a parse error, got {:?}", other),
    }
}

#[test]
fn test_load_malformed_syntax_fails() {
    let text = "target: [unclosed";
    match load(Ok(text.to_string())) {
        Err(LoadError::Parse(_)) => {}
        other => panic!("expected a parse error, got {:?}", other),
    }
}

#[test]
fn test_load_missing_section_fails() {
    let text = "target: []\n";
    match load(Ok(text.to_string())) {
        Err(LoadError::Parse(_)) => {}
        other => panic!("expected a parse error, got {:?}", other),
    }
}

#[test]
fn test_load_io_error() {
    match load(Err("no such file".to_string())) {
        Err(LoadError::Io(m)) => assert_eq!(m, "no such file"),
        other => panic!("expected an io error, got {:?}", other),
    }
}

#[test]
fn test_load_then_expand_no_endpoints() {
    // Loading and expanding with zero endpoints yields nothing, whatever
    // the targets hold.
    let text = "\
target:
  - module: m
    url: https://a
    tags: []
  - module: m
    url: https://a
    tags: [x, x]
endpoint: []
";
    let config = load(Ok(text.to_string())).unwrap();
    assert!(expand(&config).is_empty());
}

#[test]
fn test_args_load_config() {
    let args = Args::new("probe.yaml".to_string());
    assert_eq!(args.config_path(), "probe.yaml");
    let config = args
        .load_config(Ok("target: []\nendpoint: []\n".to_string()))
        .unwrap();
    assert!(config.target.is_empty());
    assert!(config.endpoint.is_empty());
    match args.load_config(Err("unreadable".to_string())) {
        Err(LoadError::Io(m)) => assert_eq!(m, "unreadable"),
        other => panic!("expected an io error, got {:?}", other),
    }
}

#[test]
fn test_error_message() {
    match load(Err("gone".to_string())) {
        Err(e) => assert_eq!(e.message(), "gone"),
        Ok(_) => panic!("expected an error"),
    }
}

#[test]
fn test_describe() {
    let text = "\
target:
  - module: http_2xx
    url: https://a
    tags: [web, prod]
endpoint:
  - address: 1.2.3.4:1
    geohash: g1
    name: E1
";
    let config = load(Ok(text.to_string())).unwrap();
    assert_eq!(
        config.describe(),
        "Targets:\n  Module: http_2xx, URL: https://a, Tags: web, prod\n\
         Endpoints:\n  Name: E1, Address: 1.2.3.4:1, Geohash: g1\n"
    );
}
