use probe_sd::config::{Config, Endpoint, Target};
use probe_sd::discovery::{
    endpoint_geohash_key, endpoint_name_key, endpoint_url_key, expand, tag_key,
};
use probe_sd::model::FileConfig;

fn target(module: &str, url: &str, tags: &[&str]) -> Target {
    Target {
        module: module.to_string(),
        url: url.to_string(),
        tags: tags.iter().map(|t| t.to_string()).collect(),
    }
}

fn endpoint(address: &str, geohash: &str, name: &str) -> Endpoint {
    Endpoint {
        address: address.to_string(),
        geohash: geohash.to_string(),
        name: name.to_string(),
    }
}

fn label_of<'a>(fc: &'a FileConfig, key: &str) -> Option<&'a String> {
    fc.label(&key.to_string())
}

fn create_test_config() -> Config {
    Config {
        target: vec![
            target("http_2xx", "https://example1.com", &["web", "prod"]),
            target("http_2xx", "https://example2.com", &["web", "staging"]),
            target("http_2xx", "https://api.example.com", &["api", "prod"]),
        ],
        endpoint: vec![
            endpoint("test1.example.com:443", "test_hash_1", "TestEndpoint1"),
            endpoint("test2.example.com:443", "test_hash_2", "TestEndpoint2"),
        ],
    }
}

#[test]
fn test_target_processing_logic() {
    let test_config = create_test_config();
    let groups = expand(&test_config);

    // Two endpoints and four distinct tags (web, prod, staging, api).
    assert_eq!(groups.len(), 8);

    for group in &groups {
        assert_eq!(group.labels.len(), 4);
        assert!(label_of(group, endpoint_url_key()).is_some());
        assert!(label_of(group, endpoint_name_key()).is_some());
        assert!(label_of(group, endpoint_geohash_key()).is_some());
        assert!(label_of(group, tag_key()).is_some());
        assert!(!group.targets.is_empty());
    }

    // Endpoint-major order: the first four groups carry the first endpoint.
    for group in &groups[..4] {
        assert_eq!(
            label_of(group, endpoint_name_key()),
            Some(&"TestEndpoint1".to_string())
        );
    }
    for group in &groups[4..] {
        assert_eq!(
            label_of(group, endpoint_name_key()),
            Some(&"TestEndpoint2".to_string())
        );
    }
}

#[test]
fn test_root_route_with_state() {
    let test_config = create_test_config();
    let groups = expand(&test_config);
    assert!(!groups.is_empty());

    for group in &groups {
        assert!(label_of(group, endpoint_url_key()).is_some());
        assert!(label_of(group, endpoint_name_key()).is_some());
        assert!(label_of(group, endpoint_geohash_key()).is_some());
        assert!(label_of(group, tag_key()).is_some());
        assert!(!group.targets.is_empty());
    }
}

#[test]
fn test_root_route_response_structure() {
    let test_config = create_test_config();
    let groups = expand(&test_config);
    assert!(!groups.is_empty());

    let web_groups: Vec<&FileConfig> = groups
        .iter()
        .filter(|g| label_of(g, tag_key()) == Some(&"web".to_string()))
        .collect();
    let api_groups: Vec<&FileConfig> = groups
        .iter()
        .filter(|g| label_of(g, tag_key()) == Some(&"api".to_string()))
        .collect();

    // One "web" group per endpoint, holding both web-tagged URLs.
    assert_eq!(web_groups.len(), 2);
    assert!(web_groups.iter().all(|g| g.targets.len() == 2));

    // One "api" group per endpoint, holding the one api-tagged URL.
    assert_eq!(api_groups.len(), 2);
    assert!(api_groups.iter().all(|g| g.targets.len() == 1));
}

#[test]
fn test_handler_with_different_configs() {
    let mut test_config = create_test_config();

    test_config
        .target
        .push(target("http_2xx", "https://test3.com", &["monitoring", "prod"]));
    test_config.endpoint.push(endpoint(
        "test3.example.com:443",
        "test_hash_3",
        "TestEndpoint3",
    ));

    let groups = expand(&test_config);

    let monitoring_groups: Vec<&FileConfig> = groups
        .iter()
        .filter(|g| label_of(g, tag_key()) == Some(&"monitoring".to_string()))
        .collect();

    // One "monitoring" group per endpoint, each with the one tagged URL.
    assert_eq!(monitoring_groups.len(), 3);
    assert!(monitoring_groups.iter().all(|g| g.targets.len() == 1));
    assert!(monitoring_groups
        .iter()
        .all(|g| g.targets[0] == "https://test3.com"));

    let third = monitoring_groups
        .iter()
        .find(|g| label_of(g, endpoint_name_key()) == Some(&"TestEndpoint3".to_string()))
        .unwrap();
    assert_eq!(
        label_of(third, endpoint_url_key()),
        Some(&"test3.example.com:443".to_string())
    );
    assert_eq!(
        label_of(third, endpoint_geohash_key()),
        Some(&"test_hash_3".to_string())
    );
}

#[test]
fn test_empty_config() {
    let empty_config = Config {
        target: vec![],
        endpoint: vec![],
    };
    let groups = expand(&empty_config);
    assert!(groups.is_empty());
}

#[test]
fn test_single_target_multiple_tags() {
    let config = Config {
        target: vec![target("http_2xx", "https://multi-tag.com", &["web", "prod", "api"])],
        endpoint: vec![endpoint("test.example.com:443", "test_hash", "TestEndpoint")],
    };

    let groups = expand(&config);

    // One endpoint and three distinct tags.
    assert_eq!(groups.len(), 3);
    let tags: Vec<&String> = groups.iter().map(|g| label_of(g, tag_key()).unwrap()).collect();
    assert_eq!(tags, vec!["web", "prod", "api"]);
    for group in &groups {
        assert_eq!(group.targets, vec!["https://multi-tag.com".to_string()]);
        assert_eq!(
            label_of(group, endpoint_url_key()),
            Some(&"test.example.com:443".to_string())
        );
        assert_eq!(
            label_of(group, endpoint_name_key()),
            Some(&"TestEndpoint".to_string())
        );
        assert_eq!(
            label_of(group, endpoint_geohash_key()),
            Some(&"test_hash".to_string())
        );
    }
}

#[test]
fn test_expand_tag_grouping_scenario() {
    // Two targets: one tagged web, one tagged web and api; one endpoint.
    let config = Config {
        target: vec![
            target("m", "https://a", &["web"]),
            target("m", "https://b", &["web", "api"]),
        ],
        endpoint: vec![endpoint("1.2.3.4:1", "g1", "E1")],
    };

    let groups = expand(&config);
    assert_eq!(groups.len(), 2);

    assert_eq!(label_of(&groups[0], tag_key()), Some(&"web".to_string()));
    assert_eq!(
        groups[0].targets,
        vec!["https://a".to_string(), "https://b".to_string()]
    );

    assert_eq!(label_of(&groups[1], tag_key()), Some(&"api".to_string()));
    assert_eq!(groups[1].targets, vec!["https://b".to_string()]);

    for group in &groups {
        assert_eq!(
            label_of(group, endpoint_url_key()),
            Some(&"1.2.3.4:1".to_string())
        );
        assert_eq!(label_of(group, endpoint_name_key()), Some(&"E1".to_string()));
        assert_eq!(
            label_of(group, endpoint_geohash_key()),
            Some(&"g1".to_string())
        );
    }
}

#[test]
fn test_expand_empty_targets() {
    let config = Config {
        target: vec![],
        endpoint: vec![endpoint("1.2.3.4:1", "g1", "E1")],
    };
    let groups = expand(&config);
    assert!(groups.is_empty());
}

#[test]
fn test_expand_no_endpoints() {
    // Odd targets — an empty tag list, duplicate URLs — do not matter:
    // with no endpoints the expansion is empty.
    let config = Config {
        target: vec![
            target("m", "https://a", &[]),
            target("m", "https://a", &["x", "x"]),
        ],
        endpoint: vec![],
    };
    let groups = expand(&config);
    assert!(groups.is_empty());
}

#[test]
fn test_duplicate_tags_counted() {
    // A duplicate tag contributes the URL once per occurrence.
    let config = Config {
        target: vec![target("m", "https://dup", &["a", "a"])],
        endpoint: vec![endpoint("1.2.3.4:1", "g1", "E1")],
    };
    let groups = expand(&config);
    assert_eq!(groups.len(), 1);
    assert_eq!(label_of(&groups[0], tag_key()), Some(&"a".to_string()));
    assert_eq!(
        groups[0].targets,
        vec!["https://dup".to_string(), "https://dup".to_string()]
    );
}

#[test]
fn test_empty_tags_contribute_nothing() {
    // A target with an explicitly empty tag list joins no group.
    let config = Config {
        target: vec![target("m", "https://silent", &[]), target("m", "https://loud", &["web"])],
        endpoint: vec![endpoint("1.2.3.4:1", "g1", "E1")],
    };
    let groups = expand(&config);
    assert_eq!(groups.len(), 1);
    assert_eq!(groups[0].targets, vec!["https://loud".to_string()]);
}

#[test]
fn test_tags_emitted_in_first_seen_order() {
    let config = Config {
        target: vec![
            target("m", "https://one", &["b", "a"]),
            target("m", "https://two", &["a", "c"]),
        ],
        endpoint: vec![endpoint("1.2.3.4:1", "g1", "E1")],
    };
    let groups = expand(&config);
    let tags: Vec<&String> = groups.iter().map(|g| label_of(g, tag_key()).unwrap()).collect();
    assert_eq!(tags, vec!["b", "a", "c"]);
}

#[test]
fn test_tag_equal_to_reserved_key_stays_a_value() {
    // A tag spelled like a reserved label key is only ever a label value.
    let config = Config {
        target: vec![target("m", "https://odd", &["__tag"])],
        endpoint: vec![endpoint("1.2.3.4:1", "g1", "E1")],
    };
    let groups = expand(&config);
    assert_eq!(groups.len(), 1);
    assert_eq!(groups[0].labels.len(), 4);
    assert_eq!(label_of(&groups[0], tag_key()), Some(&"__tag".to_string()));
    assert_eq!(
        label_of(&groups[0], endpoint_name_key()),
        Some(&"E1".to_string())
    );
}

#[test]
fn test_label_lookup_first_match() {
    let fc = FileConfig {
        targets: vec!["https://a".to_string()],
        labels: vec![
            ("k".to_string(), "first".to_string()),
            ("k".to_string(), "second".to_string()),
        ],
    };
    assert_eq!(fc.label(&"k".to_string()), Some(&"first".to_string()));
    assert_eq!(fc.label(&"absent".to_string()), None);
}

#[test]
fn test_file_config_creation() {
    let targets = vec!["https://test1.com".to_string(), "https://test2.com".to_string()];
    let labels = vec![
        (endpoint_url_key().to_string(), "test.example.com:443".to_string()),
        (endpoint_name_key().to_string(), "TestEndpoint".to_string()),
        (endpoint_geohash_key().to_string(), "test_hash".to_string()),
        ("type".to_string(), "web".to_string()),
        ("env".to_string(), "prod".to_string()),
    ];

    let file_config = FileConfig { targets, labels };

    assert_eq!(file_config.targets.len(), 2);
    assert_eq!(file_config.labels.len(), 5);
    assert_eq!(
        label_of(&file_config, endpoint_name_key()),
        Some(&"TestEndpoint".to_string())
    );
    assert_eq!(label_of(&file_config, "type"), Some(&"web".to_string()));
}
