use apollo_client::{
    encode_configurations, is_success_status, ApolloClient, ApolloClientBuilderError,
};

#[test]
fn new_fills_every_default() {
    let client = ApolloClient::new("app".to_string());
    assert_eq!(client.config_server_url, "http://localhost:8090");
    assert_eq!(client.app_id, "app");
    assert_eq!(client.cluster_name, "default");
    assert_eq!(client.ip, None);
    assert_eq!(client.cache_path, "config/");
    assert_eq!(client.release_key, None);
}

#[test]
fn request_url_defaults_the_namespace_and_omits_the_ip() {
    let client = ApolloClient::new("app".to_string());
    assert_eq!(
        client.request_url(&None, &None),
        "http://localhost:8090/apps/app/clusters/default/namespaces/application/releases/latest"
    );
}

#[test]
fn request_url_takes_the_namespace_and_appends_the_ip() {
    let client = ApolloClient::new("app".to_string());
    assert_eq!(
        client.request_url(&Some("settings.json".to_string()), &Some("10.2.3.4".to_string())),
        "http://localhost:8090/apps/app/clusters/default/namespaces/settings.json/releases/latest?ip=10.2.3.4"
    );
    assert_eq!(
        client.request_url(&Some("settings.json".to_string()), &None),
        "http://localhost:8090/apps/app/clusters/default/namespaces/settings.json/releases/latest"
    );
    assert_eq!(
        client.request_url(&None, &Some("10.2.3.4".to_string())),
        "http://localhost:8090/apps/app/clusters/default/namespaces/application/releases/latest?ip=10.2.3.4"
    );
}

#[test]
fn cache_file_path_joins_directory_application_and_namespace() {
    let client = ApolloClient::new("app".to_string());
    assert_eq!(
        client.cache_file_path("application"),
        "config/app_configuration_application.txt"
    );
}

#[test]
fn cache_file_path_inserts_a_separator_only_where_needed() {
    let with_slash = ApolloClient::builder()
        .config_server_url("http://localhost:8090".to_string())
        .app_id("app".to_string())
        .cluster_name("default".to_string())
        .ip(None)
        .cache_path("cache".to_string())
        .release_key(None)
        .build()
        .unwrap();
    assert_eq!(
        with_slash.cache_file_path("application"),
        "cache/app_configuration_application.txt"
    );
}

#[test]
fn cache_content_is_the_serialized_mapping_and_replaces_in_full() {
    let first = vec![
        ("test_key".to_string(), "test_value".to_string()),
        ("tmp".to_string(), "tmp_value".to_string()),
    ];
    let second = vec![("only".to_string(), "pair".to_string())];
    let first_content = encode_configurations(&first);
    let second_content = encode_configurations(&second);
    assert_eq!(first_content, r#"{"test_key":"test_value","tmp":"tmp_value"}"#);
    assert_eq!(second_content, r#"{"only":"pair"}"#);
    assert!(!second_content.contains("test_key"));
}

#[test]
fn commit_release_key_remembers_the_key() {
    let mut client = ApolloClient::new("app".to_string());
    assert_eq!(client.release_key, None);
    client.commit_release_key("20220801235655-e16f24aa9a85bd6f");
    assert_eq!(
        client.release_key,
        Some("20220801235655-e16f24aa9a85bd6f".to_string())
    );
    let failed_fetch = apollo_client::decode_config("no payload at all");
    assert!(failed_fetch.is_err());
    assert_eq!(
        client.release_key,
        Some("20220801235655-e16f24aa9a85bd6f".to_string())
    );
}

#[test]
fn only_status_200_counts_as_connected() {
    assert!(is_success_status(200));
    assert!(!is_success_status(201));
    assert!(!is_success_status(404));
    assert!(!is_success_status(500));
}

#[test]
fn builder_builds_the_client_it_was_given() {
    let client = ApolloClient::builder()
        .config_server_url("http://apollo:8080".to_string())
        .app_id("shop".to_string())
        .cluster_name("eu".to_string())
        .ip(Some("10.0.0.7".to_string()))
        .cache_path("var/cache/".to_string())
        .release_key(Some("rk-1".to_string()))
        .build()
        .unwrap();
    assert_eq!(client.config_server_url, "http://apollo:8080");
    assert_eq!(client.app_id, "shop");
    assert_eq!(client.cluster_name, "eu");
    assert_eq!(client.ip, Some("10.0.0.7".to_string()));
    assert_eq!(client.cache_path, "var/cache/");
    assert_eq!(client.release_key, Some("rk-1".to_string()));
}

#[test]
fn builder_names_the_first_missing_field() {
    let err = ApolloClient::builder().build().unwrap_err();
    assert_eq!(
        err,
        ApolloClientBuilderError::UninitializedField("config_server_url".to_string())
    );
    let err = ApolloClient::builder()
        .config_server_url("http://localhost:8090".to_string())
        .build()
        .unwrap_err();
    assert_eq!(
        err,
        ApolloClientBuilderError::UninitializedField("app_id".to_string())
    );
}
