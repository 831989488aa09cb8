use apollo_client::{decode_config, decode_configurations, DecodeError};

const EXAMPLE_PAYLOAD: &str = r#"
        {
            "appId": "app",
            "clusterName": "default",
            "comment": "",
            "configurations": "{\"test_key\":\"test_value\",\"tmp\":\"tmp_value\"}",
            "dataChangeCreatedBy": "apollo",
            "dataChangeCreatedTime": "2022-08-01T23:56:55.000+0800",
            "dataChangeLastModifiedBy": "apollo",
            "dataChangeLastModifiedTime": "2022-08-01T23:56:55.000+0800",
            "id": 3,
            "isAbandoned": false,
            "name": "20220801235653-release",
            "namespaceName": "application",
            "releaseKey": "20220801235655-e16f24aa9a85bd6f"
          }"#;

#[test]
fn test_name() {
    let config = decode_config(EXAMPLE_PAYLOAD).unwrap();
    println!("{config:#?}");
}

#[test]
fn decodes_example_payload_in_full() {
    let config = decode_config(EXAMPLE_PAYLOAD).unwrap();
    assert_eq!(config.id, 3);
    assert_eq!(config.release_key, "20220801235655-e16f24aa9a85bd6f");
    assert_eq!(config.name, "20220801235653-release");
    assert_eq!(config.app_id, "app");
    assert_eq!(config.cluster_name, "default");
    assert_eq!(config.namespace_name, "application");
    assert_eq!(config.comment, "");
    assert!(!config.is_abandoned);
    assert_eq!(config.data_change_created_by, "apollo");
    assert_eq!(config.data_change_last_modified_by, "apollo");
    assert_eq!(config.data_change_created_time, "2022-08-01T23:56:55.000+0800");
    assert_eq!(config.data_change_last_modified_time, "2022-08-01T23:56:55.000+0800");
    assert_eq!(
        config.configurations,
        vec![
            ("test_key".to_string(), "test_value".to_string()),
            ("tmp".to_string(), "tmp_value".to_string()),
        ]
    );
}

#[test]
fn bad_inner_json_is_a_configurations_error() {
    let payload = r#"{
        "appId": "app",
        "clusterName": "default",
        "comment": "",
        "configurations": "not inner json",
        "dataChangeCreatedBy": "apollo",
        "dataChangeCreatedTime": "t",
        "dataChangeLastModifiedBy": "apollo",
        "dataChangeLastModifiedTime": "t",
        "id": 3,
        "isAbandoned": false,
        "name": "n",
        "namespaceName": "application",
        "releaseKey": "rk"
    }"#;
    assert_eq!(decode_config(payload), Err(DecodeError::Configurations));
}

#[test]
fn inner_object_with_non_string_value_is_a_configurations_error() {
    let payload = r#"{
        "appId": "app",
        "clusterName": "default",
        "comment": "",
        "configurations": "{\"a\":1}",
        "dataChangeCreatedBy": "apollo",
        "dataChangeCreatedTime": "t",
        "dataChangeLastModifiedBy": "apollo",
        "dataChangeLastModifiedTime": "t",
        "id": 3,
        "isAbandoned": false,
        "name": "n",
        "namespaceName": "application",
        "releaseKey": "rk"
    }"#;
    assert_eq!(decode_config(payload), Err(DecodeError::Configurations));
}

#[test]
fn missing_field_is_a_shape_error() {
    let payload = r#"{
        "appId": "app",
        "clusterName": "default",
        "comment": "",
        "configurations": "{}",
        "dataChangeCreatedBy": "apollo",
        "dataChangeCreatedTime": "t",
        "dataChangeLastModifiedBy": "apollo",
        "dataChangeLastModifiedTime": "t",
        "isAbandoned": false,
        "name": "n",
        "namespaceName": "application",
        "releaseKey": "rk"
    }"#;
    assert_eq!(decode_config(payload), Err(DecodeError::Shape));
}

#[test]
fn wrongly_typed_field_is_a_shape_error() {
    let payload = r#"{
        "appId": "app",
        "clusterName": "default",
        "comment": "",
        "configurations": "{}",
        "dataChangeCreatedBy": "apollo",
        "dataChangeCreatedTime": "t",
        "dataChangeLastModifiedBy": "apollo",
        "dataChangeLastModifiedTime": "t",
        "id": "three",
        "isAbandoned": false,
        "name": "n",
        "namespaceName": "application",
        "releaseKey": "rk"
    }"#;
    assert_eq!(decode_config(payload), Err(DecodeError::Shape));
}

#[test]
fn a_body_that_is_not_json_is_a_syntax_error() {
    assert_eq!(decode_config("not json at all"), Err(DecodeError::Syntax));
    assert_eq!(decode_config(""), Err(DecodeError::Syntax));
    assert_eq!(decode_config("[1,2]"), Err(DecodeError::Syntax));
}

#[test]
fn unknown_fields_are_tolerated() {
    let payload = r#"{
        "appId": "app",
        "clusterName": "default",
        "comment": "",
        "configurations": "{}",
        "dataChangeCreatedBy": "apollo",
        "dataChangeCreatedTime": "t",
        "dataChangeLastModifiedBy": "apollo",
        "dataChangeLastModifiedTime": "t",
        "id": 3,
        "isAbandoned": false,
        "name": "n",
        "namespaceName": "application",
        "releaseKey": "rk",
        "somethingNew": true,
        "anotherCounter": -12
    }"#;
    let config = decode_config(payload).unwrap();
    assert_eq!(config.id, 3);
    assert_eq!(config.configurations, Vec::<(String, String)>::new());
}

#[test]
fn id_bounds_are_the_signed_64_bit_range() {
    let ok = r#"{
        "appId": "a", "clusterName": "c", "comment": "", "configurations": "{}",
        "dataChangeCreatedBy": "x", "dataChangeCreatedTime": "t",
        "dataChangeLastModifiedBy": "x", "dataChangeLastModifiedTime": "t",
        "id": 9223372036854775807, "isAbandoned": false,
        "name": "n", "namespaceName": "ns", "releaseKey": "rk"
    }"#;
    assert_eq!(decode_config(ok).unwrap().id, i64::MAX);
    let too_big = r#"{
        "appId": "a", "clusterName": "c", "comment": "", "configurations": "{}",
        "dataChangeCreatedBy": "x", "dataChangeCreatedTime": "t",
        "dataChangeLastModifiedBy": "x", "dataChangeLastModifiedTime": "t",
        "id": 9223372036854775808, "isAbandoned": false,
        "name": "n", "namespaceName": "ns", "releaseKey": "rk"
    }"#;
    assert_eq!(decode_config(too_big), Err(DecodeError::Syntax));
    let negative = ok.replace("9223372036854775807", "-42");
    assert_eq!(decode_config(&negative).unwrap().id, -42);
}

#[test]
fn decode_configurations_reads_a_flat_string_map() {
    assert_eq!(
        decode_configurations(r#"{"a":"b"}"#).unwrap(),
        vec![("a".to_string(), "b".to_string())]
    );
    assert_eq!(decode_configurations("{}").unwrap(), Vec::<(String, String)>::new());
    assert_eq!(decode_configurations(" { \"a\" : \"b\" } ").unwrap(), vec![(
        "a".to_string(),
        "b".to_string(),
    )]);
    assert_eq!(
        decode_configurations(r#"{"a":3}"#),
        Err(DecodeError::Configurations)
    );
    assert_eq!(
        decode_configurations(r#"{"a":"b""#),
        Err(DecodeError::Configurations)
    );
}

#[test]
fn string_escapes_decode() {
    let pairs = decode_configurations(r#"{"k":"a\nb\t\"q\" \\ Aé"}"#).unwrap();
    assert_eq!(pairs, vec![("k".to_string(), "a\nb\t\"q\" \\ A\u{e9}".to_string())]);
}

#[test]
fn unicode_escapes_decode() {
    assert_eq!(
        decode_configurations(r#"{"k":"\u0041\u00e9\u4e2d"}"#).unwrap(),
        vec![("k".to_string(), "A\u{e9}\u{4e2d}".to_string())]
    );
}

#[test]
fn lone_surrogate_escape_is_rejected() {
    assert_eq!(
        decode_configurations(r#"{"k":"\ud834"}"#),
        Err(DecodeError::Configurations)
    );
}
