use rustcast::{check_outputs, config_value_to_string, fail_over_child, normalize_path, AwsS3ConfigKeys, ConfigValue, GlobalConfig, GoogleCloudStorageConfigKeys, LogLevel, PlaylistChildConfig, ShoutCastOutput, StreamError};

fn output(host: &str, port: u16, path: &str) -> ShoutCastOutput {
    ShoutCastOutput {
        host: host.to_string(),
        port,
        path: path.to_string(),
        playlist: "main".to_string(),
    }
}

fn assert_send_sync<T: Send + Sync>() {}

#[test]
fn test_playlist_child_config_sync_send() {
    assert_send_sync::<PlaylistChildConfig>();
}

#[test]
fn duplicate_routes_are_a_fatal_configuration_error() {
    let outputs = vec![
        output("127.0.0.1", 8000, "/stream"),
        output("127.0.0.1", 8000, "stream/"),
    ];
    let r = check_outputs(&outputs);
    assert!(matches!(r, Err(StreamError::ConfigError(_))));
}

#[test]
fn distinct_routes_pass_the_startup_check() {
    let outputs = vec![
        output("127.0.0.1", 8000, "/stream"),
        output("127.0.0.1", 8001, "/stream"),
        output("127.0.0.1", 8000, "/other"),
        output("0.0.0.0", 8000, "/stream"),
    ];
    assert!(check_outputs(&outputs).is_ok());
}

#[test]
fn paths_are_compared_with_their_slashes_trimmed() {
    assert_eq!(normalize_path("/stream"), "stream");
    assert_eq!(normalize_path("//a/b//"), "a/b");
    assert_eq!(normalize_path("///"), "");
    assert_eq!(normalize_path("plain"), "plain");
}

#[test]
fn command_line_arguments_override_the_file() {
    let mut config = GlobalConfig {
        playlists: Vec::new(),
        file_provider: Vec::new(),
        outputs: Vec::new(),
        log_level: Some(LogLevel::Info),
        log_file: vec!["stdout".to_string()],
        cache_dir: None,
    };
    config.apply_clap_args(None, Vec::new());
    assert_eq!(config.log_level, Some(LogLevel::Info));
    assert_eq!(config.log_file, vec!["stdout".to_string()]);

    config.apply_clap_args(Some(LogLevel::Debug), vec!["/var/log/radio".to_string()]);
    assert_eq!(config.log_level, Some(LogLevel::Debug));
    assert_eq!(config.log_file, vec!["/var/log/radio".to_string()]);
}

#[test]
fn provider_keys_keep_their_file_names() {
    assert_eq!(AwsS3ConfigKeys::Bucket.key_name(), "bucket");
    assert_eq!(AwsS3ConfigKeys::AccessKeyId.key_name(), "access_key_id");
    assert_eq!(AwsS3ConfigKeys::RequestPayer.key_name(), "request_payer");
    assert_eq!(GoogleCloudStorageConfigKeys::ServiceAccountKey.key_name(), "service_account_key");
}

#[test]
fn config_values_render_as_builder_strings() {
    assert_eq!(config_value_to_string(&ConfigValue::Null), "");
    assert_eq!(config_value_to_string(&ConfigValue::Bool(true)), "true");
    assert_eq!(config_value_to_string(&ConfigValue::Bool(false)), "false");
    assert_eq!(config_value_to_string(&ConfigValue::Integer(0)), "0");
    assert_eq!(config_value_to_string(&ConfigValue::Integer(65536)), "65536");
    assert_eq!(
        config_value_to_string(&ConfigValue::Text("requester".to_string())),
        "requester"
    );
}

#[test]
fn the_fail_over_child_is_exactly_the_configured_one() {
    let child = PlaylistChildConfig::LocalFolder {
        folder: "/music".to_string(),
        repeat: None,
        shuffle: None,
        recursive: None,
        fail_over: Some(Box::new(PlaylistChildConfig::Silent)),
    };
    match fail_over_child(&child) {
        Some(PlaylistChildConfig::Silent) => {}
        _ => panic!("the configured fail-over is the silent terminal"),
    }
    assert!(fail_over_child(&PlaylistChildConfig::Silent).is_none());
    let bare = PlaylistChildConfig::LocalFiles {
        files: vec!["a.mp3".to_string()],
        repeat: None,
        shuffle: None,
        fail_over: None,
    };
    assert!(fail_over_child(&bare).is_none());
}
