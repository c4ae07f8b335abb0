use oss_cli::errors::CliError;
use oss_cli::settings::init_client;

fn some(s: &str) -> Option<String> {
    Some(s.to_string())
}

#[test]
fn all_four_settings_are_taken() {
    let s = init_client(some("id"), some("secret"), some("https://e"), some("bucket")).unwrap();
    assert_eq!(s.key_id, "id");
    assert_eq!(s.key_secret, "secret");
    assert_eq!(s.endpoint, "https://e");
    assert_eq!(s.bucket, "bucket");
}

#[test]
fn first_missing_setting_is_named() {
    let cases = [
        (None, some("s"), some("e"), some("b"), "ALIYUN_KEY_ID"),
        (some("k"), None, some("e"), some("b"), "ALIYUN_KEY_SECRET"),
        (some("k"), some("s"), None, some("b"), "ALIYUN_ENDPOINT"),
        (some("k"), some("s"), some("e"), None, "ALIYUN_BUCKET"),
        (None, None, None, None, "ALIYUN_KEY_ID"),
        (some("k"), None, None, some("b"), "ALIYUN_KEY_SECRET"),
    ];
    for (k, s, e, b, name) in cases {
        let err = init_client(k, s, e, b).unwrap_err();
        assert!(matches!(err, CliError::VarError(_)));
        assert!(!err.is_input());
        assert_eq!(err.message(), format!("var error: {}", name));
    }
}

#[test]
fn each_kind_of_error_has_its_words() {
    assert_eq!(CliError::OssError("x".to_string()).message(), "oss-client error: x");
    assert_eq!(CliError::Io("y".to_string()).message(), "io error: y");
    assert_eq!(CliError::VarError("z".to_string()).message(), "var error: z");
    assert_eq!(CliError::Input("w").message(), "input error: w");
    assert!(CliError::Input("w").is_input());
    assert!(!CliError::Io(String::new()).is_input());
}
