use paimon::text::{
    comes_before, contains_char, file_name, same, signed_text, starts_with, strip_prefix,
    unsigned_text,
};
use paimon::video_snapshot::{registration_warning, video_snapshot, ValueType, Volatility};
use paimon::vindex_build::{
    build_options, catalog_options, checked_options, BuildRequest, MissingArgument,
};
use std::collections::HashMap;

fn args(texts: &[&str]) -> Vec<String> {
    texts.iter().map(|text| text.to_string()).collect()
}

#[test]
fn video_snapshot_takes_a_blob_and_a_number() {
    let builtin = video_snapshot();
    assert_eq!(builtin.name, "video_snapshot");
    assert_eq!(builtin.image_format, "PNG");
    assert_eq!(
        builtin.signatures,
        vec![
            vec![ValueType::Binary],
            vec![ValueType::Binary, ValueType::Int32],
            vec![ValueType::Binary, ValueType::Int64],
        ]
    );
    assert_eq!(builtin.returns, ValueType::Binary);
    assert_eq!(builtin.volatility, Volatility::Volatile);
}

#[test]
fn a_failed_registration_is_a_warning() {
    assert_eq!(registration_warning(Ok(())), None);
    assert_eq!(
        registration_warning(Err("no module".to_string())),
        Some("video_snapshot built-in could not be registered: no module".to_string())
    );
}

#[test]
fn build_requests_are_parsed() {
    let request = BuildRequest::parse(&args(&["db", "t", "v"])).unwrap();
    assert_eq!(request.database, "db");
    assert_eq!(request.table, "t");
    assert_eq!(request.column, "v");
    assert!(!request.drop_existing);
    let request = BuildRequest::parse(&args(&["db", "t", "v", "x", "--drop-existing", "y"])).unwrap();
    assert!(request.drop_existing);
    let request = BuildRequest::parse(&args(&["db", "t", "--drop-existing"])).unwrap();
    assert_eq!(request.column, "--drop-existing");
    assert!(!request.drop_existing);
    let request = BuildRequest::parse(&args(&["db", "t", "v", "--drop-existing-files"])).unwrap();
    assert!(!request.drop_existing);
}

#[test]
fn missing_arguments_are_named() {
    let missing = BuildRequest::parse(&args(&[])).unwrap_err();
    assert_eq!(missing, MissingArgument::Database);
    assert_eq!(missing.message(), "missing <database> argument");
    let missing = BuildRequest::parse(&args(&["db"])).unwrap_err();
    assert_eq!(missing, MissingArgument::Table);
    assert_eq!(missing.message(), "missing <table> argument");
    let missing = BuildRequest::parse(&args(&["db", "t"])).unwrap_err();
    assert_eq!(missing, MissingArgument::VectorColumn);
    assert_eq!(missing.message(), "missing <vector-column> argument");
}

#[test]
fn the_index_is_built_with_these_options() {
    let options: Vec<(String, String)> = vec![
        ("dimension".to_string(), "768".to_string()),
        ("metric".to_string(), "cosine".to_string()),
        ("nlist".to_string(), "4096".to_string()),
        ("pq.m".to_string(), "192".to_string()),
    ];
    assert_eq!(build_options(), options);
}

#[test]
fn numbers_read_as_std_writes_them() {
    for n in [0u64, 7, 10, 19, 100, 12345678909, u64::MAX] {
        assert_eq!(unsigned_text(n), n.to_string());
    }
    for n in [0i64, -1, 42, -42, 1000, i64::MAX, i64::MIN] {
        assert_eq!(signed_text(n), n.to_string());
    }
}

#[test]
fn text_functions_agree_with_std() {
    let texts = [
        "", "a", "ab", "b", "/", "a/", "/a", "a/b", "a//b", "\u{e9}", "\u{e9}a", "\u{1f600}",
        "\u{ffff}", "abc", "B",
    ];
    for a in texts {
        assert_eq!(contains_char(a, '/'), a.contains('/'));
        assert_eq!(file_name(a), a.rsplit('/').next().unwrap_or(a));
        for b in texts {
            assert_eq!(starts_with(a, b), a.starts_with(b));
            assert_eq!(same(a, b), a == b);
            assert_eq!(comes_before(a, b), a < b);
            assert_eq!(strip_prefix(a, b).as_deref(), a.strip_prefix(b));
        }
    }
}

#[test]
fn catalog_options_are_a_json_object_of_strings() {
    let text = r#"{"metastore":"filesystem","warehouse":"/tmp/warehouse"}"#;
    let options = catalog_options(text).unwrap();
    assert_eq!(options.len(), 2);
    assert_eq!(options["metastore"], "filesystem");
    assert_eq!(options["warehouse"], "/tmp/warehouse");
    assert_eq!(catalog_options(" {} ").unwrap().len(), 0);
    let repeated = catalog_options(r#"{"a":"1","a":"2"}"#).unwrap();
    assert_eq!(repeated.len(), 1);
    assert_eq!(repeated["a"], "2");
}

#[test]
fn other_catalog_options_are_invalid() {
    for text in ["", "{", "[]", "{\"a\":1}", "{\"a\":\"1\"} x"] {
        let invalid = catalog_options(text).unwrap_err();
        let error = serde_json::from_str::<HashMap<String, String>>(text).unwrap_err();
        assert_eq!(invalid.source.to_string(), error.to_string());
    }
    let map: HashMap<String, String> = [("a".to_string(), "b".to_string())].into();
    assert_eq!(checked_options(Ok(map.clone())).unwrap(), map);
    let error = serde_json::from_str::<HashMap<String, String>>("1").unwrap_err();
    let text = error.to_string();
    assert_eq!(
        checked_options(Err(error)).unwrap_err().source.to_string(),
        text
    );
}
