use paimon::blob_reader::BlobReaderRegistry;

fn registry(prefixes: &[&str]) -> BlobReaderRegistry<usize> {
    let mut registry = BlobReaderRegistry::default();
    for (i, prefix) in prefixes.iter().enumerate() {
        registry.register(prefix.to_string(), i);
    }
    registry
}

#[test]
fn an_empty_registry_resolves_nothing() {
    let registry: BlobReaderRegistry<usize> = BlobReaderRegistry::default();
    assert_eq!(registry.resolve("file:/a"), None);
    assert_eq!(registry.resolve(""), None);
}

#[test]
fn the_longest_prefix_wins() {
    let registry = registry(&["s3://bucket/", "s3://bucket/warehouse/", "s3://"]);
    assert_eq!(registry.resolve("s3://bucket/warehouse/blob"), Some(1));
    assert_eq!(registry.resolve("s3://bucket/other"), Some(0));
    assert_eq!(registry.resolve("s3://elsewhere"), Some(2));
    assert_eq!(registry.resolve("s3:/"), None);
    assert_eq!(registry.resolve("file:/s3://bucket/"), None);
}

#[test]
fn the_empty_prefix_serves_everything_else() {
    let registry = registry(&["", "file:"]);
    assert_eq!(registry.resolve("oss://x"), Some(0));
    assert_eq!(registry.resolve(""), Some(0));
    assert_eq!(registry.resolve("file:"), Some(1));
}

#[test]
fn a_later_registration_replaces_the_handle() {
    let mut registry = registry(&["a", "b", "c"]);
    registry.register("b".to_string(), 9);
    assert_eq!(registry.resolve("a1"), Some(0));
    assert_eq!(registry.resolve("b1"), Some(9));
    assert_eq!(registry.resolve("c1"), Some(2));
}

#[test]
fn a_registration_if_absent_keeps_the_handle() {
    let mut registry = registry(&["a"]);
    registry.register_if_absent("a".to_string(), 5);
    registry.register_if_absent("ab".to_string(), 6);
    registry.register_if_absent("ab".to_string(), 7);
    assert_eq!(registry.resolve("a"), Some(0));
    assert_eq!(registry.resolve("abc"), Some(6));
}

#[test]
fn the_order_of_registrations_does_not_matter() {
    let mut first: BlobReaderRegistry<usize> = BlobReaderRegistry::default();
    first.register("x".to_string(), 1);
    first.register("xy".to_string(), 2);
    let mut second: BlobReaderRegistry<usize> = BlobReaderRegistry::default();
    second.register("xy".to_string(), 2);
    second.register("x".to_string(), 1);
    for uri in ["x", "xy", "xyz", "xz", "z"] {
        assert_eq!(first.resolve(uri), second.resolve(uri));
    }
}

#[test]
fn prefixes_outside_ascii_are_measured_alike() {
    let registry = registry(&["\u{e9}", "\u{e9}\u{1f600}", "e"]);
    assert_eq!(registry.resolve("\u{e9}\u{1f600}x"), Some(1));
    assert_eq!(registry.resolve("\u{e9}x"), Some(0));
    assert_eq!(registry.resolve("ex"), Some(2));
    assert_eq!(registry.resolve("\u{e8}x"), None);
}
