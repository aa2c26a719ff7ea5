use apitoolchain::cache::{artifact_name, artifact_path, cache_dir, join_path};

#[test]
fn the_cache_directory_is_overridable() {
    assert_eq!(
        cache_dir(Some("/tmp/some-cache"), false, Some("/xdg"), Some("/home/u")),
        Some("/tmp/some-cache".to_string())
    );
}

#[test]
fn the_platform_cache_directory_is_used_otherwise() {
    assert_eq!(
        cache_dir(None, false, Some("/xdg"), Some("/home/u")),
        Some("/xdg/apitoolchain/rest".to_string())
    );
    assert_eq!(
        cache_dir(None, false, None, Some("/home/u")),
        Some("/home/u/.cache/apitoolchain/rest".to_string())
    );
    assert_eq!(
        cache_dir(None, true, Some("/xdg"), Some("/Users/u")),
        Some("/Users/u/Library/Caches/apitoolchain/rest".to_string())
    );
    assert_eq!(cache_dir(None, true, None, None), None);
    assert_eq!(cache_dir(None, false, None, None), None);
}

#[test]
fn paths_join_as_the_platform_joins_them() {
    assert_eq!(join_path("/a", "b"), "/a/b");
    assert_eq!(join_path("/a/", "b"), "/a/b");
    assert_eq!(join_path("", "b"), "b");
}

#[test]
fn the_artifact_name_changes_with_the_key() {
    assert_eq!(artifact_name(0), "openapi-0000000000000000.cwasm");
    assert_eq!(artifact_name(0xdead_beef), "openapi-00000000deadbeef.cwasm");
    assert_eq!(artifact_name(u64::MAX), "openapi-ffffffffffffffff.cwasm");
    assert_ne!(artifact_name(10), artifact_name(11));
    assert_eq!(format!("openapi-{:016x}.cwasm", 0x0123_4567_89ab_cdefu64), artifact_name(0x0123_4567_89ab_cdef));
}

#[test]
fn the_artifact_lives_in_the_cache_directory() {
    assert_eq!(
        artifact_path(Some("/c"), 1),
        Some("/c/openapi-0000000000000001.cwasm".to_string())
    );
    assert_eq!(artifact_path(None, 1), None);
}
