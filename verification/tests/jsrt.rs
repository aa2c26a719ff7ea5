use apitoolchain::jsrt::{as_array_index, is_js_whitespace, js_object_keys, node_path_join};

#[test]
fn matches_node_path_join() {
    let cases: &[(&[&str], &str)] = &[
        (&["/docs", "a"], "/docs/a"),
        (&["a", "b/"], "a/b/"),
        (&["a", "..", "b"], "b"),
        (&["a", "", "b"], "a/b"),
        (&["a", ".", "b"], "a/b"),
        (&["a/b", "c"], "a/b/c"),
        (&["a//b", "c"], "a/b/c"),
        (&["docs/api", "todos"], "docs/api/todos"),
        (&["/a", "..", "b"], "/b"),
        (&["..", "a"], "../a"),
        (&[""], "."),
        (&[], "."),
    ];
    for (input, want) in cases {
        assert_eq!(
            node_path_join(input),
            *want,
            "node_path_join({input:?}) should equal path.join(...) === {want:?}"
        );
    }
}

#[test]
fn js_whitespace_matches_the_regex_class() {
    for c in ['\t', '\n', '\u{000B}', '\u{000C}', '\r', ' ', '\u{00A0}', '\u{1680}', '\u{2000}', '\u{2005}', '\u{200A}', '\u{2028}', '\u{2029}', '\u{202F}', '\u{205F}', '\u{3000}', '\u{FEFF}'] {
        assert!(is_js_whitespace(c), "{c:?}");
    }
    for c in ['a', '0', '\u{0085}', '\u{200B}', '\u{1FFF}', '_'] {
        assert!(!is_js_whitespace(c), "{c:?}");
    }
}

#[test]
fn node_path_join_edge_cases() {
    assert_eq!(node_path_join(&["/"]), "/");
    assert_eq!(node_path_join(&["/", ".."]), "/");
    assert_eq!(node_path_join(&["a", ".."]), ".");
    assert_eq!(node_path_join(&["a", "../"]), "./");
    assert_eq!(node_path_join(&["..", ".."]), "../..");
    assert_eq!(node_path_join(&["a", "../..", "b"]), "../b");
    assert_eq!(node_path_join(&["/a/b/", "./c/"]), "/a/b/c/");
    assert_eq!(node_path_join(&["", "", ""]), ".");
    assert_eq!(node_path_join(&["./"]), "./");
    assert_eq!(node_path_join(&["héllo", "wörld"]), "héllo/wörld");
}

#[test]
fn array_index_keys_are_canonical_integers() {
    assert_eq!(as_array_index("0"), Some(0));
    assert_eq!(as_array_index("42"), Some(42));
    assert_eq!(as_array_index("4294967294"), Some(4294967294));
    assert_eq!(as_array_index("4294967295"), None);
    assert_eq!(as_array_index("10000000000"), None);
    assert_eq!(as_array_index("01"), None);
    assert_eq!(as_array_index(""), None);
    assert_eq!(as_array_index("-1"), None);
    assert_eq!(as_array_index("+1"), None);
    assert_eq!(as_array_index("1.5"), None);
    assert_eq!(as_array_index("a"), None);
}

#[test]
fn object_keys_put_indices_first_in_ascending_order() {
    let mut map = serde_json::Map::new();
    for k in ["b", "10", "a", "2", "01", "0", "4294967295", "1"] {
        map.insert(k.to_string(), serde_json::Value::Null);
    }
    let keys: Vec<&str> = js_object_keys(&map).into_iter().map(|k| k.as_str()).collect();
    assert_eq!(keys, ["0", "1", "2", "10", "b", "a", "01", "4294967295"]);
    let empty = serde_json::Map::new();
    assert!(js_object_keys(&empty).is_empty());
}

#[test]
fn joining_a_joined_path_changes_nothing() {
    let inputs: &[&[&str]] = &[
        &["/docs", "a"],
        &["a", "b/"],
        &["..", "a", "..", "..", "b/"],
        &["/a/../..", "c"],
        &["./", ""],
        &[],
        &["a//b/./c/", "..", "d"],
    ];
    for input in inputs {
        let once = node_path_join(input);
        assert_eq!(node_path_join(&[once.as_str()]), once, "{input:?}");
    }
}

#[test]
fn object_keys_list_every_key_once() {
    let mut map = serde_json::Map::new();
    for k in ["z", "3", "x", "007", "1", "y", "0"] {
        map.insert(k.to_string(), serde_json::Value::Bool(true));
    }
    let mut listed: Vec<String> = js_object_keys(&map).into_iter().cloned().collect();
    assert_eq!(listed.len(), map.len());
    listed.sort();
    let mut all: Vec<String> = map.keys().cloned().collect();
    all.sort();
    assert_eq!(listed, all);
}
