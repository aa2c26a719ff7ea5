use apitoolchain::wasi::{plan, HostVar};

fn env(pairs: &[(&str, &str)]) -> Vec<HostVar> {
    pairs.iter().map(|(k, v)| (Some(k.to_string()), Some(v.to_string()))).collect()
}

#[test]
fn argv0_is_injected_ahead_of_the_users_arguments() {
    let p = plan(&["spec".into(), "validate".into(), "x.yaml".into()], "/work", &env(&[]));
    assert_eq!(p.argv, ["openapi", "spec", "validate", "x.yaml"]);
}

#[test]
fn pwd_is_the_host_cwd_and_never_the_inherited_one() {
    let p = plan(&[], "/work/project", &env(&[("PWD", "/somewhere/else")]));
    let pwds: Vec<&str> = p.env.iter().filter(|(k, _)| k == "PWD").map(|(_, v)| v.as_str()).collect();
    assert_eq!(pwds, ["/work/project"], "exactly one PWD, and it is the cwd");
}

#[test]
fn other_environment_variables_pass_through() {
    let p = plan(&[], "/w", &env(&[("HOME", "/home/x"), ("NO_COLOR", "1")]));
    assert!(p.env.contains(&("HOME".to_string(), "/home/x".to_string())));
    assert!(p.env.contains(&("NO_COLOR".to_string(), "1".to_string())));
}

#[test]
fn non_utf8_environment_pairs_are_dropped_not_fatal() {
    // A name that is not UTF-8 reaches the library as `None`.
    let p = plan(&[], "/w", &[(None, Some("v".to_string()))]);
    assert!(p.env.iter().all(|(k, _)| k == "PWD"));
    let p = plan(&[], "/w", &[(Some("K".to_string()), None)]);
    assert!(p.env.iter().all(|(k, _)| k == "PWD"));
}

#[test]
fn the_preopen_does_not_remap() {
    let p = plan(&[], "/w", &env(&[]));
    assert_eq!(p.preopen, ("/".to_string(), "/".to_string()));
}

#[test]
fn the_environment_keeps_the_hosts_order_and_ends_with_pwd() {
    let p = plan(&[], "/w", &env(&[("B", "2"), ("PWD", "/x"), ("A", "1")]));
    assert_eq!(
        p.env,
        [
            ("B".to_string(), "2".to_string()),
            ("A".to_string(), "1".to_string()),
            ("PWD".to_string(), "/w".to_string())
        ]
    );
}
