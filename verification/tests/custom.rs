use apitoolchain::custom::{overrides, rest_exit_status, rest_result, Error, Exit, REST_EXIT};

#[test]
fn exit_status_round_trips_through_the_error_seam() {
    let err = Error::Invalid(format!("{REST_EXIT}3"));
    let path = vec!["rest".to_string()];
    assert!(rest_exit_status(&path, &err).is_some());
    assert_eq!(rest_exit_status(&path, &err), Some(3));
}

#[test]
fn a_status_that_truncates_to_zero_is_floored_at_failure() {
    // 256 & 0xff == 0; reporting success for a failure is the one outcome
    // worth special-casing. The failure status is 1.
    let err = Error::Invalid(format!("{REST_EXIT}256"));
    let path = vec!["rest".to_string()];
    let code = rest_exit_status(&path, &err).expect("decoded");
    assert_eq!(code, 1);
}

#[test]
fn ordinary_errors_are_left_alone() {
    let path = vec!["rest".to_string()];
    assert!(rest_exit_status(&path, &Error::Invalid("boom".into())).is_none());

    let other = vec!["get".to_string()];
    let err = Error::Invalid(format!("{REST_EXIT}3"));
    assert!(rest_exit_status(&other, &err).is_none());
}

#[test]
fn statuses_keep_their_low_eight_bits() {
    let path = vec!["rest".to_string(), "spec".to_string()];
    let decode = |text: &str| rest_exit_status(&path, &Error::Invalid(format!("{REST_EXIT}{text}")));
    assert_eq!(decode("0"), Some(0));
    assert_eq!(decode("1"), Some(1));
    assert_eq!(decode("255"), Some(255));
    assert_eq!(decode("257"), Some(1));
    assert_eq!(decode("300"), Some(44));
    assert_eq!(decode("-1"), Some(255));
    assert_eq!(decode("-256"), Some(1));
    assert_eq!(decode("+7"), Some(7));
    assert_eq!(decode("2147483647"), Some(255));
    assert_eq!(decode("-2147483648"), Some(1));
    assert_eq!(decode("2147483648"), None);
    assert_eq!(decode(""), None);
    assert_eq!(decode("-"), None);
    assert_eq!(decode(" 3"), None);
    assert_eq!(decode("3x"), None);
}

#[test]
fn other_failures_are_not_decoded() {
    let path = vec!["rest".to_string()];
    assert_eq!(rest_exit_status(&path, &Error::Other(format!("{REST_EXIT}3"))), None);
    assert_eq!(rest_exit_status(&[], &Error::Invalid(format!("{REST_EXIT}3"))), None);
    assert_eq!(rest_exit_status(&path, &Error::Invalid("rest-exit:3".into())), None);
}

#[test]
fn rest_outcomes_reach_the_dispatcher() {
    assert!(matches!(rest_result(Ok(0)), Ok(())));
    match rest_result(Ok(3)) {
        Err(Error::Invalid(m)) => assert_eq!(m, format!("{REST_EXIT}3")),
        other => panic!("{other:?}"),
    }
    match rest_result(Ok(-12)) {
        Err(Error::Invalid(m)) => assert_eq!(m, format!("{REST_EXIT}-12")),
        other => panic!("{other:?}"),
    }
    match rest_result(Err(apitoolchain::Error::Host("cannot start".into()))) {
        Err(Error::Invalid(m)) => assert_eq!(m, "rest: cannot start"),
        other => panic!("{other:?}"),
    }
    match rest_result(Err(apitoolchain::Error::Trap("bad".into()))) {
        Err(Error::Invalid(m)) => assert_eq!(m, "rest: the rest engine crashed: bad"),
        other => panic!("{other:?}"),
    }
}

#[test]
fn a_status_round_trips_end_to_end() {
    let path = vec!["rest".to_string()];
    for code in [1, 2, 7, 255, 256, 512, 1000, -1, i32::MAX, i32::MIN] {
        let err = rest_result(Ok(code)).unwrap_err();
        let expected = if code as u8 == 0 { 1 } else { code as u8 };
        assert_eq!(rest_exit_status(&path, &err), Some(expected), "{code}");
    }
}

#[test]
fn print_error_silences_rest_and_reports_the_rest() {
    let custom = overrides();
    let rest = vec!["rest".to_string()];
    let err = Error::Invalid(format!("{REST_EXIT}4"));
    assert_eq!(custom.print_error(&rest, &err), Exit { report: false, code: 4 });
    let get = vec!["get".to_string()];
    assert_eq!(custom.print_error(&get, &err), Exit { report: true, code: 1 });
    assert_eq!(
        custom.print_error(&rest, &Error::Invalid("rest: boom".into())),
        Exit { report: true, code: 1 }
    );
}
