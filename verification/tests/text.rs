use apitoolchain::module_version;
use apitoolchain::text::{parse_i32, push_i32, str_eq, trim};

fn chars(s: &str) -> Vec<char> {
    s.chars().collect()
}

#[test]
fn parse_i32_reads_what_rust_reads() {
    for text in ["0", "7", "-7", "+7", "007", "2147483647", "-2147483648", "2147483648", "-2147483649", "", "+", "-", "1a", " 1", "99999999999999999999"] {
        assert_eq!(parse_i32(&chars(text)), text.parse::<i32>().ok(), "{text:?}");
    }
}

#[test]
fn numerals_are_written_as_rust_writes_them() {
    for x in [0, 5, 10, 42, -1, -10, 1000, i32::MAX, i32::MIN] {
        let mut s = String::from("x=");
        push_i32(&mut s, x);
        assert_eq!(s, format!("x={x}"));
    }
}

#[test]
fn trimming_matches_str_trim() {
    for text in ["", "  ", "v1.25.2\n", "\t v1 \u{3000}", "a b", "\u{85}x\u{a0}", "\u{200b}x"] {
        assert_eq!(trim(text), text.trim(), "{text:?}");
    }
}

#[test]
fn the_module_version_is_the_trimmed_version_file() {
    assert_eq!(module_version("v1.25.2\n"), "v1.25.2");
}

#[test]
fn strings_compare_by_characters() {
    assert!(str_eq("rest", "rest"));
    assert!(!str_eq("rest", "rests"));
    assert!(!str_eq("", "a"));
}
