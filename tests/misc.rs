use logss::args::{parse_cmd, render_in_range, validate_regex, LocalContainer};
use logss::input::Input;
use logss::pattern::Pattern;
use logss::text::{parse_decimal_u64, split_pieces, trimmed};

#[test]
fn test_render_in_range() {
    assert_eq!(render_in_range("30"), Ok(Some(30)));
}

#[test]
fn render_interval_errors() {
    assert_eq!(render_in_range("abc"), Err("`abc` isn't a valid number".to_string()));
    assert_eq!(render_in_range("10"), Err("`10` is below the 25 ms minimum".to_string()));
    assert_eq!(render_in_range("25"), Ok(Some(25)));
}

#[test]
fn decimal_parsing_matches_std() {
    for s in ["0", "+7", "42", "18446744073709551615", "18446744073709551616", "", "+", "-1", "1a", " 1", "007"] {
        assert_eq!(parse_decimal_u64(s), s.parse::<u64>().ok(), "{}", s);
    }
}

#[test]
fn test_validate_regex() {
    let c = vec![LocalContainer { re: "a".to_string(), trigger: None, timeout: None }];
    assert!(validate_regex(&c));

    let c = vec![LocalContainer { re: "*".to_string(), trigger: None, timeout: None }];
    assert!(!validate_regex(&c));
}

#[test]
fn simple_full_test() {
    let mut input = Input::new();
    assert_eq!(input.input, String::new());

    input.push('a');
    assert_eq!(input.input, "a");
    input.push('b');
    assert_eq!(input.input, "ab");
    input.pop();
    assert_eq!(input.input, "a");
    input.reset();
    assert_eq!(input.input, String::new());
}

#[test]
fn input_validity_and_copy() {
    let mut input = Input::new();
    input.pop();
    assert_eq!(input.input, "");
    input.push('[');
    assert!(!input.is_valid());
    input.push('a');
    input.push(']');
    assert!(input.is_valid());
    assert_eq!(input.inner_clone(), "[a]");
}

#[test]
fn pattern_finds_character_positions() {
    let p = Pattern::new("é+").unwrap();
    assert_eq!(p.as_str(), "é+");
    assert_eq!(p.find("caféé!"), Some((3, 5)));
    assert_eq!(p.find("cafe"), None);
    assert!(Pattern::new("(").is_err());
}

#[test]
fn test_main() {}

#[test]
fn parse_cmd_splits_at_white_space() {
    assert_eq!(parse_cmd("  cat   Cargo.toml \t"), vec!["cat".to_string(), "Cargo.toml".to_string()]);
    assert_eq!(parse_cmd(""), Vec::<String>::new());
    for s in ["a b", " x\u{3000}y\n", "tail -f /var/log/syslog", "\u{a0}"] {
        let expected: Vec<String> = s.split_whitespace().map(str::to_string).collect();
        assert_eq!(parse_cmd(s), expected);
    }
}

#[test]
fn text_helpers_match_std() {
    for s in ["", " a ", "\t\u{2003}b c\u{85}", "x,y,,z", ",", "é, ü "] {
        assert_eq!(trimmed(s), s.trim());
        let expected: Vec<String> = s.split(',').map(str::to_string).collect();
        assert_eq!(split_pieces(s, ','), expected);
    }
}

#[test]
fn local_container_parsing() {
    assert_eq!(
        LocalContainer::parse(" to , echo hi , 5 "),
        Ok(LocalContainer { re: "to".to_string(), trigger: Some("echo hi".to_string()), timeout: Some(5) })
    );
    assert_eq!(
        LocalContainer::parse("a"),
        Ok(LocalContainer { re: "a".to_string(), trigger: None, timeout: Some(1) })
    );
    assert_eq!(
        LocalContainer::parse("a, ,x"),
        Ok(LocalContainer { re: "a".to_string(), trigger: None, timeout: Some(1) })
    );
    assert_eq!(
        LocalContainer::parse("a,b,c,d"),
        Err("Expected not more than 2 comma-separated parts")
    );
    let parsed: LocalContainer = "not,,7".parse().unwrap();
    assert_eq!(parsed.timeout, Some(7));
}

#[test]
fn bar_width_shares_the_chart() {
    assert_eq!(logss::bars::bar_width(50, 4), 11);
    assert_eq!(logss::bars::bar_width(50, 5), 8);
    assert_eq!(logss::bars::bar_width(3, 5), 0);
    assert_eq!(logss::bars::bar_width(10, 5), 0);
}

#[test]
fn line_endings_are_stripped_once() {
    assert_eq!(logss::text::strip_line_ending("abc\n"), "abc");
    assert_eq!(logss::text::strip_line_ending("abc\r\n"), "abc");
    assert_eq!(logss::text::strip_line_ending("abc\n\n"), "abc\n");
    assert_eq!(logss::text::strip_line_ending("abc"), "abc");
    assert_eq!(logss::text::strip_line_ending("\r"), "\r");
    assert_eq!(logss::text::strip_line_ending(""), "");
}
