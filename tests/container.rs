use logss::container::{Container, RenderedLine};
use logss::pattern::InvalidPattern;
use logss::states::{Color, ContainerState, ScrollDirection, Style};

fn line(prefix: &str, matched: &str, suffix: &str) -> RenderedLine {
    RenderedLine {
        prefix: prefix.to_string(),
        matched: matched.to_string(),
        suffix: suffix.to_string(),
    }
}

#[test]
fn test_container_new() {
    let container = Container::new("key".to_string(), 2).unwrap();
    assert_eq!(container.id, 0);
    assert_eq!(container.text, "key");
    assert_eq!(container.cb.len(), 0);
    assert_eq!(container.cb.capacity(), 2);
    assert_eq!(container.state, ContainerState::default());
}

#[test]
fn process_line() {
    let container = Container::new("stringtomatch".to_string(), 2).unwrap();
    let span = container.process_line("this line should not be proc");
    assert_eq!(span, None);
    let span = container.process_line("stringtomatch this line should be proc");
    let expected_span = Some(line("", "stringtomatch", " this line should be proc"));
    assert_eq!(span, expected_span);
}

#[test]
fn classify_highlights_first_occurrence_only() {
    let container = Container::new("to".to_string(), 4).unwrap();
    let r = container.process_line("to be or not to be").unwrap();
    assert_eq!(r, line("", "to", " be or not to be"));
    assert_eq!(container.process_line("nothing matches here"), None);
}

#[test]
fn classify_counts_characters_not_bytes() {
    let container = Container::new("b+".to_string(), 4).unwrap();
    let r = container.process_line("äöbbü").unwrap();
    assert_eq!(r, line("äö", "bb", "ü"));
}

#[test]
fn invalid_pattern_is_refused() {
    assert_eq!(Container::new("*".to_string(), 2).err(), Some(InvalidPattern));
    assert_eq!(Container::new("(a".to_string(), 2).err(), Some(InvalidPattern));
}

#[test]
fn push_counts_and_keeps_latest() {
    let mut c = Container::new("a".to_string(), 2).unwrap();
    assert!(c.proc_and_push_line("xa").is_some());
    assert!(c.proc_and_push_line("zzz").is_none());
    assert!(c.proc_and_push_line("ya").is_some());
    assert!(c.proc_and_push_line("wa").is_some());
    assert_eq!(c.get_count(), 3);
    assert_eq!(c.cb.len(), 2);
    assert_eq!(c.cb.ordered_clone().buffer(), &vec![line("y", "a", ""), line("w", "a", "")]);
    c.reset();
    assert_eq!(c.cb.len(), 0);
    assert_eq!(c.get_count(), 3);
}

#[test]
fn mirror_file_name_uses_slug() {
    let c = Container::new("to.*be".to_string(), 2).unwrap();
    assert_eq!(c.mirror_file_name("out"), "out/to-be.txt");
    let c = Container::new("User Login".to_string(), 2).unwrap();
    assert_eq!(c.mirror_file_name("/tmp/logs"), "/tmp/logs/user-login.txt");
}

fn filled(n: usize) -> Container {
    let mut c = Container::new("x".to_string(), 64).unwrap();
    for _ in 0..n {
        c.proc_and_push_line("x");
    }
    c
}

#[test]
fn autoscroll_follows_newest_lines() {
    let mut c = filled(12);
    c.update_scroll(5, &ScrollDirection::NONE);
    assert_eq!(c.state.scroll, 7);
    c.update_scroll(5, &ScrollDirection::UP);
    assert_eq!(c.state.scroll, 7);
    c.proc_and_push_line("x");
    c.update_scroll(5, &ScrollDirection::DOWN);
    assert_eq!(c.state.scroll, 8);
}

#[test]
fn lines_that_fit_do_not_scroll() {
    let mut c = filled(3);
    c.update_scroll(5, &ScrollDirection::NONE);
    assert_eq!(c.state.scroll, 0);
    c.state.paused = true;
    c.update_scroll(5, &ScrollDirection::UP);
    assert_eq!(c.state.scroll, 0);
}

#[test]
fn paused_scroll_is_clamped() {
    let mut c = filled(7);
    c.update_scroll(4, &ScrollDirection::NONE);
    assert_eq!(c.state.scroll, 3);
    c.state.paused = true;
    for _ in 0..10 {
        c.update_scroll(4, &ScrollDirection::UP);
        assert!(c.state.scroll <= 3);
    }
    assert_eq!(c.state.scroll, 3);
    c.update_scroll(4, &ScrollDirection::DOWN);
    assert_eq!(c.state.scroll, 2);
    for _ in 0..10 {
        c.update_scroll(4, &ScrollDirection::DOWN);
    }
    assert_eq!(c.state.scroll, 0);
    c.update_scroll(4, &ScrollDirection::NONE);
    assert_eq!(c.state.scroll, 0);
}

#[test]
fn init_container_state() {
    let cs = ContainerState::default();
    assert!(!cs.paused);
    assert!(!cs.wrap);
    assert_eq!(cs.scroll, 0);
    assert_eq!(cs.color, Color::Red);
    assert_eq!(cs.style, Style { fg: Color::White, bg: Color::Black });
}
