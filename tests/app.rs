use logss::app::{App, ConfigError, Received};
use logss::args::{Args, LocalContainer};
use logss::handler::KeyCode;
use logss::states::{AppState, Direction, ScrollDirection, Views};

fn local(re: &str) -> LocalContainer {
    LocalContainer { re: re.to_string(), trigger: None, timeout: None }
}

fn feed(app: &mut App, text: &str) -> Vec<u8> {
    app.tick(Received::Line(text.to_string()))
}

#[test]
fn test_new() {
    let mut app = App::new(None).unwrap();

    // Running
    assert!(!app.is_running());
    app.init();
    assert!(app.is_running());
    app.stop();
    assert!(!app.is_running());

    // Direction
    assert_eq!(app.state.direction, Direction::Vertical);
    app.flip_direction();
    assert_eq!(app.state.direction, Direction::Horizontal);

    // Containers
    assert_eq!(app.containers.len(), 0);
    app.add_container("text");
    assert_eq!(app.containers.len(), 1);
    app.add_container("text2");
    assert_eq!(app.containers.len(), 2);

    let mut args = Args::default();
    args.containers = vec![local("a"), local("b")];
    let app = App::new(Some(args)).unwrap();
    assert_eq!(app.containers.len(), 2);
}

#[test]
fn new_from_args_sets_ids_and_views() {
    let mut args = Args::default();
    args.containers = vec![local("a"), local("b"), local("c")];
    args.single = Some(true);
    args.vertical = Some(true);
    let app = App::new(Some(args)).unwrap();
    let ids: Vec<u8> = app.containers.iter().map(|c| c.id).collect();
    assert_eq!(ids, vec![1, 2, 3]);
    assert_eq!(app.state.show, Views::SingleBuffer);
    assert_eq!(app.state.direction, Direction::Horizontal);
    assert_eq!(app.raw_buffer.text, ".*");
    assert_eq!(app.single_buffer.text, "single");
}

#[test]
fn new_refuses_bad_configuration() {
    let mut args = Args::default();
    args.containers = vec![local("a"), local("*")];
    assert_eq!(App::new(Some(args)).err(), Some(ConfigError::InvalidPattern));
    let mut args = Args::default();
    args.containers = (0..11).map(|i| local(&i.to_string())).collect();
    assert_eq!(App::new(Some(args)).err(), Some(ConfigError::TooManyContainers));
}

#[test]
fn input() {
    // New all clean
    let mut app = App::new(None).unwrap();
    assert_eq!(app.containers.len(), 0);
    assert_eq!(app.input.input, "".to_string());
    // Add a char
    app.update_input(KeyCode::Char('a'));
    assert_eq!(app.input.input, "a".to_string());
    // Remove the char
    app.update_input(KeyCode::Backspace);
    assert_eq!(app.input.input, "".to_string());
    // Re add the char
    app.update_input(KeyCode::Char('a'));
    assert_eq!(app.containers.len(), 0);
    app.update_input(KeyCode::Enter);
    // Enter the input
    assert!(!app.show_input());
    assert_eq!(app.input.input, "".to_string());
    assert_eq!(app.containers.len(), 1);
}

#[test]
fn invalid_input_is_kept_for_editing() {
    let mut app = App::new(None).unwrap();
    app.flip_show_input();
    app.update_input(KeyCode::Char('['));
    app.update_input(KeyCode::Enter);
    assert!(app.show_input());
    assert_eq!(app.input.input, "[");
    assert_eq!(app.containers.len(), 0);
}

#[test]
fn zoom_into() {
    let mut app = App::new(None).unwrap();
    assert_eq!(app.containers.len(), 0);
    app.add_container("text");
    app.add_container("text2");
    app.add_container("text3");
    assert_eq!(app.containers.len(), 3);
    assert_eq!(app.state.show, Views::RawBuffer);
    assert_eq!(app.state.zoom_id, None);

    // Zoom in
    app.zoom_into(1);
    assert_eq!(app.state.show, Views::Zoom);
    assert_eq!(app.state.zoom_id, Some(1));

    // Zoom out
    app.zoom_into(1);
    assert_eq!(app.state.zoom_id, None);
    assert_eq!(app.state.show, Views::Containers);
}

#[test]
fn zoom_switches_target_and_ignores_missing() {
    let mut app = App::new(None).unwrap();
    app.add_container("a");
    app.add_container("b");
    app.zoom_into(1);
    app.zoom_into(2);
    assert_eq!(app.state.show, Views::Zoom);
    assert_eq!(app.state.zoom_id, Some(2));
    app.zoom_into(7);
    assert_eq!(app.state.show, Views::Zoom);
    assert_eq!(app.state.zoom_id, Some(2));
}

#[test]
fn get_stdin() {
    let mut app = App::new(None).unwrap();
    app.add_container("a");
    let c = app.containers.get(0).unwrap();
    assert!(c.cb.is_empty());
    assert!(app.raw_buffer.cb.is_empty());
    assert_eq!(app.raw_buffer.cb.len(), 0);
    app.init();
    feed(&mut app, "abc");
    feed(&mut app, "def");

    let c = app.containers.get(0).unwrap();
    assert!(!c.cb.is_empty());
    assert_eq!(c.cb.len(), 1);
    assert!(!app.raw_buffer.cb.is_empty());
    assert_eq!(app.raw_buffer.cb.len(), 2);
}

#[test]
fn routing_reaches_matching_containers_only() {
    let mut app = App::new(None).unwrap();
    app.add_container("abc");
    app.add_container("xyz");
    assert_eq!(feed(&mut app, "abc"), vec![1]);
    assert_eq!(feed(&mut app, "def"), Vec::<u8>::new());
    assert_eq!(app.raw_buffer.cb.len(), 2);
    let first = &app.containers[0];
    assert_eq!(first.cb.len(), 1);
    assert_eq!(first.get_count(), 1);
    let kept = first.cb.ordered_clone();
    assert_eq!(kept.buffer()[0].matched, "abc");
    assert_eq!(app.containers[1].cb.len(), 0);
    assert_eq!(app.single_buffer.cb.len(), 1);
}

#[test]
fn pause_drops_lines_without_replay() {
    let mut app = App::new(None).unwrap();
    app.add_container("a");
    feed(&mut app, "a1");
    app.pause();
    for i in 0..5 {
        assert!(feed(&mut app, &format!("a{}", i)).is_empty());
    }
    assert_eq!(app.raw_buffer.cb.len(), 1);
    assert_eq!(app.containers[0].cb.len(), 1);
    assert_eq!(app.single_buffer.cb.len(), 1);
    app.unpause();
    feed(&mut app, "a2");
    assert_eq!(app.raw_buffer.cb.len(), 2);
    assert_eq!(app.containers[0].cb.len(), 2);
    assert_eq!(app.containers[0].get_count(), 2);
}

#[test]
fn end_of_input_stops() {
    let mut app = App::new(None).unwrap();
    app.init();
    app.tick(Received::Empty);
    assert!(app.is_running());
    app.tick(Received::Disconnected);
    assert!(!app.is_running());

    let mut args = Args::default();
    args.exit = Some(true);
    let mut app = App::new(Some(args)).unwrap();
    app.init();
    app.tick(Received::Empty);
    assert!(!app.is_running());
}

#[test]
fn flip_single_view() {
    let mut app = App::new(None).unwrap();
    app.add_container("a");
    assert_eq!(app.state.show, Views::RawBuffer);
    app.flip_single_view();
    assert_eq!(app.state.show, Views::SingleBuffer);
}

#[test]
fn free_ids_are_reused_in_order() {
    let mut app = App::new(None).unwrap();
    for i in 1..=9u8 {
        assert_eq!(app.add_container("x"), Some(i));
    }
    assert_eq!(app.add_container("x"), None);
    app.remove_view(4);
    app.apply_removal();
    assert_eq!(app.add_container("y"), Some(4));
    let ids: Vec<u8> = app.containers.iter().map(|c| c.id).collect();
    assert_eq!(ids, vec![1, 2, 3, 4, 5, 6, 7, 8, 9]);
    assert_eq!(app.add_container("("), None);
}

#[test]
fn removal_happens_once() {
    let mut app = App::new(None).unwrap();
    app.add_container("a");
    app.add_container("b");
    app.flip_raw_view();
    app.remove_view(1);
    assert_eq!(app.state.show, Views::Remove);
    app.apply_removal();
    assert_eq!(app.state.show, Views::Containers);
    assert_eq!(app.state.zoom_id, None);
    let ids: Vec<u8> = app.containers.iter().map(|c| c.id).collect();
    assert_eq!(ids, vec![2]);
    app.apply_removal();
    assert_eq!(app.containers.len(), 1);
    assert_eq!(app.state.show, Views::Containers);

    app.remove_view(2);
    app.apply_removal();
    assert_eq!(app.containers.len(), 0);
    assert_eq!(app.state.show, Views::RawBuffer);
    app.apply_removal();
    assert_eq!(app.state.show, Views::RawBuffer);

    app.remove_view(5);
    assert_eq!(app.state.show, Views::RawBuffer);
}

#[test]
fn hide_view_toggles_one_container() {
    let mut app = App::new(None).unwrap();
    app.add_container("a");
    app.add_container("b");
    app.hide_view(1);
    assert!(app.containers[0].state.hide);
    assert!(!app.containers[1].state.hide);
    app.hide_view(1);
    assert!(!app.containers[0].state.hide);
    app.hide_view(8);
    assert!(!app.containers[0].state.hide && !app.containers[1].state.hide);
}

#[test]
fn update_containers() {
    let mut app = App::new(None).unwrap();
    app.add_container("a");
    app.add_container("b");

    for c in app.containers.iter() {
        assert!(!c.state.paused);
        assert!(!c.state.wrap);
        assert_eq!(c.state.scroll, 0);
    }

    app.init();
    for _ in 0..=128 {
        feed(&mut app, "abc");
    }

    // Change the app state
    app.state.paused = true;
    app.state.wrap = true;
    app.update_containers(10, 10);

    for c in app.containers.iter() {
        assert_eq!(c.state.paused, app.state.paused);
        assert_eq!(c.state.wrap, app.state.wrap);
    }
    app.update_containers(10, 10);
}

#[test]
fn panes_share_the_frame() {
    let mut app = App::new(None).unwrap();
    app.add_container("a");
    app.add_container("b");
    for _ in 0..8 {
        feed(&mut app, "ab");
    }
    // two stacked panes of 5 lines each in a 10-line frame
    app.update_containers(10, 10);
    assert_eq!(app.containers[0].state.scroll, 3);
    assert_eq!(app.containers[1].state.scroll, 3);
    // zoomed: the whole frame, where all 8 lines fit, so nothing scrolls
    app.zoom_into(1);
    app.update_containers(10, 10);
    assert_eq!(app.containers[0].state.scroll, 3);
    // a paused request moves one line and is consumed
    app.zoom_into(1);
    app.update_containers(10, 10);
    app.scroll_down();
    assert_eq!(app.state.scroll_direction, ScrollDirection::DOWN);
    app.update_containers(10, 10);
    assert_eq!(app.containers[0].state.scroll, 2);
    assert_eq!(app.state.scroll_direction, ScrollDirection::NONE);
}

#[test]
fn test_app_state() {
    let appstate = AppState::default();
    assert!(!appstate.wrap);
    assert!(!appstate.paused);
    assert!(!appstate.running);
    assert_eq!(appstate.show, Views::Containers);
    assert_eq!(appstate.direction, Direction::Vertical);
    assert!(!appstate.help);
    assert!(!appstate.show_input);
    assert_eq!(appstate.zoom_id, None);
}

#[test]
fn side_by_side_panes_take_the_full_height() {
    let mut app = App::new(None).unwrap();
    app.add_container("a");
    app.add_container("b");
    app.flip_direction();
    for _ in 0..12 {
        feed(&mut app, "ab");
    }
    let heights = app.update_containers(20, 10);
    assert_eq!(heights, vec![10, 10]);
    assert_eq!(app.containers[0].state.scroll, 2);
    assert_eq!(app.containers[1].state.scroll, 2);
    app.hide_view(2);
    let heights = app.update_containers(20, 10);
    assert_eq!(heights, vec![10]);
}
