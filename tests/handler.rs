use logss::app::App;
use logss::handler::{handle_key_events, KeyCode, KeyEvent, KeyEventKind, KeyModifiers};
use logss::states::{Direction, ScrollDirection, Views};

fn press(app: &mut App, code: KeyCode, modifiers: KeyModifiers) {
    handle_key_events(KeyEvent::new(code, modifiers), app);
}

#[test]
fn stop() {
    let mut app = App::default();
    app.add_container("1");
    app.add_container("2");
    assert_eq!(app.containers.len(), 2);

    // Test stoping
    app.state.running = true;
    assert!(app.is_running());
    press(&mut app, KeyCode::Esc, KeyModifiers::NONE);
    assert!(!app.is_running());

    app.state.running = true;
    press(&mut app, KeyCode::Char('d'), KeyModifiers::NONE);
    assert!(app.is_running());

    app.state.running = true;
    press(&mut app, KeyCode::Char('D'), KeyModifiers::NONE);
    assert!(app.is_running());

    app.state.running = true;
    press(&mut app, KeyCode::Char('d'), KeyModifiers::CONTROL);
    assert!(!app.is_running());

    app.state.running = true;
    press(&mut app, KeyCode::Char('D'), KeyModifiers::CONTROL);
    assert!(!app.is_running());
}

#[test]
fn flip_raw() {
    let mut app = App::default();
    app.add_container("3");
    assert_eq!(app.containers.len(), 1);
    assert_eq!(app.state.show, Views::Containers);
    press(&mut app, KeyCode::Char('*'), KeyModifiers::NONE);
    assert_eq!(app.state.show, Views::RawBuffer);
    press(&mut app, KeyCode::Char('*'), KeyModifiers::NONE);
    assert_eq!(app.state.show, Views::Containers);
}

#[test]
fn flip_single() {
    let mut app = App::default();
    app.add_container("3");
    assert_eq!(app.containers.len(), 1);
    assert_eq!(app.state.show, Views::Containers);
    press(&mut app, KeyCode::Char('s'), KeyModifiers::NONE);
    assert_eq!(app.state.show, Views::SingleBuffer);
    press(&mut app, KeyCode::Char('s'), KeyModifiers::NONE);
    assert_eq!(app.state.show, Views::Containers);
}

#[test]
fn flip_show_input() {
    let mut app = App::default();
    assert!(!app.state.show_input);
    press(&mut app, KeyCode::Char('i'), KeyModifiers::NONE);
    assert!(app.state.show_input);
    press(&mut app, KeyCode::Esc, KeyModifiers::NONE);
    assert!(!app.state.show_input);
}

#[test]
fn flip_help() {
    let mut app = App::default();
    assert!(!app.state.help);
    press(&mut app, KeyCode::Char('h'), KeyModifiers::NONE);
    assert!(app.state.help);
    press(&mut app, KeyCode::Char('h'), KeyModifiers::NONE);
    assert!(!app.state.help);
}

#[test]
fn flip_wrap() {
    let mut app = App::default();
    assert!(!app.state.wrap);
    press(&mut app, KeyCode::Char('w'), KeyModifiers::NONE);
    assert!(app.state.wrap);
    press(&mut app, KeyCode::Char('w'), KeyModifiers::NONE);
    assert!(!app.state.help);
}

#[test]
fn flip_pause() {
    let mut app = App::default();
    assert!(!app.state.paused);
    press(&mut app, KeyCode::Char('p'), KeyModifiers::NONE);
    assert!(app.state.paused);
    press(&mut app, KeyCode::Char('p'), KeyModifiers::NONE);
    assert!(!app.state.help);
}

#[test]
fn flip_direction() {
    let mut app = App::default();
    assert_eq!(app.state.direction, Direction::Vertical);
    press(&mut app, KeyCode::Char('v'), KeyModifiers::NONE);
    assert_eq!(app.state.direction, Direction::Horizontal);
    press(&mut app, KeyCode::Char('v'), KeyModifiers::NONE);
    assert_eq!(app.state.direction, Direction::Vertical);
}

#[test]
fn container_number() {
    for i in 1..9_u8 {
        let mut app = App::default();
        for a in 1..9_u8 {
            app.add_container(&a.to_string());
        }
        assert_eq!(app.state.show, Views::Containers);
        assert_eq!(app.state.zoom_id, None);
        let digit = std::char::from_digit(i as u32, 10).unwrap();
        press(&mut app, KeyCode::Char(digit), KeyModifiers::NONE);
        assert_eq!(app.state.show, Views::Zoom);
        assert_eq!(app.state.zoom_id, Some(i));
        // Flip
        press(&mut app, KeyCode::Char(digit), KeyModifiers::NONE);
        assert_eq!(app.state.show, Views::Containers);
        assert_eq!(app.state.zoom_id, None);
        // remove
        press(&mut app, KeyCode::Char(digit), KeyModifiers::ALT);
        assert_eq!(app.state.show, Views::Remove);
        assert_eq!(app.state.zoom_id, Some(i));
    }
}

#[test]
fn container_hide() {
    let mut app = App::default();
    for i in 1..9_u8 {
        app.add_container(&i.to_string());
        assert!(!app.containers[(i - 1) as usize].state.hide);
        press(&mut app, KeyCode::F(i), KeyModifiers::NONE);
        assert!(app.containers[(i - 1) as usize].state.hide);
    }
}

#[test]
fn arrows_pause_and_scroll_once() {
    let mut app = App::default();
    let mut key = KeyEvent::new(KeyCode::Up, KeyModifiers::NONE);
    key.kind = KeyEventKind::Release;
    handle_key_events(key, &mut app);
    assert!(app.state.paused);
    assert_eq!(app.state.scroll_direction, ScrollDirection::NONE);
    press(&mut app, KeyCode::Up, KeyModifiers::NONE);
    assert_eq!(app.state.scroll_direction, ScrollDirection::UP);
    press(&mut app, KeyCode::Down, KeyModifiers::NONE);
    assert_eq!(app.state.scroll_direction, ScrollDirection::DOWN);
    app.state.running = true;
    press(&mut app, KeyCode::Char('c'), KeyModifiers::NONE);
    assert!(!app.state.paused);
    assert!(app.is_running());
    press(&mut app, KeyCode::Char('c'), KeyModifiers::CONTROL);
    assert!(!app.is_running());
}

#[test]
fn typing_goes_to_the_input_box() {
    let mut app = App::default();
    press(&mut app, KeyCode::Char('/'), KeyModifiers::NONE);
    press(&mut app, KeyCode::Char('h'), KeyModifiers::NONE);
    press(&mut app, KeyCode::Char('i'), KeyModifiers::NONE);
    assert!(!app.state.help);
    assert_eq!(app.input.input, "hi");
    press(&mut app, KeyCode::Enter, KeyModifiers::NONE);
    assert!(!app.state.show_input);
    assert_eq!(app.containers.len(), 1);
    assert_eq!(app.containers[0].text, "hi");
}
