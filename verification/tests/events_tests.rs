use port::app::{App, Mode};
use port::events::{handle_confirm_mode, handle_normal_mode, handle_search_mode, Effect, Key, KeyInput};
use port::ports::PortInfo;

fn make_key(code: Key) -> KeyInput {
    KeyInput { code, ctrl: false }
}

fn make_char_key(c: char) -> KeyInput {
    KeyInput { code: Key::Char(c), ctrl: false }
}

#[test]
fn test_quit_with_q() {
    let mut app = App::new();
    let should_quit = handle_normal_mode(&mut app, make_char_key('q'));
    assert!(matches!(should_quit, Effect::Quit));
    assert!(app.should_quit);
}

#[test]
fn events_test_navigation() {
    let mut app = App::new();
    app.filtered = vec![0, 1, 2];
    app.selected = 0;

    handle_normal_mode(&mut app, make_char_key('j'));
    assert_eq!(app.selected, 1);

    handle_normal_mode(&mut app, make_key(Key::Down));
    assert_eq!(app.selected, 2);

    handle_normal_mode(&mut app, make_char_key('k'));
    assert_eq!(app.selected, 1);

    handle_normal_mode(&mut app, make_key(Key::Up));
    assert_eq!(app.selected, 0);
}

#[test]
fn test_search_mode_activation() {
    let mut app = App::new();
    handle_normal_mode(&mut app, make_char_key('/'));
    assert!(matches!(app.mode, Mode::Search));
}

#[test]
fn test_search_mode_exit() {
    let mut app = App::new();
    app.mode = Mode::Search;
    handle_search_mode(&mut app, make_key(Key::Esc));
    assert!(matches!(app.mode, Mode::Normal));
}

#[test]
fn test_search_typing() {
    let mut app = App::new();
    app.mode = Mode::Search;

    handle_search_mode(&mut app, make_char_key('t'));
    handle_search_mode(&mut app, make_char_key('e'));
    handle_search_mode(&mut app, make_char_key('s'));
    handle_search_mode(&mut app, make_char_key('t'));

    assert_eq!(app.search_query, "test");
}

#[test]
fn test_confirm_mode_yes() {
    let mut app = App::new();
    app.ports = vec![PortInfo {
        port: 8080,
        pid: 99999,
        process_name: "nonexistent".to_string(),
        process_path: "/bin/test".to_string(),
        container_id: None,
    }];
    app.filtered = vec![0];
    app.confirm_kill();

    assert!(matches!(app.mode, Mode::ConfirmKill { .. }));

    handle_confirm_mode(&mut app, make_char_key('y'));
    assert!(matches!(app.mode, Mode::Normal));
}

#[test]
fn test_confirm_mode_no() {
    let mut app = App::new();
    app.ports = vec![PortInfo {
        port: 8080,
        pid: 99999,
        process_name: "nonexistent".to_string(),
        process_path: "/bin/test".to_string(),
        container_id: None,
    }];
    app.filtered = vec![0];
    app.confirm_kill();

    handle_confirm_mode(&mut app, make_char_key('n'));
    assert!(matches!(app.mode, Mode::Normal));
}
