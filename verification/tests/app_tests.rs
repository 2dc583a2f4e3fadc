use port::app::{App, Mode};
use port::ports::PortInfo;

fn create_test_port(port: u16, pid: u32, name: &str) -> PortInfo {
    PortInfo {
        port,
        pid,
        process_name: name.to_string(),
        process_path: "/bin/test".to_string(),
        container_id: None,
    }
}

#[test]
fn app_test_navigation() {
    let mut app = App::new();
    app.ports = vec![
        create_test_port(3000, 100, "test1"),
        create_test_port(3001, 101, "test2"),
        create_test_port(3002, 102, "test3"),
    ];
    app.filtered = vec![0, 1, 2];
    app.selected = 0;

    app.next();
    assert_eq!(app.selected, 1);

    app.next();
    assert_eq!(app.selected, 2);

    app.next();
    assert_eq!(app.selected, 2);

    app.previous();
    assert_eq!(app.selected, 1);

    app.previous();
    assert_eq!(app.selected, 0);

    app.previous();
    assert_eq!(app.selected, 0);
}

#[test]
fn test_search_filter() {
    let mut app = App::new();
    app.ports = vec![
        create_test_port(8080, 100, "firefox"),
        create_test_port(9999, 101, "chrome"),
        create_test_port(7777, 102, "firefox"),
    ];
    app.filtered = vec![0, 1, 2];

    app.update_search("fire".to_string());
    assert_eq!(app.filtered.len(), 2);

    app.update_search("9999".to_string());
    assert_eq!(app.filtered.len(), 1);

    app.update_search("".to_string());
    assert_eq!(app.filtered.len(), 3);
}

#[test]
fn test_mode_transitions() {
    let mut app = App::new();

    assert!(matches!(app.mode, Mode::Normal));

    app.enter_search_mode();
    assert!(matches!(app.mode, Mode::Search));

    app.exit_search_mode();
    assert!(matches!(app.mode, Mode::Normal));

    app.ports = vec![create_test_port(8080, 100, "test")];
    app.filtered = vec![0];
    app.confirm_kill();
    assert!(matches!(app.mode, Mode::ConfirmKill { pid: 100, .. }));

    app.cancel_modal();
    assert!(matches!(app.mode, Mode::Normal));
}

#[test]
fn test_message_timeout_clears_popup() {
    let mut app = App::new();
    app.message = Some("Killed process 100".to_string());
    // The deadline is the clock's origin, which has already passed.
    app.message_expires_at = Some(0);

    app.tick();

    assert!(app.message.is_none());
    assert!(app.message_expires_at.is_none());
}
