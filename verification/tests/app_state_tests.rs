use port::app::{row_matches, App, Mode};
use port::filter::retain_user_ports;
use port::text::parse_unsigned_chars;
use port::events::{handle_confirm_mode, handle_key_event, handle_normal_mode, handle_search_mode, Effect, Key, KeyInput};
use port::ports::PortInfo;
use port::process::{format_error, kill_target_for_port, no_process_on_port_message, KillError, KillTarget};
use port::ui::{confirm_modal_lines, footer_hints, header_text, popup_to_show, table_row, table_title, truncate, Popup};

fn entry(port: u16, pid: u32, name: &str, path: &str, container: Option<&str>) -> PortInfo {
    PortInfo {
        port,
        pid,
        process_name: name.to_string(),
        process_path: path.to_string(),
        container_id: container.map(|c| c.to_string()),
    }
}

fn key(c: char) -> KeyInput {
    KeyInput { code: Key::Char(c), ctrl: false }
}

fn loaded_app() -> App {
    let mut app = App::new();
    let ports = vec![
        entry(3001, 11, "Node", "/usr/bin/node", None),
        entry(8081, 0, "cache", "", Some("abc123")),
        entry(9999, 13, "nc", "/usr/bin/NC", None),
    ];
    assert!(app.refresh_ports(Ok(ports)).is_ok());
    app
}

#[test]
fn new_app_is_empty() {
    let app = App::new();
    assert!(app.ports.is_empty());
    assert!(app.filtered.is_empty());
    assert_eq!(app.selected, 0);
    assert_eq!(app.search_query, "");
    assert!(app.message.is_none());
    assert!(!app.should_quit);
}

#[test]
fn refresh_failure_keeps_state() {
    let mut app = loaded_app();
    app.selected = 2;
    assert_eq!(app.refresh_ports(Err("boom".to_string())), Err("boom".to_string()));
    assert_eq!(app.ports.len(), 3);
    assert_eq!(app.filtered, vec![0, 1, 2]);
    assert_eq!(app.selected, 2);
}

#[test]
fn refresh_clamps_selection() {
    let mut app = loaded_app();
    app.selected = 2;
    assert!(app.refresh_ports(Ok(vec![entry(1234, 1, "x", "", None)])).is_ok());
    assert_eq!(app.filtered, vec![0]);
    assert_eq!(app.selected, 0);
}

#[test]
fn search_is_case_insensitive_on_name_and_path() {
    let mut app = loaded_app();
    app.update_search("NODE".to_string());
    assert_eq!(app.filtered, vec![0]);
    app.update_search("nc".to_string());
    assert_eq!(app.filtered, vec![2]);
    app.update_search("99".to_string());
    assert_eq!(app.filtered, vec![2]);
    app.update_search("zzz".to_string());
    assert!(app.filtered.is_empty());
    assert_eq!(app.selected, 0);
}

#[test]
fn typing_then_backspace_restores_rows() {
    let mut app = loaded_app();
    app.enter_search_mode();
    handle_search_mode(&mut app, key('n'));
    let rows_n = app.filtered.clone();
    handle_search_mode(&mut app, key('o'));
    assert_eq!(app.search_query, "no");
    handle_search_mode(&mut app, KeyInput { code: Key::Backspace, ctrl: false });
    assert_eq!(app.search_query, "n");
    assert_eq!(app.filtered, rows_n);
    handle_search_mode(&mut app, KeyInput { code: Key::Backspace, ctrl: false });
    handle_search_mode(&mut app, KeyInput { code: Key::Backspace, ctrl: false });
    assert_eq!(app.search_query, "");
    assert_eq!(app.filtered, vec![0, 1, 2]);
    handle_search_mode(&mut app, KeyInput { code: Key::Enter, ctrl: false });
    assert!(matches!(app.mode, Mode::Normal));
}

#[test]
fn ctrl_c_quits_but_plain_c_does_not() {
    let mut app = loaded_app();
    assert!(matches!(handle_normal_mode(&mut app, key('c')), Effect::Continue));
    assert!(!app.should_quit);
    let effect = handle_normal_mode(&mut app, KeyInput { code: Key::Char('c'), ctrl: true });
    assert!(matches!(effect, Effect::Quit));
    assert!(app.should_quit);
}

#[test]
fn refresh_key_asks_for_ports() {
    let mut app = loaded_app();
    assert!(matches!(handle_normal_mode(&mut app, key('r')), Effect::RefreshPorts));
    assert!(matches!(handle_normal_mode(&mut app, KeyInput { code: Key::Esc, ctrl: false }), Effect::Continue));
}

#[test]
fn confirm_kill_of_container_row() {
    let mut app = loaded_app();
    handle_normal_mode(&mut app, key('j'));
    handle_normal_mode(&mut app, KeyInput { code: Key::Enter, ctrl: false });
    assert!(matches!(&app.mode, Mode::ConfirmKill { pid: 0, name, container_id: Some(id) } if name == "cache" && id == "abc123"));
    match handle_key_event(&mut app, key('Y')) {
        Effect::Kill(KillTarget::Container(id)) => assert_eq!(id, "abc123"),
        _ => panic!("expected a container kill"),
    }
    assert!(matches!(app.mode, Mode::Normal));
}

#[test]
fn confirm_kill_of_process_and_messages() {
    let mut app = loaded_app();
    app.confirm_kill();
    let target = app.execute_kill().expect("a target");
    assert!(matches!(target, KillTarget::Process(11)));
    assert!(app.execute_kill().is_none());

    assert!(app.finish_kill(&target, Ok(())));
    assert_eq!(app.message.as_deref(), Some("Killed process 11"));
    assert!(app.message_expires_at.is_some());

    let err = KillError { os_code: Some(3), description: "No such process (os error 3)".to_string() };
    assert!(!app.finish_kill(&target, Err(err)));
    assert_eq!(app.message.as_deref(), Some("Process not found (may have already exited)"));

    assert!(app.finish_kill(&KillTarget::Container("abc".to_string()), Ok(())));
    assert_eq!(app.message.as_deref(), Some("Stopped container"));
}

#[test]
fn escape_cancels_confirmation() {
    let mut app = loaded_app();
    app.confirm_kill();
    assert!(matches!(handle_confirm_mode(&mut app, key('x')), Effect::Continue));
    assert!(matches!(app.mode, Mode::ConfirmKill { .. }));
    handle_confirm_mode(&mut app, KeyInput { code: Key::Esc, ctrl: false });
    assert!(matches!(app.mode, Mode::Normal));
}

#[test]
fn message_stays_until_deadline() {
    let mut app = App::new();
    app.message = Some("hello".to_string());
    app.message_expires_at = Some(u128::MAX);
    app.tick();
    assert_eq!(app.message.as_deref(), Some("hello"));
    app.expire_message_at(u128::MAX - 1);
    assert_eq!(app.message.as_deref(), Some("hello"));
    app.expire_message_at(u128::MAX);
    assert!(app.message.is_none());
    assert!(app.message_expires_at.is_none());

    app.message = Some("no deadline".to_string());
    app.tick();
    app.expire_message_at(u128::MAX);
    assert_eq!(app.message.as_deref(), Some("no deadline"));
    app.clear_message();
    assert!(app.message.is_none());
}

#[test]
fn shown_message_lasts_two_seconds() {
    let mut app = App::new();
    app.show_message_at("Killed process 7".to_string(), 500);
    assert_eq!(app.message.as_deref(), Some("Killed process 7"));
    assert_eq!(app.message_expires_at, Some(2_000_000_500));
    app.expire_message_at(2_000_000_499);
    assert_eq!(app.message.as_deref(), Some("Killed process 7"));
    app.expire_message_at(2_000_000_500);
    assert!(app.message.is_none());
    assert!(app.message_expires_at.is_none());

    app.show_message_at("late".to_string(), u128::MAX - 1);
    assert_eq!(app.message_expires_at, Some(u128::MAX));
}

#[test]
fn apply_filter_clamps_selection() {
    let mut app = App::new();
    app.ports = vec![
        entry(7000, 1, "alpha", "", None),
        entry(7001, 2, "beta", "", None),
        entry(7002, 3, "alphabet", "", None),
    ];
    app.search_query = "ALPHA".to_string();
    app.selected = 2;
    app.apply_filter();
    assert_eq!(app.filtered, vec![0, 2]);
    assert_eq!(app.selected, 1);
    app.search_query = String::new();
    app.apply_filter();
    assert_eq!(app.filtered, vec![0, 1, 2]);
    assert_eq!(app.selected, 1);
    app.search_query = "gamma".to_string();
    app.apply_filter();
    assert!(app.filtered.is_empty());
    assert_eq!(app.selected, 0);
}

#[test]
fn refresh_hides_system_services() {
    let mut app = App::new();
    let ports = vec![
        entry(22, 1, "login", "/usr/sbin/login", None),
        entry(4000, 2, "sshd", "/usr/sbin/sshd", None),
        entry(4001, 3, "Systemd-Resolved", "", None),
        entry(4002, 0, "docker: db", "", Some("d1")),
        entry(5555, 4, "python3", "/usr/bin/python3", None),
        entry(8080, 5, "java", "", None),
        entry(6000, 6, "node", "/usr/bin/node", None),
    ];
    assert!(app.refresh_ports(Ok(ports)).is_ok());
    let shown: Vec<u16> = app.ports.iter().map(|p| p.port).collect();
    assert_eq!(shown, vec![5555, 6000]);
    assert_eq!(app.filtered, vec![0, 1]);
}

#[test]
fn retain_user_ports_keeps_order() {
    let kept = retain_user_ports(vec![
        entry(7000, 1, "b", "", None),
        entry(443, 2, "nginx", "", None),
        entry(7001, 3, "a", "", None),
        entry(7002, 4, "kubelet", "", None),
    ]);
    let ports: Vec<u16> = kept.iter().map(|p| p.port).collect();
    assert_eq!(ports, vec![7000, 7001]);
    assert!(retain_user_ports(Vec::new()).is_empty());
}

#[test]
fn row_matching_on_lowercased_text() {
    assert!(row_matches(8080, "firefox", "/usr/lib/firefox", "fire"));
    assert!(row_matches(8080, "firefox", "/usr/lib/firefox", "80"));
    assert!(row_matches(8080, "firefox", "/usr/lib/firefox", "lib"));
    assert!(row_matches(8080, "firefox", "/usr/lib/firefox", ""));
    assert!(!row_matches(8080, "firefox", "/usr/lib/firefox", "chrome"));
    assert!(!row_matches(8080, "firefox", "/usr/lib/firefox", "FIRE"));
    assert!(!row_matches(8080, "firefox", "/usr/lib/firefox", "8081"));
}

#[test]
fn refining_search_never_adds_rows() {
    let mut app = loaded_app();
    app.update_search("n".to_string());
    let wide = app.filtered.clone();
    app.update_search("No".to_string());
    let narrow = app.filtered.clone();
    assert_eq!(wide, vec![0, 2]);
    assert_eq!(narrow, vec![0]);
    assert!(narrow.iter().all(|i| wide.contains(i)));
}

#[test]
fn popup_shows_confirmation_over_message() {
    let mut app = loaded_app();
    assert!(popup_to_show(&app).is_none());
    app.message = Some("Stopped container".to_string());
    assert!(matches!(popup_to_show(&app), Some(Popup::Message(ref m)) if m == "Stopped container"));
    app.confirm_kill();
    assert!(matches!(popup_to_show(&app), Some(Popup::Confirm { pid: 11, ref name }) if name == "Node"));
    app.cancel_modal();
    assert!(matches!(popup_to_show(&app), Some(Popup::Message(_))));
}

#[test]
fn unsigned_parsing_up_to_base_36() {
    let chars = |s: &str| s.chars().collect::<Vec<char>>();
    assert_eq!(parse_unsigned_chars(&chars("z"), 36, u64::MAX), Some(35));
    assert_eq!(parse_unsigned_chars(&chars("Zz"), 36, u64::MAX), Some(1295));
    assert_eq!(parse_unsigned_chars(&chars("+10"), 36, u64::MAX), Some(36));
    assert_eq!(parse_unsigned_chars(&chars("z"), 35, u64::MAX), None);
    assert_eq!(parse_unsigned_chars(&chars("zz"), 36, 1294), None);
}

#[test]
fn error_messages() {
    let e = |code, d: &str| KillError { os_code: code, description: d.to_string() };
    assert_eq!(format_error(&e(Some(3), "x")), "Process not found (may have already exited)");
    assert_eq!(format_error(&e(Some(1), "x")), "Permission denied");
    assert_eq!(format_error(&e(Some(13), "Permission denied (os error 13)")), "Permission denied (os error 13)");
    assert_eq!(format_error(&e(None, "other")), "other");
}

#[test]
fn kill_targets_by_port() {
    let ports = vec![
        entry(80, 5, "a", "", None),
        entry(81, 0, "docker: b", "", Some("c1")),
        entry(80, 6, "c", "", None),
    ];
    assert!(matches!(kill_target_for_port(&ports, 80), Some(KillTarget::Process(5))));
    assert!(matches!(kill_target_for_port(&ports, 81), Some(KillTarget::Container(ref id)) if id == "c1"));
    assert!(kill_target_for_port(&ports, 82).is_none());
    assert_eq!(no_process_on_port_message(82), "No process found on port 82");
}

#[test]
fn screen_texts() {
    let mut app = loaded_app();
    assert_eq!(header_text(&app), "Press / to search");
    assert_eq!(footer_hints(&app.mode), "q:quit /:search j/k:navigate Enter:kill r:refresh");
    assert_eq!(table_title(&app), "Open Ports (showing 3 of 3)");
    app.enter_search_mode();
    handle_search_mode(&mut app, key('n'));
    assert_eq!(header_text(&app), "Search: n");
    assert_eq!(footer_hints(&app.mode), "Esc:cancel Enter:done");
    handle_search_mode(&mut app, KeyInput { code: Key::Esc, ctrl: false });
    assert_eq!(header_text(&app), "Search: n (press / to edit)");
    assert_eq!(table_title(&app), "Open Ports (showing 2 of 3)");
    app.confirm_kill();
    assert_eq!(footer_hints(&app.mode), "y:confirm n:cancel");
    assert_eq!(
        confirm_modal_lines(42, "nc"),
        ("Kill process 'nc'?".to_string(), "PID: 42".to_string())
    );
}

#[test]
fn table_cells_and_truncation() {
    assert_eq!(truncate("short", 15), "short");
    assert_eq!(truncate("exactly15chars!", 15), "exactly15chars!");
    assert_eq!(truncate("a-much-longer-process-name", 15), "a-much-longe...");
    assert_eq!(truncate("abcd", 2), "...");
    let row = table_row(&entry(8080, 1234, "firefox", "/usr/lib/firefox/firefox-bin-with-a-long-path", None));
    assert_eq!(
        row,
        vec![
            "8080".to_string(),
            "1234".to_string(),
            "firefox".to_string(),
            "/usr/lib/firefox/firefox-bin-wit...".to_string(),
        ]
    );
}

#[test]
fn decimal_text_parses_back() {
    for n in [0u32, 7, 10, 4242, 65535, 4294967295] {
        assert_eq!(port::ports::parse_pid_dir(&port::ports::pid_placeholder_string(n)[4..]), Some(n));
    }
}

#[test]
fn keys_keep_rows_consistent() {
    let mut app = loaded_app();
    app.selected = 2;
    handle_normal_mode(&mut app, key('/'));
    assert_eq!(app.search_query, "");
    assert_eq!(app.filtered, vec![0, 1, 2]);
    handle_key_event(&mut app, KeyInput { code: Key::Char('c'), ctrl: true });
    assert_eq!(app.search_query, "c");
    assert!(!app.should_quit);
    assert_eq!(app.filtered, vec![1, 2]);
    assert_eq!(app.selected, 1);
    handle_key_event(&mut app, KeyInput { code: Key::Enter, ctrl: false });
    handle_key_event(&mut app, KeyInput { code: Key::Down, ctrl: false });
    assert_eq!(app.selected, 1);
    handle_key_event(&mut app, KeyInput { code: Key::Up, ctrl: false });
    handle_key_event(&mut app, KeyInput { code: Key::Up, ctrl: false });
    assert_eq!(app.selected, 0);
}
