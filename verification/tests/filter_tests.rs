use port::filter::{is_blocked_port, is_blocked_process, is_system_name, should_include_port};

#[test]
fn test_blocked_ports() {
    assert!(is_blocked_port(22));
    assert!(is_blocked_port(80));
    assert!(is_blocked_port(443));
    assert!(!is_blocked_port(9999));
    assert!(!is_blocked_port(12345));
}

#[test]
fn test_blocked_processes() {
    assert!(is_blocked_process("systemd"));
    assert!(is_blocked_process("sshd"));
    assert!(is_blocked_process("dockerd"));
    assert!(is_blocked_process("/usr/bin/dockerd"));
    assert!(!is_blocked_process("firefox"));
    assert!(!is_blocked_process("myapp"));
}

#[test]
fn test_should_include_port() {
    assert!(!should_include_port(22, "firefox"));
    assert!(!should_include_port(9999, "sshd"));
    assert!(!should_include_port(80, "systemd"));
    assert!(should_include_port(9999, "firefox"));
    assert!(should_include_port(12345, "myapp"));
}

#[test]
fn blocked_process_names_ignore_case() {
    assert!(is_blocked_process("SSHD"));
    assert!(is_blocked_process("Kube-Proxy"));
    assert!(is_blocked_process("containerd-shim"));
    assert!(!is_blocked_process(""));
}

#[test]
fn every_blocked_port_is_blocked() {
    for p in [22u16, 80, 443, 53, 3306, 5432, 6379, 8080, 3000, 5000, 8000, 9000] {
        assert!(is_blocked_port(p));
        assert!(!should_include_port(p, "myapp"));
    }
    assert!(!is_blocked_port(0));
    assert!(!is_blocked_port(65535));
}

#[test]
fn system_names_are_matched_on_lowercased_text() {
    assert!(is_system_name("systemd"));
    assert!(is_system_name("systemd-resolved"));
    assert!(is_system_name("/usr/bin/containerd-shim"));
    assert!(is_system_name("kube-proxy"));
    assert!(is_system_name("tor"));
    assert!(!is_system_name("SYSTEMD"));
    assert!(!is_system_name("nginx"));
    assert!(!is_system_name(""));
    assert!(is_blocked_process("SystemD"));
    assert!(is_blocked_process("Kube-Proxy"));
}
