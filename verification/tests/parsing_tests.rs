use port::ports::{
    get_open_ports, parse_docker_output, parse_docker_port_mapping, parse_pid_dir,
    parse_socket_link, parse_ss_output, parse_ss_process_info, parse_tcp_table,
    pid_placeholder_string, process_name_from_comm, record_socket_link, resolve_listeners,
    extract_port_from_host_part, parse_port, PortInfo,
};
use std::collections::HashMap;

fn chars(s: &str) -> Vec<char> {
    s.chars().collect()
}

fn port_info(port: u16, pid: u32, name: &str) -> PortInfo {
    PortInfo {
        port,
        pid,
        process_name: name.to_string(),
        process_path: String::new(),
        container_id: None,
    }
}

#[test]
fn parse_port_edge_cases() {
    assert_eq!(parse_port("0100007F:FFFF"), 65535);
    assert_eq!(parse_port("0100007F:ffff"), 65535);
    assert_eq!(parse_port("0100007F:10000"), 0);
    assert_eq!(parse_port("0100007F:"), 0);
    assert_eq!(parse_port("0100007F:+1F90"), 8080);
    assert_eq!(parse_port("a:b:0050"), 80);
    assert_eq!(parse_port(":0"), 0);
}

#[test]
fn host_part_port_is_after_last_colon() {
    assert_eq!(extract_port_from_host_part(&chars("0.0.0.0:8080")), Some(8080));
    assert_eq!(extract_port_from_host_part(&chars(":::8080")), Some(8080));
    assert_eq!(extract_port_from_host_part(&chars("443")), Some(443));
    assert_eq!(extract_port_from_host_part(&chars("[::1]:70000")), None);
    assert_eq!(extract_port_from_host_part(&chars("80/tcp")), None);
}

#[test]
fn docker_mapping_host_port() {
    assert_eq!(
        parse_docker_port_mapping("0.0.0.0:8080->80/tcp"),
        Some((8080, "0.0.0.0:8080->80/tcp".to_string()))
    );
    assert_eq!(parse_docker_port_mapping(":::5432->5432/tcp").map(|m| m.0), Some(5432));
    assert_eq!(parse_docker_port_mapping("80/tcp"), None);
    assert_eq!(parse_docker_port_mapping(""), None);
}

#[test]
fn ss_process_info_fields() {
    let parts: Vec<Vec<char>> = ["LISTEN", "users:((\"nc\",", "pid=4242,fd=3))"]
        .iter()
        .map(|s| chars(s))
        .collect();
    let (pid, name) = parse_ss_process_info(&parts);
    assert_eq!(pid, 4242);
    assert_eq!(name, "pid_4242");

    let parts: Vec<Vec<char>> = ["users:(\"nc\",x", "pid=4242,fd=3"].iter().map(|s| chars(s)).collect();
    assert_eq!(parse_ss_process_info(&parts), (4242, "nc".to_string()));

    let parts: Vec<Vec<char>> = ["pid=x", "pid=17"].iter().map(|s| chars(s)).collect();
    assert_eq!(parse_ss_process_info(&parts), (17, "pid_17".to_string()));

    let parts: Vec<Vec<char>> = ["users:(nc)", "pid=9"].iter().map(|s| chars(s)).collect();
    assert_eq!(parse_ss_process_info(&parts), (9, "pid_9".to_string()));

    let parts: Vec<Vec<char>> = ["LISTEN", "0"].iter().map(|s| chars(s)).collect();
    assert_eq!(parse_ss_process_info(&parts), (0, String::new()));
}

#[test]
fn ss_output_listeners() {
    let out = "State Recv-Q Send-Q Local Peer Process\n\
               LISTEN 0 5 0.0.0.0:9999 0.0.0.0:* users:((\"nc\",pid=100,fd=3)) pid=100,fd=3\n\
               LISTEN 0 5 [::]:22 [::]:* ino:1\n\
               LISTEN 0 5 bad 0.0.0.0:* pid=5\n\
               short line\n";
    let ports = parse_ss_output(out);
    assert_eq!(ports.len(), 1);
    assert_eq!(ports[0].port, 9999);
    assert_eq!(ports[0].pid, 100);
    assert_eq!(ports[0].process_name, "pid_100");
    assert_eq!(ports[0].process_path, "");
    assert!(ports[0].container_id.is_none());
    assert!(parse_ss_output("").is_empty());
}

#[test]
fn docker_output_published_ports() {
    let out = "abc123|web|0.0.0.0:8081->80/tcp, :::8081->80/tcp\n\
               \n\
               def456|db|5432/tcp\n\
               broken line\n\
               ghi789|cache|0.0.0.0:6380->6379/tcp\r\n";
    let ports = parse_docker_output(out);
    assert_eq!(ports.len(), 3);
    assert_eq!(ports[0].port, 8081);
    assert_eq!(ports[0].pid, 0);
    assert_eq!(ports[0].process_name, "docker: web");
    assert_eq!(ports[0].container_id.as_deref(), Some("abc123"));
    assert_eq!(ports[1].port, 8081);
    assert_eq!(ports[2].port, 6380);
    assert_eq!(ports[2].container_id.as_deref(), Some("ghi789"));
}

#[test]
fn tcp_table_listeners() {
    let table = "  sl  local_address rem_address   st tx_queue rx_queue tr tm->when retrnsmt   uid  timeout inode\n\
   0: 00000000:1F90 00000000:0000 0A 00000000:00000000 00:00000000 00000000  1000        0 12345 1 0000000000000000 100 0 0 10 0\n\
   1: 0100007F:0277 00000000:0000 01 00000000:00000000 00:00000000 00000000     0        0 23456 1 0000000000000000 100 0 0 10 0\n\
   2: 00000000:270F 00000000:0000 0A 00000000:00000000 00:00000000 00000000  1000        0 0 1\n\
   3: 00000000:0050 00000000:0000 0A 00000000:00000000 00:00000000 00000000  1000        0 777 1\n";
    let listeners = parse_tcp_table(table);
    let pairs: Vec<(u16, u64)> = listeners.iter().map(|l| (l.port, l.inode)).collect();
    assert_eq!(pairs, vec![(8080, 12345), (80, 777)]);

    let mut map = HashMap::new();
    map.insert(12345u64, 42u32);
    assert_eq!(resolve_listeners(&listeners, &map), vec![(8080, 42)]);
}

#[test]
fn socket_links_and_pid_dirs() {
    assert_eq!(parse_socket_link("socket:[12345]"), Some(12345));
    assert_eq!(parse_socket_link("socket:[]"), None);
    assert_eq!(parse_socket_link("socket:[12"), None);
    assert_eq!(parse_socket_link("pipe:[12345]"), None);
    assert_eq!(parse_pid_dir("1234"), Some(1234));
    assert_eq!(parse_pid_dir("self"), None);
    assert_eq!(parse_pid_dir("4294967296"), None);

    let mut map = HashMap::new();
    record_socket_link(&mut map, 7, "socket:[99]");
    record_socket_link(&mut map, 8, "anon_inode:[eventfd]");
    record_socket_link(&mut map, 9, "socket:[99]");
    assert_eq!(map.len(), 1);
    assert_eq!(map.get(&99), Some(&9));
}

#[test]
fn process_names() {
    assert_eq!(process_name_from_comm(&Some("  nginx\n".to_string()), 5), "nginx");
    assert_eq!(process_name_from_comm(&None, 5), "pid_5");
    assert_eq!(pid_placeholder_string(0), "pid_0");
    assert_eq!(pid_placeholder_string(4294967295), "pid_4294967295");
}

#[test]
fn merged_ports_keep_one_owner_per_port() {
    let proc_ports = vec![port_info(9000, 10, "a"), port_info(3000, 20, "b")];
    let ss_ports = vec![port_info(9000, 30, "c"), port_info(3000, 20, "d")];
    let docker_ports = vec![port_info(4000, 0, "docker: x")];
    let merged = get_open_ports(proc_ports, ss_ports, docker_ports);
    let summary: Vec<(u16, u32, String)> = merged
        .iter()
        .map(|p| (p.port, p.pid, p.process_name.clone()))
        .collect();
    assert_eq!(
        summary,
        vec![
            (3000, 20, "b".to_string()),
            (4000, 0, "docker: x".to_string()),
            (9000, 30, "c".to_string()),
        ]
    );
    assert!(get_open_ports(vec![], vec![], vec![]).is_empty());
}
