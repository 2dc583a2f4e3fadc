//! Which listening ports count as system services and are hidden.

use vstd::prelude::*;
use crate::ports::PortInfo;
use crate::text::{chars_of, contains_chars, is_substring, lowercase, to_lowercase};

verus! {

/// The well-known service ports that are never offered for killing.
pub open spec fn blocked_ports() -> Seq<u16> {
    seq![22u16, 80, 443, 53, 3306, 5432, 6379, 8080, 3000, 5000, 8000, 9000]
}

/// Names of system daemons; a process whose lowercased name contains one
/// of them is a system process.
pub open spec fn blocked_process_names() -> Seq<Seq<char>> {
    seq![
        "systemd"@,
        "dockerd"@,
        "containerd"@,
        "sshd"@,
        "tor"@,
        "docker"@,
        "kubelet"@,
        "kube-proxy"@,
    ]
}

/// A lowercased process name contains the name of a system daemon.
pub open spec fn names_system_daemon(lower: Seq<char>) -> bool {
    exists|i: int|
        0 <= i < blocked_process_names().len() && is_substring(
            #[trigger] blocked_process_names()[i],
            lower,
        )
}

/// A process name is a system process's name: lowercased, it contains the
/// name of a system daemon.
pub open spec fn is_system_process(name: Seq<char>) -> bool {
    names_system_daemon(lowercase(name))
}

/// A listener is shown unless its port or its process is a system one.
pub open spec fn is_user_listener(port: u16, name: Seq<char>) -> bool {
    !blocked_ports().contains(port) && !is_system_process(name)
}

/// Whether `port` is one of the blocked service ports.
pub fn is_blocked_port(port: u16) -> (r: bool)
    ensures
        r == blocked_ports().contains(port),
{
    let r: bool = port == 22 || port == 80 || port == 443 || port == 53 || port == 3306 || port
        == 5432 || port == 6379 || port == 8080 || port == 3000 || port == 5000 || port == 8000
        || port == 9000;
    proof {
        let b = blocked_ports();
        if r {
            if port == 22 { assert(b[0] == port); }
            if port == 80 { assert(b[1] == port); }
            if port == 443 { assert(b[2] == port); }
            if port == 53 { assert(b[3] == port); }
            if port == 3306 { assert(b[4] == port); }
            if port == 5432 { assert(b[5] == port); }
            if port == 6379 { assert(b[6] == port); }
            if port == 8080 { assert(b[7] == port); }
            if port == 3000 { assert(b[8] == port); }
            if port == 5000 { assert(b[9] == port); }
            if port == 8000 { assert(b[10] == port); }
            if port == 9000 { assert(b[11] == port); }
        } else {
            assert forall|i: int| 0 <= i < b.len() implies b[i] != port by {}
        }
    }
    r
}

fn blocked_process_name(i: usize) -> (s: &'static str)
    requires
        i < 8,
    ensures
        s@ == blocked_process_names()[i as int],
{
    if i == 0 {
        "systemd"
    } else if i == 1 {
        "dockerd"
    } else if i == 2 {
        "containerd"
    } else if i == 3 {
        "sshd"
    } else if i == 4 {
        "tor"
    } else if i == 5 {
        "docker"
    } else if i == 6 {
        "kubelet"
    } else {
        "kube-proxy"
    }
}

/// Whether the lowercased process name `lower` contains the name of a
/// system daemon.
pub fn is_system_name(lower: &str) -> (r: bool)
    ensures
        r == names_system_daemon(lower@),
{
    let hay = chars_of(lower);
    let mut i: usize = 0;
    while i < 8
        invariant
            i <= 8,
            hay@ == lower@,
            blocked_process_names().len() == 8,
            forall|j: int| 0 <= j < i ==> !is_substring(#[trigger] blocked_process_names()[j], lower@),
        decreases 8 - i,
    {
        let pat = chars_of(blocked_process_name(i));
        if contains_chars(&hay, &pat) {
            assert(is_substring(blocked_process_names()[i as int], lower@));
            return true;
        }
        i = i + 1;
    }
    false
}

/// Whether `name`, lowercased, contains the name of a system daemon.
pub fn is_blocked_process(name: &str) -> (r: bool)
    ensures
        r == is_system_process(name@),
{
    let lower = to_lowercase(name);
    is_system_name(lower.as_str())
}

/// Whether a listener on `port` owned by `process_name` is shown.
pub fn should_include_port(port: u16, process_name: &str) -> (r: bool)
    ensures
        r == is_user_listener(port, process_name@),
        r == (!blocked_ports().contains(port) && !is_system_process(process_name@)),
{
    !is_blocked_port(port) && !is_blocked_process(process_name)
}

/// The listeners of `s` that are shown, in their order: those whose port
/// and process are not system ones.
pub open spec fn user_ports(s: Seq<PortInfo>) -> Seq<PortInfo>
    decreases s.len(),
{
    if s.len() == 0 {
        Seq::empty()
    } else {
        let rest = user_ports(s.drop_last());
        if is_user_listener(s.last().port, s.last().process_name@) {
            rest.push(s.last())
        } else {
            rest
        }
    }
}

/// Drops the system services from `ports`, keeping the other listeners in
/// their order.
pub fn retain_user_ports(ports: Vec<PortInfo>) -> (r: Vec<PortInfo>)
    ensures
        r@ == user_ports(ports@),
{
    let ghost all = ports@;
    let n: usize = ports.len();
    let mut rest = ports;
    let mut kept: Vec<PortInfo> = Vec::new();
    let mut i: usize = 0;
    assert(all.take(0) =~= Seq::<PortInfo>::empty());
    while i < n
        invariant
            n == all.len(),
            i <= n,
            rest@ == all.subrange(i as int, n as int),
            kept@ == user_ports(all.take(i as int)),
        decreases n - i,
    {
        let p = rest.remove(0);
        assert(p == all[i as int]);
        assert(all.take(i + 1).drop_last() =~= all.take(i as int));
        assert(all.take(i + 1).last() == all[i as int]);
        if should_include_port(p.port, p.process_name.as_str()) {
            kept.push(p);
        }
        i = i + 1;
        assert(rest@ =~= all.subrange(i as int, n as int));
    }
    assert(all.take(n as int) =~= all);
    kept
}

} // verus!
