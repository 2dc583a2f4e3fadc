//! Port discovery: the records of listening sockets, the parsers for the
//! kernel's TCP tables, for `ss` and for `docker ps`, and the merge of
//! everything found into one list with a single owner per port.

use vstd::prelude::*;
use std::collections::HashMap;
use crate::text::{
    find_char, first_index, lines, lines_chars, split_char, split_char_chars,
    split_whitespace_chars, trim, trim_chars, words,
    before_first, before_first_char, decimal, decimal_chars, has_prefix, starts_with_chars,
    after_last, after_last_char, before_pattern, before_pattern_chars, chars_of, last_index,
    parse_unsigned, parse_unsigned_chars, rfind_char, slice_chars, string_from_chars,
};

verus! {

/// A listening TCP port and what owns it.
#[derive(Debug, Clone)]
pub struct PortInfo {
    pub port: u16,
    pub pid: u32,
    pub process_name: String,
    pub process_path: String,
    pub container_id: Option<String>,
}

/// The plain content of a [`PortInfo`].
pub struct PortEntry {
    pub port: u16,
    pub pid: u32,
    pub name: Seq<char>,
    pub path: Seq<char>,
    pub container: Option<Seq<char>>,
}

/// The plain content of an optional string.
pub open spec fn opt_view(o: Option<String>) -> Option<Seq<char>> {
    match o {
        Some(s) => Some(s@),
        None => None,
    }
}

impl View for PortInfo {
    type V = PortEntry;

    open spec fn view(&self) -> PortEntry {
        PortEntry {
            port: self.port,
            pid: self.pid,
            name: self.process_name@,
            path: self.process_path@,
            container: opt_view(self.container_id),
        }
    }
}

/// The plain contents of a list of ports.
pub open spec fn entries(s: Seq<PortInfo>) -> Seq<PortEntry> {
    s.map_values(|p: PortInfo| p@)
}

/// A copy of `o` with the same content.
pub fn clone_opt_string(o: &Option<String>) -> (r: Option<String>)
    ensures
        opt_view(r) == opt_view(*o),
{
    match o {
        Some(s) => Some(s.clone()),
        None => None,
    }
}

// ---------------------------------------------------------------------
// Small parsers
// ---------------------------------------------------------------------

/// The port of a socket address as the kernel's TCP tables write it
/// (`ADDRESS:PORT`, both in hexadecimal): the hexadecimal number after the
/// last colon, or 0 where there is no colon or no valid number.
pub open spec fn tcp_port(s: Seq<char>) -> u16 {
    let i = last_index(s, ':');
    if i >= 0 {
        match parse_unsigned(s.skip(i + 1), 16, 65535) {
            Some(v) => v as u16,
            None => 0,
        }
    } else {
        0
    }
}

/// Reads the port of a socket address from a kernel TCP table.
pub fn parse_port(hex_addr: &str) -> (r: u16)
    ensures
        r == tcp_port(hex_addr@),
{
    let v = chars_of(hex_addr);
    match rfind_char(&v, ':') {
        Some(i) => {
            assert(i < v.len());
            let digits = slice_chars(&v, i + 1, v.len());
            assert(digits@ =~= v@.skip(i + 1));
            match parse_unsigned_chars(&digits, 16, 65535) {
                Some(p) => p as u16,
                None => 0,
            }
        },
        None => 0,
    }
}

/// The decimal port after the last colon of an address (or the whole text
/// where there is no colon).
pub open spec fn host_port(s: Seq<char>) -> Option<u16> {
    match parse_unsigned(after_last(s, ':'), 10, 65535) {
        Some(v) => Some(v as u16),
        None => None,
    }
}

/// Reads the decimal port at the end of `host:port`.
pub fn extract_port_from_host_part(host_part: &Vec<char>) -> (r: Option<u16>)
    ensures
        r == host_port(host_part@),
{
    let tail = after_last_char(host_part, ':');
    match parse_unsigned_chars(&tail, 10, 65535) {
        Some(p) => Some(p as u16),
        None => None,
    }
}

/// The host port of one docker port mapping such as
/// `0.0.0.0:8080->80/tcp`: the port of what precedes the first `->`.
pub open spec fn mapping_host_port(m: Seq<char>) -> Option<u16> {
    host_port(before_pattern(m, "->"@))
}

/// Reads the host port of a docker port mapping; the mapping is returned
/// with it.
pub fn parse_docker_port_mapping(mapping: &str) -> (r: Option<(u16, String)>)
    ensures
        match r {
            Some((p, text)) => mapping_host_port(mapping@) == Some(p) && text@ == mapping@,
            None => mapping_host_port(mapping@) is None,
        },
{
    let v = chars_of(mapping);
    let arrow = chars_of("->");
    proof {
        reveal_strlit("->");
    }
    let host = before_pattern_chars(&v, &arrow);
    match extract_port_from_host_part(&host) {
        Some(p) => Some((p, string_from_chars(&v))),
        None => None,
    }
}


// ---------------------------------------------------------------------
// `ss -tlnpe`
// ---------------------------------------------------------------------

/// The process id that a field of the form `pid=N,...` names.
pub open spec fn ss_pid(part: Seq<char>) -> Option<nat> {
    if has_prefix(part, "pid="@) {
        parse_unsigned(before_first(part.skip(4), ','), 10, 4294967295)
    } else {
        None
    }
}

/// `k` is the first field that names a process id.
pub open spec fn is_first_pid_part(parts: Seq<Seq<char>>, k: int) -> bool {
    &&& 0 <= k < parts.len()
    &&& ss_pid(parts[k]) is Some
    &&& forall|j: int| 0 <= j < k ==> ss_pid(#[trigger] parts[j]) is None
}

/// `k` is the first field that begins with `users:(`.
pub open spec fn is_first_users_part(parts: Seq<Seq<char>>, k: int) -> bool {
    &&& 0 <= k < parts.len()
    &&& has_prefix(parts[k], "users:("@)
    &&& forall|j: int| 0 <= j < k ==> !has_prefix(#[trigger] parts[j], "users:("@)
}

/// The process name in the first `users:("NAME",...` field: the text up to
/// the next double quote; `None` where that field has no quote after the
/// parenthesis, or where there is no such field.
pub open spec fn ss_users_name(parts: Seq<Seq<char>>) -> Option<Seq<char>> {
    if exists|u: int| is_first_users_part(parts, u) {
        let u = choose|u: int| is_first_users_part(parts, u);
        if has_prefix(parts[u], "users:(\""@) {
            Some(before_first(parts[u].skip(8), '"'))
        } else {
            None
        }
    } else {
        None
    }
}

/// The name used for a process whose name is unknown: `pid_N`.
pub open spec fn pid_placeholder(pid: nat) -> Seq<char> {
    "pid_"@ + decimal(pid)
}

/// The owner that the fields of one `ss` line name: the first valid process
/// id and the process name, or `(0, "")` where no field names a process id.
pub open spec fn ss_process_info(parts: Seq<Seq<char>>) -> (u32, Seq<char>) {
    if exists|k: int| is_first_pid_part(parts, k) {
        let k = choose|k: int| is_first_pid_part(parts, k);
        let pid = ss_pid(parts[k])->0;
        (
            pid as u32,
            match ss_users_name(parts) {
                Some(n) => n,
                None => pid_placeholder(pid),
            },
        )
    } else {
        (0, Seq::empty())
    }
}

fn ss_pid_of(part: &Vec<char>) -> (r: Option<u32>)
    ensures
        match r {
            Some(p) => ss_pid(part@) == Some(p as nat),
            None => ss_pid(part@) is None,
        },
{
    let prefix = chars_of("pid=");
    proof {
        reveal_strlit("pid=");
    }
    if !starts_with_chars(part, &prefix) {
        return None;
    }
    let rest = slice_chars(part, 4, part.len());
    assert(rest@ =~= part@.skip(4));
    let digits = before_first_char(&rest, ',');
    match parse_unsigned_chars(&digits, 10, 4294967295) {
        Some(p) => Some(p as u32),
        None => None,
    }
}

fn string_concat_chars(a: &str, b: &Vec<char>) -> (r: String)
    ensures
        r@ == a@ + b@,
{
    let mut v = chars_of(a);
    let mut i: usize = 0;
    let ghost a0 = v@;
    while i < b.len()
        invariant
            i <= b.len(),
            v@ == a0 + b@.take(i as int),
        decreases b.len() - i,
    {
        v.push(b[i]);
        i = i + 1;
        assert(v@ =~= a0 + b@.take(i as int));
    }
    assert(b@.take(b.len() as int) =~= b@);
    string_from_chars(&v)
}

/// The text `pid_N`.
pub fn pid_placeholder_string(pid: u32) -> (r: String)
    ensures
        r@ == pid_placeholder(pid as nat),
{
    let digits = decimal_chars(pid as u64);
    string_concat_chars("pid_", &digits)
}

fn ss_users_name_of(parts: &Vec<Vec<char>>) -> (r: Option<String>)
    ensures
        opt_view(r) == ss_users_name(parts@.map_values(|p: Vec<char>| p@)),
{
    let ghost ps = parts@.map_values(|p: Vec<char>| p@);
    let users = chars_of("users:(");
    let users_quote = chars_of("users:(\"");
    proof {
        reveal_strlit("users:(");
        reveal_strlit("users:(\"");
    }
    let mut k: usize = 0;
    while k < parts.len()
        invariant
            k <= parts.len(),
            ps == parts@.map_values(|p: Vec<char>| p@),
            users@ == "users:("@,
            users_quote@ == "users:(\""@,
            users_quote@.len() == 8,
            forall|j: int| 0 <= j < k ==> !has_prefix(#[trigger] ps[j], "users:("@),
        decreases parts.len() - k,
    {
        assert(ps[k as int] == parts@[k as int]@);
        if starts_with_chars(&parts[k], &users) {
            proof {
                assert(is_first_users_part(ps, k as int));
                let u = choose|u: int| is_first_users_part(ps, u);
                if u < k {
                    assert(!has_prefix(ps[u], "users:("@));
                }
                if k < u {
                    assert(!has_prefix(ps[k as int], "users:("@));
                }
            }
            if starts_with_chars(&parts[k], &users_quote) {
                assert(users_quote@.len() == 8);
                let rest = slice_chars(&parts[k], 8, parts[k].len());
                assert(rest@ =~= ps[k as int].skip(8));
                let name = before_first_char(&rest, '"');
                return Some(string_from_chars(&name));
            } else {
                return None;
            }
        }
        k = k + 1;
    }
    assert forall|u: int| !is_first_users_part(ps, u) by {
        if is_first_users_part(ps, u) {
            assert(has_prefix(ps[u], "users:("@));
        }
    }
    None
}

/// The owner named by the fields of an `ss` line: the first field
/// `pid=N,...` with a valid number gives the process id; the process name is
/// taken from the first `users:("NAME"` field, else it is `pid_N`. Where no
/// field gives a process id the result is `(0, "")`.
pub fn parse_ss_process_info(parts: &Vec<Vec<char>>) -> (r: (u32, String))
    ensures
        (r.0, r.1@) == ss_process_info(parts@.map_values(|p: Vec<char>| p@)),
{
    let ghost ps = parts@.map_values(|p: Vec<char>| p@);
    let mut k: usize = 0;
    while k < parts.len()
        invariant
            k <= parts.len(),
            ps == parts@.map_values(|p: Vec<char>| p@),
            forall|j: int| 0 <= j < k ==> ss_pid(#[trigger] ps[j]) is None,
        decreases parts.len() - k,
    {
        assert(ps[k as int] == parts@[k as int]@);
        match ss_pid_of(&parts[k]) {
            Some(pid) => {
                proof {
                    assert(is_first_pid_part(ps, k as int));
                    let u = choose|u: int| is_first_pid_part(ps, u);
                    if u < k {
                        assert(ss_pid(ps[u]) is None);
                    }
                    if k < u {
                        assert(ss_pid(ps[k as int]) is None);
                    }
                }
                let name = match ss_users_name_of(parts) {
                    Some(n) => n,
                    None => pid_placeholder_string(pid),
                };
                return (pid, name);
            },
            None => {},
        }
        k = k + 1;
    }
    assert forall|u: int| !is_first_pid_part(ps, u) by {
        if is_first_pid_part(ps, u) {
            assert(ss_pid(ps[u]) is Some);
        }
    }
    (0, String::new())
}


// ---------------------------------------------------------------------
// Whole outputs
// ---------------------------------------------------------------------

/// The lines after the first (a table's header is dropped).
pub open spec fn drop_header(ls: Seq<Seq<char>>) -> Seq<Seq<char>> {
    if ls.len() > 0 {
        ls.drop_first()
    } else {
        ls
    }
}

/// The entry that `ss -tlnpe` reports on one line: at least six fields, a
/// decimal port after the last colon of the fourth field, and an owning
/// process with a non-zero id.
pub open spec fn ss_line_entry(line: Seq<char>) -> Option<PortEntry> {
    let parts = words(line);
    if parts.len() < 6 {
        None
    } else {
        match host_port(parts[3]) {
            None => None,
            Some(port) => {
                let (pid, name) = ss_process_info(parts);
                if pid == 0 {
                    None
                } else {
                    Some(PortEntry { port, pid, name, path: Seq::empty(), container: None })
                }
            },
        }
    }
}

/// The entries of the lines, in order, skipping the lines that give none.
pub open spec fn ss_entries(ls: Seq<Seq<char>>) -> Seq<PortEntry>
    decreases ls.len(),
{
    if ls.len() == 0 {
        Seq::empty()
    } else {
        let rest = ss_entries(ls.drop_last());
        match ss_line_entry(ls.last()) {
            Some(e) => rest.push(e),
            None => rest,
        }
    }
}

/// The listeners in the output of `ss -tlnpe` (its header line skipped).
pub fn parse_ss_output(stdout: &str) -> (r: Vec<PortInfo>)
    ensures
        entries(r@) == ss_entries(drop_header(lines(stdout@))),
{
    let text = chars_of(stdout);
    let ls = lines_chars(&text);
    let ghost all = lines(stdout@);
    let ghost body = drop_header(all);
    let mut r: Vec<PortInfo> = Vec::new();
    if ls.len() == 0 {
        assert(body.len() == 0);
        assert(entries(r@) =~= ss_entries(body));
        return r;
    }
    let mut i: usize = 1;
    assert(body.take(0) =~= Seq::<Seq<char>>::empty());
    while i < ls.len()
        invariant
            1 <= i <= ls.len(),
            ls@.len() == all.len(),
            forall|k: int| 0 <= k < ls@.len() ==> (#[trigger] ls@[k])@ == all[k],
            body == all.drop_first(),
            entries(r@) == ss_entries(body.take(i - 1)),
        decreases ls.len() - i,
    {
        let line = &ls[i];
        assert(line@ == body[i - 1]);
        let parts = split_whitespace_chars(line);
        let ghost pv = parts@.map_values(|p: Vec<char>| p@);
        assert(pv =~= words(line@));
        assert(body.take(i as int).drop_last() =~= body.take(i - 1));
        assert(body.take(i as int).last() == line@);
        if parts.len() >= 6 {
            assert(pv[3] == parts@[3]@);
            match extract_port_from_host_part(&parts[3]) {
                Some(port) => {
                    let (pid, name) = parse_ss_process_info(&parts);
                    if pid != 0 {
                        let entry = PortInfo {
                            port,
                            pid,
                            process_name: name,
                            process_path: String::new(),
                            container_id: None,
                        };
                        let ghost old_r = r@;
                        r.push(entry);
                        assert(entries(r@) =~= entries(old_r).push(entry@));
                    }
                },
                None => {},
            }
        }
        i = i + 1;
    }
    assert(body.take(ls.len() - 1) =~= body);
    r
}


/// The three `|`-separated fields of a `docker ps` line: the container id,
/// its name and its port mappings (everything after the second `|`).
/// Blank lines and lines with fewer than two `|` give none.
pub open spec fn docker_fields(line: Seq<char>) -> Option<(Seq<char>, Seq<char>, Seq<char>)> {
    let t = trim(line);
    let i1 = first_index(t, '|');
    if t.len() == 0 || i1 < 0 {
        None
    } else {
        let rest = t.skip(i1 + 1);
        let i2 = first_index(rest, '|');
        if i2 < 0 {
            None
        } else {
            Some((t.take(i1), rest.take(i2), rest.skip(i2 + 1)))
        }
    }
}

/// The entry of a container's published port.
pub open spec fn container_entry(id: Seq<char>, name: Seq<char>, port: u16) -> PortEntry {
    PortEntry {
        port,
        pid: 0,
        name: "docker: "@ + name,
        path: Seq::empty(),
        container: Some(id),
    }
}

/// The entries of the comma-separated mappings of a container: one for
/// each mapping (trimmed) with a non-zero host port.
pub open spec fn mapping_entries(id: Seq<char>, name: Seq<char>, ms: Seq<Seq<char>>) -> Seq<
    PortEntry,
>
    decreases ms.len(),
{
    if ms.len() == 0 {
        Seq::empty()
    } else {
        let rest = mapping_entries(id, name, ms.drop_last());
        match mapping_host_port(trim(ms.last())) {
            Some(p) => if p > 0 {
                rest.push(container_entry(id, name, p))
            } else {
                rest
            },
            None => rest,
        }
    }
}

/// The entries that one line of `docker ps --format {{.ID}}|{{.Names}}|{{.Ports}}` gives.
pub open spec fn docker_line_entries(line: Seq<char>) -> Seq<PortEntry> {
    match docker_fields(line) {
        Some((id, name, mappings)) => mapping_entries(id, name, split_char(mappings, ',')),
        None => Seq::empty(),
    }
}

/// The entries of all lines, in order.
pub open spec fn docker_entries(ls: Seq<Seq<char>>) -> Seq<PortEntry>
    decreases ls.len(),
{
    if ls.len() == 0 {
        Seq::empty()
    } else {
        docker_entries(ls.drop_last()) + docker_line_entries(ls.last())
    }
}

/// The published ports in the output of
/// `docker ps --format {{.ID}}|{{.Names}}|{{.Ports}}`.
pub fn parse_docker_output(stdout: &str) -> (r: Vec<PortInfo>)
    ensures
        entries(r@) == docker_entries(lines(stdout@)),
{
    let text = chars_of(stdout);
    let ls = lines_chars(&text);
    let ghost all = lines(stdout@);
    let mut r: Vec<PortInfo> = Vec::new();
    let mut i: usize = 0;
    assert(all.take(0) =~= Seq::<Seq<char>>::empty());
    while i < ls.len()
        invariant
            i <= ls.len(),
            ls@.len() == all.len(),
            forall|k: int| 0 <= k < ls@.len() ==> (#[trigger] ls@[k])@ == all[k],
            entries(r@) == docker_entries(all.take(i as int)),
        decreases ls.len() - i,
    {
        let line = &ls[i];
        assert(line@ == all[i as int]);
        assert(all.take(i + 1).drop_last() =~= all.take(i as int));
        assert(all.take(i + 1).last() == line@);
        let ghost before = entries(r@);
        append_line_entries(&mut r, line);
        assert(entries(r@) =~= before + docker_line_entries(line@));
        i = i + 1;
    }
    assert(all.take(ls.len() as int) =~= all);
    r
}

fn append_line_entries(r: &mut Vec<PortInfo>, line: &Vec<char>)
    ensures
        entries(final(r)@) == entries(old(r)@) + docker_line_entries(line@),
{
    let t = trim_chars(line);
    if t.len() == 0 {
        assert(entries(r@) =~= entries(r@) + Seq::<PortEntry>::empty());
        return;
    }
    let i1 = match find_char(&t, '|') {
        Some(x) => x,
        None => {
            assert(entries(r@) =~= entries(r@) + Seq::<PortEntry>::empty());
            return;
        },
    };
    let rest = slice_chars(&t, i1 + 1, t.len());
    assert(rest@ =~= t@.skip(i1 + 1));
    let i2 = match find_char(&rest, '|') {
        Some(x) => x,
        None => {
            assert(entries(r@) =~= entries(r@) + Seq::<PortEntry>::empty());
            return;
        },
    };
    let id = slice_chars(&t, 0, i1);
    assert(id@ =~= t@.take(i1 as int));
    let name = slice_chars(&rest, 0, i2);
    assert(name@ =~= rest@.take(i2 as int));
    let mappings = slice_chars(&rest, i2 + 1, rest.len());
    assert(mappings@ =~= rest@.skip(i2 + 1));
    let ms = split_char_chars(&mappings, ',');
    let ghost msv = split_char(mappings@, ',');
    let id_string = string_from_chars(&id);
    let label = string_concat_chars("docker: ", &name);
    let arrow = chars_of("->");
    proof {
        reveal_strlit("->");
    }
    let ghost start = entries(r@);
    let mut k: usize = 0;
    assert(msv.take(0) =~= Seq::<Seq<char>>::empty());
    assert(start =~= start + mapping_entries(id@, name@, msv.take(0)));
    while k < ms.len()
        invariant
            k <= ms.len(),
            ms@.len() == msv.len(),
            forall|q: int| 0 <= q < ms@.len() ==> (#[trigger] ms@[q])@ == msv[q],
            arrow@ == "->"@,
            arrow@.len() == 2,
            id_string@ == id@,
            label@ == "docker: "@ + name@,
            entries(r@) == start + mapping_entries(id@, name@, msv.take(k as int)),
        decreases ms.len() - k,
    {
        let m = trim_chars(&ms[k]);
        assert(m@ == trim(msv[k as int]));
        assert(msv.take(k + 1).drop_last() =~= msv.take(k as int));
        assert(msv.take(k + 1).last() == msv[k as int]);
        let host = before_pattern_chars(&m, &arrow);
        match extract_port_from_host_part(&host) {
            Some(p) => {
                if p > 0 {
                    let ghost old_r = r@;
                    let entry = PortInfo {
                        port: p,
                        pid: 0,
                        process_name: label.clone(),
                        process_path: String::new(),
                        container_id: Some(id_string.clone()),
                    };
                    r.push(entry);
                    assert(entry@ == container_entry(id@, name@, p));
                    assert(entries(r@) =~= entries(old_r).push(entry@));
                }
            },
            None => {},
        }
        k = k + 1;
    }
    assert(msv.take(ms.len() as int) =~= msv);
}


// ---------------------------------------------------------------------
// The kernel's TCP tables and the socket owners
// ---------------------------------------------------------------------

/// A listening socket read from `/proc/net/tcp` or `/proc/net/tcp6`.
pub struct TcpListener {
    pub port: u16,
    pub inode: u64,
}

/// The listening socket that one line of a kernel TCP table describes: at
/// least ten fields, state `0A` (LISTEN) in the fourth, a non-zero inode in
/// the tenth; the port is read from the second.
pub open spec fn tcp_line_listener(line: Seq<char>) -> Option<(u16, u64)> {
    let parts = words(line);
    if parts.len() < 10 || parts[3] != "0A"@ {
        None
    } else {
        match parse_unsigned(parts[9], 10, 18446744073709551615) {
            None => None,
            Some(inode) => if inode == 0 {
                None
            } else {
                Some((tcp_port(parts[1]), inode as u64))
            },
        }
    }
}

/// The listening sockets of the lines, in order.
pub open spec fn tcp_listeners(ls: Seq<Seq<char>>) -> Seq<(u16, u64)>
    decreases ls.len(),
{
    if ls.len() == 0 {
        Seq::empty()
    } else {
        let rest = tcp_listeners(ls.drop_last());
        match tcp_line_listener(ls.last()) {
            Some(e) => rest.push(e),
            None => rest,
        }
    }
}

/// Whether `a` and `b` hold the same characters.
pub fn chars_eq(a: &Vec<char>, b: &Vec<char>) -> (r: bool)
    ensures
        r == (a@ == b@),
{
    if a.len() != b.len() {
        return false;
    }
    let mut i: usize = 0;
    while i < a.len()
        invariant
            a.len() == b.len(),
            i <= a.len(),
            forall|j: int| 0 <= j < i ==> a@[j] == b@[j],
        decreases a.len() - i,
    {
        if a[i] != b[i] {
            return false;
        }
        i = i + 1;
    }
    assert(a@ =~= b@);
    true
}

/// The listening sockets in the text of a kernel TCP table (its header line
/// skipped).
pub fn parse_tcp_table(content: &str) -> (r: Vec<TcpListener>)
    ensures
        r@.map_values(|l: TcpListener| (l.port, l.inode)) == tcp_listeners(
            drop_header(lines(content@)),
        ),
{
    let text = chars_of(content);
    let ls = lines_chars(&text);
    let listen = chars_of("0A");
    let ghost all = lines(content@);
    let ghost body = drop_header(all);
    let mut r: Vec<TcpListener> = Vec::new();
    if ls.len() == 0 {
        assert(r@.map_values(|l: TcpListener| (l.port, l.inode)) =~= tcp_listeners(body));
        return r;
    }
    let mut i: usize = 1;
    assert(body.take(0) =~= Seq::<Seq<char>>::empty());
    while i < ls.len()
        invariant
            1 <= i <= ls.len(),
            ls@.len() == all.len(),
            forall|k: int| 0 <= k < ls@.len() ==> (#[trigger] ls@[k])@ == all[k],
            body == all.drop_first(),
            listen@ == "0A"@,
            r@.map_values(|l: TcpListener| (l.port, l.inode)) == tcp_listeners(body.take(i - 1)),
        decreases ls.len() - i,
    {
        let line = &ls[i];
        assert(line@ == body[i - 1]);
        let parts = split_whitespace_chars(line);
        let ghost pv = parts@.map_values(|p: Vec<char>| p@);
        assert(pv =~= words(line@));
        assert(body.take(i as int).drop_last() =~= body.take(i - 1));
        assert(body.take(i as int).last() == line@);
        if parts.len() >= 10 && chars_eq(&parts[3], &listen) {
            assert(pv[3] == parts@[3]@);
            assert(pv[9] == parts@[9]@);
            assert(pv[1] == parts@[1]@);
            match parse_unsigned_chars(&parts[9], 10, 18446744073709551615) {
                Some(inode) => {
                    if inode != 0 {
                        let addr = string_from_chars(&parts[1]);
                        let port = parse_port(addr.as_str());
                        let ghost old_r = r@;
                        r.push(TcpListener { port, inode });
                        assert(r@.map_values(|l: TcpListener| (l.port, l.inode)) =~= old_r.map_values(
                            |l: TcpListener| (l.port, l.inode),
                        ).push((port, inode)));
                    }
                },
                None => {},
            }
        } else {
            proof {
                if parts.len() >= 10 {
                    assert(pv[3] == parts@[3]@);
                }
            }
        }
        i = i + 1;
    }
    assert(body.take(ls.len() - 1) =~= body);
    r
}

/// The owner of each listening socket that `inode_pids` knows, in order.
pub open spec fn owned_listeners(ls: Seq<(u16, u64)>, inode_pids: Map<u64, u32>) -> Seq<(u16, u32)>
    decreases ls.len(),
{
    if ls.len() == 0 {
        Seq::empty()
    } else {
        let rest = owned_listeners(ls.drop_last(), inode_pids);
        let (port, inode) = ls.last();
        if inode_pids.contains_key(inode) {
            rest.push((port, inode_pids[inode]))
        } else {
            rest
        }
    }
}

/// Pairs each listening socket with the process that holds its inode;
/// sockets that no known process holds are left out.
pub fn resolve_listeners(listeners: &Vec<TcpListener>, inode_pids: &HashMap<u64, u32>) -> (r: Vec<
    (u16, u32),
>)
    ensures
        r@ == owned_listeners(
            listeners@.map_values(|l: TcpListener| (l.port, l.inode)),
            inode_pids@,
        ),
{
    broadcast use vstd::std_specs::hash::group_hash_axioms;

    let ghost ls = listeners@.map_values(|l: TcpListener| (l.port, l.inode));
    let mut r: Vec<(u16, u32)> = Vec::new();
    let mut i: usize = 0;
    assert(ls.take(0) =~= Seq::<(u16, u64)>::empty());
    while i < listeners.len()
        invariant
            i <= listeners.len(),
            ls == listeners@.map_values(|l: TcpListener| (l.port, l.inode)),
            r@ == owned_listeners(ls.take(i as int), inode_pids@),
        decreases listeners.len() - i,
    {
        let l = &listeners[i];
        assert(ls.take(i + 1).drop_last() =~= ls.take(i as int));
        assert(ls.take(i + 1).last() == (l.port, l.inode));
        match inode_pids.get(&l.inode) {
            Some(pid) => {
                r.push((l.port, *pid));
            },
            None => {},
        }
        i = i + 1;
    }
    assert(ls.take(listeners.len() as int) =~= ls);
    r
}

/// The socket inode that a file-descriptor link such as `socket:[12345]`
/// names.
pub open spec fn socket_inode(link: Seq<char>) -> Option<u64> {
    if has_prefix(link, "socket:["@) {
        let rest = link.skip(8);
        if rest.len() > 0 && rest.last() == ']' {
            match parse_unsigned(rest.drop_last(), 10, 18446744073709551615) {
                Some(v) => Some(v as u64),
                None => None,
            }
        } else {
            None
        }
    } else {
        None
    }
}

/// Reads the inode number of a `socket:[N]` link.
pub fn parse_socket_link(link: &str) -> (r: Option<u64>)
    ensures
        r == socket_inode(link@),
{
    let v = chars_of(link);
    let prefix = chars_of("socket:[");
    proof {
        reveal_strlit("socket:[");
    }
    if !starts_with_chars(&v, &prefix) {
        return None;
    }
    let n: usize = v.len();
    if n == 8 || v[n - 1] != ']' {
        assert(v@.skip(8).len() == 0 || v@.skip(8).last() != ']');
        return None;
    }
    let digits = slice_chars(&v, 8, n - 1);
    assert(digits@ =~= v@.skip(8).drop_last());
    match parse_unsigned_chars(&digits, 10, 18446744073709551615) {
        Some(x) => Some(x),
        None => None,
    }
}

/// Records, for one open file descriptor of process `pid`, the socket inode
/// that its link names; a later record for the same inode replaces an
/// earlier one. Links that name no socket change nothing.
pub fn record_socket_link(inode_pids: &mut HashMap<u64, u32>, pid: u32, link: &str)
    ensures
        final(inode_pids)@ == match socket_inode(link@) {
            Some(inode) => old(inode_pids)@.insert(inode, pid),
            None => old(inode_pids)@,
        },
{
    broadcast use vstd::std_specs::hash::group_hash_axioms;

    match parse_socket_link(link) {
        Some(inode) => {
            inode_pids.insert(inode, pid);
        },
        None => {},
    }
}

/// The process id that a directory name under `/proc` stands for.
pub fn parse_pid_dir(name: &str) -> (r: Option<u32>)
    ensures
        match r {
            Some(p) => parse_unsigned(name@, 10, 4294967295) == Some(p as nat),
            None => parse_unsigned(name@, 10, 4294967295) is None,
        },
{
    let v = chars_of(name);
    match parse_unsigned_chars(&v, 10, 4294967295) {
        Some(p) => Some(p as u32),
        None => None,
    }
}

/// The name shown for a process: the content of its `comm` file without
/// surrounding whitespace, or `pid_N` where the file could not be read.
pub open spec fn process_display_name(comm: Option<Seq<char>>, pid: u32) -> Seq<char> {
    match comm {
        Some(c) => trim(c),
        None => pid_placeholder(pid as nat),
    }
}

/// The name shown for process `pid`, from the content of its `comm` file.
pub fn process_name_from_comm(comm: &Option<String>, pid: u32) -> (r: String)
    ensures
        r@ == process_display_name(opt_view(*comm), pid),
{
    match comm {
        Some(c) => {
            let v = chars_of(c.as_str());
            let t = trim_chars(&v);
            string_from_chars(&t)
        },
        None => pid_placeholder_string(pid),
    }
}


// ---------------------------------------------------------------------
// Merging what was found
// ---------------------------------------------------------------------

/// Among the first `n` entries of `all`, entry `k` is the one kept for its
/// port: no entry for the same port has a larger process id, and no earlier
/// one has the same process id.
pub open spec fn is_kept(all: Seq<PortInfo>, n: int, k: int) -> bool {
    &&& 0 <= k < n <= all.len()
    &&& forall|j: int|
        0 <= j < n && (#[trigger] all[j]).port == all[k].port ==> (all[j].pid < all[k].pid || (
        all[j].pid == all[k].pid && k <= j))
}

/// The entries are in strictly increasing order of port.
pub open spec fn strictly_sorted_by_port(r: Seq<PortInfo>) -> bool {
    forall|a: int, b: int| 0 <= a < b < r.len() ==> (#[trigger] r[a]).port < (#[trigger] r[b]).port
}

/// `x` is the kept entry of its port among all of `all`.
pub open spec fn is_kept_entry(all: Seq<PortInfo>, x: PortInfo) -> bool {
    exists|k: int| is_kept(all, all.len() as int, k) && x == #[trigger] all[k]
}

/// `r` holds exactly the kept entry of every port that occurs in `all`,
/// ordered by port.
pub open spec fn is_merged_listing(all: Seq<PortInfo>, r: Seq<PortInfo>) -> bool {
    &&& strictly_sorted_by_port(r)
    &&& forall|a: int| 0 <= a < r.len() ==> is_kept_entry(all, #[trigger] r[a])
    &&& forall|k: int|
        is_kept(all, all.len() as int, k) ==> exists|a: int| 0 <= a < r.len() && #[trigger] r[a] == all[k]
}

/// Two kept entries for the same port are the same entry.
pub proof fn lemma_kept_unique(all: Seq<PortInfo>, n: int, k1: int, k2: int)
    requires
        is_kept(all, n, k1),
        is_kept(all, n, k2),
        all[k1].port == all[k2].port,
    ensures
        k1 == k2,
{
    assert(all[k2].port == all[k1].port);
    let _ = all[k1];
    let _ = all[k2];
}

/// Every port that occurs in `all` has a kept entry in a merged listing.
pub proof fn lemma_merged_covers(all: Seq<PortInfo>, r: Seq<PortInfo>, src: Seq<int>, n: int)
    requires
        n == all.len(),
        src.len() == r.len(),
        forall|a: int| 0 <= a < r.len() ==> is_kept(all, n, #[trigger] src[a]) && r[a] == all[src[a]],
        forall|k: int|
            0 <= k < n ==> exists|a: int| 0 <= a < r.len() && (#[trigger] r[a]).port == (#[trigger] all[k]).port,
    ensures
        forall|k: int| is_kept(all, n, k) ==> exists|a: int| 0 <= a < r.len() && #[trigger] r[a] == all[k],
{
    assert forall|k: int| is_kept(all, n, k) implies exists|a: int| 0 <= a < r.len() && #[trigger] r[a] == all[k] by {
        let _ = all[k];
        let a = choose|a: int| 0 <= a < r.len() && (#[trigger] r[a]).port == all[k].port;
        let _ = src[a];
        lemma_kept_unique(all, n, src[a], k);
        assert(r[a] == all[k]);
    }
}

/// Merges the listeners found in the kernel tables, by `ss` and by docker
/// into one list ordered by port with one entry per port: where several
/// entries share a port, the one with the largest process id is kept, and
/// among those the first found.
pub fn get_open_ports(
    proc_ports: Vec<PortInfo>,
    ss_ports: Vec<PortInfo>,
    docker_ports: Vec<PortInfo>,
) -> (r: Vec<PortInfo>)
    ensures
        is_merged_listing(proc_ports@ + ss_ports@ + docker_ports@, r@),
{
    let ghost all = proc_ports@ + ss_ports@ + docker_ports@;
    let mut rest = proc_ports;
    let mut more = ss_ports;
    rest.append(&mut more);
    let mut last = docker_ports;
    rest.append(&mut last);
    assert(rest@ =~= all);
    let ghost n: int = all.len() as int;
    let mut r: Vec<PortInfo> = Vec::new();
    let ghost mut src: Seq<int> = Seq::empty();
    let ghost mut i: int = 0;
    while rest.len() > 0
        invariant
            n == all.len(),
            0 <= i <= n,
            rest@ == all.skip(i),
            src.len() == r@.len(),
            strictly_sorted_by_port(r@),
            forall|a: int| 0 <= a < r@.len() ==> is_kept(all, i, #[trigger] src[a]) && r@[a] == all[src[a]],
            forall|k: int|
                0 <= k < i ==> exists|a: int| 0 <= a < r@.len() && (#[trigger] r@[a]).port == (#[trigger] all[k]).port,
        decreases rest.len(),
    {
        let x = rest.remove(0);
        assert(x == all[i]);
        assert(rest@ =~= all.skip(i + 1));
        let mut p: usize = 0;
        while p < r.len() && r[p].port < x.port
            invariant
                p <= r@.len(),
                forall|q: int| 0 <= q < p ==> (#[trigger] r@[q]).port < x.port,
            decreases r@.len() - p,
        {
            p = p + 1;
        }
        let ghost old_r = r@;
        let ghost old_src = src;
        if p < r.len() && r[p].port == x.port {
            let ghost k0: int = src[p as int];
            if x.pid > r[p].pid {
                proof {
                    assert forall|a: int| 0 <= a < old_r.len() && a != p implies old_r[a].port != x.port by {
                        if a < p {
                            assert(old_r[a].port < old_r[p as int].port);
                        } else {
                            assert(old_r[p as int].port < old_r[a].port);
                        }
                    }
                    src = src.update(p as int, i);
                }
                r.set(p, x);
                proof {
                    assert forall|a: int| 0 <= a < r@.len() implies is_kept(all, i + 1, #[trigger] src[a]) && r@[a] == all[src[a]] by {
                        if a == p {
                            assert forall|j: int| 0 <= j < i + 1 && (#[trigger] all[j]).port == all[i].port implies (all[j].pid < all[i].pid || (all[j].pid == all[i].pid && i <= j)) by {
                                if j < i {
                                    assert(is_kept(all, i, k0));
                                    assert(all[j].pid <= all[k0].pid);
                                }
                            }
                        } else {
                            assert(is_kept(all, i, old_src[a]));
                            assert(old_r[a].port != x.port);
                        }
                    }
                    assert forall|k: int| 0 <= k < i + 1 implies exists|a: int| 0 <= a < r@.len() && (#[trigger] r@[a]).port == (#[trigger] all[k]).port by {
                        if k == i {
                            assert(r@[p as int].port == all[k].port);
                        } else {
                            let a = choose|a: int| 0 <= a < old_r.len() && (#[trigger] old_r[a]).port == all[k].port;
                            assert(r@[a].port == old_r[a].port);
                        }
                    }
                }
            } else {
                proof {
                    assert forall|a: int| 0 <= a < r@.len() implies is_kept(all, i + 1, #[trigger] src[a]) && r@[a] == all[src[a]] by {
                        assert(is_kept(all, i, src[a]));
                        if a != p {
                            if a < p {
                                assert(old_r[a].port < old_r[p as int].port);
                            } else {
                                assert(old_r[p as int].port < old_r[a].port);
                            }
                        }
                    }
                    assert forall|k: int| 0 <= k < i + 1 implies exists|a: int| 0 <= a < r@.len() && (#[trigger] r@[a]).port == (#[trigger] all[k]).port by {
                        if k == i {
                            assert(r@[p as int].port == all[k].port);
                        }
                    }
                }
            }
        } else {
            proof {
                assert forall|a: int| 0 <= a < old_r.len() implies old_r[a].port != x.port by {
                    if a >= p {
                        assert(old_r[p as int].port <= old_r[a].port);
                    }
                }
                src = src.insert(p as int, i);
            }
            r.insert(p, x);
            proof {
                assert forall|a: int, b: int| 0 <= a < b < r@.len() implies (#[trigger] r@[a]).port < (#[trigger] r@[b]).port by {
                    if a < p && b == p {
                    } else if a < p && b > p {
                        assert(r@[b] == old_r[b - 1]);
                        if (b - 1) > a {
                            assert(old_r[a].port < old_r[b - 1].port);
                        }
                    } else if a == p {
                        assert(r@[b] == old_r[b - 1]);
                        assert(old_r[p as int].port <= old_r[b - 1].port);
                    } else if b < p {
                        assert(old_r[a].port < old_r[b].port);
                    } else {
                        assert(r@[a] == old_r[a - 1]);
                        assert(r@[b] == old_r[b - 1]);
                        assert(old_r[a - 1].port < old_r[b - 1].port);
                    }
                }
                assert forall|a: int| 0 <= a < r@.len() implies is_kept(all, i + 1, #[trigger] src[a]) && r@[a] == all[src[a]] by {
                    if a == p {
                        assert forall|j: int| 0 <= j < i + 1 && (#[trigger] all[j]).port == all[i].port implies (all[j].pid < all[i].pid || (all[j].pid == all[i].pid && i <= j)) by {
                            if j < i {
                                let w = choose|w: int| 0 <= w < old_r.len() && (#[trigger] old_r[w]).port == all[j].port;
                                assert(old_r[w].port != x.port);
                            }
                        }
                    } else if a < p {
                        assert(is_kept(all, i, old_src[a]));
                        assert(old_r[a].port != x.port);
                    } else {
                        assert(src[a] == old_src[a - 1]);
                        assert(is_kept(all, i, old_src[a - 1]));
                        assert(old_r[a - 1].port != x.port);
                    }
                }
                assert forall|k: int| 0 <= k < i + 1 implies exists|a: int| 0 <= a < r@.len() && (#[trigger] r@[a]).port == (#[trigger] all[k]).port by {
                    if k == i {
                        assert(r@[p as int].port == all[k].port);
                    } else {
                        let a = choose|a: int| 0 <= a < old_r.len() && (#[trigger] old_r[a]).port == all[k].port;
                        if a < p {
                            assert(r@[a].port == old_r[a].port);
                        } else {
                            assert(r@[a + 1].port == old_r[a].port);
                        }
                    }
                }
            }
        }
        proof {
            i = i + 1;
        }
    }
    proof {
        assert(i == n);
        lemma_merged_covers(all, r@, src, n);
        assert forall|a: int| 0 <= a < r@.len() implies is_kept_entry(all, #[trigger] r@[a]) by {
            let k = src[a];
            assert(is_kept(all, n, k));
            assert(r@[a] == all[k]);
        }
    }
    r
}

} // verus!
