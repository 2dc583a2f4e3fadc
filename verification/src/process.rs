//! What a kill is aimed at, how its failure is reported, and which process
//! or container owns a given port.

use vstd::prelude::*;
use crate::ports::{PortEntry, PortInfo};
use crate::text::{decimal, decimal_string};

verus! {

/// What a kill request stops: a process, by id, or a docker container, by id.
#[derive(Debug, Clone)]
pub enum KillTarget {
    Process(u32),
    Container(String),
}

/// The plain content of a [`KillTarget`].
pub enum KillTargetView {
    Process(u32),
    Container(Seq<char>),
}

impl View for KillTarget {
    type V = KillTargetView;

    open spec fn view(&self) -> KillTargetView {
        match self {
            KillTarget::Process(pid) => KillTargetView::Process(*pid),
            KillTarget::Container(id) => KillTargetView::Container(id@),
        }
    }
}

/// Why a kill failed: the operating system's error number, where there is
/// one, and the system's description of the error.
#[derive(Debug, Clone)]
pub struct KillError {
    pub os_code: Option<i32>,
    pub description: String,
}

/// Trusted: `libc::ESRCH`, the error number for "no such process"; the
/// crate's source defines it as 3 for Linux (`linux_l4re_shared.rs`), the
/// only system this tool reads `/proc` on.
#[verifier::external_body]
fn errno_no_such_process() -> (r: i32)
    ensures
        r == 3,
{
    libc::ESRCH
}

/// Trusted: `libc::EPERM`, the error number for "operation not permitted";
/// the crate's source defines it as 1 for Linux (`linux_l4re_shared.rs`).
#[verifier::external_body]
fn errno_not_permitted() -> (r: i32)
    ensures
        r == 1,
{
    libc::EPERM
}

/// The message shown for a failed kill: a fixed text for a vanished process
/// (ESRCH) and for a refused one (EPERM), the system's description otherwise.
pub open spec fn error_message(os_code: Option<i32>, description: Seq<char>) -> Seq<char> {
    if os_code == Some(3i32) {
        "Process not found (may have already exited)"@
    } else if os_code == Some(1i32) {
        "Permission denied"@
    } else {
        description
    }
}

/// The message to show for a failed kill.
pub fn format_error(e: &KillError) -> (r: String)
    ensures
        r@ == error_message(e.os_code, e.description@),
{
    let esrch: i32 = errno_no_such_process();
    let eperm: i32 = errno_not_permitted();
    match e.os_code {
        Some(code) => {
            if code == esrch {
                String::from_str("Process not found (may have already exited)")
            } else if code == eperm {
                String::from_str("Permission denied")
            } else {
                e.description.clone()
            }
        },
        None => e.description.clone(),
    }
}

/// What a kill of the listener `e` stops: its container where it has one,
/// its process otherwise.
pub open spec fn target_of(e: PortEntry) -> KillTargetView {
    match e.container {
        Some(id) => KillTargetView::Container(id),
        None => KillTargetView::Process(e.pid),
    }
}

/// `k` is the first entry of `ports` on `port`.
pub open spec fn is_first_on_port(ports: Seq<PortInfo>, port: u16, k: int) -> bool {
    &&& 0 <= k < ports.len()
    &&& ports[k].port == port
    &&& forall|j: int| 0 <= j < k ==> (#[trigger] ports[j]).port != port
}

/// What to stop to free `port`: the target of the first listener on it, or
/// `None` where nothing listens on it.
pub open spec fn target_for_port(ports: Seq<PortInfo>, port: u16) -> Option<KillTargetView> {
    if exists|k: int| is_first_on_port(ports, port, k) {
        let k = choose|k: int| is_first_on_port(ports, port, k);
        Some(target_of(ports[k]@))
    } else {
        None
    }
}

/// The target whose kill frees `port`, looked up in a port listing.
pub fn kill_target_for_port(ports: &Vec<PortInfo>, port: u16) -> (r: Option<KillTarget>)
    ensures
        match r {
            Some(t) => target_for_port(ports@, port) == Some(t@),
            None => target_for_port(ports@, port) is None,
        },
{
    let mut k: usize = 0;
    while k < ports.len()
        invariant
            k <= ports.len(),
            forall|j: int| 0 <= j < k ==> (#[trigger] ports@[j]).port != port,
        decreases ports.len() - k,
    {
        if ports[k].port == port {
            proof {
                assert(is_first_on_port(ports@, port, k as int));
                let w = choose|w: int| is_first_on_port(ports@, port, w);
                if w < k {
                    assert(ports@[w].port != port);
                }
                if k < w {
                    assert(ports@[k as int].port != port);
                }
            }
            let t = match &ports[k].container_id {
                Some(id) => KillTarget::Container(id.clone()),
                None => KillTarget::Process(ports[k].pid),
            };
            return Some(t);
        }
        k = k + 1;
    }
    assert forall|w: int| !is_first_on_port(ports@, port, w) by {
        if is_first_on_port(ports@, port, w) {
            assert(ports@[w].port == port);
        }
    }
    None
}


/// The error text for a port that nothing listens on.
pub fn no_process_on_port_message(port: u16) -> (r: String)
    ensures
        r@ == "No process found on port "@ + decimal(port as nat),
{
    let digits = decimal_string(port as u64);
    String::from_str("No process found on port ").concat(digits.as_str())
}

} // verus!
