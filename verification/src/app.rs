//! The state of the interactive port list and its transitions: search,
//! navigation, the kill confirmation and the status message.

use vstd::prelude::*;
use std::time::{Duration, Instant};
use crate::filter::{retain_user_ports, user_ports};
use crate::ports::{clone_opt_string, entries, opt_view, PortEntry, PortInfo};
use crate::process::{error_message, format_error, KillError, KillTarget, KillTargetView};
use crate::text::{
    chars_of, contains_chars, decimal, decimal_chars, is_substring, lowercase, string_from_chars,
    to_lowercase,
};

verus! {

/// Declares `std::time::Instant`, which the state holds as the origin of
/// its clock; its content is not visible to proofs.
#[verifier::external_type_specification]
#[verifier::external_body]
pub struct ExInstant(Instant);

/// Nanoseconds (two seconds) for which a status message stays on screen.
pub const MESSAGE_TIMEOUT_NS: u128 = 2_000_000_000;

/// Trusted: `Instant::now`, a reading of the monotonic clock. Its value
/// depends on the time of the call, so nothing is stated of it.
#[verifier::external_body]
fn clock_now() -> Instant {
    Instant::now()
}

/// Trusted: `Instant::elapsed`, the time that has passed on the monotonic
/// clock since `origin` (zero where the clock reads earlier; it does not
/// panic). It depends on the time of the call, so nothing is stated of it.
#[verifier::external_body]
fn elapsed_since(origin: &Instant) -> Duration {
    origin.elapsed()
}

/// Trusted: `Duration::as_nanos`, the whole nanoseconds of `d`.
/// `Duration` is opaque here, so nothing is stated of the value.
#[verifier::external_body]
fn whole_nanos(d: &Duration) -> u128 {
    d.as_nanos()
}

/// The deadline of a message shown at `now` (nanoseconds on the list's
/// clock): [`MESSAGE_TIMEOUT_NS`] later, or the last representable
/// reading where that sum has none.
pub open spec fn deadline_after(now: u128) -> u128 {
    if now + MESSAGE_TIMEOUT_NS <= u128::MAX {
        (now + MESSAGE_TIMEOUT_NS) as u128
    } else {
        u128::MAX
    }
}

/// What the screen is doing.
#[derive(Debug, Clone)]
pub enum Mode {
    Normal,
    Search,
    ConfirmKill { pid: u32, name: String, container_id: Option<String> },
}

/// The plain content of a [`Mode`].
pub enum ModeView {
    Normal,
    Search,
    ConfirmKill { pid: u32, name: Seq<char>, container_id: Option<Seq<char>> },
}

impl View for Mode {
    type V = ModeView;

    open spec fn view(&self) -> ModeView {
        match self {
            Mode::Normal => ModeView::Normal,
            Mode::Search => ModeView::Search,
            Mode::ConfirmKill { pid, name, container_id } => ModeView::ConfirmKill {
                pid: *pid,
                name: name@,
                container_id: opt_view(*container_id),
            },
        }
    }
}

/// The state of the port list.
pub struct App {
    pub ports: Vec<PortInfo>,
    pub filtered: Vec<usize>,
    pub selected: usize,
    pub search_query: String,
    pub mode: Mode,
    pub message: Option<String>,
    /// When the message goes, in nanoseconds since `clock_origin`.
    pub message_expires_at: Option<u128>,
    pub should_quit: bool,
    /// The reading of the monotonic clock that the deadlines count from.
    pub clock_origin: Instant,
}

/// The plain content of an [`App`].
#[verifier::ext_equal]
pub struct AppView {
    pub ports: Seq<PortEntry>,
    pub filtered: Seq<usize>,
    pub selected: usize,
    pub search_query: Seq<char>,
    pub mode: ModeView,
    pub message: Option<Seq<char>>,
    pub message_expires_at: Option<u128>,
    pub should_quit: bool,
    pub clock_origin: Instant,
}

impl View for App {
    type V = AppView;

    open spec fn view(&self) -> AppView {
        AppView {
            ports: entries(self.ports@),
            filtered: self.filtered@,
            selected: self.selected,
            search_query: self.search_query@,
            mode: self.mode@,
            message: opt_view(self.message),
            message_expires_at: self.message_expires_at,
            should_quit: self.should_quit,
            clock_origin: self.clock_origin,
        }
    }
}

/// A listener on `port` whose lowercased name and path are `name_lower`
/// and `path_lower` matches the lowercased query `q` where `q` occurs in
/// its decimal port, its name or its path.
pub open spec fn text_matches(port: u16, name_lower: Seq<char>, path_lower: Seq<char>, q: Seq<char>) -> bool {
    ||| is_substring(q, decimal(port as nat))
    ||| is_substring(q, name_lower)
    ||| is_substring(q, path_lower)
}

/// A listener matches a (lowercased) query where the query occurs in its
/// decimal port, its lowercased process name or its lowercased path.
pub open spec fn port_matches(e: PortEntry, q: Seq<char>) -> bool {
    text_matches(e.port, lowercase(e.name), lowercase(e.path), q)
}

/// The indices below `n` of the listeners that match `q`, in order.
pub open spec fn matching_indices(ports: Seq<PortEntry>, q: Seq<char>, n: nat) -> Seq<usize>
    decreases n,
{
    if n == 0 {
        Seq::empty()
    } else {
        let prev = matching_indices(ports, q, (n - 1) as nat);
        if port_matches(ports[n - 1], q) {
            prev.push((n - 1) as usize)
        } else {
            prev
        }
    }
}

/// The rows that a search shows: every listener for an empty query, else
/// those that match the lowercased query.
pub open spec fn search_results(ports: Seq<PortEntry>, query: Seq<char>) -> Seq<usize> {
    if query.len() == 0 {
        Seq::new(ports.len(), |i: int| i as usize)
    } else {
        matching_indices(ports, lowercase(query), ports.len())
    }
}

/// The selection kept after the list changes: unchanged where it still
/// points at a row, the last row otherwise, 0 for an empty list.
pub open spec fn clamp_selection(sel: usize, len: nat) -> usize {
    if len == 0 {
        0
    } else if sel < len - 1 {
        sel
    } else {
        (len - 1) as usize
    }
}

/// The selection after a step down.
pub open spec fn next_selection(sel: usize, len: nat) -> usize {
    if len > 0 && sel < len - 1 {
        (sel + 1) as usize
    } else {
        sel
    }
}

/// The selection after a step up.
pub open spec fn previous_selection(sel: usize) -> usize {
    if sel > 0 {
        (sel - 1) as usize
    } else {
        sel
    }
}

/// The target of a confirmation dialog; `None` outside one.
pub open spec fn mode_target(m: ModeView) -> Option<KillTargetView> {
    match m {
        ModeView::ConfirmKill { pid, name, container_id } => match container_id {
            Some(id) => Some(KillTargetView::Container(id)),
            None => Some(KillTargetView::Process(pid)),
        },
        _ => None,
    }
}

/// The status message after a kill: "Stopped container" or
/// "Killed process N" on success, the error's message on failure.
pub open spec fn kill_message(target: KillTargetView, outcome: Result<(), (Option<i32>, Seq<char>)>) -> Seq<char> {
    match outcome {
        Ok(_) => match target {
            KillTargetView::Container(_) => "Stopped container"@,
            KillTargetView::Process(pid) => "Killed process "@ + decimal(pid as nat),
        },
        Err((code, description)) => error_message(code, description),
    }
}

/// The plain content of a kill's outcome.
pub open spec fn outcome_view(outcome: Result<(), KillError>) -> Result<(), (Option<i32>, Seq<char>)> {
    match outcome {
        Ok(_) => Ok(()),
        Err(e) => Err((e.os_code, e.description@)),
    }
}

impl AppView {
    /// The state after the list of rows is recomputed from the search.
    pub open spec fn with_filter(self) -> AppView {
        let f = search_results(self.ports, self.search_query);
        AppView { filtered: f, selected: clamp_selection(self.selected, f.len()), ..self }
    }

    /// The state after new ports were read.
    pub open spec fn after_refresh(self, ports: Seq<PortEntry>) -> AppView {
        AppView { ports, ..self }.with_filter()
    }

    /// The state after the search text changed.
    pub open spec fn after_update_search(self, query: Seq<char>) -> AppView {
        AppView { search_query: query, ..self }.with_filter()
    }

    /// The state after a step down.
    pub open spec fn after_next(self) -> AppView {
        AppView { selected: next_selection(self.selected, self.filtered.len()), ..self }
    }

    /// The state after a step up.
    pub open spec fn after_previous(self) -> AppView {
        AppView { selected: previous_selection(self.selected), ..self }
    }

    /// The state after search mode is entered: the search starts empty.
    pub open spec fn after_enter_search_mode(self) -> AppView {
        AppView { mode: ModeView::Search, search_query: Seq::empty(), ..self }.with_filter()
    }

    /// The state after search mode is left: the search text stays.
    pub open spec fn after_exit_search_mode(self) -> AppView {
        AppView { mode: ModeView::Normal, ..self }
    }

    /// The state after Enter on a row: a confirmation dialog for the
    /// selected row's process; nothing changes where no row is selected.
    pub open spec fn after_confirm_kill(self) -> AppView {
        if self.selected < self.filtered.len() && self.filtered[self.selected as int]
            < self.ports.len() {
            let e = self.ports[self.filtered[self.selected as int] as int];
            AppView {
                mode: ModeView::ConfirmKill { pid: e.pid, name: e.name, container_id: e.container },
                ..self
            }
        } else {
            self
        }
    }

    /// The state after a dialog is closed.
    pub open spec fn after_cancel_modal(self) -> AppView {
        AppView { mode: ModeView::Normal, ..self }
    }

    /// The state after a confirmed kill is handed out: back to the list.
    pub open spec fn after_execute_kill(self) -> AppView {
        match self.mode {
            ModeView::ConfirmKill { .. } => AppView { mode: ModeView::Normal, ..self },
            _ => self,
        }
    }

    /// The state without a status message.
    pub open spec fn cleared(self) -> AppView {
        AppView { message: None, message_expires_at: None, ..self }
    }

    /// The state showing `msg` until `deadline`.
    pub open spec fn showing(self, msg: Seq<char>, deadline: u128) -> AppView {
        AppView { message: Some(msg), message_expires_at: Some(deadline), ..self }
    }

    /// The state at clock reading `now`: the message is gone once its
    /// deadline has come; a message without a deadline stays.
    pub open spec fn expired_at(self, now: u128) -> AppView {
        match self.message_expires_at {
            Some(deadline) => if now >= deadline {
                self.cleared()
            } else {
                self
            },
            None => self,
        }
    }
}

/// Whether a listener on `port` with the lowercased name `name_lower` and
/// lowercased path `path_lower` matches the lowercased query
/// `query_lower`.
pub fn row_matches(port: u16, name_lower: &str, path_lower: &str, query_lower: &str) -> (r: bool)
    ensures
        r == text_matches(port, name_lower@, path_lower@, query_lower@),
{
    let q = chars_of(query_lower);
    let digits = decimal_chars(port as u64);
    if contains_chars(&digits, &q) {
        return true;
    }
    let name = chars_of(name_lower);
    if contains_chars(&name, &q) {
        return true;
    }
    let path = chars_of(path_lower);
    contains_chars(&path, &q)
}

/// Whether the listener matches the lowercased query `query_lower`.
fn port_matches_query(p: &PortInfo, query_lower: &str) -> (r: bool)
    ensures
        r == port_matches(p@, query_lower@),
{
    let name = to_lowercase(p.process_name.as_str());
    let path = to_lowercase(p.process_path.as_str());
    row_matches(p.port, name.as_str(), path.as_str(), query_lower)
}

impl App {
    /// An empty list in normal mode, with no search and no message; its
    /// clock counts from the time of the call.
    pub fn new() -> (app: App)
        ensures
            app@ == (AppView {
                ports: Seq::empty(),
                filtered: Seq::empty(),
                selected: 0,
                search_query: Seq::empty(),
                mode: ModeView::Normal,
                message: None,
                message_expires_at: None,
                should_quit: false,
                clock_origin: app.clock_origin,
            }),
    {
        let app = App {
            ports: Vec::new(),
            filtered: Vec::new(),
            selected: 0,
            search_query: String::new(),
            mode: Mode::Normal,
            message: None,
            message_expires_at: None,
            should_quit: false,
            clock_origin: clock_now(),
        };
        assert(app@ =~= (AppView {
            ports: Seq::empty(),
            filtered: Seq::empty(),
            selected: 0,
            search_query: Seq::empty(),
            mode: ModeView::Normal,
            message: None,
            message_expires_at: None,
            should_quit: false,
            clock_origin: app.clock_origin,
        }));
        app
    }

    /// Recomputes the shown rows from the ports and the search text, and
    /// keeps the selection on a row.
    pub fn apply_filter(&mut self)
        ensures
            final(self)@ == old(self)@.with_filter(),
    {
        let ghost ports = entries(self.ports@);
        let n: usize = self.ports.len();
        let mut filtered: Vec<usize> = Vec::new();
        if self.search_query.as_str().unicode_len() == 0 {
            let mut i: usize = 0;
            while i < n
                invariant
                    n == self.ports@.len(),
                    i <= n,
                    filtered@ == Seq::new(i as nat, |k: int| k as usize),
                decreases n - i,
            {
                filtered.push(i);
                i = i + 1;
                assert(filtered@ =~= Seq::new(i as nat, |k: int| k as usize));
            }
        } else {
            let lower = to_lowercase(self.search_query.as_str());
            let mut i: usize = 0;
            while i < n
                invariant
                    n == self.ports@.len(),
                    ports == entries(self.ports@),
                    i <= n,
                    lower@ == lowercase(self.search_query@),
                    filtered@ == matching_indices(ports, lower@, i as nat),
                decreases n - i,
            {
                assert(ports[i as int] == self.ports@[i as int]@);
                if port_matches_query(&self.ports[i], lower.as_str()) {
                    filtered.push(i);
                }
                i = i + 1;
            }
        }
        let len: usize = filtered.len();
        self.filtered = filtered;
        if len == 0 {
            self.selected = 0;
        } else if self.selected >= len - 1 {
            self.selected = len - 1;
        }
        assert(self@ =~= old(self)@.with_filter());
    }

    /// Replaces the ports with freshly read ones, without the system
    /// services, and recomputes the rows; where reading failed, the state
    /// stays as it was and the error is passed on.
    pub fn refresh_ports(&mut self, fetched: Result<Vec<PortInfo>, String>) -> (r: Result<(), String>)
        ensures
            match fetched {
                Ok(ports) => r is Ok && final(self)@ == old(self)@.after_refresh(
                    entries(user_ports(ports@)),
                ),
                Err(e) => r == Err::<(), String>(e) && final(self)@ == old(self)@,
            },
    {
        match fetched {
            Ok(all_ports) => {
                self.ports = retain_user_ports(all_ports);
                self.apply_filter();
                Ok(())
            },
            Err(e) => Err(e),
        }
    }

    /// Sets the search text and recomputes the rows.
    pub fn update_search(&mut self, query: String)
        ensures
            final(self)@ == old(self)@.after_update_search(query@),
    {
        self.search_query = query;
        self.apply_filter();
    }

    /// Moves the selection one row down, unless it is on the last row.
    pub fn next(&mut self)
        ensures
            final(self)@ == old(self)@.after_next(),
    {
        if self.filtered.len() > 0 && self.selected < self.filtered.len() - 1 {
            self.selected = self.selected + 1;
        }
    }

    /// Moves the selection one row up, unless it is on the first row.
    pub fn previous(&mut self)
        ensures
            final(self)@ == old(self)@.after_previous(),
    {
        if self.selected > 0 {
            self.selected = self.selected - 1;
        }
    }

    /// Enters search mode with an empty search.
    pub fn enter_search_mode(&mut self)
        ensures
            final(self)@ == old(self)@.after_enter_search_mode(),
    {
        self.mode = Mode::Search;
        self.search_query = String::new();
        self.apply_filter();
    }

    /// Leaves search mode; the search text stays in force.
    pub fn exit_search_mode(&mut self)
        ensures
            final(self)@ == old(self)@.after_exit_search_mode(),
    {
        self.mode = Mode::Normal;
    }

    /// Opens the confirmation dialog for the selected row.
    pub fn confirm_kill(&mut self)
        ensures
            final(self)@ == old(self)@.after_confirm_kill(),
    {
        if self.selected < self.filtered.len() {
            let idx: usize = self.filtered[self.selected];
            if idx < self.ports.len() {
                let pid: u32 = self.ports[idx].pid;
                let name = self.ports[idx].process_name.clone();
                let container_id = clone_opt_string(&self.ports[idx].container_id);
                self.mode = Mode::ConfirmKill { pid, name, container_id };
                assert(self@ =~= old(self)@.after_confirm_kill());
            }
        }
    }

    /// Leaves the confirmation dialog, if one is open, and returns what it
    /// asked to kill; the caller performs the kill and reports back through
    /// [`App::finish_kill`]. Outside a dialog nothing changes.
    pub fn execute_kill(&mut self) -> (r: Option<KillTarget>)
        ensures
            match r {
                Some(t) => mode_target(old(self)@.mode) == Some(t@),
                None => mode_target(old(self)@.mode) is None,
            },
            final(self)@ == old(self)@.after_execute_kill(),
    {
        let target = match &self.mode {
            Mode::ConfirmKill { pid, name: _, container_id } => match container_id {
                Some(id) => Some(KillTarget::Container(id.clone())),
                None => Some(KillTarget::Process(*pid)),
            },
            _ => None,
        };
        if target.is_some() {
            self.mode = Mode::Normal;
        }
        target
    }

    /// Shows the outcome of a kill; returns whether the ports should be read
    /// again (after a successful kill).
    pub fn finish_kill(&mut self, target: &KillTarget, outcome: Result<(), KillError>) -> (r: bool)
        ensures
            r == outcome is Ok,
            exists|now: u128|
                final(self)@ == old(self)@.showing(
                    kill_message(target@, outcome_view(outcome)),
                    deadline_after(now),
                ),
    {
        let msg = match &outcome {
            Ok(_) => match target {
                KillTarget::Container(_) => String::from_str("Stopped container"),
                KillTarget::Process(pid) => {
                    let digits = decimal_chars(*pid as u64);
                    let mut v = chars_of("Killed process ");
                    let ghost head = v@;
                    v.append(&mut digits.clone());
                    assert(v@ =~= head + decimal(*pid as nat));
                    string_from_chars(&v)
                },
            },
            Err(e) => format_error(e),
        };
        self.show_message(msg);
        outcome.is_ok()
    }

    /// Closes the confirmation dialog.
    pub fn cancel_modal(&mut self)
        ensures
            final(self)@ == old(self)@.after_cancel_modal(),
    {
        self.mode = Mode::Normal;
    }

    /// Removes the status message once its time is up. What holds for
    /// every reading of the clock is stated: the state is the one at some
    /// reading.
    pub fn tick(&mut self)
        ensures
            old(self)@.message_expires_at is None ==> final(self)@ == old(self)@,
            exists|now: u128| final(self)@ == old(self)@.expired_at(now),
    {
        if self.message_expires_at.is_some() {
            let now: u128 = self.clock_nanos();
            self.expire_message_at(now);
        } else {
            assert(self@ == old(self)@.expired_at(0));
        }
    }

    /// Removes the status message where its deadline has come at `now`
    /// (nanoseconds since the clock's origin).
    pub fn expire_message_at(&mut self, now: u128)
        ensures
            final(self)@ == old(self)@.expired_at(now),
    {
        let deadline = self.message_expires_at;
        if let Some(d) = deadline {
            if now >= d {
                self.clear_message();
            }
        }
    }

    /// Removes the status message.
    pub fn clear_message(&mut self)
        ensures
            final(self)@ == old(self)@.cleared(),
    {
        self.message = None;
        self.message_expires_at = None;
    }

    /// Shows `message`, read at `now` (nanoseconds since the clock's
    /// origin), until [`MESSAGE_TIMEOUT_NS`] later.
    pub fn show_message_at(&mut self, message: String, now: u128)
        ensures
            final(self)@ == old(self)@.showing(message@, deadline_after(now)),
    {
        self.message = Some(message);
        self.message_expires_at = Some(now.saturating_add(MESSAGE_TIMEOUT_NS));
    }

    /// Shows `message` for the next [`MESSAGE_TIMEOUT_NS`] nanoseconds of
    /// the clock.
    fn show_message(&mut self, message: String)
        ensures
            exists|now: u128| final(self)@ == old(self)@.showing(message@, deadline_after(now)),
    {
        let now: u128 = self.clock_nanos();
        self.show_message_at(message, now);
    }

    /// The nanoseconds passed since the clock's origin; a `Duration` holds
    /// whole nanoseconds, so `as_nanos` rounds nothing away.
    fn clock_nanos(&self) -> u128 {
        let d = elapsed_since(&self.clock_origin);
        whole_nanos(&d)
    }
}

} // verus!
