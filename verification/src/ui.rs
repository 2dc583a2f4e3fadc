//! The text that the screen shows: the search line, the table's title and
//! rows, the key hints and the dialog. Drawing it is left to the caller.

use vstd::prelude::*;
use vstd::string::StringSliceAdditionalSpecFns;
use vstd::utf8::{decode_utf8, encode_utf8, is_char_boundary};
use crate::app::{App, Mode, ModeView};
use crate::ports::PortInfo;
use crate::text::{decimal, decimal_string};

verus! {

/// The text of the search line.
pub open spec fn header_text_of(mode: ModeView, query: Seq<char>) -> Seq<char> {
    match mode {
        ModeView::Search => "Search: "@ + query,
        _ => if query.len() > 0 {
            "Search: "@ + query + " (press / to edit)"@
        } else {
            "Press / to search"@
        },
    }
}

/// The search line: the search being typed, the search in force, or how
/// to start one.
pub fn header_text(app: &App) -> (r: String)
    ensures
        r@ == header_text_of(app@.mode, app@.search_query),
{
    match &app.mode {
        Mode::Search => String::from_str("Search: ").concat(app.search_query.as_str()),
        _ => {
            if app.search_query.as_str().unicode_len() > 0 {
                String::from_str("Search: ").concat(app.search_query.as_str()).concat(
                    " (press / to edit)",
                )
            } else {
                String::from_str("Press / to search")
            }
        },
    }
}

/// The key hints for a mode.
pub open spec fn footer_hints_of(mode: ModeView) -> Seq<char> {
    match mode {
        ModeView::Normal => "q:quit /:search j/k:navigate Enter:kill r:refresh"@,
        ModeView::Search => "Esc:cancel Enter:done"@,
        ModeView::ConfirmKill { .. } => "y:confirm n:cancel"@,
    }
}

/// The key hints shown at the bottom of the screen.
pub fn footer_hints(mode: &Mode) -> (r: &'static str)
    ensures
        r@ == footer_hints_of(mode@),
{
    match mode {
        Mode::Normal => "q:quit /:search j/k:navigate Enter:kill r:refresh",
        Mode::Search => "Esc:cancel Enter:done",
        Mode::ConfirmKill { .. } => "y:confirm n:cancel",
    }
}

/// The title of the table: how many rows are shown of how many ports.
pub open spec fn table_title_of(shown: nat, total: nat) -> Seq<char> {
    "Open Ports (showing "@ + decimal(shown) + " of "@ + decimal(total) + ")"@
}

/// The title of the table.
pub fn table_title(app: &App) -> (r: String)
    ensures
        r@ == table_title_of(app@.filtered.len(), app@.ports.len()),
{
    let shown = decimal_string(app.filtered.len() as u64);
    let total = decimal_string(app.ports.len() as u64);
    String::from_str("Open Ports (showing ").concat(shown.as_str()).concat(" of ").concat(
        total.as_str(),
    ).concat(")")
}

/// `s` cut to `max_len` bytes: unchanged where it fits, else its first
/// `max_len - 3` bytes (at least none) followed by `...`.
pub open spec fn truncated(s: Seq<char>, max_len: nat) -> Seq<char> {
    let bytes = encode_utf8(s);
    if bytes.len() <= max_len {
        s
    } else {
        let keep: int = if max_len >= 3 {
            max_len - 3
        } else {
            0
        };
        decode_utf8(bytes.take(keep)) + "..."@
    }
}

/// The byte position at which [`truncate`] cuts a string that is too long.
pub open spec fn cut_position(max_len: usize) -> int {
    if max_len >= 3 {
        max_len - 3
    } else {
        0
    }
}

/// Shortens `s` to `max_len` bytes for a table cell. Where `s` is longer,
/// the cut must fall on a character boundary (elsewhere the slice panics).
pub fn truncate(s: &str, max_len: usize) -> (r: String)
    requires
        encode_utf8(s@).len() <= usize::MAX,
        encode_utf8(s@).len() <= max_len || is_char_boundary(encode_utf8(s@), cut_position(max_len)),
    ensures
        r@ == truncated(s@, max_len as nat),
{
    broadcast use vstd::utf8::encode_utf8_decode_utf8;

    if s.len() <= max_len {
        assert(s.spec_bytes() == encode_utf8(s@));
        String::from_str(s)
    } else {
        let keep: usize = max_len.saturating_sub(3);
        let (head, _) = s.split_at(keep);
        assert(encode_utf8(head@) == encode_utf8(s@).take(keep as int));
        assert(decode_utf8(encode_utf8(head@)) == head@);
        let r = String::from_str(head).concat("...");
        assert(encode_utf8(s@).len() > max_len);
        assert(r@ == head@ + "..."@);
        r
    }
}

/// The cells of one table row: port, process id, name (at most 15 bytes)
/// and path (at most 35 bytes).
pub open spec fn row_cells(e: crate::ports::PortEntry) -> Seq<Seq<char>> {
    seq![
        decimal(e.port as nat),
        decimal(e.pid as nat),
        truncated(e.name, 15),
        truncated(e.path, 35),
    ]
}

/// The name and path of `p` can be cut for the table without splitting a
/// character (and their lengths in bytes fit in a `usize`, as those of any
/// string in memory do).
pub open spec fn cells_cuttable(p: PortInfo) -> bool {
    &&& encode_utf8(p.process_name@).len() <= usize::MAX
    &&& encode_utf8(p.process_path@).len() <= usize::MAX
    &&& (encode_utf8(p.process_name@).len() <= 15 || is_char_boundary(encode_utf8(p.process_name@), 12))
    &&& (encode_utf8(p.process_path@).len() <= 35 || is_char_boundary(encode_utf8(p.process_path@), 32))
}

/// The cells of the table row for `p`.
pub fn table_row(p: &PortInfo) -> (r: Vec<String>)
    requires
        cells_cuttable(*p),
    ensures
        r@.len() == 4,
        forall|k: int| 0 <= k < 4 ==> (#[trigger] r@[k])@ == row_cells(p@)[k],
{
    let mut r: Vec<String> = Vec::new();
    r.push(decimal_string(p.port as u64));
    r.push(decimal_string(p.pid as u64));
    r.push(truncate(p.process_name.as_str(), 15));
    r.push(truncate(p.process_path.as_str(), 35));
    r
}

/// The rows of the table, one for each shown listener, in order.
pub fn table_rows(app: &App) -> (r: Vec<Vec<String>>)
    requires
        forall|k: int| 0 <= k < app.filtered@.len() ==> (#[trigger] app.filtered@[k]) < app.ports@.len(),
        forall|k: int| 0 <= k < app.filtered@.len() ==> cells_cuttable(app.ports@[#[trigger] app.filtered@[k] as int]),
    ensures
        r@.len() == app.filtered@.len(),
        forall|k: int, c: int|
            0 <= k < r@.len() && 0 <= c < 4 ==> (#[trigger] r@[k]@[c])@ == row_cells(
                app.ports@[app.filtered@[k] as int]@,
            )[c] && r@[k]@.len() == 4,
{
    let mut r: Vec<Vec<String>> = Vec::new();
    let mut k: usize = 0;
    while k < app.filtered.len()
        invariant
            k <= app.filtered@.len(),
            r@.len() == k,
            forall|j: int| 0 <= j < app.filtered@.len() ==> (#[trigger] app.filtered@[j]) < app.ports@.len(),
            forall|j: int| 0 <= j < app.filtered@.len() ==> cells_cuttable(app.ports@[#[trigger] app.filtered@[j] as int]),
            forall|j: int, c: int|
                0 <= j < k && 0 <= c < 4 ==> (#[trigger] r@[j]@[c])@ == row_cells(
                    app.ports@[app.filtered@[j] as int]@,
                )[c] && r@[j]@.len() == 4,
        decreases app.filtered@.len() - k,
    {
        let idx: usize = app.filtered[k];
        let row = table_row(&app.ports[idx]);
        r.push(row);
        k = k + 1;
    }
    r
}

/// The lines of the kill confirmation: `Kill process 'NAME'?` and `PID: N`.
pub open spec fn confirm_lines_of(pid: u32, name: Seq<char>) -> (Seq<char>, Seq<char>) {
    ("Kill process '"@ + name + "'?"@, "PID: "@ + decimal(pid as nat))
}

/// The two lines of the kill confirmation dialog.
pub fn confirm_modal_lines(pid: u32, name: &str) -> (r: (String, String))
    ensures
        (r.0@, r.1@) == confirm_lines_of(pid, name@),
{
    let first = String::from_str("Kill process '").concat(name).concat("'?");
    let digits = decimal_string(pid as u64);
    let second = String::from_str("PID: ").concat(digits.as_str());
    (first, second)
}

/// The dialog drawn over the list.
#[derive(Debug)]
pub enum Popup {
    /// The kill confirmation for a process.
    Confirm { pid: u32, name: String },
    /// The status message.
    Message(String),
}

/// The plain content of a [`Popup`].
pub enum PopupView {
    Confirm { pid: u32, name: Seq<char> },
    Message(Seq<char>),
}

impl View for Popup {
    type V = PopupView;

    open spec fn view(&self) -> PopupView {
        match self {
            Popup::Confirm { pid, name } => PopupView::Confirm { pid: *pid, name: name@ },
            Popup::Message(m) => PopupView::Message(m@),
        }
    }
}

/// The dialog over the list: the kill confirmation while one is open (it
/// hides the status message), else the status message if there is one.
pub open spec fn popup_of(mode: ModeView, message: Option<Seq<char>>) -> Option<PopupView> {
    match mode {
        ModeView::ConfirmKill { pid, name, .. } => Some(PopupView::Confirm { pid, name }),
        _ => match message {
            Some(m) => Some(PopupView::Message(m)),
            None => None,
        },
    }
}

/// Which dialog, if any, is drawn over the list.
pub fn popup_to_show(app: &App) -> (r: Option<Popup>)
    ensures
        match r {
            Some(p) => popup_of(app@.mode, app@.message) == Some(p@),
            None => popup_of(app@.mode, app@.message) is None,
        },
{
    match &app.mode {
        Mode::ConfirmKill { pid, name, .. } => Some(Popup::Confirm { pid: *pid, name: name.clone() }),
        _ => match &app.message {
            Some(m) => Some(Popup::Message(m.clone())),
            None => None,
        },
    }
}

} // verus!
