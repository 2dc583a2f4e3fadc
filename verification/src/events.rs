//! Keyboard handling: what each key does in each mode. Work that needs the
//! outside world (reading the ports again, killing a process) is not done
//! here but returned as an [`Effect`] for the caller to perform.

use vstd::prelude::*;
use crate::app::{App, AppView, Mode, ModeView, mode_target};
use crate::process::{KillTarget, KillTargetView};
use crate::text::{pop_char, push_char};

verus! {

/// A key, as far as the port list tells keys apart.
#[derive(Debug, Clone, Copy, PartialEq, Eq, Structural)]
pub enum Key {
    Char(char),
    Enter,
    Esc,
    Backspace,
    Up,
    Down,
    Other,
}

/// A key press: the key and whether Control was held.
#[derive(Debug, Clone, Copy, PartialEq, Eq, Structural)]
pub struct KeyInput {
    pub code: Key,
    pub ctrl: bool,
}

/// What the caller has to do after a key press.
#[derive(Debug, Clone)]
pub enum Effect {
    /// Nothing; keep running.
    Continue,
    /// Leave the program.
    Quit,
    /// Read the open ports again and hand them to [`App::refresh_ports`].
    RefreshPorts,
    /// Stop the target and report the outcome to [`App::finish_kill`].
    Kill(KillTarget),
}

/// The plain content of an [`Effect`].
pub enum EffectView {
    Continue,
    Quit,
    RefreshPorts,
    Kill(KillTargetView),
}

impl View for Effect {
    type V = EffectView;

    open spec fn view(&self) -> EffectView {
        match self {
            Effect::Continue => EffectView::Continue,
            Effect::Quit => EffectView::Quit,
            Effect::RefreshPorts => EffectView::RefreshPorts,
            Effect::Kill(t) => EffectView::Kill(t@),
        }
    }
}

/// The effect of handing out a confirmed kill.
pub open spec fn kill_effect(t: Option<KillTargetView>) -> EffectView {
    match t {
        Some(t) => EffectView::Kill(t),
        None => EffectView::Continue,
    }
}

/// In the list: `q`/`Q` or Ctrl+C quit, `/` or `i` start a search, `j`/Down
/// and `k`/Up move, Enter asks to kill the selected row, `r` reads the
/// ports again; other keys do nothing.
pub open spec fn normal_step(v: AppView, key: KeyInput) -> (AppView, EffectView) {
    match key.code {
        Key::Char(c) => if c == 'q' || c == 'Q' || (c == 'c' && key.ctrl) {
            (AppView { should_quit: true, ..v }, EffectView::Quit)
        } else if c == '/' || c == 'i' {
            (v.after_enter_search_mode(), EffectView::Continue)
        } else if c == 'j' {
            (v.after_next(), EffectView::Continue)
        } else if c == 'k' {
            (v.after_previous(), EffectView::Continue)
        } else if c == 'r' {
            (v, EffectView::RefreshPorts)
        } else {
            (v, EffectView::Continue)
        },
        Key::Down => (v.after_next(), EffectView::Continue),
        Key::Up => (v.after_previous(), EffectView::Continue),
        Key::Enter => (v.after_confirm_kill(), EffectView::Continue),
        _ => (v, EffectView::Continue),
    }
}

/// While searching: Esc and Enter end the search, Backspace deletes the
/// last character, any other character is typed into the search.
pub open spec fn search_step(v: AppView, key: KeyInput) -> AppView {
    match key.code {
        Key::Esc => v.after_exit_search_mode(),
        Key::Enter => v.after_exit_search_mode(),
        Key::Backspace => v.after_update_search(
            if v.search_query.len() > 0 {
                v.search_query.drop_last()
            } else {
                v.search_query
            },
        ),
        Key::Char(c) => v.after_update_search(v.search_query.push(c)),
        _ => v,
    }
}

/// In the confirmation dialog: `y`/`Y` confirm, `n`/`N`/Esc cancel.
pub open spec fn confirm_step(v: AppView, key: KeyInput) -> (AppView, EffectView) {
    match key.code {
        Key::Char(c) => if c == 'y' || c == 'Y' {
            (v.after_execute_kill(), kill_effect(mode_target(v.mode)))
        } else if c == 'n' || c == 'N' {
            (v.after_cancel_modal(), EffectView::Continue)
        } else {
            (v, EffectView::Continue)
        },
        Key::Esc => (v.after_cancel_modal(), EffectView::Continue),
        _ => (v, EffectView::Continue),
    }
}

/// What a key press does in the current mode.
pub open spec fn key_step(v: AppView, key: KeyInput) -> (AppView, EffectView) {
    match v.mode {
        ModeView::Normal => normal_step(v, key),
        ModeView::Search => (search_step(v, key), EffectView::Continue),
        ModeView::ConfirmKill { .. } => confirm_step(v, key),
    }
}

/// Handles a key press in the mode the list is in.
pub fn handle_key_event(app: &mut App, key: KeyInput) -> (r: Effect)
    ensures
        (final(app)@, r@) == key_step(old(app)@, key),
{
    match &app.mode {
        Mode::Normal => handle_normal_mode(app, key),
        Mode::Search => {
            handle_search_mode(app, key);
            Effect::Continue
        },
        Mode::ConfirmKill { .. } => handle_confirm_mode(app, key),
    }
}

/// Handles a key press in the list.
pub fn handle_normal_mode(app: &mut App, key: KeyInput) -> (r: Effect)
    ensures
        (final(app)@, r@) == normal_step(old(app)@, key),
{
    match key.code {
        Key::Char(c) => {
            if c == 'q' || c == 'Q' || (c == 'c' && key.ctrl) {
                app.should_quit = true;
                assert(app@ =~= (AppView { should_quit: true, ..old(app)@ }));
                Effect::Quit
            } else if c == '/' || c == 'i' {
                app.enter_search_mode();
                Effect::Continue
            } else if c == 'j' {
                app.next();
                Effect::Continue
            } else if c == 'k' {
                app.previous();
                Effect::Continue
            } else if c == 'r' {
                Effect::RefreshPorts
            } else {
                Effect::Continue
            }
        },
        Key::Down => {
            app.next();
            Effect::Continue
        },
        Key::Up => {
            app.previous();
            Effect::Continue
        },
        Key::Enter => {
            app.confirm_kill();
            Effect::Continue
        },
        _ => Effect::Continue,
    }
}

/// Handles a key press while searching.
pub fn handle_search_mode(app: &mut App, key: KeyInput)
    ensures
        final(app)@ == search_step(old(app)@, key),
{
    match key.code {
        Key::Esc => app.exit_search_mode(),
        Key::Enter => app.exit_search_mode(),
        Key::Backspace => {
            let mut query = app.search_query.clone();
            let _ = pop_char(&mut query);
            app.update_search(query);
        },
        Key::Char(c) => {
            let mut query = app.search_query.clone();
            push_char(&mut query, c);
            app.update_search(query);
        },
        _ => {},
    }
}

/// Handles a key press in the confirmation dialog.
pub fn handle_confirm_mode(app: &mut App, key: KeyInput) -> (r: Effect)
    ensures
        (final(app)@, r@) == confirm_step(old(app)@, key),
{
    match key.code {
        Key::Char(c) => {
            if c == 'y' || c == 'Y' {
                match app.execute_kill() {
                    Some(t) => Effect::Kill(t),
                    None => Effect::Continue,
                }
            } else if c == 'n' || c == 'N' {
                app.cancel_modal();
                Effect::Continue
            } else {
                Effect::Continue
            }
        },
        Key::Esc => {
            app.cancel_modal();
            Effect::Continue
        },
        _ => Effect::Continue,
    }
}

} // verus!
