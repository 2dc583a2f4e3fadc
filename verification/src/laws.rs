//! Properties of the library as a whole: what the operations keep, what
//! one operation undoes of another, and how formatting and parsing of
//! numbers fit together.

use vstd::prelude::*;
use crate::app::{
    AppView, ModeView, clamp_selection, deadline_after, matching_indices, mode_target, port_matches,
    search_results, MESSAGE_TIMEOUT_NS,
};
use crate::filter::{is_user_listener, user_ports};
use crate::events::{key_step, normal_step, search_step, EffectView, Key, KeyInput};
use crate::ports::{
    container_entry, docker_entries, docker_line_entries, entries, is_kept, is_merged_listing,
    mapping_entries, mapping_host_port, owned_listeners, ss_entries, ss_line_entry, tcp_line_listener,
    tcp_listeners, PortEntry, PortInfo,
};
use crate::ui::header_text_of;
use crate::process::target_of;
use crate::text::{
    decimal, digit_char, digit_value, digits_value, is_substring, lowercase, lowercased, occurs_at, trim,
    parse_unsigned, all_digits, unsigned_digits,
};

verus! {

/// The view of an actual list: its sequences are as long as a `Vec` can be.
pub open spec fn fits_memory(v: AppView) -> bool {
    v.ports.len() <= usize::MAX && v.filtered.len() <= usize::MAX
}

/// The selection points at a shown row, or is 0 when no row is shown.
pub open spec fn selection_valid(v: AppView) -> bool {
    (v.filtered.len() == 0 && v.selected == 0) || v.selected < v.filtered.len()
}

/// The shown rows are valid positions in the port list, in increasing
/// order.
pub open spec fn rows_valid(v: AppView) -> bool {
    &&& forall|k: int| 0 <= k < v.filtered.len() ==> (#[trigger] v.filtered[k]) < v.ports.len()
    &&& forall|a: int, b: int|
        0 <= a < b < v.filtered.len() ==> (#[trigger] v.filtered[a]) < (#[trigger] v.filtered[b])
}

/// `i` is among the indices `f`.
#[verifier::opaque]
pub open spec fn shows(f: Seq<usize>, i: int) -> bool {
    exists|k: int| 0 <= k < f.len() && f[k] as int == i
}

proof fn lemma_matching_indices(ports: Seq<PortEntry>, q: Seq<char>, n: nat)
    requires
        n <= ports.len(),
        n <= usize::MAX,
    ensures
        forall|k: int| 0 <= k < matching_indices(ports, q, n).len() ==> (#[trigger] matching_indices(ports, q, n)[k]) < n,
        forall|a: int, b: int|
            0 <= a < b < matching_indices(ports, q, n).len() ==> (#[trigger] matching_indices(ports, q, n)[a]) < (#[trigger] matching_indices(ports, q, n)[b]),
        forall|i: int|
            0 <= i < n ==> (shows(matching_indices(ports, q, n), i) <==> port_matches(#[trigger] ports[i], q)),
    decreases n,
{
    reveal(shows);
    if n > 0 {
        lemma_matching_indices(ports, q, (n - 1) as nat);
        let prev = matching_indices(ports, q, (n - 1) as nat);
        let cur = matching_indices(ports, q, n);
        assert forall|a: int, b: int| 0 <= a < b < cur.len() implies (#[trigger] cur[a]) < (#[trigger] cur[b]) by {
            if b < prev.len() {
                assert(cur[a] == prev[a] && cur[b] == prev[b]);
            } else {
                assert(cur[a] == prev[a]);
            }
        }
        assert forall|i: int| 0 <= i < n implies (shows(cur, i) <==> port_matches(#[trigger] ports[i], q)) by {
            if shows(cur, i) {
                let w = choose|w: int| 0 <= w < cur.len() && cur[w] as int == i;
                if w < prev.len() {
                    assert(prev[w] == cur[w]);
                    assert(shows(prev, i));
                }
            }
            if i < n - 1 && shows(prev, i) {
                let w = choose|w: int| 0 <= w < prev.len() && prev[w] as int == i;
                assert(cur[w] == prev[w]);
            }
            if i == n - 1 && port_matches(ports[i], q) {
                assert(cur[cur.len() - 1] as int == i);
            }
            if i == n - 1 && shows(prev, i) {
                let w = choose|w: int| 0 <= w < prev.len() && prev[w] as int == i;
                assert(prev[w] < n - 1);
            }
        }
    }
}

/// A listener is found by a search: every listener by an empty search,
/// otherwise those that match the lowercased search.
pub open spec fn found_by(e: PortEntry, query: Seq<char>) -> bool {
    query.len() == 0 || port_matches(e, lowercase(query))
}

/// Searching shows exactly the listeners that match: for an empty search
/// every listener, otherwise those whose decimal port, lowercased name or
/// lowercased path contains the lowercased search; each row is shown once,
/// in the order of the port list, and the selection stays on a shown row.
pub proof fn law_search_shows_exactly_the_matches(v: AppView)
    requires
        fits_memory(v),
    ensures
        rows_valid(v.with_filter()),
        selection_valid(v.with_filter()),
        forall|i: int|
            0 <= i < v.ports.len() ==> shows(v.with_filter().filtered, i) == found_by(
                #[trigger] v.ports[i],
                v.search_query,
            ),
{
    let w = v.with_filter();
    if v.search_query.len() != 0 {
        lemma_matching_indices(v.ports, lowercase(v.search_query), v.ports.len());
    }
    assert forall|i: int| 0 <= i < v.ports.len() implies shows(w.filtered, i) == found_by(#[trigger] v.ports[i], v.search_query) by {
        if v.search_query.len() == 0 {
            reveal(shows);
            assert(w.filtered[i] as int == i);
        } else {
            assert(shows(matching_indices(v.ports, lowercase(v.search_query), v.ports.len()), i) <==> port_matches(v.ports[i], lowercase(v.search_query)));
        }
    }
}

/// A search for nothing shows every listener.
pub proof fn law_empty_search_shows_all(v: AppView)
    ensures
        v.after_update_search(Seq::empty()).filtered == Seq::new(v.ports.len(), |i: int| i as usize),
{
}

/// Moving down and then up returns to the same row, where there is a row
/// below.
pub proof fn law_next_then_previous(v: AppView)
    requires
        fits_memory(v),
        v.selected + 1 < v.filtered.len(),
    ensures
        v.after_next().after_previous() == v,
{
    assert(v.after_next().after_previous() =~= v);
}

/// Moving up and then down returns to the same row, where there is a row
/// above.
pub proof fn law_previous_then_next(v: AppView)
    requires
        0 < v.selected < v.filtered.len(),
    ensures
        v.after_previous().after_next() == v,
{
    assert(v.after_previous().after_next() =~= v);
}

/// Moving never leaves the shown rows.
pub proof fn law_navigation_keeps_selection_valid(v: AppView)
    requires
        selection_valid(v),
    ensures
        selection_valid(v.after_next()),
        selection_valid(v.after_previous()),
{
}

/// Opening the confirmation for a row and cancelling it leaves the list as
/// it was.
pub proof fn law_cancelled_confirmation_changes_nothing(v: AppView)
    requires
        v.mode == ModeView::Normal,
    ensures
        v.after_confirm_kill().after_cancel_modal() == v,
{
    assert(v.after_confirm_kill().after_cancel_modal() =~= v);
}

/// The confirmation opened on a shown row asks to stop that row's owner:
/// its container where it has one, its process otherwise.
pub proof fn law_confirmation_targets_selected_row(v: AppView)
    requires
        selection_valid(v),
        rows_valid(v),
        v.filtered.len() > 0,
    ensures
        mode_target(v.after_confirm_kill().mode) == Some(
            target_of(v.ports[v.filtered[v.selected as int] as int]),
        ),
{
}

/// Typing a character into the search and deleting it again restores the
/// search text and shows the rows of that search.
pub proof fn law_typing_then_backspace(v: AppView, c: char)
    ensures
        ({
            let back = search_step(
                search_step(v, KeyInput { code: Key::Char(c), ctrl: false }),
                KeyInput { code: Key::Backspace, ctrl: false },
            );
            back.search_query == v.search_query && back.filtered == v.after_update_search(
                v.search_query,
            ).filtered && back.ports == v.ports && back.mode == v.mode
        }),
{
    let typed = search_step(v, KeyInput { code: Key::Char(c), ctrl: false });
    assert(typed.search_query.drop_last() =~= v.search_query);
}

/// Entering and leaving search mode clears the search and shows every
/// listener again.
pub proof fn law_search_mode_round_trip(v: AppView)
    ensures
        v.after_enter_search_mode().after_exit_search_mode().mode == ModeView::Normal,
        v.after_enter_search_mode().after_exit_search_mode().search_query.len() == 0,
        v.after_enter_search_mode().after_exit_search_mode().filtered == Seq::new(v.ports.len(), |i: int| i as usize),
{
}

/// Once a confirmed kill is handed out, no dialog is open.
pub proof fn law_executed_kill_closes_dialog(v: AppView)
    ensures
        mode_target(v.after_execute_kill().mode) is None,
{
}


proof fn lemma_digit_char_value(d: nat)
    requires
        d < 10,
    ensures
        digit_value(digit_char(d), 10) == Some(d),
{
    assert((((48 + d) as char) as u32) == 48 + d);
}

proof fn lemma_decimal_digits(n: nat)
    ensures
        decimal(n).len() > 0,
        all_digits(decimal(n), 10),
        digits_value(decimal(n), 10) == n,
        decimal(n)[0] != '+',
    decreases n,
{
    if n < 10 {
        lemma_digit_char_value(n);
        let s = decimal(n);
        assert(s.drop_last() =~= Seq::<char>::empty());
        assert(s.last() == digit_char(n));
        assert(digits_value(s, 10) == digits_value(s.drop_last(), 10) * 10 + n);
    } else {
        lemma_decimal_digits(n / 10);
        lemma_digit_char_value(n % 10);
        let p = decimal(n / 10);
        let s = decimal(n);
        assert(s == p.push(digit_char(n % 10)));
        assert(s.drop_last() =~= p);
        assert forall|i: int| 0 <= i < s.len() implies (#[trigger] digit_value(s[i], 10)) is Some by {
            if i < p.len() {
                assert(s[i] == p[i]);
            }
        }
        assert(s[0] == p[0]);
        assert(s.last() == digit_char(n % 10));
        assert(digits_value(s, 10) == digits_value(p, 10) * 10 + n % 10);
        assert((n / 10) * 10 + n % 10 == n) by (nonlinear_arith);
    }
}

/// Reading back the decimal text of a number gives the number: what the
/// table shows as a port or process id is what a command line or `ss`
/// output with that text parses to.
pub proof fn law_decimal_parses_back(n: nat, max: nat)
    requires
        n <= max,
    ensures
        parse_unsigned(decimal(n), 10, max) == Some(n),
{
    lemma_decimal_digits(n);
    assert(unsigned_digits(decimal(n)) == decimal(n));
}

proof fn lemma_kept_exists(all: Seq<PortInfo>, n: int, j: int)
    requires
        0 <= j < n <= all.len(),
    ensures
        exists|k: int| is_kept(all, n, k) && all[k].port == all[j].port,
    decreases n,
{
    let p = all[j].port;
    if j == n - 1 && forall|t: int| 0 <= t < n - 1 ==> (#[trigger] all[t]).port != p {
        assert(is_kept(all, n, n - 1));
    } else {
        let j2: int = if j < n - 1 {
            j
        } else {
            choose|t: int| 0 <= t < n - 1 && (#[trigger] all[t]).port == p
        };
        lemma_kept_exists(all, n - 1, j2);
        let k = choose|k: int| is_kept(all, n - 1, k) && all[k].port == all[j2].port;
        if all[n - 1].port == p && all[n - 1].pid > all[k].pid {
            assert forall|t: int| 0 <= t < n && (#[trigger] all[t]).port == all[n - 1].port implies (all[t].pid < all[n - 1].pid || (all[t].pid == all[n - 1].pid && n - 1 <= t)) by {
                if t < n - 1 {
                    assert(all[t].pid <= all[k].pid);
                }
            }
            assert(is_kept(all, n, n - 1));
        } else {
            assert(is_kept(all, n, k));
        }
    }
}

/// The merged listing loses no port and repeats none: every port found by
/// any source has a row, and no two rows share a port.
pub proof fn law_merged_listing_keeps_every_port(all: Seq<PortInfo>, r: Seq<PortInfo>)
    requires
        is_merged_listing(all, r),
    ensures
        forall|k: int| 0 <= k < all.len() ==> exists|a: int| 0 <= a < r.len() && (#[trigger] r[a]).port == (#[trigger] all[k]).port,
        forall|a: int, b: int| 0 <= a < b < r.len() ==> (#[trigger] r[a]).port != (#[trigger] r[b]).port,
{
    assert forall|k: int| 0 <= k < all.len() implies exists|a: int| 0 <= a < r.len() && (#[trigger] r[a]).port == (#[trigger] all[k]).port by {
        lemma_kept_exists(all, all.len() as int, k);
        let k2 = choose|k2: int| is_kept(all, all.len() as int, k2) && all[k2].port == all[k].port;
        let _ = all[k2];
        let a = choose|a: int| 0 <= a < r.len() && #[trigger] r[a] == all[k2];
    }
}


/// The rows on screen are the rows of the search in force, and the
/// selection is on one of them.
pub open spec fn list_consistent(v: AppView) -> bool {
    v.filtered == search_results(v.ports, v.search_query) && selection_valid(v)
}

/// Reading the ports again leaves a consistent list.
pub proof fn law_refresh_makes_list_consistent(v: AppView, ports: Seq<PortEntry>)
    ensures
        list_consistent(v.after_refresh(ports)),
{
}

/// Every key press keeps the list consistent: the rows on screen stay
/// those of the search in force, and the selection stays on one of them.
pub proof fn law_keys_keep_list_consistent(v: AppView, key: KeyInput)
    requires
        list_consistent(v),
    ensures
        list_consistent(key_step(v, key).0),
{
}

proof fn lemma_user_ports(s: Seq<PortInfo>)
    ensures
        forall|i: int| 0 <= i < user_ports(s).len() ==> is_user_listener(
            (#[trigger] user_ports(s)[i]).port,
            user_ports(s)[i].process_name@,
        ),
        forall|j: int| 0 <= j < s.len() && is_user_listener((#[trigger] s[j]).port, s[j].process_name@)
            ==> user_ports(s).contains(s[j]),
    decreases s.len(),
{
    if s.len() > 0 {
        let p = s.drop_last();
        lemma_user_ports(p);
        let u = user_ports(s);
        let up = user_ports(p);
        assert forall|i: int| 0 <= i < u.len() implies is_user_listener((#[trigger] u[i]).port, u[i].process_name@) by {
            if i < up.len() {
                assert(u[i] == up[i]);
            }
        }
        assert forall|j: int| 0 <= j < s.len() && is_user_listener((#[trigger] s[j]).port, s[j].process_name@) implies u.contains(s[j]) by {
            if j < s.len() - 1 {
                assert(p[j] == s[j]);
                let k = choose|k: int| 0 <= k < up.len() && up[k] == p[j];
                assert(u[k] == up[k]);
            } else {
                assert(u[u.len() - 1] == s[j]);
            }
        }
    }
}

/// Reading the ports again lists exactly the user listeners that were
/// read: no system service (blocked port or daemon) is shown, and every
/// other listener that was read is in the list.
pub proof fn law_refresh_hides_system_services(v: AppView, fetched: Seq<PortInfo>)
    ensures
        ({
            let w = v.after_refresh(entries(user_ports(fetched)));
            &&& forall|i: int| 0 <= i < w.ports.len() ==> is_user_listener(
                (#[trigger] w.ports[i]).port,
                w.ports[i].name,
            )
            &&& forall|j: int| 0 <= j < fetched.len() && is_user_listener(
                (#[trigger] fetched[j]).port,
                fetched[j].process_name@,
            ) ==> w.ports.contains(fetched[j]@)
        }),
{
    lemma_user_ports(fetched);
    let u = user_ports(fetched);
    let w = v.after_refresh(entries(u));
    assert forall|i: int| 0 <= i < w.ports.len() implies is_user_listener((#[trigger] w.ports[i]).port, w.ports[i].name) by {
        assert(w.ports[i] == u[i]@);
        assert(is_user_listener(u[i].port, u[i].process_name@));
    }
    assert forall|j: int| 0 <= j < fetched.len() && is_user_listener((#[trigger] fetched[j]).port, fetched[j].process_name@) implies w.ports.contains(fetched[j]@) by {
        let k = choose|k: int| 0 <= k < u.len() && u[k] == fetched[j];
        assert(w.ports[k] == u[k]@);
    }
}

/// A status message shown at clock reading `t` is still on screen at every
/// reading before its deadline, [`MESSAGE_TIMEOUT_NS`] later, and gone at
/// every reading from the deadline on.
pub proof fn law_message_expires_after_timeout(v: AppView, msg: Seq<char>, t: u128, now: u128)
    ensures
        v.showing(msg, deadline_after(t)).expired_at(now) == if now >= deadline_after(t) {
            v.cleared()
        } else {
            v.showing(msg, deadline_after(t))
        },
        t + MESSAGE_TIMEOUT_NS <= u128::MAX ==> (now >= deadline_after(t) <==> now >= t + MESSAGE_TIMEOUT_NS),
{
    assert(v.showing(msg, deadline_after(t)).cleared() =~= v.cleared());
}

proof fn lemma_substring_trans(a: Seq<char>, b: Seq<char>, c: Seq<char>)
    requires
        is_substring(a, b),
        is_substring(b, c),
    ensures
        is_substring(a, c),
{
    let i = choose|i: int| occurs_at(b, a, i);
    let j = choose|j: int| occurs_at(c, b, j);
    assert(c.subrange(j + i, j + i + a.len()) =~= b.subrange(i, i + a.len()));
    assert(occurs_at(c, a, j + i));
}

/// Refining a search never adds rows: where the lowercased search `q1` is
/// a piece of the lowercased search `q2`, every row that `q2` shows, `q1`
/// shows too, whatever the state each search was typed in, as long as the
/// ports are the same.
pub proof fn law_refining_search_never_adds_rows(v1: AppView, v2: AppView, q1: Seq<char>, q2: Seq<char>)
    requires
        fits_memory(v1),
        fits_memory(v2),
        v1.ports == v2.ports,
        is_substring(lowercased(q1), lowercased(q2)),
    ensures
        forall|i: int|
            shows(#[trigger] v2.after_update_search(q2).filtered, i) ==> shows(
                v1.after_update_search(q1).filtered,
                i,
            ),
{
    let a1 = AppView { search_query: q1, ..v1 };
    let a2 = AppView { search_query: q2, ..v2 };
    law_search_shows_exactly_the_matches(a1);
    law_search_shows_exactly_the_matches(a2);
    let f2 = v2.after_update_search(q2).filtered;
    assert forall|i: int| shows(f2, i) implies shows(v1.after_update_search(q1).filtered, i) by {
        reveal(shows);
        let k = choose|k: int| 0 <= k < f2.len() && f2[k] as int == i;
        assert(f2[k] < v2.ports.len());
        let e = v1.ports[i];
        assert(found_by(e, q2));
        if q1.len() > 0 {
            let lq1 = lowercase(q1);
            if q2.len() == 0 {
                let w = choose|w: int| occurs_at(lowercased(q2), lq1, w);
                assert(lq1.len() == 0);
                assert(decimal(e.port as nat).subrange(0, 0) =~= lq1);
                assert(occurs_at(decimal(e.port as nat), lq1, 0));
            } else {
                let lq2 = lowercase(q2);
                if is_substring(lq2, decimal(e.port as nat)) {
                    lemma_substring_trans(lq1, lq2, decimal(e.port as nat));
                } else if is_substring(lq2, lowercase(e.name)) {
                    lemma_substring_trans(lq1, lq2, lowercase(e.name));
                } else {
                    lemma_substring_trans(lq1, lq2, lowercase(e.path));
                }
            }
        }
        assert(found_by(e, q1));
    }
}

/// Changing the search keeps the list well formed: the rows are valid
/// positions of the port list in increasing order, and the selection is
/// kept where it still points at a row, moved to the last row otherwise.
pub proof fn law_update_search_keeps_rows_valid(v: AppView, query: Seq<char>)
    requires
        fits_memory(v),
    ensures
        rows_valid(v.after_update_search(query)),
        selection_valid(v.after_update_search(query)),
        v.after_update_search(query).selected == clamp_selection(
            v.selected,
            v.after_update_search(query).filtered.len(),
        ),
        v.after_update_search(query).ports == v.ports,
{
    law_search_shows_exactly_the_matches(AppView { search_query: query, ..v });
}

/// The `ss` output is read line by line: the entries of the lines `a`
/// followed by the lines `b` are the entries of `a` followed by those of
/// `b`, and one line gives its own entry where it has one and nothing
/// otherwise. So every data line with a port and an owner gives exactly one
/// entry, in the order of the lines.
pub proof fn law_ss_entries_line_by_line(a: Seq<Seq<char>>, b: Seq<Seq<char>>)
    ensures
        ss_entries(a + b) == ss_entries(a) + ss_entries(b),
        forall|l: Seq<char>| #[trigger] ss_entries(seq![l]) == match ss_line_entry(l) {
            Some(e) => seq![e],
            None => Seq::<PortEntry>::empty(),
        },
    decreases b.len(),
{
    assert forall|l: Seq<char>| #[trigger] ss_entries(seq![l]) == match ss_line_entry(l) {
        Some(e) => seq![e],
        None => Seq::<PortEntry>::empty(),
    } by {
        let one = seq![l];
        assert(one.drop_last() =~= Seq::<Seq<char>>::empty());
        assert(ss_entries(one.drop_last()) == Seq::<PortEntry>::empty());
        assert(one.last() == l);
        match ss_line_entry(l) {
            Some(e) => {
                assert(Seq::<PortEntry>::empty().push(e) =~= seq![e]);
            },
            None => {},
        }
    }
    if b.len() == 0 {
        assert(a + b =~= a);
        assert(ss_entries(a) + ss_entries(b) =~= ss_entries(a));
    } else {
        law_ss_entries_line_by_line(a, b.drop_last());
        assert((a + b).drop_last() =~= a + b.drop_last());
        assert((a + b).last() == b.last());
        match ss_line_entry(b.last()) {
            Some(e) => {
                assert(ss_entries(a) + ss_entries(b.drop_last()).push(e) =~= (ss_entries(a)
                    + ss_entries(b.drop_last())).push(e));
            },
            None => {},
        }
    }
}

/// Each listening socket is resolved on its own: the owned listeners of the
/// sockets `a` followed by the sockets `b` are those of `a` followed by
/// those of `b`, and one socket gives `(port, owner)` where the map knows
/// its inode and nothing otherwise. So every socket whose inode has an
/// owner is listed with that owner.
pub proof fn law_owned_listeners_one_by_one(a: Seq<(u16, u64)>, b: Seq<(u16, u64)>, m: Map<u64, u32>)
    ensures
        owned_listeners(a + b, m) == owned_listeners(a, m) + owned_listeners(b, m),
        forall|port: u16, inode: u64| #[trigger] owned_listeners(seq![(port, inode)], m) == if m.contains_key(inode) {
            seq![(port, m[inode])]
        } else {
            Seq::<(u16, u32)>::empty()
        },
    decreases b.len(),
{
    assert forall|port: u16, inode: u64| #[trigger] owned_listeners(seq![(port, inode)], m) == if m.contains_key(inode) {
        seq![(port, m[inode])]
    } else {
        Seq::<(u16, u32)>::empty()
    } by {
        let one = seq![(port, inode)];
        assert(one.drop_last() =~= Seq::<(u16, u64)>::empty());
        assert(owned_listeners(one.drop_last(), m) == Seq::<(u16, u32)>::empty());
        assert(one.last() == (port, inode));
        if m.contains_key(inode) {
            assert(Seq::<(u16, u32)>::empty().push((port, m[inode])) =~= seq![(port, m[inode])]);
        }
    }
    if b.len() == 0 {
        assert(a + b =~= a);
        assert(owned_listeners(a, m) + owned_listeners(b, m) =~= owned_listeners(a, m));
    } else {
        law_owned_listeners_one_by_one(a, b.drop_last(), m);
        assert((a + b).drop_last() =~= a + b.drop_last());
        assert((a + b).last() == b.last());
        let (port, inode) = b.last();
        if m.contains_key(inode) {
            assert(owned_listeners(a, m) + owned_listeners(b.drop_last(), m).push((port, m[inode]))
                =~= (owned_listeners(a, m) + owned_listeners(b.drop_last(), m)).push((port, m[inode])));
        }
    }
}

/// No socket whose inode has an owner is lost: it appears, paired with that
/// owner, among the owned listeners.
pub proof fn law_owned_listeners_keep_every_owned_socket(ls: Seq<(u16, u64)>, m: Map<u64, u32>, k: int)
    requires
        0 <= k < ls.len(),
        m.contains_key(ls[k].1),
    ensures
        owned_listeners(ls, m).contains((ls[k].0, m[ls[k].1])),
{
    let a = ls.take(k);
    let one = seq![ls[k]];
    let c = ls.skip(k + 1);
    assert(ls =~= a + one + c);
    law_owned_listeners_one_by_one(a + one, c, m);
    law_owned_listeners_one_by_one(a, one, m);
    let (port, inode) = ls[k];
    assert(owned_listeners(one, m) == owned_listeners(seq![(port, inode)], m));
    let r = owned_listeners(ls, m);
    let i = owned_listeners(a, m).len() as int;
    assert(r[i] == (port, m[inode]));
}

/// In the list, `/` and `i` both start a search (with or without Control):
/// the search mode is entered with an empty search, and the program goes
/// on.
pub proof fn law_slash_and_i_start_a_search(v: AppView, ctrl: bool)
    requires
        v.mode == ModeView::Normal,
    ensures
        key_step(v, KeyInput { code: Key::Char('i'), ctrl }) == key_step(
            v,
            KeyInput { code: Key::Char('/'), ctrl },
        ),
        key_step(v, KeyInput { code: Key::Char('i'), ctrl }) == (
            v.after_enter_search_mode(),
            EffectView::Continue,
        ),
        key_step(v, KeyInput { code: Key::Char('i'), ctrl }).0.mode == ModeView::Search,
        key_step(v, KeyInput { code: Key::Char('i'), ctrl }).0.search_query.len() == 0,
{
}

/// In the list, `j` and Down move down, `k` and Up move up, each pair alike,
/// whatever Control says; neither asks the caller for anything.
pub proof fn law_navigation_keys_pair_up(v: AppView, ctrl: bool)
    requires
        v.mode == ModeView::Normal,
    ensures
        key_step(v, KeyInput { code: Key::Char('j'), ctrl }) == key_step(v, KeyInput { code: Key::Down, ctrl }),
        key_step(v, KeyInput { code: Key::Down, ctrl }) == (v.after_next(), EffectView::Continue),
        key_step(v, KeyInput { code: Key::Char('k'), ctrl }) == key_step(v, KeyInput { code: Key::Up, ctrl }),
        key_step(v, KeyInput { code: Key::Up, ctrl }) == (v.after_previous(), EffectView::Continue),
{
}

/// In the list, `q`, `Q` and Ctrl+C quit and change nothing else; `r` asks
/// for the ports to be read again and changes nothing; Enter opens the
/// confirmation for the selected row.
pub proof fn law_list_commands(v: AppView, ctrl: bool)
    requires
        v.mode == ModeView::Normal,
    ensures
        key_step(v, KeyInput { code: Key::Char('q'), ctrl }) == key_step(v, KeyInput { code: Key::Char('Q'), ctrl }),
        key_step(v, KeyInput { code: Key::Char('q'), ctrl }) == key_step(v, KeyInput { code: Key::Char('c'), ctrl: true }),
        key_step(v, KeyInput { code: Key::Char('q'), ctrl }) == (
            AppView { should_quit: true, ..v },
            EffectView::Quit,
        ),
        key_step(v, KeyInput { code: Key::Char('r'), ctrl }) == (v, EffectView::RefreshPorts),
        key_step(v, KeyInput { code: Key::Enter, ctrl }) == (v.after_confirm_kill(), EffectView::Continue),
{
}

/// The search line depends on the mode only through whether a search is
/// being typed: every other mode (the list, the confirmation dialog) shows
/// the same line. While typing, the line ends with the search text; outside,
/// a search in force is shown as the typing line followed by a hint, and
/// with no search in force the line does not depend on anything.
pub proof fn law_header_depends_only_on_searching(m: ModeView, q: Seq<char>)
    ensures
        m != ModeView::Search ==> header_text_of(m, q) == header_text_of(ModeView::Normal, q),
        ({
            let typing = header_text_of(ModeView::Search, q);
            typing.len() >= q.len() && typing.subrange(typing.len() - q.len(), typing.len() as int) == q
        }),
        m != ModeView::Search && q.len() > 0 ==> ({
            let typing = header_text_of(ModeView::Search, q);
            let shown = header_text_of(m, q);
            shown.len() > typing.len() && shown.subrange(0, typing.len() as int) == typing
                && is_substring(q, shown)
        }),
        m != ModeView::Search && q.len() == 0 ==> header_text_of(m, q) == header_text_of(
            ModeView::Normal,
            Seq::empty(),
        ),
{
    let typing = header_text_of(ModeView::Search, q);
    let pre = "Search: "@;
    assert(typing == pre + q);
    assert(typing.subrange(typing.len() - q.len(), typing.len() as int) =~= q);
    if m != ModeView::Search && q.len() > 0 {
        let hint = " (press / to edit)"@;
        reveal_strlit(" (press / to edit)");
        let shown = header_text_of(m, q);
        assert(shown == pre + q + hint);
        assert(shown.subrange(0, typing.len() as int) =~= typing);
        assert(shown.subrange(pre.len() as int, (pre.len() + q.len()) as int) =~= q);
        assert(occurs_at(shown, q, pre.len() as int));
    }
}

/// A kernel TCP table is read line by line: the listening sockets of the
/// lines `a` followed by the lines `b` are those of `a` followed by those
/// of `b`, and one line gives its own socket where it describes one and
/// nothing otherwise.
pub proof fn law_tcp_listeners_line_by_line(a: Seq<Seq<char>>, b: Seq<Seq<char>>)
    ensures
        tcp_listeners(a + b) == tcp_listeners(a) + tcp_listeners(b),
        forall|l: Seq<char>| #[trigger] tcp_listeners(seq![l]) == match tcp_line_listener(l) {
            Some(e) => seq![e],
            None => Seq::<(u16, u64)>::empty(),
        },
    decreases b.len(),
{
    assert forall|l: Seq<char>| #[trigger] tcp_listeners(seq![l]) == match tcp_line_listener(l) {
        Some(e) => seq![e],
        None => Seq::<(u16, u64)>::empty(),
    } by {
        let one = seq![l];
        assert(one.drop_last() =~= Seq::<Seq<char>>::empty());
        assert(tcp_listeners(one.drop_last()) == Seq::<(u16, u64)>::empty());
        assert(one.last() == l);
        match tcp_line_listener(l) {
            Some(e) => {
                assert(Seq::<(u16, u64)>::empty().push(e) =~= seq![e]);
            },
            None => {},
        }
    }
    if b.len() == 0 {
        assert(a + b =~= a);
        assert(tcp_listeners(a) + tcp_listeners(b) =~= tcp_listeners(a));
    } else {
        law_tcp_listeners_line_by_line(a, b.drop_last());
        assert((a + b).drop_last() =~= a + b.drop_last());
        assert((a + b).last() == b.last());
        match tcp_line_listener(b.last()) {
            Some(e) => {
                assert(tcp_listeners(a) + tcp_listeners(b.drop_last()).push(e) =~= (tcp_listeners(a)
                    + tcp_listeners(b.drop_last())).push(e));
            },
            None => {},
        }
    }
}

/// The output of `docker ps` is read line by line: the entries of the lines
/// `a` followed by the lines `b` are those of `a` followed by those of `b`,
/// and one line gives the entries of its own published ports.
pub proof fn law_docker_entries_line_by_line(a: Seq<Seq<char>>, b: Seq<Seq<char>>)
    ensures
        docker_entries(a + b) == docker_entries(a) + docker_entries(b),
        forall|l: Seq<char>| #[trigger] docker_entries(seq![l]) == docker_line_entries(l),
    decreases b.len(),
{
    assert forall|l: Seq<char>| #[trigger] docker_entries(seq![l]) == docker_line_entries(l) by {
        let one = seq![l];
        assert(one.drop_last() =~= Seq::<Seq<char>>::empty());
        assert(docker_entries(one.drop_last()) == Seq::<PortEntry>::empty());
        assert(one.last() == l);
        assert(Seq::<PortEntry>::empty() + docker_line_entries(l) =~= docker_line_entries(l));
    }
    if b.len() == 0 {
        assert(a + b =~= a);
        assert(docker_entries(a) + docker_entries(b) =~= docker_entries(a));
    } else {
        law_docker_entries_line_by_line(a, b.drop_last());
        assert((a + b).drop_last() =~= a + b.drop_last());
        assert((a + b).last() == b.last());
        assert(docker_entries(a) + docker_entries(b.drop_last()) + docker_line_entries(b.last())
            =~= docker_entries(a) + (docker_entries(b.drop_last()) + docker_line_entries(b.last())));
    }
}

/// The port mappings of a container are read one by one: those of `a`
/// followed by `b` give the entries of `a` followed by those of `b`, and
/// one mapping gives the container's entry for its host port where that
/// port is non-zero, and nothing otherwise.
pub proof fn law_mapping_entries_one_by_one(id: Seq<char>, name: Seq<char>, a: Seq<Seq<char>>, b: Seq<Seq<char>>)
    ensures
        mapping_entries(id, name, a + b) == mapping_entries(id, name, a) + mapping_entries(id, name, b),
        forall|m: Seq<char>| #[trigger] mapping_entries(id, name, seq![m]) == match mapping_host_port(trim(m)) {
            Some(p) => if p > 0 {
                seq![container_entry(id, name, p)]
            } else {
                Seq::<PortEntry>::empty()
            },
            None => Seq::<PortEntry>::empty(),
        },
    decreases b.len(),
{
    assert forall|m: Seq<char>| #[trigger] mapping_entries(id, name, seq![m]) == match mapping_host_port(trim(m)) {
        Some(p) => if p > 0 {
            seq![container_entry(id, name, p)]
        } else {
            Seq::<PortEntry>::empty()
        },
        None => Seq::<PortEntry>::empty(),
    } by {
        let one = seq![m];
        assert(one.drop_last() =~= Seq::<Seq<char>>::empty());
        assert(mapping_entries(id, name, one.drop_last()) == Seq::<PortEntry>::empty());
        assert(one.last() == m);
        match mapping_host_port(trim(m)) {
            Some(p) => {
                assert(Seq::<PortEntry>::empty().push(container_entry(id, name, p)) =~= seq![container_entry(id, name, p)]);
            },
            None => {},
        }
    }
    if b.len() == 0 {
        assert(a + b =~= a);
        assert(mapping_entries(id, name, a) + mapping_entries(id, name, b) =~= mapping_entries(id, name, a));
    } else {
        law_mapping_entries_one_by_one(id, name, a, b.drop_last());
        assert((a + b).drop_last() =~= a + b.drop_last());
        assert((a + b).last() == b.last());
        match mapping_host_port(trim(b.last())) {
            Some(p) => {
                let e = container_entry(id, name, p);
                assert(mapping_entries(id, name, a) + mapping_entries(id, name, b.drop_last()).push(e)
                    =~= (mapping_entries(id, name, a) + mapping_entries(id, name, b.drop_last())).push(e));
            },
            None => {},
        }
    }
}

} // verus!
