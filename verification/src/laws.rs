//! What holds of the attention queue, the view leases and the client widget across calls.
use crate::dock::{
    dock_wf, entry_for, entry_not_for, id_not, lemma_filter_all_ids, lemma_filtered_dock_wf,
    observe_spec, queue_index, AttentionEntry, DockView,
};
use crate::lease::{
    client_slot, dismissed_dock, elects, jump_location, lease_source, request_v, streaming,
    target_v, AttentionError, AttentionRequest, ClientView, ServerView,
};
use crate::seqs::{lemma_filter_contained, lemma_first_index_bounds, lemma_first_index_is};
use crate::shell::{
    action_v, active_queue_v, entry_named, hide_v, input_v, set_queue_v, supported_v,
    surface_accepted, sync_v, AttentionAction, ClientEndpointId, EndpointAttentionEntry,
    EndpointAttentionSurface, KeyInput, KeyKind, MethodView, OutcomeView, RawInputEvent,
    ShellView,
};
use crate::handoff::{
    dedup_by_pane, dismissed_public_id, handoff_entry_of, parse_public_pane_id,
    parsed_pane_id, plan_has_pane, public_id_of_pane, restore_candidate, restore_dismissed,
    restore_plan, HandoffEntryView, PlanItem,
};
use crate::lex::{is_lex_sort, view_is};
use crate::topology::{
    attention_eligible_spec, terminal_lookup, ws_index, ws_terminal_id, AgentState, PaneId,
    TerminalState, Workspace,
};
use vstd::prelude::*;

verus! {

/// A new queue from the endpoint never makes the widget show a pane it was not showing: the
/// shown pane stays, or the widget closes.
pub proof fn law_arrivals_never_switch_selection(
    s: ShellView,
    id: ClientEndpointId,
    q: Seq<EndpointAttentionEntry>,
)
    ensures
        set_queue_v(s, id, q).selected == s.selected || set_queue_v(s, id, q).selected is None,
{
}

/// Stepping to the previous or next entry of a queue whose only entry is shown changes
/// nothing and sends nothing.
pub proof fn law_singleton_navigation_is_inert(
    s: ShellView,
    o: OutcomeView,
    action: AttentionAction,
    id: Seq<char>,
)
    requires
        action == AttentionAction::Previous || action == AttentionAction::Next,
        s.selected == Some(id),
        active_queue_v(s).len() == 1,
        active_queue_v(s)[0].pane_id@ == id,
    ensures
        action_v(s, o, action) == (s, o),
{
    let q = active_queue_v(s);
    lemma_first_index_is(q, entry_named(id), 0);
}

/// Closing the widget leaves no key held on the pane it showed.
pub proof fn law_closing_releases_the_shown_pane(s: ShellView, id: Seq<char>)
    requires
        s.selected == Some(id),
    ensures
        hide_v(s).selected is None,
        forall|i: int| 0 <= i < hide_v(s).held_keys.len() ==> (#[trigger] hide_v(s).held_keys[i]).1 != id,
{
    assert forall|i: int| 0 <= i < hide_v(s).held_keys.len() implies (
    #[trigger] hide_v(s).held_keys[i]).1 != id by {
        lemma_filter_contained(s.held_keys, crate::shell::held_not_for(id), i);
    }
}

/// Dismissing and jumping name the shown pane to the endpoint, and close the widget.
pub proof fn law_dismiss_and_jump_name_the_shown_pane(s: ShellView, o: OutcomeView, id: Seq<char>)
    requires
        s.selected == Some(id),
    ensures
        action_v(s, o, AttentionAction::Dismiss).1.methods[o.methods.len() as int]
            == (MethodView::Acknowledge { source_pane_id: id }),
        action_v(s, o, AttentionAction::Jump).1.methods[o.methods.len() as int]
            == (MethodView::Jump { source_pane_id: id }),
        action_v(s, o, AttentionAction::Dismiss).0.selected is None,
        action_v(s, o, AttentionAction::Jump).0.selected is None,
{
}

/// Escape never acknowledges or jumps: it only gives the view up, it changes no queue, and a
/// press closes the widget.
pub proof fn law_escape_never_acknowledges(s: ShellView, o: OutcomeView, k: KeyInput)
    requires
        k.escape,
        s.selected is Some,
    ensures
        ({
            let (s2, o2, _) = input_v(s, o, RawInputEvent::Key(k));
            &&& s2.queues == s.queues
            &&& o2.methods.len() >= o.methods.len()
            &&& forall|i: int| 0 <= i < o.methods.len() ==> o2.methods[i] == o.methods[i]
            &&& forall|i: int|
                o.methods.len() <= i < o2.methods.len() ==> (#[trigger] o2.methods[i]) is View
            &&& k.kind == KeyKind::Press && supported_v(s) ==> s2.selected is None
        }),
{
}

/// Once the lease changes, a surface rendered for the earlier view is refused.
pub proof fn law_new_lease_refuses_old_surfaces(
    s: ShellView,
    o: OutcomeView,
    id: ClientEndpointId,
    surface: EndpointAttentionSurface,
)
    requires
        surface.view_id == s.view_id,
        s.view_id < u64::MAX,
        sync_v(s, o).0.lease != s.lease,
    ensures
        !surface_accepted(sync_v(s, o).0, id, surface),
{
}

/// No attention request changes the host's panes, tabs or terminals.
pub proof fn law_requests_keep_topology(s: ServerView, id: u64, req: AttentionRequest)
    ensures
        request_v(s, id, req).0.ws == s.ws,
        request_v(s, id, req).0.terms == s.terms,
{
}

/// A refused request changes nothing; only an acknowledgement changes the queue, and it
/// removes exactly the pane its identifier names today.
pub proof fn law_only_acknowledgement_changes_the_queue(s: ServerView, id: u64, req: AttentionRequest)
    ensures
        ({
            let (s2, _, result, _, rel) = request_v(s, id, req);
            &&& result is Err ==> s2 == s && rel.len() == 0
            &&& !(req is Acknowledge) ==> s2.dock == s.dock
            &&& match req {
                AttentionRequest::Acknowledge { source_pane_id } => result is Ok ==> (target_v(
                    s,
                    source_pane_id@,
                ) matches Some(t) && t.public_pane_id == source_pane_id@ && s2.dock
                    == dismissed_dock(s.dock, t.pane_id)),
                _ => true,
            }
        }),
{
}

/// A request from a client that is not an active shell, or during a handoff, is refused as
/// such and changes nothing.
pub proof fn law_inactive_connections_are_refused(s: ServerView, id: u64, req: AttentionRequest)
    requires
        s.handoff || !(exists|i: int|
            0 <= i < s.clients.len() && (#[trigger] s.clients[i]).id == id
                && s.clients[i].active_shell),
    ensures
        request_v(s, id, req).0 == s,
        request_v(s, id, req).2 == Err::<(), AttentionError>(AttentionError::InactiveConnection),
{
    let i = crate::lease::client_slot(s, id);
    lemma_first_index_bounds(s.clients, crate::lease::client_has(id));
}

/// Of the clients streaming one pane, at most one elects the terminal's size.
pub proof fn law_one_elector_per_pane(cs: Seq<ClientView>, a: int, b: int)
    requires
        0 <= a < cs.len(),
        0 <= b < cs.len(),
        streaming(cs[a]),
        streaming(cs[b]),
        lease_source(cs[a]) == lease_source(cs[b]),
        elects(cs, cs[a].id, lease_source(cs[a])),
        elects(cs, cs[b].id, lease_source(cs[b])),
    ensures
        cs[a].id == cs[b].id,
{
    assert(cs[a].id <= cs[b].id);
    assert(cs[b].id <= cs[a].id);
}

/// A dismissed pane stays out of the queue, and dismissed, until its agent works again.
pub proof fn law_dismissed_stays_out_until_working(
    d: DockView,
    terminal: Option<TerminalState>,
    pid: PaneId,
    previous: AgentState,
    state: AgentState,
    seen: bool,
    now: u64,
)
    requires
        dock_wf(d),
        d.dismissed.contains(pid),
        state != AgentState::Working,
    ensures
        observe_spec(d, terminal, pid, previous, state, seen, now).dismissed.contains(pid),
        queue_index(observe_spec(d, terminal, pid, previous, state, seen, now).queue, pid)
            == observe_spec(d, terminal, pid, previous, state, seen, now).queue.len(),
{
    let n = observe_spec(d, terminal, pid, previous, state, seen, now);
    assert forall|j: int| 0 <= j < n.queue.len() implies !(#[trigger] entry_for(pid)(n.queue[j])) by {
        if n.queue != d.queue {
            lemma_filter_contained(d.queue, crate::dock::entry_not_for(pid), j);
        }
    }
    lemma_first_index_is(n.queue, entry_for(pid), n.queue.len() as int);
}

/// An observation never makes an entry ready: every ready entry afterwards was in the
/// queue, unchanged, before.
pub proof fn law_observation_never_readies(
    d: DockView,
    terminal: Option<TerminalState>,
    pid: PaneId,
    previous: AgentState,
    state: AgentState,
    seen: bool,
    now: u64,
    i: int,
)
    requires
        0 <= i < observe_spec(d, terminal, pid, previous, state, seen, now).queue.len(),
        observe_spec(d, terminal, pid, previous, state, seen, now).queue[i].ready,
    ensures
        d.queue.contains(observe_spec(d, terminal, pid, previous, state, seen, now).queue[i]),
{
    let n = observe_spec(d, terminal, pid, previous, state, seen, now);
    let f = crate::dock::entry_not_for(pid);
    if state == AgentState::Working || (terminal matches Some(t)
        && !crate::topology::attention_eligible_spec(t)) {
        lemma_filter_contained(d.queue, f, i);
    } else if d.dismissed.contains(pid) {
        assert(d.queue[i] == n.queue[i]);
    } else {
        match crate::dock::observed_kind(previous, state, seen) {
            None => {
                assert(d.queue[i] == n.queue[i]);
            },
            Some(kind) => {
                let k = queue_index(d.queue, pid);
                lemma_first_index_bounds(d.queue, entry_for(pid));
                if k < d.queue.len() {
                    if kind == crate::dock::AttentionKind::Blocked && d.queue[k].kind
                        != crate::dock::AttentionKind::Blocked {
                        assert(n.queue == d.queue.update(
                            k,
                            AttentionEntry {
                                kind: crate::dock::AttentionKind::Blocked,
                                eligible_at: crate::dock::debounced(now),
                                ready: false,
                                ..d.queue[k]
                            },
                        ));
                    } else {
                        assert(n == d);
                    }
                    if i != k {
                        assert(d.queue[i] == n.queue[i]);
                    } else if !(kind == crate::dock::AttentionKind::Blocked && d.queue[k].kind
                        != crate::dock::AttentionKind::Blocked) {
                        assert(d.queue[i] == n.queue[i]);
                    }
                } else {
                    if i < d.queue.len() {
                        assert(d.queue[i] == n.queue[i]);
                    }
                }
            },
        }
    }
}


/// The pane's public identifier names it again, in the workspace that holds it.
pub open spec fn resolvable(ws: Seq<Workspace>, p: PaneId) -> bool {
    match public_id_of_pane(ws, p) {
        Some(s) => parse_public_pane_id(ws, s) == Some((ws_index(ws, p), p)),
        None => false,
    }
}

/// The pane's terminal is registered and may take part in attention.
pub open spec fn eligible_in(ws: Seq<Workspace>, ts: Seq<TerminalState>, p: PaneId) -> bool {
    0 <= ws_index(ws, p) < ws.len() && match ws_terminal_id(ws[ws_index(ws, p)], p) {
        Some(tid) => match terminal_lookup(ts, tid) {
            Some(t) => attention_eligible_spec(t),
            None => false,
        },
        None => false,
    }
}

pub open spec fn pane_and_kind() -> spec_fn(AttentionEntry) -> (PaneId, crate::dock::AttentionKind) {
    |e: AttentionEntry| (e.pane_id, e.kind)
}

pub open spec fn plan_pane_and_kind() -> spec_fn(PlanItem) -> (PaneId, crate::dock::AttentionKind) {
    |c: PlanItem| (c.1, c.2)
}

proof fn lemma_filter_map_all_some<A, B>(s: Seq<A>, f: spec_fn(A) -> Option<B>)
    requires
        forall|i: int| 0 <= i < s.len() ==> (#[trigger] f(s[i])) is Some,
    ensures
        s.filter_map(f).len() == s.len(),
        forall|i: int| 0 <= i < s.len() ==> Some(#[trigger] s.filter_map(f)[i]) == f(s[i]),
    decreases s.len(),
{
    if s.len() > 0 {
        let t = s.drop_last();
        assert forall|i: int| 0 <= i < t.len() implies (#[trigger] f(t[i])) is Some by {
            assert(t[i] == s[i]);
            assert(f(s[i]) is Some);
        }
        lemma_filter_map_all_some(t, f);
        assert(f(s[s.len() - 1]) is Some);
        assert forall|i: int| 0 <= i < s.len() implies Some(#[trigger] s.filter_map(f)[i]) == f(s[i]) by {
            if i < s.len() - 1 {
                assert(t[i] == s[i]);
                assert(t.filter_map(f)[i] == s.filter_map(f)[i]);
            }
        }
    }
}

proof fn lemma_filter_map_contains<A, B>(s: Seq<A>, f: spec_fn(A) -> Option<B>, x: B)
    ensures
        s.filter_map(f).contains(x) <==> exists|i: int| 0 <= i < s.len() && #[trigger] f(s[i]) == Some(x),
    decreases s.len(),
{
    if s.len() > 0 {
        let t = s.drop_last();
        lemma_filter_map_contains(t, f, x);
        let r = t.filter_map(f);
        if exists|i: int| 0 <= i < s.len() && #[trigger] f(s[i]) == Some(x) {
            let i = choose|i: int| 0 <= i < s.len() && #[trigger] f(s[i]) == Some(x);
            if i < s.len() - 1 {
                assert(t[i] == s[i]);
                assert(f(t[i]) == Some(x));
                let j = choose|j: int| 0 <= j < r.len() && r[j] == x;
                assert(s.filter_map(f)[j] == x);
            } else {
                assert(s.filter_map(f)[s.filter_map(f).len() - 1] == x);
            }
        }
        if s.filter_map(f).contains(x) {
            let j = choose|j: int| 0 <= j < s.filter_map(f).len() && s.filter_map(f)[j] == x;
            if j < r.len() {
                assert(r[j] == x);
                let i = choose|i: int| 0 <= i < t.len() && #[trigger] f(t[i]) == Some(x);
                assert(t[i] == s[i]);
            } else {
                assert(f(s[s.len() - 1]) == Some(x));
            }
        }
    }
}

proof fn lemma_dedup_distinct(s: Seq<PlanItem>)
    requires
        forall|i: int, j: int| #![trigger s[i], s[j]] 0 <= i < j < s.len() ==> s[i].1 != s[j].1,
    ensures
        dedup_by_pane(s) == s,
    decreases s.len(),
{
    if s.len() > 0 {
        let t = s.drop_last();
        assert forall|i: int, j: int| #![trigger t[i], t[j]] 0 <= i < j < t.len() implies t[i].1 != t[j].1 by {
            assert(t[i] == s[i] && t[j] == s[j]);
        }
        lemma_dedup_distinct(t);
        if plan_has_pane(t, s.last().1) {
            let i = choose|i: int| 0 <= i < t.len() && (#[trigger] t[i]).1 == s.last().1;
            assert(t[i] == s[i]);
            assert(s[i].1 != s[s.len() - 1].1);
        }
        assert(t.push(s.last()) =~= s);
    }
}

proof fn lemma_sorted_contains(out: Seq<Seq<char>>, inp: Seq<Seq<char>>, k: Seq<char>)
    requires
        is_lex_sort(out, inp),
    ensures
        out.contains(k) <==> inp.contains(k),
{
    assert(out.filter(view_is(k)) == inp.filter(view_is(k)));
    if out.contains(k) {
        let i = choose|i: int| 0 <= i < out.len() && out[i] == k;
        out.lemma_filter_contains(view_is(k), i);
        let f = inp.filter(view_is(k));
        assert(f.contains(k));
        inp.lemma_filter_contains_rev(view_is(k), k);
    }
    if inp.contains(k) {
        let i = choose|i: int| 0 <= i < inp.len() && inp[i] == k;
        inp.lemma_filter_contains(view_is(k), i);
        out.lemma_filter_contains_rev(view_is(k), k);
    }
}

/// Carrying the queue over to a fresh host with the same topology and terminals gives back
/// the same queue, in order and with its kinds, and the same dismissals: when the queued
/// and dismissed panes are named by their public identifiers, and the queued panes' terminals
/// are registered and eligible.
pub proof fn law_handoff_round_trip(
    ws: Seq<Workspace>,
    ts: Seq<TerminalState>,
    d: DockView,
    dismissed_srcs: Seq<Seq<char>>,
)
    requires
        dock_wf(d),
        is_lex_sort(dismissed_srcs, d.dismissed.filter_map(dismissed_public_id(ws))),
        forall|i: int|
            0 <= i < d.queue.len() ==> resolvable(ws, #[trigger] d.queue[i].pane_id) && eligible_in(
                ws,
                ts,
                d.queue[i].pane_id,
            ),
        forall|i: int| 0 <= i < d.dismissed.len() ==> resolvable(ws, #[trigger] d.dismissed[i]),
    ensures
        restore_plan(ws, ts, d.queue.filter_map(handoff_entry_of(ws)), dismissed_srcs).map_values(
            plan_pane_and_kind(),
        ) == d.queue.map_values(pane_and_kind()),
        restore_dismissed(ws, dismissed_srcs).to_set() == d.dismissed.to_set(),
{
    let q = d.queue;
    let hv = handoff_entry_of(ws);
    // Every queued entry is carried over under the identifier that names its pane.
    assert forall|i: int| 0 <= i < q.len() implies (#[trigger] hv(q[i])) is Some by {
        assert(resolvable(ws, q[i].pane_id));
    }
    lemma_filter_map_all_some(q, hv);
    let carried = q.filter_map(hv);
    // The dismissals come back as the same set of panes.
    let pub_ids = d.dismissed.filter_map(dismissed_public_id(ws));
    let rd = restore_dismissed(ws, dismissed_srcs);
    assert forall|p: PaneId| rd.contains(p) <==> d.dismissed.contains(p) by {
        lemma_filter_map_contains(dismissed_srcs, parsed_pane_id(ws), p);
        if rd.contains(p) {
            let i = choose|i: int|
                0 <= i < dismissed_srcs.len() && #[trigger] parsed_pane_id(ws)(dismissed_srcs[i])
                    == Some(p);
            let src = dismissed_srcs[i];
            lemma_sorted_contains(dismissed_srcs, pub_ids, src);
            lemma_filter_map_contains(d.dismissed, dismissed_public_id(ws), src);
            let j = choose|j: int|
                0 <= j < d.dismissed.len() && #[trigger] dismissed_public_id(ws)(d.dismissed[j])
                    == Some(src);
            assert(resolvable(ws, d.dismissed[j]));
        }
        if d.dismissed.contains(p) {
            let j = choose|j: int| 0 <= j < d.dismissed.len() && d.dismissed[j] == p;
            assert(resolvable(ws, d.dismissed[j]));
            let src = public_id_of_pane(ws, p)->0;
            assert(dismissed_public_id(ws)(d.dismissed[j]) == Some(src));
            lemma_filter_map_contains(d.dismissed, dismissed_public_id(ws), src);
            lemma_sorted_contains(dismissed_srcs, pub_ids, src);
            let i = choose|i: int| 0 <= i < dismissed_srcs.len() && dismissed_srcs[i] == src;
            assert(parsed_pane_id(ws)(dismissed_srcs[i]) == Some(p));
        }
    }
    assert(rd.to_set() =~= d.dismissed.to_set());
    // Every carried entry makes a plan item for its own pane and kind.
    let rc = restore_candidate(ws, ts, rd);
    assert forall|i: int| 0 <= i < carried.len() implies (#[trigger] rc(carried[i])) is Some
        && rc(carried[i]).unwrap().1 == q[i].pane_id && rc(carried[i]).unwrap().2 == q[i].kind by {
        assert(Some(carried[i]) == hv(q[i]));
        assert(resolvable(ws, q[i].pane_id));
        assert(eligible_in(ws, ts, q[i].pane_id));
        assert(!d.dismissed.contains(q[i].pane_id));
    }
    lemma_filter_map_all_some(carried, rc);
    let cands = carried.filter_map(rc);
    assert forall|i: int, j: int| #![trigger cands[i], cands[j]] 0 <= i < j < cands.len() implies cands[i].1
        != cands[j].1 by {
        assert(Some(cands[i]) == rc(carried[i]));
        assert(Some(cands[j]) == rc(carried[j]));
        assert(q[i].pane_id != q[j].pane_id);
    }
    lemma_dedup_distinct(cands);
    assert forall|i: int| 0 <= i < q.len() implies #[trigger] cands.map_values(plan_pane_and_kind())[i]
        == q.map_values(pane_and_kind())[i] by {
        assert(Some(cands[i]) == rc(carried[i]));
    }
    assert(cands.map_values(plan_pane_and_kind()) =~= q.map_values(pane_and_kind()));
}


/// A jump moves the requesting client, and no other: every other client stays as it was,
/// the queue is untouched, the requesting client gives its view up and looks at the pane
/// that the identifier names, and that pane's tab focuses it.
pub proof fn law_jump_is_client_local(s: ServerView, id: u64, source_pane_id: String)
    requires
        !s.handoff,
        forall|a: int, b: int|
            0 <= a < s.clients.len() && 0 <= b < s.clients.len() && a != b ==> (#[trigger] s.clients[a]).id
                != (#[trigger] s.clients[b]).id,
        exists|i: int|
            0 <= i < s.clients.len() && (#[trigger] s.clients[i]).id == id && s.clients[i].active_shell,
        target_v(s, source_pane_id@) is Some,
    ensures
        ({
            let (s2, changed, result, jump, _) = request_v(
                s,
                id,
                AttentionRequest::Jump { source_pane_id },
            );
            let i = client_slot(s, id);
            &&& result is Ok && changed && jump == target_v(s, source_pane_id@)
            &&& s2.dock == s.dock && s2.ws == s.ws
            &&& s2.clients.len() == s.clients.len()
            &&& forall|j: int| 0 <= j < s.clients.len() && j != i ==> #[trigger] s2.clients[j] == s.clients[j]
            &&& s2.clients[i].location == Some(jump_location(target_v(s, source_pane_id@)->0))
            &&& s2.clients[i].lease is None
            &&& s2.tab_focus == crate::lease::focus_tab_pane(
                s.tab_focus,
                target_v(s, source_pane_id@)->0.workspace_id,
                target_v(s, source_pane_id@)->0.tab_number,
                target_v(s, source_pane_id@)->0.pane_id,
            )
        }),
{
    let w = choose|i: int|
        0 <= i < s.clients.len() && (#[trigger] s.clients[i]).id == id && s.clients[i].active_shell;
    lemma_first_index_bounds(s.clients, crate::lease::client_has(id));
    let i = client_slot(s, id);
    assert(i <= w);
    if i != w {
        assert(s.clients[i].id == id);
        assert(s.clients[i].id != s.clients[w].id);
    }
}

/// Observing a transition keeps the dock's invariant, and an entry for a pane that had none
/// comes after every entry that was queued.
pub proof fn law_observe_keeps_dock_invariants(
    d: DockView,
    terminal: Option<TerminalState>,
    pid: PaneId,
    previous: AgentState,
    state: AgentState,
    seen: bool,
    now: u64,
)
    requires
        dock_wf(d),
        d.next_sequence < u64::MAX,
    ensures
        dock_wf(observe_spec(d, terminal, pid, previous, state, seen, now)),
        forall|i: int|
            0 <= i < observe_spec(d, terminal, pid, previous, state, seen, now).queue.len() && queue_index(
                d.queue,
                (#[trigger] observe_spec(d, terminal, pid, previous, state, seen, now).queue[i]).pane_id,
            ) == d.queue.len() ==> forall|j: int|
                0 <= j < d.queue.len() ==> d.queue[j].sequence < observe_spec(
                    d,
                    terminal,
                    pid,
                    previous,
                    state,
                    seen,
                    now,
                ).queue[i].sequence,
{
    let n = observe_spec(d, terminal, pid, previous, state, seen, now);
    let f = entry_not_for(pid);
    if state == AgentState::Working {
        lemma_filtered_dock_wf(d, f, id_not(pid));
    } else if (terminal matches Some(t) && !attention_eligible_spec(t)) {
        lemma_filtered_dock_wf(d, f, |p: PaneId| true);
        lemma_filter_all_ids(d.dismissed);
    }
    // Entries kept from the old queue have an old entry for their pane.
    assert forall|i: int|
        0 <= i < n.queue.len() && queue_index(d.queue, (#[trigger] n.queue[i]).pane_id)
            == d.queue.len() implies forall|j: int|
        0 <= j < d.queue.len() ==> d.queue[j].sequence < n.queue[i].sequence by {
        let e = n.queue[i];
        if d.queue.contains(e) {
            let m = choose|m: int| 0 <= m < d.queue.len() && d.queue[m] == e;
            lemma_first_index_bounds(d.queue, entry_for(e.pane_id));
            assert(entry_for(e.pane_id)(d.queue[m]));
            assert(false);
        } else {
            if state == AgentState::Working || (terminal matches Some(t)
                && !attention_eligible_spec(t)) {
                lemma_filter_contained(d.queue, f, i);
            } else if i < d.queue.len() {
                lemma_first_index_bounds(d.queue, entry_for(pid));
                let k = queue_index(d.queue, pid);
                if i != k {
                    assert(n.queue[i] == d.queue[i]);
                } else {
                    assert(entry_for(pid)(d.queue[k]));
                    assert(n.queue[i].pane_id == d.queue[k].pane_id);
                    assert(entry_for(e.pane_id)(d.queue[k]));
                    lemma_first_index_bounds(d.queue, entry_for(e.pane_id));
                    assert(false);
                }
            } else {
                if d.dismissed.contains(pid) {
                    assert(n == d);
                }
                match crate::dock::observed_kind(previous, state, seen) {
                    None => {
                        assert(n == d);
                    },
                    Some(kind) => {
                        lemma_first_index_bounds(d.queue, entry_for(pid));
                        if queue_index(d.queue, pid) < d.queue.len() {
                            assert(n.queue.len() == d.queue.len());
                        } else {
                            assert(n.queue[i].sequence == d.next_sequence + 1);
                            assert forall|j: int| 0 <= j < d.queue.len() implies d.queue[j].sequence
                                < n.queue[i].sequence by {
                                assert(d.queue[j].sequence <= d.next_sequence);
                            }
                        }
                    },
                }
            }
        }
    }
    if !(state == AgentState::Working || (terminal matches Some(t) && !attention_eligible_spec(t)))
        && !d.dismissed.contains(pid) {
        match crate::dock::observed_kind(previous, state, seen) {
            None => {},
            Some(kind) => {
                let k = queue_index(d.queue, pid);
                lemma_first_index_bounds(d.queue, entry_for(pid));
                let q = n.queue;
                if k < d.queue.len() {
                    assert forall|i: int, j: int|
                        #![trigger q[i], q[j]]
                        0 <= i < j < q.len() implies q[i].sequence < q[j].sequence && q[i].pane_id
                            != q[j].pane_id by {
                        assert(d.queue[i].sequence < d.queue[j].sequence);
                    }
                    assert forall|i: int| 0 <= i < q.len() implies #[trigger] q[i].sequence
                        <= n.next_sequence && !n.dismissed.contains(q[i].pane_id) by {
                        assert(q[i].sequence == d.queue[i].sequence);
                        assert(q[i].pane_id == d.queue[i].pane_id);
                    }
                } else {
                    assert forall|i: int, j: int|
                        #![trigger q[i], q[j]]
                        0 <= i < j < q.len() implies q[i].sequence < q[j].sequence && q[i].pane_id
                            != q[j].pane_id by {
                        if j == q.len() - 1 {
                            assert(q[i] == d.queue[i]);
                            assert(d.queue[i].sequence <= d.next_sequence);
                            assert(!entry_for(pid)(d.queue[i]));
                        } else {
                            assert(q[i] == d.queue[i] && q[j] == d.queue[j]);
                        }
                    }
                    assert forall|i: int| 0 <= i < q.len() implies #[trigger] q[i].sequence
                        <= n.next_sequence && !n.dismissed.contains(q[i].pane_id) by {
                        if i < q.len() - 1 {
                            assert(q[i] == d.queue[i]);
                        }
                    }
                }
            },
        }
    }
}


/// What [`crate::handoff::App::attention_handoff_state`] captures of a host, restored by
/// [`crate::handoff::App::restore_attention_handoff_state`] into a host with the same
/// topology and terminals, plans the same queue, in order and with its kinds, and the same
/// dismissals (see [`law_handoff_round_trip`] for when this holds).
pub proof fn law_capture_then_restore(
    ws: Seq<Workspace>,
    ts: Seq<TerminalState>,
    d: DockView,
    captured: crate::handoff::AttentionHandoffState,
)
    requires
        dock_wf(d),
        crate::handoff::handoff_queue_view(captured.queue@) == d.queue.filter_map(
            handoff_entry_of(ws),
        ),
        is_lex_sort(
            crate::lex::views(captured.dismissed_source_pane_ids@),
            d.dismissed.filter_map(dismissed_public_id(ws)),
        ),
        forall|i: int|
            0 <= i < d.queue.len() ==> resolvable(ws, #[trigger] d.queue[i].pane_id) && eligible_in(
                ws,
                ts,
                d.queue[i].pane_id,
            ),
        forall|i: int| 0 <= i < d.dismissed.len() ==> resolvable(ws, #[trigger] d.dismissed[i]),
    ensures
        restore_plan(
            ws,
            ts,
            crate::handoff::handoff_queue_view(captured.queue@),
            crate::lex::views(captured.dismissed_source_pane_ids@),
        ).map_values(plan_pane_and_kind()) == d.queue.map_values(pane_and_kind()),
        restore_dismissed(ws, crate::lex::views(captured.dismissed_source_pane_ids@)).to_set()
            == d.dismissed.to_set(),
{
    law_handoff_round_trip(ws, ts, d, crate::lex::views(captured.dismissed_source_pane_ids@));
}


/// The window a blit shows is as wide and as tall as both the source and the area allow,
/// and lies within the source. Without a visible cursor it shows the source's bottom rows
/// from the first column, wherever a hidden cursor is; a visible cursor inside the source
/// is always inside the window.
pub proof fn law_blit_window_placement(source: crate::frame::FrameData, area: crate::frame::Rect)
    ensures
        ({
            let (x, y, w, h) = crate::frame::blit_window(source, area);
            &&& w as int == if source.width < area.width { source.width as int } else { area.width as int }
            &&& h as int == if source.height < area.height { source.height as int } else { area.height as int }
            &&& x + w <= source.width
            &&& y + h <= source.height
            &&& (source.cursor is None || !source.cursor->0.visible) ==> x == 0 && y + h == source.height
            &&& match source.cursor {
                Some(c) => (c.visible && c.x < source.width && c.y < source.height && w > 0 && h > 0)
                    ==> (x <= c.x < x + w && y <= c.y < y + h),
                None => true,
            }
        }),
{
}

/// A rebuilt queue holds only panes of the topology whose agent is blocked (as blocked
/// entries) or idle with output nobody has seen (as done entries); a working agent, or one
/// in an unknown state, never yields an entry.
pub proof fn law_rebuilt_entries_are_blocked_or_unseen_idle(
    app: crate::dock::AppState,
    order: Seq<crate::rebuild::Candidate>,
    now: u64,
    i: int,
)
    requires
        crate::rebuild::is_stable_sort_by_seq(order, crate::rebuild::rebuild_candidates(app)),
        0 <= i < order.len(),
    ensures
        ({
            let e = crate::rebuild::rebuilt_entry(now)(i, order[i]);
            exists|k: int|
                0 <= k < crate::topology::all_panes(app.workspaces@).len() && {
                    let p = #[trigger] crate::topology::all_panes(app.workspaces@)[k];
                    &&& p.id == e.pane_id
                    &&& !app.attention_dock@.dismissed.contains(p.id)
                    &&& terminal_lookup(app.terminals@, p.attached_terminal_id) matches Some(t)
                        && attention_eligible_spec(t) && ((t.state == AgentState::Blocked && e.kind
                        == crate::dock::AttentionKind::Blocked) || (t.state == AgentState::Idle
                        && !p.seen && e.kind == crate::dock::AttentionKind::Done))
                }
        }),
{
    let cands = crate::rebuild::rebuild_candidates(app);
    let c = order[i];
    let key = crate::rebuild::cand_seq_is(c.2);
    // The candidate is one of the topology's candidates.
    assert(order.filter(key) == cands.filter(key));
    order.lemma_filter_contains(key, i);
    cands.lemma_filter_contains_rev(key, c);
    let panes = crate::topology::all_panes(app.workspaces@);
    let f = crate::rebuild::rebuild_candidate(app.attention_dock@.dismissed, app.terminals@);
    lemma_filter_map_contains(panes, f, c);
    let k = choose|k: int| 0 <= k < panes.len() && #[trigger] f(panes[k]) == Some(c);
    assert(f(panes[k]) == Some(c));
}

/// A view request for a queued pane from an active client is accepted and leaves that
/// client holding exactly the lease the request resolves to, size and view identifier
/// included; it reports a change exactly when the client held another lease (or none), and
/// no other client changes.
pub proof fn law_view_request_sets_the_resolved_lease(
    s: ServerView,
    id: u64,
    params: crate::lease::AttentionViewParams,
)
    requires
        !s.handoff,
        client_slot(s, id) < s.clients.len(),
        s.clients[client_slot(s, id)].active_shell,
        params.source_pane_id is Some,
        crate::lease::resolve_v(s, params) is Some,
    ensures
        ({
            let (s2, changed, result, jump, _) = request_v(s, id, AttentionRequest::View(params));
            let i = client_slot(s, id);
            &&& result is Ok && jump is None
            &&& s2.clients.len() == s.clients.len()
            &&& s2.clients[i].lease == crate::lease::resolve_v(s, params)
            &&& changed == (s.clients[i].lease != crate::lease::resolve_v(s, params))
            &&& forall|j: int| 0 <= j < s.clients.len() && j != i ==> #[trigger] s2.clients[j] == s.clients[j]
            &&& s2.dock == s.dock && s2.ws == s.ws
        }),
{
    lemma_first_index_bounds(s.clients, crate::lease::client_has(id));
}

/// While a pane is shown and the endpoint serves the widget, committed text and pastes go
/// to the shown pane and nowhere else: the event is consumed, and after the input that was
/// pending, exactly one message carrying that text is sent to the shown pane.
pub proof fn law_text_and_paste_reach_the_shown_pane(
    s: ShellView,
    o: OutcomeView,
    id: Seq<char>,
    text: String,
)
    requires
        s.selected == Some(id),
        supported_v(s),
    ensures
        ({
            let (s2, o2, consumed) = input_v(s, o, RawInputEvent::Text(text));
            &&& consumed
            &&& o2.requests == o.requests + s.pending_input + seq![
                crate::shell::MessageView { pane_id: id, event: crate::shell::EventView::TextCommit(text@) },
            ]
            &&& o2.methods == o.methods
            &&& s2.selected == s.selected && s2.queues == s.queues && s2.lease == s.lease
        }),
        ({
            let (s2, o2, consumed) = input_v(s, o, RawInputEvent::Paste(text));
            &&& consumed
            &&& o2.requests == o.requests + s.pending_input + seq![
                crate::shell::MessageView { pane_id: id, event: crate::shell::EventView::Paste(text@) },
            ]
            &&& o2.methods == o.methods
            &&& s2.selected == s.selected && s2.queues == s.queues && s2.lease == s.lease
        }),
{
    let s1 = ShellView { pending_input: Seq::empty(), ..s };
    assert(supported_v(s1));
    let (_, o2, _) = input_v(s, o, RawInputEvent::Text(text));
    assert(o2.requests =~= o.requests + s.pending_input + seq![
        crate::shell::MessageView { pane_id: id, event: crate::shell::EventView::TextCommit(text@) },
    ]);
    let (_, o3, _) = input_v(s, o, RawInputEvent::Paste(text));
    assert(o3.requests =~= o.requests + s.pending_input + seq![
        crate::shell::MessageView { pane_id: id, event: crate::shell::EventView::Paste(text@) },
    ]);
}


/// While a pane is shown, a key press (other than Escape) goes to the shown pane, is
/// consumed, and leaves the key held there, on that pane only.
pub proof fn law_key_press_goes_to_the_shown_pane(s: ShellView, o: OutcomeView, id: Seq<char>, k: KeyInput)
    requires
        s.selected == Some(id),
        supported_v(s),
        !k.escape,
        k.kind == KeyKind::Press,
    ensures
        ({
            let (s2, o2, consumed) = input_v(s, o, RawInputEvent::Key(k));
            &&& consumed
            &&& o2.requests == o.requests + s.pending_input + seq![
                crate::shell::MessageView {
                    pane_id: id,
                    event: crate::shell::EventView::Key { key: k.key, kind: KeyKind::Press },
                },
            ]
            &&& s2.held_keys.len() > 0 && s2.held_keys.last() == (k.key, id)
            &&& forall|j: int| 0 <= j < s2.held_keys.len() - 1 ==> (#[trigger] s2.held_keys[j]).0 != k.key
        }),
{
    let (s2, o2, _) = input_v(s, o, RawInputEvent::Key(k));
    let kept = s.held_keys.filter(crate::shell::key_not(k.key));
    assert(s2.held_keys == kept.push((k.key, id)));
    assert forall|j: int| 0 <= j < s2.held_keys.len() - 1 implies (#[trigger] s2.held_keys[j]).0 != k.key by {
        assert(s2.held_keys[j] == kept[j]);
        lemma_filter_contained(s.held_keys, crate::shell::key_not(k.key), j);
    }
    assert(o2.requests =~= o.requests + s.pending_input + seq![
        crate::shell::MessageView {
            pane_id: id,
            event: crate::shell::EventView::Key { key: k.key, kind: KeyKind::Press },
        },
    ]);
}

/// A repeat or release of a key that no pane holds reaches no pane.
pub proof fn law_unheld_keys_go_nowhere(s: ShellView, o: OutcomeView, id: Seq<char>, k: KeyInput)
    requires
        s.selected == Some(id),
        supported_v(s),
        !k.escape,
        k.kind != KeyKind::Press,
        forall|j: int| 0 <= j < s.held_keys.len() ==> (#[trigger] s.held_keys[j]).0 != k.key,
    ensures
        ({
            let (s2, o2, consumed) = input_v(s, o, RawInputEvent::Key(k));
            &&& consumed
            &&& o2.requests == o.requests + s.pending_input
            &&& s2.held_keys == s.held_keys
        }),
{
    lemma_first_index_is(s.held_keys, crate::shell::key_is(k.key), s.held_keys.len() as int);
}

/// A left press inside the shown pane's area, away from the attention row and the controls,
/// reaches a pane that reports the mouse at the pane cell under the pointer: its offset in
/// the area plus the crop offset; it starts a gesture there.
pub proof fn law_click_reaches_the_cell_under_the_pointer(
    s: ShellView,
    o: OutcomeView,
    id: Seq<char>,
    m: crate::shell::MouseInput,
)
    requires
        crate::shell::shell_wf(s),
        s.selected == Some(id),
        supported_v(s),
        m.kind == crate::shell::MouseKind::Down(crate::shell::MouseButton::Left),
        !crate::frame::rect_contains(s.row, m.column, m.row),
        forall|j: int| 0 <= j < s.buttons.len() ==> !crate::frame::rect_contains(
            (#[trigger] s.buttons[j]).0,
            m.column,
            m.row,
        ),
        s.terminal matches Some(hit) && hit.mouse_reporting && hit.inner_rect.width > 0
            && hit.inner_rect.height > 0 && crate::frame::rect_contains(hit.inner_rect, m.column, m.row),
    ensures
        ({
            let (s2, o2, consumed) = input_v(s, o, RawInputEvent::Mouse(m));
            let r = s.terminal->0.inner_rect;
            let column = m.column - r.x + s.offset.0;
            let row = m.row - r.y + s.offset.1;
            &&& consumed
            &&& o2.requests.len() == o.requests.len() + s.pending_input.len() + 1
            &&& o2.requests.last().pane_id == id
            &&& o2.requests.last().event matches crate::shell::EventView::Mouse {
                kind,
                column: c,
                row: rr,
                ..
            } && kind == m.kind && c == column && rr == row
            &&& s2.mouse_down matches Some(g) && g.pane_id == id && g.column == column && g.row == row
        }),
{
    lemma_first_index_is(
        s.buttons,
        crate::shell::button_hit(m.column, m.row),
        s.buttons.len() as int,
    );
}

/// A granted lease is at least four columns by two rows, keeps a larger requested size, its
/// view identifier and pane name, and points at the pane's terminal; an empty or oversized
/// request is never granted.
pub proof fn law_granted_lease_size(s: ServerView, p: crate::lease::AttentionViewParams)
    ensures
        (p.cols == 0 || p.rows == 0 || p.cols > 1000 || p.rows > 1000) ==> crate::lease::resolve_v(s, p) is None,
        crate::lease::resolve_v(s, p) matches Some(l) ==> {
            &&& l.cols >= 4 && l.rows >= 2 && l.cols >= p.cols && l.rows >= p.rows
            &&& (p.cols >= 4 ==> l.cols == p.cols) && (p.rows >= 2 ==> l.rows == p.rows)
            &&& l.view_id == p.view_id
            &&& p.source_pane_id matches Some(src) && l.source_pane_id == src@
            &&& target_v(s, l.source_pane_id) matches Some(t) && crate::lease::pane_terminal(s.ws, t.pane_id)
                == Some(l.terminal_id)
        },
{
}

/// After stale leases are retired, every lease left belongs to an active client and names a
/// queued pane on the terminal it was granted for; a lease that matched is kept unchanged.
pub proof fn law_reconciled_leases_all_match(s: ServerView, j: int)
    requires
        0 <= j < s.clients.len(),
    ensures
        ({
            let s2 = crate::lease::reconcile_v(s).0;
            &&& s2.clients.len() == s.clients.len()
            &&& s2.clients[j].lease matches Some(l) ==> crate::lease::client_matches(
                s2,
                s2.clients[j],
                l.source_pane_id,
            )
            &&& (s.clients[j].lease matches Some(l) && crate::lease::client_matches(
                s,
                s.clients[j],
                l.source_pane_id,
            )) ==> s2.clients[j] == s.clients[j]
        }),
{
}

/// A blocked agent on an eligible, undismissed, unqueued pane queues it at the end, as
/// blocked, numbered after every earlier entry, waiting for its debounce; a pane going back
/// to work leaves the queue and its dismissal is forgotten.
pub proof fn law_blocked_queues_and_work_clears(
    d: DockView,
    terminal: Option<TerminalState>,
    pid: PaneId,
    previous: AgentState,
    seen: bool,
    now: u64,
)
    requires
        dock_wf(d),
        d.next_sequence < u64::MAX,
    ensures
        ({
            let n = observe_spec(d, terminal, pid, previous, AgentState::Blocked, seen, now);
            (match terminal {
                Some(t) => attention_eligible_spec(t),
                None => true,
            } && !d.dismissed.contains(pid) && queue_index(d.queue, pid) == d.queue.len()) ==> {
                &&& n.queue.len() == d.queue.len() + 1
                &&& n.queue.take(d.queue.len() as int) == d.queue
                &&& n.queue.last().pane_id == pid
                &&& n.queue.last().kind == crate::dock::AttentionKind::Blocked
                &&& !n.queue.last().ready
                &&& n.queue.last().eligible_at == crate::dock::debounced(now)
                &&& n.queue.last().sequence == d.next_sequence + 1
            }
        }),
        ({
            let n = observe_spec(d, terminal, pid, previous, AgentState::Working, seen, now);
            &&& forall|i: int| 0 <= i < n.queue.len() ==> (#[trigger] n.queue[i]).pane_id != pid
            &&& !n.dismissed.contains(pid)
        }),
{
    let n = observe_spec(d, terminal, pid, previous, AgentState::Blocked, seen, now);
    if (match terminal {
        Some(t) => attention_eligible_spec(t),
        None => true,
    } && !d.dismissed.contains(pid) && queue_index(d.queue, pid) == d.queue.len()) {
        assert(n.queue.take(d.queue.len() as int) =~= d.queue);
    }
    let w = observe_spec(d, terminal, pid, previous, AgentState::Working, seen, now);
    assert forall|i: int| 0 <= i < w.queue.len() implies (#[trigger] w.queue[i]).pane_id != pid by {
        lemma_filter_contained(d.queue, entry_not_for(pid), i);
    }
    if w.dismissed.contains(pid) {
        let i = choose|i: int| 0 <= i < w.dismissed.len() && w.dismissed[i] == pid;
        lemma_filter_contained(d.dismissed, id_not(pid), i);
    }
}

/// Acknowledging a pane leaves it without a target: it can no longer be viewed, jumped to
/// or acknowledged, and it is remembered as dismissed.
pub proof fn law_acknowledged_pane_has_no_target(ws: Seq<Workspace>, d: DockView, pid: PaneId)
    ensures
        crate::dock::attention_target_spec(ws, dismissed_dock(d, pid).queue, pid) is None,
        dismissed_dock(d, pid).dismissed.contains(pid),
{
    let q = dismissed_dock(d, pid).queue;
    if crate::dock::ready_queued(q, pid) {
        let i = choose|i: int| 0 <= i < q.len() && #[trigger] q[i].pane_id == pid && q[i].ready;
        lemma_filter_contained(d.queue, entry_not_for(pid), i);
    }
    assert(dismissed_dock(d, pid).dismissed[d.dismissed.len() as int] == pid);
}


/// Synchronizing the lease, while the endpoint serves the widget, leaves it leasing the
/// shown pane at the size of the popup's pane area, or nothing when no pane is shown or the
/// popup has no room; a change is asked for once, under the next view identifier, and no
/// change asks for nothing.
pub proof fn law_sync_leases_the_shown_pane(s: ShellView, o: OutcomeView)
    requires
        supported_v(s),
        s.view_id < u64::MAX,
    ensures
        ({
            let (s2, o2) = sync_v(s, o);
            let expected = match (s.selected, crate::shell::attention_geometry_spec(s.popup_geometry)) {
                (Some(id), Some(g)) => Some((id, g.inner.width, g.inner.height)),
                _ => None::<(Seq<char>, u16, u16)>,
            };
            &&& s2.lease == expected
            &&& s2.selected == s.selected
            &&& o2.requests == o.requests + s.pending_input
            &&& expected == s.lease ==> o2.methods == o.methods && s2.view_id == s.view_id
            &&& expected != s.lease ==> {
                &&& s2.view_id == s.view_id + 1
                &&& o2.methods == o.methods.push(
                    MethodView::View {
                        source_pane_id: match expected {
                            Some(l) => Some(l.0),
                            None => None,
                        },
                        cols: match expected {
                            Some(l) => l.1,
                            None => 1,
                        },
                        rows: match expected {
                            Some(l) => l.2,
                            None => 1,
                        },
                        view_id: (s.view_id + 1) as u64,
                    },
                )
            }
        }),
{
    let s1 = ShellView { pending_input: Seq::empty(), ..s };
    assert(supported_v(s1));
}

} // verus!
