use herdr_attention::dock::{new_attention_dock, AppState, AttentionKind};
use herdr_attention::handoff::AttentionHandoffKind;
use herdr_attention::topology::{Agent, AgentState, PaneId, PaneState, Tab, TerminalState, Workspace};
use herdr_attention::ATTENTION_DEBOUNCE_MS;

const NOW: u64 = 10_000;

fn workspace(id: &str, pane: PaneId) -> Workspace {
    Workspace {
        id: id.to_string(),
        tabs: vec![Tab {
            number: 1,
            panes: vec![PaneState { id: pane, attached_terminal_id: 100 + pane, seen: true }],
        }],
        public_pane_numbers: vec![(pane, 1)],
    }
}

fn terminal(id: u64) -> TerminalState {
    TerminalState {
        id,
        state: AgentState::Working,
        last_agent_state_change_seq: None,
        detected_agent: None,
        managed_agent: None,
        managed_ready: false,
    }
}

fn terminal_index(state: &AppState, pane: PaneId) -> usize {
    let id = state.workspaces.iter().find_map(|w| w.terminal_id(pane)).unwrap();
    state.terminals.iter().position(|t| t.id == id).unwrap()
}

fn pane_mut(state: &mut AppState, workspace: usize, pane: PaneId) -> &mut PaneState {
    state.workspaces[workspace].tabs[0].panes.iter_mut().find(|p| p.id == pane).unwrap()
}

fn state_with_attention() -> (AppState, PaneId) {
    let home = workspace("attention-home", 1);
    let work = workspace("work", 2);
    let mut state = AppState {
        workspaces: vec![home, work],
        terminals: vec![terminal(101), terminal(102)],
        attention_dock: new_attention_dock(),
    };
    let attention_pane = 1;
    state.observe_attention_transition(attention_pane, AgentState::Working, AgentState::Blocked, true, NOW);
    state.attention_dock.queue[0].eligible_at = NOW;
    state.attention_dock.queue[0].ready = true;
    (state, attention_pane)
}

#[test]
fn managed_pi_attention_is_suppressed_until_ownership_is_released() {
    for next in [AgentState::Blocked, AgentState::Idle] {
        let (mut state, pane) = state_with_attention();
        state.remove_attention_entry(pane);
        let t = terminal_index(&state, pane);
        state.terminals[t].begin_managed_agent(Agent::Pi);
        state.observe_attention_transition(pane, AgentState::Working, next, false, NOW);
        assert!(state.attention_dock.queue.is_empty());

        state.terminals[t].restore_managed_agent(Agent::Pi);
        state.observe_attention_transition(pane, AgentState::Working, next, false, NOW);
        assert!(state.attention_dock.queue.is_empty());

        state.terminals[t].clear_agent_name();
        state.observe_attention_transition(pane, AgentState::Working, next, false, NOW);
        assert_eq!(state.attention_dock.queue.len(), 1);
        state.make_attention_ready_for_test(pane, NOW);
        state.reconcile_due_attention(NOW);
        assert_eq!(state.attention_entries()[0].pane_id, pane);
    }
}

#[test]
fn managed_non_pi_and_named_unmanaged_pi_keep_attention() {
    for managed in [false, true] {
        let (mut state, pane) = state_with_attention();
        state.remove_attention_entry(pane);
        let t = terminal_index(&state, pane);
        if managed {
            state.terminals[t].restore_managed_agent(Agent::Codex);
        } else {
            state.terminals[t].detected_agent = Some(Agent::Pi);
        }
        for next in [AgentState::Blocked, AgentState::Idle] {
            state.remove_attention_entry(pane);
            state.observe_attention_transition(pane, AgentState::Working, next, false, NOW);
            assert_eq!(state.attention_dock.queue.len(), 1);
        }
    }
}

#[test]
fn managed_pi_is_pruned_even_when_already_queued() {
    let (mut state, pane) = state_with_attention();
    let t = terminal_index(&state, pane);
    state.reconcile_due_attention(NOW);
    state.terminals[t].restore_managed_agent(Agent::Pi);

    state.reconcile_due_attention(NOW);

    assert!(state.attention_dock.queue.is_empty());
    assert!(state.attention_entries().is_empty());
    assert_eq!(state.pane_location(pane), Some((0, 0)));
    assert!(state.assert_attention_dock_invariants_for_test());
}

#[test]
fn fallback_handoff_rebuilds_only_unseen_completions() {
    for seen in [false, true] {
        let (mut state, pane) = state_with_attention();
        let t = terminal_index(&state, pane);
        state.terminals[t].state = AgentState::Idle;
        pane_mut(&mut state, 0, pane).seen = seen;

        state.rebuild_attention_queue_after_handoff(NOW);

        assert!(state.assert_attention_dock_invariants_for_test());
        if seen {
            assert!(state.attention_entries().is_empty());
            assert!(state.next_attention_deadline().is_none());
        } else {
            assert!(state.attention_entries().is_empty());
            let deadline = state.next_attention_deadline().expect("rebuilt debounce");
            assert!(state.reconcile_due_attention(deadline));
            let entries = state.attention_entries();
            assert_eq!(entries.len(), 1);
            assert_eq!(entries[0].pane_id, pane);
            assert_eq!(entries[0].kind, AttentionHandoffKind::Done);
        }
        assert_eq!(pane_mut(&mut state, 0, pane).seen, seen);
        assert!(state.assert_attention_dock_invariants_for_test());
    }
}

#[test]
fn fallback_handoff_preserves_dismissals_for_blocked_and_done() {
    for terminal_state in [AgentState::Blocked, AgentState::Idle] {
        let (mut state, dismissed) = state_with_attention();
        let t = terminal_index(&state, dismissed);
        state.terminals[t].state = terminal_state;
        pane_mut(&mut state, 0, dismissed).seen = false;
        assert!(state.dismiss_attention(dismissed));
        let remaining = state.workspaces[1].tabs[0].panes[0].id;
        let rt = terminal_index(&state, remaining);
        state.terminals[rt].state = AgentState::Blocked;

        state.rebuild_attention_queue_after_handoff(NOW);

        assert!(state.attention_dock.dismissed.contains(&dismissed));
        assert!(state.assert_attention_dock_invariants_for_test());
        let deadline = state.next_attention_deadline().expect("remaining blocked entry");
        assert!(state.reconcile_due_attention(deadline));
        let entries = state.attention_entries();
        assert_eq!(entries.len(), 1);
        assert_eq!(entries[0].pane_id, remaining);
        assert_eq!(entries[0].kind, AttentionHandoffKind::Blocked);
        assert!(state.attention_target(dismissed).is_none());
        assert!(state.attention_dock.dismissed.contains(&dismissed));
        assert!(state.assert_attention_dock_invariants_for_test());
    }
}

#[test]
fn handoff_does_not_requeue_managed_pi() {
    for next in [AgentState::Blocked, AgentState::Idle] {
        let (mut state, pane) = state_with_attention();
        let t = terminal_index(&state, pane);
        state.terminals[t].restore_managed_agent(Agent::Pi);
        state.terminals[t].state = next;
        pane_mut(&mut state, 0, pane).seen = false;

        state.rebuild_attention_queue_after_handoff(NOW);

        assert!(state.attention_dock.queue.is_empty());
        assert_eq!(state.terminals[t].state, next);
        assert!(state.terminals[t].managed_agent_interactive_ready());
    }
}

#[test]
fn queue_debounce_priority_fifo_and_dismiss_rearm() {
    let (mut state, first) = state_with_attention();
    let second = state.workspaces[1].tabs[0].panes[0].id;
    state.remove_attention_entry(first);
    state.observe_attention_transition(first, AgentState::Working, AgentState::Idle, false, NOW);
    let deadline = state.next_attention_deadline().unwrap();
    assert!(state.attention_entries().is_empty());
    assert!(!state.reconcile_due_attention(deadline - 1));
    assert!(state.reconcile_due_attention(deadline));
    state.observe_attention_transition(second, AgentState::Working, AgentState::Blocked, true, NOW);
    state.make_attention_ready_for_test(second, NOW);
    assert_eq!(
        state.attention_entries().iter().map(|e| e.pane_id).collect::<Vec<_>>(),
        vec![second, first]
    );
    state.observe_attention_transition(first, AgentState::Idle, AgentState::Blocked, false, NOW);
    assert_eq!(state.attention_entries().len(), 1);
    state.make_attention_ready_for_test(first, NOW);
    assert_eq!(
        state.attention_entries().iter().map(|e| e.pane_id).collect::<Vec<_>>(),
        vec![first, second]
    );
    assert!(state.dismiss_attention(first));
    assert!(!state.dismiss_attention(first));
    state.observe_attention_transition(first, AgentState::Blocked, AgentState::Blocked, false, NOW);
    assert!(state.attention_target(first).is_none());
    state.observe_attention_transition(first, AgentState::Blocked, AgentState::Working, false, NOW);
    state.observe_attention_transition(first, AgentState::Working, AgentState::Idle, false, NOW);
    state.make_attention_ready_for_test(first, NOW);
    assert_eq!(state.attention_entries()[1].pane_id, first);
    state.observe_attention_transition(first, AgentState::Idle, AgentState::Working, true, NOW);
    assert!(state.attention_target(first).is_none());
    assert!(state.assert_attention_dock_invariants_for_test());
}

/// A topology where public numbers, tab numbers and pane ids all disagree.
fn adversarial_state() -> AppState {
    let left = Workspace {
        id: "w7".to_string(),
        tabs: vec![
            Tab {
                number: 3,
                panes: vec![
                    PaneState { id: 42, attached_terminal_id: 142, seen: true },
                    PaneState { id: 5, attached_terminal_id: 105, seen: false },
                ],
            },
            Tab { number: 1, panes: vec![PaneState { id: 9, attached_terminal_id: 109, seen: true }] },
        ],
        public_pane_numbers: vec![(42, 2), (5, 7), (9, 1)],
    };
    let right = Workspace {
        id: "w2".to_string(),
        tabs: vec![Tab { number: 5, panes: vec![PaneState { id: 1, attached_terminal_id: 101, seen: true }] }],
        public_pane_numbers: vec![(1, 3)],
    };
    AppState {
        workspaces: vec![left, right],
        terminals: vec![terminal(142), terminal(105), terminal(109), terminal(101)],
        attention_dock: new_attention_dock(),
    }
}

#[test]
fn queue_does_not_change_topology_focus_identity_or_snapshots() {
    let mut state = adversarial_state();
    let before = format!("{:?} {:?}", state.workspaces, state.terminals);
    let panes: Vec<PaneId> = state
        .workspaces
        .iter()
        .flat_map(|ws| ws.tabs.iter())
        .flat_map(|tab| tab.panes.iter().map(|p| p.id))
        .collect();
    for pane in panes {
        state.observe_attention_transition(pane, AgentState::Working, AgentState::Blocked, true, NOW);
        state.make_attention_ready_for_test(pane, NOW);
        let target = state.attention_target(pane).unwrap();
        let (ws, tab) = state.pane_location(pane).unwrap();
        assert_eq!(target.workspace_id, state.workspaces[ws].id);
        assert_eq!(target.tab_number, state.workspaces[ws].tabs[tab].number);
        let number = state.workspaces[ws].public_pane_number(pane).unwrap();
        assert_eq!(
            target.public_pane_id,
            herdr_attention::pane_ids::public_pane_id_for_number(&state.workspaces[ws].id, number)
        );
        state.reconcile_due_attention(NOW);
        assert_eq!(format!("{:?} {:?}", state.workspaces, state.terminals), before);
        assert!(state.dismiss_attention(pane));
        assert_eq!(format!("{:?} {:?}", state.workspaces, state.terminals), before);
        assert!(state.assert_attention_dock_invariants_for_test());
    }
}

#[test]
fn removed_panes_are_pruned_and_seen_done_stays_queued() {
    let (mut state, pane) = state_with_attention();
    state.attention_dock.queue[0].kind = AttentionKind::Done;
    pane_mut(&mut state, 0, pane).seen = true;
    state.reconcile_due_attention(NOW);
    assert!(state.attention_target(pane).is_some());
    state.workspaces.remove(0);
    assert!(state.reconcile_due_attention(NOW));
    assert!(state.attention_entries().is_empty());
}

#[test]
fn new_entries_wait_for_the_debounce() {
    let (mut state, pane) = state_with_attention();
    state.remove_attention_entry(pane);
    state.observe_attention_transition(pane, AgentState::Working, AgentState::Blocked, false, NOW);
    assert_eq!(state.next_attention_deadline(), Some(NOW + ATTENTION_DEBOUNCE_MS));
    assert!(state.attention_target(pane).is_none());
    assert!(!state.reconcile_due_attention(NOW + ATTENTION_DEBOUNCE_MS - 1));
    assert!(state.attention_target(pane).is_none());
    assert!(state.reconcile_due_attention(NOW + ATTENTION_DEBOUNCE_MS));
    assert!(state.attention_target(pane).is_some());
}

#[test]
fn public_pane_ids_name_workspace_and_number() {
    let id = herdr_attention::pane_ids::public_pane_id_for_number(&"w7".to_string(), 12);
    assert_eq!(id, "w7:p12");
    let id = herdr_attention::pane_ids::public_pane_id_for_number(&"home".to_string(), 0);
    assert_eq!(id, "home:p0");
}

#[test]
fn seen_completion_is_not_queued_and_blocked_always_is() {
    let (mut state, pane) = state_with_attention();
    state.remove_attention_entry(pane);
    state.observe_attention_transition(pane, AgentState::Working, AgentState::Idle, true, NOW);
    assert!(state.attention_dock.queue.is_empty());
    state.observe_attention_transition(pane, AgentState::Working, AgentState::Blocked, true, NOW);
    assert_eq!(state.attention_dock.queue.len(), 1);
    assert_eq!(state.attention_dock.queue[0].kind, AttentionKind::Blocked);
}
