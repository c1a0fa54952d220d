use herdr_attention::dock::{new_attention_dock, AppState, AttentionKind};
use herdr_attention::handoff::{App, AttentionHandoffEntry, AttentionHandoffState};
use herdr_attention::topology::{Agent, AgentState, PaneId, PaneState, Tab, TerminalState, Workspace};

const NOW: u64 = 7_000;

fn workspace(id: &str, pane: PaneId) -> Workspace {
    Workspace {
        id: id.to_string(),
        tabs: vec![Tab {
            number: 1,
            panes: vec![PaneState { id: pane, attached_terminal_id: 100 + pane, seen: true }],
        }],
        public_pane_numbers: vec![(pane, 1)],
    }
}

fn terminal(id: u64) -> TerminalState {
    TerminalState {
        id,
        state: AgentState::Working,
        last_agent_state_change_seq: None,
        detected_agent: None,
        managed_agent: None,
        managed_ready: false,
    }
}

fn app() -> App {
    App {
        state: AppState {
            workspaces: vec![workspace("attention-home", 1), workspace("work", 2), workspace("third", 3)],
            terminals: vec![terminal(101), terminal(102), terminal(103)],
            attention_dock: new_attention_dock(),
        },
    }
}

#[test]
fn explicit_handoff_queue_excludes_managed_pi_without_marking_it_unseen() {
    for kind in [AttentionKind::Blocked, AttentionKind::Done] {
        let mut app = app();
        app.state.terminals[0].restore_managed_agent(Agent::Pi);
        let ordinary_id = app.public_pane_id(1, 2).unwrap();
        app.restore_attention_handoff_state(
            AttentionHandoffState {
                queue: vec![
                    AttentionHandoffEntry { source_pane_id: app.public_pane_id(0, 1).unwrap(), kind },
                    AttentionHandoffEntry { source_pane_id: ordinary_id.clone(), kind },
                ],
                dismissed_source_pane_ids: vec![],
            },
            NOW,
        );
        let restored = app.attention_handoff_state();
        assert_eq!(restored.queue.len(), 1);
        assert_eq!(restored.queue[0].source_pane_id, ordinary_id);
        assert_eq!(restored.queue[0].kind, kind);
        assert!(app.state.workspaces[0].tabs[0].panes[0].seen);
    }
}

#[test]
fn serialized_handoff_restores_attention_fifo_kind_and_dismissal_into_fresh_app() {
    let (blocked, done, dismissed) = (1, 2, 3);
    let mut source = app();
    source.state.observe_attention_transition(blocked, AgentState::Working, AgentState::Blocked, true, NOW);
    source.state.observe_attention_transition(done, AgentState::Working, AgentState::Idle, false, NOW);
    source.state.observe_attention_transition(dismissed, AgentState::Working, AgentState::Blocked, true, NOW);
    for pane in [blocked, done, dismissed] {
        source.state.make_attention_ready_for_test(pane, NOW);
    }
    assert!(source.state.dismiss_attention(dismissed));
    source.state.workspaces[1].tabs[0].panes[0].seen = false;
    let handoff = source.attention_handoff_state();

    let mut fresh = app();
    fresh.restore_attention_handoff_state(handoff, NOW);
    let restored = fresh.attention_handoff_state();
    assert_eq!(
        restored.queue.iter().map(|entry| entry.kind).collect::<Vec<_>>(),
        vec![AttentionKind::Blocked, AttentionKind::Done]
    );
    assert_eq!(restored.queue[0].source_pane_id, "attention-home:p1");
    assert_eq!(restored.queue[1].source_pane_id, "work:p1");
    assert_eq!(restored.dismissed_source_pane_ids.len(), 1);
    assert_eq!(restored.dismissed_source_pane_ids[0], "third:p1");
    assert!(!fresh.state.workspaces[1].tabs[0].panes[0].seen);
    assert!(fresh.state.assert_attention_dock_invariants_for_test());
}
