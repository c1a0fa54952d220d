use herdr_attention::dock::{new_attention_dock, AppState};
use herdr_attention::frame::{Cell, FrameData};
use herdr_attention::handoff::App;
use herdr_attention::lease::{
    should_resize_attention, AttentionClient, AttentionError, AttentionReply, AttentionRequest,
    AttentionViewParams, HeadlessServer, HeldShellInput, InputRelease, SendOutcome, ShellLocation,
};
use herdr_attention::shell::{EndpointAttentionSurface, PopupSurface};
use herdr_attention::topology::{Agent, AgentState, PaneId, PaneState, Tab, TerminalState, Workspace};

const NOW: u64 = 50_000;

fn workspace(id: &str, pane: PaneId) -> Workspace {
    Workspace {
        id: id.to_string(),
        tabs: vec![Tab {
            number: 1,
            panes: vec![PaneState { id: pane, attached_terminal_id: 100 + pane, seen: true }],
        }],
        public_pane_numbers: vec![(pane, 1)],
    }
}

fn terminal(id: u64) -> TerminalState {
    TerminalState {
        id,
        state: AgentState::Working,
        last_agent_state_change_seq: None,
        detected_agent: None,
        managed_agent: None,
        managed_ready: false,
    }
}

fn queue_blocked(server: &mut HeadlessServer, pane: PaneId) {
    let (_, state) = server.app.find_pane(pane).unwrap();
    let t = server.app.state.terminals.iter().position(|t| t.id == state.attached_terminal_id).unwrap();
    server.app.state.terminals[t].detected_agent = Some(Agent::Pi);
    server.app.state.terminals[t].state = AgentState::Blocked;
    server.app.state.observe_attention_transition(pane, AgentState::Working, AgentState::Blocked, true, NOW);
    server.app.state.make_attention_ready_for_test(pane, NOW);
}

fn attention_fixture() -> (HeadlessServer, PaneId, String) {
    let state = AppState {
        workspaces: vec![workspace("source", 1), workspace("host", 2), workspace("other", 3)],
        terminals: vec![terminal(101), terminal(102), terminal(103)],
        attention_dock: new_attention_dock(),
    };
    let mut server = HeadlessServer { app: App { state }, clients: vec![], handoff_in_progress: false, tab_focus: vec![] };
    let pane = 1;
    queue_blocked(&mut server, pane);
    let source = server.app.state.attention_target(pane).unwrap().public_pane_id;
    (server, pane, source)
}

fn connect_test_shell(server: &mut HeadlessServer, id: u64) {
    server.clients.push(AttentionClient {
        id,
        active_shell: true,
        has_writer: true,
        render_priority: false,
        attention_view: None,
        attention_surface: None,
        attention_render_pending: false,
        full_render_deferred: false,
        held_inputs: vec![],
        shell_location: None,
    });
}

fn client(server: &HeadlessServer, id: u64) -> &AttentionClient {
    server.clients.iter().find(|c| c.id == id).unwrap()
}

fn attention_request(server: &mut HeadlessServer, id: u64, request: AttentionRequest) -> AttentionReply {
    let mut releases = vec![];
    server.handle_client_shell_attention_request(id, request, &mut releases)
}

fn view(source: Option<&str>, cols: u16, rows: u16) -> AttentionRequest {
    AttentionRequest::View(AttentionViewParams { source_pane_id: source.map(str::to_owned), view_id: 1, cols, rows })
}

fn snapshot(server: &HeadlessServer) -> String {
    format!("{:?} {:?}", server.app.state.workspaces, server.app.state.terminals)
}

fn is_stale(reply: &AttentionReply) -> bool {
    matches!(reply.result, Err(e) if e.code() == "stale_attention")
}

#[test]
fn attention_queue_and_lease_never_exchange_host_topology_or_focus() {
    let (mut server, pane, source) = attention_fixture();
    connect_test_shell(&mut server, 10);
    connect_test_shell(&mut server, 20);
    let before = snapshot(&server);
    assert!(attention_request(&mut server, 10, view(Some(&source), 50, 12)).result.is_ok());
    assert_eq!(snapshot(&server), before);
    let other = server.app.state.workspaces[2].tabs[0].panes[0].id;
    queue_blocked(&mut server, other);
    assert_eq!(client(&server, 10).attention_view.as_ref().unwrap().source_pane_id, source);
    assert!(client(&server, 20).attention_view.is_none());
    assert_eq!(server.app.find_pane(pane).unwrap().0, 0);
    assert!(attention_request(&mut server, 10, view(None, 0, 0)).result.is_ok());
    assert!(server.app.state.attention_target(pane).is_some(), "close is not acknowledgement");
    assert!(server.app.state.assert_attention_dock_invariants_for_test());
}

#[test]
fn attention_stale_and_legacy_requests_cannot_dismiss_another_source() {
    let (mut server, pane, source) = attention_fixture();
    connect_test_shell(&mut server, 10);
    for request in [AttentionRequest::Open, AttentionRequest::Dismiss, view(Some("missing:p1"), 50, 12)] {
        assert!(is_stale(&attention_request(&mut server, 10, request)));
    }
    attention_request(&mut server, 10, view(Some(&source), 50, 12));
    let ack = AttentionRequest::Acknowledge { source_pane_id: source.clone() };
    assert!(attention_request(&mut server, 10, ack).result.is_ok());
    assert!(client(&server, 10).attention_view.is_none());
    assert!(server.app.state.attention_target(pane).is_none());
    let other = server.app.state.workspaces[2].tabs[0].panes[0].id;
    queue_blocked(&mut server, other);
    let again = AttentionRequest::Acknowledge { source_pane_id: source };
    assert!(is_stale(&attention_request(&mut server, 10, again)));
    assert!(server.app.state.attention_target(other).is_some());
}

#[test]
fn attention_jump_is_client_local_and_deactivation_retires_lease() {
    let (mut server, pane, source) = attention_fixture();
    connect_test_shell(&mut server, 10);
    connect_test_shell(&mut server, 20);
    let peer = server.clients.iter().position(|c| c.id == 20).unwrap();
    server.clients[peer].shell_location =
        Some(ShellLocation { workspace_id: "host".into(), tab_number: 1, pane_id: 2 });
    let peer_focus = format!("{:?}", client(&server, 20).shell_location);
    attention_request(&mut server, 10, view(Some(&source), 50, 12));
    let i = server.clients.iter().position(|c| c.id == 10).unwrap();
    server.clients[i].active_shell = false;
    server.reconcile_attention_views(&mut vec![]);
    assert!(client(&server, 10).attention_view.is_none());
    assert!(!server.attention_view_matches(10, &source));
    server.clients[i].active_shell = true;
    let reply = attention_request(&mut server, 10, AttentionRequest::Jump { source_pane_id: source });
    assert!(reply.result.is_ok());
    assert_eq!(reply.jump.unwrap().pane_id, pane);
    let focus = client(&server, 10).shell_location.as_ref().unwrap();
    assert_eq!((focus.workspace_id.as_str(), focus.tab_number, focus.pane_id), ("source", 1, pane));
    assert_eq!(format!("{:?}", client(&server, 20).shell_location), peer_focus);
    assert!(matches!(server.tab_focus.as_slice(), [f] if f.workspace_id == "source" && f.tab_number == 1 && f.pane_id == pane));
    assert!(client(&server, 10).attention_view.is_none());
    assert!(client(&server, 20).attention_view.is_none());
    assert!(server.app.state.attention_target(pane).is_some());
}

#[test]
fn attention_handoff_capture_preserves_queue_and_canonical_topology() {
    let (server, pane, source) = attention_fixture();
    let before = snapshot(&server);
    let queue = server.app.state.attention_entries();
    let handoff = server.app.attention_handoff_state();
    assert_eq!(handoff.queue.len(), 1);
    assert_eq!(handoff.queue[0].source_pane_id, source);
    assert_eq!(server.app.state.attention_entries(), queue);
    assert_eq!(snapshot(&server), before);
    assert_eq!(server.app.state.attention_target(pane).unwrap().public_pane_id, source);
}

#[test]
fn attention_debounce_timer_enqueues_without_moving_source() {
    let (mut server, pane, _) = attention_fixture();
    server.app.state.remove_attention_entry(pane);
    server.app.state.observe_attention_transition(pane, AgentState::Working, AgentState::Blocked, true, NOW);
    let deadline = server.app.state.next_attention_deadline().unwrap();
    assert!(server.app.state.attention_entries().is_empty());
    server.app.state.reconcile_due_attention(deadline);
    assert_eq!(server.app.state.attention_entries().len(), 1);
    assert_eq!(server.app.find_pane(pane).unwrap().0, 0);
    assert!(server.app.state.assert_attention_dock_invariants_for_test());
}

#[test]
fn leases_are_clamped_and_refused_outside_bounds() {
    let (mut server, _, source) = attention_fixture();
    connect_test_shell(&mut server, 10);
    for (cols, rows) in [(0, 5), (5, 0), (1001, 5), (5, 1001)] {
        let reply = attention_request(&mut server, 10, view(Some(&source), cols, rows));
        assert_eq!(reply.result, Err(AttentionError::StaleView));
        assert_eq!(reply.result.unwrap_err().message(), "attention target or dimensions are stale");
    }
    assert!(attention_request(&mut server, 10, view(Some(&source), 1, 1)).result.is_ok());
    let lease = client(&server, 10).attention_view.as_ref().unwrap();
    assert_eq!((lease.cols, lease.rows, lease.terminal_id), (4, 2, 101));
    let again = attention_request(&mut server, 10, view(Some(&source), 1, 1));
    assert!(again.result.is_ok());
    assert!(!again.changed);
}

#[test]
fn inactive_clients_and_handoffs_are_refused() {
    let (mut server, _, source) = attention_fixture();
    let reply = attention_request(&mut server, 99, view(Some(&source), 50, 12));
    assert_eq!(reply.result, Err(AttentionError::InactiveConnection));
    connect_test_shell(&mut server, 10);
    server.handoff_in_progress = true;
    let reply = attention_request(&mut server, 10, view(Some(&source), 50, 12));
    assert_eq!(reply.result.unwrap_err().message(), "attention view requires an active connection");
}

#[test]
fn ending_a_lease_releases_held_keys_where_they_went() {
    let (mut server, _, source) = attention_fixture();
    connect_test_shell(&mut server, 10);
    attention_request(&mut server, 10, view(Some(&source), 50, 12));
    let i = server.clients.iter().position(|c| c.id == 10).unwrap();
    server.clients[i].held_inputs = vec![
        HeldShellInput { target: source.clone(), key: 7 },
        HeldShellInput { target: "host:p1".into(), key: 8 },
    ];
    let mut releases = vec![];
    assert!(server.clear_attention_view(10, &mut releases));
    assert!(matches!(releases.as_slice(), [
        InputRelease::Terminal { terminal_id: 101, key: 7 },
        InputRelease::Host { target, key: 8 },
    ] if target == "host:p1"));
    assert!(client(&server, 10).held_inputs.is_empty());
    assert!(!server.clear_attention_view(10, &mut releases));
}

fn leased_surface(view_id: u64) -> EndpointAttentionSurface {
    EndpointAttentionSurface {
        boot_id: "boot".into(),
        view_id,
        source_pane_id: "source:p1".into(),
        surface: PopupSurface {
            terminal_id: "101".into(),
            title: "source:p1".into(),
            width: None,
            height: None,
            frame: FrameData {
                width: 2,
                height: 1,
                cells: vec![Cell { symbol: "a".into(), style: 0, hyperlink: None }; 2],
                cursor: None,
                hyperlinks: vec![],
            },
            mouse_reporting: false,
            sgr_pixel_mouse: false,
            pixel_width: 0,
            pixel_height: 0,
        },
    }
}

#[test]
fn one_hidden_owner_resizes_and_unchanged_surfaces_are_deduped() {
    let (mut server, _, source) = attention_fixture();
    connect_test_shell(&mut server, 20);
    connect_test_shell(&mut server, 10);
    attention_request(&mut server, 20, view(Some(&source), 40, 10));
    attention_request(&mut server, 10, view(Some(&source), 50, 12));
    let plan = server.attention_stream_plan(false, &mut vec![]);
    assert_eq!(plan.iter().map(|i| (i.client_id, i.owner)).collect::<Vec<_>>(), vec![(10, true), (20, false)]);
    assert!(should_resize_attention(false, false, plan[0].owner, (30, 100), &plan[0].lease));
    assert!(!should_resize_attention(false, false, plan[1].owner, (30, 100), &plan[1].lease));
    assert!(!should_resize_attention(true, false, plan[0].owner, (30, 100), &plan[0].lease));
    assert!(!should_resize_attention(false, false, plan[0].owner, (12, 50), &plan[0].lease));
    assert!(server.attention_stream_plan(true, &mut vec![]).is_empty());

    assert!(!server.note_unchanged_attention_surface(10, &leased_surface(1)));
    assert!(!server.record_attention_send(10, leased_surface(1), SendOutcome::Full));
    assert!(client(&server, 10).attention_render_pending);
    assert!(!server.record_attention_send(10, leased_surface(1), SendOutcome::Sent));
    assert!(!client(&server, 10).attention_render_pending);
    assert!(server.note_unchanged_attention_surface(10, &leased_surface(1)));
    assert!(!server.note_unchanged_attention_surface(10, &leased_surface(2)));
    assert!(server.record_attention_send(10, leased_surface(2), SendOutcome::Disconnected));
}
