use herdr_attention::frame::{Cell, CursorState, FrameData, Rect};
use herdr_attention::shell::{
    AttentionAction, AttentionMethod, AttentionWidget, ClientEndpointId, ClientEndpointStatus,
    ClientShellEndpoint, ClientShellInput, ClientShellState, EndpointAttentionEntry,
    EndpointAttentionKind, EndpointAttentionSurface, KeyInput, KeyKind, MouseButton, MouseInput,
    MouseKind, PaneInputEvent, PopupGeometry, PopupSurface, RawInputEvent, RowMark,
};

fn entry(id: &str, kind: EndpointAttentionKind) -> EndpointAttentionEntry {
    EndpointAttentionEntry {
        pane_id: id.into(),
        source_workspace_id: "source-workspace".into(),
        source_tab_id: "source-tab".into(),
        title: id.into(),
        kind,
    }
}

/// The sidebar of a 120x40 layout.
fn sidebar() -> Rect {
    Rect::new(0, 0, 26, 40)
}

fn state() -> ClientShellState {
    let mut state = ClientShellState {
        attention_widget: AttentionWidget::new(),
        active_endpoint_id: ClientEndpointId::Local,
        endpoints: vec![ClientShellEndpoint {
            endpoint_id: ClientEndpointId::Local,
            status: ClientEndpointStatus::Online,
            methods: Some(
                ["attention.view", "attention.acknowledge", "attention.jump"]
                    .map(str::to_owned)
                    .to_vec(),
            ),
        }],
        snapshot_boot_id: Some("boot-1".into()),
        popup_geometry: Some(PopupGeometry {
            outer: Rect::new(20, 3, 80, 34),
            inner: Rect::new(21, 4, 78, 32),
        }),
        held_keys: vec![],
        host_popup_open: false,
        mouse_scroll_lines: 3,
        copy_mode: true,
        copy_pipeline_pending: true,
        selection: true,
        terminal_mode: false,
    };
    state.set_attention_queue(&ClientEndpointId::Local, vec![entry("source-a", EndpointAttentionKind::Done)]);
    state.attention_widget.row = state.render_attention_row(sidebar(), false).unwrap().rect;
    state
}

fn mouse(kind: MouseKind, column: u16, row: u16) -> RawInputEvent {
    RawInputEvent::Mouse(MouseInput { kind, column, row, modifiers: 0 })
}

fn handle(state: &mut ClientShellState, events: Vec<RawInputEvent>) -> ClientShellInput {
    let mut outcome = ClientShellInput::new();
    for event in events {
        state.handle_attention_input(&event, &mut outcome);
    }
    outcome
}

fn open(state: &mut ClientShellState) -> ClientShellInput {
    let row = state.attention_widget.row;
    handle(state, vec![mouse(MouseKind::Down(MouseButton::Left), row.x, row.y)])
}

fn blank_frame(width: u16, height: u16) -> FrameData {
    let cell = Cell { symbol: " ".into(), style: 0, hyperlink: None };
    FrameData {
        width,
        height,
        cells: vec![cell; width as usize * height as usize],
        cursor: None,
        hyperlinks: vec![],
    }
}

fn surface(state: &ClientShellState, id: &str) -> EndpointAttentionSurface {
    let mut frame = blank_frame(180, 80);
    frame.cells[75 * 180 + 175].symbol = "P".into();
    frame.cursor = Some(CursorState { x: 175, y: 75, visible: true, shape: 2 });
    EndpointAttentionSurface {
        boot_id: "boot-1".into(),
        view_id: state.attention_view_id(),
        source_pane_id: id.into(),
        surface: PopupSurface {
            terminal_id: "not-the-pane-id".into(),
            title: "agent".into(),
            width: None,
            height: None,
            frame,
            mouse_reporting: true,
            sgr_pixel_mouse: true,
            pixel_width: 1800,
            pixel_height: 1600,
        },
    }
}

fn view_source(method: &AttentionMethod) -> Option<Option<&str>> {
    match method {
        AttentionMethod::View { source_pane_id, .. } => Some(source_pane_id.as_deref()),
        _ => None,
    }
}

fn compose(state: &mut ClientShellState) -> FrameData {
    let mut frame = blank_frame(120, 40);
    state.compose_attention(&mut frame);
    frame
}

#[test]
fn arrivals_never_open_or_replace_selected_identity_and_geometry_stays_fixed() {
    let mut state = state();
    assert!(!state.attention_open());
    let geometry = state.popup_geometry;
    let opened = open(&mut state);
    assert!(matches!(opened.methods.as_slice(), [m] if view_source(m) == Some(Some("source-a"))));
    assert!(opened.repaint);
    assert!(!state.copy_mode && !state.copy_pipeline_pending && !state.selection && state.terminal_mode);
    state.set_attention_queue(
        &ClientEndpointId::Local,
        vec![
            entry("source-b", EndpointAttentionKind::Blocked),
            entry("source-a", EndpointAttentionKind::Done),
        ],
    );
    assert_eq!(state.attention_selected().map(String::as_str), Some("source-a"));
    let mut update = ClientShellInput::new();
    state.sync_attention_lease(&mut update);
    assert!(update.methods.is_empty());
    assert_eq!(state.popup_geometry, geometry);
    state.attention_action(AttentionAction::Next, &mut update);
    assert_eq!(state.attention_selected().map(String::as_str), Some("source-b"));
    let stale = surface(&state, "source-a");
    assert!(!state.set_attention_surface(&ClientEndpointId::Local, stale));
    let fresh = surface(&state, "source-b");
    assert!(state.set_attention_surface(&ClientEndpointId::Local, fresh));
}

#[test]
fn escape_hides_without_acknowledging_and_held_repeats_cannot_reach_host() {
    let mut state = state();
    open(&mut state);
    let key = KeyInput { key: 'x' as u64, escape: false, kind: KeyKind::Press };
    let typed = handle(&mut state, vec![RawInputEvent::Key(key)]);
    assert!(matches!(typed.requests.as_slice(), [m] if m.pane_id == "source-a"));
    let closed = handle(
        &mut state,
        vec![RawInputEvent::Key(KeyInput { key: 27, escape: true, kind: KeyKind::Press })],
    );
    assert!(!state.attention_open());
    assert!(matches!(closed.methods.as_slice(), [m] if view_source(m) == Some(None)));
    assert_eq!(state.attention_queue().len(), 1);
    let repeated = handle(&mut state, vec![RawInputEvent::Key(KeyInput { kind: KeyKind::Repeat, ..key })]);
    assert!(repeated.requests.is_empty());
}

#[test]
fn mouse_and_paste_target_source_while_native_frame_crop_tracks_cursor() {
    let mut state = state();
    open(&mut state);
    let arrived = surface(&state, "source-a");
    state.set_attention_surface(&ClientEndpointId::Local, arrived);
    let frame = compose(&mut state);
    let cursor = frame.cursor.unwrap();
    assert_eq!(frame.cells[cursor.y as usize * 120 + cursor.x as usize].symbol, "P");
    let click = handle(&mut state, vec![mouse(MouseKind::Down(MouseButton::Left), cursor.x, cursor.y)]);
    assert!(matches!(click.requests.as_slice(), [m] if m.pane_id == "source-a"
        && matches!(m.event, PaneInputEvent::Mouse { column: 175, row: 75, .. })));
    let outside = handle(&mut state, vec![mouse(MouseKind::Down(MouseButton::Left), 119, 39)]);
    assert!(outside.requests.is_empty());
    assert!(outside.methods.is_empty());
    let paste = handle(&mut state, vec![RawInputEvent::Paste("approval".into())]);
    assert!(matches!(paste.requests.as_slice(), [m] if m.pane_id == "source-a"
        && matches!(&m.event, PaneInputEvent::Paste(text) if text == "approval")));
}

#[test]
fn dismiss_and_jump_are_explicit_targeted_actions() {
    for action in [AttentionAction::Dismiss, AttentionAction::Jump] {
        let mut state = state();
        open(&mut state);
        let mut outcome = ClientShellInput::new();
        state.attention_action(action, &mut outcome);
        match action {
            AttentionAction::Dismiss => assert!(matches!(&outcome.methods[0],
                AttentionMethod::Acknowledge { source_pane_id } if source_pane_id == "source-a")),
            AttentionAction::Jump => assert!(matches!(&outcome.methods[0],
                AttentionMethod::Jump { source_pane_id } if source_pane_id == "source-a")),
            _ => unreachable!(),
        }
        assert!(!state.attention_open());
    }
}

#[test]
fn invalidation_and_disconnect_clear_view_without_selecting_another_entry() {
    let mut state = state();
    open(&mut state);
    state.set_attention_queue(&ClientEndpointId::Local, vec![entry("source-b", EndpointAttentionKind::Blocked)]);
    assert!(!state.attention_open());
    let mut outcome = ClientShellInput::new();
    state.sync_attention_lease(&mut outcome);
    assert!(matches!(outcome.methods.as_slice(), [m] if view_source(m) == Some(None)));
    open(&mut state);
    state.mark_endpoint_disconnected(&ClientEndpointId::Local);
    assert!(!state.attention_open());
    assert!(state.attention_queue().is_empty());
    let late = surface(&state, "source-b");
    assert!(!state.set_attention_surface(&ClientEndpointId::Local, late));
}

#[test]
fn reopen_same_source_rejects_old_epoch_and_other_boot() {
    let mut state = state();
    open(&mut state);
    let stale = surface(&state, "source-a");
    state.attention_action(AttentionAction::Close, &mut ClientShellInput::new());
    open(&mut state);
    assert!(!state.set_attention_surface(&ClientEndpointId::Local, stale));
    let mut wrong_boot = surface(&state, "source-a");
    wrong_boot.boot_id = "retired-boot".into();
    assert!(!state.set_attention_surface(&ClientEndpointId::Local, wrong_boot));
    let current = surface(&state, "source-a");
    assert!(state.set_attention_surface(&ClientEndpointId::Local, current));
}

#[test]
fn singleton_navigation_retains_cached_surface_without_requesting_a_new_lease() {
    let mut state = state();
    open(&mut state);
    let arrived = surface(&state, "source-a");
    assert!(state.set_attention_surface(&ClientEndpointId::Local, arrived));
    let cached = format!("{:?}", state.attention_widget.surface);
    let view_id = state.attention_view_id();
    for action in [AttentionAction::Previous, AttentionAction::Next] {
        let mut outcome = ClientShellInput::new();
        state.attention_action(action, &mut outcome);
        assert_eq!(format!("{:?}", state.attention_widget.surface), cached);
        assert_eq!(state.attention_selected().map(String::as_str), Some("source-a"));
        assert_eq!(state.attention_view_id(), view_id);
        assert!(outcome.methods.is_empty());
        assert!(outcome.requests.is_empty());
    }
}

#[test]
fn focus_loss_releases_attention_mouse_at_last_translated_source_position() {
    let mut state = state();
    open(&mut state);
    let arrived = surface(&state, "source-a");
    assert!(state.set_attention_surface(&ClientEndpointId::Local, arrived));
    let frame = compose(&mut state);
    let cursor = frame.cursor.unwrap();
    handle(
        &mut state,
        vec![
            mouse(MouseKind::Down(MouseButton::Left), cursor.x, cursor.y),
            mouse(MouseKind::Drag(MouseButton::Left), cursor.x - 2, cursor.y - 1),
        ],
    );
    // Reprojection must not change the coordinates of the outstanding native gesture.
    state.attention_widget.offset = (0, 0);
    let lost = handle(&mut state, vec![RawInputEvent::OuterFocusLost]);
    assert!(matches!(lost.requests.as_slice(), [m] if m.pane_id == "source-a"
        && matches!(m.event, PaneInputEvent::Mouse {
            kind: MouseKind::Up(MouseButton::Left), column: 173, row: 74, ..
        })));
    assert!(state.attention_widget.mouse_down.is_none());
    assert!(state.attention_open());
    let repeated = handle(&mut state, vec![RawInputEvent::OuterFocusLost]);
    assert!(repeated.requests.is_empty());
}

#[test]
fn row_counts_blocked_and_done_and_hides_without_methods() {
    let mut state = state();
    state.set_attention_queue(
        &ClientEndpointId::Local,
        vec![
            entry("source-b", EndpointAttentionKind::Blocked),
            entry("source-a", EndpointAttentionKind::Done),
            entry("source-c", EndpointAttentionKind::Unknown),
            entry("source-d", EndpointAttentionKind::Blocked),
        ],
    );
    let row = state.render_attention_row(sidebar(), false).unwrap();
    assert_eq!(row.rect, Rect::new(0, 39, 25, 1));
    assert_eq!((row.blocked, row.done), (2, 1));
    let pieces = herdr_attention::shell::attention_row_pieces(&row);
    let text: String = pieces.iter().map(|(t, _)| t.as_str()).collect();
    assert_eq!(text, "Attention ● 2 ● 1");
    assert_eq!(&pieces[1], &("●".to_string(), RowMark::Blocked));
    assert_eq!(&pieces[3], &("●".to_string(), RowMark::Done));
    assert!(pieces.iter().filter(|(_, m)| *m != RowMark::Text).count() == 2);
    assert_eq!(state.attention_queue().len(), 3);
    assert!(state.render_attention_row(sidebar(), true).is_none());
    state.endpoints[0].methods = Some(vec!["attention.view".into()]);
    assert!(state.render_attention_row(sidebar(), false).is_none());
}

#[test]
fn controls_sit_above_the_pane_area() {
    let mut state = state();
    open(&mut state);
    let mut frame = blank_frame(120, 40);
    let chrome = state.compose_attention(&mut frame).unwrap();
    assert_eq!(state.attention_widget.buttons.len(), 5);
    assert!(state.attention_widget.terminal.is_none());
    assert_eq!(chrome.title, "source-a");
    assert_eq!(chrome.inner, Rect::new(21, 5, 78, 31));
    let widths: Vec<(u16, u16)> = chrome.buttons.iter().map(|(r, _)| (r.x, r.width)).collect();
    assert_eq!(widths, vec![(21, 6), (27, 6), (33, 9), (42, 6), (48, 7)]);
    assert!(chrome.buttons.iter().all(|(r, _)| r.y == 4 && r.height == 1));
    assert_eq!(herdr_attention::shell::attention_label(AttentionAction::Dismiss), " Dismiss ");
}

#[test]
fn clicking_close_hides_and_gives_up_the_view() {
    let mut state = state();
    open(&mut state);
    state.compose_attention(&mut blank_frame(120, 40));
    let close = handle(&mut state, vec![mouse(MouseKind::Down(MouseButton::Left), 50, 4)]);
    assert!(!state.attention_open());
    assert!(matches!(close.methods.as_slice(), [m] if view_source(m) == Some(None)));
}

#[test]
fn blit_crops_to_the_bottom_without_a_cursor_and_renumbers_links() {
    let mut source = blank_frame(4, 6);
    source.cells[5 * 4 + 1].symbol = "z".into();
    source.cells[5 * 4 + 1].hyperlink = Some(0);
    source.cells[4 * 4].hyperlink = Some(3);
    source.hyperlinks = vec!["https://example.test".into()];
    let mut target = blank_frame(10, 5);
    target.hyperlinks = vec!["a".into(), "b".into()];
    let (x, y) = herdr_attention::frame::blit_attention_surface(&mut target, &source, Rect::new(2, 1, 8, 3));
    assert_eq!((x, y), (0, 3));
    assert_eq!(target.cells[3 * 10 + 3].symbol, "z");
    assert_eq!(target.cells[3 * 10 + 3].hyperlink, Some(2));
    assert_eq!(target.cells[2 * 10 + 2].hyperlink, None);
    assert_eq!(target.hyperlinks.len(), 3);
    assert!(target.cursor.is_none());
}

#[test]
fn reset_forgets_lease_pending_input_and_row() {
    let mut state = state();
    open(&mut state);
    handle(&mut state, vec![RawInputEvent::Key(KeyInput { key: 'y' as u64, escape: false, kind: KeyKind::Press })]);
    state.reset_attention_projection();
    assert!(!state.attention_open());
    assert!(state.attention_widget.lease.is_none());
    assert!(state.held_keys.is_empty());
    assert!(state.attention_widget.pending_input.is_empty());
    assert_eq!(state.attention_widget.row, Rect::new(0, 0, 0, 0));
    assert_eq!(state.attention_queue().len(), 1);
    state.clear_attention_endpoint(&ClientEndpointId::Local);
    assert!(state.attention_queue().is_empty());
}
