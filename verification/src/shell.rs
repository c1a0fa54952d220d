//! The client's attention widget: a floating view of one queued pane of the active endpoint.
//! The queue belongs to the host; the client only chooses which entry it looks at, leases a
//! view of it, and routes its own input to it.
use crate::frame::{
    blit_attention_surface, blit_fits, blit_window, contains, min16, rect_contains, sat_add16,
    sat_sub16, FrameData, Rect,
};
use crate::seqs::{first_index, lemma_first_index_bounds, lemma_first_index_is, lemma_first_index_none};
use vstd::prelude::*;
use vstd::string::StringExecFns;

verus! {

/// Identifies an endpoint (a host) that the client is attached to.
#[derive(Clone, Copy, PartialEq, Eq, Debug, Structural)]
pub enum ClientEndpointId {
    Local,
    Remote(u64),
}

/// The connection state of an endpoint.
#[derive(Clone, Copy, PartialEq, Eq, Debug, Structural)]
pub enum ClientEndpointStatus {
    Online,
    Connecting,
    Disconnected,
}

/// An endpoint and the API methods it announced, if it announced any.
#[derive(Clone, Debug)]
pub struct ClientShellEndpoint {
    pub endpoint_id: ClientEndpointId,
    pub status: ClientEndpointStatus,
    pub methods: Option<Vec<String>>,
}

/// Why a queued pane asks for attention, as the endpoint reports it.
#[derive(Clone, Copy, PartialEq, Eq, Debug, Structural)]
pub enum EndpointAttentionKind {
    Blocked,
    Done,
    Unknown,
}

/// A queue entry as the endpoint reports it.
#[derive(Clone, Debug)]
pub struct EndpointAttentionEntry {
    pub pane_id: String,
    pub source_workspace_id: String,
    pub source_tab_id: String,
    pub title: String,
    pub kind: EndpointAttentionKind,
}

/// A rendered view of a hidden pane.
#[derive(Clone, Debug)]
pub struct PopupSurface {
    pub terminal_id: String,
    pub title: String,
    pub width: Option<u16>,
    pub height: Option<u16>,
    pub frame: FrameData,
    pub mouse_reporting: bool,
    pub sgr_pixel_mouse: bool,
    pub pixel_width: u16,
    pub pixel_height: u16,
}

/// A surface the endpoint sent for the view `view_id` of `source_pane_id`, during the host
/// boot `boot_id`.
#[derive(Clone, Debug)]
pub struct EndpointAttentionSurface {
    pub boot_id: String,
    pub view_id: u64,
    pub source_pane_id: String,
    pub surface: PopupSurface,
}

/// The abstract value of an [`EndpointAttentionSurface`].
pub struct SurfaceView {
    pub boot_id: Seq<char>,
    pub view_id: u64,
    pub source_pane_id: Seq<char>,
    pub terminal_id: Seq<char>,
    pub title: Seq<char>,
    pub width: Option<u16>,
    pub height: Option<u16>,
    pub frame: crate::frame::FrameView,
    pub mouse_reporting: bool,
    pub sgr_pixel_mouse: bool,
    pub pixel_width: u16,
    pub pixel_height: u16,
}

impl View for EndpointAttentionSurface {
    type V = SurfaceView;

    open spec fn view(&self) -> SurfaceView {
        SurfaceView {
            boot_id: self.boot_id@,
            view_id: self.view_id,
            source_pane_id: self.source_pane_id@,
            terminal_id: self.surface.terminal_id@,
            title: self.surface.title@,
            width: self.surface.width,
            height: self.surface.height,
            frame: self.surface.frame@,
            mouse_reporting: self.surface.mouse_reporting,
            sgr_pixel_mouse: self.surface.sgr_pixel_mouse,
            pixel_width: self.surface.pixel_width,
            pixel_height: self.surface.pixel_height,
        }
    }
}

/// Whether two surfaces are the same.
pub fn same_surface(a: &EndpointAttentionSurface, b: &EndpointAttentionSurface) -> (r: bool)
    ensures
        r == (a@ == b@),
{
    a.boot_id == b.boot_id && a.view_id == b.view_id && a.source_pane_id == b.source_pane_id
        && a.surface.terminal_id == b.surface.terminal_id && a.surface.title == b.surface.title
        && a.surface.width == b.surface.width && a.surface.height == b.surface.height
        && a.surface.mouse_reporting == b.surface.mouse_reporting && a.surface.sgr_pixel_mouse
        == b.surface.sgr_pixel_mouse && a.surface.pixel_width == b.surface.pixel_width
        && a.surface.pixel_height == b.surface.pixel_height && crate::frame::same_frame(
        &a.surface.frame,
        &b.surface.frame,
    )
}

/// The controls of the widget.
#[derive(Clone, Copy, PartialEq, Eq, Debug, Structural)]
pub enum AttentionAction {
    Previous,
    Next,
    Dismiss,
    Jump,
    Close,
}

/// A popup's outer rectangle, border included, and its inner rectangle.
#[derive(Clone, Copy, PartialEq, Eq, Debug, Structural)]
pub struct PopupGeometry {
    pub outer: Rect,
    pub inner: Rect,
}

/// Where the widget shows the pane, and how the pane takes mouse input.
#[derive(Clone, Debug)]
pub struct PaneHit {
    pub rect: Rect,
    pub inner_rect: Rect,
    pub pane_id: String,
    pub mouse_reporting: bool,
    pub sgr_pixel_mouse: bool,
    pub pixel_width: u16,
    pub pixel_height: u16,
}

#[derive(Clone, Copy, PartialEq, Eq, Debug, Structural)]
pub enum MouseButton {
    Left,
    Right,
    Middle,
}

/// Mouse event kinds as panes receive them; `Other` has no pane equivalent.
#[derive(Clone, Copy, PartialEq, Eq, Debug, Structural)]
pub enum MouseKind {
    Down(MouseButton),
    Up(MouseButton),
    Drag(MouseButton),
    Moved,
    ScrollUp,
    ScrollDown,
    Other,
}

#[derive(Clone, Copy, PartialEq, Eq, Debug, Structural)]
pub enum KeyKind {
    Press,
    Repeat,
    Release,
}

/// A key event: `key` identifies the physical key; `escape` marks the Escape key.
#[derive(Clone, Copy, PartialEq, Eq, Debug, Structural)]
pub struct KeyInput {
    pub key: u64,
    pub escape: bool,
    pub kind: KeyKind,
}

#[derive(Clone, Copy, PartialEq, Eq, Debug, Structural)]
pub struct MouseInput {
    pub kind: MouseKind,
    pub column: u16,
    pub row: u16,
    pub modifiers: u8,
}

/// Input from the outer terminal.
#[derive(Clone, Debug)]
pub enum RawInputEvent {
    Mouse(MouseInput),
    Key(KeyInput),
    Text(String),
    Paste(String),
    OuterFocusLost,
    Other,
}

/// An unfinished mouse gesture on the viewed pane, at its last position in pane cells.
#[derive(Clone, Debug)]
pub struct AttentionMouseGesture {
    pub pane_id: String,
    pub button: MouseButton,
    pub column: u16,
    pub row: u16,
    pub modifiers: u8,
}

/// Input for a pane.
#[derive(Clone, Debug)]
pub enum PaneInputEvent {
    Key { key: u64, kind: KeyKind },
    TextCommit(String),
    Paste(String),
    Mouse { kind: MouseKind, column: u16, row: u16, modifiers: u8, lines: u16 },
}

/// Input addressed to a pane by its public identifier.
#[derive(Clone, Debug)]
pub struct PaneInputMessage {
    pub pane_id: String,
    pub event: PaneInputEvent,
}

/// The attention methods the client calls on its endpoint.
#[derive(Clone, Debug)]
pub enum AttentionMethod {
    /// Lease a view of the pane at the given size, or give the lease up (`None`).
    View { source_pane_id: Option<String>, cols: u16, rows: u16, view_id: u64 },
    /// Acknowledge (dismiss) the pane's entry.
    Acknowledge { source_pane_id: String },
    /// Focus the pane in this client.
    Jump { source_pane_id: String },
}

/// What handling input or a widget action produced.
#[derive(Clone, Debug)]
pub struct ClientShellInput {
    pub requests: Vec<PaneInputMessage>,
    pub methods: Vec<AttentionMethod>,
    pub repaint: bool,
}

/// A key held down while its presses went to `target`.
#[derive(Clone, Debug)]
pub struct HeldKey {
    pub key: u64,
    pub target: String,
}

/// The popup's frame, title and controls, for the renderer to draw around the pane's surface.
#[derive(Clone, Debug)]
pub struct AttentionChrome {
    pub outer: Rect,
    pub inner: Rect,
    pub title: String,
    pub buttons: Vec<(Rect, AttentionAction)>,
}

/// The attention row at the bottom of the sidebar and the active queue's counts by kind.
#[derive(Clone, Copy, Debug)]
pub struct AttentionRow {
    pub rect: Rect,
    pub blocked: usize,
    pub done: usize,
}

/// What a piece of the attention row's text marks: plain text, or the bullet drawn in the
/// blocked color, or the one drawn in the done color.
#[derive(Clone, Copy, PartialEq, Eq, Debug, Structural)]
pub enum RowMark {
    Text,
    Blocked,
    Done,
}

/// The attention row's text in pieces: "Attention ", the blocked bullet, the blocked count
/// between spaces, the done bullet, a space and the done count.
pub open spec fn row_pieces_spec(blocked: usize, done: usize) -> Seq<(Seq<char>, RowMark)> {
    seq![
        ("Attention "@, RowMark::Text),
        ("●"@, RowMark::Blocked),
        (" "@ + crate::pane_ids::decimal(blocked as nat) + " "@, RowMark::Text),
        ("●"@, RowMark::Done),
        (" "@ + crate::pane_ids::decimal(done as nat), RowMark::Text),
    ]
}

pub open spec fn piece_view() -> spec_fn((String, RowMark)) -> (Seq<char>, RowMark) {
    |p: (String, RowMark)| (p.0@, p.1)
}

/// The attention row's text in pieces, each with what it marks (see [`row_pieces_spec`]).
pub fn attention_row_pieces(row: &AttentionRow) -> (r: Vec<(String, RowMark)>)
    ensures
        r@.map_values(piece_view()) == row_pieces_spec(row.blocked, row.done),
{
    proof {
        reveal_strlit("Attention ");
        reveal_strlit("●");
        reveal_strlit(" ");
    }
    let mut blocked = String::from_str(" ");
    crate::pane_ids::push_decimal(&mut blocked, row.blocked);
    blocked.append(" ");
    let mut done = String::from_str(" ");
    crate::pane_ids::push_decimal(&mut done, row.done);
    let r = vec![
        (String::from_str("Attention "), RowMark::Text),
        (String::from_str("●"), RowMark::Blocked),
        (blocked, RowMark::Text),
        (String::from_str("●"), RowMark::Done),
        (done, RowMark::Text),
    ];
    assert(r@.map_values(piece_view()) =~= row_pieces_spec(row.blocked, row.done));
    r
}

/// The text of a control.
pub fn attention_label(action: AttentionAction) -> (r: &'static str)
    ensures
        r@ == label_spec(action),
{
    let r = match action {
        AttentionAction::Previous => " Prev ",
        AttentionAction::Next => " Next ",
        AttentionAction::Dismiss => " Dismiss ",
        AttentionAction::Jump => " Jump ",
        AttentionAction::Close => " Close ",
    };
    proof {
        reveal_strlit(" Prev ");
        reveal_strlit(" Next ");
        reveal_strlit(" Dismiss ");
        reveal_strlit(" Jump ");
        reveal_strlit(" Close ");
    }
    r
}

/// The widget's state.
#[derive(Debug)]
pub struct AttentionWidget {
    pub queues: Vec<(ClientEndpointId, Vec<EndpointAttentionEntry>)>,
    pub selected: Option<String>,
    pub surface: Option<PopupSurface>,
    pub lease: Option<(String, u16, u16)>,
    pub view_id: u64,
    pub row: Rect,
    pub terminal: Option<PaneHit>,
    pub buttons: Vec<(Rect, AttentionAction)>,
    pub pending_input: Vec<PaneInputMessage>,
    pub offset: (u16, u16),
    pub mouse_down: Option<AttentionMouseGesture>,
}

/// The client shell state that the widget reads and changes.
#[derive(Debug)]
pub struct ClientShellState {
    pub attention_widget: AttentionWidget,
    pub active_endpoint_id: ClientEndpointId,
    pub endpoints: Vec<ClientShellEndpoint>,
    /// The boot identifier of the active endpoint's last snapshot.
    pub snapshot_boot_id: Option<String>,
    /// The popup geometry (85% of the pane area) of the last composed frame.
    pub popup_geometry: Option<PopupGeometry>,
    pub held_keys: Vec<HeldKey>,
    /// An overlay or a popup of the host is open or pending.
    pub host_popup_open: bool,
    pub mouse_scroll_lines: usize,
    /// Copy mode is engaged.
    pub copy_mode: bool,
    /// A copy of the selection to the clipboard is under way.
    pub copy_pipeline_pending: bool,
    /// A mouse selection is shown.
    pub selection: bool,
    /// The shell is in terminal mode: keys go to panes rather than to the shell's commands.
    pub terminal_mode: bool,
}

/// The method names an endpoint must announce for the widget.
pub open spec fn announces(ms: Seq<String>, name: Seq<char>) -> bool {
    exists|i: int| 0 <= i < ms.len() && (#[trigger] ms[i])@ == name
}

/// The endpoint is online and announced the view, acknowledge and jump methods.
pub open spec fn endpoint_supported(e: ClientShellEndpoint) -> bool {
    &&& e.status == ClientEndpointStatus::Online
    &&& e.methods is Some
    &&& announces(e.methods->0@, "attention.view"@)
    &&& announces(e.methods->0@, "attention.acknowledge"@)
    &&& announces(e.methods->0@, "attention.jump"@)
}

pub open spec fn endpoint_is(id: ClientEndpointId) -> spec_fn(ClientShellEndpoint) -> bool {
    |e: ClientShellEndpoint| e.endpoint_id == id
}

/// The queues by endpoint, each queue by its entries.
pub type QueuesView = Seq<(ClientEndpointId, Seq<EndpointAttentionEntry>)>;

pub open spec fn queue_pair_view() -> spec_fn((ClientEndpointId, Vec<EndpointAttentionEntry>)) -> (
    ClientEndpointId,
    Seq<EndpointAttentionEntry>,
) {
    |q: (ClientEndpointId, Vec<EndpointAttentionEntry>)| (q.0, q.1@)
}

pub open spec fn queues_view(qs: Seq<(ClientEndpointId, Vec<EndpointAttentionEntry>)>) -> QueuesView {
    qs.map_values(queue_pair_view())
}

pub open spec fn queue_for(id: ClientEndpointId) -> spec_fn(
    (ClientEndpointId, Seq<EndpointAttentionEntry>),
) -> bool {
    |q: (ClientEndpointId, Seq<EndpointAttentionEntry>)| q.0 == id
}

pub open spec fn queue_not_for(id: ClientEndpointId) -> spec_fn(
    (ClientEndpointId, Seq<EndpointAttentionEntry>),
) -> bool {
    |q: (ClientEndpointId, Seq<EndpointAttentionEntry>)| q.0 != id
}

/// Position of the endpoint's queue among the widget's queues, or their count.
pub open spec fn queue_slot(qs: QueuesView, id: ClientEndpointId) -> int {
    first_index(qs, queue_for(id))
}

/// The queue last received from the endpoint; empty when none was.
pub open spec fn endpoint_queue(qs: QueuesView, id: ClientEndpointId) -> Seq<EndpointAttentionEntry> {
    let i = queue_slot(qs, id);
    if i < qs.len() {
        qs[i].1
    } else {
        Seq::empty()
    }
}

/// The queues with the endpoint's queue replaced by `q`, or `q` added for it.
pub open spec fn store_queue(qs: QueuesView, id: ClientEndpointId, q: Seq<EndpointAttentionEntry>) -> QueuesView {
    let i = queue_slot(qs, id);
    if i < qs.len() {
        qs.update(i, (id, q))
    } else {
        qs.push((id, q))
    }
}

pub open spec fn known_kind() -> spec_fn(EndpointAttentionEntry) -> bool {
    |e: EndpointAttentionEntry| e.kind != EndpointAttentionKind::Unknown
}

pub open spec fn opt_str(o: Option<String>) -> Option<Seq<char>> {
    match o {
        Some(s) => Some(s@),
        None => None,
    }
}

/// The queue holds an entry for the pane.
pub open spec fn queue_has(q: Seq<EndpointAttentionEntry>, id: Seq<char>) -> bool {
    exists|i: int| 0 <= i < q.len() && (#[trigger] q[i]).pane_id@ == id
}

/// A held key as the key and the pane its presses went to.
pub type HeldView = (u64, Seq<char>);

pub open spec fn held_view() -> spec_fn(HeldKey) -> HeldView {
    |h: HeldKey| (h.key, h.target@)
}

pub open spec fn held_for(id: Seq<char>) -> spec_fn(HeldView) -> bool {
    |h: HeldView| h.1 == id
}

pub open spec fn held_not_for(id: Seq<char>) -> spec_fn(HeldView) -> bool {
    |h: HeldView| h.1 != id
}

/// The abstract value of a [`PaneInputEvent`].
pub enum EventView {
    Key { key: u64, kind: KeyKind },
    TextCommit(Seq<char>),
    Paste(Seq<char>),
    Mouse { kind: MouseKind, column: u16, row: u16, modifiers: u8, lines: u16 },
}

/// The abstract value of a [`PaneInputMessage`].
pub struct MessageView {
    pub pane_id: Seq<char>,
    pub event: EventView,
}

pub open spec fn event_view(e: PaneInputEvent) -> EventView {
    match e {
        PaneInputEvent::Key { key, kind } => EventView::Key { key, kind },
        PaneInputEvent::TextCommit(t) => EventView::TextCommit(t@),
        PaneInputEvent::Paste(t) => EventView::Paste(t@),
        PaneInputEvent::Mouse { kind, column, row, modifiers, lines } => EventView::Mouse {
            kind,
            column,
            row,
            modifiers,
            lines,
        },
    }
}

pub open spec fn message_view() -> spec_fn(PaneInputMessage) -> MessageView {
    |m: PaneInputMessage| MessageView { pane_id: m.pane_id@, event: event_view(m.event) }
}

/// The release message for a held key.
pub open spec fn release_of() -> spec_fn(HeldView) -> MessageView {
    |h: HeldView| MessageView { pane_id: h.1, event: EventView::Key { key: h.0, kind: KeyKind::Release } }
}

/// The abstract value of an [`AttentionMouseGesture`].
pub struct GestureView {
    pub pane_id: Seq<char>,
    pub button: MouseButton,
    pub column: u16,
    pub row: u16,
    pub modifiers: u8,
}

pub open spec fn gesture_view(g: Option<AttentionMouseGesture>) -> Option<GestureView> {
    match g {
        Some(g) => Some(
            GestureView {
                pane_id: g.pane_id@,
                button: g.button,
                column: g.column,
                row: g.row,
                modifiers: g.modifiers,
            },
        ),
        None => None,
    }
}

/// The abstract value of a [`PaneHit`].
pub struct PaneHitView {
    pub rect: Rect,
    pub inner_rect: Rect,
    pub pane_id: Seq<char>,
    pub mouse_reporting: bool,
    pub sgr_pixel_mouse: bool,
    pub pixel_width: u16,
    pub pixel_height: u16,
}

pub open spec fn hit_view(h: Option<PaneHit>) -> Option<PaneHitView> {
    match h {
        Some(h) => Some(
            PaneHitView {
                rect: h.rect,
                inner_rect: h.inner_rect,
                pane_id: h.pane_id@,
                mouse_reporting: h.mouse_reporting,
                sgr_pixel_mouse: h.sgr_pixel_mouse,
                pixel_width: h.pixel_width,
                pixel_height: h.pixel_height,
            },
        ),
        None => None,
    }
}

/// The popup geometry with the top inner row given to the controls, if anything is left.
pub open spec fn attention_geometry_spec(g: Option<PopupGeometry>) -> Option<PopupGeometry> {
    match g {
        None => None,
        Some(g) => {
            let h = if g.inner.height == 0 { 0u16 } else { (g.inner.height - 1) as u16 };
            let inner = Rect { y: (g.inner.y + 1) as u16, height: h, ..g.inner };
            if inner.width == 0 || inner.height == 0 {
                None
            } else {
                Some(PopupGeometry { inner, ..g })
            }
        },
    }
}

/// The popup geometry with the top inner row given to the controls, if anything is left.
fn reserve_controls_row(g: Option<PopupGeometry>) -> (r: Option<PopupGeometry>)
    requires
        g matches Some(g) ==> g.inner.y < u16::MAX,
    ensures
        r == attention_geometry_spec(g),
{
    match g {
        None => None,
        Some(g) => {
            let mut geometry = g;
            geometry.inner.y = geometry.inner.y + 1;
            geometry.inner.height = geometry.inner.height.saturating_sub(1);
            if geometry.inner.is_empty() {
                None
            } else {
                Some(geometry)
            }
        },
    }
}

/// Whether `ms` holds `name`.
fn announces_exec(ms: &Vec<String>, name: &str) -> (r: bool)
    ensures
        r == announces(ms@, name@),
{
    let wanted = String::from_str(name);
    let mut i: usize = 0;
    while i < ms.len()
        invariant
            i <= ms@.len(),
            wanted@ == name@,
            forall|j: int| 0 <= j < i ==> (#[trigger] ms@[j])@ != name@,
        decreases ms@.len() - i,
    {
        if ms[i] == wanted {
            assert(ms@[i as int]@ == name@);
            return true;
        }
        i += 1;
    }
    false
}

/// Whether the endpoint is online and announced the methods the widget needs.
pub fn supported(endpoint: &ClientShellEndpoint) -> (r: bool)
    ensures
        r == endpoint_supported(*endpoint),
{
    if endpoint.status != ClientEndpointStatus::Online {
        return false;
    }
    match &endpoint.methods {
        None => false,
        Some(methods) => announces_exec(methods, "attention.view") && announces_exec(
            methods,
            "attention.acknowledge",
        ) && announces_exec(methods, "attention.jump"),
    }
}

/// The abstract value of a [`ClientShellState`].
pub struct ShellView {
    pub queues: QueuesView,
    pub selected: Option<Seq<char>>,
    pub surface: Option<PopupSurface>,
    pub lease: Option<(Seq<char>, u16, u16)>,
    pub view_id: u64,
    pub row: Rect,
    pub terminal: Option<PaneHitView>,
    pub buttons: Seq<(Rect, AttentionAction)>,
    pub pending_input: Seq<MessageView>,
    pub offset: (u16, u16),
    pub mouse_down: Option<GestureView>,
    pub active: ClientEndpointId,
    pub endpoints: Seq<ClientShellEndpoint>,
    pub snapshot_boot_id: Option<Seq<char>>,
    pub popup_geometry: Option<PopupGeometry>,
    pub held_keys: Seq<HeldView>,
    pub host_popup_open: bool,
    pub mouse_scroll_lines: usize,
    /// Copy mode is engaged.
    pub copy_mode: bool,
    /// A copy of the selection to the clipboard is under way.
    pub copy_pipeline_pending: bool,
    /// A mouse selection is shown.
    pub selection: bool,
    /// The shell is in terminal mode: keys go to panes rather than to the shell's commands.
    pub terminal_mode: bool,
}

pub open spec fn lease_view(l: Option<(String, u16, u16)>) -> Option<(Seq<char>, u16, u16)> {
    match l {
        Some(l) => Some((l.0@, l.1, l.2)),
        None => None,
    }
}

impl View for ClientShellState {
    type V = ShellView;

    open spec fn view(&self) -> ShellView {
        ShellView {
            queues: queues_view(self.attention_widget.queues@),
            selected: opt_str(self.attention_widget.selected),
            surface: self.attention_widget.surface,
            lease: lease_view(self.attention_widget.lease),
            view_id: self.attention_widget.view_id,
            row: self.attention_widget.row,
            terminal: hit_view(self.attention_widget.terminal),
            buttons: self.attention_widget.buttons@,
            pending_input: self.attention_widget.pending_input@.map_values(message_view()),
            offset: self.attention_widget.offset,
            mouse_down: gesture_view(self.attention_widget.mouse_down),
            active: self.active_endpoint_id,
            endpoints: self.endpoints@,
            snapshot_boot_id: opt_str(self.snapshot_boot_id),
            popup_geometry: self.popup_geometry,
            held_keys: self.held_keys@.map_values(held_view()),
            host_popup_open: self.host_popup_open,
            mouse_scroll_lines: self.mouse_scroll_lines,
            copy_mode: self.copy_mode,
            copy_pipeline_pending: self.copy_pipeline_pending,
            selection: self.selection,
            terminal_mode: self.terminal_mode,
        }
    }
}

/// The abstract value of an [`AttentionMethod`].
pub enum MethodView {
    View { source_pane_id: Option<Seq<char>>, cols: u16, rows: u16, view_id: u64 },
    Acknowledge { source_pane_id: Seq<char> },
    Jump { source_pane_id: Seq<char> },
}

pub open spec fn method_view() -> spec_fn(AttentionMethod) -> MethodView {
    |m: AttentionMethod|
        match m {
            AttentionMethod::View { source_pane_id, cols, rows, view_id } => MethodView::View {
                source_pane_id: opt_str(source_pane_id),
                cols,
                rows,
                view_id,
            },
            AttentionMethod::Acknowledge { source_pane_id } => MethodView::Acknowledge {
                source_pane_id: source_pane_id@,
            },
            AttentionMethod::Jump { source_pane_id } => MethodView::Jump {
                source_pane_id: source_pane_id@,
            },
        }
}

/// The abstract value of a [`ClientShellInput`].
pub struct OutcomeView {
    pub requests: Seq<MessageView>,
    pub methods: Seq<MethodView>,
    pub repaint: bool,
}

impl View for ClientShellInput {
    type V = OutcomeView;

    open spec fn view(&self) -> OutcomeView {
        OutcomeView {
            requests: self.requests@.map_values(message_view()),
            methods: self.methods@.map_values(method_view()),
            repaint: self.repaint,
        }
    }
}

pub open spec fn supported_v(s: ShellView) -> bool {
    let i = first_index(s.endpoints, endpoint_is(s.active));
    i < s.endpoints.len() && endpoint_supported(s.endpoints[i])
}

pub open spec fn active_queue_v(s: ShellView) -> Seq<EndpointAttentionEntry> {
    endpoint_queue(s.queues, s.active)
}

/// The widget closed: nothing selected or shown, and keys held on the closed pane released.
pub open spec fn hide_v(s: ShellView) -> ShellView {
    let base = ShellView {
        selected: None,
        surface: None,
        terminal: None,
        buttons: Seq::empty(),
        mouse_down: None,
        ..s
    };
    match s.selected {
        Some(id) => ShellView {
            held_keys: s.held_keys.filter(held_not_for(id)),
            pending_input: s.pending_input + s.held_keys.filter(held_for(id)).map_values(
                release_of(),
            ),
            ..base
        },
        None => base,
    }
}

/// The lease the widget wants: the selected pane at the size of the view area.
pub open spec fn desired_lease(s: ShellView) -> Option<(Seq<char>, u16, u16)> {
    match (s.selected, attention_geometry_spec(s.popup_geometry)) {
        (Some(id), Some(g)) => Some((id, g.inner.width, g.inner.height)),
        _ => None,
    }
}

pub open spec fn sat_inc(v: u64) -> u64 {
    if v == u64::MAX {
        v
    } else {
        (v + 1) as u64
    }
}

/// Pending pane input is handed over; then, when the endpoint cannot serve the widget, it is
/// closed and its lease forgotten, and otherwise a changed desired lease is requested under a
/// new view identifier.
pub open spec fn sync_v(s: ShellView, o: OutcomeView) -> (ShellView, OutcomeView) {
    let o1 = OutcomeView { requests: o.requests + s.pending_input, ..o };
    let s1 = ShellView { pending_input: Seq::empty(), ..s };
    if !supported_v(s1) {
        (ShellView { lease: None, ..hide_v(s1) }, o1)
    } else {
        let d = desired_lease(s1);
        if d == s1.lease {
            (s1, o1)
        } else {
            let vid = sat_inc(s1.view_id);
            let m = MethodView::View {
                source_pane_id: match d {
                    Some(x) => Some(x.0),
                    None => None,
                },
                cols: match d {
                    Some(x) => x.1,
                    None => 1,
                },
                rows: match d {
                    Some(x) => x.2,
                    None => 1,
                },
                view_id: vid,
            };
            (
                ShellView { view_id: vid, lease: d, ..s1 },
                OutcomeView { methods: o1.methods.push(m), repaint: true, ..o1 },
            )
        }
    }
}

/// The end of every widget action: synchronize the lease and repaint.
pub open spec fn finish_v(s: ShellView, o: OutcomeView) -> (ShellView, OutcomeView) {
    let (s2, o2) = sync_v(s, o);
    (s2, OutcomeView { repaint: true, ..o2 })
}

pub open spec fn entry_named(id: Seq<char>) -> spec_fn(EndpointAttentionEntry) -> bool {
    |e: EndpointAttentionEntry| e.pane_id@ == id
}

/// The effect of a widget action.
pub open spec fn action_v(s: ShellView, o: OutcomeView, action: AttentionAction) -> (
    ShellView,
    OutcomeView,
) {
    match s.selected {
        None => (s, o),
        Some(id) => match action {
            AttentionAction::Close => finish_v(hide_v(s), o),
            AttentionAction::Dismiss => finish_v(
                hide_v(s),
                OutcomeView {
                    methods: o.methods.push(MethodView::Acknowledge { source_pane_id: id }),
                    ..o
                },
            ),
            AttentionAction::Jump => finish_v(
                hide_v(s),
                OutcomeView { methods: o.methods.push(MethodView::Jump { source_pane_id: id }), ..o },
            ),
            _ => {
                let q = active_queue_v(s);
                let idx = first_index(q, entry_named(id));
                if idx < q.len() {
                    let n = if action == AttentionAction::Next {
                        (idx + 1) % (q.len() as int)
                    } else if idx == 0 {
                        q.len() - 1
                    } else {
                        idx - 1
                    };
                    let nid = q[n].pane_id@;
                    if nid == id {
                        (s, o)
                    } else {
                        finish_v(ShellView { selected: Some(nid), ..hide_v(s) }, o)
                    }
                } else {
                    finish_v(s, o)
                }
            },
        },
    }
}

/// The active endpoint's queue after `set_attention_queue`.
pub open spec fn set_queue_v(s: ShellView, id: ClientEndpointId, q: Seq<EndpointAttentionEntry>) -> ShellView {
    let kept = q.filter(known_kind());
    let s1 = ShellView { queues: store_queue(s.queues, id, kept), ..s };
    if id == s.active && (s.selected matches Some(sel) && !queue_has(kept, sel)) {
        hide_v(s1)
    } else {
        s1
    }
}

/// The endpoint's queue forgotten; for the active endpoint the widget is closed, its lease
/// forgotten and pending pane input dropped.
pub open spec fn clear_endpoint_v(s: ShellView, id: ClientEndpointId) -> ShellView {
    let s1 = ShellView { queues: s.queues.filter(queue_not_for(id)), ..s };
    if id == s.active {
        ShellView { lease: None, pending_input: Seq::empty(), ..hide_v(s1) }
    } else {
        s1
    }
}

/// The surface is taken only for the active endpoint while it serves the widget, from the
/// boot of the last snapshot, for the current view and for the selected pane.
pub open spec fn surface_accepted(s: ShellView, id: ClientEndpointId, surface: EndpointAttentionSurface) -> bool {
    &&& id == s.active
    &&& supported_v(s)
    &&& s.snapshot_boot_id == Some(surface.boot_id@)
    &&& s.view_id == surface.view_id
    &&& s.selected == Some(surface.source_pane_id@)
}

pub open spec fn disconnected_endpoint(id: ClientEndpointId) -> spec_fn(ClientShellEndpoint) -> ClientShellEndpoint {
    |e: ClientShellEndpoint|
        if e.endpoint_id == id {
            ClientShellEndpoint { status: ClientEndpointStatus::Disconnected, ..e }
        } else {
            e
        }
}

/// The widget's invariant: the popup leaves room for the controls row, and the shown pane's
/// area, shifted by the crop offset, stays within the cell coordinate range.
pub open spec fn shell_wf(s: ShellView) -> bool {
    &&& s.popup_geometry matches Some(g) ==> g.inner.y < u16::MAX && g.inner.x < u16::MAX
        && g.inner.x + g.inner.width <= u16::MAX && g.inner.y + g.inner.height <= u16::MAX
    &&& s.terminal matches Some(h) ==> {
        &&& h.inner_rect.x + h.inner_rect.width <= u16::MAX
        &&& h.inner_rect.y + h.inner_rect.height <= u16::MAX
        &&& s.offset.0 + h.inner_rect.width <= u16::MAX
        &&& s.offset.1 + h.inner_rect.height <= u16::MAX
    }
}

pub open spec fn clamp16(v: u16, lo: u16, hi: u16) -> u16 {
    if v < lo {
        lo
    } else if v > hi {
        hi
    } else {
        v
    }
}

/// The configured scroll step, capped to what a pane event carries.
pub open spec fn scroll_lines_v(l: usize) -> u16 {
    if l > u16::MAX {
        u16::MAX
    } else {
        l as u16
    }
}

pub open spec fn button_hit(column: u16, row: u16) -> spec_fn((Rect, AttentionAction)) -> bool {
    |b: (Rect, AttentionAction)| rect_contains(b.0, column, row)
}

pub open spec fn key_is(k: u64) -> spec_fn(HeldView) -> bool {
    |h: HeldView| h.0 == k
}

pub open spec fn key_not(k: u64) -> spec_fn(HeldView) -> bool {
    |h: HeldView| h.0 != k
}

/// A pane message appended to the outcome.
pub open spec fn send_v(o: OutcomeView, id: Seq<char>, e: EventView) -> OutcomeView {
    OutcomeView { requests: o.requests.push(MessageView { pane_id: id, event: e }), ..o }
}

/// A key while the widget shows `id`: a press goes to `id` and the key is held there; a
/// repeat or release goes where the key's press went, and a release ends the hold; a repeat
/// or release of a key not held goes nowhere.
pub open spec fn key_v(s: ShellView, o: OutcomeView, id: Seq<char>, k: KeyInput) -> (ShellView, OutcomeView) {
    match k.kind {
        KeyKind::Press => (
            ShellView { held_keys: s.held_keys.filter(key_not(k.key)).push((k.key, id)), ..s },
            send_v(o, id, EventView::Key { key: k.key, kind: KeyKind::Press }),
        ),
        _ => {
            let i = first_index(s.held_keys, key_is(k.key));
            if i < s.held_keys.len() {
                let held = if k.kind == KeyKind::Release {
                    s.held_keys.remove(i)
                } else {
                    s.held_keys
                };
                (
                    ShellView { held_keys: held, ..s },
                    send_v(o, s.held_keys[i].1, EventView::Key { key: k.key, kind: k.kind }),
                )
            } else {
                (s, o)
            }
        },
    }
}

/// A mouse event for the shown pane `id`: inside its area, or ending or dragging a gesture
/// begun there, it reaches a pane that reports the mouse at the pane cell under the pointer
/// (clamped to the area and shifted by the crop offset); a press starts a gesture, a release
/// ends it, and other events move it.
pub open spec fn pane_mouse_v(s: ShellView, o: OutcomeView, id: Seq<char>, m: MouseInput) -> (ShellView, OutcomeView) {
    match s.terminal {
        Some(hit) => {
            let r = hit.inner_rect;
            if !(r.width == 0 || r.height == 0) && (rect_contains(r, m.column, m.row) || (
            s.mouse_down is Some && (m.kind is Up || m.kind is Drag))) && hit.mouse_reporting
                && m.kind != MouseKind::Other {
                let column = (clamp16(m.column, r.x, sat_sub16(sat_add16(r.x, r.width), 1)) - r.x
                    + s.offset.0) as u16;
                let row = (clamp16(m.row, r.y, sat_sub16(sat_add16(r.y, r.height), 1)) - r.y
                    + s.offset.1) as u16;
                let md = match m.kind {
                    MouseKind::Down(b) => Some(
                        GestureView { pane_id: id, button: b, column, row, modifiers: m.modifiers },
                    ),
                    MouseKind::Up(_) => None,
                    _ => match s.mouse_down {
                        Some(g) => Some(GestureView { column, row, modifiers: m.modifiers, ..g }),
                        None => None,
                    },
                };
                (
                    ShellView { mouse_down: md, ..s },
                    send_v(
                        o,
                        id,
                        EventView::Mouse {
                            kind: m.kind,
                            column,
                            row,
                            modifiers: m.modifiers,
                            lines: scroll_lines_v(s.mouse_scroll_lines),
                        },
                    ),
                )
            } else {
                (s, o)
            }
        },
        None => (s, o),
    }
}

/// Opening from the attention row: the host's held keys are released, copy mode, any copy
/// under way and the selection end, the shell goes to terminal mode, and the first entry of
/// the active queue is shown, if there is one.
pub open spec fn open_v(s: ShellView, o: OutcomeView) -> (ShellView, OutcomeView) {
    let q = active_queue_v(s);
    (
        ShellView {
            held_keys: Seq::empty(),
            copy_mode: false,
            copy_pipeline_pending: false,
            selection: false,
            terminal_mode: true,
            selected: if q.len() > 0 {
                Some(q[0].pane_id@)
            } else {
                None
            },
            ..s
        },
        OutcomeView { requests: o.requests + s.held_keys.map_values(release_of()), ..o },
    )
}

/// What the widget does with an input event, and whether it consumed it.
pub open spec fn input_v(s: ShellView, o: OutcomeView, ev: RawInputEvent) -> (ShellView, OutcomeView, bool) {
    let o1 = OutcomeView { requests: o.requests + s.pending_input, ..o };
    let s1 = ShellView { pending_input: Seq::empty(), ..s };
    if !supported_v(s1) {
        (s1, o1, false)
    } else if (ev matches RawInputEvent::Mouse(m) && m.kind == MouseKind::Down(MouseButton::Left)
        && rect_contains(s1.row, m.column, m.row)) {
        let (s2, o2) = if s1.selected is Some {
            (hide_v(s1), o1)
        } else if s1.host_popup_open {
            (s1, o1)
        } else {
            open_v(s1, o1)
        };
        let (s3, o3) = finish_v(s2, o2);
        (s3, o3, true)
    } else {
        match s1.selected {
            None => (s1, o1, false),
            Some(id) => match ev {
                RawInputEvent::OuterFocusLost => match s1.mouse_down {
                    Some(g) => (
                        ShellView { mouse_down: None, ..s1 },
                        send_v(
                            o1,
                            g.pane_id,
                            EventView::Mouse {
                                kind: MouseKind::Up(g.button),
                                column: g.column,
                                row: g.row,
                                modifiers: g.modifiers,
                                lines: scroll_lines_v(s1.mouse_scroll_lines),
                            },
                        ),
                        false,
                    ),
                    None => (s1, o1, false),
                },
                RawInputEvent::Key(k) => if k.escape {
                    if k.kind == KeyKind::Press {
                        let (s2, o2) = action_v(s1, o1, AttentionAction::Close);
                        (s2, o2, true)
                    } else {
                        (s1, o1, true)
                    }
                } else {
                    let (s2, o2) = key_v(s1, o1, id, k);
                    (s2, o2, true)
                },
                RawInputEvent::Text(t) => (s1, send_v(o1, id, EventView::TextCommit(t@)), true),
                RawInputEvent::Paste(t) => (s1, send_v(o1, id, EventView::Paste(t@)), true),
                RawInputEvent::Mouse(m) => {
                    let bi = first_index(s1.buttons, button_hit(m.column, m.row));
                    if m.kind == MouseKind::Down(MouseButton::Left) && bi < s1.buttons.len() {
                        let (s2, o2) = action_v(s1, o1, s1.buttons[bi].1);
                        (s2, o2, true)
                    } else {
                        let (s2, o2) = pane_mouse_v(s1, o1, id, m);
                        (s2, o2, true)
                    }
                },
                RawInputEvent::Other => (s1, o1, false),
            },
        }
    }
}

/// The text of a control.
pub open spec fn label_spec(a: AttentionAction) -> Seq<char> {
    match a {
        AttentionAction::Previous => " Prev "@,
        AttentionAction::Next => " Next "@,
        AttentionAction::Dismiss => " Dismiss "@,
        AttentionAction::Jump => " Jump "@,
        AttentionAction::Close => " Close "@,
    }
}

/// The width of a control placed at column `x`: its label, cut to end before the popup's
/// right border.
pub open spec fn button_width(len: u16, x: u16, right: u16) -> u16 {
    min16(len, sat_sub16(right, (x + 1) as u16))
}

/// The controls, left to right from the inner area's left column on the row above it.
pub open spec fn controls_layout(outer: Rect, inner: Rect) -> Seq<(Rect, AttentionAction)> {
    let right = sat_add16(outer.x, outer.width);
    let y = (inner.y - 1) as u16;
    let x0 = inner.x;
    let w0 = button_width(6, x0, right);
    let x1 = (x0 + w0) as u16;
    let w1 = button_width(6, x1, right);
    let x2 = (x1 + w1) as u16;
    let w2 = button_width(9, x2, right);
    let x3 = (x2 + w2) as u16;
    let w3 = button_width(6, x3, right);
    let x4 = (x3 + w3) as u16;
    let w4 = button_width(7, x4, right);
    seq![
        (Rect { x: x0, y, width: w0, height: 1 }, AttentionAction::Previous),
        (Rect { x: x1, y, width: w1, height: 1 }, AttentionAction::Next),
        (Rect { x: x2, y, width: w2, height: 1 }, AttentionAction::Dismiss),
        (Rect { x: x3, y, width: w3, height: 1 }, AttentionAction::Jump),
        (Rect { x: x4, y, width: w4, height: 1 }, AttentionAction::Close),
    ]
}

/// The title of the shown entry, or "Attention" when the queue lacks it.
pub open spec fn title_spec(q: Seq<EndpointAttentionEntry>, id: Seq<char>) -> Seq<char> {
    let i = first_index(q, entry_named(id));
    if i < q.len() {
        q[i].title@
    } else {
        "Attention"@
    }
}

pub open spec fn kind_is(k: EndpointAttentionKind) -> spec_fn(EndpointAttentionEntry) -> bool {
    |e: EndpointAttentionEntry| e.kind == k
}

/// A copy of the entry.
pub fn copy_entry(e: &EndpointAttentionEntry) -> (r: EndpointAttentionEntry)
    ensures
        r == *e,
{
    EndpointAttentionEntry {
        pane_id: e.pane_id.clone(),
        source_workspace_id: e.source_workspace_id.clone(),
        source_tab_id: e.source_tab_id.clone(),
        title: e.title.clone(),
        kind: e.kind,
    }
}

/// After storing a queue for an endpoint, that endpoint's queue is the stored one.
pub proof fn lemma_store_queue(qs: QueuesView, id: ClientEndpointId, q: Seq<EndpointAttentionEntry>)
    ensures
        endpoint_queue(store_queue(qs, id, q), id) == q,
{
    let i = queue_slot(qs, id);
    lemma_first_index_bounds(qs, queue_for(id));
    let n = store_queue(qs, id, q);
    assert forall|j: int| 0 <= j < i implies !(#[trigger] queue_for(id)(n[j])) by {
        assert(n[j] == qs[j]);
    }
    if i < qs.len() {
        lemma_first_index_is(n, queue_for(id), i);
    } else {
        lemma_first_index_is(n, queue_for(id), qs.len() as int);
    }
}

/// Position of the first entry for the pane `id`, or the queue's length.
fn entry_position(queue: &[EndpointAttentionEntry], id: &String) -> (r: usize)
    ensures
        r == first_index(queue@, entry_named(id@)),
        r <= queue@.len(),
{
    let mut index: usize = 0;
    while index < queue.len()
        invariant
            index <= queue@.len(),
            forall|j: int| 0 <= j < index ==> !(#[trigger] entry_named(id@)(queue@[j])),
        decreases queue@.len() - index,
    {
        if queue[index].pane_id == *id {
            proof {
                lemma_first_index_is(queue@, entry_named(id@), index as int);
            }
            return index;
        }
        index += 1;
    }
    proof {
        lemma_first_index_none(queue@, entry_named(id@));
    }
    index
}

/// `v` clamped to `lo..=hi`.
fn clamp_u16(v: u16, lo: u16, hi: u16) -> (r: u16)
    ensures
        r == clamp16(v, lo, hi),
{
    if v < lo {
        lo
    } else if v > hi {
        hi
    } else {
        v
    }
}

/// Whether two leases are the same.
fn lease_eq(a: &Option<(String, u16, u16)>, b: &Option<(String, u16, u16)>) -> (r: bool)
    ensures
        r == (lease_view(*a) == lease_view(*b)),
{
    match (a, b) {
        (Some(x), Some(y)) => x.0 == y.0 && x.1 == y.1 && x.2 == y.2,
        (None, None) => true,
        _ => false,
    }
}

impl AttentionWidget {
    /// A widget with no queue, nothing shown, no lease and no controls.
    pub fn new() -> (r: AttentionWidget)
        ensures
            r.queues@ == Seq::<(ClientEndpointId, Vec<EndpointAttentionEntry>)>::empty(),
            r.selected is None,
            r.surface is None,
            r.lease is None,
            r.view_id == 0,
            r.row == (Rect { x: 0, y: 0, width: 0, height: 0 }),
            r.terminal is None,
            r.buttons@ == Seq::<(Rect, AttentionAction)>::empty(),
            r.pending_input@ == Seq::<PaneInputMessage>::empty(),
            r.offset == (0u16, 0u16),
            r.mouse_down is None,
    {
        AttentionWidget {
            queues: Vec::new(),
            selected: None,
            surface: None,
            lease: None,
            view_id: 0,
            row: Rect::new(0, 0, 0, 0),
            terminal: None,
            buttons: Vec::new(),
            pending_input: Vec::new(),
            offset: (0, 0),
            mouse_down: None,
        }
    }
}

impl ClientShellInput {
    /// An outcome with nothing in it yet.
    pub fn new() -> (r: ClientShellInput)
        ensures
            r@.requests == Seq::<MessageView>::empty(),
            r@.methods == Seq::<MethodView>::empty(),
            !r.repaint,
    {
        let r = ClientShellInput { requests: Vec::new(), methods: Vec::new(), repaint: false };
        proof {
            assert(r@.requests =~= Seq::<MessageView>::empty());
            assert(r@.methods =~= Seq::<MethodView>::empty());
        }
        r
    }
}

impl ClientShellState {
    /// The state's invariant: the popup geometry leaves room for the controls row.
    pub open spec fn wf(&self) -> bool {
        shell_wf(self@)
    }

    pub open spec fn attention_supported_spec(&self) -> bool {
        let i = first_index(self.endpoints@, endpoint_is(self.active_endpoint_id));
        i < self.endpoints@.len() && endpoint_supported(self.endpoints@[i])
    }

    /// The active endpoint's queue.
    pub open spec fn active_queue(&self) -> Seq<EndpointAttentionEntry> {
        endpoint_queue(queues_view(self.attention_widget.queues@), self.active_endpoint_id)
    }

    /// The popup area for the shown pane: the popup geometry with its top inner row given to
    /// the controls, if any row is left.
    pub fn attention_geometry(&self) -> (r: Option<PopupGeometry>)
        requires
            self.wf(),
        ensures
            r == attention_geometry_spec(self.popup_geometry),
    {
        reserve_controls_row(self.popup_geometry)
    }

    /// Whether the state meets its invariant (see [`shell_wf`]).
    pub fn well_formed(&self) -> (r: bool)
        ensures
            r == self.wf(),
    {
        let geometry_ok = match self.popup_geometry {
            Some(g) => g.inner.y < 65535 && g.inner.x < 65535 && (g.inner.x as u32) + (
            g.inner.width as u32) <= 65535 && (g.inner.y as u32) + (g.inner.height as u32) <= 65535,
            None => true,
        };
        let terminal_ok = match &self.attention_widget.terminal {
            Some(h) => {
                let r = h.inner_rect;
                let (ox, oy) = self.attention_widget.offset;
                (r.x as u32) + (r.width as u32) <= 65535 && (r.y as u32) + (r.height as u32) <= 65535
                    && (ox as u32) + (r.width as u32) <= 65535 && (oy as u32) + (r.height as u32)
                    <= 65535
            },
            None => true,
        };
        geometry_ok && terminal_ok
    }

    /// Whether the widget shows a pane.
    pub fn attention_open(&self) -> (r: bool)
        ensures
            r == self.attention_widget.selected is Some,
    {
        self.attention_widget.selected.is_some()
    }

    /// The pane the widget shows.
    pub fn attention_selected(&self) -> (r: Option<&String>)
        ensures
            r == match self.attention_widget.selected {
                Some(s) => Some(&s),
                None => None::<&String>,
            },
    {
        self.attention_widget.selected.as_ref()
    }

    /// The identifier of the last view lease the widget asked for.
    pub fn attention_view_id(&self) -> (r: u64)
        ensures
            r == self.attention_widget.view_id,
    {
        self.attention_widget.view_id
    }

    /// Whether the active endpoint supports the widget.
    pub fn attention_supported(&self) -> (r: bool)
        ensures
            r == self.attention_supported_spec(),
    {
        let mut i: usize = 0;
        while i < self.endpoints.len()
            invariant
                i <= self.endpoints@.len(),
                forall|j: int| 0 <= j < i ==> !(#[trigger] endpoint_is(self.active_endpoint_id)(
                    self.endpoints@[j],
                )),
            decreases self.endpoints@.len() - i,
        {
            if self.endpoints[i].endpoint_id == self.active_endpoint_id {
                proof {
                    lemma_first_index_is(self.endpoints@, endpoint_is(self.active_endpoint_id), i as int);
                }
                return supported(&self.endpoints[i]);
            }
            i += 1;
        }
        proof {
            lemma_first_index_none(self.endpoints@, endpoint_is(self.active_endpoint_id));
        }
        false
    }

    /// Position of the endpoint's queue among the widget's queues.
    fn queue_position(&self, id: ClientEndpointId) -> (r: usize)
        ensures
            r == queue_slot(queues_view(self.attention_widget.queues@), id),
            r <= self.attention_widget.queues@.len(),
    {
        let qs = &self.attention_widget.queues;
        let mut i: usize = 0;
        while i < qs.len()
            invariant
                i <= qs@.len(),
                qs@ == self.attention_widget.queues@,
                forall|j: int| 0 <= j < i ==> !(#[trigger] queue_for(id)(queues_view(qs@)[j])),
            decreases qs@.len() - i,
        {
            if qs[i].0 == id {
                proof {
                    lemma_first_index_is(queues_view(qs@), queue_for(id), i as int);
                }
                return i;
            }
            i += 1;
        }
        proof {
            lemma_first_index_none(queues_view(qs@), queue_for(id));
        }
        i
    }

    /// Releases the keys held on the pane `id`, queueing their release for the pane.
    fn release_held_for(&mut self, id: &String)
        ensures
            final(self)@ == (ShellView {
                held_keys: old(self)@.held_keys.filter(held_not_for(id@)),
                pending_input: old(self)@.pending_input + old(self)@.held_keys.filter(
                    held_for(id@),
                ).map_values(release_of()),
                ..old(self)@
            }),
    {
        let ghost held = self.held_keys@;
        let ghost hv = held.map_values(held_view());
        let ghost pending = self.attention_widget.pending_input@.map_values(message_view());
        let mut kept: Vec<HeldKey> = Vec::new();
        let mut k: usize = 0;
        while k < self.held_keys.len()
            invariant
                k <= held.len(),
                self.held_keys@ == held,
                hv == held.map_values(held_view()),
                kept@.map_values(held_view()) == hv.take(k as int).filter(held_not_for(id@)),
                self.attention_widget.pending_input@.map_values(message_view()) == pending + hv.take(
                    k as int,
                ).filter(held_for(id@)).map_values(release_of()),
                self.attention_widget.queues == old(self).attention_widget.queues,
                self.attention_widget.selected == old(self).attention_widget.selected,
                self.attention_widget.surface == old(self).attention_widget.surface,
                self.attention_widget.lease == old(self).attention_widget.lease,
                self.attention_widget.view_id == old(self).attention_widget.view_id,
                self.attention_widget.row == old(self).attention_widget.row,
                self.attention_widget.terminal == old(self).attention_widget.terminal,
                self.attention_widget.buttons == old(self).attention_widget.buttons,
                self.attention_widget.offset == old(self).attention_widget.offset,
                self.attention_widget.mouse_down == old(self).attention_widget.mouse_down,
                self.active_endpoint_id == old(self).active_endpoint_id,
                self.endpoints == old(self).endpoints,
                self.snapshot_boot_id == old(self).snapshot_boot_id,
                self.popup_geometry == old(self).popup_geometry,
                self.host_popup_open == old(self).host_popup_open,
                self.mouse_scroll_lines == old(self).mouse_scroll_lines,
                self.copy_mode == old(self).copy_mode,
                self.copy_pipeline_pending == old(self).copy_pipeline_pending,
                self.selection == old(self).selection,
                self.terminal_mode == old(self).terminal_mode,
            decreases held.len() - k,
        {
            proof {
                assert(hv.take(k + 1) =~= hv.take(k as int).push(hv[k as int]));
                hv.take(k as int).lemma_filter_push(hv[k as int], held_not_for(id@));
                hv.take(k as int).lemma_filter_push(hv[k as int], held_for(id@));
            }
            let ghost before = self.attention_widget.pending_input@;
            let ghost kept_before = kept@;
            let key = self.held_keys[k].key;
            let target = self.held_keys[k].target.clone();
            if self.held_keys[k].target == *id {
                let m = PaneInputMessage {
                    pane_id: target,
                    event: PaneInputEvent::Key { key, kind: KeyKind::Release },
                };
                self.attention_widget.pending_input.push(m);
                proof {
                    let f = hv.take(k as int).filter(held_for(id@));
                    assert(f.push(hv[k as int]).map_values(release_of()) =~= f.map_values(
                        release_of(),
                    ).push(release_of()(hv[k as int])));
                    assert(self.attention_widget.pending_input@.map_values(message_view())
                        =~= before.map_values(message_view()).push(message_view()(m)));
                }
            } else {
                let h = HeldKey { key, target };
                kept.push(h);
                proof {
                    assert(kept@.map_values(held_view()) =~= kept_before.map_values(held_view()).push(
                        held_view()(h),
                    ));
                }
            }
            k += 1;
        }
        proof {
            assert(hv.take(held.len() as int) =~= hv);
        }
        self.held_keys = kept;
    }

    /// Closes the widget without acknowledging anything; keys held on the shown pane are
    /// released.
    pub fn hide_attention(&mut self)
        ensures
            final(self)@ == hide_v(old(self)@),
    {
        let selected = self.attention_widget.selected.take();
        match selected {
            Some(id) => {
                self.release_held_for(&id);
            },
            None => {},
        }
        self.attention_widget.surface = None;
        self.attention_widget.terminal = None;
        self.attention_widget.buttons = Vec::new();
        self.attention_widget.mouse_down = None;
    }

    /// Hands pending pane input over, then asks the endpoint for the lease the widget needs
    /// when it differs from the one it holds, under a new view identifier.
    pub fn sync_attention_lease(&mut self, outcome: &mut ClientShellInput)
        requires
            old(self).wf(),
        ensures
            final(self).wf(),
            (final(self)@, final(outcome)@) == sync_v(old(self)@, old(outcome)@),
    {
        outcome.requests.append(&mut self.attention_widget.pending_input);
        proof {
            assert(outcome.requests@.map_values(message_view()) =~= old(outcome).requests@.map_values(
                message_view(),
            ) + old(self).attention_widget.pending_input@.map_values(message_view()));
            assert(self.attention_widget.pending_input@.map_values(message_view()) =~= Seq::empty());
        }
        if !self.attention_supported() {
            self.hide_attention();
            self.attention_widget.lease = None;
            return ;
        }
        let desired: Option<(String, u16, u16)> = match &self.attention_widget.selected {
            Some(id) => match self.attention_geometry() {
                Some(g) => Some((id.clone(), g.inner.width, g.inner.height)),
                None => None,
            },
            None => None,
        };
        if lease_eq(&desired, &self.attention_widget.lease) {
            return ;
        }
        let (source_pane_id, cols, rows) = match &desired {
            Some(d) => (Some(d.0.clone()), d.1, d.2),
            None => (None, 1u16, 1u16),
        };
        self.attention_widget.view_id = self.attention_widget.view_id.saturating_add(1);
        let view_id = self.attention_widget.view_id;
        outcome.methods.push(AttentionMethod::View { source_pane_id, cols, rows, view_id });
        self.attention_widget.lease = desired;
        outcome.repaint = true;
        proof {
            let m = AttentionMethod::View { source_pane_id, cols, rows, view_id };
            assert(outcome.methods@.map_values(method_view()) =~= old(outcome).methods@.map_values(
                method_view(),
            ).push(method_view()(m)));
        }
    }

    /// Performs a control of the widget on the shown pane: close it, acknowledge or jump to
    /// it (each naming the shown pane explicitly), or show the previous or next entry of the
    /// queue; then synchronizes the lease.
    pub fn attention_action(&mut self, action: AttentionAction, outcome: &mut ClientShellInput)
        requires
            old(self).wf(),
        ensures
            final(self).wf(),
            (final(self)@, final(outcome)@) == action_v(old(self)@, old(outcome)@, action),
    {
        let id = match &self.attention_widget.selected {
            Some(id) => id.clone(),
            None => {
                return ;
            },
        };
        match action {
            AttentionAction::Close => {
                self.hide_attention();
            },
            AttentionAction::Previous | AttentionAction::Next => {
                let queue = self.attention_queue();
                let ghost q = self.active_queue();
                let index = entry_position(queue, &id);
                if index < queue.len() {
                    let next = if action == AttentionAction::Next {
                        (index + 1) % queue.len()
                    } else if index == 0 {
                        queue.len() - 1
                    } else {
                        index - 1
                    };
                    let next_id = queue[next].pane_id.clone();
                    if next_id == id {
                        return ;
                    }
                    self.hide_attention();
                    self.attention_widget.selected = Some(next_id);
                }
            },
            AttentionAction::Dismiss | AttentionAction::Jump => {
                let method = if action == AttentionAction::Dismiss {
                    AttentionMethod::Acknowledge { source_pane_id: id }
                } else {
                    AttentionMethod::Jump { source_pane_id: id }
                };
                let ghost m = method;
                outcome.methods.push(method);
                proof {
                    assert(outcome.methods@.map_values(method_view()) =~= old(outcome).methods@.map_values(
                        method_view(),
                    ).push(method_view()(m)));
                }
                self.hide_attention();
            },
        }
        self.sync_attention_lease(outcome);
        outcome.repaint = true;
    }

    /// Stores the endpoint's new queue, dropping entries of unknown kind. When the shown pane
    /// is no longer in the active endpoint's queue the widget closes; no other entry is shown
    /// in its place.
    pub fn set_attention_queue(&mut self, endpoint: &ClientEndpointId, queue: Vec<EndpointAttentionEntry>)
        ensures
            final(self)@ == set_queue_v(old(self)@, *endpoint, queue@),
    {
        let ghost qv0 = queues_view(self.attention_widget.queues@);
        let mut kept: Vec<EndpointAttentionEntry> = Vec::new();
        let mut k: usize = 0;
        while k < queue.len()
            invariant
                k <= queue@.len(),
                kept@ == queue@.take(k as int).filter(known_kind()),
            decreases queue@.len() - k,
        {
            proof {
                assert(queue@.take(k + 1) =~= queue@.take(k as int).push(queue@[k as int]));
                queue@.take(k as int).lemma_filter_push(queue@[k as int], known_kind());
            }
            if queue[k].kind != EndpointAttentionKind::Unknown {
                kept.push(copy_entry(&queue[k]));
            }
            k += 1;
        }
        proof {
            assert(queue@.take(queue@.len() as int) =~= queue@);
        }
        let ghost kept_view = kept@;
        let i = self.queue_position(*endpoint);
        if i < self.attention_widget.queues.len() {
            self.attention_widget.queues.set(i, (*endpoint, kept));
            proof {
                assert(queues_view(self.attention_widget.queues@) =~= qv0.update(
                    i as int,
                    (*endpoint, kept_view),
                ));
            }
        } else {
            self.attention_widget.queues.push((*endpoint, kept));
            proof {
                assert(queues_view(self.attention_widget.queues@) =~= qv0.push((*endpoint, kept_view)));
            }
        }
        proof {
            lemma_store_queue(qv0, *endpoint, kept_view);
        }
        if *endpoint == self.active_endpoint_id {
            let invalid = match &self.attention_widget.selected {
                Some(id) => {
                    let q = self.attention_queue();
                    let index = entry_position(q, id);
                    proof {
                        lemma_first_index_bounds(q@, entry_named(id@));
                        if queue_has(q@, id@) {
                            let j = choose|j: int| 0 <= j < q@.len() && (#[trigger] q@[j]).pane_id@ == id@;
                            assert(entry_named(id@)(q@[j]));
                        }
                    }
                    index >= q.len()
                },
                None => false,
            };
            if invalid {
                self.hide_attention();
            }
        }
    }

    /// Takes a surface for the widget when it is current (see [`surface_accepted`]); a stale
    /// surface is refused and changes nothing.
    pub fn set_attention_surface(&mut self, endpoint: &ClientEndpointId, surface: EndpointAttentionSurface) -> (r: bool)
        ensures
            r == surface_accepted(old(self)@, *endpoint, surface),
            final(self)@ == (if r {
                ShellView { surface: Some(surface.surface), ..old(self)@ }
            } else {
                old(self)@
            }),
    {
        if *endpoint != self.active_endpoint_id || !self.attention_supported() {
            return false;
        }
        match &self.snapshot_boot_id {
            None => {
                return false;
            },
            Some(boot) => {
                if !(*boot == surface.boot_id) {
                    return false;
                }
            },
        }
        if self.attention_widget.view_id != surface.view_id {
            return false;
        }
        match &self.attention_widget.selected {
            None => {
                return false;
            },
            Some(selected) => {
                if !(*selected == surface.source_pane_id) {
                    return false;
                }
            },
        }
        self.attention_widget.surface = Some(surface.surface);
        true
    }

    /// Forgets the endpoint's queue; for the active endpoint the widget also closes, its lease
    /// is forgotten and pending pane input is dropped.
    pub fn clear_attention_endpoint(&mut self, endpoint: &ClientEndpointId)
        ensures
            final(self)@ == clear_endpoint_v(old(self)@, *endpoint),
    {
        let ghost qv0 = queues_view(self.attention_widget.queues@);
        let mut rest: Vec<(ClientEndpointId, Vec<EndpointAttentionEntry>)> = Vec::new();
        std::mem::swap(&mut rest, &mut self.attention_widget.queues);
        let n = rest.len();
        let mut k: usize = 0;
        while rest.len() > 0
            invariant
                k + rest@.len() == n,
                n == qv0.len(),
                queues_view(rest@) == qv0.skip(k as int),
                queues_view(self.attention_widget.queues@) == qv0.take(k as int).filter(
                    queue_not_for(*endpoint),
                ),
                self.attention_widget.selected == old(self).attention_widget.selected,
                self.attention_widget.surface == old(self).attention_widget.surface,
                self.attention_widget.lease == old(self).attention_widget.lease,
                self.attention_widget.view_id == old(self).attention_widget.view_id,
                self.attention_widget.row == old(self).attention_widget.row,
                self.attention_widget.terminal == old(self).attention_widget.terminal,
                self.attention_widget.buttons == old(self).attention_widget.buttons,
                self.attention_widget.pending_input == old(self).attention_widget.pending_input,
                self.attention_widget.offset == old(self).attention_widget.offset,
                self.attention_widget.mouse_down == old(self).attention_widget.mouse_down,
                self.active_endpoint_id == old(self).active_endpoint_id,
                self.endpoints == old(self).endpoints,
                self.snapshot_boot_id == old(self).snapshot_boot_id,
                self.popup_geometry == old(self).popup_geometry,
                self.held_keys == old(self).held_keys,
                self.host_popup_open == old(self).host_popup_open,
                self.mouse_scroll_lines == old(self).mouse_scroll_lines,
                self.copy_mode == old(self).copy_mode,
                self.copy_pipeline_pending == old(self).copy_pipeline_pending,
                self.selection == old(self).selection,
                self.terminal_mode == old(self).terminal_mode,
            decreases rest@.len(),
        {
            let ghost before = queues_view(self.attention_widget.queues@);
            let ghost rb = rest@;
            let item = rest.remove(0);
            proof {
                assert(item == rb[0]);
                assert(queues_view(rb)[0] == qv0.skip(k as int)[0]);
                assert(queue_pair_view()(item) == qv0[k as int]);
                assert(rest@ =~= rb.subrange(1, rb.len() as int));
                assert forall|j: int| 0 <= j < rest@.len() implies #[trigger] queues_view(rest@)[j]
                    == qv0.skip(k + 1)[j] by {
                    assert(rest@[j] == rb[j + 1]);
                    assert(queues_view(rb)[j + 1] == qv0.skip(k as int)[j + 1]);
                }
                assert(queues_view(rest@) =~= qv0.skip(k + 1));
                assert(qv0.take(k + 1) =~= qv0.take(k as int).push(qv0[k as int]));
                qv0.take(k as int).lemma_filter_push(qv0[k as int], queue_not_for(*endpoint));
            }
            if item.0 != *endpoint {
                self.attention_widget.queues.push(item);
                proof {
                    assert(queues_view(self.attention_widget.queues@) =~= before.push(
                        qv0[k as int],
                    ));
                }
            }
            k += 1;
        }
        proof {
            assert(qv0.take(n as int) =~= qv0);
        }
        if *endpoint == self.active_endpoint_id {
            self.hide_attention();
            self.attention_widget.lease = None;
            self.attention_widget.pending_input = Vec::new();
            assert(self.attention_widget.pending_input@.map_values(message_view()) =~= Seq::empty());
        }
    }

    /// Closes the widget and forgets its lease, its pending pane input and its row.
    pub fn reset_attention_projection(&mut self)
        ensures
            final(self)@ == (ShellView {
                lease: None,
                pending_input: Seq::empty(),
                row: Rect { x: 0, y: 0, width: 0, height: 0 },
                ..hide_v(old(self)@)
            }),
    {
        self.hide_attention();
        self.attention_widget.lease = None;
        self.attention_widget.pending_input = Vec::new();
        self.attention_widget.row = Rect::new(0, 0, 0, 0);
        assert(self.attention_widget.pending_input@.map_values(message_view()) =~= Seq::empty());
    }

    /// Marks the endpoint disconnected and forgets its queue.
    pub fn mark_endpoint_disconnected(&mut self, endpoint: &ClientEndpointId)
        ensures
            final(self)@ == clear_endpoint_v(
                ShellView {
                    endpoints: old(self)@.endpoints.map_values(disconnected_endpoint(*endpoint)),
                    ..old(self)@
                },
                *endpoint,
            ),
    {
        let ghost es = self.endpoints@;
        let mut i: usize = 0;
        while i < self.endpoints.len()
            invariant
                i <= es.len(),
                self.endpoints@.len() == es.len(),
                forall|j: int| 0 <= j < i ==> #[trigger] self.endpoints@[j] == disconnected_endpoint(
                    *endpoint,
                )(es[j]),
                forall|j: int| i <= j < es.len() ==> #[trigger] self.endpoints@[j] == es[j],
                self.attention_widget == old(self).attention_widget,
                self.active_endpoint_id == old(self).active_endpoint_id,
                self.snapshot_boot_id == old(self).snapshot_boot_id,
                self.popup_geometry == old(self).popup_geometry,
                self.held_keys == old(self).held_keys,
                self.host_popup_open == old(self).host_popup_open,
                self.mouse_scroll_lines == old(self).mouse_scroll_lines,
                self.copy_mode == old(self).copy_mode,
                self.copy_pipeline_pending == old(self).copy_pipeline_pending,
                self.selection == old(self).selection,
                self.terminal_mode == old(self).terminal_mode,
            decreases es.len() - i,
        {
            if self.endpoints[i].endpoint_id == *endpoint {
                self.endpoints[i].status = ClientEndpointStatus::Disconnected;
            }
            i += 1;
        }
        proof {
            assert(self.endpoints@ =~= es.map_values(disconnected_endpoint(*endpoint)));
        }
        self.clear_attention_endpoint(endpoint);
    }

    /// The configured scroll step, capped to what a pane event carries.
    fn scroll_lines(&self) -> (r: u16)
        ensures
            r == scroll_lines_v(self.mouse_scroll_lines),
    {
        if self.mouse_scroll_lines > 65535 {
            65535
        } else {
            self.mouse_scroll_lines as u16
        }
    }

    /// Releases every held key, sending each release where its press went.
    fn release_all_held(&mut self, outcome: &mut ClientShellInput)
        ensures
            final(self)@ == (ShellView { held_keys: Seq::empty(), ..old(self)@ }),
            final(outcome)@ == (OutcomeView {
                requests: old(outcome)@.requests + old(self)@.held_keys.map_values(release_of()),
                ..old(outcome)@
            }),
    {
        let mut held: Vec<HeldKey> = Vec::new();
        std::mem::swap(&mut held, &mut self.held_keys);
        let ghost hv = held@.map_values(held_view());
        let ghost r0 = outcome.requests@.map_values(message_view());
        let mut k: usize = 0;
        while k < held.len()
            invariant
                k <= held@.len(),
                hv == held@.map_values(held_view()),
                outcome.requests@.map_values(message_view()) == r0 + hv.take(k as int).map_values(
                    release_of(),
                ),
                outcome.methods == old(outcome).methods,
                outcome.repaint == old(outcome).repaint,
            decreases held@.len() - k,
        {
            let ghost before = outcome.requests@;
            let m = PaneInputMessage {
                pane_id: held[k].target.clone(),
                event: PaneInputEvent::Key { key: held[k].key, kind: KeyKind::Release },
            };
            outcome.requests.push(m);
            proof {
                assert(hv.take(k + 1) =~= hv.take(k as int).push(hv[k as int]));
                assert(hv.take(k + 1).map_values(release_of()) =~= hv.take(k as int).map_values(
                    release_of(),
                ).push(release_of()(hv[k as int])));
                assert(outcome.requests@.map_values(message_view()) =~= before.map_values(
                    message_view(),
                ).push(message_view()(m)));
            }
            k += 1;
        }
        proof {
            assert(hv.take(held@.len() as int) =~= hv);
            assert(self.held_keys@.map_values(held_view()) =~= Seq::empty());
        }
    }

    /// Position of the first hold of the key, or the number of holds.
    fn held_position(&self, key: u64) -> (r: usize)
        ensures
            r == first_index(self@.held_keys, key_is(key)),
            r <= self.held_keys@.len(),
    {
        let ghost hv = self@.held_keys;
        let mut i: usize = 0;
        while i < self.held_keys.len()
            invariant
                i <= self.held_keys@.len(),
                hv == self.held_keys@.map_values(held_view()),
                forall|j: int| 0 <= j < i ==> !(#[trigger] key_is(key)(hv[j])),
            decreases self.held_keys@.len() - i,
        {
            if self.held_keys[i].key == key {
                proof {
                    lemma_first_index_is(hv, key_is(key), i as int);
                }
                return i;
            }
            i += 1;
        }
        proof {
            lemma_first_index_none(hv, key_is(key));
        }
        i
    }

    /// Appends a message for the pane `id`.
    fn send(outcome: &mut ClientShellInput, id: String, event: PaneInputEvent)
        ensures
            final(outcome)@ == send_v(old(outcome)@, id@, event_view(event)),
    {
        let m = PaneInputMessage { pane_id: id, event };
        let ghost before = outcome.requests@;
        outcome.requests.push(m);
        proof {
            assert(outcome.requests@.map_values(message_view()) =~= before.map_values(
                message_view(),
            ).push(message_view()(m)));
        }
    }

    /// Routes a key while the widget shows `id` (see [`key_v`]).
    fn route_key(&mut self, id: &String, key: KeyInput, outcome: &mut ClientShellInput)
        ensures
            (final(self)@, final(outcome)@) == key_v(old(self)@, old(outcome)@, id@, key),
    {
        match key.kind {
            KeyKind::Press => {
                let mut held: Vec<HeldKey> = Vec::new();
        std::mem::swap(&mut held, &mut self.held_keys);
                let ghost hv = held@.map_values(held_view());
                let mut kept: Vec<HeldKey> = Vec::new();
                let mut k: usize = 0;
                while k < held.len()
                    invariant
                        k <= held@.len(),
                        hv == held@.map_values(held_view()),
                        kept@.map_values(held_view()) == hv.take(k as int).filter(key_not(key.key)),
                    decreases held@.len() - k,
                {
                    proof {
                        assert(hv.take(k + 1) =~= hv.take(k as int).push(hv[k as int]));
                        hv.take(k as int).lemma_filter_push(hv[k as int], key_not(key.key));
                    }
                    if held[k].key != key.key {
                        let ghost kb = kept@;
                        let h = HeldKey { key: held[k].key, target: held[k].target.clone() };
                        kept.push(h);
                        proof {
                            assert(kept@.map_values(held_view()) =~= kb.map_values(held_view()).push(
                                held_view()(h),
                            ));
                        }
                    }
                    k += 1;
                }
                proof {
                    assert(hv.take(held@.len() as int) =~= hv);
                }
                let ghost kb = kept@;
                let h = HeldKey { key: key.key, target: id.clone() };
                kept.push(h);
                proof {
                    assert(kept@.map_values(held_view()) =~= kb.map_values(held_view()).push(
                        held_view()(h),
                    ));
                }
                self.held_keys = kept;
                Self::send(outcome, id.clone(), PaneInputEvent::Key { key: key.key, kind: KeyKind::Press });
            },
            _ => {
                let ghost hv = self@.held_keys;
                let i = self.held_position(key.key);
                if i < self.held_keys.len() {
                    let target = self.held_keys[i].target.clone();
                    if key.kind == KeyKind::Release {
                        self.held_keys.remove(i);
                        proof {
                            assert(self.held_keys@.map_values(held_view()) =~= hv.remove(i as int));
                        }
                    }
                    Self::send(outcome, target, PaneInputEvent::Key { key: key.key, kind: key.kind });
                }
            },
        }
    }

    /// The control under the cell, if any.
    fn button_at(&self, column: u16, row: u16) -> (r: Option<AttentionAction>)
        ensures
            ({
                let i = first_index(self@.buttons, button_hit(column, row));
                if i < self@.buttons.len() {
                    r == Some(self@.buttons[i].1)
                } else {
                    r is None
                }
            }),
    {
        let bs = &self.attention_widget.buttons;
        let mut i: usize = 0;
        while i < bs.len()
            invariant
                i <= bs@.len(),
                bs@ == self@.buttons,
                forall|j: int| 0 <= j < i ==> !(#[trigger] button_hit(column, row)(bs@[j])),
            decreases bs@.len() - i,
        {
            if contains(bs[i].0, column, row) {
                proof {
                    lemma_first_index_is(bs@, button_hit(column, row), i as int);
                }
                return Some(bs[i].1);
            }
            i += 1;
        }
        proof {
            lemma_first_index_none(bs@, button_hit(column, row));
        }
        None
    }

    /// Routes a mouse event to the shown pane `id` (see [`pane_mouse_v`]).
    fn route_pane_mouse(&mut self, id: &String, m: MouseInput, outcome: &mut ClientShellInput)
        requires
            old(self).wf(),
        ensures
            (final(self)@, final(outcome)@) == pane_mouse_v(old(self)@, old(outcome)@, id@, m),
    {
        let lines = self.scroll_lines();
        let (column, row) = match &self.attention_widget.terminal {
            None => {
                return ;
            },
            Some(hit) => {
                let r = hit.inner_rect;
                let gesture = self.attention_widget.mouse_down.is_some() && match m.kind {
                    MouseKind::Up(_) | MouseKind::Drag(_) => true,
                    _ => false,
                };
                if r.is_empty() || !(contains(r, m.column, m.row) || gesture) || !hit.mouse_reporting
                    || m.kind == MouseKind::Other {
                    return ;
                }
                let cx = clamp_u16(m.column, r.x, r.right().saturating_sub(1));
                let cy = clamp_u16(m.row, r.y, r.bottom().saturating_sub(1));
                (cx - r.x + self.attention_widget.offset.0, cy - r.y + self.attention_widget.offset.1)
            },
        };
        match m.kind {
            MouseKind::Down(b) => {
                self.attention_widget.mouse_down = Some(
                    AttentionMouseGesture {
                        pane_id: id.clone(),
                        button: b,
                        column,
                        row,
                        modifiers: m.modifiers,
                    },
                );
            },
            MouseKind::Up(_) => {
                self.attention_widget.mouse_down = None;
            },
            _ => {
                match self.attention_widget.mouse_down.take() {
                    Some(g) => {
                        self.attention_widget.mouse_down = Some(
                            AttentionMouseGesture {
                                pane_id: g.pane_id,
                                button: g.button,
                                column,
                                row,
                                modifiers: m.modifiers,
                            },
                        );
                    },
                    None => {},
                }
            },
        }
        Self::send(
            outcome,
            id.clone(),
            PaneInputEvent::Mouse { kind: m.kind, column, row, modifiers: m.modifiers, lines },
        );
    }

    /// Gives an input event to the widget first, before the shell's own key, popup and mouse
    /// handling; returns whether the widget consumed it (see [`input_v`]). A left click on
    /// the attention row opens the first queued pane or closes the widget; while a pane is
    /// shown, text, pastes, keys and mouse events over it go to that pane and nowhere else,
    /// and Escape closes the widget without acknowledging anything.
    #[verifier::rlimit(40)]
    pub fn handle_attention_input(&mut self, event: &RawInputEvent, outcome: &mut ClientShellInput) -> (r: bool)
        requires
            old(self).wf(),
        ensures
            final(self).wf(),
            (final(self)@, final(outcome)@, r) == input_v(old(self)@, old(outcome)@, *event),
    {
        outcome.requests.append(&mut self.attention_widget.pending_input);
        proof {
            assert(outcome.requests@.map_values(message_view()) =~= old(outcome).requests@.map_values(
                message_view(),
            ) + old(self).attention_widget.pending_input@.map_values(message_view()));
            assert(self.attention_widget.pending_input@.map_values(message_view()) =~= Seq::empty());
        }
        if !self.attention_supported() {
            return false;
        }
        match event {
            RawInputEvent::Mouse(m) => {
                if m.kind == MouseKind::Down(MouseButton::Left) && contains(
                    self.attention_widget.row,
                    m.column,
                    m.row,
                ) {
                    if self.attention_open() {
                        self.hide_attention();
                    } else if !self.host_popup_open {
                        self.release_all_held(outcome);
                        self.copy_mode = false;
                        self.copy_pipeline_pending = false;
                        self.selection = false;
                        self.terminal_mode = true;
                        let q = self.attention_queue();
                        let first = if q.len() > 0 {
                            Some(q[0].pane_id.clone())
                        } else {
                            None
                        };
                        self.attention_widget.selected = first;
                    }
                    self.sync_attention_lease(outcome);
                    outcome.repaint = true;
                    return true;
                }
            },
            _ => {},
        }
        let id = match &self.attention_widget.selected {
            Some(id) => id.clone(),
            None => {
                return false;
            },
        };
        match event {
            RawInputEvent::OuterFocusLost => {
                match self.attention_widget.mouse_down.take() {
                    Some(g) => {
                        let lines = self.scroll_lines();
                        Self::send(
                            outcome,
                            g.pane_id,
                            PaneInputEvent::Mouse {
                                kind: MouseKind::Up(g.button),
                                column: g.column,
                                row: g.row,
                                modifiers: g.modifiers,
                                lines,
                            },
                        );
                    },
                    None => {},
                }
                false
            },
            RawInputEvent::Key(k) => {
                if k.escape {
                    if k.kind == KeyKind::Press {
                        self.attention_action(AttentionAction::Close, outcome);
                    }
                } else {
                    self.route_key(&id, *k, outcome);
                }
                true
            },
            RawInputEvent::Text(t) => {
                Self::send(outcome, id, PaneInputEvent::TextCommit(t.clone()));
                true
            },
            RawInputEvent::Paste(t) => {
                Self::send(outcome, id, PaneInputEvent::Paste(t.clone()));
                true
            },
            RawInputEvent::Mouse(m) => {
                if m.kind == MouseKind::Down(MouseButton::Left) {
                    match self.button_at(m.column, m.row) {
                        Some(action) => {
                            self.attention_action(action, outcome);
                            return true;
                        },
                        None => {},
                    }
                }
                self.route_pane_mouse(&id, *m, outcome);
                true
            },
            RawInputEvent::Other => false,
        }
    }

    /// Lays out the popup for the shown pane: forgets the previous controls and pane area,
    /// then, when the endpoint serves the widget, a pane is shown and the popup has room,
    /// places the controls on the row above the pane area and returns what the renderer
    /// draws around the pane's surface: the popup's frame, and the shown entry's title.
    #[verifier::rlimit(40)]
    pub fn attention_chrome(&mut self) -> (r: Option<AttentionChrome>)
        requires
            old(self).wf(),
        ensures
            final(self).wf(),
            ({
                let s0 = old(self)@;
                let cleared = ShellView { buttons: Seq::empty(), terminal: None, ..s0 };
                match (s0.selected, attention_geometry_spec(s0.popup_geometry)) {
                    (Some(id), Some(g)) if supported_v(s0) => {
                        &&& final(self)@ == (ShellView {
                            buttons: controls_layout(g.outer, g.inner),
                            ..cleared
                        })
                        &&& r matches Some(c) && c.outer == g.outer && c.inner == g.inner
                            && c.title@ == title_spec(active_queue_v(s0), id) && c.buttons@
                            == controls_layout(g.outer, g.inner)
                    },
                    _ => final(self)@ == cleared && r is None,
                }
            }),
    {
        self.attention_widget.buttons = Vec::new();
        self.attention_widget.terminal = None;
        if !self.attention_supported() {
            return None;
        }
        let id = match &self.attention_widget.selected {
            Some(id) => id.clone(),
            None => {
                return None;
            },
        };
        let g = match self.attention_geometry() {
            Some(g) => g,
            None => {
                return None;
            },
        };
        let title = {
            let q = self.attention_queue();
            let i = entry_position(q, &id);
            if i < q.len() {
                q[i].title.clone()
            } else {
                let t = String::from_str("Attention");
                proof {
                    reveal_strlit("Attention");
                }
                t
            }
        };
        let right = g.outer.right();
        let y = g.inner.y - 1;
        let mut x = g.inner.x;
        let w0 = if 6 < right.saturating_sub(x + 1) { 6 } else { right.saturating_sub(x + 1) };
        let r0 = Rect { x, y, width: w0, height: 1 };
        x = x + w0;
        let w1 = if 6 < right.saturating_sub(x + 1) { 6 } else { right.saturating_sub(x + 1) };
        let r1 = Rect { x, y, width: w1, height: 1 };
        x = x + w1;
        let w2 = if 9 < right.saturating_sub(x + 1) { 9 } else { right.saturating_sub(x + 1) };
        let r2 = Rect { x, y, width: w2, height: 1 };
        x = x + w2;
        let w3 = if 6 < right.saturating_sub(x + 1) { 6 } else { right.saturating_sub(x + 1) };
        let r3 = Rect { x, y, width: w3, height: 1 };
        x = x + w3;
        let w4 = if 7 < right.saturating_sub(x + 1) { 7 } else { right.saturating_sub(x + 1) };
        let r4 = Rect { x, y, width: w4, height: 1 };
        let buttons = vec![
            (r0, AttentionAction::Previous),
            (r1, AttentionAction::Next),
            (r2, AttentionAction::Dismiss),
            (r3, AttentionAction::Jump),
            (r4, AttentionAction::Close),
        ];
        let copy = AttentionChrome {
            outer: g.outer,
            inner: g.inner,
            title,
            buttons: vec![
                (r0, AttentionAction::Previous),
                (r1, AttentionAction::Next),
                (r2, AttentionAction::Dismiss),
                (r3, AttentionAction::Jump),
                (r4, AttentionAction::Close),
            ],
        };
        proof {
            assert(buttons@ =~= controls_layout(g.outer, g.inner));
            assert(copy.buttons@ =~= controls_layout(g.outer, g.inner));
        }
        self.attention_widget.buttons = buttons;
        Some(copy)
    }

    /// Composes the widget for a frame: lays out the popup and its controls (see
    /// [`ClientShellState::attention_chrome`]), then draws the shown pane's surface, when one
    /// arrived, into the pane area (see [`blit_attention_surface`]), recording the area that
    /// takes the pane's mouse input and the crop offset that maps it back to pane cells.
    /// Returns the popup's frame, title and controls, which the renderer draws around the
    /// surface; none when nothing is shown.
    pub fn compose_attention(&mut self, frame: &mut FrameData) -> (r: Option<AttentionChrome>)
        requires
            old(self).wf(),
            (old(self).attention_widget.surface is Some && attention_geometry_spec(
                old(self).popup_geometry,
            ) is Some) ==> blit_fits(
                *old(frame),
                old(self).attention_widget.surface->0.frame,
                attention_geometry_spec(old(self).popup_geometry)->0.inner,
            ),
        ensures
            final(self).wf(),
            ({
                let s0 = old(self)@;
                let cleared = ShellView { buttons: Seq::empty(), terminal: None, ..s0 };
                match (s0.selected, attention_geometry_spec(s0.popup_geometry)) {
                    (Some(id), Some(g)) if supported_v(s0) => {
                        let laid = ShellView { buttons: controls_layout(g.outer, g.inner), ..cleared };
                        &&& r matches Some(c) && c.outer == g.outer && c.inner == g.inner
                            && c.title@ == title_spec(active_queue_v(s0), id) && c.buttons@
                            == controls_layout(g.outer, g.inner)
                        &&& match s0.surface {
                            Some(sf) => {
                                let (x, y, _, _) = blit_window(sf.frame, g.inner);
                                &&& final(self)@ == (ShellView {
                                    offset: (x, y),
                                    terminal: Some(
                                        PaneHitView {
                                            rect: g.outer,
                                            inner_rect: Rect {
                                                x: g.inner.x,
                                                y: g.inner.y,
                                                width: min16(g.inner.width, sf.frame.width),
                                                height: min16(g.inner.height, sf.frame.height),
                                            },
                                            pane_id: id,
                                            mouse_reporting: sf.mouse_reporting,
                                            sgr_pixel_mouse: sf.sgr_pixel_mouse,
                                            pixel_width: sf.pixel_width,
                                            pixel_height: sf.pixel_height,
                                        },
                                    ),
                                    ..laid
                                })
                                &&& crate::frame::blit_result(*old(frame), sf.frame, g.inner, *final(frame))
                            },
                            None => final(self)@ == laid && *final(frame) == *old(frame),
                        }
                    },
                    _ => final(self)@ == cleared && r is None && *final(frame) == *old(frame),
                }
            }),
    {
        let chrome = match self.attention_chrome() {
            Some(c) => c,
            None => {
                return None;
            },
        };
        let id = match &self.attention_widget.selected {
            Some(id) => id.clone(),
            None => {
                return Some(chrome);
            },
        };
        let g = match self.attention_geometry() {
            Some(g) => g,
            None => {
                return Some(chrome);
            },
        };
        match &self.attention_widget.surface {
            None => {},
            Some(sf) => {
                let offset = blit_attention_surface(frame, &sf.frame, g.inner);
                let width = if g.inner.width < sf.frame.width {
                    g.inner.width
                } else {
                    sf.frame.width
                };
                let height = if g.inner.height < sf.frame.height {
                    g.inner.height
                } else {
                    sf.frame.height
                };
                let hit = PaneHit {
                    rect: g.outer,
                    inner_rect: Rect::new(g.inner.x, g.inner.y, width, height),
                    pane_id: id,
                    mouse_reporting: sf.mouse_reporting,
                    sgr_pixel_mouse: sf.sgr_pixel_mouse,
                    pixel_width: sf.pixel_width,
                    pixel_height: sf.pixel_height,
                };
                self.attention_widget.offset = offset;
                self.attention_widget.terminal = Some(hit);
            },
        }
        Some(chrome)
    }

    /// The attention row at the bottom of an expanded, non-empty sidebar, with the active
    /// queue's counts of blocked and done entries; none when the endpoint does not serve the
    /// widget.
    pub fn render_attention_row(&self, sidebar: Rect, sidebar_collapsed: bool) -> (r: Option<AttentionRow>)
        ensures
            r is Some <==> (self.attention_supported_spec() && !sidebar_collapsed && sidebar.height
                > 0),
            r matches Some(row) ==> row.rect == crate::frame::rect_new_spec(
                sidebar.x,
                (sat_add16(sidebar.y, sidebar.height) - 1) as u16,
                sat_sub16(sidebar.width, 1),
                1,
            ) && row.blocked == self.active_queue().filter(
                kind_is(EndpointAttentionKind::Blocked),
            ).len() && row.done == self.active_queue().filter(kind_is(EndpointAttentionKind::Done)).len(),
    {
        if !self.attention_supported() || sidebar_collapsed || sidebar.height == 0 {
            return None;
        }
        let rect = Rect::new(sidebar.x, sidebar.bottom() - 1, sidebar.width.saturating_sub(1), 1);
        let q = self.attention_queue();
        let mut blocked: usize = 0;
        let mut done: usize = 0;
        let mut k: usize = 0;
        while k < q.len()
            invariant
                k <= q@.len(),
                blocked == q@.take(k as int).filter(kind_is(EndpointAttentionKind::Blocked)).len(),
                done == q@.take(k as int).filter(kind_is(EndpointAttentionKind::Done)).len(),
                blocked <= k,
                done <= k,
            decreases q@.len() - k,
        {
            proof {
                assert(q@.take(k + 1) =~= q@.take(k as int).push(q@[k as int]));
                q@.take(k as int).lemma_filter_push(q@[k as int], kind_is(EndpointAttentionKind::Blocked));
                q@.take(k as int).lemma_filter_push(q@[k as int], kind_is(EndpointAttentionKind::Done));
                q@.take(k as int).lemma_filter_len(kind_is(EndpointAttentionKind::Blocked));
                q@.take(k as int).lemma_filter_len(kind_is(EndpointAttentionKind::Done));
            }
            match q[k].kind {
                EndpointAttentionKind::Blocked => {
                    blocked = blocked + 1;
                },
                EndpointAttentionKind::Done => {
                    done = done + 1;
                },
                EndpointAttentionKind::Unknown => {},
            }
            k += 1;
        }
        proof {
            assert(q@.take(q@.len() as int) =~= q@);
        }
        Some(AttentionRow { rect, blocked, done })
    }

    /// The active endpoint's queue.
    pub fn attention_queue(&self) -> (r: &[EndpointAttentionEntry])
        ensures
            r@ == self.active_queue(),
    {
        let i = self.queue_position(self.active_endpoint_id);
        if i < self.attention_widget.queues.len() {
            self.attention_widget.queues[i].1.as_slice()
        } else {
            &[]
        }
    }
}

} // verus!
