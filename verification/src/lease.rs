//! The host side of attention views: each client may lease a view of one queued pane at a
//! size of its own. The queue and the pane topology never change through a lease; a lease
//! that no longer names a queued pane on the same terminal is retired.
use crate::dock::{attention_target_spec, entry_not_for, AttentionSourceTarget, DockView, TargetView};
use crate::handoff::{parse_public_pane_id, App};
use crate::seqs::{first_index, lemma_first_index_bounds, lemma_first_index_is, lemma_first_index_none};
use crate::shell::{same_surface, EndpointAttentionSurface, SurfaceView};
use crate::topology::{ws_index, ws_pane, PaneId, TerminalId, TerminalState, Workspace};
use vstd::prelude::*;

verus! {

/// The largest view, in columns and in rows, a client may lease.
pub const ATTENTION_VIEW_MAX: u16 = 1000;

/// A client's request for a view of a queued pane (`None`: give the view up).
#[derive(Clone, Debug)]
pub struct AttentionViewParams {
    pub source_pane_id: Option<String>,
    pub cols: u16,
    pub rows: u16,
    pub view_id: u64,
}

/// A granted view: the pane's public identifier, the terminal it showed when granted, the
/// size, and the client's view identifier.
#[derive(Clone, Debug)]
pub struct AttentionViewLease {
    pub source_pane_id: String,
    pub terminal_id: TerminalId,
    pub cols: u16,
    pub rows: u16,
    pub view_id: u64,
}

/// The abstract value of an [`AttentionViewLease`].
pub struct LeaseView {
    pub source_pane_id: Seq<char>,
    pub terminal_id: TerminalId,
    pub cols: u16,
    pub rows: u16,
    pub view_id: u64,
}

impl View for AttentionViewLease {
    type V = LeaseView;

    open spec fn view(&self) -> LeaseView {
        LeaseView {
            source_pane_id: self.source_pane_id@,
            terminal_id: self.terminal_id,
            cols: self.cols,
            rows: self.rows,
            view_id: self.view_id,
        }
    }
}

pub open spec fn opt_lease(l: Option<AttentionViewLease>) -> Option<LeaseView> {
    match l {
        Some(l) => Some(l@),
        None => None,
    }
}

/// A key a client holds down on a pane, by the pane's public identifier.
#[derive(Clone, Debug)]
pub struct HeldShellInput {
    pub target: String,
    pub key: u64,
}

/// A key release the host must deliver: through the ordinary path to a pane, or straight to
/// a terminal.
#[derive(Clone, Debug)]
pub enum InputRelease {
    Host { target: String, key: u64 },
    Terminal { terminal_id: TerminalId, key: u64 },
}

/// The abstract value of an [`InputRelease`].
pub enum ReleaseView {
    Host(Seq<char>, u64),
    Terminal(TerminalId, u64),
}

pub open spec fn release_view() -> spec_fn(InputRelease) -> ReleaseView {
    |r: InputRelease|
        match r {
            InputRelease::Host { target, key } => ReleaseView::Host(target@, key),
            InputRelease::Terminal { terminal_id, key } => ReleaseView::Terminal(terminal_id, key),
        }
}

/// Where a client's shell looks: a workspace, one of its tabs by number, and the pane it
/// focuses there.
#[derive(Clone, Debug)]
pub struct ShellLocation {
    pub workspace_id: String,
    pub tab_number: usize,
    pub pane_id: PaneId,
}

/// The abstract value of a [`ShellLocation`].
pub struct LocationView {
    pub workspace_id: Seq<char>,
    pub tab_number: usize,
    pub pane_id: PaneId,
}

pub open spec fn location_view(l: Option<ShellLocation>) -> Option<LocationView> {
    match l {
        Some(l) => Some(LocationView { workspace_id: l.workspace_id@, tab_number: l.tab_number, pane_id: l.pane_id }),
        None => None,
    }
}

/// What the host knows of a connected client for attention views.
#[derive(Debug)]
pub struct AttentionClient {
    pub id: u64,
    /// The client is an attached, active shell.
    pub active_shell: bool,
    /// The client has a render channel.
    pub has_writer: bool,
    /// The client's views are rendered before the host's own frame.
    pub render_priority: bool,
    pub attention_view: Option<AttentionViewLease>,
    /// The last surface delivered for the view.
    pub attention_surface: Option<EndpointAttentionSurface>,
    pub attention_render_pending: bool,
    pub full_render_deferred: bool,
    pub held_inputs: Vec<HeldShellInput>,
    /// Where the client's shell looks, once it has looked anywhere.
    pub shell_location: Option<ShellLocation>,
}

/// The abstract value of an [`AttentionClient`].
pub struct ClientView {
    pub id: u64,
    pub active_shell: bool,
    pub has_writer: bool,
    pub render_priority: bool,
    pub lease: Option<LeaseView>,
    pub surface: Option<SurfaceView>,
    pub render_pending: bool,
    pub full_render_deferred: bool,
    pub held: Seq<(Seq<char>, u64)>,
    pub location: Option<LocationView>,
}

pub open spec fn held_input_view() -> spec_fn(HeldShellInput) -> (Seq<char>, u64) {
    |h: HeldShellInput| (h.target@, h.key)
}

pub open spec fn client_view() -> spec_fn(AttentionClient) -> ClientView {
    |c: AttentionClient|
        ClientView {
            id: c.id,
            active_shell: c.active_shell,
            has_writer: c.has_writer,
            render_priority: c.render_priority,
            lease: opt_lease(c.attention_view),
            surface: match c.attention_surface {
                Some(s) => Some(s@),
                None => None,
            },
            render_pending: c.attention_render_pending,
            full_render_deferred: c.full_render_deferred,
            held: c.held_inputs@.map_values(held_input_view()),
            location: location_view(c.shell_location),
        }
}

/// The host: its application state, its clients, and whether a handoff to a new host process
/// is under way.
pub struct HeadlessServer {
    pub app: App,
    pub clients: Vec<AttentionClient>,
    pub handoff_in_progress: bool,
    /// The pane each tab's layout focuses, for the tabs whose focus was set.
    pub tab_focus: Vec<TabFocus>,
}

/// The pane a tab's layout focuses: the workspace, the tab by number, and the pane.
#[derive(Clone, Debug)]
pub struct TabFocus {
    pub workspace_id: String,
    pub tab_number: usize,
    pub pane_id: PaneId,
}

pub open spec fn tab_focus_view() -> spec_fn(TabFocus) -> (Seq<char>, usize, PaneId) {
    |f: TabFocus| (f.workspace_id@, f.tab_number, f.pane_id)
}

/// Whether a focus record is for another tab than the tab `tab_number` of `workspace_id`.
pub open spec fn other_tab(workspace_id: Seq<char>, tab_number: usize) -> spec_fn(
    (Seq<char>, usize, PaneId),
) -> bool {
    |f: (Seq<char>, usize, PaneId)| !(f.0 == workspace_id && f.1 == tab_number)
}

/// The tab focus after a tab's layout focuses `pane_id`: the tab's earlier record goes and
/// the new one is added.
pub open spec fn focus_tab_pane(
    focus: Seq<(Seq<char>, usize, PaneId)>,
    workspace_id: Seq<char>,
    tab_number: usize,
    pane_id: PaneId,
) -> Seq<(Seq<char>, usize, PaneId)> {
    focus.filter(other_tab(workspace_id, tab_number)).push((workspace_id, tab_number, pane_id))
}

/// The abstract value of a [`HeadlessServer`].
pub struct ServerView {
    pub ws: Seq<Workspace>,
    pub terms: Seq<TerminalState>,
    pub dock: DockView,
    pub clients: Seq<ClientView>,
    pub handoff: bool,
    pub tab_focus: Seq<(Seq<char>, usize, PaneId)>,
}

impl View for HeadlessServer {
    type V = ServerView;

    open spec fn view(&self) -> ServerView {
        ServerView {
            ws: self.app.state.workspaces@,
            terms: self.app.state.terminals@,
            dock: self.app.state.attention_dock@,
            clients: self.clients@.map_values(client_view()),
            handoff: self.handoff_in_progress,
            tab_focus: self.tab_focus@.map_values(tab_focus_view()),
        }
    }
}

/// The queued pane that a public identifier names: it must parse to a pane that has a ready
/// entry, and that entry's public identifier must be the same text.
pub open spec fn target_v(s: ServerView, source: Seq<char>) -> Option<TargetView> {
    match parse_public_pane_id(s.ws, source) {
        Some((_, pid)) => match attention_target_spec(s.ws, s.dock.queue, pid) {
            Some(t) => if t.public_pane_id == source {
                Some(t)
            } else {
                None
            },
            None => None,
        },
        None => None,
    }
}

/// The terminal attached to the pane, where the topology holds it.
pub open spec fn pane_terminal(ws: Seq<Workspace>, pid: PaneId) -> Option<TerminalId> {
    let wi = ws_index(ws, pid);
    if wi < ws.len() {
        Some(ws_pane(ws[wi], pid).attached_terminal_id)
    } else {
        None
    }
}

/// The lease granted for a request: none for an empty or oversized view or a pane that is no
/// longer queued under that identifier; else the pane's terminal at the requested size, at
/// least four columns by two rows.
pub open spec fn resolve_v(s: ServerView, p: AttentionViewParams) -> Option<LeaseView> {
    if p.cols == 0 || p.rows == 0 || p.cols > ATTENTION_VIEW_MAX || p.rows > ATTENTION_VIEW_MAX {
        None
    } else {
        match p.source_pane_id {
            None => None,
            Some(src) => match target_v(s, src@) {
                None => None,
                Some(t) => match pane_terminal(s.ws, t.pane_id) {
                    None => None,
                    Some(tid) => Some(
                        LeaseView {
                            source_pane_id: src@,
                            terminal_id: tid,
                            cols: if p.cols < 4 {
                                4
                            } else {
                                p.cols
                            },
                            rows: if p.rows < 2 {
                                2
                            } else {
                                p.rows
                            },
                            view_id: p.view_id,
                        },
                    ),
                },
            },
        }
    }
}

/// The client is an active shell whose lease names `source`, a queued pane that still shows
/// the leased terminal.
pub open spec fn client_matches(s: ServerView, c: ClientView, source: Seq<char>) -> bool {
    &&& c.active_shell
    &&& match c.lease {
        Some(l) => l.source_pane_id == source && match target_v(s, source) {
            Some(t) => pane_terminal(s.ws, t.pane_id) == Some(l.terminal_id),
            None => false,
        },
        None => false,
    }
}

pub open spec fn client_has(id: u64) -> spec_fn(ClientView) -> bool {
    |c: ClientView| c.id == id
}

/// Position of the client among the host's clients, or their count.
pub open spec fn client_slot(s: ServerView, id: u64) -> int {
    first_index(s.clients, client_has(id))
}

pub open spec fn view_matches_v(s: ServerView, id: u64, source: Seq<char>) -> bool {
    let i = client_slot(s, id);
    i < s.clients.len() && client_matches(s, s.clients[i], source)
}

/// A held key's release when its lease ends: a key held on the leased pane is released on
/// the leased terminal itself; any other goes the ordinary way.
pub open spec fn release_of_held(l: LeaseView) -> spec_fn((Seq<char>, u64)) -> ReleaseView {
    |h: (Seq<char>, u64)|
        if h.0 == l.source_pane_id {
            ReleaseView::Terminal(l.terminal_id, h.1)
        } else {
            ReleaseView::Host(h.0, h.1)
        }
}

/// The releases that ending the client's lease sends, one per held key, in order.
pub open spec fn releases_of(c: ClientView) -> Seq<ReleaseView> {
    match c.lease {
        Some(l) => c.held.map_values(release_of_held(l)),
        None => Seq::empty(),
    }
}

/// The client after its lease ends: no lease, no delivered surface, nothing pending, no held
/// key.
pub open spec fn cleared(c: ClientView) -> ClientView {
    ClientView { lease: None, surface: None, render_pending: false, held: Seq::empty(), ..c }
}

/// Ending a client's lease: the new state, whether it had one, and the releases sent.
pub open spec fn clear_v(s: ServerView, id: u64) -> (ServerView, bool, Seq<ReleaseView>) {
    let i = client_slot(s, id);
    if i < s.clients.len() && s.clients[i].lease is Some {
        (
            ServerView { clients: s.clients.update(i, cleared(s.clients[i])), ..s },
            true,
            releases_of(s.clients[i]),
        )
    } else {
        (s, false, Seq::empty())
    }
}

/// The client holds a lease that no longer matches.
pub open spec fn stale(s: ServerView) -> spec_fn(ClientView) -> bool {
    |c: ClientView|
        match c.lease {
            Some(l) => !client_matches(s, c, l.source_pane_id),
            None => false,
        }
}

pub open spec fn reconciled(s: ServerView) -> spec_fn(ClientView) -> ClientView {
    |c: ClientView|
        if stale(s)(c) {
            cleared(c)
        } else {
            c
        }
}

pub open spec fn stale_releases(s: ServerView) -> spec_fn(ClientView) -> Seq<ReleaseView> {
    |c: ClientView|
        if stale(s)(c) {
            releases_of(c)
        } else {
            Seq::empty()
        }
}

/// Retiring every stale lease: the new state, whether any was retired, and the releases
/// sent, client by client.
pub open spec fn reconcile_v(s: ServerView) -> (ServerView, bool, Seq<ReleaseView>) {
    (
        ServerView { clients: s.clients.map_values(reconciled(s)), ..s },
        exists|j: int| 0 <= j < s.clients.len() && stale(s)(#[trigger] s.clients[j]),
        s.clients.map_values(stale_releases(s)).flatten(),
    )
}

/// An attention request of a client shell.
#[derive(Clone, Debug)]
pub enum AttentionRequest {
    /// Lease a view of a queued pane, or give the view up.
    View(AttentionViewParams),
    /// Acknowledge (dismiss) a queued pane.
    Acknowledge { source_pane_id: String },
    /// Focus a queued pane in this client.
    Jump { source_pane_id: String },
    /// The retired request that opened the projected dock.
    Open,
    /// The retired request that dismissed the projected dock.
    Dismiss,
}

/// Why an attention request was refused; every refusal carries the code "stale_attention".
#[derive(Clone, Copy, PartialEq, Eq, Debug, Structural)]
pub enum AttentionError {
    /// The client is not an active shell, or a handoff is under way.
    InactiveConnection,
    /// The view names a pane that is no longer queued, or an unusable size.
    StaleView,
    /// The pane is no longer queued under that identifier.
    NotQueued,
    /// A retired request that named the dock as once projected.
    NotProjected,
}

pub open spec fn error_message_spec(e: AttentionError) -> Seq<char> {
    match e {
        AttentionError::InactiveConnection => "attention view requires an active connection"@,
        AttentionError::StaleView => "attention target or dimensions are stale"@,
        AttentionError::NotQueued => "attention target is no longer queued"@,
        AttentionError::NotProjected => "the attention dock is no longer projected"@,
    }
}

impl AttentionError {
    /// The error code of every refusal.
    pub fn code(&self) -> (r: &'static str)
        ensures
            r@ == "stale_attention"@,
    {
        "stale_attention"
    }

    /// The refusal's message.
    pub fn message(&self) -> (r: &'static str)
        ensures
            r@ == error_message_spec(*self),
    {
        match self {
            AttentionError::InactiveConnection => "attention view requires an active connection",
            AttentionError::StaleView => "attention target or dimensions are stale",
            AttentionError::NotQueued => "attention target is no longer queued",
            AttentionError::NotProjected => "the attention dock is no longer projected",
        }
    }
}

/// The answer to an attention request: whether anything changed, the result to send back,
/// and, for a jump, the pane the client must now focus.
#[derive(Debug)]
pub struct AttentionReply {
    pub changed: bool,
    pub result: Result<(), AttentionError>,
    pub jump: Option<AttentionSourceTarget>,
}

/// The dock after acknowledging the pane.
pub open spec fn dismissed_dock(d: DockView, pid: PaneId) -> DockView {
    DockView { queue: d.queue.filter(entry_not_for(pid)), dismissed: d.dismissed.push(pid), ..d }
}

/// What an attention request does: the new state, whether anything changed, the result, the
/// pane to focus for a jump, and the key releases sent. Requests are refused outside an
/// active shell or during a handoff; a view request without a pane gives the view up; one
/// whose lease differs from the current one replaces it; acknowledging dismisses the pane
/// and retires leases that no longer match; a jump gives the view up,
/// moves the requesting client, and only it, to the pane, focuses the pane in its tab's
/// layout, and names the pane; the retired
/// dock requests are refused.
pub open spec fn request_v(s: ServerView, id: u64, req: AttentionRequest) -> (
    ServerView,
    bool,
    Result<(), AttentionError>,
    Option<TargetView>,
    Seq<ReleaseView>,
) {
    let i = client_slot(s, id);
    if s.handoff || !(i < s.clients.len() && s.clients[i].active_shell) {
        (s, false, Err(AttentionError::InactiveConnection), None, Seq::empty())
    } else {
        match req {
            AttentionRequest::View(p) => match p.source_pane_id {
                None => {
                    let (s1, ch, rel) = clear_v(s, id);
                    (s1, ch, Ok(()), None, rel)
                },
                Some(_) => match resolve_v(s, p) {
                    Some(l) => if s.clients[i].lease == Some(l) {
                        (s, false, Ok(()), None, Seq::empty())
                    } else {
                        let (s1, _, rel) = clear_v(s, id);
                        (
                            ServerView {
                                clients: s1.clients.update(
                                    i,
                                    ClientView { lease: Some(l), ..s1.clients[i] },
                                ),
                                ..s1
                            },
                            true,
                            Ok(()),
                            None,
                            rel,
                        )
                    },
                    None => (s, false, Err(AttentionError::StaleView), None, Seq::empty()),
                },
            },
            AttentionRequest::Acknowledge { source_pane_id } => match target_v(s, source_pane_id@) {
                Some(t) => {
                    let (s2, _, rel) = reconcile_v(
                        ServerView { dock: dismissed_dock(s.dock, t.pane_id), ..s },
                    );
                    (s2, true, Ok(()), None, rel)
                },
                None => (s, false, Err(AttentionError::NotQueued), None, Seq::empty()),
            },
            AttentionRequest::Jump { source_pane_id } => match target_v(s, source_pane_id@) {
                Some(t) => {
                    let (s1, _, rel) = clear_v(s, id);
                    (
                        ServerView {
                            clients: s1.clients.update(
                                i,
                                ClientView { location: Some(jump_location(t)), ..s1.clients[i] },
                            ),
                            tab_focus: focus_tab_pane(
                                s1.tab_focus,
                                t.workspace_id,
                                t.tab_number,
                                t.pane_id,
                            ),
                            ..s1
                        },
                        true,
                        Ok(()),
                        Some(t),
                        rel,
                    )
                },
                None => (s, false, Err(AttentionError::NotQueued), None, Seq::empty()),
            },
            _ => (s, false, Err(AttentionError::NotProjected), None, Seq::empty()),
        }
    }
}

/// Where a jump to the target puts the client: the target's workspace and tab, focused on
/// the target pane.
pub open spec fn jump_location(t: TargetView) -> LocationView {
    LocationView { workspace_id: t.workspace_id, tab_number: t.tab_number, pane_id: t.pane_id }
}

/// Whether two leases are the same.
fn same_lease(a: &AttentionViewLease, b: &AttentionViewLease) -> (r: bool)
    ensures
        r == (a@ == b@),
{
    a.source_pane_id == b.source_pane_id && a.terminal_id == b.terminal_id && a.cols == b.cols
        && a.rows == b.rows && a.view_id == b.view_id
}

/// A lease to render this round: the client, its lease, and whether the client elects the
/// size of the leased terminal (it has the smallest id among the clients streaming the
/// same pane).
#[derive(Debug)]
pub struct StreamItem {
    pub client_id: u64,
    pub lease: AttentionViewLease,
    pub owner: bool,
}

/// The client receives attention surfaces: an active shell with a render channel and a
/// lease.
pub open spec fn streaming(c: ClientView) -> bool {
    c.active_shell && c.has_writer && c.lease is Some
}

pub open spec fn lease_source(c: ClientView) -> Seq<char> {
    match c.lease {
        Some(l) => l.source_pane_id,
        None => Seq::empty(),
    }
}

/// The client at position `j` streams `lease` under the id `id` in the round `before_host`.
pub open spec fn streams_as(cs: Seq<ClientView>, j: int, id: u64, lease: LeaseView, before_host: bool) -> bool {
    &&& 0 <= j < cs.len()
    &&& streaming(cs[j])
    &&& cs[j].render_priority == before_host
    &&& cs[j].id == id
    &&& cs[j].lease == Some(lease)
}

/// Some client streams `lease` under the id `id` in the round `before_host`.
pub open spec fn item_streams(cs: Seq<ClientView>, id: u64, lease: LeaseView, before_host: bool) -> bool {
    exists|j: int| #[trigger] streams_as(cs, j, id, lease, before_host)
}

/// No streaming client has a smaller id than `id` for the same pane.
pub open spec fn elects(cs: Seq<ClientView>, id: u64, source: Seq<char>) -> bool {
    forall|j: int|
        0 <= j < cs.len() && streaming(#[trigger] cs[j]) && lease_source(cs[j]) == source ==> id
            <= cs[j].id
}

/// Whether a terminal viewed through a lease is resized to it: only by the electing client,
/// only while no client shows the pane in its own layout and no direct attachment locks
/// the terminal's size, and only when the size (rows, columns) differs.
pub open spec fn should_resize_spec(
    visible: bool,
    locked: bool,
    owner: bool,
    current: (u16, u16),
    lease: LeaseView,
) -> bool {
    !visible && !locked && owner && current != (lease.rows, lease.cols)
}

/// Whether a terminal viewed through a lease is resized to it (see [`should_resize_spec`]).
pub fn should_resize_attention(
    visible: bool,
    locked: bool,
    owner: bool,
    current: (u16, u16),
    lease: &AttentionViewLease,
) -> (r: bool)
    ensures
        r == should_resize_spec(visible, locked, owner, current, lease@),
{
    !visible && !locked && owner && (current.0 != lease.rows || current.1 != lease.cols)
}

/// The outcome of handing a rendered surface to a client's render channel.
#[derive(Clone, Copy, PartialEq, Eq, Debug, Structural)]
pub enum SendOutcome {
    Sent,
    Full,
    Disconnected,
}

struct PlanEntry {
    client_id: u64,
    lease: AttentionViewLease,
    priority: bool,
}

spec fn item_from(all: Seq<PlanEntry>, i: int, id: u64, lease: LeaseView, before_host: bool) -> bool {
    exists|x: int|
        0 <= x < i && (#[trigger] all[x]).client_id == id && all[x].lease@ == lease && all[x].priority
            == before_host
}

spec fn id_from(all: Seq<PlanEntry>, i: int, id: u64) -> bool {
    exists|x: int| 0 <= x < i && (#[trigger] all[x]).client_id == id
}

spec fn sorted_ids(all: Seq<PlanEntry>) -> bool {
    forall|a: int, b: int|
        0 <= a < b < all.len() ==> (#[trigger] all[a]).client_id < (#[trigger] all[b]).client_id
}

spec fn has_id(all: Seq<PlanEntry>, id: u64) -> bool {
    exists|a: int| 0 <= a < all.len() && (#[trigger] all[a]).client_id == id
}

spec fn has_entry(all: Seq<PlanEntry>, e: PlanEntry) -> bool {
    exists|a: int| 0 <= a < all.len() && #[trigger] all[a] == e
}

/// The entry is the lease of one of the first `k` clients, which streams it.
spec fn entry_sound(cs: Seq<ClientView>, k: int, e: PlanEntry) -> bool {
    exists|j: int| 0 <= j < k && #[trigger] streams_as(cs, j, e.client_id, e.lease@, e.priority)
}

spec fn all_sound(all: Seq<PlanEntry>, cs: Seq<ClientView>, k: int) -> bool {
    forall|a: int| 0 <= a < all.len() ==> entry_sound(cs, k, #[trigger] all[a])
}

spec fn all_complete(all: Seq<PlanEntry>, cs: Seq<ClientView>, k: int) -> bool {
    forall|j: int| 0 <= j < k && streaming(#[trigger] cs[j]) ==> has_id(all, cs[j].id)
}

spec fn ids_distinct(cs: Seq<ClientView>) -> bool {
    forall|i: int, j: int| 0 <= i < cs.len() && 0 <= j < cs.len() && i != j ==> (#[trigger] cs[i]).id
        != (#[trigger] cs[j]).id
}

proof fn lemma_insert_entry(before: Seq<PlanEntry>, p: int, e: PlanEntry)
    requires
        0 <= p <= before.len(),
        sorted_ids(before),
        forall|a: int| 0 <= a < p ==> (#[trigger] before[a]).client_id < e.client_id,
        forall|a: int| p <= a < before.len() ==> (#[trigger] before[a]).client_id > e.client_id,
    ensures
        sorted_ids(before.insert(p, e)),
        forall|a: int|
            0 <= a < before.insert(p, e).len() ==> #[trigger] before.insert(p, e)[a] == e || has_entry(
                before,
                before.insert(p, e)[a],
            ),
        forall|b: int| 0 <= b < before.len() ==> has_entry(before.insert(p, e), #[trigger] before[b]),
        has_entry(before.insert(p, e), e),
{
    let n = before.insert(p, e);
    assert forall|a: int, b: int| 0 <= a < b < n.len() implies (#[trigger] n[a]).client_id < (
    #[trigger] n[b]).client_id by {
        if b < p {
        } else if b == p {
        } else if a < p {
            assert(n[b] == before[b - 1]);
        } else if a == p {
            assert(n[b] == before[b - 1]);
        } else {
            assert(n[a] == before[a - 1] && n[b] == before[b - 1]);
        }
    }
    assert forall|a: int| 0 <= a < n.len() implies #[trigger] n[a] == e || has_entry(before, n[a]) by {
        if a < p {
            assert(n[a] == before[a]);
        } else if a > p {
            assert(n[a] == before[a - 1]);
        }
    }
    assert forall|b: int| 0 <= b < before.len() implies has_entry(n, #[trigger] before[b]) by {
        if b < p {
            assert(n[b] == before[b]);
        } else {
            assert(n[b + 1] == before[b]);
        }
    }
    assert(n[p] == e);
}

/// After the loop over all clients: the entry of a streaming client is its own.
proof fn lemma_entry_of_client(all: Seq<PlanEntry>, cs: Seq<ClientView>, j: int) -> (x: int)
    requires
        ids_distinct(cs),
        all_sound(all, cs, cs.len() as int),
        all_complete(all, cs, cs.len() as int),
        0 <= j < cs.len(),
        streaming(cs[j]),
    ensures
        0 <= x < all.len(),
        streams_as(cs, j, all[x].client_id, all[x].lease@, all[x].priority),
{
    assert(has_id(all, cs[j].id));
    let x = choose|x: int| 0 <= x < all.len() && (#[trigger] all[x]).client_id == cs[j].id;
    assert(entry_sound(cs, cs.len() as int, all[x]));
    let j2 = choose|j2: int|
        0 <= j2 < cs.len() && #[trigger] streams_as(cs, j2, all[x].client_id, all[x].lease@, all[x].priority);
    if j2 != j {
        assert(cs[j2].id != cs[j].id);
    }
    x
}

/// In the sorted list of all streaming leases, an entry elects its pane exactly when no
/// earlier entry leases the same pane.
proof fn lemma_owner(all: Seq<PlanEntry>, cs: Seq<ClientView>, i: int)
    requires
        ids_distinct(cs),
        sorted_ids(all),
        all_sound(all, cs, cs.len() as int),
        all_complete(all, cs, cs.len() as int),
        0 <= i < all.len(),
    ensures
        (forall|x: int| 0 <= x < i ==> (#[trigger] all[x]).lease@.source_pane_id
            != all[i].lease@.source_pane_id) == elects(cs, all[i].client_id, all[i].lease@.source_pane_id),
{
    let e = all[i];
    if forall|x: int| 0 <= x < i ==> (#[trigger] all[x]).lease@.source_pane_id != e.lease@.source_pane_id {
        assert forall|j: int|
            0 <= j < cs.len() && streaming(#[trigger] cs[j]) && lease_source(cs[j]) == e.lease@.source_pane_id
                implies e.client_id <= cs[j].id by {
            let x = lemma_entry_of_client(all, cs, j);
            if x < i {
                assert(all[x].lease@.source_pane_id == e.lease@.source_pane_id);
            }
        }
    } else {
        let x = choose|x: int| 0 <= x < i && (#[trigger] all[x]).lease@.source_pane_id == e.lease@.source_pane_id;
        assert(entry_sound(cs, cs.len() as int, all[x]));
        let j2 = choose|j2: int|
            0 <= j2 < cs.len() && #[trigger] streams_as(cs, j2, all[x].client_id, all[x].lease@, all[x].priority);
        assert(all[x].client_id < e.client_id);
        assert(streaming(cs[j2]) && lease_source(cs[j2]) == e.lease@.source_pane_id);
    }
}

/// A copy of the lease.
fn copy_lease(l: &AttentionViewLease) -> (r: AttentionViewLease)
    ensures
        r@ == l@,
{
    AttentionViewLease {
        source_pane_id: l.source_pane_id.clone(),
        terminal_id: l.terminal_id,
        cols: l.cols,
        rows: l.rows,
        view_id: l.view_id,
    }
}

impl HeadlessServer {
    /// The host's invariant: the attention dock is well formed and client ids are distinct.
    pub open spec fn wf(&self) -> bool {
        &&& self.app.state.wf()
        &&& forall|i: int, j: int|
            0 <= i < j < self.clients@.len() ==> (#[trigger] self.clients@[i]).id
                != (#[trigger] self.clients@[j]).id
    }

    /// Whether the host meets its invariant: a well-formed dock and distinct client ids.
    pub fn well_formed(&self) -> (r: bool)
        ensures
            r == self.wf(),
    {
        if !self.app.state.dock_well_formed() {
            return false;
        }
        let mut i: usize = 0;
        while i < self.clients.len()
            invariant
                i <= self.clients@.len(),
                forall|a: int, b: int|
                    0 <= a < b < i ==> (#[trigger] self.clients@[a]).id
                        != (#[trigger] self.clients@[b]).id,
            decreases self.clients@.len() - i,
        {
            let mut a: usize = 0;
            while a < i
                invariant
                    a <= i < self.clients@.len(),
                    forall|x: int| 0 <= x < a ==> (#[trigger] self.clients@[x]).id != self.clients@[i as int].id,
                decreases i - a,
            {
                if self.clients[a].id == self.clients[i].id {
                    return false;
                }
                a += 1;
            }
            i += 1;
        }
        true
    }

    /// Forgets a client that went away; returns whether it was there.
    pub fn remove_client(&mut self, client_id: u64) -> (r: bool)
        requires
            old(self).wf(),
        ensures
            final(self).wf(),
            r == (client_slot(old(self)@, client_id) < old(self)@.clients.len()),
            final(self)@ == (if r {
                ServerView {
                    clients: old(self)@.clients.remove(client_slot(old(self)@, client_id)),
                    ..old(self)@
                }
            } else {
                old(self)@
            }),
    {
        let k = self.client_position(client_id);
        if k < self.clients.len() {
            let ghost cs = self.clients@;
            self.clients.remove(k);
            proof {
                assert(self@.clients =~= old(self)@.clients.remove(k as int));
                assert forall|a: int, b: int|
                    0 <= a < b < self.clients@.len() implies (#[trigger] self.clients@[a]).id
                        != (#[trigger] self.clients@[b]).id by {
                    let a0 = if a < k { a } else { a + 1 };
                    let b0 = if b < k { b } else { b + 1 };
                    assert(self.clients@[a] == cs[a0] && self.clients@[b] == cs[b0]);
                }
            }
            true
        } else {
            false
        }
    }

    /// Makes the tab `tab_number` of `workspace_id` focus `pane_id` (see [`focus_tab_pane`]).
    fn focus_tab(&mut self, workspace_id: &String, tab_number: usize, pane_id: PaneId)
        ensures
            final(self)@ == (ServerView {
                tab_focus: focus_tab_pane(old(self)@.tab_focus, workspace_id@, tab_number, pane_id),
                ..old(self)@
            }),
            final(self).app == old(self).app,
            final(self).clients == old(self).clients,
    {
        let mut old_focus: Vec<TabFocus> = Vec::new();
        std::mem::swap(&mut old_focus, &mut self.tab_focus);
        let ghost fv = old_focus@.map_values(tab_focus_view());
        let ghost keep = other_tab(workspace_id@, tab_number);
        let mut kept: Vec<TabFocus> = Vec::new();
        let mut k: usize = 0;
        while k < old_focus.len()
            invariant
                k <= old_focus@.len(),
                fv == old_focus@.map_values(tab_focus_view()),
                keep == other_tab(workspace_id@, tab_number),
                kept@.map_values(tab_focus_view()) == fv.take(k as int).filter(keep),
            decreases old_focus@.len() - k,
        {
            proof {
                assert(fv.take(k + 1) =~= fv.take(k as int).push(fv[k as int]));
                fv.take(k as int).lemma_filter_push(fv[k as int], keep);
            }
            let f = &old_focus[k];
            if !(f.workspace_id == *workspace_id && f.tab_number == tab_number) {
                let ghost kb = kept@;
                let c = TabFocus { workspace_id: f.workspace_id.clone(), tab_number: f.tab_number, pane_id: f.pane_id };
                kept.push(c);
                proof {
                    assert(kept@.map_values(tab_focus_view()) =~= kb.map_values(tab_focus_view()).push(
                        tab_focus_view()(c),
                    ));
                }
            }
            k += 1;
        }
        proof {
            assert(fv.take(old_focus@.len() as int) =~= fv);
        }
        let ghost kb = kept@;
        let c = TabFocus { workspace_id: workspace_id.clone(), tab_number, pane_id };
        kept.push(c);
        proof {
            assert(kept@.map_values(tab_focus_view()) =~= kb.map_values(tab_focus_view()).push(
                tab_focus_view()(c),
            ));
        }
        self.tab_focus = kept;
    }

    /// Position of the client, or the number of clients.
    fn client_position(&self, id: u64) -> (r: usize)
        ensures
            r == client_slot(self@, id),
            r <= self.clients@.len(),
    {
        let ghost cs = self@.clients;
        let mut i: usize = 0;
        while i < self.clients.len()
            invariant
                i <= self.clients@.len(),
                cs == self.clients@.map_values(client_view()),
                forall|j: int| 0 <= j < i ==> !(#[trigger] client_has(id)(cs[j])),
            decreases self.clients@.len() - i,
        {
            if self.clients[i].id == id {
                proof {
                    lemma_first_index_is(cs, client_has(id), i as int);
                }
                return i;
            }
            i += 1;
        }
        proof {
            lemma_first_index_none(cs, client_has(id));
        }
        i
    }

    /// The queued pane that `source` names (see [`target_v`]).
    pub fn queued_attention_target(&self, source: &String) -> (r: Option<AttentionSourceTarget>)
        ensures
            crate::dock::opt_target_view(r) == target_v(self@, source@),
    {
        let pid = match self.app.parse_current_public_pane_id(source) {
            Some((_, pid)) => pid,
            None => {
                return None;
            },
        };
        let target = match self.app.state.attention_target(pid) {
            Some(t) => t,
            None => {
                return None;
            },
        };
        if target.public_pane_id == *source {
            Some(target)
        } else {
            None
        }
    }

    /// The terminal attached to the pane.
    fn pane_terminal_of(&self, pid: PaneId) -> (r: Option<TerminalId>)
        ensures
            r == pane_terminal(self@.ws, pid),
    {
        match self.app.find_pane(pid) {
            Some((_, p)) => Some(p.attached_terminal_id),
            None => None,
        }
    }

    /// The lease a view request is granted, if any (see [`resolve_v`]).
    pub fn resolve_attention_view(&self, params: &AttentionViewParams) -> (r: Option<AttentionViewLease>)
        ensures
            opt_lease(r) == resolve_v(self@, *params),
    {
        if params.cols == 0 || params.rows == 0 || params.cols > ATTENTION_VIEW_MAX || params.rows
            > ATTENTION_VIEW_MAX {
            return None;
        }
        let source_pane_id = match &params.source_pane_id {
            Some(s) => s.clone(),
            None => {
                return None;
            },
        };
        let target = match self.queued_attention_target(&source_pane_id) {
            Some(t) => t,
            None => {
                return None;
            },
        };
        let terminal_id = match self.pane_terminal_of(target.pane_id) {
            Some(t) => t,
            None => {
                return None;
            },
        };
        Some(
            AttentionViewLease {
                source_pane_id,
                terminal_id,
                cols: if params.cols < 4 {
                    4
                } else {
                    params.cols
                },
                rows: if params.rows < 2 {
                    2
                } else {
                    params.rows
                },
                view_id: params.view_id,
            },
        )
    }

    /// Whether the client at position `k` matches `source` (see [`client_matches`]).
    fn client_matches_at(&self, k: usize, source: &String) -> (r: bool)
        requires
            k < self.clients@.len(),
        ensures
            r == client_matches(self@, self@.clients[k as int], source@),
    {
        let c = &self.clients[k];
        if !c.active_shell {
            return false;
        }
        let lease = match &c.attention_view {
            Some(l) => l,
            None => {
                return false;
            },
        };
        if !(lease.source_pane_id == *source) {
            return false;
        }
        match self.queued_attention_target(source) {
            None => false,
            Some(t) => match self.pane_terminal_of(t.pane_id) {
                Some(tid) => tid == lease.terminal_id,
                None => false,
            },
        }
    }

    /// Whether the client's lease still names `source` as a queued pane on the leased
    /// terminal, and the client is an active shell.
    pub fn attention_view_matches(&self, client_id: u64, source: &String) -> (r: bool)
        ensures
            r == view_matches_v(self@, client_id, source@),
    {
        let k = self.client_position(client_id);
        if k < self.clients.len() {
            self.client_matches_at(k, source)
        } else {
            false
        }
    }

    /// Ends the lease of the client at position `k`, if it has one.
    fn clear_at(&mut self, k: usize, releases: &mut Vec<InputRelease>) -> (r: bool)
        requires
            k < old(self).clients@.len(),
        ensures
            r == old(self)@.clients[k as int].lease is Some,
            r ==> final(self)@ == (ServerView {
                clients: old(self)@.clients.update(k as int, cleared(old(self)@.clients[k as int])),
                ..old(self)@
            }),
            !r ==> final(self)@ == old(self)@,
            final(self).app == old(self).app,
            final(self).tab_focus == old(self).tab_focus,
            forall|j: int|
                0 <= j < old(self).clients@.len() ==> (#[trigger] final(self).clients@[j]).id
                    == old(self).clients@[j].id,
            final(self).clients@.len() == old(self).clients@.len(),
            final(releases)@.map_values(release_view()) == old(releases)@.map_values(release_view())
                + releases_of(old(self)@.clients[k as int]),
    {
        let lease = match &self.clients[k].attention_view {
            Some(l) => copy_lease(l),
            None => {
                proof {
                    assert(releases@.map_values(release_view()) =~= old(releases)@.map_values(
                        release_view(),
                    ) + releases_of(old(self)@.clients[k as int]));
                }
                return false;
            },
        };
        let ghost c0 = self@.clients[k as int];
        let ghost r0 = releases@.map_values(release_view());
        let held = &self.clients[k].held_inputs;
        let ghost hv = held@.map_values(held_input_view());
        assert(hv == c0.held);
        let mut j: usize = 0;
        while j < held.len()
            invariant
                j <= held@.len(),
                hv == held@.map_values(held_input_view()),
                releases@.map_values(release_view()) == r0 + hv.take(j as int).map_values(
                    release_of_held(lease@),
                ),
            decreases held@.len() - j,
        {
            let h = &held[j];
            let ghost before = releases@;
            let rel = if h.target == lease.source_pane_id {
                InputRelease::Terminal { terminal_id: lease.terminal_id, key: h.key }
            } else {
                InputRelease::Host { target: h.target.clone(), key: h.key }
            };
            releases.push(rel);
            proof {
                assert(hv.take(j + 1) =~= hv.take(j as int).push(hv[j as int]));
                assert(hv.take(j + 1).map_values(release_of_held(lease@)) =~= hv.take(
                    j as int,
                ).map_values(release_of_held(lease@)).push(release_of_held(lease@)(hv[j as int])));
                assert(releases@.map_values(release_view()) =~= before.map_values(release_view()).push(
                    release_view()(rel),
                ));
            }
            j += 1;
        }
        proof {
            assert(hv.take(held@.len() as int) =~= hv);
        }
        self.clients[k].attention_view = None;
        self.clients[k].attention_surface = None;
        self.clients[k].attention_render_pending = false;
        self.clients[k].held_inputs = Vec::new();
        proof {
            assert(self.clients@[k as int].held_inputs@.map_values(held_input_view()) =~= Seq::empty());
            assert(self@.clients[k as int] == cleared(c0));
            assert(self@.clients =~= old(self)@.clients.update(k as int, cleared(c0)));
        }
        true
    }

    /// Ends the client's attention view: forgets its lease, its delivered surface and its
    /// pending render, and releases every key it holds (see [`release_of_held`]). Returns
    /// whether the client had a lease; without one nothing changes.
    pub fn clear_attention_view(&mut self, client_id: u64, releases: &mut Vec<InputRelease>) -> (r: bool)
        requires
            old(self).wf(),
        ensures
            final(self).wf(),
            ({
                let (s, changed, rel) = clear_v(old(self)@, client_id);
                &&& final(self)@ == s
                &&& r == changed
                &&& final(releases)@.map_values(release_view()) == old(releases)@.map_values(
                    release_view(),
                ) + rel
            }),
    {
        let k = self.client_position(client_id);
        if k < self.clients.len() {
            proof {
                lemma_first_index_bounds(self@.clients, client_has(client_id));
            }
            self.clear_at(k, releases)
        } else {
            proof {
                assert(releases@.map_values(release_view()) =~= old(releases)@.map_values(
                    release_view(),
                ) + Seq::<ReleaseView>::empty());
            }
            false
        }
    }

    /// Answers a client shell's attention request (see [`request_v`]); key releases owed
    /// when a view ends are appended to `releases`.
    pub fn handle_client_shell_attention_request(
        &mut self,
        client_id: u64,
        request: AttentionRequest,
        releases: &mut Vec<InputRelease>,
    ) -> (r: AttentionReply)
        requires
            old(self).wf(),
        ensures
            final(self).wf(),
            ({
                let (s, changed, result, jump, rel) = request_v(old(self)@, client_id, request);
                &&& final(self)@ == s
                &&& r.changed == changed
                &&& r.result == result
                &&& crate::dock::opt_target_view(r.jump) == jump
                &&& final(releases)@.map_values(release_view()) == old(releases)@.map_values(
                    release_view(),
                ) + rel
            }),
    {
        let k = self.client_position(client_id);
        let none: Option<AttentionSourceTarget> = None;
        if self.handoff_in_progress || !(k < self.clients.len() && self.clients[k].active_shell) {
            proof {
                assert(releases@.map_values(release_view()) =~= old(releases)@.map_values(
                    release_view(),
                ) + Seq::<ReleaseView>::empty());
            }
            return AttentionReply {
                changed: false,
                result: Err(AttentionError::InactiveConnection),
                jump: none,
            };
        }
        proof {
            lemma_first_index_bounds(self@.clients, client_has(client_id));
        }
        match request {
            AttentionRequest::View(params) => {
                if params.source_pane_id.is_none() {
                    let changed = self.clear_attention_view(client_id, releases);
                    return AttentionReply { changed, result: Ok(()), jump: none };
                }
                match self.resolve_attention_view(&params) {
                    Some(lease) => {
                        let same = match &self.clients[k].attention_view {
                            Some(current) => same_lease(current, &lease),
                            None => false,
                        };
                        if same {
                            proof {
                                assert(releases@.map_values(release_view()) =~= old(
                                    releases,
                                )@.map_values(release_view()) + Seq::<ReleaseView>::empty());
                            }
                            return AttentionReply { changed: false, result: Ok(()), jump: none };
                        }
                        self.clear_attention_view(client_id, releases);
                        let ghost cv = self@.clients[k as int];
                        let ghost lv = lease@;
                        assert(self@.clients.len() == old(self)@.clients.len());
                        assert(k < self.clients@.len());
                        self.clients[k].attention_view = Some(lease);
                        proof {
                            let s1 = clear_v(old(self)@, client_id).0;
                            assert(self@.clients =~= s1.clients.update(
                                k as int,
                                ClientView { lease: Some(lv), ..s1.clients[k as int] },
                            ));
                        }
                        AttentionReply { changed: true, result: Ok(()), jump: none }
                    },
                    None => {
                        proof {
                            assert(releases@.map_values(release_view()) =~= old(releases)@.map_values(
                                release_view(),
                            ) + Seq::<ReleaseView>::empty());
                        }
                        AttentionReply {
                            changed: false,
                            result: Err(AttentionError::StaleView),
                            jump: none,
                        }
                    },
                }
            },
            AttentionRequest::Acknowledge { source_pane_id } => {
                match self.queued_attention_target(&source_pane_id) {
                    Some(target) => {
                        let dismissed = self.app.state.dismiss_attention(target.pane_id);
                        assert(dismissed);
                        assert(self@ == (ServerView {
                            dock: dismissed_dock(old(self)@.dock, target.pane_id),
                            ..old(self)@
                        }));
                        self.reconcile_attention_views(releases);
                        AttentionReply { changed: dismissed, result: Ok(()), jump: none }
                    },
                    None => {
                        proof {
                            assert(releases@.map_values(release_view()) =~= old(releases)@.map_values(
                                release_view(),
                            ) + Seq::<ReleaseView>::empty());
                        }
                        AttentionReply {
                            changed: false,
                            result: Err(AttentionError::NotQueued),
                            jump: none,
                        }
                    },
                }
            },
            AttentionRequest::Jump { source_pane_id } => {
                match self.queued_attention_target(&source_pane_id) {
                    Some(target) => {
                        self.clear_attention_view(client_id, releases);
                        let ghost s1 = self@;
                        assert(self@.clients.len() == old(self)@.clients.len());
                        assert(k < self.clients@.len());
                        let location = ShellLocation {
                            workspace_id: target.workspace_id.clone(),
                            tab_number: target.tab_number,
                            pane_id: target.pane_id,
                        };
                        let ghost lv = location_view(Some(location));
                        self.clients[k].shell_location = Some(location);
                        proof {
                            assert(self@.clients =~= s1.clients.update(
                                k as int,
                                ClientView { location: lv, ..s1.clients[k as int] },
                            ));
                        }
                        self.focus_tab(&target.workspace_id, target.tab_number, target.pane_id);
                        AttentionReply { changed: true, result: Ok(()), jump: Some(target) }
                    },
                    None => {
                        proof {
                            assert(releases@.map_values(release_view()) =~= old(releases)@.map_values(
                                release_view(),
                            ) + Seq::<ReleaseView>::empty());
                        }
                        AttentionReply {
                            changed: false,
                            result: Err(AttentionError::NotQueued),
                            jump: none,
                        }
                    },
                }
            },
            _ => {
                proof {
                    assert(releases@.map_values(release_view()) =~= old(releases)@.map_values(
                        release_view(),
                    ) + Seq::<ReleaseView>::empty());
                }
                AttentionReply { changed: false, result: Err(AttentionError::NotProjected), jump: none }
            },
        }
    }

    /// The client ids are distinct in the view.
    proof fn lemma_view_ids(&self)
        requires
            self.wf(),
        ensures
            ids_distinct(self@.clients),
    {
        assert forall|i: int, j: int|
            0 <= i < self@.clients.len() && 0 <= j < self@.clients.len() && i != j implies (
            #[trigger] self@.clients[i]).id != (#[trigger] self@.clients[j]).id by {
            if i < j {
                assert(self.clients@[i].id != self.clients@[j].id);
            } else {
                assert(self.clients@[j].id != self.clients@[i].id);
            }
        }
    }

    /// Every streaming lease, by increasing client id.
    fn streaming_entries(&self) -> (all: Vec<PlanEntry>)
        requires
            self.wf(),
        ensures
            sorted_ids(all@),
            all_sound(all@, self@.clients, self@.clients.len() as int),
            all_complete(all@, self@.clients, self@.clients.len() as int),
    {
        let ghost cs = self@.clients;
        proof {
            self.lemma_view_ids();
        }
        let mut all: Vec<PlanEntry> = Vec::new();
        let mut k: usize = 0;
        while k < self.clients.len()
            invariant
                k <= self.clients@.len(),
                cs == self@.clients,
                ids_distinct(cs),
                sorted_ids(all@),
                all_sound(all@, cs, k as int),
                all_complete(all@, cs, k as int),
            decreases self.clients@.len() - k,
        {
            let c = &self.clients[k];
            let ghost before = all@;
            if c.active_shell && c.has_writer {
                match &c.attention_view {
                    Some(l) => {
                        let lease = copy_lease(l);
                        let id = c.id;
                        let mut p: usize = 0;
                        while p < all.len() && all[p].client_id < id
                            invariant
                                p <= all@.len(),
                                forall|a: int| 0 <= a < p ==> (#[trigger] all@[a]).client_id < id,
                            decreases all@.len() - p,
                        {
                            p += 1;
                        }
                        let e = PlanEntry { client_id: id, lease, priority: c.render_priority };
                        proof {
                            assert forall|a: int| 0 <= a < before.len() implies (
                            #[trigger] before[a]).client_id != id by {
                                assert(entry_sound(cs, k as int, before[a]));
                                let j = choose|j: int|
                                    0 <= j < k && #[trigger] streams_as(
                                        cs,
                                        j,
                                        before[a].client_id,
                                        before[a].lease@,
                                        before[a].priority,
                                    );
                                assert(cs[j].id != cs[k as int].id);
                            }
                            assert forall|a: int| p <= a < before.len() implies (
                            #[trigger] before[a]).client_id > id by {
                                if a > p {
                                    assert(before[p as int].client_id < before[a].client_id);
                                }
                            }
                            lemma_insert_entry(before, p as int, e);
                            assert(streams_as(cs, k as int, e.client_id, e.lease@, e.priority));
                        }
                        all.insert(p, e);
                        proof {
                            assert forall|a: int| 0 <= a < all@.len() implies entry_sound(
                                cs,
                                k + 1,
                                #[trigger] all@[a],
                            ) by {
                                if all@[a] == e {
                                    assert(streams_as(cs, k as int, e.client_id, e.lease@, e.priority));
                                } else {
                                    let b = choose|b: int| 0 <= b < before.len() && #[trigger] before[b] == all@[a];
                                    assert(entry_sound(cs, k as int, before[b]));
                                    let j = choose|j: int|
                                        0 <= j < k && #[trigger] streams_as(
                                            cs,
                                            j,
                                            before[b].client_id,
                                            before[b].lease@,
                                            before[b].priority,
                                        );
                                }
                            }
                            assert forall|j: int| 0 <= j < k + 1 && streaming(#[trigger] cs[j]) implies has_id(
                                all@,
                                cs[j].id,
                            ) by {
                                if j == k {
                                    let a = choose|a: int| 0 <= a < all@.len() && #[trigger] all@[a] == e;
                                } else {
                                    assert(has_id(before, cs[j].id));
                                    let b = choose|b: int| 0 <= b < before.len() && (#[trigger] before[b]).client_id
                                        == cs[j].id;
                                    assert(has_entry(all@, before[b]));
                                    let a = choose|a: int| 0 <= a < all@.len() && #[trigger] all@[a] == before[b];
                                }
                            }
                        }
                    },
                    None => {
                        proof {
                            assert forall|a: int| 0 <= a < all@.len() implies entry_sound(
                                cs,
                                k + 1,
                                #[trigger] all@[a],
                            ) by {
                                assert(entry_sound(cs, k as int, all@[a]));
                                let j = choose|j: int|
                                    0 <= j < k && #[trigger] streams_as(
                                        cs,
                                        j,
                                        all@[a].client_id,
                                        all@[a].lease@,
                                        all@[a].priority,
                                    );
                            }
                        }
                    },
                }
            } else {
                proof {
                    assert forall|a: int| 0 <= a < all@.len() implies entry_sound(
                        cs,
                        k + 1,
                        #[trigger] all@[a],
                    ) by {
                        assert(entry_sound(cs, k as int, all@[a]));
                        let j = choose|j: int|
                            0 <= j < k && #[trigger] streams_as(
                                cs,
                                j,
                                all@[a].client_id,
                                all@[a].lease@,
                                all@[a].priority,
                            );
                    }
                }
            }
            k += 1;
        }
        all
    }

    /// Retires stale leases, then lists the leases to render in the round `before_host`
    /// (clients whose views render before the host's frame, or after it), by increasing
    /// client id, each marked with whether its client elects the terminal's size among all
    /// streaming clients.
    pub fn attention_stream_plan(&mut self, before_host: bool, releases: &mut Vec<InputRelease>) -> (r: Vec<StreamItem>)
        requires
            old(self).wf(),
        ensures
            final(self).wf(),
            ({
                let (s, _, rel) = reconcile_v(old(self)@);
                &&& final(self)@ == s
                &&& final(releases)@.map_values(release_view()) == old(releases)@.map_values(
                    release_view(),
                ) + rel
            }),
            forall|a: int, b: int|
                0 <= a < b < r@.len() ==> (#[trigger] r@[a]).client_id < (#[trigger] r@[b]).client_id,
            forall|a: int|
                0 <= a < r@.len() ==> item_streams(
                    final(self)@.clients,
                    (#[trigger] r@[a]).client_id,
                    r@[a].lease@,
                    before_host,
                ),
            forall|j: int|
                0 <= j < final(self)@.clients.len() && streaming(#[trigger] final(self)@.clients[j])
                    && final(self)@.clients[j].render_priority == before_host ==> exists|a: int|
                    0 <= a < r@.len() && (#[trigger] r@[a]).client_id == final(self)@.clients[j].id,
            forall|a: int|
                0 <= a < r@.len() ==> (#[trigger] r@[a]).owner == elects(
                    final(self)@.clients,
                    r@[a].client_id,
                    r@[a].lease@.source_pane_id,
                ),
    {
        self.reconcile_attention_views(releases);
        let ghost cs = self@.clients;
        proof {
            self.lemma_view_ids();
        }
        let all = self.streaming_entries();
        let mut out: Vec<StreamItem> = Vec::new();
        let mut i: usize = 0;
        while i < all.len()
            invariant
                i <= all@.len(),
                ids_distinct(cs),
                sorted_ids(all@),
                all_sound(all@, cs, cs.len() as int),
                all_complete(all@, cs, cs.len() as int),
                forall|a: int, b: int|
                    0 <= a < b < out@.len() ==> (#[trigger] out@[a]).client_id < (#[trigger] out@[b]).client_id,
                forall|a: int|
                    0 <= a < out@.len() ==> item_from(
                        all@,
                        i as int,
                        (#[trigger] out@[a]).client_id,
                        out@[a].lease@,
                        before_host,
                    ),
                forall|b: int|
                    0 <= b < i && (#[trigger] all@[b]).priority == before_host ==> exists|a: int|
                        0 <= a < out@.len() && (#[trigger] out@[a]).client_id == all@[b].client_id,
                forall|a: int|
                    0 <= a < out@.len() ==> (#[trigger] out@[a]).owner == elects(
                        cs,
                        out@[a].client_id,
                        out@[a].lease@.source_pane_id,
                    ),
                forall|a: int|
                    0 <= a < out@.len() ==> id_from(all@, i as int, (#[trigger] out@[a]).client_id),
            decreases all@.len() - i,
        {
            if all[i].priority == before_host {
                let mut owner = true;
                let mut b: usize = 0;
                while b < i
                    invariant
                        b <= i < all@.len(),
                        owner == forall|x: int| 0 <= x < b ==> (#[trigger] all@[x]).lease@.source_pane_id
                            != all@[i as int].lease@.source_pane_id,
                    decreases i - b,
                {
                    if all[b].lease.source_pane_id == all[i].lease.source_pane_id {
                        owner = false;
                    }
                    b += 1;
                }
                proof {
                    lemma_owner(all@, cs, i as int);
                }
                let item = StreamItem {
                    client_id: all[i].client_id,
                    lease: copy_lease(&all[i].lease),
                    owner,
                };
                let ghost ob = out@;
                out.push(item);
                proof {
                    assert forall|a: int, c: int| 0 <= a < c < out@.len() implies (
                    #[trigger] out@[a]).client_id < (#[trigger] out@[c]).client_id by {
                        if c == ob.len() {
                            let x = choose|x: int| 0 <= x < i && (#[trigger] all@[x]).client_id
                                == out@[a].client_id;
                            assert(out@[a] == ob[a]);
                        } else {
                            assert(out@[a] == ob[a] && out@[c] == ob[c]);
                        }
                    }
                    assert forall|a: int| 0 <= a < out@.len() implies item_from(
                        all@,
                        i + 1,
                        (#[trigger] out@[a]).client_id,
                        out@[a].lease@,
                        before_host,
                    ) by {
                        if a == ob.len() {
                            assert(all@[i as int].client_id == out@[a].client_id);
                        } else {
                            assert(out@[a] == ob[a]);
                            let x = choose|x: int|
                                0 <= x < i && (#[trigger] all@[x]).client_id == ob[a].client_id
                                    && all@[x].lease@ == ob[a].lease@ && all@[x].priority == before_host;
                        }
                    }
                    assert forall|x: int| 0 <= x < i + 1 && (#[trigger] all@[x]).priority == before_host implies exists|a: int|
                        0 <= a < out@.len() && (#[trigger] out@[a]).client_id == all@[x].client_id by {
                        if x == i {
                            assert(out@[ob.len() as int] == item);
                        } else {
                            let a = choose|a: int| 0 <= a < ob.len() && (#[trigger] ob[a]).client_id == all@[x].client_id;
                            assert(out@[a] == ob[a]);
                        }
                    }
                    assert forall|a: int| 0 <= a < out@.len() implies (#[trigger] out@[a]).owner == elects(
                        cs,
                        out@[a].client_id,
                        out@[a].lease@.source_pane_id,
                    ) by {
                        if a < ob.len() {
                            assert(out@[a] == ob[a]);
                        }
                    }
                    assert forall|a: int| 0 <= a < out@.len() implies id_from(
                        all@,
                        i + 1,
                        (#[trigger] out@[a]).client_id,
                    ) by {
                        if a < ob.len() {
                            assert(out@[a] == ob[a]);
                            let x = choose|x: int| 0 <= x < i && (#[trigger] all@[x]).client_id == ob[a].client_id;
                        } else {
                            assert(all@[i as int].client_id == out@[a].client_id);
                        }
                    }
                }
            } else {
                proof {
                    assert forall|a: int| 0 <= a < out@.len() implies item_from(
                        all@,
                        i + 1,
                        (#[trigger] out@[a]).client_id,
                        out@[a].lease@,
                        before_host,
                    ) by {
                        let x = choose|x: int|
                            0 <= x < i && (#[trigger] all@[x]).client_id == out@[a].client_id
                                && all@[x].lease@ == out@[a].lease@ && all@[x].priority == before_host;
                    }
                    assert forall|a: int| 0 <= a < out@.len() implies id_from(
                        all@,
                        i + 1,
                        (#[trigger] out@[a]).client_id,
                    ) by {
                        let x = choose|x: int| 0 <= x < i && (#[trigger] all@[x]).client_id == out@[a].client_id;
                    }
                }
            }
            i += 1;
        }
        proof {
            assert forall|a: int| 0 <= a < out@.len() implies item_streams(
                cs,
                (#[trigger] out@[a]).client_id,
                out@[a].lease@,
                before_host,
            ) by {
                let x = choose|x: int|
                    0 <= x < all@.len() && (#[trigger] all@[x]).client_id == out@[a].client_id
                        && all@[x].lease@ == out@[a].lease@ && all@[x].priority == before_host;
                assert(entry_sound(cs, cs.len() as int, all@[x]));
                let j = choose|j: int|
                    0 <= j < cs.len() && #[trigger] streams_as(cs, j, all@[x].client_id, all@[x].lease@, all@[x].priority);
                assert(streams_as(cs, j, out@[a].client_id, out@[a].lease@, before_host));
            }
            assert forall|j: int|
                0 <= j < cs.len() && streaming(#[trigger] cs[j]) && cs[j].render_priority == before_host
                    implies exists|a: int| 0 <= a < out@.len() && (#[trigger] out@[a]).client_id == cs[j].id by {
                let x = lemma_entry_of_client(all@, cs, j);
            }
        }
        out
    }

    /// The client's delivered surface is the same as `surface`: nothing to send; its pending
    /// render is settled. Returns whether it was the same; otherwise nothing changes.
    pub fn note_unchanged_attention_surface(&mut self, client_id: u64, surface: &EndpointAttentionSurface) -> (r: bool)
        requires
            old(self).wf(),
        ensures
            final(self).wf(),
            ({
                let i = client_slot(old(self)@, client_id);
                &&& r == (i < old(self)@.clients.len() && old(self)@.clients[i].surface == Some(
                    surface@,
                ))
                &&& final(self)@ == if r {
                    ServerView {
                        clients: old(self)@.clients.update(
                            i,
                            ClientView { render_pending: false, ..old(self)@.clients[i] },
                        ),
                        ..old(self)@
                    }
                } else {
                    old(self)@
                }
            }),
    {
        let k = self.client_position(client_id);
        if k >= self.clients.len() {
            return false;
        }
        let same = match &self.clients[k].attention_surface {
            Some(last) => same_surface(last, surface),
            None => false,
        };
        if same {
            let ghost c = self@.clients[k as int];
            self.clients[k].attention_render_pending = false;
            proof {
                assert(self@.clients =~= old(self)@.clients.update(
                    k as int,
                    ClientView { render_pending: false, ..c },
                ));
            }
        }
        same
    }

    /// Records what became of a surface handed to the client's render channel: when sent it
    /// is the client's delivered surface and nothing is pending; when the channel is full the
    /// render stays pending and a full render is deferred. Returns whether the client is gone
    /// (its channel is closed) and must be removed.
    pub fn record_attention_send(
        &mut self,
        client_id: u64,
        surface: EndpointAttentionSurface,
        outcome: SendOutcome,
    ) -> (r: bool)
        requires
            old(self).wf(),
        ensures
            final(self).wf(),
            r == (outcome == SendOutcome::Disconnected),
            ({
                let i = client_slot(old(self)@, client_id);
                let c = old(self)@.clients[i];
                final(self)@ == if i < old(self)@.clients.len() && outcome == SendOutcome::Sent {
                    ServerView {
                        clients: old(self)@.clients.update(
                            i,
                            ClientView { surface: Some(surface@), render_pending: false, ..c },
                        ),
                        ..old(self)@
                    }
                } else if i < old(self)@.clients.len() && outcome == SendOutcome::Full {
                    ServerView {
                        clients: old(self)@.clients.update(
                            i,
                            ClientView { render_pending: true, full_render_deferred: true, ..c },
                        ),
                        ..old(self)@
                    }
                } else {
                    old(self)@
                }
            }),
    {
        let k = self.client_position(client_id);
        if k >= self.clients.len() {
            return outcome == SendOutcome::Disconnected;
        }
        let ghost c = self@.clients[k as int];
        match outcome {
            SendOutcome::Sent => {
                let ghost sv = surface@;
                self.clients[k].attention_surface = Some(surface);
                self.clients[k].attention_render_pending = false;
                proof {
                    assert(self@.clients =~= old(self)@.clients.update(
                        k as int,
                        ClientView { surface: Some(sv), render_pending: false, ..c },
                    ));
                }
                false
            },
            SendOutcome::Full => {
                self.clients[k].attention_render_pending = true;
                self.clients[k].full_render_deferred = true;
                proof {
                    assert(self@.clients =~= old(self)@.clients.update(
                        k as int,
                        ClientView { render_pending: true, full_render_deferred: true, ..c },
                    ));
                }
                false
            },
            SendOutcome::Disconnected => true,
        }
    }

    /// Retires every lease that no longer matches (see [`reconcile_v`]); returns whether any
    /// was retired.
    pub fn reconcile_attention_views(&mut self, releases: &mut Vec<InputRelease>) -> (r: bool)
        requires
            old(self).wf(),
        ensures
            final(self).wf(),
            ({
                let (s, changed, rel) = reconcile_v(old(self)@);
                &&& final(self)@ == s
                &&& r == changed
                &&& final(releases)@.map_values(release_view()) == old(releases)@.map_values(
                    release_view(),
                ) + rel
            }),
    {
        let ghost s0 = self@;
        let ghost r0 = releases@.map_values(release_view());
        let mut changed = false;
        let mut k: usize = 0;
        while k < self.clients.len()
            invariant
                k <= self.clients@.len(),
                self.clients@.len() == s0.clients.len(),
                self.app == old(self).app,
                self.handoff_in_progress == old(self).handoff_in_progress,
                self.tab_focus == old(self).tab_focus,
                s0 == old(self)@,
                old(self).wf(),
                forall|j: int|
                    0 <= j < self.clients@.len() ==> (#[trigger] self.clients@[j]).id
                        == old(self).clients@[j].id,
                forall|j: int| 0 <= j < k ==> #[trigger] self@.clients[j] == reconciled(s0)(s0.clients[j]),
                forall|j: int| k <= j < s0.clients.len() ==> #[trigger] self@.clients[j] == s0.clients[j],
                changed == exists|j: int| 0 <= j < k && stale(s0)(#[trigger] s0.clients[j]),
                releases@.map_values(release_view()) == r0 + s0.clients.take(k as int).map_values(
                    stale_releases(s0),
                ).flatten(),
            decreases self.clients@.len() - k,
        {
            let ghost before = releases@.map_values(release_view());
            let ghost c = s0.clients[k as int];
            assert(self@.clients[k as int] == c);
            proof {
                assert(s0.clients.take(k + 1) =~= s0.clients.take(k as int).push(c));
                assert(s0.clients.take(k + 1).map_values(stale_releases(s0)) =~= s0.clients.take(
                    k as int,
                ).map_values(stale_releases(s0)).push(stale_releases(s0)(c)));
                s0.clients.take(k as int).map_values(stale_releases(s0)).lemma_flatten_push(
                    stale_releases(s0)(c),
                );
            }
            let source = match &self.clients[k].attention_view {
                Some(l) => Some(l.source_pane_id.clone()),
                None => None,
            };
            match source {
                Some(src) => {
                    let ok = self.client_matches_at(k, &src);
                    assert(self@.ws == s0.ws && self@.dock == s0.dock);
                    if !ok {
                        self.clear_at(k, releases);
                        changed = true;
                    } else {
                        proof {
                            assert(releases@.map_values(release_view()) =~= before + Seq::<
                                ReleaseView,
                            >::empty());
                        }
                    }
                },
                None => {
                    proof {
                        assert(releases@.map_values(release_view()) =~= before + Seq::<
                            ReleaseView,
                        >::empty());
                    }
                },
            }
            k += 1;
        }
        proof {
            assert(s0.clients.take(k as int) =~= s0.clients);
            assert(self@.clients =~= s0.clients.map_values(reconciled(s0)));
        }
        changed
    }
}

} // verus!
