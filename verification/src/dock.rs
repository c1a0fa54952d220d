//! The host's attention queue: panes whose agent is blocked, or finished unseen, wait here
//! in arrival order until the user looks at them, dismisses them, or they go back to work.
use crate::pane_ids::{public_pane_id_for_number, public_pane_id_view};
use crate::seqs::{
    first_index, lemma_filter_contained, lemma_filter_pairwise, lemma_first_index_bounds,
    lemma_first_index_is, lemma_first_index_none,
};
use crate::topology::{
    all_panes, attention_eligible_spec, collect_all_panes, find_terminal, attention_eligible,
    terminal_lookup, workspace_index_for_pane, ws_has_pane, ws_index, ws_public_number,
    ws_tab_index, ws_terminal_id, AgentState, PaneId, PaneState, TerminalState, Workspace,
};
use crate::ATTENTION_DEBOUNCE_MS;
use vstd::prelude::*;

verus! {

/// Why a pane asks for attention.
#[derive(Clone, Copy, PartialEq, Eq, Debug, Structural)]
pub enum AttentionKind {
    Blocked,
    Done,
}

/// A ready queue entry as the host shows it.
#[derive(Clone, Copy, PartialEq, Eq, Debug, Structural)]
pub struct AttentionQueueItem {
    pub pane_id: PaneId,
    pub kind: AttentionKind,
    pub sequence: u64,
}

/// A queue entry. It is shown once `ready`; it becomes ready at `eligible_at`
/// (milliseconds on the host's monotonic clock).
#[derive(Clone, Copy, PartialEq, Eq, Debug, Structural)]
pub struct AttentionEntry {
    pub pane_id: PaneId,
    pub kind: AttentionKind,
    pub sequence: u64,
    pub eligible_at: u64,
    pub ready: bool,
}

/// The queue, the panes whose attention was dismissed, and the last sequence number given.
#[derive(Clone, Debug)]
pub struct AttentionDockState {
    pub queue: Vec<AttentionEntry>,
    pub dismissed: Vec<PaneId>,
    pub next_sequence: u64,
}

/// The abstract value of an [`AttentionDockState`].
pub struct DockView {
    pub queue: Seq<AttentionEntry>,
    pub dismissed: Seq<PaneId>,
    pub next_sequence: u64,
}

impl View for AttentionDockState {
    type V = DockView;

    open spec fn view(&self) -> DockView {
        DockView {
            queue: self.queue@,
            dismissed: self.dismissed@,
            next_sequence: self.next_sequence,
        }
    }
}

/// The host state that the attention logic reads and changes.
#[derive(Clone, Debug)]
pub struct AppState {
    pub workspaces: Vec<Workspace>,
    pub terminals: Vec<TerminalState>,
    pub attention_dock: AttentionDockState,
}

/// A queued pane resolved to where it lives and how it is publicly named.
#[derive(Clone, Debug)]
pub struct AttentionSourceTarget {
    pub workspace_id: String,
    pub tab_number: usize,
    pub pane_id: PaneId,
    pub public_pane_id: String,
}

/// The abstract value of an [`AttentionSourceTarget`].
pub struct TargetView {
    pub workspace_id: Seq<char>,
    pub tab_number: usize,
    pub pane_id: PaneId,
    pub public_pane_id: Seq<char>,
}

impl View for AttentionSourceTarget {
    type V = TargetView;

    open spec fn view(&self) -> TargetView {
        TargetView {
            workspace_id: self.workspace_id@,
            tab_number: self.tab_number,
            pane_id: self.pane_id,
            public_pane_id: self.public_pane_id@,
        }
    }
}

pub open spec fn opt_target_view(t: Option<AttentionSourceTarget>) -> Option<TargetView> {
    match t {
        Some(t) => Some(t@),
        None => None,
    }
}

/// The dock's invariant: sequence numbers strictly increase along the queue and never
/// exceed the last one given, no pane is queued twice, and no dismissed pane is queued.
pub open spec fn dock_wf(d: DockView) -> bool {
    let q = d.queue;
    &&& forall|i: int, j: int|
        #![trigger q[i], q[j]]
        0 <= i < j < q.len() ==> q[i].sequence < q[j].sequence && q[i].pane_id != q[j].pane_id
    &&& forall|i: int| 0 <= i < q.len() ==> #[trigger] q[i].sequence <= d.next_sequence
    &&& d.dismissed.no_duplicates()
    &&& forall|i: int| 0 <= i < q.len() ==> !d.dismissed.contains(#[trigger] q[i].pane_id)
}

/// What the dock's state promises of the topology: no pane is queued twice, no dismissed
/// pane is queued, and every queued pane is in the topology.
pub open spec fn dock_invariants(d: DockView, ws: Seq<Workspace>) -> bool {
    let q = d.queue;
    &&& forall|i: int, j: int|
        #![trigger q[i], q[j]]
        0 <= i < j < q.len() ==> q[i].pane_id != q[j].pane_id
    &&& forall|i: int| 0 <= i < q.len() ==> !d.dismissed.contains(#[trigger] q[i].pane_id)
    &&& forall|i: int| 0 <= i < q.len() ==> ws_index(ws, #[trigger] q[i].pane_id) < ws.len()
}

pub open spec fn pane_id_of() -> spec_fn(PaneState) -> PaneId {
    |p: PaneState| p.id
}

/// No pane identifier occurs twice in the topology.
pub open spec fn panes_unique(ws: Seq<Workspace>) -> bool {
    all_panes(ws).map_values(pane_id_of()).no_duplicates()
}

pub open spec fn entry_for(pid: PaneId) -> spec_fn(AttentionEntry) -> bool {
    |e: AttentionEntry| e.pane_id == pid
}

pub open spec fn entry_not_for(pid: PaneId) -> spec_fn(AttentionEntry) -> bool {
    |e: AttentionEntry| e.pane_id != pid
}

pub open spec fn id_not(pid: PaneId) -> spec_fn(PaneId) -> bool {
    |p: PaneId| p != pid
}

/// Position of the pane's entry in the queue, or the queue's length.
pub open spec fn queue_index(q: Seq<AttentionEntry>, pid: PaneId) -> int {
    first_index(q, entry_for(pid))
}

/// The pane has an entry in the queue that is ready to be shown.
pub open spec fn ready_queued(q: Seq<AttentionEntry>, pid: PaneId) -> bool {
    exists|i: int| 0 <= i < q.len() && #[trigger] q[i].pane_id == pid && q[i].ready
}

pub open spec fn debounced(now: u64) -> u64 {
    (now + ATTENTION_DEBOUNCE_MS) as u64
}

/// The kind of attention a transition asks for, before dismissals and queue state.
pub open spec fn observed_kind(previous: AgentState, state: AgentState, seen: bool) -> Option<
    AttentionKind,
> {
    if state == AgentState::Blocked {
        Some(AttentionKind::Blocked)
    } else if state == AgentState::Idle && !seen && previous != AgentState::Idle {
        Some(AttentionKind::Done)
    } else {
        None
    }
}

pub open spec fn pane_terminal_found(terms: Seq<TerminalState>, pid: PaneId) -> spec_fn(
    Workspace,
) -> bool {
    |w: Workspace|
        match ws_terminal_id(w, pid) {
            Some(t) => terminal_lookup(terms, t) is Some,
            None => false,
        }
}

/// The terminal of the first workspace that holds the pane and whose terminal is registered.
pub open spec fn observed_terminal(
    ws: Seq<Workspace>,
    terms: Seq<TerminalState>,
    pid: PaneId,
) -> Option<TerminalState> {
    let i = first_index(ws, pane_terminal_found(terms, pid));
    if i < ws.len() {
        terminal_lookup(terms, ws_terminal_id(ws[i], pid)->0)
    } else {
        None
    }
}

/// The dock after the pane's agent went from `previous` to `state` at time `now`, where
/// `terminal` is the terminal found for the pane.
pub open spec fn observe_spec(
    d: DockView,
    terminal: Option<TerminalState>,
    pid: PaneId,
    previous: AgentState,
    state: AgentState,
    seen: bool,
    now: u64,
) -> DockView {
    if state == AgentState::Working {
        DockView {
            queue: d.queue.filter(entry_not_for(pid)),
            dismissed: d.dismissed.filter(id_not(pid)),
            next_sequence: d.next_sequence,
        }
    } else if terminal matches Some(t) && !attention_eligible_spec(t) {
        DockView { queue: d.queue.filter(entry_not_for(pid)), ..d }
    } else if d.dismissed.contains(pid) {
        d
    } else {
        match observed_kind(previous, state, seen) {
            None => d,
            Some(kind) => {
                let k = queue_index(d.queue, pid);
                if k < d.queue.len() {
                    if kind == AttentionKind::Blocked && d.queue[k].kind
                        != AttentionKind::Blocked {
                        DockView {
                            queue: d.queue.update(
                                k,
                                AttentionEntry {
                                    kind: AttentionKind::Blocked,
                                    eligible_at: debounced(now),
                                    ready: false,
                                    ..d.queue[k]
                                },
                            ),
                            ..d
                        }
                    } else {
                        d
                    }
                } else {
                    DockView {
                        queue: d.queue.push(
                            AttentionEntry {
                                pane_id: pid,
                                kind,
                                sequence: (d.next_sequence + 1) as u64,
                                eligible_at: debounced(now),
                                ready: false,
                            },
                        ),
                        next_sequence: (d.next_sequence + 1) as u64,
                        ..d
                    }
                }
            },
        }
    }
}

pub open spec fn item_of() -> spec_fn(AttentionEntry) -> AttentionQueueItem {
    |e: AttentionEntry| AttentionQueueItem { pane_id: e.pane_id, kind: e.kind, sequence: e.sequence }
}

pub open spec fn ready_with_kind(k: AttentionKind) -> spec_fn(AttentionEntry) -> bool {
    |e: AttentionEntry| e.ready && e.kind == k
}

/// The ready entries, blocked ones first, each group in queue order.
pub open spec fn attention_entries_spec(q: Seq<AttentionEntry>) -> Seq<AttentionQueueItem> {
    (q.filter(ready_with_kind(AttentionKind::Blocked)) + q.filter(
        ready_with_kind(AttentionKind::Done),
    )).map_values(item_of())
}

pub open spec fn kind_rank(k: AttentionKind) -> int {
    match k {
        AttentionKind::Blocked => 0,
        AttentionKind::Done => 1,
    }
}

/// `a` comes strictly before `b` in (kind, sequence) order.
pub open spec fn item_before(a: AttentionQueueItem, b: AttentionQueueItem) -> bool {
    kind_rank(a.kind) < kind_rank(b.kind) || (kind_rank(a.kind) == kind_rank(b.kind)
        && a.sequence < b.sequence)
}

/// What `attention_target` returns.
pub open spec fn attention_target_spec(
    ws: Seq<Workspace>,
    q: Seq<AttentionEntry>,
    pid: PaneId,
) -> Option<TargetView> {
    if !ready_queued(q, pid) {
        None
    } else {
        let wi = ws_index(ws, pid);
        if wi >= ws.len() {
            None
        } else {
            let w = ws[wi];
            match ws_public_number(w, pid) {
                None => None,
                Some(n) => Some(
                    TargetView {
                        workspace_id: w.id@,
                        tab_number: w.tabs@[ws_tab_index(w, pid)].number,
                        pane_id: pid,
                        public_pane_id: public_pane_id_view(w.id@, n as nat),
                    },
                ),
            }
        }
    }
}

pub open spec fn eligible_pane(terms: Seq<TerminalState>) -> spec_fn(PaneState) -> bool {
    |p: PaneState|
        match terminal_lookup(terms, p.attached_terminal_id) {
            Some(t) => attention_eligible_spec(t),
            None => false,
        }
}

/// The panes of the topology whose terminal is registered and may take part in attention.
pub open spec fn eligible_pane_ids(ws: Seq<Workspace>, terms: Seq<TerminalState>) -> Seq<PaneId> {
    all_panes(ws).filter(eligible_pane(terms)).map_values(pane_id_of())
}

pub open spec fn entry_in(ids: Seq<PaneId>) -> spec_fn(AttentionEntry) -> bool {
    |e: AttentionEntry| ids.contains(e.pane_id)
}

pub open spec fn id_in(ids: Seq<PaneId>) -> spec_fn(PaneId) -> bool {
    |p: PaneId| ids.contains(p)
}

/// The dock with entries and dismissals of panes that are gone or no longer eligible removed.
pub open spec fn prune_spec(d: DockView, ws: Seq<Workspace>, terms: Seq<TerminalState>) -> DockView {
    let ids = eligible_pane_ids(ws, terms);
    DockView {
        queue: d.queue.filter(entry_in(ids)),
        dismissed: d.dismissed.filter(id_in(ids)),
        next_sequence: d.next_sequence,
    }
}

pub open spec fn is_due(e: AttentionEntry, now: u64) -> bool {
    !e.ready && e.eligible_at <= now
}

pub open spec fn mark_due(now: u64) -> spec_fn(AttentionEntry) -> AttentionEntry {
    |e: AttentionEntry|
        if is_due(e, now) {
            AttentionEntry { ready: true, ..e }
        } else {
            e
        }
}

/// Filtering keeps the dock's invariant.
pub proof fn lemma_filtered_dock_wf(
    d: DockView,
    fq: spec_fn(AttentionEntry) -> bool,
    fd: spec_fn(PaneId) -> bool,
)
    requires
        dock_wf(d),
    ensures
        dock_wf(DockView { queue: d.queue.filter(fq), dismissed: d.dismissed.filter(fd), ..d }),
{
    let q = d.queue;
    let r = |a: AttentionEntry, b: AttentionEntry| a.sequence < b.sequence && a.pane_id != b.pane_id;
    assert forall|i: int, j: int| #![trigger q[i], q[j]] 0 <= i < j < q.len() implies r(
        q[i],
        q[j],
    ) by {}
    lemma_filter_pairwise(q, fq, r);
    let fqs = q.filter(fq);
    let fds = d.dismissed.filter(fd);
    assert forall|i: int, j: int| #![trigger fqs[i], fqs[j]] 0 <= i < j < fqs.len() implies fqs[i].sequence
        < fqs[j].sequence && fqs[i].pane_id != fqs[j].pane_id by {
        assert(r(fqs[i], fqs[j]));
    }
    assert forall|i: int| 0 <= i < fqs.len() implies #[trigger] fqs[i].sequence <= d.next_sequence by {
        lemma_filter_contained(q, fq, i);
        let m = choose|m: int| 0 <= m < q.len() && q[m] == fqs[i];
        assert(q[m].sequence <= d.next_sequence);
    }
    assert forall|i: int| 0 <= i < fqs.len() implies !fds.contains(#[trigger] fqs[i].pane_id) by {
        lemma_filter_contained(q, fq, i);
        let m = choose|m: int| 0 <= m < q.len() && q[m] == fqs[i];
        assert(q[m].sequence <= d.next_sequence);
        assert(!d.dismissed.contains(q[m].pane_id));
        if fds.contains(fqs[i].pane_id) {
            let k = choose|k: int| 0 <= k < fds.len() && fds[k] == fqs[i].pane_id;
            lemma_filter_contained(d.dismissed, fd, k);
        }
    }
    let ne = |a: PaneId, b: PaneId| a != b;
    assert forall|i: int, j: int|
        #![trigger d.dismissed[i], d.dismissed[j]]
        0 <= i < j < d.dismissed.len() implies ne(d.dismissed[i], d.dismissed[j]) by {}
    lemma_filter_pairwise(d.dismissed, fd, ne);
    assert forall|i: int, j: int| 0 <= i < fds.len() && 0 <= j < fds.len() && i != j implies fds[i]
        != fds[j] by {
        if i < j {
            assert(ne(fds[i], fds[j]));
        } else {
            assert(ne(fds[j], fds[i]));
        }
    }
}

/// A new dock with nothing queued and nothing dismissed.
pub fn new_attention_dock() -> (d: AttentionDockState)
    ensures
        d@.queue == Seq::<AttentionEntry>::empty(),
        d@.dismissed == Seq::<PaneId>::empty(),
        d@.next_sequence == 0,
        dock_wf(d@),
{
    AttentionDockState { queue: Vec::new(), dismissed: Vec::new(), next_sequence: 0 }
}

/// Whether `ids` holds `p`.
pub fn ids_contain(ids: &Vec<PaneId>, p: PaneId) -> (r: bool)
    ensures
        r == ids@.contains(p),
{
    let mut i: usize = 0;
    while i < ids.len()
        invariant
            i <= ids@.len(),
            forall|j: int| 0 <= j < i ==> ids@[j] != p,
        decreases ids@.len() - i,
    {
        if ids[i] == p {
            assert(ids@[i as int] == p);
            return true;
        }
        i += 1;
    }
    false
}

/// The entries of `q` that are not for the pane.
fn queue_without(q: &Vec<AttentionEntry>, pid: PaneId) -> (r: Vec<AttentionEntry>)
    ensures
        r@ == q@.filter(entry_not_for(pid)),
{
    let mut out: Vec<AttentionEntry> = Vec::new();
    let mut k: usize = 0;
    while k < q.len()
        invariant
            k <= q@.len(),
            out@ == q@.take(k as int).filter(entry_not_for(pid)),
        decreases q@.len() - k,
    {
        proof {
            assert(q@.take(k + 1) =~= q@.take(k as int).push(q@[k as int]));
            q@.take(k as int).lemma_filter_push(q@[k as int], entry_not_for(pid));
        }
        if q[k].pane_id != pid {
            out.push(q[k]);
        }
        k += 1;
    }
    proof {
        assert(q@.take(q@.len() as int) =~= q@);
    }
    out
}

/// The identifiers of `ids` other than `pid`.
fn ids_without(ids: &Vec<PaneId>, pid: PaneId) -> (r: Vec<PaneId>)
    ensures
        r@ == ids@.filter(id_not(pid)),
{
    let mut out: Vec<PaneId> = Vec::new();
    let mut k: usize = 0;
    while k < ids.len()
        invariant
            k <= ids@.len(),
            out@ == ids@.take(k as int).filter(id_not(pid)),
        decreases ids@.len() - k,
    {
        proof {
            assert(ids@.take(k + 1) =~= ids@.take(k as int).push(ids@[k as int]));
            ids@.take(k as int).lemma_filter_push(ids@[k as int], id_not(pid));
        }
        if ids[k] != pid {
            out.push(ids[k]);
        }
        k += 1;
    }
    proof {
        assert(ids@.take(ids@.len() as int) =~= ids@);
    }
    out
}

/// The entries of `q` whose pane is among `ids`.
fn queue_within(q: &Vec<AttentionEntry>, ids: &Vec<PaneId>) -> (r: Vec<AttentionEntry>)
    ensures
        r@ == q@.filter(entry_in(ids@)),
{
    let mut out: Vec<AttentionEntry> = Vec::new();
    let mut k: usize = 0;
    while k < q.len()
        invariant
            k <= q@.len(),
            out@ == q@.take(k as int).filter(entry_in(ids@)),
        decreases q@.len() - k,
    {
        proof {
            assert(q@.take(k + 1) =~= q@.take(k as int).push(q@[k as int]));
            q@.take(k as int).lemma_filter_push(q@[k as int], entry_in(ids@));
        }
        if ids_contain(ids, q[k].pane_id) {
            out.push(q[k]);
        }
        k += 1;
    }
    proof {
        assert(q@.take(q@.len() as int) =~= q@);
    }
    out
}

/// The identifiers of `ps` that are among `ids`.
fn ids_within(ps: &Vec<PaneId>, ids: &Vec<PaneId>) -> (r: Vec<PaneId>)
    ensures
        r@ == ps@.filter(id_in(ids@)),
{
    let mut out: Vec<PaneId> = Vec::new();
    let mut k: usize = 0;
    while k < ps.len()
        invariant
            k <= ps@.len(),
            out@ == ps@.take(k as int).filter(id_in(ids@)),
        decreases ps@.len() - k,
    {
        proof {
            assert(ps@.take(k + 1) =~= ps@.take(k as int).push(ps@[k as int]));
            ps@.take(k as int).lemma_filter_push(ps@[k as int], id_in(ids@));
        }
        if ids_contain(ids, ps[k]) {
            out.push(ps[k]);
        }
        k += 1;
    }
    proof {
        assert(ps@.take(ps@.len() as int) =~= ps@);
    }
    out
}

/// The items of the entries of `q` that are ready and of kind `kind`, in queue order.
fn ready_items_of_kind(q: &Vec<AttentionEntry>, kind: AttentionKind) -> (r: Vec<
    AttentionQueueItem,
>)
    ensures
        r@ == q@.filter(ready_with_kind(kind)).map_values(item_of()),
{
    let mut out: Vec<AttentionQueueItem> = Vec::new();
    let mut k: usize = 0;
    while k < q.len()
        invariant
            k <= q@.len(),
            out@ == q@.take(k as int).filter(ready_with_kind(kind)).map_values(item_of()),
        decreases q@.len() - k,
    {
        proof {
            assert(q@.take(k + 1) =~= q@.take(k as int).push(q@[k as int]));
            q@.take(k as int).lemma_filter_push(q@[k as int], ready_with_kind(kind));
        }
        let e = q[k];
        if e.ready && e.kind == kind {
            out.push(AttentionQueueItem { pane_id: e.pane_id, kind: e.kind, sequence: e.sequence });
            proof {
                let f = q@.take(k as int).filter(ready_with_kind(kind));
                assert(f.push(e).map_values(item_of()) =~= f.map_values(item_of()).push(
                    item_of()(e),
                ));
            }
        }
        k += 1;
    }
    proof {
        assert(q@.take(q@.len() as int) =~= q@);
    }
    out
}

impl AppState {
    /// The dock's invariant holds.
    pub open spec fn wf(&self) -> bool {
        dock_wf(self.attention_dock@)
    }

    /// Forgets the pane's queue entry, if it has one.
    pub fn remove_attention_entry(&mut self, pid: PaneId)
        requires
            old(self).wf(),
        ensures
            final(self).wf(),
            final(self).attention_dock@ == (DockView {
                queue: old(self).attention_dock@.queue.filter(entry_not_for(pid)),
                ..old(self).attention_dock@
            }),
            final(self).workspaces == old(self).workspaces,
            final(self).terminals == old(self).terminals,
    {
        let q = queue_without(&self.attention_dock.queue, pid);
        self.attention_dock.queue = q;
        proof {
            let d = old(self).attention_dock@;
            lemma_filtered_dock_wf(d, entry_not_for(pid), |p: PaneId| true);
            lemma_filter_all_ids(d.dismissed);
        }
    }

    /// The ready entries, blocked before done, each group oldest first.
    pub fn attention_entries(&self) -> (r: Vec<AttentionQueueItem>)
        requires
            self.wf(),
        ensures
            r@ == attention_entries_spec(self.attention_dock@.queue),
            forall|i: int, j: int|
                #![trigger r@[i], r@[j]]
                0 <= i < j < r@.len() ==> item_before(r@[i], r@[j]),
    {
        let mut blocked = ready_items_of_kind(&self.attention_dock.queue, AttentionKind::Blocked);
        let mut done = ready_items_of_kind(&self.attention_dock.queue, AttentionKind::Done);
        let ghost b = blocked@;
        let ghost dn = done@;
        blocked.append(&mut done);
        proof {
            let q = self.attention_dock@.queue;
            let fb = q.filter(ready_with_kind(AttentionKind::Blocked));
            let fd = q.filter(ready_with_kind(AttentionKind::Done));
            assert((fb + fd).map_values(item_of()) =~= fb.map_values(item_of()) + fd.map_values(
                item_of(),
            ));
            let r = |a: AttentionEntry, b: AttentionEntry| a.sequence < b.sequence;
            assert forall|i: int, j: int| #![trigger q[i], q[j]] 0 <= i < j < q.len() implies r(
                q[i],
                q[j],
            ) by {}
            lemma_filter_pairwise(q, ready_with_kind(AttentionKind::Blocked), r);
            lemma_filter_pairwise(q, ready_with_kind(AttentionKind::Done), r);
            let out = blocked@;
            assert forall|i: int, j: int| #![trigger out[i], out[j]] 0 <= i < j < out.len() implies item_before(
                out[i],
                out[j],
            ) by {
                if j < fb.len() {
                    q.lemma_filter_pred(ready_with_kind(AttentionKind::Blocked), i);
                    q.lemma_filter_pred(ready_with_kind(AttentionKind::Blocked), j);
                    assert(r(fb[i], fb[j]));
                } else if i >= fb.len() {
                    q.lemma_filter_pred(ready_with_kind(AttentionKind::Done), i - fb.len());
                    q.lemma_filter_pred(ready_with_kind(AttentionKind::Done), j - fb.len());
                    assert(r(fd[i - fb.len()], fd[j - fb.len()]));
                } else {
                    q.lemma_filter_pred(ready_with_kind(AttentionKind::Blocked), i);
                    q.lemma_filter_pred(ready_with_kind(AttentionKind::Done), j - fb.len());
                }
            }
        }
        blocked
    }

    /// The earliest time at which a waiting entry becomes ready, if any entry waits.
    pub fn next_attention_deadline(&self) -> (r: Option<u64>)
        ensures
            r is None <==> forall|i: int|
                0 <= i < self.attention_dock@.queue.len()
                    ==> (#[trigger] self.attention_dock@.queue[i]).ready,
            r matches Some(d) ==> (exists|i: int|
                0 <= i < self.attention_dock@.queue.len()
                    && !(#[trigger] self.attention_dock@.queue[i]).ready
                    && self.attention_dock@.queue[i].eligible_at == d) && (forall|i: int|
                0 <= i < self.attention_dock@.queue.len()
                    && !(#[trigger] self.attention_dock@.queue[i]).ready ==> d
                    <= self.attention_dock@.queue[i].eligible_at),
    {
        let q = &self.attention_dock.queue;
        let mut best: Option<u64> = None;
        let mut k: usize = 0;
        while k < q.len()
            invariant
                k <= q@.len(),
                best is None <==> forall|i: int| 0 <= i < k ==> (#[trigger] q@[i]).ready,
                best matches Some(d) ==> (exists|i: int|
                    0 <= i < k && !(#[trigger] q@[i]).ready && q@[i].eligible_at == d) && (
                forall|i: int| 0 <= i < k && !(#[trigger] q@[i]).ready ==> d <= q@[i].eligible_at),
            decreases q@.len() - k,
        {
            let e = q[k];
            if !e.ready {
                match best {
                    None => {
                        best = Some(e.eligible_at);
                    },
                    Some(d) => {
                        if e.eligible_at < d {
                            best = Some(e.eligible_at);
                        }
                    },
                }
            }
            k += 1;
        }
        best
    }

    /// Makes the pane's entry, if it has one, ready now, as if its debounce had expired at
    /// `now`.
    pub fn make_attention_ready_for_test(&mut self, pid: PaneId, now: u64)
        requires
            old(self).wf(),
        ensures
            final(self).wf(),
            final(self).workspaces == old(self).workspaces,
            final(self).terminals == old(self).terminals,
            ({
                let d = old(self).attention_dock@;
                let i = queue_index(d.queue, pid);
                final(self).attention_dock@ == if i < d.queue.len() {
                    DockView {
                        queue: d.queue.update(
                            i,
                            AttentionEntry { eligible_at: now, ready: true, ..d.queue[i] },
                        ),
                        ..d
                    }
                } else {
                    d
                }
            }),
    {
        let i = queue_position(&self.attention_dock.queue, pid);
        if i < self.attention_dock.queue.len() {
            let e = self.attention_dock.queue[i];
            self.attention_dock.queue.set(i, AttentionEntry { eligible_at: now, ready: true, ..e });
        }
    }

    /// Whether the dock keeps what it promises of the topology (see [`dock_invariants`]);
    /// tests assert it.
    pub fn assert_attention_dock_invariants_for_test(&self) -> (r: bool)
        ensures
            r == dock_invariants(self.attention_dock@, self.workspaces@),
    {
        let q = &self.attention_dock.queue;
        let mut i: usize = 0;
        while i < q.len()
            invariant
                i <= q@.len(),
                q@ == self.attention_dock@.queue,
                forall|a: int, b: int|
                    #![trigger q@[a], q@[b]]
                    0 <= a < b < i ==> q@[a].pane_id != q@[b].pane_id,
                forall|a: int| 0 <= a < i ==> !self.attention_dock@.dismissed.contains(#[trigger] q@[a].pane_id),
                forall|a: int| 0 <= a < i ==> ws_index(self.workspaces@, #[trigger] q@[a].pane_id)
                    < self.workspaces@.len(),
            decreases q@.len() - i,
        {
            let pid = q[i].pane_id;
            let mut a: usize = 0;
            while a < i
                invariant
                    a <= i < q@.len(),
                    q@ == self.attention_dock@.queue,
                    pid == q@[i as int].pane_id,
                    forall|x: int| 0 <= x < a ==> (#[trigger] q@[x]).pane_id != pid,
                decreases i - a,
            {
                if q[a].pane_id == pid {
                    assert(q@[a as int].pane_id == q@[i as int].pane_id);
                    return false;
                }
                a += 1;
            }
            if ids_contain(&self.attention_dock.dismissed, pid) {
                return false;
            }
            if self.pane_location(pid).is_none() {
                return false;
            }
            i += 1;
        }
        true
    }

    /// Whether the dock meets its invariant (see [`dock_wf`]).
    pub fn dock_well_formed(&self) -> (r: bool)
        ensures
            r == self.wf(),
    {
        let q = &self.attention_dock.queue;
        let d = &self.attention_dock.dismissed;
        let mut i: usize = 0;
        while i < q.len()
            invariant
                i <= q@.len(),
                q@ == self.attention_dock@.queue,
                d@ == self.attention_dock@.dismissed,
                forall|a: int, b: int|
                    #![trigger q@[a], q@[b]]
                    0 <= a < b < i ==> q@[a].sequence < q@[b].sequence && q@[a].pane_id
                        != q@[b].pane_id,
                forall|a: int| 0 <= a < i ==> #[trigger] q@[a].sequence <= self.attention_dock.next_sequence,
                forall|a: int| 0 <= a < i ==> !d@.contains(#[trigger] q@[a].pane_id),
            decreases q@.len() - i,
        {
            let e = q[i];
            let mut a: usize = 0;
            while a < i
                invariant
                    a <= i < q@.len(),
                    q@ == self.attention_dock@.queue,
                    e == q@[i as int],
                    forall|x: int|
                        0 <= x < a ==> (#[trigger] q@[x]).sequence < e.sequence && q@[x].pane_id
                            != e.pane_id,
                decreases i - a,
            {
                if !(q[a].sequence < e.sequence) || q[a].pane_id == e.pane_id {
                    assert(q@[a as int] == q@[a as int] && q@[i as int] == e);
                    return false;
                }
                a += 1;
            }
            if e.sequence > self.attention_dock.next_sequence || ids_contain(d, e.pane_id) {
                return false;
            }
            i += 1;
        }
        let mut j: usize = 0;
        while j < d.len()
            invariant
                j <= d@.len(),
                d@ == self.attention_dock@.dismissed,
                forall|a: int, b: int| 0 <= a < b < j ==> d@[a] != d@[b],
            decreases d@.len() - j,
        {
            let mut a: usize = 0;
            while a < j
                invariant
                    a <= j < d@.len(),
                    d@ == self.attention_dock@.dismissed,
                    forall|x: int| 0 <= x < a ==> d@[x] != d@[j as int],
                decreases j - a,
            {
                if d[a] == d[j] {
                    assert(!d@.no_duplicates());
                    return false;
                }
                a += 1;
            }
            j += 1;
        }
        proof {
            assert(d@.no_duplicates());
        }
        true
    }

    /// Position of the workspace and tab that hold the pane.
    pub fn pane_location(&self, pid: PaneId) -> (r: Option<(usize, usize)>)
        ensures
            r is Some <==> ws_index(self.workspaces@, pid) < self.workspaces@.len(),
            r matches Some((wi, ti)) ==> wi == ws_index(self.workspaces@, pid) && ti
                == ws_tab_index(self.workspaces@[wi as int], pid) && ti
                < self.workspaces@[wi as int].tabs@.len(),
    {
        match workspace_index_for_pane(&self.workspaces, pid) {
            None => None,
            Some(wi) => {
                proof {
                    lemma_first_index_bounds(self.workspaces@, crate::topology::ws_holds(pid));
                }
                let ti = self.workspaces[wi].find_tab_index_for_pane(pid).unwrap();
                Some((wi, ti))
            },
        }
    }
}

/// Position of the pane's entry in the queue, or the queue's length.
fn queue_position(q: &Vec<AttentionEntry>, pid: PaneId) -> (r: usize)
    ensures
        r == queue_index(q@, pid),
        r <= q@.len(),
{
    let mut k: usize = 0;
    while k < q.len()
        invariant
            k <= q@.len(),
            forall|j: int| 0 <= j < k ==> !(#[trigger] entry_for(pid)(q@[j])),
        decreases q@.len() - k,
    {
        if q[k].pane_id == pid {
            proof {
                lemma_first_index_is(q@, entry_for(pid), k as int);
            }
            return k;
        }
        k += 1;
    }
    proof {
        lemma_first_index_none(q@, entry_for(pid));
    }
    k
}

/// Whether the pane has a ready entry in the queue.
fn is_ready_queued(q: &Vec<AttentionEntry>, pid: PaneId) -> (r: bool)
    ensures
        r == ready_queued(q@, pid),
{
    let mut k: usize = 0;
    while k < q.len()
        invariant
            k <= q@.len(),
            forall|j: int| 0 <= j < k ==> !((#[trigger] q@[j]).pane_id == pid && q@[j].ready),
        decreases q@.len() - k,
    {
        if q[k].pane_id == pid && q[k].ready {
            assert(q@[k as int].pane_id == pid);
            return true;
        }
        k += 1;
    }
    false
}

impl AppState {
    /// The terminal found for the pane: that of the first workspace holding the pane whose
    /// terminal is registered.
    fn observed_terminal_index(&self, pid: PaneId) -> (r: Option<usize>)
        ensures
            r is Some <==> observed_terminal(self.workspaces@, self.terminals@, pid) is Some,
            r matches Some(i) ==> i < self.terminals@.len() && observed_terminal(
                self.workspaces@,
                self.terminals@,
                pid,
            ) == Some(self.terminals@[i as int]),
    {
        let ghost p = pane_terminal_found(self.terminals@, pid);
        let mut i: usize = 0;
        while i < self.workspaces.len()
            invariant
                i <= self.workspaces@.len(),
                p == pane_terminal_found(self.terminals@, pid),
                forall|j: int| 0 <= j < i ==> !(#[trigger] p(self.workspaces@[j])),
            decreases self.workspaces@.len() - i,
        {
            match self.workspaces[i].terminal_id(pid) {
                Some(t) => match find_terminal(&self.terminals, t) {
                    Some(ti) => {
                        proof {
                            lemma_first_index_is(self.workspaces@, p, i as int);
                        }
                        return Some(ti);
                    },
                    None => {},
                },
                None => {},
            }
            i += 1;
        }
        proof {
            lemma_first_index_none(self.workspaces@, p);
        }
        None
    }

    /// Records that the pane's agent went from `previous` to `state` at time `now`
    /// (milliseconds). A pane going back to work loses its entry and its dismissal; a pane
    /// whose terminal runs a managed Pi agent loses its entry; otherwise a blocked pane, or a
    /// pane that finished unseen, is queued after the debounce delay, and a queued done pane
    /// that becomes blocked is upgraded and debounced anew.
    pub fn observe_attention_transition(
        &mut self,
        pid: PaneId,
        previous: AgentState,
        state: AgentState,
        seen: bool,
        now: u64,
    )
        requires
            old(self).wf(),
            now <= u64::MAX - ATTENTION_DEBOUNCE_MS,
            old(self).attention_dock.next_sequence < u64::MAX,
        ensures
            final(self).wf(),
            final(self).attention_dock@ == observe_spec(
                old(self).attention_dock@,
                observed_terminal(old(self).workspaces@, old(self).terminals@, pid),
                pid,
                previous,
                state,
                seen,
                now,
            ),
            final(self).workspaces == old(self).workspaces,
            final(self).terminals == old(self).terminals,
    {
        let ghost d = self.attention_dock@;
        if state == AgentState::Working {
            let dismissed = ids_without(&self.attention_dock.dismissed, pid);
            self.attention_dock.dismissed = dismissed;
            let q = queue_without(&self.attention_dock.queue, pid);
            self.attention_dock.queue = q;
            proof {
                lemma_filtered_dock_wf(d, entry_not_for(pid), id_not(pid));
            }
            return ;
        }
        match self.observed_terminal_index(pid) {
            Some(ti) => {
                if !attention_eligible(&self.terminals[ti]) {
                    self.remove_attention_entry(pid);
                    return ;
                }
            },
            None => {},
        }
        if ids_contain(&self.attention_dock.dismissed, pid) {
            return ;
        }
        let kind = if state == AgentState::Blocked {
            AttentionKind::Blocked
        } else if state == AgentState::Idle && !seen && previous != AgentState::Idle {
            AttentionKind::Done
        } else {
            return ;
        };
        let k = queue_position(&self.attention_dock.queue, pid);
        if k < self.attention_dock.queue.len() {
            let e = self.attention_dock.queue[k];
            if kind == AttentionKind::Blocked && e.kind != AttentionKind::Blocked {
                self.attention_dock.queue.set(
                    k,
                    AttentionEntry {
                        kind: AttentionKind::Blocked,
                        eligible_at: now + ATTENTION_DEBOUNCE_MS,
                        ready: false,
                        ..e
                    },
                );
            }
        } else {
            proof {
                lemma_first_index_bounds(d.queue, entry_for(pid));
            }
            self.attention_dock.next_sequence = self.attention_dock.next_sequence + 1;
            let sequence = self.attention_dock.next_sequence;
            self.attention_dock.queue.push(
                AttentionEntry {
                    pane_id: pid,
                    kind,
                    sequence,
                    eligible_at: now + ATTENTION_DEBOUNCE_MS,
                    ready: false,
                },
            );
            proof {
                let q = self.attention_dock@.queue;
                assert forall|i: int, j: int|
                    #![trigger q[i], q[j]]
                    0 <= i < j < q.len() implies q[i].sequence < q[j].sequence && q[i].pane_id
                        != q[j].pane_id by {
                    if j == q.len() - 1 {
                        assert(q[i] == d.queue[i]);
                        assert(d.queue[i].sequence <= d.next_sequence);
                        assert(!entry_for(pid)(d.queue[i]));
                    } else {
                        assert(q[i] == d.queue[i] && q[j] == d.queue[j]);
                    }
                }
                assert forall|i: int| 0 <= i < q.len() implies #[trigger] q[i].sequence
                    <= self.attention_dock.next_sequence by {
                    if i < q.len() - 1 {
                        assert(q[i] == d.queue[i]);
                    }
                }
                assert forall|i: int| 0 <= i < q.len() implies !d.dismissed.contains(
                    #[trigger] q[i].pane_id,
                ) by {
                    if i < q.len() - 1 {
                        assert(q[i] == d.queue[i]);
                    }
                }
            }
        }
    }

    /// Resolves a pane with a ready entry to its workspace, tab and public identifier.
    pub fn attention_target(&self, pid: PaneId) -> (r: Option<AttentionSourceTarget>)
        ensures
            opt_target_view(r) == attention_target_spec(
                self.workspaces@,
                self.attention_dock@.queue,
                pid,
            ),
    {
        if !is_ready_queued(&self.attention_dock.queue, pid) {
            return None;
        }
        let (wi, ti) = match self.pane_location(pid) {
            Some(l) => l,
            None => {
                return None;
            },
        };
        let w = &self.workspaces[wi];
        let n = match w.public_pane_number(pid) {
            Some(n) => n,
            None => {
                return None;
            },
        };
        Some(
            AttentionSourceTarget {
                workspace_id: w.id.clone(),
                tab_number: w.tabs[ti].number,
                pane_id: pid,
                public_pane_id: public_pane_id_for_number(&w.id, n),
            },
        )
    }

    /// Acknowledges the pane's ready entry: it leaves the queue and the pane is remembered as
    /// dismissed until its agent works again. Returns false, changing nothing, when the pane
    /// has no ready entry that resolves to a target.
    pub fn dismiss_attention(&mut self, pid: PaneId) -> (r: bool)
        requires
            old(self).wf(),
        ensures
            final(self).wf(),
            r == attention_target_spec(
                old(self).workspaces@,
                old(self).attention_dock@.queue,
                pid,
            ) is Some,
            r ==> final(self).attention_dock@ == (DockView {
                queue: old(self).attention_dock@.queue.filter(entry_not_for(pid)),
                dismissed: old(self).attention_dock@.dismissed.push(pid),
                next_sequence: old(self).attention_dock@.next_sequence,
            }),
            !r ==> final(self).attention_dock@ == old(self).attention_dock@,
            final(self).workspaces == old(self).workspaces,
            final(self).terminals == old(self).terminals,
    {
        if self.attention_target(pid).is_none() {
            return false;
        }
        let ghost d = self.attention_dock@;
        proof {
            let i = choose|i: int|
                0 <= i < d.queue.len() && #[trigger] d.queue[i].pane_id == pid && d.queue[i].ready;
            assert(!d.dismissed.contains(d.queue[i].pane_id));
        }
        self.remove_attention_entry(pid);
        self.attention_dock.dismissed.push(pid);
        proof {
            let q = self.attention_dock@.queue;
            let ds = self.attention_dock@.dismissed;
            assert forall|i: int| 0 <= i < q.len() implies !ds.contains(#[trigger] q[i].pane_id) by {
                d.queue.lemma_filter_pred(entry_not_for(pid), i);
                if ds.contains(q[i].pane_id) {
                    let k = choose|k: int| 0 <= k < ds.len() && ds[k] == q[i].pane_id;
                    if k < ds.len() - 1 {
                        assert(ds[k] == d.dismissed[k]);
                        assert(d.dismissed.contains(q[i].pane_id));
                    }
                }
            }
            assert forall|i: int, j: int|
                0 <= i < ds.len() && 0 <= j < ds.len() && i != j implies ds[i] != ds[j] by {
                if i < ds.len() - 1 && j < ds.len() - 1 {
                    assert(ds[i] == d.dismissed[i] && ds[j] == d.dismissed[j]);
                } else if i < ds.len() - 1 {
                    assert(ds[i] == d.dismissed[i]);
                    assert(d.dismissed.contains(ds[i]));
                } else {
                    assert(ds[j] == d.dismissed[j]);
                    assert(d.dismissed.contains(ds[j]));
                }
            }
        }
        true
    }

    /// The panes whose terminal is registered and may take part in attention.
    fn eligible_ids(&self) -> (r: Vec<PaneId>)
        ensures
            r@ == eligible_pane_ids(self.workspaces@, self.terminals@),
    {
        let panes = collect_all_panes(&self.workspaces);
        let ghost f = eligible_pane(self.terminals@);
        let mut out: Vec<PaneId> = Vec::new();
        let mut k: usize = 0;
        while k < panes.len()
            invariant
                k <= panes@.len(),
                f == eligible_pane(self.terminals@),
                out@ == panes@.take(k as int).filter(f).map_values(pane_id_of()),
            decreases panes@.len() - k,
        {
            proof {
                assert(panes@.take(k + 1) =~= panes@.take(k as int).push(panes@[k as int]));
                panes@.take(k as int).lemma_filter_push(panes@[k as int], f);
            }
            let p = panes[k];
            match find_terminal(&self.terminals, p.attached_terminal_id) {
                Some(ti) => {
                    if attention_eligible(&self.terminals[ti]) {
                        out.push(p.id);
                        proof {
                            let fl = panes@.take(k as int).filter(f);
                            assert(fl.push(p).map_values(pane_id_of()) =~= fl.map_values(
                                pane_id_of(),
                            ).push(p.id));
                        }
                    }
                },
                None => {},
            }
            k += 1;
        }
        proof {
            assert(panes@.take(panes@.len() as int) =~= panes@);
        }
        out
    }

    /// Drops the entries and dismissals of panes that are gone or no longer eligible.
    pub fn prune_attention_state(&mut self)
        requires
            old(self).wf(),
        ensures
            final(self).wf(),
            final(self).attention_dock@ == prune_spec(
                old(self).attention_dock@,
                old(self).workspaces@,
                old(self).terminals@,
            ),
            final(self).workspaces == old(self).workspaces,
            final(self).terminals == old(self).terminals,
    {
        let ids = self.eligible_ids();
        let q = queue_within(&self.attention_dock.queue, &ids);
        let ds = ids_within(&self.attention_dock.dismissed, &ids);
        self.attention_dock.queue = q;
        self.attention_dock.dismissed = ds;
        proof {
            lemma_filtered_dock_wf(old(self).attention_dock@, entry_in(ids@), id_in(ids@));
        }
    }

    /// Drops entries and dismissals of panes that are gone or no longer eligible, then makes
    /// every waiting entry whose debounce has expired by `now` ready. Returns whether the
    /// queue changed. With nothing queued and nothing dismissed it does nothing.
    pub fn reconcile_due_attention(&mut self, now: u64) -> (r: bool)
        requires
            old(self).wf(),
        ensures
            final(self).wf(),
            final(self).workspaces == old(self).workspaces,
            final(self).terminals == old(self).terminals,
            old(self).attention_dock@.queue.len() == 0 && old(self).attention_dock@.dismissed.len()
                == 0 ==> !r && final(self).attention_dock@ == old(self).attention_dock@,
            !(old(self).attention_dock@.queue.len() == 0
                && old(self).attention_dock@.dismissed.len() == 0) ==> ({
                let p = prune_spec(
                    old(self).attention_dock@,
                    old(self).workspaces@,
                    old(self).terminals@,
                );
                &&& final(self).attention_dock@ == (DockView {
                    queue: p.queue.map_values(mark_due(now)),
                    ..p
                })
                &&& r == (p.queue.len() != old(self).attention_dock@.queue.len() || exists|i: int|
                    0 <= i < p.queue.len() && is_due(#[trigger] p.queue[i], now))
            }),
    {
        if self.attention_dock.queue.len() == 0 && self.attention_dock.dismissed.len() == 0 {
            return false;
        }
        let before = self.attention_dock.queue.len();
        self.prune_attention_state();
        let ghost p = self.attention_dock@;
        let mut changed = before != self.attention_dock.queue.len();
        let mut k: usize = 0;
        while k < self.attention_dock.queue.len()
            invariant
                k <= p.queue.len(),
                self.workspaces == old(self).workspaces,
                self.terminals == old(self).terminals,
                self.attention_dock.queue@.len() == p.queue.len(),
                self.attention_dock.dismissed@ == p.dismissed,
                self.attention_dock.next_sequence == p.next_sequence,
                forall|i: int| 0 <= i < k ==> #[trigger] self.attention_dock.queue@[i] == mark_due(
                    now,
                )(p.queue[i]),
                forall|i: int| k <= i < p.queue.len() ==> #[trigger] self.attention_dock.queue@[i]
                    == p.queue[i],
                changed == (p.queue.len() != before || exists|i: int|
                    0 <= i < k && is_due(#[trigger] p.queue[i], now)),
            decreases p.queue.len() - k,
        {
            let e = self.attention_dock.queue[k];
            if !e.ready && e.eligible_at <= now {
                self.attention_dock.queue.set(k, AttentionEntry { ready: true, ..e });
                changed = true;
            }
            k += 1;
        }
        proof {
            let q = self.attention_dock@.queue;
            assert(q =~= p.queue.map_values(mark_due(now)));
            assert forall|i: int, j: int|
                #![trigger q[i], q[j]]
                0 <= i < j < q.len() implies q[i].sequence < q[j].sequence && q[i].pane_id
                    != q[j].pane_id by {
                assert(p.queue[i].sequence < p.queue[j].sequence);
            }
            assert forall|i: int| 0 <= i < q.len() implies #[trigger] q[i].sequence
                <= p.next_sequence && !p.dismissed.contains(q[i].pane_id) by {
                assert(p.queue[i].sequence <= p.next_sequence);
                assert(!p.dismissed.contains(p.queue[i].pane_id));
            }
        }
        changed
    }
}

/// Keeping every identifier leaves the identifiers as they are.
pub proof fn lemma_filter_all_ids(ids: Seq<PaneId>)
    ensures
        ids.filter(|p: PaneId| true) == ids,
{
    crate::seqs::lemma_filter_all(ids, |p: PaneId| true);
}

} // verus!
