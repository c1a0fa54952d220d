//! The host's pane topology as the attention logic reads it: workspaces hold tabs, tabs hold
//! panes, and each pane is attached to a terminal whose agent state is tracked.
use crate::seqs::{first_index, lemma_first_index_bounds, lemma_first_index_congruent, lemma_first_index_is, lemma_first_index_none};
use vstd::prelude::*;

verus! {

/// Identifies a pane inside the host's layout.
pub type PaneId = u64;

/// Identifies a terminal that a pane is attached to.
pub type TerminalId = u64;

/// What the agent running in a terminal is currently doing.
#[derive(Clone, Copy, PartialEq, Eq, Debug, Structural)]
pub enum AgentState {
    Idle,
    Working,
    Blocked,
    Unknown,
}

/// The agent programs that the host recognizes.
#[derive(Clone, Copy, PartialEq, Eq, Debug, Structural)]
pub enum Agent {
    Pi,
    Claude,
    Codex,
}

/// A pane of a tab, with the terminal it shows and whether its output was seen.
#[derive(Clone, Copy, PartialEq, Eq, Debug, Structural)]
pub struct PaneState {
    pub id: PaneId,
    pub attached_terminal_id: TerminalId,
    pub seen: bool,
}

/// A tab of a workspace.
#[derive(Clone, Debug)]
pub struct Tab {
    pub number: usize,
    pub panes: Vec<PaneState>,
}

/// A workspace: an identifier, its tabs, and the public number of each of its panes.
#[derive(Clone, Debug)]
pub struct Workspace {
    pub id: String,
    pub tabs: Vec<Tab>,
    pub public_pane_numbers: Vec<(PaneId, usize)>,
}

/// A terminal and the agent lifecycle the host tracks for it.
#[derive(Clone, Copy, PartialEq, Eq, Debug, Structural)]
pub struct TerminalState {
    pub id: TerminalId,
    pub state: AgentState,
    pub last_agent_state_change_seq: Option<u64>,
    pub detected_agent: Option<Agent>,
    /// The agent kind when the terminal was launched as a controller-managed agent.
    pub managed_agent: Option<Agent>,
    /// Whether a managed agent is ready for interactive use.
    pub managed_ready: bool,
}

pub open spec fn pane_is(pid: PaneId) -> spec_fn(PaneState) -> bool {
    |p: PaneState| p.id == pid
}

pub open spec fn tab_pane_index(t: Tab, pid: PaneId) -> int {
    first_index(t.panes@, pane_is(pid))
}

pub open spec fn tab_has_pane(t: Tab, pid: PaneId) -> bool {
    tab_pane_index(t, pid) < t.panes@.len()
}

pub open spec fn tab_holds(pid: PaneId) -> spec_fn(Tab) -> bool {
    |t: Tab| tab_has_pane(t, pid)
}

/// Index of the first tab of `w` that holds the pane.
pub open spec fn ws_tab_index(w: Workspace, pid: PaneId) -> int {
    first_index(w.tabs@, tab_holds(pid))
}

pub open spec fn ws_has_pane(w: Workspace, pid: PaneId) -> bool {
    ws_tab_index(w, pid) < w.tabs@.len()
}

/// The state of the pane in the first tab of `w` that holds it.
pub open spec fn ws_pane(w: Workspace, pid: PaneId) -> PaneState {
    let t = w.tabs@[ws_tab_index(w, pid)];
    t.panes@[tab_pane_index(t, pid)]
}

/// The terminal that the pane is attached to in `w`, if `w` holds the pane.
pub open spec fn ws_terminal_id(w: Workspace, pid: PaneId) -> Option<TerminalId> {
    if ws_has_pane(w, pid) {
        Some(ws_pane(w, pid).attached_terminal_id)
    } else {
        None
    }
}

pub open spec fn ws_holds(pid: PaneId) -> spec_fn(Workspace) -> bool {
    |w: Workspace| ws_has_pane(w, pid)
}

/// Index of the first workspace that holds the pane.
pub open spec fn ws_index(ws: Seq<Workspace>, pid: PaneId) -> int {
    first_index(ws, ws_holds(pid))
}

pub open spec fn terminal_is(tid: TerminalId) -> spec_fn(TerminalState) -> bool {
    |t: TerminalState| t.id == tid
}

/// The terminal registered under `tid`, if any.
pub open spec fn terminal_lookup(ts: Seq<TerminalState>, tid: TerminalId) -> Option<
    TerminalState,
> {
    let i = first_index(ts, terminal_is(tid));
    if i < ts.len() {
        Some(ts[i])
    } else {
        None
    }
}

/// Controller-managed Pi agents never take part in the attention queue.
pub open spec fn attention_eligible_spec(t: TerminalState) -> bool {
    t.managed_agent != Some(Agent::Pi)
}

pub open spec fn public_number_is(pid: PaneId) -> spec_fn((PaneId, usize)) -> bool {
    |e: (PaneId, usize)| e.0 == pid
}

/// The public number of the pane in `w`, if `w` numbers it.
pub open spec fn ws_public_number(w: Workspace, pid: PaneId) -> Option<usize> {
    let i = first_index(w.public_pane_numbers@, public_number_is(pid));
    if i < w.public_pane_numbers@.len() {
        Some(w.public_pane_numbers@[i].1)
    } else {
        None
    }
}

pub open spec fn tab_panes() -> spec_fn(Tab) -> Seq<PaneState> {
    |t: Tab| t.panes@
}

/// The panes of a workspace, tab by tab.
pub open spec fn workspace_panes(w: Workspace) -> Seq<PaneState> {
    w.tabs@.flat_map(tab_panes())
}

pub open spec fn workspace_panes_fn() -> spec_fn(Workspace) -> Seq<PaneState> {
    |w: Workspace| workspace_panes(w)
}

/// All panes of all workspaces, in order.
pub open spec fn all_panes(ws: Seq<Workspace>) -> Seq<PaneState> {
    ws.flat_map(workspace_panes_fn())
}

impl TerminalState {
    /// The kind of the controller-managed agent, if the terminal runs one.
    pub fn managed_agent_kind(&self) -> (r: Option<Agent>)
        ensures
            r == self.managed_agent,
    {
        self.managed_agent
    }

    /// Whether a managed agent runs here and is ready for interactive use.
    pub fn managed_agent_interactive_ready(&self) -> (r: bool)
        ensures
            r == (self.managed_agent is Some && self.managed_ready),
    {
        self.managed_agent.is_some() && self.managed_ready
    }

    /// Registers a freshly launched managed agent, not yet ready.
    pub fn begin_managed_agent(&mut self, agent: Agent)
        ensures
            *final(self) == (TerminalState {
                managed_agent: Some(agent),
                managed_ready: false,
                ..*old(self)
            }),
    {
        self.managed_agent = Some(agent);
        self.managed_ready = false;
    }

    /// Registers a managed agent that was running before a restart; it is ready at once.
    pub fn restore_managed_agent(&mut self, agent: Agent)
        ensures
            *final(self) == (TerminalState {
                managed_agent: Some(agent),
                managed_ready: true,
                ..*old(self)
            }),
    {
        self.managed_agent = Some(agent);
        self.managed_ready = true;
    }

    /// Releases controller ownership of the agent.
    pub fn clear_agent_name(&mut self)
        ensures
            *final(self) == (TerminalState {
                managed_agent: None,
                managed_ready: false,
                ..*old(self)
            }),
    {
        self.managed_agent = None;
        self.managed_ready = false;
    }
}

/// Whether the terminal may take part in the attention queue.
pub fn attention_eligible(terminal: &TerminalState) -> (r: bool)
    ensures
        r == attention_eligible_spec(*terminal),
{
    match terminal.managed_agent_kind() {
        Some(Agent::Pi) => false,
        _ => true,
    }
}

impl Tab {
    /// Position of the pane among the panes of this tab.
    pub fn pane_index(&self, pid: PaneId) -> (r: Option<usize>)
        ensures
            r is Some <==> tab_has_pane(*self, pid),
            r matches Some(i) ==> i == tab_pane_index(*self, pid),
    {
        let mut i: usize = 0;
        while i < self.panes.len()
            invariant
                i <= self.panes@.len(),
                forall|j: int| 0 <= j < i ==> !(#[trigger] pane_is(pid)(self.panes@[j])),
            decreases self.panes@.len() - i,
        {
            if self.panes[i].id == pid {
                proof {
                    lemma_first_index_is(self.panes@, pane_is(pid), i as int);
                }
                return Some(i);
            }
            i += 1;
        }
        proof {
            lemma_first_index_none(self.panes@, pane_is(pid));
        }
        None
    }
}

impl Workspace {
    /// Position of the first tab that holds the pane.
    pub fn find_tab_index_for_pane(&self, pid: PaneId) -> (r: Option<usize>)
        ensures
            r is Some <==> ws_has_pane(*self, pid),
            r matches Some(i) ==> i == ws_tab_index(*self, pid),
    {
        let mut i: usize = 0;
        while i < self.tabs.len()
            invariant
                i <= self.tabs@.len(),
                forall|j: int| 0 <= j < i ==> !(#[trigger] tab_holds(pid)(self.tabs@[j])),
            decreases self.tabs@.len() - i,
        {
            if self.tabs[i].pane_index(pid).is_some() {
                proof {
                    lemma_first_index_is(self.tabs@, tab_holds(pid), i as int);
                }
                return Some(i);
            }
            i += 1;
        }
        proof {
            lemma_first_index_none(self.tabs@, tab_holds(pid));
        }
        None
    }

    /// The terminal attached to the pane, if this workspace holds it.
    pub fn terminal_id(&self, pid: PaneId) -> (r: Option<TerminalId>)
        ensures
            r == ws_terminal_id(*self, pid),
    {
        match self.find_tab_index_for_pane(pid) {
            None => None,
            Some(ti) => {
                proof {
                    lemma_first_index_bounds(self.tabs@, tab_holds(pid));
                }
                let pi = self.tabs[ti].pane_index(pid).unwrap();
                Some(self.tabs[ti].panes[pi].attached_terminal_id)
            },
        }
    }

    /// The public number of the pane, if this workspace numbers it.
    pub fn public_pane_number(&self, pid: PaneId) -> (r: Option<usize>)
        ensures
            r == ws_public_number(*self, pid),
    {
        let mut i: usize = 0;
        while i < self.public_pane_numbers.len()
            invariant
                i <= self.public_pane_numbers@.len(),
                forall|j: int|
                    0 <= j < i ==> !(#[trigger] public_number_is(pid)(
                        self.public_pane_numbers@[j],
                    )),
            decreases self.public_pane_numbers@.len() - i,
        {
            if self.public_pane_numbers[i].0 == pid {
                proof {
                    lemma_first_index_is(
                        self.public_pane_numbers@,
                        public_number_is(pid),
                        i as int,
                    );
                }
                return Some(self.public_pane_numbers[i].1);
            }
            i += 1;
        }
        proof {
            lemma_first_index_none(self.public_pane_numbers@, public_number_is(pid));
        }
        None
    }

    /// The panes of this workspace, tab by tab.
    pub fn collect_panes(&self) -> (r: Vec<PaneState>)
        ensures
            r@ == workspace_panes(*self),
    {
        let mut out: Vec<PaneState> = Vec::new();
        let mut j: usize = 0;
        while j < self.tabs.len()
            invariant
                j <= self.tabs@.len(),
                out@ == self.tabs@.take(j as int).flat_map(tab_panes()),
            decreases self.tabs@.len() - j,
        {
            let ghost before = out@;
            let mut k: usize = 0;
            while k < self.tabs[j].panes.len()
                invariant
                    j < self.tabs@.len(),
                    k <= self.tabs@[j as int].panes@.len(),
                    out@ == before + self.tabs@[j as int].panes@.take(k as int),
                decreases self.tabs@[j as int].panes@.len() - k,
            {
                out.push(self.tabs[j].panes[k]);
                proof {
                    assert(self.tabs@[j as int].panes@.take(k + 1) =~= self.tabs@[
                    j as int].panes@.take(k as int).push(self.tabs@[j as int].panes@[k as int]));
                }
                k += 1;
            }
            proof {
                self.tabs@.lemma_flat_map_take_append(tab_panes(), j as int);
                assert(self.tabs@[j as int].panes@.take(k as int) =~= self.tabs@[
                j as int].panes@);
            }
            j += 1;
        }
        proof {
            assert(self.tabs@.take(self.tabs@.len() as int) =~= self.tabs@);
        }
        out
    }
}

/// Position of the first workspace that holds the pane.
pub fn workspace_index_for_pane(ws: &Vec<Workspace>, pid: PaneId) -> (r: Option<usize>)
    ensures
        r is Some <==> ws_index(ws@, pid) < ws@.len(),
        r matches Some(i) ==> i == ws_index(ws@, pid),
{
    let mut i: usize = 0;
    while i < ws.len()
        invariant
            i <= ws@.len(),
            forall|j: int| 0 <= j < i ==> !(#[trigger] ws_holds(pid)(ws@[j])),
        decreases ws@.len() - i,
    {
        if ws[i].find_tab_index_for_pane(pid).is_some() {
            proof {
                lemma_first_index_is(ws@, ws_holds(pid), i as int);
            }
            return Some(i);
        }
        i += 1;
    }
    proof {
        lemma_first_index_none(ws@, ws_holds(pid));
    }
    None
}

/// Position of the terminal registered under `tid`.
pub fn find_terminal(terminals: &Vec<TerminalState>, tid: TerminalId) -> (r: Option<usize>)
    ensures
        r is Some <==> terminal_lookup(terminals@, tid) is Some,
        r matches Some(i) ==> i < terminals@.len() && terminal_lookup(terminals@, tid) == Some(
            terminals@[i as int],
        ),
{
    let mut i: usize = 0;
    while i < terminals.len()
        invariant
            i <= terminals@.len(),
            forall|j: int| 0 <= j < i ==> !(#[trigger] terminal_is(tid)(terminals@[j])),
        decreases terminals@.len() - i,
    {
        if terminals[i].id == tid {
            proof {
                lemma_first_index_is(terminals@, terminal_is(tid), i as int);
            }
            return Some(i);
        }
        i += 1;
    }
    proof {
        lemma_first_index_none(terminals@, terminal_is(tid));
    }
    None
}

/// All panes of all workspaces, in order.
pub fn collect_all_panes(ws: &Vec<Workspace>) -> (r: Vec<PaneState>)
    ensures
        r@ == all_panes(ws@),
{
    let mut out: Vec<PaneState> = Vec::new();
    let mut i: usize = 0;
    while i < ws.len()
        invariant
            i <= ws@.len(),
            out@ == ws@.take(i as int).flat_map(workspace_panes_fn()),
        decreases ws@.len() - i,
    {
        let mut panes = ws[i].collect_panes();
        proof {
            ws@.lemma_flat_map_take_append(workspace_panes_fn(), i as int);
        }
        out.append(&mut panes);
        i += 1;
    }
    proof {
        assert(ws@.take(ws@.len() as int) =~= ws@);
    }
    out
}

/// Two tabs agree on everything but which panes were seen.
pub open spec fn tab_same_shape(a: Tab, b: Tab) -> bool {
    &&& a.number == b.number
    &&& a.panes@.len() == b.panes@.len()
    &&& forall|k: int|
        0 <= k < a.panes@.len() ==> (#[trigger] b.panes@[k]).id == a.panes@[k].id
            && b.panes@[k].attached_terminal_id == a.panes@[k].attached_terminal_id
}

/// Two workspaces agree on everything but which panes were seen.
pub open spec fn ws_same_shape(a: Workspace, b: Workspace) -> bool {
    &&& a.id == b.id
    &&& a.public_pane_numbers@ == b.public_pane_numbers@
    &&& a.tabs@.len() == b.tabs@.len()
    &&& forall|t: int| 0 <= t < a.tabs@.len() ==> tab_same_shape(#[trigger] a.tabs@[t], b.tabs@[t])
}

/// Two topologies agree on everything but which panes were seen.
pub open spec fn same_shape(a: Seq<Workspace>, b: Seq<Workspace>) -> bool {
    &&& a.len() == b.len()
    &&& forall|w: int| 0 <= w < a.len() ==> ws_same_shape(#[trigger] a[w], b[w])
}

pub open spec fn valid_pos(ws: Seq<Workspace>, w: int, t: int, k: int) -> bool {
    &&& 0 <= w < ws.len()
    &&& 0 <= t < ws[w].tabs@.len()
    &&& 0 <= k < ws[w].tabs@[t].panes@.len()
}

pub open spec fn seen_at(ws: Seq<Workspace>, w: int, t: int, k: int) -> bool {
    ws[w].tabs@[t].panes@[k].seen
}

/// Position `(t, k)` of workspace `w` is where the pane is found in that workspace.
pub open spec fn is_first_position(ws: Seq<Workspace>, w: int, t: int, k: int, pid: PaneId) -> bool {
    &&& ws_has_pane(ws[w], pid)
    &&& t == ws_tab_index(ws[w], pid)
    &&& k == tab_pane_index(ws[w].tabs@[t], pid)
}

pub proof fn lemma_same_shape_reflexive(a: Seq<Workspace>)
    ensures
        same_shape(a, a),
{
}

pub proof fn lemma_same_shape_transitive(a: Seq<Workspace>, b: Seq<Workspace>, c: Seq<Workspace>)
    requires
        same_shape(a, b),
        same_shape(b, c),
    ensures
        same_shape(a, c),
{
    assert forall|w: int| 0 <= w < a.len() implies ws_same_shape(#[trigger] a[w], c[w]) by {
        assert(ws_same_shape(a[w], b[w]) && ws_same_shape(b[w], c[w]));
        assert forall|t: int| 0 <= t < a[w].tabs@.len() implies tab_same_shape(
            #[trigger] a[w].tabs@[t],
            c[w].tabs@[t],
        ) by {
            assert(tab_same_shape(a[w].tabs@[t], b[w].tabs@[t]));
            assert(tab_same_shape(b[w].tabs@[t], c[w].tabs@[t]));
        }
    }
}

/// Where a pane is found depends on the shape alone.
pub proof fn lemma_same_shape_positions(a: Seq<Workspace>, b: Seq<Workspace>, w: int, pid: PaneId)
    requires
        same_shape(a, b),
        0 <= w < a.len(),
    ensures
        ws_tab_index(a[w], pid) == ws_tab_index(b[w], pid),
        ws_has_pane(a[w], pid) == ws_has_pane(b[w], pid),
        forall|t: int|
            0 <= t < a[w].tabs@.len() ==> tab_pane_index(#[trigger] a[w].tabs@[t], pid)
                == tab_pane_index(b[w].tabs@[t], pid),
{
    assert(ws_same_shape(a[w], b[w]));
    assert forall|t: int| 0 <= t < a[w].tabs@.len() implies tab_pane_index(
        #[trigger] a[w].tabs@[t],
        pid,
    ) == tab_pane_index(b[w].tabs@[t], pid) && tab_holds(pid)(a[w].tabs@[t]) == tab_holds(pid)(
        b[w].tabs@[t],
    ) by {
        let ta = a[w].tabs@[t];
        let tb = b[w].tabs@[t];
        assert(tab_same_shape(ta, tb));
        assert forall|k: int| 0 <= k < ta.panes@.len() implies pane_is(pid)(
            #[trigger] ta.panes@[k],
        ) == pane_is(pid)(tb.panes@[k]) by {}
        lemma_first_index_congruent(ta.panes@, pane_is(pid), tb.panes@, pane_is(pid));
    }
    assert forall|t: int| 0 <= t < a[w].tabs@.len() implies tab_holds(pid)(#[trigger] a[w].tabs@[t])
        == tab_holds(pid)(b[w].tabs@[t]) by {}
    lemma_first_index_congruent(a[w].tabs@, tab_holds(pid), b[w].tabs@, tab_holds(pid));
}

/// Marks the pane as unseen where workspace `wi` holds it.
pub fn clear_seen(ws: &mut Vec<Workspace>, wi: usize, pid: PaneId)
    requires
        wi < old(ws)@.len(),
    ensures
        same_shape(old(ws)@, final(ws)@),
        forall|w: int, t: int, k: int|
            valid_pos(old(ws)@, w, t, k) ==> #[trigger] seen_at(final(ws)@, w, t, k) == (if w
                == wi && is_first_position(old(ws)@, w, t, k, pid) {
                false
            } else {
                seen_at(old(ws)@, w, t, k)
            }),
{
    match ws[wi].find_tab_index_for_pane(pid) {
        None => {
            proof {
                assert(same_shape(old(ws)@, ws@));
            }
        },
        Some(ti) => {
            proof {
                lemma_first_index_bounds(ws@[wi as int].tabs@, tab_holds(pid));
            }
            let pi = ws[wi].tabs[ti].pane_index(pid).unwrap();
            proof {
                lemma_first_index_bounds(ws@[wi as int].tabs@[ti as int].panes@, pane_is(pid));
            }
            ws[wi].tabs[ti].panes[pi].seen = false;
            proof {
                let o = old(ws)@;
                let n = ws@;
                assert forall|w: int| 0 <= w < o.len() implies ws_same_shape(#[trigger] o[w], n[w]) by {
                    if w == wi {
                        assert forall|t: int| 0 <= t < o[w].tabs@.len() implies tab_same_shape(
                            #[trigger] o[w].tabs@[t],
                            n[w].tabs@[t],
                        ) by {
                            if t == ti {
                                assert forall|k: int| 0 <= k < o[w].tabs@[t].panes@.len() implies (
                                #[trigger] n[w].tabs@[t].panes@[k]).id == o[w].tabs@[t].panes@[k].id
                                    && n[w].tabs@[t].panes@[k].attached_terminal_id == o[w].tabs@[
                                    t].panes@[k].attached_terminal_id by {
                                    if k == pi {
                                    }
                                }
                            }
                        }
                    }
                }
            }
        },
    }
}

} // verus!
