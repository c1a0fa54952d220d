//! Carrying the attention queue and the dismissals across a host restart, by public pane
//! identifier.
use crate::dock::{AppState, AttentionEntry, AttentionKind, dock_wf, ids_contain};
use crate::lex::{is_lex_sort, sort_strings, views};
use crate::pane_ids::{public_pane_id_for_number, public_pane_id_view};
use crate::seqs::{first_index, lemma_first_index_bounds, lemma_first_index_is, lemma_first_index_none};
use crate::topology::{
    clear_seen, lemma_same_shape_positions, lemma_same_shape_reflexive,
    lemma_same_shape_transitive, same_shape, seen_at, valid_pos, is_first_position,
    attention_eligible_spec, find_terminal, attention_eligible, tab_pane_index, terminal_lookup,
    workspace_index_for_pane, ws_index, ws_pane, ws_public_number, ws_tab_index, ws_terminal_id,
    PaneId, PaneState, Workspace,
};
use vstd::prelude::*;

verus! {

/// The kind of a carried-over queue entry.
pub type AttentionHandoffKind = AttentionKind;

/// A queue entry as it is carried over: the public pane identifier and the kind.
#[derive(Clone, Debug)]
pub struct AttentionHandoffEntry {
    pub source_pane_id: String,
    pub kind: AttentionHandoffKind,
}

/// The queue, in order, and the dismissed panes, sorted, as they are carried over.
#[derive(Clone, Debug)]
pub struct AttentionHandoffState {
    pub queue: Vec<AttentionHandoffEntry>,
    pub dismissed_source_pane_ids: Vec<String>,
}

/// The abstract value of an [`AttentionHandoffEntry`].
pub struct HandoffEntryView {
    pub source_pane_id: Seq<char>,
    pub kind: AttentionKind,
}

pub open spec fn handoff_entry_view() -> spec_fn(AttentionHandoffEntry) -> HandoffEntryView {
    |e: AttentionHandoffEntry| HandoffEntryView { source_pane_id: e.source_pane_id@, kind: e.kind }
}

/// The abstract value of a carried-over queue.
pub open spec fn handoff_queue_view(q: Seq<AttentionHandoffEntry>) -> Seq<HandoffEntryView> {
    q.map_values(handoff_entry_view())
}

pub open spec fn opt_string_view(o: Option<String>) -> Option<Seq<char>> {
    match o {
        Some(s) => Some(s@),
        None => None,
    }
}

/// The public identifier of the pane as numbered in workspace `wi`.
pub open spec fn public_id_in(ws: Seq<Workspace>, wi: int, pid: PaneId) -> Option<Seq<char>> {
    if 0 <= wi < ws.len() {
        match ws_public_number(ws[wi], pid) {
            Some(n) => Some(public_pane_id_view(ws[wi].id@, n as nat)),
            None => None,
        }
    } else {
        None
    }
}

/// The public identifier of the pane in the first workspace that holds it.
pub open spec fn public_id_of_pane(ws: Seq<Workspace>, pid: PaneId) -> Option<Seq<char>> {
    public_id_in(ws, ws_index(ws, pid), pid)
}

pub open spec fn handoff_entry_of(ws: Seq<Workspace>) -> spec_fn(AttentionEntry) -> Option<
    HandoffEntryView,
> {
    |e: AttentionEntry|
        match public_id_of_pane(ws, e.pane_id) {
            Some(s) => Some(HandoffEntryView { source_pane_id: s, kind: e.kind }),
            None => None,
        }
}

pub open spec fn dismissed_public_id(ws: Seq<Workspace>) -> spec_fn(PaneId) -> Option<Seq<char>> {
    |p: PaneId| public_id_of_pane(ws, p)
}

pub open spec fn number_names(w_id: Seq<char>, s: Seq<char>) -> spec_fn((PaneId, usize)) -> bool {
    |e: (PaneId, usize)| public_pane_id_view(w_id, e.1 as nat) == s
}

pub open spec fn ws_number_index(w: Workspace, s: Seq<char>) -> int {
    first_index(w.public_pane_numbers@, number_names(w.id@, s))
}

pub open spec fn ws_names(s: Seq<char>) -> spec_fn(Workspace) -> bool {
    |w: Workspace| ws_number_index(w, s) < w.public_pane_numbers@.len()
}

/// The workspace and pane that the public identifier `s` names: the first workspace with a
/// pane numbered so that its public identifier is `s`.
pub open spec fn parse_public_pane_id(ws: Seq<Workspace>, s: Seq<char>) -> Option<(int, PaneId)> {
    let wi = first_index(ws, ws_names(s));
    if wi < ws.len() {
        Some((wi, ws[wi].public_pane_numbers@[ws_number_index(ws[wi], s)].0))
    } else {
        None
    }
}


pub open spec fn parsed_pane_id(ws: Seq<Workspace>) -> spec_fn(Seq<char>) -> Option<PaneId> {
    |s: Seq<char>|
        match parse_public_pane_id(ws, s) {
            Some((_, p)) => Some(p),
            None => None,
        }
}

/// The panes that the carried-over dismissals name.
pub open spec fn restore_dismissed(ws: Seq<Workspace>, srcs: Seq<Seq<char>>) -> Seq<PaneId> {
    srcs.filter_map(parsed_pane_id(ws))
}

/// A carried-over entry resolved to a workspace index, a pane and a kind.
pub type PlanItem = (int, PaneId, AttentionKind);

/// The plan item that a carried-over entry makes, if any: its identifier must name a pane
/// that the named workspace holds, whose terminal is registered and eligible, and which is not
/// dismissed.
pub open spec fn restore_candidate(
    ws: Seq<Workspace>,
    terms: Seq<crate::topology::TerminalState>,
    dismissed: Seq<PaneId>,
) -> spec_fn(HandoffEntryView) -> Option<PlanItem> {
    |e: HandoffEntryView|
        match parse_public_pane_id(ws, e.source_pane_id) {
            None => None,
            Some((wi, pid)) => match ws_terminal_id(ws[wi], pid) {
                None => None,
                Some(tid) => match terminal_lookup(terms, tid) {
                    None => None,
                    Some(t) => if attention_eligible_spec(t) && !dismissed.contains(pid) {
                        Some((wi, pid, e.kind))
                    } else {
                        None
                    },
                },
            },
        }
}

pub open spec fn plan_has_pane(s: Seq<PlanItem>, pid: PaneId) -> bool {
    exists|i: int| 0 <= i < s.len() && (#[trigger] s[i]).1 == pid
}

/// The items of `s`, each pane kept at its first occurrence only.
pub open spec fn dedup_by_pane(s: Seq<PlanItem>) -> Seq<PlanItem>
    decreases s.len(),
{
    if s.len() == 0 {
        s
    } else {
        let r = dedup_by_pane(s.drop_last());
        if plan_has_pane(r, s.last().1) {
            r
        } else {
            r.push(s.last())
        }
    }
}

/// The restored queue, in order, as workspace index, pane and kind.
pub open spec fn restore_plan(
    ws: Seq<Workspace>,
    terms: Seq<crate::topology::TerminalState>,
    st: Seq<HandoffEntryView>,
    dismissed_srcs: Seq<Seq<char>>,
) -> Seq<PlanItem> {
    dedup_by_pane(
        st.filter_map(restore_candidate(ws, terms, restore_dismissed(ws, dismissed_srcs))),
    )
}

/// The `i`th entry of a restored queue: ready at once.
pub open spec fn restored_entry(now: u64) -> spec_fn(int, PlanItem) -> AttentionEntry {
    |i: int, c: PlanItem|
        AttentionEntry {
            pane_id: c.1,
            kind: c.2,
            sequence: i as u64,
            eligible_at: now,
            ready: true,
        }
}

/// The restore marks the pane at this position unseen: the plan brings back a done entry
/// for this pane of this workspace, and this is where the workspace holds it.
pub open spec fn pane_cleared(plan: Seq<PlanItem>, ws: Seq<Workspace>, w: int, t: int, k: int) -> bool {
    let pid = ws[w].tabs@[t].panes@[k].id;
    &&& is_first_position(ws, w, t, k, pid)
    &&& exists|i: int|
        0 <= i < plan.len() && (#[trigger] plan[i]).0 == w && plan[i].1 == pid && plan[i].2
            == AttentionKind::Done
}

pub open spec fn plan_item_view() -> spec_fn((usize, PaneId, AttentionKind)) -> PlanItem {
    |c: (usize, PaneId, AttentionKind)| (c.0 as int, c.1, c.2)
}

/// Whether the queue has an entry for the pane.
fn queue_has_pane(q: &Vec<AttentionEntry>, pid: PaneId) -> (r: bool)
    ensures
        r == exists|i: int| 0 <= i < q@.len() && (#[trigger] q@[i]).pane_id == pid,
{
    let mut j: usize = 0;
    while j < q.len()
        invariant
            j <= q@.len(),
            forall|m: int| 0 <= m < j ==> (#[trigger] q@[m]).pane_id != pid,
        decreases q@.len() - j,
    {
        if q[j].pane_id == pid {
            assert(q@[j as int].pane_id == pid);
            return true;
        }
        j += 1;
    }
    false
}

/// The pane found at a workspace's first position for `pid` is `pid`.
proof fn lemma_first_position_id(ws: Seq<Workspace>, w: int, t: int, k: int, pid: PaneId)
    requires
        0 <= w < ws.len(),
        is_first_position(ws, w, t, k, pid),
    ensures
        ws[w].tabs@[t].panes@[k].id == pid,
        valid_pos(ws, w, t, k),
{
    lemma_first_index_bounds(ws[w].tabs@, crate::topology::tab_holds(pid));
    lemma_first_index_bounds(ws[w].tabs@[t].panes@, crate::topology::pane_is(pid));
}

/// Dropping repeats leaves each pane once, keeps only items of `s`, and never lengthens `s`.
proof fn lemma_dedup_props(s: Seq<PlanItem>)
    ensures
        dedup_by_pane(s).len() <= s.len(),
        forall|i: int, j: int|
            #![trigger dedup_by_pane(s)[i], dedup_by_pane(s)[j]]
            0 <= i < j < dedup_by_pane(s).len() ==> dedup_by_pane(s)[i].1 != dedup_by_pane(s)[j].1,
        forall|i: int| 0 <= i < dedup_by_pane(s).len() ==> s.contains(#[trigger] dedup_by_pane(s)[i]),
    decreases s.len(),
{
    if s.len() > 0 {
        let t = s.drop_last();
        lemma_dedup_props(t);
        let r = dedup_by_pane(t);
        let d = dedup_by_pane(s);
        assert forall|i: int| 0 <= i < d.len() implies s.contains(#[trigger] d[i]) by {
            if i < r.len() {
                assert(d[i] == r[i]);
                let m = choose|m: int| 0 <= m < t.len() && t[m] == r[i];
                assert(s[m] == t[m]);
            } else {
                assert(d[i] == s[s.len() - 1]);
            }
        }
        if !plan_has_pane(r, s.last().1) {
            assert forall|i: int, j: int|
                #![trigger d[i], d[j]]
                0 <= i < j < d.len() implies d[i].1 != d[j].1 by {
                if j < r.len() {
                    assert(d[i] == r[i] && d[j] == r[j]);
                } else {
                    assert(d[i] == r[i]);
                }
            }
        }
    }
}

/// The host application: its state and the attention operations that need public
/// identifiers.
pub struct App {
    pub state: AppState,
}

impl App {
    /// The first workspace that holds the pane, and the pane's state there.
    pub fn find_pane(&self, pid: PaneId) -> (r: Option<(usize, PaneState)>)
        ensures
            r is Some <==> ws_index(self.state.workspaces@, pid)
                < self.state.workspaces@.len(),
            r matches Some((wi, p)) ==> wi == ws_index(self.state.workspaces@, pid) && p
                == ws_pane(self.state.workspaces@[wi as int], pid),
    {
        match workspace_index_for_pane(&self.state.workspaces, pid) {
            None => None,
            Some(wi) => {
                proof {
                    lemma_first_index_bounds(
                        self.state.workspaces@,
                        crate::topology::ws_holds(pid),
                    );
                }
                let w = &self.state.workspaces[wi];
                let ti = w.find_tab_index_for_pane(pid).unwrap();
                proof {
                    lemma_first_index_bounds(w.tabs@, crate::topology::tab_holds(pid));
                }
                let pi = w.tabs[ti].pane_index(pid).unwrap();
                Some((wi, w.tabs[ti].panes[pi]))
            },
        }
    }

    /// The public identifier of the pane as numbered in workspace `wi`.
    pub fn public_pane_id(&self, wi: usize, pid: PaneId) -> (r: Option<String>)
        ensures
            opt_string_view(r) == public_id_in(self.state.workspaces@, wi as int, pid),
    {
        if wi >= self.state.workspaces.len() {
            return None;
        }
        let w = &self.state.workspaces[wi];
        match w.public_pane_number(pid) {
            Some(n) => Some(public_pane_id_for_number(&w.id, n)),
            None => None,
        }
    }

    /// The public identifier of the pane in the first workspace that holds it.
    fn public_id_of(&self, pid: PaneId) -> (r: Option<String>)
        ensures
            opt_string_view(r) == public_id_of_pane(self.state.workspaces@, pid),
    {
        match self.find_pane(pid) {
            Some((wi, _)) => self.public_pane_id(wi, pid),
            None => None,
        }
    }

    /// The workspace and pane that a public identifier names.
    pub fn parse_current_public_pane_id(&self, s: &String) -> (r: Option<(usize, PaneId)>)
        ensures
            r is Some <==> parse_public_pane_id(self.state.workspaces@, s@) is Some,
            r matches Some((wi, p)) ==> parse_public_pane_id(self.state.workspaces@, s@) == Some(
                (wi as int, p),
            ) && wi < self.state.workspaces@.len(),
    {
        let ws = &self.state.workspaces;
        let ghost names = ws_names(s@);
        let mut i: usize = 0;
        while i < ws.len()
            invariant
                i <= ws@.len(),
                ws@ == self.state.workspaces@,
                names == ws_names(s@),
                forall|j: int| 0 <= j < i ==> !(#[trigger] names(ws@[j])),
            decreases ws@.len() - i,
        {
            let w = &ws[i];
            let ghost f = number_names(w.id@, s@);
            let mut k: usize = 0;
            while k < w.public_pane_numbers.len()
                invariant
                    k <= w.public_pane_numbers@.len(),
                    i < ws@.len(),
                    ws@ == self.state.workspaces@,
                    *w == ws@[i as int],
                    names == ws_names(s@),
                    forall|j: int| 0 <= j < i ==> !(#[trigger] names(ws@[j])),
                    f == number_names(w.id@, s@),
                    forall|j: int| 0 <= j < k ==> !(#[trigger] f(w.public_pane_numbers@[j])),
                decreases w.public_pane_numbers@.len() - k,
            {
                let (pid, n) = w.public_pane_numbers[k];
                let candidate = public_pane_id_for_number(&w.id, n);
                if candidate == *s {
                    proof {
                        lemma_first_index_is(w.public_pane_numbers@, f, k as int);
                        lemma_first_index_is(ws@, names, i as int);
                    }
                    return Some((i, pid));
                }
                k += 1;
            }
            proof {
                lemma_first_index_none(w.public_pane_numbers@, f);
            }
            i += 1;
        }
        proof {
            lemma_first_index_none(ws@, names);
        }
        None
    }

    /// The queue, in order, and the dismissals, sorted, by public pane identifier. Entries and
    /// dismissals of panes without a public identifier are left out.
    pub fn attention_handoff_state(&self) -> (r: AttentionHandoffState)
        ensures
            handoff_queue_view(r.queue@) == self.state.attention_dock@.queue.filter_map(
                handoff_entry_of(self.state.workspaces@),
            ),
            is_lex_sort(
                views(r.dismissed_source_pane_ids@),
                self.state.attention_dock@.dismissed.filter_map(
                    dismissed_public_id(self.state.workspaces@),
                ),
            ),
    {
        let q = &self.state.attention_dock.queue;
        let ghost fq = handoff_entry_of(self.state.workspaces@);
        let mut queue: Vec<AttentionHandoffEntry> = Vec::new();
        let mut k: usize = 0;
        while k < q.len()
            invariant
                k <= q@.len(),
                fq == handoff_entry_of(self.state.workspaces@),
                handoff_queue_view(queue@) == q@.take(k as int).filter_map(fq),
            decreases q@.len() - k,
        {
            proof {
                q@.lemma_filter_map_take_succ(fq, k as int);
            }
            let ghost before = queue@;
            match self.public_id_of(q[k].pane_id) {
                Some(s) => {
                    queue.push(AttentionHandoffEntry { source_pane_id: s, kind: q[k].kind });
                    proof {
                        assert(handoff_queue_view(queue@) =~= handoff_queue_view(before) + seq![
                            fq(q@[k as int])->0]);
                    }
                },
                None => {
                    proof {
                        assert(handoff_queue_view(queue@) =~= handoff_queue_view(before)
                            + Seq::<HandoffEntryView>::empty());
                    }
                },
            }
            k += 1;
        }
        let ds = &self.state.attention_dock.dismissed;
        let ghost fd = dismissed_public_id(self.state.workspaces@);
        let mut dismissed: Vec<String> = Vec::new();
        let mut k: usize = 0;
        while k < ds.len()
            invariant
                k <= ds@.len(),
                fd == dismissed_public_id(self.state.workspaces@),
                views(dismissed@) == ds@.take(k as int).filter_map(fd),
            decreases ds@.len() - k,
        {
            proof {
                ds@.lemma_filter_map_take_succ(fd, k as int);
            }
            let ghost before = dismissed@;
            match self.public_id_of(ds[k]) {
                Some(s) => {
                    dismissed.push(s);
                    proof {
                        assert(views(dismissed@) =~= views(before) + seq![fd(ds@[k as int])->0]);
                    }
                },
                None => {
                    proof {
                        assert(views(dismissed@) =~= views(before) + Seq::<Seq<char>>::empty());
                    }
                },
            }
            k += 1;
        }
        proof {
            assert(q@.take(q@.len() as int) =~= q@);
            assert(ds@.take(ds@.len() as int) =~= ds@);
        }
        AttentionHandoffState { queue, dismissed_source_pane_ids: sort_strings(dismissed) }
    }

    /// The panes that the carried-over dismissals name, each once.
    fn parse_dismissed(&self, srcs: &Vec<String>) -> (r: Vec<PaneId>)
        ensures
            r@.no_duplicates(),
            r@.to_set() == restore_dismissed(self.state.workspaces@, views(srcs@)).to_set(),
    {
        let ghost f = parsed_pane_id(self.state.workspaces@);
        let ghost vs = views(srcs@);
        let mut out: Vec<PaneId> = Vec::new();
        let mut k: usize = 0;
        while k < srcs.len()
            invariant
                k <= srcs@.len(),
                vs == views(srcs@),
                f == parsed_pane_id(self.state.workspaces@),
                out@.no_duplicates(),
                out@.to_set() == vs.take(k as int).filter_map(f).to_set(),
            decreases srcs@.len() - k,
        {
            proof {
                vs.lemma_filter_map_take_succ(f, k as int);
                assert(vs[k as int] == srcs@[k as int]@);
            }
            let ghost before = out@;
            let ghost prev = vs.take(k as int).filter_map(f);
            match self.parse_current_public_pane_id(&srcs[k]) {
                Some((_, p)) => {
                    proof {
                        assert(vs.take(k + 1).filter_map(f) =~= prev.push(p));
                        prev.lemma_push_to_set_commute(p);
                    }
                    if !ids_contain(&out, p) {
                        out.push(p);
                        proof {
                            before.lemma_push_to_set_commute(p);
                            assert forall|i: int, j: int|
                                0 <= i < out@.len() && 0 <= j < out@.len() && i != j implies out@[i]
                                != out@[j] by {
                                if i < before.len() && j < before.len() {
                                } else if i < before.len() {
                                    assert(before.contains(out@[i]));
                                } else {
                                    assert(before.contains(out@[j]));
                                }
                            }
                        }
                    } else {
                        proof {
                            assert(before.to_set().contains(p));
                            assert(before.to_set().insert(p) =~= before.to_set());
                        }
                    }
                },
                None => {
                    proof {
                        assert(vs.take(k + 1).filter_map(f) =~= prev);
                    }
                },
            }
            k += 1;
        }
        proof {
            assert(vs.take(srcs@.len() as int) =~= vs);
        }
        out
    }

    /// The carried-over entries resolved to workspace, pane and kind, before duplicates are
    /// dropped.
    fn restore_candidates(&self, queue: &Vec<AttentionHandoffEntry>, dismissed: &Vec<PaneId>) -> (r: Vec<
        (usize, PaneId, AttentionKind),
    >)
        ensures
            r@.map_values(plan_item_view()) == handoff_queue_view(queue@).filter_map(
                restore_candidate(self.state.workspaces@, self.state.terminals@, dismissed@),
            ),
            forall|i: int| 0 <= i < r@.len() ==> !dismissed@.contains(#[trigger] r@[i].1),
            forall|i: int| 0 <= i < r@.len() ==> (#[trigger] r@[i]).0 < self.state.workspaces@.len(),
    {
        let ghost f = restore_candidate(self.state.workspaces@, self.state.terminals@, dismissed@);
        let ghost vs = handoff_queue_view(queue@);
        let mut out: Vec<(usize, PaneId, AttentionKind)> = Vec::new();
        let mut k: usize = 0;
        while k < queue.len()
            invariant
                k <= queue@.len(),
                vs == handoff_queue_view(queue@),
                f == restore_candidate(self.state.workspaces@, self.state.terminals@, dismissed@),
                out@.map_values(plan_item_view()) == vs.take(k as int).filter_map(f),
                forall|i: int| 0 <= i < out@.len() ==> !dismissed@.contains(#[trigger] out@[i].1),
                forall|i: int| 0 <= i < out@.len() ==> (#[trigger] out@[i]).0 < self.state.workspaces@.len(),
            decreases queue@.len() - k,
        {
            proof {
                vs.lemma_filter_map_take_succ(f, k as int);
            }
            let ghost before = out@;
            let e = &queue[k];
            let mut pushed = false;
            match self.parse_current_public_pane_id(&e.source_pane_id) {
                Some((wi, pid)) => match self.state.workspaces[wi].terminal_id(pid) {
                    Some(tid) => match find_terminal(&self.state.terminals, tid) {
                        Some(ti) => {
                            if attention_eligible(&self.state.terminals[ti]) && !ids_contain(
                                dismissed,
                                pid,
                            ) {
                                out.push((wi, pid, e.kind));
                                pushed = true;
                            }
                        },
                        None => {},
                    },
                    None => {},
                },
                None => {},
            }
            proof {
                if pushed {
                    assert(out@.map_values(plan_item_view()) =~= before.map_values(plan_item_view())
                        + seq![f(vs[k as int])->0]);
                    assert forall|i: int| 0 <= i < out@.len() implies !dismissed@.contains(
                        #[trigger] out@[i].1,
                    ) && out@[i].0 < self.state.workspaces@.len() by {
                        if i < before.len() {
                            assert(out@[i] == before[i]);
                        }
                    }
                } else {
                    assert(out@.map_values(plan_item_view()) =~= before.map_values(plan_item_view())
                        + Seq::<PlanItem>::empty());
                }
            }
            k += 1;
        }
        proof {
            assert(vs.take(queue@.len() as int) =~= vs);
        }
        out
    }

    /// Takes over a carried-over queue and its dismissals at time `now`. Dismissals name
    /// panes by public identifier; entries whose identifier names no pane held by the named
    /// workspace, whose terminal is missing or runs a managed Pi agent, or whose pane is
    /// dismissed, are dropped, and so are repeats of a pane. The rest are queued in order,
    /// ready at once, numbered from 0; a done entry marks its pane unseen again.
    pub fn restore_attention_handoff_state(&mut self, state: AttentionHandoffState, now: u64)
        ensures
            dock_wf(final(self).state.attention_dock@),
            final(self).state.terminals == old(self).state.terminals,
            final(self).state.attention_dock@.dismissed.no_duplicates(),
            final(self).state.attention_dock@.dismissed.to_set() == restore_dismissed(
                old(self).state.workspaces@,
                views(state.dismissed_source_pane_ids@),
            ).to_set(),
            ({
                let plan = restore_plan(
                    old(self).state.workspaces@,
                    old(self).state.terminals@,
                    handoff_queue_view(state.queue@),
                    views(state.dismissed_source_pane_ids@),
                );
                &&& final(self).state.attention_dock@.queue == plan.map(restored_entry(now))
                &&& final(self).state.attention_dock@.next_sequence == plan.len()
                &&& same_shape(old(self).state.workspaces@, final(self).state.workspaces@)
                &&& forall|w: int, t: int, k: int|
                    valid_pos(old(self).state.workspaces@, w, t, k) ==> #[trigger] seen_at(
                        final(self).state.workspaces@,
                        w,
                        t,
                        k,
                    ) == (if pane_cleared(plan, old(self).state.workspaces@, w, t, k) {
                        false
                    } else {
                        seen_at(old(self).state.workspaces@, w, t, k)
                    })
            }),
    {
        let ghost ws0 = self.state.workspaces@;
        let ghost terms0 = self.state.terminals@;
        let dismissed = self.parse_dismissed(&state.dismissed_source_pane_ids);
        let ghost ds = restore_dismissed(ws0, views(state.dismissed_source_pane_ids@));
        proof {
            assert forall|p: PaneId| dismissed@.contains(p) == ds.contains(p) by {
                assert(dismissed@.to_set().contains(p) == dismissed@.contains(p));
                assert(ds.to_set().contains(p) == ds.contains(p));
            }
            assert(restore_candidate(ws0, terms0, dismissed@) =~= restore_candidate(ws0, terms0, ds));
        }
        let cands = self.restore_candidates(&state.queue, &dismissed);
        let ghost cv = cands@.map_values(plan_item_view());
        let ghost plan = restore_plan(
            ws0,
            terms0,
            handoff_queue_view(state.queue@),
            views(state.dismissed_source_pane_ids@),
        );
        proof {
            assert(cv == handoff_queue_view(state.queue@).filter_map(restore_candidate(ws0, terms0, ds)));
            assert(plan == dedup_by_pane(cv));
        }
        self.state.attention_dock.queue = Vec::new();
        self.state.attention_dock.dismissed = dismissed;
        self.state.attention_dock.next_sequence = 0;
        proof {
            lemma_same_shape_reflexive(ws0);
            assert(dedup_by_pane(cv.take(0)) =~= Seq::<PlanItem>::empty());
            assert(Seq::<PlanItem>::empty().map(restored_entry(now)) =~= Seq::<AttentionEntry>::empty());
        }
        let mut k: usize = 0;
        while k < cands.len()
            invariant
                k <= cands@.len(),
                cv == cands@.map_values(plan_item_view()),
                self.state.terminals == old(self).state.terminals,
                self.state.attention_dock@.dismissed == dismissed@,
                dismissed@.no_duplicates(),
                forall|i: int| 0 <= i < cands@.len() ==> !dismissed@.contains(#[trigger] cands@[i].1),
                forall|i: int| 0 <= i < cands@.len() ==> (#[trigger] cands@[i]).0 < ws0.len(),
                self.state.attention_dock@.queue == dedup_by_pane(cv.take(k as int)).map(
                    restored_entry(now),
                ),
                self.state.attention_dock.next_sequence == dedup_by_pane(cv.take(k as int)).len(),
                same_shape(ws0, self.state.workspaces@),
                forall|w: int, t: int, j: int|
                    valid_pos(ws0, w, t, j) ==> #[trigger] seen_at(self.state.workspaces@, w, t, j)
                        == (if pane_cleared(dedup_by_pane(cv.take(k as int)), ws0, w, t, j) {
                        false
                    } else {
                        seen_at(ws0, w, t, j)
                    }),
            decreases cands@.len() - k,
        {
            let (wi, pid, kind) = cands[k];
            let ghost prev = dedup_by_pane(cv.take(k as int));
            proof {
                assert(cv.take(k + 1).drop_last() =~= cv.take(k as int));
                assert(cv.take(k + 1).last() == cv[k as int]);
            }
            let present = queue_has_pane(&self.state.attention_dock.queue, pid);
            proof {
                lemma_dedup_props(cv.take(k as int));
                assert(present == plan_has_pane(prev, pid)) by {
                    if present {
                        let i = choose|i: int|
                            0 <= i < self.state.attention_dock@.queue.len()
                                && (#[trigger] self.state.attention_dock@.queue[i]).pane_id == pid;
                        assert(prev[i].1 == pid);
                    }
                    if plan_has_pane(prev, pid) {
                        let i = choose|i: int| 0 <= i < prev.len() && (#[trigger] prev[i]).1 == pid;
                        assert(self.state.attention_dock@.queue[i].pane_id == pid);
                    }
                }
                assert(cv[k as int] == (wi as int, pid, kind));
            }
            if !present {
                let ghost ws_before = self.state.workspaces@;
                if kind == AttentionKind::Done {
                    clear_seen(&mut self.state.workspaces, wi, pid);
                }
                proof {
                    let c = (wi as int, pid, kind);
                    let next = prev.push(c);
                    let cur = self.state.workspaces@;
                    if kind == AttentionKind::Done {
                        lemma_same_shape_transitive(ws0, ws_before, cur);
                    }
                    assert forall|w: int, t: int, jj: int| valid_pos(ws0, w, t, jj) implies #[trigger] seen_at(
                        cur,
                        w,
                        t,
                        jj,
                    ) == (if pane_cleared(next, ws0, w, t, jj) {
                        false
                    } else {
                        seen_at(ws0, w, t, jj)
                    }) by {
                        let id = ws0[w].tabs@[t].panes@[jj].id;
                        assert(valid_pos(ws_before, w, t, jj)) by {
                            assert(crate::topology::ws_same_shape(ws0[w], ws_before[w]));
                            assert(crate::topology::tab_same_shape(ws0[w].tabs@[t], ws_before[w].tabs@[t]));
                        }
                        if pane_cleared(prev, ws0, w, t, jj) {
                            let i = choose|i: int|
                                0 <= i < prev.len() && (#[trigger] prev[i]).0 == w && prev[i].1 == id
                                    && prev[i].2 == AttentionKind::Done;
                            assert(next[i] == prev[i]);
                        }
                        if kind == AttentionKind::Done {
                            lemma_same_shape_positions(ws0, ws_before, wi as int, pid);
                            let hit = w == wi && is_first_position(ws_before, w, t, jj, pid);
                            if hit {
                                lemma_first_position_id(ws0, w, t, jj, pid);
                                assert(next[prev.len() as int] == c);
                            }
                            if w == wi && id == pid && is_first_position(ws0, w, t, jj, id) {
                                assert(hit);
                            }
                            if pane_cleared(next, ws0, w, t, jj) && !pane_cleared(prev, ws0, w, t, jj) {
                                let i = choose|i: int|
                                    0 <= i < next.len() && (#[trigger] next[i]).0 == w && next[i].1 == id
                                        && next[i].2 == AttentionKind::Done;
                                if i < prev.len() {
                                    assert(next[i] == prev[i]);
                                }
                            }
                        } else {
                            if pane_cleared(next, ws0, w, t, jj) {
                                let i = choose|i: int|
                                    0 <= i < next.len() && (#[trigger] next[i]).0 == w && next[i].1 == id
                                        && next[i].2 == AttentionKind::Done;
                                assert(i < prev.len());
                                assert(next[i] == prev[i]);
                            }
                        }
                    }
                }
                let sequence = self.state.attention_dock.next_sequence;
                self.state.attention_dock.next_sequence = sequence + 1;
                self.state.attention_dock.queue.push(
                    AttentionEntry { pane_id: pid, kind, sequence, eligible_at: now, ready: true },
                );
                proof {
                    let next = prev.push((wi as int, pid, kind));
                    assert(self.state.attention_dock@.queue =~= next.map(restored_entry(now)));
                }
            } else {
                proof {
                    assert(dedup_by_pane(cv.take(k + 1)) == prev);
                }
            }
            k += 1;
        }
        proof {
            assert(cv.take(cands@.len() as int) =~= cv);
            lemma_dedup_props(cv);
            let q = self.state.attention_dock@.queue;
            assert forall|i: int, j: int|
                #![trigger q[i], q[j]]
                0 <= i < j < q.len() implies q[i].sequence < q[j].sequence && q[i].pane_id
                    != q[j].pane_id by {
                assert(plan[i].1 != plan[j].1);
            }
            assert forall|i: int| 0 <= i < q.len() implies #[trigger] q[i].sequence
                <= self.state.attention_dock.next_sequence && !dismissed@.contains(q[i].pane_id) by {
                assert(cv.contains(plan[i]));
                let m = choose|m: int| 0 <= m < cv.len() && cv[m] == plan[i];
                assert(cv[m] == plan_item_view()(cands@[m]));
            }
        }
    }
}

} // verus!
