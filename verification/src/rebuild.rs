//! Rebuilding the attention queue from the topology alone, when a restarted host has no
//! queue to take over.
use crate::dock::{debounced, dock_wf, panes_unique, pane_id_of, AppState, AttentionEntry, AttentionKind, DockView, ids_contain};
use crate::seqs::{lemma_filter_insert, lemma_filter_none};
use crate::topology::{
    all_panes, attention_eligible_spec, collect_all_panes, find_terminal, attention_eligible,
    terminal_lookup, AgentState, PaneId, PaneState, TerminalState,
};
use crate::ATTENTION_DEBOUNCE_MS;
use vstd::prelude::*;

verus! {

/// A pane that asks for attention, with its kind and the sequence number of its terminal's
/// last agent state change.
pub type Candidate = (PaneId, AttentionKind, u64);

/// The candidate that a pane makes, if any: its terminal must be registered and eligible, the
/// pane not dismissed, and the agent blocked, or idle with output the user has not seen.
pub open spec fn rebuild_candidate(dismissed: Seq<PaneId>, terms: Seq<TerminalState>) -> spec_fn(
    PaneState,
) -> Option<Candidate> {
    |p: PaneState|
        if dismissed.contains(p.id) {
            None
        } else {
            match terminal_lookup(terms, p.attached_terminal_id) {
                None => None,
                Some(t) => if !attention_eligible_spec(t) {
                    None
                } else if t.state == AgentState::Blocked {
                    Some((p.id, AttentionKind::Blocked, state_change_seq(t)))
                } else if t.state == AgentState::Idle && !p.seen {
                    Some((p.id, AttentionKind::Done, state_change_seq(t)))
                } else {
                    None
                },
            }
        }
}

pub open spec fn state_change_seq(t: TerminalState) -> u64 {
    match t.last_agent_state_change_seq {
        Some(s) => s,
        None => 0,
    }
}

pub open spec fn cand_seq_is(k: u64) -> spec_fn(Candidate) -> bool {
    |c: Candidate| c.2 == k
}

pub open spec fn sorted_by_seq(s: Seq<Candidate>) -> bool {
    forall|i: int, j: int| #![trigger s[i], s[j]] 0 <= i < j < s.len() ==> s[i].2 <= s[j].2
}

/// `out` is `inp` sorted by sequence number, candidates with equal numbers kept in their
/// order in `inp`.
pub open spec fn is_stable_sort_by_seq(out: Seq<Candidate>, inp: Seq<Candidate>) -> bool {
    &&& out.len() == inp.len()
    &&& sorted_by_seq(out)
    &&& forall|k: u64| #[trigger] out.filter(cand_seq_is(k)) == inp.filter(cand_seq_is(k))
}

/// The `i`th entry of a rebuilt queue.
pub open spec fn rebuilt_entry(now: u64) -> spec_fn(int, Candidate) -> AttentionEntry {
    |i: int, c: Candidate|
        AttentionEntry {
            pane_id: c.0,
            kind: c.1,
            sequence: (i + 1) as u64,
            eligible_at: debounced(now),
            ready: false,
        }
}

proof fn lemma_stable_insert(out: Seq<Candidate>, pos: int, x: Candidate, pre: Seq<Candidate>)
    requires
        0 <= pos <= out.len(),
        sorted_by_seq(out),
        forall|i: int| 0 <= i < pos ==> (#[trigger] out[i]).2 <= x.2,
        forall|i: int| pos <= i < out.len() ==> (#[trigger] out[i]).2 > x.2,
        forall|k: u64| #[trigger] out.filter(cand_seq_is(k)) == pre.filter(cand_seq_is(k)),
    ensures
        sorted_by_seq(out.insert(pos, x)),
        forall|k: u64| #[trigger] out.insert(pos, x).filter(cand_seq_is(k)) == pre.push(x).filter(
            cand_seq_is(k),
        ),
{
    let ins = out.insert(pos, x);
    assert forall|i: int, j: int| #![trigger ins[i], ins[j]] 0 <= i < j < ins.len() implies ins[i].2
        <= ins[j].2 by {
        if j < pos {
            assert(ins[i] == out[i] && ins[j] == out[j]);
        } else if j == pos {
            assert(ins[i] == out[i]);
        } else if i < pos {
            assert(ins[i] == out[i] && ins[j] == out[j - 1]);
        } else if i == pos {
            assert(ins[j] == out[j - 1]);
        } else {
            assert(ins[i] == out[i - 1] && ins[j] == out[j - 1]);
        }
    }
    assert forall|k: u64| #[trigger] ins.filter(cand_seq_is(k)) == pre.push(x).filter(
        cand_seq_is(k),
    ) by {
        let f = cand_seq_is(k);
        lemma_filter_insert(out, pos, x, f);
        pre.lemma_filter_push(x, f);
        assert(out.filter(f) == pre.filter(f));
        if k == x.2 {
            assert forall|j: int| 0 <= j < out.skip(pos).len() implies !f(
                #[trigger] out.skip(pos)[j],
            ) by {
                assert(out.skip(pos)[j] == out[pos + j]);
            }
            lemma_filter_none(out.skip(pos), f);
            assert(ins.filter(f) =~= pre.filter(f).push(x));
        } else {
            assert(ins.filter(f) =~= out.filter(f));
        }
    }
}

/// Sorts the candidates by sequence number, keeping the order of equal numbers.
fn stable_sort_by_seq(cands: &Vec<Candidate>) -> (out: Vec<Candidate>)
    requires
        forall|i: int, j: int|
            #![trigger cands@[i], cands@[j]]
            0 <= i < j < cands@.len() ==> cands@[i].0 != cands@[j].0,
    ensures
        is_stable_sort_by_seq(out@, cands@),
        forall|i: int| 0 <= i < out@.len() ==> cands@.contains(#[trigger] out@[i]),
        forall|a: int, b: int|
            #![trigger out@[a], out@[b]]
            0 <= a < b < out@.len() ==> out@[a].0 != out@[b].0,
{
    let mut out: Vec<Candidate> = Vec::new();
    let mut i: usize = 0;
    proof {
        assert forall|k: u64| #[trigger] out@.filter(cand_seq_is(k)) == cands@.take(0).filter(
            cand_seq_is(k),
        ) by {
            reveal(Seq::filter);
            assert(cands@.take(0) =~= Seq::<Candidate>::empty());
        }
    }
    while i < cands.len()
        invariant
            i <= cands@.len(),
            out@.len() == i,
            sorted_by_seq(out@),
            forall|k: u64| #[trigger] out@.filter(cand_seq_is(k)) == cands@.take(i as int).filter(
                cand_seq_is(k),
            ),
            forall|a: int|
                0 <= a < out@.len() ==> exists|m: int| 0 <= m < i && cands@[m] == #[trigger] out@[a],
            forall|a: int, b: int|
                #![trigger out@[a], out@[b]]
                0 <= a < b < out@.len() ==> out@[a].0 != out@[b].0,
            forall|i: int, j: int|
                #![trigger cands@[i], cands@[j]]
                0 <= i < j < cands@.len() ==> cands@[i].0 != cands@[j].0,
        decreases cands@.len() - i,
    {
        let x = cands[i];
        let mut pos: usize = 0;
        while pos < out.len() && out[pos].2 <= x.2
            invariant
                pos <= out@.len(),
                forall|a: int| 0 <= a < pos ==> (#[trigger] out@[a]).2 <= x.2,
            decreases out@.len() - pos,
        {
            pos += 1;
        }
        proof {
            assert forall|a: int| pos <= a < out@.len() implies (#[trigger] out@[a]).2 > x.2 by {
                if a > pos {
                    assert(out@[pos as int].2 <= out@[a].2);
                }
            }
            lemma_stable_insert(out@, pos as int, x, cands@.take(i as int));
            assert(cands@.take(i + 1) =~= cands@.take(i as int).push(x));
        }
        let ghost before = out@;
        out.insert(pos, x);
        proof {
            assert forall|a: int| 0 <= a < out@.len() implies exists|m: int|
                0 <= m < i + 1 && cands@[m] == #[trigger] out@[a] by {
                if a < pos {
                    assert(out@[a] == before[a]);
                } else if a == pos {
                    assert(cands@[i as int] == out@[a]);
                } else {
                    assert(out@[a] == before[a - 1]);
                }
            }
            assert forall|a: int| 0 <= a < before.len() implies (#[trigger] before[a]).0 != x.0 by {
                let m = choose|m: int| 0 <= m < i && cands@[m] == before[a];
                assert(cands@[m].0 != cands@[i as int].0);
            }
            assert forall|a: int, b: int|
                #![trigger out@[a], out@[b]]
                0 <= a < b < out@.len() implies out@[a].0 != out@[b].0 by {
                if b < pos {
                    assert(out@[a] == before[a] && out@[b] == before[b]);
                } else if b == pos {
                    assert(out@[a] == before[a]);
                } else if a < pos {
                    assert(out@[a] == before[a] && out@[b] == before[b - 1]);
                } else if a == pos {
                    assert(out@[b] == before[b - 1]);
                } else {
                    assert(out@[a] == before[a - 1] && out@[b] == before[b - 1]);
                }
            }
        }
        i += 1;
    }
    proof {
        assert(cands@.take(cands@.len() as int) =~= cands@);
        assert forall|a: int| 0 <= a < out@.len() implies cands@.contains(#[trigger] out@[a]) by {
            let m = choose|m: int| 0 <= m < cands@.len() && cands@[m] == out@[a];
        }
    }
    out
}

/// The candidates of the rebuilt queue, in topology order.
pub open spec fn rebuild_candidates(app: AppState) -> Seq<Candidate> {
    all_panes(app.workspaces@).filter_map(
        rebuild_candidate(app.attention_dock@.dismissed, app.terminals@),
    )
}

impl AppState {
    /// The candidates of the rebuilt queue, in topology order.
    fn collect_rebuild_candidates(&self) -> (r: Vec<Candidate>)
        requires
            panes_unique(self.workspaces@),
        ensures
            r@ == rebuild_candidates(*self),
            forall|i: int, j: int|
                #![trigger r@[i], r@[j]]
                0 <= i < j < r@.len() ==> r@[i].0 != r@[j].0,
            forall|i: int|
                0 <= i < r@.len() ==> !self.attention_dock@.dismissed.contains(#[trigger] r@[i].0),
    {
        let panes = collect_all_panes(&self.workspaces);
        let ghost f = rebuild_candidate(self.attention_dock@.dismissed, self.terminals@);
        let ghost ids = panes@.map_values(pane_id_of());
        let mut out: Vec<Candidate> = Vec::new();
        let mut k: usize = 0;
        while k < panes.len()
            invariant
                k <= panes@.len(),
                panes@ == all_panes(self.workspaces@),
                ids == panes@.map_values(pane_id_of()),
                ids.no_duplicates(),
                f == rebuild_candidate(self.attention_dock@.dismissed, self.terminals@),
                out@ == panes@.take(k as int).filter_map(f),
                forall|a: int|
                    0 <= a < out@.len() ==> exists|m: int|
                        0 <= m < k && panes@[m].id == (#[trigger] out@[a]).0,
                forall|a: int, b: int|
                    #![trigger out@[a], out@[b]]
                    0 <= a < b < out@.len() ==> out@[a].0 != out@[b].0,
                forall|a: int|
                    0 <= a < out@.len() ==> !self.attention_dock@.dismissed.contains(
                        #[trigger] out@[a].0,
                    ),
            decreases panes@.len() - k,
        {
            proof {
                panes@.lemma_filter_map_take_succ(f, k as int);
            }
            let ghost before = out@;
            let p = panes[k];
            if !ids_contain(&self.attention_dock.dismissed, p.id) {
                match find_terminal(&self.terminals, p.attached_terminal_id) {
                    Some(ti) => {
                        let t = self.terminals[ti];
                        if attention_eligible(&t) {
                            let seq = match t.last_agent_state_change_seq {
                                Some(s) => s,
                                None => 0,
                            };
                            if t.state == AgentState::Blocked {
                                out.push((p.id, AttentionKind::Blocked, seq));
                            } else if t.state == AgentState::Idle && !p.seen {
                                out.push((p.id, AttentionKind::Done, seq));
                            }
                        }
                    },
                    None => {},
                }
            }
            proof {
                if out@.len() > before.len() {
                    assert(out@ =~= before + seq![out@[before.len() as int]]);
                    assert forall|a: int| 0 <= a < before.len() implies (#[trigger] before[a]).0
                        != p.id by {
                        let m = choose|m: int| 0 <= m < k && panes@[m].id == before[a].0;
                        assert(ids[m] == panes@[m].id && ids[k as int] == panes@[k as int].id);
                    }
                    assert forall|a: int, b: int|
                        #![trigger out@[a], out@[b]]
                        0 <= a < b < out@.len() implies out@[a].0 != out@[b].0 by {
                        if b < before.len() {
                            assert(out@[a] == before[a] && out@[b] == before[b]);
                        } else {
                            assert(out@[a] == before[a]);
                        }
                    }
                    assert forall|a: int|
                        0 <= a < out@.len() implies exists|m: int|
                            0 <= m < k + 1 && panes@[m].id == (#[trigger] out@[a]).0 by {
                        if a < before.len() {
                            assert(out@[a] == before[a]);
                        } else {
                            assert(panes@[k as int].id == out@[a].0);
                        }
                    }
                    assert forall|a: int|
                        0 <= a < out@.len() implies !self.attention_dock@.dismissed.contains(
                            #[trigger] out@[a].0,
                        ) by {
                        if a < before.len() {
                            assert(out@[a] == before[a]);
                        }
                    }
                } else {
                    assert(out@ =~= before + Seq::<Candidate>::empty());
                }
            }
            k += 1;
        }
        proof {
            assert(panes@.take(panes@.len() as int) =~= panes@);
        }
        out
    }

    /// Rebuilds the queue from the topology after a restart that carried no queue over:
    /// every eligible, undismissed pane whose agent is blocked, or idle with unseen output,
    /// is queued again in the order of its terminal's last state change, debounced from
    /// `now`. Dismissals are kept.
    pub fn rebuild_attention_queue_after_handoff(&mut self, now: u64)
        requires
            old(self).wf(),
            panes_unique(old(self).workspaces@),
            now <= u64::MAX - ATTENTION_DEBOUNCE_MS,
        ensures
            final(self).wf(),
            final(self).workspaces == old(self).workspaces,
            final(self).terminals == old(self).terminals,
            final(self).attention_dock@.dismissed == old(self).attention_dock@.dismissed,
            final(self).attention_dock@.next_sequence == rebuild_candidates(*old(self)).len(),
            exists|order: Seq<Candidate>|
                is_stable_sort_by_seq(order, rebuild_candidates(*old(self)))
                    && final(self).attention_dock@.queue == order.map(rebuilt_entry(now)),
    {
        let cands = self.collect_rebuild_candidates();
        let sorted = stable_sort_by_seq(&cands);
        let mut queue: Vec<AttentionEntry> = Vec::new();
        let mut idx: usize = 0;
        while idx < sorted.len()
            invariant
                idx <= sorted@.len(),
                now <= u64::MAX - ATTENTION_DEBOUNCE_MS,
                queue@.len() == idx,
                forall|i: int| 0 <= i < idx ==> #[trigger] queue@[i] == rebuilt_entry(now)(
                    i,
                    sorted@[i],
                ),
            decreases sorted@.len() - idx,
        {
            let c = sorted[idx];
            queue.push(
                AttentionEntry {
                    pane_id: c.0,
                    kind: c.1,
                    sequence: idx as u64 + 1,
                    eligible_at: now + ATTENTION_DEBOUNCE_MS,
                    ready: false,
                },
            );
            idx += 1;
        }
        let ghost d = self.attention_dock@;
        self.attention_dock.queue = queue;
        self.attention_dock.next_sequence = sorted.len() as u64;
        proof {
            let q = self.attention_dock@.queue;
            assert(q =~= sorted@.map(rebuilt_entry(now)));
            assert forall|i: int, j: int|
                #![trigger q[i], q[j]]
                0 <= i < j < q.len() implies q[i].sequence < q[j].sequence && q[i].pane_id
                    != q[j].pane_id by {
                assert(sorted@[i].0 != sorted@[j].0);
            }
            assert forall|i: int| 0 <= i < q.len() implies #[trigger] q[i].sequence
                <= self.attention_dock.next_sequence && !d.dismissed.contains(q[i].pane_id) by {
                assert(cands@.contains(sorted@[i]));
                let m = choose|m: int| 0 <= m < cands@.len() && cands@[m] == sorted@[i];
                assert(!d.dismissed.contains(cands@[m].0));
            }
        }
    }
}

} // verus!
