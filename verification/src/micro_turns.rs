use vstd::prelude::*;

use crate::heuristics::HeuristicsResult;
use crate::models::{
    same_token_mod_label, tokens_wf, Token, TokenizedTranscript, Turn,
};
use crate::select::{sel_idxs, seq_matches};
use crate::turns::{lemma_token_turn, rebuild_turns};

verus! {

/// The speaker a micro-turn at position `k` collapses to: the shared speaker
/// of both neighbors, when the turn is shorter than `max_ms`, both neighbors
/// exist, and they agree.
pub open spec fn micro_target(turns: Seq<Turn>, max_ms: int, k: int) -> Option<u32> {
    if 0 < k < turns.len() - 1 && turns[k].end_ms - turns[k].start_ms < max_ms && turns[k
        - 1].speaker == turns[k + 1].speaker {
        Some(turns[k - 1].speaker)
    } else {
        None
    }
}

/// The speaker token `i` carries after micro-turn collapse, relative to the
/// turn partition before the pass.
pub open spec fn micro_new_speaker(
    tokens: Seq<Token>,
    turns: Seq<Turn>,
    max_ms: int,
    i: int,
) -> u32 {
    match micro_target(turns, max_ms, tokens[i].turn_id as int) {
        Some(s) => s,
        None => tokens[i].speaker,
    }
}

/// A micro-turn whose neighbors disagree: the heuristics leave it alone and
/// defer to the language model.
pub open spec fn micro_undecided(turns: Seq<Turn>, max_ms: int, k: int) -> bool {
    &&& 0 < k < turns.len() - 1
    &&& turns[k].end_ms - turns[k].start_ms < max_ms
    &&& turns[k - 1].speaker != turns[k + 1].speaker
}

/// Collapse micro-turns: every turn shorter than `max_duration_ms` whose two
/// neighbors share a speaker different from its own is relabeled to that
/// speaker.  Micro-turns with disagreeing neighbors set `needs_llm`.
pub fn collapse_micro_turns(t: &mut TokenizedTranscript, max_duration_ms: u64) -> (r:
    HeuristicsResult)
    requires
        old(t).wf(),
    ensures
        final(t).wf(),
        final(t).tokens@.len() == old(t).tokens@.len(),
        forall|i: int|
            0 <= i < final(t).tokens@.len() ==> same_token_mod_label(
                #[trigger] final(t).tokens@[i],
                old(t).tokens@[i],
            ),
        forall|i: int|
            0 <= i < final(t).tokens@.len() ==> (#[trigger] final(t).tokens@[i]).is_overlap_region
                == old(t).tokens@[i].is_overlap_region,
        forall|i: int|
            0 <= i < final(t).tokens@.len() ==> (#[trigger] final(t).tokens@[i]).speaker
                == micro_new_speaker(old(t).tokens@, old(t).turns@, max_duration_ms as int, i),
        r.needs_llm == exists|k: int|
            micro_undecided(old(t).turns@, max_duration_ms as int, k),
        seq_matches(
            r.changed_indices@,
            sel_idxs(
                |i: int|
                    0 <= i < old(t).tokens@.len() && micro_new_speaker(
                        old(t).tokens@,
                        old(t).turns@,
                        max_duration_ms as int,
                        i,
                    ) != old(t).tokens@[i].speaker,
                old(t).tokens@.len() as int,
            ),
        ),
        r.tokens_relabeled == r.changed_indices@.len(),
{
    let ghost otokens = old(t).tokens@;
    let ghost oturns = old(t).turns@;
    let ghost max_ms = max_duration_ms as int;
    let ghost p_changed = |i: int|
        0 <= i < otokens.len() && micro_new_speaker(otokens, oturns, max_ms, i)
            != otokens[i].speaker;

    // The relabel pass: decide each token against the pre-pass turns.
    let n = t.tokens.len();
    let total_turns = t.turns.len();
    let mut changed_indices: Vec<usize> = Vec::new();
    let mut i: usize = 0;
    while i < n
        invariant
            0 <= i <= n,
            n == t.tokens@.len(),
            otokens == old(t).tokens@,
            oturns == old(t).turns@,
            max_ms == max_duration_ms as int,
            old(t).wf(),
            t.turns == old(t).turns,
            t.speakers == old(t).speakers,
            n == otokens.len(),
            total_turns == oturns.len(),
            p_changed == (|i: int|
                0 <= i < otokens.len() && micro_new_speaker(otokens, oturns, max_ms, i)
                    != otokens[i].speaker),
            forall|q: int|
                0 <= q < n ==> same_token_mod_label(#[trigger] t.tokens@[q], otokens[q])
                    && t.tokens@[q].is_overlap_region == otokens[q].is_overlap_region
                    && t.tokens@[q].turn_id == otokens[q].turn_id,
            forall|q: int|
                i <= q < n ==> #[trigger] t.tokens@[q].speaker == otokens[q].speaker,
            forall|q: int|
                0 <= q < i ==> #[trigger] t.tokens@[q].speaker == micro_new_speaker(
                    otokens,
                    oturns,
                    max_ms,
                    q,
                ),
            seq_matches(changed_indices@, sel_idxs(p_changed, i as int)),
        decreases n - i,
    {
        proof {
            assert(oturns.len() <= u64::MAX);
            lemma_token_turn(otokens, oturns, i as int);
            assert(otokens[i as int].turn_id < oturns.len());
        }
        let kid = t.tokens[i].turn_id;
        let k = kid as usize;
        proof {
            assert(kid == otokens[i as int].turn_id);
            assert(k as int == kid as int);
        }
        let mut target: Option<u32> = None;
        if k > 0 && k + 1 < t.turns.len() {
            let turn = &t.turns[k];
            proof {
                assert(crate::models::turn_wf_at(otokens, oturns, k as int));
                let first = turn.token_indices@[0];
                let last = turn.token_indices@[turn.token_indices@.len() - 1];
                assert(otokens[first as int].start_ms <= otokens[last as int].start_ms);
                assert(otokens[last as int].time_wf());
            }
            if turn.duration_ms() < max_duration_ms {
                let before = t.turns[k - 1].speaker;
                let after = t.turns[k + 1].speaker;
                if before == after {
                    target = Some(before);
                }
            }
        }
        match target {
            Some(s) => {
                assert(micro_target(oturns, max_ms, t.tokens@[i as int].turn_id as int) == Some(
                    s,
                ));
                if t.tokens[i].speaker != s {
                    t.tokens[i].speaker = s;
                    changed_indices.push(i);
                    proof {
                        assert(sel_idxs(p_changed, i + 1) == sel_idxs(p_changed, i as int).push(
                            i as int,
                        ));
                    }
                } else {
                    proof {
                        assert(sel_idxs(p_changed, i + 1) == sel_idxs(p_changed, i as int));
                    }
                }
            },
            None => {
                assert(micro_target(oturns, max_ms, t.tokens@[i as int].turn_id as int)
                    is None);
                proof {
                    assert(sel_idxs(p_changed, i + 1) == sel_idxs(p_changed, i as int));
                }
            },
        }
        i = i + 1;
    }

    // Find the undecided micro-turns.
    let mut needs_llm = false;
    let nturns = t.turns.len();
    let mut k: usize = 0;
    while k < nturns
        invariant
            0 <= k <= nturns,
            nturns == oturns.len(),
            t.turns == old(t).turns,
            oturns == old(t).turns@,
            otokens == old(t).tokens@,
            max_ms == max_duration_ms as int,
            old(t).wf(),
            needs_llm == exists|q: int| q < k && micro_undecided(oturns, max_ms, q),
        decreases nturns - k,
    {
        if k > 0 && k + 1 < nturns {
            let turn = &t.turns[k];
            proof {
                assert(crate::models::turn_wf_at(otokens, oturns, k as int));
                let first = turn.token_indices@[0];
                let last = turn.token_indices@[turn.token_indices@.len() - 1];
                assert(otokens[first as int].start_ms <= otokens[last as int].start_ms);
                assert(otokens[last as int].time_wf());
            }
            if turn.duration_ms() < max_duration_ms && t.turns[k - 1].speaker != t.turns[k
                + 1].speaker {
                needs_llm = true;
                assert(micro_undecided(oturns, max_ms, k as int));
            } else {
                assert(!micro_undecided(oturns, max_ms, k as int));
            }
        } else {
            assert(!micro_undecided(oturns, max_ms, k as int));
        }
        k = k + 1;
    }

    let tokens_relabeled = changed_indices.len();
    if tokens_relabeled > 0 {
        proof {
            assert(tokens_wf(t.tokens@)) by {
                assert forall|q: int| 0 <= q < n implies (#[trigger] t.tokens@[q]).time_wf()
                    && t.tokens@[q].token_id == q as u64 && t.tokens@[q].original_index == q by {
                    assert(same_token_mod_label(t.tokens@[q], otokens[q]));
                    assert(otokens[q].time_wf());
                }
                assert forall|a: int, b: int|
                    0 <= a <= b < n implies #[trigger] t.tokens@[a].start_ms
                    <= #[trigger] t.tokens@[b].start_ms by {
                    assert(otokens[a].start_ms <= otokens[b].start_ms);
                }
            }
        }
        let ghost pre = t.tokens@;
        rebuild_turns(t);
        proof {
            assert forall|q: int|
                0 <= q < n implies same_token_mod_label(#[trigger] t.tokens@[q], otokens[q])
                && t.tokens@[q].is_overlap_region == otokens[q].is_overlap_region
                && t.tokens@[q].speaker == micro_new_speaker(otokens, oturns, max_ms, q) by {
                assert(crate::models::same_token_mod_turn(t.tokens@[q], pre[q]));
                assert(same_token_mod_label(pre[q], otokens[q]));
            }
        }
    } else {
        proof {
            assert forall|q: int| 0 <= q < n implies #[trigger] t.tokens@[q] == otokens[q] by {
                assert(same_token_mod_label(t.tokens@[q], otokens[q]));
                assert(t.tokens@[q].speaker == micro_new_speaker(otokens, oturns, max_ms, q));
                assert(sel_idxs(p_changed, n as int).len() == 0);
                if micro_new_speaker(otokens, oturns, max_ms, q) != otokens[q].speaker {
                    crate::select::lemma_sel_idxs(p_changed, n as int);
                    assert(sel_idxs(p_changed, n as int).contains(q));
                }
            }
            assert(t.tokens@ =~= otokens);
        }
    }
    HeuristicsResult { tokens_relabeled, changed_indices, needs_llm }
}

} // verus!
