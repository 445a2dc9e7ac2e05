use vstd::prelude::*;

use crate::backchannels::{bc_new_speaker, listener_pred, listener_sel};
use crate::floor_holding::{fh_decision, fh_new_speaker};
use crate::micro_turns::{micro_new_speaker, micro_target};
use crate::models::{
    same_token_mod_label, tokens_preserved, tokens_wf, turn_wf_at, turns_wf, Token,
    TokenizedTranscript, Turn,
};
use crate::normalize::{all_window_starts, span_idxs};
use crate::patch::WindowPatch;
use crate::reconcile::{
    lemma_reconciled_speaker_order_independent, vote_rel, Stage2Config,
};
use crate::window::Window;
use crate::select::{lemma_sel_idxs, sel_idxs};
use crate::turns::{lemma_chain_cover, lemma_token_turn, lemma_turns_disjoint};

verus! {

/// Word preservation composes: if one stage preserves every token's
/// immutable fields and a second stage preserves them again, the two stages
/// together preserve them.  With each pipeline stage's own contract this
/// extends to any chain of stages: the words and times that come out are the
/// words and times that went in.
pub proof fn lemma_preservation_transitive(a: Seq<Token>, b: Seq<Token>, c: Seq<Token>)
    requires
        tokens_preserved(a, b),
        tokens_preserved(b, c),
    ensures
        tokens_preserved(a, c),
{
    assert forall|i: int| 0 <= i < a.len() implies same_token_mod_label(#[trigger] a[i], c[i]) by {
        assert(same_token_mod_label(a[i], b[i]));
        assert(same_token_mod_label(b[i], c[i]));
    }
}

/// Token `i` lies inside some turn's contiguous index range.
pub open spec fn covered_by_turn(turns: Seq<Turn>, i: int) -> bool {
    exists|k: int|
        0 <= k < turns.len() && (#[trigger] turns[k].token_indices@[0]) <= i < turns[
            k
        ].token_indices@[0] + turns[k].token_indices@.len()
}

/// Turn partition: in a well-formed transcript the turns' token indices
/// cover every token, and turns are disjoint and in index order: each turn
/// ends strictly before the next begins.
pub proof fn lemma_turn_partition(tokens: Seq<Token>, turns: Seq<Turn>)
    requires
        turns_wf(tokens, turns),
    ensures
        forall|i: int| 0 <= i < tokens.len() ==> #[trigger] covered_by_turn(turns, i),
        forall|k1: int, k2: int|
            0 <= k1 < k2 < turns.len() ==> (#[trigger] turns[k1]).token_indices@[0] + turns[
                k1
            ].token_indices@.len() <= (#[trigger] turns[k2]).token_indices@[0],
        turns.len() > 0 ==> turns[0].token_indices@[0] == 0 && turns[turns.len()
            - 1].token_indices@[0] + turns[turns.len() - 1].token_indices@.len() == tokens.len(),
{
    assert forall|k: int| 0 <= k < turns.len() implies crate::models::turn_indices_contiguous(
        #[trigger] turns[k],
    ) by {
        assert(turn_wf_at(tokens, turns, k));
    }
    assert forall|i: int| 0 <= i < tokens.len() implies #[trigger] covered_by_turn(turns, i) by {
        lemma_chain_cover(turns, tokens.len() as int, i);
    }
    assert forall|k1: int, k2: int|
        0 <= k1 < k2 < turns.len() implies (#[trigger] turns[k1]).token_indices@[0] + turns[
        k1
    ].token_indices@.len() <= (#[trigger] turns[k2]).token_indices@[0] by {
        lemma_turns_disjoint(turns, tokens.len() as int, k1, k2);
    }
}

/// Turn coherence: every token of a turn carries the turn's speaker, and
/// adjacent turns have different speakers.
pub proof fn lemma_turn_coherence(tokens: Seq<Token>, turns: Seq<Turn>)
    requires
        turns_wf(tokens, turns),
    ensures
        forall|k: int, m: int|
            0 <= k < turns.len() && 0 <= m < turns[k].token_indices@.len()
                ==> #[trigger] tokens[turns[k].token_indices@[m] as int].speaker == turns[
                k
            ].speaker,
        forall|k: int| 0 <= k < turns.len() - 1 ==> #[trigger] turns[k + 1].speaker != turns[k].speaker,
{
    assert forall|k: int, m: int|
        0 <= k < turns.len() && 0 <= m < turns[k].token_indices@.len()
            implies #[trigger] tokens[turns[k].token_indices@[m] as int].speaker == turns[
        k
    ].speaker by {
        assert(turn_wf_at(tokens, turns, k));
    }
}

/// Back-reference consistency: every token's `turn_id` names the turn whose
/// index range contains it.
pub proof fn lemma_backref_consistency(tokens: Seq<Token>, turns: Seq<Turn>, i: int)
    requires
        turns_wf(tokens, turns),
        turns.len() <= u64::MAX,
        0 <= i < tokens.len(),
    ensures
        0 <= tokens[i].turn_id < turns.len(),
        turns[tokens[i].turn_id as int].token_indices@.contains(i as usize) || ({
            let k = tokens[i].turn_id as int;
            turns[k].token_indices@[0] <= i < turns[k].token_indices@[0]
                + turns[k].token_indices@.len()
        }),
{
    lemma_token_turn(tokens, turns, i);
}

/// Empty input gives an empty pipeline: a well-formed transcript without
/// tokens has no turns, no speakers, and generates no windows.
pub proof fn lemma_empty_transcript(t: TokenizedTranscript, size: int, stride: int)
    requires
        t.wf(),
        t.tokens@.len() == 0,
    ensures
        t.turns@.len() == 0,
        t.speakers@.len() == 0,
        all_window_starts(t.tokens@, size, stride) =~= Seq::<int>::empty(),
{
    if t.speakers@.len() > 0 {
        assert(crate::models::has_speaker(t.tokens@, t.speakers@[0]));
        let w = choose|w: int|
            0 <= w < t.tokens@.len() && #[trigger] t.tokens@[w].speaker == t.speakers@[0];
        assert(false);
    }
}

/// A single-speaker transcript has exactly one turn.
pub proof fn lemma_single_speaker_one_turn(tokens: Seq<Token>, turns: Seq<Turn>)
    requires
        turns_wf(tokens, turns),
        tokens.len() > 0,
        forall|i: int| 0 <= i < tokens.len() ==> (#[trigger] tokens[i]).speaker == tokens[0].speaker,
    ensures
        turns.len() == 1,
{
    assert(turns.len() > 0);
    if turns.len() > 1 {
        assert(turn_wf_at(tokens, turns, 0));
        assert(turn_wf_at(tokens, turns, 1));
        let f0 = turns[0].token_indices@[0];
        let f1 = turns[1].token_indices@[0];
        assert(tokens[f0 as int].speaker == turns[0].speaker);
        assert(tokens[f1 as int].speaker == turns[1].speaker);
        assert(f1 < tokens.len());
        assert(turns[0int + 1].speaker != turns[0int].speaker);
        assert(false);
    }
}

/// On a single-speaker transcript no heuristic changes anything: micro-turn
/// collapse, backchannel re-attribution and floor holding all leave every
/// token's speaker as it is.
pub proof fn lemma_single_speaker_no_heuristic_changes(
    t: TokenizedTranscript,
    words: Seq<String>,
    max_ms: int,
    lambda: int,
    min_score: int,
    i: int,
)
    requires
        t.wf(),
        t.tokens@.len() > 0,
        forall|q: int|
            0 <= q < t.tokens@.len() ==> (#[trigger] t.tokens@[q]).speaker == t.tokens@[0].speaker,
        0 <= i < t.tokens@.len(),
    ensures
        micro_new_speaker(t.tokens@, t.turns@, max_ms, i) == t.tokens@[i].speaker,
        bc_new_speaker(t.tokens@, t.speakers@, words, i) == t.tokens@[i].speaker,
        fh_new_speaker(t.tokens@, lambda, min_score, i) == t.tokens@[i].speaker,
{
    let tokens = t.tokens@;
    // Micro-turn collapse needs a turn with neighbors on both sides; there is
    // only one turn.
    lemma_single_speaker_one_turn(tokens, t.turns@);
    lemma_token_turn(tokens, t.turns@, i);
    assert(micro_target(t.turns@, max_ms, tokens[i].turn_id as int) is None);
    // A backchannel moves only to a listener with a different speaker; no
    // token has one.
    let cur = tokens[i].speaker;
    let listeners = listener_sel(tokens, i, cur);
    assert(listeners.len() == 0) by {
        let lo = crate::backchannels::ctx_lo(
            tokens,
            i,
            crate::backchannels::LISTENER_CONTEXT_MS as int,
        );
        let hi = crate::backchannels::ctx_hi(
            tokens,
            i,
            crate::backchannels::LISTENER_CONTEXT_MS as int,
        );
        let p = listener_pred(tokens, cur, lo, hi);
        lemma_sel_idxs(p, tokens.len() as int);
        if listeners.len() > 0 {
            assert(p(listeners[0]));
            assert(tokens[listeners[0]].speaker == tokens[0].speaker);
            assert(cur == tokens[0].speaker);
        }
    }
    // A floor flip needs the token's speaker to differ from the holder's,
    // and its neighbors to carry the holder's label.
    match fh_decision(tokens, lambda, min_score, i) {
        Some(h) => {
            assert(tokens[i].speaker != h);
            assert(0 < i && i + 1 < tokens.len());
            assert(tokens[i - 1].speaker == h);
            assert(tokens[i - 1].speaker == tokens[0].speaker);
            assert(tokens[i].speaker == tokens[0].speaker);
            assert(false);
        },
        None => {},
    }
}

/// A window flush against the transcript boundary has an empty anchor: no
/// token starts before the first token's start time, and none starts after
/// the last token's start time.
pub proof fn lemma_boundary_window_empty_anchor(tokens: Seq<Token>, lo: int, hi: int)
    requires
        tokens_wf(tokens),
        tokens.len() > 0,
    ensures
        hi <= tokens[0].start_ms ==> span_idxs(tokens, lo, hi).len() == 0,
        lo > tokens[tokens.len() - 1].start_ms ==> span_idxs(tokens, lo, hi).len() == 0,
{
    let p = |j: int| 0 <= j < tokens.len() && lo <= tokens[j].start_ms < hi;
    lemma_sel_idxs(p, tokens.len() as int);
    let sel = sel_idxs(p, tokens.len() as int);
    if sel.len() > 0 {
        assert(p(sel[0]));
        assert(tokens[0].start_ms <= tokens[sel[0]].start_ms);
        assert(tokens[sel[0]].start_ms <= tokens[tokens.len() - 1].start_ms);
    }
}


/// Patch order does not matter to reconciliation: two reconciliation runs
/// from the same transcript, fed the same patches in different orders,
/// produce the same speaker for every token — through the vote, the turn
/// rebuild, and the short-turn absorption alike.
pub proof fn lemma_stage2_order_independent(
    t0: TokenizedTranscript,
    windows: Seq<Window>,
    p1: Seq<WindowPatch>,
    p2: Seq<WindowPatch>,
    config: Stage2Config,
    mid1: TokenizedTranscript,
    mid2: TokenizedTranscript,
    fin1: Seq<Token>,
    fin2: Seq<Token>,
)
    requires
        p1.to_multiset() == p2.to_multiset(),
        vote_rel(t0, mid1, windows, p1, config),
        vote_rel(t0, mid2, windows, p2, config),
        fin1.len() == mid1.tokens@.len(),
        fin2.len() == mid2.tokens@.len(),
        forall|i: int|
            0 <= i < fin1.len() ==> (#[trigger] fin1[i]).speaker
                == crate::micro_turns::micro_new_speaker(
                mid1.tokens@,
                mid1.turns@,
                config.min_turn_duration_ms as int,
                i,
            ),
        forall|i: int|
            0 <= i < fin2.len() ==> (#[trigger] fin2[i]).speaker
                == crate::micro_turns::micro_new_speaker(
                mid2.tokens@,
                mid2.turns@,
                config.min_turn_duration_ms as int,
                i,
            ),
    ensures
        fin1.len() == fin2.len(),
        forall|i: int| 0 <= i < fin1.len() ==> (#[trigger] fin1[i]).speaker == fin2[i].speaker,
{
    broadcast use vstd::std_specs::vec::axiom_spec_len;

    let ta = mid1.tokens@;
    let tb = mid2.tokens@;
    assert(mid1.turns.len() == mid1.turns@.len());
    assert(mid2.turns.len() == mid2.turns@.len());
    // The votes agree token by token, whatever the patch order.
    assert forall|i: int| 0 <= i < ta.len() implies (#[trigger] ta[i]).speaker
        == tb[i].speaker by {
        lemma_reconciled_speaker_order_independent(t0.tokens@, windows, p1, p2, config, i);
    }
    assert forall|i: int| 0 <= i < ta.len() implies (#[trigger] ta[i]).start_ms == tb[i].start_ms
        && ta[i].end_ms == tb[i].end_ms by {
        assert(same_token_mod_label(ta[i], t0.tokens@[i]));
        assert(same_token_mod_label(tb[i], t0.tokens@[i]));
    }
    // With equal speakers the derived turns are equal, entry for entry.
    assert(mid1.turns@.len() == mid2.turns@.len()) by {
        if mid1.turns@.len() < mid2.turns@.len() {
            crate::turns::lemma_turns_unique(
                ta,
                tb,
                mid1.turns@,
                mid2.turns@,
                mid1.turns@.len() as int,
            );
        }
        if mid2.turns@.len() < mid1.turns@.len() {
            crate::turns::lemma_turns_unique(
                ta,
                tb,
                mid1.turns@,
                mid2.turns@,
                mid2.turns@.len() as int,
            );
        }
    }
    assert forall|i: int| 0 <= i < fin1.len() implies (#[trigger] fin1[i]).speaker
        == fin2[i].speaker by {
        crate::turns::lemma_token_turn(ta, mid1.turns@, i);
        crate::turns::lemma_token_turn(tb, mid2.turns@, i);
        let k1 = ta[i].turn_id as int;
        let k2 = tb[i].turn_id as int;
        crate::turns::lemma_turns_unique(ta, tb, mid1.turns@, mid2.turns@, k1);
        crate::turns::lemma_turns_unique(ta, tb, mid1.turns@, mid2.turns@, k2);
        // Both back-references name the turn whose range holds `i`; the
        // ranges agree, and distinct turns are disjoint.
        assert forall|k: int|
            0 <= k < mid1.turns@.len() implies crate::models::turn_indices_contiguous(
            #[trigger] mid1.turns@[k],
        ) by {
            assert(turn_wf_at(ta, mid1.turns@, k));
        }
        assert(k1 == k2) by {
            if k1 < k2 {
                crate::turns::lemma_turns_disjoint(mid1.turns@, ta.len() as int, k1, k2);
            }
            if k2 < k1 {
                crate::turns::lemma_turns_disjoint(mid1.turns@, ta.len() as int, k2, k1);
            }
        }
        if 0 < k1 && k1 < mid1.turns@.len() - 1 {
            crate::turns::lemma_turns_unique(ta, tb, mid1.turns@, mid2.turns@, k1 - 1);
            crate::turns::lemma_turns_unique(ta, tb, mid1.turns@, mid2.turns@, k1 + 1);
        }
    }
}

} // verus!
