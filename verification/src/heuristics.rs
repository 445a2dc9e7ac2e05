use vstd::prelude::*;

use crate::backchannels::{apply_backchannel_rules, bc_new_speaker, bc_undecided};
use crate::floor_holding::{apply_floor_holding, fh_new_speaker, fh_undecided};
use crate::micro_turns::{collapse_micro_turns, micro_new_speaker, micro_undecided};
use crate::models::{same_token_mod_label, TokenizedTranscript};
use crate::select::{sel_idxs, seq_matches};

verus! {

/// Configuration for the deterministic heuristics.
pub struct HeuristicsConfig {
    /// Turns at most this short (exclusive) are micro-turn candidates.
    pub micro_turn_max_ms: u64,
    /// Lowercased words recognized as backchannels.
    pub backchannel_words: Vec<String>,
    /// Floor-score decay per second, in thousandths.
    pub floor_decay_per_second: u32,
    /// Minimum floor score (in thousandths) for a speaker to hold the floor.
    pub min_floor_score: u32,
}

impl Default for HeuristicsConfig {
    /// 300 ms micro-turns, the standard backchannel vocabulary, 0.2/s decay,
    /// 0.3 floor-score threshold.
    fn default() -> (r: Self)
        ensures
            r.micro_turn_max_ms == 300,
            r.floor_decay_per_second == 200,
            r.min_floor_score == 300,
            r.backchannel_words@.len() == 16,
    {
        let mut backchannel_words: Vec<String> = Vec::new();
        backchannel_words.push(String::from_str("yeah"));
        backchannel_words.push(String::from_str("yes"));
        backchannel_words.push(String::from_str("yep"));
        backchannel_words.push(String::from_str("uh-huh"));
        backchannel_words.push(String::from_str("mhm"));
        backchannel_words.push(String::from_str("mm-hmm"));
        backchannel_words.push(String::from_str("okay"));
        backchannel_words.push(String::from_str("ok"));
        backchannel_words.push(String::from_str("right"));
        backchannel_words.push(String::from_str("sure"));
        backchannel_words.push(String::from_str("hmm"));
        backchannel_words.push(String::from_str("hm"));
        backchannel_words.push(String::from_str("ah"));
        backchannel_words.push(String::from_str("oh"));
        backchannel_words.push(String::from_str("uh"));
        backchannel_words.push(String::from_str("um"));
        HeuristicsConfig {
            micro_turn_max_ms: 300,
            backchannel_words,
            floor_decay_per_second: 200,
            min_floor_score: 300,
        }
    }
}

/// What one heuristic pass did to the transcript.
pub struct HeuristicsResult {
    /// Number of tokens relabeled.
    pub tokens_relabeled: usize,
    /// Indices of the relabeled tokens, in increasing order.
    pub changed_indices: Vec<usize>,
    /// Whether a case was found that the heuristics could not settle.
    pub needs_llm: bool,
}


/// `b` is `a` after the micro-turn pass with bound `max_ms`, which found
/// undecided cases exactly when `needs` holds and changed exactly the token
/// indices in `changed`.
pub open spec fn micro_rel(
    a: TokenizedTranscript,
    b: TokenizedTranscript,
    max_ms: int,
    needs: bool,
    changed: Seq<usize>,
) -> bool {
    &&& b.wf()
    &&& b.tokens@.len() == a.tokens@.len()
    &&& forall|i: int|
        0 <= i < b.tokens@.len() ==> same_token_mod_label(#[trigger] b.tokens@[i], a.tokens@[i])
            && b.tokens@[i].is_overlap_region == a.tokens@[i].is_overlap_region
    &&& forall|i: int|
        0 <= i < b.tokens@.len() ==> (#[trigger] b.tokens@[i]).speaker == micro_new_speaker(
            a.tokens@,
            a.turns@,
            max_ms,
            i,
        )
    &&& needs == exists|k: int| micro_undecided(a.turns@, max_ms, k)
    &&& seq_matches(
        changed,
        sel_idxs(
            |i: int|
                0 <= i < a.tokens@.len() && micro_new_speaker(a.tokens@, a.turns@, max_ms, i)
                    != a.tokens@[i].speaker,
            a.tokens@.len() as int,
        ),
    )
}

/// `b` is `a` after the backchannel pass with the given word list.
pub open spec fn bc_rel(
    a: TokenizedTranscript,
    b: TokenizedTranscript,
    words: Seq<String>,
    needs: bool,
    changed: Seq<usize>,
) -> bool {
    &&& b.wf()
    &&& b.tokens@.len() == a.tokens@.len()
    &&& forall|i: int|
        0 <= i < b.tokens@.len() ==> same_token_mod_label(#[trigger] b.tokens@[i], a.tokens@[i])
            && b.tokens@[i].is_overlap_region == a.tokens@[i].is_overlap_region
    &&& forall|i: int|
        0 <= i < b.tokens@.len() ==> (#[trigger] b.tokens@[i]).speaker == bc_new_speaker(
            a.tokens@,
            a.speakers@,
            words,
            i,
        )
    &&& needs == exists|i: int| bc_undecided(a.tokens@, a.speakers@, words, i)
    &&& seq_matches(
        changed,
        sel_idxs(
            |i: int|
                0 <= i < a.tokens@.len() && bc_new_speaker(a.tokens@, a.speakers@, words, i)
                    != a.tokens@[i].speaker,
            a.tokens@.len() as int,
        ),
    )
}

/// `b` is `a` after the floor-holding pass.
pub open spec fn fh_rel(
    a: TokenizedTranscript,
    b: TokenizedTranscript,
    lambda: int,
    min_score: int,
    needs: bool,
    changed: Seq<usize>,
) -> bool {
    &&& b.wf()
    &&& b.tokens@.len() == a.tokens@.len()
    &&& forall|i: int|
        0 <= i < b.tokens@.len() ==> same_token_mod_label(#[trigger] b.tokens@[i], a.tokens@[i])
            && b.tokens@[i].is_overlap_region == a.tokens@[i].is_overlap_region
    &&& forall|i: int|
        0 <= i < b.tokens@.len() ==> (#[trigger] b.tokens@[i]).speaker == fh_new_speaker(
            a.tokens@,
            lambda,
            min_score,
            i,
        )
    &&& needs == exists|i: int| fh_undecided(a.tokens@, lambda, min_score, i)
    &&& seq_matches(
        changed,
        sel_idxs(
            |i: int|
                0 <= i < a.tokens@.len() && fh_new_speaker(a.tokens@, lambda, min_score, i)
                    != a.tokens@[i].speaker,
            a.tokens@.len() as int,
        ),
    )
}

/// Insert an index into a strictly sorted vector, keeping it sorted and
/// duplicate free; a no-op when already present.
fn insert_sorted_idx(v: &mut Vec<usize>, x: usize)
    requires
        forall|a: int, b: int| 0 <= a < b < old(v)@.len() ==> old(v)@[a] < old(v)@[b],
    ensures
        forall|a: int, b: int| 0 <= a < b < final(v)@.len() ==> final(v)@[a] < final(v)@[b],
        forall|y: usize| #[trigger] final(v)@.contains(y) <==> (old(v)@.contains(y) || y == x),
{
    let n = v.len();
    let mut p: usize = 0;
    while p < n && v[p] < x
        invariant
            0 <= p <= n,
            n == v@.len(),
            forall|a: int, b: int| 0 <= a < b < v@.len() ==> v@[a] < v@[b],
            forall|q: int| 0 <= q < p ==> v@[q] < x,
        decreases n - p,
    {
        p = p + 1;
    }
    if p < n && v[p] == x {
        assert(v@.contains(x)) by {
            assert(v@[p as int] == x);
        }
        return ;
    }
    let ghost oldv = v@;
    v.insert(p, x);
    assert forall|a: int, b: int| 0 <= a < b < v@.len() implies v@[a] < v@[b] by {
        if b < p {
        } else if a < p && b == p {
            assert(v@[a] == oldv[a]);
        } else if a < p && b > p {
            assert(v@[a] == oldv[a] && v@[b] == oldv[b - 1]);
            if b - 1 == p as int {
                assert(oldv[b - 1] >= x);
                assert(p < oldv.len() ==> oldv[p as int] != x);
            }
        } else if a == p {
            assert(v@[b] == oldv[b - 1]);
            assert(oldv[b - 1] >= oldv[p as int]);
            assert(p < oldv.len() ==> oldv[p as int] != x);
        } else {
            assert(v@[a] == oldv[a - 1] && v@[b] == oldv[b - 1]);
        }
    }
    assert forall|y: usize| #[trigger] v@.contains(y) implies (oldv.contains(y) || y == x) by {
        let w = choose|w: int| 0 <= w < v@.len() && v@[w] == y;
        if w < p {
            assert(oldv[w] == y);
        } else if w == p {
        } else {
            assert(oldv[w - 1] == y);
        }
    }
    assert forall|y: usize| oldv.contains(y) || y == x implies #[trigger] v@.contains(y) by {
        if y == x {
            assert(v@[p as int] == y);
        } else {
            let w = choose|w: int| 0 <= w < oldv.len() && oldv[w] == y;
            if w < p {
                assert(v@[w] == y);
            } else {
                assert(v@[w + 1] == y);
            }
        }
    }
}

/// Merge a list of indices into a sorted duplicate-free accumulator.
fn merge_indices(dst: &mut Vec<usize>, src: &Vec<usize>)
    requires
        forall|a: int, b: int| 0 <= a < b < old(dst)@.len() ==> old(dst)@[a] < old(dst)@[b],
    ensures
        forall|a: int, b: int| 0 <= a < b < final(dst)@.len() ==> final(dst)@[a] < final(dst)@[b],
        forall|y: usize| #[trigger]
            final(dst)@.contains(y) <==> (old(dst)@.contains(y) || src@.contains(y)),
{
    let n = src.len();
    let mut i: usize = 0;
    while i < n
        invariant
            0 <= i <= n,
            n == src@.len(),
            forall|a: int, b: int| 0 <= a < b < dst@.len() ==> dst@[a] < dst@[b],
            forall|y: usize| #[trigger]
                dst@.contains(y) <==> (old(dst)@.contains(y) || src@.take(i as int).contains(y)),
        decreases n - i,
    {
        insert_sorted_idx(dst, src[i]);
        proof {
            assert forall|y: usize| #[trigger]
                dst@.contains(y) <==> (old(dst)@.contains(y) || src@.take(i + 1).contains(
                y,
            )) by {
                assert(src@.take(i + 1) =~= src@.take(i as int).push(src@[i as int]));
                if src@.take(i + 1).contains(y) {
                    let w = choose|w: int|
                        0 <= w < src@.take(i + 1).len() && #[trigger] src@.take(i + 1)[w] == y;
                    if w < i {
                        assert(src@.take(i as int).contains(y)) by {
                            assert(src@.take(i as int)[w] == y);
                        }
                    }
                }
                if src@.take(i as int).contains(y) {
                    let w = choose|w: int|
                        0 <= w < src@.take(i as int).len() && src@.take(i as int)[w] == y;
                    assert(src@.take(i + 1)[w] == y);
                }
                if y == src@[i as int] {
                    assert(src@.take(i + 1)[i as int] == y);
                }
            }
        }
        i = i + 1;
    }
    proof {
        assert(src@.take(n as int) =~= src@);
    }
}

/// Run the three deterministic heuristics in their fixed order: micro-turn
/// collapse, then backchannel re-attribution, then floor holding.  Each pass
/// judges the transcript as the previous pass left it; the returned indices
/// are the union of the passes' relabels, sorted and deduplicated, and
/// `needs_llm` is set when any pass found a case it could not settle.
pub fn apply_heuristics(t: &mut TokenizedTranscript, config: &HeuristicsConfig) -> (r:
    HeuristicsResult)
    requires
        old(t).wf(),
    ensures
        final(t).wf(),
        final(t).tokens@.len() == old(t).tokens@.len(),
        forall|i: int|
            0 <= i < final(t).tokens@.len() ==> same_token_mod_label(
                #[trigger] final(t).tokens@[i],
                old(t).tokens@[i],
            ) && final(t).tokens@[i].is_overlap_region == old(t).tokens@[i].is_overlap_region,
        exists|
            t1: TokenizedTranscript,
            t2: TokenizedTranscript,
            n1: bool,
            n2: bool,
            n3: bool,
            c1: Seq<usize>,
            c2: Seq<usize>,
            c3: Seq<usize>,
        |
            {
                &&& #[trigger] micro_rel(*old(t), t1, config.micro_turn_max_ms as int, n1, c1)
                &&& #[trigger] bc_rel(t1, t2, config.backchannel_words@, n2, c2)
                &&& #[trigger] fh_rel(
                    t2,
                    *final(t),
                    config.floor_decay_per_second as int,
                    config.min_floor_score as int,
                    n3,
                    c3,
                )
                &&& r.needs_llm == (n1 || n2 || n3)
                &&& forall|y: usize|
                    #[trigger] r.changed_indices@.contains(y) <==> (c1.contains(y) || c2.contains(
                        y,
                    ) || c3.contains(y))
            },
        forall|a: int, b: int|
            0 <= a < b < r.changed_indices@.len() ==> r.changed_indices@[a] < r.changed_indices@[b],
        forall|w: int|
            0 <= w < r.changed_indices@.len() ==> #[trigger] r.changed_indices@[w]
                < final(t).tokens@.len(),
        forall|i: int|
            0 <= i < final(t).tokens@.len() && !r.changed_indices@.contains(i as usize)
                ==> (#[trigger] final(t).tokens@[i]).speaker == old(t).tokens@[i].speaker,
        r.tokens_relabeled == r.changed_indices@.len(),
{
    let ghost t0 = *t;
    let micro_result = collapse_micro_turns(t, config.micro_turn_max_ms);
    let ghost t1 = *t;
    let backchannel_result = apply_backchannel_rules(t, &config.backchannel_words);
    let ghost t2 = *t;
    let floor_result = apply_floor_holding(t, config);

    let mut total_changed: Vec<usize> = Vec::new();
    merge_indices(&mut total_changed, &micro_result.changed_indices);
    merge_indices(&mut total_changed, &backchannel_result.changed_indices);
    merge_indices(&mut total_changed, &floor_result.changed_indices);

    let needs_llm = micro_result.needs_llm || backchannel_result.needs_llm
        || floor_result.needs_llm;

    proof {
        let n = t0.tokens@.len() as int;
        assert(micro_rel(
            t0,
            t1,
            config.micro_turn_max_ms as int,
            micro_result.needs_llm,
            micro_result.changed_indices@,
        ));
        assert(bc_rel(
            t1,
            t2,
            config.backchannel_words@,
            backchannel_result.needs_llm,
            backchannel_result.changed_indices@,
        ));
        assert(fh_rel(
            t2,
            *t,
            config.floor_decay_per_second as int,
            config.min_floor_score as int,
            floor_result.needs_llm,
            floor_result.changed_indices@,
        ));
        let c1s = sel_idxs(
            |i: int|
                0 <= i < t0.tokens@.len() && micro_new_speaker(
                    t0.tokens@,
                    t0.turns@,
                    config.micro_turn_max_ms as int,
                    i,
                ) != t0.tokens@[i].speaker,
            t0.tokens@.len() as int,
        );
        assert(micro_result.changed_indices@ =~= c1s.map_values(|x: int| x as usize)) by {
            crate::select::lemma_sel_idxs(
                |i: int|
                    0 <= i < t0.tokens@.len() && micro_new_speaker(
                        t0.tokens@,
                        t0.turns@,
                        config.micro_turn_max_ms as int,
                        i,
                    ) != t0.tokens@[i].speaker,
                t0.tokens@.len() as int,
            );
        }
        let c2s = sel_idxs(
            |i: int|
                0 <= i < t1.tokens@.len() && bc_new_speaker(
                    t1.tokens@,
                    t1.speakers@,
                    config.backchannel_words@,
                    i,
                ) != t1.tokens@[i].speaker,
            t1.tokens@.len() as int,
        );
        assert(backchannel_result.changed_indices@ =~= c2s.map_values(|x: int| x as usize)) by {
            crate::select::lemma_sel_idxs(
                |i: int|
                    0 <= i < t1.tokens@.len() && bc_new_speaker(
                        t1.tokens@,
                        t1.speakers@,
                        config.backchannel_words@,
                        i,
                    ) != t1.tokens@[i].speaker,
                t1.tokens@.len() as int,
            );
        }
        let c3s = sel_idxs(
            |i: int|
                0 <= i < t2.tokens@.len() && fh_new_speaker(
                    t2.tokens@,
                    config.floor_decay_per_second as int,
                    config.min_floor_score as int,
                    i,
                ) != t2.tokens@[i].speaker,
            t2.tokens@.len() as int,
        );
        assert(floor_result.changed_indices@ =~= c3s.map_values(|x: int| x as usize)) by {
            crate::select::lemma_sel_idxs(
                |i: int|
                    0 <= i < t2.tokens@.len() && fh_new_speaker(
                        t2.tokens@,
                        config.floor_decay_per_second as int,
                        config.min_floor_score as int,
                        i,
                    ) != t2.tokens@[i].speaker,
                t2.tokens@.len() as int,
            );
        }
        assert forall|w: int|
            0 <= w < total_changed@.len() implies #[trigger] total_changed@[w]
            < t.tokens@.len() by {
            assert(total_changed@.contains(total_changed@[w]));
            let y = total_changed@[w];
            crate::select::lemma_sel_idxs(
                |i: int|
                    0 <= i < t0.tokens@.len() && micro_new_speaker(
                        t0.tokens@,
                        t0.turns@,
                        config.micro_turn_max_ms as int,
                        i,
                    ) != t0.tokens@[i].speaker,
                t0.tokens@.len() as int,
            );
            crate::select::lemma_sel_idxs(
                |i: int|
                    0 <= i < t1.tokens@.len() && bc_new_speaker(
                        t1.tokens@,
                        t1.speakers@,
                        config.backchannel_words@,
                        i,
                    ) != t1.tokens@[i].speaker,
                t1.tokens@.len() as int,
            );
            crate::select::lemma_sel_idxs(
                |i: int|
                    0 <= i < t2.tokens@.len() && fh_new_speaker(
                        t2.tokens@,
                        config.floor_decay_per_second as int,
                        config.min_floor_score as int,
                        i,
                    ) != t2.tokens@[i].speaker,
                t2.tokens@.len() as int,
            );
            if micro_result.changed_indices@.contains(y) {
                let v = choose|v: int|
                    0 <= v < micro_result.changed_indices@.len()
                        && micro_result.changed_indices@[v] == y;
                assert(y as int == c1s[v]);
            } else if backchannel_result.changed_indices@.contains(y) {
                let v = choose|v: int|
                    0 <= v < backchannel_result.changed_indices@.len()
                        && backchannel_result.changed_indices@[v] == y;
                assert(y as int == c2s[v]);
            } else {
                assert(floor_result.changed_indices@.contains(y));
                let v = choose|v: int|
                    0 <= v < floor_result.changed_indices@.len()
                        && floor_result.changed_indices@[v] == y;
                assert(y as int == c3s[v]);
            }
        }
        assert forall|i: int|
            0 <= i < t.tokens@.len() && !total_changed@.contains(i as usize)
            implies (#[trigger] t.tokens@[i]).speaker == t0.tokens@[i].speaker by {
            crate::select::lemma_sel_idxs(
                |q: int|
                    0 <= q < t0.tokens@.len() && micro_new_speaker(
                        t0.tokens@,
                        t0.turns@,
                        config.micro_turn_max_ms as int,
                        q,
                    ) != t0.tokens@[q].speaker,
                t0.tokens@.len() as int,
            );
            crate::select::lemma_sel_idxs(
                |q: int|
                    0 <= q < t1.tokens@.len() && bc_new_speaker(
                        t1.tokens@,
                        t1.speakers@,
                        config.backchannel_words@,
                        q,
                    ) != t1.tokens@[q].speaker,
                t1.tokens@.len() as int,
            );
            crate::select::lemma_sel_idxs(
                |q: int|
                    0 <= q < t2.tokens@.len() && fh_new_speaker(
                        t2.tokens@,
                        config.floor_decay_per_second as int,
                        config.min_floor_score as int,
                        q,
                    ) != t2.tokens@[q].speaker,
                t2.tokens@.len() as int,
            );
            assert(t1.tokens@[i].speaker == t0.tokens@[i].speaker) by {
                if t1.tokens@[i].speaker != t0.tokens@[i].speaker {
                    assert(c1s.contains(i));
                    let v = choose|v: int| 0 <= v < c1s.len() && c1s[v] == i;
                    assert(micro_result.changed_indices@[v] == i as usize);
                    assert(micro_result.changed_indices@.contains(i as usize));
                }
            }
            assert(t2.tokens@[i].speaker == t1.tokens@[i].speaker) by {
                if t2.tokens@[i].speaker != t1.tokens@[i].speaker {
                    assert(c2s.contains(i));
                    let v = choose|v: int| 0 <= v < c2s.len() && c2s[v] == i;
                    assert(backchannel_result.changed_indices@[v] == i as usize);
                    assert(backchannel_result.changed_indices@.contains(i as usize));
                }
            }
            assert(t.tokens@[i].speaker == t2.tokens@[i].speaker) by {
                if t.tokens@[i].speaker != t2.tokens@[i].speaker {
                    assert(c3s.contains(i));
                    let v = choose|v: int| 0 <= v < c3s.len() && c3s[v] == i;
                    assert(floor_result.changed_indices@[v] == i as usize);
                    assert(floor_result.changed_indices@.contains(i as usize));
                }
            }
        }
    }

    let tokens_relabeled = total_changed.len();
    HeuristicsResult { tokens_relabeled, changed_indices: total_changed, needs_llm }
}

} // verus!
