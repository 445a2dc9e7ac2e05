use vstd::prelude::*;

use crate::models::{
    has_speaker, same_token_mod_overlap, same_token_mod_turn, speakers_wf, tokens_wf,
    turn_backrefs_at, turn_body_wf_at, turn_indices_contiguous, turn_wf_at, turns_chain, turns_wf,
    Token, TokenizedTranscript, Turn,
};

verus! {

/// In a chained turn sequence the first indices grow with the turn position.
pub proof fn lemma_turn_firsts_monotone(turns: Seq<Turn>, upto: int, k1: int, k2: int)
    requires
        turns_chain(turns, upto),
        forall|k: int| 0 <= k < turns.len() ==> turn_indices_contiguous(#[trigger] turns[k]),
        0 <= k1 <= k2 < turns.len(),
    ensures
        turns[k1].token_indices@[0] <= turns[k2].token_indices@[0],
    decreases k2 - k1,
{
    if k1 < k2 {
        assert(turns[k1 + 1].token_indices@[0] == turns[k1].token_indices@[0]
            + turns[k1].token_indices@.len());
        lemma_turn_firsts_monotone(turns, upto, k1 + 1, k2);
    }
}

/// Turns earlier in the chain end strictly before later turns begin.
pub proof fn lemma_turns_disjoint(turns: Seq<Turn>, upto: int, k1: int, k2: int)
    requires
        turns_chain(turns, upto),
        forall|k: int| 0 <= k < turns.len() ==> turn_indices_contiguous(#[trigger] turns[k]),
        0 <= k1 < k2 < turns.len(),
    ensures
        turns[k1].token_indices@[0] + turns[k1].token_indices@.len()
            <= turns[k2].token_indices@[0],
{
    assert(turns[k1 + 1].token_indices@[0] == turns[k1].token_indices@[0]
        + turns[k1].token_indices@.len());
    lemma_turn_firsts_monotone(turns, upto, k1 + 1, k2);
}

/// Every index below `upto` is covered by some turn of the chain.
pub proof fn lemma_chain_cover(turns: Seq<Turn>, upto: int, i: int)
    requires
        turns_chain(turns, upto),
        forall|k: int| 0 <= k < turns.len() ==> turn_indices_contiguous(#[trigger] turns[k]),
        0 <= i < upto,
    ensures
        exists|k: int|
            0 <= k < turns.len() && (#[trigger] turns[k].token_indices@[0]) <= i
                < turns[k].token_indices@[0] + turns[k].token_indices@.len(),
    decreases turns.len(),
{
    let nlast = turns.len() - 1;
    let last = turns[nlast];
    if i >= last.token_indices@[0] {
        assert(turns[nlast].token_indices@[0] <= i < turns[nlast].token_indices@[0]
            + turns[nlast].token_indices@.len());
    } else {
        let prefix = turns.drop_last();
        let upto2 = last.token_indices@[0] as int;
        assert(turns_chain(prefix, upto2)) by {
            if prefix.len() > 0 {
                assert(prefix[0] == turns[0]);
                assert(prefix[prefix.len() - 1] == turns[turns.len() - 2]);
                let kk = nlast - 1;
                assert(turns[kk + 1].token_indices@[0] == turns[kk].token_indices@[0]
                    + turns[kk].token_indices@.len());
                assert(turns[nlast].token_indices@[0] == turns[nlast - 1].token_indices@[0]
                    + turns[nlast - 1].token_indices@.len());
                assert forall|k: int| 0 <= k < prefix.len() - 1 implies #[trigger] prefix[k
                    + 1].token_indices@[0] == prefix[k].token_indices@[0]
                    + prefix[k].token_indices@.len() by {
                    assert(prefix[k] == turns[k] && prefix[k + 1] == turns[k + 1]);
                }
                assert forall|k: int| 0 <= k < prefix.len() - 1 implies #[trigger] prefix[k
                    + 1].speaker != prefix[k].speaker by {
                    assert(prefix[k] == turns[k] && prefix[k + 1] == turns[k + 1]);
                }
            } else {
                assert(turns.len() == 1);
                assert(last.token_indices@[0] == 0);
            }
        }
        assert(prefix.len() > 0) by {
            assert(i < upto2);
        }
        assert forall|k: int| 0 <= k < prefix.len() implies turn_indices_contiguous(
            #[trigger] prefix[k],
        ) by {
            assert(prefix[k] == turns[k]);
        }
        lemma_chain_cover(prefix, upto2, i);
        let k = choose|k: int|
            0 <= k < prefix.len() && (#[trigger] prefix[k].token_indices@[0]) <= i < prefix[
                k
            ].token_indices@[0] + prefix[k].token_indices@.len();
        assert(turns[k] == prefix[k]);
        assert(turns[k].token_indices@[0] <= i < turns[k].token_indices@[0]
            + turns[k].token_indices@.len());
    }
}

/// In a well-formed transcript, each token's `turn_id` names the turn that
/// contains it, and the token carries that turn's speaker.
pub proof fn lemma_token_turn(tokens: Seq<Token>, turns: Seq<Turn>, i: int)
    requires
        turns_wf(tokens, turns),
        turns.len() <= u64::MAX,
        0 <= i < tokens.len(),
    ensures
        0 <= tokens[i].turn_id < turns.len(),
        ({
            let k = tokens[i].turn_id as int;
            &&& turns[k].token_indices@[0] <= i < turns[k].token_indices@[0]
                + turns[k].token_indices@.len()
            &&& tokens[i].speaker == turns[k].speaker
            &&& turns[k].token_indices@[i - turns[k].token_indices@[0]] == i
        }),
{
    assert forall|k: int| 0 <= k < turns.len() implies turn_indices_contiguous(
        #[trigger] turns[k],
    ) by {
        assert(turn_wf_at(tokens, turns, k));
        assert(turn_body_wf_at(tokens, turns, k));
    }
    lemma_chain_cover(turns, tokens.len() as int, i);
    let k = choose|k: int|
        0 <= k < turns.len() && (#[trigger] turns[k].token_indices@[0]) <= i < turns[
            k
        ].token_indices@[0] + turns[k].token_indices@.len();
    let m = i - turns[k].token_indices@[0];
    assert(turn_wf_at(tokens, turns, k));
    assert(turn_body_wf_at(tokens, turns, k));
    assert(turn_backrefs_at(tokens, turns, k));
    assert(turns[k].token_indices@[m] == i);
    assert(tokens[turns[k].token_indices@[m] as int].turn_id == k as u64);
    assert(tokens[turns[k].token_indices@[m] as int].speaker == turns[k].speaker);
    assert(tokens[i].turn_id == k as u64);
    assert(tokens[i].speaker == turns[k].speaker);
    assert(tokens[i].turn_id as int == k);
}

/// Changing only overlap flags disturbs no part of the transcript invariant:
/// turns, speaker set and token ordering all survive.
pub proof fn lemma_wf_preserved_mod_overlap(
    t1: Seq<Token>,
    t2: Seq<Token>,
    turns: Seq<Turn>,
    speakers: Seq<u32>,
)
    requires
        tokens_wf(t1),
        turns_wf(t1, turns),
        speakers_wf(t1, speakers),
        t2.len() == t1.len(),
        forall|i: int| 0 <= i < t2.len() ==> same_token_mod_overlap(#[trigger] t2[i], t1[i]),
    ensures
        tokens_wf(t2),
        turns_wf(t2, turns),
        speakers_wf(t2, speakers),
{
    assert forall|i: int| 0 <= i < t2.len() implies (#[trigger] t2[i]).time_wf() && t2[i].token_id
        == i as u64 && t2[i].original_index == i by {
        assert(same_token_mod_overlap(t2[i], t1[i]));
        assert(t1[i].time_wf());
    }
    assert forall|i: int, j: int|
        0 <= i <= j < t2.len() implies #[trigger] t2[i].start_ms <= #[trigger] t2[j].start_ms by {
        assert(t1[i].start_ms <= t1[j].start_ms);
    }
    assert forall|k: int| 0 <= k < turns.len() implies turn_wf_at(t2, turns, k) by {
        assert(turn_wf_at(t1, turns, k));
        assert forall|m: int|
            0 <= m < turns[k].token_indices@.len() implies #[trigger] t2[turns[k].token_indices@[m] as int].speaker
            == turns[k].speaker && #[trigger] t2[turns[k].token_indices@[m] as int].turn_id
            == k as u64 by {
            let idx = turns[k].token_indices@[m] as int;
            assert(t1[idx].speaker == turns[k].speaker);
            assert(t1[idx].turn_id == k as u64);
        }
    }
    assert forall|a: int| 0 <= a < speakers.len() implies has_speaker(
        t2,
        #[trigger] speakers[a],
    ) by {
        assert(has_speaker(t1, speakers[a]));
        let w = choose|w: int| 0 <= w < t1.len() && #[trigger] t1[w].speaker == speakers[a];
        assert(t2[w].speaker == speakers[a]);
    }
    assert forall|i: int| 0 <= i < t2.len() implies speakers.contains(
        (#[trigger] t2[i]).speaker,
    ) by {
        assert(speakers.contains(t1[i].speaker));
    }
}

/// Build the vector `[from, from + 1, ..., to - 1]`.
pub fn index_range(from: usize, to: usize) -> (r: Vec<usize>)
    requires
        from <= to,
    ensures
        r@.len() == to - from,
        forall|m: int| 0 <= m < r@.len() ==> #[trigger] r@[m] == from + m,
{
    let mut r: Vec<usize> = Vec::new();
    let mut m = from;
    while m < to
        invariant
            from <= m <= to,
            r@.len() == m - from,
            forall|q: int| 0 <= q < r@.len() ==> #[trigger] r@[q] == from + q,
        decreases to - m,
    {
        r.push(m);
        m = m + 1;
    }
    r
}

/// Insert `x` into a strictly sorted vector, keeping it sorted and duplicate
/// free; a no-op when `x` is already present.
fn insert_sorted(v: &mut Vec<u32>, x: u32)
    requires
        forall|a: int, b: int| 0 <= a < b < old(v)@.len() ==> old(v)@[a] < old(v)@[b],
    ensures
        forall|a: int, b: int| 0 <= a < b < final(v)@.len() ==> final(v)@[a] < final(v)@[b],
        forall|y: u32| #[trigger] final(v)@.contains(y) <==> (old(v)@.contains(y) || y == x),
{
    let n = v.len();
    let mut p: usize = 0;
    while p < n && v[p] < x
        invariant
            0 <= p <= n,
            n == v@.len(),
            forall|a: int, b: int| 0 <= a < b < v@.len() ==> v@[a] < v@[b],
            forall|q: int| 0 <= q < p ==> v@[q] < x,
        decreases n - p,
    {
        p = p + 1;
    }
    if p < n && v[p] == x {
        assert forall|y: u32| #[trigger] v@.contains(y) implies (v@.contains(y) || y == x) by {}
        assert(v@.contains(x)) by {
            assert(v@[p as int] == x);
        }
        return ;
    }
    let ghost oldv = v@;
    v.insert(p, x);
    assert forall|a: int, b: int| 0 <= a < b < v@.len() implies v@[a] < v@[b] by {
        if b < p {
        } else if a < p && b == p {
            assert(v@[a] == oldv[a]);
        } else if a < p && b > p {
            assert(v@[a] == oldv[a] && v@[b] == oldv[b - 1]);
            if b - 1 == p as int {
                // oldv[p] is the first element >= x, and x is not equal to it
                assert(oldv[b - 1] >= x);
                assert(p < oldv.len() ==> oldv[p as int] != x);
            }
        } else if a == p {
            assert(v@[b] == oldv[b - 1]);
            assert(oldv[b - 1] >= oldv[p as int]);
            assert(p < oldv.len() ==> oldv[p as int] != x);
        } else {
            assert(v@[a] == oldv[a - 1] && v@[b] == oldv[b - 1]);
        }
    }
    assert forall|y: u32| #[trigger] v@.contains(y) implies (oldv.contains(y) || y == x) by {
        let w = choose|w: int| 0 <= w < v@.len() && v@[w] == y;
        if w < p {
            assert(oldv[w] == y);
        } else if w == p {
        } else {
            assert(oldv[w - 1] == y);
        }
    }
    assert forall|y: u32| oldv.contains(y) || y == x implies #[trigger] v@.contains(y) by {
        if y == x {
            assert(v@[p as int] == y);
        } else {
            let w = choose|w: int| 0 <= w < oldv.len() && oldv[w] == y;
            if w < p {
                assert(v@[w] == y);
            } else {
                assert(v@[w + 1] == y);
            }
        }
    }
}

/// Compute the sorted set of speaker labels occurring in a token sequence.
fn compute_speakers(tokens: &Vec<Token>) -> (r: Vec<u32>)
    ensures
        speakers_wf(tokens@, r@),
{
    let mut sp: Vec<u32> = Vec::new();
    let n = tokens.len();
    let mut i: usize = 0;
    while i < n
        invariant
            0 <= i <= n,
            n == tokens@.len(),
            forall|a: int, b: int| 0 <= a < b < sp@.len() ==> sp@[a] < sp@[b],
            forall|y: u32| #[trigger] sp@.contains(y) ==> has_speaker(tokens@, y),
            forall|j: int| 0 <= j < i ==> sp@.contains((#[trigger] tokens@[j]).speaker),
        decreases n - i,
    {
        let y = tokens[i].speaker;
        insert_sorted(&mut sp, y);
        proof {
            assert(tokens@[i as int].speaker == y);
            assert(has_speaker(tokens@, y));
        }
        i = i + 1;
    }
    proof {
        assert forall|a: int| 0 <= a < sp@.len() implies has_speaker(
            tokens@,
            #[trigger] sp@[a],
        ) by {
            assert(sp@.contains(sp@[a]));
        }
    }
    sp
}

/// Rebuild the turn sequence from the tokens: one left-to-right pass, cutting
/// a new turn at every speaker change.  Updates every token's `turn_id`,
/// refreshes the transcript's speaker set, and re-establishes the full
/// transcript invariant.  No field of any token other than `turn_id` changes.
pub fn rebuild_turns(t: &mut TokenizedTranscript)
    requires
        tokens_wf(old(t).tokens@),
    ensures
        final(t).tokens@.len() == old(t).tokens@.len(),
        forall|i: int|
            0 <= i < final(t).tokens@.len() ==> same_token_mod_turn(
                #[trigger] final(t).tokens@[i],
                old(t).tokens@[i],
            ),
        final(t).wf(),
{
    let n = t.tokens.len();
    let mut turns: Vec<Turn> = Vec::new();

    if n == 0 {
        t.turns = turns;
        t.speakers = Vec::new();
        return ;
    }

    // Phase 1: compute the turn shapes without touching the tokens.
    let mut turn_start: usize = 0;
    let mut i: usize = 1;
    while i < n
        invariant
            n == t.tokens@.len(),
            n > 0,
            tokens_wf(t.tokens@),
            t == old(t),
            turn_start < i <= n,
            turns_chain(turns@, turn_start as int),
            forall|k: int| 0 <= k < turns@.len() ==> turn_body_wf_at(t.tokens@, turns@, k),
            forall|m: int|
                turn_start <= m < i ==> #[trigger] t.tokens@[m].speaker
                    == t.tokens@[turn_start as int].speaker,
            turns@.len() > 0 ==> turns@[turns@.len() - 1].speaker
                != t.tokens@[turn_start as int].speaker,
        decreases n - i,
    {
        if t.tokens[i].speaker != t.tokens[i - 1].speaker {
            let ghost pre_turns = turns@;
            let idxs = index_range(turn_start, i);
            let turn = Turn {
                turn_id: turns.len() as u64,
                speaker: t.tokens[turn_start].speaker,
                start_ms: t.tokens[turn_start].start_ms,
                end_ms: t.tokens[i - 1].end_ms,
                token_indices: idxs,
            };
            turns.push(turn);
            proof {
                assert forall|k: int|
                    0 <= k < turns@.len() implies turn_body_wf_at(t.tokens@, turns@, k) by {
                    if k < pre_turns.len() {
                        assert(turn_body_wf_at(t.tokens@, pre_turns, k));
                        assert(turns@[k] == pre_turns[k]);
                    } else {
                        assert(turns@[k].token_indices@[0] == turn_start as int);
                        assert(turns@[k].token_indices@[turns@[k].token_indices@.len() - 1]
                            == i - 1);
                    }
                }
                assert(turns_chain(turns@, i as int)) by {
                    if pre_turns.len() > 0 {
                        assert(turns@[0] == pre_turns[0]);
                        assert forall|k: int| 0 <= k < turns@.len() - 1 implies #[trigger] turns@[k
                            + 1].token_indices@[0] == turns@[k].token_indices@[0]
                            + turns@[k].token_indices@.len() by {
                            if k < pre_turns.len() - 1 {
                                assert(turns@[k] == pre_turns[k] && turns@[k + 1] == pre_turns[k
                                    + 1]);
                            } else {
                                assert(turns@[k] == pre_turns[k]);
                            }
                        }
                        assert forall|k: int| 0 <= k < turns@.len() - 1 implies #[trigger] turns@[k
                            + 1].speaker != turns@[k].speaker by {
                            if k < pre_turns.len() - 1 {
                                assert(turns@[k] == pre_turns[k] && turns@[k + 1] == pre_turns[k
                                    + 1]);
                            } else {
                                assert(turns@[k] == pre_turns[k]);
                            }
                        }
                    }
                }
            }
            turn_start = i;
        }
        i = i + 1;
    }
    // Close the final turn.
    let ghost pre_turns = turns@;
    let idxs = index_range(turn_start, n);
    let turn = Turn {
        turn_id: turns.len() as u64,
        speaker: t.tokens[turn_start].speaker,
        start_ms: t.tokens[turn_start].start_ms,
        end_ms: t.tokens[n - 1].end_ms,
        token_indices: idxs,
    };
    turns.push(turn);
    proof {
        assert forall|k: int| 0 <= k < turns@.len() implies turn_body_wf_at(
            t.tokens@,
            turns@,
            k,
        ) by {
            if k < pre_turns.len() {
                assert(turn_body_wf_at(t.tokens@, pre_turns, k));
                assert(turns@[k] == pre_turns[k]);
            } else {
                assert(turns@[k].token_indices@[0] == turn_start as int);
                assert(turns@[k].token_indices@[turns@[k].token_indices@.len() - 1] == n - 1);
            }
        }
        assert(turns_chain(turns@, n as int)) by {
            if pre_turns.len() > 0 {
                assert(turns@[0] == pre_turns[0]);
                assert forall|k: int| 0 <= k < turns@.len() - 1 implies #[trigger] turns@[k
                    + 1].token_indices@[0] == turns@[k].token_indices@[0]
                    + turns@[k].token_indices@.len() by {
                    if k < pre_turns.len() - 1 {
                        assert(turns@[k] == pre_turns[k] && turns@[k + 1] == pre_turns[k + 1]);
                    } else {
                        assert(turns@[k] == pre_turns[k]);
                    }
                }
                assert forall|k: int| 0 <= k < turns@.len() - 1 implies #[trigger] turns@[k
                    + 1].speaker != turns@[k].speaker by {
                    if k < pre_turns.len() - 1 {
                        assert(turns@[k] == pre_turns[k] && turns@[k + 1] == pre_turns[k + 1]);
                    } else {
                        assert(turns@[k] == pre_turns[k]);
                    }
                }
            }
        }
    }

    // Phase 2: point each token back at its turn.
    let ghost mid = t.tokens@;
    let tlen = turns.len();
    let mut k: usize = 0;
    while k < tlen
        invariant
            tlen == turns@.len(),
            n == t.tokens@.len(),
            0 <= k <= tlen,
            turns_chain(turns@, n as int),
            forall|q: int| 0 <= q < turns@.len() ==> turn_body_wf_at(t.tokens@, turns@, q),
            forall|i2: int|
                0 <= i2 < n ==> same_token_mod_turn(#[trigger] t.tokens@[i2], mid[i2]),
            tokens_wf(t.tokens@),
            forall|q: int| 0 <= q < k ==> turn_backrefs_at(t.tokens@, turns@, q),
        decreases tlen - k,
    {
        let cnt = turns[k].token_indices.len();
        let mut m: usize = 0;
        while m < cnt
            invariant
                tlen == turns@.len(),
                n == t.tokens@.len(),
                0 <= k < tlen,
                cnt == turns@[k as int].token_indices@.len(),
                0 <= m <= cnt,
                turns_chain(turns@, n as int),
                forall|q: int| 0 <= q < turns@.len() ==> turn_body_wf_at(t.tokens@, turns@, q),
                forall|i2: int|
                    0 <= i2 < n ==> same_token_mod_turn(#[trigger] t.tokens@[i2], mid[i2]),
                tokens_wf(t.tokens@),
                forall|q: int| 0 <= q < k ==> turn_backrefs_at(t.tokens@, turns@, q),
                forall|m2: int|
                    0 <= m2 < m ==> #[trigger] t.tokens@[turns@[k as int].token_indices@[m2] as int].turn_id
                        == k as u64,
            decreases cnt - m,
        {
            let ghost pre = t.tokens@;
            let idx = turns[k].token_indices[m];
            assert(idx < n) by {
                assert(turn_body_wf_at(t.tokens@, turns@, k as int));
            }
            t.tokens[idx].turn_id = k as u64;
            proof {
                assert forall|q: int|
                    0 <= q < turns@.len() implies turn_indices_contiguous(
                    #[trigger] turns@[q],
                ) by {
                    assert(turn_body_wf_at(pre, turns@, q));
                }
                assert(idx == turns@[k as int].token_indices@[0] + m);
                // Earlier turns end strictly before this turn's first index,
                // so their back-references are untouched.
                assert forall|q: int| 0 <= q < k implies turn_backrefs_at(t.tokens@, turns@, q) by {
                    lemma_turns_disjoint(turns@, n as int, q, k as int);
                    assert(turn_backrefs_at(pre, turns@, q));
                    assert forall|m2: int|
                        0 <= m2 < turns@[q].token_indices@.len() implies #[trigger] t.tokens@[turns@[q].token_indices@[m2] as int].turn_id
                        == q as u64 by {
                        assert(turns@[q].token_indices@[m2] == turns@[q].token_indices@[0] + m2);
                        assert(turns@[q].token_indices@[m2] < idx);
                    }
                }
                assert forall|q: int| 0 <= q < turns@.len() implies turn_body_wf_at(
                    t.tokens@,
                    turns@,
                    q,
                ) by {
                    assert(turn_body_wf_at(pre, turns@, q));
                    assert forall|m2: int|
                        0 <= m2 < turns@[q].token_indices@.len() implies #[trigger] t.tokens@[turns@[q].token_indices@[m2] as int].speaker
                        == turns@[q].speaker by {
                        assert(pre[turns@[q].token_indices@[m2] as int].speaker == turns@[
                            q
                        ].speaker);
                    }
                }
            }
            m = m + 1;
        }
        k = k + 1;
    }

    let speakers = compute_speakers(&t.tokens);
    t.turns = turns;
    t.speakers = speakers;
}


/// Turn derivation is a function of the token speakers alone: two
/// well-formed turn sequences over token sequences with the same length and
/// the same speakers carry the same turns, entry for entry.
pub proof fn lemma_turns_unique(
    t1: Seq<Token>,
    t2: Seq<Token>,
    turns1: Seq<Turn>,
    turns2: Seq<Turn>,
    k: int,
)
    requires
        turns_wf(t1, turns1),
        turns_wf(t2, turns2),
        t1.len() == t2.len(),
        forall|i: int| 0 <= i < t1.len() ==> (#[trigger] t1[i]).speaker == t2[i].speaker,
        forall|i: int|
            0 <= i < t1.len() ==> (#[trigger] t1[i]).start_ms == t2[i].start_ms && t1[i].end_ms
                == t2[i].end_ms,
        0 <= k,
    ensures
        k < turns1.len() || k < turns2.len() ==> k < turns1.len() && k < turns2.len()
            && turns1[k].token_indices@ == turns2[k].token_indices@ && turns1[k].speaker
            == turns2[k].speaker && turns1[k].start_ms == turns2[k].start_ms && turns1[k].end_ms
            == turns2[k].end_ms && turns1[k].turn_id == turns2[k].turn_id,
    decreases k,
{
    if k < turns1.len() || k < turns2.len() {
        // Both sequences reach position k: their prefixes tile the same
        // range, and a turn exists exactly while tokens remain.
        let f1 = if k == 0 {
            0int
        } else {
            lemma_turns_unique(t1, t2, turns1, turns2, k - 1);
            turns1[k - 1].token_indices@[0] + turns1[k - 1].token_indices@.len()
        };
        if k > 0 {
            assert(turn_wf_at(t1, turns1, k - 1));
            assert(turn_wf_at(t2, turns2, k - 1));
            let km = k - 1;
            if km + 1 < turns1.len() {
                assert(turns1[km + 1].token_indices@[0] == turns1[km].token_indices@[0]
                    + turns1[km].token_indices@.len());
            }
            if km + 1 < turns2.len() {
                assert(turns2[km + 1].token_indices@[0] == turns2[km].token_indices@[0]
                    + turns2[km].token_indices@.len());
            }
            // The previous turn cannot be the last of only one sequence: a
            // turn ends before the end of the tokens exactly when a next
            // speaker change exists, which both sequences share.
            if k < turns1.len() && k >= turns2.len() {
                assert(turns2[k - 1].token_indices@[0] + turns2[k - 1].token_indices@.len()
                    == t2.len());
                assert(turns1[k].token_indices@[0] == f1);
                assert(turn_wf_at(t1, turns1, k));
                assert(turns1[k].token_indices@[0] < t1.len());
                assert(false);
            }
            if k >= turns1.len() && k < turns2.len() {
                assert(turns1[k - 1].token_indices@[0] + turns1[k - 1].token_indices@.len()
                    == t1.len());
                assert(turns2[k].token_indices@[0] == f1);
                assert(turn_wf_at(t2, turns2, k));
                assert(turns2[k].token_indices@[0] < t2.len());
                assert(false);
            }
        } else {
            if k < turns1.len() && k >= turns2.len() {
                assert(t2.len() == 0);
                assert(turn_wf_at(t1, turns1, 0));
                assert(turns1[0].token_indices@[0] < t1.len());
                assert(false);
            }
            if k >= turns1.len() && k < turns2.len() {
                assert(t1.len() == 0);
                assert(turn_wf_at(t2, turns2, 0));
                assert(turns2[0].token_indices@[0] < t2.len());
                assert(false);
            }
        }
        assert(k < turns1.len() && k < turns2.len());
        assert(turn_wf_at(t1, turns1, k));
        assert(turn_wf_at(t2, turns2, k));
        assert(turns1[k].token_indices@[0] == f1);
        assert(turns2[k].token_indices@[0] == f1);
        let n1 = turns1[k].token_indices@.len() as int;
        let n2 = turns2[k].token_indices@.len() as int;
        // Equal lengths: a longer run on one side would cross the other
        // side's speaker boundary.
        assert(n1 == n2) by {
            lemma_turn_run_le(t1, t2, turns1, turns2, k, f1, n1, n2);
            lemma_turn_run_le(t2, t1, turns2, turns1, k, f1, n2, n1);
        }
        assert(turns1[k].token_indices@ =~= turns2[k].token_indices@);
        assert(turns1[k].speaker == t1[f1].speaker);
        assert(turns2[k].speaker == t2[f1].speaker);
    }
}

/// Helper for `lemma_turns_unique`: a turn's run cannot stop before the
/// other side's run over the same speakers.
proof fn lemma_turn_run_le(
    ta: Seq<Token>,
    tb: Seq<Token>,
    turnsa: Seq<Turn>,
    turnsb: Seq<Turn>,
    k: int,
    f: int,
    na: int,
    nb: int,
)
    requires
        turns_wf(ta, turnsa),
        turns_wf(tb, turnsb),
        ta.len() == tb.len(),
        forall|i: int| 0 <= i < ta.len() ==> (#[trigger] ta[i]).speaker == tb[i].speaker,
        0 <= k < turnsa.len(),
        0 <= k < turnsb.len(),
        turnsa[k].token_indices@[0] == f,
        turnsb[k].token_indices@[0] == f,
        na == turnsa[k].token_indices@.len(),
        nb == turnsb[k].token_indices@.len(),
    ensures
        na >= nb,
{
    if na >= nb {
        return ;
    }
    assert(turn_wf_at(ta, turnsa, k));
    assert(turn_wf_at(tb, turnsb, k));
    // Token f + na starts turn k + 1 on the `a` side, with a new speaker.
    assert(k + 1 < turnsa.len()) by {
        assert(turnsb[k].token_indices@[nb - 1] == f + nb - 1);
        assert(f + na < tb.len());
        if k + 1 >= turnsa.len() {
            assert(turnsa[k].token_indices@[0] + turnsa[k].token_indices@.len() == ta.len());
        }
    }
    assert(turn_wf_at(ta, turnsa, k + 1));
    assert(turnsa[k + 1].token_indices@[0] == f + na);
    assert(ta[turnsa[k + 1].token_indices@[0] as int].speaker == turnsa[k + 1].speaker) by {
        assert(turnsa[k + 1].token_indices@[0] == turnsa[k + 1].token_indices@[0] + 0);
    }
    assert(turnsa[k + 1].speaker != turnsa[k].speaker);
    // But on the `b` side that token still lies inside turn k, sharing its
    // speaker, and so does token f.
    assert(tb[f + na].speaker == turnsb[k].speaker) by {
        assert(turnsb[k].token_indices@[na] == f + na);
    }
    assert(tb[f].speaker == turnsb[k].speaker) by {
        assert(turnsb[k].token_indices@[0] == f);
    }
    assert(ta[f].speaker == turnsa[k].speaker) by {
        assert(turnsa[k].token_indices@[0] == f);
    }
    assert(ta[f + na].speaker == tb[f + na].speaker);
    assert(ta[f].speaker == tb[f].speaker);
    assert(false);
}

} // verus!
