use vstd::prelude::*;

use crate::heuristics::HeuristicsResult;
use crate::models::{
    same_token_mod_label, tokens_wf, Token, TokenizedTranscript,
};
use crate::select::{lemma_sel_idxs, sel_idxs, seq_matches};
use crate::text::{lower_of, lowercase};
use crate::turns::rebuild_turns;

verus! {

/// Context radius for finding the floor holder, in milliseconds.
pub const FLOOR_CONTEXT_MS: u64 = 5000;

/// Context radius for finding a listener, in milliseconds.
pub const LISTENER_CONTEXT_MS: u64 = 10000;

/// Speaker confidence (in thousandths) at or above which a backchannel is
/// left alone unless it sits in an overlap region.
pub const BACKCHANNEL_CONF_MS: u32 = 700;

/// The word's lowercase form occurs in the backchannel list.
pub open spec fn word_is_backchannel(w: Seq<char>, list: Seq<String>) -> bool {
    exists|b: int| 0 <= b < list.len() && lower_of(w) == (#[trigger] list[b])@
}

/// Token `i` is a backchannel candidate: a backchannel word in an overlap
/// region or with low speaker confidence.
pub open spec fn bc_candidate(tokens: Seq<Token>, list: Seq<String>, i: int) -> bool {
    &&& word_is_backchannel(tokens[i].word@, list)
    &&& (tokens[i].is_overlap_region || tokens[i].speaker_conf < BACKCHANNEL_CONF_MS)
}

/// The token's time interval touches the window `(lo, hi)`: any overlap, not
/// full containment.
pub open spec fn intersects_window(t: Token, lo: int, hi: int) -> bool {
    t.start_ms < hi && t.end_ms > lo
}

/// Lower edge of the context window around token `i` (clamped at zero).
pub open spec fn ctx_lo(tokens: Seq<Token>, i: int, ctx: int) -> int {
    if tokens[i].start_ms - ctx >= 0 {
        tokens[i].start_ms - ctx
    } else {
        0
    }
}

/// Upper edge of the context window around token `i`.
pub open spec fn ctx_hi(tokens: Seq<Token>, i: int, ctx: int) -> int {
    tokens[i].end_ms + ctx
}

/// The tokens counted for speaker `spk` around token `i`: all but `i` itself,
/// with that speaker, touching the window.
pub open spec fn count_pred(
    tokens: Seq<Token>,
    i: int,
    lo: int,
    hi: int,
    spk: u32,
) -> spec_fn(int) -> bool {
    |j: int|
        0 <= j < tokens.len() && j != i && tokens[j].speaker == spk && intersects_window(
            tokens[j],
            lo,
            hi,
        )
}

/// How many tokens other than `i` with speaker `spk` touch the window.
pub open spec fn speaker_count_in(
    tokens: Seq<Token>,
    i: int,
    lo: int,
    hi: int,
    spk: u32,
) -> int {
    sel_idxs(count_pred(tokens, i, lo, hi, spk), tokens.len() as int).len() as int
}

/// `h` holds the floor around token `i`: it has at least one token in the
/// context window, no speaker has more, and among equals it has the smallest
/// label.
pub open spec fn is_floor_holder(
    tokens: Seq<Token>,
    speakers: Seq<u32>,
    i: int,
    lo: int,
    hi: int,
    h: u32,
) -> bool {
    &&& speakers.contains(h)
    &&& speaker_count_in(tokens, i, lo, hi, h) >= 1
    &&& forall|a: int|
        0 <= a < speakers.len() ==> speaker_count_in(tokens, i, lo, hi, #[trigger] speakers[a])
            <= speaker_count_in(tokens, i, lo, hi, h)
    &&& forall|a: int|
        0 <= a < speakers.len() && speaker_count_in(tokens, i, lo, hi, #[trigger] speakers[a])
            == speaker_count_in(tokens, i, lo, hi, h) ==> h <= speakers[a]
}

/// The tokens that could take a backchannel near token `i`: a different
/// speaker than `h`, touching the listener window `(lo, hi)`.
pub open spec fn listener_pred(tokens: Seq<Token>, h: u32, lo: int, hi: int) -> spec_fn(
    int,
) -> bool {
    |j: int|
        0 <= j < tokens.len() && tokens[j].speaker != h && intersects_window(tokens[j], lo, hi)
}

/// Indices of the tokens that could take a backchannel near token `i`, in
/// order.
pub open spec fn listener_sel(tokens: Seq<Token>, i: int, h: u32) -> Seq<int> {
    sel_idxs(
        listener_pred(
            tokens,
            h,
            ctx_lo(tokens, i, LISTENER_CONTEXT_MS as int),
            ctx_hi(tokens, i, LISTENER_CONTEXT_MS as int),
        ),
        tokens.len() as int,
    )
}

/// The speaker a backchannel pass assigns to token `i`: the first listener's
/// label, when the token is a candidate currently attributed to the floor
/// holder and a listener exists; otherwise its present speaker.
pub open spec fn bc_new_speaker(
    tokens: Seq<Token>,
    speakers: Seq<u32>,
    list: Seq<String>,
    i: int,
) -> u32 {
    let lo = ctx_lo(tokens, i, FLOOR_CONTEXT_MS as int);
    let hi = ctx_hi(tokens, i, FLOOR_CONTEXT_MS as int);
    let listeners = listener_sel(tokens, i, tokens[i].speaker);
    if bc_candidate(tokens, list, i) && is_floor_holder(tokens, speakers, i, lo, hi, tokens[i].speaker)
        && listeners.len() > 0 {
        tokens[listeners[0]].speaker
    } else {
        tokens[i].speaker
    }
}

/// A backchannel candidate attributed to the floor holder with no listener in
/// range: left for the language model.
pub open spec fn bc_undecided(
    tokens: Seq<Token>,
    speakers: Seq<u32>,
    list: Seq<String>,
    i: int,
) -> bool {
    let lo = ctx_lo(tokens, i, FLOOR_CONTEXT_MS as int);
    let hi = ctx_hi(tokens, i, FLOOR_CONTEXT_MS as int);
    &&& 0 <= i < tokens.len()
    &&& bc_candidate(tokens, list, i)
    &&& is_floor_holder(tokens, speakers, i, lo, hi, tokens[i].speaker)
    &&& listener_sel(tokens, i, tokens[i].speaker).len() == 0
}

/// Whether the word's lowercase form occurs in the backchannel list.
fn is_backchannel_word(word: &String, list: &Vec<String>) -> (r: bool)
    ensures
        r == word_is_backchannel(word@, list@),
{
    let lw = lowercase(word.as_str());
    let n = list.len();
    let mut b: usize = 0;
    while b < n
        invariant
            0 <= b <= n,
            n == list@.len(),
            lw@ == lower_of(word@),
            forall|q: int| 0 <= q < b ==> lower_of(word@) != (#[trigger] list@[q])@,
        decreases n - b,
    {
        if lw.eq(&list[b]) {
            return true;
        }
        b = b + 1;
    }
    false
}

/// Find the floor holder around token `token_idx`: the speaker with the most
/// tokens touching the context window (the token itself excluded), smallest
/// label on ties.  `None` when the window holds no other token.
pub fn find_floor_holder(t: &TokenizedTranscript, token_idx: usize, context_ms: u64) -> (r:
    Option<u32>)
    requires
        t.wf(),
        token_idx < t.tokens@.len(),
        context_ms <= crate::models::MAX_TIME_MS,
    ensures
        ({
            let lo = ctx_lo(t.tokens@, token_idx as int, context_ms as int);
            let hi = ctx_hi(t.tokens@, token_idx as int, context_ms as int);
            match r {
                Some(h) => is_floor_holder(t.tokens@, t.speakers@, token_idx as int, lo, hi, h),
                None => forall|j: int|
                    0 <= j < t.tokens@.len() && j != token_idx ==> !intersects_window(
                        #[trigger] t.tokens@[j],
                        lo,
                        hi,
                    ),
            }
        }),
{
    proof {
        assert(t.tokens@[token_idx as int].time_wf());
    }
    let start_time = if t.tokens[token_idx].start_ms >= context_ms {
        t.tokens[token_idx].start_ms - context_ms
    } else {
        0
    };
    let end_time = t.tokens[token_idx].end_ms + context_ms;
    let ghost lo = ctx_lo(t.tokens@, token_idx as int, context_ms as int);
    let ghost hi = ctx_hi(t.tokens@, token_idx as int, context_ms as int);
    let ns = t.speakers.len();
    let mut best: Option<u32> = None;
    let mut best_count: u64 = 0;
    let mut a: usize = 0;
    while a < ns
        invariant
            0 <= a <= ns,
            ns == t.speakers@.len(),
            t.wf(),
            token_idx < t.tokens@.len(),
            lo == ctx_lo(t.tokens@, token_idx as int, context_ms as int),
            hi == ctx_hi(t.tokens@, token_idx as int, context_ms as int),
            start_time as int == lo,
            end_time as int == hi,
            match best {
                Some(h) => {
                    &&& exists|w: int|
                        0 <= w < a && #[trigger] t.speakers@[w] == h
                    &&& t.speakers@.contains(h)
                    &&& best_count == speaker_count_in(t.tokens@, token_idx as int, lo, hi, h)
                    &&& best_count >= 1
                    &&& forall|q: int|
                        0 <= q < a ==> speaker_count_in(
                            t.tokens@,
                            token_idx as int,
                            lo,
                            hi,
                            #[trigger] t.speakers@[q],
                        ) <= best_count as int
                    &&& forall|q: int|
                        0 <= q < a && speaker_count_in(
                            t.tokens@,
                            token_idx as int,
                            lo,
                            hi,
                            #[trigger] t.speakers@[q],
                        ) == best_count as int ==> h <= t.speakers@[q]
                },
                None => {
                    &&& best_count == 0
                    &&& forall|q: int|
                        0 <= q < a ==> speaker_count_in(
                            t.tokens@,
                            token_idx as int,
                            lo,
                            hi,
                            #[trigger] t.speakers@[q],
                        ) == 0
                },
            },
        decreases ns - a,
    {
        let spk = t.speakers[a];
        let ghost p = count_pred(t.tokens@, token_idx as int, lo, hi, spk);
        let n = t.tokens.len();
        let mut count: u64 = 0;
        let mut j: usize = 0;
        while j < n
            invariant
                0 <= j <= n,
                n == t.tokens@.len(),
                token_idx < n,
                lo == ctx_lo(t.tokens@, token_idx as int, context_ms as int),
                hi == ctx_hi(t.tokens@, token_idx as int, context_ms as int),
                start_time as int == lo,
                end_time as int == hi,
                p == count_pred(t.tokens@, token_idx as int, lo, hi, spk),
                count == sel_idxs(p, j as int).len(),
                count <= j,
            decreases n - j,
        {
            if j != token_idx && t.tokens[j].speaker == spk && t.tokens[j].start_ms < end_time
                && t.tokens[j].end_ms > start_time {
                count = count + 1;
                proof {
                    assert(sel_idxs(p, j + 1) == sel_idxs(p, j as int).push(j as int));
                }
            } else {
                proof {
                    assert(sel_idxs(p, j + 1) == sel_idxs(p, j as int));
                }
            }
            j = j + 1;
        }
        proof {
            assert(count == speaker_count_in(t.tokens@, token_idx as int, lo, hi, spk));
        }
        let better = match best {
            Some(_) => count > best_count,
            None => count >= 1,
        };
        if better {
            best = Some(spk);
            best_count = count;
            proof {
                assert(t.speakers@[a as int] == spk);
                assert(t.speakers@.contains(spk));
                assert forall|q: int|
                    0 <= q < a + 1 && speaker_count_in(
                        t.tokens@,
                        token_idx as int,
                        lo,
                        hi,
                        #[trigger] t.speakers@[q],
                    ) == count as int implies spk <= t.speakers@[q] by {
                    if q < a {
                        // The earlier speaker's count was strictly smaller.
                    }
                }
            }
        }
        a = a + 1;
    }
    proof {
        if best is None {
            assert forall|j: int|
                0 <= j < t.tokens@.len() && j != token_idx implies !intersects_window(
                #[trigger] t.tokens@[j],
                lo,
                hi,
            ) by {
                if intersects_window(t.tokens@[j], lo, hi) {
                    let spk = t.tokens@[j].speaker;
                    assert(t.speakers@.contains(spk));
                    let w = choose|w: int| 0 <= w < t.speakers@.len() && t.speakers@[w] == spk;
                    let p = count_pred(t.tokens@, token_idx as int, lo, hi, spk);
                    lemma_sel_idxs(p, t.tokens@.len() as int);
                    assert(p(j));
                    assert(sel_idxs(p, t.tokens@.len() as int).contains(j));
                    assert(speaker_count_in(t.tokens@, token_idx as int, lo, hi, spk) >= 1);
                    assert(speaker_count_in(t.tokens@, token_idx as int, lo, hi, t.speakers@[w])
                        == 0);
                }
            }
        }
    }
    best
}

/// Find a listener near token `token_idx`: the first token whose speaker is
/// not the floor holder and whose interval touches the listener window.
fn find_listener(t: &TokenizedTranscript, token_idx: usize, floor_holder: u32) -> (r: Option<
    u32,
>)
    requires
        t.wf(),
        token_idx < t.tokens@.len(),
    ensures
        ({
            let listeners = listener_sel(t.tokens@, token_idx as int, floor_holder);
            match r {
                Some(s) => listeners.len() > 0 && 0 <= listeners[0] < t.tokens@.len() && s
                    == t.tokens@[listeners[0]].speaker && s != floor_holder,
                None => listeners.len() == 0,
            }
        }),
{
    proof {
        assert(t.tokens@[token_idx as int].time_wf());
    }
    let start_time = if t.tokens[token_idx].start_ms >= LISTENER_CONTEXT_MS {
        t.tokens[token_idx].start_ms - LISTENER_CONTEXT_MS
    } else {
        0
    };
    let end_time = t.tokens[token_idx].end_ms + LISTENER_CONTEXT_MS;
    let ghost lo = ctx_lo(t.tokens@, token_idx as int, LISTENER_CONTEXT_MS as int);
    let ghost hi = ctx_hi(t.tokens@, token_idx as int, LISTENER_CONTEXT_MS as int);
    let ghost p = listener_pred(t.tokens@, floor_holder, lo, hi);
    let n = t.tokens.len();
    let mut j: usize = 0;
    while j < n
        invariant
            0 <= j <= n,
            n == t.tokens@.len(),
            token_idx < n,
            lo == ctx_lo(t.tokens@, token_idx as int, LISTENER_CONTEXT_MS as int),
            hi == ctx_hi(t.tokens@, token_idx as int, LISTENER_CONTEXT_MS as int),
            start_time as int == lo,
            end_time as int == hi,
            p == listener_pred(t.tokens@, floor_holder, lo, hi),
            forall|q: int| 0 <= q < j ==> !(#[trigger] p(q)),
        decreases n - j,
    {
        if t.tokens[j].speaker != floor_holder && t.tokens[j].start_ms < end_time
            && t.tokens[j].end_ms > start_time {
            proof {
                lemma_sel_idxs(p, n as int);
                let sel = sel_idxs(p, n as int);
                assert(p(j as int));
                assert(sel.contains(j as int));
                let w = choose|w: int| 0 <= w < sel.len() && sel[w] == j as int;
                assert(sel[0] <= sel[w]);
                assert(p(sel[0]));
                assert(sel[0] == j as int);
            }
            return Some(t.tokens[j].speaker);
        }
        j = j + 1;
    }
    proof {
        lemma_sel_idxs(p, n as int);
        let sel = sel_idxs(p, n as int);
        if sel.len() > 0 {
            assert(p(sel[0]));
        }
    }
    None
}

/// Re-attribute misassigned backchannels: a backchannel candidate currently
/// labeled with the floor holder's speaker is handed to a listener when one
/// is in range; with none in range the case is deferred to the language
/// model.  All decisions are made against the state before the pass.
pub fn apply_backchannel_rules(
    t: &mut TokenizedTranscript,
    backchannel_words: &Vec<String>,
) -> (r: HeuristicsResult)
    requires
        old(t).wf(),
    ensures
        final(t).wf(),
        final(t).tokens@.len() == old(t).tokens@.len(),
        forall|i: int|
            0 <= i < final(t).tokens@.len() ==> same_token_mod_label(
                #[trigger] final(t).tokens@[i],
                old(t).tokens@[i],
            ),
        forall|i: int|
            0 <= i < final(t).tokens@.len() ==> (#[trigger] final(t).tokens@[i]).is_overlap_region
                == old(t).tokens@[i].is_overlap_region,
        forall|i: int|
            0 <= i < final(t).tokens@.len() ==> (#[trigger] final(t).tokens@[i]).speaker
                == bc_new_speaker(old(t).tokens@, old(t).speakers@, backchannel_words@, i),
        r.needs_llm == exists|i: int|
            bc_undecided(old(t).tokens@, old(t).speakers@, backchannel_words@, i),
        seq_matches(
            r.changed_indices@,
            sel_idxs(
                |i: int|
                    0 <= i < old(t).tokens@.len() && bc_new_speaker(
                        old(t).tokens@,
                        old(t).speakers@,
                        backchannel_words@,
                        i,
                    ) != old(t).tokens@[i].speaker,
                old(t).tokens@.len() as int,
            ),
        ),
        r.tokens_relabeled == r.changed_indices@.len(),
{
    let ghost otokens = old(t).tokens@;
    let ghost ospeakers = old(t).speakers@;
    let ghost words = backchannel_words@;
    let ghost p_changed = |i: int|
        0 <= i < otokens.len() && bc_new_speaker(otokens, ospeakers, words, i)
            != otokens[i].speaker;

    // Decision pass over the untouched transcript.
    let n = t.tokens.len();
    let mut relabels: Vec<(usize, u32)> = Vec::new();
    let mut needs_llm = false;
    let mut i: usize = 0;
    while i < n
        invariant
            0 <= i <= n,
            n == t.tokens@.len(),
            *t == *old(t),
            otokens == old(t).tokens@,
            ospeakers == old(t).speakers@,
            words == backchannel_words@,
            old(t).wf(),
            p_changed == (|i: int|
                0 <= i < otokens.len() && bc_new_speaker(otokens, ospeakers, words, i)
                    != otokens[i].speaker),
            needs_llm == exists|q: int| q < i && bc_undecided(otokens, ospeakers, words, q),
            relabels@.len() == sel_idxs(p_changed, i as int).len(),
            forall|w: int|
                0 <= w < relabels@.len() ==> (#[trigger] relabels@[w]).0 as int == sel_idxs(
                    p_changed,
                    i as int,
                )[w] && relabels@[w].1 == bc_new_speaker(
                    otokens,
                    ospeakers,
                    words,
                    sel_idxs(p_changed, i as int)[w],
                ) && relabels@[w].0 < n,
        decreases n - i,
    {
        proof {
            assert(t.tokens@[i as int].time_wf());
        }
        let candidate = {
            let tok = &t.tokens[i];
            if is_backchannel_word(&tok.word, backchannel_words) {
                tok.is_overlap_region || tok.speaker_conf < BACKCHANNEL_CONF_MS
            } else {
                false
            }
        };
        let mut decided_new: Option<u32> = None;
        let mut undecided = false;
        if candidate {
            match find_floor_holder(t, i, FLOOR_CONTEXT_MS) {
                Some(holder) => {
                    if t.tokens[i].speaker == holder {
                        match find_listener(t, i, holder) {
                            Some(s) => {
                                decided_new = Some(s);
                            },
                            None => {
                                undecided = true;
                            },
                        }
                    }
                },
                None => {
                    proof {
                        let lo = ctx_lo(otokens, i as int, FLOOR_CONTEXT_MS as int);
                        let hi = ctx_hi(otokens, i as int, FLOOR_CONTEXT_MS as int);
                        assert(!is_floor_holder(
                            otokens,
                            ospeakers,
                            i as int,
                            lo,
                            hi,
                            otokens[i as int].speaker,
                        )) by {
                            if is_floor_holder(
                                otokens,
                                ospeakers,
                                i as int,
                                lo,
                                hi,
                                otokens[i as int].speaker,
                            ) {
                                let spk = otokens[i as int].speaker;
                                let p = count_pred(otokens, i as int, lo, hi, spk);
                                lemma_sel_idxs(p, otokens.len() as int);
                                let sel = sel_idxs(p, otokens.len() as int);
                                assert(sel.len() >= 1);
                                assert(p(sel[0]));
                            }
                        }
                    }
                },
            }
        }
        match decided_new {
            Some(s) => {
                relabels.push((i, s));
                proof {
                    assert(bc_new_speaker(otokens, ospeakers, words, i as int) == s);
                    assert(p_changed(i as int));
                    assert(sel_idxs(p_changed, i + 1) == sel_idxs(p_changed, i as int).push(
                        i as int,
                    ));
                    assert(!bc_undecided(otokens, ospeakers, words, i as int));
                }
            },
            None => {
                proof {
                    assert(bc_new_speaker(otokens, ospeakers, words, i as int) == otokens[
                        i as int
                    ].speaker);
                    assert(sel_idxs(p_changed, i + 1) == sel_idxs(p_changed, i as int));
                    assert(bc_undecided(otokens, ospeakers, words, i as int) == undecided);
                }
                if undecided {
                    needs_llm = true;
                }
            },
        }
        i = i + 1;
    }

    // Apply the decided relabels.
    let m = relabels.len();
    let mut changed_indices: Vec<usize> = Vec::new();
    let mut w: usize = 0;
    while w < m
        invariant
            0 <= w <= m,
            m == relabels@.len(),
            n == t.tokens@.len(),
            n == otokens.len(),
            otokens == old(t).tokens@,
            ospeakers == old(t).speakers@,
            words == backchannel_words@,
            old(t).wf(),
            t.turns == old(t).turns,
            t.speakers == old(t).speakers,
            p_changed == (|i: int|
                0 <= i < otokens.len() && bc_new_speaker(otokens, ospeakers, words, i)
                    != otokens[i].speaker),
            relabels@.len() == sel_idxs(p_changed, n as int).len(),
            forall|q: int|
                0 <= q < relabels@.len() ==> (#[trigger] relabels@[q]).0 as int == sel_idxs(
                    p_changed,
                    n as int,
                )[q] && relabels@[q].1 == bc_new_speaker(
                    otokens,
                    ospeakers,
                    words,
                    sel_idxs(p_changed, n as int)[q],
                ) && relabels@[q].0 < n,
            changed_indices@ =~= relabels@.take(w as int).map_values(|x: (usize, u32)| x.0),
            forall|q: int|
                0 <= q < n ==> same_token_mod_label(#[trigger] t.tokens@[q], otokens[q])
                    && t.tokens@[q].is_overlap_region == otokens[q].is_overlap_region
                    && t.tokens@[q].turn_id == otokens[q].turn_id,
            forall|q: int|
                0 <= q < n && !sel_idxs(p_changed, n as int).take(w as int).contains(q)
                    ==> #[trigger] t.tokens@[q].speaker == otokens[q].speaker,
            forall|v: int|
                0 <= v < w ==> #[trigger] t.tokens@[sel_idxs(p_changed, n as int)[v]].speaker
                    == bc_new_speaker(otokens, ospeakers, words, sel_idxs(p_changed, n as int)[v]),
        decreases m - w,
    {
        let (idx, s) = relabels[w];
        t.tokens[idx].speaker = s;
        changed_indices.push(idx);
        proof {
            lemma_sel_idxs(p_changed, n as int);
            let sel = sel_idxs(p_changed, n as int);
            assert(relabels@[w as int].0 as int == sel[w as int]);
            assert(sel.take(w as int + 1) =~= sel.take(w as int).push(sel[w as int]));
            assert(relabels@.take(w as int + 1) =~= relabels@.take(w as int).push(
                relabels@[w as int],
            ));
            assert forall|q: int|
                0 <= q < n && !sel.take(w as int + 1).contains(q) implies #[trigger] t.tokens@[q].speaker
                == otokens[q].speaker by {
                if q != idx as int {
                    assert(!sel.take(w as int).contains(q));
                } else {
                    assert(sel.take(w as int + 1)[w as int] == q);
                    assert(sel.take(w as int + 1).contains(q));
                }
            }
            assert forall|v: int|
                0 <= v < w + 1 implies #[trigger] t.tokens@[sel[v]].speaker == bc_new_speaker(
                otokens,
                ospeakers,
                words,
                sel[v],
            ) by {
                if v < w {
                    assert(sel[v] < sel[w as int]);
                    assert(sel[v] != idx as int);
                }
            }
        }
        w = w + 1;
    }

    let tokens_relabeled = changed_indices.len();
    proof {
        lemma_sel_idxs(p_changed, n as int);
        let sel = sel_idxs(p_changed, n as int);
        assert(sel.take(m as int) =~= sel);
        assert(relabels@.take(m as int) =~= relabels@);
        assert forall|q: int|
            0 <= q < n implies #[trigger] t.tokens@[q].speaker == bc_new_speaker(
            otokens,
            ospeakers,
            words,
            q,
        ) by {
            if p_changed(q) {
                assert(sel.contains(q));
                let v = choose|v: int| 0 <= v < sel.len() && sel[v] == q;
                assert(t.tokens@[sel[v]].speaker == bc_new_speaker(otokens, ospeakers, words, q));
            } else {
                assert(!sel.take(m as int).contains(q)) by {
                    if sel.take(m as int).contains(q) {
                        let v = choose|v: int|
                            0 <= v < sel.take(m as int).len() && sel.take(m as int)[v] == q;
                        assert(p_changed(sel[v]));
                    }
                }
            }
        }
        assert(seq_matches(changed_indices@, sel));
    }
    if tokens_relabeled > 0 {
        proof {
            assert(tokens_wf(t.tokens@)) by {
                assert forall|q: int| 0 <= q < n implies (#[trigger] t.tokens@[q]).time_wf()
                    && t.tokens@[q].token_id == q as u64 && t.tokens@[q].original_index == q by {
                    assert(same_token_mod_label(t.tokens@[q], otokens[q]));
                    assert(otokens[q].time_wf());
                }
                assert forall|a: int, b: int|
                    0 <= a <= b < n implies #[trigger] t.tokens@[a].start_ms
                    <= #[trigger] t.tokens@[b].start_ms by {
                    assert(otokens[a].start_ms <= otokens[b].start_ms);
                }
            }
        }
        let ghost pre = t.tokens@;
        let ghost presp = Seq::new(n as nat, |q: int| pre[q].speaker);
        rebuild_turns(t);
        proof {
            assert forall|q: int|
                0 <= q < n implies same_token_mod_label(#[trigger] t.tokens@[q], otokens[q])
                && t.tokens@[q].is_overlap_region == otokens[q].is_overlap_region
                && t.tokens@[q].speaker == bc_new_speaker(otokens, ospeakers, words, q) by {
                assert(crate::models::same_token_mod_turn(t.tokens@[q], pre[q]));
                assert(same_token_mod_label(pre[q], otokens[q]));
            }
        }
    } else {
        proof {
            assert forall|q: int| 0 <= q < n implies #[trigger] t.tokens@[q] == otokens[q] by {
                assert(same_token_mod_label(t.tokens@[q], otokens[q]));
                assert(t.tokens@[q].speaker == otokens[q].speaker) by {
                    assert(t.tokens@[q].speaker == bc_new_speaker(otokens, ospeakers, words, q));
                    if p_changed(q) {
                        lemma_sel_idxs(p_changed, n as int);
                        assert(sel_idxs(p_changed, n as int).contains(q));
                    }
                }
            }
            assert(t.tokens@ =~= otokens);
        }
    }
    HeuristicsResult { tokens_relabeled, changed_indices, needs_llm }
}

} // verus!
