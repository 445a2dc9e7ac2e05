use vstd::prelude::*;

use crate::models::{same_token_mod_overlap, Token, TokenizedTranscript, Turn};
use crate::select::{lemma_sel_idxs, sel_idxs, seq_matches};
use crate::turns::{index_range, lemma_wf_preserved_mod_overlap};
use crate::window::{ProblemType, ProblemZone, ProblemZoneConfig};

verus! {

/// Length of the sliding span used for jitter detection, in milliseconds.
pub const JITTER_SPAN_MS: u64 = 10000;

/// Step between jitter spans: half the span, for 50% overlap.
pub const JITTER_STEP_MS: u64 = 5000;

/// Adjacent tokens of different speakers count as overlapping when the gap
/// between them is at most this many milliseconds.
pub const OVERLAP_THRESHOLD_MS: u64 = 100;

/// Tokens `i` and `i + 1` witness an overlap: different speakers, and the
/// second starts within the threshold of (or before) the first's end.
pub open spec fn overlap_pair(tokens: Seq<Token>, i: int) -> bool {
    &&& 0 <= i
    &&& i + 1 < tokens.len()
    &&& tokens[i].speaker != tokens[i + 1].speaker
    &&& {
        let gap = if tokens[i + 1].start_ms >= tokens[i].end_ms {
            tokens[i + 1].start_ms - tokens[i].end_ms
        } else {
            0
        };
        gap <= OVERLAP_THRESHOLD_MS || tokens[i + 1].start_ms < tokens[i].end_ms
    }
}

/// The overlap flag a token ends up with after overlap marking: its old flag,
/// or membership in an overlapping pair on either side.
pub open spec fn marked_overlap(tokens: Seq<Token>, i: int) -> bool {
    tokens[i].is_overlap_region || overlap_pair(tokens, i - 1) || overlap_pair(tokens, i)
}

/// Mark overlap regions: for each adjacent pair of tokens with different
/// speakers whose times touch within the threshold, flag both tokens.
/// No other token field changes.
pub fn detect_overlap_regions(t: &mut TokenizedTranscript)
    requires
        old(t).wf(),
    ensures
        final(t).wf(),
        final(t).tokens@.len() == old(t).tokens@.len(),
        final(t).turns == old(t).turns,
        final(t).speakers == old(t).speakers,
        forall|i: int|
            0 <= i < final(t).tokens@.len() ==> same_token_mod_overlap(
                #[trigger] final(t).tokens@[i],
                old(t).tokens@[i],
            ),
        forall|i: int|
            0 <= i < final(t).tokens@.len() ==> (#[trigger] final(t).tokens@[i]).is_overlap_region
                == marked_overlap(old(t).tokens@, i),
{
    let ghost orig = t.tokens@;
    let n = t.tokens.len();
    let mut i: usize = 0;
    while i + 1 < n
        invariant
            n == t.tokens@.len(),
            n == orig.len(),
            orig == old(t).tokens@,
            old(t).wf(),
            t.turns == old(t).turns,
            t.speakers == old(t).speakers,
            0 <= i,
            i + 1 <= n || i == 0,
            forall|q: int|
                0 <= q < n ==> same_token_mod_overlap(#[trigger] t.tokens@[q], orig[q]),
            forall|q: int|
                0 <= q < n ==> (#[trigger] t.tokens@[q]).is_overlap_region == (
                orig[q].is_overlap_region || (overlap_pair(orig, q - 1) && q - 1 < i) || (
                overlap_pair(orig, q) && q < i)),
        decreases n - i,
    {
        let cur_end = t.tokens[i].end_ms;
        let next_start = t.tokens[i + 1].start_ms;
        let cur_speaker = t.tokens[i].speaker;
        let next_speaker = t.tokens[i + 1].speaker;
        if cur_speaker != next_speaker {
            let gap = if next_start >= cur_end {
                next_start - cur_end
            } else {
                0
            };
            if gap <= OVERLAP_THRESHOLD_MS || next_start < cur_end {
                assert(overlap_pair(orig, i as int)) by {
                    assert(same_token_mod_overlap(t.tokens@[i as int], orig[i as int]));
                    assert(same_token_mod_overlap(t.tokens@[i + 1], orig[i + 1]));
                }
                t.tokens[i].is_overlap_region = true;
                t.tokens[i + 1].is_overlap_region = true;
            } else {
                assert(!overlap_pair(orig, i as int));
            }
        } else {
            assert(!overlap_pair(orig, i as int));
        }
        i = i + 1;
    }
    proof {
        assert forall|q: int|
            0 <= q < n implies (#[trigger] t.tokens@[q]).is_overlap_region == marked_overlap(
            orig,
            q,
        ) by {
            if i + 1 >= n {
                // Every pair index up to n - 2 was processed.
                assert(overlap_pair(orig, q) ==> q + 1 < n as int);
            }
        }
        lemma_wf_preserved_mod_overlap(orig, t.tokens@, t.turns@, t.speakers@);
    }
}

/// Copy a vector of indices.
pub fn clone_indices(v: &Vec<usize>) -> (r: Vec<usize>)
    ensures
        r@ == v@,
{
    let n = v.len();
    let mut r: Vec<usize> = Vec::new();
    let mut i: usize = 0;
    while i < n
        invariant
            0 <= i <= n,
            n == v@.len(),
            r@ == v@.take(i as int),
        decreases n - i,
    {
        r.push(v[i]);
        proof {
            assert(v@.take(i as int).push(v@[i as int]) =~= v@.take(i + 1));
        }
        i = i + 1;
    }
    proof {
        assert(v@.take(n as int) =~= v@);
    }
    r
}

/// Positions of the turns shorter than `min_ms`, in order.
pub open spec fn short_turn_ids(turns: Seq<Turn>, min_ms: int) -> Seq<int> {
    sel_idxs(|k: int| 0 <= k < turns.len() && turns[k].end_ms - turns[k].start_ms < min_ms, turns.len() as int)
}

/// `z` is the short-turn zone for turn `k`: the turn's own time range and
/// token indices.
pub open spec fn zone_matches_short(z: ProblemZone, turns: Seq<Turn>, k: int) -> bool {
    &&& z.problem_type == ProblemType::ShortTurn
    &&& z.start_ms == turns[k].start_ms
    &&& z.end_ms == turns[k].end_ms
    &&& z.token_indices@ == turns[k].token_indices@
}

/// Emit one zone for every turn shorter than the configured minimum.
pub fn detect_short_turns(t: &TokenizedTranscript, config: &ProblemZoneConfig) -> (r: Vec<
    ProblemZone,
>)
    requires
        t.wf(),
    ensures
        r@.len() == short_turn_ids(t.turns@, config.min_turn_duration_ms as int).len(),
        forall|j: int|
            0 <= j < r@.len() ==> zone_matches_short(
                #[trigger] r@[j],
                t.turns@,
                short_turn_ids(t.turns@, config.min_turn_duration_ms as int)[j],
            ),
{
    let ghost p = |k: int|
        0 <= k < t.turns@.len() && t.turns@[k].end_ms - t.turns@[k].start_ms
            < config.min_turn_duration_ms as int;
    let n = t.turns.len();
    let mut r: Vec<ProblemZone> = Vec::new();
    let mut k: usize = 0;
    while k < n
        invariant
            0 <= k <= n,
            n == t.turns@.len(),
            t.wf(),
            p == (|k: int|
                0 <= k < t.turns@.len() && t.turns@[k].end_ms - t.turns@[k].start_ms
                    < config.min_turn_duration_ms as int),
            r@.len() == sel_idxs(p, k as int).len(),
            forall|j: int|
                0 <= j < r@.len() ==> zone_matches_short(
                    #[trigger] r@[j],
                    t.turns@,
                    sel_idxs(p, k as int)[j],
                ),
        decreases n - k,
    {
        let turn = &t.turns[k];
        proof {
            assert(crate::models::turn_wf_at(t.tokens@, t.turns@, k as int));
            let first = turn.token_indices@[0];
            let last = turn.token_indices@[turn.token_indices@.len() - 1];
            assert(t.tokens@[first as int].start_ms <= t.tokens@[last as int].start_ms);
            assert(t.tokens@[last as int].time_wf());
        }
        if turn.duration_ms() < config.min_turn_duration_ms {
            let zone = ProblemZone {
                start_ms: turn.start_ms,
                end_ms: turn.end_ms,
                problem_type: ProblemType::ShortTurn,
                token_indices: clone_indices(&turn.token_indices),
            };
            r.push(zone);
            proof {
                assert(sel_idxs(p, k + 1) == sel_idxs(p, k as int).push(k as int));
            }
        } else {
            proof {
                assert(sel_idxs(p, k + 1) == sel_idxs(p, k as int));
            }
        }
        k = k + 1;
    }
    r
}

/// The maximal runs of consecutive tokens whose speaker confidence is below
/// `min`, as inclusive index pairs, in order.
pub open spec fn low_runs(tokens: Seq<Token>, min: int, upto: int) -> Seq<(int, int)>
    decreases upto,
{
    if upto <= 0 {
        Seq::empty()
    } else {
        let rest = low_runs(tokens, min, upto - 1);
        if tokens[upto - 1].speaker_conf < min {
            if upto - 1 > 0 && tokens[upto - 2].speaker_conf < min {
                rest.update(rest.len() - 1, (rest[rest.len() - 1].0, upto - 1))
            } else {
                rest.push((upto - 1, upto - 1))
            }
        } else {
            rest
        }
    }
}

/// `z` is the low-confidence zone for the token run `[a, b]`.
pub open spec fn zone_matches_low(z: ProblemZone, tokens: Seq<Token>, a: int, b: int) -> bool {
    &&& z.problem_type == ProblemType::LowConfidence
    &&& 0 <= a <= b < tokens.len()
    &&& z.start_ms == tokens[a].start_ms
    &&& z.end_ms == tokens[b].end_ms
    &&& z.token_indices@.len() == b - a + 1
    &&& forall|m: int| 0 <= m < z.token_indices@.len() ==> #[trigger] z.token_indices@[m] == a + m
}

/// Emit one zone for every maximal run of tokens with speaker confidence
/// below the configured floor.
pub fn detect_low_confidence(t: &TokenizedTranscript, config: &ProblemZoneConfig) -> (r: Vec<
    ProblemZone,
>)
    requires
        t.wf(),
    ensures
        ({
            let runs = low_runs(t.tokens@, config.min_speaker_confidence as int, t.tokens@.len() as int);
            &&& r@.len() == runs.len()
            &&& forall|j: int|
                0 <= j < r@.len() ==> zone_matches_low(#[trigger] r@[j], t.tokens@, runs[j].0, runs[j].1)
        }),
{
    let ghost min = config.min_speaker_confidence as int;
    let n = t.tokens.len();
    let mut r: Vec<ProblemZone> = Vec::new();
    let mut run_start: usize = 0;
    let mut in_run: bool = false;
    let mut i: usize = 0;
    while i < n
        invariant
            0 <= i <= n,
            n == t.tokens@.len(),
            t.wf(),
            min == config.min_speaker_confidence as int,
            ({
                let runs = low_runs(t.tokens@, min, i as int);
                if in_run {
                    &&& i > 0
                    &&& run_start < i
                    &&& runs.len() == r@.len() + 1
                    &&& runs[runs.len() - 1] == (run_start as int, i - 1)
                    &&& forall|j: int|
                        0 <= j < r@.len() ==> zone_matches_low(
                            #[trigger] r@[j],
                            t.tokens@,
                            runs[j].0,
                            runs[j].1,
                        )
                    &&& t.tokens@[i - 1].speaker_conf < min
                } else {
                    &&& runs.len() == r@.len()
                    &&& forall|j: int|
                        0 <= j < r@.len() ==> zone_matches_low(
                            #[trigger] r@[j],
                            t.tokens@,
                            runs[j].0,
                            runs[j].1,
                        )
                    &&& (i > 0 ==> t.tokens@[i - 1].speaker_conf >= min)
                }
            }),
        decreases n - i,
    {
        let low = t.tokens[i].speaker_conf < config.min_speaker_confidence;
        if low {
            if !in_run {
                run_start = i;
                in_run = true;
            }
        } else {
            if in_run {
                let zone = ProblemZone {
                    start_ms: t.tokens[run_start].start_ms,
                    end_ms: t.tokens[i - 1].end_ms,
                    problem_type: ProblemType::LowConfidence,
                    token_indices: index_range(run_start, i),
                };
                r.push(zone);
                in_run = false;
            }
        }
        i = i + 1;
    }
    if in_run {
        let zone = ProblemZone {
            start_ms: t.tokens[run_start].start_ms,
            end_ms: t.tokens[n - 1].end_ms,
            problem_type: ProblemType::LowConfidence,
            token_indices: index_range(run_start, n),
        };
        r.push(zone);
    }
    r
}

/// Indices of the tokens whose start time lies in `[lo, hi)`, in order.
pub open spec fn span_idxs(tokens: Seq<Token>, lo: int, hi: int) -> Seq<int> {
    sel_idxs(|i: int| 0 <= i < tokens.len() && lo <= tokens[i].start_ms < hi, tokens.len() as int)
}

/// Number of speaker changes between consecutive entries of `idxs`.
pub open spec fn count_switches_on(tokens: Seq<Token>, idxs: Seq<int>) -> int
    decreases idxs.len(),
{
    if idxs.len() < 2 {
        0
    } else {
        count_switches_on(tokens, idxs.drop_last()) + if tokens[idxs[idxs.len() - 2]].speaker
            != tokens[idxs[idxs.len() - 1]].speaker {
            1int
        } else {
            0int
        }
    }
}

/// A jitter span starting at `w` qualifies as a zone: at least two tokens
/// start inside it and their speaker changes exceed the limit.
pub open spec fn jitter_qualifies(tokens: Seq<Token>, max_switches: int, w: int) -> bool {
    let idxs = span_idxs(tokens, w, w + JITTER_SPAN_MS);
    idxs.len() >= 2 && count_switches_on(tokens, idxs) > max_switches
}

/// The qualifying jitter span starts at or after `w`, stepping by half a span
/// until the transcript's total duration is reached.
pub open spec fn jitter_starts(tokens: Seq<Token>, max_switches: int, w: int) -> Seq<int>
    decreases
            (if TokenizedTranscript::spec_duration_ms(tokens) - w >= 0 {
                TokenizedTranscript::spec_duration_ms(tokens) - w
            } else {
                0
            }),
{
    let dur = TokenizedTranscript::spec_duration_ms(tokens);
    if w < 0 || w >= dur {
        Seq::empty()
    } else {
        let rest = jitter_starts(tokens, max_switches, w + JITTER_STEP_MS);
        if jitter_qualifies(tokens, max_switches, w) {
            seq![w] + rest
        } else {
            rest
        }
    }
}

/// `z` is the jitter zone for the span starting at `w`: it spans from the
/// first to the last token starting inside the span and lists their indices.
pub open spec fn zone_matches_jitter(z: ProblemZone, tokens: Seq<Token>, w: int) -> bool {
    let idxs = span_idxs(tokens, w, w + JITTER_SPAN_MS);
    &&& z.problem_type == ProblemType::SpeakerJitter
    &&& idxs.len() >= 2
    &&& 0 <= idxs[0] < tokens.len()
    &&& 0 <= idxs[idxs.len() - 1] < tokens.len()
    &&& z.start_ms == tokens[idxs[0]].start_ms
    &&& z.end_ms == tokens[idxs[idxs.len() - 1]].end_ms
    &&& seq_matches(z.token_indices@, idxs)
}

/// Collect the indices of the tokens whose start time lies in `[lo, hi)`.
fn collect_span_idxs(t: &TokenizedTranscript, lo: u64, hi: u64) -> (r: Vec<usize>)
    ensures
        seq_matches(r@, span_idxs(t.tokens@, lo as int, hi as int)),
{
    let ghost p = |i: int|
        0 <= i < t.tokens@.len() && lo as int <= t.tokens@[i].start_ms < hi as int;
    let n = t.tokens.len();
    let mut r: Vec<usize> = Vec::new();
    let mut i: usize = 0;
    while i < n
        invariant
            0 <= i <= n,
            n == t.tokens@.len(),
            p == (|i: int|
                0 <= i < t.tokens@.len() && lo as int <= t.tokens@[i].start_ms < hi as int),
            seq_matches(r@, sel_idxs(p, i as int)),
        decreases n - i,
    {
        if t.tokens[i].start_ms >= lo && t.tokens[i].start_ms < hi {
            r.push(i);
            proof {
                assert(sel_idxs(p, i + 1) == sel_idxs(p, i as int).push(i as int));
            }
        } else {
            proof {
                assert(sel_idxs(p, i + 1) == sel_idxs(p, i as int));
            }
        }
        i = i + 1;
    }
    r
}

/// Count the speaker changes along the token indices in `idxs`.
fn count_switches(t: &TokenizedTranscript, idxs: &Vec<usize>) -> (r: u64)
    requires
        forall|j: int| 0 <= j < idxs@.len() ==> #[trigger] idxs@[j] < t.tokens@.len(),
    ensures
        r == count_switches_on(t.tokens@, idxs@.map_values(|x: usize| x as int)),
{
    let ghost full = idxs@.map_values(|x: usize| x as int);
    let n = idxs.len();
    let mut switches: u64 = 0;
    let mut j: usize = 1;
    if n < 2 {
        return 0;
    }
    while j < n
        invariant
            1 <= j <= n,
            n == idxs@.len(),
            n >= 2,
            full == idxs@.map_values(|x: usize| x as int),
            forall|q: int| 0 <= q < idxs@.len() ==> #[trigger] idxs@[q] < t.tokens@.len(),
            switches == count_switches_on(t.tokens@, full.take(j as int)),
            switches < j,
        decreases n - j,
    {
        let a = idxs[j - 1];
        let b = idxs[j];
        let changed = t.tokens[a].speaker != t.tokens[b].speaker;
        proof {
            let pre = full.take(j as int);
            let cur = full.take(j + 1);
            assert(cur.drop_last() =~= pre);
            assert(cur[cur.len() - 2] == full[j - 1] && cur[cur.len() - 1] == full[j as int]);
            assert(full[j - 1] == idxs@[j - 1] as int && full[j as int] == idxs@[j as int] as int);
        }
        if changed {
            switches = switches + 1;
        }
        j = j + 1;
    }
    proof {
        assert(full.take(n as int) =~= full);
    }
    switches
}

/// Slide a half-overlapping ten-second span over the transcript and emit a
/// jitter zone wherever the speaker switch count exceeds the limit.
pub fn detect_speaker_jitter(t: &TokenizedTranscript, config: &ProblemZoneConfig) -> (r: Vec<
    ProblemZone,
>)
    requires
        t.wf(),
    ensures
        ({
            let starts = jitter_starts(t.tokens@, config.max_switches_per_10s as int, 0);
            &&& r@.len() == starts.len()
            &&& forall|j: int|
                0 <= j < r@.len() ==> zone_matches_jitter(#[trigger] r@[j], t.tokens@, starts[j])
        }),
{
    let ghost max_sw = config.max_switches_per_10s as int;
    let mut r: Vec<ProblemZone> = Vec::new();
    if t.tokens.len() == 0 {
        return r;
    }
    let total_duration = t.duration_ms();
    proof {
        assert(t.tokens@[t.tokens@.len() - 1].time_wf());
        let starts = jitter_starts(t.tokens@, max_sw, 0);
        assert(starts.take(0) + starts =~= starts);
    }
    let mut window_start: u64 = 0;
    while window_start < total_duration
        invariant
            t.wf(),
            t.tokens@.len() > 0,
            max_sw == config.max_switches_per_10s as int,
            total_duration == TokenizedTranscript::spec_duration_ms(t.tokens@),
            total_duration <= crate::models::MAX_TIME_MS,
            window_start <= total_duration + JITTER_STEP_MS,
            ({
                let starts = jitter_starts(t.tokens@, max_sw, 0);
                let remaining = jitter_starts(t.tokens@, max_sw, window_start as int);
                &&& starts == starts.take(r@.len() as int) + remaining
                &&& r@.len() <= starts.len()
                &&& forall|j: int|
                    0 <= j < r@.len() ==> zone_matches_jitter(
                        #[trigger] r@[j],
                        t.tokens@,
                        starts[j],
                    )
            }),
        decreases
                (if window_start <= total_duration {
                    total_duration - window_start
                } else {
                    0int
                }),
    {
        let window_end = window_start + JITTER_SPAN_MS;
        let idxs = collect_span_idxs(t, window_start, window_end);
        let ghost sidxs = span_idxs(t.tokens@, window_start as int, window_end as int);
        proof {
            lemma_sel_idxs(
                |i: int|
                    0 <= i < t.tokens@.len() && window_start as int <= t.tokens@[i].start_ms
                        < window_end as int,
                t.tokens@.len() as int,
            );
            assert(idxs@.map_values(|x: usize| x as int) =~= sidxs);
        }
        if idxs.len() >= 2 {
            let switches = count_switches(t, &idxs);
            if switches > config.max_switches_per_10s as u64 {
                let first_idx = idxs[0];
                let last_idx = idxs[idxs.len() - 1];
                let zone = ProblemZone {
                    start_ms: t.tokens[first_idx].start_ms,
                    end_ms: t.tokens[last_idx].end_ms,
                    problem_type: ProblemType::SpeakerJitter,
                    token_indices: idxs,
                };
                proof {
                    assert(jitter_qualifies(t.tokens@, max_sw, window_start as int));
                    let starts = jitter_starts(t.tokens@, max_sw, 0);
                    let remaining = jitter_starts(t.tokens@, max_sw, window_start as int);
                    assert(remaining == seq![window_start as int] + jitter_starts(
                        t.tokens@,
                        max_sw,
                        window_start as int + JITTER_STEP_MS,
                    ));
                    assert(starts[r@.len() as int] == window_start as int);
                    assert(starts.take(r@.len() as int + 1) =~= starts.take(r@.len() as int) + seq![
                        window_start as int,
                    ]);
                    assert(starts =~= starts.take(r@.len() as int + 1) + jitter_starts(
                        t.tokens@,
                        max_sw,
                        window_start as int + JITTER_STEP_MS,
                    ));
                }
                r.push(zone);
            } else {
                proof {
                    assert(!jitter_qualifies(t.tokens@, max_sw, window_start as int));
                }
            }
        } else {
            proof {
                assert(!jitter_qualifies(t.tokens@, max_sw, window_start as int));
            }
        }
        window_start = window_start + JITTER_STEP_MS;
    }
    proof {
        let starts = jitter_starts(t.tokens@, max_sw, 0);
        assert(jitter_starts(t.tokens@, max_sw, window_start as int) =~= Seq::<int>::empty());
        assert(starts =~= starts.take(r@.len() as int));
    }
    r
}


/// Start of the collar around overlap token `o`: its start time minus the
/// proximity, clamped at zero.
pub open spec fn oa_zone_start(tokens: Seq<Token>, prox: int, o: int) -> int {
    if tokens[o].start_ms - prox >= 0 {
        tokens[o].start_ms - prox
    } else {
        0
    }
}

/// End of the collar around overlap token `o`: its end time plus the proximity.
pub open spec fn oa_zone_end(tokens: Seq<Token>, prox: int, o: int) -> int {
    tokens[o].end_ms + prox
}

/// Indices of the non-overlap tokens whose time interval touches the collar
/// around overlap token `o`.
pub open spec fn oa_affected(tokens: Seq<Token>, prox: int, o: int) -> Seq<int> {
    sel_idxs(
        |i: int|
            0 <= i < tokens.len() && !tokens[i].is_overlap_region && tokens[i].end_ms
                >= oa_zone_start(tokens, prox, o) && tokens[i].start_ms <= oa_zone_end(
                tokens,
                prox,
                o,
            ),
        tokens.len() as int,
    )
}

/// The overlap tokens whose collar touches at least one non-overlap token.
pub open spec fn oa_origins(tokens: Seq<Token>, prox: int) -> Seq<int> {
    sel_idxs(
        |o: int|
            0 <= o < tokens.len() && tokens[o].is_overlap_region && oa_affected(
                tokens,
                prox,
                o,
            ).len() > 0,
        tokens.len() as int,
    )
}

/// `z` is the overlap-adjacent zone for overlap token `o`.
pub open spec fn zone_matches_oa(z: ProblemZone, tokens: Seq<Token>, prox: int, o: int) -> bool {
    &&& z.problem_type == ProblemType::OverlapAdjacent
    &&& z.start_ms == oa_zone_start(tokens, prox, o)
    &&& z.end_ms == oa_zone_end(tokens, prox, o)
    &&& seq_matches(z.token_indices@, oa_affected(tokens, prox, o))
}

/// Emit one zone per overlap token whose proximity collar touches non-overlap
/// tokens, listing the touched tokens.
pub fn detect_overlap_adjacent(t: &TokenizedTranscript, config: &ProblemZoneConfig) -> (r: Vec<
    ProblemZone,
>)
    requires
        t.wf(),
        config.wf(),
    ensures
        ({
            let origins = oa_origins(t.tokens@, config.overlap_proximity_ms as int);
            &&& r@.len() == origins.len()
            &&& forall|j: int|
                0 <= j < r@.len() ==> zone_matches_oa(
                    #[trigger] r@[j],
                    t.tokens@,
                    config.overlap_proximity_ms as int,
                    origins[j],
                )
        }),
{
    let ghost prox = config.overlap_proximity_ms as int;
    let ghost p_outer = |o: int|
        0 <= o < t.tokens@.len() && t.tokens@[o].is_overlap_region && oa_affected(
            t.tokens@,
            prox,
            o,
        ).len() > 0;
    let n = t.tokens.len();
    let mut r: Vec<ProblemZone> = Vec::new();
    let mut o: usize = 0;
    while o < n
        invariant
            0 <= o <= n,
            n == t.tokens@.len(),
            t.wf(),
            config.wf(),
            prox == config.overlap_proximity_ms as int,
            p_outer == (|o: int|
                0 <= o < t.tokens@.len() && t.tokens@[o].is_overlap_region && oa_affected(
                    t.tokens@,
                    prox,
                    o,
                ).len() > 0),
            r@.len() == sel_idxs(p_outer, o as int).len(),
            forall|j: int|
                0 <= j < r@.len() ==> zone_matches_oa(
                    #[trigger] r@[j],
                    t.tokens@,
                    prox,
                    sel_idxs(p_outer, o as int)[j],
                ),
        decreases n - o,
    {
        if t.tokens[o].is_overlap_region {
            proof {
                assert(t.tokens@[o as int].time_wf());
            }
            let zone_start = if t.tokens[o].start_ms >= config.overlap_proximity_ms {
                t.tokens[o].start_ms - config.overlap_proximity_ms
            } else {
                0
            };
            let zone_end = t.tokens[o].end_ms + config.overlap_proximity_ms;
            // Collect the affected non-overlap tokens.
            let ghost p_inner = |i: int|
                0 <= i < t.tokens@.len() && !t.tokens@[i].is_overlap_region && t.tokens@[i].end_ms
                    >= zone_start as int && t.tokens@[i].start_ms <= zone_end as int;
            let mut affected: Vec<usize> = Vec::new();
            let mut i: usize = 0;
            while i < n
                invariant
                    0 <= i <= n,
                    n == t.tokens@.len(),
                    zone_start as int == oa_zone_start(t.tokens@, prox, o as int),
                    zone_end as int == oa_zone_end(t.tokens@, prox, o as int),
                    prox == config.overlap_proximity_ms as int,
                    p_inner == (|i: int|
                        0 <= i < t.tokens@.len() && !t.tokens@[i].is_overlap_region
                            && t.tokens@[i].end_ms >= zone_start as int && t.tokens@[i].start_ms
                            <= zone_end as int),
                    seq_matches(affected@, sel_idxs(p_inner, i as int)),
                decreases n - i,
            {
                if !t.tokens[i].is_overlap_region && t.tokens[i].end_ms >= zone_start
                    && t.tokens[i].start_ms <= zone_end {
                    affected.push(i);
                    proof {
                        assert(sel_idxs(p_inner, i + 1) == sel_idxs(p_inner, i as int).push(
                            i as int,
                        ));
                    }
                } else {
                    proof {
                        assert(sel_idxs(p_inner, i + 1) == sel_idxs(p_inner, i as int));
                    }
                }
                i = i + 1;
            }
            proof {
                assert(sel_idxs(p_inner, n as int) =~= oa_affected(t.tokens@, prox, o as int));
            }
            if affected.len() > 0 {
                let zone = ProblemZone {
                    start_ms: zone_start,
                    end_ms: zone_end,
                    problem_type: ProblemType::OverlapAdjacent,
                    token_indices: affected,
                };
                r.push(zone);
                proof {
                    assert(sel_idxs(p_outer, o + 1) == sel_idxs(p_outer, o as int).push(o as int));
                }
            } else {
                proof {
                    assert(sel_idxs(p_outer, o + 1) == sel_idxs(p_outer, o as int));
                }
            }
        } else {
            proof {
                assert(sel_idxs(p_outer, o + 1) == sel_idxs(p_outer, o as int));
            }
        }
        o = o + 1;
    }
    r
}


/// Whether a problem type occurs in the vector.
fn contains_ptype(v: &Vec<ProblemType>, x: ProblemType) -> (r: bool)
    ensures
        r == v@.contains(x),
{
    let n = v.len();
    let mut i: usize = 0;
    while i < n
        invariant
            0 <= i <= n,
            n == v@.len(),
            forall|q: int| 0 <= q < i ==> v@[q] != x,
        decreases n - i,
    {
        if v[i] == x {
            assert(v@.contains(x)) by {
                assert(v@[i as int] == x);
            }
            return true;
        }
        i = i + 1;
    }
    false
}

/// The problem types of the zones among the first `upto` whose time range
/// intersects `[ws, we)`, deduplicated, in first-occurrence order.
pub open spec fn intersect_types(zones: Seq<ProblemZone>, ws: int, we: int, upto: int) -> Seq<
    ProblemType,
>
    decreases upto,
{
    if upto <= 0 {
        Seq::empty()
    } else {
        let rest = intersect_types(zones, ws, we, upto - 1);
        let z = zones[upto - 1];
        if z.start_ms < we && z.end_ms > ws && !rest.contains(z.problem_type) {
            rest.push(z.problem_type)
        } else {
            rest
        }
    }
}

/// Whether the window `[window_start, window_end)` intersects any problem
/// zone, and the deduplicated kinds of the zones it intersects.
pub fn check_problem_intersection(
    window_start: u64,
    window_end: u64,
    problem_zones: &Vec<ProblemZone>,
) -> (r: (bool, Vec<ProblemType>))
    ensures
        r.1@ == intersect_types(
            problem_zones@,
            window_start as int,
            window_end as int,
            problem_zones@.len() as int,
        ),
        r.0 == (r.1@.len() > 0),
{
    let n = problem_zones.len();
    let mut types: Vec<ProblemType> = Vec::new();
    let mut i: usize = 0;
    while i < n
        invariant
            0 <= i <= n,
            n == problem_zones@.len(),
            types@ == intersect_types(
                problem_zones@,
                window_start as int,
                window_end as int,
                i as int,
            ),
        decreases n - i,
    {
        let z = &problem_zones[i];
        if z.start_ms < window_end && z.end_ms > window_start {
            if !contains_ptype(&types, z.problem_type) {
                types.push(z.problem_type);
            }
        }
        i = i + 1;
    }
    (types.len() > 0, types)
}


/// The timestamp at which window generation stops: the first token's start
/// plus the transcript's total duration (the last token's end).
pub open spec fn window_limit(tokens: Seq<Token>) -> int {
    if tokens.len() == 0 {
        0
    } else {
        tokens[0].start_ms + TokenizedTranscript::spec_duration_ms(tokens)
    }
}

/// The start times of the kept (non-empty) windows beginning at or after `w`,
/// stepping by `stride` until the limit.
pub open spec fn window_starts(tokens: Seq<Token>, size: int, stride: int, w: int) -> Seq<int>
    decreases
            (if window_limit(tokens) - w >= 0 {
                window_limit(tokens) - w
            } else {
                0
            }),
{
    let step = if stride < 1 {
        1int
    } else {
        stride
    };
    if w >= window_limit(tokens) {
        Seq::empty()
    } else {
        let rest = window_starts(tokens, size, stride, w + step);
        if span_idxs(tokens, w, w + size).len() > 0 {
            seq![w] + rest
        } else {
            rest
        }
    }
}

/// The start times of all kept windows of a transcript.
pub open spec fn all_window_starts(tokens: Seq<Token>, size: int, stride: int) -> Seq<int> {
    if tokens.len() == 0 {
        Seq::empty()
    } else {
        window_starts(tokens, size, stride, tokens[0].start_ms as int)
    }
}

/// `win` is the window with identifier `id` starting at `w`: editable tokens
/// are those starting inside `[w, w + size)`, anchors cover the collars on
/// both sides, and its problem marking comes from the zones it intersects.
pub open spec fn window_matches(
    win: crate::window::Window,
    tokens: Seq<Token>,
    zones: Seq<ProblemZone>,
    size: int,
    anchor: int,
    w: int,
    id: int,
) -> bool {
    &&& win.window_id == id as u64
    &&& win.start_ms == w
    &&& win.end_ms == w + size
    &&& seq_matches(win.token_indices@, span_idxs(tokens, w, w + size))
    &&& seq_matches(
        win.anchor_prefix_indices@,
        span_idxs(
            tokens,
            if w - anchor >= 0 {
                w - anchor
            } else {
                0
            },
            w,
        ),
    )
    &&& seq_matches(win.anchor_suffix_indices@, span_idxs(tokens, w + size, w + size + anchor))
    &&& win.problem_types@ == intersect_types(zones, w, w + size, zones.len() as int)
    &&& win.is_problem_zone == (intersect_types(zones, w, w + size, zones.len() as int).len() > 0)
}

/// Build the processing windows: starting at the first token's start time,
/// advance by the stride until past the last token; keep every window that
/// holds at least one token, and mark the ones intersecting problem zones.
pub fn build_windows(
    t: &TokenizedTranscript,
    config: &crate::window::WindowConfig,
    problem_zones: &Vec<ProblemZone>,
) -> (r: crate::window::WindowSet)
    requires
        t.wf(),
        config.wf(),
    ensures
        r.wf(),
        ({
            let starts = all_window_starts(
                t.tokens@,
                config.window_size_ms as int,
                config.stride_ms as int,
            );
            &&& r.windows@.len() == starts.len()
            &&& forall|j: int|
                0 <= j < r.windows@.len() ==> window_matches(
                    #[trigger] r.windows@[j],
                    t.tokens@,
                    problem_zones@,
                    config.window_size_ms as int,
                    config.anchor_size_ms as int,
                    starts[j],
                    j,
                )
        }),
        config.filter_problem_zones ==> seq_matches(
            r.problem_window_indices@,
            sel_idxs(
                |k: int| 0 <= k < r.windows@.len() && r.windows@[k].is_problem_zone,
                r.windows@.len() as int,
            ),
        ),
        !config.filter_problem_zones ==> seq_matches(
            r.problem_window_indices@,
            sel_idxs(|k: int| 0 <= k < r.windows@.len(), r.windows@.len() as int),
        ),
{
    let ghost size = config.window_size_ms as int;
    let ghost stride = config.stride_ms as int;
    let mut windows: Vec<crate::window::Window> = Vec::new();
    if t.tokens.len() == 0 {
        let r = crate::window::WindowSet { windows, problem_window_indices: Vec::new() };
        return r;
    }
    let total_duration = t.duration_ms();
    let start_offset = t.tokens[0].start_ms;
    let limit = start_offset + total_duration;
    proof {
        assert(t.tokens@[t.tokens@.len() - 1].time_wf());
        assert(t.tokens@[0].time_wf());
        assert(limit == window_limit(t.tokens@));
        let starts = all_window_starts(t.tokens@, size, stride);
        assert(starts.take(0) + starts =~= starts);
    }
    let mut window_start: u64 = start_offset;
    while window_start < limit
        invariant
            t.wf(),
            t.tokens@.len() > 0,
            config.wf(),
            size == config.window_size_ms as int,
            stride == config.stride_ms as int,
            limit == window_limit(t.tokens@),
            limit <= 2 * crate::models::MAX_TIME_MS,
            window_start >= t.tokens@[0].start_ms,
            ({
                let starts = all_window_starts(t.tokens@, size, stride);
                let remaining = window_starts(t.tokens@, size, stride, window_start as int);
                &&& starts == starts.take(windows@.len() as int) + remaining
                &&& windows@.len() <= starts.len()
                &&& forall|j: int|
                    0 <= j < windows@.len() ==> window_matches(
                        #[trigger] windows@[j],
                        t.tokens@,
                        problem_zones@,
                        size,
                        config.anchor_size_ms as int,
                        starts[j],
                        j,
                    )
            }),
        decreases
                (if window_start <= limit {
                    limit - window_start
                } else {
                    0int
                }),
    {
        let window_end = window_start + config.window_size_ms;
        let token_indices = collect_span_idxs(t, window_start, window_end);
        let anchor_start = if window_start >= config.anchor_size_ms {
            window_start - config.anchor_size_ms
        } else {
            0
        };
        let anchor_prefix_indices = collect_span_idxs(t, anchor_start, window_start);
        let anchor_end = window_end + config.anchor_size_ms;
        let anchor_suffix_indices = collect_span_idxs(t, window_end, anchor_end);
        let (is_problem_zone, problem_types) = check_problem_intersection(
            window_start,
            window_end,
            problem_zones,
        );
        if token_indices.len() > 0 {
            let win = crate::window::Window {
                window_id: windows.len() as u64,
                start_ms: window_start,
                end_ms: window_end,
                token_indices,
                anchor_prefix_indices,
                anchor_suffix_indices,
                is_problem_zone,
                problem_types,
            };
            proof {
                let starts = all_window_starts(t.tokens@, size, stride);
                let remaining = window_starts(t.tokens@, size, stride, window_start as int);
                assert(remaining == seq![window_start as int] + window_starts(
                    t.tokens@,
                    size,
                    stride,
                    window_start as int + stride,
                ));
                assert(starts[windows@.len() as int] == window_start as int);
                assert(starts.take(windows@.len() as int + 1) =~= starts.take(
                    windows@.len() as int,
                ) + seq![window_start as int]);
                assert(starts =~= starts.take(windows@.len() as int + 1) + window_starts(
                    t.tokens@,
                    size,
                    stride,
                    window_start as int + stride,
                ));
            }
            windows.push(win);
        } else {
            proof {
                assert(window_starts(t.tokens@, size, stride, window_start as int)
                    == window_starts(t.tokens@, size, stride, window_start as int + stride));
            }
        }
        window_start = window_start + config.stride_ms;
    }
    proof {
        let starts = all_window_starts(t.tokens@, size, stride);
        assert(window_starts(t.tokens@, size, stride, window_start as int) =~= Seq::<int>::empty());
        assert(starts =~= starts.take(windows@.len() as int));
    }
    // Select the windows forwarded to the editing stage.
    let ghost p_prob = |k: int| 0 <= k < windows@.len() && windows@[k].is_problem_zone;
    let ghost p_all = |k: int| 0 <= k < windows@.len();
    let n = windows.len();
    let mut problem_window_indices: Vec<usize> = Vec::new();
    let mut k: usize = 0;
    while k < n
        invariant
            0 <= k <= n,
            n == windows@.len(),
            p_prob == (|k: int| 0 <= k < windows@.len() && windows@[k].is_problem_zone),
            p_all == (|k: int| 0 <= k < windows@.len()),
            config.filter_problem_zones ==> seq_matches(
                problem_window_indices@,
                sel_idxs(p_prob, k as int),
            ),
            !config.filter_problem_zones ==> seq_matches(
                problem_window_indices@,
                sel_idxs(p_all, k as int),
            ),
            forall|q: int|
                0 <= q < problem_window_indices@.len() ==> #[trigger] problem_window_indices@[q]
                    < windows@.len(),
        decreases n - k,
    {
        if !config.filter_problem_zones || windows[k].is_problem_zone {
            problem_window_indices.push(k);
        }
        proof {
            assert(sel_idxs(p_prob, k + 1) == if p_prob(k as int) {
                sel_idxs(p_prob, k as int).push(k as int)
            } else {
                sel_idxs(p_prob, k as int)
            });
            assert(sel_idxs(p_all, k + 1) == sel_idxs(p_all, k as int).push(k as int));
        }
        k = k + 1;
    }
    crate::window::WindowSet { windows, problem_window_indices }
}


/// The zone list produced by running the four detectors in order: jitter,
/// short turns, overlap-adjacent, low confidence.
pub open spec fn zones_layout(
    r: Seq<ProblemZone>,
    tokens: Seq<Token>,
    turns: Seq<Turn>,
    config: ProblemZoneConfig,
) -> bool {
    let jit = jitter_starts(tokens, config.max_switches_per_10s as int, 0);
    let st = short_turn_ids(turns, config.min_turn_duration_ms as int);
    let origins = oa_origins(tokens, config.overlap_proximity_ms as int);
    let runs = low_runs(tokens, config.min_speaker_confidence as int, tokens.len() as int);
    &&& r.len() == jit.len() + st.len() + origins.len() + runs.len()
    &&& forall|j: int| 0 <= j < jit.len() ==> zone_matches_jitter(#[trigger] r[j], tokens, jit[j])
    &&& forall|j: int|
        0 <= j < st.len() ==> zone_matches_short(#[trigger] r[jit.len() + j], turns, st[j])
    &&& forall|j: int|
        0 <= j < origins.len() ==> zone_matches_oa(
            #[trigger] r[jit.len() + st.len() + j],
            tokens,
            config.overlap_proximity_ms as int,
            origins[j],
        )
    &&& forall|j: int|
        0 <= j < runs.len() ==> zone_matches_low(
            #[trigger] r[jit.len() + st.len() + origins.len() + j],
            tokens,
            runs[j].0,
            runs[j].1,
        )
}

/// Run all four problem-zone detectors and concatenate their zones.
pub fn detect_problem_zones(t: &TokenizedTranscript, config: &ProblemZoneConfig) -> (r: Vec<
    ProblemZone,
>)
    requires
        t.wf(),
        config.wf(),
    ensures
        zones_layout(r@, t.tokens@, t.turns@, *config),
{
    let mut zones = detect_speaker_jitter(t, config);
    let mut short = detect_short_turns(t, config);
    let mut oa = detect_overlap_adjacent(t, config);
    let mut low = detect_low_confidence(t, config);
    let ghost zjit = zones@;
    let ghost zshort = short@;
    let ghost zoa = oa@;
    let ghost zlow = low@;
    zones.append(&mut short);
    zones.append(&mut oa);
    zones.append(&mut low);
    proof {
        assert(zones@ == zjit + zshort + zoa + zlow);
        assert forall|j: int| 0 <= j < zshort.len() implies #[trigger] zones@[zjit.len() + j]
            == zshort[j] by {}
        assert forall|j: int|
            0 <= j < zoa.len() implies #[trigger] zones@[zjit.len() + zshort.len() + j]
            == zoa[j] by {}
        assert forall|j: int|
            0 <= j < zlow.len() implies #[trigger] zones@[zjit.len() + zshort.len() + zoa.len()
            + j] == zlow[j] by {}
    }
    zones
}

/// Result of the normalization stage.
pub struct NormalizationResult {
    /// A copy of the transcript with overlap regions marked.
    pub transcript: TokenizedTranscript,
    /// The generated processing windows.
    pub windows: crate::window::WindowSet,
    /// All detected problem zones.
    pub problem_zones: Vec<ProblemZone>,
}

/// Normalization: mark overlap regions on the tokens, detect problem zones,
/// and build the processing windows.  Only overlap flags change on the
/// transcript; the result carries a copy of it along with zones and windows.
pub fn normalize(
    t: &mut TokenizedTranscript,
    window_config: &crate::window::WindowConfig,
    problem_config: &ProblemZoneConfig,
) -> (r: NormalizationResult)
    requires
        old(t).wf(),
        window_config.wf(),
        problem_config.wf(),
    ensures
        final(t).wf(),
        final(t).tokens@.len() == old(t).tokens@.len(),
        final(t).turns == old(t).turns,
        final(t).speakers == old(t).speakers,
        forall|i: int|
            0 <= i < final(t).tokens@.len() ==> same_token_mod_overlap(
                #[trigger] final(t).tokens@[i],
                old(t).tokens@[i],
            ),
        forall|i: int|
            0 <= i < final(t).tokens@.len() ==> (#[trigger] final(t).tokens@[i]).is_overlap_region
                == marked_overlap(old(t).tokens@, i),
        crate::models::transcript_like(r.transcript, *final(t)),
        zones_layout(r.problem_zones@, final(t).tokens@, final(t).turns@, *problem_config),
        r.windows.wf(),
        ({
            let starts = all_window_starts(
                final(t).tokens@,
                window_config.window_size_ms as int,
                window_config.stride_ms as int,
            );
            &&& r.windows.windows@.len() == starts.len()
            &&& forall|j: int|
                0 <= j < r.windows.windows@.len() ==> window_matches(
                    #[trigger] r.windows.windows@[j],
                    final(t).tokens@,
                    r.problem_zones@,
                    window_config.window_size_ms as int,
                    window_config.anchor_size_ms as int,
                    starts[j],
                    j,
                )
        }),
        window_config.filter_problem_zones ==> seq_matches(
            r.windows.problem_window_indices@,
            sel_idxs(
                |k: int| 0 <= k < r.windows.windows@.len() && r.windows.windows@[k].is_problem_zone,
                r.windows.windows@.len() as int,
            ),
        ),
        !window_config.filter_problem_zones ==> seq_matches(
            r.windows.problem_window_indices@,
            sel_idxs(|k: int| 0 <= k < r.windows.windows@.len(), r.windows.windows@.len() as int),
        ),
{
    detect_overlap_regions(t);
    let problem_zones = detect_problem_zones(t, problem_config);
    let windows = build_windows(t, window_config, &problem_zones);
    let transcript = t.deep_clone();
    NormalizationResult { transcript, windows, problem_zones }
}

} // verus!
