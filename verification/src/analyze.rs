use vstd::prelude::*;

use crate::models::{Token, TokenizedTranscript, Turn};
use crate::select::{sel_idxs, sum_over};
use crate::window::{ProblemType, ProblemZone};

verus! {

/// How many zones of each kind a zone list holds: jitter, short turn,
/// overlap-adjacent, low confidence.
pub open spec fn zone_kind_count(zones: Seq<ProblemZone>, kind: ProblemType) -> int {
    sel_idxs(|z: int| 0 <= z < zones.len() && zones[z].problem_type == kind, zones.len() as int).len() as int
}

/// Count the zones of one kind.
pub fn count_zone_kind(zones: &Vec<ProblemZone>, kind: ProblemType) -> (r: u64)
    ensures
        r as int == zone_kind_count(zones@, kind),
{
    let ghost p = |z: int| 0 <= z < zones@.len() && zones@[z].problem_type == kind;
    let n = zones.len();
    let mut count: u64 = 0;
    let mut z: usize = 0;
    while z < n
        invariant
            0 <= z <= n,
            n == zones@.len(),
            p == (|z: int| 0 <= z < zones@.len() && zones@[z].problem_type == kind),
            count as int == sel_idxs(p, z as int).len(),
            count <= z,
        decreases n - z,
    {
        if zones[z].problem_type == kind {
            count = count + 1;
            proof {
                assert(sel_idxs(p, z + 1) == sel_idxs(p, z as int).push(z as int));
            }
        } else {
            proof {
                assert(sel_idxs(p, z + 1) == sel_idxs(p, z as int));
            }
        }
        z = z + 1;
    }
    count
}

/// A summary of one speaker's share of the transcript.
pub struct SpeakerSummary {
    /// Number of the speaker's tokens.
    pub word_count: u64,
    /// Number of the speaker's turns.
    pub turn_count: u64,
    /// Average duration of the speaker's turns, in milliseconds (0 with no
    /// turns).
    pub avg_turn_duration_ms: u64,
    /// Average speaker confidence of the speaker's tokens, in thousandths
    /// (0 with no tokens).
    pub avg_confidence: u64,
}

/// The positions of the speaker's tokens.
pub open spec fn sp_token_ids(tokens: Seq<Token>, spk: u32) -> Seq<int> {
    sel_idxs(|i: int| 0 <= i < tokens.len() && tokens[i].speaker == spk, tokens.len() as int)
}

/// The positions of the speaker's turns.
pub open spec fn sp_turn_ids(turns: Seq<Turn>, spk: u32) -> Seq<int> {
    sel_idxs(|k: int| 0 <= k < turns.len() && turns[k].speaker == spk, turns.len() as int)
}

/// The duration of turn `k`, clamped at zero.
pub open spec fn sum_dur_f(turns: Seq<Turn>) -> spec_fn(int) -> int {
    |k: int|
        if turns[k].end_ms >= turns[k].start_ms {
            turns[k].end_ms - turns[k].start_ms
        } else {
            0
        }
}

/// The speaker confidence of token `i`.
pub open spec fn sum_conf_f(tokens: Seq<Token>) -> spec_fn(int) -> int {
    |i: int| tokens[i].speaker_conf as int
}

/// Summarize one speaker: token count, turn count, average turn duration and
/// average speaker confidence (in thousandths).
pub fn speaker_summary(t: &TokenizedTranscript, spk: u32) -> (r: SpeakerSummary)
    requires
        t.wf(),
    ensures
        r.word_count as int == sp_token_ids(t.tokens@, spk).len(),
        r.turn_count as int == sp_turn_ids(t.turns@, spk).len(),
        r.avg_turn_duration_ms as int == (if sp_turn_ids(t.turns@, spk).len() == 0 {
            0int
        } else {
            sum_over(sp_turn_ids(t.turns@, spk).map_values(sum_dur_f(t.turns@)), |d: int| d) / (
            sp_turn_ids(t.turns@, spk).len() as int)
        }),
        r.avg_confidence as int == (if sp_token_ids(t.tokens@, spk).len() == 0 {
            0int
        } else {
            sum_over(sp_token_ids(t.tokens@, spk).map_values(sum_conf_f(t.tokens@)), |d: int| d)
                / (sp_token_ids(t.tokens@, spk).len() as int)
        }),
{
    let ghost p_tok = |i: int| 0 <= i < t.tokens@.len() && t.tokens@[i].speaker == spk;
    let n = t.tokens.len();
    let mut word_count: u64 = 0;
    let mut conf_sum: u128 = 0;
    let mut i: usize = 0;
    while i < n
        invariant
            0 <= i <= n,
            n == t.tokens@.len(),
            t.wf(),
            p_tok == (|i: int| 0 <= i < t.tokens@.len() && t.tokens@[i].speaker == spk),
            word_count as int == sel_idxs(p_tok, i as int).len(),
            word_count <= i,
            conf_sum as int == sum_over(
                sel_idxs(p_tok, i as int).map_values(sum_conf_f(t.tokens@)),
                |d: int| d,
            ),
            conf_sum <= (word_count as u128) * 1000,
        decreases n - i,
    {
        if t.tokens[i].speaker == spk {
            let c = t.tokens[i].speaker_conf;
            proof {
                assert(t.tokens@[i as int].time_wf());
                assert(sel_idxs(p_tok, i + 1) == sel_idxs(p_tok, i as int).push(i as int));
                let mapped = sel_idxs(p_tok, i as int).map_values(sum_conf_f(t.tokens@));
                assert(sel_idxs(p_tok, i + 1).map_values(sum_conf_f(t.tokens@)) =~= mapped.push(
                    c as int,
                ));
                assert(mapped.push(c as int).drop_last() =~= mapped);
                assert(sum_over(mapped.push(c as int), |d: int| d) == sum_over(mapped, |d: int| d)
                    + c as int);
            }
            conf_sum = conf_sum + (c as u128);
            word_count = word_count + 1;
        } else {
            proof {
                assert(sel_idxs(p_tok, i + 1) == sel_idxs(p_tok, i as int));
            }
        }
        i = i + 1;
    }
    let avg_confidence: u64 = if word_count == 0 {
        0
    } else {
        proof {
            assert(conf_sum / (word_count as u128) <= 1000) by (nonlinear_arith)
                requires
                    word_count > 0,
                    conf_sum <= (word_count as u128) * 1000,
            ;
        }
        (conf_sum / (word_count as u128)) as u64
    };

    let ghost p_turn = |k: int| 0 <= k < t.turns@.len() && t.turns@[k].speaker == spk;
    let nt = t.turns.len();
    let mut turn_count: u64 = 0;
    let mut dur_sum: u128 = 0;
    let mut k: usize = 0;
    while k < nt
        invariant
            0 <= k <= nt,
            nt == t.turns@.len(),
            t.wf(),
            p_turn == (|k: int| 0 <= k < t.turns@.len() && t.turns@[k].speaker == spk),
            turn_count as int == sel_idxs(p_turn, k as int).len(),
            turn_count <= k,
            dur_sum as int == sum_over(
                sel_idxs(p_turn, k as int).map_values(sum_dur_f(t.turns@)),
                |d: int| d,
            ),
            dur_sum <= (turn_count as u128) * (crate::models::MAX_TIME_MS as u128),
        decreases nt - k,
    {
        let turn = &t.turns[k];
        if turn.speaker == spk {
            let dur: u64 = if turn.end_ms >= turn.start_ms {
                turn.end_ms - turn.start_ms
            } else {
                0
            };
            proof {
                assert(crate::models::turn_wf_at(t.tokens@, t.turns@, k as int));
                let last = turn.token_indices@[turn.token_indices@.len() - 1];
                assert(t.tokens@[last as int].time_wf());
                assert(dur <= crate::models::MAX_TIME_MS);
                assert(sel_idxs(p_turn, k + 1) == sel_idxs(p_turn, k as int).push(k as int));
                let mapped = sel_idxs(p_turn, k as int).map_values(sum_dur_f(t.turns@));
                assert(sel_idxs(p_turn, k + 1).map_values(sum_dur_f(t.turns@)) =~= mapped.push(
                    dur as int,
                ));
                assert(mapped.push(dur as int).drop_last() =~= mapped);
                assert(sum_over(mapped.push(dur as int), |d: int| d) == sum_over(
                    mapped,
                    |d: int| d,
                ) + dur as int);
                assert(((turn_count + 1) as u128) * (crate::models::MAX_TIME_MS as u128) == (
                turn_count as u128) * (crate::models::MAX_TIME_MS as u128) + (
                crate::models::MAX_TIME_MS as u128)) by (nonlinear_arith);
            }
            dur_sum = dur_sum + (dur as u128);
            turn_count = turn_count + 1;
        } else {
            proof {
                assert(sel_idxs(p_turn, k + 1) == sel_idxs(p_turn, k as int));
            }
        }
        k = k + 1;
    }
    let avg_turn_duration_ms: u64 = if turn_count == 0 {
        0
    } else {
        proof {
            assert(dur_sum / (turn_count as u128) <= crate::models::MAX_TIME_MS as u128)
                by (nonlinear_arith)
                requires
                    turn_count > 0,
                    dur_sum <= (turn_count as u128) * (crate::models::MAX_TIME_MS as u128),
            ;
        }
        (dur_sum / (turn_count as u128)) as u64
    };

    SpeakerSummary { word_count, turn_count, avg_turn_duration_ms, avg_confidence }
}

} // verus!
