use vstd::prelude::*;

use crate::heuristics::{HeuristicsConfig, HeuristicsResult};
use crate::models::{
    same_token_mod_label, tokens_wf, Token, TokenizedTranscript, CONF_UNIT, MAX_TIME_MS,
};
use crate::select::{lemma_sel_idxs, sel_idxs, seq_matches};
use crate::turns::rebuild_turns;

verus! {

/// Floor scores are kept in thousandths; 1000 is the ceiling enforced by
/// normalization.
pub const FLOOR_SCORE_UNIT: u64 = 1000;

/// Speaker confidence (in thousandths) at or above which the floor-holding
/// rule leaves a token alone.
pub const FLOOR_CONF_SKIP: u32 = 800;

/// A decayed score: the rational approximation `s / (1 + lambda * dt)`, with
/// `lambda` in thousandths per second and `dt` in milliseconds, computed in
/// fixed point.  Approximates exponential decay, falls monotonically with
/// `dt`, and maps 0 to 0.
pub open spec fn decayed(s: int, lambda: int, dt: int) -> int {
    s * 1000000 / (1000000 + lambda * dt)
}

/// The ghost model of the floor state: per-speaker scores in thousandths, in
/// insertion order, and the time of the last update.
pub struct FloorModel {
    /// One entry per speaker seen so far.
    pub pairs: Seq<(u32, int)>,
    /// Time of the last update, in milliseconds.
    pub time: int,
}

/// Whether `spk` has an entry.
pub open spec fn has_key(pairs: Seq<(u32, int)>, spk: u32) -> bool {
    exists|w: int| 0 <= w < pairs.len() && (#[trigger] pairs[w]).0 == spk
}

/// The largest score among the entries (0 when empty).
pub open spec fn pairs_max(pairs: Seq<(u32, int)>) -> int
    decreases pairs.len(),
{
    if pairs.len() == 0 {
        0
    } else {
        let rest = pairs_max(pairs.drop_last());
        let v = pairs[pairs.len() - 1].1;
        if v > rest {
            v
        } else {
            rest
        }
    }
}

/// The scores after decay and boost, before normalization: every score
/// decayed by the elapsed time, half the token's duration (in thousandths)
/// added to its speaker, with a fresh entry for an unseen speaker.
pub open spec fn step_with_entry(
    m: FloorModel,
    lambda: int,
    speaker: u32,
    dur: int,
    ts: int,
) -> Seq<(u32, int)> {
    let dt = if ts >= m.time {
        ts - m.time
    } else {
        0
    };
    let boost = dur / 2;
    let decayed_pairs = Seq::new(
        m.pairs.len(),
        |w: int|
            (
                m.pairs[w].0,
                decayed(m.pairs[w].1, lambda, dt) + if m.pairs[w].0 == speaker {
                    boost
                } else {
                    0
                },
            ),
    );
    if has_key(m.pairs, speaker) {
        decayed_pairs
    } else {
        decayed_pairs.push((speaker, boost))
    }
}

/// One floor-state update: decay every score by the elapsed time, add half
/// the token's duration (in thousandths) to its speaker, and scale all scores
/// down when the maximum exceeds 1000.
pub open spec fn floor_step(m: FloorModel, lambda: int, speaker: u32, dur: int, ts: int) -> FloorModel {
    let with_entry = step_with_entry(m, lambda, speaker, dur, ts);
    let mx = pairs_max(with_entry);
    let normed = if mx > 1000 {
        Seq::new(with_entry.len(), |w: int| (with_entry[w].0, with_entry[w].1 * 1000 / mx))
    } else {
        with_entry
    };
    FloorModel { pairs: normed, time: ts }
}

/// The floor state after processing tokens `0 ..= i` in time order.
pub open spec fn floor_model_at(tokens: Seq<Token>, lambda: int, i: int) -> FloorModel
    decreases i + 1,
{
    if i < 0 {
        FloorModel { pairs: Seq::empty(), time: 0 }
    } else {
        floor_step(
            floor_model_at(tokens, lambda, i - 1),
            lambda,
            tokens[i].speaker,
            tokens[i].end_ms - tokens[i].start_ms,
            tokens[i].start_ms as int,
        )
    }
}

/// The best entry of the fold: highest score, smallest speaker label on ties.
pub open spec fn holder_best(pairs: Seq<(u32, int)>) -> Option<(u32, int)>
    decreases pairs.len(),
{
    if pairs.len() == 0 {
        None
    } else {
        let rest = holder_best(pairs.drop_last());
        let p = pairs[pairs.len() - 1];
        match rest {
            None => Some(p),
            Some(b) => if p.1 > b.1 || (p.1 == b.1 && p.0 < b.0) {
                Some(p)
            } else {
                Some(b)
            },
        }
    }
}

/// The floor holder of a state: the best-scoring speaker, provided its score
/// reaches `min_score`.
pub open spec fn floor_holder_of(m: FloorModel, min_score: int) -> Option<u32> {
    match holder_best(m.pairs) {
        Some(b) => if b.1 >= min_score {
            Some(b.0)
        } else {
            None
        },
        None => None,
    }
}

/// Length of the run of tokens sharing token `i`'s speaker just before it.
pub open spec fn run_before(tokens: Seq<Token>, i: int) -> int
    decreases i,
{
    if i <= 0 {
        0
    } else if tokens[i - 1].speaker == tokens[i].speaker {
        1 + run_before(tokens, i - 1)
    } else {
        0
    }
}

/// Length of the run of tokens sharing token `i`'s speaker just after it.
pub open spec fn run_after(tokens: Seq<Token>, i: int) -> int
    decreases tokens.len() - i,
{
    if i < 0 || i + 1 >= tokens.len() {
        0
    } else if tokens[i + 1].speaker == tokens[i].speaker {
        1 + run_after(tokens, i + 1)
    } else {
        0
    }
}

/// Token `i` is a rapid floor flip against holder `h`: it is not the
/// holder's, and its same-speaker run counts at most two tokens.
pub open spec fn rapid_flip(tokens: Seq<Token>, i: int, h: u32) -> bool {
    &&& tokens[i].speaker != h
    &&& 1 + run_before(tokens, i) + run_after(tokens, i) <= 2
}

/// The relabel the floor-holding rule decides for token `i`, all judged
/// against the pre-pass token sequence: `Some(h)` when the token is a
/// low-confidence rapid flip sandwiched between two tokens of the floor
/// holder `h`.
pub open spec fn fh_decision(tokens: Seq<Token>, lambda: int, min_score: int, i: int) -> Option<
    u32,
> {
    let m = floor_model_at(tokens, lambda, i);
    match floor_holder_of(m, min_score) {
        Some(h) => {
            if tokens[i].speaker_conf < FLOOR_CONF_SKIP && rapid_flip(tokens, i, h) && 0 < i
                && i + 1 < tokens.len() && tokens[i - 1].speaker == h && tokens[i + 1].speaker
                == h {
                Some(h)
            } else {
                None
            }
        },
        None => None,
    }
}

/// The speaker token `i` carries after the floor-holding pass.
pub open spec fn fh_new_speaker(tokens: Seq<Token>, lambda: int, min_score: int, i: int) -> u32 {
    match fh_decision(tokens, lambda, min_score, i) {
        Some(h) => h,
        None => tokens[i].speaker,
    }
}

/// A low-confidence rapid flip that is not cleanly sandwiched: deferred to
/// the language model.
pub open spec fn fh_undecided(tokens: Seq<Token>, lambda: int, min_score: int, i: int) -> bool {
    let m = floor_model_at(tokens, lambda, i);
    &&& 0 <= i < tokens.len()
    &&& tokens[i].speaker_conf < FLOOR_CONF_SKIP
    &&& match floor_holder_of(m, min_score) {
        Some(h) => rapid_flip(tokens, i, h) && !(0 < i && i + 1 < tokens.len() && tokens[i
            - 1].speaker == h && tokens[i + 1].speaker == h),
        None => false,
    }
}

/// Per-speaker floor scores, evolved token by token.
pub struct FloorState {
    /// One `(speaker, score)` entry per speaker seen, in insertion order;
    /// scores in thousandths, at most 1000.
    pub scores: Vec<(u32, u64)>,
    /// Time of the last update, in milliseconds.
    pub current_time_ms: u64,
}

impl FloorState {
    /// The ghost model of this state.
    pub open spec fn view_model(self) -> FloorModel {
        FloorModel {
            pairs: Seq::new(self.scores@.len(), |w: int| (self.scores@[w].0, self.scores@[w].1 as int)),
            time: self.current_time_ms as int,
        }
    }

    /// Scores bounded by 1000 and the time in range.
    pub open spec fn wf(self) -> bool {
        &&& forall|w: int| 0 <= w < self.scores@.len() ==> (#[trigger] self.scores@[w]).1 <= 1000
        &&& self.current_time_ms <= MAX_TIME_MS
    }

    /// A fresh state: no scores, time zero.
    pub fn new() -> (r: Self)
        ensures
            r.wf(),
            r.view_model() == (FloorModel { pairs: Seq::<(u32, int)>::empty(), time: 0 }),
    {
        let r = FloorState { scores: Vec::new(), current_time_ms: 0 };
        proof {
            assert(r.view_model().pairs =~= Seq::<(u32, int)>::empty());
        }
        r
    }

    /// Fold the next token into the scores: decay, boost the speaker, and
    /// normalize back under 1000 when needed.
    pub fn update(
        &mut self,
        speaker: u32,
        duration_ms: u64,
        timestamp_ms: u64,
        config: &HeuristicsConfig,
    )
        requires
            old(self).wf(),
            duration_ms <= MAX_TIME_MS,
            timestamp_ms <= MAX_TIME_MS,
        ensures
            final(self).wf(),
            final(self).view_model() == floor_step(
                old(self).view_model(),
                config.floor_decay_per_second as int,
                speaker,
                duration_ms as int,
                timestamp_ms as int,
            ),
    {
        let ghost m0 = self.view_model();
        let ghost lambda = config.floor_decay_per_second as int;
        let ghost stepped = floor_step(m0, lambda, speaker, duration_ms as int, timestamp_ms as int);
        let dt: u64 = if timestamp_ms >= self.current_time_ms {
            timestamp_ms - self.current_time_ms
        } else {
            0
        };
        let boost: u64 = duration_ms / 2;
        proof {
            assert((config.floor_decay_per_second as u128) * (dt as u128) < 0x1_0000_0000_0000_0000_0000_0000u128)
                by (nonlinear_arith)
                requires
                    config.floor_decay_per_second <= u32::MAX,
                    dt <= u64::MAX,
            ;
        }
        let denom: u128 = 1000000u128 + (config.floor_decay_per_second as u128) * (dt as u128);
        let ghost with_entry = step_with_entry(
            m0,
            lambda,
            speaker,
            duration_ms as int,
            timestamp_ms as int,
        );

        // Decay pass, boosting the speaker's entry on the way.
        let n = self.scores.len();
        let mut decayed_scores: Vec<(u32, u64)> = Vec::new();
        let mut found = false;
        let mut i: usize = 0;
        while i < n
            invariant
                0 <= i <= n,
                n == self.scores@.len(),
                old(self).wf(),
                self == old(self),
                m0 == self.view_model(),
                lambda == config.floor_decay_per_second as int,
                dt as int == (if timestamp_ms as int >= m0.time {
                    timestamp_ms as int - m0.time
                } else {
                    0
                }),
                boost as int == duration_ms as int / 2,
                boost <= MAX_TIME_MS,
                denom == 1000000 + lambda * dt,
                decayed_scores@.len() == i,
                with_entry == step_with_entry(
                    m0,
                    lambda,
                    speaker,
                    duration_ms as int,
                    timestamp_ms as int,
                ),
                found <==> exists|w: int| 0 <= w < i && (#[trigger] m0.pairs[w]).0 == speaker,
                forall|w: int|
                    0 <= w < i ==> (#[trigger] decayed_scores@[w]).0 == m0.pairs[w].0
                        && decayed_scores@[w].1 as int == decayed(m0.pairs[w].1, lambda, dt as int) + (
                        if m0.pairs[w].0 == speaker {
                            duration_ms as int / 2
                        } else {
                            0
                        }),
                forall|w: int|
                    0 <= w < i ==> (#[trigger] decayed_scores@[w]).1 <= 1000 + boost,
            decreases n - i,
        {
            let (spk, s) = self.scores[i];
            proof {
                assert(m0.pairs[i as int] == (spk, s as int));
                assert(self.scores@[i as int].1 <= 1000);
            }
            let dec128: u128 = (s as u128) * 1000000u128 / denom;
            proof {
                let si = s as int;
                let d = denom as int;
                assert(d >= 1000000);
                assert(dec128 as int == si * 1000000 / d);
                assert(si * 1000000 / d <= si * 1000000 / 1000000) by {
                    vstd::arithmetic::div_mod::lemma_div_is_ordered_by_denominator(
                        si * 1000000,
                        1000000,
                        d,
                    );
                }
                assert(si * 1000000 / 1000000 == si) by {
                    vstd::arithmetic::div_mod::lemma_div_multiples_vanish(si, 1000000);
                }
                assert(dec128 <= s as u128);
                assert(dec128 as int == decayed(s as int, lambda, dt as int));
            }
            let dec: u64 = dec128 as u64;
            let v: u64 = if spk == speaker {
                found = true;
                dec + boost
            } else {
                dec
            };
            decayed_scores.push((spk, v));
            i = i + 1;
        }
        if !found {
            decayed_scores.push((speaker, boost));
        }
        proof {
            assert(decayed_scores@.len() == with_entry.len());
            assert forall|w: int|
                0 <= w < decayed_scores@.len() implies ((#[trigger] decayed_scores@[w]).0,
            decayed_scores@[w].1 as int) == with_entry[w] && decayed_scores@[w].1 <= 1000
                + boost by {}
        }

        // Find the maximum.
        let m = decayed_scores.len();
        let mut mx: u64 = 0;
        let mut j: usize = 0;
        while j < m
            invariant
                0 <= j <= m,
                m == decayed_scores@.len(),
                with_entry.len() == m,
                forall|w: int|
                    0 <= w < m ==> ((#[trigger] decayed_scores@[w]).0, decayed_scores@[w].1 as int)
                        == with_entry[w],
                forall|w: int| 0 <= w < m ==> (#[trigger] decayed_scores@[w]).1 <= 1000 + boost,
                boost <= MAX_TIME_MS,
                mx as int == pairs_max(with_entry.take(j as int)),
                mx <= 1000 + boost,
            decreases m - j,
        {
            let (_, v) = decayed_scores[j];
            proof {
                assert(with_entry.take(j + 1).drop_last() =~= with_entry.take(j as int));
                assert(with_entry.take(j + 1)[j as int] == with_entry[j as int]);
            }
            if v > mx {
                mx = v;
            }
            j = j + 1;
        }
        proof {
            assert(with_entry.take(m as int) =~= with_entry);
        }

        // Normalize when the maximum exceeds the unit.
        if mx > 1000 {
            let mut normed: Vec<(u32, u64)> = Vec::new();
            let mut k: usize = 0;
            while k < m
                invariant
                    0 <= k <= m,
                    m == decayed_scores@.len(),
                    with_entry.len() == m,
                    mx > 1000,
                    mx as int == pairs_max(with_entry),
                    forall|w: int|
                        0 <= w < m ==> ((#[trigger] decayed_scores@[w]).0,
                        decayed_scores@[w].1 as int) == with_entry[w],
                    normed@.len() == k,
                    forall|w: int|
                        0 <= w < k ==> ((#[trigger] normed@[w]).0, normed@[w].1 as int) == (
                        with_entry[w].0, with_entry[w].1 * 1000 / mx as int),
                    forall|w: int| 0 <= w < k ==> (#[trigger] normed@[w]).1 <= 1000,
                decreases m - k,
            {
                let (spk, v) = decayed_scores[k];
                let nv128: u128 = (v as u128) * 1000u128 / (mx as u128);
                proof {
                    let vi = v as int;
                    let mi = mx as int;
                    assert(v as int == with_entry[k as int].1);
                    assert(nv128 as int == with_entry[k as int].1 * 1000 / mi);
                    lemma_pairs_max_ge(with_entry, k as int);
                    assert(v <= mx);
                    assert(vi * 1000 <= mi * 1000) by {
                        vstd::arithmetic::mul::lemma_mul_inequality(vi, mi, 1000);
                    }
                    assert(mi * 1000 / mi == 1000) by {
                        vstd::arithmetic::div_mod::lemma_div_multiples_vanish(1000, mi);
                    }
                    assert(vi * 1000 / mi <= mi * 1000 / mi) by {
                        vstd::arithmetic::div_mod::lemma_div_is_ordered(
                            vi * 1000,
                            mi * 1000,
                            mi,
                        );
                    }
                    assert(nv128 <= 1000);
                }
                normed.push((spk, nv128 as u64));
                k = k + 1;
            }
            self.scores = normed;
        } else {
            self.scores = decayed_scores;
        }
        self.current_time_ms = timestamp_ms;
        proof {
            assert(stepped.pairs == if pairs_max(with_entry) > 1000 {
                Seq::new(
                    with_entry.len(),
                    |w: int| (with_entry[w].0, with_entry[w].1 * 1000 / pairs_max(with_entry)),
                )
            } else {
                with_entry
            });
            assert(self.view_model().pairs =~= stepped.pairs);
            assert(self.view_model() == stepped);
            assert forall|w: int|
                0 <= w < self.scores@.len() implies (#[trigger] self.scores@[w]).1 <= 1000 by {
                if pairs_max(with_entry) <= 1000 {
                    lemma_pairs_max_ge(with_entry, w);
                }
            }
        }
    }

    /// The current floor holder: the speaker with the highest score at or
    /// above `min_score` (in thousandths), smallest label on ties.
    pub fn floor_holder(&self, min_score: u32) -> (r: Option<u32>)
        ensures
            r == floor_holder_of(self.view_model(), min_score as int),
    {
        let n = self.scores.len();
        let ghost pairs = self.view_model().pairs;
        let mut best: Option<(u32, u64)> = None;
        let mut j: usize = 0;
        while j < n
            invariant
                0 <= j <= n,
                n == self.scores@.len(),
                pairs == self.view_model().pairs,
                pairs.len() == n,
                forall|w: int|
                    0 <= w < n ==> #[trigger] pairs[w] == (self.scores@[w].0, self.scores@[w].1 as int),
                match best {
                    None => holder_best(pairs.take(j as int)) is None,
                    Some(b) => holder_best(pairs.take(j as int)) == Some((b.0, b.1 as int)),
                },
            decreases n - j,
        {
            let (spk, v) = self.scores[j];
            proof {
                assert(pairs.take(j + 1).drop_last() =~= pairs.take(j as int));
                assert(pairs.take(j + 1)[j as int] == pairs[j as int]);
            }
            best = match best {
                None => Some((spk, v)),
                Some(b) => {
                    if v > b.1 || (v == b.1 && spk < b.0) {
                        Some((spk, v))
                    } else {
                        Some(b)
                    }
                },
            };
            j = j + 1;
        }
        proof {
            assert(pairs.take(n as int) =~= pairs);
        }
        match best {
            Some((spk, v)) => {
                if v >= min_score as u64 {
                    Some(spk)
                } else {
                    None
                }
            },
            None => None,
        }
    }

    /// The score of one speaker (0 when absent), in thousandths.
    pub fn get_score(&self, speaker: u32) -> (r: u64)
        ensures
            ({
                let pairs = self.view_model().pairs;
                if has_key(pairs, speaker) {
                    exists|w: int|
                        0 <= w < pairs.len() && (#[trigger] pairs[w]).0 == speaker && pairs[w].1
                            == r as int
                } else {
                    r == 0
                }
            }),
    {
        let n = self.scores.len();
        let ghost pairs = self.view_model().pairs;
        let mut j: usize = 0;
        while j < n
            invariant
                0 <= j <= n,
                n == self.scores@.len(),
                pairs == self.view_model().pairs,
                pairs.len() == n,
                forall|w: int|
                    0 <= w < n ==> #[trigger] pairs[w] == (self.scores@[w].0, self.scores@[w].1 as int),
                forall|w: int| 0 <= w < j ==> (#[trigger] pairs[w]).0 != speaker,
            decreases n - j,
        {
            if self.scores[j].0 == speaker {
                proof {
                    assert(pairs[j as int].0 == speaker);
                }
                return self.scores[j].1;
            }
            j = j + 1;
        }
        proof {
            if has_key(pairs, speaker) {
                let w = choose|w: int| 0 <= w < pairs.len() && (#[trigger] pairs[w]).0 == speaker;
                assert(false);
            }
        }
        0
    }
}

impl Default for FloorState {
    /// Same as `FloorState::new`.
    fn default() -> (r: Self)
        ensures
            r.wf(),
            r.view_model() == (FloorModel { pairs: Seq::<(u32, int)>::empty(), time: 0 }),
    {
        FloorState::new()
    }
}

/// Every entry of a pair sequence is bounded by its maximum.
proof fn lemma_pairs_max_ge(pairs: Seq<(u32, int)>, w: int)
    requires
        0 <= w < pairs.len(),
    ensures
        pairs[w].1 <= pairs_max(pairs),
    decreases pairs.len(),
{
    if w == pairs.len() - 1 {
    } else {
        lemma_pairs_max_ge(pairs.drop_last(), w);
        assert(pairs.drop_last()[w] == pairs[w]);
    }
}


/// Count the same-speaker run immediately before token `i`.
fn count_run_before(t: &TokenizedTranscript, i: usize) -> (r: u64)
    requires
        i < t.tokens@.len(),
    ensures
        r == run_before(t.tokens@, i as int),
{
    let spk = t.tokens[i].speaker;
    let mut j: usize = i;
    while j > 0 && t.tokens[j - 1].speaker == spk
        invariant
            0 <= j <= i < t.tokens@.len(),
            spk == t.tokens@[i as int].speaker,
            forall|q: int| j <= q <= i ==> #[trigger] t.tokens@[q].speaker == spk,
            run_before(t.tokens@, i as int) == (i - j) + run_before(t.tokens@, j as int),
        decreases j,
    {
        proof {
            assert(t.tokens@[j - 1].speaker == t.tokens@[j as int].speaker);
        }
        j = j - 1;
    }
    proof {
        assert(run_before(t.tokens@, j as int) == 0);
    }
    (i - j) as u64
}

/// Count the same-speaker run immediately after token `i`.
fn count_run_after(t: &TokenizedTranscript, i: usize) -> (r: u64)
    requires
        i < t.tokens@.len(),
    ensures
        r == run_after(t.tokens@, i as int),
{
    let spk = t.tokens[i].speaker;
    let n = t.tokens.len();
    let mut j: usize = i;
    while j + 1 < n && t.tokens[j + 1].speaker == spk
        invariant
            i <= j < n,
            n == t.tokens@.len(),
            spk == t.tokens@[i as int].speaker,
            forall|q: int| i <= q <= j ==> #[trigger] t.tokens@[q].speaker == spk,
            run_after(t.tokens@, i as int) == (j - i) + run_after(t.tokens@, j as int),
        decreases n - j,
    {
        proof {
            assert(t.tokens@[j + 1].speaker == t.tokens@[j as int].speaker);
        }
        j = j + 1;
    }
    proof {
        assert(run_after(t.tokens@, j as int) == 0);
    }
    (j - i) as u64
}

/// Resolve rapid floor flips: a low-confidence token that interrupts the
/// floor holder for at most two tokens and sits between two of the holder's
/// tokens is relabeled to the holder; other rapid flips are deferred to the
/// language model.  All decisions are made against the state before the pass.
pub fn apply_floor_holding(t: &mut TokenizedTranscript, config: &HeuristicsConfig) -> (r:
    HeuristicsResult)
    requires
        old(t).wf(),
    ensures
        final(t).wf(),
        final(t).tokens@.len() == old(t).tokens@.len(),
        forall|i: int|
            0 <= i < final(t).tokens@.len() ==> same_token_mod_label(
                #[trigger] final(t).tokens@[i],
                old(t).tokens@[i],
            ),
        forall|i: int|
            0 <= i < final(t).tokens@.len() ==> (#[trigger] final(t).tokens@[i]).is_overlap_region
                == old(t).tokens@[i].is_overlap_region,
        forall|i: int|
            0 <= i < final(t).tokens@.len() ==> (#[trigger] final(t).tokens@[i]).speaker
                == fh_new_speaker(
                old(t).tokens@,
                config.floor_decay_per_second as int,
                config.min_floor_score as int,
                i,
            ),
        r.needs_llm == exists|i: int|
            fh_undecided(
                old(t).tokens@,
                config.floor_decay_per_second as int,
                config.min_floor_score as int,
                i,
            ),
        seq_matches(
            r.changed_indices@,
            sel_idxs(
                |i: int|
                    0 <= i < old(t).tokens@.len() && fh_new_speaker(
                        old(t).tokens@,
                        config.floor_decay_per_second as int,
                        config.min_floor_score as int,
                        i,
                    ) != old(t).tokens@[i].speaker,
                old(t).tokens@.len() as int,
            ),
        ),
        r.tokens_relabeled == r.changed_indices@.len(),
{
    let ghost otokens = old(t).tokens@;
    let ghost lambda = config.floor_decay_per_second as int;
    let ghost minf = config.min_floor_score as int;
    let ghost p_changed = |i: int|
        0 <= i < otokens.len() && fh_new_speaker(otokens, lambda, minf, i) != otokens[i].speaker;

    // Decision pass over the untouched transcript.
    let n = t.tokens.len();
    let mut floor_state = FloorState::new();
    let mut relabels: Vec<(usize, u32)> = Vec::new();
    let mut needs_llm = false;
    let mut i: usize = 0;
    while i < n
        invariant
            0 <= i <= n,
            n == t.tokens@.len(),
            *t == *old(t),
            otokens == old(t).tokens@,
            lambda == config.floor_decay_per_second as int,
            minf == config.min_floor_score as int,
            old(t).wf(),
            floor_state.wf(),
            floor_state.view_model() == floor_model_at(otokens, lambda, i as int - 1),
            p_changed == (|i: int|
                0 <= i < otokens.len() && fh_new_speaker(otokens, lambda, minf, i)
                    != otokens[i].speaker),
            needs_llm == exists|q: int| q < i && fh_undecided(otokens, lambda, minf, q),
            relabels@.len() == sel_idxs(p_changed, i as int).len(),
            forall|w: int|
                0 <= w < relabels@.len() ==> (#[trigger] relabels@[w]).0 as int == sel_idxs(
                    p_changed,
                    i as int,
                )[w] && relabels@[w].1 == fh_new_speaker(
                    otokens,
                    lambda,
                    minf,
                    sel_idxs(p_changed, i as int)[w],
                ) && relabels@[w].0 < n,
        decreases n - i,
    {
        proof {
            assert(t.tokens@[i as int].time_wf());
        }
        let duration = t.tokens[i].duration_ms();
        let timestamp = t.tokens[i].start_ms;
        floor_state.update(t.tokens[i].speaker, duration, timestamp, config);
        proof {
            assert(floor_state.view_model() == floor_model_at(otokens, lambda, i as int));
        }
        let mut decided_new: Option<u32> = None;
        let mut undecided = false;
        if t.tokens[i].speaker_conf < FLOOR_CONF_SKIP {
            match floor_state.floor_holder(config.min_floor_score) {
                Some(holder) => {
                    if t.tokens[i].speaker != holder {
                        let rb = count_run_before(t, i);
                        let ra = count_run_after(t, i);
                        if rb <= 1 && ra <= 1 && !(rb == 1 && ra == 1) {
                            assert(rapid_flip(otokens, i as int, holder));
                            let sandwiched = i > 0 && i + 1 < n && t.tokens[i - 1].speaker
                                == holder && t.tokens[i + 1].speaker == holder;
                            if sandwiched {
                                decided_new = Some(holder);
                            } else {
                                undecided = true;
                            }
                        } else {
                            assert(!rapid_flip(otokens, i as int, holder));
                        }
                    }
                },
                None => {},
            }
        }
        match decided_new {
            Some(s) => {
                relabels.push((i, s));
                proof {
                    assert(fh_decision(otokens, lambda, minf, i as int) == Some(s));
                    assert(p_changed(i as int));
                    assert(sel_idxs(p_changed, i + 1) == sel_idxs(p_changed, i as int).push(
                        i as int,
                    ));
                    assert(!fh_undecided(otokens, lambda, minf, i as int));
                }
            },
            None => {
                proof {
                    assert(fh_decision(otokens, lambda, minf, i as int) is None);
                    assert(fh_new_speaker(otokens, lambda, minf, i as int) == otokens[
                        i as int
                    ].speaker);
                    assert(sel_idxs(p_changed, i + 1) == sel_idxs(p_changed, i as int));
                    assert(fh_undecided(otokens, lambda, minf, i as int) == undecided);
                }
                if undecided {
                    needs_llm = true;
                }
            },
        }
        i = i + 1;
    }

    // Apply the decided relabels.
    let m = relabels.len();
    let mut changed_indices: Vec<usize> = Vec::new();
    let mut w: usize = 0;
    while w < m
        invariant
            0 <= w <= m,
            m == relabels@.len(),
            n == t.tokens@.len(),
            n == otokens.len(),
            otokens == old(t).tokens@,
            lambda == config.floor_decay_per_second as int,
            minf == config.min_floor_score as int,
            old(t).wf(),
            t.turns == old(t).turns,
            t.speakers == old(t).speakers,
            p_changed == (|i: int|
                0 <= i < otokens.len() && fh_new_speaker(otokens, lambda, minf, i)
                    != otokens[i].speaker),
            relabels@.len() == sel_idxs(p_changed, n as int).len(),
            forall|q: int|
                0 <= q < relabels@.len() ==> (#[trigger] relabels@[q]).0 as int == sel_idxs(
                    p_changed,
                    n as int,
                )[q] && relabels@[q].1 == fh_new_speaker(
                    otokens,
                    lambda,
                    minf,
                    sel_idxs(p_changed, n as int)[q],
                ) && relabels@[q].0 < n,
            changed_indices@ =~= relabels@.take(w as int).map_values(|x: (usize, u32)| x.0),
            forall|q: int|
                0 <= q < n ==> same_token_mod_label(#[trigger] t.tokens@[q], otokens[q])
                    && t.tokens@[q].is_overlap_region == otokens[q].is_overlap_region
                    && t.tokens@[q].turn_id == otokens[q].turn_id,
            forall|q: int|
                0 <= q < n && !sel_idxs(p_changed, n as int).take(w as int).contains(q)
                    ==> #[trigger] t.tokens@[q].speaker == otokens[q].speaker,
            forall|v: int|
                0 <= v < w ==> #[trigger] t.tokens@[sel_idxs(p_changed, n as int)[v]].speaker
                    == fh_new_speaker(otokens, lambda, minf, sel_idxs(p_changed, n as int)[v]),
        decreases m - w,
    {
        let (idx, s) = relabels[w];
        t.tokens[idx].speaker = s;
        changed_indices.push(idx);
        proof {
            lemma_sel_idxs(p_changed, n as int);
            let sel = sel_idxs(p_changed, n as int);
            assert(relabels@[w as int].0 as int == sel[w as int]);
            assert(sel.take(w as int + 1) =~= sel.take(w as int).push(sel[w as int]));
            assert(relabels@.take(w as int + 1) =~= relabels@.take(w as int).push(
                relabels@[w as int],
            ));
            assert forall|q: int|
                0 <= q < n && !sel.take(w as int + 1).contains(q) implies #[trigger] t.tokens@[q].speaker
                == otokens[q].speaker by {
                if q != idx as int {
                    assert(!sel.take(w as int).contains(q));
                } else {
                    assert(sel.take(w as int + 1)[w as int] == q);
                    assert(sel.take(w as int + 1).contains(q));
                }
            }
            assert forall|v: int|
                0 <= v < w + 1 implies #[trigger] t.tokens@[sel[v]].speaker == fh_new_speaker(
                otokens,
                lambda,
                minf,
                sel[v],
            ) by {
                if v < w {
                    assert(sel[v] < sel[w as int]);
                    assert(sel[v] != idx as int);
                }
            }
        }
        w = w + 1;
    }

    let tokens_relabeled = changed_indices.len();
    proof {
        lemma_sel_idxs(p_changed, n as int);
        let sel = sel_idxs(p_changed, n as int);
        assert(sel.take(m as int) =~= sel);
        assert(relabels@.take(m as int) =~= relabels@);
        assert forall|q: int|
            0 <= q < n implies #[trigger] t.tokens@[q].speaker == fh_new_speaker(
            otokens,
            lambda,
            minf,
            q,
        ) by {
            if p_changed(q) {
                assert(sel.contains(q));
                let v = choose|v: int| 0 <= v < sel.len() && sel[v] == q;
                assert(t.tokens@[sel[v]].speaker == fh_new_speaker(otokens, lambda, minf, q));
            } else {
                assert(!sel.take(m as int).contains(q)) by {
                    if sel.take(m as int).contains(q) {
                        let v = choose|v: int|
                            0 <= v < sel.take(m as int).len() && sel.take(m as int)[v] == q;
                        assert(p_changed(sel[v]));
                    }
                }
            }
        }
        assert(seq_matches(changed_indices@, sel));
    }
    if tokens_relabeled > 0 {
        proof {
            assert(tokens_wf(t.tokens@)) by {
                assert forall|q: int| 0 <= q < n implies (#[trigger] t.tokens@[q]).time_wf()
                    && t.tokens@[q].token_id == q as u64 && t.tokens@[q].original_index == q by {
                    assert(same_token_mod_label(t.tokens@[q], otokens[q]));
                    assert(otokens[q].time_wf());
                }
                assert forall|a: int, b: int|
                    0 <= a <= b < n implies #[trigger] t.tokens@[a].start_ms
                    <= #[trigger] t.tokens@[b].start_ms by {
                    assert(otokens[a].start_ms <= otokens[b].start_ms);
                }
            }
        }
        let ghost pre = t.tokens@;
        rebuild_turns(t);
        proof {
            assert forall|q: int|
                0 <= q < n implies same_token_mod_label(#[trigger] t.tokens@[q], otokens[q])
                && t.tokens@[q].is_overlap_region == otokens[q].is_overlap_region
                && t.tokens@[q].speaker == fh_new_speaker(otokens, lambda, minf, q) by {
                assert(crate::models::same_token_mod_turn(t.tokens@[q], pre[q]));
                assert(same_token_mod_label(pre[q], otokens[q]));
            }
        }
    } else {
        proof {
            assert forall|q: int| 0 <= q < n implies #[trigger] t.tokens@[q] == otokens[q] by {
                assert(same_token_mod_label(t.tokens@[q], otokens[q]));
                assert(t.tokens@[q].speaker == otokens[q].speaker) by {
                    assert(t.tokens@[q].speaker == fh_new_speaker(otokens, lambda, minf, q));
                    if p_changed(q) {
                        lemma_sel_idxs(p_changed, n as int);
                        assert(sel_idxs(p_changed, n as int).contains(q));
                    }
                }
            }
            assert(t.tokens@ =~= otokens);
        }
    }
    HeuristicsResult { tokens_relabeled, changed_indices, needs_llm }
}

} // verus!
