use vstd::prelude::*;

use crate::micro_turns::{collapse_micro_turns, micro_new_speaker};
use crate::models::{same_token_mod_label, tokens_wf, Token, TokenizedTranscript};
use crate::patch::{TokenRelabel, WindowPatch};
use crate::select::{lemma_sel_idxs, lemma_sum_over_multiset, sel_idxs, sum_over};
use crate::turns::rebuild_turns;
use crate::window::{spec_proximity, Window, WindowSet};

verus! {

/// Configuration for global reconciliation.
pub struct Stage2Config {
    /// Turns shorter than this many milliseconds are absorbed when both
    /// neighbors agree.
    pub min_turn_duration_ms: u64,
    /// Soft ceiling on speaker switches per second (informational only).
    pub max_switches_per_second: u32,
    /// Speaker confidence (in thousandths) at or above which a token counts
    /// as a stable span.
    pub stable_span_confidence: u32,
    /// Number of disagreeing candidates needed to override a stable span.
    pub min_windows_for_override: usize,
}

impl Default for Stage2Config {
    /// 700 ms minimum turn, 2 switches per second, 0.8 stability threshold,
    /// override on 2 windows.
    fn default() -> (r: Self)
        ensures
            r.min_turn_duration_ms == 700,
            r.max_switches_per_second == 2,
            r.stable_span_confidence == 800,
            r.min_windows_for_override == 2,
    {
        Stage2Config {
            min_turn_duration_ms: 700,
            max_switches_per_second: 2,
            stable_span_confidence: 800,
            min_windows_for_override: 2,
        }
    }
}

/// Result of global reconciliation.
pub struct Stage2Result {
    /// Number of tokens the vote relabeled.
    pub tokens_relabeled: usize,
    /// Number of tokens that had disagreeing candidates.
    pub conflicts_resolved: usize,
}

/// One candidate label for a token, with its proximity weight in thousandths.
pub struct LabelCandidate {
    /// The proposed speaker.
    pub speaker: u32,
    /// The window the proposal came from.
    pub window_id: u64,
    /// Proximity of the token to that window's center, in thousandths.
    pub weight: u32,
}

/// The first window carrying the identifier, if any.
pub open spec fn window_for(windows: Seq<Window>, wid: u64) -> Option<Window>
    decreases windows.len(),
{
    if windows.len() == 0 {
        None
    } else if windows[0].window_id == wid {
        Some(windows[0])
    } else {
        window_for(windows.drop_first(), wid)
    }
}

/// Indices of the tokens carrying the identifier, in order.
pub open spec fn id_matches(tokens: Seq<Token>, id: u64) -> Seq<int> {
    sel_idxs(|j: int| 0 <= j < tokens.len() && tokens[j].token_id == id, tokens.len() as int)
}

/// The timestamp used to weigh a relabel of token `id` against window `w`:
/// the token's start time, or the window center when no token carries the
/// identifier.
pub open spec fn ts_for(tokens: Seq<Token>, w: Window, id: u64) -> int {
    if id_matches(tokens, id).len() > 0 {
        tokens[id_matches(tokens, id)[0]].start_ms as int
    } else {
        (w.start_ms + w.end_ms) / 2
    }
}

/// The proximity weight a relabel of token `id` receives from patch `p`.
pub open spec fn rel_weight(tokens: Seq<Token>, windows: Seq<Window>, p: WindowPatch, id: u64) -> int {
    match window_for(windows, p.window_id) {
        None => 0,
        Some(w) => spec_proximity(w.start_ms as int, w.end_ms as int, ts_for(tokens, w, id)),
    }
}

/// Weight contribution of one relabel: `weight` when it names token `id`
/// with speaker `spk`, 0 otherwise.
pub open spec fn relabel_w_f(weight: int, id: u64, spk: u32) -> spec_fn(TokenRelabel) -> int {
    |r: TokenRelabel|
        if r.token_id == id && r.new_speaker == spk {
            weight
        } else {
            0
        }
}

/// Count contribution of one relabel naming token `id`.
pub open spec fn relabel_c_f(id: u64) -> spec_fn(TokenRelabel) -> int {
    |r: TokenRelabel|
        if r.token_id == id {
            1int
        } else {
            0int
        }
}

/// Count contribution of one relabel naming token `id` with speaker `spk`.
pub open spec fn relabel_s_f(id: u64, spk: u32) -> spec_fn(TokenRelabel) -> int {
    |r: TokenRelabel|
        if r.token_id == id && r.new_speaker == spk {
            1int
        } else {
            0int
        }
}

/// Count contribution of one relabel naming token `id` against speaker `cur`.
pub open spec fn relabel_d_f(id: u64, cur: u32) -> spec_fn(TokenRelabel) -> int {
    |r: TokenRelabel|
        if r.token_id == id && r.new_speaker != cur {
            1int
        } else {
            0int
        }
}

/// Per-patch contribution to the weight of speaker `spk` for token `id`.
pub open spec fn wsum_f(
    tokens: Seq<Token>,
    windows: Seq<Window>,
    id: u64,
    spk: u32,
) -> spec_fn(WindowPatch) -> int {
    |p: WindowPatch|
        match window_for(windows, p.window_id) {
            None => 0,
            Some(w) => sum_over(
                p.token_relabels@,
                relabel_w_f(rel_weight(tokens, windows, p, id), id, spk),
            ),
        }
}

/// Total vote weight of speaker `spk` for token `id` over all patches.
pub open spec fn wsum(
    tokens: Seq<Token>,
    windows: Seq<Window>,
    patches: Seq<WindowPatch>,
    id: u64,
    spk: u32,
) -> int {
    sum_over(patches, wsum_f(tokens, windows, id, spk))
}

/// Per-patch count of candidates naming token `id` with speaker `spk`.
pub open spec fn scount_f(windows: Seq<Window>, id: u64, spk: u32) -> spec_fn(WindowPatch) -> int {
    |p: WindowPatch|
        match window_for(windows, p.window_id) {
            None => 0,
            Some(w) => sum_over(p.token_relabels@, relabel_s_f(id, spk)),
        }
}

/// Total count of candidates naming token `id` with speaker `spk`.
pub open spec fn scount(
    windows: Seq<Window>,
    patches: Seq<WindowPatch>,
    id: u64,
    spk: u32,
) -> int {
    sum_over(patches, scount_f(windows, id, spk))
}

/// Per-patch count of candidates naming token `id` at all.
pub open spec fn ccount_f(windows: Seq<Window>, id: u64) -> spec_fn(WindowPatch) -> int {
    |p: WindowPatch|
        match window_for(windows, p.window_id) {
            None => 0,
            Some(w) => sum_over(p.token_relabels@, relabel_c_f(id)),
        }
}

/// Total count of candidates naming token `id`.
pub open spec fn ccount(windows: Seq<Window>, patches: Seq<WindowPatch>, id: u64) -> int {
    sum_over(patches, ccount_f(windows, id))
}

/// Per-patch count of candidates that disagree with the current speaker.
pub open spec fn dcount_f(windows: Seq<Window>, id: u64, cur: u32) -> spec_fn(WindowPatch) -> int {
    |p: WindowPatch|
        match window_for(windows, p.window_id) {
            None => 0,
            Some(w) => sum_over(p.token_relabels@, relabel_d_f(id, cur)),
        }
}

/// Total count of candidates that disagree with the current speaker.
pub open spec fn dcount(
    windows: Seq<Window>,
    patches: Seq<WindowPatch>,
    id: u64,
    cur: u32,
) -> int {
    sum_over(patches, dcount_f(windows, id, cur))
}

/// `w` wins the weighted vote for token `id`: it is named by some candidate,
/// no named speaker outweighs it, and among equal weights it has the smallest
/// label.
pub open spec fn is_vote_winner(
    tokens: Seq<Token>,
    windows: Seq<Window>,
    patches: Seq<WindowPatch>,
    id: u64,
    w: u32,
) -> bool {
    &&& scount(windows, patches, id, w) > 0
    &&& forall|s: u32|
        #[trigger] scount(windows, patches, id, s) > 0 ==> wsum(tokens, windows, patches, id, s)
            <= wsum(tokens, windows, patches, id, w)
    &&& forall|s: u32|
        #[trigger] scount(windows, patches, id, s) > 0 && wsum(tokens, windows, patches, id, s)
            == wsum(tokens, windows, patches, id, w) ==> w <= s
}

/// The speaker the reconciler assigns to token `i`: its present label when no
/// candidate names it or stable-span protection applies, otherwise the
/// weighted-vote winner.
pub open spec fn reconciled_speaker(
    tokens: Seq<Token>,
    windows: Seq<Window>,
    patches: Seq<WindowPatch>,
    config: Stage2Config,
    i: int,
) -> u32 {
    let id = tokens[i].token_id;
    let cur = tokens[i].speaker;
    if ccount(windows, patches, id) == 0 {
        cur
    } else if tokens[i].speaker_conf >= config.stable_span_confidence && dcount(
        windows,
        patches,
        id,
        cur,
    ) < config.min_windows_for_override {
        cur
    } else if exists|w: u32| is_vote_winner(tokens, windows, patches, id, w) {
        choose|w: u32| is_vote_winner(tokens, windows, patches, id, w)
    } else {
        cur
    }
}

/// Token `i` received disagreeing candidates and was not protected as a
/// stable span.
pub open spec fn token_conflict(
    tokens: Seq<Token>,
    windows: Seq<Window>,
    patches: Seq<WindowPatch>,
    config: Stage2Config,
    i: int,
) -> bool {
    let id = tokens[i].token_id;
    let cur = tokens[i].speaker;
    &&& ccount(windows, patches, id) > 0
    &&& !(tokens[i].speaker_conf >= config.stable_span_confidence && dcount(
        windows,
        patches,
        id,
        cur,
    ) < config.min_windows_for_override)
    &&& exists|s1: u32, s2: u32|
        s1 != s2 && #[trigger] scount(windows, patches, id, s1) > 0 && #[trigger] scount(
            windows,
            patches,
            id,
            s2,
        ) > 0
}

/// The reconciler's decisions depend only on the multiset of patches, never
/// on their order: shuffling the patches yields the same label for every
/// token.
pub proof fn lemma_reconciled_speaker_order_independent(
    tokens: Seq<Token>,
    windows: Seq<Window>,
    patches1: Seq<WindowPatch>,
    patches2: Seq<WindowPatch>,
    config: Stage2Config,
    i: int,
)
    requires
        patches1.to_multiset() == patches2.to_multiset(),
        0 <= i < tokens.len(),
    ensures
        reconciled_speaker(tokens, windows, patches1, config, i) == reconciled_speaker(
            tokens,
            windows,
            patches2,
            config,
            i,
        ),
{
    let id = tokens[i].token_id;
    let cur = tokens[i].speaker;
    lemma_sum_over_multiset(patches1, patches2, ccount_f(windows, id));
    lemma_sum_over_multiset(patches1, patches2, dcount_f(windows, id, cur));
    assert forall|s: u32| #[trigger]
        scount(windows, patches1, id, s) == scount(windows, patches2, id, s) && wsum(
        tokens,
        windows,
        patches1,
        id,
        s,
    ) == wsum(tokens, windows, patches2, id, s) by {
        lemma_sum_over_multiset(patches1, patches2, scount_f(windows, id, s));
        lemma_sum_over_multiset(patches1, patches2, wsum_f(tokens, windows, id, s));
    }
    assert forall|w: u32|
        is_vote_winner(tokens, windows, patches1, id, w) == is_vote_winner(
        tokens,
        windows,
        patches2,
        id,
        w,
    ) by {
        assert(scount(windows, patches1, id, w) == scount(windows, patches2, id, w));
        assert(wsum(tokens, windows, patches1, id, w) == wsum(tokens, windows, patches2, id, w));
        if is_vote_winner(tokens, windows, patches1, id, w) {
            assert forall|s: u32| #[trigger]
                scount(windows, patches2, id, s) > 0 implies wsum(tokens, windows, patches2, id, s)
                <= wsum(tokens, windows, patches2, id, w) && (wsum(tokens, windows, patches2, id, s)
                == wsum(tokens, windows, patches2, id, w) ==> w <= s) by {
                assert(scount(windows, patches1, id, s) > 0);
                assert(wsum(tokens, windows, patches1, id, s) == wsum(
                    tokens,
                    windows,
                    patches2,
                    id,
                    s,
                ));
            }
            assert(is_vote_winner(tokens, windows, patches2, id, w));
        }
        if is_vote_winner(tokens, windows, patches2, id, w) {
            assert forall|s: u32| #[trigger]
                scount(windows, patches1, id, s) > 0 implies wsum(tokens, windows, patches1, id, s)
                <= wsum(tokens, windows, patches1, id, w) && (wsum(tokens, windows, patches1, id, s)
                == wsum(tokens, windows, patches1, id, w) ==> w <= s) by {
                assert(scount(windows, patches2, id, s) > 0);
                assert(wsum(tokens, windows, patches2, id, s) == wsum(
                    tokens,
                    windows,
                    patches1,
                    id,
                    s,
                ));
            }
            assert(is_vote_winner(tokens, windows, patches1, id, w));
        }
    }
    if exists|w: u32| is_vote_winner(tokens, windows, patches1, id, w) {
        let w1 = choose|w: u32| is_vote_winner(tokens, windows, patches1, id, w);
        let w2 = choose|w: u32| is_vote_winner(tokens, windows, patches2, id, w);
        assert(is_vote_winner(tokens, windows, patches1, id, w2));
        // Winners are unique: each bounds the other.
        assert(wsum(tokens, windows, patches1, id, w1) == wsum(tokens, windows, patches1, id, w2));
        assert(w1 <= w2 && w2 <= w1);
    }
}


/// Value contribution of one accumulator entry to speaker `s`.
pub open spec fn entry_f(s: u32) -> spec_fn((u32, u128)) -> int {
    |e: (u32, u128)|
        if e.0 == s {
            e.1 as int
        } else {
            0
        }
}

/// Total accumulated value for speaker `s`.
pub open spec fn entry_val(entries: Seq<(u32, u128)>, s: u32) -> int {
    sum_over(entries, entry_f(s))
}

/// Speaker `s` has an entry.
pub open spec fn entry_has(entries: Seq<(u32, u128)>, s: u32) -> bool {
    exists|j: int| 0 <= j < entries.len() && (#[trigger] entries[j]).0 == s
}

/// Every speaker has at most one entry.
pub open spec fn entries_unique(entries: Seq<(u32, u128)>) -> bool {
    forall|a: int, b: int|
        0 <= a < b < entries.len() ==> (#[trigger] entries[a]).0 != (#[trigger] entries[b]).0
}

/// With no entry for `s` the accumulated value is 0.
proof fn lemma_entry_val_absent(entries: Seq<(u32, u128)>, s: u32)
    requires
        forall|j: int| 0 <= j < entries.len() ==> (#[trigger] entries[j]).0 != s,
    ensures
        entry_val(entries, s) == 0,
    decreases entries.len(),
{
    if entries.len() > 0 {
        lemma_entry_val_absent(entries.drop_last(), s);
    }
}

/// With unique keys the accumulated value for a present key is its entry.
proof fn lemma_entry_val_at(entries: Seq<(u32, u128)>, e: int)
    requires
        entries_unique(entries),
        0 <= e < entries.len(),
    ensures
        entry_val(entries, entries[e].0) == entries[e].1,
    decreases entries.len(),
{
    if e == entries.len() - 1 {
        lemma_entry_val_absent(entries.drop_last(), entries[e].0);
    } else {
        lemma_entry_val_at(entries.drop_last(), e);
        assert(entries.drop_last()[e] == entries[e]);
    }
}

/// Add `w` to speaker `spk`'s accumulated value, creating the entry when
/// absent.
fn acc_add(acc: &mut Vec<(u32, u128)>, spk: u32, w: u32)
    requires
        entries_unique(old(acc)@),
        forall|j: int|
            0 <= j < old(acc)@.len() ==> (#[trigger] old(acc)@[j]).1
                < 0x1_0000_0000_0000_0000_0000_0000u128,
    ensures
        entries_unique(final(acc)@),
        forall|s: u32|
            #[trigger] entry_val(final(acc)@, s) == entry_val(old(acc)@, s) + (if s == spk {
                w as int
            } else {
                0
            }),
        forall|s: u32| #[trigger]
            entry_has(final(acc)@, s) <==> (entry_has(old(acc)@, s) || s == spk),
{
    let ghost oldacc = acc@;
    let n = acc.len();
    let mut e: usize = 0;
    while e < n
        invariant
            0 <= e <= n,
            n == acc@.len(),
            acc@ == oldacc,
            oldacc == old(acc)@,
            entries_unique(oldacc),
            forall|j: int|
                0 <= j < oldacc.len() ==> (#[trigger] oldacc[j]).1
                    < 0x1_0000_0000_0000_0000_0000_0000u128,
            forall|j: int| 0 <= j < e ==> (#[trigger] oldacc[j]).0 != spk,
        decreases n - e,
    {
        if acc[e].0 == spk {
            let (_, v) = acc[e];
            let nv: u128 = v + (w as u128);
            let _ = acc.remove(e);
            acc.push((spk, nv));
            proof {
                let removed = oldacc.remove(e as int);
                assert(acc@ =~= removed.push((spk, nv)));
                assert forall|s: u32| #[trigger]
                    entry_val(acc@, s) == entry_val(oldacc, s) + (if s == spk {
                        w as int
                    } else {
                        0
                    }) by {
                    crate::select::lemma_sum_over_remove(oldacc, entry_f(s), e as int);
                    assert(acc@.drop_last() =~= removed);
                    assert(acc@[acc@.len() - 1] == (spk, nv));
                    assert(oldacc[e as int] == (spk, v));
                    assert(sum_over(acc@, entry_f(s)) == sum_over(acc@.drop_last(), entry_f(s))
                        + entry_f(s)(acc@[acc@.len() - 1]));
                    assert(sum_over(oldacc, entry_f(s)) == sum_over(removed, entry_f(s))
                        + entry_f(s)(oldacc[e as int]));
                }
                assert forall|s: u32| #[trigger]
                    entry_has(acc@, s) <==> (entry_has(oldacc, s) || s == spk) by {
                    if entry_has(acc@, s) {
                        let j = choose|j: int| 0 <= j < acc@.len() && (#[trigger] acc@[j]).0 == s;
                        if j < acc@.len() - 1 {
                            assert(acc@[j] == removed[j]);
                            if j < e {
                                assert(removed[j] == oldacc[j]);
                                assert(oldacc[j].0 == s);
                            } else {
                                assert(removed[j] == oldacc[j + 1]);
                                assert(oldacc[j + 1].0 == s);
                            }
                        } else {
                            assert(acc@[j] == (spk, nv));
                        }
                    }
                    if entry_has(oldacc, s) {
                        let j = choose|j: int| 0 <= j < oldacc.len() && (#[trigger] oldacc[j]).0 == s;
                        if s == spk {
                        } else {
                            assert(j != e);
                            if j < e {
                                assert(acc@[j].0 == s);
                            } else {
                                assert(acc@[j - 1].0 == s);
                            }
                        }
                    }
                    if s == spk {
                        assert(acc@[acc@.len() - 1].0 == s);
                    }
                }
                assert forall|a: int, b: int|
                    0 <= a < b < acc@.len() implies (#[trigger] acc@[a]).0 != (
                #[trigger] acc@[b]).0 by {
                    if b < acc@.len() - 1 {
                        let oa = if a < e {
                            a
                        } else {
                            a + 1
                        };
                        let ob = if b < e {
                            b
                        } else {
                            b + 1
                        };
                        assert(acc@[a] == oldacc[oa] && acc@[b] == oldacc[ob]);
                    } else {
                        let oa = if a < e {
                            a
                        } else {
                            a + 1
                        };
                        assert(acc@[a] == oldacc[oa]);
                        assert(oldacc[oa].0 != spk || oa == e);
                    }
                }
            }
            return ;
        }
        e = e + 1;
    }
    acc.push((spk, w as u128));
    proof {
        assert forall|s: u32| #[trigger]
            entry_val(acc@, s) == entry_val(oldacc, s) + (if s == spk {
                w as int
            } else {
                0
            }) by {
            assert(acc@.drop_last() =~= oldacc);
        }
        assert forall|s: u32| #[trigger]
            entry_has(acc@, s) <==> (entry_has(oldacc, s) || s == spk) by {
            if entry_has(acc@, s) {
                let j = choose|j: int| 0 <= j < acc@.len() && (#[trigger] acc@[j]).0 == s;
                if j < acc@.len() - 1 {
                    assert(oldacc[j].0 == s);
                }
            }
            if entry_has(oldacc, s) {
                let j = choose|j: int| 0 <= j < oldacc.len() && (#[trigger] oldacc[j]).0 == s;
                assert(acc@[j].0 == s);
            }
            if s == spk {
                assert(acc@[acc@.len() - 1].0 == s);
            }
        }
    }
}

/// Choose the entry with the highest value, smallest key on ties.  Returns
/// `None` only for an empty accumulator.
fn acc_best(acc: &Vec<(u32, u128)>) -> (r: Option<u32>)
    requires
        entries_unique(acc@),
    ensures
        match r {
            Some(b) => {
                &&& entry_has(acc@, b)
                &&& forall|s: u32|
                    #[trigger] entry_has(acc@, s) ==> entry_val(acc@, s) <= entry_val(acc@, b)
                &&& forall|s: u32|
                    #[trigger] entry_has(acc@, s) && entry_val(acc@, s) == entry_val(acc@, b)
                        ==> b <= s
            },
            None => acc@.len() == 0,
        },
{
    let n = acc.len();
    if n == 0 {
        return None;
    }
    let mut best_key: u32 = acc[0].0;
    let mut best_val: u128 = acc[0].1;
    proof {
        lemma_entry_val_at(acc@, 0);
        assert(acc@[0].0 == best_key);
    }
    let mut j: usize = 1;
    while j < n
        invariant
            1 <= j <= n,
            n == acc@.len(),
            entries_unique(acc@),
            entry_has(acc@, best_key),
            best_val as int == entry_val(acc@, best_key),
            forall|q: int|
                0 <= q < j ==> (#[trigger] acc@[q]).1 <= best_val,
            forall|q: int|
                0 <= q < j && (#[trigger] acc@[q]).1 == best_val ==> best_key <= acc@[q].0,
        decreases n - j,
    {
        let (k, v) = acc[j];
        proof {
            lemma_entry_val_at(acc@, j as int);
        }
        if v > best_val || (v == best_val && k < best_key) {
            best_key = k;
            best_val = v;
            proof {
                assert(acc@[j as int].0 == k);
            }
        }
        j = j + 1;
    }
    proof {
        assert forall|s: u32| #[trigger] entry_has(acc@, s) implies entry_val(acc@, s)
            <= entry_val(acc@, best_key) && (entry_val(acc@, s) == entry_val(acc@, best_key)
            ==> best_key <= s) by {
            let q = choose|q: int| 0 <= q < acc@.len() && (#[trigger] acc@[q]).0 == s;
            lemma_entry_val_at(acc@, q);
        }
    }
    Some(best_key)
}

/// Contribution of one candidate to speaker `s`.
pub open spec fn cand_f(s: u32) -> spec_fn(LabelCandidate) -> int {
    |c: LabelCandidate|
        if c.speaker == s {
            c.weight as int
        } else {
            0
        }
}

/// Total vote weight of speaker `s` over a candidate list.
pub open spec fn cand_wsum(cands: Seq<LabelCandidate>, s: u32) -> int {
    sum_over(cands, cand_f(s))
}

/// Some candidate names speaker `s`.
pub open spec fn cand_has(cands: Seq<LabelCandidate>, s: u32) -> bool {
    exists|j: int| 0 <= j < cands.len() && (#[trigger] cands[j]).speaker == s
}

/// `r` wins the vote over a candidate list: it is named, no named speaker
/// outweighs it, and among equal weights it has the smallest label.
pub open spec fn cand_winner_ok(cands: Seq<LabelCandidate>, r: u32) -> bool {
    &&& cand_has(cands, r)
    &&& forall|s: u32| #[trigger] cand_has(cands, s) ==> cand_wsum(cands, s) <= cand_wsum(cands, r)
    &&& forall|s: u32|
        #[trigger] cand_has(cands, s) && cand_wsum(cands, s) == cand_wsum(cands, r) ==> r <= s
}

/// The weighted vote over a candidate list: sum the weights per proposed
/// speaker and return the heaviest speaker, smallest label on ties; 0 when
/// the list is empty.
pub fn weighted_vote(candidates: &Vec<LabelCandidate>) -> (r: u32)
    ensures
        candidates@.len() == 0 ==> r == 0,
        candidates@.len() > 0 ==> cand_winner_ok(candidates@, r),
{
    let n = candidates.len();
    let mut acc: Vec<(u32, u128)> = Vec::new();
    let mut j: usize = 0;
    while j < n
        invariant
            0 <= j <= n,
            n == candidates@.len(),
            entries_unique(acc@),
            forall|s: u32|
                #[trigger] entry_val(acc@, s) == cand_wsum(candidates@.take(j as int), s),
            forall|s: u32|
                #[trigger] entry_has(acc@, s) <==> cand_has(candidates@.take(j as int), s),
            forall|q: int|
                0 <= q < acc@.len() ==> (#[trigger] acc@[q]).1 <= (j as u128) * 0xffff_ffffu128,
        decreases n - j,
    {
        let c = &candidates[j];
        proof {
            assert forall|q: int|
                0 <= q < acc@.len() implies (#[trigger] acc@[q]).1
                < 0x1_0000_0000_0000_0000_0000_0000u128 by {
                assert(acc@[q].1 <= (j as u128) * 0xffff_ffffu128);
                assert((j as u128) * 0xffff_ffffu128 < 0x1_0000_0000_0000_0000_0000_0000u128)
                    by (nonlinear_arith)
                    requires
                        j <= u64::MAX,
                ;
            }
        }
        let ghost pre = acc@;
        acc_add(&mut acc, c.speaker, c.weight);
        proof {
            assert forall|s: u32|
                #[trigger] entry_val(acc@, s) == cand_wsum(candidates@.take(j + 1), s) by {
                assert(candidates@.take(j + 1).drop_last() =~= candidates@.take(j as int));
                assert(candidates@.take(j + 1)[j as int] == candidates@[j as int]);
            }
            assert forall|s: u32|
                #[trigger] entry_has(acc@, s) <==> cand_has(candidates@.take(j + 1), s) by {
                assert(candidates@.take(j + 1).drop_last() =~= candidates@.take(j as int));
                if cand_has(candidates@.take(j + 1), s) {
                    let q = choose|q: int|
                        0 <= q < candidates@.take(j + 1).len() && (#[trigger] candidates@.take(
                            j + 1,
                        )[q]).speaker == s;
                    if q < j {
                        assert(candidates@.take(j as int)[q].speaker == s);
                        assert(cand_has(candidates@.take(j as int), s));
                    }
                }
                if cand_has(candidates@.take(j as int), s) {
                    let q = choose|q: int|
                        0 <= q < candidates@.take(j as int).len() && (#[trigger] candidates@.take(
                            j as int,
                        )[q]).speaker == s;
                    assert(candidates@.take(j + 1)[q].speaker == s);
                }
                if s == candidates@[j as int].speaker {
                    assert(candidates@.take(j + 1)[j as int].speaker == s);
                }
            }
            assert forall|q: int|
                0 <= q < acc@.len() implies (#[trigger] acc@[q]).1 <= ((j + 1) as u128)
                * 0xffff_ffffu128 by {
                lemma_entry_val_at(acc@, q);
                assert(entry_val(acc@, acc@[q].0) == entry_val(pre, acc@[q].0) + (if acc@[q].0
                    == c.speaker {
                    c.weight as int
                } else {
                    0
                }));
                if entry_has(pre, acc@[q].0) {
                    let e = choose|e: int| 0 <= e < pre.len() && (#[trigger] pre[e]).0 == acc@[q].0;
                    lemma_entry_val_at(pre, e);
                } else {
                    lemma_entry_val_absent(pre, acc@[q].0);
                }
            }
        }
        j = j + 1;
    }
    proof {
        assert(candidates@.take(n as int) =~= candidates@);
    }
    match acc_best(&acc) {
        Some(b) => {
            proof {
                if candidates@.len() > 0 {
                    assert(cand_has(candidates@, b)) by {
                        let q = choose|q: int|
                            0 <= q < acc@.len() && (#[trigger] acc@[q]).0 == b;
                        assert(entry_has(acc@, b));
                    }
                    assert forall|s: u32| #[trigger]
                        cand_has(candidates@, s) implies cand_wsum(candidates@, s) <= cand_wsum(
                        candidates@,
                        b,
                    ) && (cand_wsum(candidates@, s) == cand_wsum(candidates@, b) ==> b <= s) by {
                        assert(entry_has(acc@, s));
                        assert(entry_val(acc@, s) == cand_wsum(candidates@, s));
                        assert(entry_val(acc@, b) == cand_wsum(candidates@, b));
                    }
                }
            }
            b
        },
        None => {
            proof {
                if candidates@.len() > 0 {
                    assert(cand_has(candidates@, candidates@[0].speaker));
                    assert(entry_has(acc@, candidates@[0].speaker));
                }
            }
            0
        },
    }
}


/// Size of one patch: its number of relabels.
pub open spec fn patch_size_f() -> spec_fn(WindowPatch) -> int {
    |p: WindowPatch| p.token_relabels@.len() as int
}

/// Bound on the total number of relabel entries, so that vote accumulators
/// provably fit their fixed-width arithmetic.
pub const MAX_TOTAL_RELABELS: u64 = 0x1000_0000_0000_0000;

/// Every window's times are ordered and bounded, as window generation leaves
/// them.
pub open spec fn windows_times_wf(ws: Seq<Window>) -> bool {
    forall|k: int|
        0 <= k < ws.len() ==> (#[trigger] ws[k]).start_ms <= ws[k].end_ms && ws[k].end_ms <= 2
            * crate::models::MAX_TIME_MS
}

/// The total candidate count for any token is bounded by the total number of
/// relabel entries.
proof fn lemma_ccount_le_sizes(windows: Seq<Window>, patches: Seq<WindowPatch>, id: u64)
    ensures
        0 <= ccount(windows, patches, id) <= sum_over(patches, patch_size_f()),
{
    assert forall|p: WindowPatch| 0 <= #[trigger] ccount_f(windows, id)(p) && ccount_f(
        windows,
        id,
    )(p) <= patch_size_f()(p) by {
        match window_for(windows, p.window_id) {
            None => {},
            Some(w) => {
                crate::select::lemma_sum_over_nonneg(p.token_relabels@, relabel_c_f(id));
                crate::select::lemma_sum_over_le_len(p.token_relabels@, relabel_c_f(id));
            },
        }
    }
    crate::select::lemma_sum_over_nonneg(patches, ccount_f(windows, id));
    crate::select::lemma_sum_over_le(patches, ccount_f(windows, id), patch_size_f());
}

/// In a well-formed transcript the weighing timestamp for a token's own
/// identifier is its start time.
proof fn lemma_ts_for_self(tokens: Seq<Token>, w: Window, i: int)
    requires
        tokens_wf(tokens),
        tokens.len() <= u64::MAX,
        0 <= i < tokens.len(),
    ensures
        ts_for(tokens, w, tokens[i].token_id) == tokens[i].start_ms,
{
    let id = tokens[i].token_id;
    let p = |j: int| 0 <= j < tokens.len() && tokens[j].token_id == id;
    lemma_sel_idxs(p, tokens.len() as int);
    assert(p(i));
    assert(sel_idxs(p, tokens.len() as int).contains(i));
    let sel = sel_idxs(p, tokens.len() as int);
    assert(sel.len() > 0);
    assert(p(sel[0]));
    assert(tokens[sel[0]].token_id == sel[0] as u64);
    assert(tokens[i].token_id == i as u64);
    assert(sel[0] == i);
    assert(id_matches(tokens, id) == sel);
}

/// Find the first window carrying the identifier.
fn find_window<'a>(windows: &'a WindowSet, wid: u64) -> (r: Option<&'a Window>)
    ensures
        match r {
            Some(w) => window_for(windows.windows@, wid) == Some(*w),
            None => window_for(windows.windows@, wid) is None,
        },
{
    let n = windows.windows.len();
    proof {
        assert(windows.windows@.skip(0) =~= windows.windows@);
    }
    let mut j: usize = 0;
    while j < n
        invariant
            0 <= j <= n,
            n == windows.windows@.len(),
            window_for(windows.windows@, wid) == window_for(windows.windows@.skip(j as int), wid),
        decreases n - j,
    {
        proof {
            assert(windows.windows@.skip(j as int)[0] == windows.windows@[j as int]);
            assert(windows.windows@.skip(j as int).drop_first() =~= windows.windows@.skip(j + 1));
        }
        if windows.windows[j].window_id == wid {
            return Some(&windows.windows[j]);
        }
        j = j + 1;
    }
    proof {
        assert(windows.windows@.skip(n as int) =~= Seq::<Window>::empty());
    }
    None
}

/// `b` is `a` with every token's speaker replaced by the reconciler's vote.
pub open spec fn vote_rel(
    a: TokenizedTranscript,
    b: TokenizedTranscript,
    windows: Seq<Window>,
    patches: Seq<WindowPatch>,
    config: Stage2Config,
) -> bool {
    &&& b.wf()
    &&& b.tokens@.len() == a.tokens@.len()
    &&& forall|i: int|
        0 <= i < b.tokens@.len() ==> same_token_mod_label(#[trigger] b.tokens@[i], a.tokens@[i])
            && b.tokens@[i].is_overlap_region == a.tokens@[i].is_overlap_region
    &&& forall|i: int|
        0 <= i < b.tokens@.len() ==> (#[trigger] b.tokens@[i]).speaker == reconciled_speaker(
            a.tokens@,
            windows,
            patches,
            config,
            i,
        )
}

/// Global reconciliation: collect every patch's relabels as weighted
/// candidates, vote per token with stable-span protection, apply the winners,
/// rebuild the turns, and absorb remaining short turns whose neighbors agree.
pub fn execute_stage2(
    t: &mut TokenizedTranscript,
    windows: &WindowSet,
    patches: &Vec<WindowPatch>,
    config: &Stage2Config,
) -> (r: Stage2Result)
    requires
        old(t).wf(),
        windows_times_wf(windows.windows@),
        sum_over(patches@, patch_size_f()) <= MAX_TOTAL_RELABELS,
    ensures
        final(t).wf(),
        final(t).tokens@.len() == old(t).tokens@.len(),
        forall|i: int|
            0 <= i < final(t).tokens@.len() ==> same_token_mod_label(
                #[trigger] final(t).tokens@[i],
                old(t).tokens@[i],
            ) && final(t).tokens@[i].is_overlap_region == old(t).tokens@[i].is_overlap_region,
        r.tokens_relabeled == sel_idxs(
            |i: int|
                0 <= i < old(t).tokens@.len() && reconciled_speaker(
                    old(t).tokens@,
                    windows.windows@,
                    patches@,
                    *config,
                    i,
                ) != old(t).tokens@[i].speaker,
            old(t).tokens@.len() as int,
        ).len(),
        r.conflicts_resolved == sel_idxs(
            |i: int|
                0 <= i < old(t).tokens@.len() && token_conflict(
                    old(t).tokens@,
                    windows.windows@,
                    patches@,
                    *config,
                    i,
                ),
            old(t).tokens@.len() as int,
        ).len(),
        r.tokens_relabeled == 0 ==> *final(t) == *old(t),
        r.tokens_relabeled > 0 ==> exists|mid: TokenizedTranscript|
            {
                &&& #[trigger] vote_rel(*old(t), mid, windows.windows@, patches@, *config)
                &&& final(t).tokens@.len() == mid.tokens@.len()
                &&& forall|i: int|
                    0 <= i < final(t).tokens@.len() ==> (#[trigger] final(t).tokens@[i]).speaker
                        == micro_new_speaker(
                        mid.tokens@,
                        mid.turns@,
                        config.min_turn_duration_ms as int,
                        i,
                    )
            },
{
    let ghost otokens = old(t).tokens@;
    let ghost wseq = windows.windows@;
    let ghost cfg = *config;
    let ghost p_changed = |i: int|
        0 <= i < otokens.len() && reconciled_speaker(otokens, wseq, patches@, cfg, i)
            != otokens[i].speaker;
    let ghost p_conflict = |i: int|
        0 <= i < otokens.len() && token_conflict(otokens, wseq, patches@, cfg, i);

    let n = t.tokens.len();
    let np = patches.len();
    let mut relabels: Vec<(usize, u32)> = Vec::new();
    let mut conflicts: u64 = 0;
    let mut i: usize = 0;
    while i < n
        invariant
            0 <= i <= n,
            n == t.tokens@.len(),
            np == patches@.len(),
            *t == *old(t),
            otokens == old(t).tokens@,
            wseq == windows.windows@,
            cfg == *config,
            old(t).wf(),
            windows_times_wf(wseq),
            sum_over(patches@, patch_size_f()) <= MAX_TOTAL_RELABELS,
            p_changed == (|i: int|
                0 <= i < otokens.len() && reconciled_speaker(otokens, wseq, patches@, cfg, i)
                    != otokens[i].speaker),
            p_conflict == (|i: int|
                0 <= i < otokens.len() && token_conflict(otokens, wseq, patches@, cfg, i)),
            conflicts == sel_idxs(p_conflict, i as int).len(),
            conflicts <= i,
            relabels@.len() == sel_idxs(p_changed, i as int).len(),
            forall|w: int|
                0 <= w < relabels@.len() ==> (#[trigger] relabels@[w]).0 as int == sel_idxs(
                    p_changed,
                    i as int,
                )[w] && relabels@[w].1 == reconciled_speaker(
                    otokens,
                    wseq,
                    patches@,
                    cfg,
                    sel_idxs(p_changed, i as int)[w],
                ) && relabels@[w].0 < n,
        decreases n - i,
    {
        let id = t.tokens[i].token_id;
        let cur = t.tokens[i].speaker;
        let ghost conf = t.tokens@[i as int].speaker_conf;
        let mut acc: Vec<(u32, u128)> = Vec::new();
        let mut cnt: u64 = 0;
        let mut dcn: u64 = 0;
        let mut pi: usize = 0;
        proof {
            assert(patches@.take(0) =~= Seq::<WindowPatch>::empty());
            assert forall|s: u32| #[trigger] entry_val(acc@, s) == wsum(
                otokens,
                wseq,
                patches@.take(0),
                id,
                s,
            ) by {}
        }
        while pi < np
            invariant
                0 <= pi <= np,
                np == patches@.len(),
                n == t.tokens@.len(),
                i < n,
                *t == *old(t),
                otokens == old(t).tokens@,
                wseq == windows.windows@,
                old(t).wf(),
                windows_times_wf(wseq),
                sum_over(patches@, patch_size_f()) <= MAX_TOTAL_RELABELS,
                id == otokens[i as int].token_id,
                cur == otokens[i as int].speaker,
                entries_unique(acc@),
                forall|s: u32| #[trigger]
                    entry_val(acc@, s) == wsum(otokens, wseq, patches@.take(pi as int), id, s),
                forall|s: u32| #[trigger]
                    entry_has(acc@, s) <==> scount(wseq, patches@.take(pi as int), id, s) > 0,
                cnt as int == ccount(wseq, patches@.take(pi as int), id),
                dcn as int == dcount(wseq, patches@.take(pi as int), id, cur),
                dcn <= cnt,
                forall|q: int|
                    0 <= q < acc@.len() ==> (#[trigger] acc@[q]).1 as int <= 1000 * (cnt as int),
                cnt > 0 ==> acc@.len() > 0,
            decreases np - pi,
        {
            let patch = &patches[pi];
            let ghost prev = patches@.take(pi as int);
            proof {
                assert(patches@.take(pi + 1).drop_last() =~= prev);
                assert(patches@.take(pi + 1)[pi as int] == patches@[pi as int]);
            }
            match find_window(windows, patch.window_id) {
                Some(w) => {
                    proof {
                        let widx = choose|k: int|
                            0 <= k < wseq.len() && #[trigger] wseq[k] == *w;
                        assert(window_for(wseq, patch.window_id) == Some(*w));
                        // The found window is one of the window sequence, so its
                        // times are in range.
                        assert(exists|k: int| 0 <= k < wseq.len() && #[trigger] wseq[k] == *w) by {
                            lemma_window_for_member(wseq, patch.window_id);
                        }
                    }
                    let ghost widx = choose|k: int| 0 <= k < wseq.len() && #[trigger] wseq[k] == *w;
                    proof {
                        assert(wseq[widx].start_ms <= wseq[widx].end_ms && wseq[widx].end_ms <= 2
                            * crate::models::MAX_TIME_MS);
                        lemma_ts_for_self(otokens, *w, i as int);
                    }
                    let wgt = w.proximity_to_center(t.tokens[i].start_ms);
                    proof {
                        assert(wgt as int == rel_weight(otokens, wseq, patches@[pi as int], id));
                        assert(wgt <= 1000);
                    }
                    let nr = patch.token_relabels.len();
                    let mut q: usize = 0;
                    proof {
                        assert(patch.token_relabels@.take(0) =~= Seq::<TokenRelabel>::empty());
                    }
                    while q < nr
                        invariant
                            0 <= q <= nr,
                            nr == patch.token_relabels@.len(),
                            patch == &patches@[pi as int],
                            np == patches@.len(),
                            0 <= pi < np,
                            wgt as int == rel_weight(otokens, wseq, patches@[pi as int], id),
                            wgt <= 1000,
                            window_for(wseq, patches@[pi as int].window_id) == Some(*w),
                            sum_over(patches@, patch_size_f()) <= MAX_TOTAL_RELABELS,
                            entries_unique(acc@),
                            forall|s: u32| #[trigger]
                                entry_val(acc@, s) == wsum(otokens, wseq, prev, id, s) + sum_over(
                                    patch.token_relabels@.take(q as int),
                                    relabel_w_f(wgt as int, id, s),
                                ),
                            forall|s: u32| #[trigger]
                                entry_has(acc@, s) <==> (scount(wseq, prev, id, s) > 0 || sum_over(
                                    patch.token_relabels@.take(q as int),
                                    relabel_s_f(id, s),
                                ) > 0),
                            cnt as int == ccount(wseq, prev, id) + sum_over(
                                patch.token_relabels@.take(q as int),
                                relabel_c_f(id),
                            ),
                            dcn as int == dcount(wseq, prev, id, cur) + sum_over(
                                patch.token_relabels@.take(q as int),
                                relabel_d_f(id, cur),
                            ),
                            dcn <= cnt,
                            forall|e: int|
                                0 <= e < acc@.len() ==> (#[trigger] acc@[e]).1 as int <= 1000 * (
                                cnt as int),
                            cnt > 0 ==> acc@.len() > 0,
                            prev == patches@.take(pi as int),
                        decreases nr - q,
                    {
                        let r = &patch.token_relabels[q];
                        proof {
                            assert(patch.token_relabels@.take(q + 1).drop_last()
                                =~= patch.token_relabels@.take(q as int));
                            assert(patch.token_relabels@.take(q + 1)[q as int]
                                == patch.token_relabels@[q as int]);
                        }
                        if r.token_id == id {
                            proof {
                                // The running count stays within the global bound.
                                lemma_ccount_le_sizes(wseq, patches@, id);
                                assert forall|x: TokenRelabel| #[trigger]
                                    relabel_c_f(id)(x) >= 0 && relabel_c_f(id)(x) <= 1 by {}
                                crate::select::lemma_sum_over_nonneg(
                                    patch.token_relabels@,
                                    relabel_c_f(id),
                                );
                                crate::select::lemma_sum_over_prefix(
                                    patch.token_relabels@,
                                    relabel_c_f(id),
                                    q as int,
                                );
                                crate::select::lemma_sum_over_le_len(
                                    patch.token_relabels@.take(q as int),
                                    relabel_c_f(id),
                                );
                                assert forall|x: WindowPatch| #[trigger]
                                    ccount_f(wseq, id)(x) >= 0 by {
                                    match window_for(wseq, x.window_id) {
                                        None => {},
                                        Some(wx) => {
                                            crate::select::lemma_sum_over_nonneg(
                                                x.token_relabels@,
                                                relabel_c_f(id),
                                            );
                                        },
                                    }
                                }
                                crate::select::lemma_sum_over_prefix(
                                    patches@,
                                    ccount_f(wseq, id),
                                    pi + 1,
                                );
                                assert(patches@.take(pi + 1).drop_last() =~= prev);
                                assert(patches@.take(pi + 1)[pi as int] == patches@[pi as int]);
                                assert(ccount_f(wseq, id)(patches@[pi as int]) == sum_over(
                                    patch.token_relabels@,
                                    relabel_c_f(id),
                                ));
                                assert(ccount(wseq, patches@.take(pi + 1), id) == ccount(
                                    wseq,
                                    prev,
                                    id,
                                ) + sum_over(patch.token_relabels@, relabel_c_f(id)));
                                assert(cnt as int <= ccount(wseq, patches@.take(pi + 1), id));
                                assert((cnt as int) <= MAX_TOTAL_RELABELS as int);
                                assert forall|e: int|
                                    0 <= e < acc@.len() implies (#[trigger] acc@[e]).1
                                    < 0x1_0000_0000_0000_0000_0000_0000u128 by {
                                    assert(acc@[e].1 as int <= 1000 * (cnt as int));
                                }
                            }
                            cnt = cnt + 1;
                            if r.new_speaker != cur {
                                dcn = dcn + 1;
                            }
                            let ghost preacc = acc@;
                            let ghost precnt = cnt - 1;
                            acc_add(&mut acc, r.new_speaker, wgt);
                            proof {
                                assert(entry_has(acc@, r.new_speaker));
                                assert(acc@.len() > 0) by {
                                    let j = choose|j: int|
                                        0 <= j < acc@.len() && (#[trigger] acc@[j]).0
                                            == r.new_speaker;
                                }
                                let tk1 = patch.token_relabels@.take(q + 1);
                                let tk0 = patch.token_relabels@.take(q as int);
                                assert forall|s: u32| #[trigger]
                                    entry_val(acc@, s) == wsum(otokens, wseq, prev, id, s)
                                    + sum_over(tk1, relabel_w_f(wgt as int, id, s)) by {
                                    assert(sum_over(tk1, relabel_w_f(wgt as int, id, s))
                                        == sum_over(tk0, relabel_w_f(wgt as int, id, s))
                                        + relabel_w_f(wgt as int, id, s)(
                                        patch.token_relabels@[q as int],
                                    ));
                                }
                                assert forall|s: u32| #[trigger]
                                    entry_has(acc@, s) <==> (scount(wseq, prev, id, s) > 0
                                    || sum_over(tk1, relabel_s_f(id, s)) > 0) by {
                                    assert forall|x: TokenRelabel| #[trigger]
                                        relabel_s_f(id, s)(x) >= 0 by {}
                                    crate::select::lemma_sum_over_nonneg(
                                        tk0,
                                        relabel_s_f(id, s),
                                    );
                                    assert(sum_over(tk1, relabel_s_f(id, s)) == sum_over(
                                        tk0,
                                        relabel_s_f(id, s),
                                    ) + relabel_s_f(id, s)(patch.token_relabels@[q as int]));
                                }
                                assert forall|e: int|
                                    0 <= e < acc@.len() implies (#[trigger] acc@[e]).1 as int
                                    <= 1000 * (cnt as int) by {
                                    lemma_entry_val_at(acc@, e);
                                    let key = acc@[e].0;
                                    assert(entry_val(acc@, key) == entry_val(preacc, key) + (
                                    if key == r.new_speaker {
                                        wgt as int
                                    } else {
                                        0
                                    }));
                                    if entry_has(preacc, key) {
                                        let e2 = choose|e2: int|
                                            0 <= e2 < preacc.len() && (#[trigger] preacc[e2]).0
                                                == key;
                                        lemma_entry_val_at(preacc, e2);
                                        assert(preacc[e2].1 as int <= 1000 * (precnt as int));
                                    } else {
                                        lemma_entry_val_absent(preacc, key);
                                    }
                                }
                            }
                        }
                        q = q + 1;
                    }
                    proof {
                        assert(patch.token_relabels@.take(nr as int) =~= patch.token_relabels@);
                        assert(wsum_f(otokens, wseq, id, 0u32)(patches@[pi as int]) == sum_over(
                            patch.token_relabels@,
                            relabel_w_f(rel_weight(otokens, wseq, patches@[pi as int], id), id, 0u32),
                        ));
                        assert forall|s: u32| #[trigger]
                            entry_val(acc@, s) == wsum(
                            otokens,
                            wseq,
                            patches@.take(pi + 1),
                            id,
                            s,
                        ) by {
                            assert(wsum_f(otokens, wseq, id, s)(patches@[pi as int]) == sum_over(
                                patch.token_relabels@,
                                relabel_w_f(rel_weight(otokens, wseq, patches@[pi as int], id), id, s),
                            ));
                        }
                        assert forall|s: u32| #[trigger]
                            entry_has(acc@, s) <==> scount(wseq, patches@.take(pi + 1), id, s)
                            > 0 by {
                            assert(scount_f(wseq, id, s)(patches@[pi as int]) == sum_over(
                                patch.token_relabels@,
                                relabel_s_f(id, s),
                            ));
                            assert forall|x: TokenRelabel| #[trigger]
                                relabel_s_f(id, s)(x) >= 0 by {}
                            crate::select::lemma_sum_over_nonneg(
                                patch.token_relabels@,
                                relabel_s_f(id, s),
                            );
                            assert forall|x: WindowPatch| #[trigger]
                                scount_f(wseq, id, s)(x) >= 0 by {
                                match window_for(wseq, x.window_id) {
                                    None => {},
                                    Some(wx) => {
                                        crate::select::lemma_sum_over_nonneg(
                                            x.token_relabels@,
                                            relabel_s_f(id, s),
                                        );
                                    },
                                }
                            }
                            crate::select::lemma_sum_over_nonneg(
                                patches@.take(pi as int),
                                scount_f(wseq, id, s),
                            );
                        }
                    }
                },
                None => {
                    proof {
                        assert(wsum_f(otokens, wseq, id, 0u32)(patches@[pi as int]) == 0);
                        assert forall|s: u32| #[trigger]
                            entry_val(acc@, s) == wsum(
                            otokens,
                            wseq,
                            patches@.take(pi + 1),
                            id,
                            s,
                        ) by {
                            assert(wsum_f(otokens, wseq, id, s)(patches@[pi as int]) == 0);
                        }
                        assert forall|s: u32| #[trigger]
                            entry_has(acc@, s) <==> scount(wseq, patches@.take(pi + 1), id, s)
                            > 0 by {
                            assert(scount_f(wseq, id, s)(patches@[pi as int]) == 0);
                        }
                        assert(ccount_f(wseq, id)(patches@[pi as int]) == 0);
                        assert(dcount_f(wseq, id, cur)(patches@[pi as int]) == 0);
                    }
                },
            }
            pi = pi + 1;
        }
        proof {
            assert(patches@.take(np as int) =~= patches@);
        }

        // Decide this token.
        let mut decided: Option<u32> = None;
        let mut conflict_here = false;
        if cnt > 0 {
            let stable_skip = t.tokens[i].speaker_conf >= config.stable_span_confidence && dcn
                < (config.min_windows_for_override as u64);
            proof {
                assert(dcn as int == dcount(wseq, patches@, id, cur));
            }
            if !stable_skip {
                if acc.len() >= 2 {
                    conflict_here = true;
                    proof {
                        assert(acc@[0].0 != acc@[1].0);
                        assert(entry_has(acc@, acc@[0].0) && entry_has(acc@, acc@[1].0));
                        assert(token_conflict(otokens, wseq, patches@, cfg, i as int));
                    }
                } else {
                    proof {
                        if token_conflict(otokens, wseq, patches@, cfg, i as int) {
                            let (s1, s2) = choose|s1: u32, s2: u32|
                                s1 != s2 && #[trigger] scount(wseq, patches@, id, s1) > 0
                                    && #[trigger] scount(wseq, patches@, id, s2) > 0;
                            assert(entry_has(acc@, s1) && entry_has(acc@, s2));
                            let j1 = choose|j: int|
                                0 <= j < acc@.len() && (#[trigger] acc@[j]).0 == s1;
                            let j2 = choose|j: int|
                                0 <= j < acc@.len() && (#[trigger] acc@[j]).0 == s2;
                            assert(j1 != j2);
                            assert(false);
                        }
                    }
                }
                match acc_best(&acc) {
                    Some(winner) => {
                        proof {
                            assert(is_vote_winner(otokens, wseq, patches@, id, winner)) by {
                                assert(entry_has(acc@, winner));
                                assert forall|s: u32| #[trigger]
                                    scount(wseq, patches@, id, s) > 0 implies wsum(
                                    otokens,
                                    wseq,
                                    patches@,
                                    id,
                                    s,
                                ) <= wsum(otokens, wseq, patches@, id, winner) && (wsum(
                                    otokens,
                                    wseq,
                                    patches@,
                                    id,
                                    s,
                                ) == wsum(otokens, wseq, patches@, id, winner) ==> winner <= s) by {
                                    assert(entry_has(acc@, s));
                                }
                            }
                            let wc = choose|w: u32|
                                is_vote_winner(otokens, wseq, patches@, id, w);
                            assert(is_vote_winner(otokens, wseq, patches@, id, wc));
                            assert(wsum(otokens, wseq, patches@, id, wc) == wsum(
                                otokens,
                                wseq,
                                patches@,
                                id,
                                winner,
                            ));
                            assert(wc == winner);
                            assert(reconciled_speaker(otokens, wseq, patches@, cfg, i as int)
                                == winner);
                        }
                        if winner != cur {
                            decided = Some(winner);
                        }
                    },
                    None => {
                        proof {
                            assert(false);
                        }
                    },
                }
            } else {
                proof {
                    assert(reconciled_speaker(otokens, wseq, patches@, cfg, i as int) == cur);
                    assert(!token_conflict(otokens, wseq, patches@, cfg, i as int));
                }
            }
        } else {
            proof {
                assert(ccount(wseq, patches@, id) == 0);
                assert(reconciled_speaker(otokens, wseq, patches@, cfg, i as int) == cur);
                assert(!token_conflict(otokens, wseq, patches@, cfg, i as int));
            }
        }
        if conflict_here {
            conflicts = conflicts + 1;
            proof {
                assert(sel_idxs(p_conflict, i + 1) == sel_idxs(p_conflict, i as int).push(
                    i as int,
                ));
            }
        } else {
            proof {
                assert(sel_idxs(p_conflict, i + 1) == sel_idxs(p_conflict, i as int));
            }
        }
        match decided {
            Some(s) => {
                relabels.push((i, s));
                proof {
                    assert(p_changed(i as int));
                    assert(sel_idxs(p_changed, i + 1) == sel_idxs(p_changed, i as int).push(
                        i as int,
                    ));
                }
            },
            None => {
                proof {
                    assert(reconciled_speaker(otokens, wseq, patches@, cfg, i as int) == cur);
                    assert(sel_idxs(p_changed, i + 1) == sel_idxs(p_changed, i as int));
                }
            },
        }
        i = i + 1;
    }

    // Apply the vote's relabels.
    let m = relabels.len();
    let mut w2: usize = 0;
    while w2 < m
        invariant
            0 <= w2 <= m,
            m == relabels@.len(),
            n == t.tokens@.len(),
            n == otokens.len(),
            otokens == old(t).tokens@,
            wseq == windows.windows@,
            cfg == *config,
            old(t).wf(),
            m == 0 ==> *t == *old(t),
            t.turns == old(t).turns,
            t.speakers == old(t).speakers,
            p_changed == (|i: int|
                0 <= i < otokens.len() && reconciled_speaker(otokens, wseq, patches@, cfg, i)
                    != otokens[i].speaker),
            relabels@.len() == sel_idxs(p_changed, n as int).len(),
            forall|q: int|
                0 <= q < relabels@.len() ==> (#[trigger] relabels@[q]).0 as int == sel_idxs(
                    p_changed,
                    n as int,
                )[q] && relabels@[q].1 == reconciled_speaker(
                    otokens,
                    wseq,
                    patches@,
                    cfg,
                    sel_idxs(p_changed, n as int)[q],
                ) && relabels@[q].0 < n,
            forall|q: int|
                0 <= q < n ==> same_token_mod_label(#[trigger] t.tokens@[q], otokens[q])
                    && t.tokens@[q].is_overlap_region == otokens[q].is_overlap_region
                    && t.tokens@[q].turn_id == otokens[q].turn_id,
            forall|q: int|
                0 <= q < n && !sel_idxs(p_changed, n as int).take(w2 as int).contains(q)
                    ==> #[trigger] t.tokens@[q].speaker == otokens[q].speaker,
            forall|v: int|
                0 <= v < w2 ==> #[trigger] t.tokens@[sel_idxs(p_changed, n as int)[v]].speaker
                    == reconciled_speaker(
                    otokens,
                    wseq,
                    patches@,
                    cfg,
                    sel_idxs(p_changed, n as int)[v],
                ),
        decreases m - w2,
    {
        let (idx, s) = relabels[w2];
        t.tokens[idx].speaker = s;
        proof {
            lemma_sel_idxs(p_changed, n as int);
            let sel = sel_idxs(p_changed, n as int);
            assert(relabels@[w2 as int].0 as int == sel[w2 as int]);
            assert(sel.take(w2 as int + 1) =~= sel.take(w2 as int).push(sel[w2 as int]));
            assert forall|q: int|
                0 <= q < n && !sel.take(w2 as int + 1).contains(q) implies #[trigger] t.tokens@[q].speaker
                == otokens[q].speaker by {
                if q != idx as int {
                    assert(!sel.take(w2 as int).contains(q));
                } else {
                    assert(sel.take(w2 as int + 1)[w2 as int] == q);
                    assert(sel.take(w2 as int + 1).contains(q));
                }
            }
            assert forall|v: int|
                0 <= v < w2 + 1 implies #[trigger] t.tokens@[sel[v]].speaker
                == reconciled_speaker(otokens, wseq, patches@, cfg, sel[v]) by {
                if v < w2 {
                    assert(sel[v] < sel[w2 as int]);
                    assert(sel[v] != idx as int);
                }
            }
        }
        w2 = w2 + 1;
    }

    let tokens_relabeled = m;
    proof {
        lemma_sel_idxs(p_changed, n as int);
        let sel = sel_idxs(p_changed, n as int);
        assert(sel.take(m as int) =~= sel);
        assert forall|q: int|
            0 <= q < n implies #[trigger] t.tokens@[q].speaker == reconciled_speaker(
            otokens,
            wseq,
            patches@,
            cfg,
            q,
        ) by {
            if p_changed(q) {
                assert(sel.contains(q));
                let v = choose|v: int| 0 <= v < sel.len() && sel[v] == q;
                assert(t.tokens@[sel[v]].speaker == reconciled_speaker(
                    otokens,
                    wseq,
                    patches@,
                    cfg,
                    q,
                ));
            } else {
                assert(!sel.take(m as int).contains(q)) by {
                    if sel.take(m as int).contains(q) {
                        let v = choose|v: int|
                            0 <= v < sel.take(m as int).len() && sel.take(m as int)[v] == q;
                        assert(p_changed(sel[v]));
                    }
                }
            }
        }
    }
    if tokens_relabeled > 0 {
        proof {
            assert(tokens_wf(t.tokens@)) by {
                assert forall|q: int| 0 <= q < n implies (#[trigger] t.tokens@[q]).time_wf()
                    && t.tokens@[q].token_id == q as u64 && t.tokens@[q].original_index == q by {
                    assert(same_token_mod_label(t.tokens@[q], otokens[q]));
                    assert(otokens[q].time_wf());
                }
                assert forall|a: int, b: int|
                    0 <= a <= b < n implies #[trigger] t.tokens@[a].start_ms
                    <= #[trigger] t.tokens@[b].start_ms by {
                    assert(otokens[a].start_ms <= otokens[b].start_ms);
                }
            }
        }
        let ghost prerebuild = t.tokens@;
        rebuild_turns(t);
        let ghost mid = *t;
        proof {
            assert forall|q: int|
                0 <= q < n implies same_token_mod_label(#[trigger] mid.tokens@[q], otokens[q])
                && mid.tokens@[q].is_overlap_region == otokens[q].is_overlap_region
                && mid.tokens@[q].speaker == reconciled_speaker(
                otokens,
                wseq,
                patches@,
                cfg,
                q,
            ) by {
                assert(crate::models::same_token_mod_turn(mid.tokens@[q], prerebuild[q]));
                assert(same_token_mod_label(prerebuild[q], otokens[q]));
            }
            assert(vote_rel(*old(t), mid, wseq, patches@, cfg));
        }
        let _ = collapse_micro_turns(t, config.min_turn_duration_ms);
        proof {
            assert forall|q: int|
                0 <= q < n implies same_token_mod_label(#[trigger] t.tokens@[q], otokens[q])
                && t.tokens@[q].is_overlap_region == otokens[q].is_overlap_region by {
                assert(same_token_mod_label(t.tokens@[q], mid.tokens@[q]));
                assert(same_token_mod_label(mid.tokens@[q], otokens[q]));
            }
        }
    } else {
        proof {
            assert(*t == *old(t));
        }
    }
    Stage2Result { tokens_relabeled, conflicts_resolved: conflicts as usize }
}

/// `window_for` returns a member of the window sequence.
proof fn lemma_window_for_member(windows: Seq<Window>, wid: u64)
    requires
        window_for(windows, wid) is Some,
    ensures
        exists|k: int|
            0 <= k < windows.len() && #[trigger] windows[k] == window_for(windows, wid)->0,
    decreases windows.len(),
{
    if windows.len() > 0 {
        if windows[0].window_id == wid {
            assert(windows[0] == window_for(windows, wid)->0);
        } else {
            lemma_window_for_member(windows.drop_first(), wid);
            let k = choose|k: int|
                0 <= k < windows.drop_first().len() && #[trigger] windows.drop_first()[k]
                    == window_for(windows.drop_first(), wid)->0;
            assert(windows[k + 1] == window_for(windows, wid)->0);
        }
    }
}

} // verus!
