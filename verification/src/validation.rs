use vstd::prelude::*;

use crate::models::{Token, TokenizedTranscript, Turn};
use crate::patch::{PatchValidation, TokenRelabel, WindowPatch};
use crate::select::sel_idxs;
use crate::window::Window;

verus! {

/// Weight of one speaker switch in the cost function.
pub const COST_PER_SWITCH: u64 = 5;

/// Weight of one short turn in the cost function.
pub const COST_PER_SHORT_TURN: u64 = 2;

/// Turns shorter than this many milliseconds count as short in the cost
/// function.
pub const COST_SHORT_TURN_MS: u64 = 700;

/// Configuration for patch validation.
pub struct ValidationConfig {
    /// Largest percentage of a window's tokens a patch may relabel.
    pub max_edit_budget_percent: u32,
    /// Speaker labels a patch may assign.
    pub allowed_speakers: Vec<u32>,
    /// Largest cost increase a patch may cause.
    pub max_cost_increase: u64,
}

impl Default for ValidationConfig {
    /// 3% edit budget, speakers 0 through 3, cost increase at most 10.
    fn default() -> (r: Self)
        ensures
            r.max_edit_budget_percent == 3,
            r.allowed_speakers@ =~= seq![0u32, 1u32, 2u32, 3u32],
            r.max_cost_increase == 10,
    {
        let mut allowed_speakers: Vec<u32> = Vec::new();
        allowed_speakers.push(0);
        allowed_speakers.push(1);
        allowed_speakers.push(2);
        allowed_speakers.push(3);
        ValidationConfig { max_edit_budget_percent: 3, allowed_speakers, max_cost_increase: 10 }
    }
}

/// The edit budget of a window: the relabel count may not exceed
/// `ceil(token_count * percent / 100)`.
pub open spec fn spec_budget(token_count: int, percent: int) -> int {
    (token_count * percent + 99) / 100
}

/// The speaker the patch assigns to the token with identifier `id`, when any
/// relabel names it; the last matching relabel wins.
pub open spec fn relabel_for(relabels: Seq<TokenRelabel>, id: u64) -> Option<u32>
    decreases relabels.len(),
{
    if relabels.len() == 0 {
        None
    } else if relabels[relabels.len() - 1].token_id == id {
        Some(relabels[relabels.len() - 1].new_speaker)
    } else {
        relabel_for(relabels.drop_last(), id)
    }
}

/// Every index of the window points into the token sequence.
pub open spec fn window_indices_wf(tokens: Seq<Token>, window: Window) -> bool {
    forall|m: int|
        0 <= m < window.token_indices@.len() ==> #[trigger] window.token_indices@[m] < tokens.len()
}

/// The identifier names an editable token of the window.
pub open spec fn editable_id(tokens: Seq<Token>, window: Window, id: u64) -> bool {
    exists|m: int|
        0 <= m < window.token_indices@.len() && (#[trigger] window.token_indices@[m]) < tokens.len()
            && tokens[window.token_indices@[m] as int].token_id == id
}

/// The speakers of the window's tokens, in window order.
pub open spec fn window_speakers(tokens: Seq<Token>, window: Window) -> Seq<u32> {
    Seq::new(window.token_indices@.len(), |m: int| tokens[window.token_indices@[m] as int].speaker)
}

/// The speakers of the window's tokens after applying the patch's relabels.
pub open spec fn patched_window_speakers(
    tokens: Seq<Token>,
    window: Window,
    relabels: Seq<TokenRelabel>,
) -> Seq<u32> {
    Seq::new(
        window.token_indices@.len(),
        |m: int|
            match relabel_for(relabels, tokens[window.token_indices@[m] as int].token_id) {
                Some(s) => s,
                None => tokens[window.token_indices@[m] as int].speaker,
            },
    )
}

/// Number of changes between consecutive entries of a label sequence.
pub open spec fn count_seq_switches(s: Seq<u32>) -> int
    decreases s.len(),
{
    if s.len() < 2 {
        0
    } else {
        count_seq_switches(s.drop_last()) + if s[s.len() - 2] != s[s.len() - 1] {
            1int
        } else {
            0int
        }
    }
}

/// Number of short turns whose time range touches the window.
pub open spec fn short_turn_count(turns: Seq<Turn>, window: Window) -> int {
    sel_idxs(
        |k: int|
            0 <= k < turns.len() && turns[k].start_ms < window.end_ms && turns[k].end_ms
                > window.start_ms && turns[k].end_ms - turns[k].start_ms < COST_SHORT_TURN_MS,
        turns.len() as int,
    ).len() as int
}

/// The cost of a label sequence inside a window: five per speaker switch plus
/// two per short turn touching the window.
pub open spec fn spec_cost(labels: Seq<u32>, turns: Seq<Turn>, window: Window) -> int {
    COST_PER_SWITCH * count_seq_switches(labels) + COST_PER_SHORT_TURN * short_turn_count(
        turns,
        window,
    )
}

/// The five validation checks, each exactly as the validator tests it.
pub open spec fn patch_checks(
    patch: WindowPatch,
    t: TokenizedTranscript,
    window: Window,
    config: ValidationConfig,
) -> (bool, bool, bool, bool, bool) {
    let viol_ok = patch.violations@.len() == 0;
    let tokens_ok = forall|r: int|
        0 <= r < patch.token_relabels@.len() ==> editable_id(
            t.tokens@,
            window,
            (#[trigger] patch.token_relabels@[r]).token_id,
        );
    let speakers_ok = forall|r: int|
        0 <= r < patch.token_relabels@.len() ==> config.allowed_speakers@.contains(
            (#[trigger] patch.token_relabels@[r]).new_speaker,
        );
    let budget_ok = patch.token_relabels@.len() <= spec_budget(
        window.token_indices@.len() as int,
        config.max_edit_budget_percent as int,
    );
    let cost_ok = spec_cost(
        patched_window_speakers(t.tokens@, window, patch.token_relabels@),
        t.turns@,
        window,
    ) <= spec_cost(window_speakers(t.tokens@, window), t.turns@, window)
        + config.max_cost_increase;
    (viol_ok, tokens_ok, speakers_ok, budget_ok, cost_ok)
}

/// A patch passes validation exactly when all five checks pass.
pub open spec fn patch_valid(
    patch: WindowPatch,
    t: TokenizedTranscript,
    window: Window,
    config: ValidationConfig,
) -> bool {
    let (viol_ok, tokens_ok, speakers_ok, budget_ok, cost_ok) = patch_checks(
        patch,
        t,
        window,
        config,
    );
    viol_ok && tokens_ok && speakers_ok && budget_ok && cost_ok
}

/// Look up the last relabel naming `id`.
fn relabel_lookup(relabels: &Vec<TokenRelabel>, id: u64) -> (r: Option<u32>)
    ensures
        r == relabel_for(relabels@, id),
{
    let n = relabels.len();
    proof {
        assert(relabels@.take(n as int) =~= relabels@);
    }
    let mut j: usize = n;
    while j > 0
        invariant
            0 <= j <= n,
            n == relabels@.len(),
            relabel_for(relabels@, id) == relabel_for(relabels@.take(j as int), id),
        decreases j,
    {
        proof {
            assert(relabels@.take(j as int).drop_last() =~= relabels@.take(j - 1));
            assert(relabels@.take(j as int)[j - 1] == relabels@[j - 1]);
        }
        if relabels[j - 1].token_id == id {
            return Some(relabels[j - 1].new_speaker);
        }
        j = j - 1;
    }
    proof {
        assert(relabels@.take(0) =~= Seq::<TokenRelabel>::empty());
    }
    None
}

/// Whether a speaker label occurs in the allowed list.
fn contains_speaker(v: &Vec<u32>, x: u32) -> (r: bool)
    ensures
        r == v@.contains(x),
{
    let n = v.len();
    let mut i: usize = 0;
    while i < n
        invariant
            0 <= i <= n,
            n == v@.len(),
            forall|q: int| 0 <= q < i ==> v@[q] != x,
        decreases n - i,
    {
        if v[i] == x {
            assert(v@.contains(x)) by {
                assert(v@[i as int] == x);
            }
            return true;
        }
        i = i + 1;
    }
    false
}

/// Count the switches of a label vector.
fn count_switches_vec(labels: &Vec<u32>) -> (r: u64)
    ensures
        r == count_seq_switches(labels@),
{
    let n = labels.len();
    if n < 2 {
        proof {
            assert(count_seq_switches(labels@) == 0);
        }
        return 0;
    }
    let mut switches: u64 = 0;
    let mut j: usize = 1;
    while j < n
        invariant
            1 <= j <= n,
            n == labels@.len(),
            switches == count_seq_switches(labels@.take(j as int)),
            switches < j,
        decreases n - j,
    {
        proof {
            assert(labels@.take(j + 1).drop_last() =~= labels@.take(j as int));
            assert(labels@.take(j + 1)[j as int] == labels@[j as int]);
            assert(labels@.take(j + 1)[j - 1] == labels@[j - 1]);
        }
        if labels[j - 1] != labels[j] {
            switches = switches + 1;
        }
        j = j + 1;
    }
    proof {
        assert(labels@.take(n as int) =~= labels@);
    }
    switches
}

/// Count the short turns touching the window.
fn count_short_turns(t: &TokenizedTranscript, window: &Window) -> (r: u64)
    ensures
        r == short_turn_count(t.turns@, *window),
{
    let ghost p = |k: int|
        0 <= k < t.turns@.len() && t.turns@[k].start_ms < window.end_ms && t.turns@[k].end_ms
            > window.start_ms && t.turns@[k].end_ms - t.turns@[k].start_ms < COST_SHORT_TURN_MS;
    let n = t.turns.len();
    let mut count: u64 = 0;
    let mut k: usize = 0;
    while k < n
        invariant
            0 <= k <= n,
            n == t.turns@.len(),
            p == (|k: int|
                0 <= k < t.turns@.len() && t.turns@[k].start_ms < window.end_ms
                    && t.turns@[k].end_ms > window.start_ms && t.turns@[k].end_ms
                    - t.turns@[k].start_ms < COST_SHORT_TURN_MS),
            count == sel_idxs(p, k as int).len(),
            count <= k,
        decreases n - k,
    {
        let turn = &t.turns[k];
        let dur: u64 = if turn.end_ms >= turn.start_ms {
            turn.end_ms - turn.start_ms
        } else {
            0
        };
        if turn.start_ms < window.end_ms && turn.end_ms > window.start_ms && dur
            < COST_SHORT_TURN_MS {
            count = count + 1;
            proof {
                assert(sel_idxs(p, k + 1) == sel_idxs(p, k as int).push(k as int));
            }
        } else {
            proof {
                assert(sel_idxs(p, k + 1) == sel_idxs(p, k as int));
            }
        }
        k = k + 1;
    }
    count
}

/// Validate one patch against its window: no self-reported violations, every
/// relabel inside the editable region, only allowed speakers, the edit budget
/// respected, and no large cost increase.  The result is valid exactly when
/// all five checks pass.
pub fn validate_patch(
    patch: &WindowPatch,
    transcript: &TokenizedTranscript,
    window: &Window,
    config: &ValidationConfig,
) -> (r: PatchValidation)
    requires
        window_indices_wf(transcript.tokens@, *window),
    ensures
        r.is_valid == patch_valid(*patch, *transcript, *window, *config),
        r.is_valid ==> patch.token_relabels@.len() <= spec_budget(
            window.token_indices@.len() as int,
            config.max_edit_budget_percent as int,
        ),
        r.is_valid ==> forall|q: int|
            0 <= q < patch.token_relabels@.len() ==> editable_id(
                transcript.tokens@,
                *window,
                (#[trigger] patch.token_relabels@[q]).token_id,
            ),
        r.is_valid ==> r.edit_budget_used == (if window.token_indices@.len() > 0 {
            (patch.token_relabels@.len() as int) * 1000 / (window.token_indices@.len() as int)
        } else {
            0
        }),
        !r.is_valid ==> r.errors@.len() > 0,
{
    let mut errors: Vec<String> = Vec::new();

    // Self-reported violations.
    let viol_ok = !patch.has_violations();
    if !viol_ok {
        errors.push(String::from_str("patch reports violations of the editing rules"));
    }

    // Every relabel must name an editable token of the window.
    let nr = patch.token_relabels.len();
    let nw = window.token_indices.len();
    let mut tokens_ok = true;
    let mut q: usize = 0;
    while q < nr
        invariant
            0 <= q <= nr,
            nr == patch.token_relabels@.len(),
            nw == window.token_indices@.len(),
            window_indices_wf(transcript.tokens@, *window),
            tokens_ok == forall|v: int|
                0 <= v < q ==> editable_id(
                    transcript.tokens@,
                    *window,
                    (#[trigger] patch.token_relabels@[v]).token_id,
                ),
            errors@.len() > 0 || (viol_ok && tokens_ok),
        decreases nr - q,
    {
        let id = patch.token_relabels[q].token_id;
        let mut found = false;
        let mut m: usize = 0;
        while m < nw
            invariant
                0 <= m <= nw,
                nw == window.token_indices@.len(),
                window_indices_wf(transcript.tokens@, *window),
                found ==> editable_id(transcript.tokens@, *window, id),
                !found ==> forall|w: int|
                    0 <= w < m ==> transcript.tokens@[#[trigger] window.token_indices@[w] as int].token_id
                        != id,
            decreases nw - m,
        {
            let idx = window.token_indices[m];
            if transcript.tokens[idx].token_id == id {
                found = true;
            }
            m = m + 1;
        }
        if !found {
            proof {
                assert(!editable_id(transcript.tokens@, *window, id));
            }
            tokens_ok = false;
            errors.push(String::from_str("a relabel names a token outside the editable window"));
        }
        q = q + 1;
    }

    // Every new speaker must be allowed.
    let mut speakers_ok = true;
    let mut q2: usize = 0;
    while q2 < nr
        invariant
            0 <= q2 <= nr,
            nr == patch.token_relabels@.len(),
            speakers_ok == forall|v: int|
                0 <= v < q2 ==> config.allowed_speakers@.contains(
                    (#[trigger] patch.token_relabels@[v]).new_speaker,
                ),
            errors@.len() > 0 || (viol_ok && tokens_ok && speakers_ok),
            tokens_ok == forall|v: int|
                0 <= v < nr ==> editable_id(
                    transcript.tokens@,
                    *window,
                    (#[trigger] patch.token_relabels@[v]).token_id,
                ),
        decreases nr - q2,
    {
        if !contains_speaker(&config.allowed_speakers, patch.token_relabels[q2].new_speaker) {
            speakers_ok = false;
            errors.push(String::from_str("a relabel assigns a speaker that is not allowed"));
        }
        q2 = q2 + 1;
    }

    // Edit budget.
    proof {
        assert((nw as u128) * (config.max_edit_budget_percent as u128)
            < 0x1_0000_0000_0000_0000_0000_0000u128) by (nonlinear_arith)
            requires
                nw <= usize::MAX,
                config.max_edit_budget_percent <= u32::MAX,
        ;
    }
    let budget128: u128 = ((nw as u128) * (config.max_edit_budget_percent as u128) + 99) / 100;
    let budget_ok = (nr as u128) <= budget128;
    proof {
        assert(budget128 as int == spec_budget(nw as int, config.max_edit_budget_percent as int));
    }
    if !budget_ok {
        errors.push(String::from_str("the patch exceeds the window's edit budget"));
    }
    let edit_budget_used: u128 = if nw > 0 {
        ((nr as u128) * 1000u128) / (nw as u128)
    } else {
        0
    };

    // Cost change.
    let mut before: Vec<u32> = Vec::new();
    let mut after: Vec<u32> = Vec::new();
    let mut m2: usize = 0;
    while m2 < nw
        invariant
            0 <= m2 <= nw,
            nw == window.token_indices@.len(),
            window_indices_wf(transcript.tokens@, *window),
            before@.len() == m2,
            after@.len() == m2,
            forall|w: int|
                0 <= w < m2 ==> #[trigger] before@[w] == window_speakers(
                    transcript.tokens@,
                    *window,
                )[w],
            forall|w: int|
                0 <= w < m2 ==> #[trigger] after@[w] == patched_window_speakers(
                    transcript.tokens@,
                    *window,
                    patch.token_relabels@,
                )[w],
        decreases nw - m2,
    {
        let idx = window.token_indices[m2];
        let tok_speaker = transcript.tokens[idx].speaker;
        before.push(tok_speaker);
        let after_speaker = match relabel_lookup(&patch.token_relabels, transcript.tokens[idx].token_id) {
            Some(s) => s,
            None => tok_speaker,
        };
        after.push(after_speaker);
        m2 = m2 + 1;
    }
    proof {
        assert(before@ =~= window_speakers(transcript.tokens@, *window));
        assert(after@ =~= patched_window_speakers(
            transcript.tokens@,
            *window,
            patch.token_relabels@,
        ));
    }
    let switches_before = count_switches_vec(&before);
    let switches_after = count_switches_vec(&after);
    let short_turns = count_short_turns(transcript, window);
    proof {
        assert((COST_PER_SWITCH as u128) * (switches_before as u128)
            < 0x1_0000_0000_0000_0000_0000u128 && (COST_PER_SWITCH as u128) * (
        switches_after as u128) < 0x1_0000_0000_0000_0000_0000u128 && (
        COST_PER_SHORT_TURN as u128) * (short_turns as u128)
            < 0x1_0000_0000_0000_0000_0000u128) by (nonlinear_arith)
            requires
                switches_before <= u64::MAX,
                switches_after <= u64::MAX,
                short_turns <= u64::MAX,
        ;
    }
    let cost_before: u128 = (COST_PER_SWITCH as u128) * (switches_before as u128) + (
    COST_PER_SHORT_TURN as u128) * (short_turns as u128);
    let cost_after: u128 = (COST_PER_SWITCH as u128) * (switches_after as u128) + (
    COST_PER_SHORT_TURN as u128) * (short_turns as u128);
    let cost_ok = cost_after <= cost_before + (config.max_cost_increase as u128);
    proof {
        assert(cost_before as int == spec_cost(
            window_speakers(transcript.tokens@, *window),
            transcript.turns@,
            *window,
        ));
        assert(cost_after as int == spec_cost(
            patched_window_speakers(transcript.tokens@, *window, patch.token_relabels@),
            transcript.turns@,
            *window,
        ));
    }
    if !cost_ok {
        errors.push(String::from_str("the patch raises the cost beyond the allowed increase"));
    }

    let is_all = viol_ok && tokens_ok && speakers_ok && budget_ok && cost_ok;
    proof {
        assert(is_all == patch_valid(*patch, *transcript, *window, *config));
    }
    if is_all {
        PatchValidation::valid(edit_budget_used)
    } else {
        assert(errors@.len() > 0);
        PatchValidation::invalid(errors)
    }
}

} // verus!
