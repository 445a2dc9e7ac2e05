use vstd::prelude::*;

verus! {

/// Closed set of reasons a relabel or turn edit may cite.  Restricting the
/// vocabulary guards against fabricated justifications.
#[derive(Clone, Copy, PartialEq, Eq, Structural, Debug)]
pub enum ReasonCode {
    /// Short turn caused by speaker jitter.
    JitterShortTurn,
    /// Token near an overlap boundary.
    OverlapBoundary,
    /// Lexical continuity with surrounding tokens.
    LexicalContinuity,
    /// Question/answer dialogue pairing.
    DialoguePairing,
    /// Backchannel attribution (e.g. "yeah", "uh-huh").
    BackchannelAttribution,
    /// Explicitly keeping the token unchanged.
    DoNotChange,
}

/// A single token relabeling operation proposed for one window.
pub struct TokenRelabel {
    /// Identifier of the token to relabel.
    pub token_id: u64,
    /// New speaker label to assign.
    pub new_speaker: u32,
    /// Reason for the change.
    pub reason: ReasonCode,
}

/// Kind of turn edit operation.
#[derive(Clone, Copy, PartialEq, Eq, Structural, Debug)]
pub enum TurnEditType {
    /// Merge two consecutive turns into one.
    MergeTurns,
    /// Split a turn at a specific token.
    SplitTurn,
}

/// A proposed turn edit.  The reconciler treats these as advisory only: turns
/// are always re-derived from the tokens.
pub struct TurnEdit {
    /// Kind of edit.
    pub edit_type: TurnEditType,
    /// For a merge: the first turn; for a split: the turn to split.
    pub turn_id: u64,
    /// For a merge: the second turn, absorbed into the first.
    pub to_turn_id: Option<u64>,
    /// For a split: the token where the split should occur.
    pub split_at_token_id: Option<u64>,
    /// Reason for the edit.
    pub reason: ReasonCode,
}

/// Free-form notes accompanying a patch.
pub struct PatchNotes {
    /// Tokens the editor was uncertain about.
    pub uncertain_tokens: Vec<u64>,
    /// Summary of the changes made.
    pub summary: String,
}

impl Default for PatchNotes {
    /// No uncertain tokens and an empty summary.
    fn default() -> (r: Self)
        ensures
            r.uncertain_tokens@.len() == 0,
            r.summary@.len() == 0,
    {
        PatchNotes { uncertain_tokens: Vec::new(), summary: String::new() }
    }
}

/// The proposed edit for one window: relabels, advisory turn edits,
/// self-reported violations, and notes.
pub struct WindowPatch {
    /// Identifier of the window this patch applies to.
    pub window_id: u64,
    /// Token relabeling operations.
    pub token_relabels: Vec<TokenRelabel>,
    /// Advisory turn edit operations.
    pub turn_edits: Vec<TurnEdit>,
    /// Self-reported rule violations; any entry causes rejection.
    pub violations: Vec<String>,
    /// Notes and metadata.
    pub notes: PatchNotes,
}

impl WindowPatch {
    /// Whether the patch reports any violation of the editing rules.
    pub fn has_violations(&self) -> (r: bool)
        ensures
            r == (self.violations@.len() > 0),
    {
        self.violations.len() > 0
    }

    /// Number of relabel operations in the patch.
    pub fn relabel_count(&self) -> (r: usize)
        ensures
            r == self.token_relabels@.len(),
    {
        self.token_relabels.len()
    }

    /// Whether the patch proposes no change at all.
    pub fn is_empty(&self) -> (r: bool)
        ensures
            r == (self.token_relabels@.len() == 0 && self.turn_edits@.len() == 0),
    {
        self.token_relabels.len() == 0 && self.turn_edits.len() == 0
    }
}

/// Outcome of validating one patch.
pub struct PatchValidation {
    /// Whether the patch passed every check.
    pub is_valid: bool,
    /// What each failed check found.
    pub errors: Vec<String>,
    /// Fraction of the window's tokens relabeled, in thousandths.
    pub edit_budget_used: u128,
}

impl PatchValidation {
    /// A passing validation with the given budget usage.
    pub fn valid(edit_budget_used: u128) -> (r: Self)
        ensures
            r.is_valid,
            r.errors@.len() == 0,
            r.edit_budget_used == edit_budget_used,
    {
        PatchValidation { is_valid: true, errors: Vec::new(), edit_budget_used }
    }

    /// A failing validation carrying the errors found.
    pub fn invalid(errors: Vec<String>) -> (r: Self)
        ensures
            !r.is_valid,
            r.errors == errors,
            r.edit_budget_used == 0,
    {
        PatchValidation { is_valid: false, errors, edit_budget_used: 0 }
    }
}

} // verus!
