use vstd::prelude::*;

use crate::models::TokenizedTranscript;
use crate::patch::WindowPatch;
use crate::validation::{patch_valid, validate_patch, window_indices_wf, ValidationConfig};
use crate::window::Window;

verus! {

/// Token usage reported by the language-model service.
pub struct Usage {
    /// Tokens consumed by the request.
    pub input_tokens: u32,
    /// Tokens produced in the response.
    pub output_tokens: u32,
}

impl Usage {
    /// Accumulate another call's usage.
    pub fn add(&mut self, other: &Usage)
        requires
            old(self).input_tokens + other.input_tokens <= u32::MAX,
            old(self).output_tokens + other.output_tokens <= u32::MAX,
        ensures
            final(self).input_tokens == old(self).input_tokens + other.input_tokens,
            final(self).output_tokens == old(self).output_tokens + other.output_tokens,
    {
        self.input_tokens = self.input_tokens + other.input_tokens;
        self.output_tokens = self.output_tokens + other.output_tokens;
    }
}

impl Default for Usage {
    /// No usage yet.
    fn default() -> (r: Self)
        ensures
            r.input_tokens == 0,
            r.output_tokens == 0,
    {
        Usage { input_tokens: 0, output_tokens: 0 }
    }
}

/// Configuration for the language-model editing stage.
pub struct Stage1Config {
    /// Edit budget as a percentage of a window's tokens.
    pub edit_budget_percent: u32,
    /// How returned patches are validated.
    pub validation: ValidationConfig,
    /// Retries allowed per window after a failed validation.
    pub max_retries: u32,
}

impl Default for Stage1Config {
    /// 3% budget, default validation, 2 retries.
    fn default() -> (r: Self)
        ensures
            r.edit_budget_percent == 3,
            r.max_retries == 2,
            r.validation.max_edit_budget_percent == 3,
            r.validation.allowed_speakers@ =~= seq![0u32, 1u32, 2u32, 3u32],
            r.validation.max_cost_increase == 10,
    {
        Stage1Config {
            edit_budget_percent: 3,
            validation: ValidationConfig::default(),
            max_retries: 2,
        }
    }
}

/// Result of the language-model editing stage.
pub struct Stage1Result {
    /// The validated patches collected for reconciliation.
    pub patches: Vec<WindowPatch>,
    /// Number of problem windows processed.
    pub windows_processed: usize,
    /// Number of windows not forwarded to editing.
    pub windows_skipped: usize,
    /// Number of windows that never produced a valid patch.
    pub validation_failures: usize,
}

/// What the editing driver does with one returned patch.
#[derive(Clone, Copy, PartialEq, Eq, Structural, Debug)]
pub enum PatchOutcome {
    /// The patch passed validation: collect it.
    Accept,
    /// The patch failed validation and retries remain: ask again.
    Retry,
    /// The patch failed validation and no retries remain: drop the window.
    GiveUp,
}

/// Decide what to do with a patch returned for a window on the given attempt
/// (0-based): accept it when it validates, retry while attempts remain, give
/// the window up otherwise.  The transcript is never touched here.
pub fn judge_patch(
    patch: &WindowPatch,
    transcript: &TokenizedTranscript,
    window: &Window,
    config: &Stage1Config,
    attempt: u32,
) -> (r: PatchOutcome)
    requires
        window_indices_wf(transcript.tokens@, *window),
    ensures
        r == PatchOutcome::Accept <==> patch_valid(*patch, *transcript, *window, config.validation),
        r == PatchOutcome::Retry <==> (!patch_valid(*patch, *transcript, *window, config.validation)
            && attempt < config.max_retries),
        r == PatchOutcome::GiveUp <==> (!patch_valid(
            *patch,
            *transcript,
            *window,
            config.validation,
        ) && attempt >= config.max_retries),
{
    let validation = validate_patch(patch, transcript, window, &config.validation);
    if validation.is_valid {
        PatchOutcome::Accept
    } else if attempt < config.max_retries {
        PatchOutcome::Retry
    } else {
        PatchOutcome::GiveUp
    }
}

} // verus!
