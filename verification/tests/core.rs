use diatribe::ingest::{tokenize_words, SourceWord};
use diatribe::models::TokenizedTranscript;
use diatribe::patch::{PatchNotes, WindowPatch};
use diatribe::reconcile::{execute_stage2, weighted_vote, LabelCandidate, Stage2Config};
use diatribe::stage1::Stage1Config;
use diatribe::validation::{validate_patch, ValidationConfig};
use diatribe::patch::{ReasonCode, TokenRelabel};
use diatribe::window::{Window, WindowSet};

fn word(w: &str, start: f64, end: f64, speaker: u32, conf: f64, sconf: Option<f64>) -> SourceWord {
    SourceWord {
        word: w.to_string(),
        punctuated_word: None,
        start_ms: (start * 1000.0) as u64,
        end_ms: (end * 1000.0) as u64,
        speaker,
        confidence: (conf * 1000.0) as u32,
        speaker_confidence: sconf.map(|c| (c * 1000.0) as u32),
    }
}

fn empty_window(id: u64, start_ms: u64, end_ms: u64) -> Window {
    Window {
        window_id: id,
        start_ms,
        end_ms,
        token_indices: vec![],
        anchor_prefix_indices: vec![],
        anchor_suffix_indices: vec![],
        is_problem_zone: false,
        problem_types: vec![],
    }
}

#[test]
fn ingest_splits_turns_at_speaker_changes() {
    let words = vec![
        word("hello", 0.5, 0.8, 0, 0.95, Some(0.85)),
        word("world", 0.9, 1.2, 0, 0.92, None),
        word("how", 1.5, 1.7, 1, 0.90, None),
        word("are", 1.8, 2.0, 1, 0.91, None),
        word("you", 2.1, 2.3, 1, 0.93, None),
    ];
    let transcript = tokenize_words(&words);
    assert_eq!(transcript.tokens.len(), 5);
    assert_eq!(transcript.turns.len(), 2);
    assert_eq!(transcript.speakers, vec![0, 1]);
    assert_eq!(transcript.turns[0].speaker, 0);
    assert_eq!(transcript.turns[0].token_indices, vec![0, 1]);
    assert_eq!(transcript.turns[1].speaker, 1);
    assert_eq!(transcript.turns[1].token_indices, vec![2, 3, 4]);
    // Token conversion keeps words, times and confidences.
    assert_eq!(transcript.tokens[0].word, "hello");
    assert_eq!(transcript.tokens[0].start_ms, 500);
    assert_eq!(transcript.tokens[0].end_ms, 800);
    assert_eq!(transcript.tokens[0].speaker, 0);
    assert_eq!(transcript.tokens[0].speaker_conf, 850);
    // The default speaker confidence is 0.5.
    assert_eq!(transcript.tokens[1].speaker_conf, 500);
}

#[test]
fn empty_input_gives_empty_transcript() {
    let transcript = tokenize_words(&vec![]);
    assert!(transcript.tokens.is_empty());
    assert!(transcript.turns.is_empty());
    assert!(transcript.speakers.is_empty());
}

#[test]
fn zero_duration_token_is_valid() {
    let words = vec![word("blip", 1.0, 1.0, 0, 0.9, None)];
    let transcript = tokenize_words(&words);
    assert_eq!(transcript.tokens[0].duration_ms(), 0);
    assert_eq!(transcript.turns.len(), 1);
}

#[test]
fn test_window_proximity_to_center() {
    let window = empty_window(0, 0, 10_000);
    assert_eq!(window.proximity_to_center(5_000), 1000);
    assert_eq!(window.proximity_to_center(0), 0);
    assert_eq!(window.proximity_to_center(10_000), 0);
    assert_eq!(window.proximity_to_center(2_500), 500);
}

#[test]
fn test_weighted_vote() {
    let candidates = vec![
        LabelCandidate { speaker: 0, window_id: 0, weight: 800 },
        LabelCandidate { speaker: 1, window_id: 1, weight: 300 },
        LabelCandidate { speaker: 0, window_id: 2, weight: 500 },
    ];
    assert_eq!(weighted_vote(&candidates), 0);
}

#[test]
fn test_weighted_vote_single() {
    let candidates = vec![LabelCandidate { speaker: 2, window_id: 0, weight: 1000 }];
    assert_eq!(weighted_vote(&candidates), 2);
}

#[test]
fn test_validate_empty_patch() {
    let patch = WindowPatch {
        window_id: 0,
        token_relabels: vec![],
        turn_edits: vec![],
        violations: vec![],
        notes: PatchNotes::default(),
    };
    let transcript = TokenizedTranscript { tokens: vec![], turns: vec![], speakers: vec![0, 1] };
    let window = empty_window(0, 0, 1000);
    let config = ValidationConfig::default();
    let result = validate_patch(&patch, &transcript, &window, &config);
    assert!(result.is_valid);
}

#[test]
fn test_validate_patch_with_violations() {
    let patch = WindowPatch {
        window_id: 0,
        token_relabels: vec![],
        turn_edits: vec![],
        violations: vec!["I changed a word".to_string()],
        notes: PatchNotes::default(),
    };
    let transcript = TokenizedTranscript { tokens: vec![], turns: vec![], speakers: vec![0, 1] };
    let window = empty_window(0, 0, 1000);
    let config = ValidationConfig::default();
    let result = validate_patch(&patch, &transcript, &window, &config);
    assert!(!result.is_valid);
    assert!(result.errors[0].contains("violations"));
}

#[test]
fn validate_rejects_non_editable_token() {
    let words = vec![
        word("one", 0.0, 0.5, 0, 0.9, None),
        word("two", 0.6, 1.0, 1, 0.9, None),
    ];
    let transcript = tokenize_words(&words);
    let mut window = empty_window(0, 0, 1000);
    window.token_indices = vec![0];
    let patch = WindowPatch {
        window_id: 0,
        token_relabels: vec![TokenRelabel {
            token_id: 1,
            new_speaker: 0,
            reason: ReasonCode::LexicalContinuity,
        }],
        turn_edits: vec![],
        violations: vec![],
        notes: PatchNotes::default(),
    };
    let result = validate_patch(&patch, &transcript, &window, &ValidationConfig::default());
    assert!(!result.is_valid);
}

#[test]
fn validate_rejects_disallowed_speaker_and_budget() {
    let words = vec![word("one", 0.0, 0.5, 0, 0.9, None)];
    let transcript = tokenize_words(&words);
    let mut window = empty_window(0, 0, 1000);
    window.token_indices = vec![0];
    // Disallowed speaker 9.
    let patch = WindowPatch {
        window_id: 0,
        token_relabels: vec![TokenRelabel {
            token_id: 0,
            new_speaker: 9,
            reason: ReasonCode::OverlapBoundary,
        }],
        turn_edits: vec![],
        violations: vec![],
        notes: PatchNotes::default(),
    };
    let result = validate_patch(&patch, &transcript, &window, &ValidationConfig::default());
    assert!(!result.is_valid);
    // Zero budget rejects any relabel.
    let patch2 = WindowPatch {
        window_id: 0,
        token_relabels: vec![TokenRelabel {
            token_id: 0,
            new_speaker: 1,
            reason: ReasonCode::OverlapBoundary,
        }],
        turn_edits: vec![],
        violations: vec![],
        notes: PatchNotes::default(),
    };
    let mut config = ValidationConfig::default();
    config.max_edit_budget_percent = 0;
    let result2 = validate_patch(&patch2, &transcript, &window, &config);
    assert!(!result2.is_valid);
}

#[test]
fn test_stage1_config_default() {
    let config = Stage1Config::default();
    assert_eq!(config.edit_budget_percent, 3);
    assert_eq!(config.max_retries, 2);
}

#[test]
fn reconciler_vote_applies_winner() {
    // One token by speaker 1 with low confidence; two windows vote for 0.
    let words = vec![
        word("a", 0.0, 0.4, 0, 0.9, Some(0.9)),
        word("b", 0.5, 0.9, 1, 0.9, Some(0.4)),
        word("c", 1.0, 1.4, 0, 0.9, Some(0.9)),
    ];
    let mut transcript = tokenize_words(&words);
    let mut w0 = empty_window(0, 0, 1000);
    w0.token_indices = vec![0, 1];
    let mut w1 = empty_window(1, 500, 1500);
    w1.token_indices = vec![1, 2];
    let windows = WindowSet { windows: vec![w0, w1], problem_window_indices: vec![0, 1] };
    let relabel = |wid: u64| WindowPatch {
        window_id: wid,
        token_relabels: vec![TokenRelabel {
            token_id: 1,
            new_speaker: 0,
            reason: ReasonCode::JitterShortTurn,
        }],
        turn_edits: vec![],
        violations: vec![],
        notes: PatchNotes::default(),
    };
    let patches = vec![relabel(0), relabel(1)];
    let result = execute_stage2(&mut transcript, &windows, &patches, &Stage2Config::default());
    assert_eq!(result.tokens_relabeled, 1);
    assert_eq!(transcript.tokens[1].speaker, 0);
    assert_eq!(transcript.turns.len(), 1);
}

#[test]
fn stable_span_needs_two_windows_to_override() {
    // The middle token is highly confident (0.9): one candidate is ignored,
    // two candidates override.
    let words = vec![
        word("a", 0.0, 0.4, 0, 0.9, Some(0.9)),
        word("b", 0.5, 0.9, 0, 0.9, Some(0.9)),
        word("c", 1.0, 1.4, 1, 0.9, Some(0.9)),
    ];
    let mk_windows = || {
        let mut w0 = empty_window(0, 0, 1000);
        w0.token_indices = vec![0, 1];
        let mut w1 = empty_window(1, 400, 1400);
        w1.token_indices = vec![1, 2];
        WindowSet { windows: vec![w0, w1], problem_window_indices: vec![0, 1] }
    };
    let relabel = |wid: u64| WindowPatch {
        window_id: wid,
        token_relabels: vec![TokenRelabel {
            token_id: 1,
            new_speaker: 1,
            reason: ReasonCode::DialoguePairing,
        }],
        turn_edits: vec![],
        violations: vec![],
        notes: PatchNotes::default(),
    };
    // One candidate: protected.
    let mut transcript = tokenize_words(&words);
    let windows = mk_windows();
    let r1 = execute_stage2(
        &mut transcript,
        &windows,
        &vec![relabel(0)],
        &Stage2Config::default(),
    );
    assert_eq!(r1.tokens_relabeled, 0);
    assert_eq!(transcript.tokens[1].speaker, 0);
    // Two candidates: overridden.
    let mut transcript2 = tokenize_words(&words);
    let r2 = execute_stage2(
        &mut transcript2,
        &windows,
        &vec![relabel(0), relabel(1)],
        &Stage2Config::default(),
    );
    assert_eq!(r2.tokens_relabeled, 1);
    assert_eq!(transcript2.tokens[1].speaker, 1);
}

#[test]
fn reconciler_is_order_independent() {
    let words = vec![
        word("a", 0.0, 0.4, 0, 0.9, Some(0.5)),
        word("b", 0.5, 0.9, 1, 0.9, Some(0.4)),
        word("c", 1.0, 1.4, 0, 0.9, Some(0.5)),
    ];
    let mut w0 = empty_window(0, 0, 1000);
    w0.token_indices = vec![0, 1];
    let mut w1 = empty_window(1, 500, 1500);
    w1.token_indices = vec![1, 2];
    let windows = WindowSet {
        windows: vec![w0, w1],
        problem_window_indices: vec![0, 1],
    };
    let patch = |wid: u64, spk: u32| WindowPatch {
        window_id: wid,
        token_relabels: vec![TokenRelabel {
            token_id: 1,
            new_speaker: spk,
            reason: ReasonCode::BackchannelAttribution,
        }],
        turn_edits: vec![],
        violations: vec![],
        notes: PatchNotes::default(),
    };
    let mut t1 = tokenize_words(&words);
    let mut t2 = tokenize_words(&words);
    execute_stage2(&mut t1, &windows, &vec![patch(0, 0), patch(1, 2)], &Stage2Config::default());
    execute_stage2(&mut t2, &windows, &vec![patch(1, 2), patch(0, 0)], &Stage2Config::default());
    for i in 0..t1.tokens.len() {
        assert_eq!(t1.tokens[i].speaker, t2.tokens[i].speaker);
    }
}

#[test]
fn cost_increase_rejected() {
    // Relabeling alternate tokens of a uniform run creates four speaker
    // switches: cost rises by 20, past the allowed increase of 10.
    let words = vec![
        word("a", 0.0, 0.4, 0, 0.9, None),
        word("b", 0.5, 0.9, 0, 0.9, None),
        word("c", 1.0, 1.4, 0, 0.9, None),
        word("d", 1.5, 1.9, 0, 0.9, None),
        word("e", 2.0, 2.4, 0, 0.9, None),
    ];
    let transcript = tokenize_words(&words);
    let mut window = empty_window(0, 0, 2500);
    window.token_indices = vec![0, 1, 2, 3, 4];
    let relabel = |id: u64| TokenRelabel {
        token_id: id,
        new_speaker: 1,
        reason: ReasonCode::OverlapBoundary,
    };
    let patch = WindowPatch {
        window_id: 0,
        token_relabels: vec![relabel(0), relabel(2), relabel(4)],
        turn_edits: vec![],
        violations: vec![],
        notes: PatchNotes::default(),
    };
    let mut config = ValidationConfig::default();
    config.max_edit_budget_percent = 100;
    let result = validate_patch(&patch, &transcript, &window, &config);
    assert!(!result.is_valid);
    // The same relabels pass once the allowed increase covers them.
    config.max_cost_increase = 30;
    let result2 = validate_patch(&patch, &transcript, &window, &config);
    assert!(result2.is_valid);
}
