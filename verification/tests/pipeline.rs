use diatribe::backchannels::{apply_backchannel_rules, find_floor_holder};
use diatribe::floor_holding::{apply_floor_holding, FloorState};
use diatribe::heuristics::{apply_heuristics, HeuristicsConfig};
use diatribe::ingest::{tokenize_words, SourceWord};
use diatribe::micro_turns::collapse_micro_turns;
use diatribe::normalize::normalize;
use diatribe::window::{ProblemType, ProblemZoneConfig, WindowConfig};

fn word(w: &str, start: f64, end: f64, speaker: u32, conf: f64, sconf: Option<f64>) -> SourceWord {
    SourceWord {
        word: w.to_string(),
        punctuated_word: None,
        start_ms: (start * 1000.0) as u64,
        end_ms: (end * 1000.0) as u64,
        speaker,
        confidence: (conf * 1000.0) as u32,
        speaker_confidence: sconf.map(|c| (c * 1000.0) as u32),
    }
}

#[test]
fn test_collapse_micro_turns() {
    // Speaker 0, then brief speaker 1 (micro-turn), then speaker 0 again.
    let words = vec![
        word("hello", 0.0, 0.5, 0, 0.95, None),
        word("there", 0.6, 1.0, 0, 0.95, None),
        word("yes", 1.1, 1.2, 1, 0.95, None),
        word("how", 1.3, 1.6, 0, 0.95, None),
        word("are", 1.7, 2.0, 0, 0.95, None),
    ];
    let mut transcript = tokenize_words(&words);
    let result = collapse_micro_turns(&mut transcript, 300);
    // The "yes" token is relabeled to speaker 0.
    assert_eq!(result.tokens_relabeled, 1);
    assert_eq!(transcript.tokens[2].speaker, 0);
    // The transcript collapses to a single turn over all five tokens.
    assert_eq!(transcript.turns.len(), 1);
    assert_eq!(transcript.turns[0].token_indices, vec![0, 1, 2, 3, 4]);
}

#[test]
fn test_find_floor_holder() {
    let words = vec![
        word("so", 0.0, 0.2, 0, 0.95, None),
        word("i", 0.3, 0.4, 0, 0.95, None),
        word("think", 0.5, 0.7, 0, 0.95, None),
        word("yeah", 0.8, 0.9, 0, 0.95, None),
        word("that", 1.0, 1.2, 0, 0.95, None),
    ];
    let transcript = tokenize_words(&words);
    let holder = find_floor_holder(&transcript, 3, 5000);
    assert_eq!(holder, Some(0));
}

#[test]
fn test_find_floor_holder_with_partial_overlap() {
    // Tokens partially overlapping the context window are counted.
    let words = vec![
        word("before", 4.4, 4.6, 1, 0.95, None),
        word("target", 5.0, 5.1, 0, 0.95, None),
        word("after", 5.5, 5.7, 1, 0.95, None),
    ];
    let transcript = tokenize_words(&words);
    // Context window: 4500 ms to 5600 ms; both neighbors overlap it partially.
    let holder = find_floor_holder(&transcript, 1, 500);
    assert_eq!(holder, Some(1));
}

#[test]
fn test_partial_overlap_not_counted_with_old_logic() {
    // The intersection rule counts any overlap, not just full containment.
    let start_time = 4500u64;
    let end_time = 5600u64;

    let before_start = 4400u64;
    let before_end = 4600u64;
    let old_logic = before_start >= start_time && before_end <= end_time;
    assert!(!old_logic, "Old logic incorrectly excludes partial overlap");
    let new_logic = before_start < end_time && before_end > start_time;
    assert!(new_logic, "New logic correctly includes partial overlap");

    let after_start = 5500u64;
    let after_end = 5700u64;
    let old_logic = after_start >= start_time && after_end <= end_time;
    assert!(!old_logic, "Old logic incorrectly excludes partial overlap");
    let new_logic = after_start < end_time && after_end > start_time;
    assert!(new_logic, "New logic correctly includes partial overlap");
}

#[test]
fn test_floor_state() {
    let config = HeuristicsConfig::default();
    let mut state = FloorState::new();
    // Speaker 0 talks for 2 seconds.
    state.update(0, 2000, 0, &config);
    assert!(state.get_score(0) > 0);
    // Speaker 1 says one word.
    state.update(1, 200, 2000, &config);
    // Speaker 0 still holds the floor.
    assert_eq!(state.floor_holder(300), Some(0));
}

#[test]
fn backchannel_moves_to_listener() {
    // "yeah" sits in speaker 0's run with low confidence while speaker 1 is
    // in listening range: it moves to speaker 1.
    let words = vec![
        word("so", 0.0, 0.2, 0, 0.95, None),
        word("i", 0.3, 0.4, 0, 0.95, None),
        word("think", 0.5, 0.7, 0, 0.95, None),
        word("yeah", 0.8, 0.9, 0, 0.95, Some(0.5)),
        word("that", 1.0, 1.2, 0, 0.95, None),
        word("anyway", 3.0, 3.5, 1, 0.95, None),
    ];
    let mut transcript = tokenize_words(&words);
    let config = HeuristicsConfig::default();
    let result = apply_backchannel_rules(&mut transcript, &config.backchannel_words);
    assert_eq!(result.tokens_relabeled, 1);
    assert_eq!(transcript.tokens[3].speaker, 1);
}

#[test]
fn backchannel_without_listener_defers() {
    let words = vec![
        word("so", 0.0, 0.2, 0, 0.95, None),
        word("i", 0.3, 0.4, 0, 0.95, None),
        word("think", 0.5, 0.7, 0, 0.95, None),
        word("yeah", 0.8, 0.9, 0, 0.95, Some(0.5)),
        word("that", 1.0, 1.2, 0, 0.95, None),
    ];
    let mut transcript = tokenize_words(&words);
    let config = HeuristicsConfig::default();
    let result = apply_backchannel_rules(&mut transcript, &config.backchannel_words);
    assert_eq!(result.tokens_relabeled, 0);
    assert!(result.needs_llm);
    assert_eq!(transcript.tokens[3].speaker, 0);
}

#[test]
fn backchannel_lowercases_before_matching() {
    // An uppercase "YEAH" still counts as a backchannel: the lowercase
    // mapping is applied before the vocabulary lookup.
    let words = vec![
        word("so", 0.0, 0.2, 0, 0.95, None),
        word("i", 0.3, 0.4, 0, 0.95, None),
        word("think", 0.5, 0.7, 0, 0.95, None),
        word("YEAH", 0.8, 0.9, 0, 0.95, Some(0.5)),
        word("that", 1.0, 1.2, 0, 0.95, None),
        word("anyway", 3.0, 3.5, 1, 0.95, None),
    ];
    let mut transcript = tokenize_words(&words);
    let config = HeuristicsConfig::default();
    let result = apply_backchannel_rules(&mut transcript, &config.backchannel_words);
    assert_eq!(result.tokens_relabeled, 1);
    assert_eq!(transcript.tokens[3].speaker, 1);
}

#[test]
fn floor_flip_relabeled_to_holder() {
    // A long speaker-0 run, then one low-confidence speaker-1 token
    // sandwiched between speaker-0 tokens: it returns to speaker 0.
    let mut words = Vec::new();
    for i in 0..10 {
        let start = i as f64 * 0.5;
        words.push(word("w", start, start + 0.4, 0, 0.95, Some(0.9)));
    }
    words.push(word("blip", 5.0, 5.2, 1, 0.95, Some(0.6)));
    words.push(word("more", 5.4, 5.8, 0, 0.95, Some(0.9)));
    let mut transcript = tokenize_words(&words);
    let config = HeuristicsConfig::default();
    let result = apply_floor_holding(&mut transcript, &config);
    assert_eq!(result.tokens_relabeled, 1);
    assert_eq!(transcript.tokens[10].speaker, 0);
    assert_eq!(transcript.turns.len(), 1);
}

#[test]
fn heuristics_fixed_point_on_second_run() {
    let words = vec![
        word("hello", 0.0, 0.5, 0, 0.95, None),
        word("there", 0.6, 1.0, 0, 0.95, None),
        word("yes", 1.1, 1.2, 1, 0.95, None),
        word("how", 1.3, 1.6, 0, 0.95, None),
        word("are", 1.7, 2.0, 0, 0.95, None),
    ];
    let mut transcript = tokenize_words(&words);
    let config = HeuristicsConfig::default();
    let first = apply_heuristics(&mut transcript, &config);
    assert_eq!(first.tokens_relabeled, 1);
    let second = apply_heuristics(&mut transcript, &config);
    assert_eq!(second.tokens_relabeled, 0);
}

#[test]
fn single_speaker_unchanged_by_heuristics() {
    let words = vec![
        word("just", 0.0, 0.4, 2, 0.95, None),
        word("me", 0.5, 0.8, 2, 0.95, Some(0.4)),
        word("talking", 0.9, 1.4, 2, 0.95, None),
    ];
    let mut transcript = tokenize_words(&words);
    assert_eq!(transcript.turns.len(), 1);
    let config = HeuristicsConfig::default();
    let result = apply_heuristics(&mut transcript, &config);
    assert_eq!(result.tokens_relabeled, 0);
    assert_eq!(transcript.turns.len(), 1);
    for t in &transcript.tokens {
        assert_eq!(t.speaker, 2);
    }
}

#[test]
fn test_detect_short_turns() {
    let words = vec![
        word("hello", 0.0, 0.2, 0, 0.95, None),
        word("yes", 0.3, 0.4, 1, 0.95, None),
        word("how", 0.5, 0.7, 0, 0.95, None),
    ];
    let mut transcript = tokenize_words(&words);
    let config = ProblemZoneConfig::default();
    let result = normalize(&mut transcript, &WindowConfig::default(), &config);
    let short_turn_zones: Vec<_> = result
        .problem_zones
        .iter()
        .filter(|z| z.problem_type == ProblemType::ShortTurn)
        .collect();
    assert!(!short_turn_zones.is_empty());
}

#[test]
fn empty_input_yields_no_windows_or_zones() {
    let mut transcript = tokenize_words(&vec![]);
    let result = normalize(
        &mut transcript,
        &WindowConfig::default(),
        &ProblemZoneConfig::default(),
    );
    assert_eq!(result.windows.total_windows(), 0);
    assert_eq!(result.problem_zones.len(), 0);
    assert_eq!(result.transcript.tokens.len(), 0);
}

#[test]
fn window_partition_of_two_minutes() {
    // A 120-second transcript with defaults: 8 windows starting every 15 s;
    // the token at 47 s appears in the windows starting at 15, 30 and 45 s.
    let mut words = Vec::new();
    for i in 0..120 {
        let start = i as f64;
        words.push(word("w", start, start + 0.5, (i % 2) as u32, 0.95, None));
    }
    let mut transcript = tokenize_words(&words);
    let result = normalize(
        &mut transcript,
        &WindowConfig::default(),
        &ProblemZoneConfig::default(),
    );
    let windows = &result.windows.windows;
    assert_eq!(windows.len(), 8);
    for (k, w) in windows.iter().enumerate() {
        assert_eq!(w.start_ms, k as u64 * 15_000);
    }
    for (k, w) in windows.iter().enumerate() {
        let holds_47 = w.token_indices.contains(&47);
        let expected = k >= 1 && k <= 3;
        assert_eq!(holds_47, expected, "window {}", k);
    }
}

#[test]
fn boundary_windows_have_empty_anchors() {
    let mut words = Vec::new();
    for i in 0..60 {
        let start = i as f64;
        words.push(word("w", start, start + 0.5, 0, 0.95, None));
    }
    let mut transcript = tokenize_words(&words);
    let result = normalize(
        &mut transcript,
        &WindowConfig::default(),
        &ProblemZoneConfig::default(),
    );
    let windows = &result.windows.windows;
    assert!(windows.len() >= 2);
    // The first window starts at the first token: no prefix context exists.
    assert!(windows[0].anchor_prefix_indices.is_empty());
    // The last window extends past the transcript: no suffix context exists.
    assert!(windows[windows.len() - 1].anchor_suffix_indices.is_empty());
}

#[test]
fn overlap_regions_marked_on_close_speaker_changes() {
    let words = vec![
        word("one", 0.0, 1.0, 0, 0.95, None),
        word("two", 1.05, 2.0, 1, 0.95, None),
        word("three", 5.0, 6.0, 0, 0.95, None),
    ];
    let mut transcript = tokenize_words(&words);
    let _ = normalize(
        &mut transcript,
        &WindowConfig::default(),
        &ProblemZoneConfig::default(),
    );
    assert!(transcript.tokens[0].is_overlap_region);
    assert!(transcript.tokens[1].is_overlap_region);
    assert!(!transcript.tokens[2].is_overlap_region);
}

#[test]
fn floor_scores_follow_rational_decay() {
    // One update with no elapsed time boosts by half the duration (in
    // thousandths) and normalizes to the unit; two seconds later the score
    // has decayed by 1 / (1 + 0.2 * 2).
    let config = HeuristicsConfig::default();
    let mut state = FloorState::new();
    state.update(0, 2000, 0, &config);
    assert_eq!(state.get_score(0), 1000);
    state.update(1, 200, 2000, &config);
    assert_eq!(state.get_score(0), 714);
    assert_eq!(state.get_score(1), 100);
}
