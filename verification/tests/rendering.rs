use diatribe::analyze::{count_zone_kind, speaker_summary};
use diatribe::ingest::{tokenize_words, SourceWord};
use diatribe::prompts::{build_speaker_id_user_prompt, build_window_prompt};
use diatribe::render::{
    execute_stage3, format_timestamp, wrap_text, HumanTranscript, MachineTranscript, Stage3Config,
    TranscriptMetadata,
};
use diatribe::speaker_id::{
    build_speaker_context, parse_participants_string, Participant, SpeakerIdConfig,
    SpeakerIdResult, SpeakerIdentification,
};
use diatribe::normalize::normalize;
use diatribe::stage1::Usage;
use diatribe::window::{ProblemType, ProblemZoneConfig, WindowConfig};

fn word(w: &str, start: f64, end: f64, speaker: u32, conf: f64, sconf: Option<f64>) -> SourceWord {
    SourceWord {
        word: w.to_string(),
        punctuated_word: None,
        start_ms: (start * 1000.0) as u64,
        end_ms: (end * 1000.0) as u64,
        speaker,
        confidence: (conf * 1000.0) as u32,
        speaker_confidence: sconf.map(|c| (c * 1000.0) as u32),
    }
}

#[test]
fn test_format_timestamp() {
    assert_eq!(format_timestamp(0).as_str(), "00:00.000");
    assert_eq!(format_timestamp(1500).as_str(), "00:01.500");
    assert_eq!(format_timestamp(65_000).as_str(), "01:05.000");
    assert_eq!(format_timestamp(3_661_500).as_str(), "61:01.500");
}

#[test]
fn test_wrap_text() {
    let text = "This is a test of the text wrapping function that should wrap at 20 chars";
    let wrapped = wrap_text(text, 20);
    for line in wrapped.as_str().lines() {
        assert!(line.len() <= 25); // Allow some slack for long words
    }
}

#[test]
fn test_build_user_prompt() {
    let participants = vec![
        Participant::new("Alice".to_string()),
        Participant::with_hints("Bob".to_string(), "Technical lead".to_string()),
    ];
    let excerpts = vec![
        (0, vec!["Hi everyone, this is Alice.".to_string()]),
        (1, vec!["Thanks Alice, let me share my screen.".to_string()]),
    ];
    let speaker_ids = vec![0, 1];
    let prompt = build_speaker_id_user_prompt(&participants, &excerpts, &speaker_ids);
    assert!(prompt.contains("Alice"));
    assert!(prompt.contains("Bob"));
    assert!(prompt.contains("Technical lead"));
    assert!(prompt.contains("Speaker 0"));
    assert!(prompt.contains("Speaker 1"));
}

#[test]
fn test_stage3_config_default() {
    let config = Stage3Config::default();
    assert!(config.generate_machine);
    assert!(config.generate_human);
}

#[test]
fn test_parse_participants_string() {
    let result = parse_participants_string("Alice Chen, Bob Smith, Carol Davis");
    assert_eq!(result.len(), 3);
    assert_eq!(result[0].name, "Alice Chen");
    assert_eq!(result[1].name, "Bob Smith");
    assert_eq!(result[2].name, "Carol Davis");
}

#[test]
fn test_parse_participants_string_with_extra_spaces() {
    let result = parse_participants_string("  Alice  ,  Bob  ");
    assert_eq!(result.len(), 2);
    assert_eq!(result[0].name, "Alice");
    assert_eq!(result[1].name, "Bob");
}

#[test]
fn test_parse_participants_string_empty() {
    let result = parse_participants_string("");
    assert_eq!(result.len(), 0);
}

#[test]
fn human_view_formats_turn_paragraphs() {
    let words = vec![
        word("hello", 0.0, 0.5, 0, 0.95, None),
        word("there", 0.6, 1.0, 0, 0.95, None),
        word("hi", 1.5, 1.9, 1, 0.95, None),
    ];
    let transcript = tokenize_words(&words);
    let view = HumanTranscript::new(&transcript);
    let text = view.format();
    assert_eq!(
        text.as_str(),
        "[00:00.000] Speaker 0:\nhello there\n\n[00:01.500] Speaker 1:\nhi\n\n"
    );
}

#[test]
fn human_view_uses_display_names() {
    let words = vec![word("hello", 0.0, 0.5, 0, 0.95, None)];
    let transcript = tokenize_words(&words);
    let names = vec![(0u32, "Alice".to_string())];
    let view = HumanTranscript::with_speaker_names(&transcript, names);
    let text = view.format();
    assert_eq!(text.as_str(), "[00:00.000] Alice:\nhello\n\n");
}

#[test]
fn machine_view_tracks_relabels() {
    let words = vec![
        word("a", 0.0, 0.4, 0, 0.95, None),
        word("b", 0.5, 0.9, 1, 0.95, None),
    ];
    let transcript = tokenize_words(&words);
    let original_speakers = vec![0u32, 0u32];
    let metadata = TranscriptMetadata {
        total_tokens: 2,
        total_turns: 2,
        tokens_relabeled: 1,
        duration_ms: 900,
        windows_processed: 0,
    };
    let machine = MachineTranscript::from_transcript(&transcript, &original_speakers, metadata);
    assert_eq!(machine.tokens.len(), 2);
    assert!(!machine.tokens[0].was_relabeled);
    assert!(machine.tokens[1].was_relabeled);
    assert_eq!(machine.tokens[1].original_speaker, 0);
    assert_eq!(machine.tokens[1].speaker, 1);
    assert_eq!(machine.turns.len(), 2);
    assert_eq!(machine.speakers, vec![0, 1]);
}

#[test]
fn stage3_renders_requested_views() {
    let words = vec![word("a", 0.0, 0.4, 0, 0.95, None)];
    let transcript = tokenize_words(&words);
    let metadata = TranscriptMetadata {
        total_tokens: 1,
        total_turns: 1,
        tokens_relabeled: 0,
        duration_ms: 400,
        windows_processed: 0,
    };
    let result = execute_stage3(
        &transcript,
        &vec![0u32],
        metadata,
        &Stage3Config::default(),
        vec![],
    );
    assert!(result.machine.is_some());
    let human = result.human.unwrap();
    assert_eq!(human.as_str(), "[00:00.000] Speaker 0:\na\n\n");
}

#[test]
fn window_prompt_lists_budget_and_tokens() {
    let words = vec![
        word("alpha", 0.0, 0.5, 0, 0.95, None),
        word("beta", 0.6, 1.0, 1, 0.95, None),
    ];
    let mut transcript = tokenize_words(&words);
    let result = normalize(
        &mut transcript,
        &WindowConfig::default(),
        &ProblemZoneConfig::default(),
    );
    let window = &result.windows.windows[0];
    let prompt = build_window_prompt(&transcript, window, 3);
    assert!(prompt.contains("# Window: 0"));
    assert!(prompt.contains("Edit budget: 1 tokens (3% of 2)"));
    assert!(prompt.contains("\"word\":\"alpha\""));
    assert!(prompt.contains("## Tokens (EDITABLE)"));
    assert!(prompt.contains("## Speaker Hints"));
}

#[test]
fn speaker_context_prefers_punctuated_words() {
    let mut words = vec![
        word("hi", 0.0, 0.4, 0, 0.95, None),
        word("there", 0.5, 0.9, 0, 0.95, None),
    ];
    words[1].punctuated_word = Some("there!".to_string());
    let transcript = tokenize_words(&words);
    let entries = build_speaker_context(&transcript, &SpeakerIdConfig::default());
    assert_eq!(entries.len(), 1);
    assert_eq!(entries[0].0, 0);
    assert_eq!(entries[0].1.len(), 1);
    assert_eq!(entries[0].1[0].as_str(), "hi there!");
}

#[test]
fn identifications_filtered_by_confidence() {
    let ids = vec![
        SpeakerIdentification {
            speaker_id: 0,
            identified_as: Some("Alice".to_string()),
            confidence: 900,
            evidence: vec![],
        },
        SpeakerIdentification {
            speaker_id: 1,
            identified_as: Some("Bob".to_string()),
            confidence: 400,
            evidence: vec![],
        },
        SpeakerIdentification {
            speaker_id: 2,
            identified_as: None,
            confidence: 900,
            evidence: vec![],
        },
    ];
    let result = SpeakerIdResult::from_identifications(
        ids,
        700,
        Usage { input_tokens: 0, output_tokens: 0 },
    );
    assert_eq!(result.display_names.len(), 1);
    assert_eq!(result.display_names[0].0, 0);
    assert_eq!(result.display_names[0].1.as_str(), "Alice");
}

#[test]
fn analyze_counts_speaker_share() {
    let words = vec![
        word("a", 0.0, 0.4, 0, 0.95, Some(0.8)),
        word("b", 0.5, 0.9, 0, 0.95, Some(0.6)),
        word("c", 1.0, 1.4, 1, 0.95, Some(0.9)),
    ];
    let transcript = tokenize_words(&words);
    let s0 = speaker_summary(&transcript, 0);
    assert_eq!(s0.word_count, 2);
    assert_eq!(s0.turn_count, 1);
    assert_eq!(s0.avg_turn_duration_ms, 900);
    assert_eq!(s0.avg_confidence, 700);
    let zones: Vec<diatribe::window::ProblemZone> = vec![];
    assert_eq!(count_zone_kind(&zones, ProblemType::ShortTurn), 0);
}
