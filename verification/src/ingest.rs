use vstd::prelude::*;

use crate::models::{tokens_wf, Token, TokenizedTranscript, CONF_UNIT, MAX_TIME_MS};
use crate::turns::rebuild_turns;

verus! {

/// Speaker confidence assumed when the source supplies none (0.5).
pub const DEFAULT_SPEAKER_CONF: u32 = 500;

/// One word record handed to ingest: times already converted to integer
/// milliseconds and confidences to thousandths.
pub struct SourceWord {
    /// The recognized text.
    pub word: String,
    /// Punctuated form of the word, when available.
    pub punctuated_word: Option<String>,
    /// Start timestamp in milliseconds.
    pub start_ms: u64,
    /// End timestamp in milliseconds.
    pub end_ms: u64,
    /// Numeric speaker label from the diarizer.
    pub speaker: u32,
    /// Transcription confidence in thousandths (0..=1000).
    pub confidence: u32,
    /// Speaker-assignment confidence in thousandths, when available.
    pub speaker_confidence: Option<u32>,
}

impl SourceWord {
    /// Times ordered and bounded, confidences in range.
    pub open spec fn wf(self) -> bool {
        &&& self.start_ms <= self.end_ms
        &&& self.end_ms <= MAX_TIME_MS
        &&& self.confidence <= CONF_UNIT
        &&& (self.speaker_confidence is Some ==> self.speaker_confidence->0 <= CONF_UNIT)
    }
}

/// The speaker confidence of a source word, with the default applied.
pub open spec fn spec_speaker_conf(w: SourceWord) -> u32 {
    match w.speaker_confidence {
        Some(c) => c,
        None => DEFAULT_SPEAKER_CONF,
    }
}

/// The token produced for source word `w` at position `i` carries exactly the
/// word's text, times and confidences, fresh sequential identifiers, and no
/// derived marks yet.
pub open spec fn token_from_word(t: Token, w: SourceWord, i: int) -> bool {
    &&& t.token_id == i as u64
    &&& t.word == w.word
    &&& t.punctuated_word == w.punctuated_word
    &&& t.start_ms == w.start_ms
    &&& t.end_ms == w.end_ms
    &&& t.speaker == w.speaker
    &&& t.speaker_conf == spec_speaker_conf(w)
    &&& t.transcription_conf == w.confidence
    &&& !t.is_overlap_region
    &&& t.original_index == i
}

/// Convert a source word list into a tokenized transcript: one token per word
/// in order, with initial turns cut at every speaker change.  An empty word
/// list yields an empty transcript.
pub fn tokenize_words(words: &Vec<SourceWord>) -> (r: TokenizedTranscript)
    requires
        forall|i: int| 0 <= i < words@.len() ==> (#[trigger] words@[i]).wf(),
        forall|i: int, j: int|
            0 <= i <= j < words@.len() ==> #[trigger] words@[i].start_ms
                <= #[trigger] words@[j].start_ms,
    ensures
        r.wf(),
        r.tokens@.len() == words@.len(),
        forall|i: int|
            0 <= i < words@.len() ==> token_from_word(#[trigger] r.tokens@[i], words@[i], i),
{
    let n = words.len();
    let mut tokens: Vec<Token> = Vec::new();
    let mut i: usize = 0;
    while i < n
        invariant
            0 <= i <= n,
            n == words@.len(),
            tokens@.len() == i,
            forall|q: int| 0 <= q < words@.len() ==> (#[trigger] words@[q]).wf(),
            forall|q: int, j: int|
                0 <= q <= j < words@.len() ==> #[trigger] words@[q].start_ms
                    <= #[trigger] words@[j].start_ms,
            forall|q: int|
                0 <= q < i ==> token_from_word(#[trigger] tokens@[q], words@[q], q),
        decreases n - i,
    {
        let w = &words[i];
        let speaker_conf = match w.speaker_confidence {
            Some(c) => c,
            None => DEFAULT_SPEAKER_CONF,
        };
        let punctuated = match &w.punctuated_word {
            Some(s) => Some(s.clone()),
            None => None,
        };
        let token = Token {
            token_id: i as u64,
            word: w.word.clone(),
            punctuated_word: punctuated,
            start_ms: w.start_ms,
            end_ms: w.end_ms,
            speaker: w.speaker,
            speaker_conf,
            transcription_conf: w.confidence,
            is_overlap_region: false,
            turn_id: 0,
            original_index: i,
        };
        tokens.push(token);
        i = i + 1;
    }
    let mut r = TokenizedTranscript { tokens, turns: Vec::new(), speakers: Vec::new() };
    proof {
        assert forall|q: int| 0 <= q < r.tokens@.len() implies (#[trigger] r.tokens@[q]).time_wf()
            && r.tokens@[q].token_id == q as u64 && r.tokens@[q].original_index == q by {
            assert(token_from_word(r.tokens@[q], words@[q], q));
            assert(words@[q].wf());
        }
        assert forall|a: int, b: int|
            0 <= a <= b < r.tokens@.len() implies #[trigger] r.tokens@[a].start_ms
            <= #[trigger] r.tokens@[b].start_ms by {
            assert(token_from_word(r.tokens@[a], words@[a], a));
            assert(token_from_word(r.tokens@[b], words@[b], b));
        }
        assert(tokens_wf(r.tokens@));
    }
    let ghost pre = r.tokens@;
    rebuild_turns(&mut r);
    proof {
        assert forall|q: int| 0 <= q < words@.len() implies token_from_word(
            #[trigger] r.tokens@[q],
            words@[q],
            q,
        ) by {
            assert(token_from_word(pre[q], words@[q], q));
            assert(crate::models::same_token_mod_turn(r.tokens@[q], pre[q]));
        }
    }
    r
}

} // verus!
