use vstd::prelude::*;

verus! {

/// Upper bound on any timestamp the pipeline handles (about 285,000 years in
/// milliseconds).  Keeping every timestamp under this bound lets collar and
/// window arithmetic (`end_ms + anchor_ms` and the like) stay inside `u64`.
pub const MAX_TIME_MS: u64 = 0x20_0000_0000_0000;

/// Confidence values are stored in thousandths: 0 stands for 0.0, 1000 for 1.0.
pub const CONF_UNIT: u32 = 1000;

/// An immutable word with a mutable speaker label.
///
/// `word`, `start_ms`, `end_ms`, `token_id` and `original_index` never change
/// after ingest; `speaker` is the sole field the pipeline rewrites, and
/// `is_overlap_region` / `turn_id` are derived bookkeeping.
pub struct Token {
    /// Unique identifier, assigned sequentially at ingest and stable afterwards.
    pub token_id: u64,
    /// The word text; never changed by the pipeline.
    pub word: String,
    /// Punctuated form of the word, when the source supplies one.
    pub punctuated_word: Option<String>,
    /// Start timestamp in milliseconds.
    pub start_ms: u64,
    /// End timestamp in milliseconds; at least `start_ms`.
    pub end_ms: u64,
    /// Numeric speaker label.
    pub speaker: u32,
    /// Speaker-assignment confidence in thousandths (0..=1000).
    pub speaker_conf: u32,
    /// Transcription confidence in thousandths (0..=1000).
    pub transcription_conf: u32,
    /// Whether this token lies in an overlap region (set during normalization).
    pub is_overlap_region: bool,
    /// Index of the turn containing this token; updated on every turn rebuild.
    pub turn_id: u64,
    /// Position of the word in the source word list.
    pub original_index: usize,
}

impl Token {
    /// A token's times are ordered and bounded, and confidences are in range.
    pub open spec fn time_wf(self) -> bool {
        &&& self.start_ms <= self.end_ms
        &&& self.end_ms <= MAX_TIME_MS
        &&& self.speaker_conf <= CONF_UNIT
        &&& self.transcription_conf <= CONF_UNIT
    }

    /// Duration of this token in milliseconds.
    pub fn duration_ms(&self) -> (r: u64)
        requires
            self.start_ms <= self.end_ms,
        ensures
            r == self.end_ms - self.start_ms,
    {
        self.end_ms - self.start_ms
    }
}

/// A maximal run of consecutive tokens sharing one speaker.  Derived from the
/// token sequence; rebuilt whenever any token's speaker changes.
pub struct Turn {
    /// Index of this turn in the transcript's turn sequence.
    pub turn_id: u64,
    /// The speaker all tokens of this turn share.
    pub speaker: u32,
    /// `start_ms` of the turn's first token.
    pub start_ms: u64,
    /// `end_ms` of the turn's last token.
    pub end_ms: u64,
    /// Indices into the token sequence: a contiguous, increasing range.
    pub token_indices: Vec<usize>,
}

impl Turn {
    /// Duration of this turn in milliseconds.
    pub fn duration_ms(&self) -> (r: u64)
        requires
            self.start_ms <= self.end_ms,
        ensures
            r == self.end_ms - self.start_ms,
    {
        self.end_ms - self.start_ms
    }

    /// Number of tokens in this turn.
    pub fn token_count(&self) -> (r: usize)
        ensures
            r == self.token_indices@.len(),
    {
        self.token_indices.len()
    }
}

/// Two tokens agree on every field except possibly `turn_id`.
pub open spec fn same_token_mod_turn(a: Token, b: Token) -> bool {
    &&& a.token_id == b.token_id
    &&& a.word == b.word
    &&& a.punctuated_word == b.punctuated_word
    &&& a.start_ms == b.start_ms
    &&& a.end_ms == b.end_ms
    &&& a.speaker == b.speaker
    &&& a.speaker_conf == b.speaker_conf
    &&& a.transcription_conf == b.transcription_conf
    &&& a.is_overlap_region == b.is_overlap_region
    &&& a.original_index == b.original_index
}

/// Two tokens agree on every immutable field: only `speaker`, `turn_id` and
/// `is_overlap_region` — the fields the pipeline is allowed to rewrite — may
/// differ.  Word preservation is exactly this relation holding pointwise.
pub open spec fn same_token_mod_label(a: Token, b: Token) -> bool {
    &&& a.token_id == b.token_id
    &&& a.word == b.word
    &&& a.punctuated_word == b.punctuated_word
    &&& a.start_ms == b.start_ms
    &&& a.end_ms == b.end_ms
    &&& a.speaker_conf == b.speaker_conf
    &&& a.transcription_conf == b.transcription_conf
    &&& a.original_index == b.original_index
}

/// Two tokens agree on every field except possibly `is_overlap_region`.
pub open spec fn same_token_mod_overlap(a: Token, b: Token) -> bool {
    &&& a.token_id == b.token_id
    &&& a.word == b.word
    &&& a.punctuated_word == b.punctuated_word
    &&& a.start_ms == b.start_ms
    &&& a.end_ms == b.end_ms
    &&& a.speaker == b.speaker
    &&& a.speaker_conf == b.speaker_conf
    &&& a.transcription_conf == b.transcription_conf
    &&& a.turn_id == b.turn_id
    &&& a.original_index == b.original_index
}

/// Pointwise `same_token_mod_label` over whole token sequences.
pub open spec fn tokens_preserved(a: Seq<Token>, b: Seq<Token>) -> bool {
    &&& a.len() == b.len()
    &&& forall|i: int| 0 <= i < a.len() ==> same_token_mod_label(#[trigger] a[i], b[i])
}

/// Two turns carry the same data (their index vectors may be distinct
/// allocations with equal contents).
pub open spec fn turn_like(a: Turn, b: Turn) -> bool {
    &&& a.turn_id == b.turn_id
    &&& a.speaker == b.speaker
    &&& a.start_ms == b.start_ms
    &&& a.end_ms == b.end_ms
    &&& a.token_indices@ == b.token_indices@
}

/// Two transcripts carry the same data.
pub open spec fn transcript_like(a: TokenizedTranscript, b: TokenizedTranscript) -> bool {
    &&& a.tokens@ == b.tokens@
    &&& a.speakers@ == b.speakers@
    &&& a.turns@.len() == b.turns@.len()
    &&& forall|k: int| 0 <= k < a.turns@.len() ==> turn_like(#[trigger] a.turns@[k], b.turns@[k])
}

/// The indices of a turn form the contiguous range starting at its first entry.
pub open spec fn turn_indices_contiguous(turn: Turn) -> bool {
    &&& turn.token_indices@.len() > 0
    &&& forall|m: int|
        0 <= m < turn.token_indices@.len() ==> #[trigger] turn.token_indices@[m]
            == turn.token_indices@[0] + m
}

/// One turn's body is well formed with respect to the token sequence:
/// contiguous indices in range, a single shared speaker, boundary times taken
/// from its first and last token, and its `turn_id` equal to its position.
/// (Token back-references are stated separately in `turn_backrefs_at`.)
pub open spec fn turn_body_wf_at(tokens: Seq<Token>, turns: Seq<Turn>, k: int) -> bool {
    let turn = turns[k];
    let first = turn.token_indices@[0];
    let last = turn.token_indices@[turn.token_indices@.len() - 1];
    &&& turn_indices_contiguous(turn)
    &&& last < tokens.len()
    &&& turn.turn_id == k as u64
    &&& turn.start_ms == tokens[first as int].start_ms
    &&& turn.end_ms == tokens[last as int].end_ms
    &&& forall|m: int|
        0 <= m < turn.token_indices@.len() ==> #[trigger] tokens[turn.token_indices@[m] as int].speaker
            == turn.speaker
}

/// Every token of turn `k` points back at `k` through its `turn_id`.
pub open spec fn turn_backrefs_at(tokens: Seq<Token>, turns: Seq<Turn>, k: int) -> bool {
    let turn = turns[k];
    forall|m: int|
        0 <= m < turn.token_indices@.len() ==> #[trigger] tokens[turn.token_indices@[m] as int].turn_id
            == k as u64
}

/// One turn is fully well formed: body and back-references.
pub open spec fn turn_wf_at(tokens: Seq<Token>, turns: Seq<Turn>, k: int) -> bool {
    &&& turn_body_wf_at(tokens, turns, k)
    &&& turn_backrefs_at(tokens, turns, k)
}

/// The turns tile the index range `[0, upto)`: the first turn starts at 0,
/// each turn begins right after its predecessor ends, the last turn ends at
/// `upto`, and adjacent turns have different speakers.
pub open spec fn turns_chain(turns: Seq<Turn>, upto: int) -> bool {
    &&& (turns.len() == 0 <==> upto == 0)
    &&& (turns.len() > 0 ==> turns[0].token_indices@[0] == 0)
    &&& (turns.len() > 0 ==> {
        let lastturn = turns[turns.len() - 1];
        lastturn.token_indices@[0] + lastturn.token_indices@.len() == upto
    })
    &&& forall|k: int|
        0 <= k < turns.len() - 1 ==> #[trigger] turns[k + 1].token_indices@[0] == turns[k].token_indices@[0]
            + turns[k].token_indices@.len()
    &&& forall|k: int| 0 <= k < turns.len() - 1 ==> #[trigger] turns[k + 1].speaker != turns[k].speaker
}

/// The turn sequence partitions the token sequence into maximal same-speaker
/// runs, with correct boundary times and back-references throughout.
pub open spec fn turns_wf(tokens: Seq<Token>, turns: Seq<Turn>) -> bool {
    &&& forall|k: int| 0 <= k < turns.len() ==> turn_wf_at(tokens, turns, k)
    &&& turns_chain(turns, tokens.len() as int)
}

/// Token-level invariants: every token is time-well-formed, keeps its source
/// position as `original_index`, carries its position as `token_id`, and the
/// sequence is ordered by `start_ms`.
pub open spec fn tokens_wf(tokens: Seq<Token>) -> bool {
    &&& forall|i: int| 0 <= i < tokens.len() ==> (#[trigger] tokens[i]).time_wf()
    &&& forall|i: int| 0 <= i < tokens.len() ==> (#[trigger] tokens[i]).token_id == i as u64
    &&& forall|i: int| 0 <= i < tokens.len() ==> (#[trigger] tokens[i]).original_index == i
    &&& forall|i: int, j: int|
        0 <= i <= j < tokens.len() ==> #[trigger] tokens[i].start_ms <= #[trigger] tokens[j].start_ms
}

/// Some token of the sequence carries speaker label `y`.
pub open spec fn has_speaker(tokens: Seq<Token>, y: u32) -> bool {
    exists|i: int| 0 <= i < tokens.len() && #[trigger] tokens[i].speaker == y
}

/// The speaker list is strictly sorted and holds exactly the union of the
/// token speakers.
pub open spec fn speakers_wf(tokens: Seq<Token>, speakers: Seq<u32>) -> bool {
    &&& forall|a: int, b: int| 0 <= a < b < speakers.len() ==> speakers[a] < speakers[b]
    &&& forall|a: int| 0 <= a < speakers.len() ==> has_speaker(tokens, #[trigger] speakers[a])
    &&& forall|i: int| 0 <= i < tokens.len() ==> speakers.contains((#[trigger] tokens[i]).speaker)
}

/// A diarized transcript: tokens in time order, derived turns, and the sorted
/// set of speaker labels occurring in the tokens.
pub struct TokenizedTranscript {
    /// All tokens in order.
    pub tokens: Vec<Token>,
    /// All turns in order; always kept consistent with `tokens`.
    pub turns: Vec<Turn>,
    /// Sorted set of speaker labels present among the tokens.
    pub speakers: Vec<u32>,
}

impl TokenizedTranscript {
    /// Full well-formedness: the invariant every pipeline stage preserves.
    pub open spec fn wf(self) -> bool {
        &&& tokens_wf(self.tokens@)
        &&& turns_wf(self.tokens@, self.turns@)
        &&& speakers_wf(self.tokens@, self.speakers@)
    }

    /// Get a token by its identifier; `None` when no token carries it.
    pub fn get_token(&self, token_id: u64) -> (r: Option<&Token>)
        ensures
            match r {
                Some(t) => exists|i: int|
                    0 <= i < self.tokens@.len() && #[trigger] self.tokens@[i] == *t && t.token_id
                        == token_id,
                None => forall|i: int|
                    0 <= i < self.tokens@.len() ==> (#[trigger] self.tokens@[i]).token_id != token_id,
            },
    {
        let n = self.tokens.len();
        for i in 0..n
            invariant
                n == self.tokens@.len(),
                forall|j: int| 0 <= j < i ==> (#[trigger] self.tokens@[j]).token_id != token_id,
        {
            if self.tokens[i].token_id == token_id {
                return Some(&self.tokens[i]);
            }
        }
        None
    }

    /// Get a token by its index in the token sequence.
    pub fn get_token_by_index(&self, index: usize) -> (r: Option<&Token>)
        ensures
            match r {
                Some(t) => index < self.tokens@.len() && *t == self.tokens@[index as int],
                None => index >= self.tokens@.len(),
            },
    {
        if index < self.tokens.len() {
            Some(&self.tokens[index])
        } else {
            None
        }
    }

    /// Get a turn by its identifier; `None` when no turn carries it.
    pub fn get_turn(&self, turn_id: u64) -> (r: Option<&Turn>)
        ensures
            match r {
                Some(t) => exists|k: int|
                    0 <= k < self.turns@.len() && #[trigger] self.turns@[k] == *t && t.turn_id
                        == turn_id,
                None => forall|k: int|
                    0 <= k < self.turns@.len() ==> (#[trigger] self.turns@[k]).turn_id != turn_id,
            },
    {
        let n = self.turns.len();
        for k in 0..n
            invariant
                n == self.turns@.len(),
                forall|j: int| 0 <= j < k ==> (#[trigger] self.turns@[j]).turn_id != turn_id,
        {
            if self.turns[k].turn_id == turn_id {
                return Some(&self.turns[k]);
            }
        }
        None
    }

    /// Total duration in milliseconds: last token's end minus first token's
    /// start, or 0 for an empty transcript.
    pub fn duration_ms(&self) -> (r: u64)
        requires
            tokens_wf(self.tokens@),
        ensures
            r == Self::spec_duration_ms(self.tokens@),
    {
        let n = self.tokens.len();
        if n == 0 {
            0
        } else {
            assert(self.tokens@[n - 1].time_wf());
            assert(self.tokens@[0].start_ms <= self.tokens@[n - 1].start_ms);
            self.tokens[n - 1].end_ms - self.tokens[0].start_ms
        }
    }

    /// Duration of a token sequence: span from first start to last end.
    pub open spec fn spec_duration_ms(tokens: Seq<Token>) -> int {
        if tokens.len() == 0 {
            0
        } else {
            tokens[tokens.len() - 1].end_ms - tokens[0].start_ms
        }
    }

    /// Copy the whole transcript.
    pub fn deep_clone(&self) -> (r: Self)
        ensures
            transcript_like(r, *self),
    {
        let mut tokens: Vec<Token> = Vec::new();
        let n = self.tokens.len();
        let mut i: usize = 0;
        while i < n
            invariant
                0 <= i <= n,
                n == self.tokens@.len(),
                tokens@.len() == i,
                forall|q: int| 0 <= q < i ==> #[trigger] tokens@[q] == self.tokens@[q],
            decreases n - i,
        {
            tokens.push(clone_token(&self.tokens[i]));
            i = i + 1;
        }
        let mut turns: Vec<Turn> = Vec::new();
        let m = self.turns.len();
        let mut k: usize = 0;
        while k < m
            invariant
                0 <= k <= m,
                m == self.turns@.len(),
                turns@.len() == k,
                forall|q: int| 0 <= q < k ==> turn_like(#[trigger] turns@[q], self.turns@[q]),
            decreases m - k,
        {
            let src = &self.turns[k];
            let mut idxs: Vec<usize> = Vec::new();
            let c = src.token_indices.len();
            let mut q: usize = 0;
            while q < c
                invariant
                    0 <= q <= c,
                    c == src.token_indices@.len(),
                    idxs@.len() == q,
                    forall|w: int| 0 <= w < q ==> #[trigger] idxs@[w] == src.token_indices@[w],
                decreases c - q,
            {
                idxs.push(src.token_indices[q]);
                q = q + 1;
            }
            proof {
                assert(idxs@ =~= src.token_indices@);
            }
            turns.push(
                Turn {
                    turn_id: src.turn_id,
                    speaker: src.speaker,
                    start_ms: src.start_ms,
                    end_ms: src.end_ms,
                    token_indices: idxs,
                },
            );
            k = k + 1;
        }
        let mut speakers: Vec<u32> = Vec::new();
        let s = self.speakers.len();
        let mut a: usize = 0;
        while a < s
            invariant
                0 <= a <= s,
                s == self.speakers@.len(),
                speakers@.len() == a,
                forall|q: int| 0 <= q < a ==> #[trigger] speakers@[q] == self.speakers@[q],
            decreases s - a,
        {
            speakers.push(self.speakers[a]);
            a = a + 1;
        }
        let r = TokenizedTranscript { tokens, turns, speakers };
        proof {
            assert(r.tokens@ =~= self.tokens@);
            assert(r.speakers@ =~= self.speakers@);
        }
        r
    }
}

/// Copy one token.
pub fn clone_token(t: &Token) -> (r: Token)
    ensures
        r == *t,
{
    let punctuated = match &t.punctuated_word {
        Some(s) => Some(s.clone()),
        None => None,
    };
    Token {
        token_id: t.token_id,
        word: t.word.clone(),
        punctuated_word: punctuated,
        start_ms: t.start_ms,
        end_ms: t.end_ms,
        speaker: t.speaker,
        speaker_conf: t.speaker_conf,
        transcription_conf: t.transcription_conf,
        is_overlap_region: t.is_overlap_region,
        turn_id: t.turn_id,
        original_index: t.original_index,
    }
}

} // verus!
