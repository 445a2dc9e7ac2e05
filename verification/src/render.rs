use vstd::prelude::*;

use crate::models::{Token, TokenizedTranscript, Turn};

verus! {

/// The character for one decimal digit.
pub open spec fn digit_char(d: int) -> char {
    if d == 0 {
        '0'
    } else if d == 1 {
        '1'
    } else if d == 2 {
        '2'
    } else if d == 3 {
        '3'
    } else if d == 4 {
        '4'
    } else if d == 5 {
        '5'
    } else if d == 6 {
        '6'
    } else if d == 7 {
        '7'
    } else if d == 8 {
        '8'
    } else {
        '9'
    }
}

/// The decimal rendering of a non-negative integer.
pub open spec fn dec_spec(n: int) -> Seq<char>
    decreases n,
{
    if n < 10 {
        seq![digit_char(n)]
    } else {
        dec_spec(n / 10).push(digit_char(n % 10))
    }
}

/// A run of `k` zero characters.
pub open spec fn zeros_spec(k: int) -> Seq<char>
    decreases k,
{
    if k <= 0 {
        Seq::empty()
    } else {
        seq!['0'] + zeros_spec(k - 1)
    }
}

/// The decimal rendering of `n`, left-padded with zeros to at least `width`
/// characters.
pub open spec fn padded_dec_spec(n: int, width: int) -> Seq<char> {
    let d = dec_spec(n);
    if d.len() >= width {
        d
    } else {
        zeros_spec(width - d.len()) + d
    }
}

/// A timestamp as `MM:SS.mmm`, zero-padded; minutes may exceed two digits.
pub open spec fn timestamp_spec(ms: int) -> Seq<char> {
    let seconds = ms / 1000;
    let millis = ms % 1000;
    let minutes = seconds / 60;
    let secs = seconds % 60;
    padded_dec_spec(minutes, 2) + seq![':'] + padded_dec_spec(secs, 2) + seq!['.']
        + padded_dec_spec(millis, 3)
}

/// One decimal digit as a string slice.
fn digit_str(d: u64) -> (r: &'static str)
    requires
        d < 10,
    ensures
        r@ == seq![digit_char(d as int)],
{
    let r: &'static str = if d == 0 {
        "0"
    } else if d == 1 {
        "1"
    } else if d == 2 {
        "2"
    } else if d == 3 {
        "3"
    } else if d == 4 {
        "4"
    } else if d == 5 {
        "5"
    } else if d == 6 {
        "6"
    } else if d == 7 {
        "7"
    } else if d == 8 {
        "8"
    } else {
        "9"
    };
    proof {
        reveal_strlit("0");
        reveal_strlit("1");
        reveal_strlit("2");
        reveal_strlit("3");
        reveal_strlit("4");
        reveal_strlit("5");
        reveal_strlit("6");
        reveal_strlit("7");
        reveal_strlit("8");
        reveal_strlit("9");
        assert(r@ =~= seq![digit_char(d as int)]);
    }
    r
}

/// One decimal digit as a string slice.
pub fn digit_str_pub(d: u64) -> (r: &'static str)
    requires
        d < 10,
    ensures
        r@ == seq![digit_char(d as int)],
{
    digit_str(d)
}

/// Render a number in decimal.
pub fn u64_to_dec(n: u64) -> (r: String)
    ensures
        r@ == dec_spec(n as int),
    decreases n,
{
    if n < 10 {
        String::from_str(digit_str(n))
    } else {
        let mut s = u64_to_dec(n / 10);
        s.append(digit_str(n % 10));
        proof {
            assert(s@ =~= dec_spec(n as int));
        }
        s
    }
}

/// Render a number in decimal, zero-padded to at least `width` characters.
pub fn u64_to_dec_padded(n: u64, width: usize) -> (r: String)
    ensures
        r@ == padded_dec_spec(n as int, width as int),
{
    let d = u64_to_dec(n);
    let dl = d.as_str().unicode_len();
    if dl >= width {
        return d;
    }
    let mut s = String::new();
    let mut k: usize = 0;
    while k < width - dl
        invariant
            0 <= k <= width - dl,
            dl < width,
            dl == dec_spec(n as int).len(),
            s@ =~= zeros_spec(k as int),
        decreases width - dl - k,
    {
        s.append("0");
        proof {
            reveal_strlit("0");
            assert(zeros_spec(k + 1) =~= zeros_spec(k as int) + seq!['0']) by {
                lemma_zeros_snoc(k + 1);
            }
        }
        k = k + 1;
    }
    s.append(d.as_str());
    proof {
        assert(s@ =~= padded_dec_spec(n as int, width as int));
    }
    s
}

/// Zeros can be peeled off the end as well as the front.
proof fn lemma_zeros_snoc(k: int)
    requires
        k >= 1,
    ensures
        zeros_spec(k) =~= zeros_spec(k - 1) + seq!['0'],
    decreases k,
{
    if k > 1 {
        lemma_zeros_snoc(k - 1);
    }
}

/// Format milliseconds as `MM:SS.mmm`; minutes may exceed 60.
pub fn format_timestamp(ms: u64) -> (r: String)
    ensures
        r@ == timestamp_spec(ms as int),
{
    let seconds = ms / 1000;
    let millis = ms % 1000;
    let minutes = seconds / 60;
    let secs = seconds % 60;
    let mut s = u64_to_dec_padded(minutes, 2);
    s.append(":");
    let p2 = u64_to_dec_padded(secs, 2);
    s.append(p2.as_str());
    s.append(".");
    let p3 = u64_to_dec_padded(millis, 3);
    s.append(p3.as_str());
    proof {
        reveal_strlit(":");
        reveal_strlit(".");
        assert(s@ =~= timestamp_spec(ms as int));
    }
    s
}

/// Whitespace for the purposes of word wrapping.
pub open spec fn is_ws_char(c: char) -> bool {
    c == ' ' || c == '\t' || c == '\n' || c == '\r'
}

/// The maximal runs of non-whitespace characters in `s[..upto]`, as inclusive
/// index pairs, in order.
pub open spec fn word_runs(s: Seq<char>, upto: int) -> Seq<(int, int)>
    decreases upto,
{
    if upto <= 0 {
        Seq::empty()
    } else {
        let rest = word_runs(s, upto - 1);
        if !is_ws_char(s[upto - 1]) {
            if upto - 1 > 0 && !is_ws_char(s[upto - 2]) {
                rest.update(rest.len() - 1, (rest[rest.len() - 1].0, upto - 1))
            } else {
                rest.push((upto - 1, upto - 1))
            }
        } else {
            rest
        }
    }
}

/// Greedy wrapping of the words `runs[k..]` of `s`, with `line_len`
/// characters already on the current line: break before a word that would
/// pass `width`, separate words on a line by single spaces.
pub open spec fn wrap_from(
    s: Seq<char>,
    runs: Seq<(int, int)>,
    k: int,
    line_len: int,
    width: int,
) -> Seq<char>
    decreases runs.len() - k,
{
    if k < 0 || k >= runs.len() {
        Seq::empty()
    } else {
        let w = s.subrange(runs[k].0, runs[k].1 + 1);
        let brk = line_len + w.len() + 1 > width && line_len > 0;
        let ll = if brk {
            0
        } else {
            line_len
        };
        let sep = ll > 0;
        let ll2 = if sep {
            ll + 1
        } else {
            ll
        };
        (if brk {
            seq!['\n']
        } else {
            Seq::empty()
        }) + (if sep {
            seq![' ']
        } else {
            Seq::empty()
        }) + w + wrap_from(s, runs, k + 1, ll2 + w.len(), width)
    }
}

/// The whole text wrapped at `width` columns on word boundaries.
pub open spec fn wrap_spec(s: Seq<char>, width: int) -> Seq<char> {
    wrap_from(s, word_runs(s, s.len() as int), 0, 0, width)
}

/// Wrap text at approximately the given width, breaking on whitespace.
pub fn wrap_text(text: &str, width: usize) -> (r: String)
    ensures
        r@ == wrap_spec(text@, width as int),
{
    let n = text.unicode_len();
    // Find the word runs.
    let mut runs: Vec<(usize, usize)> = Vec::new();
    let mut i: usize = 0;
    while i < n
        invariant
            0 <= i <= n,
            n == text@.len(),
            ({
                let spec_runs = word_runs(text@, i as int);
                &&& runs@.len() == spec_runs.len()
                &&& forall|q: int|
                    0 <= q < runs@.len() ==> (#[trigger] runs@[q]).0 as int == spec_runs[q].0
                        && runs@[q].1 as int == spec_runs[q].1
                &&& (i > 0 && runs@.len() > 0 && !is_ws_char(text@[i - 1]) ==> runs@[runs@.len()
                    - 1].1 == i - 1)
                &&& (i > 0 && !is_ws_char(text@[i - 1]) ==> runs@.len() > 0)
            }),
        decreases n - i,
    {
        let c = text.get_char(i);
        if !(c == ' ' || c == '\t' || c == '\n' || c == '\r') {
            let start_new = if i == 0 {
                true
            } else {
                let p = text.get_char(i - 1);
                p == ' ' || p == '\t' || p == '\n' || p == '\r'
            };
            if start_new {
                runs.push((i, i));
            } else {
                let last = runs.len() - 1;
                let (a, _) = runs[last];
                runs[last] = (a, i);
            }
        }
        i = i + 1;
    }

    // Wrap the words.
    let ghost spec_runs = word_runs(text@, n as int);
    let nr = runs.len();
    let mut out = String::new();
    let mut line_len: u128 = 0;
    let mut k: usize = 0;
    proof {
        lemma_word_runs_bounds(text@, n as int);
        assert(wrap_spec(text@, width as int) == out@ + wrap_from(
            text@,
            spec_runs,
            0,
            0,
            width as int,
        ));
    }
    while k < nr
        invariant
            0 <= k <= nr,
            n == text@.len(),
            nr == runs@.len(),
            spec_runs == word_runs(text@, n as int),
            spec_runs.len() == nr,
            nr <= n,
            forall|q: int|
                0 <= q < runs@.len() ==> (#[trigger] runs@[q]).0 as int == spec_runs[q].0
                    && runs@[q].1 as int == spec_runs[q].1,
            forall|q: int|
                0 <= q < spec_runs.len() ==> 0 <= #[trigger] spec_runs[q].0 <= spec_runs[q].1
                    < n,
            wrap_spec(text@, width as int) == out@ + wrap_from(
                text@,
                spec_runs,
                k as int,
                line_len as int,
                width as int,
            ),
            line_len as int <= width as int + n as int,
        decreases nr - k,
    {
        let (a, b) = runs[k];
        let wlen = b - a + 1;
        if line_len + (wlen as u128) + 1 > (width as u128) && line_len > 0 {
            out.append("\n");
            line_len = 0;
            proof {
                reveal_strlit("\n");
            }
        }
        if line_len > 0 {
            out.append(" ");
            line_len = line_len + 1;
            proof {
                reveal_strlit(" ");
            }
        }
        let word = text.substring_char(a, b + 1);
        out.append(word);
        line_len = line_len + (wlen as u128);
        proof {
            assert(word@ =~= text@.subrange(spec_runs[k as int].0, spec_runs[k as int].1 + 1));
        }
        k = k + 1;
    }
    proof {
        assert(wrap_from(text@, spec_runs, nr as int, line_len as int, width as int)
            =~= Seq::<char>::empty());
        assert(out@ =~= wrap_spec(text@, width as int));
    }
    out
}

/// The bounds of all word runs point into the text, and a run is open at the
/// end exactly when the last character is not whitespace.
proof fn lemma_word_runs_bounds(s: Seq<char>, upto: int)
    requires
        0 <= upto <= s.len(),
    ensures
        forall|q: int|
            0 <= q < word_runs(s, upto).len() ==> 0 <= (#[trigger] word_runs(s, upto)[q]).0
                <= word_runs(s, upto)[q].1 < upto,
        upto > 0 && !is_ws_char(s[upto - 1]) ==> word_runs(s, upto).len() > 0 && word_runs(
            s,
            upto,
        )[word_runs(s, upto).len() - 1].1 == upto - 1,
        word_runs(s, upto).len() <= upto,
    decreases upto,
{
    if upto > 0 {
        lemma_word_runs_bounds(s, upto - 1);
        let prev = word_runs(s, upto - 1);
        if !is_ws_char(s[upto - 1]) {
            if upto - 1 > 0 && !is_ws_char(s[upto - 2]) {
                assert(prev.len() > 0);
                assert(prev[prev.len() - 1].0 <= prev[prev.len() - 1].1);
            }
        }
    }
}


/// One token of the machine-readable output.
pub struct MachineToken {
    /// The token's identifier.
    pub token_id: u64,
    /// The word text.
    pub word: String,
    /// Start timestamp in milliseconds.
    pub start_ms: u64,
    /// End timestamp in milliseconds.
    pub end_ms: u64,
    /// Final speaker label.
    pub speaker: u32,
    /// The speaker label the source assigned.
    pub original_speaker: u32,
    /// Whether the pipeline changed the label.
    pub was_relabeled: bool,
    /// Speaker confidence in thousandths.
    pub speaker_confidence: u32,
}

/// One turn of the machine-readable output.
pub struct MachineTurn {
    /// Position of the turn.
    pub turn_id: u64,
    /// The turn's speaker.
    pub speaker: u32,
    /// Start timestamp in milliseconds.
    pub start_ms: u64,
    /// End timestamp in milliseconds.
    pub end_ms: u64,
    /// Number of words in the turn.
    pub word_count: usize,
}

/// Processing metadata accompanying the machine output.
pub struct TranscriptMetadata {
    /// Number of tokens in the transcript.
    pub total_tokens: usize,
    /// Number of turns in the transcript.
    pub total_turns: usize,
    /// Number of tokens whose speaker changed.
    pub tokens_relabeled: usize,
    /// Total duration in milliseconds.
    pub duration_ms: u64,
    /// Number of windows sent for editing.
    pub windows_processed: usize,
}

/// The machine-readable output: tokens with relabeling provenance, turn
/// boundaries, speakers, and metadata.
pub struct MachineTranscript {
    /// Tokens with final speaker assignments.
    pub tokens: Vec<MachineToken>,
    /// Turn boundaries.
    pub turns: Vec<MachineTurn>,
    /// Speaker labels present in the transcript.
    pub speakers: Vec<u32>,
    /// Metadata about the processing.
    pub metadata: TranscriptMetadata,
}

/// The machine token for transcript token `t` with original speaker `orig`.
pub open spec fn machine_token_matches(m: MachineToken, t: Token, orig: u32) -> bool {
    &&& m.token_id == t.token_id
    &&& m.word == t.word
    &&& m.start_ms == t.start_ms
    &&& m.end_ms == t.end_ms
    &&& m.speaker == t.speaker
    &&& m.original_speaker == orig
    &&& m.was_relabeled == (t.speaker != orig)
    &&& m.speaker_confidence == t.speaker_conf
}

/// The machine turn for transcript turn `t`.
pub open spec fn machine_turn_matches(m: MachineTurn, t: Turn) -> bool {
    &&& m.turn_id == t.turn_id
    &&& m.speaker == t.speaker
    &&& m.start_ms == t.start_ms
    &&& m.end_ms == t.end_ms
    &&& m.word_count == t.token_indices@.len()
}

impl MachineTranscript {
    /// Build the machine view from a transcript and the speakers its tokens
    /// carried before the pipeline ran.
    pub fn from_transcript(
        transcript: &TokenizedTranscript,
        original_speakers: &Vec<u32>,
        metadata: TranscriptMetadata,
    ) -> (r: Self)
        requires
            original_speakers@.len() == transcript.tokens@.len(),
        ensures
            r.tokens@.len() == transcript.tokens@.len(),
            forall|i: int|
                0 <= i < r.tokens@.len() ==> machine_token_matches(
                    #[trigger] r.tokens@[i],
                    transcript.tokens@[i],
                    original_speakers@[i],
                ),
            r.turns@.len() == transcript.turns@.len(),
            forall|k: int|
                0 <= k < r.turns@.len() ==> machine_turn_matches(
                    #[trigger] r.turns@[k],
                    transcript.turns@[k],
                ),
            r.speakers@ == transcript.speakers@,
            r.metadata == metadata,
    {
        let n = transcript.tokens.len();
        let mut tokens: Vec<MachineToken> = Vec::new();
        let mut i: usize = 0;
        while i < n
            invariant
                0 <= i <= n,
                n == transcript.tokens@.len(),
                original_speakers@.len() == n,
                tokens@.len() == i,
                forall|q: int|
                    0 <= q < i ==> machine_token_matches(
                        #[trigger] tokens@[q],
                        transcript.tokens@[q],
                        original_speakers@[q],
                    ),
            decreases n - i,
        {
            let t = &transcript.tokens[i];
            let orig = original_speakers[i];
            tokens.push(
                MachineToken {
                    token_id: t.token_id,
                    word: t.word.clone(),
                    start_ms: t.start_ms,
                    end_ms: t.end_ms,
                    speaker: t.speaker,
                    original_speaker: orig,
                    was_relabeled: t.speaker != orig,
                    speaker_confidence: t.speaker_conf,
                },
            );
            i = i + 1;
        }
        let m = transcript.turns.len();
        let mut turns: Vec<MachineTurn> = Vec::new();
        let mut k: usize = 0;
        while k < m
            invariant
                0 <= k <= m,
                m == transcript.turns@.len(),
                turns@.len() == k,
                forall|q: int|
                    0 <= q < k ==> machine_turn_matches(
                        #[trigger] turns@[q],
                        transcript.turns@[q],
                    ),
            decreases m - k,
        {
            let t = &transcript.turns[k];
            turns.push(
                MachineTurn {
                    turn_id: t.turn_id,
                    speaker: t.speaker,
                    start_ms: t.start_ms,
                    end_ms: t.end_ms,
                    word_count: t.token_indices.len(),
                },
            );
            k = k + 1;
        }
        let ns = transcript.speakers.len();
        let mut speakers: Vec<u32> = Vec::new();
        let mut a: usize = 0;
        while a < ns
            invariant
                0 <= a <= ns,
                ns == transcript.speakers@.len(),
                speakers@.len() == a,
                forall|q: int| 0 <= q < a ==> #[trigger] speakers@[q] == transcript.speakers@[q],
            decreases ns - a,
        {
            speakers.push(transcript.speakers[a]);
            a = a + 1;
        }
        proof {
            assert(speakers@ =~= transcript.speakers@);
        }
        MachineTranscript { tokens, turns, speakers, metadata }
    }
}

/// The display name recorded for a speaker, if any (first match wins).
pub open spec fn lookup_name(names: Seq<(u32, String)>, spk: u32) -> Option<Seq<char>>
    decreases names.len(),
{
    if names.len() == 0 {
        None
    } else if names[0].0 == spk {
        Some(names[0].1@)
    } else {
        lookup_name(names.drop_first(), spk)
    }
}

/// The words of the turn's tokens joined by single spaces.
pub open spec fn join_words(tokens: Seq<Token>, idxs: Seq<usize>) -> Seq<char>
    decreases idxs.len(),
{
    if idxs.len() == 0 {
        Seq::empty()
    } else if idxs.len() == 1 {
        tokens[idxs[0] as int].word@
    } else {
        join_words(tokens, idxs.drop_last()) + seq![' '] + tokens[idxs[idxs.len() - 1] as int].word@
    }
}

/// The speaker part of a turn header: the display name when known, otherwise
/// `Speaker N`.
pub open spec fn speaker_label_spec(names: Seq<(u32, String)>, spk: u32) -> Seq<char> {
    match lookup_name(names, spk) {
        Some(nm) => nm,
        None => "Speaker "@ + dec_spec(spk as int),
    }
}

/// One paragraph of the human-readable view: a timestamped speaker header,
/// the turn's words wrapped at 80 columns, and a blank line.
pub open spec fn paragraph_spec(tokens: Seq<Token>, names: Seq<(u32, String)>, turn: Turn) -> Seq<
    char,
> {
    seq!['['] + timestamp_spec(turn.start_ms as int) + seq![']', ' '] + speaker_label_spec(
        names,
        turn.speaker,
    ) + seq![':', '\n'] + wrap_spec(join_words(tokens, turn.token_indices@), 80) + seq!['\n', '\n']
}

/// The human-readable view of the first `upto` turns.
pub open spec fn human_spec(
    tokens: Seq<Token>,
    turns: Seq<Turn>,
    names: Seq<(u32, String)>,
    upto: int,
) -> Seq<char>
    decreases upto,
{
    if upto <= 0 {
        Seq::empty()
    } else {
        human_spec(tokens, turns, names, upto - 1) + paragraph_spec(tokens, names, turns[upto - 1])
    }
}

/// The human-readable rendering of a transcript: one timestamped paragraph
/// per turn.
pub struct HumanTranscript<'a> {
    /// The transcript being rendered.
    pub transcript: &'a TokenizedTranscript,
    /// Display names for speakers, when identified.
    pub display_names: Vec<(u32, String)>,
}

impl<'a> HumanTranscript<'a> {
    /// Render with numeric speaker labels only.
    pub fn new(transcript: &'a TokenizedTranscript) -> (r: Self)
        ensures
            r.transcript == transcript,
            r.display_names@.len() == 0,
    {
        HumanTranscript { transcript, display_names: Vec::new() }
    }

    /// Render with display names for the identified speakers.
    pub fn with_speaker_names(
        transcript: &'a TokenizedTranscript,
        display_names: Vec<(u32, String)>,
    ) -> (r: Self)
        ensures
            r.transcript == transcript,
            r.display_names == display_names,
    {
        HumanTranscript { transcript, display_names }
    }

    /// Format the transcript: for each turn a `[MM:SS.mmm] Speaker N:` header
    /// (or the speaker's name when known) followed by the turn's words joined
    /// by single spaces and wrapped at 80 columns.
    pub fn format(&self) -> (r: String)
        requires
            self.transcript.wf(),
        ensures
            r@ == human_spec(
                self.transcript.tokens@,
                self.transcript.turns@,
                self.display_names@,
                self.transcript.turns@.len() as int,
            ),
    {
        let nt = self.transcript.turns.len();
        let mut out = String::new();
        let mut k: usize = 0;
        while k < nt
            invariant
                0 <= k <= nt,
                nt == self.transcript.turns@.len(),
                self.transcript.wf(),
                out@ == human_spec(
                    self.transcript.tokens@,
                    self.transcript.turns@,
                    self.display_names@,
                    k as int,
                ),
            decreases nt - k,
        {
            let turn = &self.transcript.turns[k];
            let ghost pre = out@;
            proof {
                assert(crate::models::turn_wf_at(
                    self.transcript.tokens@,
                    self.transcript.turns@,
                    k as int,
                ));
            }
            out.append("[");
            let ts = format_timestamp(turn.start_ms);
            out.append(ts.as_str());
            out.append("] ");
            // Speaker label: name when known, number otherwise.
            let names = &self.display_names;
            let nn = names.len();
            proof {
                assert(names@.skip(0) =~= names@);
            }
            let mut label_idx: usize = nn;
            let mut w: usize = 0;
            while w < nn
                invariant
                    0 <= w <= nn,
                    nn == names@.len(),
                    label_idx <= nn,
                    label_idx == nn ==> lookup_name(names@, turn.speaker) == lookup_name(
                        names@.skip(w as int),
                        turn.speaker,
                    ),
                    label_idx < nn ==> names@[label_idx as int].0 == turn.speaker && lookup_name(
                        names@,
                        turn.speaker,
                    ) == Some(names@[label_idx as int].1@),
                decreases nn - w,
            {
                proof {
                    assert(names@.skip(w as int)[0] == names@[w as int]);
                    assert(names@.skip(w as int).drop_first() =~= names@.skip(w + 1));
                }
                if label_idx == nn && names[w].0 == turn.speaker {
                    label_idx = w;
                    proof {
                        assert(lookup_name(names@.skip(w as int), turn.speaker) == Some(
                            names@[w as int].1@,
                        ));
                    }
                }
                w = w + 1;
            }
            if label_idx < nn {
                out.append(names[label_idx].1.as_str());
                proof {
                    assert(speaker_label_spec(names@, turn.speaker) == names@[
                        label_idx as int
                    ].1@);
                }
            } else {
                proof {
                    assert(names@.skip(nn as int) =~= Seq::<(u32, String)>::empty());
                    assert(lookup_name(Seq::<(u32, String)>::empty(), turn.speaker) is None);
                    assert(lookup_name(names@, turn.speaker) is None);
                    reveal_strlit("Speaker ");
                }
                out.append("Speaker ");
                let d = u64_to_dec(turn.speaker as u64);
                proof {
                    assert(dec_spec(turn.speaker as u64 as int) == dec_spec(turn.speaker as int));
                    assert(speaker_label_spec(names@, turn.speaker) == "Speaker "@ + dec_spec(
                        turn.speaker as int,
                    ));
                }
                out.append(d.as_str());
            }
            let ghost out_label = out@;
            proof {
                reveal_strlit("[");
                reveal_strlit("] ");
                assert(out_label =~= pre + seq!['['] + timestamp_spec(turn.start_ms as int) + seq![
                    ']',
                    ' ',
                ] + speaker_label_spec(self.display_names@, turn.speaker));
            }
            out.append(":\n");
            // The turn's words, joined and wrapped.
            let idxs = &turn.token_indices;
            let ni = idxs.len();
            let mut text = String::new();
            let mut m: usize = 0;
            while m < ni
                invariant
                    0 <= m <= ni,
                    ni == idxs@.len(),
                    self.transcript.wf(),
                    crate::models::turn_wf_at(
                        self.transcript.tokens@,
                        self.transcript.turns@,
                        k as int,
                    ),
                    k < self.transcript.turns@.len(),
                    idxs == &self.transcript.turns@[k as int].token_indices,
                    text@ == join_words(self.transcript.tokens@, idxs@.take(m as int)),
                decreases ni - m,
            {
                proof {
                    assert(idxs@.take(m + 1).drop_last() =~= idxs@.take(m as int));
                    assert(idxs@.take(m + 1)[m as int] == idxs@[m as int]);
                    assert(crate::models::turn_indices_contiguous(
                        self.transcript.turns@[k as int],
                    ));
                    assert(idxs@[m as int] < self.transcript.tokens@.len());
                    reveal_strlit(" ");
                }
                let idx = idxs[m];
                if m > 0 {
                    text.append(" ");
                }
                text.append(self.transcript.tokens[idx].word.as_str());
                proof {
                    if m == 0 {
                        assert(text@ =~= join_words(self.transcript.tokens@, idxs@.take(1)));
                    }
                }
                m = m + 1;
            }
            proof {
                assert(idxs@.take(ni as int) =~= idxs@);
            }
            let wrapped = wrap_text(text.as_str(), 80);
            out.append(wrapped.as_str());
            out.append("\n\n");
            proof {
                reveal_strlit("[");
                reveal_strlit("] ");
                reveal_strlit(":\n");
                reveal_strlit("\n\n");
                assert(out@ =~= pre + paragraph_spec(
                    self.transcript.tokens@,
                    self.display_names@,
                    self.transcript.turns@[k as int],
                ));
                assert(out@ == human_spec(
                    self.transcript.tokens@,
                    self.transcript.turns@,
                    self.display_names@,
                    k + 1,
                ));
            }
            k = k + 1;
        }
        out
    }
}

/// Configuration for the rendering stage.
pub struct Stage3Config {
    /// Whether to produce the machine-readable view.
    pub generate_machine: bool,
    /// Whether to produce the human-readable view.
    pub generate_human: bool,
}

impl Default for Stage3Config {
    /// Both views on.
    fn default() -> (r: Self)
        ensures
            r.generate_machine,
            r.generate_human,
    {
        Stage3Config { generate_machine: true, generate_human: true }
    }
}

/// Result of the rendering stage: the requested views, rendered.
pub struct Stage3Result {
    /// The machine-readable view, when requested.
    pub machine: Option<MachineTranscript>,
    /// The human-readable text, when requested.
    pub human: Option<String>,
}

/// Rendering: produce the requested machine and human views of the
/// transcript.
pub fn execute_stage3(
    transcript: &TokenizedTranscript,
    original_speakers: &Vec<u32>,
    metadata: TranscriptMetadata,
    config: &Stage3Config,
    speaker_names: Vec<(u32, String)>,
) -> (r: Stage3Result)
    requires
        transcript.wf(),
        original_speakers@.len() == transcript.tokens@.len(),
    ensures
        r.machine is Some <==> config.generate_machine,
        r.human is Some <==> config.generate_human,
        config.generate_machine ==> {
            let m = r.machine->0;
            &&& m.tokens@.len() == transcript.tokens@.len()
            &&& forall|i: int|
                0 <= i < m.tokens@.len() ==> machine_token_matches(
                    #[trigger] m.tokens@[i],
                    transcript.tokens@[i],
                    original_speakers@[i],
                )
            &&& m.turns@.len() == transcript.turns@.len()
            &&& forall|k: int|
                0 <= k < m.turns@.len() ==> machine_turn_matches(
                    #[trigger] m.turns@[k],
                    transcript.turns@[k],
                )
            &&& m.speakers@ == transcript.speakers@
            &&& m.metadata == metadata
        },
        config.generate_human ==> r.human->0@ == human_spec(
            transcript.tokens@,
            transcript.turns@,
            speaker_names@,
            transcript.turns@.len() as int,
        ),
{
    let machine = if config.generate_machine {
        Some(MachineTranscript::from_transcript(transcript, original_speakers, metadata))
    } else {
        None
    };
    let human = if config.generate_human {
        let view = HumanTranscript::with_speaker_names(transcript, speaker_names);
        Some(view.format())
    } else {
        None
    };
    Stage3Result { machine, human }
}

} // verus!
