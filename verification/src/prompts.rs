use vstd::prelude::*;

use crate::models::{Token, TokenizedTranscript, Turn};
use crate::render::dec_spec;
use crate::render::u64_to_dec;
use crate::select::{lemma_sel_idxs, sel_idxs, sum_over};
use crate::speaker_id::{best_unsel, Participant};
use crate::text::{lower_of, lowercase};
use crate::window::Window;

verus! {

/// The fixed system prompt for window editing: forbids word and timestamp
/// changes, bounds edits to the budget, restricts reasons to the closed set,
/// and requires self-reported violations.
pub const SYSTEM_PROMPT: &'static str = "You are editing a diarized transcript. You MUST follow these rules:\n\n1. You MUST NOT add, remove, or change any words.\n2. You MUST NOT change timestamps.\n3. You may only reassign speaker labels for existing tokens and adjust turn boundaries.\n4. Output MUST be valid JSON matching the provided schema.\n5. If uncertain, do not change anything.\n\nCONSTRAINTS:\n- You have an edit budget: you may relabel at most 3% of tokens in this window. Prefer fewer changes.\n- Use only the provided reason codes for changes.\n- Tokens marked as \"anchor\" are READ-ONLY and must not be changed.\n- Minimize speaker switches while maintaining conversational coherence.\n\nREASON CODES (use only these):\n- jitter_short_turn: Short turn caused by speaker jitter\n- overlap_boundary: Token near overlap boundary\n- lexical_continuity: Lexical continuity with surrounding tokens\n- dialogue_pairing: Question/answer dialogue pairing\n- backchannel_attribution: Backchannel attribution (e.g., \"yeah\", \"uh-huh\")\n- do_not_change: Explicitly keeping unchanged\n\nIf you violate any rule, list it in the \"violations\" array.";

/// The fixed system prompt for speaker identification.
pub const SPEAKER_ID_SYSTEM_PROMPT: &'static str = "You are an expert at identifying speakers in conversation transcripts.\n\nYour task is to match numeric speaker IDs (Speaker 0, Speaker 1, etc.) to actual participant names based on evidence in the transcript.\n\n## Guidelines\n\n1. **Look for self-introductions**: \"Hi, I'm Alice\" or \"This is Bob speaking\"\n2. **Listen for name mentions by others**: \"Thanks Alice\" or \"Bob, can you explain?\"\n3. **Consider context clues**: Job titles, roles, expertise demonstrated\n4. **Use participant hints**: If provided, match speaking style and content to hints\n\n## Important Rules\n\n- Only identify a speaker if you have CLEAR evidence\n- Do NOT guess or assume based on stereotypes\n- Confidence scores should reflect actual certainty:\n  - 0.9-1.0: Direct self-introduction or multiple clear mentions\n  - 0.7-0.9: Strong contextual evidence (role mentioned, addressed by name)\n  - 0.5-0.7: Some evidence but uncertain\n  - Below 0.5: Insufficient evidence (leave unidentified)\n- Provide specific quotes or observations as evidence\n- It's better to leave a speaker unidentified than to guess incorrectly\n\n## Output Format\n\nUse the submit_speaker_identifications tool to provide your analysis.";

/// The tool schema for speaker identification, as JSON text.
pub const SPEAKER_ID_TOOL_SCHEMA: &'static str = "{\"type\":\"object\",\"properties\":{\"identifications\":{\"type\":\"array\",\"description\":\"Identification result for each speaker\",\"items\":{\"type\":\"object\",\"properties\":{\"speaker_id\":{\"type\":\"integer\",\"description\":\"The numeric speaker ID (0, 1, 2, ...)\"},\"identified_as\":{\"type\":[\"string\",\"null\"],\"description\":\"The participant name this speaker is identified as, or null if unknown\"},\"confidence\":{\"type\":\"number\",\"description\":\"Confidence score from 0.0 to 1.0\",\"minimum\":0.0,\"maximum\":1.0},\"evidence\":{\"type\":\"array\",\"items\":{\"type\":\"string\"},\"description\":\"Specific quotes or observations supporting the identification\"}},\"required\":[\"speaker_id\",\"confidence\",\"evidence\"]}}},\"required\":[\"identifications\"]}";

/// Build the system prompt for speaker identification.
pub fn build_speaker_id_system_prompt() -> (r: String)
    ensures
        r@ == SPEAKER_ID_SYSTEM_PROMPT@,
{
    String::from_str(SPEAKER_ID_SYSTEM_PROMPT)
}

/// The tool schema for speaker identification, as JSON text.
pub fn get_speaker_id_tool_schema() -> (r: String)
    ensures
        r@ == SPEAKER_ID_TOOL_SCHEMA@,
{
    String::from_str(SPEAKER_ID_TOOL_SCHEMA)
}

/// One line of the participant list: `N. **name**`, with ` - hints` when
/// hints are given.
pub open spec fn participant_line(p: Participant, i: int) -> Seq<char> {
    dec_spec(i + 1) + ". **"@ + p.name@ + "**"@ + (match p.hints {
        Some(h) => " - "@ + h@,
        None => Seq::empty(),
    }) + "\n"@
}

/// The participant list, one numbered line each.
pub open spec fn participants_sec(ps: Seq<Participant>, upto: int) -> Seq<char>
    decreases upto,
{
    if upto <= 0 {
        Seq::empty()
    } else {
        participants_sec(ps, upto - 1) + participant_line(ps[upto - 1], upto - 1)
    }
}

/// The speaker list, `Speaker N` joined by commas.
pub open spec fn speakers_join(ids: Seq<u32>, upto: int) -> Seq<char>
    decreases upto,
{
    if upto <= 0 {
        Seq::empty()
    } else if upto == 1 {
        "Speaker "@ + dec_spec(ids[0] as int)
    } else {
        speakers_join(ids, upto - 1) + ", "@ + "Speaker "@ + dec_spec(ids[upto - 1] as int)
    }
}

/// The numbered excerpt blocks of one speaker.
pub open spec fn excerpt_blocks(excerpts: Seq<String>, upto: int) -> Seq<char>
    decreases upto,
{
    if upto <= 0 {
        Seq::empty()
    } else {
        excerpt_blocks(excerpts, upto - 1) + "**Excerpt "@ + dec_spec(upto) + ":**\n"@ + excerpts[
            upto - 1
        ]@ + "\n\n"@
    }
}

/// The per-speaker excerpt sections.
pub open spec fn excerpts_sec(entries: Seq<(u32, Vec<String>)>, upto: int) -> Seq<char>
    decreases upto,
{
    if upto <= 0 {
        Seq::empty()
    } else {
        excerpts_sec(entries, upto - 1) + "## Speaker "@ + dec_spec(entries[upto - 1].0 as int)
            + "\n\n"@ + excerpt_blocks(
            entries[upto - 1].1@,
            entries[upto - 1].1@.len() as int,
        )
    }
}

/// The whole user prompt for speaker identification.
pub open spec fn speaker_id_user_prompt_spec(
    ps: Seq<Participant>,
    entries: Seq<(u32, Vec<String>)>,
    ids: Seq<u32>,
) -> Seq<char> {
    "# Participants to Identify\n\n"@ + participants_sec(ps, ps.len() as int) + "\n"@
        + "# Speakers in Transcript\n\n"@ + "The transcript contains "@ + dec_spec(
        ids.len() as int,
    ) + " speakers: "@ + speakers_join(ids, ids.len() as int) + "\n\n"@
        + "# Transcript Excerpts by Speaker\n\n"@ + excerpts_sec(entries, entries.len() as int)
        + "# Task\n\n"@
        + "Analyze the excerpts above and identify which participant corresponds to each speaker. "@
        + "Use the submit_speaker_identifications tool to provide your identifications with confidence scores and evidence.\n"@
}

/// Build the user prompt for speaker identification: the participants to
/// match, the speakers present, and each speaker's transcript excerpts.
pub fn build_speaker_id_user_prompt(
    participants: &Vec<Participant>,
    speaker_excerpts: &Vec<(u32, Vec<String>)>,
    speaker_ids: &Vec<u32>,
) -> (r: String)
    ensures
        r@ == speaker_id_user_prompt_spec(participants@, speaker_excerpts@, speaker_ids@),
{
    let mut out = String::from_str("# Participants to Identify\n\n");
    let np = participants.len();
    let mut i: usize = 0;
    while i < np
        invariant
            0 <= i <= np,
            np == participants@.len(),
            out@ == "# Participants to Identify\n\n"@ + participants_sec(
                participants@,
                i as int,
            ),
        decreases np - i,
    {
        let p = &participants[i];
        let num = u64_to_dec((i + 1) as u64);
        out.append(num.as_str());
        out.append(". **");
        out.append(p.name.as_str());
        out.append("**");
        match &p.hints {
            Some(h) => {
                out.append(" - ");
                out.append(h.as_str());
            },
            None => {},
        }
        out.append("\n");
        proof {
            reveal_strlit(". **");
            reveal_strlit("**");
            reveal_strlit(" - ");
            reveal_strlit("\n");
            assert(out@ =~= "# Participants to Identify\n\n"@ + participants_sec(
                participants@,
                i + 1,
            ));
        }
        i = i + 1;
    }
    out.append("\n");
    out.append("# Speakers in Transcript\n\n");
    out.append("The transcript contains ");
    let ghost head = out@;
    let nid = speaker_ids.len();
    let cnt = u64_to_dec(nid as u64);
    out.append(cnt.as_str());
    out.append(" speakers: ");
    let ghost joined_base = out@;
    let mut a: usize = 0;
    while a < nid
        invariant
            0 <= a <= nid,
            nid == speaker_ids@.len(),
            joined_base == out@ || a > 0,
            out@ == joined_base + speakers_join(speaker_ids@, a as int),
        decreases nid - a,
    {
        if a > 0 {
            out.append(", ");
        }
        out.append("Speaker ");
        let d = u64_to_dec(speaker_ids[a] as u64);
        out.append(d.as_str());
        proof {
            reveal_strlit(", ");
            reveal_strlit("Speaker ");
            assert(out@ =~= joined_base + speakers_join(speaker_ids@, a + 1));
        }
        a = a + 1;
    }
    out.append("\n\n");
    out.append("# Transcript Excerpts by Speaker\n\n");
    let ghost exc_base = out@;
    let ne = speaker_excerpts.len();
    let mut e: usize = 0;
    while e < ne
        invariant
            0 <= e <= ne,
            ne == speaker_excerpts@.len(),
            out@ == exc_base + excerpts_sec(speaker_excerpts@, e as int),
        decreases ne - e,
    {
        out.append("## Speaker ");
        let d = u64_to_dec(speaker_excerpts[e].0 as u64);
        out.append(d.as_str());
        out.append("\n\n");
        let ghost block_base = out@;
        let nx = speaker_excerpts[e].1.len();
        let mut x: usize = 0;
        while x < nx
            invariant
                0 <= x <= nx,
                e < speaker_excerpts@.len(),
                nx == speaker_excerpts@[e as int].1@.len(),
                out@ == block_base + excerpt_blocks(speaker_excerpts@[e as int].1@, x as int),
            decreases nx - x,
        {
            out.append("**Excerpt ");
            let d2 = u64_to_dec((x + 1) as u64);
            out.append(d2.as_str());
            out.append(":**\n");
            out.append(speaker_excerpts[e].1[x].as_str());
            out.append("\n\n");
            proof {
                reveal_strlit("**Excerpt ");
                reveal_strlit(":**\n");
                reveal_strlit("\n\n");
                assert(out@ =~= block_base + excerpt_blocks(
                    speaker_excerpts@[e as int].1@,
                    x + 1,
                ));
            }
            x = x + 1;
        }
        proof {
            reveal_strlit("## Speaker ");
            reveal_strlit("\n\n");
            assert(out@ =~= exc_base + excerpts_sec(speaker_excerpts@, e + 1));
        }
        e = e + 1;
    }
    out.append("# Task\n\n");
    out.append("Analyze the excerpts above and identify which participant corresponds to each speaker. ");
    out.append("Use the submit_speaker_identifications tool to provide your identifications with confidence scores and evidence.\n");
    proof {
        reveal_strlit("# Participants to Identify\n\n");
        reveal_strlit("\n");
        reveal_strlit("# Speakers in Transcript\n\n");
        reveal_strlit("The transcript contains ");
        reveal_strlit(" speakers: ");
        reveal_strlit("\n\n");
        reveal_strlit("# Transcript Excerpts by Speaker\n\n");
        reveal_strlit("# Task\n\n");
        reveal_strlit(
            "Analyze the excerpts above and identify which participant corresponds to each speaker. ",
        );
        reveal_strlit(
            "Use the submit_speaker_identifications tool to provide your identifications with confidence scores and evidence.\n",
        );
        assert(out@ =~= speaker_id_user_prompt_spec(
            participants@,
            speaker_excerpts@,
            speaker_ids@,
        ));
    }
    out
}


/// The escaped form of one character in a JSON string literal.
pub open spec fn esc_char(c: char) -> Seq<char> {
    if c == '"' {
        seq!['\\', '"']
    } else if c == '\\' {
        seq!['\\', '\\']
    } else if c == '\n' {
        seq!['\\', 'n']
    } else if c == '\t' {
        seq!['\\', 't']
    } else if c == '\r' {
        seq!['\\', 'r']
    } else {
        seq![c]
    }
}

/// The body of a JSON string literal for `s[..upto]`.
pub open spec fn json_escape(s: Seq<char>, upto: int) -> Seq<char>
    decreases upto,
{
    if upto <= 0 {
        Seq::empty()
    } else {
        json_escape(s, upto - 1) + esc_char(s[upto - 1])
    }
}

/// Escape a string for embedding in a JSON string literal.
pub fn json_escape_str(s: &str) -> (r: String)
    ensures
        r@ == json_escape(s@, s@.len() as int),
{
    let n = s.unicode_len();
    let mut out = String::new();
    let mut i: usize = 0;
    while i < n
        invariant
            0 <= i <= n,
            n == s@.len(),
            out@ == json_escape(s@, i as int),
        decreases n - i,
    {
        let c = s.get_char(i);
        if c == '"' {
            out.append("\\\"");
            proof {
                reveal_strlit("\\\"");
                assert(out@ =~= json_escape(s@, i + 1));
            }
        } else if c == '\\' {
            out.append("\\\\");
            proof {
                reveal_strlit("\\\\");
                assert(out@ =~= json_escape(s@, i + 1));
            }
        } else if c == '\n' {
            out.append("\\n");
            proof {
                reveal_strlit("\\n");
                assert(out@ =~= json_escape(s@, i + 1));
            }
        } else if c == '\t' {
            out.append("\\t");
            proof {
                reveal_strlit("\\t");
                assert(out@ =~= json_escape(s@, i + 1));
            }
        } else if c == '\r' {
            out.append("\\r");
            proof {
                reveal_strlit("\\r");
                assert(out@ =~= json_escape(s@, i + 1));
            }
        } else {
            let piece = s.substring_char(i, i + 1);
            out.append(piece);
            proof {
                assert(piece@ =~= seq![s@[i as int]]);
                assert(out@ =~= json_escape(s@, i + 1));
            }
        }
        i = i + 1;
    }
    out
}

/// `true` or `false`.
pub open spec fn bool_spec(b: bool) -> Seq<char> {
    if b {
        "true"@
    } else {
        "false"@
    }
}

/// One token as a JSON object: identifier, word, times, speaker, confidence
/// (in thousandths), overlap flag and turn, with an anchor mark for
/// read-only context tokens.
pub open spec fn token_line_spec(t: Token, anchor: bool) -> Seq<char> {
    "{\"token_id\":"@ + dec_spec(t.token_id as int) + ",\"word\":\""@ + json_escape(
        t.word@,
        t.word@.len() as int,
    ) + "\",\"start_ms\":"@ + dec_spec(t.start_ms as int) + ",\"end_ms\":"@ + dec_spec(
        t.end_ms as int,
    ) + ",\"speaker\":"@ + dec_spec(t.speaker as int) + ",\"speaker_conf\":"@ + dec_spec(
        t.speaker_conf as int,
    ) + ",\"overlap_flag\":"@ + bool_spec(t.is_overlap_region) + ",\"turn_id\":"@ + dec_spec(
        t.turn_id as int,
    ) + (if anchor {
        ",\"anchor\":true"@
    } else {
        Seq::<char>::empty()
    }) + "}"@
}

/// The token block: a JSON array with one token object per line.
pub open spec fn token_block_spec(
    tokens: Seq<Token>,
    idxs: Seq<usize>,
    anchor: bool,
    upto: int,
) -> Seq<char>
    decreases upto,
{
    if upto <= 0 {
        Seq::empty()
    } else if upto == 1 {
        token_line_spec(tokens[idxs[0] as int], anchor)
    } else {
        token_block_spec(tokens, idxs, anchor, upto - 1) + ",\n"@ + token_line_spec(
            tokens[idxs[upto - 1] as int],
            anchor,
        )
    }
}

/// The full token block with its array brackets.
pub open spec fn format_tokens_spec(tokens: Seq<Token>, idxs: Seq<usize>, anchor: bool) -> Seq<
    char,
> {
    "["@ + token_block_spec(tokens, idxs, anchor, idxs.len() as int) + "]"@
}

/// Serialize one token as a JSON object line.
fn token_line(tok: &Token, anchor: bool) -> (r: String)
    ensures
        r@ == token_line_spec(*tok, anchor),
{
    let mut out = String::from_str("{\"token_id\":");
    let d1 = u64_to_dec(tok.token_id);
    out.append(d1.as_str());
    out.append(",\"word\":\"");
    let w = json_escape_str(tok.word.as_str());
    out.append(w.as_str());
    out.append("\",\"start_ms\":");
    let d2 = u64_to_dec(tok.start_ms);
    out.append(d2.as_str());
    out.append(",\"end_ms\":");
    let d3 = u64_to_dec(tok.end_ms);
    out.append(d3.as_str());
    out.append(",\"speaker\":");
    let d4 = u64_to_dec(tok.speaker as u64);
    out.append(d4.as_str());
    out.append(",\"speaker_conf\":");
    let d5 = u64_to_dec(tok.speaker_conf as u64);
    out.append(d5.as_str());
    out.append(",\"overlap_flag\":");
    if tok.is_overlap_region {
        out.append("true");
    } else {
        out.append("false");
    }
    out.append(",\"turn_id\":");
    let d6 = u64_to_dec(tok.turn_id);
    out.append(d6.as_str());
    if anchor {
        out.append(",\"anchor\":true");
        out.append("}");
    } else {
        out.append("}");
        proof {
            assert(",\"turn_id\":"@ + dec_spec(tok.turn_id as int) + Seq::<char>::empty()
                =~= ",\"turn_id\":"@ + dec_spec(tok.turn_id as int));
            assert(out@ =~= token_line_spec(*tok, anchor));
        }
    }
    out
}

/// Serialize the tokens at `idxs` as a JSON array for the prompt.
pub fn format_tokens(t: &TokenizedTranscript, idxs: &Vec<usize>, anchor: bool) -> (r: String)
    requires
        forall|m: int| 0 <= m < idxs@.len() ==> #[trigger] idxs@[m] < t.tokens@.len(),
    ensures
        r@ == format_tokens_spec(t.tokens@, idxs@, anchor),
{
    let mut out = String::from_str("[");
    let n = idxs.len();
    let mut m: usize = 0;
    while m < n
        invariant
            0 <= m <= n,
            n == idxs@.len(),
            forall|q: int| 0 <= q < n ==> #[trigger] idxs@[q] < t.tokens@.len(),
            out@ == "["@ + token_block_spec(t.tokens@, idxs@, anchor, m as int),
        decreases n - m,
    {
        if m > 0 {
            out.append(",\n");
        }
        let tok = &t.tokens[idxs[m]];
        let line = token_line(tok, anchor);
        out.append(line.as_str());
        proof {
            assert(out@ =~= "["@ + token_block_spec(t.tokens@, idxs@, anchor, m + 1));
        }
        m = m + 1;
    }
    out.append("]");
    proof {
        reveal_strlit("[");
        reveal_strlit("]");
        assert(out@ =~= format_tokens_spec(t.tokens@, idxs@, anchor));
    }
    out
}


/// Per-speaker statistics shown as hints in the window prompt.
pub struct SpeakerStats {
    /// Number of the speaker's words inside the window.
    pub word_count: usize,
    /// Average duration of the speaker's turns touching the window, in
    /// milliseconds.
    pub avg_turn_duration_ms: u64,
    /// The speaker's most frequent lowercased words in the window.
    pub common_words: Vec<String>,
}

/// Accumulator for one speaker's statistics.
pub struct SpeakerStatsBuilder {
    /// The speaker's lowercased words in the window, in order.
    pub words: Vec<String>,
    /// Durations of the speaker's turns touching the window.
    pub turn_durations: Vec<u64>,
}

impl SpeakerStatsBuilder {
    /// An empty accumulator.
    pub fn new() -> (r: Self)
        ensures
            r.words@.len() == 0,
            r.turn_durations@.len() == 0,
    {
        SpeakerStatsBuilder { words: Vec::new(), turn_durations: Vec::new() }
    }
}

/// The ghost model of one speaker's statistics.
pub struct StatsModel {
    /// Number of words in the window.
    pub word_count: int,
    /// Average turn duration in milliseconds.
    pub avg: int,
    /// Most frequent lowercased words, most frequent first.
    pub common: Seq<Seq<char>>,
}

/// The lowercased words of speaker `s` among the window tokens, in order.
pub open spec fn sp_words(tokens: Seq<Token>, idxs: Seq<usize>, s: u32, upto: int) -> Seq<
    Seq<char>,
>
    decreases upto,
{
    if upto <= 0 {
        Seq::empty()
    } else {
        let rest = sp_words(tokens, idxs, s, upto - 1);
        if tokens[idxs[upto - 1] as int].speaker == s {
            rest.push(lower_of(tokens[idxs[upto - 1] as int].word@))
        } else {
            rest
        }
    }
}

/// How often a word occurs in a word sequence.
pub open spec fn wcount(ws: Seq<Seq<char>>, w: Seq<char>) -> int {
    sel_idxs(|j: int| 0 <= j < ws.len() && ws[j] == w, ws.len() as int).len() as int
}

/// The distinct words of a sequence, in first-occurrence order.
pub open spec fn distincts(ws: Seq<Seq<char>>, upto: int) -> Seq<Seq<char>>
    decreases upto,
{
    if upto <= 0 {
        Seq::empty()
    } else {
        let rest = distincts(ws, upto - 1);
        if rest.contains(ws[upto - 1]) {
            rest
        } else {
            rest.push(ws[upto - 1])
        }
    }
}

/// The positions of the `k` heaviest entries, heaviest first, earliest on
/// ties.
pub open spec fn topk_picks(counts: Seq<int>, sel: Seq<bool>, k: int) -> Seq<int>
    decreases k,
{
    if k <= 0 {
        Seq::empty()
    } else {
        let b = best_unsel(counts, sel, counts.len() as int);
        if b == -1 {
            Seq::empty()
        } else {
            seq![b] + topk_picks(counts, sel.update(b, true), k - 1)
        }
    }
}

/// The most frequent words of a word sequence: up to five, by falling count,
/// earliest first occurrence on ties.
pub open spec fn common_words_spec(ws: Seq<Seq<char>>) -> Seq<Seq<char>> {
    let ds = distincts(ws, ws.len() as int);
    let counts = Seq::new(ds.len(), |j: int| wcount(ws, ds[j]));
    topk_picks(counts, Seq::new(ds.len(), |j: int| false), 5).map_values(|b: int| ds[b])
}

/// The positions of the turns of speaker `s` touching the window.
pub open spec fn sp_turns(turns: Seq<Turn>, window: Window, s: u32) -> Seq<int> {
    sel_idxs(
        |k: int|
            0 <= k < turns.len() && turns[k].speaker == s && turns[k].start_ms < window.end_ms
                && turns[k].end_ms > window.start_ms,
        turns.len() as int,
    )
}

/// The duration of turn `k`, clamped at zero.
pub open spec fn turn_dur_f(turns: Seq<Turn>) -> spec_fn(int) -> int {
    |k: int|
        if turns[k].end_ms >= turns[k].start_ms {
            turns[k].end_ms - turns[k].start_ms
        } else {
            0
        }
}

/// The statistics of speaker `s` for one window.
pub open spec fn stats_model(tokens: Seq<Token>, turns: Seq<Turn>, window: Window, s: u32) -> StatsModel {
    let ws = sp_words(tokens, window.token_indices@, s, window.token_indices@.len() as int);
    let tks = sp_turns(turns, window, s);
    let durs = tks.map_values(turn_dur_f(turns));
    StatsModel {
        word_count: ws.len() as int,
        avg: if tks.len() == 0 {
            0
        } else {
            sum_over(durs, |d: int| d) / (tks.len() as int)
        },
        common: common_words_spec(ws),
    }
}

/// The speakers with at least one word in the window, in ascending order.
pub open spec fn hinted_speakers(
    tokens: Seq<Token>,
    window: Window,
    speakers: Seq<u32>,
) -> Seq<int> {
    sel_idxs(
        |a: int|
            0 <= a < speakers.len() && sp_words(
                tokens,
                window.token_indices@,
                speakers[a],
                window.token_indices@.len() as int,
            ).len() > 0,
        speakers.len() as int,
    )
}

/// One produced stats entry carries the model's data.
pub open spec fn stats_entry_matches(v: (u32, SpeakerStats), s: u32, m: StatsModel) -> bool {
    &&& v.0 == s
    &&& v.1.word_count as int == m.word_count
    &&& v.1.avg_turn_duration_ms as int == m.avg
    &&& v.1.common_words@.len() == m.common.len()
    &&& forall|x: int|
        0 <= x < m.common.len() ==> (#[trigger] v.1.common_words@[x])@ == m.common[x]
}

/// Compute the per-speaker hints for a window: word count, average duration
/// of the speaker's turns touching the window, and the five most frequent
/// lowercased words, for every speaker with a word in the window, in
/// ascending speaker order.
pub fn compute_speaker_stats(t: &TokenizedTranscript, window: &Window) -> (r: Vec<
    (u32, SpeakerStats),
>)
    requires
        t.wf(),
        forall|m: int|
            0 <= m < window.token_indices@.len() ==> #[trigger] window.token_indices@[m]
                < t.tokens@.len(),
    ensures
        ({
            let hs = hinted_speakers(t.tokens@, *window, t.speakers@);
            &&& r@.len() == hs.len()
            &&& forall|e: int|
                0 <= e < r@.len() ==> stats_entry_matches(
                    #[trigger] r@[e],
                    t.speakers@[hs[e]],
                    stats_model(t.tokens@, t.turns@, *window, t.speakers@[hs[e]]),
                )
        }),
{
    let ghost p_h = |a: int|
        0 <= a < t.speakers@.len() && sp_words(
            t.tokens@,
            window.token_indices@,
            t.speakers@[a],
            window.token_indices@.len() as int,
        ).len() > 0;
    let ns = t.speakers.len();
    let nw = window.token_indices.len();
    let nturns = t.turns.len();
    let mut r: Vec<(u32, SpeakerStats)> = Vec::new();
    let mut a: usize = 0;
    while a < ns
        invariant
            0 <= a <= ns,
            ns == t.speakers@.len(),
            nw == window.token_indices@.len(),
            nturns == t.turns@.len(),
            t.wf(),
            forall|m: int|
                0 <= m < window.token_indices@.len() ==> #[trigger] window.token_indices@[m]
                    < t.tokens@.len(),
            p_h == (|a: int|
                0 <= a < t.speakers@.len() && sp_words(
                    t.tokens@,
                    window.token_indices@,
                    t.speakers@[a],
                    window.token_indices@.len() as int,
                ).len() > 0),
            r@.len() == sel_idxs(p_h, a as int).len(),
            forall|e: int|
                0 <= e < r@.len() ==> stats_entry_matches(
                    #[trigger] r@[e],
                    t.speakers@[sel_idxs(p_h, a as int)[e]],
                    stats_model(
                        t.tokens@,
                        t.turns@,
                        *window,
                        t.speakers@[sel_idxs(p_h, a as int)[e]],
                    ),
                ),
        decreases ns - a,
    {
        let s = t.speakers[a];
        let ghost ws = sp_words(t.tokens@, window.token_indices@, s, nw as int);

        // The speaker's lowercased words, with first-occurrence counts.
        let mut words: Vec<String> = Vec::new();
        let mut m: usize = 0;
        while m < nw
            invariant
                0 <= m <= nw,
                nw == window.token_indices@.len(),
                t.wf(),
                forall|q: int|
                    0 <= q < window.token_indices@.len() ==> #[trigger] window.token_indices@[q]
                        < t.tokens@.len(),
                words@.len() == sp_words(t.tokens@, window.token_indices@, s, m as int).len(),
                forall|x: int|
                    0 <= x < words@.len() ==> (#[trigger] words@[x])@ == sp_words(
                        t.tokens@,
                        window.token_indices@,
                        s,
                        m as int,
                    )[x],
            decreases nw - m,
        {
            let idx = window.token_indices[m];
            if t.tokens[idx].speaker == s {
                let lw = lowercase(t.tokens[idx].word.as_str());
                words.push(lw);
            }
            m = m + 1;
        }
        let wc = words.len();

        if wc > 0 {
            // Distinct words with their counts, first occurrence first.
            let ghost full_ws = ws;
            let mut dwords: Vec<String> = Vec::new();
            let mut dcounts: Vec<u64> = Vec::new();
            let mut x: usize = 0;
            while x < wc
                invariant
                    0 <= x <= wc,
                    wc == words@.len(),
                    full_ws.len() == wc,
                    forall|y: int|
                        0 <= y < wc ==> (#[trigger] words@[y])@ == full_ws[y],
                    dwords@.len() == dcounts@.len(),
                    dwords@.map_values(|w: String| w@) =~= distincts(full_ws, x as int),
                    forall|y: int|
                        0 <= y < dcounts@.len() ==> (#[trigger] dcounts@[y]) as int == wcount(
                            full_ws.take(x as int),
                            dwords@[y]@,
                        ),
                    forall|y: int| 0 <= y < dcounts@.len() ==> (#[trigger] dcounts@[y]) <= x,
                decreases wc - x,
            {
                let w = &words[x];
                let nd = dwords.len();
                let ghost pw = |j: int| 0 <= j < full_ws.take(x as int).len() && full_ws.take(
                    x as int,
                )[j] == w@;
                let mut found: usize = nd;
                let mut y: usize = 0;
                while y < nd
                    invariant
                        0 <= y <= nd,
                        nd == dwords@.len(),
                        found <= nd,
                        found == nd ==> forall|z: int| 0 <= z < y ==> (#[trigger] dwords@[z])@
                            != w@,
                        found < nd ==> dwords@[found as int]@ == w@ && found < y,
                    decreases nd - y,
                {
                    if found == nd && dwords[y].eq(w) {
                        found = y;
                    }
                    y = y + 1;
                }
                proof {
                    assert(full_ws.take(x + 1).drop_last() =~= full_ws.take(x as int));
                    assert(full_ws.take(x + 1)[x as int] == full_ws[x as int]);
                    assert(words@[x as int]@ == full_ws[x as int]);
                }
                if found < nd {
                    proof {
                        assert(distincts(full_ws, x as int).contains(full_ws[x as int])) by {
                            assert(dwords@.map_values(|wv: String| wv@)[found as int] == w@);
                        }
                        assert(distincts(full_ws, x + 1) == distincts(full_ws, x as int));
                    }
                    let ghost predc = dcounts@;
                    let (old_c) = dcounts[found];
                    proof {
                        assert(old_c < x + 1);
                    }
                    dcounts[found] = old_c + 1;
                    proof {
                        lemma_distincts_unique(full_ws, x as int);
                        assert forall|y2: int|
                            0 <= y2 < dcounts@.len() implies (#[trigger] dcounts@[y2]) as int
                            == wcount(full_ws.take(x + 1), dwords@[y2]@) by {
                            let pw2 = |j: int|
                                0 <= j < full_ws.take(x + 1).len() && full_ws.take(x + 1)[j]
                                    == dwords@[y2]@;
                            let pw1 = |j: int|
                                0 <= j < full_ws.take(x as int).len() && full_ws.take(x as int)[j]
                                    == dwords@[y2]@;
                            assert(sel_idxs(pw2, x + 1) == if pw2(x as int) {
                                sel_idxs(pw2, x as int).push(x as int)
                            } else {
                                sel_idxs(pw2, x as int)
                            });
                            lemma_sel_pred_ext(pw1, pw2, x as int);
                            if y2 == found {
                                assert(dwords@[y2]@ == w@);
                                assert(pw2(x as int));
                                assert(dcounts@[y2] as int == predc[y2] + 1);
                            } else {
                                assert(distincts(full_ws, x as int)[y2] != distincts(
                                    full_ws,
                                    x as int,
                                )[found as int]);
                                assert(dwords@.map_values(|wv: String| wv@)[y2] == dwords@[y2]@);
                                assert(dwords@[y2]@ != w@);
                                assert(!pw2(x as int));
                                assert(dcounts@[y2] == predc[y2]);
                            }
                        }
                    }
                } else {
                    proof {
                        assert(!distincts(full_ws, x as int).contains(full_ws[x as int])) by {
                            if distincts(full_ws, x as int).contains(full_ws[x as int]) {
                                let z = choose|z: int|
                                    0 <= z < distincts(full_ws, x as int).len() && distincts(
                                        full_ws,
                                        x as int,
                                    )[z] == full_ws[x as int];
                                assert(dwords@.map_values(|wv: String| wv@)[z] == full_ws[
                                    x as int
                                ]);
                                assert(dwords@[z]@ == w@);
                            }
                        }
                        assert(distincts(full_ws, x + 1) == distincts(full_ws, x as int).push(
                            full_ws[x as int],
                        ));
                    }
                    let wclone = words[x].clone();
                    dwords.push(wclone);
                    dcounts.push(1);
                    proof {
                        assert(dwords@.map_values(|wv: String| wv@) =~= distincts(
                            full_ws,
                            x + 1,
                        ));
                        assert forall|y2: int|
                            0 <= y2 < dcounts@.len() implies (#[trigger] dcounts@[y2]) as int
                            == wcount(full_ws.take(x + 1), dwords@[y2]@) by {
                            let pw2 = |j: int|
                                0 <= j < full_ws.take(x + 1).len() && full_ws.take(x + 1)[j]
                                    == dwords@[y2]@;
                            let pw1 = |j: int|
                                0 <= j < full_ws.take(x as int).len() && full_ws.take(x as int)[j]
                                    == dwords@[y2]@;
                            assert(sel_idxs(pw2, x + 1) == if pw2(x as int) {
                                sel_idxs(pw2, x as int).push(x as int)
                            } else {
                                sel_idxs(pw2, x as int)
                            });
                            lemma_sel_pred_ext(pw1, pw2, x as int);
                            if y2 == dcounts@.len() - 1 {
                                lemma_sel_idxs(pw1, x as int);
                                if sel_idxs(pw1, x as int).len() > 0 {
                                    assert(pw1(sel_idxs(pw1, x as int)[0]));
                                    assert(full_ws.take(x as int)[sel_idxs(pw1, x as int)[0]]
                                        == w@);
                                    assert(distincts(full_ws, x as int).contains(full_ws[sel_idxs(
                                        pw1,
                                        x as int,
                                    )[0]])) by {
                                        lemma_distincts_complete(
                                            full_ws,
                                            x as int,
                                            sel_idxs(pw1, x as int)[0],
                                        );
                                    }
                                }
                            }
                        }
                    }
                }
                x = x + 1;
            }
            proof {
                assert(full_ws.take(wc as int) =~= full_ws);
            }

            // Pick the five most frequent.
            let nd = dwords.len();
            let ghost ds = distincts(full_ws, full_ws.len() as int);
            let ghost counts_spec = Seq::new(ds.len(), |j: int| wcount(full_ws, ds[j]));
            proof {
                assert(ds.len() == nd);
                assert forall|y: int|
                    0 <= y < nd implies (#[trigger] dcounts@[y]) as int == counts_spec[y] by {
                    assert(dwords@.map_values(|wv: String| wv@)[y] == ds[y]);
                }
            }
            let mut flags: Vec<bool> = Vec::new();
            let mut f: usize = 0;
            while f < nd
                invariant
                    0 <= f <= nd,
                    flags@.len() == f,
                    forall|q: int| 0 <= q < f ==> #[trigger] flags@[q] == false,
                decreases nd - f,
            {
                flags.push(false);
                f = f + 1;
            }
            proof {
                assert(flags@ =~= Seq::new(ds.len(), |j: int| false));
            }
            let mut common_words: Vec<String> = Vec::new();
            let ghost mut takenpicks: Seq<int> = Seq::empty();
            let mut it: usize = 0;
            let mut done = false;
            proof {
                assert(topk_picks(counts_spec, Seq::new(ds.len(), |j: int| false), 5)
                    =~= takenpicks + topk_picks(counts_spec, flags@, 5));
                assert(topk_picks(counts_spec, Seq::new(ds.len(), |j: int| false), 5) == takenpicks
                    + topk_picks(counts_spec, flags@, 5));
            }
            while it < 5 && !done
                invariant
                    0 <= it <= 5,
                    nd == dwords@.len(),
                    nd == dcounts@.len(),
                    nd == ds.len(),
                    nd == counts_spec.len(),
                    flags@.len() == nd,
                    forall|y: int|
                        0 <= y < nd ==> (#[trigger] dcounts@[y]) as int == counts_spec[y],
                    forall|y: int| 0 <= y < nd ==> (#[trigger] dwords@[y])@ == ds[y],
                    forall|y: int| 0 <= y < takenpicks.len() ==> 0 <= #[trigger] takenpicks[y] < nd,
                    topk_picks(counts_spec, Seq::new(ds.len(), |j: int| false), 5) == takenpicks
                        + (if done {
                        Seq::<int>::empty()
                    } else {
                        topk_picks(counts_spec, flags@, 5 - it)
                    }),
                    common_words@.len() == takenpicks.len(),
                    forall|y: int|
                        0 <= y < takenpicks.len() ==> (#[trigger] common_words@[y])@
                            == ds[takenpicks[y]],
                decreases 5 - it,
            {
                let mut b: usize = nd;
                let mut q: usize = 0;
                while q < nd
                    invariant
                        0 <= q <= nd,
                        nd == dcounts@.len(),
                        nd == counts_spec.len(),
                        flags@.len() == nd,
                        forall|y: int|
                            0 <= y < nd ==> (#[trigger] dcounts@[y]) as int == counts_spec[y],
                        b == nd ==> best_unsel(counts_spec, flags@, q as int) == -1,
                        b < nd ==> b as int == best_unsel(counts_spec, flags@, q as int),
                        b <= nd,
                    decreases nd - q,
                {
                    let better = if !flags[q] {
                        if b == nd {
                            true
                        } else {
                            dcounts[q] > dcounts[b]
                        }
                    } else {
                        false
                    };
                    if better {
                        b = q;
                    }
                    q = q + 1;
                }
                if b == nd {
                    done = true;
                } else {
                    let ghost preflags = flags@;
                    let ghost prec = common_words@;
                    let cl = dwords[b].clone();
                    proof {
                        assert(cl == dwords@[b as int]);
                    }
                    common_words.push(cl);
                    flags[b] = true;
                    proof {
                        assert(flags@ == preflags.update(b as int, true));
                        let oldrest = topk_picks(counts_spec, preflags, 5 - it);
                        let newrest = topk_picks(counts_spec, flags@, 5 - it - 1);
                        assert(oldrest == seq![b as int] + newrest);
                        assert(takenpicks + oldrest =~= takenpicks.push(b as int) + newrest);
                        assert(common_words@ == prec.push(dwords@[b as int]));
                        assert(dwords@[b as int]@ == ds[b as int]);
                        let pretaken = takenpicks;
                        takenpicks = takenpicks.push(b as int);
                        assert forall|y: int|
                            0 <= y < takenpicks.len() implies (#[trigger] common_words@[y])@
                            == ds[takenpicks[y]] by {
                            if y < prec.len() {
                                assert(common_words@[y] == prec[y]);
                                assert(takenpicks[y] == pretaken[y]);
                            } else {
                                assert(common_words@[y] == dwords@[b as int]);
                                assert(takenpicks[y] == b as int);
                            }
                        }
                    }
                }
                it = it + 1;
            }
            proof {
                if !done {
                    assert(topk_picks(counts_spec, flags@, 0) =~= Seq::<int>::empty());
                }
                let full = topk_picks(counts_spec, Seq::new(ds.len(), |j: int| false), 5);
                assert(full =~= takenpicks);
                assert(full.len() == common_words@.len());
                assert forall|y: int|
                    0 <= y < common_words@.len() implies (#[trigger] common_words@[y])@
                    == common_words_spec(full_ws)[y] by {
                    assert(common_words@[y]@ == ds[takenpicks[y]]);
                    assert(common_words_spec(full_ws)[y] == ds[full[y]]);
                }
            }

            // Average turn duration.
            let ghost p_t = |k: int|
                0 <= k < t.turns@.len() && t.turns@[k].speaker == s && t.turns@[k].start_ms
                    < window.end_ms && t.turns@[k].end_ms > window.start_ms;
            let mut dur_sum: u128 = 0;
            let mut dur_cnt: u64 = 0;
            let mut k: usize = 0;
            while k < nturns
                invariant
                    0 <= k <= nturns,
                    nturns == t.turns@.len(),
                    t.wf(),
                    p_t == (|k: int|
                        0 <= k < t.turns@.len() && t.turns@[k].speaker == s && t.turns@[k].start_ms
                            < window.end_ms && t.turns@[k].end_ms > window.start_ms),
                    dur_cnt as int == sel_idxs(p_t, k as int).len(),
                    dur_cnt <= k,
                    dur_sum as int == sum_over(
                        sel_idxs(p_t, k as int).map_values(turn_dur_f(t.turns@)),
                        |d: int| d,
                    ),
                    dur_sum <= (dur_cnt as u128) * (crate::models::MAX_TIME_MS as u128),
                decreases nturns - k,
            {
                let turn = &t.turns[k];
                if turn.speaker == s && turn.start_ms < window.end_ms && turn.end_ms
                    > window.start_ms {
                    let dur: u64 = if turn.end_ms >= turn.start_ms {
                        turn.end_ms - turn.start_ms
                    } else {
                        0
                    };
                    proof {
                        assert(crate::models::turn_wf_at(t.tokens@, t.turns@, k as int));
                        let first = turn.token_indices@[0];
                        let last = turn.token_indices@[turn.token_indices@.len() - 1];
                        assert(t.tokens@[last as int].time_wf());
                        assert(dur <= crate::models::MAX_TIME_MS);
                        assert(sel_idxs(p_t, k + 1) == sel_idxs(p_t, k as int).push(k as int));
                        assert(sel_idxs(p_t, k + 1).map_values(turn_dur_f(t.turns@)) =~= sel_idxs(
                            p_t,
                            k as int,
                        ).map_values(turn_dur_f(t.turns@)).push(turn_dur_f(t.turns@)(k as int)));
                        assert(turn_dur_f(t.turns@)(k as int) == dur as int);
                        let mapped = sel_idxs(p_t, k as int).map_values(turn_dur_f(t.turns@));
                        assert(mapped.push(dur as int).drop_last() =~= mapped);
                        assert(sum_over(mapped.push(dur as int), |d: int| d) == sum_over(
                            mapped,
                            |d: int| d,
                        ) + dur as int);
                        assert(((dur_cnt + 1) as u128) * (crate::models::MAX_TIME_MS as u128) == (
                        dur_cnt as u128) * (crate::models::MAX_TIME_MS as u128) + (
                        crate::models::MAX_TIME_MS as u128)) by (nonlinear_arith);
                    }
                    dur_sum = dur_sum + (dur as u128);
                    dur_cnt = dur_cnt + 1;
                } else {
                    proof {
                        assert(sel_idxs(p_t, k + 1) == sel_idxs(p_t, k as int));
                    }
                }
                k = k + 1;
            }
            let avg: u64 = if dur_cnt == 0 {
                0
            } else {
                proof {
                    assert(dur_sum / (dur_cnt as u128) <= crate::models::MAX_TIME_MS as u128)
                        by (nonlinear_arith)
                        requires
                            dur_cnt > 0,
                            dur_sum <= (dur_cnt as u128) * (crate::models::MAX_TIME_MS as u128),
                    ;
                }
                (dur_sum / (dur_cnt as u128)) as u64
            };

            let stats = SpeakerStats { word_count: wc, avg_turn_duration_ms: avg, common_words };
            r.push((s, stats));
            proof {
                lemma_sel_idxs(p_t, nturns as int);
                assert(stats_entry_matches(
                    (s, stats),
                    s,
                    stats_model(t.tokens@, t.turns@, *window, s),
                ));
                assert(p_h(a as int));
                assert(sel_idxs(p_h, a + 1) == sel_idxs(p_h, a as int).push(a as int));
            }
        } else {
            proof {
                assert(!p_h(a as int));
                assert(sel_idxs(p_h, a + 1) == sel_idxs(p_h, a as int));
            }
        }
        a = a + 1;
    }
    r
}

/// Selections agree when their predicates agree below the bound.
proof fn lemma_sel_pred_ext(p1: spec_fn(int) -> bool, p2: spec_fn(int) -> bool, upto: int)
    requires
        forall|j: int| 0 <= j < upto ==> #[trigger] p1(j) == #[trigger] p2(j),
    ensures
        sel_idxs(p1, upto) == sel_idxs(p2, upto),
    decreases upto,
{
    if upto > 0 {
        lemma_sel_pred_ext(p1, p2, upto - 1);
    }
}

/// The distinct-word list has no duplicates.
proof fn lemma_distincts_unique(ws: Seq<Seq<char>>, upto: int)
    ensures
        forall|z1: int, z2: int|
            0 <= z1 < z2 < distincts(ws, upto).len() ==> #[trigger] distincts(ws, upto)[z1]
                != #[trigger] distincts(ws, upto)[z2],
    decreases upto,
{
    if upto > 0 {
        lemma_distincts_unique(ws, upto - 1);
        let rest = distincts(ws, upto - 1);
        if !rest.contains(ws[upto - 1]) {
            assert forall|z1: int, z2: int|
                0 <= z1 < z2 < distincts(ws, upto).len() implies #[trigger] distincts(
                ws,
                upto,
            )[z1] != #[trigger] distincts(ws, upto)[z2] by {
                if z2 == distincts(ws, upto).len() - 1 {
                    assert(distincts(ws, upto)[z1] == rest[z1]);
                    if rest[z1] == ws[upto - 1] {
                        assert(rest.contains(ws[upto - 1]));
                    }
                } else {
                    assert(distincts(ws, upto)[z1] == rest[z1]);
                    assert(distincts(ws, upto)[z2] == rest[z2]);
                }
            }
        }
    }
}

/// Every word of the sequence occurs among the distinct words.
proof fn lemma_distincts_complete(ws: Seq<Seq<char>>, upto: int, j: int)
    requires
        0 <= j < upto,
    ensures
        distincts(ws, upto).contains(ws[j]),
    decreases upto,
{
    if j == upto - 1 {
        if !distincts(ws, upto - 1).contains(ws[upto - 1]) {
            assert(distincts(ws, upto)[distincts(ws, upto).len() - 1] == ws[upto - 1]);
        }
    } else {
        lemma_distincts_complete(ws, upto - 1, j);
        let rest = distincts(ws, upto - 1);
        let z = choose|z: int| 0 <= z < rest.len() && rest[z] == ws[j];
        assert(distincts(ws, upto)[z] == ws[j]);
    }
}


/// Render a (possibly large) count in decimal.
fn u128_to_dec(n: u128) -> (r: String)
    ensures
        r@ == dec_spec(n as int),
    decreases n,
{
    if n < 10 {
        String::from_str(digit_str_u128(n))
    } else {
        let mut s = u128_to_dec(n / 10);
        s.append(digit_str_u128(n % 10));
        proof {
            assert(s@ =~= dec_spec(n as int));
        }
        s
    }
}

/// One decimal digit of a wide count as a string slice.
fn digit_str_u128(d: u128) -> (r: &'static str)
    requires
        d < 10,
    ensures
        r@ == seq![crate::render::digit_char(d as int)],
{
    let small: u64 = d as u64;
    crate::render::digit_str_pub(small)
}

/// Words joined by commas.
pub open spec fn words_join(ws: Seq<Seq<char>>, upto: int) -> Seq<char>
    decreases upto,
{
    if upto <= 0 {
        Seq::empty()
    } else if upto == 1 {
        ws[0]
    } else {
        words_join(ws, upto - 1) + ", "@ + ws[upto - 1]
    }
}

/// One speaker-hint line: label, word count, average turn duration (in
/// milliseconds), and the most common words.
pub open spec fn hint_line_spec(s: u32, m: StatsModel) -> Seq<char> {
    "- Speaker "@ + dec_spec(s as int) + ": "@ + dec_spec(m.word_count) + " words, avg turn "@
        + dec_spec(m.avg) + "ms, common words: "@ + words_join(m.common, m.common.len() as int)
        + "\n"@
}

/// The speaker-hint lines, one per hinted speaker.
pub open spec fn hints_sec(
    tokens: Seq<Token>,
    turns: Seq<Turn>,
    window: Window,
    speakers: Seq<u32>,
    hs: Seq<int>,
    upto: int,
) -> Seq<char>
    decreases upto,
{
    if upto <= 0 {
        Seq::empty()
    } else {
        hints_sec(tokens, turns, window, speakers, hs, upto - 1) + hint_line_spec(
            speakers[hs[upto - 1]],
            stats_model(tokens, turns, window, speakers[hs[upto - 1]]),
        )
    }
}

/// The whole per-window user prompt: window header and edit budget, speaker
/// hints, the read-only anchor blocks, the editable token block, and the
/// closing instructions.
pub open spec fn window_prompt_spec(
    tokens: Seq<Token>,
    turns: Seq<Turn>,
    speakers: Seq<u32>,
    window: Window,
    budget_pct: int,
) -> Seq<char> {
    let hs = hinted_speakers(tokens, window, speakers);
    "# Window: "@ + dec_spec(window.window_id as int) + "\n"@ + "Time range: "@ + dec_spec(
        window.start_ms as int,
    ) + "ms - "@ + dec_spec(window.end_ms as int) + "ms\n"@ + "Edit budget: "@ + dec_spec(
        crate::validation::spec_budget(window.token_indices@.len() as int, budget_pct),
    ) + " tokens ("@ + dec_spec(budget_pct) + "% of "@ + dec_spec(
        window.token_indices@.len() as int,
    ) + ")\n\n"@ + (if hs.len() > 0 {
        "## Speaker Hints\n"@ + hints_sec(tokens, turns, window, speakers, hs, hs.len() as int)
            + "\n"@
    } else {
        Seq::<char>::empty()
    }) + (if window.anchor_prefix_indices@.len() > 0 {
        "## Anchor Prefix (READ-ONLY)\n```json\n"@ + format_tokens_spec(
            tokens,
            window.anchor_prefix_indices@,
            true,
        ) + "\n```\n\n"@
    } else {
        Seq::<char>::empty()
    }) + "## Tokens (EDITABLE)\n```json\n"@ + format_tokens_spec(
        tokens,
        window.token_indices@,
        false,
    ) + "\n```\n\n"@ + (if window.anchor_suffix_indices@.len() > 0 {
        "## Anchor Suffix (READ-ONLY)\n```json\n"@ + format_tokens_spec(
            tokens,
            window.anchor_suffix_indices@,
            true,
        ) + "\n```\n\n"@
    } else {
        Seq::<char>::empty()
    }) + "## Instructions\nAnalyze the tokens and submit a patch using the submit_patch tool.\nOnly relabel tokens where you are confident there is an error.\nFocus on:\n- Short turns that may be speaker jitter\n- Backchannels attributed to the wrong speaker\n- Overlap boundaries where speaker attribution may be incorrect\n"@
}

/// Render one speaker-hint line.
fn hint_line(spk: u32, st: &SpeakerStats, m: Ghost<StatsModel>) -> (r: String)
    requires
        st.word_count as int == m@.word_count,
        st.avg_turn_duration_ms as int == m@.avg,
        st.common_words@.len() == m@.common.len(),
        forall|x: int|
            0 <= x < m@.common.len() ==> (#[trigger] st.common_words@[x])@ == m@.common[x],
    ensures
        r@ == hint_line_spec(spk, m@),
{
    let mut out = String::from_str("- Speaker ");
    let h1 = u64_to_dec(spk as u64);
    out.append(h1.as_str());
    out.append(": ");
    let h2 = u64_to_dec(st.word_count as u64);
    out.append(h2.as_str());
    out.append(" words, avg turn ");
    let h3 = u64_to_dec(st.avg_turn_duration_ms);
    out.append(h3.as_str());
    out.append("ms, common words: ");
    let ghost join_base = out@;
    let nc = st.common_words.len();
    let mut c: usize = 0;
    while c < nc
        invariant
            0 <= c <= nc,
            nc == st.common_words@.len(),
            nc == m@.common.len(),
            forall|x: int|
                0 <= x < m@.common.len() ==> (#[trigger] st.common_words@[x])@ == m@.common[x],
            out@ == join_base + words_join(m@.common, c as int),
        decreases nc - c,
    {
        if c > 0 {
            out.append(", ");
        }
        out.append(st.common_words[c].as_str());
        proof {
            assert(out@ =~= join_base + words_join(m@.common, c + 1));
        }
        c = c + 1;
    }
    out.append("\n");
    proof {
        assert(out@ =~= hint_line_spec(spk, m@));
    }
    out
}

/// Build the user prompt for one window: header and edit budget, per-speaker
/// hints, the read-only anchors, the editable tokens, and the instructions.
#[verifier::rlimit(100)]
pub fn build_window_prompt(
    transcript: &TokenizedTranscript,
    window: &Window,
    edit_budget_percent: u32,
) -> (r: String)
    requires
        transcript.wf(),
        forall|m: int|
            0 <= m < window.token_indices@.len() ==> #[trigger] window.token_indices@[m]
                < transcript.tokens@.len(),
        forall|m: int|
            0 <= m < window.anchor_prefix_indices@.len()
                ==> #[trigger] window.anchor_prefix_indices@[m] < transcript.tokens@.len(),
        forall|m: int|
            0 <= m < window.anchor_suffix_indices@.len()
                ==> #[trigger] window.anchor_suffix_indices@[m] < transcript.tokens@.len(),
    ensures
        r@ == window_prompt_spec(
            transcript.tokens@,
            transcript.turns@,
            transcript.speakers@,
            *window,
            edit_budget_percent as int,
        ),
{
    let mut out = String::from_str("# Window: ");
    let d1 = u64_to_dec(window.window_id);
    out.append(d1.as_str());
    out.append("\n");
    out.append("Time range: ");
    let d2 = u64_to_dec(window.start_ms);
    out.append(d2.as_str());
    out.append("ms - ");
    let d3 = u64_to_dec(window.end_ms);
    out.append(d3.as_str());
    out.append("ms\n");
    out.append("Edit budget: ");
    let nw = window.token_indices.len();
    proof {
        assert((nw as u128) * (edit_budget_percent as u128)
            < 0x1_0000_0000_0000_0000_0000_0000u128) by (nonlinear_arith)
            requires
                nw <= usize::MAX,
                edit_budget_percent <= u32::MAX,
        ;
    }
    let budget: u128 = ((nw as u128) * (edit_budget_percent as u128) + 99) / 100;
    let d4 = u128_to_dec(budget);
    out.append(d4.as_str());
    out.append(" tokens (");
    let d5 = u64_to_dec(edit_budget_percent as u64);
    out.append(d5.as_str());
    out.append("% of ");
    let d6 = u64_to_dec(nw as u64);
    out.append(d6.as_str());
    out.append(")\n\n");
    let ghost after_header = out@;

    // Speaker hints.
    let stats = compute_speaker_stats(transcript, window);
    let ghost hs = hinted_speakers(transcript.tokens@, *window, transcript.speakers@);
    proof {
        lemma_sel_idxs(
            |a: int|
                0 <= a < transcript.speakers@.len() && sp_words(
                    transcript.tokens@,
                    window.token_indices@,
                    transcript.speakers@[a],
                    window.token_indices@.len() as int,
                ).len() > 0,
            transcript.speakers@.len() as int,
        );
    }
    let nh = stats.len();
    if nh > 0 {
        out.append("## Speaker Hints\n");
        let ghost hint_base = out@;
        let mut e: usize = 0;
        while e < nh
            invariant
                0 <= e <= nh,
                nh == hs.len(),
                transcript.wf(),
                hs == hinted_speakers(transcript.tokens@, *window, transcript.speakers@),
                forall|q: int| 0 <= q < hs.len() ==> 0 <= #[trigger] hs[q] < transcript.speakers@.len(),
                nh == stats@.len(),
                forall|q: int|
                    0 <= q < stats@.len() ==> stats_entry_matches(
                        #[trigger] stats@[q],
                        transcript.speakers@[hs[q]],
                        stats_model(
                            transcript.tokens@,
                            transcript.turns@,
                            *window,
                            transcript.speakers@[hs[q]],
                        ),
                    ),
                out@ == hint_base + hints_sec(
                    transcript.tokens@,
                    transcript.turns@,
                    *window,
                    transcript.speakers@,
                    hs,
                    e as int,
                ),
            decreases nh - e,
        {
            let (spk, st) = &stats[e];
            let ghost m = stats_model(
                transcript.tokens@,
                transcript.turns@,
                *window,
                transcript.speakers@[hs[e as int]],
            );
            proof {
                assert(stats_entry_matches(
                    stats@[e as int],
                    transcript.speakers@[hs[e as int]],
                    m,
                ));
            }
            let line = hint_line(*spk, st, Ghost(m));
            out.append(line.as_str());
            proof {
                assert(*spk == transcript.speakers@[hs[e as int]]);
                assert(out@ =~= hint_base + hints_sec(
                    transcript.tokens@,
                    transcript.turns@,
                    *window,
                    transcript.speakers@,
                    hs,
                    e + 1,
                ));
            }
            e = e + 1;
        }
        out.append("\n");
        proof {
            assert(out@ =~= after_header + ("## Speaker Hints\n"@ + hints_sec(
                transcript.tokens@,
                transcript.turns@,
                *window,
                transcript.speakers@,
                hs,
                hs.len() as int,
            ) + "\n"@));
        }
    }
    let ghost after_hints = out@;

    // Anchor prefix.
    if window.anchor_prefix_indices.len() > 0 {
        out.append("## Anchor Prefix (READ-ONLY)\n```json\n");
        let block = format_tokens(transcript, &window.anchor_prefix_indices, true);
        out.append(block.as_str());
        out.append("\n```\n\n");
    }
    let ghost after_prefix = out@;

    // Editable tokens.
    out.append("## Tokens (EDITABLE)\n```json\n");
    let block = format_tokens(transcript, &window.token_indices, false);
    out.append(block.as_str());
    out.append("\n```\n\n");
    let ghost after_tokens = out@;

    // Anchor suffix.
    if window.anchor_suffix_indices.len() > 0 {
        out.append("## Anchor Suffix (READ-ONLY)\n```json\n");
        let block = format_tokens(transcript, &window.anchor_suffix_indices, true);
        out.append(block.as_str());
        out.append("\n```\n\n");
    }

    out.append(
        "## Instructions\nAnalyze the tokens and submit a patch using the submit_patch tool.\nOnly relabel tokens where you are confident there is an error.\nFocus on:\n- Short turns that may be speaker jitter\n- Backchannels attributed to the wrong speaker\n- Overlap boundaries where speaker attribution may be incorrect\n",
    );
    proof {
        assert(out@ =~= window_prompt_spec(
            transcript.tokens@,
            transcript.turns@,
            transcript.speakers@,
            *window,
            edit_budget_percent as int,
        ));
    }
    out
}

} // verus!
