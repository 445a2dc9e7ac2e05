use vstd::prelude::*;

use crate::models::{Token, TokenizedTranscript, Turn};
use crate::render::is_ws_char;
use crate::select::{lemma_sel_idxs, sel_idxs};
use crate::stage1::Usage;

verus! {

/// A participant that may be identified in the transcript.
pub struct Participant {
    /// The participant's name.
    pub name: String,
    /// Optional hints about the participant.
    pub hints: Option<String>,
}

impl Participant {
    /// A participant with no hints.
    pub fn new(name: String) -> (r: Self)
        ensures
            r.name == name,
            r.hints is None,
    {
        Participant { name, hints: None }
    }

    /// A participant with hints.
    pub fn with_hints(name: String, hints: String) -> (r: Self)
        ensures
            r.name == name,
            r.hints == Some(hints),
    {
        Participant { name, hints: Some(hints) }
    }
}

/// Identification result for a single speaker.
pub struct SpeakerIdentification {
    /// The numeric speaker label from the transcript.
    pub speaker_id: u32,
    /// The identified participant name, if any.
    pub identified_as: Option<String>,
    /// Confidence in thousandths (0..=1000).
    pub confidence: u32,
    /// Evidence supporting the identification.
    pub evidence: Vec<String>,
}

/// Result of the speaker identification stage.
pub struct SpeakerIdResult {
    /// One identification per speaker examined.
    pub identifications: Vec<SpeakerIdentification>,
    /// High-confidence `(speaker, name)` mappings, in identification order.
    pub display_names: Vec<(u32, String)>,
    /// Token usage of the identification call.
    pub usage: Usage,
}

impl SpeakerIdResult {
    /// Keep every identification, and record a display name for each one
    /// whose confidence reaches the threshold and that names a participant.
    pub fn from_identifications(
        identifications: Vec<SpeakerIdentification>,
        confidence_threshold: u32,
        usage: Usage,
    ) -> (r: Self)
        ensures
            r.identifications == identifications,
            r.usage == usage,
            ({
                let sel = sel_idxs(
                    |q: int|
                        0 <= q < identifications@.len() && (#[trigger] identifications@[q]).confidence
                            >= confidence_threshold && identifications@[q].identified_as is Some,
                    identifications@.len() as int,
                );
                &&& r.display_names@.len() == sel.len()
                &&& forall|j: int|
                    0 <= j < sel.len() ==> (#[trigger] r.display_names@[j]).0
                        == identifications@[sel[j]].speaker_id && r.display_names@[j].1
                        == identifications@[sel[j]].identified_as->0
            }),
    {
        let ghost p = |q: int|
            0 <= q < identifications@.len() && (#[trigger] identifications@[q]).confidence
                >= confidence_threshold && identifications@[q].identified_as is Some;
        let n = identifications.len();
        let mut display_names: Vec<(u32, String)> = Vec::new();
        let mut q: usize = 0;
        while q < n
            invariant
                0 <= q <= n,
                n == identifications@.len(),
                p == (|q: int|
                    0 <= q < identifications@.len() && (#[trigger] identifications@[q]).confidence
                        >= confidence_threshold && identifications@[q].identified_as is Some),
                display_names@.len() == sel_idxs(p, q as int).len(),
                forall|j: int|
                    0 <= j < display_names@.len() ==> (#[trigger] display_names@[j]).0
                        == identifications@[sel_idxs(p, q as int)[j]].speaker_id
                        && display_names@[j].1 == identifications@[sel_idxs(
                        p,
                        q as int,
                    )[j]].identified_as->0,
            decreases n - q,
        {
            let id = &identifications[q];
            let qualifies = id.confidence >= confidence_threshold && match &id.identified_as {
                Some(_) => true,
                None => false,
            };
            if qualifies {
                let name = match &id.identified_as {
                    Some(nm) => nm.clone(),
                    None => String::new(),
                };
                display_names.push((id.speaker_id, name));
                proof {
                    assert(sel_idxs(p, q + 1) == sel_idxs(p, q as int).push(q as int));
                }
            } else {
                proof {
                    assert(sel_idxs(p, q + 1) == sel_idxs(p, q as int));
                }
            }
            q = q + 1;
        }
        SpeakerIdResult { identifications, display_names, usage }
    }
}

/// Configuration for the speaker identification stage.
pub struct SpeakerIdConfig {
    /// Confidence (in thousandths) a mapping needs to reach the output.
    pub confidence_threshold: u32,
    /// Largest number of transcript excerpts per speaker.
    pub max_excerpts_per_speaker: usize,
    /// Largest total number of excerpt characters sent for identification.
    pub max_context_chars: usize,
}

impl Default for SpeakerIdConfig {
    /// 0.7 threshold, 5 excerpts per speaker, 8000 characters of context.
    fn default() -> (r: Self)
        ensures
            r.confidence_threshold == 700,
            r.max_excerpts_per_speaker == 5,
            r.max_context_chars == 8000,
    {
        SpeakerIdConfig {
            confidence_threshold: 700,
            max_excerpts_per_speaker: 5,
            max_context_chars: 8000,
        }
    }
}

/// The text of a token in an excerpt: the punctuated form when present.
pub open spec fn word_of(t: Token) -> Seq<char> {
    match t.punctuated_word {
        Some(p) => p@,
        None => t.word@,
    }
}

/// The tokens of a turn joined by single spaces, punctuated forms preferred.
pub open spec fn excerpt_of(tokens: Seq<Token>, idxs: Seq<usize>) -> Seq<char>
    decreases idxs.len(),
{
    if idxs.len() == 0 {
        Seq::empty()
    } else if idxs.len() == 1 {
        word_of(tokens[idxs[0] as int])
    } else {
        excerpt_of(tokens, idxs.drop_last()) + seq![' '] + word_of(
            tokens[idxs[idxs.len() - 1] as int],
        )
    }
}

/// The positions of the turns spoken by `spk`.
pub open spec fn speaker_turn_ids(turns: Seq<Turn>, spk: u32) -> Seq<int> {
    sel_idxs(|k: int| 0 <= k < turns.len() && turns[k].speaker == spk, turns.len() as int)
}

/// The best unselected candidate among the first `j`: most tokens, earliest
/// position on ties; -1 when none remains.
pub open spec fn best_unsel(counts: Seq<int>, sel: Seq<bool>, j: int) -> int
    decreases j,
{
    if j <= 0 {
        -1
    } else {
        let b = best_unsel(counts, sel, j - 1);
        if !sel[j - 1] && (b == -1 || counts[j - 1] > counts[b]) {
            j - 1
        } else {
            b
        }
    }
}

/// Greedily add the `k` largest unselected candidates to the selection.
pub open spec fn topk_from(counts: Seq<int>, sel: Seq<bool>, k: int) -> Seq<bool>
    decreases k,
{
    if k <= 0 {
        sel
    } else {
        let b = best_unsel(counts, sel, counts.len() as int);
        if b == -1 {
            sel
        } else {
            topk_from(counts, sel.update(b, true), k - 1)
        }
    }
}

/// Which of a speaker's turns are candidates for excerpts: the first two
/// (likely self-introductions) plus the longest remaining ones, up to the
/// excerpt limit.
pub open spec fn chosen_flags(counts: Seq<int>, max_excerpts: int) -> Seq<bool> {
    let base = Seq::new(counts.len(), |j: int| j < 2);
    topk_from(counts, base, if max_excerpts - 2 >= 0 {
        max_excerpts - 2
    } else {
        0
    })
}

/// Walk the chosen turns in order, keeping each excerpt while the per-speaker
/// count and the total character budget allow; returns the excerpts and the
/// new running total.
pub open spec fn take_excerpts(
    tokens: Seq<Token>,
    turns: Seq<Turn>,
    chosen: Seq<int>,
    j: int,
    taken: int,
    total: int,
    max_excerpts: int,
    max_chars: int,
) -> (Seq<Seq<char>>, int)
    decreases chosen.len() - j,
{
    if j < 0 || j >= chosen.len() || taken >= max_excerpts {
        (Seq::empty(), total)
    } else {
        let e = excerpt_of(tokens, turns[chosen[j]].token_indices@);
        if total + e.len() > max_chars {
            (Seq::empty(), total)
        } else {
            let (rest, t2) = take_excerpts(
                tokens,
                turns,
                chosen,
                j + 1,
                taken + 1,
                total + e.len(),
                max_excerpts,
                max_chars,
            );
            (seq![e] + rest, t2)
        }
    }
}

/// The chosen turn positions for one speaker, in chronological order.
pub open spec fn chosen_of(turns: Seq<Turn>, spk: u32, max_excerpts: int) -> Seq<int> {
    let mine = speaker_turn_ids(turns, spk);
    let counts = Seq::new(mine.len(), |j: int| turns[mine[j]].token_indices@.len() as int);
    let flags = chosen_flags(counts, max_excerpts);
    sel_idxs(|j: int| 0 <= j < mine.len() && flags[j], mine.len() as int).map_values(
        |j: int| mine[j],
    )
}

/// The excerpt lists for the speakers, walked in speaker order with one
/// shared character budget; returns the entries and the final total.
pub open spec fn speaker_context(
    tokens: Seq<Token>,
    turns: Seq<Turn>,
    speakers: Seq<u32>,
    a: int,
    total: int,
    max_excerpts: int,
    max_chars: int,
) -> (Seq<(u32, Seq<Seq<char>>)>, int)
    decreases a,
{
    if a <= 0 {
        (Seq::empty(), total)
    } else {
        let (prev, t1) = speaker_context(
            tokens,
            turns,
            speakers,
            a - 1,
            total,
            max_excerpts,
            max_chars,
        );
        let spk = speakers[a - 1];
        let (ex, t2) = take_excerpts(
            tokens,
            turns,
            chosen_of(turns, spk, max_excerpts),
            0,
            0,
            t1,
            max_excerpts,
            max_chars,
        );
        if ex.len() > 0 {
            (prev.push((spk, ex)), t2)
        } else {
            (prev, t2)
        }
    }
}


/// A produced entry list carries the same data as a spec-level one.
pub open spec fn entries_match(v: Seq<(u32, Vec<String>)>, s: Seq<(u32, Seq<Seq<char>>)>) -> bool {
    &&& v.len() == s.len()
    &&& forall|e: int|
        0 <= e < v.len() ==> (#[trigger] v[e]).0 == s[e].0 && v[e].1@.len() == s[e].1.len()
            && forall|x: int| 0 <= x < v[e].1@.len() ==> (#[trigger] v[e].1@[x])@ == s[e].1[x]
}

/// Build the per-speaker excerpts sent for identification: for each speaker
/// its first two turns plus its longest remaining turns, restored to
/// chronological order, joined from the punctuated words, all under one
/// shared character budget.
pub fn build_speaker_context(t: &TokenizedTranscript, config: &SpeakerIdConfig) -> (r: Vec<
    (u32, Vec<String>),
>)
    requires
        t.wf(),
    ensures
        entries_match(
            r@,
            speaker_context(
                t.tokens@,
                t.turns@,
                t.speakers@,
                t.speakers@.len() as int,
                0,
                config.max_excerpts_per_speaker as int,
                config.max_context_chars as int,
            ).0,
        ),
{
    let ghost maxex = config.max_excerpts_per_speaker as int;
    let ghost maxch = config.max_context_chars as int;
    let ns = t.speakers.len();
    let nturns = t.turns.len();
    let mut result: Vec<(u32, Vec<String>)> = Vec::new();
    let mut total: usize = 0;
    let mut a: usize = 0;
    while a < ns
        invariant
            0 <= a <= ns,
            ns == t.speakers@.len(),
            nturns == t.turns@.len(),
            t.wf(),
            maxex == config.max_excerpts_per_speaker as int,
            maxch == config.max_context_chars as int,
            total <= config.max_context_chars,
            ({
                let (entries, tt) = speaker_context(
                    t.tokens@,
                    t.turns@,
                    t.speakers@,
                    a as int,
                    0,
                    maxex,
                    maxch,
                );
                entries_match(result@, entries) && total as int == tt
            }),
        decreases ns - a,
    {
        let spk = t.speakers[a];

        // The speaker's turns, in order.
        let ghost p_mine = |k: int| 0 <= k < t.turns@.len() && t.turns@[k].speaker == spk;
        let mut mine: Vec<usize> = Vec::new();
        let mut k: usize = 0;
        while k < nturns
            invariant
                0 <= k <= nturns,
                nturns == t.turns@.len(),
                p_mine == (|k: int| 0 <= k < t.turns@.len() && t.turns@[k].speaker == spk),
                crate::select::seq_matches(mine@, sel_idxs(p_mine, k as int)),
            decreases nturns - k,
        {
            if t.turns[k].speaker == spk {
                mine.push(k);
                proof {
                    assert(sel_idxs(p_mine, k + 1) == sel_idxs(p_mine, k as int).push(k as int));
                }
            } else {
                proof {
                    assert(sel_idxs(p_mine, k + 1) == sel_idxs(p_mine, k as int));
                }
            }
            k = k + 1;
        }
        let ghost mine_spec = speaker_turn_ids(t.turns@, spk);
        proof {
            lemma_sel_idxs(p_mine, t.turns@.len() as int);
        }
        let nm = mine.len();

        // Token counts per turn of this speaker.
        let ghost counts_spec = Seq::new(
            mine_spec.len(),
            |j: int| t.turns@[mine_spec[j]].token_indices@.len() as int,
        );
        let mut counts: Vec<usize> = Vec::new();
        let mut j: usize = 0;
        while j < nm
            invariant
                0 <= j <= nm,
                nm == mine@.len(),
                nm == mine_spec.len(),
                crate::select::seq_matches(mine@, mine_spec),
                forall|q: int| 0 <= q < nm ==> 0 <= #[trigger] mine_spec[q] < t.turns@.len(),
                counts_spec == Seq::new(
                    mine_spec.len(),
                    |j: int| t.turns@[mine_spec[j]].token_indices@.len() as int,
                ),
                counts@.len() == j,
                forall|q: int| 0 <= q < j ==> #[trigger] counts@[q] as int == counts_spec[q],
            decreases nm - j,
        {
            let idx = mine[j];
            counts.push(t.turns[idx].token_indices.len());
            j = j + 1;
        }

        // Selection flags: first two turns, then the largest remaining.
        let mut flags: Vec<bool> = Vec::new();
        let mut j2: usize = 0;
        while j2 < nm
            invariant
                0 <= j2 <= nm,
                flags@.len() == j2,
                forall|q: int| 0 <= q < j2 ==> #[trigger] flags@[q] == (q < 2),
            decreases nm - j2,
        {
            flags.push(j2 < 2);
            j2 = j2 + 1;
        }
        proof {
            assert(flags@ =~= Seq::new(counts_spec.len(), |j: int| j < 2));
        }
        let picks = if config.max_excerpts_per_speaker >= 2 {
            config.max_excerpts_per_speaker - 2
        } else {
            0
        };
        let ghost kspec = if maxex - 2 >= 0 {
            maxex - 2
        } else {
            0
        };
        let mut it: usize = 0;
        let mut exhausted = false;
        while it < picks && !exhausted
            invariant
                0 <= it <= picks,
                picks as int == kspec,
                nm == counts@.len(),
                nm == counts_spec.len(),
                flags@.len() == nm,
                forall|q: int| 0 <= q < nm ==> #[trigger] counts@[q] as int == counts_spec[q],
                topk_from(counts_spec, flags@, kspec - it) == chosen_flags(counts_spec, maxex),
                exhausted ==> topk_from(counts_spec, flags@, kspec - it) == flags@,
            decreases picks - it,
        {
            // Scan for the best unselected turn; `nm` stands for none found.
            let mut b: usize = nm;
            let mut q: usize = 0;
            while q < nm
                invariant
                    0 <= q <= nm,
                    nm == counts@.len(),
                    nm == counts_spec.len(),
                    flags@.len() == nm,
                    forall|w: int| 0 <= w < nm ==> #[trigger] counts@[w] as int == counts_spec[w],
                    b == nm ==> best_unsel(counts_spec, flags@, q as int) == -1,
                    b < nm ==> b as int == best_unsel(counts_spec, flags@, q as int),
                    b <= nm,
                decreases nm - q,
            {
                let better = if !flags[q] {
                    if b == nm {
                        true
                    } else {
                        counts[q] > counts[b]
                    }
                } else {
                    false
                };
                if better {
                    b = q;
                }
                q = q + 1;
            }
            if b == nm {
                exhausted = true;
                proof {
                    assert(best_unsel(counts_spec, flags@, counts_spec.len() as int) == -1);
                    assert(topk_from(counts_spec, flags@, kspec - it) == flags@);
                }
            } else {
                let ghost preflags = flags@;
                flags[b] = true;
                proof {
                    assert(best_unsel(counts_spec, preflags, counts_spec.len() as int)
                        == b as int);
                    assert(flags@ == preflags.update(b as int, true));
                    assert(topk_from(counts_spec, preflags, kspec - it) == topk_from(
                        counts_spec,
                        flags@,
                        kspec - it - 1,
                    ));
                }
            }
            it = it + 1;
        }
        proof {
            if it == picks && !exhausted {
                assert(topk_from(counts_spec, flags@, 0) == flags@);
            }
            assert(flags@ == chosen_flags(counts_spec, maxex));
        }

        // The chosen turns, chronological.
        let ghost p_flag = |j: int| 0 <= j < mine_spec.len() && chosen_flags(counts_spec, maxex)[j];
        let mut chosen: Vec<usize> = Vec::new();
        let mut j3: usize = 0;
        while j3 < nm
            invariant
                0 <= j3 <= nm,
                nm == mine@.len(),
                nm == mine_spec.len(),
                nm == flags@.len(),
                crate::select::seq_matches(mine@, mine_spec),
                flags@ == chosen_flags(counts_spec, maxex),
                p_flag == (|j: int|
                    0 <= j < mine_spec.len() && chosen_flags(counts_spec, maxex)[j]),
                chosen@.len() == sel_idxs(p_flag, j3 as int).len(),
                forall|w: int|
                    0 <= w < chosen@.len() ==> #[trigger] chosen@[w] as int == mine_spec[sel_idxs(
                        p_flag,
                        j3 as int,
                    )[w]],
            decreases nm - j3,
        {
            if flags[j3] {
                chosen.push(mine[j3]);
                proof {
                    assert(sel_idxs(p_flag, j3 + 1) == sel_idxs(p_flag, j3 as int).push(
                        j3 as int,
                    ));
                }
            } else {
                proof {
                    assert(sel_idxs(p_flag, j3 + 1) == sel_idxs(p_flag, j3 as int));
                }
            }
            j3 = j3 + 1;
        }
        let ghost chosen_spec = chosen_of(t.turns@, spk, maxex);
        proof {
            lemma_sel_idxs(p_flag, mine_spec.len() as int);
            assert(chosen_spec == sel_idxs(p_flag, mine_spec.len() as int).map_values(
                |j: int| mine_spec[j],
            ));
            assert(chosen@.len() == chosen_spec.len());
            assert forall|w: int|
                0 <= w < chosen@.len() implies #[trigger] chosen@[w] as int == chosen_spec[w] by {}
            assert forall|w: int|
                0 <= w < chosen_spec.len() implies 0 <= #[trigger] chosen_spec[w]
                < t.turns@.len() by {
                assert(chosen@[w] as int == chosen_spec[w]);
                assert(p_mine(mine_spec[sel_idxs(p_flag, mine_spec.len() as int)[w]]));
            }
        }

        // Collect excerpts under the shared budget.
        let ghost total_in = total as int;
        let nc = chosen.len();
        let mut excerpts: Vec<String> = Vec::new();
        let mut taken: usize = 0;
        let mut jj: usize = 0;
        let mut stopped = false;
        while jj < nc && !stopped && taken < config.max_excerpts_per_speaker
            invariant
                0 <= jj <= nc,
                nc == chosen@.len(),
                nc == chosen_spec.len(),
                t.wf(),
                maxex == config.max_excerpts_per_speaker as int,
                maxch == config.max_context_chars as int,
                total <= config.max_context_chars,
                taken == excerpts@.len(),
                forall|w: int|
                    0 <= w < chosen@.len() ==> #[trigger] chosen@[w] as int == chosen_spec[w]
                        && chosen_spec[w] < t.turns@.len(),
                ({
                    let full = take_excerpts(
                        t.tokens@,
                        t.turns@,
                        chosen_spec,
                        0,
                        0,
                        total_in,
                        maxex,
                        maxch,
                    );
                    let rest = if stopped {
                        (Seq::<Seq<char>>::empty(), total as int)
                    } else {
                        take_excerpts(
                            t.tokens@,
                            t.turns@,
                            chosen_spec,
                            jj as int,
                            taken as int,
                            total as int,
                            maxex,
                            maxch,
                        )
                    };
                    &&& full.0 == excerpts@.map_values(|s: String| s@) + rest.0
                    &&& full.1 == rest.1
                }),
            decreases nc - jj,
    {
            let tk = chosen[jj];
            let idxs = &t.turns[tk].token_indices;
            let ni = idxs.len();
            proof {
                assert(crate::models::turn_wf_at(t.tokens@, t.turns@, chosen_spec[jj as int]));
                assert(crate::models::turn_indices_contiguous(t.turns@[chosen_spec[jj as int]]));
            }
            let mut text = String::new();
            let mut m: usize = 0;
            while m < ni
                invariant
                    0 <= m <= ni,
                    ni == idxs@.len(),
                    t.wf(),
                    jj < chosen@.len(),
                    chosen@[jj as int] as int == chosen_spec[jj as int],
                    chosen_spec[jj as int] < t.turns@.len(),
                    crate::models::turn_wf_at(t.tokens@, t.turns@, chosen_spec[jj as int]),
                    idxs == &t.turns@[chosen_spec[jj as int]].token_indices,
                    text@ == excerpt_of(t.tokens@, idxs@.take(m as int)),
                decreases ni - m,
            {
                proof {
                    assert(idxs@.take(m + 1).drop_last() =~= idxs@.take(m as int));
                    assert(idxs@.take(m + 1)[m as int] == idxs@[m as int]);
                    assert(t.tokens@[idxs@[m as int] as int].time_wf());
                    reveal_strlit(" ");
                }
                let idx = idxs[m];
                if m > 0 {
                    text.append(" ");
                }
                let tok = &t.tokens[idx];
                match &tok.punctuated_word {
                    Some(p) => text.append(p.as_str()),
                    None => text.append(tok.word.as_str()),
                }
                proof {
                    if m == 0 {
                        assert(text@ =~= excerpt_of(t.tokens@, idxs@.take(1)));
                    }
                }
                m = m + 1;
            }
            proof {
                assert(idxs@.take(ni as int) =~= idxs@);
            }
            let elen = text.as_str().unicode_len();
            let ghost e = excerpt_of(t.tokens@, t.turns@[chosen_spec[jj as int]].token_indices@);
            let ghost pretaken = taken as int;
            let ghost pretotal = total as int;
            proof {
                assert(text@ == e);
                assert(take_excerpts(
                    t.tokens@,
                    t.turns@,
                    chosen_spec,
                    jj as int,
                    pretaken,
                    pretotal,
                    maxex,
                    maxch,
                ) == if pretotal + e.len() > maxch {
                    (Seq::<Seq<char>>::empty(), pretotal)
                } else {
                    (
                        seq![e] + take_excerpts(
                            t.tokens@,
                            t.turns@,
                            chosen_spec,
                            jj + 1,
                            pretaken + 1,
                            pretotal + e.len(),
                            maxex,
                            maxch,
                        ).0,
                        take_excerpts(
                            t.tokens@,
                            t.turns@,
                            chosen_spec,
                            jj + 1,
                            pretaken + 1,
                            pretotal + e.len(),
                            maxex,
                            maxch,
                        ).1,
                    )
                });
            }
            if (total as u128) + (elen as u128) > (config.max_context_chars as u128) {
                stopped = true;
            } else {
                let ghost preexc = excerpts@;
                excerpts.push(text);
                taken = taken + 1;
                total = total + elen;
                proof {
                    let full = take_excerpts(
                        t.tokens@,
                        t.turns@,
                        chosen_spec,
                        0,
                        0,
                        total_in,
                        maxex,
                        maxch,
                    );
                    let oldrest = take_excerpts(
                        t.tokens@,
                        t.turns@,
                        chosen_spec,
                        jj as int,
                        pretaken,
                        pretotal,
                        maxex,
                        maxch,
                    );
                    let newrest = take_excerpts(
                        t.tokens@,
                        t.turns@,
                        chosen_spec,
                        jj + 1,
                        taken as int,
                        total as int,
                        maxex,
                        maxch,
                    );
                    assert(oldrest.0 == seq![e] + newrest.0);
                    assert(excerpts@ == preexc.push(text));
                    assert(excerpts@.map_values(|s: String| s@) =~= preexc.map_values(
                        |s: String| s@,
                    ).push(text@));
                    assert(full.0 =~= excerpts@.map_values(|s: String| s@) + newrest.0);
                }
            }
            jj = jj + 1;
        }
        proof {
            if !stopped && !(taken < config.max_excerpts_per_speaker) {
                assert(take_excerpts(
                    t.tokens@,
                    t.turns@,
                    chosen_spec,
                    jj as int,
                    taken as int,
                    total as int,
                    maxex,
                    maxch,
                ).0 =~= Seq::<Seq<char>>::empty());
            }
            if !stopped && jj == nc {
                assert(take_excerpts(
                    t.tokens@,
                    t.turns@,
                    chosen_spec,
                    jj as int,
                    taken as int,
                    total as int,
                    maxex,
                    maxch,
                ).0 =~= Seq::<Seq<char>>::empty());
            }
        }

        proof {
            let full = take_excerpts(
                t.tokens@,
                t.turns@,
                chosen_spec,
                0,
                0,
                total_in,
                maxex,
                maxch,
            );
            assert(full.0 == excerpts@.map_values(|s: String| s@));
            assert(full.0.len() == excerpts@.len());
            assert forall|x: int|
                0 <= x < excerpts@.len() implies (#[trigger] excerpts@[x])@ == full.0[x] by {
                assert(full.0[x] == excerpts@.map_values(|s: String| s@)[x]);
            }
        }
        let ghost preresult = result@;
        if excerpts.len() > 0 {
            result.push((spk, excerpts));
        }
        proof {
            let (entries_a, _) = speaker_context(
                t.tokens@,
                t.turns@,
                t.speakers@,
                a as int,
                0,
                maxex,
                maxch,
            );
            let (entries_a1, t_a1) = speaker_context(
                t.tokens@,
                t.turns@,
                t.speakers@,
                a + 1,
                0,
                maxex,
                maxch,
            );
            assert(entries_match(result@, entries_a1));
        }
        a = a + 1;
    }
    result
}


/// The maximal runs of non-comma characters in `s[..upto]`, as inclusive
/// index pairs, in order.
pub open spec fn comma_runs(s: Seq<char>, upto: int) -> Seq<(int, int)>
    decreases upto,
{
    if upto <= 0 {
        Seq::empty()
    } else {
        let rest = comma_runs(s, upto - 1);
        if s[upto - 1] != ',' {
            if upto - 1 > 0 && s[upto - 2] != ',' {
                rest.update(rest.len() - 1, (rest[rest.len() - 1].0, upto - 1))
            } else {
                rest.push((upto - 1, upto - 1))
            }
        } else {
            rest
        }
    }
}

/// First index in `[a, b]` with a non-whitespace character; `b + 1` when all
/// are whitespace.
pub open spec fn skip_ws_fwd(s: Seq<char>, a: int, b: int) -> int
    decreases b - a + 1,
{
    if a > b || !is_ws_char(s[a]) {
        a
    } else {
        skip_ws_fwd(s, a + 1, b)
    }
}

/// Last index in `[a, b]` with a non-whitespace character; `a - 1` when all
/// are whitespace.
pub open spec fn skip_ws_back(s: Seq<char>, a: int, b: int) -> int
    decreases b - a + 1,
{
    if b < a || !is_ws_char(s[b]) {
        b
    } else {
        skip_ws_back(s, a, b - 1)
    }
}

/// The trimmed, non-empty comma-separated pieces of `s`, as inclusive index
/// pairs.
pub open spec fn kept_pieces(s: Seq<char>, runs: Seq<(int, int)>, j: int) -> Seq<(int, int)>
    decreases j,
{
    if j <= 0 {
        Seq::empty()
    } else {
        let rest = kept_pieces(s, runs, j - 1);
        let (a, b) = runs[j - 1];
        let lo = skip_ws_fwd(s, a, b);
        let hi = skip_ws_back(s, a, b);
        if lo <= hi {
            rest.push((lo, hi))
        } else {
            rest
        }
    }
}

/// Whether a character is whitespace for trimming purposes.
fn char_is_ws(c: char) -> (r: bool)
    ensures
        r == is_ws_char(c),
{
    c == ' ' || c == '\t' || c == '\n' || c == '\r'
}

/// Parse a comma-separated list of participant names: split on commas, trim
/// surrounding whitespace, and drop empty entries.  No hints are attached.
pub fn parse_participants_string(input: &str) -> (r: Vec<Participant>)
    ensures
        ({
            let runs = comma_runs(input@, input@.len() as int);
            let pieces = kept_pieces(input@, runs, runs.len() as int);
            &&& r@.len() == pieces.len()
            &&& forall|j: int|
                0 <= j < r@.len() ==> (#[trigger] r@[j]).name@ == input@.subrange(
                    pieces[j].0,
                    pieces[j].1 + 1,
                ) && r@[j].hints is None
        }),
{
    let n = input.unicode_len();
    // Find the non-comma runs.
    let mut runs: Vec<(usize, usize)> = Vec::new();
    let mut i: usize = 0;
    while i < n
        invariant
            0 <= i <= n,
            n == input@.len(),
            ({
                let spec_runs = comma_runs(input@, i as int);
                &&& runs@.len() == spec_runs.len()
                &&& forall|q: int|
                    0 <= q < runs@.len() ==> (#[trigger] runs@[q]).0 as int == spec_runs[q].0
                        && runs@[q].1 as int == spec_runs[q].1
                &&& (i > 0 && runs@.len() > 0 && input@[i - 1] != ',' ==> runs@[runs@.len()
                    - 1].1 == i - 1)
                &&& (i > 0 && input@[i - 1] != ',' ==> runs@.len() > 0)
            }),
        decreases n - i,
    {
        let c = input.get_char(i);
        if c != ',' {
            let start_new = if i == 0 {
                true
            } else {
                input.get_char(i - 1) == ','
            };
            if start_new {
                runs.push((i, i));
            } else {
                let last = runs.len() - 1;
                let (a, _) = runs[last];
                runs[last] = (a, i);
            }
        }
        i = i + 1;
    }
    proof {
        lemma_comma_runs_bounds(input@, n as int);
    }

    // Trim each run and keep the non-empty pieces.
    let ghost spec_runs = comma_runs(input@, n as int);
    let nr = runs.len();
    let mut r: Vec<Participant> = Vec::new();
    let mut j: usize = 0;
    while j < nr
        invariant
            0 <= j <= nr,
            n == input@.len(),
            nr == runs@.len(),
            spec_runs == comma_runs(input@, n as int),
            spec_runs.len() == nr,
            forall|q: int|
                0 <= q < runs@.len() ==> (#[trigger] runs@[q]).0 as int == spec_runs[q].0
                    && runs@[q].1 as int == spec_runs[q].1,
            forall|q: int|
                0 <= q < spec_runs.len() ==> 0 <= (#[trigger] spec_runs[q]).0 <= spec_runs[q].1
                    < n,
            ({
                let pieces = kept_pieces(input@, spec_runs, j as int);
                &&& r@.len() == pieces.len()
                &&& forall|q: int|
                    0 <= q < r@.len() ==> (#[trigger] r@[q]).name@ == input@.subrange(
                        pieces[q].0,
                        pieces[q].1 + 1,
                    ) && r@[q].hints is None
            }),
        decreases nr - j,
    {
        let (a, b) = runs[j];
        let ghost slo = skip_ws_fwd(input@, a as int, b as int);
        let ghost shi = skip_ws_back(input@, a as int, b as int);
        // Trim leading whitespace.
        let mut lo: usize = a;
        while lo <= b && char_is_ws(input.get_char(lo))
            invariant
                a <= lo <= b + 1,
                b < n,
                n == input@.len(),
                slo == skip_ws_fwd(input@, a as int, b as int),
                skip_ws_fwd(input@, a as int, b as int) == skip_ws_fwd(
                    input@,
                    lo as int,
                    b as int,
                ),
            decreases b + 1 - lo,
        {
            lo = lo + 1;
        }
        if lo > b {
            // The piece is all whitespace: drop it.
            proof {
                assert(slo == b + 1);
                lemma_skip_ws_back_props(input@, a as int, b as int);
                assert(shi <= b);
                assert(kept_pieces(input@, spec_runs, j + 1) == kept_pieces(
                    input@,
                    spec_runs,
                    j as int,
                ));
            }
        } else {
            proof {
                assert(slo == lo as int);
                assert(!is_ws_char(input@[lo as int]));
            }
            // Trim trailing whitespace.
            let mut hi: usize = b;
            while char_is_ws(input.get_char(hi))
                invariant
                    lo <= hi <= b,
                    lo <= b,
                    b < n,
                    n == input@.len(),
                    !is_ws_char(input@[lo as int]),
                    shi == skip_ws_back(input@, a as int, b as int),
                    a <= lo,
                    skip_ws_back(input@, a as int, b as int) == skip_ws_back(
                        input@,
                        a as int,
                        hi as int,
                    ),
                decreases hi,
            {
                proof {
                    assert(hi != lo);
                }
                hi = hi - 1;
            }
            proof {
                assert(shi == hi as int);
                assert(slo <= shi);
            }
            let name = String::from_str(input.substring_char(lo, hi + 1));
            r.push(Participant { name, hints: None });
            proof {
                assert(kept_pieces(input@, spec_runs, j + 1) == kept_pieces(
                    input@,
                    spec_runs,
                    j as int,
                ).push((slo, shi)));
            }
        }
        j = j + 1;
    }
    r
}

/// The bounds of the comma runs point into the text.
proof fn lemma_comma_runs_bounds(s: Seq<char>, upto: int)
    requires
        0 <= upto <= s.len(),
    ensures
        forall|q: int|
            0 <= q < comma_runs(s, upto).len() ==> 0 <= (#[trigger] comma_runs(s, upto)[q]).0
                <= comma_runs(s, upto)[q].1 < upto,
        upto > 0 && s[upto - 1] != ',' ==> comma_runs(s, upto).len() > 0 && comma_runs(
            s,
            upto,
        )[comma_runs(s, upto).len() - 1].1 == upto - 1,
    decreases upto,
{
    if upto > 0 {
        lemma_comma_runs_bounds(s, upto - 1);
        let prev = comma_runs(s, upto - 1);
        if s[upto - 1] != ',' {
            if upto - 1 > 0 && s[upto - 2] != ',' {
                assert(prev.len() > 0);
                assert(prev[prev.len() - 1].0 <= prev[prev.len() - 1].1);
            }
        }
    }
}

/// The forward whitespace skip lands in `[a, b + 1]`, on a non-whitespace
/// character unless everything was whitespace.
proof fn lemma_skip_ws_fwd_props(s: Seq<char>, a: int, b: int)
    requires
        0 <= a <= b + 1,
        b < s.len(),
    ensures
        a <= skip_ws_fwd(s, a, b) <= b + 1,
        skip_ws_fwd(s, a, b) <= b ==> !is_ws_char(s[skip_ws_fwd(s, a, b)]),
    decreases b - a + 1,
{
    if !(a > b || !is_ws_char(s[a])) {
        lemma_skip_ws_fwd_props(s, a + 1, b);
    }
}

/// The backward whitespace skip lands in `[a - 1, b]`, on a non-whitespace
/// character unless everything was whitespace.
proof fn lemma_skip_ws_back_props(s: Seq<char>, a: int, b: int)
    requires
        0 <= a <= b + 1,
        b < s.len(),
    ensures
        a - 1 <= skip_ws_back(s, a, b) <= b,
        skip_ws_back(s, a, b) >= a ==> !is_ws_char(s[skip_ws_back(s, a, b)]),
    decreases b - a + 1,
{
    if !(b < a || !is_ws_char(s[b])) {
        lemma_skip_ws_back_props(s, a, b - 1);
    }
}

} // verus!
