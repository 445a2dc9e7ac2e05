use vstd::prelude::*;

use crate::models::MAX_TIME_MS;

verus! {

/// Kinds of problem zones that mark a region for language-model review.
#[derive(Clone, Copy, PartialEq, Eq, Structural, Debug)]
pub enum ProblemType {
    /// High speaker switch rate inside a ten-second span.
    SpeakerJitter,
    /// A turn shorter than the configured minimum.
    ShortTurn,
    /// Tokens within the configured collar of an overlap region.
    OverlapAdjacent,
    /// A run of tokens with low speaker confidence.
    LowConfidence,
}

/// Configuration for window generation.
pub struct WindowConfig {
    /// Window size in milliseconds.
    pub window_size_ms: u64,
    /// Stride between window starts in milliseconds.
    pub stride_ms: u64,
    /// Anchor context size in milliseconds, before and after the window.
    pub anchor_size_ms: u64,
    /// Forward only windows intersecting problem zones to the editing stage.
    pub filter_problem_zones: bool,
}

impl WindowConfig {
    /// Strides and sizes positive and bounded, so window arithmetic stays in
    /// range and window generation terminates.
    pub open spec fn wf(self) -> bool {
        &&& 0 < self.stride_ms <= MAX_TIME_MS
        &&& 0 < self.window_size_ms <= MAX_TIME_MS
        &&& self.anchor_size_ms <= MAX_TIME_MS
    }
}

impl Default for WindowConfig {
    /// 45-second windows every 15 seconds with 5-second anchors, filtering on.
    fn default() -> (r: Self)
        ensures
            r.window_size_ms == 45000,
            r.stride_ms == 15000,
            r.anchor_size_ms == 5000,
            r.filter_problem_zones,
    {
        WindowConfig {
            window_size_ms: 45000,
            stride_ms: 15000,
            anchor_size_ms: 5000,
            filter_problem_zones: true,
        }
    }
}

/// A sliding editable time interval over the transcript, with read-only
/// anchor context on both sides.
pub struct Window {
    /// Position of this window in the generated window sequence.
    pub window_id: u64,
    /// Start timestamp in milliseconds (inclusive).
    pub start_ms: u64,
    /// End timestamp in milliseconds (exclusive).
    pub end_ms: u64,
    /// Indices of the editable tokens: those starting inside the window.
    pub token_indices: Vec<usize>,
    /// Indices of read-only context tokens just before the window.
    pub anchor_prefix_indices: Vec<usize>,
    /// Indices of read-only context tokens just after the window.
    pub anchor_suffix_indices: Vec<usize>,
    /// Whether this window intersects any problem zone.
    pub is_problem_zone: bool,
    /// Deduplicated kinds of the problem zones intersecting this window.
    pub problem_types: Vec<ProblemType>,
}

/// Proximity of a timestamp to the center of the interval `[start, end]`, in
/// thousandths: 1000 at the center, falling linearly to 0 at the edges.
pub open spec fn spec_proximity(start: int, end: int, ts: int) -> int {
    let c = (start + end) / 2;
    let h = (end - start) / 2;
    if h <= 0 {
        1000
    } else {
        let d = if ts >= c {
            ts - c
        } else {
            c - ts
        };
        if 1000 - d * 1000 / h >= 0 {
            1000 - d * 1000 / h
        } else {
            0
        }
    }
}

impl Window {
    /// Duration of this window in milliseconds.
    pub fn duration_ms(&self) -> (r: u64)
        requires
            self.start_ms <= self.end_ms,
        ensures
            r == self.end_ms - self.start_ms,
    {
        self.end_ms - self.start_ms
    }

    /// Number of editable tokens (anchors excluded).
    pub fn token_count(&self) -> (r: usize)
        ensures
            r == self.token_indices@.len(),
    {
        self.token_indices.len()
    }

    /// Whether a token index lies in the editable region (not an anchor).
    pub fn is_editable(&self, token_index: usize) -> (r: bool)
        ensures
            r == self.token_indices@.contains(token_index),
    {
        let n = self.token_indices.len();
        let mut i: usize = 0;
        while i < n
            invariant
                0 <= i <= n,
                n == self.token_indices@.len(),
                forall|q: int| 0 <= q < i ==> self.token_indices@[q] != token_index,
            decreases n - i,
        {
            if self.token_indices[i] == token_index {
                assert(self.token_indices@.contains(token_index)) by {
                    assert(self.token_indices@[i as int] == token_index);
                }
                return true;
            }
            i = i + 1;
        }
        false
    }

    /// Center timestamp of this window.
    pub fn center_ms(&self) -> (r: u64)
        requires
            self.start_ms <= self.end_ms,
            self.end_ms <= 2 * MAX_TIME_MS,
        ensures
            r == (self.start_ms + self.end_ms) as int / 2,
    {
        (self.start_ms + self.end_ms) / 2
    }

    /// Proximity of a timestamp to the window center, in thousandths: 1000 at
    /// the center, 0 at the window edges and beyond.
    pub fn proximity_to_center(&self, timestamp_ms: u64) -> (r: u32)
        requires
            self.start_ms <= self.end_ms,
            self.end_ms <= 2 * MAX_TIME_MS,
        ensures
            r == spec_proximity(self.start_ms as int, self.end_ms as int, timestamp_ms as int),
            r <= 1000,
    {
        let center = (self.start_ms + self.end_ms) / 2;
        let half = (self.end_ms - self.start_ms) / 2;
        if half == 0 {
            return 1000;
        }
        let dist: u64 = if timestamp_ms >= center {
            timestamp_ms - center
        } else {
            center - timestamp_ms
        };
        let scaled: u128 = (dist as u128) * 1000 / (half as u128);
        assert(scaled as int == (dist as int) * 1000 / (half as int));
        if scaled >= 1000 {
            0
        } else {
            1000 - (scaled as u32)
        }
    }
}

/// Configuration for problem-zone detection.
pub struct ProblemZoneConfig {
    /// Speaker switches tolerated per ten-second span before flagging jitter.
    pub max_switches_per_10s: u32,
    /// Turns shorter than this many milliseconds are flagged.
    pub min_turn_duration_ms: u64,
    /// Collar around overlap regions, in milliseconds.
    pub overlap_proximity_ms: u64,
    /// Speaker confidence (in thousandths) below which tokens are flagged.
    pub min_speaker_confidence: u32,
}

impl ProblemZoneConfig {
    /// The collar stays in range of the time bound.
    pub open spec fn wf(self) -> bool {
        self.overlap_proximity_ms <= MAX_TIME_MS
    }
}

impl Default for ProblemZoneConfig {
    /// At most 3 switches per ten seconds, 800 ms minimum turn, 2-second
    /// overlap collar, 0.6 confidence floor.
    fn default() -> (r: Self)
        ensures
            r.max_switches_per_10s == 3,
            r.min_turn_duration_ms == 800,
            r.overlap_proximity_ms == 2000,
            r.min_speaker_confidence == 600,
    {
        ProblemZoneConfig {
            max_switches_per_10s: 3,
            min_turn_duration_ms: 800,
            overlap_proximity_ms: 2000,
            min_speaker_confidence: 600,
        }
    }
}

/// A detected region where diarization is likely wrong.
pub struct ProblemZone {
    /// Start time of the zone in milliseconds.
    pub start_ms: u64,
    /// End time of the zone in milliseconds.
    pub end_ms: u64,
    /// What kind of problem the zone marks.
    pub problem_type: ProblemType,
    /// Indices of the affected tokens.
    pub token_indices: Vec<usize>,
}

/// The generated windows together with the subset marked for editing.
pub struct WindowSet {
    /// All generated windows, in order of their start times.
    pub windows: Vec<Window>,
    /// Indices into `windows` of the windows forwarded to the editing stage.
    pub problem_window_indices: Vec<usize>,
}

impl WindowSet {
    /// Every recorded problem-window index points into `windows`.
    pub open spec fn wf(self) -> bool {
        forall|k: int|
            0 <= k < self.problem_window_indices@.len() ==> #[trigger] self.problem_window_indices@[k]
                < self.windows@.len()
    }

    /// The windows that need language-model editing, in order.
    pub fn problem_windows(&self) -> (r: Vec<&Window>)
        requires
            self.wf(),
        ensures
            r@.len() == self.problem_window_indices@.len(),
            forall|k: int|
                0 <= k < r@.len() ==> #[trigger] r@[k] == &self.windows@[self.problem_window_indices@[k] as int],
    {
        let n = self.problem_window_indices.len();
        let mut r: Vec<&Window> = Vec::new();
        let mut k: usize = 0;
        while k < n
            invariant
                0 <= k <= n,
                n == self.problem_window_indices@.len(),
                self.wf(),
                r@.len() == k,
                forall|q: int|
                    0 <= q < k ==> #[trigger] r@[q] == &self.windows@[self.problem_window_indices@[q] as int],
            decreases n - k,
        {
            let idx = self.problem_window_indices[k];
            r.push(&self.windows[idx]);
            k = k + 1;
        }
        r
    }

    /// Total number of generated windows.
    pub fn total_windows(&self) -> (r: usize)
        ensures
            r == self.windows@.len(),
    {
        self.windows.len()
    }

    /// Number of windows marked for language-model editing.
    pub fn problem_window_count(&self) -> (r: usize)
        ensures
            r == self.problem_window_indices@.len(),
    {
        self.problem_window_indices.len()
    }
}

} // verus!
