//! Data model: clips, tracks, configuration, results, cancellation.
//!
//! Wall-clock instants and durations are integer microseconds; correlation
//! confidence and drift figures are integer thousandths (milli-units).
//! Timeline positions are sample counts at the fixed 8 kHz analysis rate.

use std::sync::atomic::AtomicBool;
use std::sync::atomic::Ordering;
use std::sync::Arc;
use vstd::prelude::*;
use vstd::string::StringExecFns;

verus! {

/// Analysis sample rate - low-resolution mono used for cross-correlation only.
pub const ANALYSIS_SR: u32 = 8000;

/// Microseconds per second.
pub const US_PER_SECOND: i64 = 1_000_000;

/// Microseconds per sample at the analysis rate (1_000_000 / 8000).
pub const US_PER_SAMPLE: i64 = 125;

/// Confidence threshold in milli-units - clips below 3.000 are poorly matched.
pub const CONFIDENCE_THRESHOLD_MILLI: u64 = 3_000;

/// Confidence assigned to reference clips placed from metadata (100.000).
pub const REFERENCE_CONFIDENCE_MILLI: u64 = 100_000;

/// Minimum overlap in microseconds to attempt drift measurement (60 s).
pub const MIN_DRIFT_OVERLAP_US: i64 = 60_000_000;

/// Minimum number of measurement windows for a reliable regression.
pub const MIN_DRIFT_WINDOWS: usize = 3;

/// Gap assumed between consecutive clips without usable metadata (0.5 s).
pub const DEFAULT_GAP_US: i64 = 500_000;

/// R-squared acceptance threshold for drift measurements, in milli-units.
pub const DRIFT_R2_ACCEPT_MILLI: u64 = 500;

/// Largest admissible clip duration in microseconds (about 4.4 years).
pub const MAX_DURATION_US: i64 = 0x8000_0000_0000;

/// Largest admissible wall-clock magnitude in microseconds since the epoch.
pub const MAX_TIME_US: i64 = 0x200_0000_0000_0000;

/// Largest admissible analysis-rate sample count for one clip.
pub const MAX_SAMPLE_LEN: usize = 0xF000_0000;

/// Largest admissible confidence value in milli-units.
pub const MAX_CONFIDENCE_MILLI: u64 = 0x100_0000_0000;

// ---------------------------------------------------------------------------
//  Cancellation
// ---------------------------------------------------------------------------

/// Cancellation token - shared atomic flag for cooperative cancellation.
pub type CancelToken = Arc<AtomicBool>;

/// Error returned when a cancellation request was observed.
#[derive(Debug, Clone)]
pub struct CancelledError(pub String);

/// Create a new cancellation token, initially clear.
pub fn new_cancel_token() -> CancelToken {
    Arc::new(AtomicBool::new(false))
}

/// Request cancellation through a token.
pub fn request_cancel(token: &CancelToken) {
    token.store(true, Ordering::Relaxed);
}

/// Check the token; report `CancelledError` if cancellation was requested.
///
/// The flag is shared with other threads, so nothing can be promised about
/// the result when a token is present; without a token the check always
/// passes.
pub fn check_cancelled(cancel: &Option<CancelToken>) -> (r: Result<(), CancelledError>)
    ensures
        cancel is None ==> r is Ok,
{
    match cancel {
        Some(token) => {
            if token.load(Ordering::Relaxed) {
                Err(CancelledError(String::from_str("Operation cancelled")))
            } else {
                Ok(())
            }
        },
        None => Ok(()),
    }
}

// ---------------------------------------------------------------------------
//  Clip
// ---------------------------------------------------------------------------

/// A single audio or video file imported into a track.
///
/// The analysis-rate sample data itself is owned by the caller; the model
/// carries its length, which is all the placement rules read.
#[derive(Debug, Clone)]
pub struct Clip {
    pub file_path: String,
    pub name: String,

    /// Number of 8 kHz mono analysis samples held for this clip.
    pub sample_len: usize,

    pub sample_rate: u32,
    pub original_sr: u32,
    pub original_channels: u32,

    /// Duration at the native rate, in microseconds.
    pub duration_us: i64,
    pub is_video: bool,

    /// Wall-clock creation instant, microseconds since the epoch.
    pub creation_time_us: Option<i64>,

    // Populated after analysis
    pub timeline_offset_samples: i128,
    pub confidence_milli: u64,
    pub analyzed: bool,

    // Clock drift
    pub drift_ppm_milli: i64,
    pub drift_r2_milli: u64,
    pub drift_corrected: bool,
}

impl Clip {
    /// Bounds on the stored quantities; every pipeline entry point assumes
    /// them and every mutation preserves them.
    pub open spec fn wf(self) -> bool {
        &&& 0 <= self.duration_us <= MAX_DURATION_US
        &&& self.sample_len <= MAX_SAMPLE_LEN
        &&& self.confidence_milli <= MAX_CONFIDENCE_MILLI
        &&& match self.creation_time_us {
            Some(t) => -MAX_TIME_US <= t <= MAX_TIME_US,
            None => true,
        }
    }

    pub fn new(file_path: String, name: String, original_sr: u32, original_channels: u32) -> (c:
        Clip)
        ensures
            c.file_path == file_path,
            c.name == name,
            c.sample_len == 0,
            c.sample_rate == ANALYSIS_SR,
            c.original_sr == original_sr,
            c.original_channels == original_channels,
            c.duration_us == 0,
            !c.is_video,
            c.creation_time_us is None,
            c.timeline_offset_samples == 0,
            c.confidence_milli == 0,
            !c.analyzed,
            c.drift_ppm_milli == 0,
            c.drift_r2_milli == 0,
            !c.drift_corrected,
            c.wf(),
    {
        Clip {
            file_path,
            name,
            sample_len: 0,
            sample_rate: ANALYSIS_SR,
            original_sr,
            original_channels,
            duration_us: 0,
            is_video: false,
            creation_time_us: None,
            timeline_offset_samples: 0,
            confidence_milli: 0,
            analyzed: false,
            drift_ppm_milli: 0,
            drift_r2_milli: 0,
            drift_corrected: false,
        }
    }

    pub fn length_samples(&self) -> (r: usize)
        ensures
            r == self.sample_len,
    {
        self.sample_len
    }

    /// Timeline position one past the clip's last sample.
    pub open spec fn spec_end_samples(self) -> int {
        self.timeline_offset_samples + self.sample_len
    }

    pub fn end_samples(&self) -> (r: i128)
        requires
            self.timeline_offset_samples + self.sample_len <= i128::MAX,
        ensures
            r == self.spec_end_samples(),
    {
        self.timeline_offset_samples + self.sample_len as i128
    }

    /// Timeline offset in microseconds; exact, since one analysis sample
    /// spans exactly 125 microseconds.
    pub fn timeline_offset_us(&self) -> (r: i128)
        requires
            -0x1000_0000_0000_0000_0000_0000_0000 <= self.timeline_offset_samples
                <= 0x1000_0000_0000_0000_0000_0000_0000,
        ensures
            r == self.timeline_offset_samples * US_PER_SAMPLE,
    {
        self.timeline_offset_samples * (US_PER_SAMPLE as i128)
    }

    /// The clip's creation time, or zero when none was recorded.
    pub open spec fn spec_time_or_zero(self) -> i64 {
        match self.creation_time_us {
            Some(t) => t,
            None => 0,
        }
    }
}

/// The offset-in-seconds of a clip is exactly its offset in samples divided
/// by the analysis rate: 8000 times the microsecond offset equals 1_000_000
/// times the sample offset, so the two representations never diverge.
pub proof fn lemma_offset_seconds_exact(c: Clip)
    ensures
        (c.timeline_offset_samples * US_PER_SAMPLE) * (ANALYSIS_SR as int)
            == c.timeline_offset_samples * US_PER_SECOND,
{
    assert((c.timeline_offset_samples * US_PER_SAMPLE) * (ANALYSIS_SR as int)
        == c.timeline_offset_samples * (US_PER_SAMPLE * (ANALYSIS_SR as int)))
        by (nonlinear_arith);
}

// ---------------------------------------------------------------------------
//  Clip ordering: creation time, then file name
// ---------------------------------------------------------------------------

/// `a` sorts no later than `b`: earlier creation time (missing times count
/// as zero), ties broken by name.
pub open spec fn clip_le(a: Clip, b: Clip) -> bool {
    let ta = a.spec_time_or_zero();
    let tb = b.spec_time_or_zero();
    ta < tb || (ta == tb && crate::text::lex_le(a.name@, b.name@))
}

pub proof fn lemma_clip_le_total(a: Clip, b: Clip)
    ensures
        clip_le(a, b) || clip_le(b, a),
{
    crate::text::lemma_lex_le_total(a.name@, b.name@);
}

pub proof fn lemma_clip_le_trans(a: Clip, b: Clip, c: Clip)
    requires
        clip_le(a, b),
        clip_le(b, c),
    ensures
        clip_le(a, c),
{
    if a.spec_time_or_zero() == b.spec_time_or_zero() && b.spec_time_or_zero()
        == c.spec_time_or_zero() {
        crate::text::lemma_lex_le_trans(a.name@, b.name@, c.name@);
    }
}

/// Executable comparison matching `clip_le`.
pub fn clip_le_exec(a: &Clip, b: &Clip) -> (r: bool)
    ensures
        r == clip_le(*a, *b),
{
    let ta: i64 = match &a.creation_time_us {
        Some(t) => *t,
        None => 0,
    };
    let tb: i64 = match &b.creation_time_us {
        Some(t) => *t,
        None => 0,
    };
    if ta < tb {
        true
    } else if ta > tb {
        false
    } else {
        crate::text::str_lex_le(a.name.as_str(), b.name.as_str())
    }
}

/// The sequence is in creation-time order (names break ties).
pub open spec fn clips_sorted(s: Seq<Clip>) -> bool {
    forall|i: int, j: int| 0 <= i < j < s.len() ==> #[trigger] clip_le(s[i], s[j])
}

// ---------------------------------------------------------------------------
//  Track
// ---------------------------------------------------------------------------

/// A device track containing one or more clips.
#[derive(Debug, Clone)]
pub struct Track {
    pub name: String,
    pub clips: Vec<Clip>,
    pub is_reference: bool,
}

impl Track {
    /// Every clip of the track is well formed.
    pub open spec fn wf(self) -> bool {
        forall|i: int| 0 <= i < self.clips@.len() ==> (#[trigger] self.clips@[i]).wf()
    }

    pub fn new(name: String) -> (t: Track)
        ensures
            t.name == name,
            t.clips@.len() == 0,
            !t.is_reference,
            t.wf(),
    {
        Track { name, clips: Vec::new(), is_reference: false }
    }

    pub fn clip_count(&self) -> (r: usize)
        ensures
            r == self.clips@.len(),
    {
        self.clips.len()
    }

    /// Total analysis-rate sample count over the track's clips.
    pub open spec fn spec_total_samples(clips: Seq<Clip>) -> int
        decreases clips.len(),
    {
        if clips.len() == 0 {
            0
        } else {
            Self::spec_total_samples(clips.drop_last()) + clips.last().sample_len
        }
    }

    pub fn total_samples(&self) -> (r: usize)
        requires
            Self::spec_total_samples(self.clips@) <= usize::MAX,
        ensures
            r == Self::spec_total_samples(self.clips@),
    {
        let mut sum: usize = 0;
        let mut i: usize = 0;
        proof {
            lemma_total_samples_prefix_bound(self.clips@, 0);
        }
        while i < self.clips.len()
            invariant
                i <= self.clips@.len(),
                sum == Self::spec_total_samples(self.clips@.take(i as int)),
                Self::spec_total_samples(self.clips@) <= usize::MAX,
            decreases self.clips@.len() - i,
        {
            proof {
                lemma_total_samples_prefix_bound(self.clips@, i + 1);
                assert(self.clips@.take(i + 1).drop_last() =~= self.clips@.take(i as int));
                assert(self.clips@.take(i + 1).last() == self.clips@[i as int]);
            }
            sum = sum + self.clips[i].sample_len;
            i = i + 1;
        }
        proof {
            assert(self.clips@.take(self.clips@.len() as int) =~= self.clips@);
        }
        sum
    }

    /// Total native duration over the track's clips, in microseconds.
    pub open spec fn spec_total_duration_us(clips: Seq<Clip>) -> int
        decreases clips.len(),
    {
        if clips.len() == 0 {
            0
        } else {
            Self::spec_total_duration_us(clips.drop_last()) + clips.last().duration_us
        }
    }

    pub fn total_duration_us(&self) -> (r: i128)
        requires
            self.wf(),
            self.clips@.len() <= usize::MAX,
            Self::spec_total_duration_us(self.clips@) <= i128::MAX,
        ensures
            r == Self::spec_total_duration_us(self.clips@),
    {
        let mut sum: i128 = 0;
        let mut i: usize = 0;
        while i < self.clips.len()
            invariant
                self.wf(),
                i <= self.clips@.len(),
                sum == Self::spec_total_duration_us(self.clips@.take(i as int)),
                0 <= sum <= (i as int) * (MAX_DURATION_US as int),
            decreases self.clips@.len() - i,
        {
            proof {
                assert(self.clips@.take(i + 1).drop_last() =~= self.clips@.take(i as int));
                assert(self.clips@.take(i + 1).last() == self.clips@[i as int]);
                assert(self.clips@[i as int].wf());
            }
            sum = sum + self.clips[i].duration_us as i128;
            i = i + 1;
        }
        proof {
            assert(self.clips@.take(self.clips@.len() as int) =~= self.clips@);
        }
        sum
    }

    /// Sort clips by creation time, names breaking ties.
    pub fn sort_clips_by_time(&mut self)
        ensures
            final (self).name == old(self).name,
            final (self).is_reference == old(self).is_reference,
            final (self).clips@.len() == old(self).clips@.len(),
            final (self).clips@.to_multiset() == old(self).clips@.to_multiset(),
            clips_sorted(final (self).clips@),
    {
        broadcast use vstd::seq_lib::group_to_multiset_ensures;
        broadcast use vstd::multiset::group_multiset_axioms;

        let ghost orig: Seq<Clip> = self.clips@;
        let ghost oname: String = self.name;
        let ghost oref: bool = self.is_reference;
        let mut out: Vec<Clip> = Vec::new();
        while self.clips.len() > 0
            invariant
                self.name == oname,
                self.is_reference == oref,
                out@.to_multiset().add(self.clips@.to_multiset()) =~= orig.to_multiset(),
                out@.len() + self.clips@.len() == orig.len(),
                clips_sorted(out@),
                forall|a: int, b: int|
                    0 <= a < out@.len() && 0 <= b < self.clips@.len() ==> clip_le(
                        #[trigger] out@[a],
                        #[trigger] self.clips@[b],
                    ),
            decreases self.clips@.len(),
        {
            proof {
                lemma_clip_le_total(self.clips@[0], self.clips@[0]);
            }
            let mut min_i: usize = 0;
            let mut i: usize = 1;
            while i < self.clips.len()
                invariant
                    min_i < i <= self.clips@.len(),
                    self.clips@.len() > 0,
                    forall|k: int| 0 <= k < i ==> clip_le(self.clips@[min_i as int], #[trigger] self.clips@[k]),
                decreases self.clips@.len() - i,
            {
                if clip_le_exec(&self.clips[min_i], &self.clips[i]) {
                    proof {
                        assert(clip_le(self.clips@[min_i as int], self.clips@[i as int]));
                    }
                } else {
                    proof {
                        lemma_clip_le_total(self.clips@[min_i as int], self.clips@[i as int]);
                        assert(clip_le(self.clips@[i as int], self.clips@[min_i as int]));
                        assert forall|k: int| 0 <= k < i + 1 implies clip_le(
                            self.clips@[i as int],
                            #[trigger] self.clips@[k],
                        ) by {
                            if k < i {
                                lemma_clip_le_trans(
                                    self.clips@[i as int],
                                    self.clips@[min_i as int],
                                    self.clips@[k],
                                );
                            } else {
                                lemma_clip_le_total(self.clips@[k], self.clips@[k]);
                            }
                        }
                    }
                    min_i = i;
                }
                i = i + 1;
            }
            let ghost pre: Seq<Clip> = self.clips@;
            let m = self.clips.remove(min_i);
            out.push(m);
            proof {
                broadcast use vstd::seq_lib::group_to_multiset_ensures;
                broadcast use vstd::multiset::group_multiset_axioms;

                assert(pre.remove(min_i as int).to_multiset() =~= pre.to_multiset().remove(m));
                assert(out@.to_multiset().add(self.clips@.to_multiset()) =~= orig.to_multiset());
                assert forall|a: int, b: int|
                    0 <= a < out@.len() && 0 <= b < self.clips@.len() implies clip_le(
                    #[trigger] out@[a],
                    #[trigger] self.clips@[b],
                ) by {
                    let x = self.clips@[b];
                    if b < min_i {
                        assert(x == pre[b]);
                    } else {
                        assert(x == pre[b + 1]);
                    }
                    assert(clip_le(m, x));
                    if a < out@.len() - 1 {
                        assert(clip_le(out@[a], m));
                        lemma_clip_le_trans(out@[a], m, x);
                    }
                }
                assert(clips_sorted(out@));
            }
        }
        self.clips = out;
    }
}

/// Whether any track of the sequence holds a clip.
pub open spec fn spec_any_clip(tracks: Seq<Track>) -> bool {
    exists|t: int| 0 <= t < tracks.len() && (#[trigger] tracks[t]).clips@.len() > 0
}

// ---------------------------------------------------------------------------
//  SyncConfig
// ---------------------------------------------------------------------------

/// Configuration for the sync engine.
#[derive(Debug, Clone)]
pub struct SyncConfig {
    /// Search-range bound for correlation, in microseconds; `None` searches
    /// the whole correlation.
    pub max_offset_us: Option<i64>,
    pub export_format: String,
    pub export_bit_depth: u32,
    pub export_bitrate_kbps: u32,
    pub export_sr: Option<u32>,
    pub crossfade_us: i64,
    pub drift_correction: bool,
    /// Drift acceptance threshold in milli-ppm.
    pub drift_threshold_ppm_milli: i64,
}

impl Default for SyncConfig {
    fn default() -> (c: Self)
        ensures
            c.max_offset_us is None,
            c.export_format@ == "wav"@,
            c.export_bit_depth == 24,
            c.export_bitrate_kbps == 320,
            c.export_sr is None,
            c.crossfade_us == 50_000,
            c.drift_correction,
            c.drift_threshold_ppm_milli == 300,
    {
        SyncConfig {
            max_offset_us: None,
            export_format: String::from_str("wav"),
            export_bit_depth: 24,
            export_bitrate_kbps: 320,
            export_sr: None,
            crossfade_us: 50_000,
            drift_correction: true,
            drift_threshold_ppm_milli: 300,
        }
    }
}

impl SyncConfig {
    /// Whether the chosen export format is a lossy codec.
    pub fn is_lossy(&self) -> (r: bool)
        ensures
            r == (crate::text::lower_seq(self.export_format@) == "mp3"@),
    {
        let low = crate::text::to_ascii_lower(self.export_format.as_str());
        crate::text::str_eq(low.as_str(), "mp3")
    }

    /// Sample subtype label for the chosen bit depth.
    pub fn subtype(&self) -> (r: &'static str)
        ensures
            self.export_bit_depth == 16 ==> r@ == "PCM_16"@,
            self.export_bit_depth == 32 ==> r@ == "FLOAT"@,
            self.export_bit_depth != 16 && self.export_bit_depth != 32 ==> r@ == "PCM_24"@,
    {
        match self.export_bit_depth {
            16 => "PCM_16",
            32 => "FLOAT",
            _ => "PCM_24",
        }
    }
}

// ---------------------------------------------------------------------------
//  Warnings and errors
// ---------------------------------------------------------------------------

/// A non-fatal condition recorded during analysis.
#[derive(Debug, Clone, PartialEq, Eq)]
pub enum Warning {
    /// A clip's correlation confidence stayed below the threshold.
    LowConfidence { clip_name: String, confidence_milli: u64 },
    /// A clip was placed from wall-clock metadata instead of correlation.
    MetadataFallback { clip_name: String, confidence_milli: u64 },
    /// Clips of one device overlapped and were re-sequenced around an anchor.
    OverlapRepaired { track_name: String, anchor_name: String },
}


/// A fatal condition that aborts an analysis run.
#[derive(Debug, Clone, PartialEq, Eq)]
pub enum SyncError {
    /// No tracks, or no clips in any track.
    NoInput,
    /// The cancellation flag was observed.
    Cancelled,
    /// The reference track has no clips.
    NoReferenceAudio,
}

// ---------------------------------------------------------------------------
//  SyncResult
// ---------------------------------------------------------------------------

/// Results produced by the analysis engine.
#[derive(Debug, Clone)]
pub struct SyncResult {
    pub reference_track_index: usize,
    /// Length of the timeline in analysis-rate samples.
    pub total_timeline_samples: i128,
    pub sample_rate: u32,
    /// Final per-clip offsets, one `(file_path, offset)` entry per clip in
    /// track order.
    pub clip_offsets: Vec<(String, i128)>,
    /// Mean recorded confidence in milli-units (reference clips count with
    /// their fixed value).
    pub avg_confidence_milli: u64,
    pub drift_detected: bool,
    pub warnings: Vec<Warning>,
}

/// The total sample count is never negative.
proof fn lemma_total_samples_nonneg(clips: Seq<Clip>)
    ensures
        0 <= Track::spec_total_samples(clips),
    decreases clips.len(),
{
    if clips.len() > 0 {
        lemma_total_samples_nonneg(clips.drop_last());
    }
}

/// Each prefix sum of sample lengths is bounded by the total.
proof fn lemma_total_samples_prefix_bound(clips: Seq<Clip>, i: int)
    requires
        0 <= i <= clips.len(),
    ensures
        0 <= Track::spec_total_samples(clips.take(i)) <= Track::spec_total_samples(clips),
    decreases clips.len() - i,
{
    lemma_total_samples_nonneg(clips.take(i));
    if i == clips.len() {
        assert(clips.take(i) =~= clips);
    } else {
        lemma_total_samples_prefix_bound(clips, i + 1);
        assert(clips.take(i + 1).drop_last() =~= clips.take(i));
        assert(Track::spec_total_samples(clips.take(i + 1)) == Track::spec_total_samples(
            clips.take(i),
        ) + clips.take(i + 1).last().sample_len);
    }
}

} // verus!
