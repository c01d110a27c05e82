//! Integer scaffolding for the stitcher: export-rate selection, output
//! sizing, per-clip placement bounds, and the drift-resampling bookkeeping.
//! The floating-point mixing and resampling run outside the library.

use crate::models::Clip;
use crate::models::SyncConfig;
use crate::models::Track;
use crate::models::spec_any_clip;
use crate::models::ANALYSIS_SR;
use crate::models::DRIFT_R2_ACCEPT_MILLI;
use crate::models::US_PER_SECOND;
use vstd::prelude::*;

verus! {

/// Rounding to the nearest integer, halves away from zero, written over a
/// positive denominator.
pub open spec fn spec_round_div(a: int, b: int) -> int {
    if a >= 0 {
        (2 * a + b) / (2 * b)
    } else {
        -((2 * (-a) + b) / (2 * b))
    }
}

/// Executable half-away rounding of `a / b`.
pub fn round_div(a: i128, b: i128) -> (r: i128)
    requires
        0 < b <= 0x1_0000_0000_0000_0000,
        -0x1_0000_0000_0000_0000_0000_0000_0000 <= a <= 0x1_0000_0000_0000_0000_0000_0000_0000,
    ensures
        r == spec_round_div(a as int, b as int),
{
    if a >= 0 {
        ((2 * (a as u128) + (b as u128)) / (2 * (b as u128))) as i128
    } else {
        let m: i128 = -a;
        -(((2 * (m as u128) + (b as u128)) / (2 * (b as u128))) as i128)
    }
}

/// The highest native sample rate across all tracks' clips, zero when
/// there are none.
pub open spec fn spec_max_sr_tracks(tracks: Seq<Track>) -> int
    decreases tracks.len(),
{
    if tracks.len() == 0 {
        0
    } else {
        let rest = spec_max_sr_tracks(tracks.drop_last());
        let m = spec_track_max_sr(tracks.last().clips@);
        if m > rest {
            m
        } else {
            rest
        }
    }
}

/// The auto-detected export rate: the highest native rate among the clips,
/// or 44100 when there are no clips at all.
pub open spec fn spec_project_sample_rate(tracks: Seq<Track>) -> int {
    if spec_any_clip(tracks) {
        spec_max_sr_tracks(tracks)
    } else {
        44100
    }
}

/// The highest native sample rate among one track's clips.
pub open spec fn spec_track_max_sr(clips: Seq<Clip>) -> int
    decreases clips.len(),
{
    if clips.len() == 0 {
        0
    } else {
        let rest = spec_track_max_sr(clips.drop_last());
        if clips.last().original_sr > rest {
            clips.last().original_sr as int
        } else {
            rest
        }
    }
}

/// Detect the export rate for the project: the highest native rate across
/// all clips, or 44100 when there are no clips.
pub fn detect_project_sample_rate(tracks: &Vec<Track>) -> (r: u32)
    ensures
        r == spec_project_sample_rate(tracks@),
{
    let mut max_sr: u32 = 0;
    let mut any = false;
    let n = tracks.len();
    proof {
        assert(tracks@.take(0).len() == 0);
    }
    let mut t: usize = 0;
    while t < n
        invariant
            n == tracks@.len(),
            t <= n,
            max_sr as int == spec_max_sr_tracks(tracks@.take(t as int)),
            any == spec_any_clip(tracks@.take(t as int)),
        decreases n - t,
    {
        let m = tracks[t].clips.len();
        let mut i: usize = 0;
        let mut track_max: u32 = 0;
        while i < m
            invariant
                n == tracks@.len(),
                t < n,
                m == tracks@[t as int].clips@.len(),
                i <= m,
                track_max as int == spec_track_max_sr(tracks@[t as int].clips@.take(i as int)),
            decreases m - i,
        {
            proof {
                assert(tracks@[t as int].clips@.take(i + 1).drop_last() =~= tracks@[t as int].clips@.take(i as int));
                assert(tracks@[t as int].clips@.take(i + 1).last() == tracks@[t as int].clips@[i as int]);
            }
            if tracks[t].clips[i].original_sr > track_max {
                track_max = tracks[t].clips[i].original_sr;
            }
            i = i + 1;
        }
        proof {
            assert(tracks@[t as int].clips@.take(m as int) =~= tracks@[t as int].clips@);
            assert(tracks@.take(t + 1).drop_last() =~= tracks@.take(t as int));
            assert(tracks@.take(t + 1).last() == tracks@[t as int]);
        }
        if m > 0 {
            proof {
                assert(0 <= t < tracks@.take(t + 1).len() && tracks@.take(t + 1)[t as int].clips@.len() > 0);
            }
            any = true;
        } else {
            proof {
                if spec_any_clip(tracks@.take(t + 1)) {
                    let w = choose|w: int|
                        0 <= w < tracks@.take(t + 1).len() && (#[trigger] tracks@.take(t + 1)[w]).clips@.len() > 0;
                    if w < t {
                        assert(0 <= w < tracks@.take(t as int).len() && tracks@.take(t as int)[w].clips@.len() > 0);
                    }
                }
            }
        }
        if track_max > max_sr {
            max_sr = track_max;
        }
        t = t + 1;
    }
    proof {
        assert(tracks@.take(n as int) =~= tracks@);
    }
    if any {
        max_sr
    } else {
        44100
    }
}

/// The export rate: the configured one when set, else the detected project
/// rate.
pub fn export_rate(config: &SyncConfig, tracks: &Vec<Track>) -> (r: u32)
    ensures
        match config.export_sr {
            Some(sr) => r == sr,
            None => r == spec_project_sample_rate(tracks@),
        },
{
    match &config.export_sr {
        Some(sr) => *sr,
        None => detect_project_sample_rate(tracks),
    }
}

/// Length of the stitched output at the export rate: the timeline length in
/// analysis samples rescaled and rounded to the nearest sample.
pub fn total_output_len(total_timeline_samples: i128, export_sr: u32) -> (r: usize)
    requires
        0 <= total_timeline_samples <= 0x1_0000_0000_0000_0000_0000,
        export_sr >= 1,
        spec_round_div(
            total_timeline_samples * export_sr,
            ANALYSIS_SR as int,
        ) <= usize::MAX,
    ensures
        r == spec_round_div(total_timeline_samples * export_sr, ANALYSIS_SR as int),
{
    proof {
        assert(0 <= total_timeline_samples * (export_sr as int) <= 0x1_0000_0000_0000_0000_0000
            * 0x1_0000_0000) by (nonlinear_arith)
            requires
                0 <= total_timeline_samples <= 0x1_0000_0000_0000_0000_0000,
                0 <= export_sr as int <= 0x1_0000_0000,
        ;
    }
    let scaled: i128 = total_timeline_samples * export_sr as i128;
    let r = round_div(scaled, ANALYSIS_SR as i128);
    r as usize
}

/// A clip's timeline offset converted to the export rate, clamped below at
/// zero as the stitcher places it.
pub fn clip_start_at_rate(offset_samples: i128, export_sr: u32) -> (r: i128)
    requires
        -0x1_0000_0000_0000_0000_0000 <= offset_samples <= 0x1_0000_0000_0000_0000_0000,
        export_sr >= 1,
    ensures
        export_sr == ANALYSIS_SR ==> r == (if offset_samples >= 0 {
            offset_samples as int
        } else {
            0
        }),
        export_sr != ANALYSIS_SR ==> r == {
            let c = spec_round_div(offset_samples * export_sr, ANALYSIS_SR as int);
            if c >= 0 {
                c
            } else {
                0
            }
        },
        r >= 0,
{
    proof {
        assert(-0x1_0000_0000_0000_0000_0000 * 0x1_0000_0000 <= offset_samples * (
        export_sr as int) <= 0x1_0000_0000_0000_0000_0000 * 0x1_0000_0000) by (nonlinear_arith)
            requires
                -0x1_0000_0000_0000_0000_0000 <= offset_samples <= 0x1_0000_0000_0000_0000_0000,
                0 <= export_sr as int <= 0x1_0000_0000,
        ;
    }
    let converted: i128 = if export_sr == ANALYSIS_SR {
        offset_samples
    } else {
        round_div(offset_samples * export_sr as i128, ANALYSIS_SR as i128)
    };
    if converted >= 0 {
        converted
    } else {
        0
    }
}

/// The slice of the output a clip's audio lands in: start index and length,
/// clipped to the output; empty when the start lies past the end.
pub fn mix_segment_bounds(start: i128, audio_len: usize, total_len: usize) -> (r: (usize, usize))
    requires
        start >= 0,
    ensures
        start >= total_len ==> r.1 == 0,
        start < total_len ==> {
            &&& r.0 == start
            &&& r.0 + r.1 <= total_len
            &&& r.1 == (if start + audio_len <= total_len {
                audio_len as int
            } else {
                total_len - start
            })
        },
{
    if start >= total_len as i128 {
        return (0, 0);
    }
    let s = start as usize;
    let seg: usize = if audio_len <= total_len - s {
        audio_len
    } else {
        total_len - s
    };
    (s, seg)
}

/// Whether the stitcher should resample one clip for drift: correction is
/// enabled, the measured magnitude reaches the threshold, and the fit is
/// strong.
pub fn should_correct_drift(clip: &Clip, config: &SyncConfig) -> (r: bool)
    requires
        -i64::MAX <= clip.drift_ppm_milli,
    ensures
        r == (config.drift_correction && (if clip.drift_ppm_milli >= 0 {
            clip.drift_ppm_milli as int
        } else {
            -clip.drift_ppm_milli as int
        }) >= config.drift_threshold_ppm_milli && clip.drift_r2_milli > DRIFT_R2_ACCEPT_MILLI),
{
    let mag: i64 = if clip.drift_ppm_milli >= 0 {
        clip.drift_ppm_milli
    } else {
        -clip.drift_ppm_milli
    };
    config.drift_correction && mag >= config.drift_threshold_ppm_milli && clip.drift_r2_milli
        > DRIFT_R2_ACCEPT_MILLI
}

/// Output length of drift resampling: stretching by `1 + ppm/1e6` divides
/// the sample count by that factor, rounded to the nearest sample.  In
/// milli-ppm the factor is `(1e9 + ppm_milli) / 1e9`.
pub fn drift_corrected_len(input_len: usize, ppm_milli: i64) -> (r: usize)
    requires
        input_len <= 0x4000_0000_0000_0000,
        -500_000_000 < ppm_milli < 500_000_000,
        spec_round_div((input_len as int) * 1_000_000_000, 1_000_000_000 + ppm_milli)
            <= usize::MAX,
    ensures
        r == spec_round_div((input_len as int) * 1_000_000_000, 1_000_000_000 + ppm_milli),
{
    let num: i128 = (input_len as i128) * 1_000_000_000;
    let den: i128 = 1_000_000_000 + ppm_milli as i128;
    let r = round_div(num, den);
    proof {
        vstd::arithmetic::div_mod::lemma_div_pos_is_pos(2 * (num as int) + den, 2 * (den as int));
    }
    r as usize
}

impl Clip {
    /// The clip's timeline offset converted from the analysis rate to a
    /// target rate, rounded to the nearest sample.
    pub fn timeline_offset_at_sr(&self, target_sr: u32) -> (r: i128)
        requires
            -0x1_0000_0000_0000_0000_0000 <= self.timeline_offset_samples
                <= 0x1_0000_0000_0000_0000_0000,
        ensures
            self.sample_rate == target_sr ==> r == self.timeline_offset_samples,
            self.sample_rate != target_sr ==> r == spec_round_div(
                self.timeline_offset_samples * target_sr,
                ANALYSIS_SR as int,
            ),
    {
        if self.sample_rate == target_sr {
            return self.timeline_offset_samples;
        }
        proof {
            assert(-0x1_0000_0000_0000_0000_0000 * 0x1_0000_0000 <= self.timeline_offset_samples
                * (target_sr as int) <= 0x1_0000_0000_0000_0000_0000 * 0x1_0000_0000)
                by (nonlinear_arith)
                requires
                    -0x1_0000_0000_0000_0000_0000 <= self.timeline_offset_samples
                        <= 0x1_0000_0000_0000_0000_0000,
                    0 <= target_sr as int <= 0x1_0000_0000,
            ;
        }
        round_div(self.timeline_offset_samples * target_sr as i128, ANALYSIS_SR as i128)
    }

    /// The clip's length in samples at a target rate, from its native
    /// duration, rounded to the nearest sample.
    pub fn length_at_sr(&self, target_sr: u32) -> (r: usize)
        requires
            self.wf(),
            spec_round_div(self.duration_us * target_sr, US_PER_SECOND as int) <= usize::MAX,
        ensures
            r == spec_round_div(self.duration_us * target_sr, US_PER_SECOND as int),
    {
        proof {
            assert(0 <= self.duration_us * (target_sr as int) <= 0x8000_0000_0000int
                * 0x1_0000_0000) by (nonlinear_arith)
                requires
                    0 <= self.duration_us <= 0x8000_0000_0000,
                    0 <= target_sr as int <= 0x1_0000_0000,
            ;
            vstd::arithmetic::div_mod::lemma_div_pos_is_pos(
                2 * (self.duration_us * (target_sr as int)) + US_PER_SECOND,
                2 * (US_PER_SECOND as int),
            );
        }
        let r = round_div(self.duration_us as i128 * target_sr as i128, US_PER_SECOND as i128);
        r as usize
    }
}

} // verus!
