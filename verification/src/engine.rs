//! Alignment pipeline: reference selection, metadata placement, pass
//! bookkeeping, overlap repair, normalization, and drift bookkeeping.
//!
//! The pipeline works at the 8 kHz analysis rate throughout.  The FFT
//! correlation itself runs outside the library; each phase here states
//! exactly what it writes into the clip records for every value the
//! correlator can hand back.

use crate::models::Clip;
use crate::models::SyncError;
use crate::models::SyncResult;
use crate::models::ANALYSIS_SR;
use crate::models::Warning;
use crate::models::clip_le;
use crate::models::clips_sorted;
use crate::models::CONFIDENCE_THRESHOLD_MILLI;
use crate::models::MAX_CONFIDENCE_MILLI;
use crate::models::MIN_DRIFT_OVERLAP_US;
use crate::models::DRIFT_R2_ACCEPT_MILLI;
use crate::models::DEFAULT_GAP_US;
use crate::models::REFERENCE_CONFIDENCE_MILLI;
use crate::models::US_PER_SAMPLE;
use crate::models::Track;
use crate::models::MAX_DURATION_US;
use crate::models::MAX_SAMPLE_LEN;
use crate::models::MAX_TIME_US;
use vstd::prelude::*;

verus! {

// ---------------------------------------------------------------------------
//  Coverage span and time origin
// ---------------------------------------------------------------------------

/// Smallest creation time among a sequence of clips, if any clip has one.
pub open spec fn spec_min_ct(clips: Seq<Clip>) -> Option<int>
    decreases clips.len(),
{
    if clips.len() == 0 {
        None
    } else {
        let rest = spec_min_ct(clips.drop_last());
        match (rest, clips.last().creation_time_us) {
            (None, None) => None,
            (None, Some(t)) => Some(t as int),
            (Some(m), None) => Some(m),
            (Some(m), Some(t)) => Some(if t < m { t as int } else { m }),
        }
    }
}

/// Largest `creation time + duration` among the clips, if any has a time.
pub open spec fn spec_max_ct_end(clips: Seq<Clip>) -> Option<int>
    decreases clips.len(),
{
    if clips.len() == 0 {
        None
    } else {
        let rest = spec_max_ct_end(clips.drop_last());
        let last = clips.last();
        match (rest, last.creation_time_us) {
            (None, None) => None,
            (None, Some(t)) => Some(t + last.duration_us),
            (Some(m), None) => Some(m),
            (Some(m), Some(t)) => Some(
                if t + last.duration_us > m {
                    t + last.duration_us
                } else {
                    m
                },
            ),
        }
    }
}

/// Wall-clock coverage span of a track: latest clip end minus earliest clip
/// start, zero when no clip carries a creation time.
pub open spec fn spec_coverage_span(t: Track) -> int {
    match (spec_min_ct(t.clips@), spec_max_ct_end(t.clips@)) {
        (Some(lo), Some(hi)) => hi - lo,
        _ => 0,
    }
}

/// Earliest creation time among a track's clips.
pub fn get_track_time_origin(track: &Track) -> (r: Option<i64>)
    ensures
        match r {
            Some(v) => spec_min_ct(track.clips@) == Some(v as int),
            None => spec_min_ct(track.clips@) is None,
        },
{
    let mut cur: Option<i64> = None;
    let mut i: usize = 0;
    while i < track.clips.len()
        invariant
            i <= track.clips@.len(),
            match cur {
                Some(v) => spec_min_ct(track.clips@.take(i as int)) == Some(v as int),
                None => spec_min_ct(track.clips@.take(i as int)) is None,
            },
        decreases track.clips@.len() - i,
    {
        proof {
            assert(track.clips@.take(i + 1).drop_last() =~= track.clips@.take(i as int));
            assert(track.clips@.take(i + 1).last() == track.clips@[i as int]);
        }
        match &track.clips[i].creation_time_us {
            Some(t) => {
                cur = match cur {
                    Some(m) => if *t < m {
                        Some(*t)
                    } else {
                        Some(m)
                    },
                    None => Some(*t),
                };
            },
            None => {},
        }
        i = i + 1;
    }
    proof {
        assert(track.clips@.take(track.clips@.len() as int) =~= track.clips@);
    }
    cur
}

/// Coverage span of a track, in microseconds.
fn coverage_span(track: &Track) -> (r: i64)
    requires
        track.wf(),
    ensures
        r == spec_coverage_span(*track),
{
    let mut lo: Option<i64> = None;
    let mut hi: Option<i64> = None;
    let mut i: usize = 0;
    while i < track.clips.len()
        invariant
            track.wf(),
            i <= track.clips@.len(),
            match lo {
                Some(v) => spec_min_ct(track.clips@.take(i as int)) == Some(v as int)
                    && -MAX_TIME_US <= v <= MAX_TIME_US,
                None => spec_min_ct(track.clips@.take(i as int)) is None,
            },
            match hi {
                Some(v) => spec_max_ct_end(track.clips@.take(i as int)) == Some(v as int)
                    && -MAX_TIME_US <= v <= MAX_TIME_US + MAX_DURATION_US,
                None => spec_max_ct_end(track.clips@.take(i as int)) is None,
            },
            (lo is Some) == (hi is Some),
        decreases track.clips@.len() - i,
    {
        proof {
            assert(track.clips@.take(i + 1).drop_last() =~= track.clips@.take(i as int));
            assert(track.clips@.take(i + 1).last() == track.clips@[i as int]);
            assert(track.clips@[i as int].wf());
        }
        match &track.clips[i].creation_time_us {
            Some(t) => {
                let end: i64 = *t + track.clips[i].duration_us;
                lo = match lo {
                    Some(m) => if *t < m {
                        Some(*t)
                    } else {
                        Some(m)
                    },
                    None => Some(*t),
                };
                hi = match hi {
                    Some(m) => if end > m {
                        Some(end)
                    } else {
                        Some(m)
                    },
                    None => Some(end),
                };
            },
            None => {},
        }
        i = i + 1;
    }
    proof {
        assert(track.clips@.take(track.clips@.len() as int) =~= track.clips@);
    }
    match (lo, hi) {
        (Some(l), Some(h)) => h - l,
        _ => 0,
    }
}

// ---------------------------------------------------------------------------
//  Reference selection
// ---------------------------------------------------------------------------

/// All tracks of the sequence are well formed.
pub open spec fn tracks_wf(tracks: Seq<Track>) -> bool {
    forall|i: int| 0 <= i < tracks.len() ==> (#[trigger] tracks[i]).wf()
}

/// A run needs input: no tracks, or no clips in any track, is rejected.
pub fn validate_input(tracks: &Vec<Track>) -> (r: Result<(), SyncError>)
    ensures
        r is Ok <==> crate::models::spec_any_clip(tracks@),
        r is Err ==> r == Err::<(), SyncError>(SyncError::NoInput),
{
    let n = tracks.len();
    let mut t: usize = 0;
    while t < n
        invariant
            n == tracks@.len(),
            t <= n,
            forall|k: int| 0 <= k < t ==> (#[trigger] tracks@[k]).clips@.len() == 0,
        decreases n - t,
    {
        if tracks[t].clips.len() > 0 {
            proof {
                assert(0 <= t < tracks@.len() && tracks@[t as int].clips@.len() > 0);
            }
            return Ok(());
        }
        t = t + 1;
    }
    Err(SyncError::NoInput)
}

/// Total clip duration of a track, as the selection fallback compares it.
pub open spec fn spec_track_duration(t: Track) -> int {
    Track::spec_total_duration_us(t.clips@)
}

/// Choose the reference track:
/// a user-marked track wins; otherwise the largest wall-clock coverage
/// span; otherwise the largest total duration; otherwise the first track.
/// Ties always go to the earliest index.
pub fn select_reference_index(tracks: &Vec<Track>) -> (r: usize)
    requires
        tracks@.len() > 0,
        tracks_wf(tracks@),
    ensures
        r < tracks@.len(),
        (exists|i: int| 0 <= i < tracks@.len() && (#[trigger] tracks@[i]).is_reference) ==> {
            &&& tracks@[r as int].is_reference
            &&& forall|j: int| 0 <= j < r ==> !(#[trigger] tracks@[j]).is_reference
        },
        (forall|i: int| 0 <= i < tracks@.len() ==> !(#[trigger] tracks@[i]).is_reference)
            && (exists|i: int|
            0 <= i < tracks@.len() && spec_coverage_span(#[trigger] tracks@[i]) > 0) ==> {
            &&& forall|j: int|
                0 <= j < tracks@.len() ==> spec_coverage_span(#[trigger] tracks@[j])
                    <= spec_coverage_span(tracks@[r as int])
            &&& forall|j: int|
                0 <= j < r ==> spec_coverage_span(#[trigger] tracks@[j]) < spec_coverage_span(
                    tracks@[r as int],
                )
        },
        (forall|i: int| 0 <= i < tracks@.len() ==> !(#[trigger] tracks@[i]).is_reference)
            && (forall|i: int|
            0 <= i < tracks@.len() ==> spec_coverage_span(#[trigger] tracks@[i]) <= 0) ==> {
            ||| {
                &&& spec_track_duration(tracks@[r as int]) > 0
                &&& forall|j: int|
                    0 <= j < tracks@.len() ==> spec_track_duration(#[trigger] tracks@[j])
                        <= spec_track_duration(tracks@[r as int])
                &&& forall|j: int|
                    0 <= j < r ==> spec_track_duration(#[trigger] tracks@[j])
                        < spec_track_duration(tracks@[r as int])
            }
            ||| {
                &&& r == 0
                &&& forall|j: int|
                    0 <= j < tracks@.len() ==> spec_track_duration(#[trigger] tracks@[j]) <= 0
            }
        },
{
    // User override: the first marked track wins.
    let n = tracks.len();
    let mut i: usize = 0;
    while i < n
        invariant
            n == tracks@.len(),
            i <= n,
            forall|j: int| 0 <= j < i ==> !(#[trigger] tracks@[j]).is_reference,
        decreases n - i,
    {
        if tracks[i].is_reference {
            return i;
        }
        i = i + 1;
    }
    // Widest metadata coverage span.
    let mut best_idx: usize = 0;
    let mut best_span: i64 = 0;
    let mut k: usize = 0;
    while k < n
        invariant
            n == tracks@.len(),
            tracks_wf(tracks@),
            k <= n,
            best_idx < n,
            best_span >= 0,
            best_span > 0 ==> best_idx < k && best_span == spec_coverage_span(
                tracks@[best_idx as int],
            ),
            best_span == 0 ==> best_idx == 0,
            forall|j: int| 0 <= j < k ==> spec_coverage_span(#[trigger] tracks@[j]) <= best_span,
            forall|j: int| 0 <= j < best_idx ==> spec_coverage_span(#[trigger] tracks@[j]) < best_span,
        decreases n - k,
    {
        let span = coverage_span(&tracks[k]);
        if span > best_span {
            best_span = span;
            best_idx = k;
        }
        k = k + 1;
    }
    if best_span > 0 {
        return best_idx;
    }
    // Fallback: the longest total duration.
    let mut best_dur: i128 = 0;
    best_idx = 0;
    let mut k2: usize = 0;
    while k2 < n
        invariant
            n == tracks@.len(),
            tracks_wf(tracks@),
            k2 <= n,
            best_idx < n,
            best_dur >= 0,
            best_dur > 0 ==> best_idx < k2 && best_dur == spec_track_duration(
                tracks@[best_idx as int],
            ),
            best_dur == 0 ==> best_idx == 0,
            forall|j: int| 0 <= j < k2 ==> spec_track_duration(#[trigger] tracks@[j]) <= best_dur,
            forall|j: int| 0 <= j < best_idx ==> spec_track_duration(#[trigger] tracks@[j]) < best_dur,
        decreases n - k2,
    {
        let nclips = tracks[k2].clips.len();
        proof {
            assert(tracks@[k2 as int].wf());
            lemma_total_duration_bound(tracks@[k2 as int].clips@);
            assert((nclips as int) * (MAX_DURATION_US as int) <= 0x1_0000_0000_0000_0000 * (
            MAX_DURATION_US as int)) by (nonlinear_arith)
                requires
                    0 <= nclips as int <= 0x1_0000_0000_0000_0000,
            ;
        }
        let dur = tracks[k2].total_duration_us();
        if dur > best_dur {
            best_dur = dur;
            best_idx = k2;
        }
        k2 = k2 + 1;
    }
    best_idx
}

/// Auto-select the reference track index: a user-marked track wins;
/// otherwise the largest coverage span; otherwise the largest total
/// duration; otherwise the first track.  Ties go to the earliest index.
pub fn auto_select_reference(tracks: &Vec<Track>) -> (r: usize)
    requires
        tracks@.len() > 0,
        tracks_wf(tracks@),
    ensures
        r < tracks@.len(),
        (exists|i: int| 0 <= i < tracks@.len() && (#[trigger] tracks@[i]).is_reference) ==> {
            &&& tracks@[r as int].is_reference
            &&& forall|j: int| 0 <= j < r ==> !(#[trigger] tracks@[j]).is_reference
        },
        (forall|i: int| 0 <= i < tracks@.len() ==> !(#[trigger] tracks@[i]).is_reference)
            && (exists|i: int|
            0 <= i < tracks@.len() && spec_coverage_span(#[trigger] tracks@[i]) > 0) ==> {
            &&& forall|j: int|
                0 <= j < tracks@.len() ==> spec_coverage_span(#[trigger] tracks@[j])
                    <= spec_coverage_span(tracks@[r as int])
            &&& forall|j: int|
                0 <= j < r ==> spec_coverage_span(#[trigger] tracks@[j]) < spec_coverage_span(
                    tracks@[r as int],
                )
        },
        (forall|i: int| 0 <= i < tracks@.len() ==> !(#[trigger] tracks@[i]).is_reference)
            && (forall|i: int|
            0 <= i < tracks@.len() ==> spec_coverage_span(#[trigger] tracks@[i]) <= 0) ==> {
            ||| {
                &&& spec_track_duration(tracks@[r as int]) > 0
                &&& forall|j: int|
                    0 <= j < tracks@.len() ==> spec_track_duration(#[trigger] tracks@[j])
                        <= spec_track_duration(tracks@[r as int])
                &&& forall|j: int|
                    0 <= j < r ==> spec_track_duration(#[trigger] tracks@[j])
                        < spec_track_duration(tracks@[r as int])
            }
            ||| {
                &&& r == 0
                &&& forall|j: int|
                    0 <= j < tracks@.len() ==> spec_track_duration(#[trigger] tracks@[j]) <= 0
            }
        },
{
    select_reference_index(tracks)
}

/// Mark one track as the reference.
pub fn set_reference_flag(tracks: &mut Vec<Track>, idx: usize)
    requires
        idx < old(tracks)@.len(),
    ensures
        final (tracks)@.len() == old(tracks)@.len(),
        final (tracks)@[idx as int].is_reference,
        final (tracks)@[idx as int].name == old(tracks)@[idx as int].name,
        final (tracks)@[idx as int].clips == old(tracks)@[idx as int].clips,
        forall|j: int|
            0 <= j < old(tracks)@.len() && j != idx ==> final (tracks)@[j] == old(tracks)@[j],
{
    tracks[idx].is_reference = true;
}

// ---------------------------------------------------------------------------
//  Gaps and metadata placement
// ---------------------------------------------------------------------------

/// Largest possible inter-clip gap in analysis samples.
pub const MAX_GAP_SAMPLES: i64 = 0x10_0000_0000_0000;

/// Largest possible step between consecutive placed offsets: one clip's
/// sample length plus one gap.
pub const MAX_PLACE_STEP: i128 = 0x20_0000_0000_0000;

/// The silence between two consecutive clips of one device, in microseconds:
/// the wall-clock hole between the first clip's end and the second clip's
/// start, or half a second when either clip lacks a creation time.
pub open spec fn spec_gap_us(prev: Clip, curr: Clip) -> int {
    match (prev.creation_time_us, curr.creation_time_us) {
        (Some(p), Some(c)) => {
            let g = c - (p + prev.duration_us);
            if g > 0 {
                g
            } else {
                0
            }
        },
        _ => DEFAULT_GAP_US as int,
    }
}

/// The same gap converted to analysis samples (125 us each, rounded down).
pub open spec fn spec_gap_samples(prev: Clip, curr: Clip) -> int {
    spec_gap_us(prev, curr) / (US_PER_SAMPLE as int)
}

/// Executable gap computation.
pub fn gap_samples(prev: &Clip, curr: &Clip) -> (r: i64)
    requires
        prev.wf(),
        curr.wf(),
    ensures
        r == spec_gap_samples(*prev, *curr),
        0 <= r <= MAX_GAP_SAMPLES,
{
    let gap_us: i64 = match (&prev.creation_time_us, &curr.creation_time_us) {
        (Some(p), Some(c)) => {
            let g: i64 = *c - (*p + prev.duration_us);
            if g > 0 {
                g
            } else {
                0
            }
        },
        _ => DEFAULT_GAP_US,
    };
    ((gap_us as u64) / (US_PER_SAMPLE as u64)) as i64
}

/// Everything about a clip except its placement state: what analysis never
/// changes.
pub open spec fn same_clip_identity(a: Clip, b: Clip) -> bool {
    &&& a.file_path == b.file_path
    &&& a.name == b.name
    &&& a.sample_len == b.sample_len
    &&& a.sample_rate == b.sample_rate
    &&& a.original_sr == b.original_sr
    &&& a.original_channels == b.original_channels
    &&& a.duration_us == b.duration_us
    &&& a.is_video == b.is_video
    &&& a.creation_time_us == b.creation_time_us
}

/// Identity plus untouched drift state.
pub open spec fn same_clip_identity_and_drift(a: Clip, b: Clip) -> bool {
    &&& same_clip_identity(a, b)
    &&& a.drift_ppm_milli == b.drift_ppm_milli
    &&& a.drift_r2_milli == b.drift_r2_milli
    &&& a.drift_corrected == b.drift_corrected
}

/// No clip of the sequence runs into its successor.
pub open spec fn non_overlapping_adjacent(clips: Seq<Clip>) -> bool {
    forall|i: int|
        0 <= i < clips.len() - 1 ==> (#[trigger] clips[i]).spec_end_samples()
            <= clips[i + 1].timeline_offset_samples
}

/// When no clip runs into its successor, no clip overlaps any later clip at
/// all: intervals `[offset, offset + len)` are pairwise disjoint and ordered.
pub proof fn lemma_non_overlap_pairwise(clips: Seq<Clip>, i: int, j: int)
    requires
        non_overlapping_adjacent(clips),
        0 <= i < j < clips.len(),
    ensures
        clips[i].spec_end_samples() <= clips[j].timeline_offset_samples,
    decreases j - i,
{
    if j > i + 1 {
        lemma_non_overlap_pairwise(clips, i, j - 1);
        assert(clips[j - 1].spec_end_samples() <= clips[j].timeline_offset_samples);
    }
}

/// Largest `offset + sample length` over the clips, zero for an empty list.
pub open spec fn spec_max_end(clips: Seq<Clip>) -> int
    decreases clips.len(),
{
    if clips.len() == 0 {
        0
    } else {
        let rest = spec_max_end(clips.drop_last());
        let e = clips.last().spec_end_samples();
        if e > rest {
            e
        } else {
            rest
        }
    }
}

/// Lay a track's clips end to end from wall-clock metadata: the first clip
/// sits at offset zero and each later one follows its predecessor after the
/// metadata gap.  Every placed clip gets the fixed reference confidence.
/// Returns the length of the resulting reference timeline in samples.
pub fn build_reference_from_metadata(track: &mut Track) -> (r: Result<i128, SyncError>)
    requires
        old(track).wf(),
    ensures
        final (track).name == old(track).name,
        final (track).is_reference == old(track).is_reference,
        final (track).clips@.len() == old(track).clips@.len(),
        r is Err ==> old(track).clips@.len() == 0 && *final (track) == *old(track) && r == Err::<
            i128,
            SyncError,
        >(SyncError::NoReferenceAudio),
        r is Ok ==> {
            &&& old(track).clips@.len() > 0
            &&& forall|i: int|
                0 <= i < final (track).clips@.len() ==> same_clip_identity_and_drift(
                    #[trigger] final (track).clips@[i],
                    old(track).clips@[i],
                )
            &&& forall|i: int|
                0 <= i < final (track).clips@.len()
                    ==> (#[trigger] final (track).clips@[i]).confidence_milli == REFERENCE_CONFIDENCE_MILLI
                    && final (track).clips@[i].analyzed
            &&& final (track).clips@[0].timeline_offset_samples == 0
            &&& forall|i: int|
                1 <= i < final (track).clips@.len()
                    ==> (#[trigger] final (track).clips@[i]).timeline_offset_samples
                    == final (track).clips@[i - 1].timeline_offset_samples
                    + final (track).clips@[i - 1].sample_len
                    + spec_gap_samples(old(track).clips@[i - 1], old(track).clips@[i])
            &&& forall|i: int|
                0 <= i < final (track).clips@.len()
                    ==> 0 <= (#[trigger] final (track).clips@[i]).timeline_offset_samples
                    && final (track).clips@[i].timeline_offset_samples <= (i + 1) * MAX_PLACE_STEP
            &&& non_overlapping_adjacent(final (track).clips@)
            &&& r->Ok_0 == spec_max_end(final (track).clips@)
            &&& final (track).wf()
        },
{
    let n = track.clips.len();
    if n == 0 {
        return Err(SyncError::NoReferenceAudio);
    }
    let ghost orig: Seq<Clip> = old(track).clips@;
    track.clips[0].timeline_offset_samples = 0;
    track.clips[0].confidence_milli = REFERENCE_CONFIDENCE_MILLI;
    track.clips[0].analyzed = true;
    let mut i: usize = 1;
    while i < n
        invariant
            n == track.clips@.len(),
            n == orig.len(),
            n > 0,
            1 <= i <= n,
            track.name == old(track).name,
            track.is_reference == old(track).is_reference,
            forall|k: int|
                0 <= k < n ==> same_clip_identity_and_drift(
                    #[trigger] track.clips@[k],
                    orig[k],
                ),
            forall|k: int|
                0 <= k < i ==> (#[trigger] track.clips@[k]).confidence_milli
                    == REFERENCE_CONFIDENCE_MILLI && track.clips@[k].analyzed,
            forall|k: int|
                i <= k < n ==> (#[trigger] track.clips@[k]).confidence_milli
                    == orig[k].confidence_milli && track.clips@[k].analyzed == orig[k].analyzed
                    && track.clips@[k].timeline_offset_samples == orig[k].timeline_offset_samples,
            track.clips@[0].timeline_offset_samples == 0,
            forall|k: int|
                1 <= k < i ==> (#[trigger] track.clips@[k]).timeline_offset_samples
                    == track.clips@[k - 1].timeline_offset_samples + track.clips@[k
                    - 1].sample_len + spec_gap_samples(orig[k - 1], orig[k]),
            forall|k: int|
                0 <= k < i ==> 0 <= (#[trigger] track.clips@[k]).timeline_offset_samples <= (k + 1)
                    * MAX_PLACE_STEP,
            forall|k: int| 0 <= k < n ==> (#[trigger] track.clips@[k]).wf(),
        decreases n - i,
    {
        let prev_off: i128 = track.clips[i - 1].timeline_offset_samples;
        let prev_len: usize = track.clips[i - 1].sample_len;
        let gap: i64 = gap_samples(&track.clips[i - 1], &track.clips[i]);
        proof {
            assert(same_clip_identity_and_drift(track.clips@[i - 1], orig[i - 1]));
            assert(same_clip_identity_and_drift(track.clips@[i as int], orig[i as int]));
            assert(spec_gap_samples(track.clips@[i - 1], track.clips@[i as int])
                == spec_gap_samples(orig[i - 1], orig[i as int]));
            assert((i as int) * MAX_PLACE_STEP + MAX_PLACE_STEP == (i + 1) * MAX_PLACE_STEP)
                by (nonlinear_arith);
        }
        let off: i128 = prev_off + prev_len as i128 + gap as i128;
        track.clips[i].timeline_offset_samples = off;
        track.clips[i].confidence_milli = REFERENCE_CONFIDENCE_MILLI;
        track.clips[i].analyzed = true;
        i = i + 1;
    }
    // The timeline is as long as the farthest clip end.
    let mut max_end: i128 = 0;
    let mut k: usize = 0;
    while k < n
        invariant
            n == track.clips@.len(),
            k <= n,
            max_end == spec_max_end(track.clips@.take(k as int)),
            forall|j: int|
                0 <= j < n ==> 0 <= (#[trigger] track.clips@[j]).timeline_offset_samples <= (j + 1)
                    * MAX_PLACE_STEP,
            forall|j: int| 0 <= j < n ==> (#[trigger] track.clips@[j]).wf(),
        decreases n - k,
    {
        proof {
            assert(track.clips@.take(k + 1).drop_last() =~= track.clips@.take(k as int));
            assert(track.clips@.take(k + 1).last() == track.clips@[k as int]);
            assert((k as int + 1) * MAX_PLACE_STEP <= 0x1_0000_0000_0000_0000 * MAX_PLACE_STEP)
                by (nonlinear_arith)
                requires
                    0 <= (k as int) && (k as int) < 0x1_0000_0000_0000_0000,
            ;
        }
        let e: i128 = track.clips[k].timeline_offset_samples + track.clips[k].sample_len as i128;
        if e > max_end {
            max_end = e;
        }
        k = k + 1;
    }
    proof {
        assert(track.clips@.take(n as int) =~= track.clips@);
    }
    Ok(max_end)
}

// ---------------------------------------------------------------------------
//  Correlation passes: applying results, warning bookkeeping
// ---------------------------------------------------------------------------

/// Largest timeline offset magnitude the pipeline admits from a correlation
/// result; real delays are bounded by the correlation length and sit far
/// below this.
pub const OFFSET_LIMIT: i128 = 0x1_0000_0000_0000_0000_0000_0000;

/// Record a pass-1 correlation result on a clip.  The clip is placed at the
/// measured delay and marked analyzed; when the confidence stays below the
/// threshold a low-confidence warning is recorded.  Returns whether the clip
/// counts as placed.
pub fn apply_pass1_result(
    clip: &mut Clip,
    delay_samples: i128,
    confidence_milli: u64,
    warnings: &mut Vec<Warning>,
) -> (placed: bool)
    requires
        old(clip).wf(),
        -OFFSET_LIMIT <= delay_samples <= OFFSET_LIMIT,
        confidence_milli <= MAX_CONFIDENCE_MILLI,
    ensures
        same_clip_identity_and_drift(*final (clip), *old(clip)),
        final (clip).timeline_offset_samples == delay_samples,
        final (clip).confidence_milli == confidence_milli,
        final (clip).analyzed,
        final (clip).wf(),
        placed == (confidence_milli >= CONFIDENCE_THRESHOLD_MILLI),
        placed ==> final (warnings)@ == old(warnings)@,
        !placed ==> final (warnings)@ == old(warnings)@.push(
            Warning::LowConfidence {
                clip_name: final (clip).name,
                confidence_milli: confidence_milli,
            },
        ),
{
    clip.timeline_offset_samples = delay_samples;
    clip.confidence_milli = confidence_milli;
    clip.analyzed = true;
    if confidence_milli >= CONFIDENCE_THRESHOLD_MILLI {
        true
    } else {
        warnings.push(
            Warning::LowConfidence { clip_name: clip.name.clone(), confidence_milli },
        );
        false
    }
}

/// Keep a warning when retracting the low-confidence record of one clip:
/// only a low-confidence warning naming exactly that clip goes away.
pub open spec fn spec_keep_warning(w: Warning, name: Seq<char>) -> bool {
    match w {
        Warning::LowConfidence { clip_name, .. } => clip_name@ != name,
        _ => true,
    }
}

/// The warning list with every low-confidence record for `name` removed,
/// order preserved.
pub open spec fn spec_retract(ws: Seq<Warning>, name: Seq<char>) -> Seq<Warning>
    decreases ws.len(),
{
    if ws.len() == 0 {
        Seq::<Warning>::empty()
    } else {
        let rest = spec_retract(ws.drop_last(), name);
        if spec_keep_warning(ws.last(), name) {
            rest.push(ws.last())
        } else {
            rest
        }
    }
}

/// Remove every low-confidence warning that names the given clip.
pub fn retract_low_confidence(warnings: &mut Vec<Warning>, clip_name: &str)
    ensures
        final (warnings)@ == spec_retract(old(warnings)@, clip_name@),
{
    let ghost orig: Seq<Warning> = old(warnings)@;
    let n0: usize = warnings.len();
    let mut kept: Vec<Warning> = Vec::new();
    let mut i: usize = 0;
    while warnings.len() > 0
        invariant
            n0 == orig.len(),
            orig.len() == i + warnings@.len(),
            warnings@ == orig.skip(i as int),
            kept@ == spec_retract(orig.take(i as int), clip_name@),
        decreases warnings@.len(),
    {
        let w = warnings.remove(0);
        proof {
            assert(orig.skip(i as int).remove(0) =~= orig.skip(i + 1));
            assert(w == orig[i as int]);
            assert(orig.take(i + 1).drop_last() =~= orig.take(i as int));
            assert(orig.take(i + 1).last() == orig[i as int]);
        }
        let keep: bool = match &w {
            Warning::LowConfidence { clip_name: n, .. } => !crate::text::str_eq(
                n.as_str(),
                clip_name,
            ),
            _ => true,
        };
        if keep {
            kept.push(w);
        }
        i = i + 1;
    }
    proof {
        assert(orig.take(i as int) =~= orig);
    }
    *warnings = kept;
}

/// Record a pass-2 retry result.  The new placement is taken only when it is
/// strictly more confident; when it also crosses the threshold, the clip's
/// earlier low-confidence warning is withdrawn.  Returns whether the result
/// was accepted.
pub fn apply_pass2_result(
    clip: &mut Clip,
    delay_samples: i128,
    confidence_milli: u64,
    warnings: &mut Vec<Warning>,
) -> (accepted: bool)
    requires
        old(clip).wf(),
        -OFFSET_LIMIT <= delay_samples <= OFFSET_LIMIT,
        confidence_milli <= MAX_CONFIDENCE_MILLI,
    ensures
        accepted == (confidence_milli > old(clip).confidence_milli),
        !accepted ==> *final (clip) == *old(clip) && final (warnings)@ == old(warnings)@,
        accepted ==> {
            &&& same_clip_identity_and_drift(*final (clip), *old(clip))
            &&& final (clip).timeline_offset_samples == delay_samples
            &&& final (clip).confidence_milli == confidence_milli
            &&& final (clip).analyzed == old(clip).analyzed
            &&& final (clip).wf()
        },
        accepted && confidence_milli >= CONFIDENCE_THRESHOLD_MILLI ==> final (warnings)@
            == spec_retract(old(warnings)@, final (clip).name@),
        accepted && confidence_milli < CONFIDENCE_THRESHOLD_MILLI ==> final (warnings)@ == old(
            warnings,
        )@,
{
    if confidence_milli > clip.confidence_milli {
        clip.timeline_offset_samples = delay_samples;
        clip.confidence_milli = confidence_milli;
        if confidence_milli >= CONFIDENCE_THRESHOLD_MILLI {
            let name = clip.name.clone();
            retract_low_confidence(warnings, name.as_str());
        }
        true
    } else {
        false
    }
}

// ---------------------------------------------------------------------------
//  Metadata fallback
// ---------------------------------------------------------------------------

/// Offset estimated from wall-clock metadata: the clip's distance from the
/// reference track's origin, converted to analysis samples with truncation
/// toward zero.
pub open spec fn spec_fallback_offset(ct: int, origin: int) -> int {
    let d = ct - origin;
    if d >= 0 {
        d / (US_PER_SAMPLE as int)
    } else {
        -((-d) / (US_PER_SAMPLE as int))
    }
}

/// Place one still-unplaced clip from wall-clock metadata.  The placement is
/// taken only when the clip is below the confidence threshold, both times
/// exist, and the estimate is not negative; a fallback warning records it.
pub fn apply_metadata_fallback(
    clip: &mut Clip,
    origin_us: Option<i64>,
    warnings: &mut Vec<Warning>,
) -> (applied: bool)
    requires
        old(clip).wf(),
    ensures
        applied == (old(clip).confidence_milli < CONFIDENCE_THRESHOLD_MILLI && old(
            clip,
        ).creation_time_us is Some && origin_us is Some && spec_fallback_offset(
            old(clip).spec_time_or_zero() as int,
            origin_us->0 as int,
        ) >= 0),
        !applied ==> *final (clip) == *old(clip) && final (warnings)@ == old(warnings)@,
        applied ==> {
            &&& same_clip_identity_and_drift(*final (clip), *old(clip))
            &&& final (clip).confidence_milli == old(clip).confidence_milli
            &&& final (clip).analyzed == old(clip).analyzed
            &&& final (clip).timeline_offset_samples == spec_fallback_offset(
                old(clip).spec_time_or_zero() as int,
                origin_us->0 as int,
            )
            &&& 0 <= final (clip).timeline_offset_samples <= OFFSET_LIMIT
            &&& final (clip).wf()
            &&& final (warnings)@ == old(warnings)@.push(
                Warning::MetadataFallback {
                    clip_name: final (clip).name,
                    confidence_milli: final (clip).confidence_milli,
                },
            )
        },
{
    if clip.confidence_milli >= CONFIDENCE_THRESHOLD_MILLI {
        return false;
    }
    let ct: i64 = match &clip.creation_time_us {
        Some(t) => *t,
        None => {
            return false;
        },
    };
    let origin: i64 = match &origin_us {
        Some(o) => *o,
        None => {
            return false;
        },
    };
    let d: i128 = ct as i128 - origin as i128;
    let est: i128 = if d >= 0 {
        ((d as u128) / (US_PER_SAMPLE as u128)) as i128
    } else {
        -((((-d) as u128) / (US_PER_SAMPLE as u128)) as i128)
    };
    if est >= 0 {
        clip.timeline_offset_samples = est;
        warnings.push(
            Warning::MetadataFallback {
                clip_name: clip.name.clone(),
                confidence_milli: clip.confidence_milli,
            },
        );
        true
    } else {
        false
    }
}

// ---------------------------------------------------------------------------
//  Intra-track overlap repair
// ---------------------------------------------------------------------------

/// Bound on every offset after a repair pass, given inputs within
/// `OFFSET_LIMIT`.
pub const REPAIR_OFFSET_BOUND: i128 = 0x40_0000_0000_0000_0000_0000_0000_0000;

/// A sequence's clips all carry offsets within the stated magnitude.
pub open spec fn offsets_within(clips: Seq<Clip>, bound: int) -> bool {
    forall|i: int|
        0 <= i < clips.len() ==> -bound <= (#[trigger] clips[i]).timeline_offset_samples <= bound
}

/// Any element of a sequence with the same multiset as `s` occurs in `s`.
proof fn lemma_perm_element(s: Seq<Clip>, t: Seq<Clip>, i: int)
    requires
        s.to_multiset() == t.to_multiset(),
        0 <= i < t.len(),
    ensures
        exists|j: int| 0 <= j < s.len() && s[j] == t[i],
{
    broadcast use vstd::seq_lib::group_to_multiset_ensures;

    assert(t.contains(t[i]));
    assert(t.to_multiset().count(t[i]) > 0);
    assert(s.to_multiset().count(t[i]) > 0);
    assert(s.contains(t[i]));
    let j = choose|j: int| 0 <= j < s.len() && s[j] == t[i];
    assert(0 <= j < s.len() && s[j] == t[i]);
}

/// Re-place every clip after the anchor: each follows its predecessor
/// after the metadata gap.
fn repair_forward(track: &mut Track, anchor: usize)
    requires
        old(track).wf(),
        anchor < old(track).clips@.len(),
        offsets_within(old(track).clips@, OFFSET_LIMIT as int),
    ensures
        final (track).name == old(track).name,
        final (track).is_reference == old(track).is_reference,
        final (track).clips@.len() == old(track).clips@.len(),
        forall|k: int| 0 <= k <= anchor ==> final (track).clips@[k] == old(track).clips@[k],
        forall|k: int|
            anchor < k < final (track).clips@.len() ==> same_clip_identity_and_drift(
                #[trigger] final (track).clips@[k],
                old(track).clips@[k],
            ) && final (track).clips@[k].confidence_milli == old(track).clips@[k].confidence_milli
                && final (track).clips@[k].analyzed == old(track).clips@[k].analyzed,
        forall|k: int|
            anchor < k < final (track).clips@.len() ==> (#[trigger] final (track).clips@[k]).timeline_offset_samples == final (track).clips@[k
                - 1].timeline_offset_samples + final (track).clips@[k - 1].sample_len
                + spec_gap_samples(old(track).clips@[k - 1], old(track).clips@[k]),
        forall|k: int|
            anchor < k < final (track).clips@.len() ==> final (track).clips@[k
                - 1].timeline_offset_samples + final (track).clips@[k - 1].sample_len
                <= (#[trigger] final (track).clips@[k]).timeline_offset_samples <= OFFSET_LIMIT + (
            k - anchor) * MAX_PLACE_STEP,
        forall|k: int|
            anchor < k < final (track).clips@.len() ==> -OFFSET_LIMIT <= (#[trigger] final (
            track).clips@[k]).timeline_offset_samples,
        final (track).wf(),
{
    let n = track.clips.len();
    let ghost snap: Seq<Clip> = old(track).clips@;
    let mut f: usize = anchor + 1;
    while f < n
        invariant
            track.wf(),
            n == track.clips@.len(),
            n == snap.len(),
            anchor < n,
            anchor + 1 <= f <= n,
            track.name == old(track).name,
            track.is_reference == old(track).is_reference,
            forall|k: int| 0 <= k <= anchor || f <= k < n ==> track.clips@[k] == snap[k],
            forall|k: int| 0 <= k < n ==> (#[trigger] snap[k]).wf(),
            forall|k: int|
                0 <= k < n ==> -OFFSET_LIMIT <= (#[trigger] snap[k]).timeline_offset_samples
                    <= OFFSET_LIMIT,
            forall|k: int|
                anchor < k < f ==> same_clip_identity_and_drift(#[trigger] track.clips@[k], snap[k])
                    && track.clips@[k].confidence_milli == snap[k].confidence_milli
                    && track.clips@[k].analyzed == snap[k].analyzed,
            forall|k: int|
                anchor < k < f ==> (#[trigger] track.clips@[k]).timeline_offset_samples
                    == track.clips@[k - 1].timeline_offset_samples + track.clips@[k
                    - 1].sample_len + spec_gap_samples(snap[k - 1], snap[k]),
            forall|k: int|
                anchor < k < f ==> track.clips@[k - 1].timeline_offset_samples + track.clips@[k
                    - 1].sample_len <= (#[trigger] track.clips@[k]).timeline_offset_samples
                    <= OFFSET_LIMIT + (k - anchor) * MAX_PLACE_STEP,
            forall|k: int|
                anchor < k < f ==> -OFFSET_LIMIT <= (#[trigger] track.clips@[k]).timeline_offset_samples,
        decreases n - f,
    {
        proof {
            assert((f - anchor) * MAX_PLACE_STEP + MAX_PLACE_STEP == (f + 1 - anchor)
                * MAX_PLACE_STEP) by (nonlinear_arith);
            assert((f - anchor) * MAX_PLACE_STEP >= 0) by (nonlinear_arith)
                requires
                    f >= anchor,
            ;
            vstd::arithmetic::div_mod::lemma_div_pos_is_pos(
                spec_gap_us(snap[f - 1], snap[f as int]),
                US_PER_SAMPLE as int,
            );
        }
        let gap: i64 = gap_samples(&track.clips[f - 1], &track.clips[f]);
        let off: i128 = track.clips[f - 1].timeline_offset_samples + track.clips[f
            - 1].sample_len as i128 + gap as i128;
        track.clips[f].timeline_offset_samples = off;
        f = f + 1;
    }
}

/// Re-place every clip before the anchor: each precedes its successor by
/// its own length plus the metadata gap.
#[verifier::rlimit(60)]
fn repair_backward(track: &mut Track, anchor: usize)
    requires
        old(track).wf(),
        anchor < old(track).clips@.len(),
        -OFFSET_LIMIT <= old(track).clips@[anchor as int].timeline_offset_samples <= OFFSET_LIMIT,
    ensures
        final (track).name == old(track).name,
        final (track).is_reference == old(track).is_reference,
        final (track).clips@.len() == old(track).clips@.len(),
        forall|k: int|
            anchor <= k < final (track).clips@.len() ==> final (track).clips@[k] == old(
                track,
            ).clips@[k],
        forall|k: int|
            0 <= k < anchor ==> same_clip_identity_and_drift(
                #[trigger] final (track).clips@[k],
                old(track).clips@[k],
            ) && final (track).clips@[k].confidence_milli == old(track).clips@[k].confidence_milli
                && final (track).clips@[k].analyzed == old(track).clips@[k].analyzed,
        forall|k: int|
            0 <= k < anchor ==> (#[trigger] final (track).clips@[k]).timeline_offset_samples
                == final (track).clips@[k + 1].timeline_offset_samples - final (track).clips@[k].sample_len - spec_gap_samples(old(track).clips@[k], old(track).clips@[k + 1]),
        forall|k: int|
            0 <= k < anchor ==> -OFFSET_LIMIT - (anchor - k) * MAX_PLACE_STEP <= (#[trigger] final (track).clips@[k]).timeline_offset_samples && final (track).clips@[k].timeline_offset_samples + final (track).clips@[k].sample_len
                + spec_gap_samples(old(track).clips@[k], old(track).clips@[k + 1]) == final (track).clips@[k + 1].timeline_offset_samples,
        forall|k: int|
            0 <= k < anchor ==> (#[trigger] final (track).clips@[k]).timeline_offset_samples
                <= OFFSET_LIMIT,
        final (track).wf(),
{
    let n = track.clips.len();
    let ghost snap: Seq<Clip> = old(track).clips@;
    let mut b: usize = anchor;
    while b > 0
        invariant
            track.wf(),
            n == track.clips@.len(),
            n == snap.len(),
            anchor < n,
            b <= anchor,
            track.name == old(track).name,
            track.is_reference == old(track).is_reference,
            forall|k: int| 0 <= k < b || anchor <= k < n ==> track.clips@[k] == snap[k],
            forall|k: int| 0 <= k < n ==> (#[trigger] snap[k]).wf(),
            -OFFSET_LIMIT <= snap[anchor as int].timeline_offset_samples <= OFFSET_LIMIT,
            forall|k: int|
                b <= k < anchor ==> same_clip_identity_and_drift(
                    #[trigger] track.clips@[k],
                    snap[k],
                ) && track.clips@[k].confidence_milli == snap[k].confidence_milli
                    && track.clips@[k].analyzed == snap[k].analyzed,
            forall|k: int|
                b <= k < anchor ==> (#[trigger] track.clips@[k]).timeline_offset_samples
                    == track.clips@[k + 1].timeline_offset_samples - track.clips@[k].sample_len
                    - spec_gap_samples(snap[k], snap[k + 1]),
            forall|k: int|
                b <= k < anchor ==> -OFFSET_LIMIT - (anchor - k) * MAX_PLACE_STEP
                    <= (#[trigger] track.clips@[k]).timeline_offset_samples
                    && track.clips@[k].timeline_offset_samples <= OFFSET_LIMIT,
        decreases b,
    {
        b = b - 1;
        proof {
            assert((anchor - b - 1) * MAX_PLACE_STEP + MAX_PLACE_STEP == (anchor - b)
                * MAX_PLACE_STEP) by (nonlinear_arith);
            assert((anchor - b - 1) * MAX_PLACE_STEP >= 0) by (nonlinear_arith)
                requires
                    b + 1 <= anchor,
            ;
            assert((anchor - b) * MAX_PLACE_STEP >= 0) by (nonlinear_arith)
                requires
                    b <= anchor,
            ;
            vstd::arithmetic::div_mod::lemma_div_pos_is_pos(
                spec_gap_us(snap[b as int], snap[b + 1]),
                US_PER_SAMPLE as int,
            );
        }
        let gap: i64 = gap_samples(&track.clips[b], &track.clips[b + 1]);
        let off: i128 = track.clips[b + 1].timeline_offset_samples - track.clips[b].sample_len
            as i128 - gap as i128;
        track.clips[b].timeline_offset_samples = off;
    }
}

/// The repair anchor: the most confident clip, the last one on ties.
pub open spec fn spec_is_anchor(mid: Seq<Clip>, a: int) -> bool {
    &&& 0 <= a < mid.len()
    &&& forall|j: int|
        0 <= j < mid.len() ==> (#[trigger] mid[j]).confidence_milli <= mid[a].confidence_milli
    &&& forall|j: int|
        a < j < mid.len() ==> (#[trigger] mid[j]).confidence_milli < mid[a].confidence_milli
}

/// The re-sequenced arrangement of the sorted clips `mid` around anchor
/// `a`: every field but the offset is kept, the anchor keeps its offset,
/// each later clip follows its predecessor after the metadata gap, and each
/// earlier clip precedes its successor by its own length plus the gap.
pub open spec fn spec_repaired(mid: Seq<Clip>, fin: Seq<Clip>, a: int) -> bool {
    &&& fin.len() == mid.len()
    &&& forall|i: int|
        0 <= i < fin.len() ==> same_clip_identity_and_drift(#[trigger] fin[i], mid[i]) && fin[i].confidence_milli
            == mid[i].confidence_milli && fin[i].analyzed == mid[i].analyzed
    &&& 0 <= a < fin.len()
    &&& fin[a].timeline_offset_samples == mid[a].timeline_offset_samples
    &&& forall|i: int|
        a < i < fin.len() ==> (#[trigger] fin[i]).timeline_offset_samples == fin[i
            - 1].timeline_offset_samples + fin[i - 1].sample_len + spec_gap_samples(
            mid[i - 1],
            mid[i],
        )
    &&& forall|i: int|
        0 <= i < a ==> (#[trigger] fin[i]).timeline_offset_samples == fin[i
            + 1].timeline_offset_samples - fin[i].sample_len - spec_gap_samples(mid[i], mid[i + 1])
}

/// A repair that re-sequenced the track around anchor `a` and recorded
/// exactly one warning naming it.
pub open spec fn spec_anchored_repair(
    mid: Seq<Clip>,
    fin: Seq<Clip>,
    w_before: Seq<Warning>,
    w_after: Seq<Warning>,
    track_name: String,
    a: int,
) -> bool {
    &&& spec_is_anchor(mid, a)
    &&& spec_repaired(mid, fin, a)
    &&& w_after == w_before.push(
        Warning::OverlapRepaired { track_name, anchor_name: mid[a].name },
    )
}

/// The whole effect of overlap repair, with the sorted arrangement `mid` as
/// witness: `mid` is the clips sorted by creation time; when its
/// consecutive clips are already disjoint nothing else moves and no warning
/// is recorded; otherwise the track is re-sequenced around an anchor with
/// exactly one warning.
pub open spec fn spec_repair_outcome(
    before: Seq<Clip>,
    fin: Seq<Clip>,
    w_before: Seq<Warning>,
    w_after: Seq<Warning>,
    track_name: String,
    mid: Seq<Clip>,
) -> bool {
    &&& mid.to_multiset() == before.to_multiset()
    &&& mid.len() == before.len()
    &&& clips_sorted(mid)
    &&& if non_overlapping_adjacent(mid) {
        fin == mid && w_after == w_before
    } else {
        exists|a: int| spec_anchored_repair(mid, fin, w_before, w_after, track_name, a)
    }
}

/// A single device records sequentially, so clips of one track must never
/// overlap.  The track is re-sorted by creation time; when two consecutive
/// clips overlap, the whole track is re-sequenced around its most confident
/// clip (the anchor): later clips follow their predecessors after the
/// metadata gap, earlier clips precede their successors by their own length
/// plus the gap.  Every resulting pair of consecutive clips is disjoint.
#[verifier::rlimit(100)]
pub fn fix_intra_track_overlaps(track: &mut Track, warnings: &mut Vec<Warning>)
    requires
        old(track).wf(),
        offsets_within(old(track).clips@, OFFSET_LIMIT as int),
    ensures
        final (track).name == old(track).name,
        final (track).is_reference == old(track).is_reference,
        final (track).clips@.len() == old(track).clips@.len(),
        final (track).wf(),
        old(track).clips@.len() >= 2 ==> clips_sorted(final (track).clips@),
        non_overlapping_adjacent(final (track).clips@),
        offsets_within(final (track).clips@, REPAIR_OFFSET_BOUND as int),
        exists|mid: Seq<Clip>|
            spec_repair_outcome(
                old(track).clips@,
                final (track).clips@,
                old(warnings)@,
                final (warnings)@,
                final (track).name,
                mid,
            ),
{
    let n = track.clips.len();
    if n < 2 {
        proof {
            assert(spec_repair_outcome(
                old(track).clips@,
                track.clips@,
                old(warnings)@,
                warnings@,
                track.name,
                track.clips@,
            ));
        }
        return ;
    }
    track.sort_clips_by_time();
    proof {
        assert forall|k: int| 0 <= k < track.clips@.len() implies (#[trigger] track.clips@[k]).wf()
            && -OFFSET_LIMIT <= track.clips@[k].timeline_offset_samples <= OFFSET_LIMIT by {
            lemma_perm_element(old(track).clips@, track.clips@, k);
        }
    }
    // Scan consecutive pairs for overlap.
    let mut has_overlap = false;
    let mut i: usize = 0;
    while i < n - 1 && !has_overlap
        invariant
            n == track.clips@.len(),
            i <= n - 1,
            n >= 2,
            track.wf(),
            offsets_within(track.clips@, OFFSET_LIMIT as int),
            !has_overlap ==> forall|k: int|
                0 <= k < i ==> (#[trigger] track.clips@[k]).spec_end_samples() <= track.clips@[k
                    + 1].timeline_offset_samples,
            has_overlap ==> exists|k: int|
                0 <= k < n - 1 && (#[trigger] track.clips@[k]).spec_end_samples()
                    > track.clips@[k + 1].timeline_offset_samples,
        decreases n - i,
    {
        let end_i: i128 = track.clips[i].timeline_offset_samples
            + track.clips[i].sample_len as i128;
        if end_i > track.clips[i + 1].timeline_offset_samples {
            proof {
                assert((#[trigger] track.clips@[i as int]).spec_end_samples() > track.clips@[i
                    + 1].timeline_offset_samples);
            }
            has_overlap = true;
        }
        i = i + 1;
    }
    if !has_overlap {
        proof {
            assert(REPAIR_OFFSET_BOUND > OFFSET_LIMIT);
            assert(non_overlapping_adjacent(track.clips@));
            assert(spec_repair_outcome(
                old(track).clips@,
                track.clips@,
                old(warnings)@,
                warnings@,
                track.name,
                track.clips@,
            ));
        }
        return ;
    }
    // The clip trusted most anchors the re-sequencing.
    let mut anchor: usize = 0;
    let mut j: usize = 1;
    while j < n
        invariant
            n == track.clips@.len(),
            anchor < j <= n,
            forall|k: int|
                0 <= k < j ==> (#[trigger] track.clips@[k]).confidence_milli
                    <= track.clips@[anchor as int].confidence_milli,
            forall|k: int|
                anchor < k < j ==> (#[trigger] track.clips@[k]).confidence_milli
                    < track.clips@[anchor as int].confidence_milli,
        decreases n - j,
    {
        if track.clips[j].confidence_milli >= track.clips[anchor].confidence_milli {
            anchor = j;
        }
        j = j + 1;
    }
    warnings.push(
        Warning::OverlapRepaired {
            track_name: track.name.clone(),
            anchor_name: track.clips[anchor].name.clone(),
        },
    );
    let ghost sorted: Seq<Clip> = track.clips@;
    repair_forward(track, anchor);
    let ghost mid: Seq<Clip> = track.clips@;
    repair_backward(track, anchor);
    proof {
        let fin = track.clips@;
        assert forall|k: int| 0 <= k < n implies -REPAIR_OFFSET_BOUND <= (#[trigger] fin[k]).timeline_offset_samples
            <= REPAIR_OFFSET_BOUND by {
            if k < anchor {
                assert((anchor - k) * MAX_PLACE_STEP <= 0x1_0000_0000_0000_0000 * MAX_PLACE_STEP)
                    by (nonlinear_arith)
                    requires
                        0 <= anchor - k <= 0x1_0000_0000_0000_0000,
                ;
            } else if k > anchor {
                assert((k - anchor) * MAX_PLACE_STEP <= 0x1_0000_0000_0000_0000 * MAX_PLACE_STEP)
                    by (nonlinear_arith)
                    requires
                        0 <= k - anchor <= 0x1_0000_0000_0000_0000,
                ;
            }
        }
        assert forall|k: int| 0 <= k < fin.len() - 1 implies (#[trigger] fin[k]).spec_end_samples()
            <= fin[k + 1].timeline_offset_samples by {
            if k < anchor {
                vstd::arithmetic::div_mod::lemma_div_pos_is_pos(
                    spec_gap_us(mid[k], mid[k + 1]),
                    US_PER_SAMPLE as int,
                );
            }
        }
        assert forall|a2: int, b2: int| 0 <= a2 < b2 < fin.len() implies clip_le(
            #[trigger] fin[a2],
            #[trigger] fin[b2],
        ) by {
            assert(clip_le(sorted[a2], sorted[b2]));
        }
        // the sorted arrangement still held an overlap, so this run repaired
        assert(!non_overlapping_adjacent(sorted)) by {
            let k = choose|k: int|
                0 <= k < n - 1 && (#[trigger] sorted[k]).spec_end_samples() > sorted[k
                    + 1].timeline_offset_samples;
            assert(0 <= k < sorted.len() - 1 && sorted[k].spec_end_samples() > sorted[k
                + 1].timeline_offset_samples);
        }
        assert(spec_is_anchor(sorted, anchor as int));
        assert(spec_repaired(sorted, fin, anchor as int)) by {
            assert forall|i: int| 0 <= i < fin.len() implies same_clip_identity_and_drift(
                #[trigger] fin[i],
                sorted[i],
            ) && fin[i].confidence_milli == sorted[i].confidence_milli && fin[i].analyzed
                == sorted[i].analyzed by {
                if i >= anchor {
                    assert(fin[i] == mid[i]);
                }
            }
            assert forall|i: int| anchor < i < fin.len() implies (#[trigger] fin[i]).timeline_offset_samples
                == fin[i - 1].timeline_offset_samples + fin[i - 1].sample_len + spec_gap_samples(
                sorted[i - 1],
                sorted[i],
            ) by {
                assert(fin[i] == mid[i]);
                assert(fin[i - 1] == mid[i - 1]);
            }
            assert forall|i: int| 0 <= i < anchor implies (#[trigger] fin[i]).timeline_offset_samples
                == fin[i + 1].timeline_offset_samples - fin[i].sample_len - spec_gap_samples(
                sorted[i],
                sorted[i + 1],
            ) by {
                assert(mid[i] == sorted[i]);
                assert(mid[i + 1] == sorted[i + 1]);
            }
        }
        assert(spec_anchored_repair(
            sorted,
            fin,
            old(warnings)@,
            warnings@,
            track.name,
            anchor as int,
        ));
        assert(spec_repair_outcome(
            old(track).clips@,
            fin,
            old(warnings)@,
            warnings@,
            track.name,
            sorted,
        ));
    }
}

// ---------------------------------------------------------------------------
//  Timeline normalization
// ---------------------------------------------------------------------------

/// Bound on every offset after normalization, given inputs within
/// `REPAIR_OFFSET_BOUND`.
pub const NORMALIZED_OFFSET_BOUND: i128 = 0x100_0000_0000_0000_0000_0000_0000_0000;

/// Every clip offset of every track lies within the given magnitude.
pub open spec fn all_offsets_within(tracks: Seq<Track>, bound: int) -> bool {
    forall|t: int| 0 <= t < tracks.len() ==> offsets_within((#[trigger] tracks[t]).clips@, bound)
}

/// Smallest clip offset of a track, capped above by zero.
pub open spec fn spec_min_offset_clips(clips: Seq<Clip>) -> int
    decreases clips.len(),
{
    if clips.len() == 0 {
        0
    } else {
        let rest = spec_min_offset_clips(clips.drop_last());
        let o = clips.last().timeline_offset_samples as int;
        if o < rest {
            o
        } else {
            rest
        }
    }
}

/// Smallest clip offset across all tracks, capped above by zero.
pub open spec fn spec_min_offset(tracks: Seq<Track>) -> int
    decreases tracks.len(),
{
    if tracks.len() == 0 {
        0
    } else {
        let rest = spec_min_offset(tracks.drop_last());
        let m = spec_min_offset_clips(tracks.last().clips@);
        if m < rest {
            m
        } else {
            rest
        }
    }
}

/// Largest clip end across all tracks, capped below by zero.
pub open spec fn spec_max_end_tracks(tracks: Seq<Track>) -> int
    decreases tracks.len(),
{
    if tracks.len() == 0 {
        0
    } else {
        let rest = spec_max_end_tracks(tracks.drop_last());
        let m = spec_max_end(tracks.last().clips@);
        if m > rest {
            m
        } else {
            rest
        }
    }
}

/// The uniform shift normalization applies: the negated minimum offset when
/// any clip sits before zero, and zero otherwise.
pub open spec fn spec_shift(tracks: Seq<Track>) -> int {
    let m = spec_min_offset(tracks);
    if m < 0 {
        -m
    } else {
        0
    }
}

proof fn lemma_min_offset_clips_le(clips: Seq<Clip>, i: int)
    requires
        0 <= i < clips.len(),
    ensures
        spec_min_offset_clips(clips) <= clips[i].timeline_offset_samples,
        spec_min_offset_clips(clips) <= 0,
    decreases clips.len(),
{
    lemma_min_offset_clips_nonpos(clips);
    if i < clips.len() - 1 {
        lemma_min_offset_clips_le(clips.drop_last(), i);
    }
}

proof fn lemma_min_offset_clips_nonpos(clips: Seq<Clip>)
    ensures
        spec_min_offset_clips(clips) <= 0,
    decreases clips.len(),
{
    if clips.len() > 0 {
        lemma_min_offset_clips_nonpos(clips.drop_last());
    }
}

proof fn lemma_min_offset_le(tracks: Seq<Track>, t: int, i: int)
    requires
        0 <= t < tracks.len(),
        0 <= i < tracks[t].clips@.len(),
    ensures
        spec_min_offset(tracks) <= tracks[t].clips@[i].timeline_offset_samples,
        spec_min_offset(tracks) <= 0,
    decreases tracks.len(),
{
    lemma_min_offset_nonpos(tracks);
    if t == tracks.len() - 1 {
        lemma_min_offset_clips_le(tracks[t].clips@, i);
    } else {
        lemma_min_offset_le(tracks.drop_last(), t, i);
    }
}

proof fn lemma_min_offset_nonpos(tracks: Seq<Track>)
    ensures
        spec_min_offset(tracks) <= 0,
    decreases tracks.len(),
{
    if tracks.len() > 0 {
        lemma_min_offset_nonpos(tracks.drop_last());
        lemma_min_offset_clips_nonpos(tracks.last().clips@);
    }
}

/// The per-track maximum end dominates every clip end and never drops below
/// zero.
pub proof fn lemma_max_end_ge(clips: Seq<Clip>, i: int)
    requires
        0 <= i < clips.len(),
    ensures
        spec_max_end(clips) >= clips[i].spec_end_samples(),
        spec_max_end(clips) >= 0,
    decreases clips.len(),
{
    lemma_max_end_nonneg(clips);
    if i < clips.len() - 1 {
        lemma_max_end_ge(clips.drop_last(), i);
    }
}

pub proof fn lemma_max_end_nonneg(clips: Seq<Clip>)
    ensures
        spec_max_end(clips) >= 0,
    decreases clips.len(),
{
    if clips.len() > 0 {
        lemma_max_end_nonneg(clips.drop_last());
    }
}

/// The global maximum end dominates every clip end and never drops below
/// zero.
pub proof fn lemma_max_end_tracks_ge(tracks: Seq<Track>, t: int, i: int)
    requires
        0 <= t < tracks.len(),
        0 <= i < tracks[t].clips@.len(),
    ensures
        spec_max_end_tracks(tracks) >= tracks[t].clips@[i].spec_end_samples(),
        spec_max_end_tracks(tracks) >= 0,
    decreases tracks.len(),
{
    lemma_max_end_tracks_nonneg(tracks);
    if t == tracks.len() - 1 {
        lemma_max_end_ge(tracks[t].clips@, i);
    } else {
        lemma_max_end_tracks_ge(tracks.drop_last(), t, i);
    }
}

pub proof fn lemma_max_end_tracks_nonneg(tracks: Seq<Track>)
    ensures
        spec_max_end_tracks(tracks) >= 0,
    decreases tracks.len(),
{
    if tracks.len() > 0 {
        lemma_max_end_tracks_nonneg(tracks.drop_last());
        lemma_max_end_nonneg(tracks.last().clips@);
    }
}

/// When some clip end is non-negative, the per-track maximum is achieved by
/// an actual clip.
proof fn lemma_max_end_achieved(clips: Seq<Clip>)
    requires
        exists|i: int| 0 <= i < clips.len() && (#[trigger] clips[i]).spec_end_samples() >= 0,
    ensures
        exists|j: int|
            0 <= j < clips.len() && (#[trigger] clips[j]).spec_end_samples() == spec_max_end(clips),
    decreases clips.len(),
{
    let i = choose|i: int| 0 <= i < clips.len() && (#[trigger] clips[i]).spec_end_samples() >= 0;
    assert(0 <= i < clips.len() && clips[i].spec_end_samples() >= 0);
    if clips.len() == 1 {
        assert(i == 0);
        assert(clips.drop_last().len() == 0);
        assert(spec_max_end(clips.drop_last()) == 0);
        assert(clips[0].spec_end_samples() == spec_max_end(clips));
    } else {
        let last = clips.len() - 1;
        if clips[last].spec_end_samples() == spec_max_end(clips) {
        } else {
            // the maximum comes from the prefix
            if i < last {
                assert(clips.drop_last()[i] == clips[i]);
                assert(0 <= i < clips.drop_last().len() && clips.drop_last()[i].spec_end_samples()
                    >= 0);
                lemma_max_end_achieved(clips.drop_last());
                let j = choose|j: int|
                    0 <= j < clips.drop_last().len() && (#[trigger] clips.drop_last()[j]).spec_end_samples()
                        == spec_max_end(clips.drop_last());
                assert(clips[j].spec_end_samples() == spec_max_end(clips));
            } else {
                // i == last, and the prefix maximum dominates clips[last]
                assert(spec_max_end(clips) == spec_max_end(clips.drop_last()));
                assert(clips[last].spec_end_samples() >= 0);
                lemma_max_end_achieved_nonneg_prefix(clips);
            }
        }
    }
}

/// Helper: when the last end is non-negative but the prefix maximum wins,
/// the prefix maximum is itself achieved.
proof fn lemma_max_end_achieved_nonneg_prefix(clips: Seq<Clip>)
    requires
        clips.len() >= 2,
        clips[clips.len() - 1].spec_end_samples() >= 0,
        spec_max_end(clips) == spec_max_end(clips.drop_last()),
        clips[clips.len() - 1].spec_end_samples() != spec_max_end(clips),
    ensures
        exists|j: int|
            0 <= j < clips.len() && (#[trigger] clips[j]).spec_end_samples() == spec_max_end(clips),
{
    assert(spec_max_end(clips.drop_last()) >= clips[clips.len() - 1].spec_end_samples());
    assert(spec_max_end(clips.drop_last()) >= 0);
    lemma_max_end_achieved_from_positive(clips.drop_last());
    let j = choose|j: int|
        0 <= j < clips.drop_last().len() && (#[trigger] clips.drop_last()[j]).spec_end_samples()
            == spec_max_end(clips.drop_last());
    assert(clips[j].spec_end_samples() == spec_max_end(clips));
}

/// Helper: a strictly positive per-track maximum is achieved by a clip.
proof fn lemma_max_end_achieved_from_positive(clips: Seq<Clip>)
    requires
        spec_max_end(clips) > 0 || (exists|i: int|
            0 <= i < clips.len() && (#[trigger] clips[i]).spec_end_samples() >= 0),
    ensures
        spec_max_end(clips) > 0 ==> exists|j: int|
            0 <= j < clips.len() && (#[trigger] clips[j]).spec_end_samples() == spec_max_end(clips),
    decreases clips.len(),
{
    if clips.len() > 0 && spec_max_end(clips) > 0 {
        let last = clips.len() - 1;
        if clips[last].spec_end_samples() == spec_max_end(clips) {
        } else {
            assert(spec_max_end(clips) == spec_max_end(clips.drop_last()));
            lemma_max_end_achieved_from_positive(clips.drop_last());
            let j = choose|j: int|
                0 <= j < clips.drop_last().len() && (#[trigger] clips.drop_last()[j]).spec_end_samples()
                    == spec_max_end(clips.drop_last());
            assert(clips[j].spec_end_samples() == spec_max_end(clips));
        }
    }
}

/// A bound above every clip end caps the per-track maximum.
proof fn lemma_max_end_le(clips: Seq<Clip>, bound: int)
    requires
        bound >= 0,
        forall|i: int| 0 <= i < clips.len() ==> (#[trigger] clips[i]).spec_end_samples() <= bound,
    ensures
        spec_max_end(clips) <= bound,
    decreases clips.len(),
{
    if clips.len() > 0 {
        lemma_max_end_le(clips.drop_last(), bound);
    }
}

/// A bound above every clip end caps the global maximum.
proof fn lemma_max_end_tracks_le(tracks: Seq<Track>, bound: int)
    requires
        bound >= 0,
        forall|t: int, i: int|
            0 <= t < tracks.len() && 0 <= i < (#[trigger] tracks[t]).clips@.len() ==> (
            #[trigger] tracks[t].clips@[i]).spec_end_samples() <= bound,
    ensures
        spec_max_end_tracks(tracks) <= bound,
    decreases tracks.len(),
{
    if tracks.len() > 0 {
        lemma_max_end_tracks_le(tracks.drop_last(), bound);
        let t = tracks.len() - 1;
        assert(forall|i: int|
            0 <= i < tracks[t].clips@.len() ==> (#[trigger] tracks[t].clips@[i]).spec_end_samples()
                <= bound);
        lemma_max_end_le(tracks[t].clips@, bound);
    }
}

/// When some clip end is non-negative, the global maximum is achieved by an
/// actual clip.
proof fn lemma_max_end_tracks_achieved(tracks: Seq<Track>)
    requires
        exists|t: int, i: int|
            0 <= t < tracks.len() && 0 <= i < (#[trigger] tracks[t]).clips@.len() && (
            #[trigger] tracks[t].clips@[i]).spec_end_samples() >= 0,
    ensures
        exists|t: int, j: int|
            0 <= t < tracks.len() && 0 <= j < (#[trigger] tracks[t]).clips@.len() && (
            #[trigger] tracks[t].clips@[j]).spec_end_samples() == spec_max_end_tracks(tracks),
    decreases tracks.len(),
{
    let (t0, i0) = choose|t: int, i: int|
        0 <= t < tracks.len() && 0 <= i < (#[trigger] tracks[t]).clips@.len() && (
        #[trigger] tracks[t].clips@[i]).spec_end_samples() >= 0;
    let last = tracks.len() - 1;
    let rest = spec_max_end_tracks(tracks.drop_last());
    let m = spec_max_end(tracks[last].clips@);
    if t0 == last {
        if m > rest {
            // the last track wins and has a non-negative end
            lemma_max_end_achieved(tracks[last].clips@);
            let j = choose|j: int|
                0 <= j < tracks[last].clips@.len() && (#[trigger] tracks[last].clips@[j]).spec_end_samples()
                    == spec_max_end(tracks[last].clips@);
            assert(tracks[last].clips@[j].spec_end_samples() == spec_max_end_tracks(tracks));
        } else {
            // the prefix maximum dominates, and it is at least end(t0, i0) >= 0
            lemma_max_end_ge(tracks[last].clips@, i0);
            assert(rest >= 0);
            lemma_max_end_tracks_achieved_positive(tracks.drop_last());
            if rest > 0 {
                let (t1, j1) = choose|t: int, j: int|
                    0 <= t < tracks.drop_last().len() && 0 <= j < (#[trigger] tracks.drop_last()[t]).clips@.len()
                        && (#[trigger] tracks.drop_last()[t].clips@[j]).spec_end_samples()
                        == spec_max_end_tracks(tracks.drop_last());
                assert(tracks[t1].clips@[j1].spec_end_samples() == spec_max_end_tracks(tracks));
            } else {
                // rest == 0 == m's competitor; end(t0, i0) <= m <= rest == 0, so it is 0
                lemma_max_end_ge(tracks[last].clips@, i0);
                assert(tracks[last].clips@[i0].spec_end_samples() == 0);
                assert(spec_max_end_tracks(tracks) == 0);
            }
        }
    } else {
        assert(0 <= t0 < tracks.drop_last().len());
        assert(tracks.drop_last()[t0] == tracks[t0]);
        lemma_max_end_tracks_achieved(tracks.drop_last());
        let (t1, j1) = choose|t: int, j: int|
            0 <= t < tracks.drop_last().len() && 0 <= j < (#[trigger] tracks.drop_last()[t]).clips@.len()
                && (#[trigger] tracks.drop_last()[t].clips@[j]).spec_end_samples()
                == spec_max_end_tracks(tracks.drop_last());
        if rest >= m {
            assert(tracks[t1].clips@[j1].spec_end_samples() == spec_max_end_tracks(tracks));
        } else {
            // the last track wins; its maximum exceeds rest >= end(t1, j1) >= ... >= 0?
            lemma_max_end_tracks_ge(tracks.drop_last(), t0, i0);
            assert(m > rest >= 0);
            lemma_max_end_achieved_from_positive(tracks[last].clips@);
            let j = choose|j: int|
                0 <= j < tracks[last].clips@.len() && (#[trigger] tracks[last].clips@[j]).spec_end_samples()
                    == spec_max_end(tracks[last].clips@);
            assert(tracks[last].clips@[j].spec_end_samples() == spec_max_end_tracks(tracks));
        }
    }
}

/// A strictly positive global maximum is achieved by a clip.
proof fn lemma_max_end_tracks_achieved_positive(tracks: Seq<Track>)
    ensures
        spec_max_end_tracks(tracks) > 0 ==> exists|t: int, j: int|
            0 <= t < tracks.len() && 0 <= j < (#[trigger] tracks[t]).clips@.len() && (
            #[trigger] tracks[t].clips@[j]).spec_end_samples() == spec_max_end_tracks(tracks),
    decreases tracks.len(),
{
    if tracks.len() > 0 && spec_max_end_tracks(tracks) > 0 {
        let last = tracks.len() - 1;
        let rest = spec_max_end_tracks(tracks.drop_last());
        let m = spec_max_end(tracks[last].clips@);
        if m > rest {
            lemma_max_end_achieved_from_positive(tracks[last].clips@);
            let j = choose|j: int|
                0 <= j < tracks[last].clips@.len() && (#[trigger] tracks[last].clips@[j]).spec_end_samples()
                    == spec_max_end(tracks[last].clips@);
            assert(tracks[last].clips@[j].spec_end_samples() == spec_max_end_tracks(tracks));
        } else {
            lemma_max_end_tracks_achieved_positive(tracks.drop_last());
            let (t1, j1) = choose|t: int, j: int|
                0 <= t < tracks.drop_last().len() && 0 <= j < (#[trigger] tracks.drop_last()[t]).clips@.len()
                    && (#[trigger] tracks.drop_last()[t].clips@[j]).spec_end_samples()
                    == spec_max_end_tracks(tracks.drop_last());
            assert(tracks[t1].clips@[j1].spec_end_samples() == spec_max_end_tracks(tracks));
        }
    }
}

/// Smallest offset of one track, capped above by zero.
fn track_min_offset(track: &Track) -> (r: i128)
    requires
        offsets_within(track.clips@, REPAIR_OFFSET_BOUND as int),
    ensures
        r == spec_min_offset_clips(track.clips@),
        -REPAIR_OFFSET_BOUND <= r <= 0,
{
    let mut cur: i128 = 0;
    let mut i: usize = 0;
    while i < track.clips.len()
        invariant
            i <= track.clips@.len(),
            offsets_within(track.clips@, REPAIR_OFFSET_BOUND as int),
            cur == spec_min_offset_clips(track.clips@.take(i as int)),
            -REPAIR_OFFSET_BOUND <= cur <= 0,
        decreases track.clips@.len() - i,
    {
        proof {
            assert(track.clips@.take(i + 1).drop_last() =~= track.clips@.take(i as int));
            assert(track.clips@.take(i + 1).last() == track.clips@[i as int]);
        }
        if track.clips[i].timeline_offset_samples < cur {
            cur = track.clips[i].timeline_offset_samples;
        }
        i = i + 1;
    }
    proof {
        assert(track.clips@.take(track.clips@.len() as int) =~= track.clips@);
    }
    cur
}

/// Largest clip end of one track, capped below by zero.
fn track_max_end(track: &Track) -> (r: i128)
    requires
        track.wf(),
        offsets_within(track.clips@, NORMALIZED_OFFSET_BOUND as int),
    ensures
        r == spec_max_end(track.clips@),
        0 <= r <= NORMALIZED_OFFSET_BOUND + MAX_SAMPLE_LEN,
{
    let mut cur: i128 = 0;
    let mut i: usize = 0;
    while i < track.clips.len()
        invariant
            i <= track.clips@.len(),
            track.wf(),
            offsets_within(track.clips@, NORMALIZED_OFFSET_BOUND as int),
            cur == spec_max_end(track.clips@.take(i as int)),
            0 <= cur <= NORMALIZED_OFFSET_BOUND + MAX_SAMPLE_LEN,
        decreases track.clips@.len() - i,
    {
        proof {
            assert(track.clips@.take(i + 1).drop_last() =~= track.clips@.take(i as int));
            assert(track.clips@.take(i + 1).last() == track.clips@[i as int]);
            assert(track.clips@[i as int].wf());
        }
        let e: i128 = track.clips[i].timeline_offset_samples + track.clips[i].sample_len as i128;
        if e > cur {
            cur = e;
        }
        i = i + 1;
    }
    proof {
        assert(track.clips@.take(track.clips@.len() as int) =~= track.clips@);
    }
    cur
}

/// Move every clip of one track later by a fixed shift.
fn shift_track(track: &mut Track, shift: i128)
    requires
        old(track).wf(),
        offsets_within(old(track).clips@, REPAIR_OFFSET_BOUND as int),
        0 <= shift <= REPAIR_OFFSET_BOUND,
    ensures
        final (track).name == old(track).name,
        final (track).is_reference == old(track).is_reference,
        final (track).clips@.len() == old(track).clips@.len(),
        forall|i: int|
            0 <= i < final (track).clips@.len() ==> same_clip_identity_and_drift(
                #[trigger] final (track).clips@[i],
                old(track).clips@[i],
            ) && final (track).clips@[i].confidence_milli == old(track).clips@[i].confidence_milli
                && final (track).clips@[i].analyzed == old(track).clips@[i].analyzed,
        forall|i: int|
            0 <= i < final (track).clips@.len() ==> (#[trigger] final (track).clips@[i]).timeline_offset_samples
                == old(track).clips@[i].timeline_offset_samples + shift,
        final (track).wf(),
        offsets_within(final (track).clips@, NORMALIZED_OFFSET_BOUND as int),
{
    let n = track.clips.len();
    let mut i: usize = 0;
    while i < n
        invariant
            n == track.clips@.len(),
            n == old(track).clips@.len(),
            i <= n,
            track.name == old(track).name,
            track.is_reference == old(track).is_reference,
            0 <= shift <= REPAIR_OFFSET_BOUND,
            forall|k: int|
                0 <= k < n ==> same_clip_identity_and_drift(#[trigger] track.clips@[k], old(track).clips@[k])
                    && track.clips@[k].confidence_milli == old(track).clips@[k].confidence_milli
                    && track.clips@[k].analyzed == old(track).clips@[k].analyzed,
            forall|k: int|
                0 <= k < i ==> (#[trigger] track.clips@[k]).timeline_offset_samples == old(track).clips@[k].timeline_offset_samples + shift,
            forall|k: int|
                i <= k < n ==> (#[trigger] track.clips@[k]).timeline_offset_samples == old(track).clips@[k].timeline_offset_samples,
            forall|k: int| 0 <= k < n ==> (#[trigger] old(track).clips@[k]).wf(),
            offsets_within(old(track).clips@, REPAIR_OFFSET_BOUND as int),
        decreases n - i,
    {
        proof {
            assert(track.clips@[i as int].timeline_offset_samples == old(track).clips@[i as int].timeline_offset_samples);
            assert(-REPAIR_OFFSET_BOUND <= old(track).clips@[i as int].timeline_offset_samples
                <= REPAIR_OFFSET_BOUND);
        }
        let off: i128 = track.clips[i].timeline_offset_samples + shift;
        track.clips[i].timeline_offset_samples = off;
        i = i + 1;
    }
}

/// Shift the whole timeline so that the earliest clip starts at zero, and
/// return its total length: the largest clip end after the shift.  Nothing
/// moves when no clip sits before zero.
#[verifier::rlimit(60)]
pub fn normalize_timeline(tracks: &mut Vec<Track>) -> (total: i128)
    requires
        tracks_wf(old(tracks)@),
        all_offsets_within(old(tracks)@, REPAIR_OFFSET_BOUND as int),
    ensures
        final (tracks)@.len() == old(tracks)@.len(),
        tracks_wf(final (tracks)@),
        forall|t: int|
            0 <= t < final (tracks)@.len() ==> (#[trigger] final (tracks)@[t]).name == old(tracks)@[t].name
                && final (tracks)@[t].is_reference == old(tracks)@[t].is_reference && final (tracks)@[t].clips@.len()
                == old(tracks)@[t].clips@.len(),
        forall|t: int, i: int|
            0 <= t < final (tracks)@.len() && 0 <= i < (#[trigger] final (tracks)@[t]).clips@.len()
                ==> same_clip_identity_and_drift(
                #[trigger] final (tracks)@[t].clips@[i],
                old(tracks)@[t].clips@[i],
            ) && final (tracks)@[t].clips@[i].confidence_milli
                == old(tracks)@[t].clips@[i].confidence_milli && final (tracks)@[t].clips@[i].analyzed
                == old(tracks)@[t].clips@[i].analyzed,
        forall|t: int, i: int|
            0 <= t < final (tracks)@.len() && 0 <= i < (#[trigger] final (tracks)@[t]).clips@.len()
                ==> (#[trigger] final (tracks)@[t].clips@[i]).timeline_offset_samples
                == old(tracks)@[t].clips@[i].timeline_offset_samples + spec_shift(old(tracks)@),
        forall|t: int, i: int|
            0 <= t < final (tracks)@.len() && 0 <= i < (#[trigger] final (tracks)@[t]).clips@.len()
                ==> (#[trigger] final (tracks)@[t].clips@[i]).timeline_offset_samples >= 0,
        total == spec_max_end_tracks(old(tracks)@) + spec_shift(old(tracks)@),
        (exists|t: int, i: int|
            0 <= t < old(tracks)@.len() && 0 <= i < (#[trigger] old(tracks)@[t]).clips@.len() && (
            #[trigger] old(tracks)@[t].clips@[i]).spec_end_samples() >= 0) ==> total
            == spec_max_end_tracks(final (tracks)@),
        all_offsets_within(final (tracks)@, NORMALIZED_OFFSET_BOUND as int),
        total >= 0,
{
    let n = tracks.len();
    // Find the earliest offset (never above zero).
    let mut min_off: i128 = 0;
    let mut t: usize = 0;
    while t < n
        invariant
            n == tracks@.len(),
            t <= n,
            tracks_wf(tracks@),
            all_offsets_within(tracks@, REPAIR_OFFSET_BOUND as int),
            min_off == spec_min_offset(tracks@.take(t as int)),
            -REPAIR_OFFSET_BOUND <= min_off <= 0,
        decreases n - t,
    {
        proof {
            assert(tracks@.take(t + 1).drop_last() =~= tracks@.take(t as int));
            assert(tracks@.take(t + 1).last() == tracks@[t as int]);
            assert(tracks@[t as int].wf());
        }
        let m = track_min_offset(&tracks[t]);
        if m < min_off {
            min_off = m;
        }
        t = t + 1;
    }
    proof {
        assert(tracks@.take(n as int) =~= tracks@);
    }
    let shift: i128 = if min_off < 0 {
        -min_off
    } else {
        0
    };
    // The farthest clip end before the shift.
    let mut max_end: i128 = 0;
    let mut t3: usize = 0;
    while t3 < n
        invariant
            n == tracks@.len(),
            t3 <= n,
            tracks_wf(tracks@),
            all_offsets_within(tracks@, REPAIR_OFFSET_BOUND as int),
            max_end == spec_max_end_tracks(tracks@.take(t3 as int)),
            0 <= max_end <= NORMALIZED_OFFSET_BOUND + MAX_SAMPLE_LEN,
        decreases n - t3,
    {
        proof {
            assert(tracks@.take(t3 + 1).drop_last() =~= tracks@.take(t3 as int));
            assert(tracks@.take(t3 + 1).last() == tracks@[t3 as int]);
            assert(tracks@[t3 as int].wf());
            assert(offsets_within(tracks@[t3 as int].clips@, NORMALIZED_OFFSET_BOUND as int));
        }
        let m = track_max_end(&tracks[t3]);
        if m > max_end {
            max_end = m;
        }
        t3 = t3 + 1;
    }
    proof {
        assert(tracks@.take(n as int) =~= tracks@);
    }
    let total: i128 = max_end + shift;
    let ghost before: Seq<Track> = tracks@;
    // Apply the shift.
    if shift > 0 {
        let mut t2: usize = 0;
        while t2 < n
            invariant
                n == tracks@.len(),
                n == before.len(),
                t2 <= n,
                0 < shift <= REPAIR_OFFSET_BOUND,
                before == old(tracks)@,
                forall|k: int| t2 <= k < n ==> tracks@[k] == before[k],
                forall|k: int|
                    0 <= k < t2 ==> (#[trigger] tracks@[k]).name == before[k].name && tracks@[k].is_reference
                        == before[k].is_reference && tracks@[k].clips@.len() == before[k].clips@.len(),
                forall|k: int, i: int|
                    0 <= k < t2 && 0 <= i < (#[trigger] tracks@[k]).clips@.len()
                        ==> same_clip_identity_and_drift(
                        #[trigger] tracks@[k].clips@[i],
                        before[k].clips@[i],
                    ) && tracks@[k].clips@[i].confidence_milli == before[k].clips@[i].confidence_milli
                        && tracks@[k].clips@[i].analyzed == before[k].clips@[i].analyzed,
                forall|k: int, i: int|
                    0 <= k < t2 && 0 <= i < (#[trigger] tracks@[k]).clips@.len()
                        ==> (#[trigger] tracks@[k].clips@[i]).timeline_offset_samples
                        == before[k].clips@[i].timeline_offset_samples + shift,
                forall|k: int| 0 <= k < t2 ==> (#[trigger] tracks@[k]).wf() && offsets_within(
                    tracks@[k].clips@,
                    NORMALIZED_OFFSET_BOUND as int,
                ),
                tracks_wf(before),
                all_offsets_within(before, REPAIR_OFFSET_BOUND as int),
            decreases n - t2,
        {
            proof {
                assert(tracks@[t2 as int] == before[t2 as int]);
                assert(before[t2 as int].wf());
                assert(offsets_within(before[t2 as int].clips@, REPAIR_OFFSET_BOUND as int));
            }
            shift_track(&mut tracks[t2], shift);
            t2 = t2 + 1;
        }
    }
    proof {
        let sh = spec_shift(old(tracks)@);
        // When some clip end was already non-negative, the total equals
        // the farthest clip end of the normalized timeline.
        if exists|t: int, i: int|
            0 <= t < old(tracks)@.len() && 0 <= i < (#[trigger] old(tracks)@[t]).clips@.len() && (
            #[trigger] old(tracks)@[t].clips@[i]).spec_end_samples() >= 0 {
            lemma_max_end_tracks_achieved(old(tracks)@);
            let (ta, ja) = choose|t: int, j: int|
                0 <= t < old(tracks)@.len() && 0 <= j < (#[trigger] old(tracks)@[t]).clips@.len()
                    && (#[trigger] old(tracks)@[t].clips@[j]).spec_end_samples()
                    == spec_max_end_tracks(old(tracks)@);
            assert(tracks@[ta].clips@[ja].spec_end_samples() == spec_max_end_tracks(old(tracks)@)
                + sh);
            lemma_max_end_tracks_ge(tracks@, ta, ja);
            assert forall|t: int, i: int|
                0 <= t < tracks@.len() && 0 <= i < (#[trigger] tracks@[t]).clips@.len() implies (
            #[trigger] tracks@[t].clips@[i]).spec_end_samples() <= spec_max_end_tracks(old(tracks)@)
                + sh by {
                lemma_max_end_tracks_ge(old(tracks)@, t, i);
            }
            lemma_max_end_tracks_le(tracks@, spec_max_end_tracks(old(tracks)@) + sh);
        }
        // every final offset is at least zero
        assert forall|t: int, i: int|
            0 <= t < tracks@.len() && 0 <= i < (#[trigger] tracks@[t]).clips@.len() implies (
        #[trigger] tracks@[t].clips@[i]).timeline_offset_samples >= 0 by {
            lemma_min_offset_le(old(tracks)@, t, i);
        }
    }
    total
}

// ---------------------------------------------------------------------------
//  Clock drift bookkeeping
// ---------------------------------------------------------------------------

/// Whether a clip is long enough and placed, so that drift can be measured.
pub fn drift_eligible(clip: &Clip) -> (r: bool)
    ensures
        r == (clip.analyzed && clip.duration_us >= MIN_DRIFT_OVERLAP_US),
{
    clip.analyzed && clip.duration_us >= MIN_DRIFT_OVERLAP_US
}

/// Record one drift measurement.  It is accepted exactly when the fit is
/// strong (R-squared above one half) and the drift magnitude exceeds the
/// configured threshold; otherwise the clip keeps its previous state.
pub fn apply_drift_measurement(
    clip: &mut Clip,
    ppm_milli: i64,
    r2_milli: u64,
    threshold_ppm_milli: i64,
) -> (accepted: bool)
    requires
        old(clip).wf(),
        -i64::MAX <= ppm_milli,
    ensures
        accepted == (r2_milli > DRIFT_R2_ACCEPT_MILLI && (if ppm_milli >= 0 {
            ppm_milli as int
        } else {
            -ppm_milli as int
        }) > threshold_ppm_milli),
        !accepted ==> *final (clip) == *old(clip),
        accepted ==> {
            &&& same_clip_identity(*final (clip), *old(clip))
            &&& final (clip).timeline_offset_samples == old(clip).timeline_offset_samples
            &&& final (clip).confidence_milli == old(clip).confidence_milli
            &&& final (clip).analyzed == old(clip).analyzed
            &&& final (clip).drift_ppm_milli == ppm_milli
            &&& final (clip).drift_r2_milli == r2_milli
            &&& final (clip).drift_corrected == old(clip).drift_corrected
            &&& final (clip).wf()
        },
{
    let mag: i64 = if ppm_milli >= 0 {
        ppm_milli
    } else {
        -ppm_milli
    };
    if r2_milli > DRIFT_R2_ACCEPT_MILLI && mag > threshold_ppm_milli {
        clip.drift_ppm_milli = ppm_milli;
        clip.drift_r2_milli = r2_milli;
        true
    } else {
        false
    }
}

/// A clip that carries a usable direct drift measurement.
pub open spec fn spec_drift_candidate(c: Clip) -> bool {
    c.drift_ppm_milli != 0 && c.drift_r2_milli > DRIFT_R2_ACCEPT_MILLI
}

/// A clip that never got a measurement of its own.
pub open spec fn spec_drift_blank(c: Clip) -> bool {
    c.drift_ppm_milli == 0 && c.drift_r2_milli == 0
}

/// How inheritance rewrites one track: when some clip carries a usable
/// measurement, the one with the strongest fit (the last such clip on ties)
/// lends its figures to every clip that has none; otherwise nothing moves.
pub open spec fn spec_inherited(before: Seq<Clip>, after: Seq<Clip>) -> bool {
    if exists|i: int| 0 <= i < before.len() && spec_drift_candidate(#[trigger] before[i]) {
        exists|b: int|
            {
                &&& 0 <= b < before.len()
                &&& spec_drift_candidate(#[trigger] before[b])
                &&& forall|j: int|
                    0 <= j < before.len() && spec_drift_candidate(#[trigger] before[j])
                        ==> before[j].drift_r2_milli <= before[b].drift_r2_milli
                &&& forall|j: int|
                    b < j < before.len() && spec_drift_candidate(#[trigger] before[j])
                        ==> before[j].drift_r2_milli < before[b].drift_r2_milli
                &&& forall|i: int|
                    0 <= i < before.len() ==> #[trigger] after[i] == (if spec_drift_blank(
                        before[i],
                    ) {
                        Clip {
                            drift_ppm_milli: before[b].drift_ppm_milli,
                            drift_r2_milli: before[b].drift_r2_milli,
                            ..before[i]
                        }
                    } else {
                        before[i]
                    })
            }
    } else {
        after == before
    }
}

/// Lend the strongest drift measurement of one track to its unmeasured
/// clips.
fn inherit_drift_track(track: &mut Track)
    ensures
        final (track).name == old(track).name,
        final (track).is_reference == old(track).is_reference,
        final (track).clips@.len() == old(track).clips@.len(),
        spec_inherited(old(track).clips@, final (track).clips@),
{
    let n = track.clips.len();
    let mut best: usize = 0;
    let mut found = false;
    let mut i: usize = 0;
    while i < n
        invariant
            n == track.clips@.len(),
            i <= n,
            !found ==> forall|k: int|
                0 <= k < i ==> !spec_drift_candidate(#[trigger] track.clips@[k]),
            found ==> {
                &&& best < i
                &&& spec_drift_candidate(track.clips@[best as int])
                &&& forall|k: int|
                    0 <= k < i && spec_drift_candidate(#[trigger] track.clips@[k])
                        ==> track.clips@[k].drift_r2_milli
                        <= track.clips@[best as int].drift_r2_milli
                &&& forall|k: int|
                    best < k < i && spec_drift_candidate(#[trigger] track.clips@[k])
                        ==> track.clips@[k].drift_r2_milli
                        < track.clips@[best as int].drift_r2_milli
            },
        decreases n - i,
    {
        let cand = track.clips[i].drift_ppm_milli != 0 && track.clips[i].drift_r2_milli
            > DRIFT_R2_ACCEPT_MILLI;
        if cand && (!found || track.clips[i].drift_r2_milli
            >= track.clips[best].drift_r2_milli) {
            best = i;
            found = true;
        }
        i = i + 1;
    }
    if !found {
        return ;
    }
    let ppm: i64 = track.clips[best].drift_ppm_milli;
    let r2: u64 = track.clips[best].drift_r2_milli;
    let ghost pre: Seq<Clip> = track.clips@;
    let mut k: usize = 0;
    while k < n
        invariant
            n == track.clips@.len(),
            n == pre.len(),
            k <= n,
            best < n,
            track.name == old(track).name,
            track.is_reference == old(track).is_reference,
            ppm == pre[best as int].drift_ppm_milli,
            r2 == pre[best as int].drift_r2_milli,
            forall|j: int| k <= j < n ==> track.clips@[j] == pre[j],
            forall|j: int|
                0 <= j < k ==> #[trigger] track.clips@[j] == (if spec_drift_blank(pre[j]) {
                    Clip { drift_ppm_milli: ppm, drift_r2_milli: r2, ..pre[j] }
                } else {
                    pre[j]
                }),
        decreases n - k,
    {
        let blank = track.clips[k].drift_ppm_milli == 0 && track.clips[k].drift_r2_milli == 0;
        if blank {
            track.clips[k].drift_ppm_milli = ppm;
            track.clips[k].drift_r2_milli = r2;
        }
        k = k + 1;
    }
}

/// After drift was detected anywhere, let short clips of each non-reference
/// track inherit their device's strongest measured drift: a device's clips
/// share one clock.
pub fn inherit_drift_for_short_clips(tracks: &mut Vec<Track>, ref_idx: usize)
    requires
        ref_idx < old(tracks)@.len(),
    ensures
        final (tracks)@.len() == old(tracks)@.len(),
        final (tracks)@[ref_idx as int] == old(tracks)@[ref_idx as int],
        forall|t: int|
            0 <= t < final (tracks)@.len() && t != ref_idx ==> {
                &&& (#[trigger] final (tracks)@[t]).name == old(tracks)@[t].name
                &&& final (tracks)@[t].is_reference == old(tracks)@[t].is_reference
                &&& final (tracks)@[t].clips@.len() == old(tracks)@[t].clips@.len()
                &&& spec_inherited(old(tracks)@[t].clips@, final (tracks)@[t].clips@)
            },
{
    let n = tracks.len();
    let mut t: usize = 0;
    while t < n
        invariant
            n == tracks@.len(),
            n == old(tracks)@.len(),
            t <= n,
            ref_idx < n,
            forall|k: int| t <= k < n ==> tracks@[k] == old(tracks)@[k],
            tracks@[ref_idx as int] == old(tracks)@[ref_idx as int],
            forall|k: int|
                0 <= k < t && k != ref_idx ==> {
                    &&& (#[trigger] tracks@[k]).name == old(tracks)@[k].name
                    &&& tracks@[k].is_reference == old(tracks)@[k].is_reference
                    &&& tracks@[k].clips@.len() == old(tracks)@[k].clips@.len()
                    &&& spec_inherited(old(tracks)@[k].clips@, tracks@[k].clips@)
                },
        decreases n - t,
    {
        if t != ref_idx {
            inherit_drift_track(&mut tracks[t]);
        }
        t = t + 1;
    }
}

// ---------------------------------------------------------------------------
//  Result assembly
// ---------------------------------------------------------------------------

/// The `(file_path, offset)` entries of one track's clips, in order.
pub open spec fn spec_track_entries(clips: Seq<Clip>) -> Seq<(String, i128)> {
    clips.map_values(|c: Clip| (c.file_path, c.timeline_offset_samples))
}

/// All tracks' entries, concatenated in track order.
pub open spec fn spec_offset_entries(tracks: Seq<Track>) -> Seq<(String, i128)>
    decreases tracks.len(),
{
    if tracks.len() == 0 {
        Seq::<(String, i128)>::empty()
    } else {
        spec_offset_entries(tracks.drop_last()) + spec_track_entries(tracks.last().clips@)
    }
}

/// Collect the final per-clip offsets, one entry per clip in track order.
pub fn collect_clip_offsets(tracks: &Vec<Track>) -> (r: Vec<(String, i128)>)
    ensures
        r@ == spec_offset_entries(tracks@),
{
    let mut out: Vec<(String, i128)> = Vec::new();
    let n = tracks.len();
    let mut t: usize = 0;
    while t < n
        invariant
            n == tracks@.len(),
            t <= n,
            out@ == spec_offset_entries(tracks@.take(t as int)),
        decreases n - t,
    {
        let m = tracks[t].clips.len();
        let mut i: usize = 0;
        while i < m
            invariant
                n == tracks@.len(),
                t < n,
                m == tracks@[t as int].clips@.len(),
                i <= m,
                out@ == spec_offset_entries(tracks@.take(t as int)) + spec_track_entries(
                    tracks@[t as int].clips@.take(i as int),
                ),
            decreases m - i,
        {
            out.push(
                (
                    tracks[t].clips[i].file_path.clone(),
                    tracks[t].clips[i].timeline_offset_samples,
                ),
            );
            proof {
                assert(spec_track_entries(tracks@[t as int].clips@.take(i + 1))
                    =~= spec_track_entries(tracks@[t as int].clips@.take(i as int)).push(
                    (
                        tracks@[t as int].clips@[i as int].file_path,
                        tracks@[t as int].clips@[i as int].timeline_offset_samples,
                    ),
                ));
            }
            i = i + 1;
        }
        proof {
            assert(tracks@[t as int].clips@.take(m as int) =~= tracks@[t as int].clips@);
            assert(tracks@.take(t + 1).drop_last() =~= tracks@.take(t as int));
            assert(tracks@.take(t + 1).last() == tracks@[t as int]);
        }
        t = t + 1;
    }
    proof {
        assert(tracks@.take(n as int) =~= tracks@);
    }
    out
}

/// Sum of recorded confidences.
pub open spec fn spec_sum_conf(s: Seq<u64>) -> int
    decreases s.len(),
{
    if s.len() == 0 {
        0
    } else {
        spec_sum_conf(s.drop_last()) + s.last()
    }
}

/// Mean recorded confidence in milli-units, zero when nothing was recorded;
/// the integer quotient of the sum by the count.
pub fn average_confidence(confidences: &Vec<u64>) -> (r: u64)
    requires
        forall|i: int| 0 <= i < confidences@.len() ==> #[trigger] confidences@[i] <= MAX_CONFIDENCE_MILLI,
    ensures
        confidences@.len() == 0 ==> r == 0,
        confidences@.len() > 0 ==> r == spec_sum_conf(confidences@) / (confidences@.len() as int),
{
    let n = confidences.len();
    if n == 0 {
        return 0;
    }
    let mut sum: u128 = 0;
    let mut i: usize = 0;
    while i < n
        invariant
            n == confidences@.len(),
            i <= n,
            forall|k: int| 0 <= k < n ==> #[trigger] confidences@[k] <= MAX_CONFIDENCE_MILLI,
            sum == spec_sum_conf(confidences@.take(i as int)),
            sum <= (i as int) * (MAX_CONFIDENCE_MILLI as int),
        decreases n - i,
    {
        proof {
            assert(confidences@.take(i + 1).drop_last() =~= confidences@.take(i as int));
            assert(confidences@.take(i + 1).last() == confidences@[i as int]);
            assert((i as int) * (MAX_CONFIDENCE_MILLI as int) + MAX_CONFIDENCE_MILLI == (i + 1)
                * (MAX_CONFIDENCE_MILLI as int)) by (nonlinear_arith);
            assert((i + 1) * (MAX_CONFIDENCE_MILLI as int) <= 0x1_0000_0000_0000_0000 * (
            MAX_CONFIDENCE_MILLI as int)) by (nonlinear_arith)
                requires
                    0 <= i + 1 <= 0x1_0000_0000_0000_0000,
            ;
        }
        sum = sum + confidences[i] as u128;
        i = i + 1;
    }
    proof {
        assert(confidences@.take(n as int) =~= confidences@);
        assert(sum / (n as u128) <= sum) by (nonlinear_arith)
            requires
                n as u128 >= 1,
        ;
        vstd::arithmetic::div_mod::lemma_div_is_ordered_by_denominator(
            sum as int,
            1,
            n as int,
        );
        assert(sum as int / (n as int) <= MAX_CONFIDENCE_MILLI * 0x1_0000_0000_0000_0000);
    }
    let avg: u128 = sum / (n as u128);
    proof {
        vstd::arithmetic::div_mod::lemma_div_nonincreasing(sum as int, n as int);
        assert(avg <= sum);
        assert(avg <= u64::MAX) by {
            vstd::arithmetic::div_mod::lemma_div_is_ordered(
                sum as int,
                (n as int) * (MAX_CONFIDENCE_MILLI as int),
                n as int,
            );
            vstd::arithmetic::div_mod::lemma_div_by_multiple(
                MAX_CONFIDENCE_MILLI as int,
                n as int,
            );
        }
    }
    avg as u64
}

/// Assemble the analysis result record.  The offsets are handed in as
/// collected right after normalization: the later drift phase re-lays the
/// reference buffer, and the result must keep the normalized placements.
pub fn build_sync_result(
    reference_track_index: usize,
    total_timeline_samples: i128,
    clip_offsets: Vec<(String, i128)>,
    confidences: &Vec<u64>,
    warnings: Vec<Warning>,
    drift_detected: bool,
) -> (r: SyncResult)
    requires
        forall|i: int|
            0 <= i < confidences@.len() ==> #[trigger] confidences@[i] <= MAX_CONFIDENCE_MILLI,
    ensures
        r.reference_track_index == reference_track_index,
        r.total_timeline_samples == total_timeline_samples,
        r.sample_rate == ANALYSIS_SR,
        r.clip_offsets == clip_offsets,
        confidences@.len() == 0 ==> r.avg_confidence_milli == 0,
        confidences@.len() > 0 ==> r.avg_confidence_milli == spec_sum_conf(confidences@) / (
        confidences@.len() as int),
        r.drift_detected == drift_detected,
        r.warnings == warnings,
{
    let avg_confidence_milli = average_confidence(confidences);
    SyncResult {
        reference_track_index,
        total_timeline_samples,
        sample_rate: ANALYSIS_SR,
        clip_offsets,
        avg_confidence_milli,
        drift_detected,
        warnings,
    }
}

/// Total duration of well-formed clips is bounded by count times the
/// per-clip maximum.
pub proof fn lemma_total_duration_bound(clips: Seq<Clip>)
    requires
        forall|i: int| 0 <= i < clips.len() ==> (#[trigger] clips[i]).wf(),
    ensures
        0 <= Track::spec_total_duration_us(clips) <= clips.len() * MAX_DURATION_US,
    decreases clips.len(),
{
    if clips.len() > 0 {
        lemma_total_duration_bound(clips.drop_last());
        assert(clips.last().wf());
        assert((clips.len() - 1) * MAX_DURATION_US + MAX_DURATION_US == clips.len()
            * MAX_DURATION_US) by (nonlinear_arith);
    }
}

} // verus!
