//! Timeline text formats: the helpers and documents for edit-list export.

use crate::files::char_is_alphanumeric;
use crate::files::spec_is_alphanumeric;
use crate::models::Clip;
use crate::models::SyncResult;
use crate::models::Track;
use crate::models::US_PER_SAMPLE;
use crate::stitch::spec_round_div;
use crate::text::dec_rep;
use crate::text::dec_rep_pad;
use crate::text::push_char;
use crate::text::u128_to_dec;
use crate::text::u64_to_dec;
use crate::text::u64_to_dec_pad;
use vstd::prelude::*;
use vstd::string::StrSliceExecFns;
use vstd::string::StringExecFns;

verus! {

// ---------------------------------------------------------------------------
//  XML escaping
// ---------------------------------------------------------------------------

/// The replacement text for one character in XML attribute or text content.
pub open spec fn spec_escape_char(c: char) -> Seq<char> {
    if c == '&' {
        "&amp;"@
    } else if c == '<' {
        "&lt;"@
    } else if c == '>' {
        "&gt;"@
    } else if c == '"' {
        "&quot;"@
    } else if c == '\'' {
        "&apos;"@
    } else {
        seq![c]
    }
}

/// A sequence with the five XML-special characters replaced by entities.
pub open spec fn spec_escape_xml(s: Seq<char>) -> Seq<char>
    decreases s.len(),
{
    if s.len() == 0 {
        Seq::<char>::empty()
    } else {
        spec_escape_xml(s.drop_last()) + spec_escape_char(s.last())
    }
}

/// Escape the five XML-special characters.
pub fn escape_xml(s: &str) -> (r: String)
    ensures
        r@ == spec_escape_xml(s@),
{
    let len = s.unicode_len();
    let mut out = String::new();
    let mut i: usize = 0;
    while i < len
        invariant
            i <= len,
            len == s@.len(),
            out@ == spec_escape_xml(s@.take(i as int)),
        decreases len - i,
    {
        let c = s.get_char(i);
        proof {
            assert(s@.take(i + 1).drop_last() =~= s@.take(i as int));
            assert(s@.take(i + 1).last() == s@[i as int]);
        }
        let u = c as u32;
        if u == 38 {
            proof {
                assert(c == '&');
            }
            out.append("&amp;");
        } else if u == 60 {
            proof {
                assert(c == '<');
            }
            out.append("&lt;");
        } else if u == 62 {
            proof {
                assert(c == '>');
            }
            out.append("&gt;");
        } else if u == 34 {
            proof {
                assert(c == '"');
            }
            out.append("&quot;");
        } else if u == 39 {
            proof {
                assert(c == '\'');
            }
            out.append("&apos;");
        } else {
            push_char(&mut out, c);
            proof {
                assert(c != '&' && c != '<' && c != '>' && c != '"' && c != '\'');
                assert(spec_escape_char(c) =~= seq![c]);
                assert(out@ =~= spec_escape_xml(s@.take(i as int)) + spec_escape_char(c));
            }
        }
        i = i + 1;
    }
    proof {
        assert(s@.take(len as int) =~= s@);
    }
    out
}

// ---------------------------------------------------------------------------
//  EDL reel names
// ---------------------------------------------------------------------------

/// A character a reel name keeps: alphanumeric or underscore.
pub open spec fn spec_reel_char(c: char) -> bool {
    spec_is_alphanumeric(c) || c == '_'
}

/// The kept characters of a name, in order.
pub open spec fn spec_reel_kept(s: Seq<char>) -> Seq<char>
    decreases s.len(),
{
    if s.len() == 0 {
        Seq::<char>::empty()
    } else {
        let rest = spec_reel_kept(s.drop_last());
        if spec_reel_char(s.last()) {
            rest.push(s.last())
        } else {
            rest
        }
    }
}

/// The sanitized reel name: the first eight kept characters, or `AX` when
/// nothing survives.
pub open spec fn spec_reel(s: Seq<char>) -> Seq<char> {
    let kept = spec_reel_kept(s);
    if kept.len() == 0 {
        "AX"@
    } else if kept.len() <= 8 {
        kept
    } else {
        kept.take(8)
    }
}

/// Sanitize a clip name for an EDL reel column: alphanumerics and
/// underscores only, at most eight characters, `AX` when empty.
pub fn sanitize_edl_reel(name: &str) -> (r: String)
    ensures
        r@ == spec_reel(name@),
{
    let len = name.unicode_len();
    let mut kept = String::new();
    let mut i: usize = 0;
    while i < len
        invariant
            i <= len,
            len == name@.len(),
            kept@ == spec_reel_kept(name@.take(i as int)),
        decreases len - i,
    {
        let c = name.get_char(i);
        proof {
            assert(name@.take(i + 1).drop_last() =~= name@.take(i as int));
            assert(name@.take(i + 1).last() == name@[i as int]);
            assert('_' as u32 == 95);
            assert(c as u32 == 95 ==> c == '_');
        }
        if char_is_alphanumeric(c) || c as u32 == 95 {
            push_char(&mut kept, c);
        }
        i = i + 1;
    }
    proof {
        assert(name@.take(len as int) =~= name@);
    }
    let klen = kept.as_str().unicode_len();
    if klen == 0 {
        String::from_str("AX")
    } else if klen <= 8 {
        kept
    } else {
        let r = kept.as_str().substring_char(0, 8).to_owned();
        proof {
            assert(r@ =~= kept@.take(8));
        }
        r
    }
}

// ---------------------------------------------------------------------------
//  Numbers as timeline text
// ---------------------------------------------------------------------------

/// Microseconds rendered as seconds with six decimals.
pub open spec fn spec_seconds6(us: int) -> Seq<char> {
    dec_rep((us / 1_000_000) as nat) + seq!['.'] + dec_rep_pad((us % 1_000_000) as nat, 6)
}

/// Render a non-negative microsecond count as seconds with six decimals.
pub fn format_seconds6(us: i128) -> (r: String)
    requires
        0 <= us,
    ensures
        r@ == spec_seconds6(us as int),
{
    let whole: u128 = (us as u128) / 1_000_000;
    let frac: u64 = ((us as u128) % 1_000_000) as u64;
    let mut s = u128_to_dec(whole);
    push_char(&mut s, '.');
    let f = u64_to_dec_pad(frac, 6);
    s.append(f.as_str());
    proof {
        assert(s@ =~= spec_seconds6(us as int));
    }
    s
}

/// A milli-unit quantity rendered with one decimal, as confidence figures
/// appear in reports.
pub open spec fn spec_milli1(m: int) -> Seq<char> {
    dec_rep((m / 1000) as nat) + seq!['.'] + dec_rep_pad(((m % 1000) / 100) as nat, 1)
}

/// Render a non-negative milli-unit value with one decimal digit.
pub fn format_milli1(m: u64) -> (r: String)
    ensures
        r@ == spec_milli1(m as int),
{
    let whole: u64 = m / 1000;
    let tenth: u64 = (m % 1000) / 100;
    let mut s = u64_to_dec(whole);
    push_char(&mut s, '.');
    let f = u64_to_dec_pad(tenth, 1);
    s.append(f.as_str());
    proof {
        assert(s@ =~= spec_milli1(m as int));
    }
    s
}

/// The standard timecode text `HH:MM:SS:FF` of a non-negative microsecond
/// instant at the given frame rate (in milli-frames per second): frames are
/// counted at the exact rate, then grouped by the rounded rate.
pub open spec fn spec_timecode(us: int, fps_milli: int) -> Seq<char> {
    let total_frames = spec_round_div(us * fps_milli, 1_000_000_000);
    let fps_r = spec_round_div(fps_milli, 1000);
    let frames = total_frames % fps_r;
    let total_seconds = total_frames / fps_r;
    let secs = total_seconds % 60;
    let mins = (total_seconds / 60) % 60;
    let hours = total_seconds / 3600;
    dec_rep_pad(hours as nat, 2) + seq![':'] + dec_rep_pad(mins as nat, 2) + seq![':']
        + dec_rep_pad(secs as nat, 2) + seq![':'] + dec_rep_pad(frames as nat, 2)
}

/// Render a non-negative microsecond instant as `HH:MM:SS:FF`.
pub fn seconds_to_timecode(us: i64, fps_milli: u32) -> (r: String)
    requires
        0 <= us,
        500 <= fps_milli <= 1_000_000,
    ensures
        r@ == spec_timecode(us as int, fps_milli as int),
{
    proof {
        assert(0 <= (us as int) * (fps_milli as int) <= 0x8000_0000_0000_0000 * 0x10_0000)
            by (nonlinear_arith)
            requires
                0 <= us as int <= 0x8000_0000_0000_0000,
                0 <= fps_milli as int <= 0x10_0000,
        ;
    }
    let prod: u128 = (us as u128) * (fps_milli as u128);
    let total_frames: u128 = (2 * prod + 1_000_000_000) / (2 * 1_000_000_000);
    let fps_r: u64 = ((2 * (fps_milli as u64) + 1000) / 2000);
    proof {
        assert(total_frames as int == spec_round_div(
            (us as int) * (fps_milli as int),
            1_000_000_000,
        ));
        assert(fps_r as int == spec_round_div(fps_milli as int, 1000));
        assert(fps_r >= 1);
    }
    let frames: u128 = total_frames % (fps_r as u128);
    let total_seconds: u128 = total_frames / (fps_r as u128);
    let secs: u128 = total_seconds % 60;
    let mins: u128 = (total_seconds / 60) % 60;
    let hours: u128 = total_seconds / 3600;
    proof {
        vstd::arithmetic::div_mod::lemma_multiply_divide_lt(
            2 * (prod as int) + 1_000_000_000,
            2int * 1_000_000_000,
            0x1_0000_0000_0000_0000,
        );
        vstd::arithmetic::div_mod::lemma_div_nonincreasing(total_frames as int, fps_r as int);
        vstd::arithmetic::div_mod::lemma_div_nonincreasing(total_seconds as int, 3600);
        vstd::arithmetic::div_mod::lemma_mod_division_less_than_divisor(
            total_frames as int,
            fps_r as int,
        );
        assert(hours < 0x1_0000_0000_0000_0000);
        assert(frames < 0x1_0000_0000_0000_0000);
    }
    let mut s = u64_to_dec_pad(hours as u64, 2);
    push_char(&mut s, ':');
    let p1 = u64_to_dec_pad(mins as u64, 2);
    s.append(p1.as_str());
    push_char(&mut s, ':');
    let p2 = u64_to_dec_pad(secs as u64, 2);
    s.append(p2.as_str());
    push_char(&mut s, ':');
    let p3 = u64_to_dec_pad(frames as u64, 2);
    s.append(p3.as_str());
    proof {
        assert(s@ =~= spec_timecode(us as int, fps_milli as int));
    }
    s
}

// ---------------------------------------------------------------------------
//  EDL (CMX 3600)
// ---------------------------------------------------------------------------

/// EDL frame rate in milli-frames per second (29.97 fps non-drop).
pub const EDL_FPS_MILLI: u32 = 29_970;

/// A signed milli-unit value rendered with two decimals, rounding the
/// thousandths to the nearest hundredth.
pub open spec fn spec_milli2_signed(m: int) -> Seq<char> {
    let a = if m >= 0 {
        m
    } else {
        -m
    };
    let h = spec_round_div(a, 10);
    let digits = dec_rep((h / 100) as nat) + seq!['.'] + dec_rep_pad((h % 100) as nat, 2);
    if m < 0 {
        seq!['-'] + digits
    } else {
        digits
    }
}

/// A milli-unit fraction rendered with three decimals.
pub open spec fn spec_milli3(m: int) -> Seq<char> {
    dec_rep((m / 1000) as nat) + seq!['.'] + dec_rep_pad((m % 1000) as nat, 3)
}

/// Render a signed milli-unit value with two decimals.
pub fn format_milli2_signed(m: i64) -> (r: String)
    requires
        -i64::MAX <= m,
    ensures
        r@ == spec_milli2_signed(m as int),
{
    let a: u64 = if m >= 0 {
        m as u64
    } else {
        (-m) as u64
    };
    let h: u64 = (2 * (a as u64) / 10 + 1) / 2;
    proof {
        assert(h as int == spec_round_div(a as int, 10)) by {
            assert((2 * (a as int) + 10) / 20 == (2 * (a as int) / 10 + 1) / 2) by (nonlinear_arith);
        };
    }
    let mut s = String::new();
    if m < 0 {
        push_char(&mut s, '-');
    }
    let w = u64_to_dec(h / 100);
    s.append(w.as_str());
    push_char(&mut s, '.');
    let f = u64_to_dec_pad(h % 100, 2);
    s.append(f.as_str());
    proof {
        assert(s@ =~= spec_milli2_signed(m as int));
    }
    s
}

/// Render a milli-unit fraction with three decimals.
pub fn format_milli3(m: u64) -> (r: String)
    ensures
        r@ == spec_milli3(m as int),
{
    let mut s = u64_to_dec(m / 1000);
    push_char(&mut s, '.');
    let f = u64_to_dec_pad(m % 1000, 3);
    s.append(f.as_str());
    proof {
        assert(s@ =~= spec_milli3(m as int));
    }
    s
}

/// The event line of one EDL event, preceded by its separating blank line.
pub open spec fn spec_edl_event_line(c: Clip, num: nat) -> Seq<char> {
    let off_us = c.timeline_offset_samples * (US_PER_SAMPLE as int);
    seq!['\n'] + seq!['\n'] + dec_rep_pad(num, 3) + "  "@ + spec_reel(c.name@)
        + " AA/V  C        "@ + "00:00:00:00"@ + " "@ + spec_timecode(
        c.duration_us as int,
        EDL_FPS_MILLI as int,
    ) + " "@ + spec_timecode(off_us, EDL_FPS_MILLI as int) + " "@ + spec_timecode(
        off_us + c.duration_us,
        EDL_FPS_MILLI as int,
    )
}

/// The comment lines of one EDL event: clip name, source file, and a drift
/// note for clips with noticeable measured drift.
pub open spec fn spec_edl_comments(c: Clip) -> Seq<char> {
    let base = seq!['\n'] + "* FROM CLIP NAME: "@ + c.name@ + seq!['\n'] + "* SOURCE FILE: "@
        + c.file_path@;
    if c.drift_ppm_milli > 100 || c.drift_ppm_milli < -100 {
        base + seq!['\n'] + "* DRIFT: "@ + spec_milli2_signed(c.drift_ppm_milli as int)
            + " ppm (R\u{b2}="@ + spec_milli3(c.drift_r2_milli as int) + ")"@
    } else {
        base
    }
}

/// The whole text of one EDL event.
pub open spec fn spec_edl_block(c: Clip, num: nat) -> Seq<char> {
    spec_edl_event_line(c, num) + spec_edl_comments(c)
}

/// The blocks of a clip sequence, numbered from `start`.
pub open spec fn spec_edl_blocks(clips: Seq<Clip>, start: nat) -> Seq<char>
    decreases clips.len(),
{
    if clips.len() == 0 {
        Seq::<char>::empty()
    } else {
        spec_edl_blocks(clips.drop_last(), start) + spec_edl_block(
            clips.last(),
            (start + clips.len() - 1) as nat,
        )
    }
}

/// The number of clips across a track sequence.
pub open spec fn spec_clip_count(tracks: Seq<Track>) -> nat
    decreases tracks.len(),
{
    if tracks.len() == 0 {
        0
    } else {
        spec_clip_count(tracks.drop_last()) + tracks.last().clips@.len()
    }
}

/// The blocks of every clip of every track, numbered from `start` in track
/// order.
pub open spec fn spec_edl_tracks(tracks: Seq<Track>, start: nat) -> Seq<char>
    decreases tracks.len(),
{
    if tracks.len() == 0 {
        Seq::<char>::empty()
    } else {
        spec_edl_tracks(tracks.drop_last(), start) + spec_edl_blocks(
            tracks.last().clips@,
            start + spec_clip_count(tracks.drop_last()),
        )
    }
}

/// The whole CMX 3600 document for the given tracks and title.
pub open spec fn spec_edl(tracks: Seq<Track>, title: Seq<char>) -> Seq<char> {
    "TITLE: "@ + title + seq!['\n'] + "FCM: NON-DROP FRAME"@ + spec_edl_tracks(tracks, 1)
        + seq!['\n']
}

/// Whether every clip's placement is small enough for timecode rendering.
pub open spec fn spec_edl_renderable(tracks: Seq<Track>) -> bool {
    forall|t: int, i: int|
        0 <= t < tracks.len() && 0 <= i < (#[trigger] tracks[t]).clips@.len() ==> {
            let c = #[trigger] tracks[t].clips@[i];
            &&& 0 <= c.timeline_offset_samples <= 0x4000_0000_0000
            &&& -i64::MAX <= c.drift_ppm_milli
        }
}

/// The event line of one EDL event, executable.
fn edl_event_line(c: &Clip, num: u64) -> (r: String)
    requires
        c.wf(),
        0 <= c.timeline_offset_samples <= 0x4000_0000_0000,
    ensures
        r@ == spec_edl_event_line(*c, num as nat),
{
    proof {
        assert(0 <= c.timeline_offset_samples * (US_PER_SAMPLE as int) <= 0x4000_0000_0000int
            * 125) by (nonlinear_arith)
            requires
                0 <= c.timeline_offset_samples <= 0x4000_0000_0000,
        ;
    }
    let off_us: i64 = (c.timeline_offset_samples * (US_PER_SAMPLE as i128)) as i64;
    let mut s = String::new();
    push_char(&mut s, '\n');
    push_char(&mut s, '\n');
    let p = u64_to_dec_pad(num, 3);
    s.append(p.as_str());
    s.append("  ");
    let reel = sanitize_edl_reel(c.name.as_str());
    s.append(reel.as_str());
    s.append(" AA/V  C        ");
    s.append("00:00:00:00");
    s.append(" ");
    let t1 = seconds_to_timecode(c.duration_us, EDL_FPS_MILLI);
    s.append(t1.as_str());
    s.append(" ");
    let t2 = seconds_to_timecode(off_us, EDL_FPS_MILLI);
    s.append(t2.as_str());
    s.append(" ");
    let t3 = seconds_to_timecode(off_us + c.duration_us, EDL_FPS_MILLI);
    s.append(t3.as_str());
    proof {
        assert(s@ =~= spec_edl_event_line(*c, num as nat));
    }
    s
}

/// The comment lines of one EDL event, executable.
fn edl_comments(c: &Clip) -> (r: String)
    requires
        -i64::MAX <= c.drift_ppm_milli,
    ensures
        r@ == spec_edl_comments(*c),
{
    let mut s = String::new();
    push_char(&mut s, '\n');
    s.append("* FROM CLIP NAME: ");
    s.append(c.name.as_str());
    push_char(&mut s, '\n');
    s.append("* SOURCE FILE: ");
    s.append(c.file_path.as_str());
    if c.drift_ppm_milli > 100 || c.drift_ppm_milli < -100 {
        push_char(&mut s, '\n');
        s.append("* DRIFT: ");
        let d = format_milli2_signed(c.drift_ppm_milli);
        s.append(d.as_str());
        s.append(" ppm (R\u{b2}=");
        let q = format_milli3(c.drift_r2_milli);
        s.append(q.as_str());
        s.append(")");
    }
    proof {
        assert(s@ =~= spec_edl_comments(*c));
    }
    s
}

/// One EDL event block, executable.
fn edl_block(c: &Clip, num: u64) -> (r: String)
    requires
        c.wf(),
        0 <= c.timeline_offset_samples <= 0x4000_0000_0000,
        -i64::MAX <= c.drift_ppm_milli,
    ensures
        r@ == spec_edl_block(*c, num as nat),
{
    let mut s = edl_event_line(c, num);
    let tail = edl_comments(c);
    s.append(tail.as_str());
    s
}

/// Generate a CMX 3600 edit list: a title header and one numbered event
/// per clip, in track order, with source and record timecodes at 29.97 fps
/// non-drop.
#[verifier::rlimit(100)]
pub fn export_edl(tracks: &Vec<Track>, title: &str) -> (r: String)
    requires
        tracks_wf_timeline(tracks@),
        spec_edl_renderable(tracks@),
        spec_clip_count(tracks@) + 1 <= u64::MAX,
    ensures
        r@ == spec_edl(tracks@, title@),
{
    let mut s = String::from_str("TITLE: ");
    s.append(title);
    push_char(&mut s, '\n');
    s.append("FCM: NON-DROP FRAME");
    let n = tracks.len();
    let mut num: u64 = 1;
    let mut t: usize = 0;
    while t < n
        invariant
            n == tracks@.len(),
            t <= n,
            tracks_wf_timeline(tracks@),
            spec_edl_renderable(tracks@),
            spec_clip_count(tracks@) + 1 <= u64::MAX,
            num == 1 + spec_clip_count(tracks@.take(t as int)),
            s@ == "TITLE: "@ + title@ + seq!['\n'] + "FCM: NON-DROP FRAME"@ + spec_edl_tracks(
                tracks@.take(t as int),
                1,
            ),
        decreases n - t,
    {
        proof {
            lemma_clip_count_prefix(tracks@, t as int);
        }
        let m = tracks[t].clips.len();
        let mut i: usize = 0;
        while i < m
            invariant
                n == tracks@.len(),
                t < n,
                m == tracks@[t as int].clips@.len(),
                i <= m,
                tracks_wf_timeline(tracks@),
                spec_edl_renderable(tracks@),
                spec_clip_count(tracks@) + 1 <= u64::MAX,
                num == 1 + spec_clip_count(tracks@.take(t as int)) + i,
                spec_clip_count(tracks@.take(t as int)) + m <= spec_clip_count(tracks@),
                s@ == "TITLE: "@ + title@ + seq!['\n'] + "FCM: NON-DROP FRAME"@
                    + spec_edl_tracks(tracks@.take(t as int), 1) + spec_edl_blocks(
                    tracks@[t as int].clips@.take(i as int),
                    (1 + spec_clip_count(tracks@.take(t as int))) as nat,
                ),
            decreases m - i,
        {
            proof {
                assert(tracks@[t as int].clips@.take(i + 1).drop_last() =~= tracks@[t as int].clips@.take(i as int));
                assert(tracks@[t as int].clips@.take(i + 1).last() == tracks@[t as int].clips@[i as int]);
                assert(tracks@[t as int].wf());
                assert(tracks@[t as int].clips@[i as int].wf());
            }
            let b = edl_block(&tracks[t].clips[i], num);
            s.append(b.as_str());
            num = num + 1;
            i = i + 1;
        }
        proof {
            assert(tracks@[t as int].clips@.take(m as int) =~= tracks@[t as int].clips@);
            assert(tracks@.take(t + 1).drop_last() =~= tracks@.take(t as int));
            assert(tracks@.take(t + 1).last() == tracks@[t as int]);
        }
        t = t + 1;
    }
    proof {
        assert(tracks@.take(n as int) =~= tracks@);
    }
    push_char(&mut s, '\n');
    s
}

/// Every track of the sequence is well formed (timeline-module alias).
pub open spec fn tracks_wf_timeline(tracks: Seq<Track>) -> bool {
    forall|t: int| 0 <= t < tracks.len() ==> (#[trigger] tracks[t]).wf()
}

/// A prefix never counts more clips than the whole.
proof fn lemma_clip_count_prefix(tracks: Seq<Track>, t: int)
    requires
        0 <= t < tracks.len(),
    ensures
        spec_clip_count(tracks.take(t)) + tracks[t].clips@.len() <= spec_clip_count(tracks),
        spec_clip_count(tracks.take(t + 1)) == spec_clip_count(tracks.take(t))
            + tracks[t].clips@.len(),
    decreases tracks.len(),
{
    assert(tracks.take(t + 1).drop_last() =~= tracks.take(t));
    assert(tracks.take(t + 1).last() == tracks[t]);
    if t + 1 == tracks.len() {
        assert(tracks.take(t + 1) =~= tracks);
    } else {
        lemma_clip_count_prefix2(tracks, t + 1);
    }
}

/// Clip counts grow along prefixes.
proof fn lemma_clip_count_prefix2(tracks: Seq<Track>, t: int)
    requires
        0 <= t <= tracks.len(),
    ensures
        spec_clip_count(tracks.take(t)) <= spec_clip_count(tracks),
    decreases tracks.len() - t,
{
    if t == tracks.len() {
        assert(tracks.take(t) =~= tracks);
    } else {
        assert(tracks.take(t + 1).drop_last() =~= tracks.take(t));
        assert(tracks.take(t + 1).last() == tracks[t]);
        lemma_clip_count_prefix2(tracks, t + 1);
    }
}

// ---------------------------------------------------------------------------
//  FCPXML v1.11
// ---------------------------------------------------------------------------

/// One clip as the FCPXML spine sees it: placement in microseconds, its
/// asset id, and its display name.
pub struct PlacedEntry {
    pub off_us: i128,
    pub dur_us: i64,
    pub aid: u64,
    pub name: String,
}

/// The placed entry of one clip, given its asset id.
pub open spec fn spec_entry_of(c: Clip, aid: int) -> PlacedEntry {
    PlacedEntry {
        off_us: (c.timeline_offset_samples * (US_PER_SAMPLE as int)) as i128,
        dur_us: c.duration_us,
        aid: aid as u64,
        name: c.name,
    }
}

/// The entries of a clip sequence, with asset ids counted from `base`.
pub open spec fn spec_entries_of(clips: Seq<Clip>, base: int) -> Seq<PlacedEntry> {
    Seq::new(clips.len(), |i: int| spec_entry_of(clips[i], base + i))
}

/// One `asset` resource line.
pub open spec fn spec_fcp_asset(c: Clip, aid: int) -> Seq<char> {
    "    <asset id=\"r"@ + dec_rep(aid as nat) + "\" name=\""@ + spec_escape_xml(c.name@)
        + "\" src=\"file://"@ + spec_escape_xml(c.file_path@) + "\" start=\"0s\" duration=\""@
        + spec_seconds6(c.duration_us as int) + "s\" hasAudio=\"1\"/>\n"@
}

/// The asset lines of one clip sequence.
pub open spec fn spec_fcp_assets_clips(clips: Seq<Clip>, base: int) -> Seq<char>
    decreases clips.len(),
{
    if clips.len() == 0 {
        Seq::<char>::empty()
    } else {
        spec_fcp_assets_clips(clips.drop_last(), base) + spec_fcp_asset(
            clips.last(),
            base + clips.len() - 1,
        )
    }
}

/// The asset lines of every track, ids counted from 2 in track order.
pub open spec fn spec_fcp_assets(tracks: Seq<Track>, base: int) -> Seq<char>
    decreases tracks.len(),
{
    if tracks.len() == 0 {
        Seq::<char>::empty()
    } else {
        spec_fcp_assets(tracks.drop_last(), base) + spec_fcp_assets_clips(
            tracks.last().clips@,
            base + spec_clip_count(tracks.drop_last()),
        )
    }
}

/// One gap element of the primary storyline.
pub open spec fn spec_fcp_gap(offset_us: int, dur_us: int) -> Seq<char> {
    "            <gap name=\"Gap\" offset=\""@ + spec_seconds6(offset_us) + "s\" duration=\""@
        + spec_seconds6(dur_us) + "s\" start=\"3600s\"/>\n"@
}

/// One primary asset-clip element.
pub open spec fn spec_fcp_primary_clip(e: PlacedEntry) -> Seq<char> {
    "            <asset-clip ref=\"r"@ + dec_rep(e.aid as nat) + "\" name=\""@ + spec_escape_xml(
        e.name@,
    ) + "\" offset=\""@ + spec_seconds6(e.off_us as int) + "s\" duration=\""@ + spec_seconds6(
        e.dur_us as int,
    ) + "s\" start=\"0s\"/>\n"@
}

/// The primary storyline: gap elements fill dead time before each clip.
pub open spec fn spec_fcp_primary(entries: Seq<PlacedEntry>, cursor: int) -> Seq<char>
    decreases entries.len(),
{
    if entries.len() == 0 {
        Seq::<char>::empty()
    } else {
        let e = entries.first();
        let gap = if e.off_us > cursor + 1000 {
            spec_fcp_gap(cursor, e.off_us - cursor)
        } else {
            Seq::<char>::empty()
        };
        gap + spec_fcp_primary_clip(e) + spec_fcp_primary(
            entries.drop_first(),
            e.off_us + e.dur_us,
        )
    }
}

/// Where the primary storyline's cursor ends.
pub open spec fn spec_fcp_cursor_end(entries: Seq<PlacedEntry>, cursor: int) -> int
    decreases entries.len(),
{
    if entries.len() == 0 {
        cursor
    } else {
        spec_fcp_cursor_end(
            entries.drop_first(),
            entries.first().off_us + entries.first().dur_us,
        )
    }
}

/// One connected asset-clip element on a higher lane.
pub open spec fn spec_fcp_connected_clip(e: PlacedEntry, lane: int) -> Seq<char> {
    "            <asset-clip ref=\"r"@ + dec_rep(e.aid as nat) + "\" name=\""@ + spec_escape_xml(
        e.name@,
    ) + "\" offset=\""@ + spec_seconds6(e.off_us as int) + "s\" duration=\""@ + spec_seconds6(
        e.dur_us as int,
    ) + "s\" start=\"0s\" lane=\""@ + dec_rep(lane as nat) + "\"/>\n"@
}

/// The connected clips of one track, in clip order.
pub open spec fn spec_fcp_connected_clips(clips: Seq<Clip>, base: int, lane: int) -> Seq<char>
    decreases clips.len(),
{
    if clips.len() == 0 {
        Seq::<char>::empty()
    } else {
        spec_fcp_connected_clips(clips.drop_last(), base, lane) + spec_fcp_connected_clip(
            spec_entry_of(clips.last(), base + clips.len() - 1),
            lane,
        )
    }
}

/// The connected clips of every non-primary track, lanes numbered by track.
pub open spec fn spec_fcp_connected(tracks: Seq<Track>, base: int) -> Seq<char>
    decreases tracks.len(),
{
    if tracks.len() <= 1 {
        Seq::<char>::empty()
    } else {
        spec_fcp_connected(tracks.drop_last(), base) + spec_fcp_connected_clips(
            tracks.last().clips@,
            base + spec_clip_count(tracks.drop_last()),
            tracks.len() - 1,
        )
    }
}

/// The document's fixed head through the opening of the spine.
pub open spec fn spec_fcp_head(tracks: Seq<Track>, name: Seq<char>, total_us: int) -> Seq<char> {
    "<?xml version=\"1.0\" encoding=\"UTF-8\"?>\n<!DOCTYPE fcpxml>\n<fcpxml version=\"1.11\">\n  <resources>\n    <format id=\"r1\" name=\"FFVideoFormatRateUndefined\" frameDuration=\"1001/30000s\" width=\"1920\" height=\"1080\"/>\n"@
        + spec_fcp_assets(tracks, 2) + "  </resources>\n  <library>\n    <event name=\""@
        + spec_escape_xml(name) + "\">\n      <project name=\""@ + spec_escape_xml(name)
        + "\">\n        <sequence format=\"r1\" duration=\""@ + spec_seconds6(total_us)
        + "s\" tcStart=\"0s\" tcFormat=\"NDF\">\n          <spine>\n"@
}

/// The document's fixed tail after the spine's contents.
pub open spec fn spec_fcp_tail() -> Seq<char> {
    "          </spine>\n        </sequence>\n      </project>\n    </event>\n  </library>\n</fcpxml>\n"@
}

/// The whole document, given the primary storyline already ordered.
pub open spec fn spec_fcpxml(
    tracks: Seq<Track>,
    name: Seq<char>,
    total_us: int,
    primary: Seq<PlacedEntry>,
) -> Seq<char> {
    let cursor = spec_fcp_cursor_end(primary, 0);
    let trailing = if cursor < total_us - 1000 {
        spec_fcp_gap(cursor, total_us - cursor)
    } else {
        Seq::<char>::empty()
    };
    spec_fcp_head(tracks, name, total_us) + spec_fcp_primary(primary, 0) + trailing
        + spec_fcp_connected(tracks, 2) + spec_fcp_tail()
}

/// Entries are ordered by their placement.
pub open spec fn entries_sorted(s: Seq<PlacedEntry>) -> bool {
    forall|i: int, j: int| 0 <= i < j < s.len() ==> (#[trigger] s[i]).off_us <= (#[trigger] s[j]).off_us
}

/// Any element of a sequence with the same multiset occurs in the other.
proof fn lemma_perm_entry(s: Seq<PlacedEntry>, t: Seq<PlacedEntry>, i: int)
    requires
        s.to_multiset() == t.to_multiset(),
        0 <= i < t.len(),
    ensures
        exists|j: int| 0 <= j < s.len() && s[j] == t[i],
{
    broadcast use vstd::seq_lib::group_to_multiset_ensures;

    assert(t.contains(t[i]));
    assert(t.to_multiset().count(t[i]) > 0);
    assert(s.to_multiset().count(t[i]) > 0);
    assert(s.contains(t[i]));
    let j = choose|j: int| 0 <= j < s.len() && s[j] == t[i];
    assert(0 <= j < s.len() && s[j] == t[i]);
}

/// Order spine entries by placement (earliest first).
fn sort_entries_by_offset(v: &mut Vec<PlacedEntry>)
    ensures
        final (v)@.len() == old(v)@.len(),
        final (v)@.to_multiset() == old(v)@.to_multiset(),
        entries_sorted(final (v)@),
{
    broadcast use vstd::seq_lib::group_to_multiset_ensures;
    broadcast use vstd::multiset::group_multiset_axioms;

    let ghost orig: Seq<PlacedEntry> = v@;
    let mut out: Vec<PlacedEntry> = Vec::new();
    while v.len() > 0
        invariant
            out@.to_multiset().add(v@.to_multiset()) =~= orig.to_multiset(),
            out@.len() + v@.len() == orig.len(),
            entries_sorted(out@),
            forall|a: int, b: int|
                0 <= a < out@.len() && 0 <= b < v@.len() ==> (#[trigger] out@[a]).off_us
                    <= (#[trigger] v@[b]).off_us,
        decreases v@.len(),
    {
        let mut min_i: usize = 0;
        let mut i: usize = 1;
        while i < v.len()
            invariant
                min_i < i <= v@.len(),
                v@.len() > 0,
                forall|k: int| 0 <= k < i ==> (#[trigger] v@[k]).off_us >= v@[min_i as int].off_us,
            decreases v@.len() - i,
        {
            if v[i].off_us < v[min_i].off_us {
                min_i = i;
            }
            i = i + 1;
        }
        let ghost pre: Seq<PlacedEntry> = v@;
        let m = v.remove(min_i);
        out.push(m);
        proof {
            broadcast use vstd::seq_lib::group_to_multiset_ensures;
            broadcast use vstd::multiset::group_multiset_axioms;

            assert(pre.remove(min_i as int).to_multiset() =~= pre.to_multiset().remove(m));
            assert(out@.to_multiset().add(v@.to_multiset()) =~= orig.to_multiset());
            assert forall|a: int, b: int|
                0 <= a < out@.len() && 0 <= b < v@.len() implies (#[trigger] out@[a]).off_us <= (
            #[trigger] v@[b]).off_us by {
                let x = v@[b];
                if b < min_i {
                    assert(x == pre[b]);
                } else {
                    assert(x == pre[b + 1]);
                }
                assert(m.off_us <= x.off_us);
            }
            assert(entries_sorted(out@));
        }
    }
    *v = out;
}

/// One asset resource line, executable.
fn fcp_asset_line(c: &Clip, aid: u64) -> (r: String)
    requires
        c.wf(),
    ensures
        r@ == spec_fcp_asset(*c, aid as int),
{
    let mut s = String::from_str("    <asset id=\"r");
    let a = u64_to_dec(aid);
    s.append(a.as_str());
    s.append("\" name=\"");
    let n = escape_xml(c.name.as_str());
    s.append(n.as_str());
    s.append("\" src=\"file://");
    let p = escape_xml(c.file_path.as_str());
    s.append(p.as_str());
    s.append("\" start=\"0s\" duration=\"");
    let d = format_seconds6(c.duration_us as i128);
    s.append(d.as_str());
    s.append("s\" hasAudio=\"1\"/>\n");
    proof {
        assert(s@ =~= spec_fcp_asset(*c, aid as int));
    }
    s
}

/// One gap element, executable.
fn fcp_gap_line(offset_us: i128, dur_us: i128) -> (r: String)
    requires
        0 <= offset_us,
        0 <= dur_us,
    ensures
        r@ == spec_fcp_gap(offset_us as int, dur_us as int),
{
    let mut s = String::from_str("            <gap name=\"Gap\" offset=\"");
    let o = format_seconds6(offset_us);
    s.append(o.as_str());
    s.append("s\" duration=\"");
    let d = format_seconds6(dur_us);
    s.append(d.as_str());
    s.append("s\" start=\"3600s\"/>\n");
    proof {
        assert(s@ =~= spec_fcp_gap(offset_us as int, dur_us as int));
    }
    s
}

/// One primary asset-clip element, executable.
fn fcp_primary_clip_line(e: &PlacedEntry) -> (r: String)
    requires
        0 <= e.off_us,
        0 <= e.dur_us,
    ensures
        r@ == spec_fcp_primary_clip(*e),
{
    let mut s = String::from_str("            <asset-clip ref=\"r");
    let a = u64_to_dec(e.aid);
    s.append(a.as_str());
    s.append("\" name=\"");
    let n = escape_xml(e.name.as_str());
    s.append(n.as_str());
    s.append("\" offset=\"");
    let o = format_seconds6(e.off_us);
    s.append(o.as_str());
    s.append("s\" duration=\"");
    let d = format_seconds6(e.dur_us as i128);
    s.append(d.as_str());
    s.append("s\" start=\"0s\"/>\n");
    proof {
        assert(s@ =~= spec_fcp_primary_clip(*e));
    }
    s
}

/// One connected asset-clip element, executable.
fn fcp_connected_clip_line(e: &PlacedEntry, lane: u64) -> (r: String)
    requires
        0 <= e.off_us,
        0 <= e.dur_us,
    ensures
        r@ == spec_fcp_connected_clip(*e, lane as int),
{
    let mut s = String::from_str("            <asset-clip ref=\"r");
    let a = u64_to_dec(e.aid);
    s.append(a.as_str());
    s.append("\" name=\"");
    let n = escape_xml(e.name.as_str());
    s.append(n.as_str());
    s.append("\" offset=\"");
    let o = format_seconds6(e.off_us);
    s.append(o.as_str());
    s.append("s\" duration=\"");
    let d = format_seconds6(e.dur_us as i128);
    s.append(d.as_str());
    s.append("s\" start=\"0s\" lane=\"");
    let l = u64_to_dec(lane);
    s.append(l.as_str());
    s.append("\"/>\n");
    proof {
        assert(s@ =~= spec_fcp_connected_clip(*e, lane as int));
    }
    s
}

/// Generate an FCPXML v1.11 document: one asset per clip, a primary
/// storyline from the first track's clips in placement order with gap
/// elements filling dead time, and every other track's clips connected on
/// its own lane.
#[verifier::rlimit(100)]
pub fn export_fcpxml(tracks: &Vec<Track>, total_timeline_samples: i128, project_name: &str) -> (r:
    String)
    requires
        tracks_wf_timeline(tracks@),
        spec_edl_renderable(tracks@),
        spec_clip_count(tracks@) + 2 <= u64::MAX,
        0 <= total_timeline_samples <= 0x4000_0000_0000,
    ensures
        exists|primary: Seq<PlacedEntry>|
            {
                &&& entries_sorted(primary)
                &&& primary.to_multiset() == spec_entries_of(
                    if tracks@.len() > 0 {
                        tracks@[0].clips@
                    } else {
                        Seq::<Clip>::empty()
                    },
                    2,
                ).to_multiset()
                &&& r@ == spec_fcpxml(
                    tracks@,
                    project_name@,
                    total_timeline_samples * (US_PER_SAMPLE as int),
                    primary,
                )
            },
{
    proof {
        assert(0 <= total_timeline_samples * (US_PER_SAMPLE as int) <= 0x4000_0000_0000int * 125)
            by (nonlinear_arith)
            requires
                0 <= total_timeline_samples <= 0x4000_0000_0000,
        ;
    }
    let total_us: i128 = total_timeline_samples * (US_PER_SAMPLE as i128);
    let n = tracks.len();
    let mut s = String::from_str(
        "<?xml version=\"1.0\" encoding=\"UTF-8\"?>\n<!DOCTYPE fcpxml>\n<fcpxml version=\"1.11\">\n  <resources>\n    <format id=\"r1\" name=\"FFVideoFormatRateUndefined\" frameDuration=\"1001/30000s\" width=\"1920\" height=\"1080\"/>\n",
    );
    // Asset resources, ids counted from 2 in track order.
    let mut aid: u64 = 2;
    let mut t: usize = 0;
    while t < n
        invariant
            n == tracks@.len(),
            t <= n,
            tracks_wf_timeline(tracks@),
            spec_edl_renderable(tracks@),
            spec_clip_count(tracks@) + 2 <= u64::MAX,
            aid == 2 + spec_clip_count(tracks@.take(t as int)),
            s@ == spec_fcp_head_resources() + spec_fcp_assets(tracks@.take(t as int), 2),
        decreases n - t,
    {
        proof {
            lemma_clip_count_prefix(tracks@, t as int);
        }
        let m = tracks[t].clips.len();
        let mut i: usize = 0;
        while i < m
            invariant
                n == tracks@.len(),
                t < n,
                m == tracks@[t as int].clips@.len(),
                i <= m,
                tracks_wf_timeline(tracks@),
                spec_clip_count(tracks@) + 2 <= u64::MAX,
                aid == 2 + spec_clip_count(tracks@.take(t as int)) + i,
                spec_clip_count(tracks@.take(t as int)) + m <= spec_clip_count(tracks@),
                s@ == spec_fcp_head_resources() + spec_fcp_assets(tracks@.take(t as int), 2)
                    + spec_fcp_assets_clips(
                    tracks@[t as int].clips@.take(i as int),
                    (2 + spec_clip_count(tracks@.take(t as int))) as int,
                ),
            decreases m - i,
        {
            proof {
                assert(tracks@[t as int].clips@.take(i + 1).drop_last() =~= tracks@[t as int].clips@.take(i as int));
                assert(tracks@[t as int].clips@.take(i + 1).last() == tracks@[t as int].clips@[i as int]);
                assert(tracks@[t as int].wf());
                assert(tracks@[t as int].clips@[i as int].wf());
            }
            let line = fcp_asset_line(&tracks[t].clips[i], aid);
            s.append(line.as_str());
            aid = aid + 1;
            i = i + 1;
        }
        proof {
            assert(tracks@[t as int].clips@.take(m as int) =~= tracks@[t as int].clips@);
            assert(tracks@.take(t + 1).drop_last() =~= tracks@.take(t as int));
            assert(tracks@.take(t + 1).last() == tracks@[t as int]);
        }
        t = t + 1;
    }
    proof {
        assert(tracks@.take(n as int) =~= tracks@);
    }
    s.append("  </resources>\n  <library>\n    <event name=\"");
    let en = escape_xml(project_name);
    s.append(en.as_str());
    s.append("\">\n      <project name=\"");
    s.append(en.as_str());
    s.append("\">\n        <sequence format=\"r1\" duration=\"");
    let td = format_seconds6(total_us);
    s.append(td.as_str());
    s.append("s\" tcStart=\"0s\" tcFormat=\"NDF\">\n          <spine>\n");
    proof {
        assert(s@ =~= spec_fcp_head(tracks@, project_name@, total_us as int));
    }
    // Primary storyline: the first track's clips, ordered by placement.
    let mut entries: Vec<PlacedEntry> = Vec::new();
    if n > 0 {
        proof {
            lemma_clip_count_prefix(tracks@, 0);
            assert(spec_clip_count(tracks@.take(0)) == 0);
        }
        let m0 = tracks[0].clips.len();
        let mut i: usize = 0;
        while i < m0
            invariant
                n == tracks@.len(),
                n > 0,
                m0 == tracks@[0].clips@.len(),
                i <= m0,
                tracks_wf_timeline(tracks@),
                spec_edl_renderable(tracks@),
                spec_clip_count(tracks@) + 2 <= u64::MAX,
                m0 <= spec_clip_count(tracks@),
                entries@ =~= spec_entries_of(tracks@[0].clips@, 2).take(i as int),
                forall|k: int|
                    0 <= k < entries@.len() ==> 0 <= (#[trigger] entries@[k]).off_us
                        <= 0x4000_0000_0000int * 125 && 0 <= entries@[k].dur_us
                        <= 0x8000_0000_0000,
            decreases m0 - i,
        {
            proof {
                lemma_clip_count_prefix2(tracks@, 1);
                assert(tracks@.take(1).drop_last() =~= Seq::<Track>::empty());
                assert(tracks@.take(1).last() == tracks@[0]);
                assert(tracks@[0].wf());
                assert(tracks@[0].clips@[i as int].wf());
                assert(0 <= tracks@[0].clips@[i as int].timeline_offset_samples * (
                US_PER_SAMPLE as int) <= 0x4000_0000_0000int * 125) by (nonlinear_arith)
                    requires
                        0 <= tracks@[0].clips@[i as int].timeline_offset_samples
                            <= 0x4000_0000_0000,
                ;
            }
            let c = &tracks[0].clips[i];
            let e = PlacedEntry {
                off_us: c.timeline_offset_samples * (US_PER_SAMPLE as i128),
                dur_us: c.duration_us,
                aid: 2 + (i as u64),
                name: c.name.clone(),
            };
            entries.push(e);
            proof {
                assert(entries@ =~= spec_entries_of(tracks@[0].clips@, 2).take(i + 1));
            }
            i = i + 1;
        }
        proof {
            assert(spec_entries_of(tracks@[0].clips@, 2).take(m0 as int) =~= spec_entries_of(
                tracks@[0].clips@,
                2,
            ));
        }
    }
    let ghost entry_src: Seq<PlacedEntry> = entries@;
    sort_entries_by_offset(&mut entries);
    let ghost primary: Seq<PlacedEntry> = entries@;
    proof {
        assert forall|k: int| 0 <= k < primary.len() implies 0 <= (#[trigger] primary[k]).off_us
            <= 0x4000_0000_0000int * 125 && 0 <= primary[k].dur_us <= 0x8000_0000_0000 by {
            lemma_perm_entry(entry_src, primary, k);
        }
    }
    let ghost base1: Seq<char> = s@;
    proof {
        assert(primary.skip(0) =~= primary);
    }
    let en_len = entries.len();
    let mut cursor: i128 = 0;
    let mut p: usize = 0;
    while p < en_len
        invariant
            en_len == entries@.len(),
            p <= en_len,
            entries@ == primary,
            forall|k: int|
                0 <= k < primary.len() ==> 0 <= (#[trigger] primary[k]).off_us
                    <= 0x4000_0000_0000int * 125 && 0 <= primary[k].dur_us <= 0x8000_0000_0000,
            0 <= cursor <= 0x8000_0000_0000int * 125,
            s@ + spec_fcp_primary(primary.skip(p as int), cursor as int) == base1
                + spec_fcp_primary(primary, 0),
            spec_fcp_cursor_end(primary.skip(p as int), cursor as int) == spec_fcp_cursor_end(
                primary,
                0,
            ),
        decreases en_len - p,
    {
        proof {
            assert(primary.skip(p as int).first() == primary[p as int]);
            assert(primary.skip(p as int).drop_first() =~= primary.skip(p + 1));
        }
        let e_off: i128 = entries[p].off_us;
        let e_dur: i128 = entries[p].dur_us as i128;
        if e_off > cursor + 1000 {
            let g = fcp_gap_line(cursor, e_off - cursor);
            s.append(g.as_str());
        }
        let line = fcp_primary_clip_line(&entries[p]);
        s.append(line.as_str());
        cursor = e_off + e_dur;
        p = p + 1;
    }
    proof {
        assert(primary.skip(en_len as int).len() == 0);
        assert(spec_fcp_primary(primary.skip(en_len as int), cursor as int)
            =~= Seq::<char>::empty());
        assert(s@ =~= base1 + spec_fcp_primary(primary, 0));
        assert(cursor as int == spec_fcp_cursor_end(primary, 0));
    }
    if cursor < total_us - 1000 {
        let g = fcp_gap_line(cursor, total_us - cursor);
        s.append(g.as_str());
    }
    // Connected clips: every later track on its own lane.
    let ghost base2: Seq<char> = s@;
    let mut aid2: u64 = 2;
    if n > 0 {
        aid2 = aid2 + (tracks[0].clips.len() as u64);
        proof {
            assert(tracks@.take(1).drop_last() =~= Seq::<Track>::empty());
            assert(tracks@.take(1).last() == tracks@[0]);
            lemma_clip_count_prefix2(tracks@, 1);
        }
    }
    let mut t2: usize = 1;
    while t2 < n
        invariant
            n == tracks@.len(),
            1 <= t2,
            n > 0 ==> t2 <= n,
            tracks_wf_timeline(tracks@),
            spec_edl_renderable(tracks@),
            spec_clip_count(tracks@) + 2 <= u64::MAX,
            n > 0 ==> aid2 == 2 + spec_clip_count(tracks@.take(t2 as int)),
            n > 0 ==> s@ == base2 + spec_fcp_connected(tracks@.take(t2 as int), 2),
            n == 0 ==> s@ == base2,
        decreases n - t2,
    {
        proof {
            lemma_clip_count_prefix(tracks@, t2 as int);
            assert(tracks@.take(t2 as int).len() <= 1 ==> spec_fcp_connected(
                tracks@.take(t2 as int),
                2,
            ) =~= Seq::<char>::empty());
        }
        let m = tracks[t2].clips.len();
        let mut i: usize = 0;
        while i < m
            invariant
                n == tracks@.len(),
                1 <= t2 < n,
                m == tracks@[t2 as int].clips@.len(),
                i <= m,
                tracks_wf_timeline(tracks@),
                spec_edl_renderable(tracks@),
                spec_clip_count(tracks@) + 2 <= u64::MAX,
                aid2 == 2 + spec_clip_count(tracks@.take(t2 as int)) + i,
                spec_clip_count(tracks@.take(t2 as int)) + m <= spec_clip_count(tracks@),
                s@ == base2 + spec_fcp_connected(tracks@.take(t2 as int), 2)
                    + spec_fcp_connected_clips(
                    tracks@[t2 as int].clips@.take(i as int),
                    (2 + spec_clip_count(tracks@.take(t2 as int))) as int,
                    t2 as int,
                ),
            decreases m - i,
        {
            proof {
                assert(tracks@[t2 as int].clips@.take(i + 1).drop_last() =~= tracks@[t2 as int].clips@.take(i as int));
                assert(tracks@[t2 as int].clips@.take(i + 1).last() == tracks@[t2 as int].clips@[i as int]);
                assert(tracks@[t2 as int].wf());
                assert(tracks@[t2 as int].clips@[i as int].wf());
                assert(0 <= tracks@[t2 as int].clips@[i as int].timeline_offset_samples * (
                US_PER_SAMPLE as int) <= 0x4000_0000_0000int * 125) by (nonlinear_arith)
                    requires
                        0 <= tracks@[t2 as int].clips@[i as int].timeline_offset_samples
                            <= 0x4000_0000_0000,
                ;
            }
            let c = &tracks[t2].clips[i];
            let e = PlacedEntry {
                off_us: c.timeline_offset_samples * (US_PER_SAMPLE as i128),
                dur_us: c.duration_us,
                aid: aid2,
                name: c.name.clone(),
            };
            let line = fcp_connected_clip_line(&e, t2 as u64);
            s.append(line.as_str());
            proof {
                assert(e == spec_entry_of(
                    tracks@[t2 as int].clips@[i as int],
                    (2 + spec_clip_count(tracks@.take(t2 as int)) + i) as int,
                ));
            }
            aid2 = aid2 + 1;
            i = i + 1;
        }
        proof {
            assert(tracks@[t2 as int].clips@.take(m as int) =~= tracks@[t2 as int].clips@);
            assert(tracks@.take(t2 + 1).drop_last() =~= tracks@.take(t2 as int));
            assert(tracks@.take(t2 + 1).last() == tracks@[t2 as int]);
        }
        t2 = t2 + 1;
    }
    proof {
        if n > 0 {
            assert(tracks@.take(n as int) =~= tracks@);
        } else {
            assert(spec_fcp_connected(tracks@, 2) =~= Seq::<char>::empty());
        }
    }
    s.append(
        "          </spine>\n        </sequence>\n      </project>\n    </event>\n  </library>\n</fcpxml>\n",
    );
    proof {
        assert(s@ =~= spec_fcpxml(
            tracks@,
            project_name@,
            total_timeline_samples * (US_PER_SAMPLE as int),
            primary,
        ));
        if tracks@.len() == 0 {
            assert(entry_src =~= spec_entries_of(Seq::<Clip>::empty(), 2));
        }
    }
    s
}

/// The document's fixed opening through the format resource line.
pub open spec fn spec_fcp_head_resources() -> Seq<char> {
    "<?xml version=\"1.0\" encoding=\"UTF-8\"?>\n<!DOCTYPE fcpxml>\n<fcpxml version=\"1.11\">\n  <resources>\n    <format id=\"r1\" name=\"FFVideoFormatRateUndefined\" frameDuration=\"1001/30000s\" width=\"1920\" height=\"1080\"/>\n"@
}

} // verus!
