//! File-name logic: extension-based type detection and name sanitizing.

use crate::text::lower_char;
use crate::text::lower_char_exec;
use crate::text::push_char;
use crate::text::str_eq;
use vstd::prelude::*;
use vstd::string::StrSliceExecFns;

verus! {

/// The characters after the last path separator.
pub open spec fn spec_file_name(s: Seq<char>) -> Seq<char>
    decreases s.len(),
{
    if s.len() == 0 {
        s
    } else if s.last() == '/' {
        Seq::<char>::empty()
    } else {
        spec_file_name(s.drop_last()).push(s.last())
    }
}

/// The characters of a file name after its last dot, provided that dot is
/// not the name's first character; the empty sequence for a trailing dot.
pub open spec fn spec_extension(f: Seq<char>) -> Option<Seq<char>>
    decreases f.len(),
{
    if f.len() <= 1 {
        None
    } else if f.last() == '.' {
        Some(Seq::<char>::empty())
    } else {
        match spec_extension(f.drop_last()) {
            Some(e) => Some(e.push(f.last())),
            None => None,
        }
    }
}

/// The path's extension folded to lower case, when it has one.
pub fn extension_lower(path: &str) -> (r: Option<String>)
    ensures
        match spec_extension(spec_file_name(path@)) {
            Some(e) => r matches Some(x) && x@ == crate::text::lower_seq(e),
            None => r is None,
        },
{
    let len = path.unicode_len();
    let mut ext: Option<String> = None;
    let mut name_len: usize = 0;
    let mut i: usize = 0;
    while i < len
        invariant
            i <= len,
            len == path@.len(),
            name_len <= i,
            name_len == spec_file_name(path@.take(i as int)).len(),
            match spec_extension(spec_file_name(path@.take(i as int))) {
                Some(e) => ext matches Some(x) && x@ == crate::text::lower_seq(e),
                None => ext is None,
            },
        decreases len - i,
    {
        let c = path.get_char(i);
        proof {
            assert(path@.take(i + 1).drop_last() =~= path@.take(i as int));
            assert(path@.take(i + 1).last() == path@[i as int]);
            let f0 = spec_file_name(path@.take(i as int));
            let f1 = spec_file_name(path@.take(i + 1));
            if path@[i as int] != '/' {
                assert(f1 == f0.push(path@[i as int]));
                assert(f1.drop_last() =~= f0);
            }
        }
        if c as u32 == 47 {
            // path separator
            name_len = 0;
            ext = None;
        } else {
            if c as u32 == 46 && name_len > 0 {
                // a dot after the name's first character starts an extension
                ext = Some(String::new());
                proof {
                    let f1 = spec_file_name(path@.take(i + 1));
                    assert(f1.last() == '.');
                    assert(crate::text::lower_seq(Seq::<char>::empty())
                        =~= Seq::<char>::empty());
                }
            } else {
                ext = match ext {
                    Some(mut x) => {
                        let lc = lower_char_exec(c);
                        push_char(&mut x, lc);
                        proof {
                            let f0 = spec_file_name(path@.take(i as int));
                            let e0 = spec_extension(f0)->0;
                            assert(crate::text::lower_seq(e0.push(path@[i as int]))
                                =~= crate::text::lower_seq(e0).push(
                                lower_char(path@[i as int]),
                            ));
                        }
                        Some(x)
                    },
                    None => None,
                };
            }
            name_len = name_len + 1;
        }
        i = i + 1;
    }
    proof {
        assert(path@.take(len as int) =~= path@);
    }
    ext
}

/// Recognized audio file extensions, compared case-insensitively.
pub open spec fn spec_is_audio_ext(e: Seq<char>) -> bool {
    ||| e == "wav"@
    ||| e == "aiff"@
    ||| e == "aif"@
    ||| e == "flac"@
    ||| e == "mp3"@
    ||| e == "ogg"@
    ||| e == "opus"@
}

/// Recognized video (container) file extensions.
pub open spec fn spec_is_video_ext(e: Seq<char>) -> bool {
    ||| e == "mp4"@
    ||| e == "mov"@
    ||| e == "mkv"@
    ||| e == "avi"@
    ||| e == "webm"@
    ||| e == "mts"@
    ||| e == "m4v"@
    ||| e == "mxf"@
}

/// Whether the path names an audio file.
pub open spec fn spec_is_audio_file(s: Seq<char>) -> bool {
    match spec_extension(spec_file_name(s)) {
        Some(e) => spec_is_audio_ext(crate::text::lower_seq(e)),
        None => false,
    }
}

/// Whether the path names a video file.
pub open spec fn spec_is_video_file(s: Seq<char>) -> bool {
    match spec_extension(spec_file_name(s)) {
        Some(e) => spec_is_video_ext(crate::text::lower_seq(e)),
        None => false,
    }
}

pub fn is_audio_file(path: &str) -> (r: bool)
    ensures
        r == spec_is_audio_file(path@),
{
    match extension_lower(path) {
        Some(e) => {
            let s = e.as_str();
            str_eq(s, "wav") || str_eq(s, "aiff") || str_eq(s, "aif") || str_eq(s, "flac")
                || str_eq(s, "mp3") || str_eq(s, "ogg") || str_eq(s, "opus")
        },
        None => false,
    }
}

pub fn is_video_file(path: &str) -> (r: bool)
    ensures
        r == spec_is_video_file(path@),
{
    match extension_lower(path) {
        Some(e) => {
            let s = e.as_str();
            str_eq(s, "mp4") || str_eq(s, "mov") || str_eq(s, "mkv") || str_eq(s, "avi")
                || str_eq(s, "webm") || str_eq(s, "mts") || str_eq(s, "m4v") || str_eq(s, "mxf")
        },
        None => false,
    }
}

/// Whether the path names any supported audio or video file.
pub fn is_supported_file(path: &str) -> (r: bool)
    ensures
        r == (spec_is_audio_file(path@) || spec_is_video_file(path@)),
{
    is_audio_file(path) || is_video_file(path)
}

/// Relies on `char::is_alphanumeric`: whether the character is Unicode
/// alphabetic or numeric.  The result depends on the character alone; ASCII
/// letters and digits always qualify.
#[verifier::external_body]
pub fn char_is_alphanumeric(c: char) -> (r: bool)
    ensures
        r == spec_is_alphanumeric(c),
        (48 <= c as u32 <= 57) || (65 <= c as u32 <= 90) || (97 <= c as u32 <= 122) ==> r,
{
    c.is_alphanumeric()
}

pub uninterp spec fn spec_is_alphanumeric(c: char) -> bool;

/// A character a file name keeps as it is: alphanumeric, underscore,
/// hyphen, or dot.
pub open spec fn spec_keeps_char(c: char) -> bool {
    spec_is_alphanumeric(c) || c == '_' || c == '-' || c == '.'
}

/// The sanitized form of a name: every other character becomes an
/// underscore.
pub open spec fn spec_sanitize(s: Seq<char>) -> Seq<char> {
    s.map_values(
        |c: char|
            if spec_keeps_char(c) {
                c
            } else {
                '_'
            },
    )
}

/// Replace every character that is not alphanumeric, underscore, hyphen, or
/// dot with an underscore.
pub fn sanitize_filename(name: &str) -> (r: String)
    ensures
        r@ == spec_sanitize(name@),
{
    let len = name.unicode_len();
    let mut out = String::new();
    let mut i: usize = 0;
    while i < len
        invariant
            i <= len,
            len == name@.len(),
            out@ == spec_sanitize(name@.take(i as int)),
        decreases len - i,
    {
        let c = name.get_char(i);
        let keep = char_is_alphanumeric(c) || c as u32 == 95 || c as u32 == 45 || c as u32 == 46;
        proof {
            assert('_' as u32 == 95 && '-' as u32 == 45 && '.' as u32 == 46);
            assert(c as u32 == 95 ==> c == '_');
            assert(c as u32 == 45 ==> c == '-');
            assert(c as u32 == 46 ==> c == '.');
        }
        if keep {
            push_char(&mut out, c);
        } else {
            push_char(&mut out, '_');
        }
        proof {
            assert(spec_sanitize(name@.take(i + 1)) =~= spec_sanitize(name@.take(i as int)).push(
                if spec_keeps_char(name@[i as int]) {
                    name@[i as int]
                } else {
                    '_'
                },
            ));
        }
        i = i + 1;
    }
    proof {
        assert(name@.take(len as int) =~= name@);
    }
    out
}

} // verus!
