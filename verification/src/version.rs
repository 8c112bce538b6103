//! Validation of the encoder installation's version banner.  Locating
//! the binaries and running them is the I/O layer's job; the banner text
//! and the version word are checked here.

use vstd::prelude::*;
use crate::error::CoreError;
use crate::supervise::spec_token_end;
use crate::text::{
    digit_val, find_first_char_from, find_first_substring, is_digit, is_first_match,
    is_first_occurrence_from, lemma_first_occurrence_unique, seq_starts_with, str_starts_with,
};

verus! {

/// A located and validated encoder installation.
pub struct FFmpegInstallation {
    /// Path of the encoder binary.
    pub ffmpeg_path: String,
    /// Path of the media inspector binary.
    pub ffprobe_path: String,
    /// Version word from the banner, e.g. "8.0" or "n8.0".
    pub version: String,
    /// Whether the required hardware encoder is listed.
    pub has_av1_qsv: bool,
    /// Whether the hardware self-test passed.
    pub qsv_hardware_works: bool,
}

/// The first line of the banner: up to the first line break, or all of it.
pub open spec fn spec_first_line(s: Seq<char>) -> Seq<char> {
    if exists|k: int| is_first_occurrence_from(s, '\n', 0, k) {
        s.take(choose|k: int| is_first_occurrence_from(s, '\n', 0, k))
    } else {
        s
    }
}

/// Index of the first non-space character at or after `i`.
pub open spec fn spec_skip_spaces(s: Seq<char>, i: int) -> int
    decreases s.len() - i,
{
    if i < 0 || i >= s.len() {
        s.len() as int
    } else if s[i] != ' ' {
        i
    } else {
        spec_skip_spaces(s, i + 1)
    }
}

/// The version word of a banner: on the first line, the first
/// space-separated word after the first occurrence of "version ".
/// `None` when the banner is empty, the marker is missing, or no word
/// follows it.
pub open spec fn spec_version_word(banner: Seq<char>) -> Option<Seq<char>> {
    let line = spec_first_line(banner);
    if line.len() == 0 {
        None
    } else if exists|p: int| is_first_match(line, "version "@, p) {
        let p = choose|p: int| is_first_match(line, "version "@, p);
        let start = spec_skip_spaces(line, p + "version "@.len());
        if start < line.len() {
            Some(line.subrange(start, spec_token_end(line, start)))
        } else {
            None
        }
    } else {
        None
    }
}

/// The skip never passes the end and stops at the first non-space.
proof fn lemma_skip_spaces_bounds(s: Seq<char>, i: int)
    requires
        0 <= i <= s.len(),
    ensures
        i <= spec_skip_spaces(s, i) <= s.len(),
        spec_skip_spaces(s, i) < s.len() ==> s[spec_skip_spaces(s, i)] != ' ',
        forall|x: int| i <= x < spec_skip_spaces(s, i) ==> s[x] == ' ',
    decreases s.len() - i,
{
    if i < s.len() && s[i] == ' ' {
        lemma_skip_spaces_bounds(s, i + 1);
    }
}

/// Extract the version word from the banner's first line.
pub fn extract_version(output: &str) -> (r: Result<String, CoreError>)
    ensures
        r matches Ok(v) ==> spec_version_word(output@) == Some(v@),
        r is Err <==> spec_version_word(output@) is None,
{
    proof {
        lemma_first_occurrence_unique(output@, '\n', 0);
    }
    let out_len = output.unicode_len();
    let line_end = match find_first_char_from(output, '\n', 0) {
        Some(k) => k,
        None => out_len,
    };
    let line = output.substring_char(0, line_end);
    proof {
        assert(line@ =~= spec_first_line(output@));
    }
    let line_len = line.unicode_len();
    if line_len == 0 {
        return Err(CoreError::FFmpegError("empty version banner".to_owned()));
    }
    let p = match find_first_substring(line, "version ") {
        Some(p) => p,
        None => {
            return Err(CoreError::FFmpegError("version word not found in banner".to_owned()));
        },
    };
    let marker_len = "version ".unicode_len();
    let ghost after = p + "version "@.len();
    let mut start: usize = p + marker_len;
    proof {
        lemma_skip_spaces_bounds(line@, after);
    }
    while start < line_len && line.get_char(start) == ' '
        invariant
            line_len == line@.len(),
            0 <= start <= line_len,
            spec_skip_spaces(line@, after) == spec_skip_spaces(line@, start as int),
        decreases line_len - start,
    {
        start = start + 1;
    }
    proof {
        assert(spec_skip_spaces(line@, start as int) == start as int);
        assert(spec_skip_spaces(line@, after) == start as int);
    }
    if start >= line_len {
        return Err(CoreError::FFmpegError("no version word after the marker".to_owned()));
    }
    let mut e: usize = start;
    while e < line_len && line.get_char(e) != ' '
        invariant
            line_len == line@.len(),
            start <= e <= line_len,
            spec_token_end(line@, start as int) == spec_token_end(line@, e as int),
        decreases line_len - e,
    {
        e = e + 1;
    }
    proof {
        assert(spec_token_end(line@, e as int) == e as int);
    }
    let word = line.substring_char(start, e);
    proof {
        assert(word@ =~= spec_first_line(output@).subrange(
            start as int,
            spec_token_end(spec_first_line(output@), start as int),
        ));
    }
    Ok(word.to_owned())
}

/// Whether a version word denotes an accepted encoder release: an "8."
/// or "n8." prefix, or a first digit of at least eight, or an "n"
/// followed by a digit of at least eight.  (Only the first digit of a
/// multi-digit major release is examined.)
pub open spec fn spec_version_valid(v: Seq<char>) -> bool {
    if seq_starts_with(v, "8."@) || seq_starts_with(v, "n8."@) {
        true
    } else if v.len() > 0 && is_digit(v[0]) {
        digit_val(v[0]) >= 8
    } else if v.len() > 1 && v[0] == 'n' && is_digit(v[1]) {
        digit_val(v[1]) >= 8
    } else {
        false
    }
}

/// Check that a version word denotes an accepted encoder release.
pub fn is_version_valid(version: &str) -> (r: bool)
    ensures
        r == spec_version_valid(version@),
{
    if str_starts_with(version, "8.") || str_starts_with(version, "n8.") {
        return true;
    }
    let len = version.unicode_len();
    if len > 0 {
        let c0 = version.get_char(0) as u32;
        if 48 <= c0 && c0 <= 57 {
            return c0 >= 56;
        }
    }
    if len > 1 {
        if version.get_char(0) == 'n' {
            let c1 = version.get_char(1) as u32;
            if 48 <= c1 && c1 <= 57 {
                return c1 >= 56;
            }
        }
    }
    false
}

} // verus!
