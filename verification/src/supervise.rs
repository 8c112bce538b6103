//! Decision logic of the process supervisor: bounded diagnostic
//! retention, defensive parsing of the encoder's progress telemetry, and
//! assembly of the execution outcome.  Spawning the subprocess, reading
//! its stream and running the watchdog are the I/O layer's job; it feeds
//! every line and the exit state into these functions.

use vstd::prelude::*;
use crate::constants::{DEFAULT_TIMEOUT_SECONDS, MAX_STDERR_LINES};
use crate::text::{
    dec_value, digit_val, find_first_char_from, is_dec_digits, is_first_occurrence_from,
    lemma_first_occurrence_unique, parse_u64_digits, str_eq, str_is_digits,
};
use crate::utils::{
    parse_size_with_unit, parse_time_to_centiseconds, spec_num_component,
    spec_parse_size_with_unit, spec_parse_time_to_centis,
};

verus! {

/// Options for one supervised encode.
pub struct ExecuteOptions {
    /// Watchdog timeout in seconds; `None` disables the watchdog.
    pub timeout_seconds: Option<u64>,
    /// Diagnostic lines retained before truncation.
    pub max_stderr_lines: usize,
}

impl Default for ExecuteOptions {
    /// The default options: the standard watchdog timeout and diagnostic
    /// bound.
    fn default() -> (r: Self)
        ensures
            r.timeout_seconds == Some(DEFAULT_TIMEOUT_SECONDS),
            r.max_stderr_lines == MAX_STDERR_LINES,
    {
        ExecuteOptions { timeout_seconds: Some(DEFAULT_TIMEOUT_SECONDS), max_stderr_lines: MAX_STDERR_LINES }
    }
}

/// Outcome of one supervised encode.
pub struct TranscodeResult {
    /// Whether the process exited successfully and in time.
    pub success: bool,
    /// Wall-clock duration in seconds.
    pub duration_seconds: u64,
    /// Exit code, when the process exited normally.
    pub exit_code: Option<i32>,
    /// Captured diagnostic text, truncated past the configured bound.
    pub stderr: String,
    /// Whether the watchdog terminated the process.
    pub timed_out: bool,
}

/// Combine the subprocess exit state into the outcome record: the encode
/// succeeded exactly when the process reported success and the watchdog
/// did not fire.
pub fn supervision_outcome(
    exit_success: bool,
    exit_code: Option<i32>,
    timed_out: bool,
    duration_seconds: u64,
    stderr: String,
) -> (r: TranscodeResult)
    ensures
        r.success == (exit_success && !timed_out),
        r.duration_seconds == duration_seconds,
        r.exit_code == exit_code,
        r.stderr == stderr,
        r.timed_out == timed_out,
{
    TranscodeResult {
        success: exit_success && !timed_out,
        duration_seconds,
        exit_code,
        stderr,
        timed_out,
    }
}

/// Bounded buffer for the encoder's diagnostic stream: lines are kept up
/// to a configured count, then one truncation marker replaces all further
/// output.
pub struct DiagnosticBuffer {
    /// The retained lines.
    pub lines: Vec<String>,
    /// How many real lines are retained at most.
    pub max_lines: usize,
    /// Whether the truncation marker has been appended.
    pub truncated: bool,
}

impl DiagnosticBuffer {
    /// The buffer never outgrows its bound by more than the marker.
    pub open spec fn wf(self) -> bool {
        &&& self.lines@.len() <= self.max_lines + 1
        &&& (self.truncated <==> self.lines@.len() == self.max_lines + 1)
    }

    /// An empty buffer with the given bound.
    pub fn new(max_lines: usize) -> (r: Self)
        ensures
            r.wf(),
            r.lines@.len() == 0,
            r.max_lines == max_lines,
            !r.truncated,
    {
        DiagnosticBuffer { lines: Vec::new(), max_lines, truncated: false }
    }

    /// Retain one diagnostic line: stored while under the bound, then one
    /// truncation marker, then nothing.
    pub fn push_line(&mut self, line: String)
        requires
            old(self).wf(),
        ensures
            final(self).wf(),
            final(self).max_lines == old(self).max_lines,
            old(self).lines@.len() < old(self).max_lines ==> final(self).lines@ == old(self).lines@.push(line) && !final(self).truncated,
            old(self).lines@.len() == old(self).max_lines && !old(self).truncated ==> final(self).lines@.len() == old(self).lines@.len() + 1 && final(self).truncated,
            old(self).truncated ==> *final(self) == *old(self),
    {
        if self.truncated {
            return ;
        }
        if self.lines.len() < self.max_lines {
            self.lines.push(line);
        } else {
            self.lines.push("... (output truncated) ...".to_owned());
            self.truncated = true;
        }
    }

    /// The retained lines joined with newlines.
    pub fn joined(&self) -> (r: String)
        ensures
            r@ == spec_join_lines(self.lines.deep_view()),
    {
        let mut out = String::new();
        let n = self.lines.len();
        let mut i: usize = 0;
        while i < n
            invariant
                n == self.lines@.len(),
                i <= n,
                out@ == spec_join_prefix(self.lines.deep_view(), i as int),
            decreases n - i,
        {
            if i > 0 {
                out.append("\n");
            }
            out.append(self.lines[i].as_str());
            proof {
                reveal_strlit("\n");
                assert(self.lines.deep_view()[i as int] == self.lines@[i as int]@);
                assert(out@ =~= spec_join_prefix(self.lines.deep_view(), i as int + 1));
            }
            i = i + 1;
        }
        proof {
            assert(self.lines.deep_view().len() == n);
            assert(spec_join_prefix(self.lines.deep_view(), n as int) == spec_join_lines(
                self.lines.deep_view(),
            ));
        }
        out
    }
}

/// The first `k` lines joined with newlines.
pub open spec fn spec_join_prefix(lines: Seq<Seq<char>>, k: int) -> Seq<char>
    decreases k,
{
    if k <= 0 {
        Seq::empty()
    } else if k == 1 {
        lines[0]
    } else {
        spec_join_prefix(lines, k - 1) + seq!['\n'] + lines[k - 1]
    }
}

/// All lines joined with newlines.
pub open spec fn spec_join_lines(lines: Seq<Seq<char>>) -> Seq<char> {
    spec_join_prefix(lines, lines.len() as int)
}

/// One progress sample parsed from a telemetry line.
pub struct TranscodeProgress {
    /// Frame counter.
    pub frame: u64,
    /// Frames per second, in thousandths.
    pub fps_milli: u64,
    /// Accumulated output size in bytes.
    pub size_bytes: u64,
    /// Elapsed stream time in centiseconds.
    pub time_centis: u64,
    /// Encode speed as a multiple of realtime, in thousandths.
    pub speed_milli: u64,
}

/// A decimal number with an optional fraction, in thousandths: the
/// integer part scaled by 1000 plus the first three fraction digits;
/// malformed input reads as zero, and an overflowing value saturates.
pub open spec fn spec_decimal_milli(s: Seq<char>) -> int {
    if exists|k: int| is_first_occurrence_from(s, '.', 0, k) {
        let k = choose|k: int| is_first_occurrence_from(s, '.', 0, k);
        let ip = s.take(k);
        let frac = s.subrange(k + 1, s.len() as int);
        if is_dec_digits(ip) && dec_value(ip) <= u64::MAX && (frac.len() == 0 || is_dec_digits(
            frac,
        )) {
            spec_clamp_u64(dec_value(ip) * 1000 + spec_frac_milli(frac))
        } else {
            0
        }
    } else {
        spec_clamp_u64(spec_num_component(s) * 1000)
    }
}

/// Milli-units encoded by a fraction-digit string: the first three
/// digits, truncated, padded with zeros.
pub open spec fn spec_frac_milli(frac: Seq<char>) -> int {
    if frac.len() >= 3 {
        digit_val(frac[0]) * 100 + digit_val(frac[1]) * 10 + digit_val(frac[2])
    } else if frac.len() == 2 {
        digit_val(frac[0]) * 100 + digit_val(frac[1]) * 10
    } else if frac.len() == 1 {
        digit_val(frac[0]) * 100
    } else {
        0
    }
}

/// Clamp to the 64-bit unsigned range.
pub open spec fn spec_clamp_u64(v: int) -> int {
    if v > u64::MAX {
        u64::MAX as int
    } else {
        v
    }
}

/// Parse a decimal number with an optional fraction into thousandths;
/// malformed input reads as zero and an overflowing value saturates.
pub fn parse_decimal_milli(s: &str) -> (r: u64)
    ensures
        r as int == spec_decimal_milli(s@),
{
    proof {
        lemma_first_occurrence_unique(s@, '.', 0);
    }
    let len = s.unicode_len();
    match find_first_char_from(s, '.', 0) {
        Some(k) => {
            let ip_str = s.substring_char(0, k);
            let frac = s.substring_char(k + 1, len);
            proof {
                assert(ip_str@ =~= s@.take(k as int));
                assert(frac@ =~= s@.subrange(k as int + 1, s@.len() as int));
            }
            let frac_len = frac.unicode_len();
            let frac_ok = if frac_len == 0 {
                true
            } else {
                str_is_digits(frac)
            };
            if !frac_ok {
                return 0;
            }
            match parse_u64_digits(ip_str) {
                Some(v) => {
                    let mm: u64 = if frac_len >= 3 {
                        let d0 = frac.get_char(0) as u32;
                        let d1 = frac.get_char(1) as u32;
                        let d2 = frac.get_char(2) as u32;
                        ((d0 - 48) * 100 + (d1 - 48) * 10 + (d2 - 48)) as u64
                    } else if frac_len == 2 {
                        let d0 = frac.get_char(0) as u32;
                        let d1 = frac.get_char(1) as u32;
                        ((d0 - 48) * 100 + (d1 - 48) * 10) as u64
                    } else if frac_len == 1 {
                        let d0 = frac.get_char(0) as u32;
                        ((d0 - 48) * 100) as u64
                    } else {
                        0
                    };
                    let wide: u128 = (v as u128) * 1000 + (mm as u128);
                    if wide > u64::MAX as u128 {
                        u64::MAX
                    } else {
                        wide as u64
                    }
                },
                None => 0,
            }
        },
        None => {
            let base: u64 = match parse_u64_digits(s) {
                Some(v) => v,
                None => 0,
            };
            let wide: u128 = (base as u128) * 1000;
            if wide > u64::MAX as u128 {
                u64::MAX
            } else {
                wide as u64
            }
        },
    }
}


/// Index right after the token starting at `i`: the first space at or
/// after `i`, or the line's end.
pub open spec fn spec_token_end(s: Seq<char>, i: int) -> int
    decreases s.len() - i,
{
    if i < 0 || i >= s.len() {
        s.len() as int
    } else if s[i] == ' ' {
        i
    } else {
        spec_token_end(s, i + 1)
    }
}

/// The token end never precedes its start and never passes the line end.
proof fn lemma_token_end_bounds(s: Seq<char>, i: int)
    requires
        0 <= i <= s.len(),
    ensures
        i <= spec_token_end(s, i) <= s.len(),
        i < s.len() && s[i] != ' ' ==> spec_token_end(s, i) > i,
        forall|x: int| i <= x < spec_token_end(s, i) ==> s[x] != ' ',
        spec_token_end(s, i) < s.len() ==> s[spec_token_end(s, i)] == ' ',
    decreases s.len() - i,
{
    if i < s.len() && s[i] != ' ' {
        lemma_token_end_bounds(s, i + 1);
    }
}

/// Starting progress record: every field zero.
pub open spec fn spec_progress_zero() -> TranscodeProgress {
    TranscodeProgress { frame: 0, fps_milli: 0, size_bytes: 0, time_centis: 0, speed_milli: 0 }
}

/// Apply one "key=value" token to the progress record: the five known
/// keys set their field, any other token leaves the record unchanged.
pub open spec fn spec_apply_token(acc: TranscodeProgress, tok: Seq<char>) -> TranscodeProgress {
    if exists|k: int| is_first_occurrence_from(tok, '=', 0, k) {
        let k = choose|k: int| is_first_occurrence_from(tok, '=', 0, k);
        let key = tok.take(k);
        let val = tok.subrange(k + 1, tok.len() as int);
        if key == "frame"@ {
            TranscodeProgress { frame: spec_num_component(val) as u64, ..acc }
        } else if key == "fps"@ {
            TranscodeProgress { fps_milli: spec_decimal_milli(val) as u64, ..acc }
        } else if key == "size"@ {
            TranscodeProgress { size_bytes: spec_parse_size_with_unit(val) as u64, ..acc }
        } else if key == "time"@ {
            TranscodeProgress { time_centis: spec_parse_time_to_centis(val) as u64, ..acc }
        } else if key == "speed"@ {
            if val.len() > 0 && val.last() == 'x' {
                TranscodeProgress {
                    speed_milli: spec_decimal_milli(val.drop_last()) as u64,
                    ..acc
                }
            } else {
                acc
            }
        } else {
            acc
        }
    } else {
        acc
    }
}

/// Fold every whitespace-separated token of the line from position `i`
/// into the progress record.
pub open spec fn spec_fold_progress(s: Seq<char>, i: int, acc: TranscodeProgress)
    -> TranscodeProgress
    decreases s.len() - i,
        via spec_fold_progress_decreases
{
    if i < 0 || i >= s.len() {
        acc
    } else if s[i] == ' ' {
        spec_fold_progress(s, i + 1, acc)
    } else {
        spec_fold_progress(
            s,
            spec_token_end(s, i),
            spec_apply_token(acc, s.subrange(i, spec_token_end(s, i))),
        )
    }
}

#[via_fn]
proof fn spec_fold_progress_decreases(s: Seq<char>, i: int, acc: TranscodeProgress) {
    if 0 <= i && i < s.len() && s[i] != ' ' {
        lemma_token_end_bounds(s, i);
    }
}

/// The progress record encoded by a whole telemetry line.
pub open spec fn spec_line_progress(s: Seq<char>) -> TranscodeProgress {
    spec_fold_progress(s, 0, spec_progress_zero())
}

/// Apply one token slice of the line to the record.
fn apply_token(line: &str, start: usize, end_pos: usize, acc: TranscodeProgress) -> (r:
    TranscodeProgress)
    requires
        start <= end_pos <= line@.len(),
    ensures
        r == spec_apply_token(acc, line@.subrange(start as int, end_pos as int)),
{
    proof {
        reveal_strlit("frame");
        reveal_strlit("fps");
        reveal_strlit("size");
        reveal_strlit("time");
        reveal_strlit("speed");
        reveal_strlit("x");
    }
    let tok = line.substring_char(start, end_pos);
    proof {
        assert(tok@ =~= line@.subrange(start as int, end_pos as int));
        lemma_first_occurrence_unique(tok@, '=', 0);
    }
    let tok_len = tok.unicode_len();
    let k = match find_first_char_from(tok, '=', 0) {
        Some(k) => k,
        None => {
            return acc;
        },
    };
    let key = tok.substring_char(0, k);
    let val = tok.substring_char(k + 1, tok_len);
    proof {
        assert(key@ =~= tok@.take(k as int));
        assert(val@ =~= tok@.subrange(k as int + 1, tok@.len() as int));
    }
    if str_eq(key, "frame") {
        let v = match parse_u64_digits(val) {
            Some(v) => v,
            None => 0,
        };
        TranscodeProgress { frame: v, ..acc }
    } else if str_eq(key, "fps") {
        TranscodeProgress { fps_milli: parse_decimal_milli(val), ..acc }
    } else if str_eq(key, "size") {
        TranscodeProgress { size_bytes: parse_size_with_unit(val), ..acc }
    } else if str_eq(key, "time") {
        TranscodeProgress { time_centis: parse_time_to_centiseconds(val), ..acc }
    } else if str_eq(key, "speed") {
        let val_len = val.unicode_len();
        if val_len > 0 && val.get_char(val_len - 1) == 'x' {
            let body = val.substring_char(0, val_len - 1);
            proof {
                assert(body@ =~= val@.drop_last());
            }
            TranscodeProgress { speed_milli: parse_decimal_milli(body), ..acc }
        } else {
            acc
        }
    } else {
        acc
    }
}

/// Parse one diagnostic line as progress telemetry: whitespace-separated
/// "key=value" tokens set the frame, fps, size, time and speed fields.
/// A line whose frame count is missing, zero or unparsable yields no
/// sample; nothing in a line is ever fatal.
pub fn parse_ffmpeg_progress(line: &str) -> (r: Option<TranscodeProgress>)
    ensures
        r is Some <==> spec_line_progress(line@).frame > 0,
        r matches Some(p) ==> p == spec_line_progress(line@),
{
    let len = line.unicode_len();
    let mut acc = TranscodeProgress {
        frame: 0,
        fps_milli: 0,
        size_bytes: 0,
        time_centis: 0,
        speed_milli: 0,
    };
    let mut i: usize = 0;
    while i < len
        invariant
            len == line@.len(),
            i <= len,
            spec_fold_progress(line@, i as int, acc) == spec_line_progress(line@),
        decreases len - i,
    {
        if line.get_char(i) == ' ' {
            i = i + 1;
        } else {
            let mut e: usize = i;
            loop
                invariant_except_break
                    len == line@.len(),
                    i <= e <= len,
                    spec_token_end(line@, i as int) == spec_token_end(line@, e as int),
                ensures
                    len == line@.len(),
                    i <= e <= len,
                    spec_token_end(line@, i as int) == e as int,
                decreases len - e,
            {
                if e >= len {
                    proof {
                        assert(spec_token_end(line@, e as int) == e as int);
                    }
                    break ;
                }
                if line.get_char(e) == ' ' {
                    proof {
                        assert(spec_token_end(line@, e as int) == e as int);
                    }
                    break ;
                }
                proof {
                    assert(spec_token_end(line@, e as int) == spec_token_end(
                        line@,
                        e as int + 1,
                    ));
                }
                e = e + 1;
            }
            proof {
                lemma_token_end_bounds(line@, i as int);
            }
            acc = apply_token(line, i, e, acc);
            i = e;
        }
    }
    if acc.frame > 0 {
        Some(acc)
    } else {
        None
    }
}

} // verus!
