//! Crash-safe job-record persistence: the canonical text encoding of a
//! job record, its parser, the in-memory model of the record directory,
//! and the store's laws.
//!
//! A record is one line of named, length-prefixed fields, so any byte of
//! path or reason text round-trips without escaping.  Parsing accepts
//! exactly the canonical encodings; anything else is rejected, and the
//! directory loader skips rejected files instead of failing.

use vstd::prelude::*;
use crate::job::{JobReason, JobStatus, TranscodeJob};
use crate::text::{
    dec_str, dec_value, digit_val, is_dec_digits, is_digit, lemma_canonical_digits,
    lemma_dec_str_digits, lemma_dec_str_no_leading_zero, lemma_dec_value_of_dec_str,
    parse_u64_digits, seq_ends_with, str_ends_with, u64_to_string,
};

verus! {

/// A length-prefixed text field: the length in decimal, a colon, then the
/// text itself.
pub open spec fn spec_netstring(s: Seq<char>) -> Seq<char> {
    dec_str(s.len()) + ":"@ + s
}

/// An optional text field: "-" for absent, "+" and the field for present.
pub open spec fn spec_opt_string(o: Option<String>) -> Seq<char> {
    match o {
        None => "-"@,
        Some(s) => "+"@ + spec_netstring(s@),
    }
}

/// A signed decimal number.
pub open spec fn spec_i64_str(v: int) -> Seq<char> {
    if v < 0 {
        "-"@ + dec_str((-v) as nat)
    } else {
        dec_str(v as nat)
    }
}

/// An optional signed number: "-" for absent, "+" and the number.
pub open spec fn spec_opt_i64(o: Option<i64>) -> Seq<char> {
    match o {
        None => "-"@,
        Some(v) => "+"@ + spec_i64_str(v as int),
    }
}

/// An optional unsigned number: "-" for absent, "+" and the number.
pub open spec fn spec_opt_u64(o: Option<u64>) -> Seq<char> {
    match o {
        None => "-"@,
        Some(v) => "+"@ + dec_str(v as nat),
    }
}

/// The status word of a record.
pub open spec fn spec_status_word(s: JobStatus) -> Seq<char> {
    match s {
        JobStatus::Pending => "PENDING"@,
        JobStatus::Running => "RUNNING"@,
        JobStatus::Success => "SUCCESS"@,
        JobStatus::Failed => "FAILED"@,
        JobStatus::Skipped => "SKIPPED"@,
    }
}

/// An optional reason field.
pub open spec fn spec_opt_reason(o: Option<JobReason>) -> Seq<char> {
    match o {
        None => "-"@,
        Some(r) => "+"@ + spec_netstring(r.0@),
    }
}

/// A boolean field.
pub open spec fn spec_bool_word(b: bool) -> Seq<char> {
    if b {
        "true"@
    } else {
        "false"@
    }
}

/// The record text from the source-path field on.
pub open spec fn spec_enc_from_src(j: TranscodeJob) -> Seq<char> {
    " src "@ + (spec_netstring(j.source_path@) + spec_enc_from_out(j))
}

/// The record text from the output-path field on.
pub open spec fn spec_enc_from_out(j: TranscodeJob) -> Seq<char> {
    " out "@ + (spec_opt_string(j.output_path) + spec_enc_from_created(j))
}

/// The record text from the creation timestamp on.
pub open spec fn spec_enc_from_created(j: TranscodeJob) -> Seq<char> {
    " created "@ + (spec_i64_str(j.created_at as int) + spec_enc_from_started(j))
}

/// The record text from the start timestamp on.
pub open spec fn spec_enc_from_started(j: TranscodeJob) -> Seq<char> {
    " started "@ + (spec_opt_i64(j.started_at) + spec_enc_from_finished(j))
}

/// The record text from the finish timestamp on.
pub open spec fn spec_enc_from_finished(j: TranscodeJob) -> Seq<char> {
    " finished "@ + (spec_opt_i64(j.finished_at) + spec_enc_from_status(j))
}

/// The record text from the status word on.
pub open spec fn spec_enc_from_status(j: TranscodeJob) -> Seq<char> {
    " status "@ + (spec_status_word(j.status) + spec_enc_from_reason(j))
}

/// The record text from the reason field on.
pub open spec fn spec_enc_from_reason(j: TranscodeJob) -> Seq<char> {
    " reason "@ + (spec_opt_reason(j.reason) + spec_enc_from_orig(j))
}

/// The record text from the original-size field on.
pub open spec fn spec_enc_from_orig(j: TranscodeJob) -> Seq<char> {
    " orig "@ + (spec_opt_u64(j.original_bytes) + spec_enc_from_new(j))
}

/// The record text from the new-size field on.
pub open spec fn spec_enc_from_new(j: TranscodeJob) -> Seq<char> {
    " new "@ + (spec_opt_u64(j.new_bytes) + spec_enc_from_webrip(j))
}

/// The record text from the special-handling flag on.
pub open spec fn spec_enc_from_webrip(j: TranscodeJob) -> Seq<char> {
    " webrip "@ + spec_bool_word(j.is_webrip_like)
}

/// The canonical encoding of a whole job record.
pub open spec fn spec_encode_job(j: TranscodeJob) -> Seq<char> {
    "job "@ + (spec_netstring(j.id@) + spec_enc_from_src(j))
}

/// A job whose encoding the parser is guaranteed to read back: its text
/// fields fit the address space and its timestamps fit a signed 64-bit
/// magnitude.
pub open spec fn spec_encodable(j: TranscodeJob) -> bool {
    &&& j.id@.len() <= usize::MAX
    &&& j.source_path@.len() <= usize::MAX
    &&& (j.output_path matches Some(s) ==> s@.len() <= usize::MAX)
    &&& (j.reason matches Some(r) ==> r.0@.len() <= usize::MAX)
    &&& j.created_at > i64::MIN
    &&& (j.started_at matches Some(t) ==> t > i64::MIN)
    &&& (j.finished_at matches Some(t) ==> t > i64::MIN)
}

/// Append a length-prefixed text field.
fn append_netstring(out: &mut String, s: &str)
    ensures
        final(out)@ == old(out)@ + spec_netstring(s@),
{
    let len = s.unicode_len();
    let len_str = u64_to_string(len as u64);
    out.append(len_str.as_str());
    out.append(":");
    out.append(s);
    proof {
        assert(out@ =~= old(out)@ + spec_netstring(s@));
    }
}

/// Append an optional text field.
fn append_opt_string(out: &mut String, o: &Option<String>)
    ensures
        final(out)@ == old(out)@ + spec_opt_string(*o),
{
    match o {
        None => {
            out.append("-");
        },
        Some(s) => {
            out.append("+");
            append_netstring(out, s.as_str());
        },
    }
    proof {
        assert(out@ =~= old(out)@ + spec_opt_string(*o));
    }
}

/// Append a signed decimal number.
fn append_i64(out: &mut String, v: i64)
    requires
        v > i64::MIN,
    ensures
        final(out)@ == old(out)@ + spec_i64_str(v as int),
{
    if v < 0 {
        out.append("-");
        let m = u64_to_string((-v) as u64);
        out.append(m.as_str());
    } else {
        let m = u64_to_string(v as u64);
        out.append(m.as_str());
    }
    proof {
        assert(out@ =~= old(out)@ + spec_i64_str(v as int));
    }
}

/// Append an optional signed number.
fn append_opt_i64(out: &mut String, o: &Option<i64>)
    requires
        *o matches Some(t) ==> t > i64::MIN,
    ensures
        final(out)@ == old(out)@ + spec_opt_i64(*o),
{
    match o {
        None => {
            out.append("-");
        },
        Some(v) => {
            out.append("+");
            append_i64(out, *v);
        },
    }
    proof {
        assert(out@ =~= old(out)@ + spec_opt_i64(*o));
    }
}

/// Append an optional unsigned number.
fn append_opt_u64(out: &mut String, o: &Option<u64>)
    ensures
        final(out)@ == old(out)@ + spec_opt_u64(*o),
{
    match o {
        None => {
            out.append("-");
        },
        Some(v) => {
            out.append("+");
            let m = u64_to_string(*v);
            out.append(m.as_str());
        },
    }
    proof {
        assert(out@ =~= old(out)@ + spec_opt_u64(*o));
    }
}

/// Encode the record text from the special-handling flag on.
fn enc_from_webrip(j: &TranscodeJob) -> (r: String)
    ensures
        r@ == spec_enc_from_webrip(*j),
{
    let mut out = " webrip ".to_owned();
    if j.is_webrip_like {
        out.append("true");
    } else {
        out.append("false");
    }
    proof {
        assert(out@ =~= spec_enc_from_webrip(*j));
    }
    out
}

/// Encode the record text from the new-size field on.
fn enc_from_new(j: &TranscodeJob) -> (r: String)
    ensures
        r@ == spec_enc_from_new(*j),
{
    let mut out = " new ".to_owned();
    append_opt_u64(&mut out, &j.new_bytes);
    let tail = enc_from_webrip(j);
    out.append(tail.as_str());
    proof {
        assert(out@ =~= spec_enc_from_new(*j));
    }
    out
}

/// Encode the record text from the original-size field on.
fn enc_from_orig(j: &TranscodeJob) -> (r: String)
    ensures
        r@ == spec_enc_from_orig(*j),
{
    let mut out = " orig ".to_owned();
    append_opt_u64(&mut out, &j.original_bytes);
    let tail = enc_from_new(j);
    out.append(tail.as_str());
    proof {
        assert(out@ =~= spec_enc_from_orig(*j));
    }
    out
}

/// Encode the record text from the reason field on.
fn enc_from_reason(j: &TranscodeJob) -> (r: String)
    ensures
        r@ == spec_enc_from_reason(*j),
{
    let mut out = " reason ".to_owned();
    match &j.reason {
        None => {
            out.append("-");
        },
        Some(rr) => {
            out.append("+");
            append_netstring(&mut out, rr.0.as_str());
        },
    }
    let tail = enc_from_orig(j);
    out.append(tail.as_str());
    proof {
        assert(out@ =~= spec_enc_from_reason(*j));
    }
    out
}

/// Encode the record text from the status word on.
fn enc_from_status(j: &TranscodeJob) -> (r: String)
    ensures
        r@ == spec_enc_from_status(*j),
{
    let mut out = " status ".to_owned();
    out.append(j.status.status_label());
    let tail = enc_from_reason(j);
    out.append(tail.as_str());
    proof {
        assert(out@ =~= spec_enc_from_status(*j));
    }
    out
}

/// Encode the record text from the finish timestamp on.
fn enc_from_finished(j: &TranscodeJob) -> (r: String)
    requires
        j.finished_at matches Some(t) ==> t > i64::MIN,
    ensures
        r@ == spec_enc_from_finished(*j),
{
    let mut out = " finished ".to_owned();
    append_opt_i64(&mut out, &j.finished_at);
    let tail = enc_from_status(j);
    out.append(tail.as_str());
    proof {
        assert(out@ =~= spec_enc_from_finished(*j));
    }
    out
}

/// Encode the record text from the start timestamp on.
fn enc_from_started(j: &TranscodeJob) -> (r: String)
    requires
        j.started_at matches Some(t) ==> t > i64::MIN,
        j.finished_at matches Some(t) ==> t > i64::MIN,
    ensures
        r@ == spec_enc_from_started(*j),
{
    let mut out = " started ".to_owned();
    append_opt_i64(&mut out, &j.started_at);
    let tail = enc_from_finished(j);
    out.append(tail.as_str());
    proof {
        assert(out@ =~= spec_enc_from_started(*j));
    }
    out
}

/// Encode the record text from the creation timestamp on.
fn enc_from_created(j: &TranscodeJob) -> (r: String)
    requires
        j.created_at > i64::MIN,
        j.started_at matches Some(t) ==> t > i64::MIN,
        j.finished_at matches Some(t) ==> t > i64::MIN,
    ensures
        r@ == spec_enc_from_created(*j),
{
    let mut out = " created ".to_owned();
    append_i64(&mut out, j.created_at);
    let tail = enc_from_started(j);
    out.append(tail.as_str());
    proof {
        assert(out@ =~= spec_enc_from_created(*j));
    }
    out
}

/// Encode the record text from the output-path field on.
fn enc_from_out(j: &TranscodeJob) -> (r: String)
    requires
        j.created_at > i64::MIN,
        j.started_at matches Some(t) ==> t > i64::MIN,
        j.finished_at matches Some(t) ==> t > i64::MIN,
    ensures
        r@ == spec_enc_from_out(*j),
{
    let mut out = " out ".to_owned();
    append_opt_string(&mut out, &j.output_path);
    let tail = enc_from_created(j);
    out.append(tail.as_str());
    proof {
        assert(out@ =~= spec_enc_from_out(*j));
    }
    out
}

/// Encode the record text from the source-path field on.
fn enc_from_src(j: &TranscodeJob) -> (r: String)
    requires
        j.created_at > i64::MIN,
        j.started_at matches Some(t) ==> t > i64::MIN,
        j.finished_at matches Some(t) ==> t > i64::MIN,
    ensures
        r@ == spec_enc_from_src(*j),
{
    let mut out = " src ".to_owned();
    append_netstring(&mut out, j.source_path.as_str());
    let tail = enc_from_out(j);
    out.append(tail.as_str());
    proof {
        assert(out@ =~= spec_enc_from_src(*j));
    }
    out
}

/// Encode a job record in its canonical text form.
pub fn encode_job(j: &TranscodeJob) -> (r: String)
    requires
        spec_encodable(*j),
    ensures
        r@ == spec_encode_job(*j),
{
    let mut out = "job ".to_owned();
    append_netstring(&mut out, j.id.as_str());
    let tail = enc_from_src(j);
    out.append(tail.as_str());
    proof {
        assert(out@ =~= spec_encode_job(*j));
    }
    out
}

/// Check that `s` holds exactly `lit` at position `p`; on success return
/// the position after it.
fn expect_lit(s: &str, p: usize, lit: &str) -> (r: Option<usize>)
    requires
        p <= s@.len(),
    ensures
        r matches Some(q) ==> q == p + lit@.len() && p + lit@.len() <= s@.len() && s@.subrange(
            p as int,
            q as int,
        ) =~= lit@,
        r is None ==> !(p + lit@.len() <= s@.len() && s@.subrange(p as int, p + lit@.len()) =~=
        lit@),
{
    let s_len = s.unicode_len();
    let l_len = lit.unicode_len();
    if l_len > s_len - p {
        return None;
    }
    let mut k: usize = 0;
    while k < l_len
        invariant
            s_len == s@.len(),
            l_len == lit@.len(),
            p + l_len <= s_len,
            k <= l_len,
            forall|x: int| 0 <= x < k ==> s@[p + x] == lit@[x],
        decreases l_len - k,
    {
        if s.get_char(p + k) != lit.get_char(k) {
            assert(s@.subrange(p as int, p + lit@.len())[k as int] != lit@[k as int]);
            return None;
        }
        k = k + 1;
    }
    assert(s@.subrange(p as int, p + lit@.len()) =~= lit@);
    Some(p + l_len)
}

/// Read a canonical decimal number at position `p`: a maximal digit run
/// with no superfluous leading zero, whose value fits 64 bits.
fn read_u64_field(s: &str, p: usize) -> (r: Option<(u64, usize)>)
    requires
        p <= s@.len(),
    ensures
        r matches Some(t) ==> p < t.1 <= s@.len() && s@.subrange(p as int, t.1 as int) =~= dec_str(
            t.0 as nat,
        ) && (t.1 == s@.len() || !is_digit(s@[t.1 as int])),
        forall|n: u64, k: int|
            #![trigger s@.subrange(p as int, p + k), dec_str(n as nat)]
            (0 <= k && p + k <= s@.len() && s@.subrange(p as int, p + k) =~= dec_str(n as nat) && (p + k
                == s@.len() || !is_digit(s@[p + k]))) ==> r == Some((n, (p + k) as usize)),
{
    let s_len = s.unicode_len();
    let mut e: usize = p;
    loop
        invariant_except_break
            s_len == s@.len(),
            p <= e <= s_len,
            forall|x: int| p <= x < e ==> is_digit(#[trigger] s@[x]),
        ensures
            s_len == s@.len(),
            p <= e <= s_len,
            forall|x: int| p <= x < e ==> is_digit(#[trigger] s@[x]),
            e < s_len ==> !is_digit(s@[e as int]),
        decreases s_len - e,
    {
        if e >= s_len {
            break;
        }
        let u = s.get_char(e) as u32;
        if u < 48 || u > 57 {
            break;
        }
        e = e + 1;
    }
    proof {
        assert forall|n: u64, k: int|
            #![trigger s@.subrange(p as int, p + k), dec_str(n as nat)]
            (0 <= k && p + k <= s@.len() && s@.subrange(p as int, p + k) =~= dec_str(n as nat) && (p + k
                == s@.len() || !is_digit(s@[p + k]))) implies p + k == e by {
            lemma_dec_str_digits(n as nat);
            assert(k == dec_str(n as nat).len());
            assert forall|x: int| p <= x < p + k implies is_digit(#[trigger] s@[x]) by {
                assert(s@[x] == s@.subrange(p as int, p + k)[x - p]);
                assert(dec_str(n as nat)[x - p] == s@.subrange(p as int, p + k)[x - p]);
            }
            if p + k < e {
                assert(is_digit(s@[p + k]));
            }
            if e < p + k {
                assert(is_digit(s@[e as int]));
            }
        }
    }
    if e == p {
        proof {
            assert forall|n: u64, k: int|
                #![trigger s@.subrange(p as int, p + k), dec_str(n as nat)]
                !(0 <= k && p + k <= s@.len() && s@.subrange(p as int, p + k) =~= dec_str(n as nat) && (p + k
                    == s@.len() || !is_digit(s@[p + k]))) by {
                lemma_dec_str_digits(n as nat);
            }
        }
        return None;
    }
    let first = s.get_char(p) as u32;
    if first == 48 && e > p + 1 {
        // A run like "0…" with more digits is not canonical.
        proof {
            assert forall|n: u64, k: int|
                #![trigger s@.subrange(p as int, p + k), dec_str(n as nat)]
                (0 <= k && p + k <= s@.len() && s@.subrange(p as int, p + k) =~= dec_str(n as nat) && (p + k
                    == s@.len() || !is_digit(s@[p + k]))) implies false by {
                lemma_dec_str_no_leading_zero(n as nat);
                assert(s@[p as int] == dec_str(n as nat)[0]);
                assert(dec_str(n as nat)[0] == '0');
                assert(dec_str(n as nat).len() == 1);
                assert(p + k == e);
            }
        }
        return None;
    }
    let run = s.substring_char(p, e);
    proof {
        assert(run@ =~= s@.subrange(p as int, e as int));
    }
    match parse_u64_digits(run) {
        Some(v) => {
            proof {
                assert(run@[0] == s@[p as int]);
                assert(run@[0] != '0' || run@.len() == 1) by {
                    assert('0' as int == 48);
                }
                lemma_canonical_digits(run@);
                assert forall|n: u64, k: int|
                    #![trigger s@.subrange(p as int, p + k), dec_str(n as nat)]
                    (0 <= k && p + k <= s@.len() && s@.subrange(p as int, p + k) =~= dec_str(
                        n as nat,
                    ) && (p + k == s@.len() || !is_digit(s@[p + k]))) implies v == n && p + k
                    == e by {
                    assert(p + k == e);
                    assert(run@ =~= dec_str(n as nat));
                    lemma_dec_value_of_dec_str(n as nat);
                }
            }
            Some((v, e))
        },
        None => {
            proof {
                assert forall|n: u64, k: int|
                    #![trigger s@.subrange(p as int, p + k), dec_str(n as nat)]
                    (0 <= k && p + k <= s@.len() && s@.subrange(p as int, p + k) =~= dec_str(n as nat) && (p
                        + k == s@.len() || !is_digit(s@[p + k]))) implies false by {
                    assert(p + k == e);
                    assert(run@ =~= dec_str(n as nat));
                    lemma_dec_str_digits(n as nat);
                    lemma_dec_value_of_dec_str(n as nat);
                }
            }
            None
        },
    }
}

/// Read a length-prefixed text field at position `p`.
fn read_netstring(s: &str, p: usize) -> (r: Option<(String, usize)>)
    requires
        p <= s@.len(),
    ensures
        r matches Some(t) ==> p < t.1 <= s@.len() && s@.subrange(p as int, t.1 as int)
            =~= spec_netstring(t.0@),
        forall|t: Seq<char>, k: int|
            #![trigger s@.subrange(p as int, p + k), spec_netstring(t)]
            (0 <= k && p + k <= s@.len() && s@.subrange(p as int, p + k) =~= spec_netstring(t)) ==> r is Some
                && (r matches Some(rt) ==> rt.0@ == t && rt.1 == p + k),
{
    proof {
        reveal_strlit(":");
    }
    let s_len = s.unicode_len();
    let ghost completeness_hyp = |t: Seq<char>, k: int|
        0 <= k && p + k <= s@.len() && s@.subrange(p as int, p + k) =~= spec_netstring(t);
    proof {
        assert forall|t: Seq<char>, k: int| #[trigger] completeness_hyp(t, k) implies (p
            + dec_str(t.len()).len() + 1 + t.len() == p + k && s@.subrange(
            p as int,
            p + dec_str(t.len()).len(),
        ) =~= dec_str(t.len()) && s@[p + dec_str(t.len()).len()] == ':' && s@.subrange(
            p + dec_str(t.len()).len() + 1,
            p + k,
        ) =~= t && t.len() <= u64::MAX) by {
            reveal_strlit(":");
            let d = dec_str(t.len()).len() as int;
            let ns = spec_netstring(t);
            assert(ns.len() == d + 1 + t.len());
            let sub = s@.subrange(p as int, p + k);
            assert(k == ns.len());
            assert forall|x: int| 0 <= x < d implies s@.subrange(p as int, p + d)[x] == dec_str(
                t.len(),
            )[x] by {
                assert(s@.subrange(p as int, p + d)[x] == s@[p + x]);
                assert(sub[x] == s@[p + x]);
                assert(ns[x] == (dec_str(t.len()) + ":"@)[x]);
                assert((dec_str(t.len()) + ":"@)[x] == dec_str(t.len())[x]);
            }
            assert(s@.subrange(p as int, p + d) =~= dec_str(t.len()));
            assert(sub[d] == s@[p + d]);
            assert(ns[d] == (dec_str(t.len()) + ":"@)[d]);
            assert((dec_str(t.len()) + ":"@)[d] == ":"@[0]);
            assert(":"@[0] == ':');
            assert forall|x: int| 0 <= x < t.len() implies s@.subrange(p + d + 1, p + k)[x]
                == t[x] by {
                assert(s@.subrange(p + d + 1, p + k)[x] == s@[p + d + 1 + x]);
                assert(sub[d + 1 + x] == s@[p + d + 1 + x]);
                assert(ns[d + 1 + x] == t[x]);
            }
            assert(s@.subrange(p + d + 1, p + k) =~= t);
            assert(t.len() < k <= s@.len());
            assert(s@.len() <= usize::MAX);
        }
    }
    let (len_val, q1) = match read_u64_field(s, p) {
        Some(t) => t,
        None => {
            proof {
                assert forall|t: Seq<char>, k: int|
                    #![trigger s@.subrange(p as int, p + k), spec_netstring(t)]
                    !completeness_hyp(t, k) by {
                    if completeness_hyp(t, k) {
                        let d = dec_str(t.len()).len() as int;
                        assert(s@[p + d] == ':');
                        assert(!is_digit(s@[p + d])) by {
                            assert(':' as int == 58);
                        }
                        assert(t.len() <= u64::MAX);
                        assert(p + d + 1 + t.len() == p + k);
                        assert(p + d <= s@.len());
                        assert(dec_str((t.len() as u64) as nat) == dec_str(t.len()));
                        assert(s@.subrange(p as int, p + d) =~= dec_str(
                            (t.len() as u64) as nat,
                        ));
                    }
                }
            }
            return None;
        },
    };
    let q2 = match expect_lit(s, q1, ":") {
        Some(q) => q,
        None => {
            proof {
                assert forall|t: Seq<char>, k: int|
                    #![trigger s@.subrange(p as int, p + k), spec_netstring(t)]
                    !completeness_hyp(t, k) by {
                    if completeness_hyp(t, k) {
                        let d = dec_str(t.len()).len() as int;
                        assert(!is_digit(s@[p + d])) by {
                            assert(':' as int == 58);
                        }
                        assert(dec_str((t.len() as u64) as nat) == dec_str(t.len()));
                        assert(s@.subrange(p as int, p + d) =~= dec_str(
                            (t.len() as u64) as nat,
                        ));
                        assert(p + d + 1 + t.len() == p + k);
                        assert(p + d <= s@.len());
                        assert(q1 == p + d && len_val == t.len());
                        reveal_strlit(":");
                        assert(":"@.len() == 1);
                        assert(k == d + 1 + t.len());
                        assert(q1 + 1 <= s@.len());
                        assert(s@.subrange(q1 as int, q1 + 1) =~= ":"@);
                    }
                }
            }
            return None;
        },
    };
    if len_val > (s_len - q2) as u64 {
        proof {
            assert forall|t: Seq<char>, k: int|
                    #![trigger s@.subrange(p as int, p + k), spec_netstring(t)]
                    !completeness_hyp(t, k) by {
                if completeness_hyp(t, k) {
                    let d = dec_str(t.len()).len() as int;
                    assert(!is_digit(s@[p + d])) by {
                        assert(':' as int == 58);
                    }
                    assert(dec_str((t.len() as u64) as nat) == dec_str(t.len()));
                    assert(s@.subrange(p as int, p + d) =~= dec_str((t.len() as u64) as nat));
                    assert(p + d + 1 + t.len() == p + k);
                    assert(p + d <= s@.len());
                    assert(q1 == p + d && len_val == t.len());
                    assert(k == d + 1 + t.len());
                    assert(p + k <= s@.len());
                    assert(q2 == q1 + 1);
                    assert(t.len() <= s@.len() - q2);
                }
            }
        }
        return None;
    }
    let content_len = len_val as usize;
    let content = s.substring_char(q2, q2 + content_len);
    let q3 = q2 + content_len;
    proof {
        assert(content@ =~= s@.subrange(q2 as int, q3 as int));
        reveal_strlit(":");
        assert(s@.subrange(q1 as int, q2 as int) =~= ":"@);
        assert(s@[q1 as int] == ':') by {
            assert(s@.subrange(q1 as int, q2 as int)[0] == s@[q1 as int]);
        }
        assert(s@.subrange(p as int, q3 as int) =~= spec_netstring(content@)) by {
            lemma_canonical_digits_bridge(s@, p as int, q1 as int, q3 as int, len_val);
        }
        assert forall|t: Seq<char>, k: int|
            #![trigger s@.subrange(p as int, p + k), spec_netstring(t)]
            completeness_hyp(t, k) implies (content@ == t && q3 == p + k) by {
            let d = dec_str(t.len()).len() as int;
            assert(!is_digit(s@[p + d])) by {
                assert(':' as int == 58);
            }
            assert(dec_str((t.len() as u64) as nat) == dec_str(t.len()));
            assert(s@.subrange(p as int, p + d) =~= dec_str((t.len() as u64) as nat));
            assert(p + d + 1 + t.len() == p + k);
            assert(p + d <= s@.len());
            assert(q1 == p + d && len_val == t.len());
            assert(content@ =~= t);
        }
    }
    Some((content.to_owned(), q3))
}

/// Read a signed decimal number at position `p`.
fn read_i64_field(s: &str, p: usize) -> (r: Option<(i64, usize)>)
    requires
        p <= s@.len(),
    ensures
        r matches Some(t) ==> p < t.1 <= s@.len() && s@.subrange(p as int, t.1 as int)
            =~= spec_i64_str(t.0 as int) && t.0 > i64::MIN,
        forall|w: i64, k: int|
            #![trigger s@.subrange(p as int, p + k), spec_i64_str(w as int)]
            (0 <= k && p + k <= s@.len() && s@.subrange(p as int, p + k) =~= spec_i64_str(w as int)
                && w > i64::MIN && (p + k == s@.len() || !is_digit(s@[p + k]))) ==> r == Some(
                (w, (p + k) as usize),
            ),
{
    proof {
        reveal_strlit("-");
    }
    let s_len = s.unicode_len();
    if p < s_len && s.get_char(p) == '-' {
        match read_u64_field(s, p + 1) {
            Some((m, q)) => {
                if m >= 1 && m <= 9223372036854775807u64 {
                    let v: i64 = -(m as i64);
                    proof {
                        assert(s@.subrange(p as int, q as int) =~= spec_i64_str(v as int)) by {
                            assert(spec_i64_str(v as int) == "-"@ + dec_str(m as nat));
                            assert(s@.subrange(p as int, q as int)[0] == s@[p as int]);
                            assert(("-"@ + dec_str(m as nat))[0] == '-');
                            assert forall|x: int| 1 <= x < q - p implies s@.subrange(
                                p as int,
                                q as int,
                            )[x] == ("-"@ + dec_str(m as nat))[x] by {
                                assert(s@.subrange(p as int, q as int)[x] == s@[p + x]);
                                assert(s@.subrange(p + 1, q as int)[x - 1] == s@[p + x]);
                                assert(("-"@ + dec_str(m as nat))[x] == dec_str(m as nat)[x - 1]);
                            }
                        }
                        assert forall|w: i64, k: int|
                            #![trigger s@.subrange(p as int, p + k), spec_i64_str(w as int)]
                            (0 <= k && p + k <= s@.len() && s@.subrange(p as int, p + k)
                                =~= spec_i64_str(w as int) && w > i64::MIN && (p + k == s@.len()
                                || !is_digit(s@[p + k]))) implies w == v && p + k == q by {
                            if w >= 0 {
                                lemma_dec_str_digits(w as nat);
                                assert(s@[p as int] == dec_str(w as nat)[0]);
                                assert(!is_digit('-')) by {
                                    assert('-' as int == 45);
                                }
                            } else {
                                let m2 = (-w) as u64;
                                assert(s@.subrange(p + 1, p + k) =~= dec_str(m2 as nat)) by {
                                    assert(spec_i64_str(w as int) == "-"@ + dec_str((-w) as nat));
                                    assert forall|x: int| 0 <= x < k - 1 implies s@.subrange(
                                        p + 1,
                                        p + k,
                                    )[x] == dec_str(m2 as nat)[x] by {
                                        assert(s@.subrange(p + 1, p + k)[x] == s@[p + 1 + x]);
                                        assert(s@.subrange(p as int, p + k)[1 + x] == s@[p + 1
                                            + x]);
                                        assert(spec_i64_str(w as int)[1 + x] == dec_str(
                                            m2 as nat,
                                        )[x]);
                                    }
                                }
                                assert(dec_str((m2 as u64) as nat) == dec_str(m2 as nat));
                                assert(s@.subrange((p + 1) as int, (p + 1) + (k - 1))
                                    =~= dec_str((m2 as u64) as nat));
                            }
                        }
                    }
                    Some((v, q))
                } else {
                    proof {
                        assert forall|w: i64, k: int|
                            #![trigger s@.subrange(p as int, p + k), spec_i64_str(w as int)]
                            (0 <= k && p + k <= s@.len() && s@.subrange(p as int, p + k)
                                =~= spec_i64_str(w as int) && w > i64::MIN && (p + k == s@.len()
                                || !is_digit(s@[p + k]))) implies false by {
                            if w >= 0 {
                                lemma_dec_str_digits(w as nat);
                                assert(s@[p as int] == dec_str(w as nat)[0]);
                                assert(!is_digit('-')) by {
                                    assert('-' as int == 45);
                                }
                            } else {
                                let m2 = (-w) as u64;
                                assert(s@.subrange(p + 1, p + k) =~= dec_str(m2 as nat)) by {
                                    assert(spec_i64_str(w as int) == "-"@ + dec_str((-w) as nat));
                                    assert forall|x: int| 0 <= x < k - 1 implies s@.subrange(
                                        p + 1,
                                        p + k,
                                    )[x] == dec_str(m2 as nat)[x] by {
                                        assert(s@.subrange(p + 1, p + k)[x] == s@[p + 1 + x]);
                                        assert(s@.subrange(p as int, p + k)[1 + x] == s@[p + 1
                                            + x]);
                                        assert(spec_i64_str(w as int)[1 + x] == dec_str(
                                            m2 as nat,
                                        )[x]);
                                    }
                                }
                                assert(dec_str((m2 as u64) as nat) == dec_str(m2 as nat));
                                assert(s@.subrange((p + 1) as int, (p + 1) + (k - 1))
                                    =~= dec_str((m2 as u64) as nat));
                                assert(m == m2);
                            }
                        }
                    }
                    None
                }
            },
            None => {
                proof {
                    assert forall|w: i64, k: int|
                        #![trigger s@.subrange(p as int, p + k), spec_i64_str(w as int)]
                        (0 <= k && p + k <= s@.len() && s@.subrange(p as int, p + k)
                            =~= spec_i64_str(w as int) && w > i64::MIN && (p + k == s@.len()
                            || !is_digit(s@[p + k]))) implies false by {
                        if w >= 0 {
                            lemma_dec_str_digits(w as nat);
                            assert(s@[p as int] == dec_str(w as nat)[0]);
                            assert(!is_digit('-')) by {
                                assert('-' as int == 45);
                            }
                        } else {
                            let m2 = (-w) as u64;
                            assert(s@.subrange(p + 1, p + k) =~= dec_str(m2 as nat)) by {
                                assert(spec_i64_str(w as int) == "-"@ + dec_str((-w) as nat));
                                assert forall|x: int| 0 <= x < k - 1 implies s@.subrange(
                                    p + 1,
                                    p + k,
                                )[x] == dec_str(m2 as nat)[x] by {
                                    assert(s@.subrange(p + 1, p + k)[x] == s@[p + 1 + x]);
                                    assert(s@.subrange(p as int, p + k)[1 + x] == s@[p + 1 + x]);
                                    assert(spec_i64_str(w as int)[1 + x] == dec_str(m2 as nat)[x]);
                                }
                            }
                            assert(dec_str((m2 as u64) as nat) == dec_str(m2 as nat));
                            assert(s@.subrange((p + 1) as int, (p + 1) + (k - 1)) =~= dec_str(
                                (m2 as u64) as nat,
                            ));
                        }
                    }
                }
                None
            },
        }
    } else {
        match read_u64_field(s, p) {
            Some((m, q)) => {
                if m <= 9223372036854775807u64 {
                    let v: i64 = m as i64;
                    proof {
                        assert(s@.subrange(p as int, q as int) =~= spec_i64_str(v as int));
                        assert forall|w: i64, k: int|
                            #![trigger s@.subrange(p as int, p + k), spec_i64_str(w as int)]
                            (0 <= k && p + k <= s@.len() && s@.subrange(p as int, p + k)
                                =~= spec_i64_str(w as int) && w > i64::MIN && (p + k == s@.len()
                                || !is_digit(s@[p + k]))) implies w == v && p + k == q by {
                            if w < 0 {
                                assert(s@[p as int] == spec_i64_str(w as int)[0]);
                                assert(spec_i64_str(w as int)[0] == '-');
                            } else {
                                assert(dec_str((w as u64) as nat) == dec_str(w as nat));
                            }
                        }
                    }
                    Some((v, q))
                } else {
                    proof {
                        assert forall|w: i64, k: int|
                            #![trigger s@.subrange(p as int, p + k), spec_i64_str(w as int)]
                            (0 <= k && p + k <= s@.len() && s@.subrange(p as int, p + k)
                                =~= spec_i64_str(w as int) && w > i64::MIN && (p + k == s@.len()
                                || !is_digit(s@[p + k]))) implies false by {
                            if w < 0 {
                                assert(s@[p as int] == spec_i64_str(w as int)[0]);
                                assert(spec_i64_str(w as int)[0] == '-');
                            } else {
                                assert(dec_str((w as u64) as nat) == dec_str(w as nat));
                                assert(m == w);
                            }
                        }
                    }
                    None
                }
            },
            None => {
                proof {
                    assert forall|w: i64, k: int|
                        #![trigger s@.subrange(p as int, p + k), spec_i64_str(w as int)]
                        (0 <= k && p + k <= s@.len() && s@.subrange(p as int, p + k)
                            =~= spec_i64_str(w as int) && w > i64::MIN && (p + k == s@.len()
                            || !is_digit(s@[p + k]))) implies false by {
                        if w < 0 {
                            assert(s@[p as int] == spec_i64_str(w as int)[0]);
                            assert(spec_i64_str(w as int)[0] == '-');
                            if p < s@.len() {
                                assert(s@[p as int] == '-');
                            }
                        } else {
                            assert(dec_str((w as u64) as nat) == dec_str(w as nat));
                        }
                    }
                }
                None
            },
        }
    }
}

/// Read an optional text field: "-" for absent, "+" and a netstring.
fn read_opt_netstring(s: &str, p: usize) -> (r: Option<(Option<String>, usize)>)
    requires
        p <= s@.len(),
    ensures
        r matches Some(t) ==> p < t.1 <= s@.len() && s@.subrange(p as int, t.1 as int)
            =~= spec_opt_string(t.0),
        forall|o: Option<String>, k: int|
            #![trigger s@.subrange(p as int, p + k), spec_opt_string(o)]
            (0 <= k && p + k <= s@.len() && s@.subrange(p as int, p + k) =~= spec_opt_string(o))
                ==> r is Some && (r matches Some(rt) ==> (rt.0 is Some <==> o is Some) && (
            o matches Some(x) ==> rt.0 matches Some(y) && y@ == x@) && rt.1 == p + k),
{
    proof {
        reveal_strlit("-");
        reveal_strlit("+");
    }
    let s_len = s.unicode_len();
    if p >= s_len {
        return None;
    }
    let c = s.get_char(p);
    if c == '-' {
        proof {
            assert(s@.subrange(p as int, p + 1) =~= "-"@);
            assert forall|o: Option<String>, k: int|
                #![trigger s@.subrange(p as int, p + k), spec_opt_string(o)]
                (0 <= k && p + k <= s@.len() && s@.subrange(p as int, p + k) =~= spec_opt_string(
                    o,
                )) implies o is None && p + k == p + 1 by {
                if o is Some {
                    assert(s@[p as int] == spec_opt_string(o)[0]);
                }
                assert(spec_opt_string(o).len() == 1);
            }
        }
        Some((None, p + 1))
    } else if c == '+' {
        match read_netstring(s, p + 1) {
            Some((v, q)) => {
                proof {
                    assert(s@.subrange(p as int, q as int) =~= spec_opt_string(Some(v))) by {
                        assert(s@.subrange(p as int, q as int)[0] == s@[p as int]);
                        assert forall|x: int| 1 <= x < q - p implies s@.subrange(
                            p as int,
                            q as int,
                        )[x] == ("+"@ + spec_netstring(v@))[x] by {
                            assert(s@.subrange(p as int, q as int)[x] == s@[p + x]);
                            assert(s@.subrange(p + 1, q as int)[x - 1] == s@[p + x]);
                        }
                    }
                    assert forall|o: Option<String>, k: int|
                        #![trigger s@.subrange(p as int, p + k), spec_opt_string(o)]
                        (0 <= k && p + k <= s@.len() && s@.subrange(p as int, p + k)
                            =~= spec_opt_string(o)) implies (o is Some && (o matches Some(x) ==> v@
                            == x@ && p + k == q)) by {
                        if o is None {
                            assert(s@[p as int] == spec_opt_string(o)[0]);
                        } else {
                            let x = o->0;
                            assert(s@.subrange((p + 1) as int, (p + 1) + (k - 1))
                                =~= spec_netstring(x@)) by {
                                assert forall|y: int| 0 <= y < k - 1 implies s@.subrange(
                                    (p + 1) as int,
                                    (p + 1) + (k - 1),
                                )[y] == spec_netstring(x@)[y] by {
                                    assert(s@.subrange((p + 1) as int, (p + 1) + (k - 1))[y]
                                        == s@[p + 1 + y]);
                                    assert(s@.subrange(p as int, p + k)[1 + y] == s@[p + 1 + y]);
                                    assert(spec_opt_string(o)[1 + y] == spec_netstring(x@)[y]);
                                }
                            }
                        }
                    }
                }
                Some((Some(v), q))
            },
            None => {
                proof {
                    assert forall|o: Option<String>, k: int|
                        #![trigger s@.subrange(p as int, p + k), spec_opt_string(o)]
                        !(0 <= k && p + k <= s@.len() && s@.subrange(p as int, p + k)
                            =~= spec_opt_string(o)) by {
                        if 0 <= k && p + k <= s@.len() && s@.subrange(p as int, p + k)
                            =~= spec_opt_string(o) {
                            if o is None {
                                assert(s@[p as int] == spec_opt_string(o)[0]);
                            } else {
                                let x = o->0;
                                assert(s@.subrange((p + 1) as int, (p + 1) + (k - 1))
                                    =~= spec_netstring(x@)) by {
                                    assert forall|y: int| 0 <= y < k - 1 implies s@.subrange(
                                        (p + 1) as int,
                                        (p + 1) + (k - 1),
                                    )[y] == spec_netstring(x@)[y] by {
                                        assert(s@.subrange((p + 1) as int, (p + 1) + (k - 1))[y]
                                            == s@[p + 1 + y]);
                                        assert(s@.subrange(p as int, p + k)[1 + y] == s@[p + 1
                                            + y]);
                                        assert(spec_opt_string(o)[1 + y] == spec_netstring(
                                            x@,
                                        )[y]);
                                    }
                                }
                            }
                        }
                    }
                }
                None
            },
        }
    } else {
        proof {
            assert forall|o: Option<String>, k: int|
                #![trigger s@.subrange(p as int, p + k), spec_opt_string(o)]
                !(0 <= k && p + k <= s@.len() && s@.subrange(p as int, p + k) =~= spec_opt_string(
                    o,
                )) by {
                if 0 <= k && p + k <= s@.len() && s@.subrange(p as int, p + k)
                    =~= spec_opt_string(o) {
                    assert(s@[p as int] == spec_opt_string(o)[0]);
                }
            }
        }
        None
    }
}

/// Read an optional signed number: "-" for absent, "+" and the number.
fn read_opt_i64(s: &str, p: usize) -> (r: Option<(Option<i64>, usize)>)
    requires
        p <= s@.len(),
    ensures
        r matches Some(t) ==> p < t.1 <= s@.len() && s@.subrange(p as int, t.1 as int)
            =~= spec_opt_i64(t.0) && (t.0 matches Some(w) ==> w > i64::MIN),
        forall|o: Option<i64>, k: int|
            #![trigger s@.subrange(p as int, p + k), spec_opt_i64(o)]
            (0 <= k && p + k <= s@.len() && s@.subrange(p as int, p + k) =~= spec_opt_i64(o) && (
            o matches Some(w) ==> w > i64::MIN) && (p + k == s@.len() || !is_digit(s@[p + k])))
                ==> r == Some((o, (p + k) as usize)),
{
    proof {
        reveal_strlit("-");
        reveal_strlit("+");
    }
    let s_len = s.unicode_len();
    if p >= s_len {
        return None;
    }
    let c = s.get_char(p);
    if c == '-' {
        proof {
            assert(s@.subrange(p as int, p + 1) =~= "-"@);
            assert forall|o: Option<i64>, k: int|
                #![trigger s@.subrange(p as int, p + k), spec_opt_i64(o)]
                (0 <= k && p + k <= s@.len() && s@.subrange(p as int, p + k) =~= spec_opt_i64(o)
                    && (o matches Some(w) ==> w > i64::MIN) && (p + k == s@.len() || !is_digit(
                    s@[p + k],
                ))) implies o is None && p + k == p + 1 by {
                if o is Some {
                    assert(s@[p as int] == spec_opt_i64(o)[0]);
                }
                assert(spec_opt_i64(o).len() == 1);
            }
        }
        Some((None, p + 1))
    } else if c == '+' {
        match read_i64_field(s, p + 1) {
            Some((v, q)) => {
                proof {
                    assert(s@.subrange(p as int, q as int) =~= spec_opt_i64(Some(v))) by {
                        assert(s@.subrange(p as int, q as int)[0] == s@[p as int]);
                        assert forall|x: int| 1 <= x < q - p implies s@.subrange(
                            p as int,
                            q as int,
                        )[x] == ("+"@ + spec_i64_str(v as int))[x] by {
                            assert(s@.subrange(p as int, q as int)[x] == s@[p + x]);
                            assert(s@.subrange(p + 1, q as int)[x - 1] == s@[p + x]);
                        }
                    }
                    assert forall|o: Option<i64>, k: int|
                        #![trigger s@.subrange(p as int, p + k), spec_opt_i64(o)]
                        (0 <= k && p + k <= s@.len() && s@.subrange(p as int, p + k)
                            =~= spec_opt_i64(o) && (o matches Some(w) ==> w > i64::MIN) && (p + k
                            == s@.len() || !is_digit(s@[p + k]))) implies o == Some(v) && p + k
                        == q by {
                        if o is None {
                            assert(s@[p as int] == spec_opt_i64(o)[0]);
                        } else {
                            let w = o->0;
                            assert(s@.subrange((p + 1) as int, (p + 1) + (k - 1))
                                =~= spec_i64_str(w as int)) by {
                                assert forall|y: int| 0 <= y < k - 1 implies s@.subrange(
                                    (p + 1) as int,
                                    (p + 1) + (k - 1),
                                )[y] == spec_i64_str(w as int)[y] by {
                                    assert(s@.subrange((p + 1) as int, (p + 1) + (k - 1))[y]
                                        == s@[p + 1 + y]);
                                    assert(s@.subrange(p as int, p + k)[1 + y] == s@[p + 1 + y]);
                                    assert(spec_opt_i64(o)[1 + y] == spec_i64_str(w as int)[y]);
                                }
                            }
                        }
                    }
                }
                Some((Some(v), q))
            },
            None => {
                proof {
                    assert forall|o: Option<i64>, k: int|
                        #![trigger s@.subrange(p as int, p + k), spec_opt_i64(o)]
                        !(0 <= k && p + k <= s@.len() && s@.subrange(p as int, p + k)
                            =~= spec_opt_i64(o) && (o matches Some(w) ==> w > i64::MIN) && (p + k
                            == s@.len() || !is_digit(s@[p + k]))) by {
                        if (0 <= k && p + k <= s@.len() && s@.subrange(p as int, p + k)
                            =~= spec_opt_i64(o) && (o matches Some(w) ==> w > i64::MIN) && (p + k
                            == s@.len() || !is_digit(s@[p + k]))) {
                            if o is None {
                                assert(s@[p as int] == spec_opt_i64(o)[0]);
                            } else {
                                let w = o->0;
                                assert(s@.subrange((p + 1) as int, (p + 1) + (k - 1))
                                    =~= spec_i64_str(w as int)) by {
                                    assert forall|y: int| 0 <= y < k - 1 implies s@.subrange(
                                        (p + 1) as int,
                                        (p + 1) + (k - 1),
                                    )[y] == spec_i64_str(w as int)[y] by {
                                        assert(s@.subrange((p + 1) as int, (p + 1) + (k - 1))[y]
                                            == s@[p + 1 + y]);
                                        assert(s@.subrange(p as int, p + k)[1 + y] == s@[p + 1
                                            + y]);
                                        assert(spec_opt_i64(o)[1 + y] == spec_i64_str(
                                            w as int,
                                        )[y]);
                                    }
                                }
                            }
                        }
                    }
                }
                None
            },
        }
    } else {
        proof {
            assert forall|o: Option<i64>, k: int|
                #![trigger s@.subrange(p as int, p + k), spec_opt_i64(o)]
                !(0 <= k && p + k <= s@.len() && s@.subrange(p as int, p + k) =~= spec_opt_i64(o)
                    && (o matches Some(w) ==> w > i64::MIN) && (p + k == s@.len() || !is_digit(
                    s@[p + k],
                ))) by {
                if 0 <= k && p + k <= s@.len() && s@.subrange(p as int, p + k) =~= spec_opt_i64(
                    o,
                ) {
                    assert(s@[p as int] == spec_opt_i64(o)[0]);
                    if o is Some {
                        let w = o->0;
                        assert(spec_opt_i64(o)[0] == '+');
                    }
                }
            }
        }
        None
    }
}

/// Read an optional unsigned number: "-" for absent, "+" and the number.
fn read_opt_u64(s: &str, p: usize) -> (r: Option<(Option<u64>, usize)>)
    requires
        p <= s@.len(),
    ensures
        r matches Some(t) ==> p < t.1 <= s@.len() && s@.subrange(p as int, t.1 as int)
            =~= spec_opt_u64(t.0),
        forall|o: Option<u64>, k: int|
            #![trigger s@.subrange(p as int, p + k), spec_opt_u64(o)]
            (0 <= k && p + k <= s@.len() && s@.subrange(p as int, p + k) =~= spec_opt_u64(o) && (p
                + k == s@.len() || !is_digit(s@[p + k]))) ==> r == Some((o, (p + k) as usize)),
{
    proof {
        reveal_strlit("-");
        reveal_strlit("+");
    }
    let s_len = s.unicode_len();
    if p >= s_len {
        return None;
    }
    let c = s.get_char(p);
    if c == '-' {
        proof {
            assert(s@.subrange(p as int, p + 1) =~= "-"@);
            assert forall|o: Option<u64>, k: int|
                #![trigger s@.subrange(p as int, p + k), spec_opt_u64(o)]
                (0 <= k && p + k <= s@.len() && s@.subrange(p as int, p + k) =~= spec_opt_u64(o)
                    && (p + k == s@.len() || !is_digit(s@[p + k]))) implies o is None && p + k == p
                    + 1 by {
                if o is Some {
                    assert(s@[p as int] == spec_opt_u64(o)[0]);
                }
                assert(spec_opt_u64(o).len() == 1);
            }
        }
        Some((None, p + 1))
    } else if c == '+' {
        match read_u64_field(s, p + 1) {
            Some((v, q)) => {
                proof {
                    assert(s@.subrange(p as int, q as int) =~= spec_opt_u64(Some(v))) by {
                        assert(s@.subrange(p as int, q as int)[0] == s@[p as int]);
                        assert forall|x: int| 1 <= x < q - p implies s@.subrange(
                            p as int,
                            q as int,
                        )[x] == ("+"@ + dec_str(v as nat))[x] by {
                            assert(s@.subrange(p as int, q as int)[x] == s@[p + x]);
                            assert(s@.subrange(p + 1, q as int)[x - 1] == s@[p + x]);
                        }
                    }
                    assert forall|o: Option<u64>, k: int|
                        #![trigger s@.subrange(p as int, p + k), spec_opt_u64(o)]
                        (0 <= k && p + k <= s@.len() && s@.subrange(p as int, p + k)
                            =~= spec_opt_u64(o) && (p + k == s@.len() || !is_digit(s@[p + k])))
                        implies o == Some(v) && p + k == q by {
                        if o is None {
                            assert(s@[p as int] == spec_opt_u64(o)[0]);
                        } else {
                            let w = o->0;
                            assert(s@.subrange((p + 1) as int, (p + 1) + (k - 1)) =~= dec_str(
                                (w as u64) as nat,
                            )) by {
                                assert forall|y: int| 0 <= y < k - 1 implies s@.subrange(
                                    (p + 1) as int,
                                    (p + 1) + (k - 1),
                                )[y] == dec_str(w as nat)[y] by {
                                    assert(s@.subrange((p + 1) as int, (p + 1) + (k - 1))[y]
                                        == s@[p + 1 + y]);
                                    assert(s@.subrange(p as int, p + k)[1 + y] == s@[p + 1 + y]);
                                    assert(spec_opt_u64(o)[1 + y] == dec_str(w as nat)[y]);
                                }
                            }
                        }
                    }
                }
                Some((Some(v), q))
            },
            None => {
                proof {
                    assert forall|o: Option<u64>, k: int|
                        #![trigger s@.subrange(p as int, p + k), spec_opt_u64(o)]
                        !(0 <= k && p + k <= s@.len() && s@.subrange(p as int, p + k)
                            =~= spec_opt_u64(o) && (p + k == s@.len() || !is_digit(s@[p + k])))
                        by {
                        if (0 <= k && p + k <= s@.len() && s@.subrange(p as int, p + k)
                            =~= spec_opt_u64(o) && (p + k == s@.len() || !is_digit(s@[p + k]))) {
                            if o is None {
                                assert(s@[p as int] == spec_opt_u64(o)[0]);
                            } else {
                                let w = o->0;
                                assert(s@.subrange((p + 1) as int, (p + 1) + (k - 1)) =~= dec_str(
                                    (w as u64) as nat,
                                )) by {
                                    assert forall|y: int| 0 <= y < k - 1 implies s@.subrange(
                                        (p + 1) as int,
                                        (p + 1) + (k - 1),
                                    )[y] == dec_str(w as nat)[y] by {
                                        assert(s@.subrange((p + 1) as int, (p + 1) + (k - 1))[y]
                                            == s@[p + 1 + y]);
                                        assert(s@.subrange(p as int, p + k)[1 + y] == s@[p + 1
                                            + y]);
                                        assert(spec_opt_u64(o)[1 + y] == dec_str(w as nat)[y]);
                                    }
                                }
                            }
                        }
                    }
                }
                None
            },
        }
    } else {
        proof {
            assert forall|o: Option<u64>, k: int|
                #![trigger s@.subrange(p as int, p + k), spec_opt_u64(o)]
                !(0 <= k && p + k <= s@.len() && s@.subrange(p as int, p + k) =~= spec_opt_u64(o)
                    && (p + k == s@.len() || !is_digit(s@[p + k]))) by {
                if 0 <= k && p + k <= s@.len() && s@.subrange(p as int, p + k) =~= spec_opt_u64(
                    o,
                ) {
                    assert(s@[p as int] == spec_opt_u64(o)[0]);
                }
            }
        }
        None
    }
}

/// Read a status word.
fn read_status(s: &str, p: usize) -> (r: Option<(JobStatus, usize)>)
    requires
        p <= s@.len(),
    ensures
        r matches Some(t) ==> p < t.1 <= s@.len() && s@.subrange(p as int, t.1 as int)
            =~= spec_status_word(t.0),
        forall|st: JobStatus, k: int|
            #![trigger s@.subrange(p as int, p + k), spec_status_word(st)]
            (0 <= k && p + k <= s@.len() && s@.subrange(p as int, p + k) =~= spec_status_word(st))
                ==> r == Some((st, (p + k) as usize)),
{
    proof {
        reveal_strlit("PENDING");
        reveal_strlit("RUNNING");
        reveal_strlit("SUCCESS");
        reveal_strlit("FAILED");
        reveal_strlit("SKIPPED");
    }
    let r0 = expect_lit(s, p, "PENDING");
    if let Some(q) = r0 {
        proof {
            status_match_proof(s@, p as int, q as int, JobStatus::Pending);
        }
        return Some((JobStatus::Pending, q));
    }
    let r1 = expect_lit(s, p, "RUNNING");
    if let Some(q) = r1 {
        proof {
            status_match_proof(s@, p as int, q as int, JobStatus::Running);
        }
        return Some((JobStatus::Running, q));
    }
    let r2 = expect_lit(s, p, "SUCCESS");
    if let Some(q) = r2 {
        proof {
            status_match_proof(s@, p as int, q as int, JobStatus::Success);
        }
        return Some((JobStatus::Success, q));
    }
    let r3 = expect_lit(s, p, "FAILED") ;
    if let Some(q) = r3 {
        proof {
            status_match_proof(s@, p as int, q as int, JobStatus::Failed);
        }
        return Some((JobStatus::Failed, q));
    }
    let r4 = expect_lit(s, p, "SKIPPED");
    if let Some(q) = r4 {
        proof {
            status_match_proof(s@, p as int, q as int, JobStatus::Skipped);
        }
        return Some((JobStatus::Skipped, q));
    }
    proof {
        assert forall|st: JobStatus, k: int|
            #![trigger s@.subrange(p as int, p + k), spec_status_word(st)]
            !(0 <= k && p + k <= s@.len() && s@.subrange(p as int, p + k) =~= spec_status_word(
                st,
            )) by {
            reveal_strlit("PENDING");
            reveal_strlit("RUNNING");
            reveal_strlit("SUCCESS");
            reveal_strlit("FAILED");
            reveal_strlit("SKIPPED");
            if 0 <= k && p + k <= s@.len() && s@.subrange(p as int, p + k) =~= spec_status_word(
                st,
            ) {
                match st {
                    JobStatus::Pending => {
                        assert(s@.subrange(p as int, p + "PENDING"@.len()) =~= "PENDING"@);
                    },
                    JobStatus::Running => {
                        assert(s@.subrange(p as int, p + "RUNNING"@.len()) =~= "RUNNING"@);
                    },
                    JobStatus::Success => {
                        assert(s@.subrange(p as int, p + "SUCCESS"@.len()) =~= "SUCCESS"@);
                    },
                    JobStatus::Failed => {
                        assert(s@.subrange(p as int, p + "FAILED"@.len()) =~= "FAILED"@);
                    },
                    JobStatus::Skipped => {
                        assert(s@.subrange(p as int, p + "SKIPPED"@.len()) =~= "SKIPPED"@);
                    },
                }
            }
        }
    }
    None
}

/// After a status word matched at `[p, q)`, no other status word can be
/// read there: the five words differ within their first two characters.
proof fn status_match_proof(s: Seq<char>, p: int, q: int, matched: JobStatus)
    requires
        0 <= p <= q <= s.len(),
        s.subrange(p, q) =~= spec_status_word(matched),
    ensures
        forall|st: JobStatus, k: int|
            #![trigger s.subrange(p, p + k), spec_status_word(st)]
            (0 <= k && p + k <= s.len() && s.subrange(p, p + k) =~= spec_status_word(st)) ==> st
                == matched && p + k == q,
{
    reveal_strlit("PENDING");
    reveal_strlit("RUNNING");
    reveal_strlit("SUCCESS");
    reveal_strlit("FAILED");
    reveal_strlit("SKIPPED");
    assert forall|st: JobStatus, k: int|
        #![trigger s.subrange(p, p + k), spec_status_word(st)]
        (0 <= k && p + k <= s.len() && s.subrange(p, p + k) =~= spec_status_word(st)) implies st
        == matched && p + k == q by {
        assert(spec_status_word(matched).len() >= 6);
        assert(spec_status_word(st).len() >= 6);
        assert(s.subrange(p, q).len() == q - p);
        assert(s.subrange(p, p + k).len() == k);
        assert(q - p >= 6);
        assert(k >= 6);
        assert(s.subrange(p, q)[0] == s[p]);
        assert(s.subrange(p, p + k)[0] == s[p]);
        assert(s[p] == spec_status_word(matched)[0]);
        assert(s[p] == spec_status_word(st)[0]);
        assert(s.subrange(p, q)[1] == s[p + 1]);
        assert(s.subrange(p, p + k)[1] == s[p + 1]);
        assert(s[p + 1] == spec_status_word(matched)[1]);
        assert(s[p + 1] == spec_status_word(st)[1]);
    }
}

/// Read a boolean word.
fn read_bool(s: &str, p: usize) -> (r: Option<(bool, usize)>)
    requires
        p <= s@.len(),
    ensures
        r matches Some(t) ==> p < t.1 <= s@.len() && s@.subrange(p as int, t.1 as int)
            =~= spec_bool_word(t.0),
        forall|b: bool, k: int|
            #![trigger s@.subrange(p as int, p + k), spec_bool_word(b)]
            (0 <= k && p + k <= s@.len() && s@.subrange(p as int, p + k) =~= spec_bool_word(b))
                ==> r == Some((b, (p + k) as usize)),
{
    proof {
        reveal_strlit("true");
        reveal_strlit("false");
    }
    let r0 = expect_lit(s, p, "true");
    if let Some(q) = r0 {
        proof {
            assert forall|b: bool, k: int|
                #![trigger s@.subrange(p as int, p + k), spec_bool_word(b)]
                (0 <= k && p + k <= s@.len() && s@.subrange(p as int, p + k) =~= spec_bool_word(
                    b,
                )) implies b == true && p + k == q by {
                assert(s@[p as int] == "true"@[0]) by {
                    assert(s@.subrange(p as int, q as int)[0] == s@[p as int]);
                }
                assert(s@[p as int] == spec_bool_word(b)[0]) by {
                    assert(s@.subrange(p as int, p + k)[0] == s@[p as int]);
                }
            }
        }
        return Some((true, q));
    }
    let r1 = expect_lit(s, p, "false");
    if let Some(q) = r1 {
        proof {
            assert forall|b: bool, k: int|
                #![trigger s@.subrange(p as int, p + k), spec_bool_word(b)]
                (0 <= k && p + k <= s@.len() && s@.subrange(p as int, p + k) =~= spec_bool_word(
                    b,
                )) implies b == false && p + k == q by {
                assert(s@[p as int] == "false"@[0]) by {
                    assert(s@.subrange(p as int, q as int)[0] == s@[p as int]);
                }
                assert(s@[p as int] == spec_bool_word(b)[0]) by {
                    assert(s@.subrange(p as int, p + k)[0] == s@[p as int]);
                }
            }
        }
        return Some((false, q));
    }
    proof {
        assert forall|b: bool, k: int|
            #![trigger s@.subrange(p as int, p + k), spec_bool_word(b)]
            !(0 <= k && p + k <= s@.len() && s@.subrange(p as int, p + k) =~= spec_bool_word(b))
            by {
            if 0 <= k && p + k <= s@.len() && s@.subrange(p as int, p + k) =~= spec_bool_word(b) {
                if b {
                    assert(s@.subrange(p as int, p + "true"@.len()) =~= "true"@);
                } else {
                    assert(s@.subrange(p as int, p + "false"@.len()) =~= "false"@);
                }
            }
        }
    }
    None
}

/// A range that reads as a concatenation splits at the first part's end.
proof fn lemma_chop(s: Seq<char>, p: int, k: int, a: Seq<char>, b: Seq<char>)
    requires
        0 <= p,
        0 <= k,
        p + k <= s.len(),
        k == a.len() + b.len(),
        s.subrange(p, p + k) =~= a + b,
    ensures
        s.subrange(p, p + a.len()) =~= a,
        s.subrange(p + a.len(), p + k) =~= b,
{
    assert forall|x: int| 0 <= x < a.len() implies s.subrange(p, p + a.len())[x] == a[x] by {
        assert(s.subrange(p, p + a.len())[x] == s[p + x]);
        assert(s.subrange(p, p + k)[x] == s[p + x]);
        assert((a + b)[x] == a[x]);
    }
    assert forall|x: int| 0 <= x < b.len() implies s.subrange(p + a.len(), p + k)[x] == b[x] by {
        assert(s.subrange(p + a.len(), p + k)[x] == s[p + a.len() + x]);
        assert(s.subrange(p, p + k)[a.len() + x] == s[p + a.len() + x]);
        assert((a + b)[a.len() + x] == b[x]);
    }
}

/// Two adjacent ranges concatenate.
proof fn lemma_join(s: Seq<char>, p: int, m: int, q: int, a: Seq<char>, b: Seq<char>)
    requires
        0 <= p <= m <= q <= s.len(),
        s.subrange(p, m) =~= a,
        s.subrange(m, q) =~= b,
    ensures
        s.subrange(p, q) =~= a + b,
{
    assert forall|x: int| 0 <= x < q - p implies s.subrange(p, q)[x] == (a + b)[x] by {
        assert(s.subrange(p, q)[x] == s[p + x]);
        if x < m - p {
            assert(s.subrange(p, m)[x] == s[p + x]);
        } else {
            assert(s.subrange(m, q)[x - (m - p)] == s[p + x]);
        }
    }
}

/// Fields from the special-handling flag on agree.
pub open spec fn agree_from_webrip(a: TranscodeJob, b: TranscodeJob) -> bool {
    a.is_webrip_like == b.is_webrip_like
}

/// Fields from the new-size field on agree.
pub open spec fn agree_from_new(a: TranscodeJob, b: TranscodeJob) -> bool {
    a.new_bytes == b.new_bytes && agree_from_webrip(a, b)
}

/// Fields from the original-size field on agree.
pub open spec fn agree_from_orig(a: TranscodeJob, b: TranscodeJob) -> bool {
    a.original_bytes == b.original_bytes && agree_from_new(a, b)
}

/// Fields from the reason field on agree (reason texts by view).
pub open spec fn agree_from_reason(a: TranscodeJob, b: TranscodeJob) -> bool {
    &&& (a.reason is Some <==> b.reason is Some)
    &&& (b.reason matches Some(x) ==> a.reason matches Some(y) && y.0@ == x.0@)
    &&& agree_from_orig(a, b)
}

/// Fields from the status word on agree.
pub open spec fn agree_from_status(a: TranscodeJob, b: TranscodeJob) -> bool {
    a.status == b.status && agree_from_reason(a, b)
}

/// Fields from the finish timestamp on agree.
pub open spec fn agree_from_finished(a: TranscodeJob, b: TranscodeJob) -> bool {
    a.finished_at == b.finished_at && agree_from_status(a, b)
}

/// Fields from the start timestamp on agree.
pub open spec fn agree_from_started(a: TranscodeJob, b: TranscodeJob) -> bool {
    a.started_at == b.started_at && agree_from_finished(a, b)
}

/// Fields from the creation timestamp on agree.
pub open spec fn agree_from_created(a: TranscodeJob, b: TranscodeJob) -> bool {
    a.created_at == b.created_at && agree_from_started(a, b)
}

/// Fields from the output path on agree (paths by view).
pub open spec fn agree_from_out(a: TranscodeJob, b: TranscodeJob) -> bool {
    &&& (a.output_path is Some <==> b.output_path is Some)
    &&& (b.output_path matches Some(x) ==> a.output_path matches Some(y) && y@ == x@)
    &&& agree_from_created(a, b)
}

/// Fields from the source path on agree.
pub open spec fn agree_from_src(a: TranscodeJob, b: TranscodeJob) -> bool {
    a.source_path@ == b.source_path@ && agree_from_out(a, b)
}

/// All fields agree (text fields by view).
pub open spec fn spec_jobs_agree(a: TranscodeJob, b: TranscodeJob) -> bool {
    a.id@ == b.id@ && agree_from_src(a, b)
}

/// The digit run before the colon renders the content length, so the
/// consumed range is exactly the canonical netstring of the content.
proof fn lemma_canonical_digits_bridge(s: Seq<char>, p: int, q1: int, q3: int, len_val: u64)
    requires
        0 <= p <= q1,
        q1 + 1 <= q3 <= s.len(),
        s.subrange(p, q1) =~= dec_str(len_val as nat),
        s[q1] == ':',
        q3 == q1 + 1 + len_val,
    ensures
        s.subrange(p, q3) =~= spec_netstring(s.subrange(q1 + 1, q3)),
{
    reveal_strlit(":");
    let content = s.subrange(q1 + 1, q3);
    assert(content.len() == len_val);
    assert(spec_netstring(content) == dec_str(len_val as nat) + ":"@ + content);
    assert(s.subrange(p, q3) =~= dec_str(len_val as nat) + ":"@ + content);
}


/// Parse the record text from the special-handling flag on; every earlier
/// field of the returned record is a placeholder for the caller to fill.
fn parse_from_webrip(s: &str, p: usize) -> (r: Option<(TranscodeJob, usize)>)
    requires
        p <= s@.len(),
    ensures
        r matches Some(t) ==> p <= t.1 <= s@.len() && s@.subrange(p as int, t.1 as int)
            =~= spec_enc_from_webrip(t.0) && spec_encodable(t.0),
        forall|j: TranscodeJob, k: int|
            #![trigger s@.subrange(p as int, p + k), spec_enc_from_webrip(j)]
            (0 <= k && p + k <= s@.len() && s@.subrange(p as int, p + k) =~= spec_enc_from_webrip(
                j,
            ) && spec_encodable(j)) ==> r is Some && (r matches Some(t) ==> agree_from_webrip(
                t.0,
                j,
            ) && t.1 == p + k),
{
    proof {
        assert forall|j: TranscodeJob, k: int|
            #![trigger s@.subrange(p as int, p + k), spec_enc_from_webrip(j)]
            (0 <= k && p + k <= s@.len() && s@.subrange(p as int, p + k)
                =~= spec_enc_from_webrip(j) && spec_encodable(j)) implies (s@.subrange(
            p as int,
            p + " webrip "@.len(),
        )
            =~= " webrip "@ && s@.subrange(p + " webrip "@.len(), p + k) =~= spec_bool_word(
            j.is_webrip_like,
        )) by {
            lemma_chop(
                s@,
                p as int,
                k,
                " webrip "@,
                spec_bool_word(j.is_webrip_like),
            );
        }
    }
    let q1 = match expect_lit(s, p, " webrip ") {
        Some(q) => q,
        None => {
            proof {
                assert forall|j: TranscodeJob, k: int|
                    #![trigger s@.subrange(p as int, p + k), spec_enc_from_webrip(j)]
                    !(0 <= k && p + k <= s@.len() && s@.subrange(p as int, p + k)
                        =~= spec_enc_from_webrip(j) && spec_encodable(j)) by {
                    if 0 <= k && p + k <= s@.len() && s@.subrange(p as int, p + k)
                        =~= spec_enc_from_webrip(j) && spec_encodable(j) {
                        assert(s@.subrange(p as int, p + " webrip "@.len()) =~= " webrip "@);
                        assert(p + " webrip "@.len() <= s@.len());
                    }
                }
            }
            return None;
        },
    };
    let (flag, q2) = match read_bool(s, q1) {
        Some(t) => t,
        None => {
            proof {
                assert forall|j: TranscodeJob, k: int|
                    #![trigger s@.subrange(p as int, p + k), spec_enc_from_webrip(j)]
                    !(0 <= k && p + k <= s@.len() && s@.subrange(p as int, p + k)
                        =~= spec_enc_from_webrip(j) && spec_encodable(j)) by {
                    if 0 <= k && p + k <= s@.len() && s@.subrange(p as int, p + k)
                        =~= spec_enc_from_webrip(j) && spec_encodable(j) {
                        assert(s@.subrange(q1 as int, q1 + (k - " webrip "@.len()))
                            =~= spec_bool_word(j.is_webrip_like));
                    }
                }
            }
            return None;
        },
    };
    proof {
        assert forall|j: TranscodeJob, k: int|
            #![trigger s@.subrange(p as int, p + k), spec_enc_from_webrip(j)]
            (0 <= k && p + k <= s@.len() && s@.subrange(p as int, p + k)
                =~= spec_enc_from_webrip(j) && spec_encodable(j)) implies flag
            == j.is_webrip_like && q2 == p + k by {
            assert(s@.subrange(q1 as int, q1 + (k - " webrip "@.len())) =~= spec_bool_word(
                j.is_webrip_like,
            ));
        }
    }
    let job = TranscodeJob {
        id: String::new(),
        source_path: String::new(),
        output_path: None,
        created_at: 0,
        started_at: None,
        finished_at: None,
        status: JobStatus::Pending,
        reason: None,
        original_bytes: None,
        new_bytes: None,
        is_webrip_like: flag,
    };
    proof {
        lemma_join(
            s@,
            p as int,
            q1 as int,
            q2 as int,
            " webrip "@,
            spec_bool_word(flag),
        );
        assert(s@.subrange(p as int, q2 as int) =~= spec_enc_from_webrip(job));
    }
    Some((job, q2))
}

/// Parse the record text from the new-size field on.
fn parse_from_new(s: &str, p: usize) -> (r: Option<(TranscodeJob, usize)>)
    requires
        p <= s@.len(),
    ensures
        r matches Some(t) ==> p <= t.1 <= s@.len() && s@.subrange(p as int, t.1 as int)
            =~= spec_enc_from_new(t.0) && spec_encodable(t.0),
        forall|j: TranscodeJob, k: int|
            #![trigger s@.subrange(p as int, p + k), spec_enc_from_new(j)]
            (0 <= k && p + k <= s@.len() && s@.subrange(p as int, p + k) =~= spec_enc_from_new(j)
                && spec_encodable(j)) ==> r is Some && (r matches Some(t) ==> agree_from_new(
                t.0,
                j,
            ) && t.1 == p + k),
{
    proof {
        assert forall|j: TranscodeJob, k: int|
            #![trigger s@.subrange(p as int, p + k), spec_enc_from_new(j)]
            (0 <= k && p + k <= s@.len() && s@.subrange(p as int, p + k) =~= spec_enc_from_new(j)
                && spec_encodable(j)) implies (s@.subrange(p as int, p + " new "@.len())
            =~= " new "@ && s@.subrange(p + " new "@.len(), p + " new "@.len() + spec_opt_u64(
            j.new_bytes,
        ).len()) =~= spec_opt_u64(j.new_bytes) && s@.subrange(
            p + " new "@.len() + spec_opt_u64(j.new_bytes).len(),
            p + k,
        ) =~= spec_enc_from_webrip(j) && !is_digit(
            s@[p + " new "@.len() + spec_opt_u64(j.new_bytes).len()],
        )) by {
            lemma_chop(
                s@,
                p as int,
                k,
                " new "@,
                spec_opt_u64(j.new_bytes) + spec_enc_from_webrip(j),
            );
            lemma_chop(
                s@,
                p + " new "@.len(),
                k - " new "@.len(),
                spec_opt_u64(j.new_bytes),
                spec_enc_from_webrip(j),
            );
            reveal_strlit(" webrip ");
            let b = p + " new "@.len() + spec_opt_u64(j.new_bytes).len();
            assert(s@.subrange(b, p + k)[0] == s@[b]);
            assert(spec_enc_from_webrip(j)[0] == ' ');
            assert(!is_digit(' ')) by {
                assert(' ' as int == 32);
            }
        }
    }
    let q1 = match expect_lit(s, p, " new ") {
        Some(q) => q,
        None => {
            proof {
                assert forall|j: TranscodeJob, k: int|
                    #![trigger s@.subrange(p as int, p + k), spec_enc_from_new(j)]
                    !(0 <= k && p + k <= s@.len() && s@.subrange(p as int, p + k)
                        =~= spec_enc_from_new(j) && spec_encodable(j)) by {
                    if 0 <= k && p + k <= s@.len() && s@.subrange(p as int, p + k)
                        =~= spec_enc_from_new(j) && spec_encodable(j) {
                        assert(s@.subrange(p as int, p + " new "@.len()) =~= " new "@);
                        assert(p + " new "@.len() <= s@.len());
                    }
                }
            }
            return None;
        },
    };
    let (value, q2) = match read_opt_u64(s, q1) {
        Some(t) => t,
        None => {
            proof {
                assert forall|j: TranscodeJob, k: int|
                    #![trigger s@.subrange(p as int, p + k), spec_enc_from_new(j)]
                    !(0 <= k && p + k <= s@.len() && s@.subrange(p as int, p + k)
                        =~= spec_enc_from_new(j) && spec_encodable(j)) by {
                    if 0 <= k && p + k <= s@.len() && s@.subrange(p as int, p + k)
                        =~= spec_enc_from_new(j) && spec_encodable(j) {
                        assert(s@.subrange(q1 as int, q1 + spec_opt_u64(j.new_bytes).len())
                            =~= spec_opt_u64(j.new_bytes));
                    }
                }
            }
            return None;
        },
    };
    proof {
        assert forall|j: TranscodeJob, k: int|
            #![trigger s@.subrange(p as int, p + k), spec_enc_from_new(j)]
            (0 <= k && p + k <= s@.len() && s@.subrange(p as int, p + k) =~= spec_enc_from_new(j)
                && spec_encodable(j)) implies value == j.new_bytes && q2 == p + " new "@.len()
            + spec_opt_u64(j.new_bytes).len() && s@.subrange(q2 as int, q2 + (p + k - q2))
            =~= spec_enc_from_webrip(j) by {
            assert(s@.subrange(q1 as int, q1 + spec_opt_u64(j.new_bytes).len()) =~= spec_opt_u64(
                j.new_bytes,
            ));
            assert(s@.subrange(q2 as int, q2 + (p + k - q2)) == s@.subrange(
                p + " new "@.len() + spec_opt_u64(j.new_bytes).len(),
                p + k,
            ));
        }
    }
    let rest = match parse_from_webrip(s, q2) {
        Some(t) => t,
        None => {
            return None;
        },
    };
    let (tail_job, q3) = rest;
    let job = TranscodeJob { new_bytes: value, ..tail_job };
    proof {
        lemma_join(
            s@,
            q1 as int,
            q2 as int,
            q3 as int,
            spec_opt_u64(value),
            spec_enc_from_webrip(tail_job),
        );
        lemma_join(
            s@,
            p as int,
            q1 as int,
            q3 as int,
            " new "@,
            spec_opt_u64(value) + spec_enc_from_webrip(tail_job),
        );
        assert(s@.subrange(p as int, q3 as int) =~= spec_enc_from_new(job));
    }
    Some((job, q3))
}

/// Parse the record text from the orig field on.
fn parse_from_orig(s: &str, p: usize) -> (r: Option<(TranscodeJob, usize)>)
    requires
        p <= s@.len(),
    ensures
        r matches Some(t) ==> p <= t.1 <= s@.len() && s@.subrange(p as int, t.1 as int)
            =~= spec_enc_from_orig(t.0) && spec_encodable(t.0),
        forall|j: TranscodeJob, k: int|
            #![trigger s@.subrange(p as int, p + k), spec_enc_from_orig(j)]
            (0 <= k && p + k <= s@.len() && s@.subrange(p as int, p + k) =~= spec_enc_from_orig(j)
                && spec_encodable(j)) ==> r is Some && (r matches Some(t) ==> agree_from_orig(
                t.0,
                j,
            ) && t.1 == p + k),
{
    proof {
        assert forall|j: TranscodeJob, k: int|
            #![trigger s@.subrange(p as int, p + k), spec_enc_from_orig(j)]
            (0 <= k && p + k <= s@.len() && s@.subrange(p as int, p + k) =~= spec_enc_from_orig(j)
                && spec_encodable(j)) implies (s@.subrange(p as int, p + " orig "@.len())
            =~= " orig "@ && s@.subrange(p + " orig "@.len(), p + " orig "@.len() + spec_opt_u64(j.original_bytes).len())
            =~= spec_opt_u64(j.original_bytes) && s@.subrange(
            p + " orig "@.len() + spec_opt_u64(j.original_bytes).len(),
            p + k,
        ) =~= spec_enc_from_new(j) && !is_digit(
            s@[p + " orig "@.len() + spec_opt_u64(j.original_bytes).len()],
        )) by {
            lemma_chop(
                s@,
                p as int,
                k,
                " orig "@,
                spec_opt_u64(j.original_bytes) + spec_enc_from_new(j),
            );
            lemma_chop(
                s@,
                p + " orig "@.len(),
                k - " orig "@.len(),
                spec_opt_u64(j.original_bytes),
                spec_enc_from_new(j),
            );
            reveal_strlit(" new ");
            let b = p + " orig "@.len() + spec_opt_u64(j.original_bytes).len();
            assert(s@.subrange(b, p + k)[0] == s@[b]);
            assert(spec_enc_from_new(j)[0] == ' ');
            assert(!is_digit(' ')) by {
                assert(' ' as int == 32);
            }
        }
    }
    let q1 = match expect_lit(s, p, " orig ") {
        Some(q) => q,
        None => {
            proof {
                assert forall|j: TranscodeJob, k: int|
                    #![trigger s@.subrange(p as int, p + k), spec_enc_from_orig(j)]
                    !(0 <= k && p + k <= s@.len() && s@.subrange(p as int, p + k)
                        =~= spec_enc_from_orig(j) && spec_encodable(j)) by {
                    if 0 <= k && p + k <= s@.len() && s@.subrange(p as int, p + k)
                        =~= spec_enc_from_orig(j) && spec_encodable(j) {
                        assert(s@.subrange(p as int, p + " orig "@.len()) =~= " orig "@);
                        assert(p + " orig "@.len() <= s@.len());
                    }
                }
            }
            return None;
        },
    };
    let (value, q2) = match read_opt_u64(s, q1) {
        Some(t) => t,
        None => {
            proof {
                assert forall|j: TranscodeJob, k: int|
                    #![trigger s@.subrange(p as int, p + k), spec_enc_from_orig(j)]
                    !(0 <= k && p + k <= s@.len() && s@.subrange(p as int, p + k)
                        =~= spec_enc_from_orig(j) && spec_encodable(j)) by {
                    if 0 <= k && p + k <= s@.len() && s@.subrange(p as int, p + k)
                        =~= spec_enc_from_orig(j) && spec_encodable(j) {
                        assert(s@.subrange(q1 as int, q1 + spec_opt_u64(j.original_bytes).len())
                            =~= spec_opt_u64(j.original_bytes));
                    }
                }
            }
            return None;
        },
    };
    proof {
        assert forall|j: TranscodeJob, k: int|
            #![trigger s@.subrange(p as int, p + k), spec_enc_from_orig(j)]
            (0 <= k && p + k <= s@.len() && s@.subrange(p as int, p + k) =~= spec_enc_from_orig(j)
                && spec_encodable(j)) implies value == j.original_bytes && q2 == p + " orig "@.len()
            + spec_opt_u64(j.original_bytes).len() && s@.subrange(q2 as int, q2 + (p + k - q2))
            =~= spec_enc_from_new(j) by {
            assert(s@.subrange(q1 as int, q1 + spec_opt_u64(j.original_bytes).len()) =~= spec_opt_u64(j.original_bytes));
            assert(s@.subrange(q2 as int, q2 + (p + k - q2)) == s@.subrange(
                p + " orig "@.len() + spec_opt_u64(j.original_bytes).len(),
                p + k,
            ));
        }
    }
    let rest = match parse_from_new(s, q2) {
        Some(t) => t,
        None => {
            return None;
        },
    };
    let (tail_job, q3) = rest;
    let job = TranscodeJob { original_bytes: value, ..tail_job };
    proof {
        lemma_join(
            s@,
            q1 as int,
            q2 as int,
            q3 as int,
            spec_opt_u64(value),
            spec_enc_from_new(tail_job),
        );
        lemma_join(
            s@,
            p as int,
            q1 as int,
            q3 as int,
            " orig "@,
            spec_opt_u64(value) + spec_enc_from_new(tail_job),
        );
        assert(s@.subrange(p as int, q3 as int) =~= spec_enc_from_orig(job));
    }
    Some((job, q3))
}

/// Parse the record text from the finished field on.
fn parse_from_finished(s: &str, p: usize) -> (r: Option<(TranscodeJob, usize)>)
    requires
        p <= s@.len(),
    ensures
        r matches Some(t) ==> p <= t.1 <= s@.len() && s@.subrange(p as int, t.1 as int)
            =~= spec_enc_from_finished(t.0) && spec_encodable(t.0),
        forall|j: TranscodeJob, k: int|
            #![trigger s@.subrange(p as int, p + k), spec_enc_from_finished(j)]
            (0 <= k && p + k <= s@.len() && s@.subrange(p as int, p + k) =~= spec_enc_from_finished(j)
                && spec_encodable(j)) ==> r is Some && (r matches Some(t) ==> agree_from_finished(
                t.0,
                j,
            ) && t.1 == p + k),
{
    proof {
        assert forall|j: TranscodeJob, k: int|
            #![trigger s@.subrange(p as int, p + k), spec_enc_from_finished(j)]
            (0 <= k && p + k <= s@.len() && s@.subrange(p as int, p + k) =~= spec_enc_from_finished(j)
                && spec_encodable(j)) implies (s@.subrange(p as int, p + " finished "@.len())
            =~= " finished "@ && s@.subrange(p + " finished "@.len(), p + " finished "@.len() + spec_opt_i64(j.finished_at).len())
            =~= spec_opt_i64(j.finished_at) && s@.subrange(
            p + " finished "@.len() + spec_opt_i64(j.finished_at).len(),
            p + k,
        ) =~= spec_enc_from_status(j) && !is_digit(
            s@[p + " finished "@.len() + spec_opt_i64(j.finished_at).len()],
        )) by {
            lemma_chop(
                s@,
                p as int,
                k,
                " finished "@,
                spec_opt_i64(j.finished_at) + spec_enc_from_status(j),
            );
            lemma_chop(
                s@,
                p + " finished "@.len(),
                k - " finished "@.len(),
                spec_opt_i64(j.finished_at),
                spec_enc_from_status(j),
            );
            reveal_strlit(" status ");
            let b = p + " finished "@.len() + spec_opt_i64(j.finished_at).len();
            assert(s@.subrange(b, p + k)[0] == s@[b]);
            assert(spec_enc_from_status(j)[0] == ' ');
            assert(!is_digit(' ')) by {
                assert(' ' as int == 32);
            }
        }
    }
    let q1 = match expect_lit(s, p, " finished ") {
        Some(q) => q,
        None => {
            proof {
                assert forall|j: TranscodeJob, k: int|
                    #![trigger s@.subrange(p as int, p + k), spec_enc_from_finished(j)]
                    !(0 <= k && p + k <= s@.len() && s@.subrange(p as int, p + k)
                        =~= spec_enc_from_finished(j) && spec_encodable(j)) by {
                    if 0 <= k && p + k <= s@.len() && s@.subrange(p as int, p + k)
                        =~= spec_enc_from_finished(j) && spec_encodable(j) {
                        assert(s@.subrange(p as int, p + " finished "@.len()) =~= " finished "@);
                        assert(p + " finished "@.len() <= s@.len());
                    }
                }
            }
            return None;
        },
    };
    let (value, q2) = match read_opt_i64(s, q1) {
        Some(t) => t,
        None => {
            proof {
                assert forall|j: TranscodeJob, k: int|
                    #![trigger s@.subrange(p as int, p + k), spec_enc_from_finished(j)]
                    !(0 <= k && p + k <= s@.len() && s@.subrange(p as int, p + k)
                        =~= spec_enc_from_finished(j) && spec_encodable(j)) by {
                    if 0 <= k && p + k <= s@.len() && s@.subrange(p as int, p + k)
                        =~= spec_enc_from_finished(j) && spec_encodable(j) {
                        assert(s@.subrange(q1 as int, q1 + spec_opt_i64(j.finished_at).len())
                            =~= spec_opt_i64(j.finished_at));
                    }
                }
            }
            return None;
        },
    };
    proof {
        assert forall|j: TranscodeJob, k: int|
            #![trigger s@.subrange(p as int, p + k), spec_enc_from_finished(j)]
            (0 <= k && p + k <= s@.len() && s@.subrange(p as int, p + k) =~= spec_enc_from_finished(j)
                && spec_encodable(j)) implies value == j.finished_at && q2 == p + " finished "@.len()
            + spec_opt_i64(j.finished_at).len() && s@.subrange(q2 as int, q2 + (p + k - q2))
            =~= spec_enc_from_status(j) by {
            assert(s@.subrange(q1 as int, q1 + spec_opt_i64(j.finished_at).len()) =~= spec_opt_i64(j.finished_at));
            assert(s@.subrange(q2 as int, q2 + (p + k - q2)) == s@.subrange(
                p + " finished "@.len() + spec_opt_i64(j.finished_at).len(),
                p + k,
            ));
        }
    }
    let rest = match parse_from_status(s, q2) {
        Some(t) => t,
        None => {
            return None;
        },
    };
    let (tail_job, q3) = rest;
    let job = TranscodeJob { finished_at: value, ..tail_job };
    proof {
        lemma_join(
            s@,
            q1 as int,
            q2 as int,
            q3 as int,
            spec_opt_i64(value),
            spec_enc_from_status(tail_job),
        );
        lemma_join(
            s@,
            p as int,
            q1 as int,
            q3 as int,
            " finished "@,
            spec_opt_i64(value) + spec_enc_from_status(tail_job),
        );
        assert(s@.subrange(p as int, q3 as int) =~= spec_enc_from_finished(job));
    }
    Some((job, q3))
}

/// Parse the record text from the started field on.
fn parse_from_started(s: &str, p: usize) -> (r: Option<(TranscodeJob, usize)>)
    requires
        p <= s@.len(),
    ensures
        r matches Some(t) ==> p <= t.1 <= s@.len() && s@.subrange(p as int, t.1 as int)
            =~= spec_enc_from_started(t.0) && spec_encodable(t.0),
        forall|j: TranscodeJob, k: int|
            #![trigger s@.subrange(p as int, p + k), spec_enc_from_started(j)]
            (0 <= k && p + k <= s@.len() && s@.subrange(p as int, p + k) =~= spec_enc_from_started(j)
                && spec_encodable(j)) ==> r is Some && (r matches Some(t) ==> agree_from_started(
                t.0,
                j,
            ) && t.1 == p + k),
{
    proof {
        assert forall|j: TranscodeJob, k: int|
            #![trigger s@.subrange(p as int, p + k), spec_enc_from_started(j)]
            (0 <= k && p + k <= s@.len() && s@.subrange(p as int, p + k) =~= spec_enc_from_started(j)
                && spec_encodable(j)) implies (s@.subrange(p as int, p + " started "@.len())
            =~= " started "@ && s@.subrange(p + " started "@.len(), p + " started "@.len() + spec_opt_i64(j.started_at).len())
            =~= spec_opt_i64(j.started_at) && s@.subrange(
            p + " started "@.len() + spec_opt_i64(j.started_at).len(),
            p + k,
        ) =~= spec_enc_from_finished(j) && !is_digit(
            s@[p + " started "@.len() + spec_opt_i64(j.started_at).len()],
        )) by {
            lemma_chop(
                s@,
                p as int,
                k,
                " started "@,
                spec_opt_i64(j.started_at) + spec_enc_from_finished(j),
            );
            lemma_chop(
                s@,
                p + " started "@.len(),
                k - " started "@.len(),
                spec_opt_i64(j.started_at),
                spec_enc_from_finished(j),
            );
            reveal_strlit(" finished ");
            let b = p + " started "@.len() + spec_opt_i64(j.started_at).len();
            assert(s@.subrange(b, p + k)[0] == s@[b]);
            assert(spec_enc_from_finished(j)[0] == ' ');
            assert(!is_digit(' ')) by {
                assert(' ' as int == 32);
            }
        }
    }
    let q1 = match expect_lit(s, p, " started ") {
        Some(q) => q,
        None => {
            proof {
                assert forall|j: TranscodeJob, k: int|
                    #![trigger s@.subrange(p as int, p + k), spec_enc_from_started(j)]
                    !(0 <= k && p + k <= s@.len() && s@.subrange(p as int, p + k)
                        =~= spec_enc_from_started(j) && spec_encodable(j)) by {
                    if 0 <= k && p + k <= s@.len() && s@.subrange(p as int, p + k)
                        =~= spec_enc_from_started(j) && spec_encodable(j) {
                        assert(s@.subrange(p as int, p + " started "@.len()) =~= " started "@);
                        assert(p + " started "@.len() <= s@.len());
                    }
                }
            }
            return None;
        },
    };
    let (value, q2) = match read_opt_i64(s, q1) {
        Some(t) => t,
        None => {
            proof {
                assert forall|j: TranscodeJob, k: int|
                    #![trigger s@.subrange(p as int, p + k), spec_enc_from_started(j)]
                    !(0 <= k && p + k <= s@.len() && s@.subrange(p as int, p + k)
                        =~= spec_enc_from_started(j) && spec_encodable(j)) by {
                    if 0 <= k && p + k <= s@.len() && s@.subrange(p as int, p + k)
                        =~= spec_enc_from_started(j) && spec_encodable(j) {
                        assert(s@.subrange(q1 as int, q1 + spec_opt_i64(j.started_at).len())
                            =~= spec_opt_i64(j.started_at));
                    }
                }
            }
            return None;
        },
    };
    proof {
        assert forall|j: TranscodeJob, k: int|
            #![trigger s@.subrange(p as int, p + k), spec_enc_from_started(j)]
            (0 <= k && p + k <= s@.len() && s@.subrange(p as int, p + k) =~= spec_enc_from_started(j)
                && spec_encodable(j)) implies value == j.started_at && q2 == p + " started "@.len()
            + spec_opt_i64(j.started_at).len() && s@.subrange(q2 as int, q2 + (p + k - q2))
            =~= spec_enc_from_finished(j) by {
            assert(s@.subrange(q1 as int, q1 + spec_opt_i64(j.started_at).len()) =~= spec_opt_i64(j.started_at));
            assert(s@.subrange(q2 as int, q2 + (p + k - q2)) == s@.subrange(
                p + " started "@.len() + spec_opt_i64(j.started_at).len(),
                p + k,
            ));
        }
    }
    let rest = match parse_from_finished(s, q2) {
        Some(t) => t,
        None => {
            return None;
        },
    };
    let (tail_job, q3) = rest;
    let job = TranscodeJob { started_at: value, ..tail_job };
    proof {
        lemma_join(
            s@,
            q1 as int,
            q2 as int,
            q3 as int,
            spec_opt_i64(value),
            spec_enc_from_finished(tail_job),
        );
        lemma_join(
            s@,
            p as int,
            q1 as int,
            q3 as int,
            " started "@,
            spec_opt_i64(value) + spec_enc_from_finished(tail_job),
        );
        assert(s@.subrange(p as int, q3 as int) =~= spec_enc_from_started(job));
    }
    Some((job, q3))
}

/// Parse the record text from the created field on.
fn parse_from_created(s: &str, p: usize) -> (r: Option<(TranscodeJob, usize)>)
    requires
        p <= s@.len(),
    ensures
        r matches Some(t) ==> p <= t.1 <= s@.len() && s@.subrange(p as int, t.1 as int)
            =~= spec_enc_from_created(t.0) && spec_encodable(t.0),
        forall|j: TranscodeJob, k: int|
            #![trigger s@.subrange(p as int, p + k), spec_enc_from_created(j)]
            (0 <= k && p + k <= s@.len() && s@.subrange(p as int, p + k) =~= spec_enc_from_created(j)
                && spec_encodable(j)) ==> r is Some && (r matches Some(t) ==> agree_from_created(
                t.0,
                j,
            ) && t.1 == p + k),
{
    proof {
        assert forall|j: TranscodeJob, k: int|
            #![trigger s@.subrange(p as int, p + k), spec_enc_from_created(j)]
            (0 <= k && p + k <= s@.len() && s@.subrange(p as int, p + k) =~= spec_enc_from_created(j)
                && spec_encodable(j)) implies (s@.subrange(p as int, p + " created "@.len())
            =~= " created "@ && s@.subrange(p + " created "@.len(), p + " created "@.len() + spec_i64_str(j.created_at as int).len())
            =~= spec_i64_str(j.created_at as int) && s@.subrange(
            p + " created "@.len() + spec_i64_str(j.created_at as int).len(),
            p + k,
        ) =~= spec_enc_from_started(j) && !is_digit(
            s@[p + " created "@.len() + spec_i64_str(j.created_at as int).len()],
        )) by {
            lemma_chop(
                s@,
                p as int,
                k,
                " created "@,
                spec_i64_str(j.created_at as int) + spec_enc_from_started(j),
            );
            lemma_chop(
                s@,
                p + " created "@.len(),
                k - " created "@.len(),
                spec_i64_str(j.created_at as int),
                spec_enc_from_started(j),
            );
            reveal_strlit(" started ");
            let b = p + " created "@.len() + spec_i64_str(j.created_at as int).len();
            assert(s@.subrange(b, p + k)[0] == s@[b]);
            assert(spec_enc_from_started(j)[0] == ' ');
            assert(!is_digit(' ')) by {
                assert(' ' as int == 32);
            }
        }
    }
    let q1 = match expect_lit(s, p, " created ") {
        Some(q) => q,
        None => {
            proof {
                assert forall|j: TranscodeJob, k: int|
                    #![trigger s@.subrange(p as int, p + k), spec_enc_from_created(j)]
                    !(0 <= k && p + k <= s@.len() && s@.subrange(p as int, p + k)
                        =~= spec_enc_from_created(j) && spec_encodable(j)) by {
                    if 0 <= k && p + k <= s@.len() && s@.subrange(p as int, p + k)
                        =~= spec_enc_from_created(j) && spec_encodable(j) {
                        assert(s@.subrange(p as int, p + " created "@.len()) =~= " created "@);
                        assert(p + " created "@.len() <= s@.len());
                    }
                }
            }
            return None;
        },
    };
    let (value, q2) = match read_i64_field(s, q1) {
        Some(t) => t,
        None => {
            proof {
                assert forall|j: TranscodeJob, k: int|
                    #![trigger s@.subrange(p as int, p + k), spec_enc_from_created(j)]
                    !(0 <= k && p + k <= s@.len() && s@.subrange(p as int, p + k)
                        =~= spec_enc_from_created(j) && spec_encodable(j)) by {
                    if 0 <= k && p + k <= s@.len() && s@.subrange(p as int, p + k)
                        =~= spec_enc_from_created(j) && spec_encodable(j) {
                        assert(s@.subrange(q1 as int, q1 + spec_i64_str(j.created_at as int).len())
                            =~= spec_i64_str(j.created_at as int));
                    }
                }
            }
            return None;
        },
    };
    proof {
        assert forall|j: TranscodeJob, k: int|
            #![trigger s@.subrange(p as int, p + k), spec_enc_from_created(j)]
            (0 <= k && p + k <= s@.len() && s@.subrange(p as int, p + k) =~= spec_enc_from_created(j)
                && spec_encodable(j)) implies value == j.created_at && q2 == p + " created "@.len()
            + spec_i64_str(j.created_at as int).len() && s@.subrange(q2 as int, q2 + (p + k - q2))
            =~= spec_enc_from_started(j) by {
            assert(s@.subrange(q1 as int, q1 + spec_i64_str(j.created_at as int).len()) =~= spec_i64_str(j.created_at as int));
            assert(s@.subrange(q2 as int, q2 + (p + k - q2)) == s@.subrange(
                p + " created "@.len() + spec_i64_str(j.created_at as int).len(),
                p + k,
            ));
        }
    }
    let rest = match parse_from_started(s, q2) {
        Some(t) => t,
        None => {
            return None;
        },
    };
    let (tail_job, q3) = rest;
    let job = TranscodeJob { created_at: value, ..tail_job };
    proof {
        lemma_join(
            s@,
            q1 as int,
            q2 as int,
            q3 as int,
            spec_i64_str(value as int),
            spec_enc_from_started(tail_job),
        );
        lemma_join(
            s@,
            p as int,
            q1 as int,
            q3 as int,
            " created "@,
            spec_i64_str(value as int) + spec_enc_from_started(tail_job),
        );
        assert(s@.subrange(p as int, q3 as int) =~= spec_enc_from_created(job));
    }
    Some((job, q3))
}

/// Parse the record text from the status field on.
fn parse_from_status(s: &str, p: usize) -> (r: Option<(TranscodeJob, usize)>)
    requires
        p <= s@.len(),
    ensures
        r matches Some(t) ==> p <= t.1 <= s@.len() && s@.subrange(p as int, t.1 as int)
            =~= spec_enc_from_status(t.0) && spec_encodable(t.0),
        forall|j: TranscodeJob, k: int|
            #![trigger s@.subrange(p as int, p + k), spec_enc_from_status(j)]
            (0 <= k && p + k <= s@.len() && s@.subrange(p as int, p + k) =~= spec_enc_from_status(j)
                && spec_encodable(j)) ==> r is Some && (r matches Some(t) ==> agree_from_status(
                t.0,
                j,
            ) && t.1 == p + k),
{
    proof {
        assert forall|j: TranscodeJob, k: int|
            #![trigger s@.subrange(p as int, p + k), spec_enc_from_status(j)]
            (0 <= k && p + k <= s@.len() && s@.subrange(p as int, p + k) =~= spec_enc_from_status(j)
                && spec_encodable(j)) implies (s@.subrange(p as int, p + " status "@.len())
            =~= " status "@ && s@.subrange(p + " status "@.len(), p + " status "@.len() + spec_status_word(j.status).len())
            =~= spec_status_word(j.status) && s@.subrange(
            p + " status "@.len() + spec_status_word(j.status).len(),
            p + k,
        ) =~= spec_enc_from_reason(j)) by {
            lemma_chop(
                s@,
                p as int,
                k,
                " status "@,
                spec_status_word(j.status) + spec_enc_from_reason(j),
            );
            lemma_chop(
                s@,
                p + " status "@.len(),
                k - " status "@.len(),
                spec_status_word(j.status),
                spec_enc_from_reason(j),
            );
        }
    }
    let q1 = match expect_lit(s, p, " status ") {
        Some(q) => q,
        None => {
            proof {
                assert forall|j: TranscodeJob, k: int|
                    #![trigger s@.subrange(p as int, p + k), spec_enc_from_status(j)]
                    !(0 <= k && p + k <= s@.len() && s@.subrange(p as int, p + k)
                        =~= spec_enc_from_status(j) && spec_encodable(j)) by {
                    if 0 <= k && p + k <= s@.len() && s@.subrange(p as int, p + k)
                        =~= spec_enc_from_status(j) && spec_encodable(j) {
                        assert(s@.subrange(p as int, p + " status "@.len()) =~= " status "@);
                        assert(p + " status "@.len() <= s@.len());
                    }
                }
            }
            return None;
        },
    };
    let (st_value, q2) = match read_status(s, q1) {
        Some(t) => t,
        None => {
            proof {
                assert forall|j: TranscodeJob, k: int|
                    #![trigger s@.subrange(p as int, p + k), spec_enc_from_status(j)]
                    !(0 <= k && p + k <= s@.len() && s@.subrange(p as int, p + k)
                        =~= spec_enc_from_status(j) && spec_encodable(j)) by {
                    if 0 <= k && p + k <= s@.len() && s@.subrange(p as int, p + k)
                        =~= spec_enc_from_status(j) && spec_encodable(j) {
                        assert(s@.subrange(q1 as int, q1 + spec_status_word(j.status).len())
                            =~= spec_status_word(j.status));
                    }
                }
            }
            return None;
        },
    };
    proof {
        assert forall|j: TranscodeJob, k: int|
            #![trigger s@.subrange(p as int, p + k), spec_enc_from_status(j)]
            (0 <= k && p + k <= s@.len() && s@.subrange(p as int, p + k) =~= spec_enc_from_status(j)
                && spec_encodable(j)) implies (st_value == j.status) && q2 == p + " status "@.len()
            + spec_status_word(j.status).len() && s@.subrange(q2 as int, q2 + (p + k - q2))
            =~= spec_enc_from_reason(j) by {
            assert(s@.subrange(q1 as int, q1 + spec_status_word(j.status).len()) =~= spec_status_word(j.status));
            assert(s@.subrange(q2 as int, q2 + (p + k - q2)) == s@.subrange(
                p + " status "@.len() + spec_status_word(j.status).len(),
                p + k,
            ));
        }
    }
    let rest = match parse_from_reason(s, q2) {
        Some(t) => t,
        None => {
            return None;
        },
    };
    let (tail_job, q3) = rest;
    let job = TranscodeJob { status: st_value, ..tail_job };
    proof {
        lemma_join(
            s@,
            q1 as int,
            q2 as int,
            q3 as int,
            spec_status_word(st_value),
            spec_enc_from_reason(tail_job),
        );
        lemma_join(
            s@,
            p as int,
            q1 as int,
            q3 as int,
            " status "@,
            spec_status_word(st_value) + spec_enc_from_reason(tail_job),
        );
        assert(s@.subrange(p as int, q3 as int) =~= spec_enc_from_status(job));
    }
    Some((job, q3))
}

/// Parse the record text from the out field on.
fn parse_from_out(s: &str, p: usize) -> (r: Option<(TranscodeJob, usize)>)
    requires
        p <= s@.len(),
    ensures
        r matches Some(t) ==> p <= t.1 <= s@.len() && s@.subrange(p as int, t.1 as int)
            =~= spec_enc_from_out(t.0) && spec_encodable(t.0),
        forall|j: TranscodeJob, k: int|
            #![trigger s@.subrange(p as int, p + k), spec_enc_from_out(j)]
            (0 <= k && p + k <= s@.len() && s@.subrange(p as int, p + k) =~= spec_enc_from_out(j)
                && spec_encodable(j)) ==> r is Some && (r matches Some(t) ==> agree_from_out(
                t.0,
                j,
            ) && t.1 == p + k),
{
    let ghost s_total = s@.len();
    let s_len_chk = s.unicode_len();
    proof {
        assert forall|j: TranscodeJob, k: int|
            #![trigger s@.subrange(p as int, p + k), spec_enc_from_out(j)]
            (0 <= k && p + k <= s@.len() && s@.subrange(p as int, p + k) =~= spec_enc_from_out(j)
                && spec_encodable(j)) implies (s@.subrange(p as int, p + " out "@.len())
            =~= " out "@ && s@.subrange(p + " out "@.len(), p + " out "@.len() + spec_opt_string(j.output_path).len())
            =~= spec_opt_string(j.output_path) && s@.subrange(
            p + " out "@.len() + spec_opt_string(j.output_path).len(),
            p + k,
        ) =~= spec_enc_from_created(j)) by {
            lemma_chop(
                s@,
                p as int,
                k,
                " out "@,
                spec_opt_string(j.output_path) + spec_enc_from_created(j),
            );
            lemma_chop(
                s@,
                p + " out "@.len(),
                k - " out "@.len(),
                spec_opt_string(j.output_path),
                spec_enc_from_created(j),
            );
        }
    }
    let q1 = match expect_lit(s, p, " out ") {
        Some(q) => q,
        None => {
            proof {
                assert forall|j: TranscodeJob, k: int|
                    #![trigger s@.subrange(p as int, p + k), spec_enc_from_out(j)]
                    !(0 <= k && p + k <= s@.len() && s@.subrange(p as int, p + k)
                        =~= spec_enc_from_out(j) && spec_encodable(j)) by {
                    if 0 <= k && p + k <= s@.len() && s@.subrange(p as int, p + k)
                        =~= spec_enc_from_out(j) && spec_encodable(j) {
                        assert(s@.subrange(p as int, p + " out "@.len()) =~= " out "@);
                        assert(p + " out "@.len() <= s@.len());
                    }
                }
            }
            return None;
        },
    };
    let (out_value, q2) = match read_opt_netstring(s, q1) {
        Some(t) => t,
        None => {
            proof {
                assert forall|j: TranscodeJob, k: int|
                    #![trigger s@.subrange(p as int, p + k), spec_enc_from_out(j)]
                    !(0 <= k && p + k <= s@.len() && s@.subrange(p as int, p + k)
                        =~= spec_enc_from_out(j) && spec_encodable(j)) by {
                    if 0 <= k && p + k <= s@.len() && s@.subrange(p as int, p + k)
                        =~= spec_enc_from_out(j) && spec_encodable(j) {
                        assert(s@.subrange(q1 as int, q1 + spec_opt_string(j.output_path).len())
                            =~= spec_opt_string(j.output_path));
                    }
                }
            }
            return None;
        },
    };
    proof {
        assert forall|j: TranscodeJob, k: int|
            #![trigger s@.subrange(p as int, p + k), spec_enc_from_out(j)]
            (0 <= k && p + k <= s@.len() && s@.subrange(p as int, p + k) =~= spec_enc_from_out(j)
                && spec_encodable(j)) implies ((out_value is Some <==> j.output_path is Some) && (j.output_path matches Some(x) ==> out_value matches Some(y) && y@ == x@)) && q2 == p + " out "@.len()
            + spec_opt_string(j.output_path).len() && s@.subrange(q2 as int, q2 + (p + k - q2))
            =~= spec_enc_from_created(j) by {
            assert(s@.subrange(q1 as int, q1 + spec_opt_string(j.output_path).len()) =~= spec_opt_string(j.output_path));
            assert(s@.subrange(q2 as int, q2 + (p + k - q2)) == s@.subrange(
                p + " out "@.len() + spec_opt_string(j.output_path).len(),
                p + k,
            ));
        }
    }
    let rest = match parse_from_created(s, q2) {
        Some(t) => t,
        None => {
            return None;
        },
    };
    let (tail_job, q3) = rest;
    let job = TranscodeJob { output_path: out_value, ..tail_job };
    proof {
        lemma_join(
            s@,
            q1 as int,
            q2 as int,
            q3 as int,
            spec_opt_string(out_value),
            spec_enc_from_created(tail_job),
        );
        lemma_join(
            s@,
            p as int,
            q1 as int,
            q3 as int,
            " out "@,
            spec_opt_string(out_value) + spec_enc_from_created(tail_job),
        );
        assert(s@.subrange(p as int, q3 as int) =~= spec_enc_from_out(job));
        assert(spec_encodable(job)) by {
            if out_value is Some {
                let y = out_value->0;
                assert(s@.subrange(q1 as int, q2 as int) =~= spec_opt_string(out_value));
                assert(y@.len() <= q2 - q1);
            }
        }
    }
    Some((job, q3))
}

/// The reason field viewed as an optional plain string.
pub open spec fn spec_reason_as_string(o: Option<JobReason>) -> Option<String> {
    match o {
        None => None,
        Some(rr) => Some(rr.0),
    }
}

/// Parse the record text from the reason field on.
fn parse_from_reason(s: &str, p: usize) -> (r: Option<(TranscodeJob, usize)>)
    requires
        p <= s@.len(),
    ensures
        r matches Some(t) ==> p <= t.1 <= s@.len() && s@.subrange(p as int, t.1 as int)
            =~= spec_enc_from_reason(t.0) && spec_encodable(t.0),
        forall|j: TranscodeJob, k: int|
            #![trigger s@.subrange(p as int, p + k), spec_enc_from_reason(j)]
            (0 <= k && p + k <= s@.len() && s@.subrange(p as int, p + k)
                =~= spec_enc_from_reason(j) && spec_encodable(j)) ==> r is Some && (
            r matches Some(t) ==> agree_from_reason(t.0, j) && t.1 == p + k),
{
    let s_len_chk = s.unicode_len();
    proof {
        assert forall|j: TranscodeJob, k: int|
            #![trigger s@.subrange(p as int, p + k), spec_enc_from_reason(j)]
            (0 <= k && p + k <= s@.len() && s@.subrange(p as int, p + k)
                =~= spec_enc_from_reason(j) && spec_encodable(j)) implies (s@.subrange(
            p as int,
            p + " reason "@.len(),
        ) =~= " reason "@ && s@.subrange(
            p + " reason "@.len(),
            p + " reason "@.len() + spec_opt_reason(j.reason).len(),
        ) =~= spec_opt_string(spec_reason_as_string(j.reason)) && s@.subrange(
            p + " reason "@.len() + spec_opt_reason(j.reason).len(),
            p + k,
        ) =~= spec_enc_from_orig(j)) by {
            lemma_chop(
                s@,
                p as int,
                k,
                " reason "@,
                spec_opt_reason(j.reason) + spec_enc_from_orig(j),
            );
            lemma_chop(
                s@,
                p + " reason "@.len(),
                k - " reason "@.len(),
                spec_opt_reason(j.reason),
                spec_enc_from_orig(j),
            );
            assert(spec_opt_reason(j.reason) == spec_opt_string(spec_reason_as_string(j.reason)));
        }
    }
    let q1 = match expect_lit(s, p, " reason ") {
        Some(q) => q,
        None => {
            proof {
                assert forall|j: TranscodeJob, k: int|
                    #![trigger s@.subrange(p as int, p + k), spec_enc_from_reason(j)]
                    !(0 <= k && p + k <= s@.len() && s@.subrange(p as int, p + k)
                        =~= spec_enc_from_reason(j) && spec_encodable(j)) by {
                    if 0 <= k && p + k <= s@.len() && s@.subrange(p as int, p + k)
                        =~= spec_enc_from_reason(j) && spec_encodable(j) {
                        assert(s@.subrange(p as int, p + " reason "@.len()) =~= " reason "@);
                        assert(p + " reason "@.len() <= s@.len());
                    }
                }
            }
            return None;
        },
    };
    let (raw_value, q2) = match read_opt_netstring(s, q1) {
        Some(t) => t,
        None => {
            proof {
                assert forall|j: TranscodeJob, k: int|
                    #![trigger s@.subrange(p as int, p + k), spec_enc_from_reason(j)]
                    !(0 <= k && p + k <= s@.len() && s@.subrange(p as int, p + k)
                        =~= spec_enc_from_reason(j) && spec_encodable(j)) by {
                    if 0 <= k && p + k <= s@.len() && s@.subrange(p as int, p + k)
                        =~= spec_enc_from_reason(j) && spec_encodable(j) {
                        assert(s@.subrange(q1 as int, q1 + spec_opt_reason(j.reason).len())
                            =~= spec_opt_string(spec_reason_as_string(j.reason)));
                    }
                }
            }
            return None;
        },
    };
    proof {
        assert forall|j: TranscodeJob, k: int|
            #![trigger s@.subrange(p as int, p + k), spec_enc_from_reason(j)]
            (0 <= k && p + k <= s@.len() && s@.subrange(p as int, p + k)
                =~= spec_enc_from_reason(j) && spec_encodable(j)) implies ((raw_value
            is Some <==> j.reason is Some) && (j.reason matches Some(x) ==> raw_value matches Some(
                y,
            ) && y@ == x.0@)) && q2 == p + " reason "@.len() + spec_opt_reason(j.reason).len()
            && s@.subrange(q2 as int, q2 + (p + k - q2)) =~= spec_enc_from_orig(j) by {
            assert(s@.subrange(q1 as int, q1 + spec_opt_reason(j.reason).len())
                =~= spec_opt_string(spec_reason_as_string(j.reason)));
            assert(s@.subrange(q2 as int, q2 + (p + k - q2)) == s@.subrange(
                p + " reason "@.len() + spec_opt_reason(j.reason).len(),
                p + k,
            ));
        }
    }
    let rest = match parse_from_orig(s, q2) {
        Some(t) => t,
        None => {
            return None;
        },
    };
    let (tail_job, q3) = rest;
    let reason_value: Option<JobReason> = match raw_value {
        None => None,
        Some(v) => Some(JobReason(v)),
    };
    let job = TranscodeJob { reason: reason_value, ..tail_job };
    proof {
        lemma_join(
            s@,
            q1 as int,
            q2 as int,
            q3 as int,
            spec_opt_reason(job.reason),
            spec_enc_from_orig(tail_job),
        );
        lemma_join(
            s@,
            p as int,
            q1 as int,
            q3 as int,
            " reason "@,
            spec_opt_reason(job.reason) + spec_enc_from_orig(tail_job),
        );
        assert(s@.subrange(p as int, q3 as int) =~= spec_enc_from_reason(job));
        assert(spec_encodable(job)) by {
            if job.reason is Some {
                let y = job.reason->0;
                assert(s@.subrange(q1 as int, q2 as int) =~= spec_opt_string(raw_value));
                assert(y.0@.len() <= q2 - q1);
            }
        }
    }
    Some((job, q3))
}

/// Parse the record text from the source-path field on.
fn parse_from_src(s: &str, p: usize) -> (r: Option<(TranscodeJob, usize)>)
    requires
        p <= s@.len(),
    ensures
        r matches Some(t) ==> p <= t.1 <= s@.len() && s@.subrange(p as int, t.1 as int)
            =~= spec_enc_from_src(t.0) && spec_encodable(t.0),
        forall|j: TranscodeJob, k: int|
            #![trigger s@.subrange(p as int, p + k), spec_enc_from_src(j)]
            (0 <= k && p + k <= s@.len() && s@.subrange(p as int, p + k) =~= spec_enc_from_src(j)
                && spec_encodable(j)) ==> r is Some && (r matches Some(t) ==> agree_from_src(
                t.0,
                j,
            ) && t.1 == p + k),
{
    let s_len_chk = s.unicode_len();
    proof {
        assert forall|j: TranscodeJob, k: int|
            #![trigger s@.subrange(p as int, p + k), spec_enc_from_src(j)]
            (0 <= k && p + k <= s@.len() && s@.subrange(p as int, p + k) =~= spec_enc_from_src(j)
                && spec_encodable(j)) implies (s@.subrange(p as int, p + " src "@.len())
            =~= " src "@ && s@.subrange(
            p + " src "@.len(),
            p + " src "@.len() + spec_netstring(j.source_path@).len(),
        ) =~= spec_netstring(j.source_path@) && s@.subrange(
            p + " src "@.len() + spec_netstring(j.source_path@).len(),
            p + k,
        ) =~= spec_enc_from_out(j)) by {
            lemma_chop(
                s@,
                p as int,
                k,
                " src "@,
                spec_netstring(j.source_path@) + spec_enc_from_out(j),
            );
            lemma_chop(
                s@,
                p + " src "@.len(),
                k - " src "@.len(),
                spec_netstring(j.source_path@),
                spec_enc_from_out(j),
            );
        }
    }
    let q1 = match expect_lit(s, p, " src ") {
        Some(q) => q,
        None => {
            proof {
                assert forall|j: TranscodeJob, k: int|
                    #![trigger s@.subrange(p as int, p + k), spec_enc_from_src(j)]
                    !(0 <= k && p + k <= s@.len() && s@.subrange(p as int, p + k)
                        =~= spec_enc_from_src(j) && spec_encodable(j)) by {
                    if 0 <= k && p + k <= s@.len() && s@.subrange(p as int, p + k)
                        =~= spec_enc_from_src(j) && spec_encodable(j) {
                        assert(s@.subrange(p as int, p + " src "@.len()) =~= " src "@);
                        assert(p + " src "@.len() <= s@.len());
                    }
                }
            }
            return None;
        },
    };
    let (src_value, q2) = match read_netstring(s, q1) {
        Some(t) => t,
        None => {
            proof {
                assert forall|j: TranscodeJob, k: int|
                    #![trigger s@.subrange(p as int, p + k), spec_enc_from_src(j)]
                    !(0 <= k && p + k <= s@.len() && s@.subrange(p as int, p + k)
                        =~= spec_enc_from_src(j) && spec_encodable(j)) by {
                    if 0 <= k && p + k <= s@.len() && s@.subrange(p as int, p + k)
                        =~= spec_enc_from_src(j) && spec_encodable(j) {
                        assert(s@.subrange(q1 as int, q1 + spec_netstring(j.source_path@).len())
                            =~= spec_netstring(j.source_path@));
                    }
                }
            }
            return None;
        },
    };
    proof {
        assert forall|j: TranscodeJob, k: int|
            #![trigger s@.subrange(p as int, p + k), spec_enc_from_src(j)]
            (0 <= k && p + k <= s@.len() && s@.subrange(p as int, p + k) =~= spec_enc_from_src(j)
                && spec_encodable(j)) implies src_value@ == j.source_path@ && q2 == p
            + " src "@.len() + spec_netstring(j.source_path@).len() && s@.subrange(
            q2 as int,
            q2 + (p + k - q2),
        ) =~= spec_enc_from_out(j) by {
            assert(s@.subrange(q1 as int, q1 + spec_netstring(j.source_path@).len())
                =~= spec_netstring(j.source_path@));
            assert(s@.subrange(q2 as int, q2 + (p + k - q2)) == s@.subrange(
                p + " src "@.len() + spec_netstring(j.source_path@).len(),
                p + k,
            ));
        }
    }
    let rest = match parse_from_out(s, q2) {
        Some(t) => t,
        None => {
            return None;
        },
    };
    let (tail_job, q3) = rest;
    let job = TranscodeJob { source_path: src_value, ..tail_job };
    proof {
        lemma_join(
            s@,
            q1 as int,
            q2 as int,
            q3 as int,
            spec_netstring(job.source_path@),
            spec_enc_from_out(tail_job),
        );
        lemma_join(
            s@,
            p as int,
            q1 as int,
            q3 as int,
            " src "@,
            spec_netstring(job.source_path@) + spec_enc_from_out(tail_job),
        );
        assert(s@.subrange(p as int, q3 as int) =~= spec_enc_from_src(job));
        assert(spec_encodable(job)) by {
            assert(s@.subrange(q1 as int, q2 as int) =~= spec_netstring(src_value@));
            assert(src_value@.len() <= q2 - q1);
        }
    }
    Some((job, q3))
}

/// Parse a complete job record.  Exactly the canonical encodings are
/// accepted: on success the input is the returned record's encoding, and
/// every encodable record's encoding parses back to a record that agrees
/// with it field by field.
#[verifier::rlimit(100)]
pub fn parse_job(text: &str) -> (r: Option<TranscodeJob>)
    ensures
        r matches Some(j) ==> text@ == spec_encode_job(j),
        forall|j: TranscodeJob|
            #![trigger spec_encode_job(j)]
            (spec_encodable(j) && text@ == spec_encode_job(j)) ==> r is Some && (
            r matches Some(j2) ==> spec_jobs_agree(j2, j)),
{
    let len = text.unicode_len();
    proof {
        assert forall|j: TranscodeJob|
            #![trigger spec_encode_job(j)]
            (spec_encodable(j) && text@ == spec_encode_job(j)) implies (text@.subrange(
            0,
            text@.len() as int,
        ) =~= spec_encode_job(j) && text@.subrange(0, "job "@.len() as int) =~= "job "@
            && text@.subrange(
            "job "@.len() as int,
            ("job "@.len() + spec_netstring(j.id@).len()) as int,
        ) =~= spec_netstring(j.id@) && text@.subrange(
            ("job "@.len() + spec_netstring(j.id@).len()) as int,
            text@.len() as int,
        ) =~= spec_enc_from_src(j)) by {
            assert(text@.subrange(0, text@.len() as int) =~= text@);
            lemma_chop(
                text@,
                0,
                text@.len() as int,
                "job "@,
                spec_netstring(j.id@) + spec_enc_from_src(j),
            );
            lemma_chop(
                text@,
                "job "@.len() as int,
                text@.len() - "job "@.len(),
                spec_netstring(j.id@),
                spec_enc_from_src(j),
            );
        }
    }
    let q1 = match expect_lit(text, 0, "job ") {
        Some(q) => q,
        None => {
            proof {
                assert forall|j: TranscodeJob|
                    #![trigger spec_encode_job(j)]
                    !(spec_encodable(j) && text@ == spec_encode_job(j)) by {
                    if spec_encodable(j) && text@ == spec_encode_job(j) {
                        assert(text@.subrange(0, ("job "@.len()) as int) =~= "job "@);
                        assert(0 + "job "@.len() <= text@.len());
                    }
                }
            }
            return None;
        },
    };
    let (id_value, q2) = match read_netstring(text, q1) {
        Some(t) => t,
        None => {
            proof {
                assert forall|j: TranscodeJob|
                    #![trigger spec_encode_job(j)]
                    !(spec_encodable(j) && text@ == spec_encode_job(j)) by {
                    if spec_encodable(j) && text@ == spec_encode_job(j) {
                        assert(text@.subrange(q1 as int, q1 + spec_netstring(j.id@).len())
                            =~= spec_netstring(j.id@));
                    }
                }
            }
            return None;
        },
    };
    proof {
        assert forall|j: TranscodeJob|
            #![trigger spec_encode_job(j)]
            (spec_encodable(j) && text@ == spec_encode_job(j)) implies id_value@ == j.id@ && q2
            == "job "@.len() + spec_netstring(j.id@).len() && text@.subrange(
            q2 as int,
            q2 + (text@.len() - q2),
        ) =~= spec_enc_from_src(j) by {
            assert(text@.subrange(q1 as int, q1 + spec_netstring(j.id@).len()) =~= spec_netstring(
                j.id@,
            ));
            assert(text@.subrange(q2 as int, q2 + (text@.len() - q2)) == text@.subrange(
                ("job "@.len() + spec_netstring(j.id@).len()) as int,
                text@.len() as int,
            ));
        }
    }
    let rest = match parse_from_src(text, q2) {
        Some(t) => t,
        None => {
            return None;
        },
    };
    let (tail_job, q3) = rest;
    if q3 != len {
        proof {
            assert forall|j: TranscodeJob|
                #![trigger spec_encode_job(j)]
                !(spec_encodable(j) && text@ == spec_encode_job(j)) by {
                if spec_encodable(j) && text@ == spec_encode_job(j) {
                    assert(text@.subrange(q2 as int, q2 + (text@.len() - q2)) =~= spec_enc_from_src(
                        j,
                    ));
                }
            }
        }
        return None;
    }
    let job = TranscodeJob { id: id_value, ..tail_job };
    proof {
        lemma_join(
            text@,
            q1 as int,
            q2 as int,
            q3 as int,
            spec_netstring(job.id@),
            spec_enc_from_src(tail_job),
        );
        lemma_join(
            text@,
            0,
            q1 as int,
            q3 as int,
            "job "@,
            spec_netstring(job.id@) + spec_enc_from_src(tail_job),
        );
        assert(text@.subrange(0, q3 as int) =~= spec_encode_job(job));
        assert(text@.subrange(0, q3 as int) =~= text@);
    }
    Some(job)
}

/// Two records that agree field by field (as the parser's contract
/// guarantees of a parsed record and the record it was encoded from)
/// have the same canonical encoding: nothing is lost on the round trip
/// through the record file.
pub proof fn lemma_agreeing_records_encode_alike(a: TranscodeJob, b: TranscodeJob)
    requires
        spec_jobs_agree(a, b),
    ensures
        spec_encode_job(a) == spec_encode_job(b),
{
    assert(spec_netstring(a.id@) == spec_netstring(b.id@));
    assert(spec_netstring(a.source_path@) == spec_netstring(b.source_path@));
    assert(spec_opt_string(a.output_path) == spec_opt_string(b.output_path));
    assert(spec_opt_reason(a.reason) == spec_opt_reason(b.reason));
    assert(spec_enc_from_webrip(a) == spec_enc_from_webrip(b));
    assert(spec_enc_from_new(a) == spec_enc_from_new(b));
    assert(spec_enc_from_orig(a) == spec_enc_from_orig(b));
    assert(spec_enc_from_reason(a) == spec_enc_from_reason(b));
    assert(spec_enc_from_status(a) == spec_enc_from_status(b));
    assert(spec_enc_from_finished(a) == spec_enc_from_finished(b));
    assert(spec_enc_from_started(a) == spec_enc_from_started(b));
    assert(spec_enc_from_created(a) == spec_enc_from_created(b));
    assert(spec_enc_from_out(a) == spec_enc_from_out(b));
    assert(spec_enc_from_src(a) == spec_enc_from_src(b));
}

/// The file name a job record is stored under: the job id plus the fixed
/// record extension.
pub open spec fn spec_job_file_name(id: Seq<char>) -> Seq<char> {
    id + ".job"@
}

/// Compute the record file name for a job id.
pub fn job_file_name(id: &str) -> (r: String)
    ensures
        r@ == spec_job_file_name(id@),
{
    let mut s = id.to_owned();
    s.append(".job");
    s
}

/// In-memory model of the record directory: one named text file per job.
/// The I/O layer mirrors every change onto the real directory.
pub struct JobStore {
    /// The directory's files as (name, contents) pairs.
    pub entries: Vec<(String, String)>,
}

/// Index of the first entry with the given name, if any.
pub open spec fn spec_find_name(entries: Seq<(String, String)>, name: Seq<char>, i: int) -> Option<
    int,
>
    decreases entries.len() - i,
{
    if i < 0 || i >= entries.len() {
        None
    } else if entries[i].0@ == name {
        Some(i)
    } else {
        spec_find_name(entries, name, i + 1)
    }
}

impl JobStore {
    /// No two files share a name.
    pub open spec fn wf(self) -> bool {
        forall|a: int, b: int|
            0 <= a < b < self.entries@.len() ==> (#[trigger] self.entries@[a]).0@ != (
            #[trigger] self.entries@[b]).0@
    }

    /// An empty record directory.
    pub fn new() -> (r: Self)
        ensures
            r.entries@.len() == 0,
            r.wf(),
    {
        JobStore { entries: Vec::new() }
    }

    /// Number of record files.
    pub fn len(&self) -> (r: usize)
        ensures
            r == self.entries@.len(),
    {
        self.entries.len()
    }

    /// Persist one job: the record file named after the job id is created
    /// or fully overwritten with the canonical encoding; every other file
    /// is untouched.  Saving the same id again therefore overwrites in
    /// place and never duplicates.
    pub fn save_job_state(&mut self, job: &TranscodeJob)
        requires
            old(self).wf(),
            spec_encodable(*job),
        ensures
            final(self).wf(),
            spec_find_name(old(self).entries@, spec_job_file_name(job.id@), 0) matches Some(i)
                ==> {
                &&& final(self).entries@.len() == old(self).entries@.len()
                &&& forall|x: int|
                    0 <= x < final(self).entries@.len() && x != i ==> final(self).entries@[x]
                        == old(self).entries@[x]
                &&& final(self).entries@[i].0@ == spec_job_file_name(job.id@)
                &&& final(self).entries@[i].1@ == spec_encode_job(*job)
            },
            spec_find_name(old(self).entries@, spec_job_file_name(job.id@), 0) is None ==> {
                &&& final(self).entries@.len() == old(self).entries@.len() + 1
                &&& forall|x: int|
                    0 <= x < old(self).entries@.len() ==> final(self).entries@[x] == old(
                        self,
                    ).entries@[x]
                &&& final(self).entries@.last().0@ == spec_job_file_name(job.id@)
                &&& final(self).entries@.last().1@ == spec_encode_job(*job)
            },
    {
        let name = job_file_name(job.id.as_str());
        let contents = encode_job(job);
        let n = self.entries.len();
        let mut i: usize = 0;
        while i < n
            invariant
                n == self.entries@.len(),
                i <= n,
                self.entries@ == old(self).entries@,
                old(self).wf(),
                name@ == spec_job_file_name(job.id@),
                contents@ == spec_encode_job(*job),
                spec_encodable(*job),
                spec_find_name(self.entries@, name@, 0) == spec_find_name(
                    self.entries@,
                    name@,
                    i as int,
                ),
                forall|x: int| 0 <= x < i ==> (#[trigger] self.entries@[x]).0@ != name@,
            decreases n - i,
        {
            if self.entries[i].0 == name {
                proof {
                    assert(spec_find_name(self.entries@, name@, i as int) == Some(i as int));
                }
                let ghost pre = self.entries@;
                self.entries.set(i, (name, contents));
                proof {
                    assert(pre[i as int].0@ == name@);
                    assert(spec_find_name(pre, spec_job_file_name(job.id@), 0) == Some(i as int));
                    assert forall|a: int, b: int|
                        0 <= a < b < self.entries@.len() implies (#[trigger] self.entries@[a]).0@
                        != (#[trigger] self.entries@[b]).0@ by {
                        if a == i {
                            assert(self.entries@[a].0@ == name@ && pre[a].0@ == name@);
                        } else {
                            assert(self.entries@[a].0@ == pre[a].0@);
                        }
                        if b == i {
                            assert(self.entries@[b].0@ == name@ && pre[b].0@ == name@);
                        } else {
                            assert(self.entries@[b].0@ == pre[b].0@);
                        }
                    }
                }
                return ;
            }
            i = i + 1;
        }
        let ghost pre = self.entries@;
        proof {
            assert(spec_find_name(pre, name@, n as int) is None);
            assert(spec_find_name(pre, spec_job_file_name(job.id@), 0) is None);
        }
        self.entries.push((name, contents));
        proof {
            assert(spec_find_name(pre, name@, 0) is None);
            assert forall|a: int, b: int|
                0 <= a < b < self.entries@.len() implies (#[trigger] self.entries@[a]).0@ != (
                #[trigger] self.entries@[b]).0@ by {
                if b < self.entries@.len() - 1 {
                    assert(self.entries@[a].0@ == pre[a].0@);
                    assert(self.entries@[b].0@ == pre[b].0@);
                } else {
                    assert(self.entries@[a].0@ == pre[a].0@);
                    assert(self.entries@[b].0@ == name@);
                }
            }
            assert(self.entries@.last().0@ == spec_job_file_name(job.id@));
        }
    }
}

/// Load every job record among the given directory entries: a file counts
/// when its name carries the record extension and its contents parse; any
/// other file is skipped rather than failing the whole load.
/// The loaded records are a selection of the directory entries: some
/// strictly increasing sequence of entry indexes, each naming a file with
/// the record extension whose contents are the canonical encoding of the
/// corresponding record.  Every record thus stems from a distinct entry,
/// in directory order; nothing can be fabricated or duplicated.
pub open spec fn spec_load_selection(entries: Seq<(String, String)>, r: Seq<TranscodeJob>) -> bool {
    exists|w: Seq<int>|
        #![trigger w.len()]
        {
            &&& w.len() == r.len()
            &&& forall|x: int|
                #![trigger w[x]]
                0 <= x < w.len() ==> 0 <= w[x] < entries.len() && seq_ends_with(
                    entries[w[x]].0@,
                    ".job"@,
                ) && entries[w[x]].1@ == spec_encode_job(r[x])
            &&& forall|a: int, b: int| #![trigger w[a], w[b]] 0 <= a < b < w.len() ==> w[a] < w[b]
        }
}

/// Every well-named canonical entry is represented among the loaded
/// records by one that agrees with its encoded job field by field.
pub open spec fn spec_load_complete(entries: Seq<(String, String)>, r: Seq<TranscodeJob>) -> bool {
    forall|e: int, j: TranscodeJob|
        #![trigger entries[e], spec_encode_job(j)]
        (0 <= e < entries.len() && seq_ends_with(entries[e].0@, ".job"@) && spec_encodable(j)
            && entries[e].1@ == spec_encode_job(j)) ==> exists|x: int|
            #![trigger r[x]]
            0 <= x < r.len() && spec_jobs_agree(r[x], j)
}

#[verifier::rlimit(60)]
pub fn load_all_jobs(entries: &Vec<(String, String)>) -> (r: Vec<TranscodeJob>)
    ensures
        r@.len() <= entries@.len(),
        spec_load_selection(entries@, r@),
        spec_load_complete(entries@, r@),
{
    let n = entries.len();
    let mut out: Vec<TranscodeJob> = Vec::new();
    let ghost mut srcidx: Seq<int> = Seq::empty();
    let mut e: usize = 0;
    while e < n
        invariant
            n == entries@.len(),
            e <= n,
            out@.len() <= e,
            srcidx.len() == out@.len(),
            forall|x: int|
                #![trigger srcidx[x]]
                0 <= x < srcidx.len() ==> 0 <= srcidx[x] < e && seq_ends_with(
                    entries@[srcidx[x]].0@,
                    ".job"@,
                ) && entries@[srcidx[x]].1@ == spec_encode_job(out@[x]),
            forall|a: int, b: int|
                #![trigger srcidx[a], srcidx[b]]
                0 <= a < b < srcidx.len() ==> srcidx[a] < srcidx[b],
            forall|e2: int, j: TranscodeJob|
                #![trigger entries@[e2], spec_encode_job(j)]
                (0 <= e2 < e && seq_ends_with(entries@[e2].0@, ".job"@) && spec_encodable(j)
                    && entries@[e2].1@ == spec_encode_job(j)) ==> exists|x: int|
                    #![trigger out@[x]]
                    0 <= x < out@.len() && spec_jobs_agree(out@[x], j),
        decreases n - e,
    {
        let ghost out0 = out@;
        let name_ok = str_ends_with(entries[e].0.as_str(), ".job");
        if name_ok {
            let parsed = parse_job(entries[e].1.as_str());
            match parsed {
                Some(job) => {
                    proof {
                        assert(entries@[e as int].1@ == spec_encode_job(job));
                        assert(seq_ends_with(entries@[e as int].0@, ".job"@));
                    }
                    let ghost out0 = out@;
                    let ghost src0 = srcidx;
                    out.push(job);
                    proof {
                        srcidx = srcidx.push(e as int);
                        assert forall|x: int| #![trigger srcidx[x]] 0 <= x < srcidx.len() implies
                            0 <= srcidx[x] < e + 1 && seq_ends_with(
                            entries@[srcidx[x]].0@,
                            ".job"@,
                        ) && entries@[srcidx[x]].1@ == spec_encode_job(out@[x]) by {
                            if x < srcidx.len() - 1 {
                                assert(out@[x] == out0[x]);
                                assert(srcidx[x] == src0[x]);
                                assert(src0[x] == src0[x]);
                            } else {
                                assert(srcidx[x] == e as int);
                                assert(out@[x] == out@.last());
                            }
                        }
                        assert forall|a: int, b: int|
                            #![trigger srcidx[a], srcidx[b]]
                            0 <= a < b < srcidx.len() implies srcidx[a] < srcidx[b] by {
                            if b < srcidx.len() - 1 {
                                assert(srcidx[a] == src0[a] && srcidx[b] == src0[b]);
                            } else {
                                assert(srcidx[b] == e as int);
                                assert(srcidx[a] == src0[a]);
                                assert(src0[a] < e);
                            }
                        }
                    }
                },
                None => {},
            }
            proof {
                assert forall|j: TranscodeJob|
                    #![trigger spec_encode_job(j)]
                    (spec_encodable(j) && entries@[e as int].1@ == spec_encode_job(j)) implies
                    exists|x: int|
                    #![trigger out@[x]]
                    0 <= x < out@.len() && spec_jobs_agree(out@[x], j) by {
                    assert(parsed is Some);
                    assert(out@.len() == out0.len() + 1);
                    assert(spec_jobs_agree(out@[out@.len() - 1], j));
                }
            }
        }
        proof {
            assert forall|e2: int, j: TranscodeJob|
                #![trigger entries@[e2], spec_encode_job(j)]
                (0 <= e2 < e + 1 && seq_ends_with(entries@[e2].0@, ".job"@) && spec_encodable(j)
                    && entries@[e2].1@ == spec_encode_job(j)) implies exists|x: int|
                #![trigger out@[x]]
                0 <= x < out@.len() && spec_jobs_agree(out@[x], j) by {
                if e2 < e {
                    let x0 = choose|x: int|
                        #![trigger out0[x]]
                        0 <= x < out0.len() && spec_jobs_agree(out0[x], j);
                    assert(out@[x0] == out0[x0]);
                    assert(spec_jobs_agree(out@[x0], j));
                } else {
                    assert(seq_ends_with(entries@[e as int].0@, ".job"@));
                }
            }
        }
        e = e + 1;
    }
    proof {
        assert(spec_load_selection(entries@, out@)) by {
            assert(srcidx.len() == out@.len());
            assert forall|x: int| #![trigger srcidx[x]] 0 <= x < srcidx.len() implies 0
                <= srcidx[x] < entries@.len() && seq_ends_with(entries@[srcidx[x]].0@, ".job"@)
                && entries@[srcidx[x]].1@ == spec_encode_job(out@[x]) by {
                assert(0 <= srcidx[x] < e);
            }
        }
        assert(spec_load_complete(entries@, out@));
    }
    out
}

} // verus!
