//! Pure decision heuristics: whether and how a file should be re-encoded.

use vstd::prelude::*;
use crate::constants::{
    HEIGHT_1080P, QSV_QUALITY_AT_1080P, QSV_QUALITY_AT_1440P_PLUS, QSV_QUALITY_BELOW_1080P,
    USE_10BIT_THRESHOLD,
};
use crate::metadata::FileMetadata;
use crate::text::{seq_contains_ignore_case, seq_eq_ignore_case, str_contains_ignore_case,
    str_eq_ignore_case};

verus! {

/// The container format name points at a web-rip-like family
/// ("mp4", "mov" or "webm" occurs in it, ignoring ASCII case).
pub open spec fn spec_webrip_format(meta: FileMetadata) -> bool {
    ||| seq_contains_ignore_case(meta.format_name@, "mp4"@)
    ||| seq_contains_ignore_case(meta.format_name@, "mov"@)
    ||| seq_contains_ignore_case(meta.format_name@, "webm"@)
}

/// Some video stream is variable-frame-rate.
pub open spec fn spec_has_vfr_stream(meta: FileMetadata) -> bool {
    exists|i: int|
        0 <= i < meta.video_streams@.len() && (#[trigger] meta.video_streams@[i]).spec_is_vfr()
}

/// Some video stream has an odd width or height.
pub open spec fn spec_has_odd_stream(meta: FileMetadata) -> bool {
    exists|i: int|
        0 <= i < meta.video_streams@.len()
            && (#[trigger] meta.video_streams@[i]).spec_has_odd_dimensions()
}

/// A file needs special timestamp and sync handling exactly when its format
/// name is web-rip-like, or some stream is variable-frame-rate, or some
/// stream has odd dimensions.
pub open spec fn spec_is_webrip_like(meta: FileMetadata) -> bool {
    spec_webrip_format(meta) || spec_has_vfr_stream(meta) || spec_has_odd_stream(meta)
}

/// Whether a file needs special handling during the encode (extra
/// timestamp-regeneration and sync flags).
pub fn is_webrip_like(meta: &FileMetadata) -> (r: bool)
    ensures
        r == spec_is_webrip_like(*meta),
{
    if str_contains_ignore_case(meta.format_name.as_str(), "mp4")
        || str_contains_ignore_case(meta.format_name.as_str(), "mov")
        || str_contains_ignore_case(meta.format_name.as_str(), "webm") {
        return true;
    }
    let n = meta.video_streams.len();
    let mut i: usize = 0;
    while i < n
        invariant
            n == meta.video_streams@.len(),
            i <= n,
            forall|j: int|
                0 <= j < i ==> !(#[trigger] meta.video_streams@[j]).spec_is_vfr() && !(
                meta.video_streams@[j]).spec_has_odd_dimensions(),
        decreases n - i,
    {
        let stream = &meta.video_streams[i];
        if stream.is_vfr() || stream.has_odd_dimensions() {
            return true;
        }
        i = i + 1;
    }
    false
}

/// The three parts of the special-handling decision are independent, and
/// the decision is their disjunction: any one of them alone suffices, and
/// with all three absent the file is ordinary.
pub proof fn lemma_webrip_like_is_pure_or(meta: FileMetadata)
    ensures
        spec_webrip_format(meta) ==> spec_is_webrip_like(meta),
        spec_has_vfr_stream(meta) ==> spec_is_webrip_like(meta),
        spec_has_odd_stream(meta) ==> spec_is_webrip_like(meta),
        !spec_webrip_format(meta) && !spec_has_vfr_stream(meta) && !spec_has_odd_stream(meta)
            ==> !spec_is_webrip_like(meta),
{
}

/// Whether a file is too small to be worth re-encoding.
pub fn should_skip_for_size(bytes: u64, min_bytes: u64) -> (r: bool)
    ensures
        r == (bytes < min_bytes),
{
    bytes < min_bytes
}

/// Some video stream already uses the target codec, ignoring ASCII case.
pub open spec fn spec_is_already_av1(meta: FileMetadata) -> bool {
    exists|i: int|
        0 <= i < meta.video_streams@.len() && seq_eq_ignore_case(
            (#[trigger] meta.video_streams@[i]).codec@,
            "av1"@,
        )
}

/// Whether any video stream is already encoded with the target codec.
pub fn is_already_av1(meta: &FileMetadata) -> (r: bool)
    ensures
        r == spec_is_already_av1(*meta),
{
    let n = meta.video_streams.len();
    let mut i: usize = 0;
    while i < n
        invariant
            n == meta.video_streams@.len(),
            i <= n,
            forall|j: int|
                0 <= j < i ==> !seq_eq_ignore_case(
                    (#[trigger] meta.video_streams@[j]).codec@,
                    "av1"@,
                ),
        decreases n - i,
    {
        if str_eq_ignore_case(meta.video_streams[i].codec.as_str(), "av1") {
            return true;
        }
        i = i + 1;
    }
    false
}

/// Encoder quality value for a given video height.
pub open spec fn spec_quality_for_height(height: int) -> int {
    if height < 1080 {
        25
    } else if height == 1080 {
        24
    } else {
        23
    }
}

/// Choose the encoder quality value from the video height.  Lower values
/// mean higher quality.
pub fn choose_quality(height: u32) -> (r: u8)
    ensures
        r as int == spec_quality_for_height(height as int),
{
    if height < HEIGHT_1080P {
        QSV_QUALITY_BELOW_1080P
    } else if height == HEIGHT_1080P {
        QSV_QUALITY_AT_1080P
    } else {
        QSV_QUALITY_AT_1440P_PLUS
    }
}

/// The quality tiers partition all heights: below 1080 is the low tier,
/// exactly 1080 the middle tier, and everything above 1080 the high tier.
/// In particular the heights strictly between 1080 and 1440 fall in the
/// high tier, not the middle one.
pub proof fn lemma_quality_tiers(height: int)
    ensures
        height < 1080 ==> spec_quality_for_height(height) == 25,
        height == 1080 ==> spec_quality_for_height(height) == 24,
        height >= 1440 ==> spec_quality_for_height(height) == 23,
        1080 < height < 1440 ==> spec_quality_for_height(height) == 23,
{
}

/// Pixel surface for a given bit depth.
pub open spec fn spec_surface_for_depth(bit_depth: int) -> Seq<char> {
    if bit_depth >= 10 {
        "p010"@
    } else {
        "nv12"@
    }
}

/// Choose the hardware upload surface from the stream's bit depth:
/// 10-bit-or-deeper content uses the 10-bit surface, the rest the 8-bit one.
pub fn choose_surface(bit_depth: u8) -> (r: &'static str)
    ensures
        r@ == spec_surface_for_depth(bit_depth as int),
{
    if bit_depth >= USE_10BIT_THRESHOLD {
        "p010"
    } else {
        "nv12"
    }
}

/// Over every bit depth, the high-bit-depth surface is chosen exactly when
/// the depth is at least ten.
pub proof fn lemma_surface_threshold(bit_depth: int)
    ensures
        spec_surface_for_depth(bit_depth) == "p010"@ <==> bit_depth >= 10,
{
    reveal_strlit("p010");
    reveal_strlit("nv12");
    assert("p010"@[0] != "nv12"@[0]);
}

} // verus!
