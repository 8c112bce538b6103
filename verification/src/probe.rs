//! Normalization of the external media inspector's structured output.
//! The I/O layer runs the inspector and hands its per-stream and
//! per-format fields over as plain values; everything here — bit-depth
//! resolution, default-stream selection, size fallback and tag
//! normalization — is verified.

use vstd::prelude::*;
use crate::metadata::{FileMetadata, VideoStreamInfo};
use crate::text::{
    dec_value, is_dec_digits, parse_u64_digits, seq_contains_ignore_case, str_contains_ignore_case,
    str_eq,
};

verus! {

/// One stream as the inspector reports it, reduced to plain values.
pub struct RawProbeStream {
    /// Stream kind: "video", "audio", "subtitle", ...
    pub codec_type: String,
    /// Codec name.
    pub codec_name: String,
    /// Width in pixels, for video streams.
    pub width: Option<u32>,
    /// Height in pixels, for video streams.
    pub height: Option<u32>,
    /// Pixel format name, e.g. "yuv420p10le".
    pub pix_fmt: Option<String>,
    /// Bits per raw sample, as reported (possibly non-numeric).
    pub bits_per_raw_sample: Option<String>,
    /// Average frame rate as a fraction string.
    pub avg_frame_rate: String,
    /// Real frame rate as a fraction string.
    pub r_frame_rate: String,
    /// The "default" disposition flag, when reported.
    pub disposition_default: Option<i32>,
}

/// The container-level fields as the inspector reports them.
pub struct RawProbeFormat {
    /// Container format name.
    pub format_name: String,
    /// Total size in bytes, as a decimal string, when reported.
    pub size: Option<String>,
    /// Muxing-application tag under its upper-case key.
    pub muxing_app_upper: Option<String>,
    /// Muxing-application tag under its lower-case key.
    pub muxing_app_lower: Option<String>,
    /// Major-brand tag.
    pub major_brand: Option<String>,
    /// Compatible-brands tag.
    pub compatible_brands: Option<String>,
}

/// Bit depth of a stream: the explicit raw-sample count when numeric,
/// else inferred from 10-, then 12-, then 16-bit markers in the pixel
/// format name (in that order), else eight.
pub open spec fn spec_parse_bit_depth(pix_fmt: Option<String>, bits: Option<String>) -> int {
    match bits {
        Some(b) => if is_dec_digits(b@) && dec_value(b@) <= u8::MAX {
            dec_value(b@)
        } else {
            spec_bit_depth_from_format(pix_fmt)
        },
        None => spec_bit_depth_from_format(pix_fmt),
    }
}

/// Bit depth inferred from the pixel format name alone.
pub open spec fn spec_bit_depth_from_format(pix_fmt: Option<String>) -> int {
    match pix_fmt {
        Some(f) => if seq_contains_ignore_case(f@, "10le"@) || seq_contains_ignore_case(
            f@,
            "10be"@,
        ) || seq_contains_ignore_case(f@, "p10"@) {
            10
        } else if seq_contains_ignore_case(f@, "12le"@) || seq_contains_ignore_case(f@, "12be"@)
            || seq_contains_ignore_case(f@, "p12"@) {
            12
        } else if seq_contains_ignore_case(f@, "16le"@) || seq_contains_ignore_case(f@, "16be"@)
            || seq_contains_ignore_case(f@, "p16"@) {
            16
        } else {
            8
        },
        None => 8,
    }
}

/// Resolve a stream's bit depth (see [`spec_parse_bit_depth`]).
pub fn parse_bit_depth(pix_fmt: &Option<String>, bits_str: &Option<String>) -> (r: u8)
    ensures
        r as int == spec_parse_bit_depth(*pix_fmt, *bits_str),
{
    match bits_str {
        Some(b) => {
            match parse_u64_digits(b.as_str()) {
                Some(v) => {
                    if v <= u8::MAX as u64 {
                        return v as u8;
                    }
                },
                None => {},
            }
        },
        None => {},
    }
    match pix_fmt {
        Some(f) => {
            if str_contains_ignore_case(f.as_str(), "10le") || str_contains_ignore_case(
                f.as_str(),
                "10be",
            ) || str_contains_ignore_case(f.as_str(), "p10") {
                10
            } else if str_contains_ignore_case(f.as_str(), "12le") || str_contains_ignore_case(
                f.as_str(),
                "12be",
            ) || str_contains_ignore_case(f.as_str(), "p12") {
                12
            } else if str_contains_ignore_case(f.as_str(), "16le") || str_contains_ignore_case(
                f.as_str(),
                "16be",
            ) || str_contains_ignore_case(f.as_str(), "p16") {
                16
            } else {
                8
            }
        },
        None => 8,
    }
}

/// The normalized stream record for one raw video stream.
pub open spec fn spec_stream_info(s: RawProbeStream) -> VideoStreamInfo {
    VideoStreamInfo {
        codec: s.codec_name,
        width: match s.width {
            Some(w) => w,
            None => 0,
        },
        height: match s.height {
            Some(h) => h,
            None => 0,
        },
        bit_depth: spec_parse_bit_depth(s.pix_fmt, s.bits_per_raw_sample) as u8,
        is_default: s.disposition_default == Some(1i32),
        avg_frame_rate: s.avg_frame_rate,
        r_frame_rate: s.r_frame_rate,
    }
}

/// The video streams among the raw streams, in order, normalized.
pub open spec fn spec_video_streams(raws: Seq<RawProbeStream>) -> Seq<VideoStreamInfo>
    decreases raws.len(),
{
    if raws.len() == 0 {
        Seq::empty()
    } else if raws.last().codec_type@ == "video"@ {
        spec_video_streams(raws.drop_last()).push(spec_stream_info(raws.last()))
    } else {
        spec_video_streams(raws.drop_last())
    }
}

/// The file size: the container-reported decimal when parseable, else
/// the filesystem's answer for the path.
pub open spec fn spec_probe_size(reported: Option<String>, fallback: Option<u64>) -> Option<u64> {
    match reported {
        Some(s) => if is_dec_digits(s@) && dec_value(s@) <= u64::MAX {
            Some(dec_value(s@) as u64)
        } else {
            fallback
        },
        None => fallback,
    }
}

/// The muxing-application tag: the two case-variant keys are independent
/// optional fields, and the first non-empty of them wins; empty values
/// count as absent.
pub open spec fn spec_muxing_app(upper: Option<String>, lower: Option<String>) -> Option<String> {
    if upper matches Some(u) && u@.len() > 0 {
        upper
    } else if lower matches Some(l) && l@.len() > 0 {
        lower
    } else {
        None
    }
}

/// Normalize the inspector's output into the library's metadata: keep
/// the video streams in order, resolve each bit depth, take the reported
/// size or the filesystem fallback, and collapse the case-variant
/// muxing-application keys into one field (first non-empty wins).
pub fn convert_probe_output(
    streams: Vec<RawProbeStream>,
    format: RawProbeFormat,
    fallback_size: Option<u64>,
) -> (r: FileMetadata)
    ensures
        r.video_streams@ == spec_video_streams(streams@),
        r.format_name == format.format_name,
        r.size == spec_probe_size(format.size, fallback_size),
        r.tags_muxing_app == spec_muxing_app(format.muxing_app_upper, format.muxing_app_lower),
        r.tags_major_brand == format.major_brand,
        r.tags_compatible_brands == format.compatible_brands,
{
    let n = streams.len();
    let mut infos: Vec<VideoStreamInfo> = Vec::new();
    let mut i: usize = 0;
    while i < n
        invariant
            n == streams@.len(),
            i <= n,
            infos@ == spec_video_streams(streams@.take(i as int)),
        decreases n - i,
    {
        let raw = &streams[i];
        proof {
            assert(streams@.take(i as int + 1).drop_last() =~= streams@.take(i as int));
            assert(streams@.take(i as int + 1).last() == streams@[i as int]);
        }
        if str_eq(raw.codec_type.as_str(), "video") {
            let depth = parse_bit_depth(&raw.pix_fmt, &raw.bits_per_raw_sample);
            let info = VideoStreamInfo {
                codec: raw.codec_name.clone(),
                width: match raw.width {
                    Some(w) => w,
                    None => 0,
                },
                height: match raw.height {
                    Some(h) => h,
                    None => 0,
                },
                bit_depth: depth,
                is_default: match raw.disposition_default {
                    Some(d) => d == 1,
                    None => false,
                },
                avg_frame_rate: raw.avg_frame_rate.clone(),
                r_frame_rate: raw.r_frame_rate.clone(),
            };
            proof {
                assert(info == spec_stream_info(streams@[i as int]));
            }
            infos.push(info);
        }
        i = i + 1;
    }
    proof {
        assert(streams@.take(n as int) =~= streams@);
    }
    let size: Option<u64> = match &format.size {
        Some(s) => {
            match parse_u64_digits(s.as_str()) {
                Some(v) => Some(v),
                None => fallback_size,
            }
        },
        None => fallback_size,
    };
    let muxing_app: Option<String> = match format.muxing_app_upper {
        Some(u) => {
            if u.as_str().unicode_len() > 0 {
                Some(u)
            } else {
                match format.muxing_app_lower {
                    Some(l) => {
                        if l.as_str().unicode_len() > 0 {
                            Some(l)
                        } else {
                            None
                        }
                    },
                    None => None,
                }
            }
        },
        None => {
            match format.muxing_app_lower {
                Some(l) => {
                    if l.as_str().unicode_len() > 0 {
                        Some(l)
                    } else {
                        None
                    }
                },
                None => None,
            }
        },
    };
    FileMetadata {
        video_streams: infos,
        format_name: format.format_name,
        tags_muxing_app: muxing_app,
        tags_major_brand: format.major_brand,
        tags_compatible_brands: format.compatible_brands,
        size,
    }
}

} // verus!
