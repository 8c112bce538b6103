//! The deterministic encoder invocation builder: from the probe-derived
//! parameters to the exact ordered argument vector, pinned down argument
//! by argument.

use vstd::prelude::*;
use crate::heuristics::{choose_quality, choose_surface, spec_quality_for_height,
    spec_surface_for_depth};
use crate::metadata::FileMetadata;
use crate::paths::{get_temp_output_path, spec_stem_end};
use crate::text::{dec_str, u64_to_string};

verus! {

/// Everything the command builder needs for one encode.
#[derive(Clone)]
pub struct TranscodeParams {
    /// Path of the input file.
    pub input_path: String,
    /// Path of the in-progress output (renamed into place on success).
    pub output_path: String,
    /// Index of the selected video stream.
    pub video_stream_index: usize,
    /// Encoder quality value.
    pub quality: u8,
    /// Pixel surface for the hardware upload ("nv12" or "p010").
    pub surface: String,
    /// Whether the special timestamp/sync flags are needed.
    pub is_webrip: bool,
}

impl TranscodeParams {
    /// Derive the encode parameters from a file's metadata: the default
    /// stream selects quality and surface, and the output goes to the
    /// temporary sibling path.  `None` when the file has no video stream.
    pub fn from_metadata(input_path: String, metadata: &FileMetadata, is_webrip: bool) -> (r:
        Option<TranscodeParams>)
        ensures
            r is Some <==> metadata.video_streams@.len() > 0,
            r matches Some(p) ==> {
                let i = metadata.spec_default_video_stream_index()->0;
                &&& metadata.spec_default_video_stream_index() is Some
                &&& p.input_path == input_path
                &&& p.output_path@ == input_path@.take(spec_stem_end(input_path@))
                    + ".av1-tmp.mkv"@
                &&& p.video_stream_index == i
                &&& p.quality as int == spec_quality_for_height(
                    metadata.video_streams@[i].height as int,
                )
                &&& p.surface@ == spec_surface_for_depth(
                    metadata.video_streams@[i].bit_depth as int,
                )
                &&& p.is_webrip == is_webrip
            },
    {
        let index = match metadata.default_video_stream_index() {
            Some(i) => i,
            None => {
                return None;
            },
        };
        let stream = &metadata.video_streams[index];
        let quality = choose_quality(stream.height);
        let surface = choose_surface(stream.bit_depth).to_owned();
        let output_path = get_temp_output_path(input_path.as_str());
        Some(
            TranscodeParams {
                input_path,
                output_path,
                video_stream_index: index,
                quality,
                surface,
                is_webrip,
            },
        )
    }
}

/// Leading arguments: output control, verbose statistics, hardware device
/// initialization and the large probe buffers.  Only the device argument
/// depends on the probing result.
pub open spec fn spec_head_args(has_render_device: bool) -> Seq<Seq<char>> {
    seq![
        "-y"@,
        "-v"@,
        "verbose"@,
        "-stats"@,
        "-benchmark"@,
        "-benchmark_all"@,
        "-hwaccel"@,
        "none"@,
        "-init_hw_device"@,
        if has_render_device {
            "qsv=hw,child_device_type=vaapi"@
        } else {
            "qsv=hw"@
        },
        "-filter_hw_device"@,
        "hw"@,
        "-analyzeduration"@,
        "50M"@,
        "-probesize"@,
        "50M"@,
    ]
}

/// Input-side timestamp-regeneration flags, present only under special
/// handling.
pub open spec fn spec_webrip_input_flags(is_webrip: bool) -> Seq<Seq<char>> {
    if is_webrip {
        seq!["-fflags"@, "+genpts"@, "-copyts"@, "-start_at_zero"@]
    } else {
        Seq::empty()
    }
}

/// Stream mapping: keep everything, drop all video and attachments, re-add
/// exactly the selected video stream, keep audio and subtitles except the
/// excluded language under its two spellings, and copy chapters.
pub open spec fn spec_mapping_args(index: int) -> Seq<Seq<char>> {
    seq![
        "-map"@,
        "0"@,
        "-map"@,
        "-0:v"@,
        "-map"@,
        "-0:t"@,
        "-map"@,
        "0:v:"@ + dec_str(index as nat),
        "-map"@,
        "0:a?"@,
        "-map"@,
        "-0:a:m:language:rus"@,
        "-map"@,
        "-0:a:m:language:ru"@,
        "-map"@,
        "0:s?"@,
        "-map"@,
        "-0:s:m:language:rus"@,
        "-map"@,
        "-0:s:m:language:ru"@,
        "-map_chapters"@,
        "0"@,
    ]
}

/// Output-side zero-basis synchronization flags, present only under
/// special handling.
pub open spec fn spec_webrip_sync_flags(is_webrip: bool) -> Seq<Seq<char>> {
    if is_webrip {
        seq!["-vsync"@, "0"@, "-avoid_negative_ts"@, "make_zero"@]
    } else {
        Seq::empty()
    }
}

/// The fixed video filter chain, parameterized only by the surface:
/// pad to even dimensions, normalize the aspect ratio, convert to the
/// surface format, upload to hardware with a fixed extra-frame buffer.
pub open spec fn spec_filter_chain(surface: Seq<char>) -> Seq<char> {
    "pad=ceil(iw/2)*2:ceil(ih/2)*2,setsar=1,format="@ + surface + ",hwupload=extra_hw_frames=64"@
}

/// Video encoder selection and its quality/preset parameters.
pub open spec fn spec_encode_args(quality: int) -> Seq<Seq<char>> {
    seq![
        "-c:v:0"@,
        "av1_qsv"@,
        "-global_quality:v:0"@,
        dec_str(quality as nat),
        "-preset:v:0"@,
        "medium"@,
        "-look_ahead"@,
        "1"@,
    ]
}

/// Trailing arguments: audio/subtitle pass-through, muxing queue size,
/// metadata copy, output container and the fast-start flag.
pub open spec fn spec_tail_args() -> Seq<Seq<char>> {
    seq![
        "-c:a"@,
        "copy"@,
        "-c:s"@,
        "copy"@,
        "-max_muxing_queue_size"@,
        "2048"@,
        "-map_metadata"@,
        "0"@,
        "-f"@,
        "matroska"@,
        "-movflags"@,
        "+faststart"@,
    ]
}

/// The complete argument vector for one encode.
pub open spec fn spec_command_args(p: TranscodeParams, has_render_device: bool) -> Seq<Seq<char>> {
    spec_head_args(has_render_device) + spec_webrip_input_flags(p.is_webrip) + seq![
        "-i"@,
        p.input_path@,
    ] + spec_mapping_args(p.video_stream_index as int) + spec_webrip_sync_flags(p.is_webrip)
        + seq!["-vf:v:0"@, spec_filter_chain(p.surface@)] + spec_encode_args(p.quality as int)
        + spec_tail_args() + seq![p.output_path@]
}

/// Append the leading arguments.
fn push_head_args(args: &mut Vec<String>, has_render_device: bool)
    ensures
        final(args).deep_view() == old(args).deep_view() + spec_head_args(has_render_device),
{
    args.push("-y".to_owned());
    args.push("-v".to_owned());
    args.push("verbose".to_owned());
    args.push("-stats".to_owned());
    args.push("-benchmark".to_owned());
    args.push("-benchmark_all".to_owned());
    args.push("-hwaccel".to_owned());
    args.push("none".to_owned());
    args.push("-init_hw_device".to_owned());
    if has_render_device {
        args.push("qsv=hw,child_device_type=vaapi".to_owned());
    } else {
        args.push("qsv=hw".to_owned());
    }
    args.push("-filter_hw_device".to_owned());
    args.push("hw".to_owned());
    args.push("-analyzeduration".to_owned());
    args.push("50M".to_owned());
    args.push("-probesize".to_owned());
    args.push("50M".to_owned());
    proof {
        assert(args.deep_view() =~~= old(args).deep_view() + spec_head_args(has_render_device));
    }
}

/// Append the stream-mapping arguments.
fn push_mapping_args(args: &mut Vec<String>, index: usize)
    ensures
        final(args).deep_view() == old(args).deep_view() + spec_mapping_args(index as int),
{
    args.push("-map".to_owned());
    args.push("0".to_owned());
    args.push("-map".to_owned());
    args.push("-0:v".to_owned());
    args.push("-map".to_owned());
    args.push("-0:t".to_owned());
    args.push("-map".to_owned());
    let mut selected = "0:v:".to_owned();
    let index_str = u64_to_string(index as u64);
    selected.append(index_str.as_str());
    args.push(selected);
    args.push("-map".to_owned());
    args.push("0:a?".to_owned());
    args.push("-map".to_owned());
    args.push("-0:a:m:language:rus".to_owned());
    args.push("-map".to_owned());
    args.push("-0:a:m:language:ru".to_owned());
    args.push("-map".to_owned());
    args.push("0:s?".to_owned());
    args.push("-map".to_owned());
    args.push("-0:s:m:language:rus".to_owned());
    args.push("-map".to_owned());
    args.push("-0:s:m:language:ru".to_owned());
    args.push("-map_chapters".to_owned());
    args.push("0".to_owned());
    proof {
        assert(args.deep_view() =~~= old(args).deep_view() + spec_mapping_args(index as int));
    }
}

/// Append the encoder and quality arguments.
fn push_encode_args(args: &mut Vec<String>, quality: u8)
    ensures
        final(args).deep_view() == old(args).deep_view() + spec_encode_args(quality as int),
{
    args.push("-c:v:0".to_owned());
    args.push("av1_qsv".to_owned());
    args.push("-global_quality:v:0".to_owned());
    args.push(u64_to_string(quality as u64));
    args.push("-preset:v:0".to_owned());
    args.push("medium".to_owned());
    args.push("-look_ahead".to_owned());
    args.push("1".to_owned());
    proof {
        assert(args.deep_view() =~~= old(args).deep_view() + spec_encode_args(quality as int));
    }
}

/// Append the trailing arguments.
fn push_tail_args(args: &mut Vec<String>)
    ensures
        final(args).deep_view() == old(args).deep_view() + spec_tail_args(),
{
    args.push("-c:a".to_owned());
    args.push("copy".to_owned());
    args.push("-c:s".to_owned());
    args.push("copy".to_owned());
    args.push("-max_muxing_queue_size".to_owned());
    args.push("2048".to_owned());
    args.push("-map_metadata".to_owned());
    args.push("0".to_owned());
    args.push("-f".to_owned());
    args.push("matroska".to_owned());
    args.push("-movflags".to_owned());
    args.push("+faststart".to_owned());
    proof {
        assert(args.deep_view() =~~= old(args).deep_view() + spec_tail_args());
    }
}

/// Build the complete, deterministic encoder argument vector.  Identical
/// parameters give the identical vector; the device-probing result affects
/// only the device-initialization argument.
pub fn build_ffmpeg_command(params: &TranscodeParams, has_render_device: bool) -> (r: Vec<String>)
    ensures
        r.deep_view() == spec_command_args(*params, has_render_device),
{
    let ghost hrd = has_render_device;
    let mut args: Vec<String> = Vec::new();
    push_head_args(&mut args, has_render_device);
    proof {
        assert(args.deep_view() =~~= spec_head_args(hrd));
    }
    let ghost c1 = spec_head_args(hrd) + spec_webrip_input_flags(params.is_webrip);
    if params.is_webrip {
        args.push("-fflags".to_owned());
        args.push("+genpts".to_owned());
        args.push("-copyts".to_owned());
        args.push("-start_at_zero".to_owned());
        proof {
            assert(args.deep_view() =~~= c1);
        }
    } else {
        proof {
            assert(args.deep_view() =~~= c1);
        }
    }
    args.push("-i".to_owned());
    args.push(params.input_path.clone());
    let ghost c2 = c1 + seq!["-i"@, params.input_path@];
    proof {
        assert(args.deep_view() =~~= c2);
    }
    push_mapping_args(&mut args, params.video_stream_index);
    let ghost c3 = c2 + spec_mapping_args(params.video_stream_index as int);
    let ghost c4 = c3 + spec_webrip_sync_flags(params.is_webrip);
    if params.is_webrip {
        args.push("-vsync".to_owned());
        args.push("0".to_owned());
        args.push("-avoid_negative_ts".to_owned());
        args.push("make_zero".to_owned());
        proof {
            assert(args.deep_view() =~~= c4);
        }
    } else {
        proof {
            assert(args.deep_view() =~~= c4);
        }
    }
    args.push("-vf:v:0".to_owned());
    let mut filter = "pad=ceil(iw/2)*2:ceil(ih/2)*2,setsar=1,format=".to_owned();
    filter.append(params.surface.as_str());
    filter.append(",hwupload=extra_hw_frames=64");
    args.push(filter);
    let ghost c5 = c4 + seq!["-vf:v:0"@, spec_filter_chain(params.surface@)];
    proof {
        assert(args.deep_view() =~~= c5);
    }
    push_encode_args(&mut args, params.quality);
    let ghost c6 = c5 + spec_encode_args(params.quality as int);
    push_tail_args(&mut args);
    let ghost c7 = c6 + spec_tail_args();
    proof {
        assert(args.deep_view() =~~= c7);
    }
    args.push(params.output_path.clone());
    proof {
        assert(args.deep_view() =~~= c7 + seq![params.output_path@]);
        assert(args.deep_view() =~~= spec_command_args(*params, has_render_device));
    }
    args
}

} // verus!
