//! Normalized structural description of a media file, as produced by the
//! external media inspector and consumed by the decision engine.

use vstd::prelude::*;
use crate::text::{dec_str, u64_to_string};

verus! {

/// One video stream of a media file.
#[derive(Clone)]
pub struct VideoStreamInfo {
    /// Codec name, e.g. "h264" or "av1".
    pub codec: String,
    /// Width in pixels.
    pub width: u32,
    /// Height in pixels.
    pub height: u32,
    /// Bit depth, e.g. 8, 10 or 12.
    pub bit_depth: u8,
    /// Whether the stream is flagged as the default of its kind.
    pub is_default: bool,
    /// Average frame rate as a fraction string, e.g. "24/1".
    pub avg_frame_rate: String,
    /// Real (container) frame rate as a fraction string.
    pub r_frame_rate: String,
}

impl VideoStreamInfo {
    /// A stream is variable-frame-rate when its average and real frame
    /// rates disagree.
    pub open spec fn spec_is_vfr(self) -> bool {
        self.avg_frame_rate@ != self.r_frame_rate@
    }

    /// Whether either dimension is odd.
    pub open spec fn spec_has_odd_dimensions(self) -> bool {
        self.width % 2 != 0 || self.height % 2 != 0
    }

    /// Whether this stream is variable-frame-rate.
    pub fn is_vfr(&self) -> (r: bool)
        ensures
            r == self.spec_is_vfr(),
    {
        self.avg_frame_rate != self.r_frame_rate
    }

    /// Whether either dimension is odd (a pad to even sizes is then needed).
    pub fn has_odd_dimensions(&self) -> (r: bool)
        ensures
            r == self.spec_has_odd_dimensions(),
    {
        self.width % 2 != 0 || self.height % 2 != 0
    }

    /// Resolution as "WIDTHxHEIGHT".
    pub fn resolution_string(&self) -> (r: String)
        ensures
            r@ =~= dec_str(self.width as nat) + seq!['x'] + dec_str(self.height as nat),
    {
        proof {
            reveal_strlit("x");
        }
        let mut s = u64_to_string(self.width as u64);
        s.append("x");
        let h = u64_to_string(self.height as u64);
        s.append(h.as_str());
        s
    }

    /// Short label for the vertical resolution bucket.
    pub fn resolution_label(&self) -> (r: String)
        ensures
            self.height >= 2160 ==> r@ == "4K"@,
            1440 <= self.height < 2160 ==> r@ == "1440p"@,
            1080 <= self.height < 1440 ==> r@ == "1080p"@,
            720 <= self.height < 1080 ==> r@ == "720p"@,
            480 <= self.height < 720 ==> r@ == "480p"@,
            self.height < 480 ==> r@ =~= dec_str(self.height as nat) + seq!['p'],
    {
        if self.height >= 2160 {
            "4K".to_owned()
        } else if self.height >= 1440 {
            "1440p".to_owned()
        } else if self.height >= 1080 {
            "1080p".to_owned()
        } else if self.height >= 720 {
            "720p".to_owned()
        } else if self.height >= 480 {
            "480p".to_owned()
        } else {
            proof {
                reveal_strlit("p");
            }
            let mut s = u64_to_string(self.height as u64);
            s.append("p");
            s
        }
    }
}

/// Complete metadata for one media file.
#[derive(Clone)]
pub struct FileMetadata {
    /// Every video stream of the file, in container order.
    pub video_streams: Vec<VideoStreamInfo>,
    /// Container format name, e.g. "matroska,webm".
    pub format_name: String,
    /// Muxing-application tag, when the container reports one.
    pub tags_muxing_app: Option<String>,
    /// Major-brand tag, when the container reports one.
    pub tags_major_brand: Option<String>,
    /// Compatible-brands tag, when the container reports one.
    pub tags_compatible_brands: Option<String>,
    /// Total file size in bytes, when known.
    pub size: Option<u64>,
}

/// Index of the first stream flagged default at or after `i`, if any.
pub open spec fn first_default_from(streams: Seq<VideoStreamInfo>, i: int) -> Option<int>
    decreases streams.len() - i,
{
    if i < 0 || i >= streams.len() {
        None
    } else if streams[i].is_default {
        Some(i)
    } else {
        first_default_from(streams, i + 1)
    }
}

impl FileMetadata {
    /// Index of the default video stream: the first stream flagged default,
    /// else the first stream, else nothing.
    pub open spec fn spec_default_video_stream_index(self) -> Option<int> {
        match first_default_from(self.video_streams@, 0) {
            Some(i) => Some(i),
            None => if self.video_streams@.len() > 0 {
                Some(0)
            } else {
                None
            },
        }
    }

    /// The default (primary) video stream, if the file has any video.
    pub fn default_video_stream(&self) -> (r: Option<&VideoStreamInfo>)
        ensures
            match r {
                Some(s) => {
                    &&& self.spec_default_video_stream_index() matches Some(i)
                    &&& *s == self.video_streams@[
                        self.spec_default_video_stream_index()->0]
                },
                None => self.spec_default_video_stream_index() is None,
            },
    {
        match self.default_video_stream_index() {
            Some(i) => Some(&self.video_streams[i]),
            None => None,
        }
    }

    /// Index of the default video stream, for stream mapping in the
    /// encoder invocation.
    pub fn default_video_stream_index(&self) -> (r: Option<usize>)
        ensures
            match r {
                Some(i) => self.spec_default_video_stream_index() == Some(i as int) && (i as int)
                    < self.video_streams@.len(),
                None => self.spec_default_video_stream_index() is None,
            },
    {
        let n = self.video_streams.len();
        let mut i: usize = 0;
        while i < n
            invariant
                n == self.video_streams@.len(),
                i <= n,
                first_default_from(self.video_streams@, 0) == first_default_from(
                    self.video_streams@,
                    i as int,
                ),
                forall|j: int| 0 <= j < i ==> !self.video_streams@[j].is_default,
            decreases n - i,
        {
            if self.video_streams[i].is_default {
                return Some(i);
            }
            i = i + 1;
        }
        if n > 0 {
            Some(0)
        } else {
            None
        }
    }

    /// Whether the file has any video stream at all.
    pub fn has_video(&self) -> (r: bool)
        ensures
            r == (self.video_streams@.len() > 0),
    {
        self.video_streams.len() > 0
    }
}

} // verus!
