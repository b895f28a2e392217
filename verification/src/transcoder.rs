//! The FFmpeg command line for on-the-fly transcoding.

use vstd::prelude::*;

use crate::text::{decimal, push_decimal, string_from};

verus! {

/// Transcoding of media files to an MPEG-TS stream that every renderer plays.
pub struct Transcoder;

/// The FFmpeg options before the input: fast start, and a seek when resuming.
pub open spec fn input_options(start_position_seconds: u64) -> Seq<Seq<char>> {
    seq!["-analyzeduration"@, "0"@, "-probesize"@, "2000000"@] + if start_position_seconds > 0 {
        seq!["-ss"@, decimal(start_position_seconds as nat)]
    } else {
        Seq::empty()
    }
}

/// The FFmpeg options after the input: H.264 video (ultrafast, zero latency),
/// AAC audio at 192k, yuv420p pixels, MPEG-TS written to standard output.
pub open spec fn output_options() -> Seq<Seq<char>> {
    seq![
        "-c:v"@, "libx264"@, "-preset"@, "ultrafast"@, "-tune"@, "zerolatency"@,
        "-c:a"@, "aac"@, "-b:a"@, "192k"@, "-pix_fmt"@, "yuv420p"@, "-f"@, "mpegts"@,
        "-maxrate"@, "50M"@, "-bufsize"@, "100M"@, "-"@,
    ]
}

/// The arguments FFmpeg is started with to transcode `file` from the given position.
pub open spec fn ffmpeg_arguments(file: Seq<char>, start_position_seconds: u64) -> Seq<Seq<char>> {
    input_options(start_position_seconds) + seq!["-i"@, file] + output_options()
}

impl Transcoder {
    /// The arguments FFmpeg is started with to transcode `file_path`, seeking
    /// to `start_position_seconds` first when it is not 0.
    pub fn ffmpeg_args(file_path: &str, start_position_seconds: u64) -> (r: Vec<String>)
        ensures
            r@.map_values(|s: String| s@) == ffmpeg_arguments(file_path@, start_position_seconds),
    {
        let mut v: Vec<String> = Vec::new();
        v.push(string_from("-analyzeduration"));
        v.push(string_from("0"));
        v.push(string_from("-probesize"));
        v.push(string_from("2000000"));
        if start_position_seconds > 0 {
            v.push(string_from("-ss"));
            let mut t = String::new();
            push_decimal(&mut t, start_position_seconds);
            v.push(t);
        }
        v.push(string_from("-i"));
        v.push(string_from(file_path));
        v.push(string_from("-c:v"));
        v.push(string_from("libx264"));
        v.push(string_from("-preset"));
        v.push(string_from("ultrafast"));
        v.push(string_from("-tune"));
        v.push(string_from("zerolatency"));
        v.push(string_from("-c:a"));
        v.push(string_from("aac"));
        v.push(string_from("-b:a"));
        v.push(string_from("192k"));
        v.push(string_from("-pix_fmt"));
        v.push(string_from("yuv420p"));
        v.push(string_from("-f"));
        v.push(string_from("mpegts"));
        v.push(string_from("-maxrate"));
        v.push(string_from("50M"));
        v.push(string_from("-bufsize"));
        v.push(string_from("100M"));
        v.push(string_from("-"));
        assert(v@.map_values(|s: String| s@) =~= ffmpeg_arguments(file_path@, start_position_seconds));
        v
    }
}

} // verus!
