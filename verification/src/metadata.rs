use vstd::prelude::*;

verus! {

use vstd::string::StringExecFns;
use vstd::string::StrSliceExecFns;
use crate::text::{
    decimal_string, decimal_string_pad2, decimal_string_pad3, spec_decimal, spec_decimal_pad2,
    spec_decimal_pad3, str_eq,
};

/// What a decoder reports about an audio stream, as plain values.
#[derive(Debug, Clone)]
pub struct AudioMetadata {
    pub codec: String,
    pub bits_per_sample: Option<u32>,
    pub bit_rate: Option<u64>,
    pub channel_layout: String,
}

/// Long display name of a codec; unknown codecs pass through unchanged.
pub open spec fn spec_format_codec(s: Seq<char>) -> Seq<char> {
    if s == "FLAC"@ {
        "FLAC (Free Lossless Audio Codec)"@
    } else if s == "MP3"@ {
        "MP3 (MPEG Audio Layer 3)"@
    } else if s == "AAC"@ {
        "AAC (Advanced Audio Coding)"@
    } else if s == "ALAC"@ {
        "ALAC (Apple Lossless Audio Codec)"@
    } else if s == "Vorbis"@ {
        "Vorbis (Ogg Vorbis)"@
    } else {
        s
    }
}

pub fn format_codec(codec: &str) -> (r: String)
    ensures
        r@ == spec_format_codec(codec@),
{
    if str_eq(codec, "FLAC") {
        String::from_str("FLAC (Free Lossless Audio Codec)")
    } else if str_eq(codec, "MP3") {
        String::from_str("MP3 (MPEG Audio Layer 3)")
    } else if str_eq(codec, "AAC") {
        String::from_str("AAC (Advanced Audio Coding)")
    } else if str_eq(codec, "ALAC") {
        String::from_str("ALAC (Apple Lossless Audio Codec)")
    } else if str_eq(codec, "Vorbis") {
        String::from_str("Vorbis (Ogg Vorbis)")
    } else {
        codec.to_owned()
    }
}

/// A channel layout displays as itself.
pub fn format_channels(layout: &str) -> (r: &str)
    ensures
        r@ == layout@,
{
    layout
}

/// Bit rate display: kilobits per second up to 1000 kbps, then megabits
/// with two decimals, rounded half-up on the exact decimal value.
pub open spec fn spec_format_bitrate(bitrate: int) -> Seq<char> {
    let kbps = bitrate / 1000;
    if kbps > 1000 {
        let cents = (kbps + 5) / 10;
        spec_decimal(cents / 100) + "."@ + spec_decimal_pad2(cents % 100) + " Mbps"@
    } else {
        spec_decimal(kbps) + " kbps"@
    }
}

pub fn format_bitrate(bitrate: u64) -> (r: String)
    ensures
        r@ == spec_format_bitrate(bitrate as int),
{
    let kbps = bitrate / 1000;
    if kbps > 1000 {
        let cents = (kbps + 5) / 10;
        let mut s = decimal_string(cents / 100);
        s.append(".");
        s.append(decimal_string_pad2(cents % 100).as_str());
        s.append(" Mbps");
        s
    } else {
        let mut s = decimal_string(kbps);
        s.append(" kbps");
        s
    }
}

/// Duration display: `H:MM:SS.mmm` above an hour, `M:SS.mmm` below.
pub open spec fn spec_format_duration(total_seconds: int, millis: int) -> Seq<char> {
    let hours = total_seconds / 3600;
    let minutes = (total_seconds % 3600) / 60;
    let secs = total_seconds % 60;
    if hours > 0 {
        spec_decimal(hours) + ":"@ + spec_decimal_pad2(minutes) + ":"@ + spec_decimal_pad2(secs)
            + "."@ + spec_decimal_pad3(millis)
    } else {
        spec_decimal(minutes) + ":"@ + spec_decimal_pad2(secs) + "."@ + spec_decimal_pad3(millis)
    }
}

pub fn format_duration(total_seconds: u64, millis: u64) -> (r: String)
    requires
        millis < 1000,
    ensures
        r@ == spec_format_duration(total_seconds as int, millis as int),
{
    let hours = total_seconds / 3600;
    let minutes = (total_seconds % 3600) / 60;
    let secs = total_seconds % 60;
    if hours > 0 {
        let mut s = decimal_string(hours);
        s.append(":");
        s.append(decimal_string_pad2(minutes).as_str());
        s.append(":");
        s.append(decimal_string_pad2(secs).as_str());
        s.append(".");
        s.append(decimal_string_pad3(millis).as_str());
        s
    } else {
        let mut s = decimal_string(minutes);
        s.append(":");
        s.append(decimal_string_pad2(secs).as_str());
        s.append(".");
        s.append(decimal_string_pad3(millis).as_str());
        s
    }
}

/// A path shortened for a display column of `max_len` characters: the path
/// itself when it fits, else `...` followed by the file name, itself
/// trimmed from the left if even that is too long.
pub open spec fn spec_truncate_path(path: Seq<char>, file_name: Seq<char>, max_len: int) -> Seq<
    char,
> {
    if path.len() <= max_len {
        path
    } else if file_name.len() > max_len - 3 {
        "..."@ + file_name.skip(file_name.len() - (max_len - 3))
    } else {
        "..."@ + file_name
    }
}

pub fn truncate_path(path: &str, file_name: &str, max_len: usize) -> (r: String)
    requires
        max_len >= 3,
    ensures
        r@ == spec_truncate_path(path@, file_name@, max_len as int),
{
    let n = path.unicode_len();
    if n <= max_len {
        path.to_owned()
    } else {
        let m = file_name.unicode_len();
        if m > max_len - 3 {
            let tail = file_name.substring_char(m - (max_len - 3), m);
            let mut s = String::from_str("...");
            s.append(tail);
            proof {
                assert(file_name@.subrange(
                    file_name@.len() - ((max_len as int) - 3),
                    file_name@.len() as int,
                ) =~= file_name@.skip(file_name@.len() - ((max_len as int) - 3)));
            }
            s
        } else {
            let mut s = String::from_str("...");
            s.append(file_name);
            s
        }
    }
}

} // verus!
