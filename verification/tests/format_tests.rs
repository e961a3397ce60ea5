use spek_core::metadata::{
    format_bitrate, format_channels, format_codec, format_duration, truncate_path, AudioMetadata,
};
use spek_core::text::{decimal_string, decimal_string_pad2, decimal_string_pad3};

#[test]
fn decimal_strings() {
    assert_eq!(decimal_string(0), "0");
    assert_eq!(decimal_string(7), "7");
    assert_eq!(decimal_string(10), "10");
    assert_eq!(decimal_string(44100), "44100");
    assert_eq!(decimal_string(u64::MAX), "18446744073709551615");
}

#[test]
fn padded_decimal_strings() {
    assert_eq!(decimal_string_pad2(0), "00");
    assert_eq!(decimal_string_pad2(9), "09");
    assert_eq!(decimal_string_pad2(42), "42");
    assert_eq!(decimal_string_pad3(0), "000");
    assert_eq!(decimal_string_pad3(7), "007");
    assert_eq!(decimal_string_pad3(42), "042");
    assert_eq!(decimal_string_pad3(999), "999");
}

#[test]
fn codec_names_expand() {
    assert_eq!(format_codec("FLAC"), "FLAC (Free Lossless Audio Codec)");
    assert_eq!(format_codec("MP3"), "MP3 (MPEG Audio Layer 3)");
    assert_eq!(format_codec("AAC"), "AAC (Advanced Audio Coding)");
    assert_eq!(format_codec("ALAC"), "ALAC (Apple Lossless Audio Codec)");
    assert_eq!(format_codec("Vorbis"), "Vorbis (Ogg Vorbis)");
    assert_eq!(format_codec("Opus"), "Opus");
}

#[test]
fn channel_layout_passes_through() {
    assert_eq!(format_channels("Stereo"), "Stereo");
    assert_eq!(format_channels("5.1 Surround"), "5.1 Surround");
}

#[test]
fn bitrate_below_a_megabit_shows_kbps() {
    assert_eq!(format_bitrate(320000), "320 kbps");
    assert_eq!(format_bitrate(999000), "999 kbps");
    assert_eq!(format_bitrate(1000000), "1000 kbps");
    assert_eq!(format_bitrate(0), "0 kbps");
}

#[test]
fn bitrate_above_a_megabit_shows_mbps() {
    assert_eq!(format_bitrate(1411200), "1.41 Mbps");
    assert_eq!(format_bitrate(2000000), "2.00 Mbps");
    assert_eq!(format_bitrate(1999999), "2.00 Mbps");
    assert_eq!(format_bitrate(9216000), "9.22 Mbps");
}

#[test]
fn duration_under_an_hour() {
    assert_eq!(format_duration(59, 7), "0:59.007");
    assert_eq!(format_duration(125, 500), "2:05.500");
    assert_eq!(format_duration(0, 0), "0:00.000");
}

#[test]
fn duration_over_an_hour() {
    assert_eq!(format_duration(3661, 42), "1:01:01.042");
    assert_eq!(format_duration(7322, 999), "2:02:02.999");
}

#[test]
fn short_paths_pass_through() {
    assert_eq!(truncate_path("/music/a.flac", "a.flac", 42), "/music/a.flac");
}

#[test]
fn long_paths_keep_the_file_name() {
    let path = "/very/long/directory/chain/that/exceeds/the/column/track.flac";
    assert_eq!(truncate_path(path, "track.flac", 20), "...track.flac");
}

#[test]
fn long_file_names_are_trimmed_from_the_left() {
    let path = "/music/a_very_long_recording_name_indeed.flac";
    let name = "a_very_long_recording_name_indeed.flac";
    // 10 - 3 = 7 characters of the tail survive.
    assert_eq!(truncate_path(path, name, 10), "...ed.flac");
}

#[test]
fn metadata_carries_plain_fields() {
    let m = AudioMetadata {
        codec: "FLAC".to_string(),
        bits_per_sample: Some(16),
        bit_rate: Some(1411200),
        channel_layout: "Stereo".to_string(),
    };
    assert_eq!(format_codec(&m.codec), "FLAC (Free Lossless Audio Codec)");
    assert_eq!(format_bitrate(m.bit_rate.unwrap()), "1.41 Mbps");
}
