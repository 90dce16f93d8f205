use mastacraf::pipeline::analyze::{
    astats_candidates, clock_display, duration_fields, loudnorm_json_text, parse_bit_depth,
    parse_channels, parse_codec, parse_sample_rate, phase_candidates, volume_candidates,
    LoudnormTextError,
};

const PROBE: &str = "Input #0, wav, from 'track.wav':\n  Duration: 00:07:43.20, bitrate: 1411 kb/s\n  Stream #0:0: Audio: pcm_s16le ([1][0][0][0] / 0x0001), 44100 Hz, stereo, s16, 1411 kb/s\nOutput #0, null, to '/dev/null':\n";

#[test]
fn sample_rate_from_stream_line() {
    assert_eq!(parse_sample_rate(PROBE), Some(44100));
}

#[test]
fn sample_rate_absent_without_audio_line() {
    assert_eq!(parse_sample_rate("Duration: 00:00:01.00\n48000 Hz\n"), None);
}

#[test]
fn sample_rate_first_audio_line_with_rate() {
    let text = "Stream #0:0: Audio: pcm_s24le\r\nStream #0:1: Audio: flac, 48000 Hz, mono\n";
    assert_eq!(parse_sample_rate(text), Some(48000));
}

#[test]
fn channels_from_layout_names() {
    assert_eq!(parse_channels(PROBE), Some(2));
    assert_eq!(parse_channels("Audio: flac, 48000 Hz, mono, s32"), Some(1));
    assert_eq!(parse_channels("Audio: aac, 48000 Hz, 5.1(side), fltp"), Some(6));
    assert_eq!(parse_channels("Audio: aac, 48000 Hz, 7.1, fltp"), Some(8));
    assert_eq!(parse_channels("Audio: pcm_s16le, 44100 Hz, quad, s16"), Some(4));
    assert_eq!(parse_channels("Audio: pcm_s16le, 44100 Hz, 3 channels, s16"), None);
}

#[test]
fn bit_depth_from_sample_format() {
    assert_eq!(parse_bit_depth(PROBE), Some(16));
    assert_eq!(parse_bit_depth("Stream #0:0: Audio: pcm_s24le, 48000 Hz, stereo"), Some(24));
    assert_eq!(parse_bit_depth("Stream #0:0: Audio: pcm_u8, 8000 Hz, mono"), Some(8));
    assert_eq!(parse_bit_depth("Stream #0:0: Audio: mp3, 44100 Hz, stereo, fltp, 320 kb/s"), None);
}

#[test]
fn codec_after_audio_marker() {
    assert_eq!(parse_codec(PROBE).as_deref(), Some("pcm_s16le"));
    assert_eq!(parse_codec("Audio: flac, 48000 Hz").as_deref(), Some("flac"));
    assert_eq!(parse_codec("Audio: , 48000 Hz\nAudio: mp3, 44100 Hz").as_deref(), Some("mp3"));
    assert_eq!(parse_codec("no stream here"), None);
}

#[test]
fn duration_fields_of_first_full_time() {
    assert_eq!(
        duration_fields(PROBE),
        Some(("00".to_string(), "07".to_string(), "43.20".to_string()))
    );
    assert_eq!(duration_fields("Duration: N/A, bitrate: N/A\n"), None);
    assert_eq!(
        duration_fields("Duration: 01:02\nDuration: 1:2:3:4, x"),
        Some(("1".to_string(), "2".to_string(), "3:4".to_string()))
    );
}

#[test]
fn astats_candidates_in_order() {
    let text = "[Parsed_astats_0] RMS level dB: -18.3\nlavfi.astats.Overall.RMS_level=-17.9\nPeak level dB: -1.0\n";
    assert_eq!(
        astats_candidates(text, "RMS level"),
        vec!["-18.3".to_string()]
    );
    assert_eq!(
        astats_candidates(text, "RMS_level"),
        vec!["lavfi.astats.Overall.RMS_level=-17.9".to_string(), "-17.9".to_string()]
    );
    assert!(astats_candidates(text, "DC offset").is_empty());
}

#[test]
fn phase_candidates_per_frame() {
    let text = "frame:0 pts:0\nlavfi.aphasemeter.phase=0.912\nlavfi.aphasemeter.phase= 0.5 \nother\n";
    assert_eq!(phase_candidates(text), vec!["0.912".to_string(), "0.5".to_string()]);
}

#[test]
fn volume_candidates_tokens() {
    let text = "[Parsed_volumedetect_1] n_samples: 10\n[Parsed_volumedetect_1] mean_volume: -18.3 dB\n";
    assert_eq!(
        volume_candidates(text),
        vec![
            "[Parsed_volumedetect_1]".to_string(),
            "mean_volume:".to_string(),
            "-18.3".to_string(),
            "dB".to_string()
        ]
    );
}

#[test]
fn loudnorm_json_block() {
    let text = "size=N/A\n[Parsed_loudnorm_0 @ 0x1]\n{\n\t\"input_i\" : \"-18.43\"\n}\n";
    assert_eq!(loudnorm_json_text(text).unwrap(), "{\n\t\"input_i\" : \"-18.43\"\n}");
}

#[test]
fn loudnorm_json_errors() {
    assert_eq!(loudnorm_json_text("nothing"), Err(LoudnormTextError::NoJson));
    assert_eq!(loudnorm_json_text("{ open"), Err(LoudnormTextError::NoClosingBrace));
    assert_eq!(loudnorm_json_text("} then {"), Err(LoudnormTextError::Malformed));
    assert_eq!(LoudnormTextError::NoJson.message(), "No JSON found in loudnorm output");
    assert_eq!(LoudnormTextError::NoClosingBrace.message(), "No closing brace in loudnorm output");
    assert_eq!(LoudnormTextError::Malformed.message(), "Malformed JSON in loudnorm output");
}

#[test]
fn clock_display_pads_fields() {
    assert_eq!(clock_display(0), "00:00:00");
    assert_eq!(clock_display(463), "00:07:43");
    assert_eq!(clock_display(3725), "01:02:05");
    assert_eq!(clock_display(360000), "100:00:00");
}

#[test]
fn clock_display_reads_back() {
    for total in [0u32, 59, 60, 3599, 3600, 86399, 4294967295] {
        let shown = clock_display(total);
        let f: Vec<u32> = shown.split(':').map(|p| p.parse().unwrap()).collect();
        assert_eq!(f.len(), 3);
        assert!(f[1] < 60 && f[2] < 60);
        assert_eq!(f[0] as u64 * 3600 + f[1] as u64 * 60 + f[2] as u64, total as u64);
    }
}

use mastacraf::ffmpeg::FfmpegOutput;
use mastacraf::pipeline::analyze::{measure_args, pass_output, probe_fields, probe_file};

fn output(ok: bool, stderr: &str) -> FfmpegOutput {
    FfmpegOutput { success: ok, stdout: String::new(), stderr: stderr.to_string() }
}

#[test]
fn measurement_pass_arguments() {
    assert_eq!(
        measure_args("t.wav", Some("astats=metadata=1:reset=0"), "/dev/null"),
        vec!["-hide_banner", "-i", "t.wav", "-af", "astats=metadata=1:reset=0", "-f", "null", "/dev/null"]
    );
    assert_eq!(
        measure_args("t.wav", None, "NUL"),
        vec!["-hide_banner", "-i", "t.wav", "-f", "null", "NUL"]
    );
}

#[test]
fn pass_output_falls_back_to_plain_run() {
    let args = measure_args("t.wav", None, "/dev/null");
    let ok = |_a: &Vec<String>| -> Result<FfmpegOutput, String> { Ok(output(true, "checked")) };
    let failing = |_a: &Vec<String>| -> Result<FfmpegOutput, String> { Err("exit 1".into()) };
    let plain = |_a: &Vec<String>| -> Result<FfmpegOutput, String> { Ok(output(false, "plain")) };
    assert_eq!(pass_output(&ok, &plain, &args).unwrap(), "checked");
    assert_eq!(pass_output(&failing, &plain, &args).unwrap(), "plain");
    assert_eq!(pass_output(&failing, &failing, &args).unwrap_err(), "exit 1");
}

#[test]
fn probe_defaults_where_unstated() {
    let p = probe_fields("nothing useful");
    assert_eq!((p.sample_rate, p.channels, p.bit_depth, p.codec.as_str()), (44100, 2, None, "unknown"));
    assert!(p.duration.is_none());
    let p = probe_fields(PROBE);
    assert_eq!((p.sample_rate, p.channels, p.bit_depth), (44100, 2, Some(16)));
    assert_eq!(p.duration, Some(("00".to_string(), "07".to_string(), "43.20".to_string())));
}

#[test]
fn probe_file_runs_a_null_pass() {
    let seen = std::cell::RefCell::new(vec![]);
    let checked = |a: &Vec<String>| -> Result<FfmpegOutput, String> {
        seen.borrow_mut().push(a.clone());
        Err("exit 1".into())
    };
    let plain = |_a: &Vec<String>| -> Result<FfmpegOutput, String> {
        Ok(output(false, "Stream #0:0: Audio: flac, 96000 Hz, mono, s32"))
    };
    let p = probe_file(&checked, &plain, "x.flac", "/dev/null").unwrap();
    assert_eq!((p.sample_rate, p.channels, p.codec.as_str()), (96000, 1, "flac"));
    assert_eq!(seen.borrow()[0], vec!["-hide_banner", "-i", "x.flac", "-f", "null", "/dev/null"]);
}

#[test]
fn codec_name_ends_at_first_whitespace() {
    let line = "  Stream #0:0: Audio: pcm_s24le ([1][0][0][0] / 0x0001), 44100 Hz, stereo, s32 (24 bit), 2116 kb/s";
    assert_eq!(parse_codec(line).as_deref(), Some("pcm_s24le"));
}
