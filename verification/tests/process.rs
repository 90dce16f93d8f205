use std::cell::RefCell;

use mastacraf::config::OutputConfig;
use mastacraf::pipeline::process::{
    build_filter_chain, codec_args, output_extension, run_process, CompressorText,
    FilterChainText, LimiterText, LoudnormText,
};

fn loudnorm() -> LoudnormText {
    LoudnormText {
        lufs: "-16.0".into(),
        true_peak: "-1.0".into(),
        lra: "11.0".into(),
        measured_i: "-18.43".into(),
        measured_lra: "14.20".into(),
        measured_tp: "-2.10".into(),
        measured_thresh: "-28.70".into(),
        offset: "0.00".into(),
    }
}

#[test]
fn default_preset_chain() {
    let chain = build_filter_chain(&FilterChainText {
        highpass_hz: Some("20.0".into()),
        lowpass_hz: None,
        compressor: None,
        limiter: Some(LimiterText { level: "0.891251".into(), attack_ms: "5.0".into(), release_ms: "50.0".into() }),
        loudnorm: loudnorm(),
    });
    assert_eq!(
        chain,
        "highpass=f=20.0,alimiter=level_in=1:level_out=0.891251:limit=0.891251:attack=5.0:release=50.0:asc=1,loudnorm=I=-16.0:TP=-1.0:LRA=11.0:measured_I=-18.43:measured_LRA=14.20:measured_TP=-2.10:measured_thresh=-28.70:offset=0.00:linear=true:print_format=summary"
    );
}

#[test]
fn chain_keeps_fixed_order_with_every_stage() {
    let chain = build_filter_chain(&FilterChainText {
        highpass_hz: Some("12.0".into()),
        lowpass_hz: Some("16000.0".into()),
        compressor: Some(CompressorText {
            threshold_db: "-18.00".into(),
            ratio: "2.00".into(),
            attack_ms: "20.0".into(),
            release_ms: "250.0".into(),
            makeup_db: "0.00".into(),
            knee_db: "2.00".into(),
        }),
        limiter: Some(LimiterText { level: "0.944061".into(), attack_ms: "1.0".into(), release_ms: "20.0".into() }),
        loudnorm: loudnorm(),
    });
    let stages: Vec<&str> = chain.split(',').collect();
    assert_eq!(stages.len(), 5);
    assert_eq!(stages[0], "highpass=f=12.0");
    assert_eq!(stages[1], "lowpass=f=16000.0");
    assert_eq!(
        stages[2],
        "acompressor=threshold=-18.00dB:ratio=2.00:attack=20.0:release=250.0:makeup=0.00:knee=2.00"
    );
    assert!(stages[3].starts_with("alimiter=level_in=1:level_out=0.944061:limit=0.944061"));
    assert!(stages[4].starts_with("loudnorm=I=-16.0"));
}

#[test]
fn chain_with_only_loudnorm() {
    let chain = build_filter_chain(&FilterChainText {
        highpass_hz: None,
        lowpass_hz: None,
        compressor: None,
        limiter: None,
        loudnorm: loudnorm(),
    });
    assert!(chain.starts_with("loudnorm=I=-16.0:TP=-1.0:LRA=11.0"));
    assert!(!chain.contains(",highpass"));
}

fn out(format: &str, bits: u32) -> OutputConfig {
    OutputConfig { format: format.into(), bit_depth: bits, sample_rate: 48000 }
}

#[test]
fn codecs_for_formats() {
    assert_eq!(codec_args(&out("flac", 24)), ("flac".to_string(), vec!["-compression_level".to_string(), "8".to_string()]));
    assert_eq!(codec_args(&out("mp3", 24)), ("libmp3lame".to_string(), vec!["-q:a".to_string(), "0".to_string()]));
    assert_eq!(codec_args(&out("aac", 24)), ("aac".to_string(), vec!["-b:a".to_string(), "320k".to_string()]));
    assert_eq!(codec_args(&out("wav", 16)), ("pcm_s16le".to_string(), vec![]));
    assert_eq!(codec_args(&out("wav", 32)), ("pcm_f32le".to_string(), vec![]));
    assert_eq!(codec_args(&out("wav", 20)), ("pcm_s24le".to_string(), vec![]));
    assert_eq!(codec_args(&out("ogg", 16)), ("pcm_s16le".to_string(), vec![]));
}

#[test]
fn extensions_for_formats() {
    assert_eq!(output_extension("flac"), "flac");
    assert_eq!(output_extension("mp3"), "mp3");
    assert_eq!(output_extension("aac"), "m4a");
    assert_eq!(output_extension("wav"), "wav");
    assert_eq!(output_extension("aiff"), "wav");
}

#[test]
fn process_runs_ffmpeg_with_the_reported_chain() {
    let seen = RefCell::new(vec![]);
    let run = |a: &Vec<String>| -> Result<(), String> {
        seen.borrow_mut().push(a.clone());
        Ok(())
    };
    let r = run_process(&run, "in.wav", "out/in_master.flac", "highpass=f=20.0,loudnorm=I=-16.0".to_string(), &out("flac", 24)).unwrap();
    assert_eq!(r.filter_chain, "highpass=f=20.0,loudnorm=I=-16.0");
    let calls = seen.borrow();
    assert_eq!(calls.len(), 1);
    let expected: Vec<String> = [
        "-hide_banner", "-y", "-i", "in.wav", "-af", "highpass=f=20.0,loudnorm=I=-16.0", "-acodec", "flac",
        "-ar", "48000", "-compression_level", "8", "out/in_master.flac",
    ]
    .iter()
    .map(|s| s.to_string())
    .collect();
    assert_eq!(calls[0], expected);
}

#[test]
fn process_failure_is_returned() {
    let run = |_a: &Vec<String>| -> Result<(), String> { Err("boom".into()) };
    let r = run_process(&run, "in.wav", "o.wav", "loudnorm".to_string(), &OutputConfig::default());
    assert_eq!(r.unwrap_err(), "boom");
}

#[test]
fn wav_at_32_bits_is_float() {
    assert_eq!(codec_args(&out("wav", 32)).0, "pcm_f32le");
}
