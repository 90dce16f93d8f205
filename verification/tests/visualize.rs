use std::cell::RefCell;

use mastacraf::config::VisualizationConfig;
use mastacraf::pipeline::visualize::{
    generate, generate_comparisons, generate_diff, generate_stacked, pair_op, ComparisonPaths,
    VisualPaths,
};
use mastacraf::pipeline::{generated_comparisons, master_paths};

fn sv(v: &[&str]) -> Vec<String> {
    v.iter().map(|s| s.to_string()).collect()
}

#[test]
fn generate_draws_both_pictures() {
    let calls = RefCell::new(vec![]);
    let dirs = RefCell::new(vec![]);
    let run = |a: &Vec<String>| -> Result<(), String> {
        calls.borrow_mut().push(a.clone());
        Ok(())
    };
    let make_dir = |d: &String| -> Result<(), String> {
        dirs.borrow_mut().push(d.clone());
        Ok(())
    };
    let cfg = VisualizationConfig::default();
    let v = generate(&run, &make_dir, "music/track.wav", "mastered/track", &cfg, "pre").unwrap();
    assert_eq!(v.spectrogram.as_deref(), Some("mastered/track/track_pre_spectrogram.png"));
    assert_eq!(v.waveform.as_deref(), Some("mastered/track/track_pre_waveform.png"));
    assert_eq!(*dirs.borrow(), sv(&["mastered/track"]));
    let c = calls.borrow();
    assert_eq!(
        c[0],
        sv(&[
            "-hide_banner", "-i", "music/track.wav", "-lavfi",
            "showspectrumpic=s=1920x512:mode=combined:color=intensity:scale=log:legend=1",
            "mastered/track/track_pre_spectrogram.png",
        ])
    );
    assert_eq!(
        c[1],
        sv(&[
            "-hide_banner", "-i", "music/track.wav", "-lavfi",
            "showwavespic=s=1920x200:split_channels=1:colors=0x4EA8DE|0xFF8C42",
            "mastered/track/track_pre_waveform.png",
        ])
    );
}

#[test]
fn generate_disabled_does_nothing() {
    let run = |_a: &Vec<String>| -> Result<(), String> { panic!("no run expected") };
    let make_dir = |_d: &String| -> Result<(), String> { panic!("no directory expected") };
    let mut cfg = VisualizationConfig::default();
    cfg.enabled = false;
    let v = generate(&run, &make_dir, "a.wav", ".", &cfg, "viz").unwrap();
    assert!(v.spectrogram.is_none() && v.waveform.is_none());
}

#[test]
fn generate_waveform_only_and_stem_fallback() {
    let calls = RefCell::new(0);
    let run = |_a: &Vec<String>| -> Result<(), String> {
        *calls.borrow_mut() += 1;
        Ok(())
    };
    let make_dir = |_d: &String| -> Result<(), String> { Ok(()) };
    let mut cfg = VisualizationConfig::default();
    cfg.spectrogram = false;
    let v = generate(&run, &make_dir, "", "out", &cfg, "viz").unwrap();
    assert!(v.spectrogram.is_none());
    assert_eq!(v.waveform.as_deref(), Some("out/audio_viz_waveform.png"));
    assert_eq!(*calls.borrow(), 1);
}

#[test]
fn generate_stops_at_first_failure() {
    let calls = RefCell::new(0);
    let run = |_a: &Vec<String>| -> Result<(), String> {
        *calls.borrow_mut() += 1;
        Err("no lavfi".into())
    };
    let make_dir = |_d: &String| -> Result<(), String> { Ok(()) };
    let r = generate(&run, &make_dir, "t.wav", "o", &VisualizationConfig::default(), "post");
    assert_eq!(r.unwrap_err(), "no lavfi");
    assert_eq!(*calls.borrow(), 1);
    let failing_dir = |_d: &String| -> Result<(), String> { Err("read-only".into()) };
    let r = generate(&run, &failing_dir, "t.wav", "o", &VisualizationConfig::default(), "post");
    assert_eq!(r.unwrap_err(), "read-only");
    assert_eq!(*calls.borrow(), 1);
}

#[test]
fn stacked_and_diff_arguments() {
    let seen = RefCell::new(vec![]);
    let run = |a: &Vec<String>| -> Result<(), String> {
        seen.borrow_mut().push(a.clone());
        Ok(())
    };
    generate_stacked(&run, &"a.png".to_string(), &"b.png".to_string(), &"c.png".to_string()).unwrap();
    generate_diff(&run, &"a.png".to_string(), &"b.png".to_string(), &"d.png".to_string()).unwrap();
    let s = seen.borrow();
    assert_eq!(
        s[0],
        sv(&[
            "-hide_banner", "-i", "a.png", "-i", "b.png", "-filter_complex",
            "[0:v]pad=iw:ih+3:0:0:color=0xe8913a[top];[top][1:v]vstack=inputs=2[out]",
            "-map", "[out]", "-y", "c.png",
        ])
    );
    assert_eq!(
        s[1][6],
        "[0:v][1:v]blend=all_mode=difference[diff];[diff]curves=all='0/0 0.12/1 1/1',hue=s=6[out]"
    );
    assert_eq!(s[1][10], "d.png");
}

#[test]
fn pair_op_needs_both_and_success() {
    let a = Some("a".to_string());
    let n: Option<String> = None;
    assert_eq!(pair_op(&a, &a, |x: &String, y: &String| -> Result<String, ()> { Ok(format!("{x}{y}")) }), Some("aa".to_string()));
    assert_eq!(pair_op(&a, &n, |_x: &String, _y: &String| -> Result<String, ()> { Ok("x".into()) }), None);
    assert_eq!(pair_op(&a, &a, |_x: &String, _y: &String| -> Result<String, ()> { Err(()) }), None);
}

#[test]
fn comparisons_where_both_pictures_exist() {
    let run = |a: &Vec<String>| -> Result<(), String> {
        // The waveform diff fails; the others succeed.
        if a.last().map(|s| s.ends_with("diff_waveform.png")).unwrap_or(false) {
            Err("fail".into())
        } else {
            Ok(())
        }
    };
    let pre = VisualPaths { spectrogram: Some("o/t_pre_spectrogram.png".into()), waveform: Some("o/t_pre_waveform.png".into()) };
    let post = VisualPaths { spectrogram: Some("o/t_post_spectrogram.png".into()), waveform: Some("o/t_post_waveform.png".into()) };
    let c = generate_comparisons(&run, &pre, &post, "o", "t");
    assert_eq!(c.stacked_spectrogram.as_deref(), Some("o/t_compare_spectrogram.png"));
    assert_eq!(c.stacked_waveform.as_deref(), Some("o/t_compare_waveform.png"));
    assert_eq!(c.diff_spectrogram.as_deref(), Some("o/t_diff_spectrogram.png"));
    assert_eq!(c.diff_waveform, None);
    assert_eq!(generated_comparisons(&c), sv(&["compare_spectrogram.png", "compare_waveform.png", "diff_spectrogram.png"]));

    let post_no_wave = VisualPaths { spectrogram: post.spectrogram.clone(), waveform: None };
    let c = generate_comparisons(&|_a: &Vec<String>| -> Result<(), String> { Ok(()) }, &pre, &post_no_wave, "o", "t");
    assert!(c.stacked_waveform.is_none() && c.diff_waveform.is_none());
    assert!(c.stacked_spectrogram.is_some() && c.diff_spectrogram.is_some());
}

#[test]
fn no_comparisons_announced_when_none_made() {
    let c = ComparisonPaths { stacked_spectrogram: None, stacked_waveform: None, diff_spectrogram: None, diff_waveform: None };
    assert!(generated_comparisons(&c).is_empty());
}

#[test]
fn master_layout_under_stem_folder() {
    let p = master_paths("music/track01.wav", None, "_master", "wav");
    assert_eq!(p.stem, "track01");
    assert_eq!(p.out_dir, "mastered/track01");
    assert_eq!(p.out_path, "mastered/track01/track01_master.wav");
    assert_eq!(p.report_path, "mastered/track01/track01_master_report.json");
    let q = master_paths("music/track01.wav", Some("./album_masters/".into()), "_v2", "aac");
    assert_eq!(q.out_dir, "./album_masters/track01");
    assert_eq!(q.out_path, "./album_masters/track01/track01_v2.m4a");
    assert_eq!(q.report_path, "./album_masters/track01/track01_v2_report.json");
    let r = master_paths("", None, "_master", "flac");
    assert_eq!(r.stem, "output");
    assert_eq!(r.out_path, "mastered/output/output_master.flac");
}
