use std::cell::RefCell;

use mastacraf::ffmpeg::{display_command, Ffmpeg, FfmpegError, FfmpegOutput};

#[test]
fn find_prefers_bundled_binary() {
    let f = Ffmpeg::find(Some("/opt/app".into()), "ffmpeg", &|p: &String| p == "/opt/app/ffmpeg", &|| Some("/usr/bin/ffmpeg".to_string()))
        .unwrap();
    assert_eq!(f.path, "/opt/app/ffmpeg");
}

#[test]
fn find_falls_back_to_path() {
    let f = Ffmpeg::find(Some("/opt/app".into()), "ffmpeg", &|_p: &String| false, &|| Some("/usr/bin/ffmpeg".to_string()))
        .unwrap();
    assert_eq!(f.path, "/usr/bin/ffmpeg");
    let f = Ffmpeg::find(None, "ffmpeg", &|_p: &String| true, &|| Some("/usr/local/bin/ffmpeg".to_string())).unwrap();
    assert_eq!(f.path, "/usr/local/bin/ffmpeg");
}

#[test]
fn find_reports_missing_binary() {
    match Ffmpeg::find(None, "ffmpeg", &|_p: &String| false, &|| None) {
        Err(FfmpegError::NotFound { message }) => {
            assert!(message.starts_with("ffmpeg not found.\n\nInstall it with your package manager:"));
            assert!(message.ends_with("Or place the ffmpeg binary next to the mastacraf executable."));
        }
        other => panic!("unexpected {:?}", other),
    }
}

#[test]
fn run_ok_passes_success_through() {
    let ff = Ffmpeg { path: "/usr/bin/ffmpeg".into() };
    let seen = RefCell::new(None);
    let spawn = |p: &String, a: &Vec<String>| {
        *seen.borrow_mut() = Some((p.clone(), a.clone()));
        Ok(FfmpegOutput { success: true, stdout: "out".into(), stderr: "log".into() })
    };
    let out = ff.run_ok(&spawn, &vec!["-version".to_string()]).unwrap();
    assert_eq!(out.stderr, "log");
    assert_eq!(*seen.borrow(), Some(("/usr/bin/ffmpeg".to_string(), vec!["-version".to_string()])));
}

#[test]
fn run_ok_fails_on_exit_status() {
    let ff = Ffmpeg { path: "ffmpeg".into() };
    let spawn = |_p: &String, _a: &Vec<String>| {
        Ok(FfmpegOutput { success: false, stdout: String::new(), stderr: "\n  bad input  \n".into() })
    };
    match ff.run_ok(&spawn, &vec![]) {
        Err(FfmpegError::Failed { message }) => assert_eq!(message, "ffmpeg exited with an error:\nbad input"),
        other => panic!("unexpected {:?}", other),
    }
}

#[test]
fn run_ok_reports_spawn_failure() {
    let ff = Ffmpeg { path: "/nowhere/ffmpeg".into() };
    let spawn = |_p: &String, _a: &Vec<String>| Err("No such file or directory".to_string());
    match ff.run_ok(&spawn, &vec![]) {
        Err(FfmpegError::Spawn { context, cause }) => {
            assert_eq!(context, "Failed to spawn ffmpeg at /nowhere/ffmpeg");
            assert_eq!(cause, "No such file or directory");
        }
        other => panic!("unexpected {:?}", other),
    }
}

#[test]
fn command_line_quotes_commas_and_spaces() {
    let args: Vec<String> = vec!["-i".into(), "my track.wav".into(), "-af".into(), "highpass=f=20.0,loudnorm".into(), "out.wav".into()];
    assert_eq!(
        display_command("ffmpeg", &args),
        "ffmpeg -i \"my track.wav\" -af \"highpass=f=20.0,loudnorm\" out.wav"
    );
    assert_eq!(display_command("ffmpeg", &vec![]), "ffmpeg");
}

#[test]
fn find_uses_the_platform_binary_name() {
    let f = Ffmpeg::find(Some("C:/app".into()), "ffmpeg.exe", &|p: &String| p == "C:/app/ffmpeg.exe", &|| None).unwrap();
    assert_eq!(f.path, "C:/app/ffmpeg.exe");
}
