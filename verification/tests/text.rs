use std::path::Path;
use mastacraf::paths::{join_path, path_extension, path_stem};
use mastacraf::text::{
    chars_of, decimal_of, lines_of, parse_number, replace_in, split_on, string_of, trimmed,
    ws_split,
};

fn strings(v: Vec<Vec<char>>) -> Vec<String> {
    v.iter().map(|c| string_of(c)).collect()
}

#[test]
fn lines_like_std() {
    for s in ["", "a", "a\n", "a\r\nb", "a\n\nb\r", "\n", "x\r\n"] {
        let ours = strings(lines_of(&chars_of(s)));
        let std: Vec<String> = s.lines().map(|l| l.to_string()).collect();
        assert_eq!(ours, std, "{:?}", s);
    }
}

#[test]
fn split_and_whitespace_like_std() {
    for s in ["", "a,b", ",a,,b,", "  x \t y\u{3000}z  "] {
        let ours = strings(split_on(&chars_of(s), ','));
        let std: Vec<String> = s.split(',').map(|p| p.to_string()).collect();
        assert_eq!(ours, std);
        let ours = strings(ws_split(&chars_of(s)));
        let std: Vec<String> = s.split_whitespace().map(|p| p.to_string()).collect();
        assert_eq!(ours, std);
        assert_eq!(string_of(&trimmed(&chars_of(s))), s.trim());
    }
}

#[test]
fn numbers_like_std() {
    for s in ["0", "+7", "44100", "4294967295", "4294967296", "-1", "", "+", "1a", " 1"] {
        assert_eq!(parse_number(&chars_of(s)), s.parse::<u32>().ok(), "{:?}", s);
    }
    for n in [0u32, 9, 10, 44100, u32::MAX] {
        assert_eq!(string_of(&decimal_of(n)), n.to_string());
    }
}

#[test]
fn replace_like_std() {
    for (s, p, r) in [("44100 Hz", " Hz", ""), ("aaa", "aa", "b"), ("x", "y", "z")] {
        let ours = string_of(&replace_in(&chars_of(s), &chars_of(p), &chars_of(r)));
        assert_eq!(ours, s.replace(p, r));
    }
}

#[test]
fn paths_like_std() {
    for (b, p) in [("presets", "default.toml"), ("", "x"), ("a/", "b"), ("/etc", "/abs")] {
        assert_eq!(join_path(b, p), Path::new(b).join(p).to_string_lossy());
    }
    for p in ["track.wav", "dir/track.master.flac", ".hidden", "a/b/", "noext", "a/..", "/", "x."] {
        let path = Path::new(p);
        assert_eq!(
            path_stem(p),
            path.file_stem().map(|s| s.to_string_lossy().into_owned()),
            "{}", p
        );
        assert_eq!(
            path_extension(p),
            path.extension().map(|s| s.to_string_lossy().into_owned()),
            "{}", p
        );
    }
}
