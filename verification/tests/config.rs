use std::cell::RefCell;

use mastacraf::config::{
    d_bits, d_comp_on, d_fmt, d_lim_on, d_sr, d_viz_on, d_viz_sh, d_viz_spec, d_viz_w,
    d_viz_wave, d_viz_wh, default_meta, list_presets, locate_preset, preset_file_name,
    preset_search_dirs, preset_table, OutputConfig, PresetLocation, VisualizationConfig,
};

#[test]
fn defaults_of_optional_fields() {
    assert!(!d_comp_on());
    assert!(d_lim_on());
    assert_eq!(d_fmt(), "wav");
    assert_eq!(d_bits(), 24);
    assert_eq!(d_sr(), 44100);
    assert!(d_viz_on() && d_viz_spec() && d_viz_wave());
    assert_eq!((d_viz_w(), d_viz_sh(), d_viz_wh()), (1920, 512, 200));
    let o = OutputConfig::default();
    assert_eq!((o.format.as_str(), o.bit_depth, o.sample_rate), ("wav", 24, 44100));
    let v = VisualizationConfig::default();
    assert!(v.enabled && v.spectrogram && v.waveform);
    assert_eq!((v.width, v.spectrogram_height, v.waveform_height), (1920, 512, 200));
    let m = default_meta();
    assert_eq!(m.name, "default");
    assert_eq!(m.description, "General purpose — experimental electronic / abstract");
    assert!(m.author.is_empty() && m.notes.is_empty());
}

#[test]
fn search_dirs_in_order() {
    assert_eq!(preset_search_dirs(None, None), vec!["presets".to_string()]);
    assert_eq!(
        preset_search_dirs(Some("/opt/bin".into()), Some("/home/u/.config".into())),
        vec![
            "presets".to_string(),
            "/opt/bin/presets".to_string(),
            "/home/u/.config/mastercraft/presets".to_string()
        ]
    );
    assert_eq!(
        preset_search_dirs(None, Some("/cfg/".into())),
        vec!["presets".to_string(), "/cfg/mastercraft/presets".to_string()]
    );
}

#[test]
fn preset_file_names() {
    assert_eq!(preset_file_name("noise"), "noise.toml");
}

#[test]
fn locate_first_directory_holding_the_file() {
    let dirs = vec!["presets".to_string(), "/opt/presets".to_string(), "/cfg/presets".to_string()];
    let asked = RefCell::new(vec![]);
    let is_file = |p: &String| {
        asked.borrow_mut().push(p.clone());
        p == "/opt/presets/film.toml" || p == "/cfg/presets/film.toml"
    };
    match locate_preset("film", &dirs, &is_file) {
        Ok(PresetLocation::File(p)) => assert_eq!(p, "/opt/presets/film.toml"),
        other => panic!("unexpected {:?}", other),
    }
    assert_eq!(*asked.borrow(), vec!["presets/film.toml".to_string(), "/opt/presets/film.toml".to_string()]);
}

#[test]
fn locate_builtin_default() {
    let dirs = vec!["presets".to_string()];
    match locate_preset("default", &dirs, &|_p: &String| false) {
        Ok(PresetLocation::BuiltIn) => {}
        other => panic!("unexpected {:?}", other),
    }
    // A default.toml on disk takes precedence over the built-in preset.
    match locate_preset("default", &dirs, &|_p: &String| true) {
        Ok(PresetLocation::File(p)) => assert_eq!(p, "presets/default.toml"),
        other => panic!("unexpected {:?}", other),
    }
}

#[test]
fn locate_missing_preset_names_the_directories() {
    let dirs = vec!["presets".to_string(), "/opt/presets".to_string()];
    let err = locate_preset("nope", &dirs, &|_p: &String| false).unwrap_err();
    assert_eq!(
        err.message,
        "Preset 'nope' not found.\nSearched: presets, /opt/presets\nRun `mastacraf presets` to list available presets."
    );
}

#[test]
fn listing_sorted_first_wins_toml_only() {
    let listing = vec![
        (
            "presets".to_string(),
            vec!["noise.toml".into(), "film.toml".into(), "notes.txt".into(), ".toml".into(), "b.x.toml".into()],
        ),
        ("/cfg/presets".to_string(), vec!["film.toml".into(), "ambient.toml".into()]),
    ];
    assert_eq!(
        list_presets(&listing),
        vec![
            ("ambient".to_string(), "/cfg/presets/ambient.toml".to_string()),
            ("b.x".to_string(), "presets/b.x.toml".to_string()),
            ("film".to_string(), "presets/film.toml".to_string()),
            ("noise".to_string(), "presets/noise.toml".to_string()),
        ]
    );
    assert!(list_presets(&vec![]).is_empty());
}

#[test]
fn preset_table_adds_missing_sections() {
    let text = "[meta]\nname = \"x\"\ndescription = \"d\"\n\n[target]\nlufs = -14.0\ntrue_peak = -1.0\nlra = 9.0\n\n[limiter]\nattack_ms = 2.0\n";
    let t = preset_table(text).unwrap();
    let mut keys: Vec<&String> = t.keys().collect();
    keys.sort();
    assert_eq!(
        keys,
        vec!["compressor", "filters", "limiter", "meta", "output", "target", "visualization"]
    );
    assert!(t["filters"].as_table().unwrap().is_empty());
    assert_eq!(t["limiter"]["attack_ms"].as_float(), Some(2.0));
}

#[test]
fn preset_table_rejects_bad_toml() {
    let err = preset_table("[meta\nname = ").unwrap_err();
    assert!(!err.detail.is_empty());
}

#[test]
fn listed_preset_is_found_by_its_name() {
    let listing = vec![
        ("presets".to_string(), vec!["drone.toml".to_string()]),
        ("/cfg/presets".to_string(), vec!["drone.toml".to_string(), "film.toml".to_string()]),
    ];
    let on_disk = ["presets/drone.toml", "/cfg/presets/drone.toml", "/cfg/presets/film.toml"];
    let dirs: Vec<String> = listing.iter().map(|(d, _)| d.clone()).collect();
    let is_file = |p: &String| on_disk.contains(&p.as_str());
    for (name, path) in list_presets(&listing) {
        match locate_preset(&name, &dirs, &is_file) {
            Ok(PresetLocation::File(found)) => assert_eq!(found, path),
            other => panic!("unexpected {:?}", other),
        }
    }
}

#[test]
fn config_directory_is_named_mastercraft() {
    let dirs = preset_search_dirs(None, Some("/home/u/.config".to_string()));
    assert_eq!(dirs[1], "/home/u/.config/mastercraft/presets");
}

#[test]
fn every_preset_file_is_listed_at_first_directory() {
    let listing = vec![
        ("presets".to_string(), vec!["notes.txt".to_string()]),
        ("/exe/presets".to_string(), vec!["noise.toml".to_string()]),
        ("/cfg/presets".to_string(), vec!["noise.toml".to_string(), "film.toml".to_string()]),
    ];
    let listed = list_presets(&listing);
    assert!(listed.contains(&("noise".to_string(), "/exe/presets/noise.toml".to_string())));
    assert!(listed.contains(&("film".to_string(), "/cfg/presets/film.toml".to_string())));
    assert_eq!(listed.len(), 2);
}
