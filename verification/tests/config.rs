use sandbox_wm::config::{
    is_conf_file_name, join_conf_texts, name_le, pick_config_dir, sort_conf_names, ConfigDirSource,
    PlannedControlsConfig, RenderingConfig, SessionConfig,
};

#[test]
fn config_dir_preference() {
    assert_eq!(pick_config_dir(Some(true), Some(true), Some(true), true), Some(ConfigDirSource::Env));
    assert_eq!(
        pick_config_dir(Some(false), Some(true), Some(true), true),
        Some(ConfigDirSource::XdgConfigHome)
    );
    assert_eq!(pick_config_dir(None, None, Some(true), true), Some(ConfigDirSource::Home));
    assert_eq!(pick_config_dir(None, Some(false), Some(false), true), Some(ConfigDirSource::Local));
    assert_eq!(pick_config_dir(None, None, None, false), None);
}

#[test]
fn conf_file_names() {
    assert!(is_conf_file_name("sandboxWM.conf"));
    assert!(is_conf_file_name("a.b.conf"));
    assert!(is_conf_file_name(".x.conf"));
    assert!(!is_conf_file_name(".conf"));
    assert!(!is_conf_file_name("conf"));
    assert!(!is_conf_file_name("a.conf.bak"));
    assert!(!is_conf_file_name("a.Conf"));
    assert!(!is_conf_file_name("a.confx"));
    assert!(!is_conf_file_name(""));
}

#[test]
fn conf_texts_joined_with_newlines() {
    let texts = vec!["[physics]\ngravity_y = 1.0".to_string(), "[controls]".to_string()];
    assert_eq!(join_conf_texts(&texts), "[physics]\ngravity_y = 1.0\n[controls]\n");
    assert_eq!(join_conf_texts(&vec![]), "");
    assert_eq!(join_conf_texts(&vec![String::new()]), "\n");
}

#[test]
fn planned_defaults() {
    let p = PlannedControlsConfig::default();
    assert_eq!(p.gravity_freeze, "2");
    assert_eq!(p.gravity_float_window, "3");
    assert_eq!(p.gravity_zero, "4");
    assert_eq!(p.draw_line, "p");
    assert_eq!(p.slice_window, "x");
    assert_eq!(p.weld_windows, "e");
    assert_eq!(p.spring_windows, "s");
    assert_eq!(p.rope_windows, "r");
}

#[test]
fn session_and_rendering_defaults() {
    let s = SessionConfig::default();
    assert!(!s.enabled);
    assert!(!s.autosave);
    assert_eq!(s.autosave_interval_secs, 60);
    assert_eq!(s.save_path, "");
    assert_eq!(s.format, "toml");
    let r = RenderingConfig::default();
    assert_eq!(r.backend, "gles");
    assert!(r.vsync);
}

#[test]
fn conf_names_sort_bytewise() {
    let names = vec![
        b"b.conf".to_vec(),
        b"a.conf".to_vec(),
        b"B.conf".to_vec(),
        b"a.conf.conf".to_vec(),
        b"10-x.conf".to_vec(),
        b"9-x.conf".to_vec(),
    ];
    let sorted = sort_conf_names(names);
    let expected: Vec<Vec<u8>> = vec![
        b"10-x.conf".to_vec(),
        b"9-x.conf".to_vec(),
        b"B.conf".to_vec(),
        b"a.conf".to_vec(),
        b"a.conf.conf".to_vec(),
        b"b.conf".to_vec(),
    ];
    assert_eq!(sorted, expected);
    assert!(name_le(&b"ab".to_vec(), &b"abc".to_vec()));
    assert!(!name_le(&b"abc".to_vec(), &b"ab".to_vec()));
    assert!(sort_conf_names(Vec::new()).is_empty());
}
