use tamp_lib::settings::{
    default_settings, validate, validate_split, Preset, Settings, SplitConfig, SplitMode,
    StaticSplitBy,
};

fn stored_settings() -> Settings {
    default_settings(vec!["/Users/me/Desktop".to_string()])
}

fn settings_with_split(split: SplitConfig) -> Settings {
    let mut settings = stored_settings();
    settings.presets[0].split = split;
    settings
}

fn valid_settings() -> Settings {
    let mut settings = stored_settings();
    settings.locale = "en".to_string();
    settings
}

#[test]
fn split_defaults_match_contract() {
    let split = SplitConfig::default();
    assert_eq!(split.mode, SplitMode::Off);
    assert_eq!(split.by, StaticSplitBy::Parts);
    assert_eq!(split.parts, 2);
    assert_eq!(split.seconds, 30);
}

#[test]
fn fresh_profile_defaults() {
    let s = stored_settings();
    assert_eq!(s.watched_folders, vec!["/Users/me/Desktop".to_string()]);
    assert!(s.copy_to_clipboard && !s.trash_original && s.use_hardware_encoder);
    assert_eq!(s.presets.len(), 1);
    assert_eq!(s.presets[0].id, "discord-10mb");
    assert_eq!(s.presets[0].name, "Discord (10MB)");
    assert_eq!(f64::from_bits(s.presets[0].target_mb_bits), 10.0);
    assert_eq!(s.default_preset_id, "discord-10mb");
    assert_eq!(s.shortcut_compress_latest.as_deref(), Some("CmdOrCtrl+Alt+T"));
    assert_eq!(s.shortcut_toggle_panel.as_deref(), Some("CmdOrCtrl+Alt+O"));
    assert_eq!(s.stale_warn_minutes, 10);
    assert_eq!(s.recents_limit, 50);
    assert!(!s.onboarding_seen);
    assert_eq!(s.locale, "system");
    assert!(validate(&s).is_ok(), "a fresh profile must validate");
}

#[test]
fn validate_accepts_off_and_smart_regardless_of_numbers() {
    for mode in [SplitMode::Off, SplitMode::Smart] {
        let split = SplitConfig {
            mode,
            by: StaticSplitBy::Parts,
            parts: 0,
            seconds: 0,
        };
        assert!(validate(&settings_with_split(split)).is_ok(), "{mode:?}");
    }
}

#[test]
fn validate_bounds_static_parts() {
    let by_parts = |parts| SplitConfig {
        mode: SplitMode::Static,
        by: StaticSplitBy::Parts,
        parts,
        seconds: 30,
    };
    for parts in [2, 7, 20] {
        assert!(validate(&settings_with_split(by_parts(parts))).is_ok());
    }
    for parts in [0, 1, 21] {
        let err = validate(&settings_with_split(by_parts(parts))).unwrap_err();
        assert!(err.contains("between 2 and 20"), "{err}");
    }
}

#[test]
fn validate_bounds_static_seconds() {
    let by_seconds = |seconds| SplitConfig {
        mode: SplitMode::Static,
        by: StaticSplitBy::Seconds,
        parts: 2,
        seconds,
    };
    for seconds in [10, 30, 3600] {
        assert!(validate(&settings_with_split(by_seconds(seconds))).is_ok());
    }
    for seconds in [0, 9] {
        let err = validate(&settings_with_split(by_seconds(seconds))).unwrap_err();
        assert!(err.contains("at least 10 seconds"), "{err}");
    }
}

#[test]
fn validate_static_only_checks_the_active_dimension() {
    let split = SplitConfig {
        mode: SplitMode::Static,
        by: StaticSplitBy::Parts,
        parts: 3,
        seconds: 1,
    };
    assert!(validate(&settings_with_split(split)).is_ok());
    let split = SplitConfig {
        mode: SplitMode::Static,
        by: StaticSplitBy::Seconds,
        parts: 99,
        seconds: 15,
    };
    assert!(validate(&settings_with_split(split)).is_ok());
}

#[test]
fn validate_bounds_recents_limit() {
    let mut settings = stored_settings();
    settings.recents_limit = 0;
    let err = validate(&settings).unwrap_err();
    assert!(err.contains("recent videos"), "{err}");
    settings.recents_limit = 201;
    let err = validate(&settings).unwrap_err();
    assert!(err.contains("recent videos"), "{err}");
    for limit in [1, 50, 200] {
        settings.recents_limit = limit;
        assert!(validate(&settings).is_ok(), "{limit}");
    }
}

#[test]
fn validate_accepts_a_round_tripped_valid_settings() {
    let settings = valid_settings();
    assert!(validate(&settings).is_ok());
}

#[test]
fn validate_rejects_an_unsupported_locale() {
    let mut settings = valid_settings();
    settings.locale = "fr".into();
    let err = validate(&settings).unwrap_err();
    assert!(err.contains("unsupported locale"), "{err}");
    for ok in ["system", "en", "uk"] {
        settings.locale = ok.into();
        assert!(validate(&settings).is_ok(), "{ok}");
    }
    settings.locale = "EN".into();
    assert!(validate(&settings)
        .unwrap_err()
        .contains("unsupported locale"));
}

#[test]
fn validate_rejects_duplicate_preset_names_case_insensitively() {
    let mut settings = valid_settings();
    let mut dup: Preset = settings.presets[0].clone();
    dup.id = "discord-10mb-dup".into();
    dup.name = format!("  {}  ", settings.presets[0].name.to_uppercase());
    dup.split = SplitConfig::default();
    settings.presets.push(dup);

    let err = validate(&settings).unwrap_err();
    assert!(err.contains("unique name"), "{err}");
}

#[test]
fn validate_accepts_distinct_preset_names() {
    let mut settings = valid_settings();
    let mut other: Preset = settings.presets[0].clone();
    other.id = "other-id".into();
    other.name = "A genuinely different preset".into();
    settings.presets.push(other);
    assert!(validate(&settings).is_ok());
}

#[test]
fn validate_bounds_recents_limit_to_1_through_200() {
    let mut settings = valid_settings();
    for bad in [0usize, 201, 1000] {
        settings.recents_limit = bad;
        let err = validate(&settings).unwrap_err();
        assert!(err.contains("recent videos"), "limit {bad}: {err}");
    }
    for ok in [1usize, 50, 200] {
        settings.recents_limit = ok;
        assert!(validate(&settings).is_ok(), "limit {ok} must be accepted");
    }
}

#[test]
fn validate_round_trips_after_a_rejection_is_corrected() {
    let mut settings = valid_settings();
    settings.recents_limit = 500;
    settings.locale = "de".into();
    assert!(validate(&settings).is_err());

    settings.recents_limit = 25;
    settings.locale = "uk".into();
    assert!(validate(&settings).is_ok());
    assert_eq!(settings.recents_limit, 25);
    assert_eq!(settings.locale, "uk");
}

#[test]
fn validate_reports_each_problem_in_order() {
    let mut s = valid_settings();
    s.presets.clear();
    assert_eq!(validate(&s).unwrap_err(), "at least one preset is required");

    let mut s = valid_settings();
    s.default_preset_id = "nope".into();
    assert_eq!(validate(&s).unwrap_err(), "default preset \"nope\" does not exist");

    let mut s = valid_settings();
    s.presets[0].name = "   ".into();
    assert_eq!(validate(&s).unwrap_err(), "preset names cannot be empty");

    let mut s = valid_settings();
    s.presets[0].target_mb_bits = 0.0f64.to_bits();
    assert_eq!(
        validate(&s).unwrap_err(),
        "preset \"Discord (10MB)\" must have a target size greater than 0"
    );

    let mut s = valid_settings();
    s.presets[0].split = SplitConfig {
        mode: SplitMode::Static,
        by: StaticSplitBy::Parts,
        parts: 1,
        seconds: 30,
    };
    let err = validate(&s).unwrap_err();
    assert!(err.starts_with("preset \"Discord (10MB)\": "), "{err}");
}

#[test]
fn validate_split_messages() {
    let ok = SplitConfig::default();
    assert!(validate_split(&ok).is_ok());
    let bad = SplitConfig {
        mode: SplitMode::Static,
        by: StaticSplitBy::Seconds,
        parts: 2,
        seconds: 5,
    };
    assert!(validate_split(&bad).unwrap_err().contains("at least 10 seconds"));
}
