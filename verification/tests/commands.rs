use tamp_lib::commands::{
    autostart_needs_sync, custom_preset, preset_index, saved_launch_at_login, trash_conflicts,
    unknown_preset_error, CustomConfig,
};
use tamp_lib::encoder::Phase;
use tamp_lib::settings::{default_preset, OutputFormat, SplitConfig, SplitMode, StaticSplitBy};

const INPUT: &str = "/rec/clip.mov";

#[test]
fn no_jobs_never_conflicts() {
    assert!(!trash_conflicts(&[], INPUT, "823f"));
}

#[test]
fn different_hash_for_same_input_conflicts() {
    let jobs = [(INPUT, Phase::Done, "823f")];
    assert!(trash_conflicts(&jobs, INPUT, "d6e4"));
}

#[test]
fn same_hash_reclick_stays_allowed() {
    let jobs = [(INPUT, Phase::Done, "823f")];
    assert!(!trash_conflicts(&jobs, INPUT, "823f"));
}

#[test]
fn other_inputs_do_not_conflict() {
    let jobs = [("/rec/other.mov", Phase::Pass2, "823f")];
    assert!(!trash_conflicts(&jobs, INPUT, "d6e4"));
}

#[test]
fn failed_and_cancelled_jobs_do_not_conflict() {
    let jobs = [
        (INPUT, Phase::Failed, "823f"),
        (INPUT, Phase::Cancelled, "eb3d"),
    ];
    assert!(!trash_conflicts(&jobs, INPUT, "d6e4"));
}

#[test]
fn active_phases_all_conflict() {
    for phase in [
        Phase::Queued,
        Phase::Pass1,
        Phase::Pass2,
        Phase::Verifying,
        Phase::Done,
    ] {
        assert!(
            trash_conflicts(&[(INPUT, phase, "823f")], INPUT, "d6e4"),
            "phase must conflict"
        );
    }
}

#[test]
fn one_conflicting_job_among_many_is_enough() {
    let jobs = [
        ("/rec/other.mov", Phase::Pass1, "aaaa"),
        (INPUT, Phase::Cancelled, "bbbb"),
        (INPUT, Phase::Verifying, "cccc"),
    ];
    assert!(trash_conflicts(&jobs, INPUT, "823f"));
}

#[test]
fn preset_lookup_finds_the_first_matching_id() {
    let mut a = default_preset();
    a.id = "a".to_string();
    let mut b = default_preset();
    b.id = "b".to_string();
    let presets = vec![a, b];
    assert_eq!(preset_index(&presets, "b"), Some(1));
    assert_eq!(preset_index(&presets, "a"), Some(0));
    assert_eq!(preset_index(&presets, "zzz"), None);
    assert_eq!(unknown_preset_error("zzz"), "unknown preset: zzz");
}

fn config(target_mb: f64, split: SplitConfig) -> CustomConfig {
    CustomConfig {
        target_mb_bits: target_mb.to_bits(),
        max_fps: Some(30),
        max_width: None,
        scale_percent: Some(50),
        strip_audio: true,
        format: OutputFormat::Webm,
        split,
    }
}

#[test]
fn custom_preset_carries_the_config() {
    let p = custom_preset(&config(8.5, SplitConfig::default())).unwrap();
    assert_eq!(p.id, "custom");
    assert_eq!(p.name, "Custom");
    assert_eq!(f64::from_bits(p.target_mb_bits), 8.5);
    assert_eq!(p.max_fps, Some(30));
    assert_eq!(p.scale_percent, Some(50));
    assert!(p.strip_audio);
    assert_eq!(p.format, OutputFormat::Webm);
}

#[test]
fn custom_preset_rejects_a_non_positive_or_non_finite_target() {
    for bad in [0.0, -1.0, f64::INFINITY, f64::NAN] {
        let err = custom_preset(&config(bad, SplitConfig::default())).unwrap_err();
        assert_eq!(err, "target size must be greater than 0");
    }
}

#[test]
fn custom_preset_rejects_an_invalid_split() {
    let split = SplitConfig {
        mode: SplitMode::Static,
        by: StaticSplitBy::Parts,
        parts: 1,
        seconds: 30,
    };
    let err = custom_preset(&config(10.0, split)).unwrap_err();
    assert!(err.contains("between 2 and 20"), "{err}");
}

#[test]
fn launch_at_login_follows_the_reread_state() {
    assert!(autostart_needs_sync(true, false));
    assert!(!autostart_needs_sync(true, true));
    assert!(saved_launch_at_login(true, false, false, Some(false)) == false);
    assert!(saved_launch_at_login(true, false, false, None));
    assert!(!saved_launch_at_login(true, false, true, None));
}
