use tamp_lib::{e2e_mode_enabled, first_video_arg, should_hide_on_blur};

#[test]
fn picks_the_first_video_arg_skipping_argv0() {
    let args = vec![
        "tamp.exe".to_string(),
        "--flag".to_string(),
        "C:\\a\\clip.MP4".to_string(),
        "C:\\a\\other.mkv".to_string(),
    ];
    assert_eq!(first_video_arg(&args), Some("C:\\a\\clip.MP4".to_string()));
}

#[test]
fn returns_none_without_a_video_arg() {
    let args = vec!["tamp.exe".to_string(), "--toggle".to_string()];
    assert_eq!(first_video_arg(&args), None);
}

#[test]
fn argv0_is_never_taken_even_when_it_looks_like_a_video() {
    let args = vec!["clip.mp4".to_string()];
    assert_eq!(first_video_arg(&args), None);
    assert_eq!(first_video_arg(&[]), None);
}

#[test]
fn enabled_only_for_exactly_one() {
    assert!(e2e_mode_enabled(Some("1")));
}

#[test]
fn disabled_when_unset_or_other_value() {
    assert!(!e2e_mode_enabled(None), "unset");
    assert!(!e2e_mode_enabled(Some("")), "empty");
    assert!(!e2e_mode_enabled(Some("0")), "zero");
    assert!(!e2e_mode_enabled(Some("true")), "true");
}

#[test]
fn hides_when_idle() {
    assert!(should_hide_on_blur(false, false, false));
}

#[test]
fn keeps_open_during_a_dialog_pin_or_drag() {
    assert!(!should_hide_on_blur(true, false, false), "dialog open");
    assert!(!should_hide_on_blur(false, true, false), "pinned");
    assert!(
        !should_hide_on_blur(false, false, true),
        "mouse button held (drag)"
    );
}
