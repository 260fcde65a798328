use tamp_lib::platform::{
    ansi_char, layout_token, macos_tray_title, rewrite_accelerator_key, tray_ink,
    tray_state_key, windows_tray_tooltip, MacOs, Windows, TRAY_IDLE, TRAY_NEVER_SHOWN,
};

#[test]
fn ansi_table_maps_known_positions() {
    assert_eq!(ansi_char(17), Some('t'));
    assert_eq!(ansi_char(0), Some('a'));
    assert_eq!(ansi_char(40), Some('k'));
    assert_eq!(ansi_char(18), Some('1'));
    assert_eq!(ansi_char(24), None);
    assert_eq!(ansi_char(200), None);
}

#[test]
fn rewrite_replaces_only_the_key_token() {
    let out = rewrite_accelerator_key("CmdOrCtrl+Alt+T", |c| {
        assert_eq!(c, 't');
        Some('k')
    });
    assert_eq!(out, "CmdOrCtrl+Alt+K");
}

#[test]
fn rewrite_is_identity_when_map_returns_same_or_none() {
    assert_eq!(
        rewrite_accelerator_key("CmdOrCtrl+Alt+T", |_| Some('t')),
        "CmdOrCtrl+Alt+T"
    );
    assert_eq!(
        rewrite_accelerator_key("CmdOrCtrl+Alt+T", |_| None),
        "CmdOrCtrl+Alt+T"
    );
}

#[test]
fn rewrite_leaves_non_single_char_and_bare_keys_alone() {
    assert_eq!(
        rewrite_accelerator_key("CmdOrCtrl+F1", |_| Some('z')),
        "CmdOrCtrl+F1"
    );
    assert_eq!(rewrite_accelerator_key("T", |_| Some('k')), "T");
}

#[test]
fn rewrite_keeps_a_plus_key_and_digits() {
    // A trailing '+' leaves no key character after the last '+'.
    assert_eq!(rewrite_accelerator_key("CmdOrCtrl++", |_| Some('x')), "CmdOrCtrl++");
    assert_eq!(rewrite_accelerator_key("Alt+5", |c| {
        assert_eq!(c, '5');
        Some('7')
    }), "Alt+7");
    assert_eq!(rewrite_accelerator_key("", |_| Some('x')), "");
}

#[test]
fn layout_token_skips_qwerty_and_unknown_keys() {
    // Dvorak: 't' is typed by the key at the QWERTY-K position (keycode 40).
    assert_eq!(layout_token('t', Some(40)), Some('k'));
    // QWERTY: 't' sits at its own position.
    assert_eq!(layout_token('t', Some(17)), None);
    // No key types the character, or the key is not a letter/digit.
    assert_eq!(layout_token('t', None), None);
    assert_eq!(layout_token('t', Some(24)), None);
}

#[test]
fn hardware_candidates_per_platform() {
    let mac = MacOs.hw_candidates();
    assert_eq!(mac.len(), 1);
    assert_eq!(mac[0].name, "h264_videotoolbox");
    assert_eq!(mac[0].extra_args, &["-allow_sw", "1"]);
    let win = Windows.hw_candidates();
    let names: Vec<&str> = win.iter().map(|c| c.name).collect();
    assert_eq!(names, vec!["h264_nvenc", "h264_qsv", "h264_amf", "h264_mf"]);
    assert!(win.iter().all(|c| c.extra_args.is_empty()));
    assert_eq!(Windows.resolve_accelerator("CmdOrCtrl+Alt+T"), "CmdOrCtrl+Alt+T");
}

#[test]
fn tray_ink_contrasts_with_the_taskbar() {
    assert_eq!(tray_ink(false), [0xff, 0xff, 0xff]);
    assert_eq!(tray_ink(true), [0x26, 0x26, 0x2b]);
}

#[test]
fn tray_texts_show_percent_and_queue() {
    assert_eq!(macos_tray_title(42, 0), "42%");
    assert_eq!(macos_tray_title(7, 3), "7% (+3)");
    assert_eq!(windows_tray_tooltip(100, 0), "tamp — 100%");
    assert_eq!(windows_tray_tooltip(55, 2), "tamp — 55% (+2 queued)");
}

#[test]
fn tray_state_key_changes_only_with_the_display() {
    assert_eq!(tray_state_key(None), TRAY_IDLE);
    assert_eq!(tray_state_key(Some((42, 3))), (42u64 << 32) | 3);
    assert_ne!(tray_state_key(Some((42, 3))), tray_state_key(Some((43, 3))));
    assert_ne!(tray_state_key(Some((42, 3))), tray_state_key(Some((42, 4))));
    assert_ne!(tray_state_key(Some((0, 0))), TRAY_NEVER_SHOWN);
    assert_eq!(
        tray_state_key(Some((100, usize::MAX))),
        tray_state_key(Some((100, u32::MAX as usize)))
    );
}
