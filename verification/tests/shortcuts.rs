use tamp_lib::settings::default_settings;
use tamp_lib::shortcuts::{
    changed, enabled, latest_source, may_notify, permission_label, Permission, msg_compress_failed, msg_no_recent_videos, msg_stale_warning,
    resolve_notif_lang, stale_age_minutes, system_language_from, NotifLang,
};

#[test]
fn explicit_locale_overrides_the_system_language() {
    assert_eq!(resolve_notif_lang("en", "uk-UA"), NotifLang::En);
    assert_eq!(resolve_notif_lang("uk", "en-US"), NotifLang::Uk);
    assert_eq!(resolve_notif_lang("en", ""), NotifLang::En);
    assert_eq!(resolve_notif_lang("uk", ""), NotifLang::Uk);
}

#[test]
fn system_follows_the_os_language_with_the_uk_prefix_rule() {
    for sys in ["uk", "uk-UA", "UK", "uk_UA.UTF-8"] {
        assert_eq!(resolve_notif_lang("system", sys), NotifLang::Uk, "{sys}");
    }
    for sys in ["", "en", "en-US", "fr", "ru", "ukulele-is-not-uk"] {
        let want = if sys.to_lowercase().starts_with("uk") {
            NotifLang::Uk
        } else {
            NotifLang::En
        };
        assert_eq!(resolve_notif_lang("system", sys), want, "{sys}");
    }
    assert_eq!(resolve_notif_lang("fr", "uk-UA"), NotifLang::Uk);
    assert_eq!(resolve_notif_lang("fr", "en-US"), NotifLang::En);
}

#[test]
fn notification_strings_are_localized_per_language() {
    assert_eq!(
        msg_no_recent_videos(NotifLang::En),
        "No recent videos found"
    );
    assert_eq!(
        msg_no_recent_videos(NotifLang::Uk),
        "Нещодавніх відео не знайдено"
    );

    let en = msg_stale_warning(NotifLang::En, "clip.mov", 42);
    assert!(en.contains("Compressing clip.mov"), "{en}");
    assert!(en.contains("42m ago"), "{en}");
    let uk = msg_stale_warning(NotifLang::Uk, "clip.mov", 42);
    assert!(uk.contains("Стискаємо clip.mov"), "{uk}");
    assert!(uk.contains("42 хв тому"), "{uk}");

    let en = msg_compress_failed(NotifLang::En, "clip.mov", "disk full");
    assert!(en.starts_with("Couldn't compress clip.mov:"), "{en}");
    assert!(en.contains("disk full"), "{en}");
    let uk = msg_compress_failed(NotifLang::Uk, "clip.mov", "disk full");
    assert!(uk.starts_with("Не вдалося стиснути clip.mov:"), "{uk}");
    assert!(uk.contains("disk full"), "{uk}");
}

#[test]
fn blank_or_missing_accelerators_are_disabled() {
    assert_eq!(enabled(&None), None);
    assert_eq!(enabled(&Some(String::new())), None);
    assert_eq!(enabled(&Some("   ".to_string())), None);
    assert_eq!(enabled(&Some("CmdOrCtrl+Alt+T".to_string())), Some("CmdOrCtrl+Alt+T"));
}

#[test]
fn only_accelerator_edits_need_re_registration() {
    let old = default_settings(vec![]);
    let mut new = default_settings(vec![]);
    new.recents_limit = 20;
    assert!(!changed(&old, &new));
    new.shortcut_toggle_panel = None;
    assert!(changed(&old, &new));
}

#[test]
fn staleness_is_measured_in_whole_minutes() {
    // 11 minutes old against a 10-minute threshold: warn with the age.
    assert_eq!(stale_age_minutes(11 * 60_000, 0, 10), Some(11));
    // Exactly at the threshold is not stale.
    assert_eq!(stale_age_minutes(10 * 60_000, 0, 10), None);
    // A creation time in the future counts as age zero.
    assert_eq!(stale_age_minutes(0, 5_000, 10), None);
}

#[test]
fn system_language_takes_the_first_non_empty_variable() {
    assert_eq!(system_language_from(Some("uk_UA.UTF-8"), Some("en"), Some("fr")), "uk_UA.UTF-8");
    assert_eq!(system_language_from(Some(""), Some("en_US"), Some("fr")), "en_US");
    assert_eq!(system_language_from(None, None, Some("fr_FR")), "fr_FR");
    assert_eq!(system_language_from(None, Some(""), None), "");
}

#[test]
fn permission_words_and_when_to_notify() {
    assert_eq!(permission_label(Some(Permission::Granted)), "granted");
    assert_eq!(permission_label(Some(Permission::Denied)), "denied");
    assert_eq!(permission_label(Some(Permission::Prompt)), "prompt");
    assert_eq!(
        permission_label(Some(Permission::PromptWithRationale)),
        "prompt-with-rationale"
    );
    assert_eq!(permission_label(None), "unsupported");
    assert!(may_notify(Some(Permission::Granted), None));
    assert!(may_notify(Some(Permission::Prompt), Some(Permission::Granted)));
    assert!(!may_notify(Some(Permission::Denied), Some(Permission::Denied)));
    assert!(!may_notify(None, Some(Permission::Granted)));
}

#[test]
fn compress_latest_takes_the_newest_non_output() {
    assert_eq!(latest_source(&vec![true, false, false]), Some(1));
    assert_eq!(latest_source(&vec![false]), Some(0));
    assert_eq!(latest_source(&vec![true, true]), None);
    assert_eq!(latest_source(&vec![]), None);
}
