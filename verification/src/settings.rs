//! The user's preferences and the presets they encode with, and the rules a
//! settings value must satisfy before it is saved.
use vstd::prelude::*;

use crate::text::{
    chars_of, lowercase_of, push_str, string_from_chars, to_lowercase, trim,
    trim_end, trim_start, trimmed,
};

verus! {

broadcast use vstd::string::group_string_axioms;

/// Container/codec family a preset encodes to. Mp4 is the historical default.
#[derive(Debug, Clone, Copy, PartialEq, Eq, Structural)]
pub enum OutputFormat {
    Mp4,
    Webm,
    Gif,
}

impl Default for OutputFormat {
    fn default() -> (r: Self)
        ensures
            r == OutputFormat::Mp4,
    {
        OutputFormat::Mp4
    }
}

/// How a video gets split into independently compressed parts. Off keeps the
/// single-output behavior.
#[derive(Debug, Clone, Copy, PartialEq, Eq, Structural)]
pub enum SplitMode {
    Off,
    Smart,
    Static,
}

impl Default for SplitMode {
    fn default() -> (r: Self)
        ensures
            r == SplitMode::Off,
    {
        SplitMode::Off
    }
}

/// What a static split is measured in: a fixed number of parts, or a target
/// part length in seconds.
#[derive(Debug, Clone, Copy, PartialEq, Eq, Structural)]
pub enum StaticSplitBy {
    Parts,
    Seconds,
}

impl Default for StaticSplitBy {
    fn default() -> (r: Self)
        ensures
            r == StaticSplitBy::Parts,
    {
        StaticSplitBy::Parts
    }
}

#[derive(Debug, Clone, Copy, PartialEq, Eq, Structural)]
pub struct SplitConfig {
    pub mode: SplitMode,
    pub by: StaticSplitBy,
    pub parts: u32,
    pub seconds: u32,
}

/// The part count a split config starts with.
pub fn default_split_parts() -> (r: u32)
    ensures
        r == 2,
{
    2
}

/// The part length (seconds) a split config starts with.
pub fn default_split_seconds() -> (r: u32)
    ensures
        r == 30,
{
    30
}

impl Default for SplitConfig {
    fn default() -> (r: Self)
        ensures
            r == (SplitConfig {
                mode: SplitMode::Off,
                by: StaticSplitBy::Parts,
                parts: 2,
                seconds: 30,
            }),
    {
        SplitConfig {
            mode: SplitMode::Off,
            by: StaticSplitBy::Parts,
            parts: default_split_parts(),
            seconds: default_split_seconds(),
        }
    }
}

/// Whether a split configuration is acceptable: only the dimension that a
/// static split actually uses is bounded.
pub open spec fn split_is_valid(split: SplitConfig) -> bool {
    split.mode == SplitMode::Static ==> match split.by {
        StaticSplitBy::Parts => 2 <= split.parts <= 20,
        StaticSplitBy::Seconds => split.seconds >= 10,
    }
}

/// The message a rejected split config is reported with.
pub open spec fn split_error(split: SplitConfig) -> Seq<char> {
    match split.by {
        StaticSplitBy::Parts => "split part count must be between 2 and 20"@,
        StaticSplitBy::Seconds => "split part duration must be at least 10 seconds"@,
    }
}

fn text(s: &str) -> (r: String)
    ensures
        r@ == s@,
{
    let v = chars_of(s);
    string_from_chars(&v)
}

/// Validates a split config; shared by preset validation and the one-off
/// custom conversion.
pub fn validate_split(split: &SplitConfig) -> (r: Result<(), String>)
    ensures
        r is Ok <==> split_is_valid(*split),
        r matches Err(m) ==> m@ == split_error(*split),
{
    if split.mode != SplitMode::Static {
        return Ok(());
    }
    match split.by {
        StaticSplitBy::Parts => {
            if split.parts < 2 || split.parts > 20 {
                return Err(text("split part count must be between 2 and 20"));
            }
            Ok(())
        },
        StaticSplitBy::Seconds => {
            if split.seconds < 10 {
                return Err(text("split part duration must be at least 10 seconds"));
            }
            Ok(())
        },
    }
}

/// An encode preset. `target_mb_bits` holds the IEEE-754 bit pattern of the
/// byte target in megabytes (an `f64`), so that the value travels through
/// the library unchanged.
#[derive(Debug, Clone)]
pub struct Preset {
    pub id: String,
    pub name: String,
    pub target_mb_bits: u64,
    pub max_fps: Option<u32>,
    pub max_width: Option<u32>,
    pub scale_percent: Option<u32>,
    pub strip_audio: bool,
    pub format: OutputFormat,
    pub split: SplitConfig,
}

/// The `f64` whose bit pattern is `bits` is finite and greater than zero. In
/// IEEE-754 binary64 the sign is the top bit and an all-ones exponent
/// (`0x7FF`) marks infinities and NaNs, so the positive finite non-zero
/// values are exactly the patterns strictly between `0` (+0.0) and
/// `0x7FF0_0000_0000_0000` (+infinity).
pub open spec fn is_positive_finite(bits: u64) -> bool {
    0 < bits < 0x7FF0_0000_0000_0000u64
}

/// When to reveal finished outputs in the system file manager.
#[derive(Debug, Clone, Copy, PartialEq, Eq, Structural)]
pub enum OpenAfterConvert {
    /// Never open anything (the default).
    Off,
    /// Open the part folder when a multi-part split finishes.
    Multipart,
    /// Open the part folder for splits, and reveal the file for singles.
    All,
}

impl Default for OpenAfterConvert {
    fn default() -> (r: Self)
        ensures
            r == OpenAfterConvert::Off,
    {
        OpenAfterConvert::Off
    }
}

/// Which color theme the panel renders in.
#[derive(Debug, Clone, Copy, PartialEq, Eq, Structural)]
pub enum Theme {
    System,
    Light,
    Dark,
}

impl Default for Theme {
    fn default() -> (r: Self)
        ensures
            r == Theme::System,
    {
        Theme::System
    }
}

/// How the Videos screen offers presets when compressing a recording.
#[derive(Debug, Clone, Copy, PartialEq, Eq, Structural)]
pub enum VideosLayout {
    QuickPick,
    ActiveBar,
}

impl Default for VideosLayout {
    fn default() -> (r: Self)
        ensures
            r == VideosLayout::QuickPick,
    {
        VideosLayout::QuickPick
    }
}

#[derive(Debug, Clone)]
pub struct Settings {
    pub watched_folders: Vec<String>,
    pub copy_to_clipboard: bool,
    pub trash_original: bool,
    pub use_hardware_encoder: bool,
    pub presets: Vec<Preset>,
    pub default_preset_id: String,
    pub launch_at_login: bool,
    /// Global shortcut that compresses the newest recording with the default
    /// preset. `None` or a blank string disables it.
    pub shortcut_compress_latest: Option<String>,
    /// Global shortcut that toggles the tray panel. `None`/blank disables it.
    pub shortcut_toggle_panel: Option<String>,
    /// Warn when the newest video is older than this many minutes.
    pub stale_warn_minutes: u32,
    pub open_after_convert: OpenAfterConvert,
    pub videos_layout: VideosLayout,
    pub theme: Theme,
    /// Windows: whether the Explorer context-menu entry is registered.
    pub context_menu_enabled: bool,
    /// How many recent videos the Videos tab lists. 1..=200.
    pub recents_limit: usize,
    /// Whether the one-time first-run notice has been dismissed.
    pub onboarding_seen: bool,
    /// UI language: "system", "en" or "uk".
    pub locale: String,
}

pub fn default_true() -> (r: bool)
    ensures
        r,
{
    true
}

pub fn default_shortcut_compress_latest() -> (r: Option<String>)
    ensures
        r matches Some(s) && s@ == "CmdOrCtrl+Alt+T"@,
{
    Some(text("CmdOrCtrl+Alt+T"))
}

pub fn default_shortcut_toggle_panel() -> (r: Option<String>)
    ensures
        r matches Some(s) && s@ == "CmdOrCtrl+Alt+O"@,
{
    Some(text("CmdOrCtrl+Alt+O"))
}

pub fn default_stale_warn_minutes() -> (r: u32)
    ensures
        r == 10,
{
    10
}

pub fn default_recents_limit() -> (r: usize)
    ensures
        r == 50,
{
    50
}

pub fn default_locale() -> (r: String)
    ensures
        r@ == "system"@,
{
    text("system")
}

/// The preset a fresh profile starts with: Discord's 10 MB limit.
pub fn default_preset() -> (p: Preset)
    ensures
        p.id@ == "discord-10mb"@,
        p.name@ == "Discord (10MB)"@,
        p.target_mb_bits == 0x4024_0000_0000_0000u64,
        p.max_fps is None,
        p.max_width is None,
        p.scale_percent is None,
        !p.strip_audio,
        p.format == OutputFormat::Mp4,
        p.split == (SplitConfig {
            mode: SplitMode::Off,
            by: StaticSplitBy::Parts,
            parts: 2,
            seconds: 30,
        }),
{
    Preset {
        id: text("discord-10mb"),
        name: text("Discord (10MB)"),
        // 10.0 as an f64
        target_mb_bits: 0x4024_0000_0000_0000u64,
        max_fps: None,
        max_width: None,
        scale_percent: None,
        strip_audio: false,
        format: OutputFormat::Mp4,
        split: SplitConfig::default(),
    }
}

/// A fresh profile: the platform's default `watched_folders`, clipboard copy
/// on, the original kept, hardware encoding allowed, the Discord preset as the
/// only and default one, launch-at-login off, the default shortcuts and
/// staleness warning, the default layout and theme, the context-menu entry
/// on, 50 recent videos, the first-run notice not yet seen, and the system
/// language.
pub open spec fn is_fresh_profile(s: Settings, watched_folders: Seq<String>) -> bool {
    &&& s.watched_folders@ == watched_folders
    &&& s.copy_to_clipboard
    &&& !s.trash_original
    &&& s.use_hardware_encoder
    &&& s.presets@.len() == 1
    &&& s.presets@[0].id@ == "discord-10mb"@
    &&& s.presets@[0].name@ == "Discord (10MB)"@
    &&& s.presets@[0].target_mb_bits == 0x4024_0000_0000_0000u64
    &&& s.presets@[0].max_fps is None
    &&& s.presets@[0].max_width is None
    &&& s.presets@[0].scale_percent is None
    &&& !s.presets@[0].strip_audio
    &&& s.presets@[0].format == OutputFormat::Mp4
    &&& s.presets@[0].split == (SplitConfig {
        mode: SplitMode::Off,
        by: StaticSplitBy::Parts,
        parts: 2,
        seconds: 30,
    })
    &&& s.default_preset_id@ == "discord-10mb"@
    &&& !s.launch_at_login
    &&& s.shortcut_compress_latest matches Some(a) && a@ == "CmdOrCtrl+Alt+T"@
    &&& s.shortcut_toggle_panel matches Some(a) && a@ == "CmdOrCtrl+Alt+O"@
    &&& s.stale_warn_minutes == 10
    &&& s.open_after_convert == OpenAfterConvert::Off
    &&& s.videos_layout == VideosLayout::QuickPick
    &&& s.theme == Theme::System
    &&& s.context_menu_enabled
    &&& s.recents_limit == 50
    &&& !s.onboarding_seen
    &&& s.locale@ == "system"@
}

pub fn default_settings(watched_folders: Vec<String>) -> (s: Settings)
    ensures
        is_fresh_profile(s, watched_folders@),
{
    let mut presets: Vec<Preset> = Vec::new();
    presets.push(default_preset());
    Settings {
        watched_folders,
        copy_to_clipboard: true,
        trash_original: false,
        use_hardware_encoder: true,
        presets,
        default_preset_id: text("discord-10mb"),
        launch_at_login: false,
        shortcut_compress_latest: default_shortcut_compress_latest(),
        shortcut_toggle_panel: default_shortcut_toggle_panel(),
        stale_warn_minutes: default_stale_warn_minutes(),
        open_after_convert: OpenAfterConvert::default(),
        videos_layout: VideosLayout::default(),
        theme: Theme::default(),
        context_menu_enabled: true,
        recents_limit: default_recents_limit(),
        onboarding_seen: false,
        locale: default_locale(),
    }
}

// ---------------------------------------------------------------------------
// Validation

pub open spec fn preset_views(presets: Seq<Preset>) -> Seq<Seq<char>> {
    presets.map_values(|p: Preset| p.name@)
}

/// The key two preset names are compared by: trimmed, then lowercased.
pub open spec fn name_key(name: Seq<char>) -> Seq<char> {
    lowercase_of(trim(name))
}

pub open spec fn name_is_blank(name: Seq<char>) -> bool {
    trim(name).len() == 0
}

pub open spec fn is_supported_locale(l: Seq<char>) -> bool {
    l == "system"@ || l == "en"@ || l == "uk"@
}

/// The first problem of preset `i` (its own fields, then a clash of its name
/// with an earlier preset's), if any.
pub open spec fn preset_problem(presets: Seq<Preset>, i: int) -> Option<Seq<char>> {
    let p = presets[i];
    if name_is_blank(p.name@) {
        Some("preset names cannot be empty"@)
    } else if !is_positive_finite(p.target_mb_bits) {
        Some("preset \""@ + p.name@ + "\" must have a target size greater than 0"@)
    } else if !split_is_valid(p.split) {
        Some("preset \""@ + p.name@ + "\": "@ + split_error(p.split))
    } else if exists|j: int| 0 <= j < i && name_key(#[trigger] presets[j].name@) == name_key(p.name@) {
        Some("every preset needs a unique name: \""@ + p.name@ + "\" is used twice"@)
    } else {
        None
    }
}

/// The first preset (from index `from` on) with a problem, and that problem.
pub open spec fn first_preset_problem(presets: Seq<Preset>, from: int) -> Option<Seq<char>>
    decreases presets.len() - from,
{
    if from < 0 || from >= presets.len() {
        None
    } else {
        match preset_problem(presets, from) {
            Some(m) => Some(m),
            None => first_preset_problem(presets, from + 1),
        }
    }
}

/// Why `s` is rejected, or `None` when it is valid. The checks run in this
/// order: a preset exists, the default preset exists, each preset in order,
/// the recent-videos limit, the locale.
pub open spec fn settings_problem(s: Settings) -> Option<Seq<char>> {
    let presets = s.presets@;
    if presets.len() == 0 {
        Some("at least one preset is required"@)
    } else if !(exists|i: int| 0 <= i < presets.len() && #[trigger] presets[i].id@ == s.default_preset_id@) {
        Some("default preset \""@ + s.default_preset_id@ + "\" does not exist"@)
    } else if first_preset_problem(presets, 0) is Some {
        first_preset_problem(presets, 0)
    } else if !(1 <= s.recents_limit <= 200) {
        Some("recent videos shown must be between 1 and 200"@)
    } else if !is_supported_locale(s.locale@) {
        Some("unsupported locale \""@ + s.locale@ + "\""@)
    } else {
        None
    }
}

fn msg3(a: &str, b: &str, c: &str) -> (r: String)
    ensures
        r@ == a@ + b@ + c@,
{
    let mut v: Vec<char> = Vec::new();
    push_str(&mut v, a);
    push_str(&mut v, b);
    push_str(&mut v, c);
    string_from_chars(&v)
}

fn msg4(a: &str, b: &str, c: &str, d: &str) -> (r: String)
    ensures
        r@ == a@ + b@ + c@ + d@,
{
    let mut v: Vec<char> = Vec::new();
    push_str(&mut v, a);
    push_str(&mut v, b);
    push_str(&mut v, c);
    push_str(&mut v, d);
    string_from_chars(&v)
}

fn name_key_of(name: &String) -> (r: String)
    ensures
        r@ == name_key(name@),
{
    let v = chars_of(name.as_str());
    let t = trimmed(&v);
    let ts = string_from_chars(&t);
    to_lowercase(ts.as_str())
}

fn has_id(presets: &Vec<Preset>, id: &String) -> (r: bool)
    ensures
        r == exists|i: int| 0 <= i < presets@.len() && #[trigger] presets@[i].id@ == id@,
{
    let mut i: usize = 0;
    while i < presets.len()
        invariant
            i <= presets.len(),
            forall|j: int| 0 <= j < i ==> #[trigger] presets@[j].id@ != id@,
        decreases presets.len() - i,
    {
        if presets[i].id == *id {
            return true;
        }
        i = i + 1;
    }
    false
}

fn is_blank(s: &String) -> (r: bool)
    ensures
        r == name_is_blank(s@),
{
    let v = chars_of(s.as_str());
    let t = trimmed(&v);
    t.len() == 0
}

/// The problem of preset `i`, if any.
fn check_preset(presets: &Vec<Preset>, keys: &Vec<String>, i: usize) -> (r: Option<String>)
    requires
        i < presets.len(),
        keys.len() == presets.len(),
        forall|j: int| 0 <= j < keys.len() ==> #[trigger] keys@[j]@ == name_key(presets@[j].name@),
    ensures
        r matches Some(m) ==> preset_problem(presets@, i as int) == Some(m@),
        r is None ==> preset_problem(presets@, i as int) is None,
{
    let p = &presets[i];
    if is_blank(&p.name) {
        return Some(text("preset names cannot be empty"));
    }
    if !(0 < p.target_mb_bits && p.target_mb_bits < 0x7FF0_0000_0000_0000u64) {
        return Some(
            msg3("preset \"", p.name.as_str(), "\" must have a target size greater than 0"),
        );
    }
    match validate_split(&p.split) {
        Err(e) => {
            return Some(msg4("preset \"", p.name.as_str(), "\": ", e.as_str()));
        },
        Ok(()) => {},
    }
    let mut j: usize = 0;
    while j < i
        invariant
            i < presets.len(),
            keys.len() == presets.len(),
            forall|k: int| 0 <= k < keys.len() ==> #[trigger] keys@[k]@ == name_key(presets@[k].name@),
            j <= i,
            !name_is_blank(presets@[i as int].name@),
            is_positive_finite(presets@[i as int].target_mb_bits),
            split_is_valid(presets@[i as int].split),
            forall|k: int| 0 <= k < j ==> name_key(#[trigger] presets@[k].name@) != name_key(presets@[i as int].name@),
        decreases i - j,
    {
        if keys[j] == keys[i] {
            assert(name_key(presets@[j as int].name@) == name_key(presets@[i as int].name@));
            return Some(
                msg3("every preset needs a unique name: \"", presets[i].name.as_str(), "\" is used twice"),
            );
        }
        j = j + 1;
    }
    None
}

/// Checks every rule a settings value must satisfy before it is saved.
pub fn validate(settings: &Settings) -> (r: Result<(), String>)
    ensures
        r is Ok <==> settings_problem(*settings) is None,
        r matches Err(m) ==> settings_problem(*settings) == Some(m@),
{
    if settings.presets.len() == 0 {
        return Err(text("at least one preset is required"));
    }
    if !has_id(&settings.presets, &settings.default_preset_id) {
        return Err(msg3("default preset \"", settings.default_preset_id.as_str(), "\" does not exist"));
    }
    let mut keys: Vec<String> = Vec::new();
    let mut k: usize = 0;
    while k < settings.presets.len()
        invariant
            k <= settings.presets.len(),
            keys.len() == k,
            forall|j: int| 0 <= j < k ==> #[trigger] keys@[j]@ == name_key(settings.presets@[j].name@),
        decreases settings.presets.len() - k,
    {
        keys.push(name_key_of(&settings.presets[k].name));
        k = k + 1;
    }
    let mut i: usize = 0;
    while i < settings.presets.len()
        invariant
            i <= settings.presets.len(),
            keys.len() == settings.presets.len(),
            forall|j: int| 0 <= j < keys.len() ==> #[trigger] keys@[j]@ == name_key(settings.presets@[j].name@),
            first_preset_problem(settings.presets@, 0) == first_preset_problem(settings.presets@, i as int),
            settings.presets.len() > 0,
            exists|j: int| 0 <= j < settings.presets@.len() && #[trigger] settings.presets@[j].id@ == settings.default_preset_id@,
        decreases settings.presets.len() - i,
    {
        match check_preset(&settings.presets, &keys, i) {
            Some(m) => {
                assert(first_preset_problem(settings.presets@, i as int) == Some(m@));
                return Err(m);
            },
            None => {},
        }
        i = i + 1;
    }
    assert(first_preset_problem(settings.presets@, 0) is None);
    if settings.recents_limit < 1 || settings.recents_limit > 200 {
        return Err(text("recent videos shown must be between 1 and 200"));
    }
    let l = settings.locale.as_str();
    if !(crate::text::str_eq(l, "system") || crate::text::str_eq(l, "en") || crate::text::str_eq(l, "uk")) {
        return Err(msg3("unsupported locale \"", l, "\""));
    }
    Ok(())
}

/// A fresh profile passes validation, whatever folders it watches.
pub proof fn lemma_fresh_profile_is_valid(s: Settings, watched_folders: Seq<String>)
    requires
        is_fresh_profile(s, watched_folders),
    ensures
        settings_problem(s) is None,
{
    reveal_strlit("Discord (10MB)");
    reveal_strlit("system");
    let presets = s.presets@;
    let name = presets[0].name@;
    assert(trim_start(name) == name);
    assert(trim_end(name) == name);
    assert(!name_is_blank(name));
    assert(presets[0].id@ == s.default_preset_id@);
    assert(preset_problem(presets, 0) is None);
    assert(first_preset_problem(presets, 1) is None);
    assert(first_preset_problem(presets, 0) is None);
}

} // verus!
