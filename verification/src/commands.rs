//! Decisions behind the panel's commands: the trash-original multi-preset
//! guard, preset lookup, and the one-off custom conversion's preset.
use vstd::prelude::*;

use crate::encoder::Phase;
use crate::settings::{
    is_positive_finite, split_error, split_is_valid, validate_split, OutputFormat, Preset,
    SplitConfig,
};
use crate::text::{chars_of, push_str, str_eq, string_from_chars};

verus! {

/// Shown when "Move original to Trash" would make a second, differently
/// configured conversion of the same recording impossible.
pub const TRASH_MULTI_PRESET_ERR: &'static str = "'Move original to Trash' is on, so the original disappears after the first conversion — only one preset per video. Turn the toggle off in Preferences to export several formats.";

pub open spec fn conflicts_with(job: (&str, Phase, &str), input: Seq<char>, hash: Seq<char>) -> bool {
    &&& job.0@ == input
    &&& !(job.1 == Phase::Failed || job.1 == Phase::Cancelled)
    &&& job.2@ != hash
}

/// True when "Move original to Trash" would make `input_path` disappear
/// before a second, differently-configured conversion could run: some job
/// (input path, phase, preset hash) for the same input with a different
/// preset hash is neither failed nor cancelled. Same-hash jobs are fine — a
/// re-click just reuses the output.
pub fn trash_conflicts(jobs: &[(&str, Phase, &str)], input_path: &str, requested_hash: &str) -> (r:
    bool)
    ensures
        r == exists|i: int|
            0 <= i < jobs@.len() && conflicts_with(#[trigger] jobs@[i], input_path@, requested_hash@),
{
    let mut i: usize = 0;
    while i < jobs.len()
        invariant
            i <= jobs@.len(),
            forall|j: int| 0 <= j < i ==> !conflicts_with(#[trigger] jobs@[j], input_path@, requested_hash@),
        decreases jobs@.len() - i,
    {
        let (path, phase, hash) = jobs[i];
        if str_eq(path, input_path) && !(phase == Phase::Failed || phase == Phase::Cancelled) && !str_eq(
            hash,
            requested_hash,
        ) {
            assert(conflicts_with(jobs@[i as int], input_path@, requested_hash@));
            return true;
        }
        i = i + 1;
    }
    false
}

/// The position of the first preset with this id.
pub fn preset_index(presets: &Vec<Preset>, id: &str) -> (r: Option<usize>)
    ensures
        r matches Some(i) ==> i < presets.len() && presets@[i as int].id@ == id@ && forall|j: int|
            0 <= j < i ==> #[trigger] presets@[j].id@ != id@,
        r is None ==> forall|j: int| 0 <= j < presets.len() ==> #[trigger] presets@[j].id@ != id@,
{
    let mut i: usize = 0;
    while i < presets.len()
        invariant
            i <= presets.len(),
            forall|j: int| 0 <= j < i ==> #[trigger] presets@[j].id@ != id@,
        decreases presets.len() - i,
    {
        if str_eq(presets[i].id.as_str(), id) {
            return Some(i);
        }
        i = i + 1;
    }
    None
}

/// The message for a preset id that no preset carries.
pub fn unknown_preset_error(id: &str) -> (r: String)
    ensures
        r@ == "unknown preset: "@ + id@,
{
    let mut v: Vec<char> = Vec::new();
    push_str(&mut v, "unknown preset: ");
    push_str(&mut v, id);
    string_from_chars(&v)
}

/// One-off conversion settings from the panel's "Custom…" page; mirrors the
/// preset's encode-affecting fields (`target_mb_bits` is the `f64` target's
/// bit pattern).
#[derive(Debug, Clone, Copy, PartialEq, Eq, Structural)]
pub struct CustomConfig {
    pub target_mb_bits: u64,
    pub max_fps: Option<u32>,
    pub max_width: Option<u32>,
    pub scale_percent: Option<u32>,
    pub strip_audio: bool,
    pub format: OutputFormat,
    pub split: SplitConfig,
}

/// The preset a custom conversion runs with, or why the config is rejected:
/// the target must be a finite size above zero, and the split must be valid.
pub fn custom_preset(config: &CustomConfig) -> (r: Result<Preset, String>)
    ensures
        r is Ok <==> is_positive_finite(config.target_mb_bits) && split_is_valid(config.split),
        r matches Err(m) ==> if !is_positive_finite(config.target_mb_bits) {
            m@ == "target size must be greater than 0"@
        } else {
            m@ == split_error(config.split)
        },
        r matches Ok(p) ==> {
            &&& p.id@ == "custom"@
            &&& p.name@ == "Custom"@
            &&& p.target_mb_bits == config.target_mb_bits
            &&& p.max_fps == config.max_fps
            &&& p.max_width == config.max_width
            &&& p.scale_percent == config.scale_percent
            &&& p.strip_audio == config.strip_audio
            &&& p.format == config.format
            &&& p.split == config.split
        },
{
    if !(0 < config.target_mb_bits && config.target_mb_bits < 0x7FF0_0000_0000_0000u64) {
        let v = chars_of("target size must be greater than 0");
        return Err(string_from_chars(&v));
    }
    validate_split(&config.split)?;
    let id = chars_of("custom");
    let name = chars_of("Custom");
    Ok(Preset {
        id: string_from_chars(&id),
        name: string_from_chars(&name),
        target_mb_bits: config.target_mb_bits,
        max_fps: config.max_fps,
        max_width: config.max_width,
        scale_percent: config.scale_percent,
        strip_audio: config.strip_audio,
        format: config.format,
        split: config.split,
    })
}

/// Saving settings must switch launch-at-login only when the requested state
/// differs from the current one.
pub fn autostart_needs_sync(requested: bool, currently_enabled: bool) -> (r: bool)
    ensures
        r == (requested != currently_enabled),
{
    requested != currently_enabled
}

/// The launch-at-login value that is saved: the state read back after the
/// sync; when it cannot be read back, the state before the sync if the sync
/// failed (the request is known not applied), else the requested state.
pub fn saved_launch_at_login(
    requested: bool,
    currently_enabled: bool,
    sync_failed: bool,
    reread: Option<bool>,
) -> (r: bool)
    ensures
        r == (match reread {
            Some(b) => b,
            None => if sync_failed { currently_enabled } else { requested },
        }),
{
    match reread {
        Some(b) => b,
        None => if sync_failed {
            currently_enabled
        } else {
            requested
        },
    }
}

} // verus!
