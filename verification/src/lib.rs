//! tamp's library: the rules and decisions behind a tray app that compresses
//! screen recordings to a size target — settings validation, output naming,
//! the recents listing, the conversion journal, the job queue's bookkeeping,
//! log rotation, notification text and shortcut rewriting.
use vstd::prelude::*;

pub mod commands;
pub mod context_menu;
pub mod durations;
pub mod encoder;
pub mod journal;
pub mod logging;
pub mod platform;
pub mod scanner;
pub mod settings;
pub mod shortcuts;
pub mod text;
pub mod update_check;

use crate::scanner::{has_video_ext, has_video_ext_spec};

verus! {

/// True while a native dialog (folder picker) is open: the panel must not
/// hide on blur while the dialog holds focus.
pub struct DialogOpen(pub std::sync::atomic::AtomicBool);

/// Session-only "keep the panel open" flag, toggled by the pin button.
pub struct Pinned(pub std::sync::atomic::AtomicBool);

/// The index of the first argument after `argv[0]` that names a video by
/// extension.
pub open spec fn first_video_index(args: Seq<String>) -> Option<int> {
    if exists|i: int| 1 <= i < args.len() && has_video_ext_spec(#[trigger] args[i]@) {
        Some(
            choose|i: int|
                1 <= i < args.len() && has_video_ext_spec(#[trigger] args[i]@) && forall|j: int|
                    1 <= j < i ==> !has_video_ext_spec(#[trigger] args[j]@),
        )
    } else {
        None
    }
}

/// First argument (after argv[0]) that names a video by extension. Pure — does
/// not touch the filesystem.
pub fn first_video_arg(args: &[String]) -> (r: Option<String>)
    ensures
        r is None <==> forall|i: int| 1 <= i < args@.len() ==> !has_video_ext_spec(#[trigger] args@[i]@),
        r matches Some(a) ==> exists|i: int|
            1 <= i < args@.len() && has_video_ext_spec(#[trigger] args@[i]@) && a@ == args@[i]@
                && forall|j: int| 1 <= j < i ==> !has_video_ext_spec(#[trigger] args@[j]@),
{
    let mut i: usize = 1;
    while i < args.len()
        invariant
            1 <= i,
            forall|j: int| 1 <= j < i && j < args@.len() ==> !has_video_ext_spec(#[trigger] args@[j]@),
        decreases args.len() - i,
    {
        if has_video_ext(args[i].as_str()) {
            return Some(args[i].clone());
        }
        i = i + 1;
    }
    None
}

/// True only when the end-to-end test-mode variable is exactly `"1"` (the
/// caller passes the already-read value); unset, empty, `"0"` or anything
/// else keeps the test mode off.
pub fn e2e_mode_enabled(var: Option<&str>) -> (r: bool)
    ensures
        r == (var matches Some(v) && v@ == seq!['1']),
{
    match var {
        Some(v) => {
            proof {
                reveal_strlit("1");
                assert("1"@ =~= seq!['1']);
            }
            crate::text::str_eq(v, "1")
        },
        None => false,
    }
}

/// Whether the panel should hide when it loses focus. It stays open while a
/// native dialog is up, while pinned, or while the primary mouse button is
/// held (a drag may be heading to it).
pub fn should_hide_on_blur(dialog_open: bool, pinned: bool, mouse_button_down: bool) -> (r: bool)
    ensures
        r == (!dialog_open && !pinned && !mouse_button_down),
{
    !dialog_open && !pinned && !mouse_button_down
}

} // verus!
