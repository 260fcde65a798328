//! The global shortcuts' decisions: which accelerators are enabled, whether
//! a settings change needs re-registration, the staleness warning, and the
//! localized text of the notifications the shortcuts send.
use vstd::prelude::*;

use crate::settings::Settings;
use crate::text::{
    chars_of, lowercase_of, push_decimal, push_str, str_eq, string_from_chars, to_lowercase,
    trim, decimal,
};

verus! {

broadcast use vstd::string::group_string_axioms;

/// The language a native notification renders in: the two the app ships.
#[derive(Debug, Clone, Copy, PartialEq, Eq, Structural)]
pub enum NotifLang {
    En,
    Uk,
}

pub open spec fn starts_with_uk(s: Seq<char>) -> bool {
    s.len() >= 2 && s[0] == 'u' && s[1] == 'k'
}

pub open spec fn notif_lang(setting: Seq<char>, sys_lang: Seq<char>) -> NotifLang {
    if setting == "uk"@ {
        NotifLang::Uk
    } else if setting == "en"@ {
        NotifLang::En
    } else if starts_with_uk(lowercase_of(sys_lang)) {
        NotifLang::Uk
    } else {
        NotifLang::En
    }
}

/// Maps the persisted locale setting ("system" | "en" | "uk") to a concrete
/// notification language: "en"/"uk" pass through; anything else follows the
/// system language, which is Ukrainian only when its lowercase starts with
/// "uk".
pub fn resolve_notif_lang(setting: &str, sys_lang: &str) -> (r: NotifLang)
    ensures
        r == notif_lang(setting@, sys_lang@),
{
    if str_eq(setting, "uk") {
        return NotifLang::Uk;
    }
    if str_eq(setting, "en") {
        return NotifLang::En;
    }
    let lower = to_lowercase(sys_lang);
    let v = chars_of(lower.as_str());
    if v.len() >= 2 && v[0] == 'u' && v[1] == 'k' {
        NotifLang::Uk
    } else {
        NotifLang::En
    }
}

pub open spec fn no_recent_videos_text(lang: NotifLang) -> Seq<char> {
    match lang {
        NotifLang::En => "No recent videos found"@,
        NotifLang::Uk => "Нещодавніх відео не знайдено"@,
    }
}

/// "No recent videos found" — localized.
pub fn msg_no_recent_videos(lang: NotifLang) -> (r: &'static str)
    ensures
        r@ == no_recent_videos_text(lang),
{
    match lang {
        NotifLang::En => "No recent videos found",
        NotifLang::Uk => "Нещодавніх відео не знайдено",
    }
}

pub open spec fn stale_warning_text(lang: NotifLang, name: Seq<char>, age_minutes: nat) -> Seq<
    char,
> {
    match lang {
        NotifLang::En => "Compressing "@ + name + ", recorded "@ + decimal(age_minutes)
            + "m ago — open Tamp to cancel if that wasn't intended"@,
        NotifLang::Uk => "Стискаємо "@ + name + ", записано "@ + decimal(age_minutes)
            + " хв тому — відкрийте Tamp, щоб скасувати, якщо це не те, що ви хотіли"@,
    }
}

/// The stale-recording warning: the latest video is older than the configured
/// limit, so it probably isn't the clip the user means to compress.
pub fn msg_stale_warning(lang: NotifLang, name: &str, age_minutes: u64) -> (r: String)
    ensures
        r@ == stale_warning_text(lang, name@, age_minutes as nat),
{
    let mut v: Vec<char> = Vec::new();
    match lang {
        NotifLang::En => {
            push_str(&mut v, "Compressing ");
            push_str(&mut v, name);
            push_str(&mut v, ", recorded ");
            push_decimal(&mut v, age_minutes);
            push_str(&mut v, "m ago — open Tamp to cancel if that wasn't intended");
        },
        NotifLang::Uk => {
            push_str(&mut v, "Стискаємо ");
            push_str(&mut v, name);
            push_str(&mut v, ", записано ");
            push_decimal(&mut v, age_minutes);
            push_str(
                &mut v,
                " хв тому — відкрийте Tamp, щоб скасувати, якщо це не те, що ви хотіли",
            );
        },
    }
    string_from_chars(&v)
}

pub open spec fn compress_failed_text(lang: NotifLang, name: Seq<char>, err: Seq<char>) -> Seq<
    char,
> {
    match lang {
        NotifLang::En => "Couldn't compress "@ + name + ": "@ + err,
        NotifLang::Uk => "Не вдалося стиснути "@ + name + ": "@ + err,
    }
}

/// "Couldn't compress {name}: {err}" — localized (the raw error stays as is).
pub fn msg_compress_failed(lang: NotifLang, name: &str, err: &str) -> (r: String)
    ensures
        r@ == compress_failed_text(lang, name@, err@),
{
    let mut v: Vec<char> = Vec::new();
    match lang {
        NotifLang::En => push_str(&mut v, "Couldn't compress "),
        NotifLang::Uk => push_str(&mut v, "Не вдалося стиснути "),
    }
    push_str(&mut v, name);
    push_str(&mut v, ": ");
    push_str(&mut v, err);
    string_from_chars(&v)
}

pub open spec fn enabled_accel(accel: Option<String>) -> Option<Seq<char>> {
    match accel {
        Some(a) => if trim(a@).len() > 0 {
            Some(trim(a@))
        } else {
            None
        },
        None => None,
    }
}

/// An accelerator that is `None` or blank means "shortcut disabled";
/// otherwise the trimmed accelerator.
pub fn enabled(accel: &Option<String>) -> (r: Option<&str>)
    ensures
        r matches Some(s) ==> enabled_accel(*accel) == Some(s@),
        r is None ==> enabled_accel(*accel) is None,
{
    match accel {
        None => None,
        Some(a) => {
            let s = a.as_str();
            let v = chars_of(s);
            let lo = crate::text::trim_start_index(&v, 0, v.len());
            assert(v@.subrange(0, v.len() as int) =~= v@);
            let hi = crate::text::trim_end_index(&v, lo, v.len());
            if lo == hi {
                None
            } else {
                let t = s.substring_char(lo, hi);
                Some(t)
            }
        },
    }
}

/// An optional accelerator as text.
pub open spec fn opt_view(a: Option<String>) -> Option<Seq<char>> {
    match a {
        Some(s) => Some(s@),
        None => None,
    }
}

/// True when re-registering the shortcuts is needed at all: only the two
/// accelerator fields affect them.
pub fn changed(old: &Settings, new: &Settings) -> (r: bool)
    ensures
        r == (opt_view(old.shortcut_compress_latest) != opt_view(new.shortcut_compress_latest)
            || opt_view(old.shortcut_toggle_panel) != opt_view(new.shortcut_toggle_panel)),
{
    !same_accel(&old.shortcut_compress_latest, &new.shortcut_compress_latest) || !same_accel(
        &old.shortcut_toggle_panel,
        &new.shortcut_toggle_panel,
    )
}

fn same_accel(a: &Option<String>, b: &Option<String>) -> (r: bool)
    ensures
        r == (opt_view(*a) == opt_view(*b)),
{
    match (a, b) {
        (None, None) => true,
        (Some(x), Some(y)) => *x == *y,
        _ => false,
    }
}

/// The age (whole minutes) of a recording made at `created_ms` when it is
/// older than `stale_warn_minutes` at `now_ms`; `None` when it is fresh. A
/// creation time in the future counts as age zero.
pub fn stale_age_minutes(now_ms: u64, created_ms: u64, stale_warn_minutes: u32) -> (r: Option<u64>)
    ensures
        ({
            let age: int = if now_ms >= created_ms {
                now_ms - created_ms
            } else {
                0
            };
            &&& r is Some <==> age > stale_warn_minutes * 60_000
            &&& r matches Some(m) ==> m == age / 60_000
        }),
{
    let age_ms = if now_ms >= created_ms {
        now_ms - created_ms
    } else {
        0
    };
    let limit: u64 = (stale_warn_minutes as u64) * 60_000;
    if age_ms > limit {
        Some(age_ms / 60_000)
    } else {
        None
    }
}

/// The first of `LC_ALL`, `LC_MESSAGES`, `LANG` (given as read) that is set
/// and non-empty; empty when none is.
pub fn system_language_from(lc_all: Option<&str>, lc_messages: Option<&str>, lang: Option<&str>) -> (r:
    String)
    ensures
        r@ == (match (lc_all, lc_messages, lang) {
            (Some(a), _, _) if a@.len() > 0 => a@,
            (_, Some(m), _) if m@.len() > 0 => m@,
            (_, _, Some(l)) if l@.len() > 0 => l@,
            _ => Seq::<char>::empty(),
        }),
{
    match lc_all {
        Some(a) => if a.unicode_len() > 0 {
            return a.to_string();
        },
        None => {},
    }
    match lc_messages {
        Some(m) => if m.unicode_len() > 0 {
            return m.to_string();
        },
        None => {},
    }
    match lang {
        Some(l) => if l.unicode_len() > 0 {
            return l.to_string();
        },
        None => {},
    }
    String::new()
}

/// The notification permission as the OS reports it.
#[derive(Debug, Clone, Copy, PartialEq, Eq, Structural)]
pub enum Permission {
    Granted,
    Denied,
    Prompt,
    PromptWithRationale,
}

pub open spec fn permission_text(state: Option<Permission>) -> Seq<char> {
    match state {
        Some(Permission::Granted) => "granted"@,
        Some(Permission::Denied) => "denied"@,
        Some(Permission::Prompt) => "prompt"@,
        Some(Permission::PromptWithRationale) => "prompt-with-rationale"@,
        None => "unsupported"@,
    }
}

/// The permission as the lowercase word the panel branches on;
/// "unsupported" when it could not be read (`None`).
pub fn permission_label(state: Option<Permission>) -> (r: &'static str)
    ensures
        r@ == permission_text(state),
{
    match state {
        Some(Permission::Granted) => "granted",
        Some(Permission::Denied) => "denied",
        Some(Permission::Prompt) => "prompt",
        Some(Permission::PromptWithRationale) => "prompt-with-rationale",
        None => "unsupported",
    }
}

/// A notification may be shown once the permission reads granted, either
/// already or after asking (`asked` is the answer to the request made when
/// it was not granted; `None` when it could not be read).
pub fn may_notify(state: Option<Permission>, asked: Option<Permission>) -> (r: bool)
    ensures
        r == (state == Some(Permission::Granted) || (state is Some && asked == Some(
            Permission::Granted,
        ))),
{
    match state {
        Some(Permission::Granted) => true,
        Some(_) => match asked {
            Some(Permission::Granted) => true,
            _ => false,
        },
        None => false,
    }
}

/// The recording the compress-latest shortcut takes: the first (newest) row
/// of the listing that is not itself an output; `None` when there is none.
pub fn latest_source(is_output: &Vec<bool>) -> (r: Option<usize>)
    ensures
        match r {
            Some(i) => i < is_output@.len() && !is_output@[i as int] && forall|j: int|
                0 <= j < i ==> #[trigger] is_output@[j],
            None => forall|j: int| 0 <= j < is_output@.len() ==> #[trigger] is_output@[j],
        },
{
    let mut i: usize = 0;
    while i < is_output.len()
        invariant
            i <= is_output@.len(),
            forall|j: int| 0 <= j < i ==> #[trigger] is_output@[j],
        decreases is_output.len() - i,
    {
        if !is_output[i] {
            return Some(i);
        }
        i = i + 1;
    }
    None
}

} // verus!
