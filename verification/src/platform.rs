//! The platform-neutral parts of the per-OS strategies: the hardware encoder
//! candidates each OS offers, the tray ink, and the layout-aware rewriting of
//! global-shortcut accelerators.
use vstd::prelude::*;

use crate::text::{chars_of, decimal, push_decimal, push_str, string_from_chars};

verus! {

/// One hardware H.264 encoder an OS may offer; availability is probed against
/// the bundled ffmpeg before use.
pub struct HwCandidate {
    /// ffmpeg encoder name as listed by `ffmpeg -encoders`.
    pub name: &'static str,
    /// Extra codec args appended after `-c:v <name>`.
    pub extra_args: &'static [&'static str],
}

/// The macOS strategy.
pub struct MacOs;

/// The Windows strategy.
pub struct Windows;

impl MacOs {
    /// VideoToolbox only; `-allow_sw 1` lets it fall back to Apple's software
    /// encoder when no hardware session is available.
    pub fn hw_candidates(&self) -> (r: Vec<HwCandidate>)
        ensures
            r@.len() == 1,
            r@[0].name@ == "h264_videotoolbox"@,
            r@[0].extra_args@.len() == 2,
            r@[0].extra_args@[0]@ == "-allow_sw"@,
            r@[0].extra_args@[1]@ == "1"@,
    {
        let args: &'static [&'static str] = &["-allow_sw", "1"];
        let mut v: Vec<HwCandidate> = Vec::new();
        v.push(HwCandidate { name: "h264_videotoolbox", extra_args: args });
        v
    }
}

impl Windows {
    /// Vendor order: dedicated encoders first, Media Foundation last; none
    /// needs extra codec args.
    pub fn hw_candidates(&self) -> (r: Vec<HwCandidate>)
        ensures
            r@.len() == 4,
            r@[0].name@ == "h264_nvenc"@,
            r@[1].name@ == "h264_qsv"@,
            r@[2].name@ == "h264_amf"@,
            r@[3].name@ == "h264_mf"@,
            forall|i: int| 0 <= i < 4 ==> (#[trigger] r@[i]).extra_args@.len() == 0,
    {
        let none: &'static [&'static str] = &[];
        let mut v: Vec<HwCandidate> = Vec::new();
        v.push(HwCandidate { name: "h264_nvenc", extra_args: none });
        v.push(HwCandidate { name: "h264_qsv", extra_args: none });
        v.push(HwCandidate { name: "h264_amf", extra_args: none });
        v.push(HwCandidate { name: "h264_mf", extra_args: none });
        v
    }

    /// Windows hotkeys already go through the active layout, so the
    /// configured accelerator is used as typed.
    pub fn resolve_accelerator(&self, accelerator: &str) -> (r: String)
        ensures
            r@ == accelerator@,
    {
        accelerator.to_string()
    }
}

/// Ink for the Windows tray glyph: near-black on a light taskbar, white on the
/// default dark one.
pub fn tray_ink(taskbar_is_light: bool) -> (r: [u8; 3])
    ensures
        taskbar_is_light ==> r@ == seq![0x26u8, 0x26u8, 0x2bu8],
        !taskbar_is_light ==> r@ == seq![0xffu8, 0xffu8, 0xffu8],
{
    if taskbar_is_light {
        [0x26, 0x26, 0x2b]
    } else {
        [0xff, 0xff, 0xff]
    }
}

/// The QWERTY/ANSI character at macOS virtual keycode `k` (the fixed
/// `kVK_ANSI_*` table, letters and digits only).
pub open spec fn ansi_table(k: u16) -> Option<char> {
    match k {
        0 => Some('a'),
        1 => Some('s'),
        2 => Some('d'),
        3 => Some('f'),
        4 => Some('h'),
        5 => Some('g'),
        6 => Some('z'),
        7 => Some('x'),
        8 => Some('c'),
        9 => Some('v'),
        11 => Some('b'),
        12 => Some('q'),
        13 => Some('w'),
        14 => Some('e'),
        15 => Some('r'),
        16 => Some('y'),
        17 => Some('t'),
        18 => Some('1'),
        19 => Some('2'),
        20 => Some('3'),
        21 => Some('4'),
        22 => Some('6'),
        23 => Some('5'),
        25 => Some('9'),
        26 => Some('7'),
        28 => Some('8'),
        29 => Some('0'),
        31 => Some('o'),
        32 => Some('u'),
        34 => Some('i'),
        35 => Some('p'),
        37 => Some('l'),
        38 => Some('j'),
        40 => Some('k'),
        45 => Some('n'),
        46 => Some('m'),
        _ => None,
    }
}

/// The ANSI character at macOS virtual keycode `keycode`; punctuation and
/// function keys give `None`.
pub fn ansi_char(keycode: u16) -> (r: Option<char>)
    ensures
        r == ansi_table(keycode),
{
    match keycode {
        0 => Some('a'),
        1 => Some('s'),
        2 => Some('d'),
        3 => Some('f'),
        4 => Some('h'),
        5 => Some('g'),
        6 => Some('z'),
        7 => Some('x'),
        8 => Some('c'),
        9 => Some('v'),
        11 => Some('b'),
        12 => Some('q'),
        13 => Some('w'),
        14 => Some('e'),
        15 => Some('r'),
        16 => Some('y'),
        17 => Some('t'),
        18 => Some('1'),
        19 => Some('2'),
        20 => Some('3'),
        21 => Some('4'),
        22 => Some('6'),
        23 => Some('5'),
        25 => Some('9'),
        26 => Some('7'),
        28 => Some('8'),
        29 => Some('0'),
        31 => Some('o'),
        32 => Some('u'),
        34 => Some('i'),
        35 => Some('p'),
        37 => Some('l'),
        38 => Some('j'),
        40 => Some('k'),
        45 => Some('n'),
        46 => Some('m'),
        _ => None,
    }
}

/// The ANSI token to register so a shortcut fires on the key that types
/// `target` in the active layout, given the keycode that produces `target`
/// there (`None` when no key does). `None` also when that key's ANSI letter
/// is `target` itself, so a QWERTY layout is left as it is.
pub fn layout_token(target: char, keycode: Option<u16>) -> (r: Option<char>)
    ensures
        r == (match keycode {
            Some(k) => match ansi_table(k) {
                Some(a) => if a != target { Some(a) } else { None },
                None => None,
            },
            None => None,
        }),
{
    match keycode {
        Some(k) => match ansi_char(k) {
            Some(a) => if a != target { Some(a) } else { None },
            None => None,
        },
        None => None,
    }
}

/// `c` with ASCII `A`..`Z` lowered.
pub open spec fn lower_ascii(c: char) -> char {
    if 'A' <= c && c <= 'Z' { ((c as u32) + 32) as char } else { c }
}

/// `c` with ASCII `a`..`z` raised.
pub open spec fn upper_ascii(c: char) -> char {
    if 'a' <= c && c <= 'z' { ((c as u32) - 32) as char } else { c }
}

fn to_lower_ascii(c: char) -> (r: char)
    ensures
        r == lower_ascii(c),
{
    if 'A' <= c && c <= 'Z' {
        let b: u8 = (c as u8) + 32;
        b as char
    } else {
        c
    }
}

fn to_upper_ascii(c: char) -> (r: char)
    ensures
        r == upper_ascii(c),
{
    if 'a' <= c && c <= 'z' {
        let b: u8 = (c as u8) - 32;
        b as char
    } else {
        c
    }
}

/// Index of the last `c` in `s`, or -1.
pub open spec fn last_index_of(s: Seq<char>, c: char) -> int
    decreases s.len(),
{
    if s.len() == 0 {
        -1
    } else if s.last() == c {
        s.len() - 1
    } else {
        last_index_of(s.drop_last(), c)
    }
}

proof fn lemma_last_index_of(s: Seq<char>, c: char)
    ensures
        -1 <= last_index_of(s, c) < s.len(),
        last_index_of(s, c) >= 0 ==> s[last_index_of(s, c)] == c,
        forall|j: int| last_index_of(s, c) < j < s.len() ==> s[j] != c,
    decreases s.len(),
{
    if s.len() > 0 && s.last() != c {
        let t = s.drop_last();
        lemma_last_index_of(t, c);
        assert forall|j: int| last_index_of(s, c) < j < s.len() implies s[j] != c by {
            if j < t.len() {
                assert(t[j] == s[j]);
            }
        }
    }
}

/// The accelerator has modifiers and a single-character key after its last
/// `+` (`CmdOrCtrl+Alt+T`), unlike a bare key or a named key (`F1`, `Space`).
pub open spec fn has_char_key(s: Seq<char>) -> bool {
    let p = last_index_of(s, '+');
    p >= 0 && s.len() == p + 2
}

/// Replaces the trailing key token of an accelerator using `map`, keeping the
/// modifiers: `map` receives the lowercased key character and returns its
/// replacement (registered uppercased), or `None` to leave the accelerator
/// untouched. A bare key, or a key that is not a single character, is
/// returned as it is without calling `map`.
pub fn rewrite_accelerator_key<F: FnOnce(char) -> Option<char>>(accelerator: &str, map: F) -> (r:
    String)
    requires
        forall|c: char| #[trigger] map.requires((c,)),
    ensures
        !has_char_key(accelerator@) ==> r@ == accelerator@,
        has_char_key(accelerator@) ==> exists|m: Option<char>|
            #[trigger] map.ensures((lower_ascii(accelerator@.last()),), m) && r@ == (match m {
                Some(rep) => accelerator@.drop_last().push(upper_ascii(rep)),
                None => accelerator@,
            }),
{
    let v = chars_of(accelerator);
    let n = v.len();
    let mut i = n;
    while i > 0 && v[i - 1] != '+'
        invariant
            i <= n == v@.len(),
            v@ == accelerator@,
            forall|j: int| i <= j < n ==> v@[j] != '+',
        decreases i,
    {
        i = i - 1;
    }
    proof {
        lemma_last_index_of(v@, '+');
    }
    // `i` is one past the last '+', or 0 when there is none.
    if i == 0 || n - i != 1 {
        return accelerator.to_string();
    }
    proof {
        let p = last_index_of(v@, '+');
        if p > i - 1 {
            assert(v@[p] != '+');
        }
        if p < i - 1 {
            assert(v@[i - 1] != '+');
        }
        assert(has_char_key(accelerator@));
        assert(v@.take(i as int) =~= v@.drop_last());
    }
    let key = v[i];
    let m = map(to_lower_ascii(key));
    assert(map.ensures((lower_ascii(key),), m));
    match m {
        Some(rep) => {
            let mut out: Vec<char> = Vec::new();
            let mut k: usize = 0;
            while k < i
                invariant
                    k <= i < n == v@.len(),
                    out@ == v@.take(k as int),
                    v@ == accelerator@,
                    m == Some(rep),
                    map.ensures((lower_ascii(key),), m),
                    v@.take(i as int) =~= v@.drop_last(),
                    key == v@.last(),
                decreases i - k,
            {
                out.push(v[k]);
                k = k + 1;
                assert(out@ =~= v@.take(k as int));
            }
            out.push(to_upper_ascii(rep));
            let res = string_from_chars(&out);
            assert(res@ == v@.take(i as int).push(upper_ascii(rep)));
            assert(map.ensures((lower_ascii(key),), m));
            res
        },
        None => accelerator.to_string(),
    }
}

/// The tray text next to the macOS menu-bar icon while encoding: the whole
/// percent, plus the number of queued jobs when there are any.
pub fn macos_tray_title(percent: u32, queued: usize) -> (r: String)
    ensures
        r@ == decimal(percent as nat) + "%"@ + if queued > 0 {
            " (+"@ + decimal(queued as nat) + ")"@
        } else {
            Seq::<char>::empty()
        },
{
    let mut v: Vec<char> = Vec::new();
    push_decimal(&mut v, percent as u64);
    push_str(&mut v, "%");
    if queued > 0 {
        push_str(&mut v, " (+");
        push_decimal(&mut v, queued as u64);
        push_str(&mut v, ")");
    }
    string_from_chars(&v)
}

/// The Windows tray tooltip while encoding.
pub fn windows_tray_tooltip(percent: u32, queued: usize) -> (r: String)
    ensures
        r@ == "tamp — "@ + decimal(percent as nat) + "%"@ + if queued > 0 {
            " (+"@ + decimal(queued as nat) + " queued)"@
        } else {
            Seq::<char>::empty()
        },
{
    let mut v: Vec<char> = Vec::new();
    push_str(&mut v, "tamp — ");
    push_decimal(&mut v, percent as u64);
    push_str(&mut v, "%");
    if queued > 0 {
        push_str(&mut v, " (+");
        push_decimal(&mut v, queued as u64);
        push_str(&mut v, " queued)");
    }
    string_from_chars(&v)
}

/// The displayed tray state when idle.
pub const TRAY_IDLE: u64 = 0xFFFF_FFFF_FFFF_FFFF;

/// The displayed tray state before the first paint.
pub const TRAY_NEVER_SHOWN: u64 = 0xFFFF_FFFF_FFFF_FFFE;

/// The queue depth as displayed: capped at `u32::MAX`.
pub open spec fn shown_queue(queued: usize) -> int {
    if queued > u32::MAX { u32::MAX as int } else { queued as int }
}

/// The Windows tray repaints only when this key changes: the whole percent
/// and the (capped) queue depth while encoding, `TRAY_IDLE` when idle.
pub fn tray_state_key(progress: Option<(u32, usize)>) -> (r: u64)
    requires
        progress matches Some((p, _)) ==> p <= 100,
    ensures
        r == match progress {
            Some((p, q)) => p as int * 0x1_0000_0000 + shown_queue(q),
            None => TRAY_IDLE as int,
        },
{
    match progress {
        Some((p, q)) => {
            let shown: u64 = if q > 0xFFFF_FFFF { 0xFFFF_FFFF } else { q as u64 };
            p as u64 * 0x1_0000_0000 + shown
        },
        None => TRAY_IDLE,
    }
}

/// Two progress states get the same key exactly when they display the same
/// percent and queue depth, and no progress state is mistaken for idle or
/// for the never-painted seed.
pub proof fn lemma_tray_key_tracks_display(p1: u32, q1: usize, p2: u32, q2: usize)
    requires
        p1 <= 100,
        p2 <= 100,
    ensures
        (p1 as int * 0x1_0000_0000 + shown_queue(q1) == p2 as int * 0x1_0000_0000 + shown_queue(q2))
            <==> (p1 == p2 && shown_queue(q1) == shown_queue(q2)),
        p1 as int * 0x1_0000_0000 + shown_queue(q1) < TRAY_NEVER_SHOWN,
{
    let a = p1 as int * 0x1_0000_0000 + shown_queue(q1);
    let b = p2 as int * 0x1_0000_0000 + shown_queue(q2);
    if a == b && p1 != p2 {
        if p1 < p2 {
            assert(p1 as int * 0x1_0000_0000 + 0x1_0000_0000 <= p2 as int * 0x1_0000_0000) by (nonlinear_arith)
                requires p1 < p2;
        } else {
            assert(p2 as int * 0x1_0000_0000 + 0x1_0000_0000 <= p1 as int * 0x1_0000_0000) by (nonlinear_arith)
                requires p2 < p1;
        }
    }
}

} // verus!
