//! The integer side of an encode plan: the video filter chain handed to
//! ffmpeg, the audio budget per format, the preset hash, the collision-free
//! output and part names, and which numbered siblings of an output are
//! stale. (The video bitrate budget is floating-point arithmetic over the
//! probed duration and stays with the caller.)
use vstd::prelude::*;

use crate::scanner::{
    all_digits, is_digit, is_hash, is_lower_hex, is_name, lemma_emitted_names_are_recognised,
    marker, output_suffix_at, suffixed,
};
use crate::settings::{OutputFormat, Preset, SplitMode, StaticSplitBy};
use crate::text::{chars_of, decimal, push_decimal, push_str, string_from_chars};

verus! {

/// std's `PathBuf`, carried opaquely.
#[verifier::external_type_specification]
#[verifier::external_body]
pub struct ExPathBuf(std::path::PathBuf);

/// What one encode runs with.
pub struct EncodePlan {
    pub video_kbit: u32,
    pub audio_kbit: u32,
    pub vf: Option<String>,
    pub output: std::path::PathBuf,
}

/// The scaling filter: cap the width when the source is wider than
/// `max_width`; otherwise scale by `scale_percent` when it is not 100;
/// otherwise only round both dimensions down to even (4:2:0 needs them even).
pub open spec fn scale_filter(width: u32, max_width: Option<u32>, scale_percent: Option<u32>) -> Seq<
    char,
> {
    match max_width {
        Some(w) if width > w => "scale='trunc(min(iw,"@ + decimal(w as nat) + ")/2)*2':-2"@,
        _ => match scale_percent {
            Some(p) if p != 100 => "scale=trunc(iw*"@ + decimal(p as nat) + "/100/2)*2:-2"@,
            _ => "scale=trunc(iw/2)*2:trunc(ih/2)*2"@,
        },
    }
}

/// The full `-vf` chain: scaling, then the frame-rate cap when one applies,
/// then always `format=yuv420p` last.
pub open spec fn filter_chain(
    width: u32,
    max_width: Option<u32>,
    scale_percent: Option<u32>,
    fps_cap: Option<u32>,
) -> Seq<char> {
    scale_filter(width, max_width, scale_percent) + match fps_cap {
        Some(f) => ",fps="@ + decimal(f as nat),
        None => Seq::<char>::empty(),
    } + ",format=yuv420p"@
}

/// The video filter chain for a source `width` pixels wide. `fps_cap` is the
/// preset's frame-rate cap when the source runs faster than it (`None` when
/// there is no cap or the source is already at or below it).
pub fn video_filters(
    width: u32,
    max_width: Option<u32>,
    scale_percent: Option<u32>,
    fps_cap: Option<u32>,
) -> (r: String)
    ensures
        r@ == filter_chain(width, max_width, scale_percent, fps_cap),
{
    let mut v: Vec<char> = Vec::new();
    let capped = match max_width {
        Some(w) => width > w,
        None => false,
    };
    if capped {
        let w = match max_width {
            Some(w) => w,
            None => 0,
        };
        push_str(&mut v, "scale='trunc(min(iw,");
        push_decimal(&mut v, w as u64);
        push_str(&mut v, ")/2)*2':-2");
    } else {
        let percent = match scale_percent {
            Some(p) => p != 100,
            None => false,
        };
        if percent {
            let p = match scale_percent {
                Some(p) => p,
                None => 100,
            };
            push_str(&mut v, "scale=trunc(iw*");
            push_decimal(&mut v, p as u64);
            push_str(&mut v, "/100/2)*2:-2");
        } else {
            push_str(&mut v, "scale=trunc(iw/2)*2:trunc(ih/2)*2");
        }
    }
    assert(v@ == scale_filter(width, max_width, scale_percent));
    let ghost scaled = v@;
    match fps_cap {
        Some(f) => {
            push_str(&mut v, ",fps=");
            push_decimal(&mut v, f as u64);
        },
        None => {},
    }
    push_str(&mut v, ",format=yuv420p");
    assert(v@ =~= filter_chain(width, max_width, scale_percent, fps_cap));
    string_from_chars(&v)
}

/// Every chain ends with the 8-bit 4:2:0 conversion.
pub proof fn lemma_filters_end_with_yuv420p(
    width: u32,
    max_width: Option<u32>,
    scale_percent: Option<u32>,
    fps_cap: Option<u32>,
)
    ensures
        ({
            let c = filter_chain(width, max_width, scale_percent, fps_cap);
            c.len() >= ",format=yuv420p"@.len() && c.skip(c.len() - ",format=yuv420p"@.len())
                == ",format=yuv420p"@
        }),
{
    let c = filter_chain(width, max_width, scale_percent, fps_cap);
    let tail = ",format=yuv420p"@;
    assert(c.skip(c.len() - tail.len()) =~= tail);
}

// ---------------------------------------------------------------------------
// Output names

/// The preset name as it appears in output names, with the state of the
/// scan so far: parentheses are dropped, runs of spaces become one space,
/// and leading and trailing spaces go (`true` while a space is pending
/// between two words).
pub open spec fn name_scan(s: Seq<char>) -> (Seq<char>, bool)
    decreases s.len(),
{
    if s.len() == 0 {
        (Seq::empty(), false)
    } else {
        let (o, pending) = name_scan(s.drop_last());
        let c = s.last();
        if c == '(' || c == ')' {
            (o, pending)
        } else if c == ' ' {
            (o, o.len() > 0)
        } else if pending {
            (o + seq![' ', c], false)
        } else {
            (o.push(c), false)
        }
    }
}

/// `Test Split (1MB x3)` names outputs as `Test Split 1MB x3`.
pub open spec fn name_token(s: Seq<char>) -> Seq<char> {
    name_scan(s).0
}

spec fn scan_ok(o: Seq<char>, pending: bool) -> bool {
    &&& pending ==> o.len() > 0
    &&& o.len() > 0 ==> o[0] != ' ' && o[o.len() - 1] != ' '
    &&& forall|i: int| 0 <= i < o.len() ==> #[trigger] o[i] != '(' && o[i] != ')'
    &&& forall|i: int| 0 <= i < o.len() - 1 ==> !(#[trigger] o[i] == ' ' && o[i + 1] == ' ')
}

proof fn lemma_name_scan(s: Seq<char>)
    ensures
        scan_ok(name_scan(s).0, name_scan(s).1),
    decreases s.len(),
{
    if s.len() > 0 {
        lemma_name_scan(s.drop_last());
        let (o, pending) = name_scan(s.drop_last());
        let c = s.last();
        if c != '(' && c != ')' && c != ' ' {
            if pending {
                let r = o + seq![' ', c];
                assert(r[o.len() as int] == ' ');
                assert(r[o.len() as int + 1] == c);
                assert forall|i: int| 0 <= i < r.len() - 1 implies !(#[trigger] r[i] == ' ' && r[i
                    + 1] == ' ') by {
                    if i < o.len() - 1 {
                        assert(r[i] == o[i] && r[i + 1] == o[i + 1]);
                    } else if i == o.len() - 1 {
                        assert(r[i] == o[i]);
                    }
                }
                assert forall|i: int| 0 <= i < r.len() implies #[trigger] r[i] != '(' && r[i]
                    != ')' by {
                    if i < o.len() {
                        assert(r[i] == o[i]);
                    }
                }
            } else {
                let r = o.push(c);
                assert forall|i: int| 0 <= i < r.len() - 1 implies !(#[trigger] r[i] == ' ' && r[i
                    + 1] == ' ') by {
                    if i < o.len() - 1 {
                        assert(r[i] == o[i] && r[i + 1] == o[i + 1]);
                    }
                }
                assert forall|i: int| 0 <= i < r.len() implies #[trigger] r[i] != '(' && r[i]
                    != ')' by {
                    if i < o.len() {
                        assert(r[i] == o[i]);
                    }
                }
            }
        }
    }
}

/// A non-empty name token is a preset name as the recognised output names
/// spell it.
pub proof fn lemma_name_token_is_name(s: Seq<char>)
    requires
        name_token(s).len() > 0,
    ensures
        is_name(name_token(s)),
{
    lemma_name_scan(s);
}

/// The name token of a preset name.
pub fn preset_name_token(name: &str) -> (r: String)
    ensures
        r@ == name_token(name@),
{
    let cs = chars_of(name);
    let mut out: Vec<char> = Vec::new();
    let mut pending = false;
    let mut i: usize = 0;
    while i < cs.len()
        invariant
            i <= cs@.len(),
            cs@ == name@,
            (out@, pending) == name_scan(name@.take(i as int)),
        decreases cs.len() - i,
    {
        let c = cs[i];
        assert(name@.take(i + 1).drop_last() =~= name@.take(i as int));
        assert(name@.take(i + 1).last() == c);
        if c == '(' || c == ')' {
        } else if c == ' ' {
            pending = out.len() > 0;
        } else {
            if pending {
                out.push(' ');
            }
            out.push(c);
            pending = false;
        }
        i = i + 1;
    }
    assert(name@.take(cs@.len() as int) =~= name@);
    string_from_chars(&out)
}

/// The tokens of the preset's key inside an output name's parentheses: its
/// name token when there is one, then its hash.
pub open spec fn key_tokens(name: Seq<char>, hash: Seq<char>) -> Seq<char> {
    if name.len() == 0 {
        seq![' '] + hash
    } else {
        seq![' '] + name + seq![' '] + hash
    }
}

/// The tokens inside an output name's parentheses after `tamped`: the key,
/// then ` N` for the N-th candidate.
pub open spec fn output_tokens(name: Seq<char>, hash: Seq<char>, counter: Option<u32>) -> Seq<
    char,
> {
    key_tokens(name, hash) + match counter {
        Some(n) => seq![' '] + decimal(n as nat),
        None => Seq::<char>::empty(),
    }
}

/// `<stem> (tamped <name> <hash>).<ext>`, or `<stem> (tamped <name> <hash> N).<ext>`.
pub open spec fn output_name(
    stem: Seq<char>,
    name: Seq<char>,
    hash: Seq<char>,
    ext: Seq<char>,
    counter: Option<u32>,
) -> Seq<char> {
    suffixed(stem, output_tokens(name, hash, counter)) + seq!['.'] + ext
}

fn push_key(v: &mut Vec<char>, name: &str, hash: &str)
    ensures
        final(v)@ == old(v)@ + key_tokens(name@, hash@),
{
    v.push(' ');
    let mut cs = chars_of(name);
    if cs.len() > 0 {
        v.append(&mut cs);
        v.push(' ');
    }
    push_str(v, hash);
    assert(v@ =~= old(v)@ + key_tokens(name@, hash@));
}

/// The output file name for an input with file stem `stem`, encoded with a
/// preset whose name token is `name` and whose hash is `hash`, to a file of
/// extension `ext`: the first candidate has no counter, later ones count up
/// from 2.
pub fn output_file_name(stem: &str, name: &str, hash: &str, ext: &str, counter: Option<u32>) -> (r:
    String)
    ensures
        r@ == output_name(stem@, name@, hash@, ext@, counter),
{
    let mut v: Vec<char> = Vec::new();
    push_str(&mut v, stem);
    push_str(&mut v, " (tamped");
    proof {
        reveal_strlit(" (tamped");
    }
    assert(" (tamped"@ =~= marker());
    push_key(&mut v, name, hash);
    match counter {
        Some(n) => {
            v.push(' ');
            push_decimal(&mut v, n as u64);
        },
        None => {},
    }
    v.push(')');
    v.push('.');
    push_str(&mut v, ext);
    assert(v@ =~= output_name(stem@, name@, hash@, ext@, counter));
    string_from_chars(&v)
}

/// The stem of every output name (the name without its extension) is
/// recognised as a tamped output whose original stem is exactly `stem`.
pub proof fn lemma_output_names_are_recognised(
    stem: Seq<char>,
    name: Seq<char>,
    hash: Seq<char>,
    counter: Option<u32>,
)
    requires
        name.len() == 0 || is_name(name),
        is_hash(hash),
    ensures
        forall|k: int|
            output_suffix_at(suffixed(stem, output_tokens(name, hash, counter)), k) <==> k
                == stem.len(),
{
    let n: nat = match counter {
        Some(c) => c as nat,
        None => 0,
    };
    let some_name = if name.len() == 0 {
        seq!['x']
    } else {
        name
    };
    lemma_emitted_names_are_recognised(stem, some_name, hash, n, 0, 0);
    let t = output_tokens(name, hash, counter);
    if name.len() == 0 {
        match counter {
            Some(c) => {
                assert(t =~= seq![' '] + hash + seq![' '] + decimal(n));
            },
            None => {
                assert(t =~= seq![' '] + hash);
            },
        }
    } else {
        match counter {
            Some(c) => {
                assert(t =~= seq![' '] + name + seq![' '] + hash + seq![' '] + decimal(n));
            },
            None => {
                assert(t =~= seq![' '] + name + seq![' '] + hash);
            },
        }
    }
}

/// The `k`-th name tried for an output: first without a counter, then with
/// counters 2, 3, … up to `u32::MAX`.
pub open spec fn candidate(k: int) -> Option<u32> {
    if k == 0 {
        None
    } else {
        Some((k + 1) as u32)
    }
}

/// How many candidates there are: the bare name and the counters
/// 2..=`u32::MAX`.
pub open spec fn candidate_count() -> int {
    u32::MAX as int
}

/// A probe of the name `name` answered `answer`.
pub open spec fn probed<F: Fn(&str) -> bool>(taken: F, name: Seq<char>, answer: bool) -> bool {
    exists|s: &str| s@ == name && #[trigger] taken.ensures((s,), answer)
}

/// The first output name that `taken` reports free, trying the name
/// without a counter first and then counters from 2; `None` only when every
/// candidate up to `u32::MAX` is taken.
pub fn unique_output_name<F: Fn(&str) -> bool>(
    stem: &str,
    name: &str,
    hash: &str,
    ext: &str,
    taken: F,
) -> (r: Option<String>)
    requires
        forall|s: &str| #[trigger] taken.requires((s,)),
    ensures
        r matches Some(out) ==> exists|k: int|
            0 <= k < candidate_count() && out@ == output_name(
                stem@,
                name@,
                hash@,
                ext@,
                #[trigger] candidate(k),
            ) && probed(taken, out@, false) && forall|j: int|
                0 <= j < k ==> probed(
                    taken,
                    output_name(stem@, name@, hash@, ext@, #[trigger] candidate(j)),
                    true,
                ),
        r is None ==> forall|j: int|
            0 <= j < candidate_count() ==> probed(
                taken,
                output_name(stem@, name@, hash@, ext@, #[trigger] candidate(j)),
                true,
            ),
{
    let first = output_file_name(stem, name, hash, ext, None);
    let t = taken(first.as_str());
    assert(probed(taken, first@, t));
    if !t {
        assert(output_name(stem@, name@, hash@, ext@, candidate(0)) == first@);
        return Some(first);
    }
    let mut n: u32 = 2;
    loop
        invariant
            2 <= n,
            forall|s: &str| #[trigger] taken.requires((s,)),
            forall|j: int|
                0 <= j < n - 1 ==> probed(
                    taken,
                    output_name(stem@, name@, hash@, ext@, #[trigger] candidate(j)),
                    true,
                ),
        decreases u32::MAX - n,
    {
        let out = output_file_name(stem, name, hash, ext, Some(n));
        let t = taken(out.as_str());
        assert(probed(taken, out@, t));
        assert(candidate(n - 1) == Some(n));
        if !t {
            return Some(out);
        }
        if n == u32::MAX {
            return None;
        }
        n = n + 1;
    }
}

/// The folder a split job's parts go to: `<stem> (tamped <name> <hash>)`.
pub open spec fn part_folder_name(stem: Seq<char>, name: Seq<char>, hash: Seq<char>) -> Seq<char> {
    suffixed(stem, key_tokens(name, hash))
}

/// The folder name for a split job's parts.
pub fn part_folder_file_name(stem: &str, name: &str, hash: &str) -> (r: String)
    ensures
        r@ == part_folder_name(stem@, name@, hash@),
{
    let mut v: Vec<char> = Vec::new();
    push_str(&mut v, stem);
    push_str(&mut v, " (tamped");
    proof {
        reveal_strlit(" (tamped");
    }
    assert(" (tamped"@ =~= marker());
    push_key(&mut v, name, hash);
    v.push(')');
    assert(v@ =~= part_folder_name(stem@, name@, hash@));
    string_from_chars(&v)
}

/// Part `i` (from 1) inside the folder: `<stem> <i>.<ext>`.
pub open spec fn part_file_name_spec(stem: Seq<char>, i: u32, ext: Seq<char>) -> Seq<char> {
    stem + seq![' '] + decimal(i as nat) + seq!['.'] + ext
}

/// The file name of part `i` (from 1) inside a split job's folder.
pub fn part_file_name(stem: &str, i: u32, ext: &str) -> (r: String)
    ensures
        r@ == part_file_name_spec(stem@, i, ext@),
{
    let mut v: Vec<char> = Vec::new();
    push_str(&mut v, stem);
    v.push(' ');
    push_decimal(&mut v, i as u64);
    v.push('.');
    push_str(&mut v, ext);
    assert(v@ =~= part_file_name_spec(stem@, i, ext@));
    string_from_chars(&v)
}

// ---------------------------------------------------------------------------
// Audio budget

/// Whether the format's encode is sized by a bitrate budget: a gif is not
/// (its size is reached by shrinking palette attempts).
pub open spec fn bitrate_targeted_spec(format: OutputFormat) -> bool {
    format != OutputFormat::Gif
}

pub fn bitrate_targeted(format: OutputFormat) -> (r: bool)
    ensures
        r == bitrate_targeted_spec(format),
{
    match format {
        OutputFormat::Gif => false,
        _ => true,
    }
}

/// The audio bitrate a plan spends: none for a gif, a stripped track or a
/// source without audio; 64 kbit/s of opus for webm, 96 kbit/s of aac for
/// mp4.
pub open spec fn audio_budget(format: OutputFormat, strip_audio: bool, has_audio: bool) -> u32 {
    if format == OutputFormat::Gif || strip_audio || !has_audio {
        0
    } else if format == OutputFormat::Webm {
        64
    } else {
        96
    }
}

pub fn audio_kbit(format: OutputFormat, strip_audio: bool, has_audio: bool) -> (r: u32)
    ensures
        r == audio_budget(format, strip_audio, has_audio),
{
    match format {
        OutputFormat::Gif => 0,
        _ => {
            if strip_audio || !has_audio {
                0
            } else {
                match format {
                    OutputFormat::Webm => 64,
                    _ => 96,
                }
            }
        },
    }
}

// ---------------------------------------------------------------------------
// The preset hash

pub open spec fn opt_words(o: Option<u32>) -> Seq<u32> {
    match o {
        Some(v) => seq![1u32, v],
        None => seq![0u32, 0u32],
    }
}

pub open spec fn format_word(f: OutputFormat) -> u32 {
    match f {
        OutputFormat::Mp4 => 0,
        OutputFormat::Webm => 1,
        OutputFormat::Gif => 2,
    }
}

pub open spec fn mode_word(m: SplitMode) -> u32 {
    match m {
        SplitMode::Off => 0,
        SplitMode::Smart => 1,
        SplitMode::Static => 2,
    }
}

pub open spec fn by_word(b: StaticSplitBy) -> u32 {
    match b {
        StaticSplitBy::Parts => 0,
        StaticSplitBy::Seconds => 1,
    }
}

/// The encode settings of a preset as 32-bit words: the target's bits, the
/// three caps (presence, value), audio stripping, the format and the split.
/// The preset's id and display name are not settings.
pub open spec fn preset_words(p: Preset) -> Seq<u32> {
    seq![(p.target_mb_bits % 0x1_0000_0000) as u32, (p.target_mb_bits / 0x1_0000_0000) as u32]
        + opt_words(p.max_fps) + opt_words(p.max_width) + opt_words(p.scale_percent) + seq![
        if p.strip_audio {
            1u32
        } else {
            0u32
        },
        format_word(p.format),
        mode_word(p.split.mode),
        by_word(p.split.by),
        p.split.parts,
        p.split.seconds,
    ]
}

/// One FNV-1a step over a 32-bit word.
pub open spec fn fnv_step(h: u32, w: u32) -> u32 {
    (((h ^ w) as int * 16777619) % 0x1_0000_0000) as u32
}

/// FNV-1a over `ws`.
pub open spec fn fnv(ws: Seq<u32>) -> u32
    decreases ws.len(),
{
    if ws.len() == 0 {
        2166136261u32
    } else {
        fnv_step(fnv(ws.drop_last()), ws.last())
    }
}

/// The two halves of `h` added, modulo 2^16.
pub open spec fn fold16(h: u32) -> nat {
    ((h / 65536 + h % 65536) % 65536) as nat
}

pub open spec fn hex_char(d: nat) -> char {
    if d == 0 {
        '0'
    } else if d == 1 {
        '1'
    } else if d == 2 {
        '2'
    } else if d == 3 {
        '3'
    } else if d == 4 {
        '4'
    } else if d == 5 {
        '5'
    } else if d == 6 {
        '6'
    } else if d == 7 {
        '7'
    } else if d == 8 {
        '8'
    } else if d == 9 {
        '9'
    } else if d == 10 {
        'a'
    } else if d == 11 {
        'b'
    } else if d == 12 {
        'c'
    } else if d == 13 {
        'd'
    } else if d == 14 {
        'e'
    } else {
        'f'
    }
}

/// `n` (below 2^16) as four lowercase hex digits.
pub open spec fn hex4(n: nat) -> Seq<char> {
    seq![hex_char(n / 4096 % 16), hex_char(n / 256 % 16), hex_char(n / 16 % 16), hex_char(n % 16)]
}

/// The preset's hash: four lowercase hex digits keyed on its encode
/// settings, so outputs made with other settings get other names.
pub open spec fn preset_hash_text(p: Preset) -> Seq<char> {
    hex4(fold16(fnv(preset_words(p))))
}

fn hex_digit(d: u32) -> (c: char)
    requires
        d < 16,
    ensures
        c == hex_char(d as nat),
        is_lower_hex(c),
{
    if d == 0 {
        '0'
    } else if d == 1 {
        '1'
    } else if d == 2 {
        '2'
    } else if d == 3 {
        '3'
    } else if d == 4 {
        '4'
    } else if d == 5 {
        '5'
    } else if d == 6 {
        '6'
    } else if d == 7 {
        '7'
    } else if d == 8 {
        '8'
    } else if d == 9 {
        '9'
    } else if d == 10 {
        'a'
    } else if d == 11 {
        'b'
    } else if d == 12 {
        'c'
    } else if d == 13 {
        'd'
    } else if d == 14 {
        'e'
    } else {
        'f'
    }
}

fn push_opt(v: &mut Vec<u32>, o: Option<u32>)
    ensures
        final(v)@ == old(v)@ + opt_words(o),
{
    match o {
        Some(x) => {
            v.push(1);
            v.push(x);
        },
        None => {
            v.push(0);
            v.push(0);
        },
    }
    assert(v@ =~= old(v)@ + opt_words(o));
}

/// The hash that keys a preset's outputs and journal records.
pub fn preset_hash(p: &Preset) -> (r: String)
    ensures
        r@ == preset_hash_text(*p),
        is_hash(r@),
{
    let mut ws: Vec<u32> = Vec::new();
    ws.push((p.target_mb_bits % 0x1_0000_0000) as u32);
    ws.push((p.target_mb_bits / 0x1_0000_0000) as u32);
    push_opt(&mut ws, p.max_fps);
    push_opt(&mut ws, p.max_width);
    push_opt(&mut ws, p.scale_percent);
    ws.push(if p.strip_audio {
        1
    } else {
        0
    });
    ws.push(
        match p.format {
            OutputFormat::Mp4 => 0,
            OutputFormat::Webm => 1,
            OutputFormat::Gif => 2,
        },
    );
    ws.push(
        match p.split.mode {
            SplitMode::Off => 0,
            SplitMode::Smart => 1,
            SplitMode::Static => 2,
        },
    );
    ws.push(
        match p.split.by {
            StaticSplitBy::Parts => 0,
            StaticSplitBy::Seconds => 1,
        },
    );
    ws.push(p.split.parts);
    ws.push(p.split.seconds);
    assert(ws@ =~= preset_words(*p));
    let mut h: u32 = 2166136261;
    let mut i: usize = 0;
    assert(ws@.take(0) =~= Seq::<u32>::empty());
    while i < ws.len()
        invariant
            i <= ws@.len(),
            h == fnv(ws@.take(i as int)),
        decreases ws.len() - i,
    {
        assert(ws@.take(i + 1).drop_last() =~= ws@.take(i as int));
        let x: u32 = h ^ ws[i];
        assert(x as u64 * 16777619u64 <= 0xffff_ffffu64 * 16777619u64) by (nonlinear_arith);
        let prod: u64 = x as u64 * 16777619u64;
        h = (prod % 0x1_0000_0000u64) as u32;
        i = i + 1;
    }
    assert(ws@.take(ws@.len() as int) =~= ws@);
    let n: u32 = (h / 65536 + h % 65536) % 65536;
    let mut v: Vec<char> = Vec::new();
    v.push(hex_digit(n / 4096 % 16));
    v.push(hex_digit(n / 256 % 16));
    v.push(hex_digit(n / 16 % 16));
    v.push(hex_digit(n % 16));
    assert(v@ =~= hex4(n as nat));
    string_from_chars(&v)
}

// ---------------------------------------------------------------------------
// Numbered siblings

/// `name` is a numbered sibling of the output whose stem is `base_stem` and
/// extension `ext`: the same name with ` N` before the closing parenthesis
/// (`clip (tamped 823f 2).mp4` beside `clip (tamped 823f).mp4`).
pub open spec fn numbered_sibling(name: Seq<char>, base_stem: Seq<char>, ext: Seq<char>) -> bool {
    &&& base_stem.len() > 0
    &&& base_stem.last() == ')'
    &&& exists|d: Seq<char>|
        all_digits(d) && name == base_stem.drop_last() + seq![' '] + d + seq![')', '.'] + ext
}

/// Whether `name` is a numbered sibling of the output `base_stem`.`ext`.
pub fn is_numbered_sibling(name: &str, base_stem: &str, ext: &str) -> (r: bool)
    ensures
        r == numbered_sibling(name@, base_stem@, ext@),
{
    let n = chars_of(name);
    let b = chars_of(base_stem);
    let e = chars_of(ext);
    if b.len() == 0 || b[b.len() - 1] != ')' {
        return false;
    }
    let p = b.len() - 1;
    let ghost pre = b@.drop_last();
    if n.len() < 4 || n.len() - 4 < p || n.len() - 4 - p < e.len() {
        proof {
            assert forall|d: Seq<char>| all_digits(d) implies name@ != pre + seq![' '] + d + seq![
                ')',
                '.',
            ] + ext@ by {}
        }
        return false;
    }
    let nl = n.len();
    let dlo = p + 1;
    let dhi = nl - 2 - e.len();
    assert(dhi + 2 + e@.len() == n@.len());
    let ghost d = n@.subrange(dlo as int, dhi as int);
    let punct = n[p] == ' ' && n[dhi] == ')' && n[dhi + 1] == '.';
    let mut same_prefix = true;
    let mut i: usize = 0;
    while i < p
        invariant
            i <= p < b@.len(),
            p < n@.len(),
            same_prefix ==> forall|j: int| 0 <= j < i ==> n@[j] == b@[j],
            !same_prefix ==> exists|j: int| 0 <= j < i && n@[j] != b@[j],
        decreases p - i,
    {
        if n[i] != b[i] {
            same_prefix = false;
        }
        i = i + 1;
    }
    let mut same_ext = true;
    let mut k: usize = 0;
    while k < e.len()
        invariant
            k <= e@.len(),
            dhi + 2 + e@.len() == n@.len(),
            n@.len() == nl,
            same_ext ==> forall|j: int| 0 <= j < k ==> n@[dhi + 2 + j] == e@[j],
            !same_ext ==> exists|j: int| 0 <= j < k && n@[dhi + 2 + j] != e@[j],
        decreases e.len() - k,
    {
        if n[dhi + 2 + k] != e[k] {
            same_ext = false;
        }
        k = k + 1;
    }
    let mut digits = true;
    let mut m: usize = dlo;
    while m < dhi
        invariant
            dlo <= m <= dhi < n@.len(),
            digits ==> forall|j: int| dlo <= j < m ==> is_digit(#[trigger] n@[j]),
            !digits ==> exists|j: int| dlo <= j < m && !is_digit(#[trigger] n@[j]),
        decreases dhi - m,
    {
        if !('0' <= n[m] && n[m] <= '9') {
            digits = false;
        }
        m = m + 1;
    }
    let ok = punct && same_prefix && same_ext && digits && dlo < dhi;
    proof {
        let whole = pre + seq![' '] + d + seq![')', '.'] + ext@;
        if ok {
            assert forall|j: int| 0 <= j < d.len() implies is_digit(#[trigger] d[j]) by {
                assert(d[j] == n@[dlo + j]);
            }
            assert(whole =~= name@);
            assert(all_digits(d));
            assert(b@.drop_last() == base_stem@.drop_last());
            assert(all_digits(d) && name@ == base_stem@.drop_last() + seq![' '] + d + seq![')', '.']
                + ext@);
        } else {
            assert forall|d2: Seq<char>| all_digits(d2) implies name@ != pre + seq![' '] + d2
                + seq![')', '.'] + ext@ by {
                let w2 = pre + seq![' '] + d2 + seq![')', '.'] + ext@;
                if name@ == w2 {
                    assert(d2.len() == dhi - dlo);
                    assert(n@[p as int] == w2[p as int]);
                    assert(n@[dhi as int] == w2[dhi as int]);
                    assert(n@[dhi + 1] == w2[dhi + 1]);
                    if !same_prefix {
                        let j = choose|j: int| 0 <= j < p && n@[j] != b@[j];
                        assert(w2[j] == pre[j]);
                    }
                    if !same_ext {
                        let j = choose|j: int| 0 <= j < e@.len() && n@[dhi + 2 + j] != e@[j];
                        assert(w2[dhi + 2 + j] == ext@[j]);
                    }
                    if !digits {
                        let j = choose|j: int| dlo <= j < dhi && !is_digit(#[trigger] n@[j]);
                        assert(n@[j] == w2[j]);
                        assert(w2[j] == d2[j - dlo]);
                    }
                }
            }
        }
    }
    ok
}

/// A sibling left by an earlier run that is stale: a numbered sibling of
/// the base output, a regular file, and over the target.
pub open spec fn stale_sibling_spec(
    name: Seq<char>,
    base_stem: Seq<char>,
    ext: Seq<char>,
    is_file: bool,
    len: u64,
    target_bytes: u64,
) -> bool {
    numbered_sibling(name, base_stem, ext) && is_file && len > target_bytes
}

/// Whether the directory entry `name` (a regular file when `is_file`, of
/// `len` bytes) is a stale over-target sibling of the output
/// `base_stem`.`ext`, to be removed.
pub fn stale_sibling(
    name: &str,
    base_stem: &str,
    ext: &str,
    is_file: bool,
    len: u64,
    target_bytes: u64,
) -> (r: bool)
    ensures
        r == stale_sibling_spec(name@, base_stem@, ext@, is_file, len, target_bytes),
{
    is_file && len > target_bytes && is_numbered_sibling(name, base_stem, ext)
}

/// A plan reserves audio bitrate exactly when there is a track to keep: the
/// source has audio, it is not stripped, and the format carries audio (a
/// gif never does). Otherwise the whole budget goes to video.
pub proof fn lemma_audio_budget_only_for_a_kept_track(
    format: OutputFormat,
    strip_audio: bool,
    has_audio: bool,
)
    ensures
        audio_budget(format, strip_audio, has_audio) > 0 <==> (has_audio && !strip_audio && format
            != OutputFormat::Gif),
        !has_audio ==> audio_budget(format, strip_audio, has_audio) == 0,
        audio_budget(format, strip_audio, has_audio) <= 96,
{
}

/// The hash keys on encode settings only: presets that differ only in id
/// or display name share it, so renaming a preset keeps its outputs; and it
/// is always a hash the output-name grammar recognises.
pub proof fn lemma_preset_hash_ignores_identity(p: Preset, q: Preset)
    requires
        p.target_mb_bits == q.target_mb_bits,
        p.max_fps == q.max_fps,
        p.max_width == q.max_width,
        p.scale_percent == q.scale_percent,
        p.strip_audio == q.strip_audio,
        p.format == q.format,
        p.split == q.split,
    ensures
        preset_hash_text(p) == preset_hash_text(q),
        preset_hash_text(p).len() == 4,
{
    assert(preset_words(p) =~= preset_words(q));
}

} // verus!
