//! The encoder queue's bookkeeping: job phases, which finished jobs may be
//! evicted from the tracked list, cancellation, when an output may be
//! delivered, what happens after delivery (revealing outputs, post-action
//! errors), and the row-visible tail of an ffmpeg error.
use vstd::prelude::*;

pub mod args;
pub mod bin;
pub mod convergence;
pub mod job;
pub mod plan;
pub mod retry;

use crate::settings::{OpenAfterConvert, OutputFormat};
use crate::text::{
    chars_of, decimal, is_whitespace, is_ws, lemma_trim_empty, push_decimal, push_str,
    string_from_chars, trim, trim_end, trim_start, trimmed_end,
};

verus! {

#[derive(Clone, Copy, Debug, PartialEq, Eq, Structural)]
pub enum Phase {
    Queued,
    Pass1,
    Pass2,
    Verifying,
    Done,
    Failed,
    Cancelled,
}

pub open spec fn phase_is_terminal(p: Phase) -> bool {
    p == Phase::Done || p == Phase::Failed || p == Phase::Cancelled
}

impl Phase {
    /// Done, Failed and Cancelled are final: the job will not change again.
    pub fn is_terminal(self) -> (r: bool)
        ensures
            r == phase_is_terminal(self),
    {
        match self {
            Phase::Done | Phase::Failed | Phase::Cancelled => true,
            _ => false,
        }
    }
}

pub struct PostActions {
    pub copy_to_clipboard: bool,
    pub trash_original: bool,
    /// Whether to reveal the finished output(s) in the file manager.
    pub open_after: crate::settings::OpenAfterConvert,
}

/// Jobs the queue keeps listed; finished ones beyond this are evicted.
pub const MAX_TRACKED_JOBS: usize = 50;

/// How many of `phases[..n]` are terminal.
pub open spec fn terminal_count(phases: Seq<Phase>, n: int) -> nat
    decreases n,
{
    if n <= 0 {
        0
    } else {
        terminal_count(phases, n - 1) + if phase_is_terminal(phases[n - 1]) {
            1nat
        } else {
            0nat
        }
    }
}

/// How many jobs an enqueue evicts: enough to bring the list below `max`
/// before the new job is pushed, but only terminal ones; when every tracked
/// job is still active the list grows instead.
pub open spec fn eviction_count(phases: Seq<Phase>, max: int) -> nat {
    let need = if phases.len() >= max {
        phases.len() - max + 1
    } else {
        0
    };
    let avail = terminal_count(phases, phases.len() as int) as int;
    (if need < avail {
        need
    } else {
        avail
    }) as nat
}

proof fn lemma_terminal_count_bounds(phases: Seq<Phase>, n: int)
    requires
        0 <= n <= phases.len(),
    ensures
        terminal_count(phases, n) <= n,
    decreases n,
{
    if n > 0 {
        lemma_terminal_count_bounds(phases, n - 1);
    }
}

/// After an enqueue's evictions and push the list holds at most `max` jobs
/// whenever enough of the tracked jobs are finished; when none is finished
/// nothing is evicted and the list grows.
pub proof fn lemma_eviction_makes_room(phases: Seq<Phase>, max: int)
    requires
        max > 0,
    ensures
        terminal_count(phases, phases.len() as int) >= phases.len() - max + 1 ==> phases.len()
            - eviction_count(phases, max) + 1 <= max,
        terminal_count(phases, phases.len() as int) == 0 ==> eviction_count(phases, max) == 0,
{
}

/// The positions (ascending) of the jobs an enqueue evicts from a tracked
/// list in these phases, to keep it under `max` entries after the push: the
/// oldest terminal jobs, never an active one.
pub fn jobs_to_evict(phases: &Vec<Phase>, max: usize) -> (r: Vec<usize>)
    requires
        max > 0,
    ensures
        r.len() == eviction_count(phases@, max as int),
        forall|i: int|
            #![trigger r@[i]]
            0 <= i < r.len() ==> r@[i] < phases.len() && phase_is_terminal(phases@[r@[i] as int]),
        forall|i: int, j: int| 0 <= i < j < r.len() ==> r@[i] < r@[j],
        forall|x: int|
            0 <= x < phases.len() && phase_is_terminal(phases@[x]) && r.len() > 0 && x
                <= r@[r.len() - 1] ==> r@.contains(x as usize),
{
    let n = phases.len();
    let need: usize = if n >= max {
        n - max + 1
    } else {
        0
    };
    let mut r: Vec<usize> = Vec::new();
    let mut x: usize = 0;
    while x < n && r.len() < need
        invariant
            n == phases.len(),
            x <= n,
            r.len() <= need,
            r.len() == terminal_count(phases@, x as int),
            forall|i: int|
                #![trigger r@[i]]
                0 <= i < r.len() ==> r@[i] < x && phase_is_terminal(phases@[r@[i] as int]),
            forall|i: int, j: int| 0 <= i < j < r.len() ==> r@[i] < r@[j],
            forall|y: int| 0 <= y < x && phase_is_terminal(phases@[y]) ==> r@.contains(y as usize),
        decreases n - x,
    {
        let ghost old_r = r@;
        let term = phases[x].is_terminal();
        if term {
            assert(phase_is_terminal(phases@[x as int]));
            r.push(x);
            assert(r@ == old_r.push(x));
        } else {
            assert(r@ == old_r);
        }
        proof {
            assert forall|i: int|
                #![trigger r@[i]]
                0 <= i < r.len() implies r@[i] < x + 1 && phase_is_terminal(
                phases@[r@[i] as int],
            ) by {
                if i < old_r.len() {
                    assert(r@[i] == old_r[i]);
                } else {
                    assert(term);
                    assert(r@[i] == x);
                }
            }
            assert forall|y: int| 0 <= y < x + 1 && phase_is_terminal(phases@[y]) implies r@.contains(
                y as usize,
            ) by {
                if y == x {
                    assert(r@[r.len() - 1] == x);
                } else {
                    assert(old_r.contains(y as usize));
                    let k = choose|k: int| 0 <= k < old_r.len() && old_r[k] == y as usize;
                    assert(r@[k] == y as usize);
                }
            }
        }
        x = x + 1;
    }
    proof {
        if r.len() < need {
            // every index was scanned
            lemma_terminal_count_bounds(phases@, n as int);
        }
        if r.len() == need {
            lemma_terminal_count_bounds(phases@, x as int);
            lemma_terminal_count_mono(phases@, x as int, n as int);
        }
    }
    r
}

proof fn lemma_terminal_count_mono(phases: Seq<Phase>, a: int, b: int)
    requires
        0 <= a <= b <= phases.len(),
    ensures
        terminal_count(phases, a) <= terminal_count(phases, b),
    decreases b - a,
{
    if a < b {
        lemma_terminal_count_mono(phases, a, b - 1);
    }
}

/// Whether the just-finished output may be delivered: a cancel observed in
/// the window between the engine returning and the post-actions running must
/// be honored.
pub fn should_deliver(is_cancelled: bool) -> (r: bool)
    ensures
        r == !is_cancelled,
{
    !is_cancelled
}

/// The error surfaced when an output path is too long to write.
pub fn output_too_long_error() -> (r: String)
    ensures
        r@ == "Output path is too long — move the recording to a shorter folder"@,
{
    let v = chars_of("Output path is too long — move the recording to a shorter folder");
    string_from_chars(&v)
}

pub open spec fn muxer_name(format: OutputFormat) -> Seq<char> {
    match format {
        OutputFormat::Mp4 => "mp4"@,
        OutputFormat::Webm => "webm"@,
        OutputFormat::Gif => "gif"@,
    }
}

/// The explicit ffmpeg muxer for a container: attempts write to a `.part`
/// sibling, so ffmpeg can't infer the format from the extension.
pub fn muxer(format: OutputFormat) -> (r: &'static str)
    ensures
        r@ == muxer_name(format),
{
    match format {
        OutputFormat::Mp4 => "mp4",
        OutputFormat::Webm => "webm",
        OutputFormat::Gif => "gif",
    }
}

// ---------------------------------------------------------------------------
// The tail of an ffmpeg error

/// Index of the first `'\n'` in `s` (or `s.len()`).
pub open spec fn first_newline(s: Seq<char>) -> int
    decreases s.len(),
{
    if s.len() == 0 {
        0
    } else if s[0] == '\n' {
        0
    } else {
        1 + first_newline(s.drop_first())
    }
}

pub open spec fn strip_cr(l: Seq<char>) -> Seq<char> {
    if l.len() > 0 && l[l.len() - 1] == '\r' {
        l.drop_last()
    } else {
        l
    }
}

/// `str::lines`: split at `\n` (a `\r` right before it goes too); a final
/// line ending does not start an empty line.
pub open spec fn lines(s: Seq<char>) -> Seq<Seq<char>>
    decreases s.len(),
{
    if s.len() == 0 {
        seq![]
    } else {
        let i = first_newline(s);
        proof {
            lemma_first_newline_bounds(s);
        }
        if i >= s.len() {
            seq![s]
        } else {
            seq![strip_cr(s.take(i))] + lines(s.skip(i + 1))
        }
    }
}

/// The lines, right-trimmed, without those that are blank.
pub open spec fn visible_lines(ls: Seq<Seq<char>>) -> Seq<Seq<char>>
    decreases ls.len(),
{
    if ls.len() == 0 {
        seq![]
    } else {
        let prev = visible_lines(ls.drop_last());
        let t = trim_end(ls[ls.len() - 1]);
        if trim(t).len() > 0 {
            prev.push(t)
        } else {
            prev
        }
    }
}

/// Lines joined with `\n`.
pub open spec fn join_lines(ls: Seq<Seq<char>>) -> Seq<char>
    decreases ls.len(),
{
    if ls.len() == 0 {
        seq![]
    } else if ls.len() == 1 {
        ls[0]
    } else {
        join_lines(ls.drop_last()) + seq!['\n'] + ls[ls.len() - 1]
    }
}

/// The last `max_lines` visible lines of `s` (all of them when fewer).
pub open spec fn tail_lines(s: Seq<char>, max_lines: int) -> Seq<Seq<char>> {
    let v = visible_lines(lines(s));
    let start = if v.len() > max_lines {
        v.len() - max_lines
    } else {
        0
    };
    v.skip(start)
}

pub open spec fn error_tail_spec(s: Seq<char>, max_lines: int) -> Seq<char> {
    join_lines(tail_lines(s, max_lines))
}

proof fn lemma_trim_end_shape(s: Seq<char>)
    ensures
        trim_end(s).len() == 0 || !is_ws(trim_end(s).last()),
    decreases s.len(),
{
    if s.len() > 0 && is_ws(s[s.len() - 1]) {
        lemma_trim_end_shape(s.drop_last());
    }
}

proof fn lemma_visible_lines_shape(ls: Seq<Seq<char>>)
    ensures
        forall|i: int|
            0 <= i < visible_lines(ls).len() ==> trim(#[trigger] visible_lines(ls)[i]).len() > 0
                && !is_ws(visible_lines(ls)[i].last()),
    decreases ls.len(),
{
    if ls.len() > 0 {
        let prev = visible_lines(ls.drop_last());
        lemma_visible_lines_shape(ls.drop_last());
        let t = trim_end(ls[ls.len() - 1]);
        lemma_trim_end_shape(ls[ls.len() - 1]);
        if trim(t).len() > 0 {
            if t.len() == 0 {
                assert(trim_start(t) == t);
                assert(trim(t) == t);
            }
            let v = prev.push(t);
            assert(visible_lines(ls) == v);
            assert forall|i: int| 0 <= i < v.len() implies trim(#[trigger] v[i]).len() > 0 && !is_ws(
                v[i].last(),
            ) by {
                if i < prev.len() {
                    assert(v[i] == prev[i]);
                }
            }
        }
    }
}

/// The tail shows at most `max_lines` lines, none of them blank and none
/// ending in white space.
pub proof fn lemma_error_tail_lines(s: Seq<char>, max_lines: int)
    requires
        max_lines >= 0,
    ensures
        tail_lines(s, max_lines).len() <= max_lines,
        forall|i: int|
            0 <= i < tail_lines(s, max_lines).len() ==> trim(#[trigger] tail_lines(s, max_lines)[i]).len()
                > 0 && !is_ws(tail_lines(s, max_lines)[i].last()),
{
    let v = visible_lines(lines(s));
    lemma_visible_lines_shape(lines(s));
    let start = if v.len() > max_lines {
        v.len() - max_lines
    } else {
        0
    };
    assert forall|i: int| 0 <= i < tail_lines(s, max_lines).len() implies trim(
        #[trigger] tail_lines(s, max_lines)[i],
    ).len() > 0 && !is_ws(tail_lines(s, max_lines)[i].last()) by {
        assert(tail_lines(s, max_lines)[i] == v[i + start]);
    }
}

pub proof fn lemma_first_newline_bounds(s: Seq<char>)
    ensures
        0 <= first_newline(s) <= s.len(),
    decreases s.len(),
{
    if s.len() > 0 && s[0] != '\n' {
        lemma_first_newline_bounds(s.drop_first());
    }
}

proof fn lemma_first_newline(s: Seq<char>, i: int)
    requires
        0 <= i <= s.len(),
        forall|k: int| 0 <= k < i ==> s[k] != '\n',
        i < s.len() ==> s[i] == '\n',
    ensures
        first_newline(s) == i,
    decreases i,
{
    if i > 0 {
        lemma_first_newline(s.drop_first(), i - 1);
    }
}

proof fn lemma_visible_push(ls: Seq<Seq<char>>, l: Seq<char>)
    ensures
        visible_lines(ls.push(l)) == if trim(trim_end(l)).len() > 0 {
            visible_lines(ls).push(trim_end(l))
        } else {
            visible_lines(ls)
        },
{
    assert(ls.push(l).drop_last() =~= ls);
}

proof fn lemma_join_push(ls: Seq<Seq<char>>, l: Seq<char>)
    requires
        ls.len() > 0,
    ensures
        join_lines(ls.push(l)) == join_lines(ls) + seq!['\n'] + l,
{
    assert(ls.push(l).drop_last() =~= ls);
}

/// The last `max_lines` non-empty lines of an ffmpeg stderr capture, each
/// right-trimmed and joined with `\n`. Blank lines (and lines of pure white
/// space) never count against the budget.
pub fn error_tail(stderr: &str, max_lines: usize) -> (r: String)
    ensures
        r@ == error_tail_spec(stderr@, max_lines as int),
{
    let s = chars_of(stderr);
    let n = s.len();
    let mut kept: Vec<Vec<char>> = Vec::new();
    let ghost mut done: Seq<Seq<char>> = seq![];
    let mut pos: usize = 0;
    assert(s@.skip(0) =~= s@);
    assert(done + lines(s@.skip(0)) =~= lines(s@));
    while pos < n
        invariant
            n == s.len(),
            pos <= n,
            lines(s@) == done + lines(s@.skip(pos as int)),
            kept@.map_values(|v: Vec<char>| v@) == visible_lines(done),
        decreases n - pos,
    {
        let ghost rest = s@.skip(pos as int);
        let mut i = pos;
        while i < n && s[i] != '\n'
            invariant
                pos <= i <= n,
                n == s.len(),
                forall|k: int| pos <= k < i ==> s@[k] != '\n',
            decreases n - i,
        {
            i = i + 1;
        }
        proof {
            assert forall|k: int| 0 <= k < i - pos implies rest[k] != '\n' by {
                assert(rest[k] == s@[pos + k]);
            }
            if i < n {
                assert(rest[i - pos] == s@[i as int]);
            }
            lemma_first_newline(rest, i - pos);
        }
        let mut line_end = i;
        if i < n && line_end > pos && s[line_end - 1] == '\r' {
            line_end = line_end - 1;
        }
        let line = crate::text::copy_range(&s, pos, line_end);
        proof {
            if i < n {
                assert(rest.take(i - pos) =~= s@.subrange(pos as int, i as int));
                if i > pos && s@[i - 1] == '\r' {
                    assert(strip_cr(rest.take(i - pos)) =~= line@);
                } else {
                    assert(strip_cr(rest.take(i - pos)) =~= line@);
                }
                assert(rest.skip(i - pos + 1) =~= s@.skip(i + 1));
            } else {
                assert(rest =~= line@);
            }
        }
        let t = trimmed_end(&line);
        let mut blank = true;
        let mut k: usize = 0;
        while k < t.len()
            invariant
                k <= t.len(),
                blank == forall|j: int| 0 <= j < k ==> crate::text::is_ws(#[trigger] t@[j]),
            decreases t.len() - k,
        {
            if !is_whitespace(t[k]) {
                blank = false;
            }
            k = k + 1;
        }
        proof {
            crate::text::lemma_trim_empty(t@);
            lemma_visible_push(done, line@);
        }
        let ghost old_kept = kept@;
        if !blank {
            kept.push(t);
            proof {
                assert(kept@.map_values(|v: Vec<char>| v@) =~= old_kept.map_values(
                    |v: Vec<char>| v@,
                ).push(trim_end(line@)));
            }
        }
        proof {
            done = done.push(line@);
            if i < n {
                assert(lines(rest) == seq![line@] + lines(s@.skip(i + 1)));
                assert(done + lines(s@.skip(i + 1)) =~= done.drop_last() + (seq![line@] + lines(
                    s@.skip(i + 1),
                )));
            } else {
                assert(lines(rest) == seq![line@]);
                assert(s@.skip(n as int) =~= seq![]);
                assert(done + lines(s@.skip(n as int)) =~= done.drop_last() + seq![line@]);
            }
        }
        pos = if i < n {
            i + 1
        } else {
            n
        };
    }
    proof {
        assert(s@.skip(n as int) =~= seq![]);
        assert(done =~= lines(s@));
    }
    // join the last `max_lines` kept lines
    let total = kept.len();
    let start = if total > max_lines {
        total - max_lines
    } else {
        0
    };
    let ghost vis = kept@.map_values(|v: Vec<char>| v@);
    let mut out: Vec<char> = Vec::new();
    let mut j = start;
    while j < total
        invariant
            start <= j <= total,
            total == kept.len(),
            vis == kept@.map_values(|v: Vec<char>| v@),
            out@ == join_lines(vis.subrange(start as int, j as int)),
        decreases total - j,
    {
        let ghost before = vis.subrange(start as int, j as int);
        if j > start {
            out.push('\n');
        }
        let mut i: usize = 0;
        let piece = &kept[j];
        let ghost base = out@;
        while i < piece.len()
            invariant
                i <= piece.len(),
                out@ == base + piece@.take(i as int),
            decreases piece.len() - i,
        {
            out.push(piece[i]);
            i = i + 1;
            assert(out@ =~= base + piece@.take(i as int));
        }
        proof {
            assert(piece@.take(piece@.len() as int) =~= piece@);
            assert(vis.subrange(start as int, j + 1) =~= before.push(vis[j as int]));
            if j > start {
                lemma_join_push(before, vis[j as int]);
            } else {
                assert(before.push(vis[j as int]) =~= seq![vis[j as int]]);
            }
        }
        j = j + 1;
    }
    proof {
        assert(vis.subrange(start as int, total as int) =~= vis.skip(start as int));
    }
    string_from_chars(&out)
}

/// How the finished outputs are shown in the file manager.
#[derive(Clone, Copy, Debug, PartialEq, Eq, Structural)]
pub enum OpenAction {
    /// Nothing is opened.
    Nothing,
    /// The folder holding the parts of a split set is opened.
    OpenFolder,
    /// The single output is revealed in its folder.
    RevealFile,
}

/// What to open after a job delivered `n_outputs` files: a multi-part set
/// opens its folder unless the preference is off; a single output is
/// revealed only when the preference is `All`; nothing when there is no
/// output.
pub fn open_action(open_after: OpenAfterConvert, n_outputs: usize) -> (r: OpenAction)
    ensures
        r == (if n_outputs == 0 || open_after == OpenAfterConvert::Off {
            OpenAction::Nothing
        } else if n_outputs > 1 {
            OpenAction::OpenFolder
        } else if open_after == OpenAfterConvert::All {
            OpenAction::RevealFile
        } else {
            OpenAction::Nothing
        }),
{
    let multipart = n_outputs > 1;
    let act = match open_after {
        OpenAfterConvert::Off => false,
        OpenAfterConvert::Multipart => multipart,
        OpenAfterConvert::All => true,
    };
    if !act || n_outputs == 0 {
        OpenAction::Nothing
    } else if multipart {
        OpenAction::OpenFolder
    } else {
        OpenAction::RevealFile
    }
}

pub open spec fn clipboard_failure_text(outputs: Seq<Seq<char>>, err: Seq<char>) -> Seq<char> {
    "Couldn't copy to clipboard ("@ + (if outputs.len() == 1 {
        "the file is at "@ + outputs[0]
    } else {
        "the "@ + decimal(outputs.len()) + " parts are next to the original"@
    }) + "): "@ + err
}

/// The post-error line for a failed clipboard copy of `outputs` (their
/// paths): where the file is for a single output, where the parts are for a
/// set.
pub fn clipboard_failure_message(outputs: &[String], err: &str) -> (r: String)
    ensures
        r@ == clipboard_failure_text(outputs@.map_values(|o: String| o@), err@),
{
    let mut v: Vec<char> = Vec::new();
    push_str(&mut v, "Couldn't copy to clipboard (");
    if outputs.len() == 1 {
        push_str(&mut v, "the file is at ");
        push_str(&mut v, outputs[0].as_str());
    } else {
        push_str(&mut v, "the ");
        push_decimal(&mut v, outputs.len() as u64);
        push_str(&mut v, " parts are next to the original");
    }
    push_str(&mut v, "): ");
    push_str(&mut v, err);
    assert(v@ =~= clipboard_failure_text(outputs@.map_values(|o: String| o@), err@));
    string_from_chars(&v)
}

/// The post-error line for a failed move of the original to the Trash.
pub fn trash_failure_message(err: &str) -> (r: String)
    ensures
        r@ == "Couldn't move the original to Trash: "@ + err@,
{
    let mut v: Vec<char> = Vec::new();
    push_str(&mut v, "Couldn't move the original to Trash: ");
    push_str(&mut v, err);
    string_from_chars(&v)
}

/// `parts` joined with `sep`.
pub open spec fn joined(parts: Seq<Seq<char>>, sep: Seq<char>) -> Seq<char>
    decreases parts.len(),
{
    if parts.len() == 0 {
        Seq::<char>::empty()
    } else if parts.len() == 1 {
        parts[0]
    } else {
        joined(parts.drop_last(), sep) + sep + parts.last()
    }
}

/// The combined post-action error: the failures joined with "; ", or `None`
/// when every post-action succeeded.
pub fn post_error(failures: &Vec<String>) -> (r: Option<String>)
    ensures
        failures@.len() == 0 ==> r is None,
        failures@.len() > 0 ==> (r matches Some(e) && e@ == joined(
            failures@.map_values(|f: String| f@),
            "; "@,
        )),
{
    if failures.len() == 0 {
        return None;
    }
    let ghost views = failures@.map_values(|f: String| f@);
    let mut v: Vec<char> = Vec::new();
    push_str(&mut v, failures[0].as_str());
    let mut i: usize = 1;
    assert(views.take(1).drop_last() =~= views.take(0));
    while i < failures.len()
        invariant
            1 <= i <= failures@.len(),
            views == failures@.map_values(|f: String| f@),
            v@ == joined(views.take(i as int), "; "@),
        decreases failures.len() - i,
    {
        push_str(&mut v, "; ");
        push_str(&mut v, failures[i].as_str());
        i = i + 1;
        assert(views.take(i as int).drop_last() =~= views.take(i - 1));
    }
    assert(views.take(failures@.len() as int) =~= views);
    Some(string_from_chars(&v))
}

/// One argument as the command-line log shows it: quoted when it holds a
/// space.
pub open spec fn shown_arg(a: Seq<char>) -> Seq<char> {
    if a.contains(' ') {
        seq!['"'] + a + seq!['"']
    } else {
        a
    }
}

pub open spec fn shown_args(args: Seq<Seq<char>>) -> Seq<Seq<char>> {
    args.map_values(|a: Seq<char>| shown_arg(a))
}

/// The logged form of a command line (`args[0]` is the program): arguments
/// that contain a space are quoted, all joined with single spaces.
pub fn format_argv(args: &Vec<String>) -> (r: String)
    ensures
        r@ == joined(shown_args(args@.map_values(|a: String| a@)), " "@),
{
    let ghost views = shown_args(args@.map_values(|a: String| a@));
    let mut v: Vec<char> = Vec::new();
    let mut i: usize = 0;
    while i < args.len()
        invariant
            i <= args@.len(),
            views == shown_args(args@.map_values(|a: String| a@)),
            v@ == joined(views.take(i as int), " "@),
        decreases args.len() - i,
    {
        if i > 0 {
            push_str(&mut v, " ");
        }
        let a = chars_of(args[i].as_str());
        let mut has_space = false;
        let mut k: usize = 0;
        while k < a.len()
            invariant
                k <= a@.len(),
                has_space == exists|j: int| 0 <= j < k && a@[j] == ' ',
            decreases a.len() - k,
        {
            if a[k] == ' ' {
                has_space = true;
            }
            k = k + 1;
        }
        assert(has_space == a@.contains(' '));
        if has_space {
            v.push('"');
            push_str(&mut v, args[i].as_str());
            v.push('"');
        } else {
            push_str(&mut v, args[i].as_str());
        }
        i = i + 1;
        assert(views.take(i as int).drop_last() =~= views.take(i - 1));
        assert(v@ =~= joined(views.take(i as int), " "@));
    }
    assert(views.take(args@.len() as int) =~= views);
    string_from_chars(&v)
}

/// What a cancel request does besides remembering the job as cancelled.
#[derive(Clone, Copy, Debug, PartialEq, Eq, Structural)]
pub enum CancelEffect {
    /// The job is running: its ffmpeg child is killed.
    KillRunning,
    /// The job is still queued: it is marked cancelled at once (the worker
    /// skips it later).
    CancelQueued,
    /// The job already finished: nothing changes.
    Nothing,
}

pub fn cancel_effect(is_current: bool, phase: Phase) -> (r: CancelEffect)
    ensures
        r == (if is_current {
            CancelEffect::KillRunning
        } else if phase == Phase::Queued {
            CancelEffect::CancelQueued
        } else {
            CancelEffect::Nothing
        }),
{
    if is_current {
        CancelEffect::KillRunning
    } else if phase == Phase::Queued {
        CancelEffect::CancelQueued
    } else {
        CancelEffect::Nothing
    }
}

/// The phase a job ends in when its run returned an error: cancelled when a
/// cancel was requested (the error is the kill's), failed otherwise.
pub fn failed_run_phase(was_cancelled: bool) -> (r: Phase)
    ensures
        r == (if was_cancelled { Phase::Cancelled } else { Phase::Failed }),
        phase_is_terminal(r),
{
    if was_cancelled {
        Phase::Cancelled
    } else {
        Phase::Failed
    }
}

} // verus!
