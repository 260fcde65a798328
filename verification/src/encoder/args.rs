//! The ffmpeg command lines of the bitrate-targeted encodes: the two passes
//! of a software encode (libx264 for mp4, libvpx-vp9 for webm) and the
//! single pass of a hardware H.264 encoder.
use vstd::prelude::*;

use crate::encoder::{muxer, muxer_name};
use crate::platform::HwCandidate;
use crate::settings::OutputFormat;
use crate::text::{chars_of, decimal, push_decimal, string_from_chars};

verus! {

pub open spec fn arg_views(v: Seq<String>) -> Seq<Seq<char>> {
    v.map_values(|s: String| s@)
}

pub open spec fn str_views(v: Seq<&str>) -> Seq<Seq<char>> {
    v.map_values(|s: &str| s@)
}

/// `-y -v error -hide_banner -nostats -progress pipe:1`: overwrite, report
/// only real errors on stderr, and stream progress on stdout.
pub open spec fn prefix_args() -> Seq<Seq<char>> {
    seq!["-y"@, "-v"@, "error"@, "-hide_banner"@, "-nostats"@, "-progress"@, "pipe:1"@]
}

/// `-vf <chain>` when there is a filter chain.
pub open spec fn vf_args(vf: Option<Seq<char>>) -> Seq<Seq<char>> {
    match vf {
        Some(chain) => seq!["-vf"@, chain],
        None => Seq::<Seq<char>>::empty(),
    }
}

/// A bitrate argument: `<n>k`.
pub open spec fn kbit(n: nat) -> Seq<char> {
    decimal(n) + seq!['k']
}

/// The audio of a delivered encode: `-c:a <codec> -b:a <n>k`, or `-an`
/// without an audio budget.
pub open spec fn audio_args(codec: Seq<char>, audio_kbit: u32) -> Seq<Seq<char>> {
    if audio_kbit > 0 {
        seq!["-c:a"@, codec, "-b:a"@, kbit(audio_kbit as nat)]
    } else {
        seq!["-an"@]
    }
}

/// The video codec part of software pass `pass` (1 or 2).
pub open spec fn software_codec_args(
    pass: u8,
    format: OutputFormat,
    video_kbit: u32,
    passlog: Seq<char>,
) -> Seq<Seq<char>> {
    match format {
        OutputFormat::Webm => seq![
            "-c:v"@,
            "libvpx-vp9"@,
            "-b:v"@,
            kbit(video_kbit as nat),
            "-pass"@,
            decimal(pass as nat),
            "-passlogfile"@,
            passlog,
            "-row-mt"@,
            "1"@,
            "-deadline"@,
            "good"@,
            "-cpu-used"@,
            if pass == 1 { "8"@ } else { "4"@ },
        ],
        _ => seq![
            "-c:v"@,
            "libx264"@,
            "-preset"@,
            "medium"@,
            "-b:v"@,
            kbit(video_kbit as nat),
            "-pass"@,
            decimal(pass as nat),
            "-passlogfile"@,
            passlog,
        ],
    }
}

/// What software pass `pass` writes: the first pass only analyses (no audio,
/// null output); the second writes the container with its audio.
pub open spec fn software_output_args(
    pass: u8,
    format: OutputFormat,
    audio_kbit: u32,
    output: Seq<char>,
) -> Seq<Seq<char>> {
    if pass == 1 {
        seq!["-an"@, "-f"@, "null"@, "/dev/null"@]
    } else {
        audio_args(if format == OutputFormat::Webm { "libopus"@ } else { "aac"@ }, audio_kbit)
            + if format == OutputFormat::Mp4 {
            seq!["-movflags"@, "+faststart"@]
        } else {
            Seq::<Seq<char>>::empty()
        } + seq!["-f"@, muxer_name(format), output]
    }
}

/// The arguments of software pass `pass` after the program name.
pub open spec fn software_pass_spec(
    pass: u8,
    format: OutputFormat,
    video_kbit: u32,
    audio_kbit: u32,
    vf: Option<Seq<char>>,
    input: Seq<Seq<char>>,
    passlog: Seq<char>,
    output: Seq<char>,
) -> Seq<Seq<char>> {
    prefix_args() + input + vf_args(vf) + software_codec_args(pass, format, video_kbit, passlog)
        + software_output_args(pass, format, audio_kbit, output)
}

/// The arguments of a hardware pass with encoder `name` (and its extra
/// codec arguments) after the program name.
pub open spec fn hardware_pass_spec(
    name: Seq<char>,
    extra: Seq<Seq<char>>,
    format: OutputFormat,
    video_kbit: u32,
    audio_kbit: u32,
    vf: Option<Seq<char>>,
    input: Seq<Seq<char>>,
    output: Seq<char>,
) -> Seq<Seq<char>> {
    prefix_args() + input + vf_args(vf) + seq!["-c:v"@, name, "-b:v"@, kbit(video_kbit as nat)]
        + extra + audio_args("aac"@, audio_kbit) + seq![
        "-movflags"@,
        "+faststart"@,
        "-f"@,
        muxer_name(format),
        output,
    ]
}

fn push_arg(v: &mut Vec<String>, s: &str)
    ensures
        arg_views(final(v)@) == arg_views(old(v)@).push(s@),
{
    let cs = chars_of(s);
    let ghost before = v@;
    v.push(string_from_chars(&cs));
    assert(arg_views(v@) =~= arg_views(before).push(s@));
}

fn push_kbit(v: &mut Vec<String>, n: u32)
    ensures
        arg_views(final(v)@) == arg_views(old(v)@).push(kbit(n as nat)),
{
    let mut cs: Vec<char> = Vec::new();
    push_decimal(&mut cs, n as u64);
    cs.push('k');
    assert(cs@ =~= kbit(n as nat));
    let ghost before = v@;
    v.push(string_from_chars(&cs));
    assert(arg_views(v@) =~= arg_views(before).push(kbit(n as nat)));
}

fn push_args(v: &mut Vec<String>, args: &Vec<String>)
    ensures
        arg_views(final(v)@) == arg_views(old(v)@) + arg_views(args@),
{
    let ghost start = arg_views(v@);
    let mut i: usize = 0;
    while i < args.len()
        invariant
            i <= args@.len(),
            arg_views(v@) == start + arg_views(args@).take(i as int),
        decreases args.len() - i,
    {
        push_arg(v, args[i].as_str());
        i = i + 1;
        assert(arg_views(v@) =~= start + arg_views(args@).take(i as int));
    }
    assert(arg_views(args@).take(args@.len() as int) =~= arg_views(args@));
}

fn push_prefix(v: &mut Vec<String>)
    ensures
        arg_views(final(v)@) == arg_views(old(v)@) + prefix_args(),
{
    let ghost start = arg_views(v@);
    push_arg(v, "-y");
    push_arg(v, "-v");
    push_arg(v, "error");
    push_arg(v, "-hide_banner");
    push_arg(v, "-nostats");
    push_arg(v, "-progress");
    push_arg(v, "pipe:1");
    assert(arg_views(v@) =~= start + prefix_args());
}

fn push_vf(v: &mut Vec<String>, vf: &Option<String>)
    ensures
        arg_views(final(v)@) == arg_views(old(v)@) + vf_args(
            match vf {
                Some(s) => Some(s@),
                None => None,
            },
        ),
{
    let ghost start = arg_views(v@);
    match vf {
        Some(chain) => {
            push_arg(v, "-vf");
            push_arg(v, chain.as_str());
            assert(arg_views(v@) =~= start + seq!["-vf"@, chain@]);
        },
        None => {
            assert(arg_views(v@) =~= start + Seq::<Seq<char>>::empty());
        },
    }
}

fn push_audio(v: &mut Vec<String>, codec: &str, audio_kbit: u32)
    ensures
        arg_views(final(v)@) == arg_views(old(v)@) + audio_args(codec@, audio_kbit),
{
    let ghost start = arg_views(v@);
    if audio_kbit > 0 {
        push_arg(v, "-c:a");
        push_arg(v, codec);
        push_arg(v, "-b:a");
        push_kbit(v, audio_kbit);
        assert(arg_views(v@) =~= start + audio_args(codec@, audio_kbit));
    } else {
        push_arg(v, "-an");
        assert(arg_views(v@) =~= start + audio_args(codec@, audio_kbit));
    }
}

fn push_pass_number(v: &mut Vec<String>, pass: u8)
    ensures
        arg_views(final(v)@) == arg_views(old(v)@).push(decimal(pass as nat)),
{
    let mut p: Vec<char> = Vec::new();
    push_decimal(&mut p, pass as u64);
    assert(p@ =~= decimal(pass as nat));
    let ghost before = v@;
    v.push(string_from_chars(&p));
    assert(arg_views(v@) =~= arg_views(before).push(decimal(pass as nat)));
}

fn push_software_codec(
    v: &mut Vec<String>,
    pass: u8,
    format: OutputFormat,
    video_kbit: u32,
    passlog: &str,
)
    ensures
        arg_views(final(v)@) == arg_views(old(v)@) + software_codec_args(
            pass,
            format,
            video_kbit,
            passlog@,
        ),
{
    let ghost head = arg_views(v@);
    match format {
        OutputFormat::Webm => {
            push_arg(v, "-c:v");
            push_arg(v, "libvpx-vp9");
            push_arg(v, "-b:v");
            push_kbit(v, video_kbit);
            push_arg(v, "-pass");
            push_pass_number(v, pass);
            push_arg(v, "-passlogfile");
            push_arg(v, passlog);
            push_arg(v, "-row-mt");
            push_arg(v, "1");
            push_arg(v, "-deadline");
            push_arg(v, "good");
            push_arg(v, "-cpu-used");
            if pass == 1 {
                push_arg(v, "8");
            } else {
                push_arg(v, "4");
            }
        },
        _ => {
            push_arg(v, "-c:v");
            push_arg(v, "libx264");
            push_arg(v, "-preset");
            push_arg(v, "medium");
            push_arg(v, "-b:v");
            push_kbit(v, video_kbit);
            push_arg(v, "-pass");
            push_pass_number(v, pass);
            push_arg(v, "-passlogfile");
            push_arg(v, passlog);
        },
    }
    assert(arg_views(v@) =~= head + software_codec_args(pass, format, video_kbit, passlog@));
}

fn push_software_output(
    v: &mut Vec<String>,
    pass: u8,
    format: OutputFormat,
    audio_kbit: u32,
    output: &str,
)
    ensures
        arg_views(final(v)@) == arg_views(old(v)@) + software_output_args(
            pass,
            format,
            audio_kbit,
            output@,
        ),
{
    let ghost mid = arg_views(v@);
    if pass == 1 {
        push_arg(v, "-an");
        push_arg(v, "-f");
        push_arg(v, "null");
        push_arg(v, "/dev/null");
    } else {
        let codec = match format {
            OutputFormat::Webm => "libopus",
            _ => "aac",
        };
        push_audio(v, codec, audio_kbit);
        let ghost after_audio = arg_views(v@);
        if format == OutputFormat::Mp4 {
            push_arg(v, "-movflags");
            push_arg(v, "+faststart");
        }
        assert(arg_views(v@) =~= after_audio + if format == OutputFormat::Mp4 {
            seq!["-movflags"@, "+faststart"@]
        } else {
            Seq::<Seq<char>>::empty()
        });
        push_arg(v, "-f");
        push_arg(v, muxer(format));
        push_arg(v, output);
    }
    assert(arg_views(v@) =~= mid + software_output_args(pass, format, audio_kbit, output@));
}

/// The ffmpeg arguments of software pass `pass` (1 analyses, 2 writes
/// `output`): `input` holds the input arguments (`-i <file>`, with the
/// trim of a split part around it), `passlog` the pass-log file prefix.
pub fn software_pass_args(
    pass: u8,
    format: OutputFormat,
    video_kbit: u32,
    audio_kbit: u32,
    vf: &Option<String>,
    input: &Vec<String>,
    passlog: &str,
    output: &str,
) -> (r: Vec<String>)
    ensures
        arg_views(r@) == software_pass_spec(
            pass,
            format,
            video_kbit,
            audio_kbit,
            match vf {
                Some(s) => Some(s@),
                None => None,
            },
            arg_views(input@),
            passlog@,
            output@,
        ),
{
    let mut v: Vec<String> = Vec::new();
    push_prefix(&mut v);
    push_args(&mut v, input);
    push_vf(&mut v, vf);
    push_software_codec(&mut v, pass, format, video_kbit, passlog);
    push_software_output(&mut v, pass, format, audio_kbit, output);
    v
}

/// The ffmpeg arguments of a single hardware pass with encoder `cand`,
/// writing `output` (always with `+faststart`).
pub fn hardware_pass_args(
    cand: &HwCandidate,
    format: OutputFormat,
    video_kbit: u32,
    audio_kbit: u32,
    vf: &Option<String>,
    input: &Vec<String>,
    output: &str,
) -> (r: Vec<String>)
    ensures
        arg_views(r@) == hardware_pass_spec(
            cand.name@,
            str_views(cand.extra_args@),
            format,
            video_kbit,
            audio_kbit,
            match vf {
                Some(s) => Some(s@),
                None => None,
            },
            arg_views(input@),
            output@,
        ),
{
    let mut v: Vec<String> = Vec::new();
    push_prefix(&mut v);
    push_args(&mut v, input);
    push_vf(&mut v, vf);
    let ghost head = arg_views(v@);
    push_arg(&mut v, "-c:v");
    push_arg(&mut v, cand.name);
    push_arg(&mut v, "-b:v");
    push_kbit(&mut v, video_kbit);
    assert(arg_views(v@) =~= head + seq!["-c:v"@, cand.name@, "-b:v"@, kbit(video_kbit as nat)]);
    let ghost before_extra = arg_views(v@);
    let extra = cand.extra_args;
    let mut i: usize = 0;
    while i < extra.len()
        invariant
            i <= extra@.len(),
            extra@ == cand.extra_args@,
            arg_views(v@) == before_extra + str_views(extra@).take(i as int),
        decreases extra.len() - i,
    {
        push_arg(&mut v, extra[i]);
        i = i + 1;
        assert(arg_views(v@) =~= before_extra + str_views(extra@).take(i as int));
    }
    assert(str_views(extra@).take(extra@.len() as int) =~= str_views(extra@));
    push_audio(&mut v, "aac", audio_kbit);
    let ghost tail_start = arg_views(v@);
    push_arg(&mut v, "-movflags");
    push_arg(&mut v, "+faststart");
    push_arg(&mut v, "-f");
    push_arg(&mut v, muxer(format));
    push_arg(&mut v, output);
    assert(arg_views(v@) =~= tail_start + seq![
        "-movflags"@,
        "+faststart"@,
        "-f"@,
        muxer_name(format),
        output@,
    ]);
    v
}

/// The second software pass of a webm encode with an audio budget ends with
/// its audio as Opus (`-c:a libopus -b:a <n>k`), then the webm muxer and the
/// output; an mp4 encode's ends with AAC audio (`-c:a aac -b:a <n>k`), then
/// `+faststart`, the mp4 muxer and the output. Whatever the input, filter
/// chain and bitrates.
pub proof fn lemma_second_pass_audio_codec_fits_the_container(
    video_kbit: u32,
    audio_kbit: u32,
    vf: Option<Seq<char>>,
    input: Seq<Seq<char>>,
    passlog: Seq<char>,
    output: Seq<char>,
)
    requires
        audio_kbit > 0,
    ensures
        ({
            let w = software_pass_spec(2, OutputFormat::Webm, video_kbit, audio_kbit, vf, input, passlog, output);
            &&& w.len() >= 7
            &&& w[w.len() - 7] == "-c:a"@
            &&& w[w.len() - 6] == "libopus"@
            &&& w[w.len() - 5] == "-b:a"@
            &&& w[w.len() - 3] == "-f"@
            &&& w[w.len() - 2] == "webm"@
            &&& w[w.len() - 1] == output
        }),
        ({
            let m = software_pass_spec(2, OutputFormat::Mp4, video_kbit, audio_kbit, vf, input, passlog, output);
            &&& m.len() >= 9
            &&& m[m.len() - 9] == "-c:a"@
            &&& m[m.len() - 8] == "aac"@
            &&& m[m.len() - 7] == "-b:a"@
            &&& m[m.len() - 5] == "-movflags"@
            &&& m[m.len() - 3] == "-f"@
            &&& m[m.len() - 2] == "mp4"@
            &&& m[m.len() - 1] == output
        }),
{
    let w = software_pass_spec(2, OutputFormat::Webm, video_kbit, audio_kbit, vf, input, passlog, output);
    let wt = software_output_args(2, OutputFormat::Webm, audio_kbit, output);
    let wh = prefix_args() + input + vf_args(vf) + software_codec_args(2, OutputFormat::Webm, video_kbit, passlog);
    assert(wt =~= seq!["-c:a"@, "libopus"@, "-b:a"@, kbit(audio_kbit as nat), "-f"@, "webm"@, output]);
    assert(w =~= wh + wt);
    assert(w[w.len() - 7] == wt[0]);
    assert(w[w.len() - 6] == wt[1]);
    assert(w[w.len() - 5] == wt[2]);
    assert(w[w.len() - 3] == wt[4]);
    assert(w[w.len() - 2] == wt[5]);
    assert(w[w.len() - 1] == wt[6]);
    let m = software_pass_spec(2, OutputFormat::Mp4, video_kbit, audio_kbit, vf, input, passlog, output);
    let mt = software_output_args(2, OutputFormat::Mp4, audio_kbit, output);
    let mh = prefix_args() + input + vf_args(vf) + software_codec_args(2, OutputFormat::Mp4, video_kbit, passlog);
    assert(mt =~= seq![
        "-c:a"@,
        "aac"@,
        "-b:a"@,
        kbit(audio_kbit as nat),
        "-movflags"@,
        "+faststart"@,
        "-f"@,
        "mp4"@,
        output,
    ]);
    assert(m =~= mh + mt);
    assert(m[m.len() - 9] == mt[0]);
    assert(m[m.len() - 8] == mt[1]);
    assert(m[m.len() - 7] == mt[2]);
    assert(m[m.len() - 5] == mt[4]);
    assert(m[m.len() - 3] == mt[6]);
    assert(m[m.len() - 2] == mt[7]);
    assert(m[m.len() - 1] == mt[8]);
}

/// Every software pass names its video codec right after the input and the
/// filter chain: VP9 for webm, x264 otherwise; the first pass only analyses
/// (no audio, a null output), whatever the format.
pub proof fn lemma_software_pass_codecs(
    pass: u8,
    format: OutputFormat,
    video_kbit: u32,
    audio_kbit: u32,
    vf: Option<Seq<char>>,
    input: Seq<Seq<char>>,
    passlog: Seq<char>,
    output: Seq<char>,
)
    ensures
        ({
            let a = software_pass_spec(pass, format, video_kbit, audio_kbit, vf, input, passlog, output);
            let k = 7 + input.len() + if vf is Some { 2int } else { 0int };
            &&& a.len() > k + 1
            &&& a[k] == "-c:v"@
            &&& a[k + 1] == if format == OutputFormat::Webm { "libvpx-vp9"@ } else { "libx264"@ }
            &&& pass == 1 ==> a.len() >= 4 && a[a.len() - 4] == "-an"@ && a[a.len() - 1]
                == "/dev/null"@
        }),
{
    let a = software_pass_spec(pass, format, video_kbit, audio_kbit, vf, input, passlog, output);
    let h = prefix_args() + input + vf_args(vf);
    let c = software_codec_args(pass, format, video_kbit, passlog);
    let t = software_output_args(pass, format, audio_kbit, output);
    assert(a =~= h + c + t);
    assert(h.len() == 7 + input.len() + if vf is Some { 2int } else { 0int });
    assert(a[h.len() as int] == c[0]);
    assert(a[h.len() as int + 1] == c[1]);
    if pass == 1 {
        assert(t =~= seq!["-an"@, "-f"@, "null"@, "/dev/null"@]);
        assert(a[a.len() - 4] == t[0]);
        assert(a[a.len() - 1] == t[3]);
    }
}

/// A hardware pass always carries AAC audio when it has an audio budget
/// (hardware encodes are mp4), and always ends `+faststart`, the muxer and
/// the output.
pub proof fn lemma_hardware_pass_tail(
    name: Seq<char>,
    extra: Seq<Seq<char>>,
    format: OutputFormat,
    video_kbit: u32,
    audio_kbit: u32,
    vf: Option<Seq<char>>,
    input: Seq<Seq<char>>,
    output: Seq<char>,
)
    requires
        audio_kbit > 0,
    ensures
        ({
            let a = hardware_pass_spec(name, extra, format, video_kbit, audio_kbit, vf, input, output);
            &&& a.len() >= 9
            &&& a[a.len() - 9] == "-c:a"@
            &&& a[a.len() - 8] == "aac"@
            &&& a[a.len() - 4] == "+faststart"@
            &&& a[a.len() - 1] == output
        }),
{
    let a = hardware_pass_spec(name, extra, format, video_kbit, audio_kbit, vf, input, output);
    let h = prefix_args() + input + vf_args(vf) + seq!["-c:v"@, name, "-b:v"@, kbit(video_kbit as nat)]
        + extra;
    let t = seq![
        "-c:a"@,
        "aac"@,
        "-b:a"@,
        kbit(audio_kbit as nat),
        "-movflags"@,
        "+faststart"@,
        "-f"@,
        muxer_name(format),
        output,
    ];
    assert(a =~= h + t);
    assert(a[a.len() - 9] == t[0]);
    assert(a[a.len() - 8] == t[1]);
    assert(a[a.len() - 4] == t[5]);
    assert(a[a.len() - 1] == t[8]);
}

} // verus!
