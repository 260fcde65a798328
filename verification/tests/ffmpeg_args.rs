use tamp_lib::encoder::args::{hardware_pass_args, software_pass_args};
use tamp_lib::platform::MacOs;
use tamp_lib::settings::OutputFormat;

fn input() -> Vec<String> {
    vec!["-i".to_string(), "/rec/clip.mov".to_string()]
}

fn strs(v: &[&str]) -> Vec<String> {
    v.iter().map(|s| s.to_string()).collect()
}

const PREFIX: [&str; 7] = ["-y", "-v", "error", "-hide_banner", "-nostats", "-progress", "pipe:1"];

#[test]
fn first_software_pass_only_analyses() {
    let args = software_pass_args(
        1,
        OutputFormat::Mp4,
        800,
        96,
        &Some("scale=trunc(iw/2)*2:trunc(ih/2)*2,format=yuv420p".to_string()),
        &input(),
        "/tmp/pass/p",
        "/rec/clip (tamped).mp4.part",
    );
    let mut want = strs(&PREFIX);
    want.extend(strs(&[
        "-i",
        "/rec/clip.mov",
        "-vf",
        "scale=trunc(iw/2)*2:trunc(ih/2)*2,format=yuv420p",
        "-c:v",
        "libx264",
        "-preset",
        "medium",
        "-b:v",
        "800k",
        "-pass",
        "1",
        "-passlogfile",
        "/tmp/pass/p",
        "-an",
        "-f",
        "null",
        "/dev/null",
    ]));
    assert_eq!(args, want);
}

#[test]
fn second_software_pass_writes_the_container_with_audio() {
    let args = software_pass_args(2, OutputFormat::Mp4, 800, 96, &None, &input(), "/tmp/p", "/o.mp4");
    let tail: Vec<&str> = args[args.len() - 10..].iter().map(|s| s.as_str()).collect();
    assert_eq!(
        tail,
        vec!["/tmp/p", "-c:a", "aac", "-b:a", "96k", "-movflags", "+faststart", "-f", "mp4", "/o.mp4"]
    );
    let webm = software_pass_args(2, OutputFormat::Webm, 500, 0, &None, &input(), "/tmp/p", "/o.webm");
    let tail: Vec<&str> = webm[webm.len() - 8..].iter().map(|s| s.as_str()).collect();
    assert_eq!(
        tail,
        vec!["-deadline", "good", "-cpu-used", "4", "-an", "-f", "webm", "/o.webm"]
    );
    assert!(webm.contains(&"libvpx-vp9".to_string()));
}

#[test]
fn hardware_pass_uses_the_candidate_and_its_extra_args() {
    let cands = MacOs.hw_candidates();
    let args = hardware_pass_args(&cands[0], OutputFormat::Mp4, 1200, 0, &None, &input(), "/o.mp4");
    let mut want = strs(&PREFIX);
    want.extend(strs(&[
        "-i",
        "/rec/clip.mov",
        "-c:v",
        "h264_videotoolbox",
        "-b:v",
        "1200k",
        "-allow_sw",
        "1",
        "-an",
        "-movflags",
        "+faststart",
        "-f",
        "mp4",
        "/o.mp4",
    ]));
    assert_eq!(args, want);
}
