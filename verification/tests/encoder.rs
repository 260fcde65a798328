use tamp_lib::encoder::plan::{audio_kbit, bitrate_targeted, is_numbered_sibling, preset_hash, stale_sibling};
use tamp_lib::settings::{Preset, SplitConfig};
use tamp_lib::encoder::plan::{
    output_file_name, part_file_name, part_folder_file_name, preset_name_token, unique_output_name,
    video_filters,
};
use tamp_lib::encoder::{
    cancel_effect, failed_run_phase, CancelEffect, clipboard_failure_message, error_tail, format_argv, jobs_to_evict, muxer, open_action,
    output_too_long_error, post_error, should_deliver, trash_failure_message, OpenAction, Phase,
    MAX_TRACKED_JOBS,
};
use tamp_lib::scanner::tamped_original_stem;
use tamp_lib::settings::{OpenAfterConvert, OutputFormat};

#[test]
fn error_tail_surfaces_the_error_lines_after_metadata_noise() {
    let stderr = "Input #0, mov,mp4,m4a,3gp,3g2,mj2, from 'rec.mov':\n\
                  \x20 Metadata:\n\
                  \x20   com.apple.quicktime.make: Apple\n\
                  \x20   com.apple.quicktime.model: MacBookPro18,3\n\
                  \x20   com.apple.quicktime.software: macOS 15.1\n\
                  \n\
                  [libx264 @ 0x7f8] could not open the encoder\n\
                  Error while opening encoder for output stream #0:0\n\
                  Conversion failed!";
    assert_eq!(
        error_tail(stderr, 3),
        "[libx264 @ 0x7f8] could not open the encoder\n\
         Error while opening encoder for output stream #0:0\n\
         Conversion failed!"
    );
}

#[test]
fn error_tail_skips_blank_and_whitespace_only_lines() {
    let stderr = "first real line\n\n   \n\t\nlast real line\n\n";
    assert_eq!(error_tail(stderr, 3), "first real line\nlast real line");
}

#[test]
fn error_tail_returns_everything_when_shorter_than_the_cap() {
    assert_eq!(error_tail("only line", 3), "only line");
    assert_eq!(error_tail("", 3), "");
    assert_eq!(error_tail("\n \n", 3), "");
}

#[test]
fn error_tail_trims_trailing_whitespace_per_line() {
    let stderr = "a   \nb\t\nc";
    assert_eq!(error_tail(stderr, 2), "b\nc");
}

#[test]
fn error_tail_handles_crlf_and_a_zero_cap() {
    assert_eq!(error_tail("one\r\ntwo\r\n", 5), "one\ntwo");
    assert_eq!(error_tail("one\ntwo", 0), "");
}

#[test]
fn should_deliver_blocks_a_post_encode_cancel() {
    assert!(should_deliver(false), "no cancel -> deliver");
    assert!(!should_deliver(true), "cancel observed -> never deliver");
}

#[test]
fn terminal_phases_are_done_failed_and_cancelled() {
    for p in [Phase::Done, Phase::Failed, Phase::Cancelled] {
        assert!(p.is_terminal());
    }
    for p in [Phase::Queued, Phase::Pass1, Phase::Pass2, Phase::Verifying] {
        assert!(!p.is_terminal());
    }
}

#[test]
fn eviction_drops_the_oldest_finished_jobs_only() {
    // Full list: the two oldest terminal jobs go to make room.
    let mut phases = vec![Phase::Pass1; MAX_TRACKED_JOBS];
    phases[3] = Phase::Done;
    phases[7] = Phase::Failed;
    phases[9] = Phase::Cancelled;
    assert_eq!(jobs_to_evict(&phases, MAX_TRACKED_JOBS), vec![3]);
    // Below the cap nothing goes.
    assert!(jobs_to_evict(&vec![Phase::Done; 3], MAX_TRACKED_JOBS).is_empty());
    // Every tracked job still active: the list may grow.
    assert!(jobs_to_evict(&vec![Phase::Queued; MAX_TRACKED_JOBS + 2], MAX_TRACKED_JOBS).is_empty());
    // Over the cap by two with enough finished jobs: three go.
    let mut over = vec![Phase::Done; MAX_TRACKED_JOBS + 2];
    over[0] = Phase::Pass2;
    assert_eq!(jobs_to_evict(&over, MAX_TRACKED_JOBS), vec![1, 2, 3]);
}

#[test]
fn muxers_and_the_too_long_error() {
    assert_eq!(muxer(OutputFormat::Mp4), "mp4");
    assert_eq!(muxer(OutputFormat::Webm), "webm");
    assert_eq!(muxer(OutputFormat::Gif), "gif");
    assert!(output_too_long_error().contains("too long"));
}

#[test]
fn open_action_follows_the_preference_and_the_part_count() {
    assert_eq!(open_action(OpenAfterConvert::Off, 3), OpenAction::Nothing);
    assert_eq!(open_action(OpenAfterConvert::Multipart, 3), OpenAction::OpenFolder);
    assert_eq!(open_action(OpenAfterConvert::Multipart, 1), OpenAction::Nothing);
    assert_eq!(open_action(OpenAfterConvert::All, 1), OpenAction::RevealFile);
    assert_eq!(open_action(OpenAfterConvert::All, 2), OpenAction::OpenFolder);
    assert_eq!(open_action(OpenAfterConvert::All, 0), OpenAction::Nothing);
}

#[test]
fn post_action_failures_are_described_and_joined() {
    let single = clipboard_failure_message(&["/out/a.mp4".to_string()], "busy");
    assert_eq!(single, "Couldn't copy to clipboard (the file is at /out/a.mp4): busy");
    let parts = clipboard_failure_message(&["/o/1.mp4".to_string(), "/o/2.mp4".to_string()], "busy");
    assert_eq!(parts, "Couldn't copy to clipboard (the 2 parts are next to the original): busy");
    let trash = trash_failure_message("denied");
    assert_eq!(trash, "Couldn't move the original to Trash: denied");
    assert_eq!(post_error(&vec![]), None);
    assert_eq!(
        post_error(&vec![single.clone(), trash.clone()]),
        Some(format!("{single}; {trash}"))
    );
    assert_eq!(post_error(&vec!["x".to_string()]), Some("x".to_string()));
}

#[test]
fn argv_quotes_arguments_with_spaces() {
    let args = vec![
        "ffmpeg".to_string(),
        "-i".to_string(),
        "/Users/me/My Movies/clip.mov".to_string(),
        "out.mp4".to_string(),
    ];
    assert_eq!(
        format_argv(&args),
        "ffmpeg -i \"/Users/me/My Movies/clip.mov\" out.mp4"
    );
    assert_eq!(format_argv(&vec![]), "");
}

#[test]
fn max_width_filter_applies_only_to_wider_sources() {
    assert_eq!(
        video_filters(1920, Some(1280), None, None),
        "scale='trunc(min(iw,1280)/2)*2':-2,format=yuv420p"
    );
    assert_eq!(
        video_filters(1280, Some(1280), None, None),
        "scale=trunc(iw/2)*2:trunc(ih/2)*2,format=yuv420p"
    );
    assert_eq!(
        video_filters(1920, Some(1281), None, None),
        "scale='trunc(min(iw,1281)/2)*2':-2,format=yuv420p"
    );
}

#[test]
fn scale_percent_filter_unless_100_or_width_capped() {
    assert_eq!(
        video_filters(1920, None, Some(50), None),
        "scale=trunc(iw*50/100/2)*2:-2,format=yuv420p"
    );
    assert_eq!(
        video_filters(1920, None, Some(100), None),
        "scale=trunc(iw/2)*2:trunc(ih/2)*2,format=yuv420p"
    );
    assert_eq!(
        video_filters(1920, Some(4000), Some(50), None),
        "scale=trunc(iw*50/100/2)*2:-2,format=yuv420p"
    );
}

#[test]
fn fps_cap_and_filters_combine_in_order() {
    assert_eq!(
        video_filters(1920, None, None, Some(30)),
        "scale=trunc(iw/2)*2:trunc(ih/2)*2,fps=30,format=yuv420p"
    );
    assert_eq!(
        video_filters(1920, Some(1280), None, Some(30)),
        "scale='trunc(min(iw,1280)/2)*2':-2,fps=30,format=yuv420p"
    );
    for vf in [
        video_filters(1920, None, None, None),
        video_filters(640, Some(320), Some(10), Some(12)),
    ] {
        assert!(vf.ends_with("format=yuv420p"), "{vf}");
    }
}

#[test]
fn output_names_carry_the_preset_key_and_count_up() {
    let name = preset_name_token("Test (1MB)");
    assert_eq!(name, "Test 1MB");
    assert_eq!(
        output_file_name("clip", &name, "823f", "mp4", None),
        "clip (tamped Test 1MB 823f).mp4"
    );
    assert_eq!(
        output_file_name("clip", &name, "823f", "webm", Some(2)),
        "clip (tamped Test 1MB 823f 2).webm"
    );
    assert_eq!(output_file_name("rec", "", "a3f2", "gif", None), "rec (tamped a3f2).gif");
    let out = output_file_name("demo (1)", &preset_name_token("  Tiny   GIF "), "0b1c", "gif", Some(12));
    assert_eq!(out, "demo (1) (tamped Tiny GIF 0b1c 12).gif");
    let stem = out.strip_suffix(".gif").unwrap();
    assert_eq!(tamped_original_stem(stem), Some("demo (1)"));
}

#[test]
fn split_parts_live_in_a_keyed_folder() {
    let name = preset_name_token("Test Split (1MB x3)");
    assert_eq!(
        part_folder_file_name("clip", &name, "823f"),
        "clip (tamped Test Split 1MB x3 823f)"
    );
    assert_eq!(part_file_name("clip", 1, "mp4"), "clip 1.mp4");
    assert_eq!(part_file_name("clip", 3, "mp4"), "clip 3.mp4");
    assert_eq!(
        tamped_original_stem(&part_folder_file_name("clip", &name, "823f")),
        Some("clip")
    );
}

#[test]
fn unique_output_name_skips_taken_candidates() {
    let taken = ["rec (tamped Q 0a0a).mp4", "rec (tamped Q 0a0a 2).mp4"];
    let name = unique_output_name("rec", "Q", "0a0a", "mp4", |n: &str| taken.contains(&n));
    assert_eq!(name, Some("rec (tamped Q 0a0a 3).mp4".to_string()));
    assert_eq!(
        unique_output_name("rec", "Q", "0a0a", "mp4", |_n: &str| false),
        Some("rec (tamped Q 0a0a).mp4".to_string())
    );
}

#[test]
fn cancel_kills_the_running_job_and_flips_a_queued_one() {
    assert_eq!(cancel_effect(true, Phase::Pass1), CancelEffect::KillRunning);
    assert_eq!(cancel_effect(false, Phase::Queued), CancelEffect::CancelQueued);
    assert_eq!(cancel_effect(false, Phase::Done), CancelEffect::Nothing);
    assert_eq!(failed_run_phase(true), Phase::Cancelled);
    assert_eq!(failed_run_phase(false), Phase::Failed);
}

#[test]
fn over_target_numbered_siblings_of_the_same_output_are_stale() {
    let base = "clip (tamped 823f)";
    assert!(is_numbered_sibling("clip (tamped 823f 2).mp4", base, "mp4"));
    assert!(is_numbered_sibling("clip (tamped 823f 12).mp4", base, "mp4"));
    assert!(!is_numbered_sibling("clip (tamped 823f).mp4", base, "mp4"));
    assert!(!is_numbered_sibling("clip (tamped ffff 2).mp4", base, "mp4"));
    assert!(!is_numbered_sibling("clip (tamped 823f 4).mp4.part", base, "mp4"));
    assert!(!is_numbered_sibling("clip (tamped 823f x).mp4", base, "mp4"));
    assert!(!is_numbered_sibling("clip (tamped 823f 2).webm", base, "mp4"));
    assert!(stale_sibling("clip (tamped 823f 2).mp4", base, "mp4", true, 1500, 1000));
    assert!(!stale_sibling("clip (tamped 823f 3).mp4", base, "mp4", true, 500, 1000));
    assert!(!stale_sibling("clip (tamped 823f 2).mp4", base, "mp4", false, 1500, 1000));
    assert!(!stale_sibling("clip (tamped ffff 2).mp4", base, "mp4", true, 1500, 1000));
}

#[test]
fn audio_budget_per_format() {
    assert_eq!(audio_kbit(OutputFormat::Mp4, false, true), 96);
    assert_eq!(audio_kbit(OutputFormat::Webm, false, true), 64);
    assert_eq!(audio_kbit(OutputFormat::Gif, false, true), 0);
    assert_eq!(audio_kbit(OutputFormat::Mp4, true, true), 0);
    assert_eq!(audio_kbit(OutputFormat::Webm, false, false), 0);
    assert!(bitrate_targeted(OutputFormat::Mp4) && bitrate_targeted(OutputFormat::Webm));
    assert!(!bitrate_targeted(OutputFormat::Gif));
}

#[test]
fn preset_hash_is_four_hex_digits_keyed_on_settings() {
    let preset = |target_mb: f64, name: &str| Preset {
        id: "p".to_string(),
        name: name.to_string(),
        target_mb_bits: target_mb.to_bits(),
        max_fps: None,
        max_width: Some(1280),
        scale_percent: None,
        strip_audio: false,
        format: OutputFormat::Mp4,
        split: SplitConfig::default(),
    };
    let h = preset_hash(&preset(10.0, "Discord"));
    assert_eq!(h.len(), 4);
    assert!(h.chars().all(|c| c.is_ascii_digit() || ('a'..='f').contains(&c)));
    // The display name is not a setting; the target is.
    assert_eq!(h, preset_hash(&preset(10.0, "Renamed")));
    assert_ne!(h, preset_hash(&preset(25.0, "Discord")));
    let out = tamp_lib::encoder::plan::output_file_name("clip", "Discord", &h, "mp4", None);
    let stem = out.strip_suffix(".mp4").unwrap();
    assert_eq!(tamped_original_stem(stem), Some("clip"));
}
