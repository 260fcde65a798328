use tamp_lib::encoder::job::{base_cleanup, name_too_long, BaseCleanup, MAX_NAME_BYTES};
use tamp_lib::encoder::bin::{bundled_binary, ffmpeg_path, ffprobe_path};
use tamp_lib::encoder::job::{
    single_job_step, split_job_step, JobSpec, JobStep, SingleJobEvent, SingleJobState,
    SingleStage, SplitJobEvent, SplitJobState, SplitStage,
};
use tamp_lib::encoder::retry::{gif_after_attempt, GifOutcome, GifParams, GIF_MAX_RETRIES};
use tamp_lib::encoder::Phase;
use tamp_lib::settings::OutputFormat;

fn mp4(use_hardware: bool) -> JobSpec {
    JobSpec { format: OutputFormat::Mp4, use_hardware, target_bytes: 1_000_000 }
}

#[test]
fn a_fitting_fresh_output_is_reused_without_a_journal_record() {
    let s = SingleJobState::new(mp4(true));
    let (s, step) = single_job_step(s, SingleJobEvent::Existing { size: Some(900_000), stale: false });
    assert_eq!(step, JobStep::ReuseExisting);
    let (s, step) = single_job_step(s, SingleJobEvent::PostDone);
    assert_eq!(step, JobStep::Finish(Phase::Done));
    assert_eq!(s.stage, SingleStage::Finished { outcome: Phase::Done });
}

#[test]
fn a_stale_oversized_or_empty_output_is_encoded_fresh() {
    for (size, stale) in [
        (Some(900_000), true),
        (Some(1_000_001), false),
        (Some(0), false),
        (None, false),
    ] {
        let (_, step) = single_job_step(
            SingleJobState::new(mp4(true)),
            SingleJobEvent::Existing { size, stale },
        );
        assert_eq!(step, JobStep::Plan { part: 0 });
    }
}

#[test]
fn fresh_encode_runs_post_actions_then_records_then_finishes() {
    let s = SingleJobState::new(mp4(true));
    let (s, _) = single_job_step(s, SingleJobEvent::Existing { size: None, stale: false });
    let (s, step) = single_job_step(s, SingleJobEvent::Planned { hardware_viable: true });
    assert_eq!(step, JobStep::Encode { part: 0, gif: false, use_hardware: true });
    let (s, step) = single_job_step(s, SingleJobEvent::Encoded { cancelled: false });
    assert_eq!(step, JobStep::Verify { part: 0 });
    let (s, step) = single_job_step(s, SingleJobEvent::Measured { bytes: 999_999 });
    assert_eq!(step, JobStep::PostActions);
    let (s, step) = single_job_step(s, SingleJobEvent::PostDone);
    assert_eq!(step, JobStep::RecordJournal);
    let (s, step) = single_job_step(s, SingleJobEvent::Recorded);
    assert_eq!(step, JobStep::Finish(Phase::Done));
    assert_eq!(s.stage, SingleStage::Finished { outcome: Phase::Done });
}

#[test]
fn hardware_only_for_allowed_viable_mp4() {
    let planning = |spec: JobSpec| SingleJobState { spec, stage: SingleStage::Planning };
    let (_, low_bpp) =
        single_job_step(planning(mp4(true)), SingleJobEvent::Planned { hardware_viable: false });
    assert_eq!(low_bpp, JobStep::Encode { part: 0, gif: false, use_hardware: false });
    let (_, not_allowed) =
        single_job_step(planning(mp4(false)), SingleJobEvent::Planned { hardware_viable: true });
    assert_eq!(not_allowed, JobStep::Encode { part: 0, gif: false, use_hardware: false });
    let webm = JobSpec { format: OutputFormat::Webm, use_hardware: true, target_bytes: 10 };
    let (_, step) = single_job_step(planning(webm), SingleJobEvent::Planned { hardware_viable: true });
    assert_eq!(step, JobStep::Encode { part: 0, gif: false, use_hardware: false });
    let gif = JobSpec { format: OutputFormat::Gif, use_hardware: true, target_bytes: 10 };
    let (_, step) = single_job_step(planning(gif), SingleJobEvent::Planned { hardware_viable: true });
    assert_eq!(step, JobStep::Encode { part: 0, gif: true, use_hardware: false });
}

#[test]
fn a_cancel_after_the_engine_discards_and_cancels() {
    let s = SingleJobState { spec: mp4(false), stage: SingleStage::Encoding };
    let (s, step) = single_job_step(s, SingleJobEvent::Encoded { cancelled: true });
    assert_eq!(step, JobStep::Discard);
    let (s, step) = single_job_step(s, SingleJobEvent::Discarded);
    assert_eq!(step, JobStep::Finish(Phase::Cancelled));
    assert_eq!(s.stage, SingleStage::Finished { outcome: Phase::Cancelled });
}

#[test]
fn an_over_target_delivery_is_removed_and_fails() {
    let s = SingleJobState { spec: mp4(false), stage: SingleStage::Verifying };
    let (s, step) = single_job_step(s, SingleJobEvent::Measured { bytes: 1_000_001 });
    assert_eq!(step, JobStep::Discard);
    let (_, step) = single_job_step(s, SingleJobEvent::Discarded);
    assert_eq!(step, JobStep::Finish(Phase::Failed));
}

#[test]
fn engine_failures_end_the_single_job() {
    let s = SingleJobState { spec: mp4(false), stage: SingleStage::Encoding };
    assert_eq!(
        single_job_step(s, SingleJobEvent::Failed { cancelled: false }).1,
        JobStep::Finish(Phase::Failed)
    );
    assert_eq!(
        single_job_step(s, SingleJobEvent::Failed { cancelled: true }).1,
        JobStep::Finish(Phase::Cancelled)
    );
}

#[test]
fn a_complete_fitting_set_is_reused() {
    let mut s = SplitJobState::new(mp4(false), 3);
    for part in 0..3usize {
        let (next, step) =
            split_job_step(s, SplitJobEvent::Existing { size: Some(500_000), stale: false });
        if part < 2 {
            assert_eq!(step, JobStep::ProbePart { part: part + 1 });
        } else {
            assert_eq!(step, JobStep::ReuseExisting);
        }
        s = next;
    }
    assert_eq!(s.sizes, vec![500_000, 500_000, 500_000]);
}

#[test]
fn any_miss_re_encodes_the_whole_set() {
    let s = SplitJobState::new(mp4(false), 3);
    let (s, _) = split_job_step(s, SplitJobEvent::Existing { size: Some(500_000), stale: false });
    let (s, step) = split_job_step(s, SplitJobEvent::Existing { size: None, stale: false });
    assert_eq!(step, JobStep::PrepareFolder);
    assert!(s.sizes.is_empty());
    assert_eq!(s.stage, SplitStage::Preparing);
}

#[test]
fn a_split_set_encodes_every_part_then_records_then_posts() {
    let s = SplitJobState::new(mp4(false), 2);
    let (s, _) = split_job_step(s, SplitJobEvent::Existing { size: None, stale: false });
    let (mut s, step) = split_job_step(s, SplitJobEvent::FolderReady);
    assert_eq!(step, JobStep::Plan { part: 0 });
    for part in 0..2usize {
        let (n, step) = split_job_step(s, SplitJobEvent::Planned { hardware_viable: false });
        assert_eq!(step, JobStep::Encode { part, gif: false, use_hardware: false });
        let (n, step) = split_job_step(n, SplitJobEvent::Encoded);
        assert_eq!(step, JobStep::Verify { part });
        let (n, step) =
            split_job_step(n, SplitJobEvent::Measured { bytes: 700_000, cancelled: false });
        if part == 0 {
            assert_eq!(step, JobStep::Plan { part: 1 });
        } else {
            assert_eq!(step, JobStep::RecordJournal);
        }
        s = n;
    }
    let (s, step) = split_job_step(s, SplitJobEvent::Recorded);
    assert_eq!(step, JobStep::PostActions);
    let (s, step) = split_job_step(s, SplitJobEvent::PostDone);
    assert_eq!(step, JobStep::Finish(Phase::Done));
    assert_eq!(s.sizes, vec![700_000, 700_000]);
}

#[test]
fn a_failed_part_removes_the_whole_set() {
    let s = SplitJobState {
        spec: mp4(false),
        parts: 3,
        sizes: vec![600_000],
        stage: SplitStage::Encoding { part: 1 },
    };
    let (s, step) = split_job_step(s, SplitJobEvent::Failed { cancelled: false });
    assert_eq!(step, JobStep::RemoveParts);
    let (_, step) = split_job_step(s, SplitJobEvent::Removed);
    assert_eq!(step, JobStep::Finish(Phase::Failed));
}

#[test]
fn a_cancel_after_the_last_part_removes_the_set() {
    let s = SplitJobState {
        spec: mp4(false),
        parts: 2,
        sizes: vec![600_000],
        stage: SplitStage::Verifying { part: 1 },
    };
    let (s, step) = split_job_step(s, SplitJobEvent::Measured { bytes: 600_000, cancelled: true });
    assert_eq!(step, JobStep::RemoveParts);
    let (_, step) = split_job_step(s, SplitJobEvent::Removed);
    assert_eq!(step, JobStep::Finish(Phase::Cancelled));
}

#[test]
fn an_over_target_part_fails_the_set() {
    let s = SplitJobState {
        spec: mp4(false),
        parts: 2,
        sizes: vec![],
        stage: SplitStage::Verifying { part: 0 },
    };
    let (_, step) = split_job_step(s, SplitJobEvent::Measured { bytes: 1_000_001, cancelled: false });
    assert_eq!(step, JobStep::RemoveParts);
}

#[test]
fn gif_attempts_fit_retry_or_give_up() {
    let cur = GifParams { fps: 15, max_width: 640 };
    let next = GifParams { fps: 15, max_width: 512 };
    assert_eq!(gif_after_attempt(0, 900, 1000, cur, next), GifOutcome::Fits);
    assert_eq!(gif_after_attempt(0, 1001, 1000, cur, next), GifOutcome::Retry(next));
    assert_eq!(gif_after_attempt(1, 1001, 1000, cur, cur), GifOutcome::GiveUp);
    assert_eq!(gif_after_attempt(GIF_MAX_RETRIES, 1001, 1000, cur, next), GifOutcome::GiveUp);
}

#[test]
fn bundled_binaries_sit_next_to_the_executable() {
    assert_eq!(ffmpeg_path(Some("/opt/tamp"), ""), "/opt/tamp/ffmpeg");
    assert_eq!(ffprobe_path(Some("/opt/tamp"), ".exe"), "/opt/tamp/ffprobe.exe");
    assert_eq!(ffmpeg_path(None, ""), "ffmpeg");
    assert_eq!(bundled_binary(None, "ffprobe", ".exe"), "ffprobe.exe");
}

#[test]
fn an_unusable_base_is_removed_and_over_target_siblings_swept() {
    let spec = mp4(false);
    assert_eq!(
        base_cleanup(spec, Some(1_000_001), false),
        BaseCleanup { remove_base: true, sweep_siblings: true }
    );
    assert_eq!(
        base_cleanup(spec, Some(0), false),
        BaseCleanup { remove_base: true, sweep_siblings: false }
    );
    assert_eq!(
        base_cleanup(spec, None, true),
        BaseCleanup { remove_base: false, sweep_siblings: true }
    );
    // A fitting file (stale or not) stays; nothing at the path needs nothing.
    assert_eq!(
        base_cleanup(spec, Some(900_000), false),
        BaseCleanup { remove_base: false, sweep_siblings: false }
    );
    assert_eq!(
        base_cleanup(spec, None, false),
        BaseCleanup { remove_base: false, sweep_siblings: false }
    );
}

#[test]
fn only_overlong_components_fail_up_front() {
    assert!(!name_too_long(MAX_NAME_BYTES));
    assert!(name_too_long(MAX_NAME_BYTES + 1));
}
