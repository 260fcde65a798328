//! The decisions of a compression job, as state machines the worker drives:
//! whether an earlier output is served again or a fresh encode runs, which
//! engine encodes and on what hardware, what a cancel that lands after the
//! engine finished leads to, the re-check of the delivered size, and the
//! order of post-actions and the journal record. A single-output job and a
//! split job (one output per part, delivered all or nothing) each have their
//! machine. Probing files, running ffmpeg, deleting files and the bitrate
//! arithmetic are the worker's; it reports each outcome back as an event.
use vstd::prelude::*;

use crate::encoder::Phase;
use crate::settings::OutputFormat;

verus! {

/// What a job asks for, fixed when it starts.
#[derive(Clone, Copy, Debug, PartialEq, Eq, Structural)]
pub struct JobSpec {
    pub format: OutputFormat,
    /// Whether the user allows hardware encoding for this job.
    pub use_hardware: bool,
    /// The size target in whole bytes: a file fits when its length is at
    /// most this.
    pub target_bytes: u64,
}

/// What the worker does next.
#[derive(Clone, Copy, Debug, PartialEq, Eq, Structural)]
pub enum JobStep {
    /// Look at the file expected at part `part`'s output path.
    ProbePart { part: usize },
    /// Serve the existing output(s) as they are: run the post-actions on
    /// them; no journal record is written.
    ReuseExisting,
    /// Give the parts a clean folder.
    PrepareFolder,
    /// Probe the input and plan the encode of part `part` (0 for a
    /// single-output job).
    Plan { part: usize },
    /// Run the engine: the palette engine for a gif, else the convergence
    /// loop, starting on hardware when `use_hardware`.
    Encode { part: usize, gif: bool, use_hardware: bool },
    /// Measure the delivered file of part `part` again.
    Verify { part: usize },
    /// Remove the just-finished output.
    Discard,
    /// Remove every part of this run and their folder.
    RemoveParts,
    /// Append the job's record to the journal.
    RecordJournal,
    /// Run the post-actions (clipboard, trash the original, reveal).
    PostActions,
    /// End the job in this phase.
    Finish(Phase),
    /// The event does not belong to this stage: nothing to do.
    Idle,
}

/// Whether an existing output of `size` bytes (`None`: no regular file
/// there) may be served for a job with this target.
pub open spec fn fits(spec: JobSpec, size: Option<u64>) -> bool {
    match size {
        Some(b) => 0 < b && b <= spec.target_bytes,
        None => false,
    }
}

/// Whether the engine starts on hardware: only for mp4, only when the user
/// allows it, and only when the plan's bits per pixel clear the hardware
/// quality floor.
pub open spec fn starts_on_hardware(spec: JobSpec, hardware_viable: bool) -> bool {
    spec.use_hardware && spec.format == OutputFormat::Mp4 && hardware_viable
}

/// Whether an existing output of `size` bytes may be served for the job.
pub fn output_fits(spec: JobSpec, size: Option<u64>) -> (r: bool)
    ensures
        r == fits(spec, size),
{
    match size {
        Some(b) => 0 < b && b <= spec.target_bytes,
        None => false,
    }
}

fn encode_step(spec: JobSpec, part: usize, hardware_viable: bool) -> (r: JobStep)
    ensures
        r == (JobStep::Encode {
            part,
            gif: spec.format == OutputFormat::Gif,
            use_hardware: starts_on_hardware(spec, hardware_viable),
        }),
{
    let gif = match spec.format {
        OutputFormat::Gif => true,
        _ => false,
    };
    let mp4 = match spec.format {
        OutputFormat::Mp4 => true,
        _ => false,
    };
    JobStep::Encode { part, gif, use_hardware: spec.use_hardware && mp4 && hardware_viable }
}

fn outcome_of(cancelled: bool) -> (r: Phase)
    ensures
        r == failure_phase(cancelled),
{
    if cancelled {
        Phase::Cancelled
    } else {
        Phase::Failed
    }
}

/// The phase a failed run ends in.
pub open spec fn failure_phase(cancelled: bool) -> Phase {
    if cancelled {
        Phase::Cancelled
    } else {
        Phase::Failed
    }
}

/// What the worker clears away before a fresh single-output encode.
#[derive(Clone, Copy, Debug, PartialEq, Eq, Structural)]
pub struct BaseCleanup {
    /// Remove the regular file at the expected output path: it is empty or
    /// over the target, a stale artifact of an earlier run.
    pub remove_base: bool,
    /// Sweep the over-target numbered siblings of the expected output.
    pub sweep_siblings: bool,
}

/// The cleanup for an expected output path holding a regular file of
/// `size` bytes (`None`: none), or something else (`squatted`: a directory
/// or a link, which is never removed): an unusable file is removed, and
/// over-target siblings are swept when the file was over the target or the
/// path is squatted. A fitting file (even one the journal shows as stale)
/// is left in place.
pub open spec fn base_cleanup_spec(spec: JobSpec, size: Option<u64>, squatted: bool) -> BaseCleanup {
    BaseCleanup {
        remove_base: size is Some && !fits(spec, size),
        sweep_siblings: squatted || (size matches Some(b) && b > spec.target_bytes),
    }
}

pub fn base_cleanup(spec: JobSpec, size: Option<u64>, squatted: bool) -> (r: BaseCleanup)
    ensures
        r == base_cleanup_spec(spec, size, squatted),
{
    let over = match size {
        Some(b) => b > spec.target_bytes,
        None => false,
    };
    BaseCleanup {
        remove_base: size.is_some() && !output_fits(spec, size),
        sweep_siblings: squatted || over,
    }
}

/// The longest file-name component (in bytes) a file system takes.
pub const MAX_NAME_BYTES: usize = 255;

/// Whether an output whose longest path component is `bytes` long cannot be
/// written at all: the job then fails up front with the too-long error.
pub fn name_too_long(bytes: usize) -> (r: bool)
    ensures
        r == (bytes > MAX_NAME_BYTES),
{
    bytes > MAX_NAME_BYTES
}

// ---------------------------------------------------------------------------
// Single-output jobs

/// Where a single-output job stands.
#[derive(Clone, Copy, Debug, PartialEq, Eq, Structural)]
pub enum SingleStage {
    /// Waiting for the probe of the expected output path.
    Start,
    /// Waiting for the plan.
    Planning,
    /// Waiting for the engine.
    Encoding,
    /// Waiting for the re-measured size of the delivered output.
    Verifying,
    /// Waiting for the post-actions on an output of `bytes`.
    Delivering { bytes: u64, reused: bool },
    /// Waiting for the journal record of an output of `bytes`.
    Recording { bytes: u64 },
    /// Waiting for the output's removal; the job then ends in `outcome`.
    Discarding { outcome: Phase },
    /// The job has ended.
    Finished { outcome: Phase },
}

#[derive(Clone, Copy, Debug, PartialEq, Eq, Structural)]
pub struct SingleJobState {
    pub spec: JobSpec,
    pub stage: SingleStage,
}

/// An outcome the worker reports.
#[derive(Clone, Copy, Debug, PartialEq, Eq, Structural)]
pub enum SingleJobEvent {
    /// The expected output path holds a regular file of `size` bytes
    /// (`None`: nothing, or not a regular file); `stale` when the journal
    /// shows it was made from other content.
    Existing { size: Option<u64>, stale: bool },
    /// The plan is built; `hardware_viable` when its bits per pixel clear
    /// the hardware quality floor.
    Planned { hardware_viable: bool },
    /// The engine delivered its output; `cancelled` when a cancel was
    /// observed afterwards.
    Encoded { cancelled: bool },
    /// The delivered output measures `bytes`.
    Measured { bytes: u64 },
    PostDone,
    Recorded,
    Discarded,
    /// Probing, planning or the engine failed (`cancelled` when because of
    /// a cancel).
    Failed { cancelled: bool },
}

impl SingleJobState {
    pub open spec fn start(spec: JobSpec) -> SingleJobState {
        SingleJobState { spec, stage: SingleStage::Start }
    }

    /// A fresh job, waiting for the probe of its expected output.
    pub fn new(spec: JobSpec) -> (r: SingleJobState)
        ensures
            r == SingleJobState::start(spec),
    {
        SingleJobState { spec, stage: SingleStage::Start }
    }

    /// Every output on its way to delivery fits the target, and a removal
    /// never ends in Done.
    pub open spec fn wf(self) -> bool {
        match self.stage {
            SingleStage::Delivering { bytes, .. } => bytes <= self.spec.target_bytes,
            SingleStage::Recording { bytes } => bytes <= self.spec.target_bytes,
            SingleStage::Discarding { outcome } => outcome != Phase::Done,
            _ => true,
        }
    }
}

/// The next state and step of a single-output job after event `e`.
pub open spec fn single_job_transition(s: SingleJobState, e: SingleJobEvent) -> (
    SingleJobState,
    JobStep,
) {
    let spec = s.spec;
    let to = |stage: SingleStage| SingleJobState { spec, stage };
    match (s.stage, e) {
        (SingleStage::Start, SingleJobEvent::Existing { size, stale }) => {
            if fits(spec, size) && !stale {
                (
                    to(SingleStage::Delivering { bytes: size->0, reused: true }),
                    JobStep::ReuseExisting,
                )
            } else {
                (to(SingleStage::Planning), JobStep::Plan { part: 0 })
            }
        },
        (SingleStage::Planning, SingleJobEvent::Planned { hardware_viable }) => (
            to(SingleStage::Encoding),
            JobStep::Encode {
                part: 0,
                gif: spec.format == OutputFormat::Gif,
                use_hardware: starts_on_hardware(spec, hardware_viable),
            },
        ),
        (SingleStage::Encoding, SingleJobEvent::Encoded { cancelled }) => {
            if cancelled {
                (to(SingleStage::Discarding { outcome: Phase::Cancelled }), JobStep::Discard)
            } else {
                (to(SingleStage::Verifying), JobStep::Verify { part: 0 })
            }
        },
        (SingleStage::Verifying, SingleJobEvent::Measured { bytes }) => {
            if bytes <= spec.target_bytes {
                (to(SingleStage::Delivering { bytes, reused: false }), JobStep::PostActions)
            } else {
                (to(SingleStage::Discarding { outcome: Phase::Failed }), JobStep::Discard)
            }
        },
        (SingleStage::Delivering { bytes, reused }, SingleJobEvent::PostDone) => {
            if reused {
                (to(SingleStage::Finished { outcome: Phase::Done }), JobStep::Finish(Phase::Done))
            } else {
                (to(SingleStage::Recording { bytes }), JobStep::RecordJournal)
            }
        },
        (SingleStage::Recording { .. }, SingleJobEvent::Recorded) => (
            to(SingleStage::Finished { outcome: Phase::Done }),
            JobStep::Finish(Phase::Done),
        ),
        (SingleStage::Discarding { outcome }, SingleJobEvent::Discarded) => (
            to(SingleStage::Finished { outcome }),
            JobStep::Finish(outcome),
        ),
        (SingleStage::Start, SingleJobEvent::Failed { cancelled }) => (
            to(SingleStage::Finished { outcome: failure_phase(cancelled) }),
            JobStep::Finish(failure_phase(cancelled)),
        ),
        (SingleStage::Planning, SingleJobEvent::Failed { cancelled }) => (
            to(SingleStage::Finished { outcome: failure_phase(cancelled) }),
            JobStep::Finish(failure_phase(cancelled)),
        ),
        (SingleStage::Encoding, SingleJobEvent::Failed { cancelled }) => (
            to(SingleStage::Finished { outcome: failure_phase(cancelled) }),
            JobStep::Finish(failure_phase(cancelled)),
        ),
        _ => (s, JobStep::Idle),
    }
}

/// Advances a single-output job by one reported outcome.
pub fn single_job_step(s: SingleJobState, e: SingleJobEvent) -> (r: (SingleJobState, JobStep))
    ensures
        r == single_job_transition(s, e),
{
    let spec = s.spec;
    match (s.stage, e) {
        (SingleStage::Start, SingleJobEvent::Existing { size, stale }) => {
            if output_fits(spec, size) && !stale {
                let bytes = match size {
                    Some(b) => b,
                    None => 0,
                };
                (
                    SingleJobState {
                        spec,
                        stage: SingleStage::Delivering { bytes, reused: true },
                    },
                    JobStep::ReuseExisting,
                )
            } else {
                (SingleJobState { spec, stage: SingleStage::Planning }, JobStep::Plan { part: 0 })
            }
        },
        (SingleStage::Planning, SingleJobEvent::Planned { hardware_viable }) => (
            SingleJobState { spec, stage: SingleStage::Encoding },
            encode_step(spec, 0, hardware_viable),
        ),
        (SingleStage::Encoding, SingleJobEvent::Encoded { cancelled }) => {
            if cancelled {
                (
                    SingleJobState {
                        spec,
                        stage: SingleStage::Discarding { outcome: Phase::Cancelled },
                    },
                    JobStep::Discard,
                )
            } else {
                (
                    SingleJobState { spec, stage: SingleStage::Verifying },
                    JobStep::Verify { part: 0 },
                )
            }
        },
        (SingleStage::Verifying, SingleJobEvent::Measured { bytes }) => {
            if bytes <= spec.target_bytes {
                (
                    SingleJobState {
                        spec,
                        stage: SingleStage::Delivering { bytes, reused: false },
                    },
                    JobStep::PostActions,
                )
            } else {
                (
                    SingleJobState {
                        spec,
                        stage: SingleStage::Discarding { outcome: Phase::Failed },
                    },
                    JobStep::Discard,
                )
            }
        },
        (SingleStage::Delivering { bytes, reused }, SingleJobEvent::PostDone) => {
            if reused {
                (
                    SingleJobState { spec, stage: SingleStage::Finished { outcome: Phase::Done } },
                    JobStep::Finish(Phase::Done),
                )
            } else {
                (SingleJobState { spec, stage: SingleStage::Recording { bytes } }, JobStep::RecordJournal)
            }
        },
        (SingleStage::Recording { .. }, SingleJobEvent::Recorded) => (
            SingleJobState { spec, stage: SingleStage::Finished { outcome: Phase::Done } },
            JobStep::Finish(Phase::Done),
        ),
        (SingleStage::Discarding { outcome }, SingleJobEvent::Discarded) => (
            SingleJobState { spec, stage: SingleStage::Finished { outcome } },
            JobStep::Finish(outcome),
        ),
        (SingleStage::Start, SingleJobEvent::Failed { cancelled })
        | (SingleStage::Planning, SingleJobEvent::Failed { cancelled })
        | (SingleStage::Encoding, SingleJobEvent::Failed { cancelled }) => {
            let outcome = outcome_of(cancelled);
            (SingleJobState { spec, stage: SingleStage::Finished { outcome } }, JobStep::Finish(outcome))
        },
        _ => (s, JobStep::Idle),
    }
}

/// An earlier output is served again exactly when one is there, is
/// non-empty, fits the target, and the journal does not show it was made
/// from other content; otherwise a fresh encode is planned.
pub proof fn lemma_reuse_iff_fits_and_fresh(spec: JobSpec, size: Option<u64>, stale: bool)
    ensures
        ({
            let r = single_job_transition(
                SingleJobState::start(spec),
                SingleJobEvent::Existing { size, stale },
            );
            &&& r.1 == JobStep::ReuseExisting <==> (fits(spec, size) && !stale)
            &&& r.1 != JobStep::ReuseExisting ==> r.1 == (JobStep::Plan { part: 0 })
        }),
{
}

/// A cancel observed after the engine finished discards the output and ends
/// the job Cancelled; the post-actions (which may trash the original) never
/// run for it.
pub proof fn lemma_cancel_after_engine_discards(spec: JobSpec)
    ensures
        ({
            let s1 = single_job_transition(
                SingleJobState { spec, stage: SingleStage::Encoding },
                SingleJobEvent::Encoded { cancelled: true },
            );
            let s2 = single_job_transition(s1.0, SingleJobEvent::Discarded);
            &&& s1.1 == JobStep::Discard
            &&& s2.1 == JobStep::Finish(Phase::Cancelled)
            &&& s2.0.stage == (SingleStage::Finished { outcome: Phase::Cancelled })
        }),
{
}

/// The journal record is only ever written after the post-actions of a
/// fresh encode; a served earlier output is never recorded again.
pub proof fn lemma_post_actions_before_record(s: SingleJobState, e: SingleJobEvent)
    ensures
        single_job_transition(s, e).1 == JobStep::RecordJournal ==> (e == SingleJobEvent::PostDone
            && s.stage is Delivering && !s.stage->Delivering_reused),
        single_job_transition(s, e).1 == JobStep::PostActions ==> (s.stage
            == SingleStage::Verifying && e is Measured && e->bytes <= s.spec.target_bytes),
{
}

/// Every step keeps the delivered output within the target, and a job only
/// ends Done with an output that fits: an over-target output is discarded
/// and the job fails.
pub proof fn lemma_done_never_over_target(s: SingleJobState, e: SingleJobEvent)
    requires
        s.wf(),
    ensures
        single_job_transition(s, e).0.wf(),
        single_job_transition(s, e).0.spec == s.spec,
        single_job_transition(s, e).1 == JobStep::Finish(Phase::Done) ==> (match s.stage {
            SingleStage::Delivering { bytes, .. } => bytes <= s.spec.target_bytes,
            SingleStage::Recording { bytes } => bytes <= s.spec.target_bytes,
            _ => false,
        }),
        (s.stage == SingleStage::Verifying && e is Measured && e->bytes > s.spec.target_bytes) ==> single_job_transition(s, e).0.stage == (SingleStage::Discarding {
            outcome: Phase::Failed,
        }),
{
}

/// An ended job stays ended.
pub proof fn lemma_single_finished_is_final(s: SingleJobState, e: SingleJobEvent)
    requires
        s.stage is Finished,
    ensures
        single_job_transition(s, e) == (s, JobStep::Idle),
{
}

// ---------------------------------------------------------------------------
// Split jobs

/// Where a split job stands. Parts are numbered from 0.
#[derive(Clone, Copy, Debug, PartialEq, Eq, Structural)]
pub enum SplitStage {
    /// Waiting for the probe of part `part`'s expected output.
    Probing { part: usize },
    /// Waiting for the parts' folder to be emptied.
    Preparing,
    /// Waiting for the plan of part `part`.
    Planning { part: usize },
    /// Waiting for the engine on part `part`.
    Encoding { part: usize },
    /// Waiting for the re-measured size of part `part`.
    Verifying { part: usize },
    /// Waiting for the journal record of the whole set.
    Recording,
    /// Waiting for the post-actions on the whole set.
    Delivering { reused: bool },
    /// Waiting for the removal of every part; the job then ends in
    /// `outcome`.
    Cleaning { outcome: Phase },
    /// The job has ended.
    Finished { outcome: Phase },
}

pub struct SplitJobState {
    pub spec: JobSpec,
    /// How many parts the set has.
    pub parts: usize,
    /// The sizes of the parts found or delivered so far, in order.
    pub sizes: Vec<u64>,
    pub stage: SplitStage,
}

/// A split job as values: its spec, part count, accepted sizes and stage.
pub type SplitModel = (JobSpec, nat, Seq<u64>, SplitStage);

impl View for SplitJobState {
    type V = SplitModel;

    open spec fn view(&self) -> SplitModel {
        (self.spec, self.parts as nat, self.sizes@, self.stage)
    }
}

/// An outcome the worker reports on a split job.
#[derive(Clone, Copy, Debug, PartialEq, Eq, Structural)]
pub enum SplitJobEvent {
    /// The probed part's expected path holds a regular file of `size` bytes
    /// (`None`: nothing usable); `stale` when the journal shows it was made
    /// from other content.
    Existing { size: Option<u64>, stale: bool },
    FolderReady,
    /// The part's plan is built; `hardware_viable` as for a single job.
    Planned { hardware_viable: bool },
    /// The engine delivered the part.
    Encoded,
    /// The delivered part measures `bytes`; `cancelled` when a cancel has
    /// been observed (it matters once the last part is in).
    Measured { bytes: u64, cancelled: bool },
    Recorded,
    PostDone,
    Removed,
    /// Preparing the folder, planning or an engine failed (`cancelled` when
    /// because of a cancel).
    Failed { cancelled: bool },
}

impl SplitJobState {
    pub open spec fn start(spec: JobSpec, parts: nat) -> SplitModel {
        (spec, parts, Seq::<u64>::empty(), SplitStage::Probing { part: 0 })
    }

    /// A fresh split job of `parts` parts, waiting for the probe of its
    /// first part.
    pub fn new(spec: JobSpec, parts: usize) -> (r: SplitJobState)
        ensures
            r@ == SplitJobState::start(spec, parts as nat),
    {
        SplitJobState { spec, parts, sizes: Vec::new(), stage: SplitStage::Probing { part: 0 } }
    }
}

/// Every part accepted so far fits the target, the stage's part is the next
/// one to accept, the set is complete before it is recorded or delivered,
/// and a removal never ends in Done.
pub open spec fn split_wf(m: SplitModel) -> bool {
    let (spec, n, sizes, stage) = m;
    &&& 0 < n <= usize::MAX
    &&& sizes.len() <= n
    &&& forall|i: int| 0 <= i < sizes.len() ==> #[trigger] sizes[i] <= spec.target_bytes
    &&& match stage {
        SplitStage::Probing { part } => part == sizes.len() && part < n,
        SplitStage::Preparing => sizes.len() == 0,
        SplitStage::Planning { part } => part == sizes.len() && part < n,
        SplitStage::Encoding { part } => part == sizes.len() && part < n,
        SplitStage::Verifying { part } => part == sizes.len() && part < n,
        SplitStage::Recording => sizes.len() == n,
        SplitStage::Delivering { .. } => sizes.len() == n,
        SplitStage::Cleaning { outcome } => outcome != Phase::Done,
        SplitStage::Finished { .. } => true,
    }
}

/// The next state and step of a split job after event `e`.
pub open spec fn split_job_transition(m: SplitModel, e: SplitJobEvent) -> (SplitModel, JobStep) {
    let (spec, n, sizes, stage) = m;
    match (stage, e) {
        (SplitStage::Probing { part }, SplitJobEvent::Existing { size, stale }) => {
            if fits(spec, size) && !stale {
                if part + 1 < n {
                    (
                        (spec, n, sizes.push(size->0), SplitStage::Probing { part: (part + 1) as usize }),
                        JobStep::ProbePart { part: (part + 1) as usize },
                    )
                } else {
                    (
                        (spec, n, sizes.push(size->0), SplitStage::Delivering { reused: true }),
                        JobStep::ReuseExisting,
                    )
                }
            } else {
                ((spec, n, Seq::empty(), SplitStage::Preparing), JobStep::PrepareFolder)
            }
        },
        (SplitStage::Preparing, SplitJobEvent::FolderReady) => (
            (spec, n, sizes, SplitStage::Planning { part: 0 }),
            JobStep::Plan { part: 0 },
        ),
        (SplitStage::Planning { part }, SplitJobEvent::Planned { hardware_viable }) => (
            (spec, n, sizes, SplitStage::Encoding { part }),
            JobStep::Encode {
                part,
                gif: spec.format == OutputFormat::Gif,
                use_hardware: starts_on_hardware(spec, hardware_viable),
            },
        ),
        (SplitStage::Encoding { part }, SplitJobEvent::Encoded) => (
            (spec, n, sizes, SplitStage::Verifying { part }),
            JobStep::Verify { part },
        ),
        (SplitStage::Verifying { part }, SplitJobEvent::Measured { bytes, cancelled }) => {
            if bytes > spec.target_bytes {
                (
                    (spec, n, sizes, SplitStage::Cleaning { outcome: Phase::Failed }),
                    JobStep::RemoveParts,
                )
            } else if part + 1 < n {
                (
                    (spec, n, sizes.push(bytes), SplitStage::Planning { part: (part + 1) as usize }),
                    JobStep::Plan { part: (part + 1) as usize },
                )
            } else if cancelled {
                (
                    (spec, n, sizes.push(bytes), SplitStage::Cleaning { outcome: Phase::Cancelled }),
                    JobStep::RemoveParts,
                )
            } else {
                ((spec, n, sizes.push(bytes), SplitStage::Recording), JobStep::RecordJournal)
            }
        },
        (SplitStage::Recording, SplitJobEvent::Recorded) => (
            (spec, n, sizes, SplitStage::Delivering { reused: false }),
            JobStep::PostActions,
        ),
        (SplitStage::Delivering { .. }, SplitJobEvent::PostDone) => (
            (spec, n, sizes, SplitStage::Finished { outcome: Phase::Done }),
            JobStep::Finish(Phase::Done),
        ),
        (SplitStage::Cleaning { outcome }, SplitJobEvent::Removed) => (
            (spec, n, sizes, SplitStage::Finished { outcome }),
            JobStep::Finish(outcome),
        ),
        (SplitStage::Probing { .. }, SplitJobEvent::Failed { cancelled }) => (
            (spec, n, sizes, SplitStage::Finished { outcome: failure_phase(cancelled) }),
            JobStep::Finish(failure_phase(cancelled)),
        ),
        (SplitStage::Preparing, SplitJobEvent::Failed { cancelled }) => (
            (spec, n, sizes, SplitStage::Finished { outcome: failure_phase(cancelled) }),
            JobStep::Finish(failure_phase(cancelled)),
        ),
        (SplitStage::Planning { .. }, SplitJobEvent::Failed { cancelled }) => (
            (spec, n, sizes, SplitStage::Cleaning { outcome: failure_phase(cancelled) }),
            JobStep::RemoveParts,
        ),
        (SplitStage::Encoding { .. }, SplitJobEvent::Failed { cancelled }) => (
            (spec, n, sizes, SplitStage::Cleaning { outcome: failure_phase(cancelled) }),
            JobStep::RemoveParts,
        ),
        (SplitStage::Verifying { .. }, SplitJobEvent::Failed { cancelled }) => (
            (spec, n, sizes, SplitStage::Cleaning { outcome: failure_phase(cancelled) }),
            JobStep::RemoveParts,
        ),
        _ => (m, JobStep::Idle),
    }
}

/// Advances a split job by one reported outcome.
pub fn split_job_step(s: SplitJobState, e: SplitJobEvent) -> (r: (SplitJobState, JobStep))
    ensures
        (r.0@, r.1) == split_job_transition(s@, e),
{
    let SplitJobState { spec, parts, mut sizes, stage } = s;
    let ghost m = s@;
    match (stage, e) {
        (SplitStage::Probing { part }, SplitJobEvent::Existing { size, stale }) => {
            if output_fits(spec, size) && !stale {
                let b = match size {
                    Some(b) => b,
                    None => 0,
                };
                sizes.push(b);
                if parts >= 1 && part < parts - 1 {
                    let next = part + 1;
                    (
                        SplitJobState { spec, parts, sizes, stage: SplitStage::Probing { part: next } },
                        JobStep::ProbePart { part: next },
                    )
                } else {
                    (
                        SplitJobState {
                            spec,
                            parts,
                            sizes,
                            stage: SplitStage::Delivering { reused: true },
                        },
                        JobStep::ReuseExisting,
                    )
                }
            } else {
                (
                    SplitJobState { spec, parts, sizes: Vec::new(), stage: SplitStage::Preparing },
                    JobStep::PrepareFolder,
                )
            }
        },
        (SplitStage::Preparing, SplitJobEvent::FolderReady) => (
            SplitJobState { spec, parts, sizes, stage: SplitStage::Planning { part: 0 } },
            JobStep::Plan { part: 0 },
        ),
        (SplitStage::Planning { part }, SplitJobEvent::Planned { hardware_viable }) => (
            SplitJobState { spec, parts, sizes, stage: SplitStage::Encoding { part } },
            encode_step(spec, part, hardware_viable),
        ),
        (SplitStage::Encoding { part }, SplitJobEvent::Encoded) => (
            SplitJobState { spec, parts, sizes, stage: SplitStage::Verifying { part } },
            JobStep::Verify { part },
        ),
        (SplitStage::Verifying { part }, SplitJobEvent::Measured { bytes, cancelled }) => {
            if bytes > spec.target_bytes {
                (
                    SplitJobState {
                        spec,
                        parts,
                        sizes,
                        stage: SplitStage::Cleaning { outcome: Phase::Failed },
                    },
                    JobStep::RemoveParts,
                )
            } else {
                sizes.push(bytes);
                if parts >= 1 && part < parts - 1 {
                    let next = part + 1;
                    (
                        SplitJobState { spec, parts, sizes, stage: SplitStage::Planning { part: next } },
                        JobStep::Plan { part: next },
                    )
                } else if cancelled {
                    (
                        SplitJobState {
                            spec,
                            parts,
                            sizes,
                            stage: SplitStage::Cleaning { outcome: Phase::Cancelled },
                        },
                        JobStep::RemoveParts,
                    )
                } else {
                    (
                        SplitJobState { spec, parts, sizes, stage: SplitStage::Recording },
                        JobStep::RecordJournal,
                    )
                }
            }
        },
        (SplitStage::Recording, SplitJobEvent::Recorded) => (
            SplitJobState { spec, parts, sizes, stage: SplitStage::Delivering { reused: false } },
            JobStep::PostActions,
        ),
        (SplitStage::Delivering { .. }, SplitJobEvent::PostDone) => (
            SplitJobState {
                spec,
                parts,
                sizes,
                stage: SplitStage::Finished { outcome: Phase::Done },
            },
            JobStep::Finish(Phase::Done),
        ),
        (SplitStage::Cleaning { outcome }, SplitJobEvent::Removed) => (
            SplitJobState { spec, parts, sizes, stage: SplitStage::Finished { outcome } },
            JobStep::Finish(outcome),
        ),
        (SplitStage::Probing { .. }, SplitJobEvent::Failed { cancelled })
        | (SplitStage::Preparing, SplitJobEvent::Failed { cancelled }) => {
            let outcome = outcome_of(cancelled);
            (
                SplitJobState { spec, parts, sizes, stage: SplitStage::Finished { outcome } },
                JobStep::Finish(outcome),
            )
        },
        (SplitStage::Planning { .. }, SplitJobEvent::Failed { cancelled })
        | (SplitStage::Encoding { .. }, SplitJobEvent::Failed { cancelled })
        | (SplitStage::Verifying { .. }, SplitJobEvent::Failed { cancelled }) => {
            let outcome = outcome_of(cancelled);
            (
                SplitJobState { spec, parts, sizes, stage: SplitStage::Cleaning { outcome } },
                JobStep::RemoveParts,
            )
        },
        _ => (SplitJobState { spec, parts, sizes, stage }, JobStep::Idle),
    }
}

/// A fresh split job of at least one part is well formed.
pub proof fn lemma_split_start_wf(spec: JobSpec, parts: nat)
    requires
        0 < parts <= usize::MAX,
    ensures
        split_wf(SplitJobState::start(spec, parts)),
{
}

/// Every step keeps a split job well formed; it only ends Done with every
/// one of its parts in and each within the target.
pub proof fn lemma_split_done_only_complete_and_fitting(m: SplitModel, e: SplitJobEvent)
    requires
        split_wf(m),
    ensures
        split_wf(split_job_transition(m, e).0),
        split_job_transition(m, e).1 == JobStep::Finish(Phase::Done) ==> ({
            let sizes = split_job_transition(m, e).0.2;
            &&& sizes.len() == m.1
            &&& forall|i: int| 0 <= i < sizes.len() ==> #[trigger] sizes[i] <= m.0.target_bytes
        }),
{
    let r = split_job_transition(m, e);
    let (spec, n, sizes, stage) = m;
    match (stage, e) {
        (SplitStage::Probing { part }, SplitJobEvent::Existing { size, stale }) => {
            if fits(spec, size) && !stale {
                let s2 = sizes.push(size->0);
                assert forall|i: int| 0 <= i < s2.len() implies #[trigger] s2[i]
                    <= spec.target_bytes by {
                    if i < sizes.len() {
                        assert(s2[i] == sizes[i]);
                    }
                }
            }
        },
        (SplitStage::Verifying { part }, SplitJobEvent::Measured { bytes, cancelled }) => {
            if bytes <= spec.target_bytes {
                let s2 = sizes.push(bytes);
                assert forall|i: int| 0 <= i < s2.len() implies #[trigger] s2[i]
                    <= spec.target_bytes by {
                    if i < sizes.len() {
                        assert(s2[i] == sizes[i]);
                    }
                }
            }
        },
        _ => {},
    }
}

/// Reuse is all or nothing: while probing, a part that is missing, does not
/// fit or is stale sends the whole set to a fresh encode (nothing accepted
/// is kept), and the set is served again only once its last part has been
/// found fitting and fresh.
pub proof fn lemma_set_reuse_all_or_nothing(
    m: SplitModel,
    size: Option<u64>,
    stale: bool,
)
    requires
        split_wf(m),
        m.3 is Probing,
    ensures
        ({
            let r = split_job_transition(m, SplitJobEvent::Existing { size, stale });
            let part = m.3->Probing_part;
            &&& !(fits(m.0, size) && !stale) ==> r.1 == JobStep::PrepareFolder && r.0.2.len() == 0
            &&& r.1 == JobStep::ReuseExisting <==> (fits(m.0, size) && !stale && part + 1 == m.1)
            &&& r.1 == JobStep::ReuseExisting ==> r.0.2.len() == m.1
        }),
{
}

/// Once the set's folder is prepared, any failure or cancel, and any part
/// over the target, removes every part of the run before the job ends.
pub proof fn lemma_failure_removes_every_part(m: SplitModel, e: SplitJobEvent)
    requires
        m.3 is Planning || m.3 is Encoding || m.3 is Verifying,
    ensures
        ({
            let r = split_job_transition(m, e);
            &&& e is Failed ==> r.1 == JobStep::RemoveParts && r.0.3 == (SplitStage::Cleaning {
                outcome: failure_phase(e->Failed_cancelled),
            })
            &&& (m.3 is Verifying && e is Measured && e->Measured_bytes > m.0.target_bytes) ==> r.1
                == JobStep::RemoveParts && r.0.3 == (SplitStage::Cleaning { outcome: Phase::Failed })
            &&& r.0.3 is Finished ==> false
        }),
{
}

/// The set's journal record is written only after its last part was
/// delivered within the target and no cancel was seen, and its post-actions
/// run only after that record.
pub proof fn lemma_split_record_before_post_actions(m: SplitModel, e: SplitJobEvent)
    ensures
        split_job_transition(m, e).1 == JobStep::RecordJournal ==> (m.3 is Verifying && m.3->Verifying_part
            + 1 >= m.1 && e is Measured && e->Measured_bytes <= m.0.target_bytes
            && !e->Measured_cancelled),
        split_job_transition(m, e).1 == JobStep::PostActions ==> m.3 == SplitStage::Recording,
{
}

/// A split part starts on hardware exactly as a single-output job with the
/// same spec and plan would: only for an mp4 job that allows hardware and
/// whose plan clears the hardware quality floor; a gif part goes to the
/// palette engine.
pub proof fn lemma_split_parts_choose_hardware_like_single(m: SplitModel, hardware_viable: bool)
    requires
        m.3 is Planning,
    ensures
        ({
            let r = split_job_transition(m, SplitJobEvent::Planned { hardware_viable });
            let single = single_job_transition(
                SingleJobState { spec: m.0, stage: SingleStage::Planning },
                SingleJobEvent::Planned { hardware_viable },
            );
            &&& r.1 is Encode
            &&& r.1->Encode_use_hardware == (m.0.use_hardware && m.0.format == OutputFormat::Mp4
                && hardware_viable)
            &&& r.1->Encode_gif == (m.0.format == OutputFormat::Gif)
            &&& r.1->Encode_part == m.3->Planning_part
            &&& single.1 is Encode
            &&& r.1->Encode_use_hardware == single.1->Encode_use_hardware
            &&& r.1->Encode_gif == single.1->Encode_gif
        }),
{
}

/// The cleanup before a fresh encode never removes an output that could be
/// served (non-empty and within the target), always removes an empty or
/// over-target one, and sweeps siblings only when the base was over the
/// target or something other than a file sits at the path.
pub proof fn lemma_cleanup_spares_fitting_outputs(spec: JobSpec, size: Option<u64>, squatted: bool)
    ensures
        ({
            let c = base_cleanup_spec(spec, size, squatted);
            &&& (size matches Some(b) && 0 < b && b <= spec.target_bytes) ==> !c.remove_base
            &&& (size matches Some(b) && (b == 0 || b > spec.target_bytes)) ==> c.remove_base
            &&& size is None ==> !c.remove_base
            &&& c.sweep_siblings <==> (squatted || (size matches Some(b) && b
                > spec.target_bytes))
        }),
{
}

} // verus!
