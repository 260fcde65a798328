//! The vocabulary of the size-convergence retry policy for bitrate-targeted
//! encodes (mp4/webm): which encoder ran, and what to do next.
use vstd::prelude::*;

verus! {

/// Which encoder produced an attempt (and which one should run next).
#[derive(Clone, Copy, Debug, PartialEq, Eq, Structural)]
pub enum EncoderKind {
    /// Single-pass hardware H.264.
    Hardware,
    /// Two-pass software (libx264 / libvpx-vp9).
    Software,
}

/// The decision for what to do after an encode attempt lands.
#[derive(Clone, Copy, Debug, PartialEq, Eq, Structural)]
pub enum NextAction {
    /// The output fits the byte target: deliver it.
    Done,
    /// Re-encode with the corrected bitrate on the given encoder.
    Retry { video_kbit: u32, encoder: EncoderKind },
    /// Bounded retries exhausted, or a retry would need an unwatchably low
    /// bitrate: fail the job.
    GiveUp,
}

/// Re-encodes allowed after the initial attempt.
pub const MAX_RE_ENCODES: u8 = 3;

/// Bitrate below which a retry can't produce watchable video.
pub const MIN_VIDEO_KBIT: u32 = 50;

/// Width/frame-rate retries allowed after the first gif attempt.
pub const GIF_MAX_RETRIES: u8 = 4;

/// The palette parameters of one gif attempt.
#[derive(Clone, Copy, Debug, PartialEq, Eq, Structural)]
pub struct GifParams {
    pub fps: u32,
    pub max_width: u32,
}

/// What a measured gif attempt leads to.
#[derive(Clone, Copy, Debug, PartialEq, Eq, Structural)]
pub enum GifOutcome {
    /// The attempt fits: verify and deliver it.
    Fits,
    /// Encode again with these parameters.
    Retry(GifParams),
    /// Fail the job with the give-up error.
    GiveUp,
}

/// The gif loop's decision after attempt `attempt` (0 is the first) at
/// `current` measured `actual` bytes, given the shrunken parameters `next`
/// that the retry policy proposes: deliver when it fits; give up when the
/// retries are spent or the policy cannot shrink any further (unchanged
/// parameters would encode the same file again); else retry at `next`.
pub open spec fn gif_outcome(
    attempt: u8,
    actual: u64,
    target_bytes: u64,
    current: GifParams,
    next: GifParams,
) -> GifOutcome {
    if actual <= target_bytes {
        GifOutcome::Fits
    } else if attempt >= GIF_MAX_RETRIES || next == current {
        GifOutcome::GiveUp
    } else {
        GifOutcome::Retry(next)
    }
}

pub fn gif_after_attempt(
    attempt: u8,
    actual: u64,
    target_bytes: u64,
    current: GifParams,
    next: GifParams,
) -> (r: GifOutcome)
    ensures
        r == gif_outcome(attempt, actual, target_bytes, current, next),
{
    if actual <= target_bytes {
        GifOutcome::Fits
    } else if attempt >= GIF_MAX_RETRIES || (next.fps == current.fps && next.max_width
        == current.max_width) {
        GifOutcome::GiveUp
    } else {
        GifOutcome::Retry(next)
    }
}

/// The gif loop ends within its retry budget: the last allowed attempt
/// either fits or gives up, and an over-target attempt is never delivered.
pub proof fn lemma_gif_bounded(
    attempt: u8,
    actual: u64,
    target_bytes: u64,
    current: GifParams,
    next: GifParams,
)
    ensures
        attempt >= GIF_MAX_RETRIES ==> !(gif_outcome(attempt, actual, target_bytes, current, next) is Retry),
        gif_outcome(attempt, actual, target_bytes, current, next) == GifOutcome::Fits <==> actual
            <= target_bytes,
{
}

} // verus!
