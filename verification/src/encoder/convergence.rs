//! The decisions of the size-convergence loop for mp4/webm encodes, as a
//! state machine the encoder drives: which encoder runs next (the platform's
//! hardware candidates in order, each tried until one produces output, then
//! two-pass software), what a hardware failure or a measured attempt leads
//! to, and when the loop delivers or gives up. Running ffmpeg, measuring the
//! output and the bitrate arithmetic of the retry policy are the caller's.
use vstd::prelude::*;

use crate::encoder::retry::{EncoderKind, NextAction, MAX_RE_ENCODES};

verus! {

/// Where a job's convergence loop stands.
#[derive(Clone, Copy, Debug, PartialEq, Eq, Structural)]
pub struct Convergence {
    /// The attempt being run (0 is the first encode).
    pub attempt: u8,
    /// The hardware candidates available, as positions `0..candidates`.
    pub candidates: usize,
    /// The next hardware candidate to try; `candidates` when none is left.
    pub next: usize,
    /// Whether the current attempt ran on a hardware encoder.
    pub ran_hardware: bool,
}

/// What the encoder does next.
#[derive(Clone, Copy, Debug, PartialEq, Eq, Structural)]
pub enum ConvergenceStep {
    /// Run a hardware pass with the candidate at this position.
    Hardware(usize),
    /// Run both software passes.
    Software,
}

/// How a hardware pass ended.
#[derive(Clone, Copy, Debug, PartialEq, Eq, Structural)]
pub enum HardwareOutcome {
    /// It wrote a non-empty output: measure it.
    Produced,
    /// It failed or wrote nothing: fall through to the next candidate.
    Failed,
    /// It failed because the job was cancelled: stop with that error.
    Cancelled,
}

/// What a measured attempt leads to.
#[derive(Clone, Copy, Debug, PartialEq, Eq, Structural)]
pub enum AfterMeasure {
    /// Deliver the output.
    Deliver,
    /// Re-encode at this bitrate.
    Retry(u32),
    /// Fail the job with the give-up error.
    GiveUp,
}

impl Convergence {
    /// The loop's invariant: within the retry budget, the next candidate
    /// within the list.
    pub open spec fn wf(self) -> bool {
        &&& self.attempt <= MAX_RE_ENCODES
        &&& self.next <= self.candidates
    }

    /// A decreasing measure: attempts left, then candidates left.
    pub open spec fn progress(self) -> (int, int) {
        (MAX_RE_ENCODES - self.attempt, self.candidates - self.next)
    }

    /// The state after a hardware pass ended with `outcome`.
    pub open spec fn hardware_done(self, outcome: HardwareOutcome) -> Convergence {
        match outcome {
            HardwareOutcome::Produced => Convergence { ran_hardware: true, ..self },
            HardwareOutcome::Failed => Convergence {
                ran_hardware: false,
                next: (self.next + 1) as usize,
                ..self
            },
            HardwareOutcome::Cancelled => self,
        }
    }

    /// The state after a measured attempt and the retry policy's `action`.
    pub open spec fn measured(self, action: NextAction) -> Convergence {
        match action {
            NextAction::Retry { video_kbit, encoder } => Convergence {
                attempt: (self.attempt + 1) as u8,
                ran_hardware: false,
                next: if encoder == EncoderKind::Software { self.candidates } else { self.next },
                ..self
            },
            _ => self,
        }
    }

    /// The start of a job's loop: hardware candidates are used only when
    /// hardware encoding is on and the container is mp4.
    pub fn begin(available: usize, use_hardware: bool, is_mp4: bool) -> (s: Convergence)
        ensures
            s.wf(),
            s.attempt == 0,
            s.next == 0,
            !s.ran_hardware,
            s.candidates == if use_hardware && is_mp4 { available } else { 0 },
    {
        Convergence {
            attempt: 0,
            candidates: if use_hardware && is_mp4 { available } else { 0 },
            next: 0,
            ran_hardware: false,
        }
    }

    /// The encode to run for the current attempt: the next hardware
    /// candidate while one is left, else software.
    pub fn next_step(&self) -> (r: ConvergenceStep)
        requires
            self.wf(),
        ensures
            self.next < self.candidates ==> r == ConvergenceStep::Hardware(self.next),
            self.next >= self.candidates ==> r == ConvergenceStep::Software,
    {
        if self.next < self.candidates {
            ConvergenceStep::Hardware(self.next)
        } else {
            ConvergenceStep::Software
        }
    }

    /// After a hardware pass: produced output is measured as a hardware
    /// attempt; a failure drops that candidate (the same attempt goes on with
    /// the next one, or software); a cancelled one stops the loop (`false`).
    pub fn after_hardware(&mut self, outcome: HardwareOutcome) -> (go_on: bool)
        requires
            old(self).wf(),
            old(self).next < old(self).candidates,
        ensures
            final(self).wf(),
            go_on == (outcome != HardwareOutcome::Cancelled),
            *final(self) == old(self).hardware_done(outcome),
    {
        match outcome {
            HardwareOutcome::Produced => {
                self.ran_hardware = true;
                true
            },
            HardwareOutcome::Failed => {
                self.ran_hardware = false;
                self.next = self.next + 1;
                true
            },
            HardwareOutcome::Cancelled => false,
        }
    }

    /// Which encoder the measured attempt ran on.
    pub fn encoder(&self) -> (r: EncoderKind)
        ensures
            r == if self.ran_hardware { EncoderKind::Hardware } else { EncoderKind::Software },
    {
        if self.ran_hardware {
            EncoderKind::Hardware
        } else {
            EncoderKind::Software
        }
    }

    /// After measuring the attempt and asking the retry policy: deliver, give
    /// up, or retry at the corrected bitrate as the next attempt. A retry on
    /// software drops every remaining hardware candidate (an overshoot means
    /// rate control ignored the request; another vendor will not fix it).
    pub fn after_measure(&mut self, action: NextAction) -> (r: AfterMeasure)
        requires
            old(self).wf(),
            old(self).attempt >= MAX_RE_ENCODES ==> !(action is Retry),
        ensures
            final(self).wf(),
            *final(self) == old(self).measured(action),
            r == match action {
                NextAction::Done => AfterMeasure::Deliver,
                NextAction::GiveUp => AfterMeasure::GiveUp,
                NextAction::Retry { video_kbit, .. } => AfterMeasure::Retry(video_kbit),
            },
    {
        match action {
            NextAction::Done => AfterMeasure::Deliver,
            NextAction::GiveUp => AfterMeasure::GiveUp,
            NextAction::Retry { video_kbit, encoder } => {
                self.attempt = self.attempt + 1;
                self.ran_hardware = false;
                if encoder == EncoderKind::Software {
                    self.next = self.candidates;
                }
                AfterMeasure::Retry(video_kbit)
            },
        }
    }
}

/// Every encode the loop runs moves it on: a failed hardware candidate
/// leaves fewer candidates in the same attempt and a retry starts a later
/// attempt, so the loop runs at most `MAX_RE_ENCODES + 1` attempts and tries
/// each candidate at most once.
pub proof fn lemma_convergence_progresses(s: Convergence, action: NextAction)
    requires
        s.wf(),
        s.next < s.candidates,
        s.attempt >= MAX_RE_ENCODES ==> !(action is Retry),
    ensures
        s.hardware_done(HardwareOutcome::Failed).progress().0 == s.progress().0,
        s.hardware_done(HardwareOutcome::Failed).progress().1 < s.progress().1,
        action is Retry ==> s.measured(action).progress().0 < s.progress().0,
        s.measured(action).wf(),
        0 <= s.measured(action).progress().0,
{
}

/// Once a retry has moved to software, no hardware candidate is offered
/// again for the rest of the job, whatever the later attempts measure.
pub proof fn lemma_software_is_final(s: Convergence, action: NextAction)
    requires
        s.wf(),
        s.next == s.candidates,
    ensures
        s.measured(action).next == s.measured(action).candidates,
{
}

/// A retry that stays on hardware keeps the hardware candidates: the next
/// attempt runs on the same candidate as the one measured (at the corrected
/// bitrate); only a retry on software drops the remaining candidates.
pub proof fn lemma_hardware_retry_keeps_its_encoder(s: Convergence, video_kbit: u32)
    requires
        s.wf(),
        s.next < s.candidates,
    ensures
        ({
            let after = s.hardware_done(HardwareOutcome::Produced).measured(
                NextAction::Retry { video_kbit, encoder: EncoderKind::Hardware },
            );
            &&& after.next == s.next
            &&& after.candidates == s.candidates
            &&& after.next < after.candidates
        }),
        s.measured(NextAction::Retry { video_kbit, encoder: EncoderKind::Hardware }).next == s.next,
        s.measured(NextAction::Retry { video_kbit, encoder: EncoderKind::Software }).next
            == s.candidates,
{
}

} // verus!
