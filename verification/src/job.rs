//! The state machine that sequences one repair job.
//!
//! A job runs Created → Extracting → Scoring → Filtering → Encoding and ends
//! Done or Failed.  The machine decides; the shell performs: each step hands
//! back the action to run next, and the shell reports the outcome as the
//! next event.  Whatever stage fails, the job ends Failed with its workspace
//! released and no output path recorded: the caller is left with either a
//! complete output video or none.

use vstd::prelude::*;

use crate::adapter::{base_start, output_name, spec_output_name};

verus! {

/// The stages of one repair job.
#[derive(Clone, Copy, Debug, PartialEq, Eq, Structural)]
pub enum Stage {
    Created,
    Extracting,
    Scoring,
    Filtering,
    Encoding,
    Done,
    Failed,
}

/// What the shell reports when a stage's outside work ends.
#[derive(Clone, Copy, Debug, PartialEq, Eq, Structural)]
pub enum JobEvent {
    /// The decode process ended and the workspace holds this many frames.
    /// Zero frames is a decode failure: there is nothing to repair.
    DecodeFinished { frames_found: usize },
    /// The decode process could not run or exited reporting failure.
    DecodeFailed,
    /// All adjacent pairs are scored and the decisions are in hand.
    ScoringFinished,
    /// The dropped frames are gone from the workspace.
    FilteringFinished,
    /// The encode process wrote the complete output file.
    EncodeFinished,
    /// The encode process failed; no partial output file is kept.
    EncodeFailed,
}

/// What the shell must do next.
#[derive(Clone, Copy, Debug, PartialEq, Eq, Structural)]
pub enum JobAction {
    /// Split the input video into numbered frames in a fresh workspace.
    RunDecode,
    /// Collect the frames and score adjacent pairs.
    RunScoring,
    /// Delete the frames the decisions marked drop.
    RunFiltering,
    /// Assemble the surviving frames into the output video.
    RunEncode,
    /// Destroy the workspace and everything in it; the job is over.
    ReleaseWorkspace,
}

/// The stage a job moves to on an event.  An event that does not belong to
/// the current stage fails the job: any stage may transition to Failed.
pub open spec fn spec_next(stage: Stage, event: JobEvent) -> Stage {
    match (stage, event) {
        (Stage::Extracting, JobEvent::DecodeFinished { frames_found }) => if frames_found > 0 {
            Stage::Scoring
        } else {
            Stage::Failed
        },
        (Stage::Extracting, JobEvent::DecodeFailed) => Stage::Failed,
        (Stage::Scoring, JobEvent::ScoringFinished) => Stage::Filtering,
        (Stage::Filtering, JobEvent::FilteringFinished) => Stage::Encoding,
        (Stage::Encoding, JobEvent::EncodeFinished) => Stage::Done,
        (Stage::Encoding, JobEvent::EncodeFailed) => Stage::Failed,
        _ => Stage::Failed,
    }
}

/// The action owed after an event: the next stage's work, or the release of
/// the workspace when the job ends — which it does on success and on
/// failure alike, so no temporary files outlive a job.
pub open spec fn spec_action_for(stage: Stage) -> JobAction {
    match stage {
        Stage::Created => JobAction::RunDecode,
        Stage::Extracting => JobAction::RunDecode,
        Stage::Scoring => JobAction::RunScoring,
        Stage::Filtering => JobAction::RunFiltering,
        Stage::Encoding => JobAction::RunEncode,
        Stage::Done => JobAction::ReleaseWorkspace,
        Stage::Failed => JobAction::ReleaseWorkspace,
    }
}

/// One repair job: the input path, the stage it is in, and the output path
/// once one exists.
pub struct Job {
    pub input: Vec<u8>,
    pub stage: Stage,
    pub output: Option<Vec<u8>>,
}

impl Job {
    /// A job records an output path exactly when it is done, and the path is
    /// then the processed name of its input.  A failed or unfinished job has
    /// none: no partial output is ever reported.
    pub open spec fn wf(self) -> bool {
        &&& base_start(self.input@) < self.input@.len()
        &&& (self.output is Some <==> self.stage == Stage::Done)
        &&& (self.output matches Some(o) ==> o@ == spec_output_name(self.input@))
    }

    /// A fresh job for the given input path, not yet started.
    pub fn new(input: Vec<u8>) -> (j: Job)
        requires
            base_start(input@) < input@.len(),
        ensures
            j.wf(),
            j.stage == Stage::Created,
            j.input@ == input@,
    {
        Job { input, stage: Stage::Created, output: None }
    }

    /// Starts the job: the one step out of Created, handing the shell the
    /// decode work.
    pub fn start(&mut self) -> (a: JobAction)
        requires
            old(self).wf(),
            old(self).stage == Stage::Created,
        ensures
            final(self).wf(),
            final(self).stage == Stage::Extracting,
            final(self).input@ == old(self).input@,
            a == JobAction::RunDecode,
    {
        self.stage = Stage::Extracting;
        JobAction::RunDecode
    }

    /// Advances the machine on a completion event and returns the action the
    /// shell owes next.  The stage moves as `spec_next` says; the job ends
    /// Done with its output path recorded only on a finished encode, and
    /// ends Failed — workspace released, no output — on any failure.
    pub fn step(&mut self, event: JobEvent) -> (a: JobAction)
        requires
            old(self).wf(),
        ensures
            final(self).wf(),
            final(self).input@ == old(self).input@,
            final(self).stage == spec_next(old(self).stage, event),
            a == spec_action_for(final(self).stage),
            final(self).stage == Stage::Done ==> (final(self).output matches Some(o) && o@
                == spec_output_name(old(self).input@)),
            final(self).stage == Stage::Failed ==> final(self).output is None,
    {
        let next: Stage = match (self.stage, event) {
            (Stage::Extracting, JobEvent::DecodeFinished { frames_found }) => if frames_found > 0 {
                Stage::Scoring
            } else {
                Stage::Failed
            },
            (Stage::Extracting, JobEvent::DecodeFailed) => Stage::Failed,
            (Stage::Scoring, JobEvent::ScoringFinished) => Stage::Filtering,
            (Stage::Filtering, JobEvent::FilteringFinished) => Stage::Encoding,
            (Stage::Encoding, JobEvent::EncodeFinished) => Stage::Done,
            (Stage::Encoding, JobEvent::EncodeFailed) => Stage::Failed,
            _ => Stage::Failed,
        };
        self.stage = next;
        match next {
            Stage::Done => {
                self.output = Some(output_name(&self.input));
                JobAction::ReleaseWorkspace
            },
            Stage::Failed => {
                self.output = None;
                JobAction::ReleaseWorkspace
            },
            Stage::Scoring => JobAction::RunScoring,
            Stage::Filtering => JobAction::RunFiltering,
            Stage::Encoding => JobAction::RunEncode,
            _ => JobAction::ReleaseWorkspace,
        }
    }
}

/// A failed decode ends the job: the machine moves to Failed, the one owed
/// action is the release of the workspace, and no output path exists.
pub proof fn lemma_decode_failure_ends_job(j: Job, event: JobEvent)
    requires
        j.wf(),
        j.stage == Stage::Extracting,
        event == JobEvent::DecodeFailed || event == (JobEvent::DecodeFinished {
            frames_found: 0,
        }),
    ensures
        spec_next(j.stage, event) == Stage::Failed,
        spec_action_for(spec_next(j.stage, event)) == JobAction::ReleaseWorkspace,
{
}

} // verus!
