use video_fixer::job::{Job, JobAction, JobEvent, Stage};

#[test]
fn successful_job_walks_all_stages() {
    let mut job = Job::new(b"clip.mp4".to_vec());
    assert_eq!(job.stage, Stage::Created);
    assert_eq!(job.start(), JobAction::RunDecode);
    assert_eq!(job.stage, Stage::Extracting);
    assert_eq!(
        job.step(JobEvent::DecodeFinished { frames_found: 8 }),
        JobAction::RunScoring
    );
    assert_eq!(job.stage, Stage::Scoring);
    assert_eq!(job.step(JobEvent::ScoringFinished), JobAction::RunFiltering);
    assert_eq!(job.stage, Stage::Filtering);
    assert_eq!(job.step(JobEvent::FilteringFinished), JobAction::RunEncode);
    assert_eq!(job.stage, Stage::Encoding);
    assert_eq!(job.step(JobEvent::EncodeFinished), JobAction::ReleaseWorkspace);
    assert_eq!(job.stage, Stage::Done);
    assert_eq!(job.output, Some(b"clip_processed.mp4".to_vec()));
}

#[test]
fn decode_failure_ends_job_without_output() {
    let mut job = Job::new(b"missing.mp4".to_vec());
    job.start();
    assert_eq!(job.step(JobEvent::DecodeFailed), JobAction::ReleaseWorkspace);
    assert_eq!(job.stage, Stage::Failed);
    assert_eq!(job.output, None);
}

#[test]
fn zero_frames_decoded_is_a_failure() {
    let mut job = Job::new(b"empty.mp4".to_vec());
    job.start();
    assert_eq!(
        job.step(JobEvent::DecodeFinished { frames_found: 0 }),
        JobAction::ReleaseWorkspace
    );
    assert_eq!(job.stage, Stage::Failed);
    assert_eq!(job.output, None);
}

#[test]
fn encode_failure_ends_job_without_output() {
    let mut job = Job::new(b"clip.mp4".to_vec());
    job.start();
    job.step(JobEvent::DecodeFinished { frames_found: 3 });
    job.step(JobEvent::ScoringFinished);
    job.step(JobEvent::FilteringFinished);
    assert_eq!(job.step(JobEvent::EncodeFailed), JobAction::ReleaseWorkspace);
    assert_eq!(job.stage, Stage::Failed);
    assert_eq!(job.output, None);
}

#[test]
fn mismatched_event_fails_the_job() {
    let mut job = Job::new(b"clip.mp4".to_vec());
    job.start();
    assert_eq!(job.step(JobEvent::EncodeFinished), JobAction::ReleaseWorkspace);
    assert_eq!(job.stage, Stage::Failed);
    assert_eq!(job.output, None);
}
