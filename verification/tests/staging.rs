use nightindex::staging::{
    stage_step, CopyFinalizeOutcome, CopyStager, DestinationState, FinalizeStep, StageAttempt,
    StageStep,
};

#[test]
fn stage_uses_pid_unique_directory_and_cleans_up() {
    let mut stager = CopyStager::new(42, 0xabc);
    let stage = stager.stage("/root/nested/out.txt").expect("stage");
    assert!(stage.temp_dir().starts_with("/root/nested"));
    assert!(stage.temp_path().starts_with(stage.temp_dir()));
    assert!(stage.temp_dir().contains("-p42-"));
    let next = stager.stage("/root/nested/out.txt").expect("stage");
    assert_ne!(next.temp_dir(), stage.temp_dir());
    let name = |dir: &str| dir.rsplit('/').next().map(str::to_string);
    let elsewhere = stager.stage("/root/other/out.txt").expect("stage");
    assert_ne!(name(elsewhere.temp_dir()), name(stage.temp_dir()));
    assert_eq!(stage.temp_path(), format!("{}/out.txt", stage.temp_dir()));
}

#[test]
fn finalize_skips_race_conflict_without_touching_destination() {
    let mut stager = CopyStager::new(1, 2);
    let stage = stager.stage("/d/out.txt").expect("stage");
    match stage.finalize("/d/out.txt", false, DestinationState::Present) {
        FinalizeStep::Skip(CopyFinalizeOutcome::SkippedConflict { reason }) => {
            assert_eq!(
                reason,
                "destination appeared before finalization: /d/out.txt"
            )
        }
        other => panic!("{:?}", other),
    }
}

#[test]
fn finalize_replaces_existing_file_on_unix() {
    let mut stager = CopyStager::new(1, 2);
    let stage = stager.stage("/d/out.txt").expect("stage");
    assert!(matches!(
        stage.finalize("/d/out.txt", true, DestinationState::Present),
        FinalizeStep::Rename
    ));
    assert!(matches!(
        stage.finalize("/d/out.txt", false, DestinationState::Absent),
        FinalizeStep::Rename
    ));
    assert!(matches!(
        stage.finalize("/d/out.txt", false, DestinationState::Unknown),
        FinalizeStep::Fail
    ));
}

#[test]
fn a_directory_that_is_taken_is_tried_again() {
    assert_eq!(stage_step(1, StageAttempt::Created), StageStep::Use);
    assert_eq!(stage_step(1, StageAttempt::AlreadyExists), StageStep::Retry);
    assert_eq!(stage_step(1, StageAttempt::Failed), StageStep::Fail);
    assert_eq!(
        stage_step(1_000_000, StageAttempt::AlreadyExists),
        StageStep::Exhausted
    );
}

#[test]
fn a_path_without_a_parent_cannot_be_staged() {
    assert!(CopyStager::new(1, 2).stage("/").is_none());
}
