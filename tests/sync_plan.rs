use mcmod::manifest::Template;
use mcmod::sync::{SyncCommand, SyncState, SyncStep};

#[test]
fn sync_missing_marker_forces_full() {
    let cmd = SyncCommand { incremental: true };
    assert!(!cmd.effective_incremental(false));
    let state = SyncState { recorded_template: None, setup_completed: false };
    let steps = cmd.plan(&state, Template::Gtnh1710);
    assert_eq!(
        steps,
        vec![
            SyncStep::RemoveWorkspace,
            SyncStep::CloneTemplate,
            SyncStep::MergeProperties,
            SyncStep::WriteBuildGraph,
            SyncStep::RunBuildGraph,
            SyncStep::WriteMetadata,
            SyncStep::SyncLibs,
            SyncStep::SyncMods,
            SyncStep::SetupProject,
            SyncStep::RecordSetup,
            SyncStep::RecordTemplate,
            SyncStep::SetupEclipse,
        ]
    );
}

#[test]
fn sync_incremental_with_marker_only_builds() {
    let cmd = SyncCommand { incremental: true };
    assert!(cmd.effective_incremental(true));
    let state = SyncState { recorded_template: Some("gtnh-1.7.10".to_string()), setup_completed: true };
    assert_eq!(
        cmd.plan(&state, Template::Gtnh1710),
        vec![SyncStep::WriteBuildGraph, SyncStep::RunBuildGraph]
    );
}

#[test]
fn sync_full_reuses_unchanged_template() {
    let cmd = SyncCommand { incremental: false };
    let state =
        SyncState { recorded_template: Some("ntmc-1.7.10\n".to_string()), setup_completed: true };
    assert_eq!(
        cmd.plan(&state, Template::Ntmc1710),
        vec![
            SyncStep::MergeProperties,
            SyncStep::WriteBuildGraph,
            SyncStep::RunBuildGraph,
            SyncStep::WriteMetadata,
            SyncStep::SyncLibs,
            SyncStep::SyncMods,
            SyncStep::SetupEclipse,
        ]
    );
}

#[test]
fn sync_full_reprovisions_changed_template() {
    let cmd = SyncCommand { incremental: false };
    let state =
        SyncState { recorded_template: Some("ntmc-1.7.10".to_string()), setup_completed: true };
    let steps = cmd.plan(&state, Template::Gtnh1710);
    assert_eq!(steps[0], SyncStep::RemoveWorkspace);
    assert_eq!(steps[1], SyncStep::CloneTemplate);
    assert!(steps.contains(&SyncStep::SetupProject));
    assert_eq!(*steps.last().unwrap(), SyncStep::SetupEclipse);
}

#[test]
fn sync_setup_reruns_when_its_marker_is_missing() {
    let cmd = SyncCommand { incremental: false };
    let state =
        SyncState { recorded_template: Some("ntmc-1.7.10".to_string()), setup_completed: false };
    let steps = cmd.plan(&state, Template::Ntmc1710);
    assert!(!steps.contains(&SyncStep::CloneTemplate));
    assert!(steps.contains(&SyncStep::SetupProject));
    assert!(steps.contains(&SyncStep::RecordSetup));
}
