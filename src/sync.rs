//! The decisions of a sync: full or incremental, and which steps run in
//! which order.
use vstd::prelude::*;

use crate::manifest::Template;
use crate::text::{chars_of, trim, trim_range};

verus! {

/// One step of a sync, run in order; the first that fails ends the sync.
#[derive(Clone, Copy, Debug, PartialEq, Eq, Structural)]
pub enum SyncStep {
    /// Delete the target workspace, where it exists.
    RemoveWorkspace,
    /// Clone the declared template into the target workspace.
    CloneTemplate,
    /// Merge the generated gradle properties into the workspace's file.
    MergeProperties,
    /// Delete the copied sources, build the copy graph and write its description.
    WriteBuildGraph,
    /// Run the incremental build executor on the description.
    RunBuildGraph,
    /// Write the mod's metadata files.
    WriteMetadata,
    /// Reconcile the build-time libraries.
    SyncLibs,
    /// Reconcile the runtime mods.
    SyncMods,
    /// Run the template's one-time setup.
    SetupProject,
    /// Record that the one-time setup completed, in its marker.
    RecordSetup,
    /// Record the declared template in the workspace marker.
    RecordTemplate,
    /// Generate and post-process the IDE descriptors.
    SetupEclipse,
}

/// The persisted markers of a workspace.
#[derive(Clone, Debug)]
pub struct SyncState {
    /// The text of the "template initialized" marker, where it exists.
    pub recorded_template: Option<String>,
    /// Whether the "one-time setup completed" marker exists.
    pub setup_completed: bool,
}

/// The mode of a sync: incremental only where it is asked for and the
/// template marker exists.
pub open spec fn effective_incremental(requested: bool, marker_present: bool) -> bool {
    requested && marker_present
}

/// The template recorded by the marker differs from the declared one.
pub open spec fn template_changed(recorded: Option<Seq<char>>, declared: Seq<char>) -> bool {
    match recorded {
        Some(r) => trim(r) != declared,
        None => true,
    }
}

/// The steps of a sync.
pub open spec fn sync_steps(
    requested_incremental: bool,
    recorded: Option<Seq<char>>,
    setup_completed: bool,
    declared: Seq<char>,
) -> Seq<SyncStep> {
    if effective_incremental(requested_incremental, recorded is Some) {
        seq![SyncStep::WriteBuildGraph, SyncStep::RunBuildGraph]
    } else {
        let changed = template_changed(recorded, declared);
        let provision = if changed {
            seq![SyncStep::RemoveWorkspace, SyncStep::CloneTemplate]
        } else {
            seq![]
        };
        let setup = if changed || !setup_completed {
            seq![SyncStep::SetupProject, SyncStep::RecordSetup, SyncStep::RecordTemplate]
        } else {
            seq![]
        };
        provision + seq![
            SyncStep::MergeProperties,
            SyncStep::WriteBuildGraph,
            SyncStep::RunBuildGraph,
            SyncStep::WriteMetadata,
            SyncStep::SyncLibs,
            SyncStep::SyncMods,
        ] + setup + seq![SyncStep::SetupEclipse]
    }
}

pub open spec fn recorded_view(s: SyncState) -> Option<Seq<char>> {
    match s.recorded_template {
        Some(r) => Some(r@),
        None => None,
    }
}

/// The `sync` command.
#[derive(Clone, Copy, Debug)]
pub struct SyncCommand {
    /// Only the copied sources and assets are synced; the directory structure
    /// and the manifest are assumed unchanged.
    pub incremental: bool,
}

fn same_text(a: &Vec<char>, b: &Vec<char>) -> (r: bool)
    ensures
        r == (a@ == b@),
{
    if a.len() != b.len() {
        return false;
    }
    let mut i: usize = 0;
    while i < a.len()
        invariant
            i <= a@.len(),
            a@.len() == b@.len(),
            forall|j: int| 0 <= j < i ==> a@[j] == b@[j],
        decreases a@.len() - i,
    {
        if a[i] != b[i] {
            return false;
        }
        i = i + 1;
    }
    assert(a@ =~= b@);
    true
}

impl SyncCommand {
    /// Whether the sync runs incrementally: a missing template marker forces
    /// a full sync, whatever was asked.
    pub fn effective_incremental(&self, marker_present: bool) -> (r: bool)
        ensures
            r == effective_incremental(self.incremental, marker_present),
            !marker_present ==> !r,
    {
        self.incremental && marker_present
    }

    /// The steps of this sync, from the workspace's markers and the template
    /// that the manifest declares.
    pub fn plan(&self, state: &SyncState, declared: Template) -> (r: Vec<SyncStep>)
        ensures
            r@ == sync_steps(
                self.incremental,
                recorded_view(*state),
                state.setup_completed,
                declared.spec_name(),
            ),
    {
        let mut steps: Vec<SyncStep> = Vec::new();
        if self.effective_incremental(state.recorded_template.is_some()) {
            steps.push(SyncStep::WriteBuildGraph);
            steps.push(SyncStep::RunBuildGraph);
            proof {
                assert(steps@ =~= sync_steps(
                    self.incremental,
                    recorded_view(*state),
                    state.setup_completed,
                    declared.spec_name(),
                ));
            }
            return steps;
        }
        let name = declared.name();
        let changed = match &state.recorded_template {
            Some(r) => {
                let c = chars_of(r.as_str());
                let t = trim_range(&c, 0, c.len());
                let n = chars_of(name.as_str());
                proof {
                    assert(c@.subrange(0, c@.len() as int) == c@);
                }
                !same_text(&t, &n)
            },
            None => true,
        };
        if changed {
            steps.push(SyncStep::RemoveWorkspace);
            steps.push(SyncStep::CloneTemplate);
        }
        steps.push(SyncStep::MergeProperties);
        steps.push(SyncStep::WriteBuildGraph);
        steps.push(SyncStep::RunBuildGraph);
        steps.push(SyncStep::WriteMetadata);
        steps.push(SyncStep::SyncLibs);
        steps.push(SyncStep::SyncMods);
        if changed || !state.setup_completed {
            steps.push(SyncStep::SetupProject);
            steps.push(SyncStep::RecordSetup);
            steps.push(SyncStep::RecordTemplate);
        }
        steps.push(SyncStep::SetupEclipse);
        proof {
            assert(steps@ =~= sync_steps(
                self.incremental,
                recorded_view(*state),
                state.setup_completed,
                declared.spec_name(),
            ));
        }
        steps
    }
}

/// Without the template marker a sync is full even when an incremental one is
/// asked for: the workspace is provisioned, the properties merged and the
/// dependencies reconciled, and the one-time setup runs.
pub proof fn lemma_missing_marker_forces_full_sync(
    requested_incremental: bool,
    setup_completed: bool,
    declared: Seq<char>,
)
    ensures
        ({
            let steps = sync_steps(
                requested_incremental,
                None,
                setup_completed,
                declared,
            );
            &&& steps == sync_steps(false, None, setup_completed, declared)
            &&& steps.contains(SyncStep::CloneTemplate)
            &&& steps.contains(SyncStep::MergeProperties)
            &&& steps.contains(SyncStep::SyncLibs)
            &&& steps.contains(SyncStep::SyncMods)
            &&& steps.contains(SyncStep::SetupProject)
        }),
{
    let steps = sync_steps(requested_incremental, None, setup_completed, declared);
    assert(steps[1] == SyncStep::CloneTemplate);
    assert(steps[2] == SyncStep::MergeProperties);
    assert(steps[6] == SyncStep::SyncLibs);
    assert(steps[7] == SyncStep::SyncMods);
    assert(steps[8] == SyncStep::SetupProject);
}

/// An incremental sync regenerates and applies the build graph and nothing
/// else: no provisioning, no merge, no fetch.
pub proof fn lemma_incremental_sync_only_builds(
    recorded: Seq<char>,
    setup_completed: bool,
    declared: Seq<char>,
)
    ensures
        sync_steps(true, Some(recorded), setup_completed, declared) == seq![
            SyncStep::WriteBuildGraph,
            SyncStep::RunBuildGraph,
        ],
{
}

} // verus!
