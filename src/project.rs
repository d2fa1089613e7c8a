//! A project on disk: where its parts lie, and how its group is read off the
//! source tree.
use vstd::prelude::*;

use crate::deps::{file_name_of_path, path_file_name};
use crate::error::{ErrorKind, SyncError};
use crate::graph::{join_path, joined};

verus! {

/// A project, by its root directory.
#[derive(Clone, Debug)]
pub struct Project {
    /// Root directory of the project
    pub root: String,
}

impl Project {
    pub fn new_root(root: String) -> (r: Project)
        ensures
            r.root@ == root@,
    {
        Project { root }
    }

    pub fn source_root(&self) -> (r: String)
        ensures
            r@ == joined(self.root@, "src"@),
    {
        join_path(self.root.as_str(), "src")
    }

    /// The generated workspace.
    pub fn target_root(&self) -> (r: String)
        ensures
            r@ == joined(self.root@, "target"@),
    {
        join_path(self.root.as_str(), "target")
    }

    pub fn assets_root(&self) -> (r: String)
        ensures
            r@ == joined(self.root@, "assets"@),
    {
        join_path(self.root.as_str(), "assets")
    }

    /// The manifest file.
    pub fn manifest_path(&self) -> (r: String)
        ensures
            r@ == joined(self.root@, "mcmod.yaml"@),
    {
        join_path(self.root.as_str(), "mcmod.yaml")
    }

    /// The build description of the copy graph.
    pub fn build_description_path(&self) -> (r: String)
        ensures
            r@ == joined(self.root@, "build.ninja"@),
    {
        join_path(self.root.as_str(), "build.ninja")
    }

    /// The marker that records the template of the workspace.
    pub fn template_marker_path(&self) -> (r: String)
        ensures
            r@ == joined(joined(self.root@, "target"@), ".mcmod-template"@),
    {
        join_path(self.target_root().as_str(), ".mcmod-template")
    }

    /// The marker that records that the workspace's one-time setup completed.
    pub fn setup_marker_path(&self) -> (r: String)
        ensures
            r@ == joined(joined(self.root@, "target"@), ".mcmod-setup"@),
    {
        join_path(self.target_root().as_str(), ".mcmod-setup")
    }

    /// The project's name: the last component of its root.
    pub fn name(&self) -> (r: Option<String>)
        ensures
            r is Some <==> path_file_name(self.root@) is Some,
            r matches Some(n) ==> path_file_name(self.root@) == Some(n@),
    {
        file_name_of_path(self.root.as_str())
    }
}

/// One entry of a directory of the source tree: its name, where it is text,
/// and whether it is a directory.
#[derive(Clone, Debug)]
pub struct GroupEntry {
    pub name: Option<String>,
    pub is_dir: bool,
}

/// Where the group detection goes from a directory with these entries: into
/// the only entry, where there is exactly one and it is a directory (`Some`
/// of its name), or nowhere (`None`). Fails with `InvalidData` where that
/// directory's name is not text.
pub fn next_group_segment(entries: &Vec<GroupEntry>) -> (r: Result<Option<String>, SyncError>)
    ensures
        entries@.len() != 1 ==> r matches Ok(None),
        entries@.len() == 1 && !entries@[0].is_dir ==> r matches Ok(None),
        entries@.len() == 1 && entries@[0].is_dir && entries@[0].name is None ==> (r matches Err(
            e,
        ) && e.kind == ErrorKind::InvalidData),
        entries@.len() == 1 && entries@[0].is_dir && entries@[0].name is Some ==> (r matches Ok(
            Some(s),
        ) && s@ == entries@[0].name->0@),
{
    if entries.len() != 1 || !entries[0].is_dir {
        return Ok(None);
    }
    match &entries[0].name {
        Some(n) => Ok(Some(n.clone())),
        None => Err(SyncError::with_message(ErrorKind::InvalidData, "Invalid source group name")),
    }
}

/// The group with one more segment: `.` between segments.
pub fn extend_group(group: &mut String, segment: &str)
    ensures
        final(group)@ == if old(group)@.len() == 0 {
            segment@
        } else {
            old(group)@ + "."@ + segment@
        },
{
    if group.as_str().unicode_len() > 0 {
        group.append(".");
    }
    group.append(segment);
    proof {
        if old(group)@.len() == 0 {
            assert(final(group)@ =~= segment@);
        }
    }
}

} // verus!
