//! The project manifest: dependency lists, copy rules, property overrides and
//! descriptive fields of the mod.
use vstd::prelude::*;

use crate::properties::PropertyMap;
use crate::text::{replace_char, replace_char_exec};

verus! {

/// A copy rule: a path copied to the same place in the workspace, or a source
/// and a target. A source written `null` retires the target: it is deleted,
/// nothing is copied.
#[derive(Clone, Debug)]
pub enum CopySpec {
    Simple(String),
    SourceTarget(String, String),
}

/// The source written in a copy rule to retire its target.
pub const RETIRED_SOURCE: &'static str = "null";

/// The workspace template that a project is built on.
#[derive(Clone, Copy, Debug, PartialEq, Eq, Structural)]
pub enum Template {
    Ntmc1710,
    Gtnh1710,
}

impl Template {
    /// The name under which the template is declared and recorded.
    pub open spec fn spec_name(self) -> Seq<char> {
        match self {
            Template::Ntmc1710 => "ntmc-1.7.10"@,
            Template::Gtnh1710 => "gtnh-1.7.10"@,
        }
    }

    pub fn name(&self) -> (r: String)
        ensures
            r@ == self.spec_name(),
    {
        match self {
            Template::Ntmc1710 => "ntmc-1.7.10".to_string(),
            Template::Gtnh1710 => "gtnh-1.7.10".to_string(),
        }
    }

    /// The template's name, as it is shown.
    pub fn to_string(&self) -> (r: String)
        ensures
            r@ == self.spec_name(),
    {
        self.name()
    }

    /// The template declared under `name`, if any.
    pub fn from_name(name: &str) -> (r: Option<Template>)
        ensures
            r matches Some(t) ==> t.spec_name() == name@,
            r is None ==> name@ != Template::Ntmc1710.spec_name() && name@
                != Template::Gtnh1710.spec_name(),
    {
        let n = name.to_string();
        if n == "ntmc-1.7.10".to_string() {
            Some(Template::Ntmc1710)
        } else if n == "gtnh-1.7.10".to_string() {
            Some(Template::Gtnh1710)
        } else {
            None
        }
    }
}

/// Where a template is cloned from.
#[derive(Clone, Debug)]
pub struct TemplateDef {
    pub url: String,
    pub branch: String,
}

/// The project manifest.
#[derive(Clone, Debug)]
pub struct Mcmod {
    /// Template being used
    pub template: Template,
    /// Name of the mod
    pub name: String,
    /// Mod id
    pub modid: String,
    /// Mod description
    pub description: String,
    /// Url of the mod
    pub url: String,
    /// Update url
    pub update_url: String,
    /// List of authors
    pub authors: Vec<String>,
    /// Credit info
    pub credits: String,
    /// Logo file
    pub logo: String,
    /// Screenshot files
    pub screenshots: Vec<String>,
    /// Mod version; any string
    pub version: String,
    /// Version to use for artifacts
    pub artifact_version: String,
    /// The group
    pub group: String,
    /// The archive base name
    pub archives_base_name: String,
    /// The api package
    pub api: String,
    /// The coremod class
    pub coremod: String,
    /// The access transformer files
    pub access_transformers: Vec<String>,
    /// The mixin package
    pub mixins: String,
    /// Libraries to download
    pub libs: Vec<String>,
    /// Mods to download
    pub mods: Vec<String>,
    /// Gradle property overrides
    pub gradle_overrides: PropertyMap,
    /// Paths to copy to the template
    pub copy_paths: Vec<CopySpec>,
}

impl Mcmod {
    /// Whether `apply_defaults` needs the group detected from the source tree.
    pub fn needs_source_group(&self) -> (r: bool)
        ensures
            r == (self.group@.len() == 0),
    {
        self.group.as_str().unicode_len() == 0
    }

    /// Fills the fields that the manifest left empty: the update url from the
    /// url, the artifact version from the version, the group from
    /// `source_group` (the group detected from the source tree), and the
    /// archive base name from the name with spaces turned into `-`.
    pub fn apply_defaults(&mut self, source_group: &str)
        ensures
            final(self).update_url@ == if old(self).update_url@.len() == 0 && old(self).url@.len()
                > 0 {
                old(self).url@
            } else {
                old(self).update_url@
            },
            final(self).artifact_version@ == if old(self).artifact_version@.len() == 0 {
                old(self).version@
            } else {
                old(self).artifact_version@
            },
            final(self).group@ == if old(self).group@.len() == 0 {
                source_group@
            } else {
                old(self).group@
            },
            final(self).archives_base_name@ == if old(self).archives_base_name@.len() == 0 {
                replace_char(old(self).name@, ' ', '-')
            } else {
                old(self).archives_base_name@
            },
            final(self).template == old(self).template,
            final(self).name == old(self).name,
            final(self).modid == old(self).modid,
            final(self).url == old(self).url,
            final(self).version == old(self).version,
            final(self).api == old(self).api,
            final(self).coremod == old(self).coremod,
            final(self).mixins == old(self).mixins,
            final(self).access_transformers == old(self).access_transformers,
            final(self).libs == old(self).libs,
            final(self).mods == old(self).mods,
            final(self).copy_paths == old(self).copy_paths,
            final(self).description == old(self).description,
            final(self).authors == old(self).authors,
            final(self).credits == old(self).credits,
            final(self).logo == old(self).logo,
            final(self).screenshots == old(self).screenshots,
            final(self).gradle_overrides == old(self).gradle_overrides,
    {
        if self.update_url.as_str().unicode_len() == 0 && self.url.as_str().unicode_len() > 0 {
            self.update_url = self.url.clone();
        }
        if self.artifact_version.as_str().unicode_len() == 0 {
            self.artifact_version = self.version.clone();
        }
        if self.group.as_str().unicode_len() == 0 {
            self.group = source_group.to_string();
        }
        if self.archives_base_name.as_str().unicode_len() == 0 {
            self.archives_base_name = replace_char_exec(self.name.as_str(), ' ', '-');
        }
    }
}

} // verus!
