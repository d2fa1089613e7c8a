//! What each workspace template needs: the gradle properties generated from
//! the manifest, the java version for a gradle task, and where its
//! directories lie.
use vstd::prelude::*;

use crate::error::{ErrorKind, SyncError};
use crate::graph::{join_path, joined};
use crate::manifest::{Mcmod, Template};
use crate::properties::{entry_views, insert_all, Entry, PropertyMap};
use crate::text::{
    concat_str, ends_with, join_words, join_words_exec, replace_char, replace_char_exec,
    strip_prefix, strip_prefix_exec,
};

verus! {

pub open spec fn words(v: Seq<String>) -> Seq<Seq<char>> {
    v.map_values(|w: String| w@)
}

/// The access transformer files, separated by spaces.
pub open spec fn access_transformers_value(m: Mcmod) -> Seq<char> {
    join_words(words(m.access_transformers@), " "@)
}

/// The group followed by `.`: the prefix of every package of the mod.
pub open spec fn group_prefix(m: Mcmod) -> Seq<char> {
    m.group@.push('.')
}

/// A package or class name relative to the group, or empty where none is given.
pub open spec fn in_group(m: Mcmod, s: Seq<char>) -> Seq<char> {
    if s.len() == 0 {
        seq![]
    } else {
        strip_prefix(s, group_prefix(m))->0
    }
}

pub open spec fn outside_group(m: Mcmod, s: Seq<char>) -> bool {
    s.len() > 0 && strip_prefix(s, group_prefix(m)) is None
}

/// The manifest breaks a rule of the GTNH template: it sets a version (the
/// template takes it from git), a package lies outside the group, or mixins
/// come without a coremod.
pub open spec fn gtnh_rejects(m: Mcmod) -> bool {
    ||| m.version@.len() > 0 || m.artifact_version@.len() > 0
    ||| outside_group(m, m.api@)
    ||| outside_group(m, m.mixins@)
    ||| (m.mixins@.len() > 0 && m.coremod@.len() == 0)
    ||| outside_group(m, m.coremod@)
}

/// The gradle properties of the GTNH template, by key in alphabetical order.
pub open spec fn gtnh_pairs(m: Mcmod) -> Seq<Entry> {
    let uses_mixins = m.mixins@.len() > 0;
    seq![
        ("accessTransformersFile"@, access_transformers_value(m)),
        ("apiPackage"@, in_group(m, m.api@)),
        ("coreModClass"@, in_group(m, m.coremod@)),
        ("customArchiveBaseName"@, m.archives_base_name@),
        ("disableSpotless"@, "true"@),
        ("generateGradleTokenClass"@, m.group@ + ".Tags_GENERATED"@),
        ("mixinPlugin"@, if uses_mixins { in_group(m, m.coremod@) } else { seq![] }),
        ("mixinsPackage"@, in_group(m, m.mixins@)),
        ("modGroup"@, m.group@),
        ("modId"@, m.modid@),
        ("modName"@, m.name@),
        ("usesMixins"@, if uses_mixins { "true"@ } else { "false"@ }),
    ]
}

/// The api pattern of the NTMC template: the api package as a path, ending
/// in `/**`; empty where there is no api package.
pub open spec fn api_pattern(api: Seq<char>) -> Seq<char> {
    if api.len() == 0 {
        seq![]
    } else {
        let p = replace_char(api, '.', '/');
        let d = if ends_with(p, "/"@) {
            p
        } else {
            p.push('/')
        };
        d + "**"@
    }
}

/// The gradle properties of the NTMC template, by key in alphabetical order.
pub open spec fn ntmc_pairs(m: Mcmod) -> Seq<Entry> {
    seq![
        ("modAccessTransformer"@, access_transformers_value(m)),
        ("modApiPattern"@, api_pattern(m.api@)),
        ("modArchivesBaseName"@, m.archives_base_name@),
        ("modArtifactVersion"@, m.artifact_version@),
        ("modCoremod"@, m.coremod@),
        ("modGroup"@, m.group@),
        ("modGroupInternal"@, replace_char(m.group@, '.', '/')),
        ("modId"@, m.modid@),
        ("modName"@, m.name@),
        ("modVersion"@, m.version@),
    ]
}

fn is_empty_str(s: &String) -> (r: bool)
    ensures
        r == (s@.len() == 0),
{
    s.as_str().unicode_len() == 0
}

fn group_error(what: &str, m: &Mcmod) -> (e: SyncError)
    ensures
        e.kind == ErrorKind::Other,
{
    let mut msg = what.to_string();
    msg.append(" must be in the same group as the mod ('");
    msg.append(m.group.as_str());
    msg.append("')");
    SyncError::new(ErrorKind::Other, msg)
}

/// `s` relative to the group: empty where `s` is empty, `None` where `s`
/// lies outside the group.
fn relative_to_group(m: &Mcmod, s: &String) -> (r: Option<String>)
    ensures
        r is None <==> outside_group(*m, s@),
        r matches Some(x) ==> x@ == in_group(*m, s@),
{
    if is_empty_str(s) {
        return Some(String::new());
    }
    let mut prefix = m.group.clone();
    prefix.append(".");
    proof {
        reveal_strlit(".");
        assert(prefix@ =~= group_prefix(*m));
    }
    strip_prefix_exec(s.as_str(), prefix.as_str())
}

/// The GTNH 1.7.10 template.
#[derive(Clone, Copy, Debug)]
pub struct Gtnh1710Handler;

impl Gtnh1710Handler {
    pub fn mc_version(&self) -> (r: &'static str)
        ensures
            r@ == "1.7.10"@,
    {
        "1.7.10"
    }

    /// The gradle property that holds the mod version.
    pub fn mcmod_version_key(&self) -> (r: &'static str)
        ensures
            r@ == "modVersion"@,
    {
        "modVersion"
    }

    /// The java version for a gradle run: 17 where the first task ends in
    /// `17`, 8 otherwise.
    pub fn java_version(&self, args: &Vec<String>) -> (r: u32)
        ensures
            r == (if args@.len() > 0 && ends_with(args@[0]@, "17"@) {
                17u32
            } else {
                8u32
            }),
    {
        proof {
            reveal_strlit("17");
        }
        if args.len() > 0 {
            let a = crate::text::chars_of(args[0].as_str());
            let n = a.len();
            if n >= 2 && a[n - 2] == '1' && a[n - 1] == '7' {
                proof {
                    assert(a@.subrange(n - 2, n as int) =~= "17"@);
                }
                return 17;
            }
            proof {
                if ends_with(args@[0]@, "17"@) && n >= 2 {
                    assert(a@.subrange(n - 2, n as int)[0] == a@[n - 2]);
                    assert(a@.subrange(n - 2, n as int)[1] == a@[n - 1]);
                }
            }
        }
        8
    }

    /// The gradle properties generated from the manifest. Fails with `Other`
    /// exactly where the manifest breaks a rule of the template.
    pub fn make_gradle_properties(&self, m: &Mcmod) -> (r: Result<PropertyMap, SyncError>)
        ensures
            r is Ok <==> !gtnh_rejects(*m),
            r matches Ok(p) ==> p.wf() && p@ == insert_all(Seq::empty(), gtnh_pairs(*m)),
            r matches Err(e) ==> e.kind == ErrorKind::Other,
    {
        if !is_empty_str(&m.version) || !is_empty_str(&m.artifact_version) {
            return Err(
                SyncError::with_message(
                    ErrorKind::Other,
                    "Version is automatically determined from git for this template. Remove the versions in the manifest",
                ),
            );
        }
        let api = match relative_to_group(m, &m.api) {
            Some(x) => x,
            None => {
                return Err(group_error("api package", m));
            },
        };
        let uses_mixins = !is_empty_str(&m.mixins);
        let mixins = match relative_to_group(m, &m.mixins) {
            Some(x) => x,
            None => {
                return Err(group_error("mixins package", m));
            },
        };
        if uses_mixins && is_empty_str(&m.coremod) {
            return Err(
                SyncError::with_message(
                    ErrorKind::Other,
                    "coremod class must be specified (and implement IMixinConfigPlugin) if mixins are used",
                ),
            );
        }
        let coremod = match relative_to_group(m, &m.coremod) {
            Some(x) => x,
            None => {
                return Err(group_error("coremod class", m));
            },
        };
        let mixin_plugin = if uses_mixins {
            coremod.clone()
        } else {
            String::new()
        };
        let mut pairs: Vec<(String, String)> = Vec::new();
        pairs.push(
            (
                "accessTransformersFile".to_string(),
                join_words_exec(&m.access_transformers, " "),
            ),
        );
        pairs.push(("apiPackage".to_string(), api));
        pairs.push(("coreModClass".to_string(), coremod));
        pairs.push(("customArchiveBaseName".to_string(), m.archives_base_name.clone()));
        pairs.push(("disableSpotless".to_string(), "true".to_string()));
        pairs.push(
            ("generateGradleTokenClass".to_string(), concat_str(m.group.as_str(), ".Tags_GENERATED")),
        );
        pairs.push(("mixinPlugin".to_string(), mixin_plugin));
        pairs.push(("mixinsPackage".to_string(), mixins));
        pairs.push(("modGroup".to_string(), m.group.clone()));
        pairs.push(("modId".to_string(), m.modid.clone()));
        pairs.push(("modName".to_string(), m.name.clone()));
        pairs.push(
            ("usesMixins".to_string(), if uses_mixins {
                "true".to_string()
            } else {
                "false".to_string()
            }),
        );
        proof {
            assert(entry_views(pairs@) =~= gtnh_pairs(*m));
        }
        Ok(PropertyMap::from_pairs(pairs))
    }
}

/// The NTMC 1.7.10 template.
#[derive(Clone, Copy, Debug)]
pub struct Ntmc1710Handler;

impl Ntmc1710Handler {
    pub fn mc_version(&self) -> (r: &'static str)
        ensures
            r@ == "1.7.10"@,
    {
        "1.7.10"
    }

    /// The gradle property that holds the mod version.
    pub fn mcmod_version_key(&self) -> (r: &'static str)
        ensures
            r@ == "version"@,
    {
        "version"
    }

    /// The java version for a gradle run: always 8.
    pub fn java_version(&self, args: &Vec<String>) -> (r: u32)
        ensures
            r == 8,
    {
        8
    }

    /// The gradle properties generated from the manifest. Fails with `Other`
    /// exactly where the manifest uses mixins, which the template does not
    /// support.
    pub fn make_gradle_properties(&self, m: &Mcmod) -> (r: Result<PropertyMap, SyncError>)
        ensures
            r is Ok <==> m.mixins@.len() == 0,
            r matches Ok(p) ==> p.wf() && p@ == insert_all(Seq::empty(), ntmc_pairs(*m)),
            r matches Err(e) ==> e.kind == ErrorKind::Other,
    {
        if !is_empty_str(&m.mixins) {
            return Err(
                SyncError::with_message(ErrorKind::Other, "Mixins are not supported by this template"),
            );
        }
        let api_pattern = if is_empty_str(&m.api) {
            String::new()
        } else {
            let p = replace_char_exec(m.api.as_str(), '.', '/');
            let c = crate::text::chars_of(p.as_str());
            let mut d = p.clone();
            if !(c.len() > 0 && c[c.len() - 1] == '/') {
                d.append("/");
            }
            proof {
                reveal_strlit("/");
                let pv = replace_char(m.api@, '.', '/');
                if c@.len() > 0 && c@[c@.len() - 1] == '/' {
                    assert(pv.subrange(pv.len() - 1, pv.len() as int) =~= "/"@);
                } else if ends_with(pv, "/"@) {
                    assert(pv.subrange(pv.len() - 1, pv.len() as int)[0] == pv[pv.len() - 1]);
                }
            }
            d.append("**");
            proof {
                let pv = replace_char(m.api@, '.', '/');
                if ends_with(pv, "/"@) {
                    assert(d@ =~= pv + "**"@);
                } else {
                    assert(d@ =~= pv.push('/') + "**"@);
                }
            }
            d
        };
        let mut pairs: Vec<(String, String)> = Vec::new();
        pairs.push(("modAccessTransformer".to_string(), join_words_exec(&m.access_transformers, " ")));
        pairs.push(("modApiPattern".to_string(), api_pattern));
        pairs.push(("modArchivesBaseName".to_string(), m.archives_base_name.clone()));
        pairs.push(("modArtifactVersion".to_string(), m.artifact_version.clone()));
        pairs.push(("modCoremod".to_string(), m.coremod.clone()));
        pairs.push(("modGroup".to_string(), m.group.clone()));
        pairs.push(("modGroupInternal".to_string(), replace_char_exec(m.group.as_str(), '.', '/')));
        pairs.push(("modId".to_string(), m.modid.clone()));
        pairs.push(("modName".to_string(), m.name.clone()));
        pairs.push(("modVersion".to_string(), m.version.clone()));
        proof {
            assert(entry_views(pairs@) =~= ntmc_pairs(*m));
        }
        Ok(PropertyMap::from_pairs(pairs))
    }
}

impl Template {
    /// The gradle properties that the template generates from the manifest.
    pub fn make_gradle_properties(&self, m: &Mcmod) -> (r: Result<PropertyMap, SyncError>)
        ensures
            r is Ok <==> match self {
                Template::Ntmc1710 => m.mixins@.len() == 0,
                Template::Gtnh1710 => !gtnh_rejects(*m),
            },
            r matches Ok(p) ==> p.wf() && p@ == insert_all(
                Seq::empty(),
                match self {
                    Template::Ntmc1710 => ntmc_pairs(*m),
                    Template::Gtnh1710 => gtnh_pairs(*m),
                },
            ),
            r matches Err(e) ==> e.kind == ErrorKind::Other,
    {
        match self {
            Template::Ntmc1710 => Ntmc1710Handler.make_gradle_properties(m),
            Template::Gtnh1710 => Gtnh1710Handler.make_gradle_properties(m),
        }
    }

    /// The java version that a gradle run with these tasks needs.
    pub fn java_version(&self, args: &Vec<String>) -> (r: u32)
        ensures
            r == match self {
                Template::Ntmc1710 => 8u32,
                Template::Gtnh1710 => if args@.len() > 0 && ends_with(args@[0]@, "17"@) {
                    17u32
                } else {
                    8u32
                },
            },
    {
        match self {
            Template::Ntmc1710 => Ntmc1710Handler.java_version(args),
            Template::Gtnh1710 => Gtnh1710Handler.java_version(args),
        }
    }

    /// The build output directory of a workspace.
    pub fn output_dir(&self, target_root: &str) -> (r: String)
        ensures
            r@ == joined(joined(target_root@, "build"@), "libs"@),
    {
        join_path(join_path(target_root, "build").as_str(), "libs")
    }

    /// The directory of build-time libraries of a workspace.
    pub fn libs_dir(&self, target_root: &str) -> (r: String)
        ensures
            r@ == joined(target_root@, "libs"@),
    {
        join_path(target_root, "libs")
    }

    /// The runtime directory of a workspace.
    pub fn run_dir(&self, target_root: &str) -> (r: String)
        ensures
            r@ == joined(target_root@, "run"@),
    {
        join_path(target_root, "run")
    }
}

} // verus!
