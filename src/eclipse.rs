//! The decisions of the IDE descriptor post-processing: which classpath
//! entries point elsewhere, and which text of the project descriptor is the
//! project's name.
use vstd::prelude::*;

use crate::text::text_is;

verus! {

/// A change to one classpath entry: its new `path`, and its new `output`.
#[derive(Clone, Debug)]
pub struct ClasspathChange {
    pub path: Option<String>,
    pub output: Option<String>,
}

/// How a classpath entry with `path` changes: the java sources are the
/// project's `src`; the resources are the project's `assets` where those
/// exist, else the workspace's, with output `bin/assets`. Other entries stay.
pub fn classpath_change(path: &str, assets_exist: bool) -> (r: ClasspathChange)
    ensures
        path@ == "src/main/java"@ ==> (r.path matches Some(p) && p@ == "src"@) && r.output is None,
        path@ == "src/main/resources"@ ==> (r.path matches Some(p) && p@ == (if assets_exist {
            "assets"@
        } else {
            "target/src/main/resources"@
        })) && (r.output matches Some(o) && o@ == "bin/assets"@),
        path@ != "src/main/java"@ && path@ != "src/main/resources"@ ==> r.path is None
            && r.output is None,
{
    proof {
        reveal_strlit("src/main/java");
        reveal_strlit("src/main/resources");
        assert("src/main/java"@.len() != "src/main/resources"@.len());
    }
    if text_is(path, "src/main/java") {
        ClasspathChange { path: Some("src".to_string()), output: None }
    } else if text_is(path, "src/main/resources") {
        if assets_exist {
            ClasspathChange { path: Some("assets".to_string()), output: Some("bin/assets".to_string()) }
        } else {
            ClasspathChange {
                path: Some("target/src/main/resources".to_string()),
                output: Some("bin/assets".to_string()),
            }
        }
    } else {
        ClasspathChange { path: None, output: None }
    }
}

/// Follows the events of a project descriptor to find the text of each
/// `name` element directly below the root element.
#[derive(Clone, Copy, Debug)]
pub struct ProjectNameRewriter {
    level: u64,
    found_name: bool,
}

impl ProjectNameRewriter {
    pub closed spec fn level(&self) -> nat {
        self.level as nat
    }

    pub closed spec fn armed(&self) -> bool {
        self.found_name
    }

    pub fn new() -> (r: ProjectNameRewriter)
        ensures
            r.level() == 0,
            !r.armed(),
    {
        ProjectNameRewriter { level: 0, found_name: false }
    }

    /// An element starts; `is_name` tells whether it is a `name` element.
    pub fn on_start(&mut self, is_name: bool)
        ensures
            final(self).armed() == (old(self).armed() || (old(self).level() == 1 && is_name)),
            final(self).level() == if old(self).level() < u64::MAX {
                old(self).level() + 1
            } else {
                old(self).level() + 0
            },
    {
        if !self.found_name && self.level == 1 && is_name {
            self.found_name = true;
        }
        if self.level < u64::MAX {
            self.level = self.level + 1;
        }
    }

    /// An element ends.
    pub fn on_end(&mut self)
        ensures
            final(self).armed() == old(self).armed(),
            final(self).level() == if old(self).level() > 0 {
                old(self).level() - 1
            } else {
                0
            },
    {
        if self.level > 0 {
            self.level = self.level - 1;
        }
    }

    /// Text comes; returns whether it is the name to replace: the first text
    /// after such a name element starts.
    pub fn on_text(&mut self) -> (replace: bool)
        ensures
            replace == old(self).armed(),
            !final(self).armed(),
            final(self).level() == old(self).level(),
    {
        let r = self.found_name;
        self.found_name = false;
        r
    }
}

} // verus!
