//! The commands of the tool and the decisions they make on their own inputs.
use vstd::prelude::*;

use crate::error::{ErrorKind, SyncError};
use crate::sync::SyncCommand;
use crate::text::{
    concat_str, lines_of, replace_all, replace_all_exec, split_lines, string_of, strip_prefix,
    strip_prefix_exec, text_is, trim, trim_range, trim_str, views,
};

verus! {

/// A side of the game to run.
#[derive(Clone, Copy, Debug, PartialEq, Eq, Structural)]
pub enum Side {
    /// Run client
    Client,
    /// Run server
    Server,
}

/// The `run` command.
#[derive(Clone, Debug)]
pub struct RunCommand {
    /// The command to run: anything that starts with `client` or `server`
    /// maps to `runClient` or `runServer`; any other is passed to gradle.
    pub command: String,
    /// Whether to fully sync before running.
    pub sync: bool,
}

/// The gradle task for a run command, and whether it needs the EULA agreed.
pub open spec fn run_task(command: Seq<char>) -> (Seq<char>, bool) {
    match strip_prefix(command, "client"@) {
        Some(rest) => ("runClient"@ + rest, false),
        None => match strip_prefix(command, "server"@) {
            Some(rest) => ("runServer"@ + rest, true),
            None => (command, false),
        },
    }
}

/// What a run does after its sync.
#[derive(Clone, Debug)]
pub struct RunPlan {
    pub task: String,
    pub needs_eula: bool,
}

impl RunCommand {
    /// The sync that runs first: full where asked for, else incremental.
    pub fn sync_command(&self) -> (r: SyncCommand)
        ensures
            r.incremental == !self.sync,
    {
        SyncCommand { incremental: !self.sync }
    }

    /// The gradle task to run, and whether the EULA must be agreed first.
    pub fn plan(&self) -> (r: RunPlan)
        ensures
            (r.task@, r.needs_eula) == run_task(self.command@),
    {
        match strip_prefix_exec(self.command.as_str(), "client") {
            Some(rest) => RunPlan { task: concat_str("runClient", rest.as_str()), needs_eula: false },
            None => match strip_prefix_exec(self.command.as_str(), "server") {
                Some(rest) => RunPlan {
                    task: concat_str("runServer", rest.as_str()),
                    needs_eula: true,
                },
                None => RunPlan { task: self.command.clone(), needs_eula: false },
            },
        }
    }
}

/// Whether an `eula.txt` text agrees to the EULA: some line reads
/// `eula=true`, white space around it aside.
pub open spec fn eula_agreed(content: Seq<char>) -> bool {
    exists|i: int|
        0 <= i < split_lines(content).len() && trim(#[trigger] split_lines(content)[i])
            == "eula=true"@
}

/// Whether an `eula.txt` text agrees to the EULA.
pub fn eula_accepted(content: &str) -> (r: bool)
    ensures
        r == eula_agreed(content@),
{
    let c = crate::text::chars_of(content);
    let lines = lines_of(&c);
    let mut i: usize = 0;
    while i < lines.len()
        invariant
            i <= lines@.len(),
            views(lines@) == split_lines(content@),
            forall|j: int| 0 <= j < i ==> trim(#[trigger] split_lines(content@)[j]) != "eula=true"@,
        decreases lines@.len() - i,
    {
        let t = trim_range(&lines[i], 0, lines[i].len());
        let ts = string_of(&t);
        proof {
            assert(lines@[i as int]@.subrange(0, lines@[i as int]@.len() as int) == lines@[i as int]@);
            assert(split_lines(content@)[i as int] == lines@[i as int]@);
        }
        if text_is(ts.as_str(), "eula=true") {
            return true;
        }
        i = i + 1;
    }
    false
}

/// Whether the environment value agrees to the EULA on the user's behalf.
pub fn eula_auto_agree(value: &str) -> (r: bool)
    ensures
        r == (value@ == "true"@ || value@ == "1"@),
{
    text_is(value, "true") || text_is(value, "1")
}

/// Whether an answer to the EULA question agrees: `y` in either case.
pub fn eula_answer_agrees(answer: &str) -> (r: bool)
    ensures
        r == (trim(answer@) == "y"@ || trim(answer@) == "Y"@),
{
    let t = trim_str(answer);
    text_is(t.as_str(), "y") || text_is(t.as_str(), "Y")
}

/// The answer to a yes/no question, white space around it aside: `y`, `Y`,
/// `yes` or `Yes` is yes; `n`, `N`, `no` or `No` is no; anything else fails
/// with `InvalidInput`.
pub fn parse_yes_no(input: &str) -> (r: Result<bool, SyncError>)
    ensures
        ({
            let t = trim(input@);
            let yes = t == "y"@ || t == "Y"@ || t == "yes"@ || t == "Yes"@;
            let no = t == "n"@ || t == "N"@ || t == "no"@ || t == "No"@;
            &&& yes ==> r == Ok::<bool, SyncError>(true)
            &&& (no && !yes) ==> r == Ok::<bool, SyncError>(false)
            &&& (!yes && !no) ==> (r matches Err(e) && e.kind == ErrorKind::InvalidInput)
        }),
{
    let t = trim_str(input);
    let s = t.as_str();
    if text_is(s, "y") || text_is(s, "Y") || text_is(s, "yes") || text_is(s, "Yes") {
        Ok(true)
    } else if text_is(s, "n") || text_is(s, "N") || text_is(s, "no") || text_is(s, "No") {
        Ok(false)
    } else {
        let msg = concat_str("Invalid input '", s);
        Err(SyncError::new(ErrorKind::InvalidInput, concat_str(msg.as_str(), "'")))
    }
}

/// The `init` command.
#[derive(Clone, Debug)]
pub struct InitCommand {
    /// The template to use.
    pub template: Option<String>,
}

/// The placeholder for the template name in the manifest of a new project.
pub const TEMPLATE_PLACEHOLDER: &'static str = "INIT_TEMPLATE";

impl InitCommand {
    /// The template chosen, which must be one of `known`. Fails with `Other`
    /// where none was given or it is not known.
    pub fn choose_template(&self, known: &Vec<String>) -> (r: Result<String, SyncError>)
        ensures
            r is Ok <==> (self.template matches Some(t) && exists|i: int|
                0 <= i < known@.len() && #[trigger] known@[i]@ == t@),
            r matches Ok(t) ==> self.template matches Some(x) && t@ == x@,
            r matches Err(e) ==> e.kind == ErrorKind::Other,
    {
        match &self.template {
            None => Err(SyncError::with_message(ErrorKind::Other, "No template specified")),
            Some(t) => {
                let mut i: usize = 0;
                while i < known.len()
                    invariant
                        i <= known@.len(),
                        self.template matches Some(x) && x@ == t@,
                        forall|j: int| 0 <= j < i ==> #[trigger] known@[j]@ != t@,
                    decreases known@.len() - i,
                {
                    if known[i] == *t {
                        return Ok(t.clone());
                    }
                    i = i + 1;
                }
                let msg = concat_str("Unknown template '", t.as_str());
                Err(SyncError::new(ErrorKind::Other, concat_str(msg.as_str(), "'")))
            },
        }
    }

    /// The manifest of a new project: the starter text with the placeholder
    /// replaced by the template name.
    pub fn instantiate_manifest(content: &str, template: &str) -> (r: String)
        ensures
            r@ == replace_all(content@, TEMPLATE_PLACEHOLDER@, template@),
    {
        replace_all_exec(content, TEMPLATE_PLACEHOLDER, template)
    }
}

/// The command line's subcommands.
#[derive(Clone, Debug)]
pub enum CliCommand {
    /// Syncs the project state
    Sync(SyncCommand),
    /// Build the project
    Build,
    /// Run the project
    Run(RunCommand),
    /// Initialize a new project in the current directory
    Init(InitCommand),
}

/// The command line: a directory and a subcommand.
#[derive(Clone, Debug)]
pub struct Cli {
    /// Directory to run the command in
    pub dir: String,
    /// Command to run
    pub command: CliCommand,
}

} // verus!
