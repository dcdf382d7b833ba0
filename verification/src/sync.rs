//! The decisions of syncing the mods and their dependencies: what to clone
//! and what to log, given what already exists and how each `git clone`
//! ended. The caller runs the clones and reports back.
use vstd::prelude::*;
use crate::text::{concat, concat3};
use crate::merge::strings_of;

verus! {

broadcast use vstd::string::group_string_axioms;

fn push_line(logs: &mut Vec<String>, line: String)
    ensures
        strings_of(final(logs)@) == strings_of(old(logs)@).push(line@),
{
    let ghost l = line@;
    logs.push(line);
    assert(strings_of(logs@) =~= strings_of(old(logs)@).push(l));
}

/// Opens a sync: where no mod is configured, says so.
pub fn sync_start(no_mods: bool, logs: &mut Vec<String>)
    ensures
        no_mods ==> strings_of(final(logs)@) == strings_of(old(logs)@).push(
            "No mods configured. Add a mod first."@,
        ),
        !no_mods ==> final(logs)@ == old(logs)@,
{
    if no_mods {
        push_line(logs, String::from_str("No mods configured. Add a mod first."));
    }
}

/// Starts syncing the mod `name` whose directory exists or not: logs it,
/// and says whether to clone it (only where its directory is missing; a
/// present one is kept and logged as such).
pub fn sync_mod_begin(name: &str, exists: bool, logs: &mut Vec<String>) -> (clone: bool)
    ensures
        clone == !exists,
        exists ==> strings_of(final(logs)@) == strings_of(old(logs)@) + seq![
            "Syncing "@ + name@ + "..."@,
            name@ + " already exists, skipping clone."@,
        ],
        !exists ==> strings_of(final(logs)@) == strings_of(old(logs)@).push("Syncing "@ + name@ + "..."@),
{
    push_line(logs, concat3("Syncing ", name, "..."));
    if exists {
        push_line(logs, concat(name, " already exists, skipping clone."));
        assert(strings_of(logs@) =~= strings_of(old(logs)@) + seq![
            "Syncing "@ + name@ + "..."@,
            name@ + " already exists, skipping clone."@,
        ]);
    }
    !exists
}

/// Ends the clone of the mod `name`: logs whether it succeeded, and says
/// whether to read its dependencies (only where it did).
pub fn sync_mod_cloned(name: &str, succeeded: bool, logs: &mut Vec<String>) -> (read_deps: bool)
    ensures
        read_deps == succeeded,
        succeeded ==> strings_of(final(logs)@) == strings_of(old(logs)@).push(name@ + " cloned."@),
        !succeeded ==> strings_of(final(logs)@) == strings_of(old(logs)@).push(name@ + " clone failed."@),
{
    if succeeded {
        push_line(logs, concat(name, " cloned."));
    } else {
        push_line(logs, concat(name, " clone failed."));
    }
    succeeded
}

/// How the clone of a dependency ended: `git` succeeded, failed, or could
/// not be run (with the system's message).
pub enum CloneOutcome {
    Done,
    Failed,
    NotRun(String),
}

/// Starts the dependency `name`: logs it, and says whether to clone it:
/// only where it names a repository (`has_repo`) and its directory is
/// missing; a present one is logged as skipped.
pub fn dep_begin(name: &str, has_repo: bool, exists: bool, logs: &mut Vec<String>) -> (clone: bool)
    ensures
        clone == (has_repo && !exists),
        has_repo && exists ==> strings_of(final(logs)@) == strings_of(old(logs)@) + seq![
            "Processing dependency "@ + name@ + "..."@,
            "Dependency "@ + name@ + " already exists, skipping."@,
        ],
        !(has_repo && exists) ==> strings_of(final(logs)@) == strings_of(old(logs)@).push(
            "Processing dependency "@ + name@ + "..."@,
        ),
{
    push_line(logs, concat3("Processing dependency ", name, "..."));
    if has_repo && exists {
        push_line(logs, concat3("Dependency ", name, " already exists, skipping."));
        assert(strings_of(logs@) =~= strings_of(old(logs)@) + seq![
            "Processing dependency "@ + name@ + "..."@,
            "Dependency "@ + name@ + " already exists, skipping."@,
        ]);
    }
    has_repo && !exists
}

/// The log line of how the clone of the dependency `name` ended.
pub open spec fn dep_outcome_line(name: Seq<char>, outcome: CloneOutcome) -> Seq<char> {
    match outcome {
        CloneOutcome::Done => "Dependency "@ + name + " downloaded."@,
        CloneOutcome::Failed => "Dependency "@ + name + " download failed."@,
        CloneOutcome::NotRun(e) => "Git command failed: "@ + e@,
    }
}

/// Ends the clone of the dependency `name`, logging how it ended.
pub fn dep_cloned(name: &str, outcome: CloneOutcome, logs: &mut Vec<String>)
    ensures
        strings_of(final(logs)@) == strings_of(old(logs)@).push(dep_outcome_line(name@, outcome)),
{
    let line = match &outcome {
        CloneOutcome::Done => concat3("Dependency ", name, " downloaded."),
        CloneOutcome::Failed => concat3("Dependency ", name, " download failed."),
        CloneOutcome::NotRun(e) => concat("Git command failed: ", e.as_str()),
    };
    push_line(logs, line);
}

/// The log line of a mod directory that holds a `plur.toml`.
pub fn found_manifest_log(mod_dir: &str) -> (r: String)
    ensures
        r@ == "Found plur.toml in "@ + mod_dir@,
{
    concat("Found plur.toml in ", mod_dir)
}

/// The log line of a `plur.toml` that did not parse, with the parser's
/// message.
pub fn manifest_parse_failed_log(message: &str) -> (r: String)
    ensures
        r@ == "plur.toml parse failed: "@ + message@,
{
    concat("plur.toml parse failed: ", message)
}

} // verus!
