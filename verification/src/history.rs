//! The history of a report line across its versions.
//!
//! The line directory owns one file of trend records. Before a render the
//! file is copied into the working directory of the renderer, afterwards
//! it is copied back from wherever the renderer left it. Both copies are
//! made on a best effort: a missing file is no failure.
//!
//! The renderer learns of the file from a configuration file that is
//! written into the line directory before every render.

use vstd::prelude::*;

verus! {

/// The name of the history file inside a directory.
pub fn history_file_name() -> (name: &'static str)
    ensures
        name@ == "history.jsonl"@,
{
    "history.jsonl"
}

/// The name of the configuration file of the renderer inside the line
/// directory.
pub fn config_file_name() -> (name: &'static str)
    ensures
        name@ == "allurerc.json"@,
{
    "allurerc.json"
}

/// A directory that may hold the history file.
#[derive(Clone, Copy, Debug, PartialEq, Eq, Structural)]
pub enum HistoryPlace {
    /// The directory of the report line, which owns the history.
    Line,
    /// The working directory of the renderer.
    Work,
    /// The directory into which the renderer writes.
    Output,
}

/// One copy of the history file.
#[derive(Clone, Copy, Debug, PartialEq, Eq, Structural)]
pub struct HistoryCopy {
    pub from: HistoryPlace,
    pub to: HistoryPlace,
}

/// What is copied before a render: the history of the line into the
/// working directory, where the line has one.
pub fn sync_history(line_has_history: bool) -> (copy: Option<HistoryCopy>)
    ensures
        copy == (if line_has_history {
            Some(HistoryCopy { from: HistoryPlace::Line, to: HistoryPlace::Work })
        } else {
            None
        }),
{
    if line_has_history {
        Some(HistoryCopy { from: HistoryPlace::Line, to: HistoryPlace::Work })
    } else {
        None
    }
}

/// What is copied after a render: the history goes back to the line from
/// the working directory where it is there, else from the output
/// directory where it is there, else nothing is copied.
pub fn collect_history(work_has_history: bool, output_has_history: bool) -> (copy: Option<
    HistoryCopy,
>)
    ensures
        copy == (if work_has_history {
            Some(HistoryCopy { from: HistoryPlace::Work, to: HistoryPlace::Line })
        } else if output_has_history {
            Some(HistoryCopy { from: HistoryPlace::Output, to: HistoryPlace::Line })
        } else {
            None
        }),
{
    if work_has_history {
        Some(HistoryCopy { from: HistoryPlace::Work, to: HistoryPlace::Line })
    } else if output_has_history {
        Some(HistoryCopy { from: HistoryPlace::Output, to: HistoryPlace::Line })
    } else {
        None
    }
}

/// What the configuration file of the renderer says.
#[derive(Debug)]
pub struct RenderConfig {
    /// The absolute path of the history file of the line.
    pub history_path: String,
    /// Whether the renderer appends to the history.
    pub append_history: bool,
}

/// The path of the entry `name` in the directory `dir`: the two joined
/// by one separator, unless `dir` is empty or ends in one already.
pub open spec fn joined(dir: Seq<char>, name: Seq<char>) -> Seq<char> {
    if dir.len() == 0 || dir.last() == '/' {
        dir + name
    } else {
        dir + "/"@ + name
    }
}

/// The configuration for a line whose directory has the absolute path
/// `line_dir`: the history is the history file of that directory, and the
/// renderer appends to it.
pub fn ensure_allure_config(line_dir: &str) -> (config: RenderConfig)
    ensures
        config.history_path@ == joined(line_dir@, "history.jsonl"@),
        config.append_history,
{
    let chars = crate::text::chars_of(line_dir);
    let mut path = String::from_str(line_dir);
    if chars.len() > 0 && chars[chars.len() - 1] != '/' {
        path.append("/");
    }
    path.append(history_file_name());
    assert(path@ =~= joined(line_dir@, "history.jsonl"@));
    RenderConfig { history_path: path, append_history: true }
}

} // verus!
