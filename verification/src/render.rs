//! The renderer of reports, seen from outside: how it is called and how
//! its outcome is read, and how its output takes the place of the
//! unpacked results.

use crate::listing::EntryKind;
use vstd::prelude::*;

verus! {

/// The program that runs the renderer.
pub fn renderer_program() -> (program: &'static str)
    ensures
        program@ == "npx"@,
{
    "npx"
}

/// The arguments of a render of `input_dir` into `output_dir`, with
/// `config_dir` as the directory in which the configuration is looked for.
pub open spec fn render_arguments(
    input_dir: Seq<char>,
    output_dir: Seq<char>,
    config_dir: Seq<char>,
) -> Seq<Seq<char>> {
    seq!["allure"@, "generate"@, input_dir, "-o"@, output_dir, "--cwd"@, config_dir]
}

/// The arguments with which the renderer is run.
pub fn renderer_arguments(input_dir: &str, output_dir: &str, config_dir: &str) -> (args: Vec<
    String,
>)
    ensures
        crate::text::texts(args@) == render_arguments(input_dir@, output_dir@, config_dir@),
{
    let mut args: Vec<String> = Vec::new();
    args.push(String::from_str("allure"));
    args.push(String::from_str("generate"));
    args.push(String::from_str(input_dir));
    args.push(String::from_str("-o"));
    args.push(String::from_str(output_dir));
    args.push(String::from_str("--cwd"));
    args.push(String::from_str(config_dir));
    assert(crate::text::texts(args@) =~= render_arguments(input_dir@, output_dir@, config_dir@));
    args
}

/// How a run of the renderer ended.
#[derive(Debug)]
pub enum RenderRun {
    /// The renderer could not be started, for the reason given.
    NotStarted(String),
    /// The renderer ran: whether it reported success, and what it wrote to
    /// its standard output and its standard error.
    Exited { success: bool, stdout: String, stderr: String },
}

/// What a run of the renderer means for the upload: the standard output
/// of a successful run, else the failure with the reason or with what the
/// renderer wrote to its standard error.
pub open spec fn render_result(run: RenderRun) -> Result<Seq<char>, Seq<char>> {
    match run {
        RenderRun::NotStarted(reason) => Err("Failed to run npx command: "@ + reason@),
        RenderRun::Exited { success, stdout, stderr } => if success {
            Ok(stdout@)
        } else {
            Err("Allure generation failed: "@ + stderr@)
        },
    }
}

/// Reads the outcome of a run of the renderer.
pub fn generate_report(run: RenderRun) -> (r: Result<String, String>)
    ensures
        match r {
            Ok(out) => render_result(run) == Ok::<Seq<char>, Seq<char>>(out@),
            Err(message) => render_result(run) == Err::<Seq<char>, Seq<char>>(message@),
        },
{
    match run {
        RenderRun::NotStarted(reason) => {
            let mut message = String::from_str("Failed to run npx command: ");
            message.append(reason.as_str());
            Err(message)
        },
        RenderRun::Exited { success, stdout, stderr } => {
            if success {
                Ok(stdout)
            } else {
                let mut message = String::from_str("Allure generation failed: ");
                message.append(stderr.as_str());
                Err(message)
            }
        },
    }
}

/// What has to go before an entry can be moved to its destination.
#[derive(Clone, Copy, Debug, PartialEq, Eq, Structural)]
pub enum Clearance {
    /// The destination is free.
    Nothing,
    /// A directory stands at the destination: it is removed with all that
    /// it holds.
    RemoveTree,
    /// Something else stands at the destination: it is removed.
    RemoveFile,
}

/// Decides how an entry of a directory is moved into another one: what
/// stands at its destination is removed first, a directory with its
/// content, anything else as a file.
pub fn move_directory_contents(destination: Option<EntryKind>) -> (clear: Clearance)
    ensures
        clear == (match destination {
            None => Clearance::Nothing,
            Some(EntryKind::Dir) => Clearance::RemoveTree,
            Some(_) => Clearance::RemoveFile,
        }),
{
    match destination {
        None => Clearance::Nothing,
        Some(EntryKind::Dir) => Clearance::RemoveTree,
        Some(_) => Clearance::RemoveFile,
    }
}

} // verus!
