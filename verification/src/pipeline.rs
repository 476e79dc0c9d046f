//! One upload from the checked request to the answer.
//!
//! The library decides, the caller acts. Each step names one action on the
//! storage tree or on the renderer; the caller performs it and reports
//! how it ended, and the library names the next step. The first failure of
//! a step that must succeed ends the upload. Nothing is rolled back.
//!
//! Paths are lists of directory names below the root of the storage tree.

use crate::catalog::{
    build_report_path, entry_names, has_raw_dir, highest_number, is_report_line,
    lemma_line_shows_latest_version, line_descriptors, raw_descriptor, raw_version,
    rendered_descriptor, report_path, LineView,
};
use crate::listing::DirEntryView;
use crate::race::{
    after_all, can_take_all, lemma_racing_callers_get_consecutive_versions, start_of, Turn,
};
use crate::version::{highest_version, lemma_highest_version};
use crate::models::ReportType;
use crate::text::{decimal_digits, decimal_string, texts};
use crate::upload::{ErrorView, RequestView, UploadError, UploadRequest};
use vstd::prelude::*;

verus! {

/// The name of the sub-directory of a line that holds its raw versions.
pub open spec fn raw_dir_name() -> Seq<char> {
    "raw"@
}

/// The name of the directory into which a rendered upload is unpacked.
pub open spec fn staging_dir_name() -> Seq<char> {
    "allure-results"@
}

/// The name of the directory into which the renderer writes.
pub open spec fn output_dir_name() -> Seq<char> {
    "allure-report"@
}

/// The directory of the report line of a request: project, branch and
/// report name, and below them the raw directory for an unrendered upload.
pub open spec fn line_dir_of(request: RequestView) -> Seq<Seq<char>> {
    let line = seq![request.project, request.branch, request.report];
    match request.kind {
        ReportType::Raw => line.push(raw_dir_name()),
        ReportType::Allure => line,
    }
}

/// The directory of version `id` of the line of a request.
pub open spec fn version_dir_of(request: RequestView, id: u32) -> Seq<Seq<char>> {
    line_dir_of(request).push(decimal_digits(id as nat))
}

/// The directory into which the archive of a request is unpacked: the
/// staging directory of the version for a rendered upload, the version
/// directory itself for an unrendered one.
pub open spec fn target_dir_of(request: RequestView, id: u32) -> Seq<Seq<char>> {
    match request.kind {
        ReportType::Allure => version_dir_of(request, id).push(staging_dir_name()),
        ReportType::Raw => version_dir_of(request, id),
    }
}

/// The directory into which the renderer writes version `id`.
pub open spec fn output_dir_of(request: RequestView, id: u32) -> Seq<Seq<char>> {
    version_dir_of(request, id).push(output_dir_name())
}

/// What is answered to a successful upload.
#[derive(Debug)]
pub struct UploadSuccess {
    pub message: String,
    pub project_name: String,
    pub branch: String,
    pub report_name: String,
    pub report_id: String,
    pub url: String,
}

/// The answer to a stored upload as plain values.
pub struct SuccessView {
    pub message: Seq<char>,
    pub project_name: Seq<char>,
    pub branch: Seq<char>,
    pub report_name: Seq<char>,
    pub report_id: Seq<char>,
    pub url: Seq<char>,
}

impl UploadSuccess {
    /// This value as plain values.
    pub open spec fn view(&self) -> SuccessView {
        SuccessView {
            message: self.message@,
            project_name: self.project_name@,
            branch: self.branch@,
            report_name: self.report_name@,
            report_id: self.report_id@,
            url: self.url@,
        }
    }
}

/// The answer to the upload of a request that was stored as version `id`.
pub open spec fn success_of(request: RequestView, id: u32) -> SuccessView {
    SuccessView {
        message: "Report uploaded successfully (Type: "@ + request.type_label + ")"@,
        project_name: request.project,
        branch: request.branch,
        report_name: request.report,
        report_id: decimal_digits(id as nat),
        url: report_path(request.project, request.branch, request.report, id, request.kind),
    }
}

/// Where an upload stands.
#[derive(Clone, Copy, Debug, PartialEq, Eq, Structural)]
pub enum Stage {
    CreatingLineDir,
    Allocating,
    CreatingTarget,
    Extracting,
    Resolving,
    WritingConfig,
    PullingHistory,
    Rendering,
    Promoting,
    PushingHistory,
    Finished,
}

/// How the action of a step ended.
#[derive(Debug)]
pub enum UploadEvent {
    /// The action was done and gives nothing back.
    Completed,
    /// The action failed, for the reason given.
    Failed(String),
    /// A version was reserved.
    Allocated(u32),
    /// The archive was unpacked: the number of its entries.
    Extracted(usize),
    /// The directory with the result files was found.
    Resolved(Vec<String>),
    /// The renderer succeeded: what it wrote to its standard output.
    Rendered(String),
}

/// An event as plain values.
pub enum EventView {
    Completed,
    Failed(Seq<char>),
    Allocated(u32),
    Extracted(usize),
    Resolved(Seq<Seq<char>>),
    Rendered(Seq<char>),
}

impl UploadEvent {
    /// This value as plain values.
    pub open spec fn view(&self) -> EventView {
        match self {
            UploadEvent::Completed => EventView::Completed,
            UploadEvent::Failed(reason) => EventView::Failed(reason@),
            UploadEvent::Allocated(id) => EventView::Allocated(*id),
            UploadEvent::Extracted(count) => EventView::Extracted(*count),
            UploadEvent::Resolved(path) => EventView::Resolved(texts(path@)),
            UploadEvent::Rendered(out) => EventView::Rendered(out@),
        }
    }
}

/// What the caller does next.
#[derive(Debug)]
pub enum UploadAction {
    /// Create the directory of the line, with the directories above it.
    CreateLineDir { path: Vec<String> },
    /// Reserve the next version of the line.
    AllocateVersion { line_dir: Vec<String> },
    /// Create the directory into which the archive is unpacked.
    CreateTargetDir { path: Vec<String> },
    /// Unpack the archive into the target directory.
    Extract { target: Vec<String> },
    /// Find the directory with the result files, starting at `start`.
    ResolveResults { start: Vec<String> },
    /// Write the configuration of the renderer into the line directory.
    WriteConfig { line_dir: Vec<String> },
    /// Copy the history of the line into the working directory.
    PullHistory { line_dir: Vec<String>, work_dir: Vec<String> },
    /// Run the renderer.
    Render { input: Vec<String>, output: Vec<String>, config_dir: Vec<String> },
    /// Move what the renderer wrote up into the version directory, and
    /// remove the staging directory and the emptied output directory.
    PromoteOutput { output: Vec<String>, version_dir: Vec<String>, staging: Vec<String> },
    /// Copy the history back to the line from where the renderer left it.
    PushHistory { line_dir: Vec<String>, work_dir: Vec<String>, output_dir: Vec<String> },
    /// Answer the client: the upload is stored.
    Respond(UploadSuccess),
    /// Answer the client: the upload failed.
    Fail(UploadError),
    /// The upload is over: there is nothing to do.
    Nothing,
}

/// An action as plain values.
pub enum ActionView {
    CreateLineDir { path: Seq<Seq<char>> },
    AllocateVersion { line_dir: Seq<Seq<char>> },
    CreateTargetDir { path: Seq<Seq<char>> },
    Extract { target: Seq<Seq<char>> },
    ResolveResults { start: Seq<Seq<char>> },
    WriteConfig { line_dir: Seq<Seq<char>> },
    PullHistory { line_dir: Seq<Seq<char>>, work_dir: Seq<Seq<char>> },
    Render { input: Seq<Seq<char>>, output: Seq<Seq<char>>, config_dir: Seq<Seq<char>> },
    PromoteOutput { output: Seq<Seq<char>>, version_dir: Seq<Seq<char>>, staging: Seq<Seq<char>> },
    PushHistory { line_dir: Seq<Seq<char>>, work_dir: Seq<Seq<char>>, output_dir: Seq<Seq<char>> },
    Respond(SuccessView),
    Fail(ErrorView),
    Nothing,
}

impl UploadAction {
    /// This value as plain values.
    pub open spec fn view(&self) -> ActionView {
        match self {
            UploadAction::CreateLineDir { path } => ActionView::CreateLineDir { path: texts(path@) },
            UploadAction::AllocateVersion { line_dir } => ActionView::AllocateVersion {
                line_dir: texts(line_dir@),
            },
            UploadAction::CreateTargetDir { path } => ActionView::CreateTargetDir {
                path: texts(path@),
            },
            UploadAction::Extract { target } => ActionView::Extract { target: texts(target@) },
            UploadAction::ResolveResults { start } => ActionView::ResolveResults {
                start: texts(start@),
            },
            UploadAction::WriteConfig { line_dir } => ActionView::WriteConfig {
                line_dir: texts(line_dir@),
            },
            UploadAction::PullHistory { line_dir, work_dir } => ActionView::PullHistory {
                line_dir: texts(line_dir@),
                work_dir: texts(work_dir@),
            },
            UploadAction::Render { input, output, config_dir } => ActionView::Render {
                input: texts(input@),
                output: texts(output@),
                config_dir: texts(config_dir@),
            },
            UploadAction::PromoteOutput { output, version_dir, staging } => ActionView::PromoteOutput {
                output: texts(output@),
                version_dir: texts(version_dir@),
                staging: texts(staging@),
            },
            UploadAction::PushHistory { line_dir, work_dir, output_dir } => ActionView::PushHistory {
                line_dir: texts(line_dir@),
                work_dir: texts(work_dir@),
                output_dir: texts(output_dir@),
            },
            UploadAction::Respond(success) => ActionView::Respond(success@),
            UploadAction::Fail(error) => ActionView::Fail(error@),
            UploadAction::Nothing => ActionView::Nothing,
        }
    }
}

/// An upload under way.
#[derive(Debug)]
pub struct UploadState {
    pub request: UploadRequest,
    pub stage: Stage,
    /// The reserved version, once there is one.
    pub version: u32,
    /// The directory with the result files, once it is found.
    pub results_dir: Vec<String>,
}

/// An upload under way as plain values.
pub struct StateView {
    pub request: RequestView,
    pub stage: Stage,
    pub version: u32,
    pub results_dir: Seq<Seq<char>>,
}

impl UploadState {
    /// This value as plain values.
    pub open spec fn view(&self) -> StateView {
        StateView {
            request: self.request@,
            stage: self.stage,
            version: self.version,
            results_dir: texts(self.results_dir@),
        }
    }
}

/// The upload of `request` before its first step.
pub open spec fn initial_state(request: RequestView) -> StateView {
    StateView { request, stage: Stage::CreatingLineDir, version: 0, results_dir: Seq::empty() }
}

/// The state at which an upload ends.
pub open spec fn finished(state: StateView) -> StateView {
    StateView { stage: Stage::Finished, ..state }
}

/// The state and the action that follow when the action of `state` ended
/// with `event`.
pub open spec fn next_step(state: StateView, event: EventView) -> (StateView, ActionView) {
    let request = state.request;
    let fail = |error: ErrorView| (finished(state), ActionView::Fail(error));
    match state.stage {
        Stage::CreatingLineDir => match event {
            EventView::Completed => (
                StateView { stage: Stage::Allocating, ..state },
                ActionView::AllocateVersion { line_dir: line_dir_of(request) },
            ),
            EventView::Failed(reason) => fail(
                ErrorView::Storage("Failed to create parent directory: "@ + reason),
            ),
            _ => fail(ErrorView::Protocol),
        },
        Stage::Allocating => match event {
            EventView::Allocated(id) => (
                StateView { stage: Stage::CreatingTarget, version: id, ..state },
                ActionView::CreateTargetDir { path: target_dir_of(request, id) },
            ),
            EventView::Failed(reason) => fail(ErrorView::Storage(reason)),
            _ => fail(ErrorView::Protocol),
        },
        Stage::CreatingTarget => match event {
            EventView::Completed => (
                StateView { stage: Stage::Extracting, ..state },
                ActionView::Extract { target: target_dir_of(request, state.version) },
            ),
            EventView::Failed(reason) => fail(
                ErrorView::Storage("Failed to create directory: "@ + reason),
            ),
            _ => fail(ErrorView::Protocol),
        },
        Stage::Extracting => match event {
            EventView::Extracted(_) => match request.kind {
                ReportType::Allure => (
                    StateView { stage: Stage::Resolving, ..state },
                    ActionView::ResolveResults { start: target_dir_of(request, state.version) },
                ),
                ReportType::Raw => (
                    finished(state),
                    ActionView::Respond(success_of(request, state.version)),
                ),
            },
            EventView::Failed(reason) => fail(ErrorView::Extraction(reason)),
            _ => fail(ErrorView::Protocol),
        },
        Stage::Resolving => match event {
            EventView::Resolved(path) => (
                StateView { stage: Stage::WritingConfig, results_dir: path, ..state },
                ActionView::WriteConfig { line_dir: line_dir_of(request) },
            ),
            _ => fail(ErrorView::Protocol),
        },
        Stage::WritingConfig => match event {
            EventView::Completed | EventView::Failed(_) => (
                StateView { stage: Stage::PullingHistory, ..state },
                ActionView::PullHistory {
                    line_dir: line_dir_of(request),
                    work_dir: state.results_dir,
                },
            ),
            _ => fail(ErrorView::Protocol),
        },
        Stage::PullingHistory => match event {
            EventView::Completed | EventView::Failed(_) => (
                StateView { stage: Stage::Rendering, ..state },
                ActionView::Render {
                    input: state.results_dir,
                    output: output_dir_of(request, state.version),
                    config_dir: line_dir_of(request),
                },
            ),
            _ => fail(ErrorView::Protocol),
        },
        Stage::Rendering => match event {
            EventView::Rendered(_) => (
                StateView { stage: Stage::Promoting, ..state },
                ActionView::PromoteOutput {
                    output: output_dir_of(request, state.version),
                    version_dir: version_dir_of(request, state.version),
                    staging: target_dir_of(request, state.version),
                },
            ),
            EventView::Failed(reason) => fail(ErrorView::Render(reason)),
            _ => fail(ErrorView::Protocol),
        },
        Stage::Promoting => match event {
            EventView::Completed => (
                StateView { stage: Stage::PushingHistory, ..state },
                ActionView::PushHistory {
                    line_dir: line_dir_of(request),
                    work_dir: state.results_dir,
                    output_dir: version_dir_of(request, state.version),
                },
            ),
            EventView::Failed(reason) => fail(ErrorView::Storage(reason)),
            _ => fail(ErrorView::Protocol),
        },
        Stage::PushingHistory => match event {
            EventView::Completed | EventView::Failed(_) => (
                finished(state),
                ActionView::Respond(success_of(request, state.version)),
            ),
            _ => fail(ErrorView::Protocol),
        },
        Stage::Finished => (state, ActionView::Nothing),
    }
}

// ---------------------------------------------------------------------
// The steps
// ---------------------------------------------------------------------

/// A copy of `path`.
fn copy_path(path: &Vec<String>) -> (out: Vec<String>)
    ensures
        texts(out@) == texts(path@),
{
    let mut out: Vec<String> = Vec::new();
    let mut i: usize = 0;
    while i < path.len()
        invariant
            i <= path.len(),
            out@.len() == i,
            forall|k: int| 0 <= k < i ==> (#[trigger] out@[k])@ == path@[k]@,
        decreases path.len() - i,
    {
        out.push(path[i].clone());
        i = i + 1;
    }
    assert(texts(out@) =~= texts(path@));
    out
}

/// `path` with the directory `name` below it.
fn child_of(path: Vec<String>, name: &str) -> (out: Vec<String>)
    ensures
        texts(out@) == texts(path@).push(name@),
{
    let mut out = path;
    let ghost before = texts(out@);
    out.push(String::from_str(name));
    assert(texts(out@) =~= before.push(name@));
    out
}

impl UploadRequest {
    /// The directory of the report line of this request.
    pub fn line_dir(&self) -> (path: Vec<String>)
        ensures
            texts(path@) == line_dir_of(self@),
    {
        let mut path: Vec<String> = Vec::new();
        path.push(self.project.clone());
        path.push(self.branch.clone());
        path.push(self.report.clone());
        assert(texts(path@) =~= seq![self.project@, self.branch@, self.report@]);
        match self.kind {
            ReportType::Raw => child_of(path, "raw"),
            ReportType::Allure => path,
        }
    }

    /// The directory of version `id` of the line of this request.
    pub fn version_dir(&self, id: u32) -> (path: Vec<String>)
        ensures
            texts(path@) == version_dir_of(self@, id),
    {
        let name = decimal_string(id as u64);
        child_of(self.line_dir(), name.as_str())
    }

    /// The directory into which the archive of this request is unpacked.
    pub fn target_dir(&self, id: u32) -> (path: Vec<String>)
        ensures
            texts(path@) == target_dir_of(self@, id),
    {
        match self.kind {
            ReportType::Allure => child_of(self.version_dir(id), "allure-results"),
            ReportType::Raw => self.version_dir(id),
        }
    }

    /// The directory into which the renderer writes version `id`.
    pub fn output_dir(&self, id: u32) -> (path: Vec<String>)
        ensures
            texts(path@) == output_dir_of(self@, id),
    {
        child_of(self.version_dir(id), "allure-report")
    }

    /// The answer to this upload once it is stored as version `id`.
    pub fn success(&self, id: u32) -> (answer: UploadSuccess)
        ensures
            answer@ == success_of(self@, id),
    {
        let mut message = String::from_str("Report uploaded successfully (Type: ");
        message.append(self.type_label.as_str());
        message.append(")");
        UploadSuccess {
            message,
            project_name: self.project.clone(),
            branch: self.branch.clone(),
            report_name: self.report.clone(),
            report_id: decimal_string(id as u64),
            url: build_report_path(
                self.project.as_str(),
                self.branch.as_str(),
                self.report.as_str(),
                id,
                self.kind,
            ),
        }
    }
}

/// Begins the upload of a checked request: the first action is to create
/// the directory of its line.
pub fn begin_upload(request: UploadRequest) -> (r: (UploadState, UploadAction))
    ensures
        r.0@ == initial_state(request@),
        r.1@ == (ActionView::CreateLineDir { path: line_dir_of(request@) }),
{
    let path = request.line_dir();
    let state = UploadState {
        request,
        stage: Stage::CreatingLineDir,
        version: 0,
        results_dir: Vec::new(),
    };
    assert(texts(state.results_dir@) =~= Seq::<Seq<char>>::empty());
    (state, UploadAction::CreateLineDir { path })
}

/// Ends the upload with `error`.
fn fail_upload(state: &mut UploadState, error: UploadError) -> (action: UploadAction)
    ensures
        final(state)@ == finished(old(state)@),
        action@ == ActionView::Fail(error@),
{
    state.stage = Stage::Finished;
    UploadAction::Fail(error)
}

/// Takes an upload one step further: `event` says how the action of the
/// last step ended, the result is the action of the next step.
///
/// A failure of creating a directory, of reserving a version, of
/// unpacking, of rendering or of moving the rendered output ends the
/// upload with that failure. The configuration file and the two copies of
/// the history are made on a best effort: the upload goes on whether they
/// succeed or not. An unrendered upload is answered as soon as it is
/// unpacked. After its answer an upload asks for nothing more.
pub fn upload_report(state: &mut UploadState, event: UploadEvent) -> (action: UploadAction)
    ensures
        final(state)@ == next_step(old(state)@, event@).0,
        action@ == next_step(old(state)@, event@).1,
{
    match state.stage {
        Stage::CreatingLineDir => match event {
            UploadEvent::Completed => {
                state.stage = Stage::Allocating;
                UploadAction::AllocateVersion { line_dir: state.request.line_dir() }
            },
            UploadEvent::Failed(reason) => {
                let mut message = String::from_str("Failed to create parent directory: ");
                message.append(reason.as_str());
                fail_upload(state, UploadError::Storage(message))
            },
            _ => fail_upload(state, UploadError::Protocol),
        },
        Stage::Allocating => match event {
            UploadEvent::Allocated(id) => {
                state.stage = Stage::CreatingTarget;
                state.version = id;
                UploadAction::CreateTargetDir { path: state.request.target_dir(id) }
            },
            UploadEvent::Failed(reason) => fail_upload(state, UploadError::Storage(reason)),
            _ => fail_upload(state, UploadError::Protocol),
        },
        Stage::CreatingTarget => match event {
            UploadEvent::Completed => {
                state.stage = Stage::Extracting;
                UploadAction::Extract { target: state.request.target_dir(state.version) }
            },
            UploadEvent::Failed(reason) => {
                let mut message = String::from_str("Failed to create directory: ");
                message.append(reason.as_str());
                fail_upload(state, UploadError::Storage(message))
            },
            _ => fail_upload(state, UploadError::Protocol),
        },
        Stage::Extracting => match event {
            UploadEvent::Extracted(_) => match state.request.kind {
                ReportType::Allure => {
                    state.stage = Stage::Resolving;
                    UploadAction::ResolveResults { start: state.request.target_dir(state.version) }
                },
                ReportType::Raw => {
                    state.stage = Stage::Finished;
                    UploadAction::Respond(state.request.success(state.version))
                },
            },
            UploadEvent::Failed(reason) => fail_upload(state, UploadError::Extraction(reason)),
            _ => fail_upload(state, UploadError::Protocol),
        },
        Stage::Resolving => match event {
            UploadEvent::Resolved(path) => {
                state.stage = Stage::WritingConfig;
                state.results_dir = path;
                UploadAction::WriteConfig { line_dir: state.request.line_dir() }
            },
            _ => fail_upload(state, UploadError::Protocol),
        },
        Stage::WritingConfig => match event {
            UploadEvent::Completed | UploadEvent::Failed(_) => {
                state.stage = Stage::PullingHistory;
                UploadAction::PullHistory {
                    line_dir: state.request.line_dir(),
                    work_dir: copy_path(&state.results_dir),
                }
            },
            _ => fail_upload(state, UploadError::Protocol),
        },
        Stage::PullingHistory => match event {
            UploadEvent::Completed | UploadEvent::Failed(_) => {
                state.stage = Stage::Rendering;
                UploadAction::Render {
                    input: copy_path(&state.results_dir),
                    output: state.request.output_dir(state.version),
                    config_dir: state.request.line_dir(),
                }
            },
            _ => fail_upload(state, UploadError::Protocol),
        },
        Stage::Rendering => match event {
            UploadEvent::Rendered(_) => {
                state.stage = Stage::Promoting;
                UploadAction::PromoteOutput {
                    output: state.request.output_dir(state.version),
                    version_dir: state.request.version_dir(state.version),
                    staging: state.request.target_dir(state.version),
                }
            },
            UploadEvent::Failed(reason) => fail_upload(state, UploadError::Render(reason)),
            _ => fail_upload(state, UploadError::Protocol),
        },
        Stage::Promoting => match event {
            UploadEvent::Completed => {
                state.stage = Stage::PushingHistory;
                UploadAction::PushHistory {
                    line_dir: state.request.line_dir(),
                    work_dir: copy_path(&state.results_dir),
                    output_dir: state.request.version_dir(state.version),
                }
            },
            UploadEvent::Failed(reason) => fail_upload(state, UploadError::Storage(reason)),
            _ => fail_upload(state, UploadError::Protocol),
        },
        Stage::PushingHistory => match event {
            UploadEvent::Completed | UploadEvent::Failed(_) => {
                state.stage = Stage::Finished;
                UploadAction::Respond(state.request.success(state.version))
            },
            _ => fail_upload(state, UploadError::Protocol),
        },
        Stage::Finished => UploadAction::Nothing,
    }
}

// ---------------------------------------------------------------------
// Laws of the upload
// ---------------------------------------------------------------------

/// An answer ends the upload, and an ended upload asks for nothing more:
/// after the first failure no further step runs.
pub proof fn lemma_answer_is_final(state: StateView, event: EventView, later: EventView)
    ensures
        next_step(state, event).1 is Fail || next_step(state, event).1 is Respond ==> next_step(
            state,
            event,
        ).0.stage == Stage::Finished,
        state.stage == Stage::Finished ==> next_step(state, event) == (state, ActionView::Nothing),
        next_step(state, event).0.stage == Stage::Finished ==> next_step(
            next_step(state, event).0,
            later,
        ).1 is Nothing,
{
}

/// No step changes the request, and the reserved version changes only
/// where a version is reserved.
pub proof fn lemma_step_keeps_request(state: StateView, event: EventView)
    ensures
        next_step(state, event).0.request == state.request,
        next_step(state, event).0.version != state.version ==> state.stage == Stage::Allocating
            && event == EventView::Allocated(next_step(state, event).0.version),
{
}

/// An unrendered upload goes below the raw directory of its line and is
/// answered once it is unpacked: it never reaches the renderer. Its
/// address leads through `/raw/`.
pub proof fn lemma_raw_upload_is_stored_as_it_came(request: RequestView, id: u32, count: usize)
    requires
        request.kind == ReportType::Raw,
    ensures
        line_dir_of(request) == seq![request.project, request.branch, request.report, "raw"@],
        target_dir_of(request, id) == line_dir_of(request).push(decimal_digits(id as nat)),
        ({
            let unpacking = StateView {
                stage: Stage::Extracting,
                version: id,
                ..initial_state(request)
            };
            next_step(unpacking, EventView::Extracted(count)) == (
                finished(unpacking),
                ActionView::Respond(success_of(request, id)),
            )
        }),
        success_of(request, id).url == "/"@ + request.project + "/"@ + request.branch + "/"@
            + request.report + "/raw/"@ + decimal_digits(id as nat) + "/index.html"@,
{
    assert(line_dir_of(request) =~= seq![
        request.project,
        request.branch,
        request.report,
        "raw"@,
    ]);
}

/// A rendered upload is unpacked into the staging directory of its
/// version, and its address is that of the version.
pub proof fn lemma_rendered_upload_is_staged(request: RequestView, id: u32)
    requires
        request.kind == ReportType::Allure,
    ensures
        line_dir_of(request) == seq![request.project, request.branch, request.report],
        target_dir_of(request, id) == seq![
            request.project,
            request.branch,
            request.report,
            decimal_digits(id as nat),
            "allure-results"@,
        ],
        success_of(request, id).url == "/"@ + request.project + "/"@ + request.branch + "/"@
            + request.report + "/"@ + decimal_digits(id as nat) + "/index.html"@,
{
    assert(target_dir_of(request, id) =~= seq![
        request.project,
        request.branch,
        request.report,
        decimal_digits(id as nat),
        "allure-results"@,
    ]);
}

/// Once a version is reserved, every later step keeps it, and the answer
/// to the upload names it.
pub proof fn lemma_reserved_version_is_answered(state: StateView, event: EventView)
    requires
        state.stage != Stage::CreatingLineDir,
        state.stage != Stage::Allocating,
    ensures
        next_step(state, event).0.version == state.version,
        next_step(state, event).0.stage != Stage::CreatingLineDir,
        next_step(state, event).0.stage != Stage::Allocating,
        next_step(state, event).1 matches ActionView::Respond(answer) ==> answer == success_of(
            state.request,
            state.version,
        ),
        next_step(state, event).1 matches ActionView::Extract { target } ==> target
            == target_dir_of(state.request, state.version),
{
}

/// Uploads to one line that got different versions are stored apart:
/// their version directories differ, so do the directories into which
/// they are unpacked, and so do the numbers and addresses in their answers.
pub proof fn lemma_versions_are_stored_apart(request: RequestView, a: u32, b: u32)
    requires
        a != b,
    ensures
        version_dir_of(request, a) != version_dir_of(request, b),
        target_dir_of(request, a) != target_dir_of(request, b),
        output_dir_of(request, a) != output_dir_of(request, b),
        success_of(request, a).report_id != success_of(request, b).report_id,
{
    crate::version::lemma_version_names_differ(a as nat, b as nat);
    assert(decimal_digits(a as nat) != decimal_digits(b as nat));
    let line = line_dir_of(request);
    let n = line.len() as int;
    assert(version_dir_of(request, a)[n] == decimal_digits(a as nat));
    assert(version_dir_of(request, b)[n] == decimal_digits(b as nat));
    assert(target_dir_of(request, a)[n] == decimal_digits(a as nat));
    assert(target_dir_of(request, b)[n] == decimal_digits(b as nat));
    assert(output_dir_of(request, a)[n] == decimal_digits(a as nat));
    assert(output_dir_of(request, b)[n] == decimal_digits(b as nat));
}

/// However `n` uploads to one line race, each with the request `request`:
/// two of them that have reserved their versions have different versions,
/// both after the highest version `m` that the line held and no further
/// than `m + n`; each goes on with the directory of its own version, and
/// no two unpack into the same directory.
pub proof fn lemma_racing_uploads_are_stored_apart(
    request: RequestView,
    dir: Seq<DirEntryView>,
    n: nat,
    turns: Seq<Turn>,
    c: int,
    d: int,
)
    requires
        can_take_all(start_of(dir, n), turns),
        0 <= c < n,
        0 <= d < n,
        c != d,
        after_all(start_of(dir, n), turns).callers[c].version is Some,
        after_all(start_of(dir, n), turns).callers[d].version is Some,
    ensures
        ({
            let m = highest_version(dir);
            let end = after_all(start_of(dir, n), turns);
            let a = end.callers[c].version->0;
            let b = end.callers[d].version->0;
            let waiting = StateView { stage: Stage::Allocating, ..initial_state(request) };
            &&& a != b
            &&& m < a <= m + n
            &&& m < b <= m + n
            &&& a <= u32::MAX
            &&& b <= u32::MAX
            &&& next_step(waiting, EventView::Allocated(a as u32)) == (
                StateView { stage: Stage::CreatingTarget, version: a as u32, ..waiting },
                ActionView::CreateTargetDir { path: target_dir_of(request, a as u32) },
            )
            &&& version_dir_of(request, a as u32) != version_dir_of(request, b as u32)
            &&& target_dir_of(request, a as u32) != target_dir_of(request, b as u32)
            &&& success_of(request, a as u32).report_id != success_of(request, b as u32).report_id
        }),
{
    lemma_racing_callers_get_consecutive_versions(dir, n, turns);
    lemma_highest_version(after_all(start_of(dir, n), turns).dir);
    let end = after_all(start_of(dir, n), turns);
    let a = end.callers[c].version->0;
    let b = end.callers[d].version->0;
    assert(end.callers[c].version != end.callers[d].version);
    lemma_versions_are_stored_apart(request, a as u32, b as u32);
}

/// What an upload stores, the catalogue lists where the upload was
/// answered. Let `line` be the directory of the report line of `request`
/// as a scan finds it after the upload was stored as version `id`: for an
/// unrendered upload it has a raw directory that holds the version, for a
/// rendered one it holds the version as its latest. Then the catalogue
/// has the entry of that version for the line, a raw one with the marked
/// name or a rendered one, and its path is the address in the answer.
pub proof fn lemma_stored_upload_is_listed(request: RequestView, id: u32, line: LineView)
    requires
        id >= 1,
        line.name == request.report,
        is_report_line(line),
        match request.kind {
            ReportType::Raw => has_raw_dir(line.children) && exists|c: int|
                0 <= c < line.raw.len() && #[trigger] line.raw[c] == decimal_digits(id as nat),
            ReportType::Allure => highest_number(entry_names(line.children)) == id,
        },
    ensures
        match request.kind {
            ReportType::Raw => {
                let entry = raw_descriptor(request.project, request.branch, request.report, id);
                &&& line_descriptors(request.project, request.branch, line).contains(entry)
                &&& entry.name == request.report + " (Raw)"@
                &&& entry.kind == ReportType::Raw
                &&& entry.path == success_of(request, id).url
            },
            ReportType::Allure => {
                let entry = rendered_descriptor(
                    request.project,
                    request.branch,
                    request.report,
                    id,
                );
                &&& line_descriptors(request.project, request.branch, line).contains(entry)
                &&& entry.name == request.report
                &&& entry.path == success_of(request, id).url
            },
        },
{
    lemma_line_shows_latest_version(request.project, request.branch, line);
    match request.kind {
        ReportType::Raw => {
            let c = choose|c: int|
                0 <= c < line.raw.len() && #[trigger] line.raw[c] == decimal_digits(id as nat);
            crate::text::lemma_decimal_round_trip(id as nat);
            assert(raw_version(line.raw[c]) == Some(id));
        },
        ReportType::Allure => {},
    }
}

} // verus!
