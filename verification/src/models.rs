//! The plain data of an upload: the kind of a report and the records
//! exchanged with clients.

use crate::text::str_eq;
use vstd::prelude::*;

verus! {

/// How an uploaded bundle is stored.
#[derive(Clone, Copy, Debug, PartialEq, Eq, Structural)]
pub enum ReportType {
    /// The bundle is rendered into a browsable report.
    Allure,
    /// The bundle is stored as it came.
    Raw,
}

/// The kind that a lowercase label stands for: `allure` is the rendered
/// kind, every other label is stored unrendered.
pub open spec fn kind_of_label(label: Seq<char>) -> ReportType {
    if label == "allure"@ {
        ReportType::Allure
    } else {
        ReportType::Raw
    }
}

impl ReportType {
    /// The kind named by a label that is already in lowercase.
    pub fn from_label(label: &str) -> (kind: ReportType)
        ensures
            kind == kind_of_label(label@),
    {
        if str_eq(label, "allure") {
            ReportType::Allure
        } else {
            ReportType::Raw
        }
    }

    /// The word that the catalogue uses for this kind.
    pub fn as_str(&self) -> (s: &'static str)
        ensures
            s@ == self.label(),
    {
        match self {
            ReportType::Allure => "allure",
            ReportType::Raw => "raw",
        }
    }

    /// The lowercase word of this kind.
    pub open spec fn label(&self) -> Seq<char> {
        match self {
            ReportType::Allure => "allure"@,
            ReportType::Raw => "raw"@,
        }
    }

    /// Whether bundles of this kind go through the renderer.
    pub fn is_rendered(&self) -> (b: bool)
        ensures
            b == (*self == ReportType::Allure),
    {
        match self {
            ReportType::Allure => true,
            ReportType::Raw => false,
        }
    }
}

/// The fields of one upload as a client sends them.
#[derive(Debug)]
pub struct FileUploadRequest {
    pub project_name: String,
    pub branch: String,
    pub report_name: String,
    pub report_type: Option<ReportType>,
    pub file: Vec<u8>,
}

/// A request to register a report under a branch.
#[derive(Debug)]
pub struct CreateReportRequest {
    pub branch: String,
    pub report_name: String,
    pub report_type: ReportType,
    /// Chosen by the host when the client gives none.
    pub run_id: Option<String>,
}

/// What is answered to a request to register a report.
#[derive(Debug)]
pub struct ReportResponse {
    pub run_id: String,
    pub message: String,
    pub status: String,
}

/// The label of every kind names that kind again.
pub proof fn lemma_label_names_kind(kind: ReportType)
    ensures
        kind_of_label(kind.label()) == kind,
{
    reveal_strlit("allure");
    reveal_strlit("raw");
    if kind == ReportType::Raw {
        assert("raw"@.len() != "allure"@.len());
    }
}

} // verus!
