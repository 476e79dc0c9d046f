//! Receiving an upload: the limit on its size, its fields, and what is
//! checked of them before anything is stored.

use crate::models::{kind_of_label, ReportType};
use crate::segment::{validate_path_segment, validated_segment};
use crate::text::{
    chars_end_with, chars_of, decimal_digits, ends_with, lowercase, parse_u64, parsed_u64,
    push_decimal, str_eq, to_lowercase,
};
use vstd::prelude::*;

verus! {

/// The largest upload that is accepted, in bytes.
pub const MAX_UPLOAD_SIZE_BYTES: u64 = 524288000;

/// The largest upload that is accepted, in mebibytes.
pub const MAX_UPLOAD_SIZE_MB: u64 = 500;

/// The number of bytes in a mebibyte.
pub const BYTES_PER_MB: u64 = 1048576;

/// Why an upload was refused for its size.
#[derive(Debug)]
pub struct SizeExceeded {
    pub message: String,
    pub max_size_bytes: u64,
    pub max_size_mb: u64,
    pub received_bytes: u64,
    pub received_mb: u64,
}

/// The length that a content-length header announces, where it is a
/// number above the limit.
pub open spec fn announced_oversize(header: Option<Seq<char>>) -> Option<u64> {
    match header {
        Some(h) => match parsed_u64(h) {
            Some(n) if n > MAX_UPLOAD_SIZE_BYTES => Some(n),
            _ => None,
        },
        None => None,
    }
}

/// What is said of an upload of `received_mb` mebibytes that is too large.
pub open spec fn size_message(received_mb: u64) -> Seq<char> {
    "File size exceeds maximum limit of "@ + decimal_digits(MAX_UPLOAD_SIZE_MB as nat)
        + "MB (received: "@ + decimal_digits(received_mb as nat) + "MB)"@
}

/// Checks the announced length of a request before its body is read.
///
/// A request is refused only where the header is a number above the
/// limit. A request without the header, or with one that is no number,
/// passes: its body is measured as it arrives.
pub fn check_content_length(header: Option<&str>) -> (r: Result<(), SizeExceeded>)
    ensures
        match r {
            Ok(_) => announced_oversize(
                match header {
                    Some(h) => Some(h@),
                    None => None,
                },
            ) is None,
            Err(e) => {
                &&& announced_oversize(
                    match header {
                        Some(h) => Some(h@),
                        None => None,
                    },
                ) == Some(e.received_bytes)
                &&& e.received_mb == e.received_bytes / BYTES_PER_MB
                &&& e.max_size_bytes == MAX_UPLOAD_SIZE_BYTES
                &&& e.max_size_mb == MAX_UPLOAD_SIZE_MB
                &&& e.message@ == size_message(e.received_mb)
            },
        },
{
    match header {
        None => Ok(()),
        Some(text) => match parse_u64(text) {
            Some(length) => {
                if length > MAX_UPLOAD_SIZE_BYTES {
                    let received_mb = length / BYTES_PER_MB;
                    let mut message = String::from_str("File size exceeds maximum limit of ");
                    push_decimal(&mut message, MAX_UPLOAD_SIZE_MB);
                    message.append("MB (received: ");
                    push_decimal(&mut message, received_mb);
                    message.append("MB)");
                    assert(message@ =~= size_message(received_mb));
                    Err(
                        SizeExceeded {
                            message,
                            max_size_bytes: MAX_UPLOAD_SIZE_BYTES,
                            max_size_mb: MAX_UPLOAD_SIZE_MB,
                            received_bytes: length,
                            received_mb,
                        },
                    )
                } else {
                    Ok(())
                }
            },
            None => Ok(()),
        },
    }
}

// ---------------------------------------------------------------------
// The fields of the form
// ---------------------------------------------------------------------

/// What a field of the upload form is taken for.
#[derive(Clone, Copy, Debug, PartialEq, Eq, Structural)]
pub enum FieldRole {
    ProjectName,
    Branch,
    ReportName,
    Kind,
    Archive,
    Ignored,
}

/// The role of the field named `name`, sent with the file name
/// `file_name` where it carries a file: the metadata fields go by their
/// names, and any other field with a file is the archive where it is named
/// `file` or its file name ends in `.zip`.
pub open spec fn role_of(name: Seq<char>, file_name: Option<Seq<char>>) -> FieldRole {
    if name == "project_name"@ {
        FieldRole::ProjectName
    } else if name == "branch"@ {
        FieldRole::Branch
    } else if name == "report_name"@ {
        FieldRole::ReportName
    } else if name == "type"@ || name == "report_type"@ {
        FieldRole::Kind
    } else {
        match file_name {
            Some(f) if name == "file"@ || ends_with(f, ".zip"@) => FieldRole::Archive,
            _ => FieldRole::Ignored,
        }
    }
}

/// Decides what a field of the form is taken for.
pub fn field_role(name: &str, file_name: Option<&str>) -> (role: FieldRole)
    ensures
        role == role_of(
            name@,
            match file_name {
                Some(f) => Some(f@),
                None => None,
            },
        ),
{
    if str_eq(name, "project_name") {
        FieldRole::ProjectName
    } else if str_eq(name, "branch") {
        FieldRole::Branch
    } else if str_eq(name, "report_name") {
        FieldRole::ReportName
    } else if str_eq(name, "type") || str_eq(name, "report_type") {
        FieldRole::Kind
    } else {
        match file_name {
            Some(f) => {
                let chars = chars_of(f);
                if str_eq(name, "file") || chars_end_with(&chars, ".zip") {
                    FieldRole::Archive
                } else {
                    FieldRole::Ignored
                }
            },
            None => FieldRole::Ignored,
        }
    }
}

/// The fields of one upload, as far as they have arrived.
#[derive(Debug)]
pub struct UploadFields {
    pub project_name: Option<String>,
    pub branch: Option<String>,
    pub report_name: Option<String>,
    /// The label of the kind, in lowercase: `allure` unless the form says
    /// otherwise.
    pub report_type: String,
    pub archive: Option<Vec<u8>>,
}

/// The fields as plain values.
pub struct FieldsView {
    pub project_name: Option<Seq<char>>,
    pub branch: Option<Seq<char>>,
    pub report_name: Option<Seq<char>>,
    pub report_type: Seq<char>,
    pub archive: Option<Seq<u8>>,
}

/// The text of an optional string.
pub open spec fn opt_text(s: Option<String>) -> Option<Seq<char>> {
    match s {
        Some(t) => Some(t@),
        None => None,
    }
}

impl UploadFields {
    /// This value as plain values.
    pub open spec fn view(&self) -> FieldsView {
        FieldsView {
            project_name: opt_text(self.project_name),
            branch: opt_text(self.branch),
            report_name: opt_text(self.report_name),
            report_type: self.report_type@,
            archive: match self.archive {
                Some(bytes) => Some(bytes@),
                None => None,
            },
        }
    }

    /// No field has arrived: the kind is the rendered one.
    pub fn new() -> (fields: Self)
        ensures
            fields@ == (FieldsView {
                project_name: None,
                branch: None,
                report_name: None,
                report_type: "allure"@,
                archive: None,
            }),
    {
        UploadFields {
            project_name: None,
            branch: None,
            report_name: None,
            report_type: String::from_str("allure"),
            archive: None,
        }
    }

    /// Takes in the text of a field. An empty text changes nothing, and so
    /// does the text of a field that is not metadata. The label of the
    /// kind is kept in lowercase. A later value replaces an earlier one.
    pub fn record_text(&mut self, role: FieldRole, value: String)
        ensures
            final(self)@ == with_text(old(self)@, role, value@),
    {
        if value.as_str().unicode_len() == 0 {
            return ;
        }
        match role {
            FieldRole::ProjectName => {
                self.project_name = Some(value);
            },
            FieldRole::Branch => {
                self.branch = Some(value);
            },
            FieldRole::ReportName => {
                self.report_name = Some(value);
            },
            FieldRole::Kind => {
                self.report_type = to_lowercase(value.as_str());
            },
            FieldRole::Archive => {},
            FieldRole::Ignored => {},
        }
    }

    /// Takes in the bytes of the archive.
    pub fn record_archive(&mut self, bytes: Vec<u8>)
        ensures
            final(self)@ == (FieldsView { archive: Some(bytes@), ..old(self)@ }),
    {
        self.archive = Some(bytes);
    }
}

/// The fields after the text `value` has arrived for the role `role`.
pub open spec fn with_text(fields: FieldsView, role: FieldRole, value: Seq<char>) -> FieldsView {
    if value.len() == 0 {
        fields
    } else {
        match role {
            FieldRole::ProjectName => FieldsView { project_name: Some(value), ..fields },
            FieldRole::Branch => FieldsView { branch: Some(value), ..fields },
            FieldRole::ReportName => FieldsView { report_name: Some(value), ..fields },
            FieldRole::Kind => FieldsView { report_type: lowercase(value), ..fields },
            FieldRole::Archive => fields,
            FieldRole::Ignored => fields,
        }
    }
}

// ---------------------------------------------------------------------
// Checking the fields
// ---------------------------------------------------------------------

/// Why an upload failed.
#[derive(Debug)]
pub enum UploadError {
    /// A required metadata field is absent.
    MissingMetadata,
    /// No archive was sent.
    MissingArchive,
    /// A metadata field is no valid path segment: what is wrong with it.
    InvalidField(String),
    /// A directory could not be made or changed: what went wrong.
    Storage(String),
    /// The archive could not be unpacked: the reason.
    Extraction(String),
    /// The renderer failed: what it reported.
    Render(String),
    /// A step was answered with an event that does not belong to it.
    Protocol,
}

/// The error as plain values.
pub enum ErrorView {
    MissingMetadata,
    MissingArchive,
    InvalidField(Seq<char>),
    Storage(Seq<char>),
    Extraction(Seq<char>),
    Render(Seq<char>),
    Protocol,
}

impl UploadError {
    /// This value as plain values.
    pub open spec fn view(&self) -> ErrorView {
        match self {
            UploadError::MissingMetadata => ErrorView::MissingMetadata,
            UploadError::MissingArchive => ErrorView::MissingArchive,
            UploadError::InvalidField(m) => ErrorView::InvalidField(m@),
            UploadError::Storage(m) => ErrorView::Storage(m@),
            UploadError::Extraction(m) => ErrorView::Extraction(m@),
            UploadError::Render(m) => ErrorView::Render(m@),
            UploadError::Protocol => ErrorView::Protocol,
        }
    }

    /// Whether the client is at fault: the request was refused before
    /// anything was stored.
    pub fn is_validation(&self) -> (b: bool)
        ensures
            b == (self@ is MissingMetadata || self@ is MissingArchive || self@ is InvalidField),
    {
        match self {
            UploadError::MissingMetadata => true,
            UploadError::MissingArchive => true,
            UploadError::InvalidField(_) => true,
            _ => false,
        }
    }

    /// The status with which the error is answered: 400 where the client
    /// is at fault, 500 otherwise.
    pub fn status(&self) -> (code: u16)
        ensures
            code == (if self@ is MissingMetadata || self@ is MissingArchive
                || self@ is InvalidField {
                400u16
            } else {
                500u16
            }),
    {
        if self.is_validation() {
            400
        } else {
            500
        }
    }

    /// The text with which the error is answered.
    pub fn message(&self) -> (text: String)
        ensures
            text@ == error_text(self@),
    {
        match self {
            UploadError::MissingMetadata => String::from_str(
                "Missing required metadata fields (project_name, branch, report_name).",
            ),
            UploadError::MissingArchive => String::from_str("No ZIP file uploaded."),
            UploadError::InvalidField(m) => m.clone(),
            UploadError::Storage(m) => m.clone(),
            UploadError::Extraction(m) => {
                let mut text = String::from_str("Zip extraction failed: ");
                text.append(m.as_str());
                text
            },
            UploadError::Render(m) => m.clone(),
            UploadError::Protocol => String::from_str("Upload steps out of order."),
        }
    }
}

/// The text with which an error is answered.
pub open spec fn error_text(error: ErrorView) -> Seq<char> {
    match error {
        ErrorView::MissingMetadata =>
            "Missing required metadata fields (project_name, branch, report_name)."@,
        ErrorView::MissingArchive => "No ZIP file uploaded."@,
        ErrorView::InvalidField(m) => m,
        ErrorView::Storage(m) => m,
        ErrorView::Extraction(m) => "Zip extraction failed: "@ + m,
        ErrorView::Render(m) => m,
        ErrorView::Protocol => "Upload steps out of order."@,
    }
}

/// An upload whose fields are complete and valid.
#[derive(Debug)]
pub struct UploadRequest {
    pub project: String,
    pub branch: String,
    pub report: String,
    pub kind: ReportType,
    /// The label of the kind as the form gave it, in lowercase.
    pub type_label: String,
}

/// The request as plain values.
pub struct RequestView {
    pub project: Seq<char>,
    pub branch: Seq<char>,
    pub report: Seq<char>,
    pub kind: ReportType,
    pub type_label: Seq<char>,
}

impl UploadRequest {
    /// This value as plain values.
    pub open spec fn view(&self) -> RequestView {
        RequestView {
            project: self.project@,
            branch: self.branch@,
            report: self.report@,
            kind: self.kind,
            type_label: self.type_label@,
        }
    }
}

/// What the check of the fields gives: the request with each name
/// trimmed, or the first fault. Absent metadata is found first, then an
/// absent archive, then an invalid project, branch or report name.
pub open spec fn checked_fields(fields: FieldsView) -> Result<RequestView, ErrorView> {
    if fields.project_name is None || fields.branch is None || fields.report_name is None {
        Err(ErrorView::MissingMetadata)
    } else if fields.archive is None {
        Err(ErrorView::MissingArchive)
    } else {
        match validated_segment(fields.project_name->0, "project_name"@) {
            Err(m) => Err(ErrorView::InvalidField(m)),
            Ok(project) => match validated_segment(fields.branch->0, "branch"@) {
                Err(m) => Err(ErrorView::InvalidField(m)),
                Ok(branch) => match validated_segment(fields.report_name->0, "report_name"@) {
                    Err(m) => Err(ErrorView::InvalidField(m)),
                    Ok(report) => Ok(
                        RequestView {
                            project,
                            branch,
                            report,
                            kind: kind_of_label(fields.report_type),
                            type_label: fields.report_type,
                        },
                    ),
                },
            },
        }
    }
}

/// Checks the fields of an upload before anything is stored.
pub fn validate_upload(fields: &UploadFields) -> (r: Result<UploadRequest, UploadError>)
    ensures
        match r {
            Ok(request) => checked_fields(fields@) == Ok::<RequestView, ErrorView>(request@),
            Err(error) => checked_fields(fields@) == Err::<RequestView, ErrorView>(error@),
        },
{
    let (project, branch, report) = match (
        &fields.project_name,
        &fields.branch,
        &fields.report_name,
    ) {
        (Some(p), Some(b), Some(r)) => (p, b, r),
        _ => {
            return Err(UploadError::MissingMetadata);
        },
    };
    if fields.archive.is_none() {
        return Err(UploadError::MissingArchive);
    }
    let project = match validate_path_segment(project.as_str(), "project_name") {
        Ok(name) => name,
        Err(m) => {
            return Err(UploadError::InvalidField(m));
        },
    };
    let branch = match validate_path_segment(branch.as_str(), "branch") {
        Ok(name) => name,
        Err(m) => {
            return Err(UploadError::InvalidField(m));
        },
    };
    let report = match validate_path_segment(report.as_str(), "report_name") {
        Ok(name) => name,
        Err(m) => {
            return Err(UploadError::InvalidField(m));
        },
    };
    Ok(
        UploadRequest {
            project,
            branch,
            report,
            kind: ReportType::from_label(fields.report_type.as_str()),
            type_label: fields.report_type.clone(),
        },
    )
}

} // verus!
