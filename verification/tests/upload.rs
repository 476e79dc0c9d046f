use report_host::models::ReportType;
use report_host::upload::{
    check_content_length, field_role, validate_upload, FieldRole, UploadError, UploadFields,
    MAX_UPLOAD_SIZE_BYTES, MAX_UPLOAD_SIZE_MB,
};

fn complete() -> UploadFields {
    let mut fields = UploadFields::new();
    fields.record_text(FieldRole::ProjectName, " shop ".to_string());
    fields.record_text(FieldRole::Branch, "main".to_string());
    fields.record_text(FieldRole::ReportName, "smoke".to_string());
    fields.record_archive(vec![1, 2, 3]);
    fields
}

#[test]
fn announced_length_above_the_limit_is_refused() {
    assert_eq!(MAX_UPLOAD_SIZE_BYTES, 500 * 1024 * 1024);
    assert_eq!(MAX_UPLOAD_SIZE_MB, 500);
    let e = check_content_length(Some("1073741824")).unwrap_err();
    assert_eq!(e.message, "File size exceeds maximum limit of 500MB (received: 1024MB)");
    assert_eq!(e.max_size_bytes, 524288000);
    assert_eq!(e.max_size_mb, 500);
    assert_eq!(e.received_bytes, 1073741824);
    assert_eq!(e.received_mb, 1024);
    let e = check_content_length(Some("524288001")).unwrap_err();
    assert_eq!(e.received_mb, 500);
    assert_eq!(e.message, "File size exceeds maximum limit of 500MB (received: 500MB)");
}

#[test]
fn other_announced_lengths_pass() {
    assert!(check_content_length(None).is_ok());
    assert!(check_content_length(Some("0")).is_ok());
    assert!(check_content_length(Some("524288000")).is_ok());
    assert!(check_content_length(Some("many")).is_ok());
    assert!(check_content_length(Some("-1")).is_ok());
    assert!(check_content_length(Some("")).is_ok());
    assert!(check_content_length(Some("99999999999999999999999999")).is_ok());
}

#[test]
fn fields_go_by_their_names() {
    assert_eq!(field_role("project_name", None), FieldRole::ProjectName);
    assert_eq!(field_role("project_name", Some("x.zip")), FieldRole::ProjectName);
    assert_eq!(field_role("branch", None), FieldRole::Branch);
    assert_eq!(field_role("report_name", None), FieldRole::ReportName);
    assert_eq!(field_role("type", None), FieldRole::Kind);
    assert_eq!(field_role("report_type", None), FieldRole::Kind);
    assert_eq!(field_role("file", Some("results.tar")), FieldRole::Archive);
    assert_eq!(field_role("upload", Some("results.zip")), FieldRole::Archive);
    assert_eq!(field_role("upload", Some("results.ZIP")), FieldRole::Ignored);
    assert_eq!(field_role("file", None), FieldRole::Ignored);
    assert_eq!(field_role("comment", None), FieldRole::Ignored);
}

#[test]
fn kind_defaults_to_rendered_and_is_read_in_any_case() {
    let request = validate_upload(&complete()).unwrap();
    assert_eq!(request.kind, ReportType::Allure);
    assert_eq!(request.type_label, "allure");
    for (given, label, kind) in [
        ("ALLure", "allure", ReportType::Allure),
        ("RAW", "raw", ReportType::Raw),
        ("Other", "other", ReportType::Raw),
        ("ÄLLURE", "ällure", ReportType::Raw),
    ] {
        let mut fields = complete();
        fields.record_text(FieldRole::Kind, given.to_string());
        assert_eq!(fields.report_type, label);
        assert_eq!(validate_upload(&fields).unwrap().kind, kind);
    }
    assert_eq!(ReportType::from_label("Allure"), ReportType::Raw);
    let mut fields = complete();
    fields.record_text(FieldRole::Kind, "Raw".to_string());
    let request = validate_upload(&fields).unwrap();
    assert_eq!(request.kind, ReportType::Raw);
    assert_eq!(request.type_label, "raw");
    assert!(!request.kind.is_rendered());
    assert!(ReportType::Allure.is_rendered());
}

#[test]
fn valid_fields_give_the_trimmed_names() {
    let request = validate_upload(&complete()).unwrap();
    assert_eq!(request.project, "shop");
    assert_eq!(request.branch, "main");
    assert_eq!(request.report, "smoke");
}

#[test]
fn empty_texts_and_foreign_roles_change_nothing() {
    let mut fields = complete();
    fields.record_text(FieldRole::ProjectName, "".to_string());
    fields.record_text(FieldRole::Kind, "".to_string());
    fields.record_text(FieldRole::Ignored, "x".to_string());
    fields.record_text(FieldRole::Archive, "y".to_string());
    assert_eq!(fields.project_name.as_deref(), Some(" shop "));
    assert_eq!(fields.report_type, "allure");
    fields.record_text(FieldRole::Branch, "dev".to_string());
    assert_eq!(fields.branch.as_deref(), Some("dev"));
}

#[test]
fn missing_metadata_is_found_before_a_missing_archive() {
    let mut fields = UploadFields::new();
    assert!(matches!(validate_upload(&fields), Err(UploadError::MissingMetadata)));
    fields.record_text(FieldRole::ProjectName, "shop".to_string());
    fields.record_text(FieldRole::ReportName, "smoke".to_string());
    fields.record_archive(vec![]);
    let e = validate_upload(&fields).unwrap_err();
    assert!(matches!(e, UploadError::MissingMetadata));
    assert_eq!(e.status(), 400);
    assert_eq!(e.message(), "Missing required metadata fields (project_name, branch, report_name).");
    let mut fields = UploadFields::new();
    fields.record_text(FieldRole::ProjectName, "../x".to_string());
    fields.record_text(FieldRole::Branch, "main".to_string());
    fields.record_text(FieldRole::ReportName, "smoke".to_string());
    let e = validate_upload(&fields).unwrap_err();
    assert!(matches!(e, UploadError::MissingArchive));
    assert_eq!(e.status(), 400);
    assert_eq!(e.message(), "No ZIP file uploaded.");
}

#[test]
fn first_invalid_name_is_reported_with_its_field() {
    let mut fields = complete();
    fields.record_text(FieldRole::Branch, "a/b".to_string());
    fields.record_text(FieldRole::ReportName, "..".to_string());
    let e = validate_upload(&fields).unwrap_err();
    assert_eq!(e.message(), "branch must not contain path separators");
    assert_eq!(e.status(), 400);
    assert!(e.is_validation());
    let mut fields = complete();
    fields.record_text(FieldRole::ReportName, "..".to_string());
    let e = validate_upload(&fields).unwrap_err();
    assert_eq!(e.message(), "report_name must not contain '..'");
    let mut fields = complete();
    fields.record_text(FieldRole::ProjectName, "   ".to_string());
    let e = validate_upload(&fields).unwrap_err();
    assert_eq!(e.message(), "project_name cannot be empty or whitespace");
}

#[test]
fn internal_errors_are_answered_with_status_500() {
    let e = UploadError::Extraction("invalid Zip archive".to_string());
    assert_eq!(e.status(), 500);
    assert!(!e.is_validation());
    assert_eq!(e.message(), "Zip extraction failed: invalid Zip archive");
    assert_eq!(UploadError::Storage("disk full".to_string()).message(), "disk full");
    assert_eq!(UploadError::Render("Allure generation failed: x".to_string()).status(), 500);
    assert_eq!(UploadError::Protocol.status(), 500);
}
