use report_host::archive::extract_zip;
use report_host::catalog::{get_manifest, BranchDir, LineDir, ProjectDir};
use report_host::listing::{DirEntry, EntryKind};
use report_host::models::ReportType;
use report_host::pipeline::{begin_upload, upload_report, Stage, UploadAction, UploadEvent};
use report_host::upload::{validate_upload, FieldRole, UploadError, UploadFields, UploadRequest};
use report_host::version::{allocate_next_id_dir, next_sequential_id, Allocation, CreateOutcome};
use std::io::Write;

fn archive_of(names: &[&str]) -> Vec<u8> {
    let mut writer = zip::ZipWriter::new(std::io::Cursor::new(Vec::new()));
    let options = zip::write::SimpleFileOptions::default();
    for name in names {
        writer.start_file(name.to_string(), options).unwrap();
        writer.write_all(b"{\"status\":\"passed\"}").unwrap();
    }
    writer.finish().unwrap().into_inner()
}

fn request(kind: Option<&str>, archive: Vec<u8>) -> UploadRequest {
    let mut fields = UploadFields::new();
    fields.record_text(FieldRole::ProjectName, "shop".to_string());
    fields.record_text(FieldRole::Branch, "main".to_string());
    fields.record_text(FieldRole::ReportName, "smoke".to_string());
    if let Some(k) = kind {
        fields.record_text(FieldRole::Kind, k.to_string());
    }
    fields.record_archive(archive);
    validate_upload(&fields).unwrap()
}

fn path(parts: &[&str]) -> Vec<String> {
    parts.iter().map(|s| s.to_string()).collect()
}

fn allocate(existing: &[&str]) -> u32 {
    let listing: Vec<DirEntry> =
        existing.iter().map(|n| DirEntry { name: n.to_string(), kind: EntryKind::Dir }).collect();
    let id = next_sequential_id(&listing);
    match allocate_next_id_dir(id, CreateOutcome::Created) {
        Allocation::Allocated(got, _) => got,
        other => panic!("{:?}", other),
    }
}

#[test]
fn rendered_upload_to_a_fresh_line_becomes_version_one() {
    let bytes = archive_of(&["allure-results/a.json", "allure-results/b.json"]);
    let (mut state, action) = begin_upload(request(None, bytes.clone()));
    match action {
        UploadAction::CreateLineDir { path: p } => assert_eq!(p, path(&["shop", "main", "smoke"])),
        other => panic!("{:?}", other),
    }
    match upload_report(&mut state, UploadEvent::Completed) {
        UploadAction::AllocateVersion { line_dir } => {
            assert_eq!(line_dir, path(&["shop", "main", "smoke"]))
        }
        other => panic!("{:?}", other),
    }
    let id = allocate(&[]);
    assert_eq!(id, 1);
    match upload_report(&mut state, UploadEvent::Allocated(id)) {
        UploadAction::CreateTargetDir { path: p } => {
            assert_eq!(p, path(&["shop", "main", "smoke", "1", "allure-results"]))
        }
        other => panic!("{:?}", other),
    }
    match upload_report(&mut state, UploadEvent::Completed) {
        UploadAction::Extract { target } => {
            assert_eq!(target, path(&["shop", "main", "smoke", "1", "allure-results"]))
        }
        other => panic!("{:?}", other),
    }
    let extraction = extract_zip(bytes).unwrap();
    let written: Vec<String> = extraction.plan.iter().map(|e| e.path.join("/")).collect();
    assert_eq!(written, vec!["a.json", "b.json"]);
    match upload_report(&mut state, UploadEvent::Extracted(extraction.count)) {
        UploadAction::ResolveResults { start } => {
            assert_eq!(start, path(&["shop", "main", "smoke", "1", "allure-results"]))
        }
        other => panic!("{:?}", other),
    }
    let results = path(&["shop", "main", "smoke", "1", "allure-results"]);
    match upload_report(&mut state, UploadEvent::Resolved(results.clone())) {
        UploadAction::WriteConfig { line_dir } => {
            assert_eq!(line_dir, path(&["shop", "main", "smoke"]))
        }
        other => panic!("{:?}", other),
    }
    match upload_report(&mut state, UploadEvent::Failed("read-only".to_string())) {
        UploadAction::PullHistory { line_dir, work_dir } => {
            assert_eq!(line_dir, path(&["shop", "main", "smoke"]));
            assert_eq!(work_dir, results);
        }
        other => panic!("{:?}", other),
    }
    match upload_report(&mut state, UploadEvent::Completed) {
        UploadAction::Render { input, output, config_dir } => {
            assert_eq!(input, results);
            assert_eq!(output, path(&["shop", "main", "smoke", "1", "allure-report"]));
            assert_eq!(config_dir, path(&["shop", "main", "smoke"]));
        }
        other => panic!("{:?}", other),
    }
    match upload_report(&mut state, UploadEvent::Rendered("ok".to_string())) {
        UploadAction::PromoteOutput { output, version_dir, staging } => {
            assert_eq!(output, path(&["shop", "main", "smoke", "1", "allure-report"]));
            assert_eq!(version_dir, path(&["shop", "main", "smoke", "1"]));
            assert_eq!(staging, path(&["shop", "main", "smoke", "1", "allure-results"]));
        }
        other => panic!("{:?}", other),
    }
    match upload_report(&mut state, UploadEvent::Completed) {
        UploadAction::PushHistory { line_dir, work_dir, output_dir } => {
            assert_eq!(line_dir, path(&["shop", "main", "smoke"]));
            assert_eq!(work_dir, results);
            assert_eq!(output_dir, path(&["shop", "main", "smoke", "1"]));
        }
        other => panic!("{:?}", other),
    }
    match upload_report(&mut state, UploadEvent::Failed("no history".to_string())) {
        UploadAction::Respond(answer) => {
            assert_eq!(answer.message, "Report uploaded successfully (Type: allure)");
            assert_eq!(answer.project_name, "shop");
            assert_eq!(answer.branch, "main");
            assert_eq!(answer.report_name, "smoke");
            assert_eq!(answer.report_id, "1");
            assert_eq!(answer.url, "/shop/main/smoke/1/index.html");
        }
        other => panic!("{:?}", other),
    }
    assert_eq!(state.stage, Stage::Finished);
    assert!(matches!(upload_report(&mut state, UploadEvent::Completed), UploadAction::Nothing));
}

#[test]
fn unrendered_upload_lands_below_raw_with_the_next_version() {
    let bytes = archive_of(&["site/index.html"]);
    let (mut state, action) = begin_upload(request(Some("RAW"), bytes.clone()));
    match action {
        UploadAction::CreateLineDir { path: p } => {
            assert_eq!(p, path(&["shop", "main", "smoke", "raw"]))
        }
        other => panic!("{:?}", other),
    }
    assert!(matches!(
        upload_report(&mut state, UploadEvent::Completed),
        UploadAction::AllocateVersion { .. }
    ));
    let id = allocate(&["3"]);
    assert_eq!(id, 4);
    match upload_report(&mut state, UploadEvent::Allocated(id)) {
        UploadAction::CreateTargetDir { path: p } => {
            assert_eq!(p, path(&["shop", "main", "smoke", "raw", "4"]))
        }
        other => panic!("{:?}", other),
    }
    match upload_report(&mut state, UploadEvent::Completed) {
        UploadAction::Extract { target } => {
            assert_eq!(target, path(&["shop", "main", "smoke", "raw", "4"]))
        }
        other => panic!("{:?}", other),
    }
    let extraction = extract_zip(bytes).unwrap();
    match upload_report(&mut state, UploadEvent::Extracted(extraction.count)) {
        UploadAction::Respond(answer) => {
            assert_eq!(answer.message, "Report uploaded successfully (Type: raw)");
            assert_eq!(answer.report_id, "4");
            assert_eq!(answer.url, "/shop/main/smoke/raw/4/index.html");
        }
        other => panic!("{:?}", other),
    }
    assert_eq!(state.stage, Stage::Finished);
    // The catalogue lists the upload under its line, marked as raw, where it is served.
    let tree = vec![ProjectDir {
        name: "shop".to_string(),
        kind: EntryKind::Dir,
        branches: vec![BranchDir {
            name: "main".to_string(),
            kind: EntryKind::Dir,
            lines: vec![LineDir {
                name: "smoke".to_string(),
                kind: EntryKind::Dir,
                children: vec![DirEntry { name: "raw".to_string(), kind: EntryKind::Dir }],
                raw: vec!["3".to_string(), "4".to_string()],
            }],
        }],
    }];
    let catalog = get_manifest(&tree);
    let reports = &catalog.projects.entries[0].1.entries[0].1;
    assert_eq!(reports.len(), 2);
    assert_eq!(reports[1].name, "smoke (Raw)");
    assert_eq!(reports[1].id, 4);
    assert_eq!(reports[1].path, "/shop/main/smoke/raw/4/index.html");
    assert_eq!(reports[1].kind, ReportType::Raw);
}

#[test]
fn first_failure_ends_the_upload() {
    let start = || begin_upload(request(None, archive_of(&["a.json"]))).0;

    let mut state = start();
    match upload_report(&mut state, UploadEvent::Failed("denied".to_string())) {
        UploadAction::Fail(UploadError::Storage(m)) => {
            assert_eq!(m, "Failed to create parent directory: denied")
        }
        other => panic!("{:?}", other),
    }
    assert_eq!(state.stage, Stage::Finished);
    assert!(matches!(upload_report(&mut state, UploadEvent::Allocated(1)), UploadAction::Nothing));

    let mut state = start();
    upload_report(&mut state, UploadEvent::Completed);
    match upload_report(&mut state, UploadEvent::Failed("Failed to create report directory: x".to_string())) {
        UploadAction::Fail(UploadError::Storage(m)) => {
            assert_eq!(m, "Failed to create report directory: x")
        }
        other => panic!("{:?}", other),
    }

    let mut state = start();
    upload_report(&mut state, UploadEvent::Completed);
    upload_report(&mut state, UploadEvent::Allocated(2));
    upload_report(&mut state, UploadEvent::Completed);
    match upload_report(&mut state, UploadEvent::Failed("bad archive".to_string())) {
        UploadAction::Fail(e) => {
            assert_eq!(e.message(), "Zip extraction failed: bad archive");
            assert_eq!(e.status(), 500);
        }
        other => panic!("{:?}", other),
    }
    assert!(matches!(upload_report(&mut state, UploadEvent::Completed), UploadAction::Nothing));

    let mut state = start();
    upload_report(&mut state, UploadEvent::Completed);
    upload_report(&mut state, UploadEvent::Allocated(2));
    upload_report(&mut state, UploadEvent::Completed);
    upload_report(&mut state, UploadEvent::Extracted(1));
    upload_report(&mut state, UploadEvent::Resolved(path(&["shop", "main", "smoke", "2", "allure-results", "x"])));
    upload_report(&mut state, UploadEvent::Completed);
    match upload_report(&mut state, UploadEvent::Completed) {
        UploadAction::Render { input, .. } => {
            assert_eq!(input, path(&["shop", "main", "smoke", "2", "allure-results", "x"]))
        }
        other => panic!("{:?}", other),
    }
    match upload_report(&mut state, UploadEvent::Failed("Allure generation failed: boom".to_string())) {
        UploadAction::Fail(UploadError::Render(m)) => assert_eq!(m, "Allure generation failed: boom"),
        other => panic!("{:?}", other),
    }
    assert_eq!(state.stage, Stage::Finished);

    let mut state = start();
    upload_report(&mut state, UploadEvent::Completed);
    upload_report(&mut state, UploadEvent::Allocated(2));
    upload_report(&mut state, UploadEvent::Completed);
    upload_report(&mut state, UploadEvent::Extracted(1));
    upload_report(&mut state, UploadEvent::Resolved(path(&["r"])));
    upload_report(&mut state, UploadEvent::Completed);
    upload_report(&mut state, UploadEvent::Completed);
    upload_report(&mut state, UploadEvent::Rendered(String::new()));
    match upload_report(&mut state, UploadEvent::Failed("cannot move".to_string())) {
        UploadAction::Fail(UploadError::Storage(m)) => assert_eq!(m, "cannot move"),
        other => panic!("{:?}", other),
    }
}

#[test]
fn target_directory_that_cannot_be_made_ends_the_upload() {
    let (mut state, _) = begin_upload(request(None, archive_of(&["a.json"])));
    upload_report(&mut state, UploadEvent::Completed);
    upload_report(&mut state, UploadEvent::Allocated(9));
    match upload_report(&mut state, UploadEvent::Failed("disk full".to_string())) {
        UploadAction::Fail(UploadError::Storage(m)) => {
            assert_eq!(m, "Failed to create directory: disk full")
        }
        other => panic!("{:?}", other),
    }
    assert_eq!(state.stage, Stage::Finished);
}

#[test]
fn events_out_of_order_end_the_upload() {
    let (mut state, _) = begin_upload(request(None, archive_of(&["a.json"])));
    assert!(matches!(
        upload_report(&mut state, UploadEvent::Extracted(3)),
        UploadAction::Fail(UploadError::Protocol)
    ));
    assert_eq!(state.stage, Stage::Finished);
    let (mut state, _) = begin_upload(request(None, archive_of(&["a.json"])));
    upload_report(&mut state, UploadEvent::Completed);
    upload_report(&mut state, UploadEvent::Allocated(1));
    upload_report(&mut state, UploadEvent::Completed);
    upload_report(&mut state, UploadEvent::Extracted(1));
    assert!(matches!(
        upload_report(&mut state, UploadEvent::Failed("x".to_string())),
        UploadAction::Fail(UploadError::Protocol)
    ));
}

#[test]
fn paths_of_a_request_follow_the_storage_layout() {
    let rendered = request(None, vec![]);
    assert_eq!(rendered.line_dir(), path(&["shop", "main", "smoke"]));
    assert_eq!(rendered.version_dir(12), path(&["shop", "main", "smoke", "12"]));
    assert_eq!(rendered.target_dir(12), path(&["shop", "main", "smoke", "12", "allure-results"]));
    assert_eq!(rendered.output_dir(12), path(&["shop", "main", "smoke", "12", "allure-report"]));
    let raw = request(Some("raw"), vec![]);
    assert_eq!(raw.line_dir(), path(&["shop", "main", "smoke", "raw"]));
    assert_eq!(raw.version_dir(7), path(&["shop", "main", "smoke", "raw", "7"]));
    assert_eq!(raw.target_dir(7), path(&["shop", "main", "smoke", "raw", "7"]));
    assert_eq!(raw.success(7).url, "/shop/main/smoke/raw/7/index.html");
}
