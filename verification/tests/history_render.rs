use report_host::history::{
    collect_history, config_file_name, ensure_allure_config, history_file_name, sync_history,
    HistoryCopy, HistoryPlace,
};
use report_host::listing::EntryKind;
use report_host::render::{
    generate_report, move_directory_contents, renderer_arguments, renderer_program, Clearance,
    RenderRun,
};

#[test]
fn history_is_pulled_only_where_the_line_has_one() {
    assert_eq!(
        sync_history(true),
        Some(HistoryCopy { from: HistoryPlace::Line, to: HistoryPlace::Work })
    );
    assert_eq!(sync_history(false), None);
}

#[test]
fn history_is_pushed_from_the_working_directory_first() {
    let from_work = Some(HistoryCopy { from: HistoryPlace::Work, to: HistoryPlace::Line });
    let from_output = Some(HistoryCopy { from: HistoryPlace::Output, to: HistoryPlace::Line });
    assert_eq!(collect_history(true, true), from_work);
    assert_eq!(collect_history(true, false), from_work);
    assert_eq!(collect_history(false, true), from_output);
    assert_eq!(collect_history(false, false), None);
}

#[test]
fn render_config_points_at_the_history_of_the_line() {
    assert_eq!(history_file_name(), "history.jsonl");
    assert_eq!(config_file_name(), "allurerc.json");
    let config = ensure_allure_config("/data/shop/main/smoke");
    assert_eq!(config.history_path, "/data/shop/main/smoke/history.jsonl");
    assert!(config.append_history);
    assert_eq!(ensure_allure_config("/data/").history_path, "/data/history.jsonl");
    assert_eq!(ensure_allure_config("").history_path, "history.jsonl");
    for dir in ["/data/shop/main/smoke", "/data/", "", "rel/dir", "/"] {
        let want = std::path::Path::new(dir).join("history.jsonl");
        assert_eq!(ensure_allure_config(dir).history_path, want.to_string_lossy());
    }
}

#[test]
fn renderer_is_called_with_input_output_and_config_directory() {
    assert_eq!(renderer_program(), "npx");
    assert_eq!(
        renderer_arguments("/in", "/out", "/line"),
        vec!["allure", "generate", "/in", "-o", "/out", "--cwd", "/line"]
    );
}

#[test]
fn render_outcome_is_stdout_or_the_diagnostics() {
    let ok = RenderRun::Exited {
        success: true,
        stdout: "done".to_string(),
        stderr: "warn".to_string(),
    };
    assert_eq!(generate_report(ok), Ok("done".to_string()));
    let failed = RenderRun::Exited {
        success: false,
        stdout: "partial".to_string(),
        stderr: "boom".to_string(),
    };
    assert_eq!(generate_report(failed), Err("Allure generation failed: boom".to_string()));
    assert_eq!(
        generate_report(RenderRun::NotStarted("No such file".to_string())),
        Err("Failed to run npx command: No such file".to_string())
    );
}

#[test]
fn moving_clears_the_destination_first() {
    assert_eq!(move_directory_contents(None), Clearance::Nothing);
    assert_eq!(move_directory_contents(Some(EntryKind::Dir)), Clearance::RemoveTree);
    assert_eq!(move_directory_contents(Some(EntryKind::File)), Clearance::RemoveFile);
    assert_eq!(move_directory_contents(Some(EntryKind::Other)), Clearance::RemoveFile);
}
