use report_host::catalog::{get_manifest, BranchDir, LineDir, ProjectDir, ReportDescriptor};
use report_host::listing::{DirEntry, EntryKind};
use report_host::models::ReportType;

fn dirs(names: &[&str]) -> Vec<DirEntry> {
    names.iter().map(|n| DirEntry { name: n.to_string(), kind: EntryKind::Dir }).collect()
}

fn line(name: &str, children: &[&str]) -> LineDir {
    LineDir { name: name.to_string(), kind: EntryKind::Dir, children: dirs(children), raw: vec![] }
}

fn line_with_raw(name: &str, children: &[&str], raw: &[&str]) -> LineDir {
    LineDir {
        name: name.to_string(),
        kind: EntryKind::Dir,
        children: dirs(children),
        raw: raw.iter().map(|s| s.to_string()).collect(),
    }
}

fn branch(name: &str, lines: Vec<LineDir>) -> BranchDir {
    BranchDir { name: name.to_string(), kind: EntryKind::Dir, lines }
}

fn project(name: &str, branches: Vec<BranchDir>) -> ProjectDir {
    ProjectDir { name: name.to_string(), kind: EntryKind::Dir, branches }
}

fn shown(r: &ReportDescriptor) -> (String, u32, String, &'static str) {
    (r.name.clone(), r.id, r.path.clone(), r.kind.as_str())
}

fn raw_entry(id: u32) -> (String, u32, String, &'static str) {
    ("r (Raw)".to_string(), id, format!("/p/b/r/raw/{}/index.html", id), "raw")
}

#[test]
fn rendered_line_shows_its_highest_version_only() {
    let tree = vec![project("shop", vec![branch("main", vec![line("smoke", &["1", "12", "3", "notes", "history.jsonl"])])])];
    let catalog = get_manifest(&tree);
    let projects = &catalog.projects.entries;
    assert_eq!(projects.len(), 1);
    assert_eq!(projects[0].0, "shop");
    let branches = &projects[0].1.entries;
    assert_eq!(branches.len(), 1);
    assert_eq!(branches[0].0, "main");
    let reports = &branches[0].1;
    assert_eq!(reports.len(), 1);
    assert_eq!(reports[0].name, "smoke");
    assert_eq!(reports[0].id, 12);
    assert_eq!(reports[0].path, "/shop/main/smoke/12/index.html");
    assert_eq!(reports[0].kind, ReportType::Allure);
    assert_eq!(reports[0].kind.as_str(), "allure");
}

#[test]
fn lines_without_versions_and_empty_levels_are_left_out() {
    let tree = vec![
        project("empty", vec![]),
        project("hollow", vec![branch("main", vec![
            line("smoke", &[]),
            line("nightly", &["readme", "0", "history.jsonl", "allurerc.json"]),
            line_with_raw("weekly", &["raw"], &["tmp", "0"]),
        ])]),
        project("shop", vec![
            branch("dead", vec![line("17", &["1", "2"])]),
            branch("main", vec![line("smoke", &["2"])]),
        ]),
    ];
    let catalog = get_manifest(&tree);
    let projects = &catalog.projects.entries;
    assert_eq!(projects.len(), 1);
    assert_eq!(projects[0].0, "shop");
    assert_eq!(projects[0].1.entries.len(), 1);
    assert_eq!(projects[0].1.entries[0].0, "main");
    assert_eq!(projects[0].1.entries[0].1[0].id, 2);
}

#[test]
fn raw_versions_of_a_line_are_all_listed_with_the_marked_name() {
    let tree = vec![project("p", vec![branch("b", vec![line_with_raw(
        "r",
        &["raw"],
        &["1", "2", "5", "tmp"],
    )])])];
    let catalog = get_manifest(&tree);
    let reports: Vec<_> = catalog.projects.entries[0].1.entries[0].1.iter().map(shown).collect();
    assert_eq!(reports, vec![raw_entry(1), raw_entry(2), raw_entry(5)]);
}

#[test]
fn raw_upload_to_a_line_is_listed_where_it_is_served() {
    let tree = vec![project("p", vec![branch("b", vec![line_with_raw("r", &["raw"], &["4"])])])];
    let catalog = get_manifest(&tree);
    let reports: Vec<_> = catalog.projects.entries[0].1.entries[0].1.iter().map(shown).collect();
    assert_eq!(reports, vec![raw_entry(4)]);
}

#[test]
fn line_with_rendered_and_raw_versions_shows_the_latest_then_the_raw_ones() {
    let tree = vec![project("p", vec![branch("b", vec![
        line_with_raw("r", &["2", "raw", "3", "history.jsonl"], &["4", "0", "9"]),
        line("s", &["7"]),
    ])])];
    let catalog = get_manifest(&tree);
    let reports: Vec<_> = catalog.projects.entries[0].1.entries[0].1.iter().map(shown).collect();
    assert_eq!(
        reports,
        vec![
            ("r".to_string(), 3, "/p/b/r/3/index.html".to_string(), "allure"),
            raw_entry(4),
            raw_entry(9),
            ("s".to_string(), 7, "/p/b/s/7/index.html".to_string(), "allure"),
        ]
    );
}

#[test]
fn raw_listing_counts_only_below_a_raw_directory() {
    let mut no_raw_dir = line_with_raw("r", &["1"], &["4"]);
    let mut raw_is_a_file = line_with_raw("r", &["1"], &["4"]);
    raw_is_a_file.children.push(DirEntry { name: "raw".to_string(), kind: EntryKind::File });
    for l in [&mut no_raw_dir, &mut raw_is_a_file] {
        let tree = vec![project("p", vec![branch("b", vec![LineDir {
            name: l.name.clone(),
            kind: l.kind,
            children: std::mem::take(&mut l.children),
            raw: std::mem::take(&mut l.raw),
        }])])];
        let catalog = get_manifest(&tree);
        let reports: Vec<_> = catalog.projects.entries[0].1.entries[0].1.iter().map(shown).collect();
        assert_eq!(reports, vec![("r".to_string(), 1, "/p/b/r/1/index.html".to_string(), "allure")]);
    }
}

#[test]
fn only_directories_are_projects_branches_and_lines() {
    let file_line = LineDir {
        name: "notes".to_string(),
        kind: EntryKind::File,
        children: dirs(&["3"]),
        raw: vec![],
    };
    let file_branch = BranchDir {
        name: "README".to_string(),
        kind: EntryKind::File,
        lines: vec![line("smoke", &["1"])],
    };
    let other_project = ProjectDir {
        name: "socket".to_string(),
        kind: EntryKind::Other,
        branches: vec![branch("main", vec![line("smoke", &["1"])])],
    };
    let tree = vec![
        other_project,
        project("shop", vec![file_branch, branch("main", vec![file_line, line("smoke", &["5"])])]),
    ];
    let catalog = get_manifest(&tree);
    assert_eq!(catalog.projects.entries.len(), 1);
    assert_eq!(catalog.projects.entries[0].0, "shop");
    let branches = &catalog.projects.entries[0].1.entries;
    assert_eq!(branches.len(), 1);
    assert_eq!(branches[0].0, "main");
    assert_eq!(branches[0].1.len(), 1);
    assert_eq!(shown(&branches[0].1[0]), ("smoke".to_string(), 5, "/shop/main/smoke/5/index.html".to_string(), "allure"));
}

#[test]
fn numbered_entries_of_a_line_count_whatever_they_are() {
    let mut l = line("smoke", &["2"]);
    l.children.push(DirEntry { name: "9".to_string(), kind: EntryKind::File });
    let tree = vec![project("shop", vec![branch("main", vec![l])])];
    let catalog = get_manifest(&tree);
    assert_eq!(catalog.projects.entries[0].1.entries[0].1[0].id, 9);
}

#[test]
fn projects_and_branches_come_out_sorted_and_later_duplicates_win() {
    let tree = vec![
        project("zeta", vec![branch("b", vec![line("l", &["1"])]), branch("a", vec![line("l", &["2"])])]),
        project("alpha", vec![branch("main", vec![line("l", &["3"])])]),
        project("Beta", vec![branch("main", vec![line("l", &["4"])])]),
        project("alpha", vec![branch("other", vec![line("l", &["5"])])]),
        project("alp", vec![branch("main", vec![line("l", &["6"])])]),
    ];
    let catalog = get_manifest(&tree);
    let names: Vec<&str> = catalog.projects.entries.iter().map(|e| e.0.as_str()).collect();
    assert_eq!(names, vec!["Beta", "alp", "alpha", "zeta"]);
    let alpha = &catalog.projects.entries[2].1.entries;
    assert_eq!(alpha.len(), 1);
    assert_eq!(alpha[0].0, "other");
    assert_eq!(alpha[0].1[0].id, 5);
    let zeta: Vec<&str> = catalog.projects.entries[3].1.entries.iter().map(|e| e.0.as_str()).collect();
    assert_eq!(zeta, vec!["a", "b"]);
}

#[test]
fn order_of_names_matches_the_order_of_strings() {
    let names = ["b", "a", "ab", "", "B", "é", "z", "aa", "a/b", "~"];
    let tree: Vec<ProjectDir> =
        names.iter().map(|n| project(n, vec![branch("m", vec![line("l", &["1"])])])).collect();
    let catalog = get_manifest(&tree);
    let got: Vec<String> = catalog.projects.entries.iter().map(|e| e.0.clone()).collect();
    let mut want: Vec<String> = names.iter().map(|s| s.to_string()).collect();
    want.sort();
    assert_eq!(got, want);
}
