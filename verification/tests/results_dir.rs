use report_host::listing::{DirEntry, EntryKind};
use report_host::results_dir::{find_results_dir, is_result_file, Descent, MAX_DESCENT};

fn listing(items: &[(&str, EntryKind)]) -> Vec<DirEntry> {
    items.iter().map(|(n, k)| DirEntry { name: n.to_string(), kind: *k }).collect()
}

#[test]
fn directory_with_a_result_file_is_the_answer() {
    let entries = listing(&[
        ("sub", EntryKind::Dir),
        ("other", EntryKind::Dir),
        ("a-result.json", EntryKind::File),
    ]);
    assert_eq!(find_results_dir(0, &entries), Descent::Found);
    assert_eq!(find_results_dir(2, &entries), Descent::Found);
}

#[test]
fn single_subdirectory_is_descended_into() {
    let entries = listing(&[
        ("readme.md", EntryKind::File),
        ("allure-results", EntryKind::Dir),
        ("link", EntryKind::Other),
    ]);
    assert_eq!(find_results_dir(0, &entries), Descent::Descend("allure-results".to_string()));
}

#[test]
fn search_stops_without_results_or_with_several_subdirectories() {
    assert_eq!(find_results_dir(0, &listing(&[])), Descent::Stop);
    assert_eq!(find_results_dir(0, &listing(&[("x.bin", EntryKind::File)])), Descent::Stop);
    let two = listing(&[("a", EntryKind::Dir), ("b", EntryKind::Dir)]);
    assert_eq!(find_results_dir(1, &two), Descent::Stop);
    let named_like_results = listing(&[("a.json", EntryKind::Dir), ("b.xml", EntryKind::Other)]);
    assert_eq!(find_results_dir(0, &named_like_results), Descent::Descend("a.json".to_string()));
}

#[test]
fn search_goes_down_three_levels_at_most() {
    assert_eq!(MAX_DESCENT, 3);
    let one = listing(&[("inner", EntryKind::Dir)]);
    let mut level = 0u8;
    let mut path: Vec<String> = Vec::new();
    loop {
        match find_results_dir(level, &one) {
            Descent::Descend(name) => {
                path.push(name);
                level += 1;
            }
            Descent::Stop => break,
            Descent::Found => panic!("no result file here"),
        }
    }
    assert_eq!(path, vec!["inner", "inner", "inner"]);
    let results = listing(&[("a.json", EntryKind::File)]);
    assert_eq!(find_results_dir(3, &results), Descent::Stop);
}

#[test]
fn result_files_go_by_their_extension() {
    for name in ["a.json", "b.xml", "c.txt", "x.y.json", "..json", "a b.txt", "é.xml"] {
        assert!(is_result_file(name), "{:?}", name);
        assert_eq!(
            std::path::Path::new(name).extension().map(|e| e == "json" || e == "xml" || e == "txt"),
            Some(true)
        );
    }
    for name in ["json", ".json", ".xml", ".txt", "a.JSON", "a.jsonl", "a.json.gz", "a.", "", "a.tx"] {
        assert!(!is_result_file(name), "{:?}", name);
        assert_ne!(
            std::path::Path::new(name).extension().map(|e| e == "json" || e == "xml" || e == "txt"),
            Some(true)
        );
    }
}
