use report_host::archive::{detect_common_prefix, extract_zip, plain_name, plan_extraction, ArchiveEntry};
use std::io::Write;

fn zip_of(entries: &[(&str, Option<&[u8]>)]) -> Vec<u8> {
    let mut writer = zip::ZipWriter::new(std::io::Cursor::new(Vec::new()));
    let options = zip::write::SimpleFileOptions::default()
        .compression_method(zip::CompressionMethod::Stored);
    for (name, content) in entries {
        match content {
            Some(bytes) => {
                writer.start_file(name.to_string(), options).unwrap();
                writer.write_all(bytes).unwrap();
            }
            None => {
                writer.add_directory(name.to_string(), options).unwrap();
            }
        }
    }
    writer.finish().unwrap().into_inner()
}

fn paths(plan: &[report_host::archive::PlannedEntry]) -> Vec<(usize, String, bool)> {
    plan.iter().map(|e| (e.index, e.path.join("/"), e.is_dir)).collect()
}

fn entry(name: &str, enclosed: Option<&[&str]>) -> ArchiveEntry {
    ArchiveEntry {
        name: name.to_string(),
        enclosed: enclosed.map(|p| p.iter().map(|s| s.to_string()).collect()),
    }
}

#[test]
fn shared_top_folder_is_stripped_from_every_entry() {
    let bytes = zip_of(&[
        ("allure-results/a.json", Some(b"{}")),
        ("allure-results/b.json", Some(b"[]")),
    ]);
    let x = extract_zip(bytes).unwrap();
    assert_eq!(x.count, 2);
    assert_eq!(paths(&x.plan), vec![(0, "a.json".to_string(), false), (1, "b.json".to_string(), false)]);
}

#[test]
fn folder_entry_of_the_shared_folder_is_passed_over() {
    let bytes = zip_of(&[
        ("results/", None),
        ("results/sub/", None),
        ("results/sub/a.xml", Some(b"<a/>")),
    ]);
    let x = extract_zip(bytes).unwrap();
    assert_eq!(x.count, 3);
    assert_eq!(paths(&x.plan), vec![(1, "sub".to_string(), true), (2, "sub/a.xml".to_string(), false)]);
}

#[test]
fn disagreeing_entries_keep_their_full_paths() {
    let bytes = zip_of(&[("one/a.json", Some(b"1")), ("two/b.json", Some(b"2")), ("c.txt", Some(b"3"))]);
    let x = extract_zip(bytes).unwrap();
    assert_eq!(
        paths(&x.plan),
        vec![(0, "one/a.json".to_string(), false), (1, "two/b.json".to_string(), false), (2, "c.txt".to_string(), false)]
    );
}

#[test]
fn escaping_entries_are_passed_over_but_counted() {
    let bytes = zip_of(&[
        ("../../x", Some(b"evil")),
        ("ok/a.json", Some(b"1")),
        ("ok/../../b", Some(b"evil")),
    ]);
    let x = extract_zip(bytes).unwrap();
    assert_eq!(x.count, 3);
    assert_eq!(paths(&x.plan), vec![(1, "ok/a.json".to_string(), false)]);
}

#[test]
fn garbage_is_not_an_archive() {
    assert!(extract_zip(b"this is not a zip archive".to_vec()).is_err());
    assert!(extract_zip(Vec::new()).is_err());
}

#[test]
fn empty_archive_has_an_empty_plan() {
    let x = extract_zip(zip_of(&[])).unwrap();
    assert_eq!(x.count, 0);
    assert!(x.plan.is_empty());
}

#[test]
fn content_is_read_from_the_returned_archive_by_index() {
    let bytes = zip_of(&[("r/a.json", Some(b"alpha")), ("r/b.json", Some(b"beta"))]);
    let mut x = extract_zip(bytes).unwrap();
    let mut content = String::new();
    std::io::Read::read_to_string(&mut x.archive.by_index(x.plan[1].index).unwrap(), &mut content).unwrap();
    assert_eq!(content, "beta");
}

#[test]
fn common_prefix_is_the_first_segment_where_all_agree() {
    let names = |v: &[&str]| v.iter().map(|s| s.to_string()).collect::<Vec<String>>();
    assert_eq!(detect_common_prefix(&names(&["a/x", "a/y/z", "a"])), Some("a".to_string()));
    assert_eq!(detect_common_prefix(&names(&["a/x", "b/y"])), None);
    assert_eq!(detect_common_prefix(&names(&[])), None);
    assert_eq!(detect_common_prefix(&names(&["", ""])), None);
    assert_eq!(detect_common_prefix(&names(&["", "/abs"])), None);
    assert_eq!(detect_common_prefix(&names(&["/", "a/b"])), None);
    assert_eq!(detect_common_prefix(&names(&["a/b", "/"])), None);
    assert_eq!(detect_common_prefix(&names(&["/abs", "a/x", "", "a/"])), None);
    assert_eq!(detect_common_prefix(&names(&["a/x", "", "a/"])), Some("a".to_string()));
    assert_eq!(detect_common_prefix(&names(&["a"])), Some("a".to_string()));
    assert_eq!(detect_common_prefix(&names(&["a/x", "ab/y"])), None);
    assert_eq!(detect_common_prefix(&names(&["../x", "../y"])), Some("..".to_string()));
}

#[test]
fn plan_strips_only_a_matching_first_component() {
    let entries = vec![
        entry("top/a.json", Some(&["top", "a.json"])),
        entry("top/", Some(&["top"])),
        entry("top/../other/b", Some(&["other", "b"])),
        entry("top/c/", Some(&["top", "c"])),
        entry("top/bad", None),
    ];
    let plan = plan_extraction(&entries);
    assert_eq!(
        paths(&plan),
        vec![(0, "a.json".to_string(), false), (2, "other/b".to_string(), false), (3, "c".to_string(), true)]
    );
}

#[test]
fn plan_never_leaves_the_target_whatever_the_paths_hold() {
    let entries = vec![
        entry("p/a", Some(&["p", "..", "..", "a"])),
        entry("p/b", Some(&["p", "."])),
        entry("p/c", Some(&["p", "x/y"])),
        entry("p/d", Some(&["p", "x\\y"])),
        entry("p/e", Some(&["p", ""])),
        entry("p/f", Some(&["p", "nul\0"])),
        entry("p/g", Some(&["p", "...", "g"])),
        entry("p/h", Some(&[])),
    ];
    let plan = plan_extraction(&entries);
    assert_eq!(paths(&plan), vec![(6, ".../g".to_string(), false)]);
}

#[test]
fn plain_names_exclude_dots_separators_and_nul() {
    for ok in ["a", "a.b", "...", ".hidden", "with space", "é", "C:"] {
        assert!(plain_name(ok), "{:?}", ok);
    }
    for bad in ["", ".", "..", "a/b", "a\\b", "/", "a\0"] {
        assert!(!plain_name(bad), "{:?}", bad);
    }
}

fn find(bytes: &[u8], signature: &[u8]) -> usize {
    bytes.windows(signature.len()).position(|w| w == signature).unwrap()
}

#[test]
fn entry_that_cannot_be_opened_fails_the_extraction() {
    let mut bytes = zip_of(&[("a.json", Some(b"{}"))]);
    assert!(extract_zip(bytes.clone()).is_ok());
    // Mark the entry as packed with a method that the reader does not know.
    let local = find(&bytes, b"PK\x03\x04");
    bytes[local + 8] = 0x63;
    bytes[local + 9] = 0x63;
    let central = find(&bytes, b"PK\x01\x02");
    bytes[central + 10] = 0x63;
    bytes[central + 11] = 0x63;
    match extract_zip(bytes) {
        Err(message) => assert!(!message.is_empty()),
        Ok(x) => panic!("{} entries planned", x.plan.len()),
    }
}
