use report_host::segment::{segment_char, validate_path_segment};

#[test]
fn accepts_plain_name_and_trims_it() {
    assert_eq!(
        validate_path_segment("  my-project_1.0 ", "project_name"),
        Ok("my-project_1.0".to_string())
    );
    assert_eq!(validate_path_segment("\t\u{a0}qa\u{3000}\n", "branch"), Ok("qa".to_string()));
    assert_eq!(validate_path_segment("a", "x"), Ok("a".to_string()));
    assert_eq!(validate_path_segment(".", "x"), Ok(".".to_string()));
    assert_eq!(validate_path_segment("a.b.c", "x"), Ok("a.b.c".to_string()));
}

#[test]
fn rejects_empty_and_blank_names() {
    let want = Err("report_name cannot be empty or whitespace".to_string());
    assert_eq!(validate_path_segment("", "report_name"), want);
    assert_eq!(validate_path_segment("   ", "report_name"), want);
    assert_eq!(validate_path_segment("\n\t \u{2003}", "report_name"), want);
}

#[test]
fn rejects_path_separators_first() {
    let want = Err("branch must not contain path separators".to_string());
    assert_eq!(validate_path_segment("a/b", "branch"), want);
    assert_eq!(validate_path_segment("a\\b", "branch"), want);
    assert_eq!(validate_path_segment("../etc", "branch"), want);
    assert_eq!(validate_path_segment("..\\é", "branch"), want);
    assert_eq!(validate_path_segment("/", "branch"), want);
}

#[test]
fn rejects_parent_reference() {
    let want = Err("branch must not contain '..'".to_string());
    assert_eq!(validate_path_segment("a..b", "branch"), want);
    assert_eq!(validate_path_segment("..", "branch"), want);
    assert_eq!(validate_path_segment(" .. ", "branch"), want);
    assert_eq!(validate_path_segment("é..", "branch"), want);
    assert_eq!(validate_path_segment("a...b", "branch"), want);
}

#[test]
fn rejects_other_characters() {
    let want = Err(
        "project_name contains invalid characters. Allowed: a-z, A-Z, 0-9, '.', '_', '-'"
            .to_string(),
    );
    assert_eq!(validate_path_segment("my project", "project_name"), want);
    assert_eq!(validate_path_segment("projét", "project_name"), want);
    assert_eq!(validate_path_segment("a:b", "project_name"), want);
    assert_eq!(validate_path_segment("a\0b", "project_name"), want);
    assert_eq!(validate_path_segment("a+b", "project_name"), want);
}

#[test]
fn accepted_names_validate_to_themselves() {
    for input in ["  x ", "A-z_0.9", " rel-1.2.3\t"] {
        let once = validate_path_segment(input, "f").unwrap();
        assert_eq!(validate_path_segment(&once, "f"), Ok(once.clone()));
        assert!(!once.is_empty());
        assert!(!once.contains(".."));
        assert!(once.chars().all(segment_char));
    }
}

#[test]
fn segment_chars_are_ascii_letters_digits_dot_underscore_dash() {
    for code in 0u32..0x11_0000 {
        if let Some(c) = char::from_u32(code) {
            let want = c.is_ascii_alphanumeric() || c == '.' || c == '_' || c == '-';
            assert_eq!(segment_char(c), want, "{:?}", c);
        }
    }
}
