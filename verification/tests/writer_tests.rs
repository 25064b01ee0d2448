use jni_bindgen::error::GenError;
use jni_bindgen::writer::{
    is_sentinel, marker_comment, progress_message, read_line_no_eol, split_lines, Difference,
    GeneratedFile, WriteOutcome,
};

fn sentinel_line() -> String {
    format!("// {}", marker_comment())
}

#[test]
fn marker_text_is_fixed() {
    assert_eq!(
        marker_comment(),
        "WARNING:  This file was autogenerated by jni-bindgen.  Any changes to this file may be lost!!!"
    );
}

#[test]
fn sentinel_accepts_both_prefixes() {
    assert!(is_sentinel(&format!("// {}", marker_comment())));
    assert!(is_sentinel(&format!("# {}", marker_comment())));
    assert!(!is_sentinel(&format!("//{}", marker_comment())));
    assert!(!is_sentinel(&String::from("something else")));
}

#[test]
fn read_line_strips_line_endings() {
    let mut buf = String::new();
    let consumed = read_line_no_eol("ab\r\ncd", 0, &mut buf);
    assert_eq!(consumed, 4);
    assert_eq!(buf, "ab");
    let mut buf2 = String::new();
    let consumed2 = read_line_no_eol("ab\r\ncd", 4, &mut buf2);
    assert_eq!(consumed2, 2);
    assert_eq!(buf2, "cd");
    let mut buf3 = String::new();
    assert_eq!(read_line_no_eol("ab\r\ncd", 6, &mut buf3), 0);
    assert_eq!(buf3, "");
}

#[test]
fn split_lines_normalizes() {
    let lines = split_lines("a\r\nb\nc");
    assert_eq!(lines, vec!["a".to_string(), "b".to_string(), "c".to_string()]);
    let lines2 = split_lines("a\n\nb\n");
    assert_eq!(lines2, vec!["a".to_string(), "".to_string(), "b".to_string()]);
    assert_eq!(split_lines(""), Vec::<String>::new());
}

#[test]
fn original_missing_is_line_zero() {
    let d = Difference::original_missing();
    assert_eq!(d.line_no, 0);
    assert_eq!(d.original, "");
    assert_eq!(d.rewrite, "");
}

#[test]
fn sentinel_enforcement_blocks_overwrite() {
    // an existing file whose first line is not the sentinel must not be
    // replaced: opening it for generation fails outright
    let r = GeneratedFile::new(Some(String::from("fn main() {}\n")));
    assert!(matches!(r, Err(GenError::OutputConflict)));
    // an empty existing file is protected too
    assert!(matches!(GeneratedFile::new(Some(String::new())), Err(GenError::OutputConflict)));
}

#[test]
fn missing_original_reports_new() {
    let mut f = GeneratedFile::new(None).unwrap();
    f.write("line one\n");
    f.flush();
    let (outcome, content) = f.clobber();
    assert!(matches!(outcome, WriteOutcome::New));
    assert_eq!(content.unwrap(), "line one\n");
}

#[test]
fn unchanged_output_is_left_untouched() {
    let text = format!("{}\nbody\n", sentinel_line());
    let mut f = GeneratedFile::new(Some(text.clone())).unwrap();
    f.write(&text);
    let (outcome, content) = f.clobber();
    assert!(matches!(outcome, WriteOutcome::Unchanged));
    assert!(content.is_none());
}

#[test]
fn line_ending_differences_are_no_differences() {
    let prior = format!("{}\r\nalpha\r\n", sentinel_line());
    let new = format!("{}\nalpha\n", sentinel_line());
    let mut f = GeneratedFile::new(Some(prior)).unwrap();
    f.write(&new);
    let (outcome, _) = f.clobber();
    assert!(matches!(outcome, WriteOutcome::Unchanged));
}

#[test]
fn first_difference_line_is_reported() {
    // prior and new output differ only at line 3: the writer must report
    // exactly line 3 and replace the whole file
    let prior = format!("{}\nalpha\nbeta\n", sentinel_line());
    let new = format!("{}\nalpha\ngamma\n", sentinel_line());
    let mut f = GeneratedFile::new(Some(prior)).unwrap();
    f.write(&new);
    let d = f.find_difference().unwrap();
    assert_eq!(d.line_no, 3);
    assert_eq!(d.original, "beta");
    assert_eq!(d.rewrite, "gamma");
    let (outcome, content) = f.clobber();
    match outcome {
        WriteOutcome::Modified(k) => assert_eq!(k, 3),
        _ => panic!("expected a modified outcome"),
    }
    assert_eq!(content.unwrap(), new);
}

#[test]
fn shorter_prior_differs_at_first_missing_line() {
    let prior = format!("{}\n", sentinel_line());
    let new = format!("{}\nextra\n", sentinel_line());
    let mut f = GeneratedFile::new(Some(prior)).unwrap();
    f.write(&new);
    let d = f.find_difference().unwrap();
    assert_eq!(d.line_no, 2);
    assert_eq!(d.original, "");
    assert_eq!(d.rewrite, "extra");
}

#[test]
fn progress_messages_match_outcomes() {
    assert_eq!(progress_message(&WriteOutcome::Unchanged, "out.rs"), "unchanged: out.rs...");
    assert_eq!(progress_message(&WriteOutcome::New, "out.rs"), "NEW: out.rs");
    assert_eq!(progress_message(&WriteOutcome::Modified(7), "out.rs"), "MODIFIED: out.rs");
}
