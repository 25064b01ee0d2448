use jni_bindgen::throwable::{
    quote, FrameInfo, FramesOutcome, IntOutcome, StrOutcome, ThrowableInfo,
};

#[test]
fn quoting_escapes_like_a_debug_rendering() {
    assert_eq!(quote("plain"), "\"plain\"");
    assert_eq!(quote("a\"b\\c"), "\"a\\\"b\\\\c\"");
    assert_eq!(quote("line\nbreak\ttab"), "\"line\\nbreak\\ttab\"");
    // control characters take hexadecimal escapes, as Rust's own debug
    // rendering of ASCII text does
    for s in ["plain", "a\"b\\c", "line\nbreak\ttab", "bell\u{7}", "\u{1}\u{1f}\u{7f}"] {
        assert_eq!(quote(s), format!("{:?}", s));
    }
}

#[test]
fn throwable_rendering_never_conflates_absence_with_error() {
    let info = ThrowableInfo {
        message: StrOutcome::Text(String::from("boom")),
        localized: StrOutcome::Null,
        stack: FramesOutcome::Threw,
    };
    let mut expected = String::from("java::lang::Throwable\n");
    expected.push_str("    getMessage:            \"boom\"\n");
    expected.push_str("    getLocalizedMessage:   N/A (returned null)\n");
    expected.push_str("    getStackTrace:         N/A (threw an exception!)\n");
    assert_eq!(info.render(), expected);
}

#[test]
fn stack_frames_are_rendered_in_aligned_columns() {
    let frame = FrameInfo {
        file: StrOutcome::Text(String::from("Main.java")),
        line: IntOutcome::Num(7),
        class_name: StrOutcome::Text(String::from("com.Main")),
        method_name: StrOutcome::Text(String::from("main")),
    };
    let bare = FrameInfo {
        file: StrOutcome::Null,
        line: IntOutcome::Threw,
        class_name: StrOutcome::Text(String::from("com.Main")),
        method_name: StrOutcome::Threw,
    };
    let info = ThrowableInfo {
        message: StrOutcome::Threw,
        localized: StrOutcome::Text(String::from("localized")),
        stack: FramesOutcome::Frames(vec![Some(frame), None, Some(bare)]),
    };
    let rendered = info.render();
    let mut expected = String::from("java::lang::Throwable\n");
    expected.push_str("    getMessage:            N/A (threw an exception!)\n");
    expected.push_str("    getLocalizedMessage:   \"localized\"\n");
    expected.push_str("    getStackTrace:\n");
    expected.push_str(&format!("        {:120}{}\n", "Main.java(7):", "com.Main.main"));
    expected.push_str("        N/A (frame was null)\n");
    expected.push_str(&format!(
        "        {:120}{}\n",
        "N/A (getFileName threw an exception or returned null)",
        "com.Main"
    ));
    assert_eq!(rendered, expected);
}

#[test]
fn negative_line_numbers_render_with_a_sign() {
    let frame = FrameInfo {
        file: StrOutcome::Text(String::from("Gen.java")),
        line: IntOutcome::Num(-2),
        class_name: StrOutcome::Threw,
        method_name: StrOutcome::Text(String::from("run")),
    };
    let info = ThrowableInfo {
        message: StrOutcome::Null,
        localized: StrOutcome::Threw,
        stack: FramesOutcome::Frames(vec![Some(frame)]),
    };
    let rendered = info.render();
    assert!(rendered.contains("Gen.java(-2):"));
    assert!(rendered.contains("run\n"));
}
