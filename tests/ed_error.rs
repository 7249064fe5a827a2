use roc_gen::ed_error::{
    backtrace_plan, color_backtrace, contains_one_of, lines_of, str_contains, usize_to_string, EdError,
};

#[test]
fn error_messages() {
    let e = EdError::OutOfBounds { index: 12, collection_name: "lines".to_string(), len: 3 };
    assert_eq!(e.message(), "OutOfBounds: index 12 was out of bounds for lines with length 3.");
    let e = EdError::ClipboardInitFailed { err_msg: "no display".to_string() };
    assert_eq!(e.message(), "ClipboardInitFailed: could not initialize ClipboardContext: no display.");
    let e = EdError::UIErrorBacktrace { msg: "bad".to_string() };
    assert_eq!(e.message(), "UIError: bad");
}

#[test]
fn substring_search() {
    assert!(str_contains("at src/main.rs", "src"));
    assert!(!str_contains("at sr/main.rs", "src"));
    assert!(str_contains("abc", ""));
    assert!(!str_contains("ab", "abc"));
    assert!(contains_one_of("/home/.cargo/registry/x", &[".rustup", "registry"]));
    assert!(!contains_one_of("editor/src/main.rs", &[".cargo", "registry", ".rustup", "rustc"]));
}

#[test]
fn splitting_lines() {
    assert_eq!(lines_of("a\nb\n"), vec!["a", "b", ""]);
    assert_eq!(lines_of(""), vec![""]);
}

#[test]
fn backtrace_marks_own_frames() {
    let bt = "0: std::rt\n   at /rustc/abc/src/rt.rs:1\n1: editor::run\n   at editor/src/main.rs:9\n";
    let plan = backtrace_plan(bt);
    assert_eq!(plan.len(), 4);
    assert!(!plan[1].highlight);
    assert!(plan[2].before_highlight);
    assert!(plan[3].highlight);
    assert!(!plan[3].before_highlight);
    colored::control::set_override(false);
    assert_eq!(color_backtrace(bt), bt);
    assert_eq!(color_backtrace("no break"), "");
    colored::control::set_override(true);
    let shown = color_backtrace(bt);
    assert!(shown.contains("\x1b["));
    assert!(shown.contains("editor/src/main.rs:9"));
    colored::control::unset_override();
}

#[test]
fn decimal_digits() {
    for n in [0usize, 7, 10, 12345, usize::MAX] {
        assert_eq!(usize_to_string(n), n.to_string());
    }
}
