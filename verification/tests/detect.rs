use superclip::detect::detect_kind;

#[test]
fn blank_text_is_text() {
    assert_eq!(detect_kind(""), "text");
    assert_eq!(detect_kind("   \n\t "), "text");
}

#[test]
fn prose_is_text() {
    assert_eq!(detect_kind("hello world"), "text");
    assert_eq!(detect_kind("Meet me at 5 (or 6)."), "text");
}

#[test]
fn multi_line_code_is_code() {
    let rust = "fn main() {\n    println!(\"hi\");\n}";
    assert_eq!(detect_kind(rust), "code");
    assert_eq!(detect_kind("let a = 1;\nlet b = 2;"), "code");
}

#[test]
fn single_line_code_needs_three_points() {
    assert_eq!(detect_kind("SELECT id FROM users WHERE (id = 1);"), "code");
    assert_eq!(detect_kind("SELECT 1;"), "text");
    assert_eq!(detect_kind("const f = (x) => x;"), "code");
    assert_eq!(detect_kind("a => b"), "text");
}

#[test]
fn two_lines_need_two_points() {
    assert_eq!(detect_kind("first line\nsecond line"), "text");
    assert_eq!(detect_kind("first line\n  indented line"), "code");
    assert_eq!(detect_kind("<b>\n</b>"), "code");
}

#[test]
fn keywords_count_once_each() {
    assert_eq!(detect_kind("docker run nginx"), "text");
    assert_eq!(detect_kind("docker run npm cargo build"), "code");
    assert_eq!(detect_kind("#include <stdio.h>\nint x;"), "code");
}

#[test]
fn surrounding_space_does_not_change_the_kind() {
    assert_eq!(detect_kind("  x;\n"), "text");
    assert_eq!(detect_kind("x;"), "text");
    assert_eq!(detect_kind("\n\n  let a = 1;\nlet b = 2;  \n"), detect_kind("let a = 1;\nlet b = 2;"));
}
