use nai_core::text::{collapse_comma_runs, collapse_space_runs, format_str, normalize_line};

#[test]
fn commas_and_spaces_collapse() {
    assert_eq!(format_str(true, "a ,, b  c"), "a, b c");
    assert_eq!(format_str(true, "  1girl ,solo,,   smile , "), "1girl, solo, smile,");
}

#[test]
fn lines_are_kept() {
    assert_eq!(format_str(true, " a  b \n\n c,d\n"), "a b\n\nc, d\n");
}

#[test]
fn disabled_format_is_identity() {
    assert_eq!(format_str(false, " a ,, b "), " a ,, b ");
}

#[test]
fn empty_text() {
    assert_eq!(format_str(true, ""), "");
}

#[test]
fn pieces() {
    assert_eq!(collapse_comma_runs("x , ,y"), "x, y");
    assert_eq!(collapse_comma_runs("x  y"), "x  y");
    assert_eq!(collapse_space_runs("a   b  c"), "a b c");
    assert_eq!(normalize_line("\t a , b \u{3000}"), "a, b");
}
