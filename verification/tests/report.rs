use regex_renamer::report::{build_found_line, build_mapping_line, usize_to_string};

#[test]
fn numbers_render_in_decimal() {
    assert_eq!(usize_to_string(0), "0");
    assert_eq!(usize_to_string(9), "9");
    assert_eq!(usize_to_string(10), "10");
    assert_eq!(usize_to_string(42), "42");
    assert_eq!(usize_to_string(1234567890), "1234567890");
}

#[test]
fn found_line_has_the_exact_format() {
    assert_eq!(
        build_found_line(3, 12, ".*\\.txt$"),
        "Found 3 files and 12 directories for '.*\\.txt$'"
    );
}

#[test]
fn mapping_line_has_the_exact_format() {
    assert_eq!(build_mapping_line("foo/(.*)", "bar/$1"), "Mapping 'foo/(.*)' -> 'bar/$1'");
}
