//! Checks of the prefix-stripping report builder.

use logflatten::prefix::{common_prefix2, strip_report};

#[test]
fn common_prefix_of_two_slices() {
    assert_eq!(common_prefix2(b"foo.a", b"foo.b"), b"foo.".to_vec());
    assert_eq!(common_prefix2(b"abc", b"abc"), b"abc".to_vec());
    assert_eq!(common_prefix2(b"abc", b"xbc"), Vec::<u8>::new());
    assert_eq!(common_prefix2(b"", b"anything"), Vec::<u8>::new());
}

#[test]
fn report_strips_common_prefix_and_trailing_dot() {
    let lines: Vec<Vec<u8>> = vec![b"foo.a".to_vec(), b"foo.b".to_vec()];
    let out = strip_report(&lines);
    assert_eq!(out, b"foo\n    .a\n    .b\n".to_vec());
}

#[test]
fn report_of_no_lines_is_empty() {
    let lines: Vec<Vec<u8>> = Vec::new();
    assert_eq!(strip_report(&lines), Vec::<u8>::new());
}

#[test]
fn report_of_one_line_strips_it_whole() {
    let lines: Vec<Vec<u8>> = vec![b"abc".to_vec()];
    assert_eq!(strip_report(&lines), b"abc\n    \n".to_vec());
}

#[test]
fn report_with_no_common_prefix_keeps_lines() {
    let lines: Vec<Vec<u8>> = vec![b"xy".to_vec(), b"ab".to_vec()];
    assert_eq!(strip_report(&lines), b"\n    xy\n    ab\n".to_vec());
}
