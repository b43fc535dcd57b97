//! End-to-end runs of the line driver over byte input, with the real JSON
//! parser linked in.

use logflatten::driver::{Driver, Step};

/// Runs the driver over `input`, feeding it line by line, and returns all
/// output bytes. Panics on a data error.
fn run(input: &[u8]) -> Vec<u8> {
    let mut driver = Driver::new();
    let mut out: Vec<u8> = Vec::new();
    let mut pos: usize = 0;
    let mut guard: usize = 0;
    loop {
        guard += 1;
        assert!(guard < 100_000, "driver did not finish");
        match driver.step() {
            Step::NeedInput => {
                if pos < input.len() {
                    let mut end = pos;
                    while end < input.len() && input[end] != b'\n' {
                        end += 1;
                    }
                    if end < input.len() {
                        end += 1;
                    }
                    driver.feed(&input[pos..end]);
                    pos = end;
                } else {
                    driver.set_eof();
                }
            }
            Step::Output(bytes) => out.extend_from_slice(&bytes),
            Step::Progress => {}
            Step::Done => return out,
            Step::InvalidData => panic!("unexpected data error"),
        }
    }
}

#[test]
fn simple_object_with_array() {
    let out = run(b"{\"a\":1,\"b\":[1,2]}");
    assert_eq!(out, b".a: 1\n.b[0]: 1\n.b[1]: 2\n".to_vec());
}

#[test]
fn named_object_annotates_path() {
    let out = run(b"log: {\"name\":\"svc\",\"ok\":true}\n");
    assert_eq!(
        out,
        b"log: (name=svc).name: svc\nlog: (name=svc).ok: true\n".to_vec()
    );
}

#[test]
fn invalid_json_passes_through_unchanged() {
    let out = run(b"not json { here");
    assert_eq!(out, b"not json { here".to_vec());
}

#[test]
fn invalid_json_terminated_line() {
    let out = run(b"not json { here\n");
    assert_eq!(out, b"not json { here\n".to_vec());
}

#[test]
fn empty_object_at_empty_root_path() {
    let out = run(b"{}\n");
    assert_eq!(out, b": {}\n".to_vec());
}

#[test]
fn trailing_content_gets_summary_line() {
    let out = run(b"{\"x\":1} trailing\n");
    assert_eq!(out, b".x: 1\n{\xE2\x80\xA6} trailing\n".to_vec());
}

#[test]
fn lines_without_brace_pass_through() {
    let out = run(b"hello\nworld\n");
    assert_eq!(out, b"hello\nworld\n".to_vec());
}

#[test]
fn unterminated_final_line_stays_unterminated() {
    let out = run(b"abc\ndef");
    assert_eq!(out, b"abc\ndef".to_vec());
}

#[test]
fn empty_input_produces_no_output() {
    let out = run(b"");
    assert_eq!(out, Vec::<u8>::new());
}

#[test]
fn json_spanning_two_lines() {
    let out = run(b"{\"a\":\n1}\n");
    assert_eq!(out, b".a: 1\n".to_vec());
}

#[test]
fn failed_probe_across_lines_is_lossless() {
    let out = run(b"x{\"a\":\nnope\nplain\n");
    assert_eq!(out, b"x{\"a\":\nnope\nplain\n".to_vec());
}

#[test]
fn empty_containers_are_leaves() {
    let out = run(b"{\"a\":[],\"b\":{}}\n");
    assert_eq!(out, b".a: []\n.b: {}\n".to_vec());
}

#[test]
fn non_string_name_is_no_annotation() {
    let out = run(b"{\"name\":1,\"x\":2}\n");
    assert_eq!(out, b".name: 1\n.x: 2\n".to_vec());
}

#[test]
fn nested_name_annotates_its_own_level_only() {
    let out = run(b"{\"a\":{\"name\":\"in\",\"v\":1}}\n");
    assert_eq!(out, b".a(name=in).name: in\n.a(name=in).v: 1\n".to_vec());
}

#[test]
fn scalar_forms() {
    let out = run(b"{\"f\":1.5,\"n\":null,\"t\":true,\"s\":\"a b\"}\n");
    assert_eq!(out, b".f: 1.5\n.n: null\n.t: true\n.s: a b\n".to_vec());
}

#[test]
fn prefix_before_brace_is_kept_as_root_path() {
    let out = run(b"svc1 {\"up\":false}\n");
    assert_eq!(out, b"svc1 .up: false\n".to_vec());
}

#[test]
fn whitespace_only_tail_gets_no_summary() {
    let out = run(b"{\"x\":1}   \n");
    assert_eq!(out, b".x: 1\n".to_vec());
}

#[test]
fn invalid_utf8_line_is_a_data_error() {
    let mut driver = Driver::new();
    driver.feed(&[0xFF, 0x6F, b'\n']);
    let mut guard = 0;
    loop {
        guard += 1;
        assert!(guard < 100, "driver did not fail");
        match driver.step() {
            Step::InvalidData => return,
            Step::Output(_) | Step::Done => panic!("bad bytes were not rejected"),
            _ => driver.set_eof(),
        }
    }
}
