//! Component-level checks: the rewind stream, the path stack and the
//! flatten engine, each driven directly.

use logflatten::flatten::flatten;
use logflatten::json::JsonValue;
use logflatten::path_stack::StringStack;
use logflatten::rewind::RewindBuffer;

#[test]
fn unread_then_read_round_trips() {
    let mut rb = RewindBuffer::new();
    rb.feed(b"XYZ");
    rb.unread(b"ab");
    let mut buf: Vec<u8> = Vec::new();
    let n = rb.read(&mut buf, 2);
    assert_eq!(n, 2);
    assert_eq!(buf, b"ab".to_vec());
    let mut rest: Vec<u8> = Vec::new();
    rb.take_rest(&mut rest);
    assert_eq!(rest, b"XYZ".to_vec());
}

#[test]
fn unread_then_read_line_round_trips() {
    let mut rb = RewindBuffer::new();
    rb.feed(b"XYZ\n");
    rb.unread(b"ab\n");
    let mut buf: Vec<u8> = Vec::new();
    assert_eq!(rb.read_line(&mut buf), Some(3));
    assert_eq!(buf, b"ab\n".to_vec());
}

#[test]
fn rewind_restores_bytes_since_checkpoint() {
    let mut rb = RewindBuffer::new();
    rb.feed(b"one\ntwo\n");
    rb.forget_past();
    let mut first: Vec<u8> = Vec::new();
    assert_eq!(rb.read_line(&mut first), Some(4));
    let mut part: Vec<u8> = Vec::new();
    assert_eq!(rb.read(&mut part, 2), 2);
    assert_eq!(part, b"tw".to_vec());
    rb.rewind();
    let mut again: Vec<u8> = Vec::new();
    assert_eq!(rb.read_line(&mut again), Some(4));
    assert_eq!(again, b"one\n".to_vec());
    let mut rest: Vec<u8> = Vec::new();
    rb.take_rest(&mut rest);
    assert_eq!(rest, b"two\n".to_vec());
}

#[test]
fn forget_past_drops_the_log() {
    let mut rb = RewindBuffer::new();
    rb.feed(b"abcd");
    let mut buf: Vec<u8> = Vec::new();
    assert_eq!(rb.read(&mut buf, 2), 2);
    rb.forget_past();
    rb.rewind();
    let mut rest: Vec<u8> = Vec::new();
    rb.take_rest(&mut rest);
    assert_eq!(rest, b"cd".to_vec());
}

#[test]
fn read_line_waits_for_a_newline() {
    let mut rb = RewindBuffer::new();
    rb.feed(b"partial");
    let mut buf: Vec<u8> = Vec::new();
    assert_eq!(rb.read_line(&mut buf), None);
    assert_eq!(buf, Vec::<u8>::new());
    rb.feed(b" line\nmore");
    assert_eq!(rb.read_line(&mut buf), Some(13));
    assert_eq!(buf, b"partial line\n".to_vec());
}

#[test]
fn nested_scopes_restore_the_buffer() {
    let mut buf: Vec<u8> = b"root".to_vec();
    let outer = StringStack::new(&buf);
    buf.extend_from_slice(b".child");
    let inner = StringStack::new(&buf);
    buf.extend_from_slice(b"[0]");
    assert_eq!(buf, b"root.child[0]".to_vec());
    inner.exit(&mut buf);
    assert_eq!(buf, b"root.child".to_vec());
    outer.exit(&mut buf);
    assert_eq!(buf, b"root".to_vec());
}

#[test]
fn flatten_emits_one_line_per_leaf() {
    let value = JsonValue::Obj(vec![
        (b"a".to_vec(), JsonValue::Num(b"1".to_vec())),
        (
            b"b".to_vec(),
            JsonValue::Arr(vec![
                JsonValue::Null,
                JsonValue::Bool(false),
                JsonValue::Obj(vec![]),
            ]),
        ),
    ]);
    let mut path: Vec<u8> = b"r".to_vec();
    let mut out: Vec<Vec<u8>> = Vec::new();
    flatten(&mut path, &value, &mut out);
    assert_eq!(path, b"r".to_vec());
    assert_eq!(out.len(), 4);
    assert_eq!(out[0], b"r.a: 1".to_vec());
    assert_eq!(out[1], b"r.b[0]: null".to_vec());
    assert_eq!(out[2], b"r.b[1]: false".to_vec());
    assert_eq!(out[3], b"r.b[2]: {}".to_vec());
}

#[test]
fn flatten_array_indices_are_decimal() {
    let mut items: Vec<JsonValue> = Vec::new();
    for i in 0..12 {
        items.push(JsonValue::Num(format!("{}", i).into_bytes()));
    }
    let value = JsonValue::Arr(items);
    let mut path: Vec<u8> = Vec::new();
    let mut out: Vec<Vec<u8>> = Vec::new();
    flatten(&mut path, &value, &mut out);
    assert_eq!(out.len(), 12);
    assert_eq!(out[10], b"[10]: 10".to_vec());
    assert_eq!(out[11], b"[11]: 11".to_vec());
}
