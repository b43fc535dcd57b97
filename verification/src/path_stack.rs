//! Scoped appends to a path buffer. A `StringStack` captures the buffer's
//! length when a scope is entered; leaving the scope truncates the buffer
//! back to that length, so recursive descent can build and retract path
//! segments with a strict stack discipline.

use vstd::prelude::*;

verus! {

/// A scope over a path buffer: the buffer's length at entry.
pub struct StringStack {
    prev_len: usize,
}

impl StringStack {
    /// The captured length.
    pub closed spec fn saved(self) -> nat {
        self.prev_len as nat
    }

    /// Opens a scope: captures the buffer's current length. Until the scope
    /// is closed with `exit`, the buffer should only be appended to.
    pub fn new(buffer: &Vec<u8>) -> (s: StringStack)
        ensures
            s.saved() == buffer@.len(),
    {
        StringStack { prev_len: buffer.len() }
    }

    /// Closes the scope: truncates the buffer back to the captured length,
    /// which undoes every append made since `new`.
    pub fn exit(self, buffer: &mut Vec<u8>)
        requires
            self.saved() <= old(buffer)@.len(),
        ensures
            final(buffer)@ == old(buffer)@.take(self.saved() as int),
    {
        buffer.truncate(self.prev_len);
    }
}

/// One operation on the path buffer: a plain append, or a whole scope
/// (enter, run the nested operations, exit).
pub enum PathOp {
    Append(Seq<u8>),
    Scope(Seq<PathOp>),
}

/// The buffer after one operation.
pub open spec fn apply_op(buf: Seq<u8>, op: PathOp) -> Seq<u8>
    decreases op, 1int,
{
    match op {
        PathOp::Append(x) => buf + x,
        PathOp::Scope(ops) => apply_ops(buf, ops).take(buf.len() as int),
    }
}

/// The buffer after a sequence of operations, applied left to right.
pub open spec fn apply_ops(buf: Seq<u8>, ops: Seq<PathOp>) -> Seq<u8>
    decreases ops, 0int,
{
    if ops.len() == 0 {
        buf
    } else {
        apply_ops(apply_op(buf, ops[0]), ops.skip(1))
    }
}

/// Every operation leaves the starting buffer in place as a prefix.
pub proof fn lemma_op_extends(buf: Seq<u8>, op: PathOp)
    ensures
        apply_op(buf, op).len() >= buf.len(),
        apply_op(buf, op).take(buf.len() as int) == buf,
    decreases op, 1int,
{
    match op {
        PathOp::Append(x) => {
            assert((buf + x).take(buf.len() as int) =~= buf);
        },
        PathOp::Scope(ops) => {
            lemma_ops_extend(buf, ops);
            assert(apply_op(buf, op).take(buf.len() as int) =~= buf);
        },
    }
}

/// A sequence of operations leaves the starting buffer in place as a prefix.
pub proof fn lemma_ops_extend(buf: Seq<u8>, ops: Seq<PathOp>)
    ensures
        apply_ops(buf, ops).len() >= buf.len(),
        apply_ops(buf, ops).take(buf.len() as int) == buf,
    decreases ops, 0int,
{
    if ops.len() == 0 {
        assert(apply_ops(buf, ops).take(buf.len() as int) =~= buf);
    } else {
        let b1 = apply_op(buf, ops[0]);
        lemma_op_extends(buf, ops[0]);
        lemma_ops_extend(b1, ops.skip(1));
        assert(apply_ops(b1, ops.skip(1)).take(buf.len() as int) =~= buf);
    }
}

/// Law: a matched scope restores the buffer exactly. Whatever balanced
/// mixture of appends and nested scopes runs inside it, after the scope
/// exits the buffer's length and contents equal those at entry.
pub proof fn lemma_scope_restores(buf: Seq<u8>, body: Seq<PathOp>)
    ensures
        apply_op(buf, PathOp::Scope(body)) == buf,
{
    lemma_ops_extend(buf, body);
}

} // verus!
