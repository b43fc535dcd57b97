//! The library's JSON value tree: a tagged union of null, boolean, number,
//! string, ordered array and insertion-ordered object. Numbers and strings
//! are carried as their textual bytes; the model `JsonRep` mirrors the tree
//! over `Seq`, and every value has a list of leaves — the scalar and
//! empty-container nodes, each with its dot/bracket path from the root.

use vstd::prelude::*;
use crate::bytes::dec_digits;

verus! {

/// An executable JSON value. A number holds its canonical textual form;
/// a string holds its decoded bytes.
pub enum JsonValue {
    Null,
    Bool(bool),
    Num(Vec<u8>),
    Str(Vec<u8>),
    Arr(Vec<JsonValue>),
    Obj(Vec<(Vec<u8>, JsonValue)>),
}

/// The mathematical model of a JSON value.
pub enum JsonRep {
    Null,
    Bool(bool),
    Num(Seq<u8>),
    Str(Seq<u8>),
    Arr(Seq<JsonRep>),
    Obj(Seq<(Seq<u8>, JsonRep)>),
}

impl JsonValue {
    /// The model of this value.
    pub open spec fn rep(self) -> JsonRep
        decreases self, 1int,
    {
        match self {
            JsonValue::Null => JsonRep::Null,
            JsonValue::Bool(b) => JsonRep::Bool(b),
            JsonValue::Num(t) => JsonRep::Num(t@),
            JsonValue::Str(t) => JsonRep::Str(t@),
            JsonValue::Arr(xs) => JsonRep::Arr(rep_list(xs@)),
            JsonValue::Obj(ps) => JsonRep::Obj(rep_entries(ps@)),
        }
    }
}

/// The models of a sequence of values.
pub open spec fn rep_list(xs: Seq<JsonValue>) -> Seq<JsonRep>
    decreases xs, 0int,
{
    if xs.len() == 0 {
        Seq::empty()
    } else {
        seq![xs[0].rep()] + rep_list(xs.skip(1))
    }
}

/// The models of a sequence of key/value entries.
pub open spec fn rep_entries(ps: Seq<(Vec<u8>, JsonValue)>) -> Seq<(Seq<u8>, JsonRep)>
    decreases ps, 0int,
{
    if ps.len() == 0 {
        Seq::empty()
    } else {
        seq![(ps[0].0@, ps[0].1.rep())] + rep_entries(ps.skip(1))
    }
}

/// `rep_list` maps element by element.
pub proof fn lemma_rep_list(xs: Seq<JsonValue>)
    ensures
        rep_list(xs).len() == xs.len(),
        forall|i: int| 0 <= i < xs.len() ==> rep_list(xs)[i] == xs[i].rep(),
    decreases xs.len(),
{
    if xs.len() > 0 {
        lemma_rep_list(xs.skip(1));
        assert forall|i: int| 0 <= i < xs.len() implies rep_list(xs)[i] == xs[i].rep() by {
            if i > 0 {
                assert(rep_list(xs)[i] == rep_list(xs.skip(1))[i - 1]);
                assert(xs.skip(1)[i - 1] == xs[i]);
            }
        }
    }
}

/// `rep_entries` maps entry by entry.
pub proof fn lemma_rep_entries(ps: Seq<(Vec<u8>, JsonValue)>)
    ensures
        rep_entries(ps).len() == ps.len(),
        forall|i: int| 0 <= i < ps.len() ==> rep_entries(ps)[i] == (ps[i].0@, ps[i].1.rep()),
    decreases ps.len(),
{
    if ps.len() > 0 {
        lemma_rep_entries(ps.skip(1));
        assert forall|i: int| 0 <= i < ps.len() implies rep_entries(ps)[i] == (
            ps[i].0@,
            ps[i].1.rep(),
        ) by {
            if i > 0 {
                assert(rep_entries(ps)[i] == rep_entries(ps.skip(1))[i - 1]);
                assert(ps.skip(1)[i - 1] == ps[i]);
            }
        }
    }
}

/// The key "name".
pub open spec fn name_key() -> Seq<u8> {
    seq![110u8, 97u8, 109u8, 101u8]
}

/// The string value of the first "name" entry, if it is a string.
pub open spec fn find_name(ps: Seq<(Seq<u8>, JsonRep)>) -> Option<Seq<u8>>
    decreases ps.len(),
{
    if ps.len() == 0 {
        None
    } else if ps[0].0 == name_key() {
        match ps[0].1 {
            JsonRep::Str(s) => Some(s),
            _ => None,
        }
    } else {
        find_name(ps.skip(1))
    }
}

/// The annotation a non-empty object adds to its path: `(name=<string>)`
/// when it holds a string under the key "name", nothing otherwise.
pub open spec fn name_annotation(ps: Seq<(Seq<u8>, JsonRep)>) -> Seq<u8> {
    match find_name(ps) {
        Some(s) => seq![40u8, 110u8, 97u8, 109u8, 101u8, 61u8] + s + seq![41u8],
        None => Seq::empty(),
    }
}

/// The textual form of a scalar: `null`, `true`, `false`, or the number's
/// or string's own bytes. Arrays and objects have no scalar text.
pub open spec fn scalar_text(v: JsonRep) -> Seq<u8> {
    match v {
        JsonRep::Null => seq![110u8, 117u8, 108u8, 108u8],
        JsonRep::Bool(b) => if b {
            seq![116u8, 114u8, 117u8, 101u8]
        } else {
            seq![102u8, 97u8, 108u8, 115u8, 101u8]
        },
        JsonRep::Num(t) => t,
        JsonRep::Str(t) => t,
        JsonRep::Arr(_) => Seq::empty(),
        JsonRep::Obj(_) => Seq::empty(),
    }
}

/// The text of an empty object leaf.
pub open spec fn empty_obj_text() -> Seq<u8> {
    seq![123u8, 125u8]
}

/// The text of an empty array leaf.
pub open spec fn empty_arr_text() -> Seq<u8> {
    seq![91u8, 93u8]
}

/// The array path segment `[<index>]`.
pub open spec fn index_segment(i: int) -> Seq<u8> {
    seq![91u8] + dec_digits(i as nat) + seq![93u8]
}

/// The object path segment `.<key>`.
pub open spec fn key_segment(k: Seq<u8>) -> Seq<u8> {
    seq![46u8] + k
}

/// The leaves of a value: one entry per scalar or empty container, in
/// output order, each as the pair of its path relative to the value's own
/// node and its textual form.
pub open spec fn leaf_entries(v: JsonRep) -> Seq<(Seq<u8>, Seq<u8>)>
    decreases v, 1int, 0int,
{
    match v {
        JsonRep::Arr(xs) => if xs.len() == 0 {
            seq![(Seq::<u8>::empty(), empty_arr_text())]
        } else {
            arr_leaf_entries(xs, 0)
        },
        JsonRep::Obj(ps) => if ps.len() == 0 {
            seq![(Seq::<u8>::empty(), empty_obj_text())]
        } else {
            obj_leaf_entries(name_annotation(ps), ps, 0)
        },
        _ => seq![(Seq::<u8>::empty(), scalar_text(v))],
    }
}

/// The leaves of the array elements from `i` on, each under `[<index>]`.
pub open spec fn arr_leaf_entries(xs: Seq<JsonRep>, i: int) -> Seq<(Seq<u8>, Seq<u8>)>
    decreases xs, 0int, xs.len() - i,
{
    if i < 0 || i >= xs.len() {
        Seq::empty()
    } else {
        leaf_entries(xs[i]).map_values(
            |e: (Seq<u8>, Seq<u8>)| (index_segment(i) + e.0, e.1),
        ) + arr_leaf_entries(xs, i + 1)
    }
}

/// The leaves of the object entries from `i` on, each under the object's
/// annotation and `.<key>`.
pub open spec fn obj_leaf_entries(ann: Seq<u8>, ps: Seq<(Seq<u8>, JsonRep)>, i: int) -> Seq<
    (Seq<u8>, Seq<u8>),
>
    decreases ps, 0int, ps.len() - i,
{
    if i < 0 || i >= ps.len() {
        Seq::empty()
    } else {
        leaf_entries(ps[i].1).map_values(
            |e: (Seq<u8>, Seq<u8>)| (ann + key_segment(ps[i].0) + e.0, e.1),
        ) + obj_leaf_entries(ann, ps, i + 1)
    }
}

/// How many leaves a value has: scalars and empty containers count one.
pub open spec fn leaf_count(v: JsonRep) -> nat {
    leaf_entries(v).len()
}

} // verus!
