//! The flatten engine: turns a JSON value and a caller-supplied root path
//! into one output line per leaf, `"<path>: <text>"`, building paths with
//! scoped appends to a single reusable buffer.

use vstd::prelude::*;
use crate::bytes::push_decimal;
use crate::json::{
    JsonRep, JsonValue, arr_leaf_entries, empty_arr_text, empty_obj_text, find_name,
    index_segment, key_segment, leaf_count, leaf_entries, lemma_rep_entries, lemma_rep_list,
    name_annotation, name_key, obj_leaf_entries, rep_entries, rep_list, scalar_text,
};
use crate::path_stack::StringStack;

verus! {

/// The separator between a path and a leaf's text.
pub open spec fn colon_sp() -> Seq<u8> {
    seq![58u8, 32u8]
}

/// The line a leaf entry produces under a root path.
pub open spec fn leaf_line(path: Seq<u8>, e: (Seq<u8>, Seq<u8>)) -> Seq<u8> {
    path + e.0 + colon_sp() + e.1
}

/// The output lines of flattening `v` under `path`.
pub open spec fn flat_lines(path: Seq<u8>, v: JsonRep) -> Seq<Seq<u8>>
    decreases v, 1int, 0int,
{
    match v {
        JsonRep::Arr(xs) => if xs.len() == 0 {
            seq![path + colon_sp() + empty_arr_text()]
        } else {
            arr_lines(path, xs, 0)
        },
        JsonRep::Obj(ps) => if ps.len() == 0 {
            seq![path + colon_sp() + empty_obj_text()]
        } else {
            obj_lines(path + name_annotation(ps), ps, 0)
        },
        _ => seq![path + colon_sp() + scalar_text(v)],
    }
}

/// The lines of the array elements from `i` on.
pub open spec fn arr_lines(path: Seq<u8>, xs: Seq<JsonRep>, i: int) -> Seq<Seq<u8>>
    decreases xs, 0int, xs.len() - i,
{
    if i < 0 || i >= xs.len() {
        Seq::empty()
    } else {
        flat_lines(path + index_segment(i), xs[i]) + arr_lines(path, xs, i + 1)
    }
}

/// The lines of the object entries from `i` on; `path` already carries the
/// object's annotation.
pub open spec fn obj_lines(path: Seq<u8>, ps: Seq<(Seq<u8>, JsonRep)>, i: int) -> Seq<Seq<u8>>
    decreases ps, 0int, ps.len() - i,
{
    if i < 0 || i >= ps.len() {
        Seq::empty()
    } else {
        flat_lines(path + key_segment(ps[i].0), ps[i].1) + obj_lines(path, ps, i + 1)
    }
}

/// The views of a sequence of byte vectors.
pub open spec fn line_views(s: Seq<Vec<u8>>) -> Seq<Seq<u8>> {
    Seq::new(s.len(), |i: int| s[i]@)
}

/// Appends the line `<path>: <text>` to `out`.
fn push_line(out: &mut Vec<Vec<u8>>, path: &Vec<u8>, text: &[u8])
    ensures
        line_views(final(out)@) == line_views(old(out)@).push(path@ + colon_sp() + text@),
{
    let mut line: Vec<u8> = Vec::new();
    line.extend_from_slice(path.as_slice());
    line.push(58);
    line.push(32);
    line.extend_from_slice(text);
    out.push(line);
    proof {
        assert(line@ =~= path@ + colon_sp() + text@);
        assert(line_views(out@) =~= line_views(old(out)@).push(path@ + colon_sp() + text@));
    }
}

/// The string value under the key "name", if the object has one.
fn find_name_entry(ps: &Vec<(Vec<u8>, JsonValue)>) -> (r: Option<&Vec<u8>>)
    ensures
        ({
            let prep = rep_entries(ps@);
            match r {
                Some(s) => find_name(prep) == Some(s@),
                None => find_name(prep) == None::<Seq<u8>>,
            }
        }),
{
    let ghost prep = rep_entries(ps@);
    proof {
        lemma_rep_entries(ps@);
    }
    proof {
        assert(prep.skip(0) =~= prep);
    }
    let mut i: usize = 0;
    while i < ps.len()
        invariant
            0 <= i <= ps@.len(),
            prep == rep_entries(ps@),
            prep.len() == ps@.len(),
            find_name(prep.skip(i as int)) == find_name(prep),
        decreases ps@.len() - i,
    {
        proof {
            lemma_rep_entries(ps@);
            assert(prep.skip(i as int)[0] == prep[i as int]);
            assert(prep.skip(i as int).skip(1) =~= prep.skip(i as int + 1));
        }
        let k = &ps[i].0;
        if k.len() == 4 && k[0] == 110 && k[1] == 97 && k[2] == 109 && k[3] == 101 {
            proof {
                assert(prep[i as int].0 =~= name_key());
            }
            match &ps[i].1 {
                JsonValue::Str(s) => {
                    return Some(s);
                },
                _ => {
                    return None;
                },
            }
        }
        proof {
            if prep[i as int].0 =~= name_key() {
                assert(ps@[i as int].0@ == name_key());
                assert(ps@[i as int].0@.len() == 4);
                assert(false);
            }
        }
        i = i + 1;
    }
    None
}

/// Flattens `v` under `path` into `out`: appends one line per leaf, and
/// leaves `path` exactly as it was.
pub fn flatten(path: &mut Vec<u8>, v: &JsonValue, out: &mut Vec<Vec<u8>>)
    ensures
        final(path)@ == old(path)@,
        line_views(final(out)@) == line_views(old(out)@) + flat_lines(old(path)@, v.rep()),
    decreases v,
{
    let ghost out0 = out@;
    let ghost p0 = path@;
    match v {
        JsonValue::Null => {
            let t: Vec<u8> = vec![110u8, 117u8, 108u8, 108u8];
            push_line(out, path, t.as_slice());
            proof {
                assert(line_views(out@) =~= line_views(out0) + flat_lines(p0, v.rep()));
            }
        },
        JsonValue::Bool(b) => {
            let t: Vec<u8> = if *b {
                vec![116u8, 114u8, 117u8, 101u8]
            } else {
                vec![102u8, 97u8, 108u8, 115u8, 101u8]
            };
            push_line(out, path, t.as_slice());
            proof {
                assert(line_views(out@) =~= line_views(out0) + flat_lines(p0, v.rep()));
            }
        },
        JsonValue::Num(t) => {
            push_line(out, path, t.as_slice());
            proof {
                assert(line_views(out@) =~= line_views(out0) + flat_lines(p0, v.rep()));
            }
        },
        JsonValue::Str(t) => {
            push_line(out, path, t.as_slice());
            proof {
                assert(line_views(out@) =~= line_views(out0) + flat_lines(p0, v.rep()));
            }
        },
        JsonValue::Arr(xs) => {
            let ghost arep = rep_list(xs@);
            proof {
                lemma_rep_list(xs@);
            }
            if xs.len() == 0 {
                let t: Vec<u8> = vec![91u8, 93u8];
                push_line(out, path, t.as_slice());
                proof {
                    assert(line_views(out@) =~= line_views(out0) + flat_lines(p0, v.rep()));
                }
            } else {
                let mut i: usize = 0;
                while i < xs.len()
                    invariant
                        0 <= i <= xs@.len(),
                        *v == JsonValue::Arr(*xs),
                        path@ == p0,
                        arep == rep_list(xs@),
                        arep.len() == xs@.len(),
                        line_views(out@) + arr_lines(p0, arep, i as int) == line_views(out0)
                            + arr_lines(p0, arep, 0),
                    decreases xs@.len() - i,
                {
                    let ghost outl = line_views(out@);
                    proof {
                        lemma_rep_list(xs@);
                        assert(decreases_to!(*v => v->Arr_0));
                        assert(decreases_to!(*xs => xs@));
                        assert(decreases_to!(xs@ => xs@[i as int]));
                    }
                    let st = StringStack::new(path);
                    path.push(91);
                    push_decimal(path, i);
                    path.push(93);
                    proof {
                        assert(path@ =~= p0 + index_segment(i as int));
                    }
                    flatten(path, &xs[i], out);
                    st.exit(path);
                    proof {
                        assert(path@ =~= p0);
                        assert(line_views(out@) =~= outl + flat_lines(
                            p0 + index_segment(i as int),
                            arep[i as int],
                        ));
                        assert(line_views(out@) + arr_lines(p0, arep, i as int + 1) =~= outl
                            + arr_lines(p0, arep, i as int));
                    }
                    i = i + 1;
                }
                proof {
                    assert(arr_lines(p0, arep, xs@.len() as int) =~= Seq::<Seq<u8>>::empty());
                    assert(line_views(out@) =~= line_views(out0) + arr_lines(p0, arep, 0));
                    assert(line_views(out@) =~= line_views(out0) + flat_lines(p0, v.rep()));
                }
            }
        },
        JsonValue::Obj(ps) => {
            let ghost prep = rep_entries(ps@);
            proof {
                lemma_rep_entries(ps@);
            }
            if ps.len() == 0 {
                let t: Vec<u8> = vec![123u8, 125u8];
                push_line(out, path, t.as_slice());
                proof {
                    assert(line_views(out@) =~= line_views(out0) + flat_lines(p0, v.rep()));
                }
            } else {
                let st = StringStack::new(path);
                match find_name_entry(ps) {
                    Some(s) => {
                        path.push(40);
                        path.push(110);
                        path.push(97);
                        path.push(109);
                        path.push(101);
                        path.push(61);
                        path.extend_from_slice(s.as_slice());
                        path.push(41);
                        proof {
                            assert(path@ =~= p0 + name_annotation(prep));
                        }
                    },
                    None => {
                        proof {
                            assert(path@ =~= p0 + name_annotation(prep));
                        }
                    },
                }
                let ghost pa = p0 + name_annotation(prep);
                let mut i: usize = 0;
                while i < ps.len()
                    invariant
                        0 <= i <= ps@.len(),
                        *v == JsonValue::Obj(*ps),
                        path@ == pa,
                        pa == p0 + name_annotation(prep),
                        p0.len() <= pa.len(),
                        prep == rep_entries(ps@),
                        prep.len() == ps@.len(),
                        line_views(out@) + obj_lines(pa, prep, i as int) == line_views(out0)
                            + obj_lines(pa, prep, 0),
                    decreases ps@.len() - i,
                {
                    let ghost outl = line_views(out@);
                    proof {
                        lemma_rep_entries(ps@);
                        assert(decreases_to!(*v => v->Obj_0));
                        assert(decreases_to!(*ps => ps@));
                        assert(decreases_to!(ps@ => ps@[i as int]));
                        assert(decreases_to!(ps@[i as int] => ps@[i as int].1));
                    }
                    let st2 = StringStack::new(path);
                    path.push(46);
                    path.extend_from_slice(ps[i].0.as_slice());
                    proof {
                        assert(path@ =~= pa + key_segment(prep[i as int].0));
                    }
                    flatten(path, &ps[i].1, out);
                    st2.exit(path);
                    proof {
                        assert(path@ =~= pa);
                        assert(line_views(out@) =~= outl + flat_lines(
                            pa + key_segment(prep[i as int].0),
                            prep[i as int].1,
                        ));
                        assert(line_views(out@) + obj_lines(pa, prep, i as int + 1) =~= outl
                            + obj_lines(pa, prep, i as int));
                    }
                    i = i + 1;
                }
                st.exit(path);
                proof {
                    assert(path@ =~= p0);
                    assert(obj_lines(pa, prep, ps@.len() as int) =~= Seq::<Seq<u8>>::empty());
                    assert(line_views(out@) =~= line_views(out0) + obj_lines(pa, prep, 0));
                    assert(line_views(out@) =~= line_views(out0) + flat_lines(p0, v.rep()));
                }
            }
        },
    }
}

/// `flat_lines` maps the leaves of `v` one for one under `path`.
pub proof fn lemma_flat_is_leaves(path: Seq<u8>, v: JsonRep)
    ensures
        flat_lines(path, v) == leaf_entries(v).map_values(
            |e: (Seq<u8>, Seq<u8>)| leaf_line(path, e),
        ),
    decreases v, 1int, 0int,
{
    match v {
        JsonRep::Arr(xs) => {
            if xs.len() == 0 {
                assert(flat_lines(path, v) =~~= leaf_entries(v).map_values(
                    |e: (Seq<u8>, Seq<u8>)| leaf_line(path, e),
                ));
            } else {
                lemma_arr_is_leaves(path, xs, 0);
            }
        },
        JsonRep::Obj(ps) => {
            if ps.len() == 0 {
                assert(flat_lines(path, v) =~~= leaf_entries(v).map_values(
                    |e: (Seq<u8>, Seq<u8>)| leaf_line(path, e),
                ));
            } else {
                lemma_obj_is_leaves(path, name_annotation(ps), ps, 0);
                assert(flat_lines(path, v) =~~= leaf_entries(v).map_values(
                    |e: (Seq<u8>, Seq<u8>)| leaf_line(path, e),
                ));
            }
        },
        _ => {
            assert(flat_lines(path, v) =~~= leaf_entries(v).map_values(
                |e: (Seq<u8>, Seq<u8>)| leaf_line(path, e),
            ));
        },
    }
}

/// `arr_lines` maps the array's leaf entries one for one.
proof fn lemma_arr_is_leaves(path: Seq<u8>, xs: Seq<JsonRep>, i: int)
    ensures
        arr_lines(path, xs, i) == arr_leaf_entries(xs, i).map_values(
            |e: (Seq<u8>, Seq<u8>)| leaf_line(path, e),
        ),
    decreases xs, 0int, xs.len() - i,
{
    if i < 0 || i >= xs.len() {
        assert(arr_lines(path, xs, i) =~~= arr_leaf_entries(xs, i).map_values(
            |e: (Seq<u8>, Seq<u8>)| leaf_line(path, e),
        ));
    } else {
        lemma_flat_is_leaves(path + index_segment(i), xs[i]);
        lemma_arr_is_leaves(path, xs, i + 1);
        assert(arr_lines(path, xs, i) =~~= arr_leaf_entries(xs, i).map_values(
            |e: (Seq<u8>, Seq<u8>)| leaf_line(path, e),
        ));
    }
}

/// `obj_lines` maps the object's leaf entries one for one; the object's
/// annotation sits at the head of each entry's relative path.
proof fn lemma_obj_is_leaves(path: Seq<u8>, ann: Seq<u8>, ps: Seq<(Seq<u8>, JsonRep)>, i: int)
    ensures
        obj_lines(path + ann, ps, i) == obj_leaf_entries(ann, ps, i).map_values(
            |e: (Seq<u8>, Seq<u8>)| leaf_line(path, e),
        ),
    decreases ps, 0int, ps.len() - i,
{
    if i < 0 || i >= ps.len() {
        assert(obj_lines(path + ann, ps, i) =~~= obj_leaf_entries(ann, ps, i).map_values(
            |e: (Seq<u8>, Seq<u8>)| leaf_line(path, e),
        ));
    } else {
        lemma_flat_is_leaves(path + ann + key_segment(ps[i].0), ps[i].1);
        lemma_obj_is_leaves(path, ann, ps, i + 1);
        assert((path + ann) + key_segment(ps[i].0) =~= path + ann + key_segment(ps[i].0));
        assert(obj_lines(path + ann, ps, i) =~~= obj_leaf_entries(ann, ps, i).map_values(
            |e: (Seq<u8>, Seq<u8>)| leaf_line(path, e),
        ));
    }
}

/// Law: flattening emits exactly one line per leaf — the leaf count — and
/// each line is the root path, the leaf's own dot/bracket path, `: `, and
/// the leaf's text, in leaf order.
pub proof fn lemma_flatten_lines_exact(path: Seq<u8>, v: JsonRep)
    ensures
        flat_lines(path, v).len() == leaf_count(v),
        forall|i: int| 0 <= i < leaf_count(v) ==> flat_lines(path, v)[i] == leaf_line(
            path,
            leaf_entries(v)[i],
        ),
{
    lemma_flat_is_leaves(path, v);
}

} // verus!
