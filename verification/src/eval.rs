//! The interpreter that gives codecs their two directions, proved against
//! the models in [`crate::codec`].

use vstd::prelude::*;

use crate::codec::{
    apply_conv, cfields_view, first_unknown, has_field_name, in_bounds, lemma_cfields_view,
    prim_mismatch, spec_decode, spec_decode_entries, spec_decode_fields, spec_decode_list,
    spec_encode, spec_encode_entries, spec_encode_fields, spec_encode_list, unsupported_key_msg,
    Bound, Codec, CodecView, Conv, FieldMode, RecordField, StepResult,
};
use crate::context::{clone_point, points_view, Context, PointView, TracePoint};
use crate::ops::{kv_get, lemma_entries_kv};
use crate::result::{CodecError, DataError, ErrView};
use crate::value::{entries_view, elems_view, lemma_elems_view, lemma_entries_view, str_eq,
    TreeView, Value};

verus! {

broadcast use vstd::std_specs::vec::group_vec_axioms;

/// How often a self-referential codec may unfold; deeper data than this
/// cannot exist in memory.
pub const REC_FUEL: u64 = u64::MAX;

/// A failure of one direction of the interpreter: the error, and the
/// relative path of the descent that produced it, outermost step first.
#[derive(Debug)]
pub struct Failure {
    pub error: DataError,
    pub path: Vec<TracePoint>,
}

impl View for Failure {
    type V = (ErrView, Seq<PointView>);

    open spec fn view(&self) -> (ErrView, Seq<PointView>) {
        (self.error@, points_view(self.path@))
    }
}

/// The model of an interpreter result.
pub open spec fn res_view(r: Result<Value, Failure>) -> StepResult {
    match r {
        Ok(v) => Ok(v@),
        Err(f) => Err(f@),
    }
}

/// The model of a list-of-elements result.
pub open spec fn elems_res_view(r: Result<Vec<Value>, Failure>) -> Result<
    Seq<TreeView>,
    (ErrView, Seq<PointView>),
> {
    match r {
        Ok(v) => Ok(elems_view(v@)),
        Err(f) => Err(f@),
    }
}

/// The model of a map-entries result.
pub open spec fn entries_res_view(r: Result<Vec<(String, Value)>, Failure>) -> Result<
    Seq<(Seq<char>, TreeView)>,
    (ErrView, Seq<PointView>),
> {
    match r {
        Ok(v) => Ok(entries_view(v@)),
        Err(f) => Err(f@),
    }
}

/// The model of the enclosing self-referential codec, if any.
pub open spec fn otop(top: Option<&Codec>) -> Option<CodecView> {
    match top {
        Some(c) => Some(c@),
        None => None,
    }
}

/// A failure with an empty path.
fn fail(error: DataError) -> (r: Failure)
    ensures
        r@ == (error@, Seq::<PointView>::empty()),
{
    let r = Failure { error, path: Vec::new() };
    proof {
        assert(points_view(r.path@) =~= Seq::<PointView>::empty());
    }
    r
}

/// A failure located at one trace point.
fn fail_at(error: DataError, point: TracePoint) -> (r: Failure)
    ensures
        r@ == (error@, seq![point@]),
{
    let mut path: Vec<TracePoint> = Vec::new();
    path.push(point);
    let r = Failure { error, path };
    proof {
        assert(points_view(r.path@) =~= seq![r.path@[0]@]);
    }
    r
}

/// The failure a primitive codec raises, named after the codec.
fn prim_fail(name: &str) -> (r: Failure)
    ensures
        r@ == (
            ErrView::UnexpectedType { expected: name@ },
            seq![PointView::Codec { name: name@ }],
        ),
{
    fail_at(DataError::unexpected_type(name), TracePoint::Codec { name: name.to_owned() })
}

/// Prefixes a failure's path with the trace point of the enclosing descent.
fn descend(point: TracePoint, f: Failure) -> (r: Failure)
    ensures
        r@ == (f@.0, seq![point@] + f@.1),
{
    let mut f = f;
    let ghost pre = f.path@;
    f.path.insert(0, point);
    proof {
        assert(points_view(f.path@) =~= seq![f.path@[0]@] + points_view(pre));
    }
    f
}

/// Applies a conversion to a value.
fn conv_apply(c: &Conv, v: &Value) -> (r: Option<Value>)
    ensures
        match r {
            Some(u) => apply_conv(*c, v@) == Some(u@),
            None => apply_conv(*c, v@) is None,
        },
{
    let n: i64 = match v {
        Value::Byte(x) => *x as i64,
        Value::Short(x) => *x as i64,
        Value::Int(x) => *x as i64,
        Value::Long(x) => *x,
        _ => {
            return None;
        },
    };
    match c {
        Conv::MulBy(k) => {
            match n.checked_mul(*k) {
                Some(p) => match v {
                    Value::Byte(_) => if i8::MIN as i64 <= p && p <= i8::MAX as i64 {
                        Some(Value::Byte(p as i8))
                    } else {
                        None
                    },
                    Value::Short(_) => if i16::MIN as i64 <= p && p <= i16::MAX as i64 {
                        Some(Value::Short(p as i16))
                    } else {
                        None
                    },
                    Value::Int(_) => if i32::MIN as i64 <= p && p <= i32::MAX as i64 {
                        Some(Value::Int(p as i32))
                    } else {
                        None
                    },
                    _ => Some(Value::Long(p)),
                },
                None => {
                    proof {
                        assert(apply_conv(*c, v@) is None);
                    }
                    None
                },
            }
        },
        Conv::DivBy(k) => {
            if *k > 0 && n >= 0 {
                let q = n / *k;
                match v {
                    Value::Byte(_) => Some(Value::Byte(q as i8)),
                    Value::Short(_) => Some(Value::Short(q as i16)),
                    Value::Int(_) => Some(Value::Int(q as i32)),
                    _ => Some(Value::Long(q)),
                }
            } else {
                None
            }
        },
    }
}

/// Tests a value against an interval.
fn bounds_check(lo: &Bound, hi: &Bound, v: &Value) -> (r: bool)
    ensures
        r == in_bounds(*lo, *hi, v@),
{
    let n: i64 = match v {
        Value::Byte(x) => *x as i64,
        Value::Short(x) => *x as i64,
        Value::Int(x) => *x as i64,
        Value::Long(x) => *x,
        _ => {
            return false;
        },
    };
    let lo_ok = match lo {
        Bound::Unbounded => true,
        Bound::Included(l) => n >= *l,
        Bound::Excluded(l) => n > *l,
    };
    let hi_ok = match hi {
        Bound::Unbounded => true,
        Bound::Included(h) => n <= *h,
        Bound::Excluded(h) => n < *h,
    };
    lo_ok && hi_ok
}

/// When a prefix of the entries bears known keys only, the first unknown key
/// is decided by the rest.
proof fn lemma_first_unknown_skip(
    es: Seq<(Seq<char>, TreeView)>,
    fields: Seq<crate::codec::RecordFieldView>,
    i: int,
)
    requires
        0 <= i <= es.len(),
        forall|j: int| 0 <= j < i ==> has_field_name(fields, es[j].0),
    ensures
        first_unknown(es, fields) == first_unknown(es.skip(i), fields),
    decreases i,
{
    if i > 0 {
        lemma_first_unknown_skip(es.drop_first(), fields, i - 1);
        assert(es.drop_first().skip(i - 1) =~= es.skip(i));
    } else {
        assert(es.skip(0) =~= es);
    }
}

/// The first map key outside the record's descriptor list, if any.
#[verifier::loop_isolation(false)]
fn find_unknown_key(es: &Vec<(String, Value)>, fields: &Vec<RecordField>) -> (r: Option<String>)
    ensures
        match r {
            Some(k) => first_unknown(entries_view(es@), cfields_view(fields@)) == Some(k@),
            None => first_unknown(entries_view(es@), cfields_view(fields@)) is None,
        },
{
    proof {
        lemma_entries_view(es@);
        lemma_cfields_view(fields@);
    }
    let ghost ev = entries_view(es@);
    let ghost fv = cfields_view(fields@);
    let mut i: usize = 0;
    while i < es.len()
        invariant
            i <= es.len(),
            forall|j: int| 0 <= j < i ==> has_field_name(fv, ev[j].0),
        decreases es.len() - i,
    {
        let mut known = false;
        let mut j: usize = 0;
        while j < fields.len()
            invariant
                j <= fields.len(),
                known == exists|k: int| 0 <= k < j && fv[k].name == ev[i as int].0,
            decreases fields.len() - j,
        {
            if str_eq(fields[j].name.as_str(), es[i].0.as_str()) {
                proof {
                    assert(fv[j as int].name == ev[i as int].0);
                }
                known = true;
                proof {
                    assert(exists|k: int| 0 <= k < j + 1 && fv[k].name == ev[i as int].0);
                }
            }
            j = j + 1;
        }
        if !known {
            proof {
                lemma_first_unknown_skip(ev, fv, i as int);
                assert(ev.skip(i as int)[0] == ev[i as int]);
                assert(!has_field_name(fv, ev[i as int].0));
            }
            return Some(es[i].0.clone());
        }
        i = i + 1;
    }
    proof {
        lemma_first_unknown_skip(ev, fv, es@.len() as int);
        assert(ev.skip(es@.len() as int).len() == 0);
    }
    None
}

/// Decodes a tree value by a codec; `top` is the nearest enclosing
/// self-referential codec and `fuel` bounds its unfolding.
pub fn decode_at(c: &Codec, top: Option<&Codec>, v: &Value, fuel: u64) -> (r: Result<
    Value,
    Failure,
>)
    ensures
        res_view(r) == spec_decode(c@, otop(top), v@, fuel as nat),
    decreases fuel, c, 0int, 0int,
{
    match c {
        Codec::Byte => match v {
            Value::Byte(_) => Ok(v.duplicate()),
            _ => Err(prim_fail("i8")),
        },
        Codec::Short => match v {
            Value::Short(_) => Ok(v.duplicate()),
            _ => Err(prim_fail("i16")),
        },
        Codec::Int => match v {
            Value::Int(_) => Ok(v.duplicate()),
            _ => Err(prim_fail("i32")),
        },
        Codec::Long => match v {
            Value::Long(_) => Ok(v.duplicate()),
            _ => Err(prim_fail("i64")),
        },
        Codec::Str => match v {
            Value::Str(_) => Ok(v.duplicate()),
            _ => Err(prim_fail("string")),
        },
        Codec::Bool => match v {
            Value::Bool(_) => Ok(v.duplicate()),
            _ => Err(prim_fail("bool")),
        },
        Codec::Unit => match v {
            Value::Unit => Ok(Value::Unit),
            _ => Err(prim_fail("unit")),
        },
        Codec::ListOf(c1) => match v {
            Value::List(elems) => match decode_list(c1, top, elems, 0, fuel) {
                Ok(out) => Ok(Value::List(out)),
                Err(f) => Err(f),
            },
            _ => Err(fail(DataError::unexpected_type("list"))),
        },
        Codec::MapOf(c1) => match v {
            Value::Object(es) => match decode_entries(c1, top, es, 0, fuel) {
                Ok(out) => Ok(Value::Object(out)),
                Err(f) => Err(f),
            },
            _ => {
                proof {
                    assert(entries_view(Seq::<(String, Value)>::empty())
                        =~= Seq::<(Seq<char>, TreeView)>::empty());
                }
                Ok(Value::Object(Vec::new()))
            },
        },
        Codec::Pair(l, r) => match v {
            Value::Object(es) => {
                proof {
                    lemma_entries_kv(es@);
                }
                match kv_get(es, "left") {
                    Some(lv) => match decode_at(l, top, lv, fuel) {
                        Ok(a) => match kv_get(es, "right") {
                            Some(rv) => match decode_at(r, top, rv, fuel) {
                                Ok(b) => {
                                    let mut out: Vec<(String, Value)> = Vec::new();
                                    out.push(("left".to_owned(), a));
                                    out.push(("right".to_owned(), b));
                                    proof {
                                        lemma_entries_view(out@);
                                        assert(entries_view(out@) =~= seq![
                                            ("left"@, out@[0].1@),
                                            ("right"@, out@[1].1@),
                                        ]);
                                    }
                                    Ok(Value::Object(out))
                                },
                                Err(f) => Err(
                                    descend(
                                        TracePoint::Field { name: "right".to_owned() },
                                        f,
                                    ),
                                ),
                            },
                            None => Err(fail(DataError::key_not_found("right"))),
                        },
                        Err(f) => Err(
                            descend(TracePoint::Field { name: "left".to_owned() }, f),
                        ),
                    },
                    None => Err(fail(DataError::key_not_found("left"))),
                }
            },
            _ => Err(fail(DataError::unexpected_type("object"))),
        },
        Codec::XMap(f, _g, c1) => match decode_at(c1, top, v, fuel) {
            Ok(x) => match conv_apply(f, &x) {
                Some(u) => Ok(u),
                None => Err(fail(DataError::new_custom("conversion failed"))),
            },
            Err(fz) => Err(fz),
        },
        Codec::Bounded(lo, hi, c1) => match decode_at(c1, top, v, fuel) {
            Ok(x) => if bounds_check(lo, hi, &x) {
                Ok(x)
            } else {
                Err(fail(DataError::new_custom("value must be in bounds")))
            },
            Err(fz) => Err(fz),
        },
        Codec::TryElse(l, r) => match decode_at(l, top, v, fuel) {
            Ok(x) => Ok(x),
            Err(_) => decode_at(r, top, v, fuel),
        },
        Codec::OrElse(d, c1) => match decode_at(c1, top, v, fuel) {
            Ok(x) => Ok(x),
            Err(_) => Ok(d.duplicate()),
        },
        Codec::Constant(d, c1) => match decode_at(c1, top, v, fuel) {
            Ok(x) => if x.same_as(d) {
                Ok(x)
            } else {
                Err(fail(DataError::new_custom("value does not match the expected constant")))
            },
            Err(fz) => Err(fz),
        },
        Codec::Record(fields) => match v {
            Value::Object(es) => match decode_fields(fields, top, es, 0, fuel) {
                Ok(out) => match find_unknown_key(es, fields) {
                    Some(k) => {
                        let mut msg = "unsupported key \"".to_owned();
                        msg.append(k.as_str());
                        msg.append("\" in object");
                        proof {
                            assert(msg@ == unsupported_key_msg(k@));
                        }
                        Err(fail(DataError::Custom { message: msg }))
                    },
                    None => Ok(Value::Object(out)),
                },
                Err(f) => Err(f),
            },
            _ => Err(fail(DataError::unexpected_type("object"))),
        },
        Codec::Recursive(c1) => decode_at(c1, Some(c1), v, fuel),
        Codec::Rec => match top {
            Some(t) => if fuel == 0 {
                Err(fail(DataError::new_custom("recursion limit reached")))
            } else {
                decode_at(t, Some(t), v, fuel - 1)
            },
            None => Err(
                fail(DataError::new_custom("recursion marker outside a recursive codec")),
            ),
        },
    }
}

/// Decodes the elements of a list from index `i` on.
fn decode_list(c: &Codec, top: Option<&Codec>, elems: &Vec<Value>, i: usize, fuel: u64) -> (r:
    Result<Vec<Value>, Failure>)
    ensures
        elems_res_view(r) == spec_decode_list(c@, otop(top), elems_view(elems@), i as int, fuel as nat),
    decreases fuel, c, 1int, elems.len() - i,
{
    proof {
        lemma_elems_view(elems@);
    }
    if i >= elems.len() {
        let out: Vec<Value> = Vec::new();
        proof {
            assert(elems_view(out@) =~= Seq::<TreeView>::empty());
        }
        Ok(out)
    } else {
        match decode_at(c, top, &elems[i], fuel) {
            Ok(x) => match decode_list(c, top, elems, i + 1, fuel) {
                Ok(rest) => {
                    let mut rest = rest;
                    let ghost pre = rest@;
                    rest.insert(0, x);
                    proof {
                        lemma_elems_view(rest@);
                        lemma_elems_view(pre);
                        assert(elems_view(rest@) =~= seq![rest@[0]@] + elems_view(pre));
                    }
                    Ok(rest)
                },
                Err(f) => Err(f),
            },
            Err(f) => Err(descend(TracePoint::Array { index: i }, f)),
        }
    }
}

/// Decodes every entry value of a map from index `i` on.
fn decode_entries(c: &Codec, top: Option<&Codec>, es: &Vec<(String, Value)>, i: usize, fuel: u64)
    -> (r: Result<Vec<(String, Value)>, Failure>)
    ensures
        entries_res_view(r) == spec_decode_entries(
            c@,
            otop(top),
            entries_view(es@),
            i as int,
            fuel as nat,
        ),
    decreases fuel, c, 1int, es.len() - i,
{
    proof {
        lemma_entries_view(es@);
    }
    if i >= es.len() {
        let out: Vec<(String, Value)> = Vec::new();
        proof {
            assert(entries_view(out@) =~= Seq::<(Seq<char>, TreeView)>::empty());
        }
        Ok(out)
    } else {
        match decode_at(c, top, &es[i].1, fuel) {
            Ok(x) => match decode_entries(c, top, es, i + 1, fuel) {
                Ok(rest) => {
                    let mut rest = rest;
                    let ghost pre = rest@;
                    let key = es[i].0.clone();
                    rest.insert(0, (key, x));
                    proof {
                        lemma_entries_view(rest@);
                        lemma_entries_view(pre);
                        assert(entries_view(rest@) =~= seq![(rest@[0].0@, rest@[0].1@)]
                            + entries_view(pre));
                    }
                    Ok(rest)
                },
                Err(f) => Err(f),
            },
            Err(f) => Err(
                descend(TracePoint::Field { name: es[i].0.clone() }, f),
            ),
        }
    }
}

/// Decodes the declared fields of a record from field index `i` on.
fn decode_fields(
    fields: &Vec<RecordField>,
    top: Option<&Codec>,
    es: &Vec<(String, Value)>,
    i: usize,
    fuel: u64,
) -> (r: Result<Vec<(String, Value)>, Failure>)
    ensures
        entries_res_view(r) == spec_decode_fields(
            cfields_view(fields@),
            otop(top),
            entries_view(es@),
            i as int,
            fuel as nat,
        ),
    decreases fuel, fields, 1int, fields.len() - i,
{
    proof {
        lemma_cfields_view(fields@);
        lemma_entries_kv(es@);
    }
    if i >= fields.len() {
        let out: Vec<(String, Value)> = Vec::new();
        proof {
            assert(entries_view(out@) =~= Seq::<(Seq<char>, TreeView)>::empty());
        }
        Ok(out)
    } else {
        let f = &fields[i];
        match kv_get(es, f.name.as_str()) {
            Some(x) => match decode_at(&f.codec, top, x, fuel) {
                Ok(y) => match decode_fields(fields, top, es, i + 1, fuel) {
                    Ok(rest) => {
                        let mut rest = rest;
                        let ghost pre = rest@;
                        rest.insert(0, (f.name.clone(), y));
                        proof {
                            lemma_entries_view(rest@);
                            lemma_entries_view(pre);
                            assert(entries_view(rest@) =~= seq![(rest@[0].0@, rest@[0].1@)]
                                + entries_view(pre));
                        }
                        Ok(rest)
                    },
                    Err(fz) => Err(fz),
                },
                Err(fz) => Err(descend(TracePoint::Field { name: f.name.clone() }, fz)),
            },
            None => match &f.mode {
                FieldMode::Required => Err(
                    fail_at(
                        DataError::key_not_found(f.name.as_str()),
                        TracePoint::Field { name: f.name.clone() },
                    ),
                ),
                FieldMode::Optional => decode_fields(fields, top, es, i + 1, fuel),
                FieldMode::Defaulted(d) => match decode_fields(fields, top, es, i + 1, fuel) {
                    Ok(rest) => {
                        let mut rest = rest;
                        let ghost pre = rest@;
                        rest.insert(0, (f.name.clone(), d.duplicate()));
                        proof {
                            lemma_entries_view(rest@);
                            lemma_entries_view(pre);
                            assert(entries_view(rest@) =~= seq![(rest@[0].0@, rest@[0].1@)]
                                + entries_view(pre));
                        }
                        Ok(rest)
                    },
                    Err(fz) => Err(fz),
                },
            },
        }
    }
}

/// Encodes a tree value by a codec; `top` is the nearest enclosing
/// self-referential codec and `fuel` bounds its unfolding.
pub fn encode_at(c: &Codec, top: Option<&Codec>, v: &Value, fuel: u64) -> (r: Result<
    Value,
    Failure,
>)
    ensures
        res_view(r) == spec_encode(c@, otop(top), v@, fuel as nat),
    decreases fuel, c, 0int, 0int,
{
    match c {
        Codec::Byte => match v {
            Value::Byte(_) => Ok(v.duplicate()),
            _ => Err(prim_fail("i8")),
        },
        Codec::Short => match v {
            Value::Short(_) => Ok(v.duplicate()),
            _ => Err(prim_fail("i16")),
        },
        Codec::Int => match v {
            Value::Int(_) => Ok(v.duplicate()),
            _ => Err(prim_fail("i32")),
        },
        Codec::Long => match v {
            Value::Long(_) => Ok(v.duplicate()),
            _ => Err(prim_fail("i64")),
        },
        Codec::Str => match v {
            Value::Str(_) => Ok(v.duplicate()),
            _ => Err(prim_fail("string")),
        },
        Codec::Bool => match v {
            Value::Bool(_) => Ok(v.duplicate()),
            _ => Err(prim_fail("bool")),
        },
        Codec::Unit => match v {
            Value::Unit => Ok(Value::Unit),
            _ => Err(prim_fail("unit")),
        },
        Codec::ListOf(c1) => match v {
            Value::List(elems) => match encode_list(c1, top, elems, 0, fuel) {
                Ok(out) => Ok(Value::List(out)),
                Err(f) => Err(f),
            },
            _ => Err(fail(DataError::unexpected_type("list"))),
        },
        Codec::MapOf(c1) => match v {
            Value::Object(es) => match encode_entries(c1, top, es, 0, fuel) {
                Ok(out) => Ok(Value::Object(out)),
                Err(f) => Err(f),
            },
            _ => Err(fail(DataError::unexpected_type("object"))),
        },
        Codec::Pair(l, r) => match v {
            Value::Object(es) => {
                proof {
                    lemma_entries_kv(es@);
                }
                match kv_get(es, "left") {
                    Some(lv) => match encode_at(l, top, lv, fuel) {
                        Ok(a) => match kv_get(es, "right") {
                            Some(rv) => match encode_at(r, top, rv, fuel) {
                                Ok(b) => {
                                    let mut out: Vec<(String, Value)> = Vec::new();
                                    out.push(("left".to_owned(), a));
                                    out.push(("right".to_owned(), b));
                                    proof {
                                        lemma_entries_view(out@);
                                        assert(entries_view(out@) =~= seq![
                                            ("left"@, out@[0].1@),
                                            ("right"@, out@[1].1@),
                                        ]);
                                    }
                                    Ok(Value::Object(out))
                                },
                                Err(f) => Err(
                                    descend(
                                        TracePoint::Field { name: "right".to_owned() },
                                        f,
                                    ),
                                ),
                            },
                            None => Err(fail(DataError::key_not_found("right"))),
                        },
                        Err(f) => Err(
                            descend(TracePoint::Field { name: "left".to_owned() }, f),
                        ),
                    },
                    None => Err(fail(DataError::key_not_found("left"))),
                }
            },
            _ => Err(fail(DataError::unexpected_type("object"))),
        },
        Codec::XMap(_f, g, c1) => match conv_apply(g, v) {
            Some(x) => encode_at(c1, top, &x, fuel),
            None => Err(fail(DataError::new_custom("conversion failed"))),
        },
        Codec::Bounded(lo, hi, c1) => if bounds_check(lo, hi, v) {
            encode_at(c1, top, v, fuel)
        } else {
            Err(fail(DataError::new_custom("value must be in bounds")))
        },
        Codec::TryElse(l, r) => match encode_at(l, top, v, fuel) {
            Ok(x) => Ok(x),
            Err(_) => encode_at(r, top, v, fuel),
        },
        Codec::OrElse(_d, c1) => encode_at(c1, top, v, fuel),
        Codec::Constant(d, c1) => if v.same_as(d) {
            encode_at(c1, top, d, fuel)
        } else {
            Err(fail(DataError::new_custom("value does not match the expected constant")))
        },
        Codec::Record(fields) => match v {
            Value::Object(es) => match encode_fields(fields, top, es, 0, fuel) {
                Ok(out) => Ok(Value::Object(out)),
                Err(f) => Err(f),
            },
            _ => Err(fail(DataError::unexpected_type("object"))),
        },
        Codec::Recursive(c1) => encode_at(c1, Some(c1), v, fuel),
        Codec::Rec => match top {
            Some(t) => if fuel == 0 {
                Err(fail(DataError::new_custom("recursion limit reached")))
            } else {
                encode_at(t, Some(t), v, fuel - 1)
            },
            None => Err(
                fail(DataError::new_custom("recursion marker outside a recursive codec")),
            ),
        },
    }
}

/// Encodes the elements of a list from index `i` on.
fn encode_list(c: &Codec, top: Option<&Codec>, elems: &Vec<Value>, i: usize, fuel: u64) -> (r:
    Result<Vec<Value>, Failure>)
    ensures
        elems_res_view(r) == spec_encode_list(c@, otop(top), elems_view(elems@), i as int, fuel as nat),
    decreases fuel, c, 1int, elems.len() - i,
{
    proof {
        lemma_elems_view(elems@);
    }
    if i >= elems.len() {
        let out: Vec<Value> = Vec::new();
        proof {
            assert(elems_view(out@) =~= Seq::<TreeView>::empty());
        }
        Ok(out)
    } else {
        match encode_at(c, top, &elems[i], fuel) {
            Ok(x) => match encode_list(c, top, elems, i + 1, fuel) {
                Ok(rest) => {
                    let mut rest = rest;
                    let ghost pre = rest@;
                    rest.insert(0, x);
                    proof {
                        lemma_elems_view(rest@);
                        lemma_elems_view(pre);
                        assert(elems_view(rest@) =~= seq![rest@[0]@] + elems_view(pre));
                    }
                    Ok(rest)
                },
                Err(f) => Err(f),
            },
            Err(f) => Err(descend(TracePoint::Array { index: i }, f)),
        }
    }
}

/// Encodes every entry value of a map from index `i` on.
fn encode_entries(c: &Codec, top: Option<&Codec>, es: &Vec<(String, Value)>, i: usize, fuel: u64)
    -> (r: Result<Vec<(String, Value)>, Failure>)
    ensures
        entries_res_view(r) == spec_encode_entries(
            c@,
            otop(top),
            entries_view(es@),
            i as int,
            fuel as nat,
        ),
    decreases fuel, c, 1int, es.len() - i,
{
    proof {
        lemma_entries_view(es@);
    }
    if i >= es.len() {
        let out: Vec<(String, Value)> = Vec::new();
        proof {
            assert(entries_view(out@) =~= Seq::<(Seq<char>, TreeView)>::empty());
        }
        Ok(out)
    } else {
        match encode_at(c, top, &es[i].1, fuel) {
            Ok(x) => match encode_entries(c, top, es, i + 1, fuel) {
                Ok(rest) => {
                    let mut rest = rest;
                    let ghost pre = rest@;
                    let key = es[i].0.clone();
                    rest.insert(0, (key, x));
                    proof {
                        lemma_entries_view(rest@);
                        lemma_entries_view(pre);
                        assert(entries_view(rest@) =~= seq![(rest@[0].0@, rest@[0].1@)]
                            + entries_view(pre));
                    }
                    Ok(rest)
                },
                Err(f) => Err(f),
            },
            Err(f) => Err(
                descend(TracePoint::Field { name: es[i].0.clone() }, f),
            ),
        }
    }
}

/// Encodes the declared fields of a record from field index `i` on.
fn encode_fields(
    fields: &Vec<RecordField>,
    top: Option<&Codec>,
    es: &Vec<(String, Value)>,
    i: usize,
    fuel: u64,
) -> (r: Result<Vec<(String, Value)>, Failure>)
    ensures
        entries_res_view(r) == spec_encode_fields(
            cfields_view(fields@),
            otop(top),
            entries_view(es@),
            i as int,
            fuel as nat,
        ),
    decreases fuel, fields, 1int, fields.len() - i,
{
    proof {
        lemma_cfields_view(fields@);
        lemma_entries_kv(es@);
    }
    if i >= fields.len() {
        let out: Vec<(String, Value)> = Vec::new();
        proof {
            assert(entries_view(out@) =~= Seq::<(Seq<char>, TreeView)>::empty());
        }
        Ok(out)
    } else {
        let f = &fields[i];
        match kv_get(es, f.name.as_str()) {
            Some(x) => match encode_at(&f.codec, top, x, fuel) {
                Ok(y) => match encode_fields(fields, top, es, i + 1, fuel) {
                    Ok(rest) => {
                        let mut rest = rest;
                        let ghost pre = rest@;
                        rest.insert(0, (f.name.clone(), y));
                        proof {
                            lemma_entries_view(rest@);
                            lemma_entries_view(pre);
                            assert(entries_view(rest@) =~= seq![(rest@[0].0@, rest@[0].1@)]
                                + entries_view(pre));
                        }
                        Ok(rest)
                    },
                    Err(fz) => Err(fz),
                },
                Err(fz) => Err(descend(TracePoint::Field { name: f.name.clone() }, fz)),
            },
            None => match &f.mode {
                FieldMode::Required => Err(
                    fail_at(
                        DataError::key_not_found(f.name.as_str()),
                        TracePoint::Field { name: f.name.clone() },
                    ),
                ),
                FieldMode::Optional => encode_fields(fields, top, es, i + 1, fuel),
                FieldMode::Defaulted(d) => match encode_at(&f.codec, top, d, fuel) {
                    Ok(y) => match encode_fields(fields, top, es, i + 1, fuel) {
                        Ok(rest) => {
                            let mut rest = rest;
                            let ghost pre = rest@;
                            rest.insert(0, (f.name.clone(), y));
                            proof {
                                lemma_entries_view(rest@);
                                lemma_entries_view(pre);
                                assert(entries_view(rest@) =~= seq![(rest@[0].0@, rest@[0].1@)]
                                    + entries_view(pre));
                            }
                            Ok(rest)
                        },
                        Err(fz) => Err(fz),
                    },
                    Err(fz) => Err(descend(TracePoint::Field { name: f.name.clone() }, fz)),
                },
            },
        }
    }
}

/// The model of a whole decode, from the root.
pub open spec fn decode_model(c: CodecView, v: TreeView) -> StepResult {
    spec_decode(c, None, v, REC_FUEL as nat)
}

/// The model of a whole encode, from the root.
pub open spec fn encode_model(c: CodecView, v: TreeView) -> StepResult {
    spec_encode(c, None, v, REC_FUEL as nat)
}

impl Codec {
    /// Decodes a tree value, returning the decoded value or a failure with
    /// the relative path of the failing descent.
    pub fn decode(&self, value: &Value) -> (r: Result<Value, Failure>)
        ensures
            res_view(r) == decode_model(self@, value@),
    {
        decode_at(self, None, value, REC_FUEL)
    }

    /// Encodes a tree value, returning the encoded value or a failure with
    /// the relative path of the failing descent.
    pub fn encode(&self, value: &Value) -> (r: Result<Value, Failure>)
        ensures
            res_view(r) == encode_model(self@, value@),
    {
        encode_at(self, None, value, REC_FUEL)
    }

    /// Decodes from the top level: a failure is paired with a full context
    /// whose trace starts at the root.
    pub fn decode_start(&self, value: &Value) -> (r: Result<Value, CodecError>)
        ensures
            match r {
                Ok(out) => decode_model(self@, value@) == Ok::<TreeView, (ErrView, Seq<PointView>)>(out@),
                Err(ce) => {
                    &&& decode_model(self@, value@) matches Err((e, p))
                    &&& ce.error@ == e
                    &&& ce.span@.stack == seq![PointView::Root] + p
                    &&& ce.span@.saves.len() == 0
                },
            },
    {
        match self.decode(value) {
            Ok(out) => Ok(out),
            Err(f) => Err(to_codec_error(f)),
        }
    }

    /// Encodes from the top level: a failure is paired with a full context
    /// whose trace starts at the root.
    pub fn encode_start(&self, value: &Value) -> (r: Result<Value, CodecError>)
        ensures
            match r {
                Ok(out) => encode_model(self@, value@) == Ok::<TreeView, (ErrView, Seq<PointView>)>(out@),
                Err(ce) => {
                    &&& encode_model(self@, value@) matches Err((e, p))
                    &&& ce.error@ == e
                    &&& ce.span@.stack == seq![PointView::Root] + p
                    &&& ce.span@.saves.len() == 0
                },
            },
    {
        match self.encode(value) {
            Ok(out) => Ok(out),
            Err(f) => Err(to_codec_error(f)),
        }
    }
}

/// Pairs a failure with a context rooted at the top of the tree.
fn to_codec_error(f: Failure) -> (r: CodecError)
    ensures
        r.error@ == f@.0,
        r.span@.stack == seq![PointView::Root] + f@.1,
        r.span@.saves.len() == 0,
{
    let mut ctx = Context::new();
    let mut i: usize = 0;
    while i < f.path.len()
        invariant
            i <= f.path.len(),
            ctx@.stack == seq![PointView::Root] + points_view(f.path@).take(i as int),
            ctx@.saves.len() == 0,
        decreases f.path.len() - i,
    {
        let p = clone_point(&f.path[i]);
        ctx.push_point(p);
        i = i + 1;
        proof {
            assert(ctx@.stack =~= seq![PointView::Root] + points_view(f.path@).take(i as int));
        }
    }
    proof {
        assert(seq![PointView::Root] + points_view(f.path@).take(f.path@.len() as int)
            =~= seq![PointView::Root] + points_view(f.path@));
    }
    CodecError::new(f.error, ctx)
}

} // verus!
