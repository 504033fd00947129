//! The laws the library states of its codecs and rewrite rules, proved over
//! the models of both.

use vstd::prelude::*;

use crate::codec::{
    first_unknown, has_field_name, in_bounds, prim_accepts, spec_decode, spec_decode_entries,
    spec_decode_fields, spec_decode_list, spec_encode, spec_encode_entries, spec_encode_fields,
    spec_encode_list, unsupported_key_msg, Bound, CodecView, FieldModeView, RecordFieldView,
};
use crate::ops::{lemma_lookup_at, lemma_lookup_none, lemma_lookup_none_all};
use crate::context::PointView;
use crate::result::ErrView;
use crate::rules::{init_value, rule_fix_data, rule_fix_type, RuleView};
use crate::types::TypeView;
use crate::value::{has_key, lookup_key, remove_key, set_key, TreeView};

verus! {

broadcast use vstd::string::group_string_axioms;

/// Composition of rewrite rules is associative on the data channel: both
/// groupings of three rules produce the same tree on every input.
pub proof fn lemma_and_then_associative_data(r1: RuleView, r2: RuleView, r3: RuleView, v: TreeView)
    ensures
        rule_fix_data(
            RuleView::AndThen(
                Box::new(RuleView::AndThen(Box::new(r1), Box::new(r2))),
                Box::new(r3),
            ),
            v,
        ) == rule_fix_data(
            RuleView::AndThen(
                Box::new(r1),
                Box::new(RuleView::AndThen(Box::new(r2), Box::new(r3))),
            ),
            v,
        ),
{
    reveal_with_fuel(rule_fix_data, 3);
}

/// Composition of rewrite rules is associative on the type channel as well.
pub proof fn lemma_and_then_associative_type(r1: RuleView, r2: RuleView, r3: RuleView, t:
    crate::types::TypeView)
    ensures
        rule_fix_type(
            RuleView::AndThen(
                Box::new(RuleView::AndThen(Box::new(r1), Box::new(r2))),
                Box::new(r3),
            ),
            t,
        ) == rule_fix_type(
            RuleView::AndThen(
                Box::new(r1),
                Box::new(RuleView::AndThen(Box::new(r2), Box::new(r3))),
            ),
            t,
        ),
{
    reveal_with_fuel(rule_fix_type, 3);
}

/// A bounded codec fails exactly when the value is outside the interval or
/// the inner codec fails, in both directions; an interval violation raises
/// the bounds error with no extra context.
pub proof fn lemma_bounded_exact(
    lo: Bound,
    hi: Bound,
    c: CodecView,
    top: Option<CodecView>,
    v: TreeView,
    fuel: nat,
)
    ensures
        (spec_encode(CodecView::Bounded(lo, hi, Box::new(c)), top, v, fuel) is Err) == (!in_bounds(
            lo,
            hi,
            v,
        ) || spec_encode(c, top, v, fuel) is Err),
        !in_bounds(lo, hi, v) ==> spec_encode(CodecView::Bounded(lo, hi, Box::new(c)), top, v, fuel)
            == Err::<TreeView, (ErrView, Seq<PointView>)>(
            (ErrView::Custom { message: "value must be in bounds"@ }, Seq::empty()),
        ),
        (spec_decode(CodecView::Bounded(lo, hi, Box::new(c)), top, v, fuel) is Err) == (match
            spec_decode(c, top, v, fuel) {
            Ok(x) => !in_bounds(lo, hi, x),
            Err(_) => true,
        }),
        (spec_decode(c, top, v, fuel) matches Ok(x) && !in_bounds(lo, hi, x)) ==> spec_decode(
            CodecView::Bounded(lo, hi, Box::new(c)),
            top,
            v,
            fuel,
        ) == Err::<TreeView, (ErrView, Seq<PointView>)>(
            (ErrView::Custom { message: "value must be in bounds"@ }, Seq::empty()),
        ),
{
}

/// A map holding some key outside the descriptor list has a first such key.
pub proof fn lemma_first_unknown_some(
    es: Seq<(Seq<char>, TreeView)>,
    fields: Seq<RecordFieldView>,
)
    requires
        exists|j: int| 0 <= j < es.len() && !has_field_name(fields, #[trigger] es[j].0),
    ensures
        first_unknown(es, fields) is Some,
        !has_field_name(fields, first_unknown(es, fields)->Some_0),
    decreases es.len(),
{
    if has_field_name(fields, es[0].0) {
        let j = choose|j: int| 0 <= j < es.len() && !has_field_name(fields, #[trigger] es[j].0);
        assert(es.drop_first()[j - 1] == es[j]);
        lemma_first_unknown_some(es.drop_first(), fields);
    }
}

/// Decoding a record from a map with any key outside its descriptor list
/// fails; when every declared field itself decodes, the failure is the
/// `Custom` error naming the first offending key.
pub proof fn lemma_record_unknown_key(
    fields: Seq<RecordFieldView>,
    es: Seq<(Seq<char>, TreeView)>,
    top: Option<CodecView>,
    fuel: nat,
)
    requires
        exists|j: int| 0 <= j < es.len() && !has_field_name(fields, #[trigger] es[j].0),
    ensures
        spec_decode(CodecView::Record(fields), top, TreeView::Object(es), fuel) is Err,
        spec_decode_fields(fields, top, es, 0, fuel) is Ok ==> spec_decode(
            CodecView::Record(fields),
            top,
            TreeView::Object(es),
            fuel,
        ) == Err::<TreeView, (ErrView, Seq<PointView>)>(
            (
                ErrView::Custom {
                    message: unsupported_key_msg(first_unknown(es, fields)->Some_0),
                },
                Seq::empty(),
            ),
        ),
{
    lemma_first_unknown_some(es, fields);
}

/// No two field descriptors bear the same name.
pub open spec fn distinct_field_names(fields: Seq<RecordFieldView>) -> bool {
    forall|a: int, b: int| 0 <= a < b < fields.len() ==> fields[a].name != fields[b].name
}

/// Decoding a record whose optional field's key is absent yields a map
/// without that key.
pub proof fn lemma_decode_optional_absent(
    fields: Seq<RecordFieldView>,
    top: Option<CodecView>,
    es: Seq<(Seq<char>, TreeView)>,
    i: int,
    fuel: nat,
    idx: int,
)
    requires
        0 <= idx < fields.len(),
        fields[idx].mode is Optional,
        !has_key(es, fields[idx].name),
        distinct_field_names(fields),
        0 <= i <= fields.len(),
        spec_decode_fields(fields, top, es, i, fuel) is Ok,
    ensures
        !has_key(spec_decode_fields(fields, top, es, i, fuel)->Ok_0, fields[idx].name),
    decreases fields.len() - i,
{
    let nm = fields[idx].name;
    if i >= fields.len() {
    } else {
        let f = fields[i];
        match lookup_key(es, f.name) {
            Some(x) => {
                let y = spec_decode(f.codec, top, x, fuel)->Ok_0;
                let rest = spec_decode_fields(fields, top, es, i + 1, fuel)->Ok_0;
                let out = seq![(f.name, y)] + rest;
                assert(f.name != nm);
                assert(out.drop_first() =~= rest);
                lemma_decode_optional_absent(fields, top, es, i + 1, fuel, idx);
            },
            None => {
                match f.mode {
                    FieldModeView::Required => {
                    },
                    FieldModeView::Optional => {
                        lemma_decode_optional_absent(fields, top, es, i + 1, fuel, idx);
                    },
                    FieldModeView::Defaulted(d) => {
                        let rest = spec_decode_fields(fields, top, es, i + 1, fuel)->Ok_0;
                        let out = seq![(f.name, d)] + rest;
                        assert(f.name != nm);
                        assert(out.drop_first() =~= rest);
                        lemma_decode_optional_absent(fields, top, es, i + 1, fuel, idx);
                    },
                }
            },
        }
    }
}

/// Encoding a record whose optional field is absent yields a map without
/// that key.
pub proof fn lemma_encode_optional_absent(
    fields: Seq<RecordFieldView>,
    top: Option<CodecView>,
    es: Seq<(Seq<char>, TreeView)>,
    i: int,
    fuel: nat,
    idx: int,
)
    requires
        0 <= idx < fields.len(),
        fields[idx].mode is Optional,
        !has_key(es, fields[idx].name),
        distinct_field_names(fields),
        0 <= i <= fields.len(),
        spec_encode_fields(fields, top, es, i, fuel) is Ok,
    ensures
        !has_key(spec_encode_fields(fields, top, es, i, fuel)->Ok_0, fields[idx].name),
    decreases fields.len() - i,
{
    let nm = fields[idx].name;
    if i >= fields.len() {
    } else {
        let f = fields[i];
        match lookup_key(es, f.name) {
            Some(x) => {
                let y = spec_encode(f.codec, top, x, fuel)->Ok_0;
                let rest = spec_encode_fields(fields, top, es, i + 1, fuel)->Ok_0;
                let out = seq![(f.name, y)] + rest;
                assert(f.name != nm);
                assert(out.drop_first() =~= rest);
                lemma_encode_optional_absent(fields, top, es, i + 1, fuel, idx);
            },
            None => {
                match f.mode {
                    FieldModeView::Required => {
                    },
                    FieldModeView::Optional => {
                        lemma_encode_optional_absent(fields, top, es, i + 1, fuel, idx);
                    },
                    FieldModeView::Defaulted(d) => {
                        let y = spec_encode(f.codec, top, d, fuel)->Ok_0;
                        let rest = spec_encode_fields(fields, top, es, i + 1, fuel)->Ok_0;
                        let out = seq![(f.name, y)] + rest;
                        assert(f.name != nm);
                        assert(out.drop_first() =~= rest);
                        lemma_encode_optional_absent(fields, top, es, i + 1, fuel, idx);
                    },
                }
            },
        }
    }
}

/// Decoding a record whose defaulted field's key is absent yields the
/// default value under that key.
pub proof fn lemma_decode_defaulted_absent(
    fields: Seq<RecordFieldView>,
    top: Option<CodecView>,
    es: Seq<(Seq<char>, TreeView)>,
    i: int,
    fuel: nat,
    idx: int,
)
    requires
        0 <= idx < fields.len(),
        fields[idx].mode is Defaulted,
        !has_key(es, fields[idx].name),
        distinct_field_names(fields),
        0 <= i <= idx,
        spec_decode_fields(fields, top, es, i, fuel) is Ok,
    ensures
        lookup_key(spec_decode_fields(fields, top, es, i, fuel)->Ok_0, fields[idx].name) == Some(
            fields[idx].mode->Defaulted_0,
        ),
    decreases fields.len() - i,
{
    let nm = fields[idx].name;
    let f = fields[i];
    if i == idx {
        let d = f.mode->Defaulted_0;
        let rest = spec_decode_fields(fields, top, es, i + 1, fuel)->Ok_0;
        let out = seq![(f.name, d)] + rest;
        assert(out[0] == (nm, d));
    } else {
        assert(f.name != nm);
        match lookup_key(es, f.name) {
            Some(x) => {
                let y = spec_decode(f.codec, top, x, fuel)->Ok_0;
                let rest = spec_decode_fields(fields, top, es, i + 1, fuel)->Ok_0;
                let out = seq![(f.name, y)] + rest;
                assert(out.drop_first() =~= rest);
                lemma_decode_defaulted_absent(fields, top, es, i + 1, fuel, idx);
            },
            None => {
                match f.mode {
                    FieldModeView::Required => {
                    },
                    FieldModeView::Optional => {
                        lemma_decode_defaulted_absent(fields, top, es, i + 1, fuel, idx);
                    },
                    FieldModeView::Defaulted(d0) => {
                        let rest = spec_decode_fields(fields, top, es, i + 1, fuel)->Ok_0;
                        let out = seq![(f.name, d0)] + rest;
                        assert(out.drop_first() =~= rest);
                        lemma_decode_defaulted_absent(fields, top, es, i + 1, fuel, idx);
                    },
                }
            },
        }
    }
}

/// The type a tree value describes under the default interpretation:
/// scalars have their scalar types, homogeneous non-empty lists are arrays,
/// maps are objects of their entries' types.  Empty or mixed lists, and
/// trees holding one, have no type.
pub open spec fn type_of(v: TreeView) -> Option<TypeView>
    decreases v, 0int,
{
    match v {
        TreeView::Byte(_) => Some(TypeView::Byte),
        TreeView::Short(_) => Some(TypeView::Short),
        TreeView::Int(_) => Some(TypeView::Int),
        TreeView::Long(_) => Some(TypeView::Long),
        TreeView::Bool(_) => Some(TypeView::Bool),
        TreeView::Str(_) => Some(TypeView::Str),
        TreeView::Unit => Some(TypeView::Unit),
        TreeView::List(elems) => if elems.len() == 0 {
            None
        } else {
            match type_of(elems[0]) {
                Some(t) => if elems_typed(elems, t) {
                    Some(TypeView::Array(Box::new(t)))
                } else {
                    None
                },
                None => None,
            }
        },
        TreeView::Object(es) => match entry_types(es) {
            Some(ts) => Some(TypeView::Object(ts)),
            None => None,
        },
    }
}

/// Whether every element of the sequence has the type.
pub open spec fn elems_typed(elems: Seq<TreeView>, t: TypeView) -> bool
    decreases elems, 1int,
{
    if elems.len() == 0 {
        true
    } else {
        type_of(elems[0]) == Some(t) && elems_typed(elems.drop_first(), t)
    }
}

/// The types of a map's entries, keyed like the entries, if every value has
/// one.
pub open spec fn entry_types(es: Seq<(Seq<char>, TreeView)>) -> Option<
    Seq<(Seq<char>, TypeView)>,
>
    decreases es, 1int,
{
    if es.len() == 0 {
        Some(Seq::empty())
    } else {
        match type_of(es[0].1) {
            Some(t) => match entry_types(es.drop_first()) {
                Some(rest) => Some(seq![(es[0].0, t)] + rest),
                None => None,
            },
            None => None,
        }
    }
}

/// Typed entries correspond pointwise to their types.
pub proof fn lemma_entry_types_pointwise(es: Seq<(Seq<char>, TreeView)>)
    requires
        entry_types(es) is Some,
    ensures
        entry_types(es)->Some_0.len() == es.len(),
        forall|i: int|
            0 <= i < es.len() ==> (#[trigger] entry_types(es)->Some_0[i]).0 == es[i].0
                && type_of(es[i].1) == Some(entry_types(es)->Some_0[i].1),
    decreases es.len(),
{
    if es.len() > 0 {
        lemma_entry_types_pointwise(es.drop_first());
    }
}

/// The lookups of typed entries and of their types line up.
pub proof fn lemma_lookup_types(es: Seq<(Seq<char>, TreeView)>, k: Seq<char>)
    requires
        entry_types(es) is Some,
    ensures
        match lookup_key(es, k) {
            Some(x) => lookup_key(entry_types(es)->Some_0, k) is Some && type_of(x) == Some(
                lookup_key(entry_types(es)->Some_0, k)->Some_0,
            ),
            None => lookup_key(entry_types(es)->Some_0, k) is None,
        },
    decreases es.len(),
{
    let ts = entry_types(es)->Some_0;
    if es.len() == 0 {
    } else {
        let rest_ts = entry_types(es.drop_first())->Some_0;
        assert(ts =~= seq![(es[0].0, type_of(es[0].1)->Some_0)] + rest_ts);
        assert(ts.drop_first() =~= rest_ts);
        if es[0].0 != k {
            lemma_lookup_types(es.drop_first(), k);
        }
    }
}

/// Setting a key with a typed value sets the same key among the types.
pub proof fn lemma_set_key_types(
    es: Seq<(Seq<char>, TreeView)>,
    k: Seq<char>,
    x: TreeView,
    tx: TypeView,
)
    requires
        entry_types(es) is Some,
        type_of(x) == Some(tx),
    ensures
        entry_types(set_key(es, k, x)) == Some(set_key(entry_types(es)->Some_0, k, tx)),
    decreases es.len(),
{
    let ts = entry_types(es)->Some_0;
    if es.len() == 0 {
        let s2 = set_key(es, k, x);
        assert(s2 =~= seq![(k, x)]);
        assert(s2.drop_first() =~= es);
        assert(entry_types(s2) is Some);
        assert(entry_types(s2)->Some_0 =~= seq![(k, tx)]);
        assert(set_key(ts, k, tx) =~= seq![(k, tx)]);
    } else {
        let rest_ts = entry_types(es.drop_first())->Some_0;
        assert(ts =~= seq![(es[0].0, type_of(es[0].1)->Some_0)] + rest_ts);
        assert(ts.drop_first() =~= rest_ts);
        assert(ts[0] == (es[0].0, type_of(es[0].1)->Some_0));
        if es[0].0 == k {
            let s2 = set_key(es, k, x);
            assert(s2 =~= seq![(k, x)] + es.drop_first());
            assert(s2.drop_first() =~= es.drop_first());
            assert(set_key(ts, k, tx) =~= seq![(k, tx)] + rest_ts);
            assert(entry_types(s2) =~= Some(seq![(k, tx)] + rest_ts));
        } else {
            lemma_set_key_types(es.drop_first(), k, x, tx);
            let s2 = set_key(es, k, x);
            assert(s2 =~= seq![es[0]] + set_key(es.drop_first(), k, x));
            assert(s2.drop_first() =~= set_key(es.drop_first(), k, x));
            assert(s2[0] == es[0]);
            assert(set_key(ts, k, tx) =~= seq![ts[0]] + set_key(rest_ts, k, tx));
            assert(entry_types(s2)->Some_0 =~= set_key(ts, k, tx));
        }
    }
}

/// Removing a key from typed entries removes the same key among the types.
pub proof fn lemma_remove_key_types(es: Seq<(Seq<char>, TreeView)>, k: Seq<char>)
    requires
        entry_types(es) is Some,
    ensures
        entry_types(remove_key(es, k)) == Some(remove_key(entry_types(es)->Some_0, k)),
    decreases es.len(),
{
    let ts = entry_types(es)->Some_0;
    if es.len() == 0 {
        assert(remove_key(es, k) =~= es);
        assert(remove_key(ts, k) =~= ts);
    } else {
        let rest_ts = entry_types(es.drop_first())->Some_0;
        assert(ts =~= seq![(es[0].0, type_of(es[0].1)->Some_0)] + rest_ts);
        assert(ts.drop_first() =~= rest_ts);
        assert(ts[0] == (es[0].0, type_of(es[0].1)->Some_0));
        if es[0].0 == k {
            assert(remove_key(es, k) =~= es.drop_first());
            assert(remove_key(ts, k) =~= rest_ts);
        } else {
            lemma_remove_key_types(es.drop_first(), k);
            let s2 = remove_key(es, k);
            assert(s2 =~= seq![es[0]] + remove_key(es.drop_first(), k));
            assert(s2.drop_first() =~= remove_key(es.drop_first(), k));
            assert(s2[0] == es[0]);
            assert(remove_key(ts, k) =~= seq![ts[0]] + remove_key(rest_ts, k));
            assert(entry_types(s2)->Some_0 =~= remove_key(ts, k));
        }
    }
}

/// The premise of rule duality: wherever a rule inserts a value, the
/// inserted value's type is the type the rule inserts on the type channel.
pub open spec fn rule_well_typed(r: RuleView, v: TreeView) -> bool
    decreases r,
{
    match r {
        RuleView::NewField { name: _, source, ty } => type_of(init_value(source, v)) == Some(ty),
        RuleView::RemoveField { .. } => true,
        RuleView::RenameField { .. } => true,
        RuleView::ApplyToField { name, rule } => match v {
            TreeView::Object(es) => match lookup_key(es, name) {
                Some(x) => rule_well_typed(*rule, x),
                None => true,
            },
            _ => true,
        },
        RuleView::AndThen(a, b) => rule_well_typed(*a, v) && rule_well_typed(
            *b,
            rule_fix_data(*a, v),
        ),
    }
}

/// Rule duality: rewriting a tree and rewriting its type commute with
/// taking the type, for every well-typed rule.
pub proof fn lemma_rule_duality(r: RuleView, v: TreeView, t: TypeView)
    requires
        type_of(v) == Some(t),
        rule_well_typed(r, v),
    ensures
        type_of(rule_fix_data(r, v)) == Some(rule_fix_type(r, t)),
    decreases r,
{
    match r {
        RuleView::NewField { name, source, ty } => {
            match v {
                TreeView::Object(es) => {
                    let ts = entry_types(es)->Some_0;
                    lemma_set_key_types(es, name, init_value(source, v), ty);
                },
                _ => {
                },
            }
        },
        RuleView::RemoveField { name } => {
            match v {
                TreeView::Object(es) => {
                    lemma_remove_key_types(es, name);
                },
                _ => {
                },
            }
        },
        RuleView::ApplyToField { name, rule } => {
            match v {
                TreeView::Object(es) => {
                    lemma_lookup_types(es, name);
                    match lookup_key(es, name) {
                        Some(x) => {
                            let ts = entry_types(es)->Some_0;
                            let tx = lookup_key(ts, name)->Some_0;
                            lemma_rule_duality(*rule, x, tx);
                            lemma_set_key_types(es, name, rule_fix_data(*rule, x), rule_fix_type(*rule, tx));
                        },
                        None => {
                        },
                    }
                },
                _ => {
                },
            }
        },
        RuleView::RenameField { from, to } => {
            match v {
                TreeView::Object(es) => {
                    lemma_lookup_types(es, from);
                    match lookup_key(es, from) {
                        Some(x) => {
                            let ts = entry_types(es)->Some_0;
                            let tx = lookup_key(ts, from)->Some_0;
                            lemma_remove_key_types(es, from);
                            lemma_set_key_types(remove_key(es, from), to, x, tx);
                        },
                        None => {
                        },
                    }
                },
                _ => {
                },
            }
        },
        RuleView::AndThen(a, b) => {
            lemma_rule_duality(*a, v, t);
            lemma_rule_duality(*b, rule_fix_data(*a, v), rule_fix_type(*a, t));
        },
    }
}

/// The values a codec round-trips: its domain under the default
/// interpretation.  Conversion adapters and self-referential codecs are
/// outside this class; their round trips are stated separately.
pub open spec fn conforms(c: CodecView, v: TreeView) -> bool
    decreases c, 0int, 0int,
{
    match c {
        CodecView::Byte | CodecView::Short | CodecView::Int | CodecView::Long | CodecView::Str
            | CodecView::Bool | CodecView::Unit => prim_accepts(c, v),
        CodecView::ListOf(c1) => v matches TreeView::List(elems) && conforms_elems(*c1, elems, 0),
        CodecView::MapOf(c1) => v matches TreeView::Object(es) && conforms_vals(*c1, es, 0),
        CodecView::Pair(l, r) => v matches TreeView::Object(es) && es.len() == 2 && es[0].0
            == "left"@ && es[1].0 == "right"@ && conforms(*l, es[0].1) && conforms(*r, es[1].1),
        CodecView::XMap(_f, _g, _c1) => false,
        CodecView::Bounded(lo, hi, c1) => conforms(*c1, v) && in_bounds(lo, hi, v),
        CodecView::TryElse(l, _r) => conforms(*l, v),
        CodecView::OrElse(_d, c1) => conforms(*c1, v),
        CodecView::Constant(d, c1) => v == d && conforms(*c1, d),
        CodecView::Record(fields) => v matches TreeView::Object(ves) && distinct_field_names(
            fields,
        ) && conforms_fields(fields, ves, 0, 0),
        CodecView::Recursive(_c1) => false,
        CodecView::Rec => false,
    }
}

/// Every list element from index `i` on conforms to the codec.
pub open spec fn conforms_elems(c: CodecView, elems: Seq<TreeView>, i: int) -> bool
    decreases c, 1int, elems.len() - i,
{
    if i < 0 || i >= elems.len() {
        true
    } else {
        conforms(c, elems[i]) && conforms_elems(c, elems, i + 1)
    }
}

/// Every entry value from index `i` on conforms to the codec.
pub open spec fn conforms_vals(c: CodecView, es: Seq<(Seq<char>, TreeView)>, i: int) -> bool
    decreases c, 1int, es.len() - i,
{
    if i < 0 || i >= es.len() {
        true
    } else {
        conforms(c, es[i].1) && conforms_vals(c, es, i + 1)
    }
}

/// The record value's entries from index `j` on line up with the field
/// descriptors from index `i` on: required and defaulted fields are present
/// in order, optional fields are present in order or absent altogether, and
/// no entry is left over.
pub open spec fn conforms_fields(
    fields: Seq<RecordFieldView>,
    ves: Seq<(Seq<char>, TreeView)>,
    i: int,
    j: int,
) -> bool
    decreases fields, 1int, fields.len() - i,
{
    if i < 0 || j < 0 {
        false
    } else if i >= fields.len() {
        j == ves.len()
    } else {
        let f = fields[i];
        match f.mode {
            FieldModeView::Optional => (j < ves.len() && ves[j].0 == f.name && conforms(
                f.codec,
                ves[j].1,
            ) && conforms_fields(fields, ves, i + 1, j + 1)) || (!has_key(ves, f.name)
                && conforms_fields(fields, ves, i + 1, j)),
            _ => j < ves.len() && ves[j].0 == f.name && conforms(f.codec, ves[j].1)
                && conforms_fields(fields, ves, i + 1, j + 1),
        }
    }
}

/// A map whose keys all bear declared field names has no unknown key.
pub proof fn lemma_first_unknown_none(
    es: Seq<(Seq<char>, TreeView)>,
    fields: Seq<RecordFieldView>,
)
    requires
        forall|k: int| 0 <= k < es.len() ==> has_field_name(fields, #[trigger] es[k].0),
    ensures
        first_unknown(es, fields) is None,
    decreases es.len(),
{
    if es.len() > 0 {
        assert forall|k: int| 0 <= k < es.drop_first().len() implies has_field_name(
            fields,
            #[trigger] es.drop_first()[k].0,
        ) by {
            assert(es.drop_first()[k] == es[k + 1]);
        }
        lemma_first_unknown_none(es.drop_first(), fields);
    }
}

/// Round-trip: encoding a conforming value succeeds and decoding the result
/// gives the value back, for every codec in the round-trip class.
pub proof fn lemma_round_trip(c: CodecView, top: Option<CodecView>, v: TreeView, fuel: nat)
    requires
        conforms(c, v),
    ensures
        spec_encode(c, top, v, fuel) is Ok,
        spec_decode(c, top, spec_encode(c, top, v, fuel)->Ok_0, fuel) == Ok::<
            TreeView,
            (crate::result::ErrView, Seq<crate::context::PointView>),
        >(v),
    decreases c, 0int, 0int,
{
    match c {
        CodecView::ListOf(c1) => {
            let elems = v->List_0;
            lemma_list_round_trip(*c1, top, elems, 0, fuel);
            let out = spec_encode_list(*c1, top, elems, 0, fuel)->Ok_0;
            assert(spec_decode_list(*c1, top, out, 0, fuel) == Ok::<
                Seq<TreeView>,
                (crate::result::ErrView, Seq<crate::context::PointView>),
            >(elems.skip(0)));
            assert(elems.skip(0) =~= elems);
        },
        CodecView::MapOf(c1) => {
            let es = v->Object_0;
            lemma_entries_round_trip(*c1, top, es, 0, fuel);
            let out = spec_encode_entries(*c1, top, es, 0, fuel)->Ok_0;
            assert(spec_decode_entries(*c1, top, out, 0, fuel) == Ok::<
                Seq<(Seq<char>, TreeView)>,
                (crate::result::ErrView, Seq<crate::context::PointView>),
            >(es.skip(0)));
            assert(es.skip(0) =~= es);
        },
        CodecView::Pair(l, r) => {
            let es = v->Object_0;
            reveal_strlit("left");
            reveal_strlit("right");
            assert("left"@.len() == 4);
            assert("right"@.len() == 5);
            assert("left"@ != "right"@);
            assert(lookup_key(es, "left"@) == Some(es[0].1)) by {
                lemma_lookup_at(es, "left"@, 0);
            }
            assert(lookup_key(es, "right"@) == Some(es[1].1)) by {
                lemma_lookup_at(es, "right"@, 1);
            }
            lemma_round_trip(*l, top, es[0].1, fuel);
            lemma_round_trip(*r, top, es[1].1, fuel);
            let a = spec_encode(*l, top, es[0].1, fuel)->Ok_0;
            let b = spec_encode(*r, top, es[1].1, fuel)->Ok_0;
            let out = seq![("left"@, a), ("right"@, b)];
            assert(spec_encode(c, top, v, fuel) == Ok::<
                TreeView,
                (crate::result::ErrView, Seq<crate::context::PointView>),
            >(TreeView::Object(out)));
            assert(lookup_key(out, "left"@) == Some(a)) by {
                lemma_lookup_at(out, "left"@, 0);
            }
            assert(lookup_key(out, "right"@) == Some(b)) by {
                lemma_lookup_at(out, "right"@, 1);
            }
            let back = seq![("left"@, es[0].1), ("right"@, es[1].1)];
            assert(back =~= es);
        },
        CodecView::Bounded(lo, hi, c1) => {
            lemma_round_trip(*c1, top, v, fuel);
        },
        CodecView::TryElse(l, _r) => {
            lemma_round_trip(*l, top, v, fuel);
        },
        CodecView::OrElse(_d, c1) => {
            lemma_round_trip(*c1, top, v, fuel);
        },
        CodecView::Constant(d, c1) => {
            lemma_round_trip(*c1, top, d, fuel);
        },
        CodecView::Record(fields) => {
            let ves = v->Object_0;
            lemma_fields_round_trip(fields, top, ves, 0, 0, fuel);
            let out = spec_encode_fields(fields, top, ves, 0, fuel)->Ok_0;
            assert(spec_decode_fields(fields, top, out, 0, fuel) == Ok::<
                Seq<(Seq<char>, TreeView)>,
                (crate::result::ErrView, Seq<crate::context::PointView>),
            >(ves.skip(0)));
            assert(ves.skip(0) =~= ves);
            assert forall|k: int| 0 <= k < out.len() implies has_field_name(
                fields,
                #[trigger] out[k].0,
            ) by {
            }
            lemma_first_unknown_none(out, fields);
        },
        _ => {
        },
    }
}

/// Round-trip for list elements from index `i` on: the encoded suffix,
/// embedded at the same offset in any full encoded list, decodes back to the
/// value suffix.
pub proof fn lemma_list_round_trip(
    c: CodecView,
    top: Option<CodecView>,
    elems: Seq<TreeView>,
    i: int,
    fuel: nat,
)
    requires
        0 <= i <= elems.len(),
        conforms_elems(c, elems, i),
    ensures
        spec_encode_list(c, top, elems, i, fuel) is Ok,
        spec_encode_list(c, top, elems, i, fuel)->Ok_0.len() == elems.len() - i,
        forall|full: Seq<TreeView>|
            #![trigger spec_decode_list(c, top, full, i, fuel)]
            (full.len() == elems.len() && (forall|m: int|
                0 <= m < elems.len() - i ==> full[i + m] == spec_encode_list(
                    c,
                    top,
                    elems,
                    i,
                    fuel,
                )->Ok_0[m])) ==> spec_decode_list(c, top, full, i, fuel) == Ok::<
                Seq<TreeView>,
                (crate::result::ErrView, Seq<crate::context::PointView>),
            >(elems.skip(i)),
    decreases c, 1int, elems.len() - i,
{
    if i >= elems.len() {
        assert forall|full: Seq<TreeView>|
            (full.len() == elems.len()) implies spec_decode_list(c, top, full, i, fuel) == Ok::<
            Seq<TreeView>,
            (crate::result::ErrView, Seq<crate::context::PointView>),
        >(elems.skip(i)) by {
            assert(elems.skip(i) =~= Seq::<TreeView>::empty());
        }
    } else {
        lemma_round_trip(c, top, elems[i], fuel);
        lemma_list_round_trip(c, top, elems, i + 1, fuel);
        let y = spec_encode(c, top, elems[i], fuel)->Ok_0;
        let rest = spec_encode_list(c, top, elems, i + 1, fuel)->Ok_0;
        let out = seq![y] + rest;
        assert(spec_encode_list(c, top, elems, i, fuel) == Ok::<
            Seq<TreeView>,
            (crate::result::ErrView, Seq<crate::context::PointView>),
        >(out));
        assert forall|full: Seq<TreeView>|
            #![trigger spec_decode_list(c, top, full, i, fuel)]
            (full.len() == elems.len() && (forall|m: int|
                0 <= m < elems.len() - i ==> full[i + m] == out[m])) implies spec_decode_list(
            c,
            top,
            full,
            i,
            fuel,
        ) == Ok::<Seq<TreeView>, (crate::result::ErrView, Seq<crate::context::PointView>)>(
            elems.skip(i),
        ) by {
            assert(full[i] == out[0]);
            assert(out[0] == y);
            assert forall|m: int| 0 <= m < elems.len() - (i + 1) implies full[i + 1 + m] == rest[m]
                by {
                assert(full[i + 1 + m] == out[m + 1]);
                assert(out[m + 1] == rest[m]);
            }
            assert(spec_decode_list(c, top, full, i + 1, fuel) == Ok::<
                Seq<TreeView>,
                (crate::result::ErrView, Seq<crate::context::PointView>),
            >(elems.skip(i + 1)));
            assert(seq![elems[i]] + elems.skip(i + 1) =~= elems.skip(i));
        }
    }
}

/// Round-trip for map entry values from index `i` on, with keys preserved.
pub proof fn lemma_entries_round_trip(
    c: CodecView,
    top: Option<CodecView>,
    es: Seq<(Seq<char>, TreeView)>,
    i: int,
    fuel: nat,
)
    requires
        0 <= i <= es.len(),
        conforms_vals(c, es, i),
    ensures
        spec_encode_entries(c, top, es, i, fuel) is Ok,
        spec_encode_entries(c, top, es, i, fuel)->Ok_0.len() == es.len() - i,
        forall|full: Seq<(Seq<char>, TreeView)>|
            #![trigger spec_decode_entries(c, top, full, i, fuel)]
            (full.len() == es.len() && (forall|m: int|
                0 <= m < es.len() - i ==> full[i + m] == spec_encode_entries(
                    c,
                    top,
                    es,
                    i,
                    fuel,
                )->Ok_0[m])) ==> spec_decode_entries(c, top, full, i, fuel) == Ok::<
                Seq<(Seq<char>, TreeView)>,
                (crate::result::ErrView, Seq<crate::context::PointView>),
            >(es.skip(i)),
    decreases c, 1int, es.len() - i,
{
    if i >= es.len() {
        assert forall|full: Seq<(Seq<char>, TreeView)>|
            (full.len() == es.len()) implies spec_decode_entries(c, top, full, i, fuel) == Ok::<
            Seq<(Seq<char>, TreeView)>,
            (crate::result::ErrView, Seq<crate::context::PointView>),
        >(es.skip(i)) by {
            assert(es.skip(i) =~= Seq::<(Seq<char>, TreeView)>::empty());
        }
    } else {
        lemma_round_trip(c, top, es[i].1, fuel);
        lemma_entries_round_trip(c, top, es, i + 1, fuel);
        let y = spec_encode(c, top, es[i].1, fuel)->Ok_0;
        let rest = spec_encode_entries(c, top, es, i + 1, fuel)->Ok_0;
        let out = seq![(es[i].0, y)] + rest;
        assert(spec_encode_entries(c, top, es, i, fuel) == Ok::<
            Seq<(Seq<char>, TreeView)>,
            (crate::result::ErrView, Seq<crate::context::PointView>),
        >(out));
        assert forall|full: Seq<(Seq<char>, TreeView)>|
            #![trigger spec_decode_entries(c, top, full, i, fuel)]
            (full.len() == es.len() && (forall|m: int|
                0 <= m < es.len() - i ==> full[i + m] == out[m])) implies spec_decode_entries(
            c,
            top,
            full,
            i,
            fuel,
        ) == Ok::<
            Seq<(Seq<char>, TreeView)>,
            (crate::result::ErrView, Seq<crate::context::PointView>),
        >(es.skip(i)) by {
            assert(full[i] == out[0]);
            assert(out[0] == (es[i].0, y));
            assert forall|m: int| 0 <= m < es.len() - (i + 1) implies full[i + 1 + m] == rest[m]
                by {
                assert(full[i + 1 + m] == out[m + 1]);
                assert(out[m + 1] == rest[m]);
            }
            assert(spec_decode_entries(c, top, full, i + 1, fuel) == Ok::<
                Seq<(Seq<char>, TreeView)>,
                (crate::result::ErrView, Seq<crate::context::PointView>),
            >(es.skip(i + 1)));
            assert(seq![(es[i].0, es[i].1)] + es.skip(i + 1) =~= es.skip(i));
            assert((es[i].0, es[i].1) == es[i]);
        }
    }
}

/// Round-trip for the declared fields of a record: encoding the value
/// entries from offset `j` by the fields from offset `i` succeeds, and the
/// encoded entries, embedded at the same offset in any full encoded map with
/// the value's keys, decode back to the value entries.
#[verifier::rlimit(100)]
#[verifier::spinoff_prover]
pub proof fn lemma_fields_round_trip(
    fields: Seq<RecordFieldView>,
    top: Option<CodecView>,
    ves: Seq<(Seq<char>, TreeView)>,
    i: int,
    j: int,
    fuel: nat,
)
    requires
        0 <= i <= fields.len(),
        0 <= j <= ves.len(),
        distinct_field_names(fields),
        conforms_fields(fields, ves, i, j),
        forall|k: int, m: int|
            0 <= k < j && i <= m < fields.len() ==> ves[k].0 != fields[m].name,
    ensures
        spec_encode_fields(fields, top, ves, i, fuel) is Ok,
        spec_encode_fields(fields, top, ves, i, fuel)->Ok_0.len() == ves.len() - j,
        forall|m: int|
            0 <= m < ves.len() - j ==> (#[trigger] spec_encode_fields(
                fields,
                top,
                ves,
                i,
                fuel,
            )->Ok_0[m]).0 == ves[j + m].0,
        forall|m: int|
            0 <= m < ves.len() - j ==> has_field_name(
                fields,
                (#[trigger] spec_encode_fields(fields, top, ves, i, fuel)->Ok_0[m]).0,
            ),
        forall|full: Seq<(Seq<char>, TreeView)>|
            #![trigger spec_decode_fields(fields, top, full, i, fuel)]
            (full.len() == ves.len() && (forall|k: int|
                0 <= k < ves.len() ==> full[k].0 == ves[k].0) && (forall|m: int|
                0 <= m < ves.len() - j ==> full[j + m] == spec_encode_fields(
                    fields,
                    top,
                    ves,
                    i,
                    fuel,
                )->Ok_0[m])) ==> spec_decode_fields(fields, top, full, i, fuel) == Ok::<
                Seq<(Seq<char>, TreeView)>,
                (crate::result::ErrView, Seq<crate::context::PointView>),
            >(ves.skip(j)),
    decreases fields, 1int, fields.len() - i,
{
    if i >= fields.len() {
        assert(j == ves.len());
        assert forall|full: Seq<(Seq<char>, TreeView)>|
            (full.len() == ves.len()) implies spec_decode_fields(fields, top, full, i, fuel)
            == Ok::<
            Seq<(Seq<char>, TreeView)>,
            (crate::result::ErrView, Seq<crate::context::PointView>),
        >(ves.skip(j)) by {
            assert(ves.skip(j) =~= Seq::<(Seq<char>, TreeView)>::empty());
        }
    } else {
        let f = fields[i];
        let present = j < ves.len() && ves[j].0 == f.name && conforms(f.codec, ves[j].1)
            && conforms_fields(fields, ves, i + 1, j + 1);
        if present {
            assert(lookup_key(ves, f.name) == Some(ves[j].1)) by {
                assert forall|k: int| 0 <= k < j implies ves[k].0 != f.name by {
                }
                lemma_lookup_at(ves, f.name, j);
            }
            lemma_round_trip(f.codec, top, ves[j].1, fuel);
            assert forall|k: int, m: int|
                0 <= k < j + 1 && i + 1 <= m < fields.len() implies ves[k].0 != fields[m].name by {
                if k == j {
                    assert(ves[j].0 == fields[i].name);
                    assert(fields[i].name != fields[m].name);
                }
            }
            lemma_fields_round_trip(fields, top, ves, i + 1, j + 1, fuel);
            let y = spec_encode(f.codec, top, ves[j].1, fuel)->Ok_0;
            let rest = spec_encode_fields(fields, top, ves, i + 1, fuel)->Ok_0;
            let out = seq![(f.name, y)] + rest;
            assert(spec_encode_fields(fields, top, ves, i, fuel) == Ok::<
                Seq<(Seq<char>, TreeView)>,
                (crate::result::ErrView, Seq<crate::context::PointView>),
            >(out));
            assert forall|m: int| 0 <= m < ves.len() - j implies out[m].0 == ves[j + m].0
                && has_field_name(fields, out[m].0) by {
                if m == 0 {
                    assert(out[0].0 == f.name);
                    assert(ves[j].0 == f.name);
                } else {
                    assert(out[m] == rest[m - 1]);
                }
            }
            assert forall|full: Seq<(Seq<char>, TreeView)>|
                #![trigger spec_decode_fields(fields, top, full, i, fuel)]
                (full.len() == ves.len() && (forall|k: int|
                    0 <= k < ves.len() ==> full[k].0 == ves[k].0) && (forall|m: int|
                    0 <= m < ves.len() - j ==> full[j + m] == out[m])) implies spec_decode_fields(
                fields,
                top,
                full,
                i,
                fuel,
            ) == Ok::<
                Seq<(Seq<char>, TreeView)>,
                (crate::result::ErrView, Seq<crate::context::PointView>),
            >(ves.skip(j)) by {
                assert(full[j] == out[0]);
                assert(out[0] == (f.name, y));
                assert(lookup_key(full, f.name) == Some(y)) by {
                    assert forall|k: int| 0 <= k < j implies full[k].0 != f.name by {
                        assert(full[k].0 == ves[k].0);
                    }
                    lemma_lookup_at(full, f.name, j);
                }
                assert forall|m: int| 0 <= m < ves.len() - (j + 1) implies full[j + 1 + m]
                    == rest[m] by {
                    assert(full[j + 1 + m] == out[m + 1]);
                    assert(out[m + 1] == rest[m]);
                }
                assert(spec_decode_fields(fields, top, full, i + 1, fuel) == Ok::<
                    Seq<(Seq<char>, TreeView)>,
                    (crate::result::ErrView, Seq<crate::context::PointView>),
                >(ves.skip(j + 1)));
                assert(spec_decode(f.codec, top, y, fuel) == Ok::<
                    TreeView,
                    (crate::result::ErrView, Seq<crate::context::PointView>),
                >(ves[j].1));
                assert(seq![(f.name, ves[j].1)] + ves.skip(j + 1) =~= ves.skip(j));
            }
        } else {
            assert(f.mode is Optional);
            assert(!has_key(ves, f.name));
            assert(lookup_key(ves, f.name) is None);
            lemma_lookup_none_all(ves, f.name);
            assert forall|k: int, m: int|
                0 <= k < j && i + 1 <= m < fields.len() implies ves[k].0 != fields[m].name by {
            }
            lemma_fields_round_trip(fields, top, ves, i + 1, j, fuel);
            let rest = spec_encode_fields(fields, top, ves, i + 1, fuel)->Ok_0;
            assert(spec_encode_fields(fields, top, ves, i, fuel) == Ok::<
                Seq<(Seq<char>, TreeView)>,
                (crate::result::ErrView, Seq<crate::context::PointView>),
            >(rest));
            assert forall|full: Seq<(Seq<char>, TreeView)>|
                #![trigger spec_decode_fields(fields, top, full, i, fuel)]
                (full.len() == ves.len() && (forall|k: int|
                    0 <= k < ves.len() ==> full[k].0 == ves[k].0) && (forall|m: int|
                    0 <= m < ves.len() - j ==> full[j + m] == rest[m])) implies spec_decode_fields(
                fields,
                top,
                full,
                i,
                fuel,
            ) == Ok::<
                Seq<(Seq<char>, TreeView)>,
                (crate::result::ErrView, Seq<crate::context::PointView>),
            >(ves.skip(j)) by {
                assert(lookup_key(full, f.name) is None) by {
                    assert forall|k: int| 0 <= k < full.len() implies full[k].0 != f.name by {
                        assert(full[k].0 == ves[k].0);
                        assert(ves[k].0 != f.name);
                    }
                    lemma_lookup_none(full, f.name);
                }
                assert(spec_decode_fields(fields, top, full, i + 1, fuel) == Ok::<
                    Seq<(Seq<char>, TreeView)>,
                    (crate::result::ErrView, Seq<crate::context::PointView>),
                >(ves.skip(j)));
            }
        }
    }
}

/// Inversion carries round-trips through `xmap`: when the encode-side
/// conversion undoes the decode-side one on the inner value (`g(f(x)) = x`
/// over the inner domain), the adapted codec round-trips every value in the
/// image of the decode-side conversion.
pub proof fn lemma_xmap_round_trip(
    f: crate::codec::Conv,
    g: crate::codec::Conv,
    c: CodecView,
    top: Option<CodecView>,
    x: TreeView,
    fuel: nat,
)
    requires
        conforms(c, x),
        crate::codec::apply_conv(f, x) is Some,
        crate::codec::apply_conv(g, crate::codec::apply_conv(f, x)->Some_0) == Some(x),
    ensures
        spec_encode(
            CodecView::XMap(f, g, Box::new(c)),
            top,
            crate::codec::apply_conv(f, x)->Some_0,
            fuel,
        ) is Ok,
        spec_decode(
            CodecView::XMap(f, g, Box::new(c)),
            top,
            spec_encode(
                CodecView::XMap(f, g, Box::new(c)),
                top,
                crate::codec::apply_conv(f, x)->Some_0,
                fuel,
            )->Ok_0,
            fuel,
        ) == Ok::<TreeView, (ErrView, Seq<PointView>)>(crate::codec::apply_conv(f, x)->Some_0),
{
    lemma_round_trip(c, top, x, fuel);
}

/// Follows a path of trace points down a tree: field points look keys up,
/// array points index lists, codec points stay in place.
pub open spec fn resolve(v: TreeView, p: Seq<PointView>) -> Option<TreeView>
    decreases p.len(),
{
    if p.len() == 0 {
        Some(v)
    } else {
        match p[0] {
            PointView::Field { name } => match v {
                TreeView::Object(es) => match lookup_key(es, name) {
                    Some(x) => resolve(x, p.drop_first()),
                    None => None,
                },
                _ => None,
            },
            PointView::Array { index } => match v {
                TreeView::List(elems) => if 0 <= index < elems.len() {
                    resolve(elems[index], p.drop_first())
                } else {
                    None
                },
                _ => None,
            },
            PointView::Codec { .. } => resolve(v, p.drop_first()),
            PointView::Root => None,
        }
    }
}

/// Whether a failure path locates a sub-tree: either the whole path
/// resolves, or its last step names a key the located map lacks.
pub open spec fn locates(v: TreeView, p: Seq<PointView>) -> bool {
    resolve(v, p) is Some || (p.len() > 0 && p.last() is Field && resolve(v, p.drop_last())
        is Some)
}

/// Whether every map inside the tree has distinct keys, as construction
/// guarantees.
pub open spec fn well_keyed(v: TreeView) -> bool
    decreases v,
{
    match v {
        TreeView::List(elems) => well_keyed_elems(elems),
        TreeView::Object(es) => crate::value::distinct_keys(es) && well_keyed_entries(es),
        _ => true,
    }
}

/// Whether every element of the sequence is well-keyed.
pub open spec fn well_keyed_elems(s: Seq<TreeView>) -> bool
    decreases s,
{
    if s.len() == 0 {
        true
    } else {
        well_keyed(s[0]) && well_keyed_elems(s.drop_first())
    }
}

/// Whether every entry value of the sequence is well-keyed.
pub open spec fn well_keyed_entries(es: Seq<(Seq<char>, TreeView)>) -> bool
    decreases es,
{
    if es.len() == 0 {
        true
    } else {
        well_keyed(es[0].1) && well_keyed_entries(es.drop_first())
    }
}

/// Element-wise reading of `well_keyed_elems`.
pub proof fn lemma_well_keyed_elems(s: Seq<TreeView>)
    requires
        well_keyed_elems(s),
    ensures
        forall|j: int| 0 <= j < s.len() ==> well_keyed(#[trigger] s[j]),
    decreases s.len(),
{
    if s.len() > 0 {
        lemma_well_keyed_elems(s.drop_first());
        assert forall|j: int| 0 <= j < s.len() implies well_keyed(#[trigger] s[j]) by {
            if j > 0 {
                assert(s.drop_first()[j - 1] == s[j]);
            }
        }
    }
}

/// Entry-wise reading of `well_keyed_entries`.
pub proof fn lemma_well_keyed_entries(es: Seq<(Seq<char>, TreeView)>)
    requires
        well_keyed_entries(es),
    ensures
        forall|j: int| 0 <= j < es.len() ==> well_keyed((#[trigger] es[j]).1),
    decreases es.len(),
{
    if es.len() > 0 {
        lemma_well_keyed_entries(es.drop_first());
        assert forall|j: int| 0 <= j < es.len() implies well_keyed((#[trigger] es[j]).1) by {
            if j > 0 {
                assert(es.drop_first()[j - 1] == es[j]);
            }
        }
    }
}

/// A lookup that hits returns one of the entry values.
pub proof fn lemma_lookup_is_entry<T>(es: Seq<(Seq<char>, T)>, k: Seq<char>)
    requires
        lookup_key(es, k) is Some,
    ensures
        exists|j: int|
            0 <= j < es.len() && (#[trigger] es[j]).0 == k && es[j].1 == lookup_key(es, k)->Some_0,
    decreases es.len(),
{
    if es.len() > 0 && es[0].0 != k {
        lemma_lookup_is_entry(es.drop_first(), k);
        let j = choose|j: int|
            0 <= j < es.drop_first().len() && (#[trigger] es.drop_first()[j]).0 == k
                && es.drop_first()[j].1 == lookup_key(es.drop_first(), k)->Some_0;
        assert(es[j + 1] == es.drop_first()[j]);
    }
}


/// One field step resolves to the looked-up entry value.
pub proof fn lemma_resolve_field(es: Seq<(Seq<char>, TreeView)>, name: Seq<char>)
    requires
        lookup_key(es, name) is Some,
    ensures
        resolve(TreeView::Object(es), seq![PointView::Field { name }]) == Some(
            lookup_key(es, name)->Some_0,
        ),
{
    reveal_with_fuel(resolve, 2);
    assert(seq![PointView::Field { name }].drop_first() =~= Seq::<PointView>::empty());
}

/// One index step resolves to the indexed element.
pub proof fn lemma_resolve_index(elems: Seq<TreeView>, i: int)
    requires
        0 <= i < elems.len(),
    ensures
        resolve(TreeView::List(elems), seq![PointView::Array { index: i }]) == Some(elems[i]),
{
    reveal_with_fuel(resolve, 2);
    assert(seq![PointView::Array { index: i }].drop_first() =~= Seq::<PointView>::empty());
}

/// One descending step carries path location through.
pub proof fn lemma_locates_step(v: TreeView, pt: PointView, x: TreeView, p: Seq<PointView>)
    requires
        locates(x, p),
        resolve(v, seq![pt]) == Some(x),
    ensures
        locates(v, seq![pt] + p),
{
    reveal_with_fuel(resolve, 3);
    let q = seq![pt] + p;
    assert(q[0] == pt);
    assert(q.drop_first() =~= p);
    assert(seq![pt].drop_first() =~= Seq::<PointView>::empty());
    match pt {
        PointView::Field { name } => {
            match v {
                TreeView::Object(es) => {
                    assert(lookup_key(es, name) == Some(x));
                },
                _ => {
                    assert(false);
                },
            }
        },
        PointView::Array { index } => {
            match v {
                TreeView::List(elems) => {
                    assert(0 <= index < elems.len());
                    assert(elems[index] == x);
                },
                _ => {
                    assert(false);
                },
            }
        },
        PointView::Codec { .. } => {
            assert(x == v);
        },
        PointView::Root => {
            assert(false);
        },
    }
    assert(resolve(v, q) == resolve(x, p));
    if p.len() > 0 {
        assert(q.drop_last() =~= seq![pt] + p.drop_last());
        assert(q.drop_last()[0] == pt);
        assert(q.drop_last().drop_first() =~= p.drop_last());
        assert(resolve(v, q.drop_last()) == resolve(x, p.drop_last()));
        assert(q.last() == p.last());
    }
}

/// Context accuracy: on any decode failure of a well-keyed tree, the
/// reported path, followed as field and index lookups from the root,
/// locates the sub-tree that produced the failure; a missing-key failure
/// locates the map that lacks the key, which the path's last step names.
pub proof fn lemma_decode_locates(c: CodecView, top: Option<CodecView>, v: TreeView, fuel: nat)
    requires
        well_keyed(v),
    ensures
        spec_decode(c, top, v, fuel) matches Err((e, p)) ==> locates(v, p),
    decreases fuel, c, 0int, 0int,
{
    assert(resolve(v, Seq::<PointView>::empty()) == Some(v));
    match c {
        CodecView::Byte | CodecView::Short | CodecView::Int | CodecView::Long | CodecView::Str
            | CodecView::Bool | CodecView::Unit => {
            let p = crate::codec::prim_mismatch(c).1;
            assert(p.drop_first() =~= Seq::<PointView>::empty());
            assert(resolve(v, p) == Some(v));
        },
        CodecView::ListOf(c1) => {
            match v {
                TreeView::List(elems) => {
                    lemma_decode_list_locates(*c1, top, elems, 0, fuel);
                },
                _ => {
                },
            }
        },
        CodecView::MapOf(c1) => {
            match v {
                TreeView::Object(es) => {
                    lemma_decode_entries_locates(*c1, top, es, 0, fuel);
                },
                _ => {
                },
            }
        },
        CodecView::Pair(l, r) => {
            match v {
                TreeView::Object(es) => {
                    lemma_well_keyed_entries(es);
                    match lookup_key(es, "left"@) {
                        Some(lv) => {
                            lemma_lookup_is_entry(es, "left"@);
                            lemma_decode_locates(*l, top, lv, fuel);
                            match spec_decode(*l, top, lv, fuel) {
                                Err((e, p)) => {
                                    let pt = PointView::Field { name: "left"@ };
                                    lemma_resolve_field(es, "left"@);
                                    assert(resolve(v, seq![pt]) == Some(lv));
                                    lemma_locates_step(v, pt, lv, p);
                                },
                                Ok(_) => {
                                    match lookup_key(es, "right"@) {
                                        Some(rv) => {
                                            lemma_lookup_is_entry(es, "right"@);
                                            lemma_decode_locates(*r, top, rv, fuel);
                                            match spec_decode(*r, top, rv, fuel) {
                                                Err((e, p)) => {
                                                    let pt = PointView::Field { name: "right"@ };
                                                    lemma_resolve_field(es, "right"@);
                                                    assert(resolve(v, seq![pt]) == Some(rv));
                                                    lemma_locates_step(v, pt, rv, p);
                                                },
                                                Ok(_) => {
                                                },
                                            }
                                        },
                                        None => {
                                        },
                                    }
                                },
                            }
                        },
                        None => {
                        },
                    }
                },
                _ => {
                },
            }
        },
        CodecView::XMap(_f, _g, c1) => {
            lemma_decode_locates(*c1, top, v, fuel);
        },
        CodecView::Bounded(_lo, _hi, c1) => {
            lemma_decode_locates(*c1, top, v, fuel);
        },
        CodecView::TryElse(l, r) => {
            lemma_decode_locates(*l, top, v, fuel);
            lemma_decode_locates(*r, top, v, fuel);
        },
        CodecView::OrElse(_d, c1) => {
            lemma_decode_locates(*c1, top, v, fuel);
        },
        CodecView::Constant(_d, c1) => {
            lemma_decode_locates(*c1, top, v, fuel);
        },
        CodecView::Record(fields) => {
            match v {
                TreeView::Object(es) => {
                    lemma_decode_fields_locates(fields, top, es, 0, fuel);
                },
                _ => {
                },
            }
        },
        CodecView::Recursive(c1) => {
            lemma_decode_locates(*c1, Some(*c1), v, fuel);
        },
        CodecView::Rec => {
            match top {
                Some(t) => {
                    if fuel > 0 {
                        lemma_decode_locates(t, Some(t), v, (fuel - 1) as nat);
                    }
                },
                None => {
                },
            }
        },
    }
}

/// Context accuracy for list elements from index `i` on.
pub proof fn lemma_decode_list_locates(
    c: CodecView,
    top: Option<CodecView>,
    elems: Seq<TreeView>,
    i: int,
    fuel: nat,
)
    requires
        well_keyed_elems(elems),
    ensures
        spec_decode_list(c, top, elems, i, fuel) matches Err((e, p)) ==> locates(
            TreeView::List(elems),
            p,
        ),
    decreases fuel, c, 1int, elems.len() - i,
{
    if i < 0 || i >= elems.len() {
    } else {
        lemma_well_keyed_elems(elems);
        lemma_decode_locates(c, top, elems[i], fuel);
        match spec_decode(c, top, elems[i], fuel) {
            Ok(_) => {
                lemma_decode_list_locates(c, top, elems, i + 1, fuel);
            },
            Err((e, p)) => {
                let pt = PointView::Array { index: i };
                lemma_resolve_index(elems, i);
                assert(resolve(TreeView::List(elems), seq![pt]) == Some(elems[i]));
                lemma_locates_step(TreeView::List(elems), pt, elems[i], p);
            },
        }
    }
}

/// Context accuracy for map entry values from index `i` on; the map's keys
/// are distinct, so each field step resolves to the failing entry.
pub proof fn lemma_decode_entries_locates(
    c: CodecView,
    top: Option<CodecView>,
    es: Seq<(Seq<char>, TreeView)>,
    i: int,
    fuel: nat,
)
    requires
        crate::value::distinct_keys(es),
        well_keyed_entries(es),
    ensures
        spec_decode_entries(c, top, es, i, fuel) matches Err((e, p)) ==> locates(
            TreeView::Object(es),
            p,
        ),
    decreases fuel, c, 1int, es.len() - i,
{
    if i < 0 || i >= es.len() {
    } else {
        lemma_well_keyed_entries(es);
        lemma_decode_locates(c, top, es[i].1, fuel);
        match spec_decode(c, top, es[i].1, fuel) {
            Ok(_) => {
                lemma_decode_entries_locates(c, top, es, i + 1, fuel);
            },
            Err((e, p)) => {
                let pt = PointView::Field { name: es[i].0 };
                assert(lookup_key(es, es[i].0) == Some(es[i].1)) by {
                    lemma_lookup_at(es, es[i].0, i);
                }
                lemma_resolve_field(es, es[i].0);
                assert(resolve(TreeView::Object(es), seq![pt]) == Some(es[i].1));
                lemma_locates_step(TreeView::Object(es), pt, es[i].1, p);
            },
        }
    }
}

/// Context accuracy for the declared fields of a record from index `i` on.
pub proof fn lemma_decode_fields_locates(
    fields: Seq<RecordFieldView>,
    top: Option<CodecView>,
    es: Seq<(Seq<char>, TreeView)>,
    i: int,
    fuel: nat,
)
    requires
        well_keyed_entries(es),
    ensures
        spec_decode_fields(fields, top, es, i, fuel) matches Err((e, p)) ==> locates(
            TreeView::Object(es),
            p,
        ),
    decreases fuel, fields, 1int, fields.len() - i,
{
    if i < 0 || i >= fields.len() {
    } else {
        let f = fields[i];
        let v = TreeView::Object(es);
        match lookup_key(es, f.name) {
            Some(x) => {
                lemma_lookup_is_entry(es, f.name);
                lemma_well_keyed_entries(es);
                lemma_decode_locates(f.codec, top, x, fuel);
                match spec_decode(f.codec, top, x, fuel) {
                    Ok(_) => {
                        lemma_decode_fields_locates(fields, top, es, i + 1, fuel);
                    },
                    Err((e, p)) => {
                        let pt = PointView::Field { name: f.name };
                        lemma_resolve_field(es, f.name);
                        assert(resolve(v, seq![pt]) == Some(x));
                        lemma_locates_step(v, pt, x, p);
                    },
                }
            },
            None => {
                match f.mode {
                    FieldModeView::Required => {
                        let p = seq![PointView::Field { name: f.name }];
                        assert(p.drop_last() =~= Seq::<PointView>::empty());
                        assert(resolve(v, p.drop_last()) == Some(v));
                    },
                    FieldModeView::Optional => {
                        lemma_decode_fields_locates(fields, top, es, i + 1, fuel);
                    },
                    FieldModeView::Defaulted(_d) => {
                        lemma_decode_fields_locates(fields, top, es, i + 1, fuel);
                    },
                }
            },
        }
    }
}

/// Round-trip at the interpreter's public entry points: encoding a
/// conforming value from the top level succeeds, and decoding what it
/// produced gives the value back.
pub proof fn lemma_model_round_trip(c: CodecView, v: TreeView)
    requires
        conforms(c, v),
    ensures
        crate::eval::encode_model(c, v) is Ok,
        crate::eval::decode_model(c, crate::eval::encode_model(c, v)->Ok_0) == Ok::<
            TreeView,
            (ErrView, Seq<PointView>),
        >(v),
{
    lemma_round_trip(c, None, v, crate::eval::REC_FUEL as nat);
}

/// Context accuracy at the interpreter's public entry point.
pub proof fn lemma_decode_model_locates(c: CodecView, v: TreeView)
    requires
        well_keyed(v),
    ensures
        crate::eval::decode_model(c, v) matches Err((e, p)) ==> locates(v, p),
{
    lemma_decode_locates(c, None, v, crate::eval::REC_FUEL as nat);
}

} // verus!
