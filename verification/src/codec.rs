//! The codec algebra: declarative descriptions of how a tree value is
//! encoded to and decoded from its serialized shape, with a mathematical
//! model of both directions.

use vstd::prelude::*;

use crate::context::PointView;
use crate::result::ErrView;
use crate::value::{lookup_key, TreeView, Value};

verus! {

broadcast use vstd::std_specs::vec::group_vec_axioms;

/// A named conversion applied by the `xmap` adapter.  Conversions form a
/// small closed language so that both directions stay mathematical
/// functions.
#[derive(Debug, Clone, Copy, PartialEq, Eq, Structural)]
pub enum Conv {
    /// Multiplies an integer value, failing when the product leaves the
    /// value's width.
    MulBy(i64),
    /// Divides a nonnegative integer value by a positive constant; other
    /// operands fail.
    DivBy(i64),
}

/// One end of the interval a `bounded` codec enforces.
#[derive(Debug, Clone, Copy, PartialEq, Eq, Structural)]
pub enum Bound {
    Unbounded,
    Included(i64),
    Excluded(i64),
}

/// Spec-level mirror of [`FieldMode`].
pub enum FieldModeView {
    Required,
    Optional,
    Defaulted(TreeView),
}

/// How a record field treats a missing key: required fields fail, optional
/// fields are skipped, defaulted fields substitute a default value.
#[derive(Debug)]
pub enum FieldMode {
    Required,
    Optional,
    Defaulted(Value),
}

/// Spec-level mirror of [`RecordField`].
pub struct RecordFieldView {
    pub name: Seq<char>,
    pub mode: FieldModeView,
    pub codec: CodecView,
}

/// One field descriptor of a record codec: the key, how a missing key is
/// treated, and the codec of the field's value.
#[derive(Debug)]
pub struct RecordField {
    pub name: String,
    pub mode: FieldMode,
    pub codec: Codec,
}

/// Spec-level mirror of [`Codec`].
pub enum CodecView {
    Byte,
    Short,
    Int,
    Long,
    Str,
    Bool,
    Unit,
    ListOf(Box<CodecView>),
    MapOf(Box<CodecView>),
    Pair(Box<CodecView>, Box<CodecView>),
    XMap(Conv, Conv, Box<CodecView>),
    Bounded(Bound, Bound, Box<CodecView>),
    TryElse(Box<CodecView>, Box<CodecView>),
    OrElse(TreeView, Box<CodecView>),
    Constant(TreeView, Box<CodecView>),
    Record(Seq<RecordFieldView>),
    Recursive(Box<CodecView>),
    Rec,
}

/// A codec: a declarative, immutable description of transformations between
/// tree values and their serialized shape.  Codecs are data; the interpreter
/// in this module gives them their two directions.
#[derive(Debug)]
pub enum Codec {
    /// The codec of one byte-wide integer.
    Byte,
    /// The codec of one short-wide integer.
    Short,
    /// The codec of one int-wide integer.
    Int,
    /// The codec of one long-wide integer.
    Long,
    /// The codec of a string.
    Str,
    /// The codec of a boolean.
    Bool,
    /// The codec of the unit value.
    Unit,
    /// Element-wise application of an inner codec to a list.
    ListOf(Box<Codec>),
    /// Value-wise application of an inner codec to every entry of a map.
    /// Decoding a value that is not a map yields the empty map.
    MapOf(Box<Codec>),
    /// A pair encoded as a map with the keys `left` and `right`.
    Pair(Box<Codec>, Box<Codec>),
    /// An inner codec with a conversion applied after decoding and its
    /// partner before encoding.
    XMap(Conv, Conv, Box<Codec>),
    /// An inner codec with an interval test applied in both directions.
    Bounded(Bound, Bound, Box<Codec>),
    /// The first codec, falling back to the second on any failure, in both
    /// directions.
    TryElse(Box<Codec>, Box<Codec>),
    /// An inner codec whose decode failures are replaced by a default value.
    OrElse(Value, Box<Codec>),
    /// An inner codec restricted to one literal value, in both directions.
    Constant(Value, Box<Codec>),
    /// A record codec: ordered field descriptors read from and written to a
    /// map, rejecting unknown keys on decode.
    Record(Vec<RecordField>),
    /// The scope of a self-referential codec: inside it, `Rec` stands for
    /// this whole codec.
    Recursive(Box<Codec>),
    /// The self-reference marker inside a `Recursive` codec.
    Rec,
}

/// The model of a codec.
pub open spec fn codec_view(c: Codec) -> CodecView
    decreases c,
{
    match c {
        Codec::Byte => CodecView::Byte,
        Codec::Short => CodecView::Short,
        Codec::Int => CodecView::Int,
        Codec::Long => CodecView::Long,
        Codec::Str => CodecView::Str,
        Codec::Bool => CodecView::Bool,
        Codec::Unit => CodecView::Unit,
        Codec::ListOf(c1) => CodecView::ListOf(Box::new(codec_view(*c1))),
        Codec::MapOf(c1) => CodecView::MapOf(Box::new(codec_view(*c1))),
        Codec::Pair(l, r) => CodecView::Pair(Box::new(codec_view(*l)), Box::new(codec_view(*r))),
        Codec::XMap(f, g, c1) => CodecView::XMap(f, g, Box::new(codec_view(*c1))),
        Codec::Bounded(lo, hi, c1) => CodecView::Bounded(lo, hi, Box::new(codec_view(*c1))),
        Codec::TryElse(l, r) => CodecView::TryElse(
            Box::new(codec_view(*l)),
            Box::new(codec_view(*r)),
        ),
        Codec::OrElse(d, c1) => CodecView::OrElse(d@, Box::new(codec_view(*c1))),
        Codec::Constant(d, c1) => CodecView::Constant(d@, Box::new(codec_view(*c1))),
        Codec::Record(fields) => CodecView::Record(cfields_view(fields@)),
        Codec::Recursive(c1) => CodecView::Recursive(Box::new(codec_view(*c1))),
        Codec::Rec => CodecView::Rec,
    }
}

/// The model of a sequence of record fields.
pub open spec fn cfields_view(s: Seq<RecordField>) -> Seq<RecordFieldView>
    decreases s,
{
    if s.len() == 0 {
        Seq::empty()
    } else {
        seq![field_view(s[0])] + cfields_view(s.drop_first())
    }
}

/// The model of one record field.
pub open spec fn field_view(f: RecordField) -> RecordFieldView
    decreases f,
{
    RecordFieldView {
        name: f.name@,
        mode: match f.mode {
            FieldMode::Required => FieldModeView::Required,
            FieldMode::Optional => FieldModeView::Optional,
            FieldMode::Defaulted(d) => FieldModeView::Defaulted(d@),
        },
        codec: codec_view(f.codec),
    }
}

impl View for Codec {
    type V = CodecView;

    open spec fn view(&self) -> CodecView {
        codec_view(*self)
    }
}

impl View for RecordField {
    type V = RecordFieldView;

    open spec fn view(&self) -> RecordFieldView {
        field_view(*self)
    }
}

/// `cfields_view` maps the field view pointwise.
pub proof fn lemma_cfields_view(s: Seq<RecordField>)
    ensures
        cfields_view(s).len() == s.len(),
        forall|i: int| 0 <= i < s.len() ==> cfields_view(s)[i] == field_view(s[i]),
    decreases s.len(),
{
    if s.len() > 0 {
        lemma_cfields_view(s.drop_first());
    }
}

/// The integer a numeric tree value holds, if it holds one.
pub open spec fn as_int_val(v: TreeView) -> Option<int> {
    match v {
        TreeView::Byte(x) => Some(x as int),
        TreeView::Short(x) => Some(x as int),
        TreeView::Int(x) => Some(x as int),
        TreeView::Long(x) => Some(x as int),
        _ => None,
    }
}

/// The same numeric variant as `v`, holding `n`; `n` must fit the width.
pub open spec fn with_int_val(v: TreeView, n: int) -> TreeView {
    match v {
        TreeView::Byte(_) => TreeView::Byte(n as i8),
        TreeView::Short(_) => TreeView::Short(n as i16),
        TreeView::Int(_) => TreeView::Int(n as i32),
        _ => TreeView::Long(n as i64),
    }
}

/// Whether `n` fits the width of the numeric variant of `v`.
pub open spec fn fits_width(v: TreeView, n: int) -> bool {
    match v {
        TreeView::Byte(_) => i8::MIN <= n <= i8::MAX,
        TreeView::Short(_) => i16::MIN <= n <= i16::MAX,
        TreeView::Int(_) => i32::MIN <= n <= i32::MAX,
        _ => i64::MIN <= n <= i64::MAX,
    }
}

/// What a conversion returns: multiplication fails outside the width,
/// division is defined on nonnegative values and positive divisors, and both
/// fail on non-numeric values.
pub open spec fn apply_conv(c: Conv, v: TreeView) -> Option<TreeView> {
    match as_int_val(v) {
        Some(n) => match c {
            Conv::MulBy(k) => if fits_width(v, n * k) {
                Some(with_int_val(v, n * k))
            } else {
                None
            },
            Conv::DivBy(k) => if k > 0 && n >= 0 {
                Some(with_int_val(v, n / (k as int)))
            } else {
                None
            },
        },
        None => None,
    }
}

/// Whether a numeric value lies inside the interval.
pub open spec fn in_bounds(lo: Bound, hi: Bound, v: TreeView) -> bool {
    match as_int_val(v) {
        Some(n) => {
            &&& match lo {
                Bound::Unbounded => true,
                Bound::Included(l) => n >= l,
                Bound::Excluded(l) => n > l,
            }
            &&& match hi {
                Bound::Unbounded => true,
                Bound::Included(h) => n <= h,
                Bound::Excluded(h) => n < h,
            }
        },
        None => false,
    }
}

/// The message of the error a record decode raises on a key outside its
/// descriptor list.
pub open spec fn unsupported_key_msg(key: Seq<char>) -> Seq<char> {
    "unsupported key \""@ + key + "\" in object"@
}

/// Whether some field descriptor bears the name.
pub open spec fn has_field_name(fields: Seq<RecordFieldView>, name: Seq<char>) -> bool {
    exists|j: int| 0 <= j < fields.len() && fields[j].name == name
}

/// The first map key that no field descriptor bears.
pub open spec fn first_unknown(
    es: Seq<(Seq<char>, TreeView)>,
    fields: Seq<RecordFieldView>,
) -> Option<Seq<char>>
    decreases es.len(),
{
    if es.len() == 0 {
        None
    } else if !has_field_name(fields, es[0].0) {
        Some(es[0].0)
    } else {
        first_unknown(es.drop_first(), fields)
    }
}

/// The result of one direction of the interpreter: the produced tree, or an
/// error with the relative path of the failing descent.
pub type StepResult = Result<TreeView, (ErrView, Seq<PointView>)>;

/// The name a primitive codec reports in errors and trace points.
pub open spec fn prim_name(c: CodecView) -> Seq<char> {
    match c {
        CodecView::Byte => "i8"@,
        CodecView::Short => "i16"@,
        CodecView::Int => "i32"@,
        CodecView::Long => "i64"@,
        CodecView::Str => "string"@,
        CodecView::Bool => "bool"@,
        _ => "unit"@,
    }
}

/// The failure a primitive codec raises on a value of the wrong shape.
pub open spec fn prim_mismatch(c: CodecView) -> (ErrView, Seq<PointView>) {
    (
        ErrView::UnexpectedType { expected: prim_name(c) },
        seq![PointView::Codec { name: prim_name(c) }],
    )
}

/// Whether a primitive codec accepts the value as it stands.
pub open spec fn prim_accepts(c: CodecView, v: TreeView) -> bool {
    match c {
        CodecView::Byte => v is Byte,
        CodecView::Short => v is Short,
        CodecView::Int => v is Int,
        CodecView::Long => v is Long,
        CodecView::Str => v is Str,
        CodecView::Bool => v is Bool,
        _ => v is Unit,
    }
}

/// The model of decoding: what the decode direction of a codec returns on a
/// tree value.  `top` is the nearest enclosing self-referential codec and
/// `fuel` bounds how often the self-reference may unfold.
pub open spec fn spec_decode(
    c: CodecView,
    top: Option<CodecView>,
    v: TreeView,
    fuel: nat,
) -> StepResult
    decreases fuel, c, 0int, 0int,
{
    match c {
        CodecView::Byte | CodecView::Short | CodecView::Int | CodecView::Long | CodecView::Str
            | CodecView::Bool | CodecView::Unit => if prim_accepts(c, v) {
            Ok(v)
        } else {
            Err(prim_mismatch(c))
        },
        CodecView::ListOf(c1) => match v {
            TreeView::List(elems) => match spec_decode_list(*c1, top, elems, 0, fuel) {
                Ok(out) => Ok(TreeView::List(out)),
                Err(e) => Err(e),
            },
            _ => Err((ErrView::UnexpectedType { expected: "list"@ }, Seq::empty())),
        },
        CodecView::MapOf(c1) => match v {
            TreeView::Object(es) => match spec_decode_entries(*c1, top, es, 0, fuel) {
                Ok(out) => Ok(TreeView::Object(out)),
                Err(e) => Err(e),
            },
            _ => Ok(TreeView::Object(Seq::empty())),
        },
        CodecView::Pair(l, r) => match v {
            TreeView::Object(es) => match lookup_key(es, "left"@) {
                Some(lv) => match spec_decode(*l, top, lv, fuel) {
                    Ok(a) => match lookup_key(es, "right"@) {
                        Some(rv) => match spec_decode(*r, top, rv, fuel) {
                            Ok(b) => Ok(
                                TreeView::Object(
                                    seq![("left"@, a), ("right"@, b)],
                                ),
                            ),
                            Err((e, p)) => Err(
                                (e, seq![PointView::Field { name: "right"@ }] + p),
                            ),
                        },
                        None => Err(
                            (
                                ErrView::KeyNotFoundInMap { key: "right"@ },
                                Seq::empty(),
                            ),
                        ),
                    },
                    Err((e, p)) => Err((e, seq![PointView::Field { name: "left"@ }] + p)),
                },
                None => Err(
                    (ErrView::KeyNotFoundInMap { key: "left"@ }, Seq::empty()),
                ),
            },
            _ => Err((ErrView::UnexpectedType { expected: "object"@ }, Seq::empty())),
        },
        CodecView::XMap(f, _g, c1) => match spec_decode(*c1, top, v, fuel) {
            Ok(x) => match apply_conv(f, x) {
                Some(u) => Ok(u),
                None => Err((ErrView::Custom { message: "conversion failed"@ }, Seq::empty())),
            },
            Err(e) => Err(e),
        },
        CodecView::Bounded(lo, hi, c1) => match spec_decode(*c1, top, v, fuel) {
            Ok(x) => if in_bounds(lo, hi, x) {
                Ok(x)
            } else {
                Err(
                    (
                        ErrView::Custom { message: "value must be in bounds"@ },
                        Seq::empty(),
                    ),
                )
            },
            Err(e) => Err(e),
        },
        CodecView::TryElse(l, r) => match spec_decode(*l, top, v, fuel) {
            Ok(x) => Ok(x),
            Err(_) => spec_decode(*r, top, v, fuel),
        },
        CodecView::OrElse(d, c1) => match spec_decode(*c1, top, v, fuel) {
            Ok(x) => Ok(x),
            Err(_) => Ok(d),
        },
        CodecView::Constant(d, c1) => match spec_decode(*c1, top, v, fuel) {
            Ok(x) => if x == d {
                Ok(x)
            } else {
                Err(
                    (
                        ErrView::Custom {
                            message: "value does not match the expected constant"@,
                        },
                        Seq::empty(),
                    ),
                )
            },
            Err(e) => Err(e),
        },
        CodecView::Record(fields) => match v {
            TreeView::Object(es) => match spec_decode_fields(fields, top, es, 0, fuel) {
                Ok(out) => match first_unknown(es, fields) {
                    Some(k) => Err(
                        (
                            ErrView::Custom { message: unsupported_key_msg(k) },
                            Seq::empty(),
                        ),
                    ),
                    None => Ok(TreeView::Object(out)),
                },
                Err(e) => Err(e),
            },
            _ => Err((ErrView::UnexpectedType { expected: "object"@ }, Seq::empty())),
        },
        CodecView::Recursive(c1) => spec_decode(*c1, Some(*c1), v, fuel),
        CodecView::Rec => match top {
            Some(t) => if fuel == 0 {
                Err((ErrView::Custom { message: "recursion limit reached"@ }, Seq::empty()))
            } else {
                spec_decode(t, Some(t), v, (fuel - 1) as nat)
            },
            None => Err(
                (
                    ErrView::Custom {
                        message: "recursion marker outside a recursive codec"@,
                    },
                    Seq::empty(),
                ),
            ),
        },
    }
}

/// The model of decoding the elements of a list from index `i` on.
pub open spec fn spec_decode_list(
    c: CodecView,
    top: Option<CodecView>,
    elems: Seq<TreeView>,
    i: int,
    fuel: nat,
) -> Result<Seq<TreeView>, (ErrView, Seq<PointView>)>
    decreases fuel, c, 1int, elems.len() - i,
{
    if i < 0 || i >= elems.len() {
        Ok(Seq::empty())
    } else {
        match spec_decode(c, top, elems[i], fuel) {
            Ok(x) => match spec_decode_list(c, top, elems, i + 1, fuel) {
                Ok(rest) => Ok(seq![x] + rest),
                Err(e) => Err(e),
            },
            Err((e, p)) => Err((e, seq![PointView::Array { index: i }] + p)),
        }
    }
}

/// The model of decoding every entry value of a map from index `i` on.
pub open spec fn spec_decode_entries(
    c: CodecView,
    top: Option<CodecView>,
    es: Seq<(Seq<char>, TreeView)>,
    i: int,
    fuel: nat,
) -> Result<Seq<(Seq<char>, TreeView)>, (ErrView, Seq<PointView>)>
    decreases fuel, c, 1int, es.len() - i,
{
    if i < 0 || i >= es.len() {
        Ok(Seq::empty())
    } else {
        match spec_decode(c, top, es[i].1, fuel) {
            Ok(x) => match spec_decode_entries(c, top, es, i + 1, fuel) {
                Ok(rest) => Ok(seq![(es[i].0, x)] + rest),
                Err(e) => Err(e),
            },
            Err((e, p)) => Err((e, seq![PointView::Field { name: es[i].0 }] + p)),
        }
    }
}

/// The model of decoding the declared fields of a record, in declaration
/// order, from field index `i` on.
pub open spec fn spec_decode_fields(
    fields: Seq<RecordFieldView>,
    top: Option<CodecView>,
    es: Seq<(Seq<char>, TreeView)>,
    i: int,
    fuel: nat,
) -> Result<Seq<(Seq<char>, TreeView)>, (ErrView, Seq<PointView>)>
    decreases fuel, fields, 1int, fields.len() - i,
{
    if i < 0 || i >= fields.len() {
        Ok(Seq::empty())
    } else {
        let f = fields[i];
        match lookup_key(es, f.name) {
            Some(x) => match spec_decode(f.codec, top, x, fuel) {
                Ok(y) => match spec_decode_fields(fields, top, es, i + 1, fuel) {
                    Ok(rest) => Ok(seq![(f.name, y)] + rest),
                    Err(e) => Err(e),
                },
                Err((e, p)) => Err((e, seq![PointView::Field { name: f.name }] + p)),
            },
            None => match f.mode {
                FieldModeView::Required => Err(
                    (
                        ErrView::KeyNotFoundInMap { key: f.name },
                        seq![PointView::Field { name: f.name }],
                    ),
                ),
                FieldModeView::Optional => spec_decode_fields(fields, top, es, i + 1, fuel),
                FieldModeView::Defaulted(d) => match spec_decode_fields(
                    fields,
                    top,
                    es,
                    i + 1,
                    fuel,
                ) {
                    Ok(rest) => Ok(seq![(f.name, d)] + rest),
                    Err(e) => Err(e),
                },
            },
        }
    }
}

/// The model of encoding: what the encode direction of a codec returns on a
/// tree value.
pub open spec fn spec_encode(
    c: CodecView,
    top: Option<CodecView>,
    v: TreeView,
    fuel: nat,
) -> StepResult
    decreases fuel, c, 0int, 0int,
{
    match c {
        CodecView::Byte | CodecView::Short | CodecView::Int | CodecView::Long | CodecView::Str
            | CodecView::Bool | CodecView::Unit => if prim_accepts(c, v) {
            Ok(v)
        } else {
            Err(prim_mismatch(c))
        },
        CodecView::ListOf(c1) => match v {
            TreeView::List(elems) => match spec_encode_list(*c1, top, elems, 0, fuel) {
                Ok(out) => Ok(TreeView::List(out)),
                Err(e) => Err(e),
            },
            _ => Err((ErrView::UnexpectedType { expected: "list"@ }, Seq::empty())),
        },
        CodecView::MapOf(c1) => match v {
            TreeView::Object(es) => match spec_encode_entries(*c1, top, es, 0, fuel) {
                Ok(out) => Ok(TreeView::Object(out)),
                Err(e) => Err(e),
            },
            _ => Err((ErrView::UnexpectedType { expected: "object"@ }, Seq::empty())),
        },
        CodecView::Pair(l, r) => match v {
            TreeView::Object(es) => match lookup_key(es, "left"@) {
                Some(lv) => match spec_encode(*l, top, lv, fuel) {
                    Ok(a) => match lookup_key(es, "right"@) {
                        Some(rv) => match spec_encode(*r, top, rv, fuel) {
                            Ok(b) => Ok(
                                TreeView::Object(
                                    seq![("left"@, a), ("right"@, b)],
                                ),
                            ),
                            Err((e, p)) => Err(
                                (e, seq![PointView::Field { name: "right"@ }] + p),
                            ),
                        },
                        None => Err(
                            (
                                ErrView::KeyNotFoundInMap { key: "right"@ },
                                Seq::empty(),
                            ),
                        ),
                    },
                    Err((e, p)) => Err((e, seq![PointView::Field { name: "left"@ }] + p)),
                },
                None => Err(
                    (ErrView::KeyNotFoundInMap { key: "left"@ }, Seq::empty()),
                ),
            },
            _ => Err((ErrView::UnexpectedType { expected: "object"@ }, Seq::empty())),
        },
        CodecView::XMap(_f, g, c1) => match apply_conv(g, v) {
            Some(x) => spec_encode(*c1, top, x, fuel),
            None => Err((ErrView::Custom { message: "conversion failed"@ }, Seq::empty())),
        },
        CodecView::Bounded(lo, hi, c1) => if in_bounds(lo, hi, v) {
            spec_encode(*c1, top, v, fuel)
        } else {
            Err(
                (
                    ErrView::Custom { message: "value must be in bounds"@ },
                    Seq::empty(),
                ),
            )
        },
        CodecView::TryElse(l, r) => match spec_encode(*l, top, v, fuel) {
            Ok(x) => Ok(x),
            Err(_) => spec_encode(*r, top, v, fuel),
        },
        CodecView::OrElse(_d, c1) => spec_encode(*c1, top, v, fuel),
        CodecView::Constant(d, c1) => if v == d {
            spec_encode(*c1, top, d, fuel)
        } else {
            Err(
                (
                    ErrView::Custom {
                        message: "value does not match the expected constant"@,
                    },
                    Seq::empty(),
                ),
            )
        },
        CodecView::Record(fields) => match v {
            TreeView::Object(es) => match spec_encode_fields(fields, top, es, 0, fuel) {
                Ok(out) => Ok(TreeView::Object(out)),
                Err(e) => Err(e),
            },
            _ => Err((ErrView::UnexpectedType { expected: "object"@ }, Seq::empty())),
        },
        CodecView::Recursive(c1) => spec_encode(*c1, Some(*c1), v, fuel),
        CodecView::Rec => match top {
            Some(t) => if fuel == 0 {
                Err((ErrView::Custom { message: "recursion limit reached"@ }, Seq::empty()))
            } else {
                spec_encode(t, Some(t), v, (fuel - 1) as nat)
            },
            None => Err(
                (
                    ErrView::Custom {
                        message: "recursion marker outside a recursive codec"@,
                    },
                    Seq::empty(),
                ),
            ),
        },
    }
}

/// The model of encoding the elements of a list from index `i` on.
pub open spec fn spec_encode_list(
    c: CodecView,
    top: Option<CodecView>,
    elems: Seq<TreeView>,
    i: int,
    fuel: nat,
) -> Result<Seq<TreeView>, (ErrView, Seq<PointView>)>
    decreases fuel, c, 1int, elems.len() - i,
{
    if i < 0 || i >= elems.len() {
        Ok(Seq::empty())
    } else {
        match spec_encode(c, top, elems[i], fuel) {
            Ok(x) => match spec_encode_list(c, top, elems, i + 1, fuel) {
                Ok(rest) => Ok(seq![x] + rest),
                Err(e) => Err(e),
            },
            Err((e, p)) => Err((e, seq![PointView::Array { index: i }] + p)),
        }
    }
}

/// The model of encoding every entry value of a map from index `i` on.
pub open spec fn spec_encode_entries(
    c: CodecView,
    top: Option<CodecView>,
    es: Seq<(Seq<char>, TreeView)>,
    i: int,
    fuel: nat,
) -> Result<Seq<(Seq<char>, TreeView)>, (ErrView, Seq<PointView>)>
    decreases fuel, c, 1int, es.len() - i,
{
    if i < 0 || i >= es.len() {
        Ok(Seq::empty())
    } else {
        match spec_encode(c, top, es[i].1, fuel) {
            Ok(x) => match spec_encode_entries(c, top, es, i + 1, fuel) {
                Ok(rest) => Ok(seq![(es[i].0, x)] + rest),
                Err(e) => Err(e),
            },
            Err((e, p)) => Err((e, seq![PointView::Field { name: es[i].0 }] + p)),
        }
    }
}

/// The model of encoding the declared fields of a record from a map of field
/// values, in declaration order, from field index `i` on.  Optional fields
/// whose key is absent are dropped; defaulted fields encode their default.
pub open spec fn spec_encode_fields(
    fields: Seq<RecordFieldView>,
    top: Option<CodecView>,
    es: Seq<(Seq<char>, TreeView)>,
    i: int,
    fuel: nat,
) -> Result<Seq<(Seq<char>, TreeView)>, (ErrView, Seq<PointView>)>
    decreases fuel, fields, 1int, fields.len() - i,
{
    if i < 0 || i >= fields.len() {
        Ok(Seq::empty())
    } else {
        let f = fields[i];
        match lookup_key(es, f.name) {
            Some(x) => match spec_encode(f.codec, top, x, fuel) {
                Ok(y) => match spec_encode_fields(fields, top, es, i + 1, fuel) {
                    Ok(rest) => Ok(seq![(f.name, y)] + rest),
                    Err(e) => Err(e),
                },
                Err((e, p)) => Err((e, seq![PointView::Field { name: f.name }] + p)),
            },
            None => match f.mode {
                FieldModeView::Required => Err(
                    (
                        ErrView::KeyNotFoundInMap { key: f.name },
                        seq![PointView::Field { name: f.name }],
                    ),
                ),
                FieldModeView::Optional => spec_encode_fields(fields, top, es, i + 1, fuel),
                FieldModeView::Defaulted(d) => match spec_encode(f.codec, top, d, fuel) {
                    Ok(y) => match spec_encode_fields(fields, top, es, i + 1, fuel) {
                        Ok(rest) => Ok(seq![(f.name, y)] + rest),
                        Err(e) => Err(e),
                    },
                    Err((e, p)) => Err((e, seq![PointView::Field { name: f.name }] + p)),
                },
            },
        }
    }
}

impl Codec {
    /// A codec for lists of what this codec describes.
    pub fn list_of(self) -> (r: Codec)
        ensures
            r@ == CodecView::ListOf(Box::new(self@)),
    {
        Codec::ListOf(Box::new(self))
    }

    /// Applies `to_new` to every decoded value and `from_new` to every value
    /// before encoding.  The conversions should invert one another over the
    /// codec's domain.
    pub fn xmap(self, to_new: Conv, from_new: Conv) -> (r: Codec)
        ensures
            r@ == CodecView::XMap(to_new, from_new, Box::new(self@)),
    {
        Codec::XMap(to_new, from_new, Box::new(self))
    }

    /// As `xmap`; named for call sites whose conversions are expected to
    /// fail on part of the domain.
    pub fn flat_xmap(self, to_new: Conv, from_new: Conv) -> (r: Codec)
        ensures
            r@ == CodecView::XMap(to_new, from_new, Box::new(self@)),
    {
        Codec::XMap(to_new, from_new, Box::new(self))
    }

    /// A codec for a pair, encoded as a map with the keys `left` and
    /// `right`.
    pub fn pair(self, right: Codec) -> (r: Codec)
        ensures
            r@ == CodecView::Pair(Box::new(self@), Box::new(right@)),
    {
        Codec::Pair(Box::new(self), Box::new(right))
    }

    /// Restricts this codec to an interval, failing outside it in both
    /// directions.
    pub fn bounded(self, lo: Bound, hi: Bound) -> (r: Codec)
        ensures
            r@ == CodecView::Bounded(lo, hi, Box::new(self@)),
    {
        Codec::Bounded(lo, hi, Box::new(self))
    }

    /// Falls back to another codec when this one fails, in both directions.
    pub fn try_else(self, other: Codec) -> (r: Codec)
        ensures
            r@ == CodecView::TryElse(Box::new(self@), Box::new(other@)),
    {
        Codec::TryElse(Box::new(self), Box::new(other))
    }

    /// Replaces any decode failure of this codec by a default value.
    pub fn or_else(self, default: Value) -> (r: Codec)
        ensures
            r@ == CodecView::OrElse(default@, Box::new(self@)),
    {
        Codec::OrElse(default, Box::new(self))
    }

    /// Restricts this codec to one literal value in both directions.
    pub fn constant(self, literal: Value) -> (r: Codec)
        ensures
            r@ == CodecView::Constant(literal@, Box::new(self@)),
    {
        Codec::Constant(literal, Box::new(self))
    }

    /// A required field of a record, read from and written under `name`.
    pub fn field_of(self, name: &str) -> (r: RecordField)
        ensures
            r@ == (RecordFieldView {
                name: name@,
                mode: FieldModeView::Required,
                codec: self@,
            }),
    {
        RecordField { name: name.to_owned(), mode: FieldMode::Required, codec: self }
    }

    /// An optional field of a record: a missing key decodes to an absent
    /// field, and an absent field encodes to a missing key.
    pub fn optional_field_of(self, name: &str) -> (r: RecordField)
        ensures
            r@ == (RecordFieldView {
                name: name@,
                mode: FieldModeView::Optional,
                codec: self@,
            }),
    {
        RecordField { name: name.to_owned(), mode: FieldMode::Optional, codec: self }
    }

    /// A field of a record that substitutes a default value when its key is
    /// missing on decode, and always encodes.
    pub fn default_field_of(self, name: &str, default: Value) -> (r: RecordField)
        ensures
            r@ == (RecordFieldView {
                name: name@,
                mode: FieldModeView::Defaulted(default@),
                codec: self@,
            }),
    {
        RecordField { name: name.to_owned(), mode: FieldMode::Defaulted(default), codec: self }
    }
}

/// Associated constructors for the codecs that no adapter builds.
pub struct Codecs;

impl Codecs {
    /// The codec of the unit value.
    pub fn unit() -> (r: Codec)
        ensures
            r@ == CodecView::Unit,
    {
        Codec::Unit
    }

    /// A codec applying an inner codec to every entry value of a map whose
    /// keys are free.
    pub fn map_of(inner: Codec) -> (r: Codec)
        ensures
            r@ == CodecView::MapOf(Box::new(inner@)),
    {
        Codec::MapOf(Box::new(inner))
    }

    /// A record codec over ordered field descriptors.
    pub fn record(fields: Vec<RecordField>) -> (r: Codec)
        ensures
            r@ == CodecView::Record(cfields_view(fields@)),
    {
        Codec::Record(fields)
    }

    /// A codec for self-referential data: inside `body`, the marker given by
    /// [`Codecs::rec`] stands for the whole codec.
    pub fn recursive(body: Codec) -> (r: Codec)
        ensures
            r@ == CodecView::Recursive(Box::new(body@)),
    {
        Codec::Recursive(Box::new(body))
    }

    /// The self-reference marker used inside [`Codecs::recursive`].
    pub fn rec() -> (r: Codec)
        ensures
            r@ == CodecView::Rec,
    {
        Codec::Rec
    }
}

/// The default codec of a type: the primitive codec of its kind.
pub trait DefaultCodec {
    /// The default codec for this type's values.
    fn codec() -> Codec;
}

impl DefaultCodec for i8 {
    fn codec() -> (r: Codec)
        ensures
            r@ == CodecView::Byte,
    {
        Codec::Byte
    }
}

impl DefaultCodec for i16 {
    fn codec() -> (r: Codec)
        ensures
            r@ == CodecView::Short,
    {
        Codec::Short
    }
}

impl DefaultCodec for i32 {
    fn codec() -> (r: Codec)
        ensures
            r@ == CodecView::Int,
    {
        Codec::Int
    }
}

impl DefaultCodec for i64 {
    fn codec() -> (r: Codec)
        ensures
            r@ == CodecView::Long,
    {
        Codec::Long
    }
}

impl DefaultCodec for bool {
    fn codec() -> (r: Codec)
        ensures
            r@ == CodecView::Bool,
    {
        Codec::Bool
    }
}

impl DefaultCodec for String {
    fn codec() -> (r: Codec)
        ensures
            r@ == CodecView::Str,
    {
        Codec::Str
    }
}

/// A builder that collects a record codec's fields in order.
pub struct RecordCodecBuilder {
    pub fields: Vec<RecordField>,
}

impl RecordCodecBuilder {
    /// A builder with no fields yet.
    pub fn new() -> (r: RecordCodecBuilder)
        ensures
            cfields_view(r.fields@) == Seq::<RecordFieldView>::empty(),
    {
        let r = RecordCodecBuilder { fields: Vec::new() };
        proof {
            assert(cfields_view(r.fields@) =~= Seq::<RecordFieldView>::empty());
        }
        r
    }

    /// Adds a required field.
    pub fn field(self, codec: Codec, name: &str) -> (r: RecordCodecBuilder)
        ensures
            cfields_view(r.fields@) == cfields_view(self.fields@).push(
                RecordFieldView {
                    name: name@,
                    mode: FieldModeView::Required,
                    codec: codec@,
                },
            ),
    {
        self.push_field(codec.field_of(name))
    }

    /// Adds an optional field.
    pub fn optional_field(self, codec: Codec, name: &str) -> (r: RecordCodecBuilder)
        ensures
            cfields_view(r.fields@) == cfields_view(self.fields@).push(
                RecordFieldView {
                    name: name@,
                    mode: FieldModeView::Optional,
                    codec: codec@,
                },
            ),
    {
        self.push_field(codec.optional_field_of(name))
    }

    /// Adds a defaulted field.
    pub fn default_field(self, codec: Codec, name: &str, default: Value) -> (r:
        RecordCodecBuilder)
        ensures
            cfields_view(r.fields@) == cfields_view(self.fields@).push(
                RecordFieldView {
                    name: name@,
                    mode: FieldModeView::Defaulted(default@),
                    codec: codec@,
                },
            ),
    {
        self.push_field(codec.default_field_of(name, default))
    }

    /// Adds an already-built field descriptor.
    pub fn push_field(self, field: RecordField) -> (r: RecordCodecBuilder)
        ensures
            cfields_view(r.fields@) == cfields_view(self.fields@).push(field@),
    {
        let mut fields = self.fields;
        let ghost pre = fields@;
        fields.push(field);
        proof {
            lemma_cfields_view(fields@);
            lemma_cfields_view(pre);
            assert(cfields_view(fields@) =~= cfields_view(pre).push(field_view(fields@.last())));
        }
        RecordCodecBuilder { fields }
    }

    /// Builds the record codec over the collected fields.
    pub fn build(self) -> (r: Codec)
        ensures
            r@ == CodecView::Record(cfields_view(self.fields@)),
    {
        Codec::Record(self.fields)
    }
}


} // verus!
