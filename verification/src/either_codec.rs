//! The codec of a two-case sum, carried as `either::Either`.

use vstd::prelude::*;

use crate::codec::{Codec, CodecView, StepResult};
use crate::context::PointView;
use crate::eval::{decode_model, encode_model, res_view, Failure};
use crate::result::ErrView;
use crate::value::{TreeView, Value};

verus! {

#[verifier::external_type_specification]
#[verifier::external_body]
#[verifier::reject_recursive_types(L)]
#[verifier::reject_recursive_types(R)]
pub struct ExEither<L, R>(either::Either<L, R>);

/// Spec-level mirror of [`Branch`], and the model of a sum of two tree
/// values.
pub enum BranchView {
    Left(TreeView),
    Right(TreeView),
}

/// A sum of two tree values, as this library's own data.
#[derive(Debug)]
pub enum Branch {
    Left(Value),
    Right(Value),
}

impl View for Branch {
    type V = BranchView;

    open spec fn view(&self) -> BranchView {
        match self {
            Branch::Left(v) => BranchView::Left(v@),
            Branch::Right(v) => BranchView::Right(v@),
        }
    }
}

/// Which case an `either::Either` of two values holds, and the model of the
/// value it carries.
pub uninterp spec fn either_view(e: either::Either<Value, Value>) -> BranchView;

/// Relies on `either::Either`: `Left` carries exactly the value it was built
/// from.
#[verifier::external_body]
fn either_left(v: Value) -> (r: either::Either<Value, Value>)
    ensures
        either_view(r) == BranchView::Left(v@),
{
    either::Either::Left(v)
}

/// Relies on `either::Either`: `Right` carries exactly the value it was
/// built from.
#[verifier::external_body]
fn either_right(v: Value) -> (r: either::Either<Value, Value>)
    ensures
        either_view(r) == BranchView::Right(v@),
{
    either::Either::Right(v)
}

/// Relies on `either::Either`: the two variants are told apart and hand
/// their value out unchanged.
#[verifier::external_body]
fn into_branch(e: either::Either<Value, Value>) -> (r: Branch)
    ensures
        r@ == either_view(e),
{
    match e {
        either::Either::Left(v) => Branch::Left(v),
        either::Either::Right(v) => Branch::Right(v),
    }
}

/// What encoding a sum returns: the branch picks which codec encodes the
/// carried value.
pub open spec fn either_encode_model(l: CodecView, r: CodecView, b: BranchView) -> StepResult {
    match b {
        BranchView::Left(v) => encode_model(l, v),
        BranchView::Right(v) => encode_model(r, v),
    }
}

/// What decoding a sum returns: the left codec is tried first, then the
/// right one; the right codec's failure is reported.
pub open spec fn either_decode_model(l: CodecView, r: CodecView, t: TreeView) -> Result<
    BranchView,
    (ErrView, Seq<PointView>),
> {
    match decode_model(l, t) {
        Ok(x) => Ok(BranchView::Left(x)),
        Err(_) => match decode_model(r, t) {
            Ok(y) => Ok(BranchView::Right(y)),
            Err(e) => Err(e),
        },
    }
}

/// A codec for a sum of two cases: encoding branches on the case, decoding
/// tries the left codec and then the right one.
#[derive(Debug)]
pub struct EitherCodec {
    pub left: Codec,
    pub right: Codec,
}

impl EitherCodec {
    /// Encodes the carried value by the codec of its case.
    pub fn encode(&self, value: either::Either<Value, Value>) -> (r: Result<Value, Failure>)
        ensures
            res_view(r) == either_encode_model(self.left@, self.right@, either_view(value)),
    {
        match into_branch(value) {
            Branch::Left(v) => self.left.encode(&v),
            Branch::Right(v) => self.right.encode(&v),
        }
    }

    /// Decodes by the left codec, falling back to the right one; a failure
    /// of both reports the right codec's failure.
    pub fn decode(&self, value: &Value) -> (r: Result<either::Either<Value, Value>, Failure>)
        ensures
            match r {
                Ok(e) => either_decode_model(self.left@, self.right@, value@) == Ok::<
                    BranchView,
                    (ErrView, Seq<PointView>),
                >(either_view(e)),
                Err(f) => either_decode_model(self.left@, self.right@, value@) == Err::<
                    BranchView,
                    (ErrView, Seq<PointView>),
                >(f@),
            },
    {
        match self.left.decode(value) {
            Ok(v) => Ok(either_left(v)),
            Err(_) => match self.right.decode(value) {
                Ok(v) => Ok(either_right(v)),
                Err(f) => Err(f),
            },
        }
    }
}

impl crate::codec::Codecs {
    /// The codec of a two-case sum.
    pub fn either(left: Codec, right: Codec) -> (r: EitherCodec)
        ensures
            r.left@ == left@,
            r.right@ == right@,
    {
        EitherCodec { left, right }
    }
}

} // verus!
