//! A union of a data tree and a type descriptor, letting one piece of
//! schema-evolution logic speak about both channels at once.

use vstd::prelude::*;

use crate::ops::{kv_remove, kv_set, lemma_entries_kv, DynamicOps};
use crate::result::{DataError, DataResult};
use crate::types::{lemma_tfields_kv, Type, TypeView};
use crate::value::{lookup_key, set_key, TreeView, Value};

verus! {

/// Spec-level mirror of [`TyVal`].
pub enum TyValView {
    Value(TreeView),
    Type(TypeView),
}

/// Either a data tree bound to its operation bundle, or a type descriptor.
#[derive(Debug)]
pub enum TyVal {
    Value(Value, DynamicOps),
    Type(Type),
}

impl View for TyVal {
    type V = TyValView;

    open spec fn view(&self) -> TyValView {
        match self {
            TyVal::Value(v, _) => TyValView::Value(v@),
            TyVal::Type(t) => TyValView::Type(t@),
        }
    }
}

/// What taking a field leaves behind is not needed; what it returns is the
/// field's own tree or shape, on both channels.
pub open spec fn taken(tv: TyValView, field: Seq<char>) -> Option<TyValView> {
    match tv {
        TyValView::Value(v) => match v {
            TreeView::Object(es) => match lookup_key(es, field) {
                Some(x) => Some(TyValView::Value(x)),
                None => None,
            },
            _ => None,
        },
        TyValView::Type(t) => match t {
            TypeView::Object(fs) => match lookup_key(fs, field) {
                Some(x) => Some(TyValView::Type(x)),
                None => None,
            },
            _ => None,
        },
    }
}

/// What inserting under a field produces: maps and object types gain the
/// entry when the inserted side matches their channel; everything else
/// passes through.
pub open spec fn with_field(tv: TyValView, field: Seq<char>, ins: TyValView) -> TyValView {
    match tv {
        TyValView::Value(v) => match (v, ins) {
            (TreeView::Object(es), TyValView::Value(x)) => TyValView::Value(
                TreeView::Object(set_key(es, field, x)),
            ),
            _ => tv,
        },
        TyValView::Type(t) => match (t, ins) {
            (TypeView::Object(fs), TyValView::Type(x)) => TyValView::Type(
                TypeView::Object(set_key(fs, field, x)),
            ),
            _ => tv,
        },
    }
}

impl TyVal {
    /// Takes a field out of a map or an object type, whichever channel this
    /// union carries.
    pub fn take(self, field: &str) -> (r: DataResult<TyVal>)
        ensures
            match r {
                Ok(out) => taken(self@, field@) == Some(out@),
                Err(_) => taken(self@, field@) is None,
            },
    {
        match self {
            TyVal::Value(value, ops) => match value {
                Value::Object(mut es) => {
                    proof {
                        lemma_entries_kv(es@);
                    }
                    match kv_remove(&mut es, field) {
                        Some(x) => Ok(TyVal::Value(x, ops)),
                        None => Err(DataError::key_not_found(field)),
                    }
                },
                _ => Err(DataError::unexpected_type("object")),
            },
            TyVal::Type(ty) => match ty {
                Type::Object(mut o) => {
                    proof {
                        lemma_tfields_kv(o.fields@);
                    }
                    match kv_remove(&mut o.fields, field) {
                        Some(x) => Ok(TyVal::Type(x)),
                        None => Err(DataError::key_not_found(field)),
                    }
                },
                _ => Err(DataError::unexpected_type("object")),
            },
        }
    }

    /// The carried data tree, or an error on the type channel.
    pub fn value(self) -> (r: DataResult<Value>)
        ensures
            match r {
                Ok(v) => self@ == TyValView::Value(v@),
                Err(_) => !(self@ is Value),
            },
    {
        match self {
            TyVal::Value(value, _) => Ok(value),
            TyVal::Type(_) => Err(DataError::new_custom("not a value")),
        }
    }

    /// The carried type descriptor, or an error on the data channel.
    pub fn ty(self) -> (r: DataResult<Type>)
        ensures
            match r {
                Ok(t) => self@ == TyValView::Type(t@),
                Err(_) => !(self@ is Type),
            },
    {
        match self {
            TyVal::Value(..) => Err(DataError::new_custom("not a type")),
            TyVal::Type(ty) => Ok(ty),
        }
    }

    /// Inserts under a field on whichever channel this union carries,
    /// passing mismatched shapes through unchanged.
    pub fn with(self, field: &str, insert_value: TyVal) -> (r: TyVal)
        ensures
            r@ == with_field(self@, field@, insert_value@),
    {
        match self {
            TyVal::Value(value, ops) => match (value, insert_value) {
                (Value::Object(mut es), TyVal::Value(x, _)) => {
                    proof {
                        lemma_entries_kv(es@);
                    }
                    kv_set(&mut es, field, x);
                    proof {
                        lemma_entries_kv(es@);
                    }
                    TyVal::Value(Value::Object(es), ops)
                },
                (other, _) => TyVal::Value(other, ops),
            },
            TyVal::Type(ty) => match (ty, insert_value) {
                (Type::Object(mut o), TyVal::Type(x)) => {
                    proof {
                        lemma_tfields_kv(o.fields@);
                    }
                    kv_set(&mut o.fields, field, x);
                    proof {
                        lemma_tfields_kv(o.fields@);
                    }
                    TyVal::Type(Type::Object(o))
                },
                (other, _) => TyVal::Type(other),
            },
        }
    }
}

} // verus!
