//! Type descriptors: the tagged description of schema shapes that rewrite
//! rules and schemas operate on.

use vstd::prelude::*;

use crate::ops::{kv_get, kv_set, kv_view};
use crate::result::{DataError, DataResult, ErrView};
use crate::value::{lookup_key, set_key, str_eq};

verus! {

broadcast use vstd::std_specs::vec::group_vec_axioms;

/// Spec-level mirror of [`Type`].
pub enum TypeView {
    Byte,
    Short,
    Int,
    Long,
    Float,
    Double,
    Str,
    Bool,
    Unit,
    Array(Box<TypeView>),
    Object(Seq<(Seq<char>, TypeView)>),
}

/// A tagged description of a schema shape: a scalar kind, an array of a
/// shape, or an object mapping field names to shapes.
#[derive(Debug, PartialEq)]
pub enum Type {
    Byte,
    Short,
    Int,
    Long,
    Float,
    Double,
    Str,
    Bool,
    Unit,
    Array(ArrayType),
    Object(ObjectType),
}

/// The element shape of an array type.
#[derive(Debug, PartialEq)]
pub struct ArrayType {
    pub ty: Box<Type>,
}

/// The named fields of an object type, in insertion order with unique keys.
#[derive(Debug, PartialEq)]
pub struct ObjectType {
    pub fields: Vec<(String, Type)>,
}

/// The model of a type descriptor.
pub open spec fn type_view(t: Type) -> TypeView
    decreases t,
{
    match t {
        Type::Byte => TypeView::Byte,
        Type::Short => TypeView::Short,
        Type::Int => TypeView::Int,
        Type::Long => TypeView::Long,
        Type::Float => TypeView::Float,
        Type::Double => TypeView::Double,
        Type::Str => TypeView::Str,
        Type::Bool => TypeView::Bool,
        Type::Unit => TypeView::Unit,
        Type::Array(a) => TypeView::Array(Box::new(type_view(*a.ty))),
        Type::Object(o) => TypeView::Object(tfields_view(o.fields@)),
    }
}

/// The model of a sequence of object-type fields.
pub open spec fn tfields_view(s: Seq<(String, Type)>) -> Seq<(Seq<char>, TypeView)>
    decreases s,
{
    if s.len() == 0 {
        Seq::empty()
    } else {
        seq![(s[0].0@, type_view(s[0].1))] + tfields_view(s.drop_first())
    }
}

impl View for Type {
    type V = TypeView;

    open spec fn view(&self) -> TypeView {
        type_view(*self)
    }
}

impl View for ArrayType {
    type V = TypeView;

    open spec fn view(&self) -> TypeView {
        type_view(*self.ty)
    }
}

impl View for ObjectType {
    type V = Seq<(Seq<char>, TypeView)>;

    open spec fn view(&self) -> Seq<(Seq<char>, TypeView)> {
        tfields_view(self.fields@)
    }
}

/// `tfields_view` maps key and type views pointwise over the fields.
pub proof fn lemma_tfields_view(s: Seq<(String, Type)>)
    ensures
        tfields_view(s).len() == s.len(),
        forall|i: int| 0 <= i < s.len() ==> tfields_view(s)[i] == (s[i].0@, type_view(s[i].1)),
    decreases s.len(),
{
    if s.len() > 0 {
        lemma_tfields_view(s.drop_first());
    }
}

/// For types, the recursive field view and the pointwise one agree.
pub proof fn lemma_tfields_kv(s: Seq<(String, Type)>)
    ensures
        tfields_view(s) == kv_view(s),
{
    lemma_tfields_view(s);
    assert(tfields_view(s) =~= kv_view(s));
}

impl Type {
    /// Structurally copies a type descriptor.
    #[verifier::loop_isolation(false)]
    pub fn duplicate(&self) -> (r: Type)
        ensures
            r@ == self@,
        decreases self,
    {
        match self {
            Type::Byte => Type::Byte,
            Type::Short => Type::Short,
            Type::Int => Type::Int,
            Type::Long => Type::Long,
            Type::Float => Type::Float,
            Type::Double => Type::Double,
            Type::Str => Type::Str,
            Type::Bool => Type::Bool,
            Type::Unit => Type::Unit,
            Type::Array(a) => Type::Array(ArrayType { ty: Box::new(a.ty.duplicate()) }),
            Type::Object(o) => {
                let mut out: Vec<(String, Type)> = Vec::new();
                let mut i: usize = 0;
                while i < o.fields.len()
                    invariant
                        i <= o.fields.len(),
                        out@.len() == i,
                        forall|j: int| 0 <= j < i ==> out@[j].0@ == o.fields@[j].0@ && out@[j].1@
                            == o.fields@[j].1@,
                    decreases o.fields.len() - i,
                {
                    let key = o.fields[i].0.clone();
                    let val = o.fields[i].1.duplicate();
                    out.push((key, val));
                    i = i + 1;
                }
                proof {
                    lemma_tfields_view(out@);
                    lemma_tfields_view(o.fields@);
                    assert(tfields_view(out@) =~= tfields_view(o.fields@));
                }
                Type::Object(ObjectType { fields: out })
            },
        }
    }

    /// Compares two type descriptors by their models.
    #[verifier::loop_isolation(false)]
    pub fn same_as(&self, other: &Type) -> (r: bool)
        ensures
            r == (self@ == other@),
        decreases self,
    {
        match (self, other) {
            (Type::Byte, Type::Byte) => true,
            (Type::Short, Type::Short) => true,
            (Type::Int, Type::Int) => true,
            (Type::Long, Type::Long) => true,
            (Type::Float, Type::Float) => true,
            (Type::Double, Type::Double) => true,
            (Type::Str, Type::Str) => true,
            (Type::Bool, Type::Bool) => true,
            (Type::Unit, Type::Unit) => true,
            (Type::Array(a), Type::Array(b)) => a.ty.same_as(&b.ty),
            (Type::Object(a), Type::Object(b)) => {
                proof {
                    lemma_tfields_view(a.fields@);
                    lemma_tfields_view(b.fields@);
                }
                if a.fields.len() != b.fields.len() {
                    return false;
                }
                let mut i: usize = 0;
                while i < a.fields.len()
                    invariant
                        i <= a.fields.len(),
                        a.fields@.len() == b.fields@.len(),
                        forall|j: int| 0 <= j < i ==> a.fields@[j].0@ == b.fields@[j].0@
                            && a.fields@[j].1@ == b.fields@[j].1@,
                    decreases a.fields.len() - i,
                {
                    if !str_eq(a.fields[i].0.as_str(), b.fields[i].0.as_str()) {
                        proof {
                            assert(tfields_view(a.fields@)[i as int].0 != tfields_view(
                                b.fields@,
                            )[i as int].0);
                        }
                        return false;
                    }
                    if !a.fields[i].1.same_as(&b.fields[i].1) {
                        proof {
                            assert(tfields_view(a.fields@)[i as int].1 != tfields_view(
                                b.fields@,
                            )[i as int].1);
                        }
                        return false;
                    }
                    i = i + 1;
                }
                proof {
                    assert(tfields_view(a.fields@) =~= tfields_view(b.fields@));
                }
                true
            },
            _ => {
                proof {
                    assert(self@ != other@);
                }
                false
            },
        }
    }
}

impl ArrayType {
    /// Wraps an element shape as an array type.
    pub fn new(ty: Type) -> (r: ArrayType)
        ensures
            r@ == ty@,
    {
        ArrayType { ty: Box::new(ty) }
    }

    /// The element shape.
    pub fn ty(&self) -> (r: &Type)
        ensures
            r@ == self@,
    {
        &self.ty
    }
}

impl ObjectType {
    /// An object type with no fields.
    pub fn new() -> (r: ObjectType)
        ensures
            r@ == Seq::<(Seq<char>, TypeView)>::empty(),
    {
        let r = ObjectType { fields: Vec::new() };
        proof {
            assert(r@ =~= Seq::<(Seq<char>, TypeView)>::empty());
        }
        r
    }

    /// The shape of a field, or a `KeyNotFoundInMap` error.
    pub fn get(&self, field: &str) -> (r: DataResult<Type>)
        ensures
            match r {
                Ok(t) => lookup_key(self@, field@) == Some(t@),
                Err(e) => !has_field(self@, field@) && e@ == (ErrView::KeyNotFoundInMap {
                    key: field@,
                }),
            },
    {
        proof {
            lemma_tfields_kv(self.fields@);
        }
        match kv_get(&self.fields, field) {
            Some(t) => Ok(t.duplicate()),
            None => Err(DataError::key_not_found(field)),
        }
    }

    /// Adds or replaces a field, returning the object type.
    pub fn field(self, field: &str, ty: Type) -> (r: ObjectType)
        ensures
            r@ == set_key(self@, field@, ty@),
    {
        let mut s = self;
        s.insert(field, ty);
        s
    }

    /// Adds or replaces a field in place.
    pub fn insert(&mut self, field: &str, ty: Type)
        ensures
            final(self)@ == set_key(old(self)@, field@, ty@),
    {
        proof {
            lemma_tfields_kv(self.fields@);
        }
        kv_set(&mut self.fields, field, ty);
        proof {
            lemma_tfields_kv(self.fields@);
        }
    }

    /// Removes a field, returning its shape if it was present.
    pub fn remove(&mut self, field: &str) -> (r: DataResult<Type>)
        ensures
            final(self)@ == crate::value::remove_key(old(self)@, field@),
            match r {
                Ok(t) => lookup_key(old(self)@, field@) == Some(t@),
                Err(e) => !has_field(old(self)@, field@) && e@ == (ErrView::KeyNotFoundInMap {
                    key: field@,
                }),
            },
    {
        proof {
            lemma_tfields_kv(self.fields@);
        }
        let r = crate::ops::kv_remove(&mut self.fields, field);
        proof {
            lemma_tfields_kv(self.fields@);
        }
        match r {
            Some(t) => Ok(t),
            None => Err(DataError::key_not_found(field)),
        }
    }

    /// The field entries, in order.
    pub fn entries(&self) -> (r: &Vec<(String, Type)>)
        ensures
            tfields_view(r@) == self@,
    {
        &self.fields
    }
}

/// Whether an object type has a field of the name.
pub open spec fn has_field(fields: Seq<(Seq<char>, TypeView)>, name: Seq<char>) -> bool {
    lookup_key(fields, name) is Some
}

impl Default for ObjectType {
    fn default() -> (r: Self)
        ensures
            r@ == Seq::<(Seq<char>, TypeView)>::empty(),
    {
        ObjectType::new()
    }
}

} // verus!
