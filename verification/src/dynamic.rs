//! A convenience handle pairing a tree value with its operation bundle,
//! used by rule callbacks and application code.

use vstd::prelude::*;

use crate::ops::{kv_get, kv_set, lemma_entries_kv, DynamicOps};
use crate::result::{DataError, DataResult};
use crate::value::{entries_view, lookup_key, set_key, TreeView, Value};

verus! {

/// A tree value bound to the operation bundle that reads and builds it.
#[derive(Debug)]
pub struct Dynamic {
    value: Value,
    ops: DynamicOps,
}

impl View for Dynamic {
    type V = TreeView;

    closed spec fn view(&self) -> TreeView {
        self.value@
    }
}

impl Dynamic {
    /// Binds a value to its operation bundle.
    pub fn new(value: Value, ops: DynamicOps) -> (r: Dynamic)
        ensures
            r@ == value@,
    {
        Dynamic { value, ops }
    }

    /// The operation bundle.
    pub fn ops(&self) -> (r: DynamicOps)
    {
        self.ops
    }

    /// Borrows the held value.
    pub fn value(&self) -> (r: &Value)
        ensures
            r@ == self@,
    {
        &self.value
    }

    /// Unwraps the held value.
    pub fn into_inner(self) -> (r: Value)
        ensures
            r@ == self@,
    {
        self.value
    }

    /// Reads the value as a byte.
    pub fn get_byte(&self) -> (r: DataResult<i8>)
        ensures
            match r {
                Ok(x) => self@ == TreeView::Byte(x),
                Err(_) => !(self@ is Byte),
            },
    {
        self.ops.get_byte(&self.value)
    }

    /// Reads the value as a short.
    pub fn get_short(&self) -> (r: DataResult<i16>)
        ensures
            match r {
                Ok(x) => self@ == TreeView::Short(x),
                Err(_) => !(self@ is Short),
            },
    {
        self.ops.get_short(&self.value)
    }

    /// Reads the value as an int.
    pub fn as_int(&self) -> (r: DataResult<i32>)
        ensures
            match r {
                Ok(x) => self@ == TreeView::Int(x),
                Err(_) => !(self@ is Int),
            },
    {
        self.ops.get_int(&self.value)
    }

    /// Reads the value as a long.
    pub fn as_long(&self) -> (r: DataResult<i64>)
        ensures
            match r {
                Ok(x) => self@ == TreeView::Long(x),
                Err(_) => !(self@ is Long),
            },
    {
        self.ops.get_long(&self.value)
    }

    /// Reads the value as a string.
    pub fn as_string(&self) -> (r: DataResult<String>)
        ensures
            match r {
                Ok(x) => self@ == TreeView::Str(x@),
                Err(_) => !(self@ is Str),
            },
    {
        self.ops.get_string(&self.value)
    }

    /// Reads the value as a boolean.
    pub fn as_boolean(&self) -> (r: DataResult<bool>)
        ensures
            match r {
                Ok(x) => self@ == TreeView::Bool(x),
                Err(_) => !(self@ is Bool),
            },
    {
        self.ops.get_boolean(&self.value)
    }

    /// Accepts the unit value.
    pub fn as_unit(&self) -> (r: DataResult<()>)
        ensures
            r is Ok == (self@ is Unit),
    {
        self.ops.get_unit(&self.value)
    }

    /// Borrows the value's map entries.
    pub fn as_object(&self) -> (r: DataResult<&Vec<(String, Value)>>)
        ensures
            match r {
                Ok(es) => self@ == TreeView::Object(entries_view(es@)),
                Err(_) => !(self@ is Object),
            },
    {
        self.ops.get_map(&self.value)
    }

    /// Borrows the value's list elements.
    pub fn as_list(&self) -> (r: DataResult<&Vec<Value>>)
        ensures
            match r {
                Ok(l) => self@ == TreeView::List(crate::value::elems_view(l@)),
                Err(_) => !(self@ is List),
            },
    {
        self.ops.get_list(&self.value)
    }

    /// Wraps a byte with the same bundle.
    pub fn create_byte(&self, value: i8) -> (r: Dynamic)
        ensures
            r@ == TreeView::Byte(value),
    {
        Dynamic { value: self.ops.create_byte(value), ops: self.ops }
    }

    /// Wraps a short with the same bundle.
    pub fn create_short(&self, value: i16) -> (r: Dynamic)
        ensures
            r@ == TreeView::Short(value),
    {
        Dynamic { value: self.ops.create_short(value), ops: self.ops }
    }

    /// Wraps an int with the same bundle.
    pub fn create_int(&self, value: i32) -> (r: Dynamic)
        ensures
            r@ == TreeView::Int(value),
    {
        Dynamic { value: self.ops.create_int(value), ops: self.ops }
    }

    /// Wraps a long with the same bundle.
    pub fn create_long(&self, value: i64) -> (r: Dynamic)
        ensures
            r@ == TreeView::Long(value),
    {
        Dynamic { value: self.ops.create_long(value), ops: self.ops }
    }

    /// Reads a map field, copying its value out.
    pub fn get_field(&self, key: &str) -> (r: DataResult<Dynamic>)
        ensures
            match r {
                Ok(d) => self@ matches TreeView::Object(es) && lookup_key(es, key@) == Some(d@),
                Err(_) => !(self@ is Object) || (self@ matches TreeView::Object(es) && lookup_key(
                    es,
                    key@,
                ) is None),
            },
    {
        match self.ops.get_map(&self.value) {
            Ok(es) => {
                proof {
                    lemma_entries_kv(es@);
                }
                match kv_get(es, key) {
                    Some(v) => Ok(Dynamic { value: v.duplicate(), ops: self.ops }),
                    None => Err(DataError::key_not_found(key)),
                }
            },
            Err(e) => Err(e),
        }
    }

    /// Sets a map field in place; fails on a target that is not a map.
    pub fn insert_field(&mut self, field: &str, value: Value) -> (r: DataResult<()>)
        ensures
            match r {
                Ok(_) => old(self)@ matches TreeView::Object(es) && final(self)@
                    == TreeView::Object(set_key(es, field@, value@)),
                Err(_) => !(old(self)@ is Object) && final(self)@ == old(self)@,
            },
    {
        match &mut self.value {
            Value::Object(es) => {
                proof {
                    lemma_entries_kv(es@);
                }
                kv_set(es, field, value);
                proof {
                    lemma_entries_kv(es@);
                }
                Ok(())
            },
            _ => Err(DataError::unexpected_type("object")),
        }
    }
}

} // verus!
