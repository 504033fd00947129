//! The reference operation bundle over [`Value`] trees, and the map-entry
//! helpers shared by codecs and rewrite rules.

use vstd::prelude::*;

use crate::result::{DataError, DataResult, ErrView};
use crate::value::{
    distinct_keys, elems_view, entries_view, keys_of, lemma_entries_view, lookup_key, remove_key,
    set_key, str_eq, TreeView, Value,
};

verus! {

/// The view of a sequence of keyed entries: keys as `Seq<char>`, values by
/// their own views.
pub open spec fn kv_view<T: View>(s: Seq<(String, T)>) -> Seq<(Seq<char>, T::V)> {
    s.map_values(|e: (String, T)| (e.0@, e.1@))
}

/// For values, the recursive entry view and the pointwise one agree.
pub proof fn lemma_entries_kv(s: Seq<(String, Value)>)
    ensures
        entries_view(s) == kv_view(s),
{
    lemma_entries_view(s);
    assert(entries_view(s) =~= kv_view(s));
}

/// A first match at index `i` decides the lookup.
pub proof fn lemma_lookup_at<T>(es: Seq<(Seq<char>, T)>, key: Seq<char>, i: int)
    requires
        0 <= i < es.len(),
        es[i].0 == key,
        forall|j: int| 0 <= j < i ==> es[j].0 != key,
    ensures
        lookup_key(es, key) == Some(es[i].1),
    decreases i,
{
    if i > 0 {
        lemma_lookup_at(es.drop_first(), key, i - 1);
    }
}

/// With no match anywhere the lookup fails.
pub proof fn lemma_lookup_none<T>(es: Seq<(Seq<char>, T)>, key: Seq<char>)
    requires
        forall|j: int| 0 <= j < es.len() ==> es[j].0 != key,
    ensures
        lookup_key(es, key) is None,
    decreases es.len(),
{
    if es.len() > 0 {
        lemma_lookup_none(es.drop_first(), key);
    }
}

/// With a first match at index `i`, setting the key updates that entry.
pub proof fn lemma_set_key_at<T>(es: Seq<(Seq<char>, T)>, key: Seq<char>, val: T, i: int)
    requires
        0 <= i < es.len(),
        es[i].0 == key,
        forall|j: int| 0 <= j < i ==> es[j].0 != key,
    ensures
        set_key(es, key, val) == es.update(i, (key, val)),
    decreases i,
{
    if i == 0 {
        assert(set_key(es, key, val) =~= es.update(0, (key, val)));
    } else {
        lemma_set_key_at(es.drop_first(), key, val, i - 1);
        assert(seq![es[0]] + es.drop_first().update(i - 1, (key, val)) =~= es.update(
            i,
            (key, val),
        ));
    }
}

/// With no match anywhere, setting the key appends the entry.
pub proof fn lemma_set_key_absent<T>(es: Seq<(Seq<char>, T)>, key: Seq<char>, val: T)
    requires
        forall|j: int| 0 <= j < es.len() ==> es[j].0 != key,
    ensures
        set_key(es, key, val) == es.push((key, val)),
    decreases es.len(),
{
    if es.len() == 0 {
        assert(set_key(es, key, val) =~= es.push((key, val)));
    } else {
        lemma_set_key_absent(es.drop_first(), key, val);
        assert(seq![es[0]] + es.drop_first().push((key, val)) =~= es.push((key, val)));
    }
}

/// With a first match at index `i`, removing the key removes that entry.
pub proof fn lemma_remove_key_at<T>(es: Seq<(Seq<char>, T)>, key: Seq<char>, i: int)
    requires
        0 <= i < es.len(),
        es[i].0 == key,
        forall|j: int| 0 <= j < i ==> es[j].0 != key,
    ensures
        remove_key(es, key) == es.remove(i),
    decreases i,
{
    if i == 0 {
        assert(remove_key(es, key) =~= es.remove(0));
    } else {
        lemma_remove_key_at(es.drop_first(), key, i - 1);
        assert(seq![es[0]] + es.drop_first().remove(i - 1) =~= es.remove(i));
    }
}

/// With no match anywhere, removing the key changes nothing.
pub proof fn lemma_remove_key_absent<T>(es: Seq<(Seq<char>, T)>, key: Seq<char>)
    requires
        forall|j: int| 0 <= j < es.len() ==> es[j].0 != key,
    ensures
        remove_key(es, key) == es,
    decreases es.len(),
{
    if es.len() == 0 {
        assert(remove_key(es, key) =~= es);
    } else {
        lemma_remove_key_absent(es.drop_first(), key);
        assert(seq![es[0]] + es.drop_first() =~= es);
    }
}

/// A lookup that misses means removal changes nothing.
pub proof fn lemma_remove_key_none<T>(es: Seq<(Seq<char>, T)>, key: Seq<char>)
    requires
        lookup_key(es, key) is None,
    ensures
        remove_key(es, key) == es,
    decreases es.len(),
{
    if es.len() > 0 {
        lemma_remove_key_none(es.drop_first(), key);
        assert(seq![es[0]] + es.drop_first() =~= es);
    } else {
        assert(remove_key(es, key) =~= es);
    }
}

/// Setting a key makes its lookup hit and leaves other lookups alone.
pub proof fn lemma_lookup_set_key<T>(es: Seq<(Seq<char>, T)>, key: Seq<char>, val: T)
    ensures
        lookup_key(set_key(es, key, val), key) == Some(val),
        forall|k: Seq<char>| k != key ==> lookup_key(set_key(es, key, val), k) == lookup_key(
            es,
            k,
        ),
    decreases es.len(),
{
    if es.len() == 0 {
        let s2 = set_key(es, key, val);
        assert(s2 =~= seq![(key, val)]);
        assert forall|k: Seq<char>| k != key implies lookup_key(s2, k) == lookup_key(es, k) by {
            assert(s2.drop_first() =~= es);
            assert(lookup_key(s2, k) == lookup_key(s2.drop_first(), k));
        }
    } else if es[0].0 == key {
        let s2 = set_key(es, key, val);
        assert(s2 =~= seq![(key, val)] + es.drop_first());
        assert(s2.drop_first() =~= es.drop_first());
        assert forall|k: Seq<char>| k != key implies lookup_key(s2, k) == lookup_key(es, k) by {
            assert(lookup_key(s2, k) == lookup_key(s2.drop_first(), k));
            assert(lookup_key(es, k) == lookup_key(es.drop_first(), k));
        }
    } else {
        lemma_lookup_set_key(es.drop_first(), key, val);
        let s2 = set_key(es, key, val);
        assert(s2 =~= seq![es[0]] + set_key(es.drop_first(), key, val));
        assert(s2.drop_first() =~= set_key(es.drop_first(), key, val));
        assert(s2[0] == es[0]);
        assert forall|k: Seq<char>| k != key implies lookup_key(s2, k) == lookup_key(es, k) by {
            if s2[0].0 != k {
                assert(lookup_key(s2, k) == lookup_key(s2.drop_first(), k));
                assert(lookup_key(es, k) == lookup_key(es.drop_first(), k));
            }
        }
        assert(lookup_key(s2, key) == lookup_key(s2.drop_first(), key));
    }
}

/// A lookup hits exactly when the keys contain the key.
pub proof fn lemma_lookup_in_keys<T>(es: Seq<(Seq<char>, T)>, key: Seq<char>)
    ensures
        (lookup_key(es, key) is Some) == keys_of(es).contains(key),
    decreases es.len(),
{
    if es.len() > 0 {
        lemma_lookup_in_keys(es.drop_first(), key);
        assert(keys_of(es)[0] == es[0].0);
        assert(keys_of(es.drop_first()) =~= keys_of(es).drop_first());
        if es[0].0 != key {
            assert(keys_of(es).contains(key) == keys_of(es).drop_first().contains(key)) by {
                if keys_of(es).contains(key) {
                    let i = choose|i: int|
                        0 <= i < keys_of(es).len() && keys_of(es)[i] == key;
                    assert(keys_of(es).drop_first()[i - 1] == key);
                }
                if keys_of(es).drop_first().contains(key) {
                    let i = choose|i: int|
                        0 <= i < keys_of(es).drop_first().len() && keys_of(es).drop_first()[i]
                            == key;
                    assert(keys_of(es)[i + 1] == key);
                }
            }
        } else {
            assert(keys_of(es).contains(key)) by {
                assert(keys_of(es)[0] == key);
            }
        }
    } else {
        assert(keys_of(es).len() == 0);
    }
}

/// A lookup that misses means no entry bears the key.
pub proof fn lemma_lookup_none_all<T>(es: Seq<(Seq<char>, T)>, key: Seq<char>)
    requires
        lookup_key(es, key) is None,
    ensures
        forall|k: int| 0 <= k < es.len() ==> es[k].0 != key,
    decreases es.len(),
{
    if es.len() > 0 {
        lemma_lookup_none_all(es.drop_first(), key);
        assert forall|k: int| 0 <= k < es.len() implies es[k].0 != key by {
            if k > 0 {
                assert(es.drop_first()[k - 1] == es[k]);
            }
        }
    }
}

/// Looks a key up among keyed entries, returning the first match.
#[verifier::loop_isolation(false)]
pub fn kv_get<'a, T: View>(es: &'a Vec<(String, T)>, key: &str) -> (r: Option<&'a T>)
    ensures
        match lookup_key(kv_view(es@), key@) {
            Some(t) => r matches Some(v) && v@ == t,
            None => r is None,
        },
{
    let ghost vw = kv_view(es@);
    let mut i: usize = 0;
    while i < es.len()
        invariant
            i <= es.len(),
            forall|j: int| 0 <= j < i ==> vw[j].0 != key@,
        decreases es.len() - i,
    {
        if str_eq(es[i].0.as_str(), key) {
            proof {
                lemma_lookup_at(vw, key@, i as int);
            }
            return Some(&es[i].1);
        }
        i = i + 1;
    }
    proof {
        lemma_lookup_none(vw, key@);
    }
    None
}

/// Whether some keyed entry bears the key.
#[verifier::loop_isolation(false)]
pub fn kv_has_key<T: View>(es: &Vec<(String, T)>, key: &str) -> (r: bool)
    ensures
        r == (lookup_key(kv_view(es@), key@) is Some),
{
    let got = kv_get(es, key);
    got.is_some()
}

/// Sets a key among keyed entries: the first match is replaced, and an absent
/// key is appended.
#[verifier::loop_isolation(false)]
pub fn kv_set<T: View>(es: &mut Vec<(String, T)>, key: &str, val: T)
    ensures
        kv_view(final (es)@) == set_key(kv_view(old(es)@), key@, val@),
{
    let ghost vw = kv_view(old(es)@);
    let mut i: usize = 0;
    while i < es.len()
        invariant
            i <= es.len(),
            es@ == old(es)@,
            forall|j: int| 0 <= j < i ==> vw[j].0 != key@,
        decreases es.len() - i,
    {
        if str_eq(es[i].0.as_str(), key) {
            proof {
                lemma_set_key_at(vw, key@, val@, i as int);
            }
            es[i] = (key.to_owned(), val);
            proof {
                assert(kv_view(es@) =~= vw.update(i as int, (key@, val@)));
            }
            return ;
        }
        i = i + 1;
    }
    proof {
        lemma_set_key_absent(vw, key@, val@);
    }
    es.push((key.to_owned(), val));
    proof {
        assert(kv_view(es@) =~= vw.push((key@, val@)));
    }
}

/// Removes the first entry bearing the key, returning its value.
#[verifier::loop_isolation(false)]
pub fn kv_remove<T: View>(es: &mut Vec<(String, T)>, key: &str) -> (r: Option<T>)
    ensures
        kv_view(final (es)@) == remove_key(kv_view(old(es)@), key@),
        match lookup_key(kv_view(old(es)@), key@) {
            Some(t) => r matches Some(v) && v@ == t,
            None => r is None,
        },
{
    let ghost vw = kv_view(old(es)@);
    let mut i: usize = 0;
    while i < es.len()
        invariant
            i <= es.len(),
            es@ == old(es)@,
            forall|j: int| 0 <= j < i ==> vw[j].0 != key@,
        decreases es.len() - i,
    {
        if str_eq(es[i].0.as_str(), key) {
            proof {
                lemma_lookup_at(vw, key@, i as int);
                lemma_remove_key_at(vw, key@, i as int);
            }
            let e = es.remove(i);
            proof {
                assert(kv_view(es@) =~= vw.remove(i as int));
            }
            return Some(e.1);
        }
        i = i + 1;
    }
    proof {
        lemma_lookup_none(vw, key@);
        lemma_remove_key_absent(vw, key@);
    }
    None
}

/// The operation bundle of the reference in-memory representation: it
/// constructs and inspects [`Value`] trees directly.
#[derive(Debug, Clone, Copy)]
pub struct DynamicOps;

impl DynamicOps {
    /// Wraps a byte.
    pub fn create_byte(&self, value: i8) -> (r: Value)
        ensures
            r@ == TreeView::Byte(value),
    {
        Value::Byte(value)
    }

    /// Wraps a short.
    pub fn create_short(&self, value: i16) -> (r: Value)
        ensures
            r@ == TreeView::Short(value),
    {
        Value::Short(value)
    }

    /// Wraps an int.
    pub fn create_int(&self, value: i32) -> (r: Value)
        ensures
            r@ == TreeView::Int(value),
    {
        Value::Int(value)
    }

    /// Wraps a long.
    pub fn create_long(&self, value: i64) -> (r: Value)
        ensures
            r@ == TreeView::Long(value),
    {
        Value::Long(value)
    }

    /// Wraps a string.
    pub fn create_string(&self, value: &str) -> (r: Value)
        ensures
            r@ == TreeView::Str(value@),
    {
        Value::Str(value.to_owned())
    }

    /// Wraps a boolean.
    pub fn create_boolean(&self, value: bool) -> (r: Value)
        ensures
            r@ == TreeView::Bool(value),
    {
        Value::Bool(value)
    }

    /// Wraps a list of values.
    pub fn create_list(&self, items: Vec<Value>) -> (r: Value)
        ensures
            r@ == TreeView::List(elems_view(items@)),
    {
        Value::List(items)
    }

    /// Wraps keyed entries as a map.  Duplicate keys are forbidden on
    /// construction.
    pub fn create_map(&self, pairs: Vec<(String, Value)>) -> (r: Value)
        requires
            distinct_keys(entries_view(pairs@)),
        ensures
            r@ == TreeView::Object(entries_view(pairs@)),
    {
        Value::Object(pairs)
    }

    /// The unit value.
    pub fn create_unit(&self) -> (r: Value)
        ensures
            r@ == TreeView::Unit,
    {
        Value::Unit
    }

    /// Reads a byte back, or fails with the expected shape.
    pub fn get_byte(&self, value: &Value) -> (r: DataResult<i8>)
        ensures
            match r {
                Ok(x) => value@ == TreeView::Byte(x),
                Err(e) => !(value@ is Byte) && e@ == (ErrView::UnexpectedType {
                    expected: "byte"@,
                }),
            },
    {
        match value {
            Value::Byte(x) => Ok(*x),
            _ => Err(DataError::unexpected_type("byte")),
        }
    }

    /// Reads a short back, or fails with the expected shape.
    pub fn get_short(&self, value: &Value) -> (r: DataResult<i16>)
        ensures
            match r {
                Ok(x) => value@ == TreeView::Short(x),
                Err(e) => !(value@ is Short) && e@ == (ErrView::UnexpectedType {
                    expected: "short"@,
                }),
            },
    {
        match value {
            Value::Short(x) => Ok(*x),
            _ => Err(DataError::unexpected_type("short")),
        }
    }

    /// Reads an int back, or fails with the expected shape.
    pub fn get_int(&self, value: &Value) -> (r: DataResult<i32>)
        ensures
            match r {
                Ok(x) => value@ == TreeView::Int(x),
                Err(e) => !(value@ is Int) && e@ == (ErrView::UnexpectedType {
                    expected: "int"@,
                }),
            },
    {
        match value {
            Value::Int(x) => Ok(*x),
            _ => Err(DataError::unexpected_type("int")),
        }
    }

    /// Reads a long back, or fails with the expected shape.
    pub fn get_long(&self, value: &Value) -> (r: DataResult<i64>)
        ensures
            match r {
                Ok(x) => value@ == TreeView::Long(x),
                Err(e) => !(value@ is Long) && e@ == (ErrView::UnexpectedType {
                    expected: "long"@,
                }),
            },
    {
        match value {
            Value::Long(x) => Ok(*x),
            _ => Err(DataError::unexpected_type("long")),
        }
    }

    /// Reads a string back, or fails with the expected shape.
    pub fn get_string(&self, value: &Value) -> (r: DataResult<String>)
        ensures
            match r {
                Ok(x) => value@ == TreeView::Str(x@),
                Err(e) => !(value@ is Str) && e@ == (ErrView::UnexpectedType {
                    expected: "string"@,
                }),
            },
    {
        match value {
            Value::Str(x) => Ok(x.clone()),
            _ => Err(DataError::unexpected_type("string")),
        }
    }

    /// Reads a boolean back, or fails with the expected shape.
    pub fn get_boolean(&self, value: &Value) -> (r: DataResult<bool>)
        ensures
            match r {
                Ok(x) => value@ == TreeView::Bool(x),
                Err(e) => !(value@ is Bool) && e@ == (ErrView::UnexpectedType {
                    expected: "boolean"@,
                }),
            },
    {
        match value {
            Value::Bool(x) => Ok(*x),
            _ => Err(DataError::unexpected_type("boolean")),
        }
    }

    /// Borrows the elements of a list, or fails with the expected shape.
    pub fn get_list<'a>(&self, value: &'a Value) -> (r: DataResult<&'a Vec<Value>>)
        ensures
            match r {
                Ok(l) => value@ == TreeView::List(elems_view(l@)),
                Err(e) => !(value@ is List) && e@ == (ErrView::UnexpectedType {
                    expected: "list"@,
                }),
            },
    {
        match value {
            Value::List(l) => Ok(l),
            _ => Err(DataError::unexpected_type("list")),
        }
    }

    /// Borrows the entries of a map, or fails with the expected shape.
    pub fn get_map<'a>(&self, value: &'a Value) -> (r: DataResult<&'a Vec<(String, Value)>>)
        ensures
            match r {
                Ok(es) => value@ == TreeView::Object(entries_view(es@)),
                Err(e) => !(value@ is Object) && e@ == (ErrView::UnexpectedType {
                    expected: "object"@,
                }),
            },
    {
        match value {
            Value::Object(es) => Ok(es),
            _ => Err(DataError::unexpected_type("object")),
        }
    }

    /// Accepts the unit value, or fails with the expected shape.
    pub fn get_unit(&self, value: &Value) -> (r: DataResult<()>)
        ensures
            match r {
                Ok(_) => value@ == TreeView::Unit,
                Err(e) => !(value@ is Unit) && e@ == (ErrView::UnexpectedType {
                    expected: "unit"@,
                }),
            },
    {
        match value {
            Value::Unit => Ok(()),
            _ => Err(DataError::unexpected_type("unit")),
        }
    }
}

} // verus!
