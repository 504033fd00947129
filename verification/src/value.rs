//! The tree of data values that codecs produce and consume, with its
//! mathematical model.

use vstd::prelude::*;

verus! {

broadcast use vstd::std_specs::vec::group_vec_axioms;

/// Spec-level mirror of [`Value`]: strings as `Seq<char>`, lists and maps as
/// `Seq`.  Map entries keep their insertion order; well-formed maps have
/// distinct keys.
pub enum TreeView {
    Byte(i8),
    Short(i16),
    Int(i32),
    Long(i64),
    Bool(bool),
    Str(Seq<char>),
    Unit,
    List(Seq<TreeView>),
    Object(Seq<(Seq<char>, TreeView)>),
}

/// A tree-shaped data value: scalars, lists of values, and maps from string
/// keys to values (insertion-ordered, keys unique by construction).
#[derive(Debug, PartialEq)]
pub enum Value {
    Byte(i8),
    Short(i16),
    Int(i32),
    Long(i64),
    Bool(bool),
    Str(String),
    Unit,
    List(Vec<Value>),
    Object(Vec<(String, Value)>),
}

/// The model of a value.
pub open spec fn tree_view(v: Value) -> TreeView
    decreases v,
{
    match v {
        Value::Byte(x) => TreeView::Byte(x),
        Value::Short(x) => TreeView::Short(x),
        Value::Int(x) => TreeView::Int(x),
        Value::Long(x) => TreeView::Long(x),
        Value::Bool(x) => TreeView::Bool(x),
        Value::Str(x) => TreeView::Str(x@),
        Value::Unit => TreeView::Unit,
        Value::List(l) => TreeView::List(elems_view(l@)),
        Value::Object(es) => TreeView::Object(entries_view(es@)),
    }
}

/// The model of a sequence of values.
pub open spec fn elems_view(s: Seq<Value>) -> Seq<TreeView>
    decreases s,
{
    if s.len() == 0 {
        Seq::empty()
    } else {
        seq![tree_view(s[0])] + elems_view(s.drop_first())
    }
}

/// The model of a sequence of map entries.
pub open spec fn entries_view(s: Seq<(String, Value)>) -> Seq<(Seq<char>, TreeView)>
    decreases s,
{
    if s.len() == 0 {
        Seq::empty()
    } else {
        seq![(s[0].0@, tree_view(s[0].1))] + entries_view(s.drop_first())
    }
}

impl View for Value {
    type V = TreeView;

    open spec fn view(&self) -> TreeView {
        tree_view(*self)
    }
}

/// `elems_view` maps the view pointwise over the sequence.
pub proof fn lemma_elems_view(s: Seq<Value>)
    ensures
        elems_view(s).len() == s.len(),
        forall|i: int| 0 <= i < s.len() ==> elems_view(s)[i] == tree_view(s[i]),
    decreases s.len(),
{
    if s.len() > 0 {
        lemma_elems_view(s.drop_first());
    }
}

/// `entries_view` maps key and value views pointwise over the entries.
pub proof fn lemma_entries_view(s: Seq<(String, Value)>)
    ensures
        entries_view(s).len() == s.len(),
        forall|i: int| 0 <= i < s.len() ==> entries_view(s)[i] == (s[i].0@, tree_view(s[i].1)),
    decreases s.len(),
{
    if s.len() > 0 {
        lemma_entries_view(s.drop_first());
    }
}

/// The value of the first entry bearing the key, if any.
pub open spec fn lookup_key<T>(es: Seq<(Seq<char>, T)>, key: Seq<char>) -> Option<T>
    decreases es.len(),
{
    if es.len() == 0 {
        None
    } else if es[0].0 == key {
        Some(es[0].1)
    } else {
        lookup_key(es.drop_first(), key)
    }
}

/// Whether some entry bears the key.
pub open spec fn has_key<T>(es: Seq<(Seq<char>, T)>, key: Seq<char>) -> bool {
    lookup_key(es, key) is Some
}

/// The entries with the first entry bearing the key replaced by `val`, or with
/// `(key, val)` appended when the key is absent.
pub open spec fn set_key<T>(es: Seq<(Seq<char>, T)>, key: Seq<char>, val: T) -> Seq<
    (Seq<char>, T),
>
    decreases es.len(),
{
    if es.len() == 0 {
        seq![(key, val)]
    } else if es[0].0 == key {
        seq![(key, val)] + es.drop_first()
    } else {
        seq![es[0]] + set_key(es.drop_first(), key, val)
    }
}

/// The entries with the first entry bearing the key removed.
pub open spec fn remove_key<T>(es: Seq<(Seq<char>, T)>, key: Seq<char>) -> Seq<(Seq<char>, T)>
    decreases es.len(),
{
    if es.len() == 0 {
        es
    } else if es[0].0 == key {
        es.drop_first()
    } else {
        seq![es[0]] + remove_key(es.drop_first(), key)
    }
}

/// The keys of the entries, in order.
pub open spec fn keys_of<T>(es: Seq<(Seq<char>, T)>) -> Seq<Seq<char>> {
    es.map_values(|e: (Seq<char>, T)| e.0)
}

/// Whether no two entries bear the same key.
pub open spec fn distinct_keys<T>(es: Seq<(Seq<char>, T)>) -> bool {
    forall|i: int, j: int| 0 <= i < j < es.len() ==> es[i].0 != es[j].0
}

/// Compares two string slices by their character sequences.
pub fn str_eq(a: &str, b: &str) -> (r: bool)
    ensures
        r == (a@ == b@),
{
    let sa = a.to_owned();
    let sb = b.to_owned();
    sa.eq(&sb)
}

impl Value {
    /// Structurally copies a value.
    #[verifier::loop_isolation(false)]
    pub fn duplicate(&self) -> (r: Value)
        ensures
            r@ == self@,
        decreases self,
    {
        match self {
            Value::Byte(x) => Value::Byte(*x),
            Value::Short(x) => Value::Short(*x),
            Value::Int(x) => Value::Int(*x),
            Value::Long(x) => Value::Long(*x),
            Value::Bool(x) => Value::Bool(*x),
            Value::Str(x) => Value::Str(x.clone()),
            Value::Unit => Value::Unit,
            Value::List(l) => {
                let mut out: Vec<Value> = Vec::new();
                let mut i: usize = 0;
                while i < l.len()
                    invariant
                        i <= l.len(),
                        out@.len() == i,
                        forall|j: int| 0 <= j < i ==> out@[j]@ == l@[j]@,
                    decreases l.len() - i,
                {
                    out.push(l[i].duplicate());
                    i = i + 1;
                }
                proof {
                    lemma_elems_view(out@);
                    lemma_elems_view(l@);
                    assert(elems_view(out@) =~= elems_view(l@));
                }
                Value::List(out)
            },
            Value::Object(es) => {
                let mut out: Vec<(String, Value)> = Vec::new();
                let mut i: usize = 0;
                while i < es.len()
                    invariant
                        i <= es.len(),
                        out@.len() == i,
                        forall|j: int| 0 <= j < i ==> out@[j].0@ == es@[j].0@ && out@[j].1@
                            == es@[j].1@,
                    decreases es.len() - i,
                {
                    let key = es[i].0.clone();
                    let val = es[i].1.duplicate();
                    out.push((key, val));
                    i = i + 1;
                }
                proof {
                    lemma_entries_view(out@);
                    lemma_entries_view(es@);
                    assert(entries_view(out@) =~= entries_view(es@));
                }
                Value::Object(out)
            },
        }
    }

    /// Compares two values by their models.
    #[verifier::loop_isolation(false)]
    pub fn same_as(&self, other: &Value) -> (r: bool)
        ensures
            r == (self@ == other@),
        decreases self,
    {
        match (self, other) {
            (Value::Byte(a), Value::Byte(b)) => *a == *b,
            (Value::Short(a), Value::Short(b)) => *a == *b,
            (Value::Int(a), Value::Int(b)) => *a == *b,
            (Value::Long(a), Value::Long(b)) => *a == *b,
            (Value::Bool(a), Value::Bool(b)) => *a == *b,
            (Value::Str(a), Value::Str(b)) => a.eq(b),
            (Value::Unit, Value::Unit) => true,
            (Value::List(a), Value::List(b)) => {
                proof {
                    lemma_elems_view(a@);
                    lemma_elems_view(b@);
                }
                if a.len() != b.len() {
                    return false;
                }
                let mut i: usize = 0;
                while i < a.len()
                    invariant
                        i <= a.len(),
                        a@.len() == b@.len(),
                        elems_view(a@).len() == a@.len(),
                        elems_view(b@).len() == b@.len(),
                        forall|j: int| 0 <= j < a@.len() ==> elems_view(a@)[j] == a@[j]@,
                        forall|j: int| 0 <= j < b@.len() ==> elems_view(b@)[j] == b@[j]@,
                        forall|j: int| 0 <= j < i ==> a@[j]@ == b@[j]@,
                    decreases a.len() - i,
                {
                    if !a[i].same_as(&b[i]) {
                        proof {
                            assert(elems_view(a@)[i as int] != elems_view(b@)[i as int]);
                        }
                        return false;
                    }
                    i = i + 1;
                }
                proof {
                    assert(elems_view(a@) =~= elems_view(b@));
                }
                true
            },
            (Value::Object(a), Value::Object(b)) => {
                proof {
                    lemma_entries_view(a@);
                    lemma_entries_view(b@);
                }
                if a.len() != b.len() {
                    return false;
                }
                let mut i: usize = 0;
                while i < a.len()
                    invariant
                        i <= a.len(),
                        a@.len() == b@.len(),
                        entries_view(a@).len() == a@.len(),
                        entries_view(b@).len() == b@.len(),
                        forall|j: int| 0 <= j < a@.len() ==> entries_view(a@)[j] == (
                        a@[j].0@,
                        a@[j].1@,
                        ),
                        forall|j: int| 0 <= j < b@.len() ==> entries_view(b@)[j] == (
                        b@[j].0@,
                        b@[j].1@,
                        ),
                        forall|j: int| 0 <= j < i ==> a@[j].0@ == b@[j].0@ && a@[j].1@ == b@[j].1@,
                    decreases a.len() - i,
                {
                    if !str_eq(a[i].0.as_str(), b[i].0.as_str()) {
                        proof {
                            assert(entries_view(a@)[i as int].0 != entries_view(b@)[i as int].0);
                        }
                        return false;
                    }
                    if !a[i].1.same_as(&b[i].1) {
                        proof {
                            assert(entries_view(a@)[i as int].1 != entries_view(b@)[i as int].1);
                        }
                        return false;
                    }
                    i = i + 1;
                }
                proof {
                    assert(entries_view(a@) =~= entries_view(b@));
                }
                true
            },
            _ => {
                proof {
                    assert(self@ != other@);
                }
                false
            },
        }
    }
}

} // verus!
