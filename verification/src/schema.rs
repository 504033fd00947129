//! Versioned schemas: append-only tables of named types with a parent link,
//! and the fixer that derives a new version from an old one.

use vstd::prelude::*;

use crate::ops::{kv_get, kv_set, lemma_lookup_in_keys, lemma_lookup_set_key};
use crate::rules::{rule_fix_type, Rule, RuleView};
use crate::types::{lemma_tfields_kv, tfields_view, Type, TypeView};
use crate::value::{keys_of, lookup_key, str_eq};

verus! {

/// A reference to a registered type, by name.
#[derive(Debug, Clone, PartialEq)]
pub struct TypeReference {
    pub name: String,
}

impl View for TypeReference {
    type V = Seq<char>;

    open spec fn view(&self) -> Seq<char> {
        self.name@
    }
}

impl TypeReference {
    /// A reference to the type of the given name.
    pub fn new(id: &str) -> (r: TypeReference)
        ensures
            r@ == id@,
    {
        TypeReference { name: id.to_owned() }
    }
}

/// Spec-level mirror of [`Schema`].
pub struct SchemaView {
    pub types: Seq<(Seq<char>, TypeView)>,
    pub version: int,
    pub parent: Option<Box<SchemaView>>,
}

/// One version of a schema: a table of named types and a link to the previous
/// version.  Lookups walk the chain towards the root.
#[derive(Debug)]
pub struct Schema {
    pub types: Vec<(String, Type)>,
    pub version: u32,
    pub parent: Option<Box<Schema>>,
}

/// The model of a schema chain.
pub open spec fn schema_view(s: Schema) -> SchemaView
    decreases s,
{
    SchemaView {
        types: tfields_view(s.types@),
        version: s.version as int,
        parent: match s.parent {
            Some(p) => Some(Box::new(schema_view(*p))),
            None => None,
        },
    }
}

impl View for Schema {
    type V = SchemaView;

    open spec fn view(&self) -> SchemaView {
        schema_view(*self)
    }
}

/// Walks the chain from the newest version towards the root, returning the
/// first binding of the name.
pub open spec fn find_in(sv: SchemaView, name: Seq<char>) -> Option<TypeView>
    decreases sv,
{
    match lookup_key(sv.types, name) {
        Some(t) => Some(t),
        None => match sv.parent {
            Some(p) => find_in(*p, name),
            None => None,
        },
    }
}

/// Every name bound anywhere in the chain, own table first, then the parents'.
pub open spec fn all_names(sv: SchemaView) -> Seq<Seq<char>>
    decreases sv,
{
    keys_of(sv.types) + (match sv.parent {
        Some(p) => all_names(*p),
        None => Seq::empty(),
    })
}

/// The sequence with every repetition of an earlier element dropped.
pub open spec fn dedup_first(s: Seq<Seq<char>>) -> Seq<Seq<char>>
    decreases s.len(),
{
    if s.len() == 0 {
        s
    } else {
        let init = dedup_first(s.drop_last());
        if init.contains(s.last()) {
            init
        } else {
            init.push(s.last())
        }
    }
}

/// The names of type references, in order.
pub open spec fn refs_view(s: Seq<TypeReference>) -> Seq<Seq<char>> {
    s.map_values(|t: TypeReference| t@)
}

/// Deduplication keeps membership.
pub proof fn lemma_dedup_first_contains(s: Seq<Seq<char>>, n: Seq<char>)
    ensures
        dedup_first(s).contains(n) == s.contains(n),
    decreases s.len(),
{
    if s.len() > 0 {
        lemma_dedup_first_contains(s.drop_last(), n);
        let init = dedup_first(s.drop_last());
        let d = dedup_first(s);
        assert(s.drop_last().contains(n) ==> s.contains(n)) by {
            if s.drop_last().contains(n) {
                let i = choose|i: int| 0 <= i < s.drop_last().len() && s.drop_last()[i] == n;
                assert(s[i] == n);
            }
        }
        assert(s.contains(n) ==> s.drop_last().contains(n) || s.last() == n) by {
            if s.contains(n) {
                let i = choose|i: int| 0 <= i < s.len() && s[i] == n;
                if i < s.len() - 1 {
                    assert(s.drop_last()[i] == n);
                }
            }
        }
        assert(s.last() == n ==> s.contains(n)) by {
            assert(s[s.len() - 1] == s.last());
        }
        if init.contains(s.last()) {
            assert(d == init);
        } else {
            assert(d == init.push(s.last()));
            assert(d.contains(n) == (init.contains(n) || s.last() == n)) by {
                if init.contains(n) {
                    let i = choose|i: int| 0 <= i < init.len() && init[i] == n;
                    assert(d[i] == n);
                }
                if s.last() == n {
                    assert(d[d.len() - 1] == n);
                }
                if d.contains(n) {
                    let i = choose|i: int| 0 <= i < d.len() && d[i] == n;
                    if i < init.len() {
                        assert(init[i] == n);
                    }
                }
            }
        }
    }
}

/// Deduplication leaves no repeated element.
pub proof fn lemma_dedup_first_distinct(s: Seq<Seq<char>>)
    ensures
        forall|i: int, j: int|
            0 <= i < j < dedup_first(s).len() ==> dedup_first(s)[i] != dedup_first(s)[j],
    decreases s.len(),
{
    if s.len() > 0 {
        lemma_dedup_first_distinct(s.drop_last());
        let init = dedup_first(s.drop_last());
        if !init.contains(s.last()) {
            assert forall|i: int, j: int|
                0 <= i < j < dedup_first(s).len() implies dedup_first(s)[i] != dedup_first(
                s,
            )[j] by {
                if j < init.len() {
                } else {
                    assert(dedup_first(s)[j] == s.last());
                    assert(dedup_first(s)[i] == init[i]);
                    assert(!init.contains(s.last()));
                }
            }
        }
    }
}

impl Schema {
    /// The first, empty schema version.
    pub fn new_root() -> (r: Schema)
        ensures
            r@.types == Seq::<(Seq<char>, TypeView)>::empty(),
            r@.version == 1,
            r@.parent is None,
    {
        let r = Schema { types: Vec::new(), version: 1, parent: None };
        proof {
            assert(r@.types =~= Seq::<(Seq<char>, TypeView)>::empty());
        }
        r
    }

    /// An empty schema version on top of a parent version.
    pub fn new(parent: Schema) -> (r: Schema)
        requires
            parent@.version < u32::MAX,
        ensures
            r@.types == Seq::<(Seq<char>, TypeView)>::empty(),
            r@.version == parent@.version + 1,
            r@.parent == Some(Box::new(parent@)),
    {
        let version = parent.version + 1;
        let r = Schema { types: Vec::new(), version, parent: Some(Box::new(parent)) };
        proof {
            assert(r@.types =~= Seq::<(Seq<char>, TypeView)>::empty());
        }
        r
    }

    /// Registers a type under a reference, replacing any same-named binding
    /// of this version.
    pub fn insert_type(&mut self, reference: &TypeReference, ty: Type)
        ensures
            final(self)@.types == crate::value::set_key(old(self)@.types, reference@, ty@),
            final(self)@.version == old(self)@.version,
            final(self)@.parent == old(self)@.parent,
    {
        self.insert_type_by_name(reference.name.as_str(), ty);
    }

    /// Registers a type under a name, replacing any same-named binding of
    /// this version.
    pub fn insert_type_by_name(&mut self, name: &str, ty: Type)
        ensures
            final(self)@.types == crate::value::set_key(old(self)@.types, name@, ty@),
            final(self)@.version == old(self)@.version,
            final(self)@.parent == old(self)@.parent,
    {
        proof {
            lemma_tfields_kv(self.types@);
        }
        kv_set(&mut self.types, name, ty);
        proof {
            lemma_tfields_kv(self.types@);
        }
    }

    /// Finds the newest binding of a reference, walking parent versions.
    pub fn find_type(&self, name: &TypeReference) -> (r: Option<Type>)
        ensures
            match r {
                Some(t) => find_in(self@, name@) == Some(t@),
                None => find_in(self@, name@) is None,
            },
    {
        self.find_type_by_name(name.name.as_str())
    }

    /// Finds the newest binding of a name, walking parent versions.
    pub fn find_type_by_name(&self, name: &str) -> (r: Option<Type>)
        ensures
            match r {
                Some(t) => find_in(self@, name@) == Some(t@),
                None => find_in(self@, name@) is None,
            },
        decreases self,
    {
        proof {
            lemma_tfields_kv(self.types@);
        }
        match kv_get(&self.types, name) {
            Some(t) => Some(t.duplicate()),
            None => match &self.parent {
                Some(p) => p.find_type_by_name(name),
                None => None,
            },
        }
    }

    /// Every name bound anywhere in the chain, newest version first, each
    /// name once.
    #[verifier::loop_isolation(false)]
    pub fn find_all_types(&self) -> (r: Vec<TypeReference>)
        ensures
            refs_view(r@) == dedup_first(all_names(self@)),
    {
        let mut raw: Vec<TypeReference> = Vec::new();
        self.collect_names(&mut raw);
        let mut out: Vec<TypeReference> = Vec::new();
        let mut i: usize = 0;
        while i < raw.len()
            invariant
                i <= raw.len(),
                refs_view(out@) == dedup_first(refs_view(raw@).take(i as int)),
            decreases raw.len() - i,
        {
            proof {
                assert(refs_view(raw@).take(i as int + 1).drop_last() =~= refs_view(raw@).take(
                    i as int,
                ));
                assert(refs_view(raw@).take(i as int + 1).last() == raw@[i as int]@);
            }
            let mut seen = false;
            let mut j: usize = 0;
            while j < out.len()
                invariant
                    j <= out.len(),
                    seen == exists|k: int| 0 <= k < j && out@[k]@ == raw@[i as int]@,
                decreases out.len() - j,
            {
                if str_eq(out[j].name.as_str(), raw[i].name.as_str()) {
                    seen = true;
                }
                j = j + 1;
            }
            proof {
                assert(seen == refs_view(out@).contains(raw@[i as int]@)) by {
                    if seen {
                        let k = choose|k: int| 0 <= k < out@.len() && out@[k]@ == raw@[i as int]@;
                        assert(refs_view(out@)[k] == raw@[i as int]@);
                    }
                    if refs_view(out@).contains(raw@[i as int]@) {
                        let k = choose|k: int|
                            0 <= k < refs_view(out@).len() && refs_view(out@)[k] == raw@[i as int]@;
                        assert(out@[k]@ == raw@[i as int]@);
                    }
                }
            }
            if !seen {
                let name = raw[i].name.clone();
                out.push(TypeReference { name });
                proof {
                    assert(refs_view(out@) =~= dedup_first(refs_view(raw@).take(i as int + 1)));
                }
            } else {
                proof {
                    assert(refs_view(out@) =~= dedup_first(refs_view(raw@).take(i as int + 1)));
                }
            }
            i = i + 1;
        }
        proof {
            assert(refs_view(raw@).take(raw@.len() as int) =~= refs_view(raw@));
        }
        out
    }

    /// Appends every name bound in the chain, own table first.
    #[verifier::loop_isolation(false)]
    fn collect_names(&self, out: &mut Vec<TypeReference>)
        ensures
            refs_view(final(out)@) == refs_view(old(out)@) + all_names(self@),
        decreases self,
    {
        proof {
            crate::types::lemma_tfields_view(self.types@);
            assert(refs_view(out@) =~= refs_view(old(out)@) + keys_of(
                tfields_view(self.types@),
            ).take(0));
        }
        let mut i: usize = 0;
        while i < self.types.len()
            invariant
                i <= self.types.len(),
                refs_view(out@) == refs_view(old(out)@) + keys_of(tfields_view(self.types@)).take(
                    i as int,
                ),
            decreases self.types.len() - i,
        {
            proof {
                crate::types::lemma_tfields_view(self.types@);
            }
            let ghost prev = out@;
            let name = self.types[i].0.clone();
            out.push(TypeReference { name });
            i = i + 1;
            proof {
                let ghost olds = refs_view(old(out)@);
                let ghost keys = keys_of(tfields_view(self.types@));
                assert(forall|j: int| 0 <= j < prev.len() ==> out@[j] == prev[j]);
                assert(out@[prev.len() as int]@ == self.types@[i - 1].0@);
                assert(refs_view(out@).len() == olds.len() + i);
                assert forall|j: int| 0 <= j < refs_view(out@).len() implies refs_view(out@)[j]
                    == (olds + keys.take(i as int))[j] by {
                    if j < prev.len() {
                        assert(refs_view(out@)[j] == refs_view(prev)[j]);
                        assert(refs_view(prev)[j] == (olds + keys.take(i as int - 1))[j]);
                        if j >= olds.len() {
                            assert(keys.take(i as int - 1)[j - olds.len()] == keys[j - olds.len()]);
                            assert(keys.take(i as int)[j - olds.len()] == keys[j - olds.len()]);
                        }
                    } else {
                        assert(refs_view(out@)[j] == self.types@[i - 1].0@);
                        assert(keys.take(i as int)[j - olds.len()] == keys[i - 1]);
                        assert(keys[i - 1] == tfields_view(self.types@)[i - 1].0);
                    }
                }
                assert(refs_view(out@) =~= olds + keys.take(i as int));
            }
        }
        proof {
            crate::types::lemma_tfields_view(self.types@);
            assert(keys_of(tfields_view(self.types@)).take(self.types@.len() as int) =~= keys_of(
                tfields_view(self.types@),
            ));
        }
        match &self.parent {
            Some(p) => {
                p.collect_names(out);
                proof {
                    assert(refs_view(out@) =~= refs_view(old(out)@) + all_names(self@));
                }
            },
            None => {
                proof {
                    assert(all_names(self@) =~= keys_of(tfields_view(self.types@)));
                    assert(refs_view(out@) =~= refs_view(old(out)@) + all_names(self@));
                }
            },
        }
    }
}

/// A name is found in a chain exactly when some version binds it.
pub proof fn lemma_find_all_names(sv: SchemaView, n: Seq<char>)
    ensures
        (find_in(sv, n) is Some) == all_names(sv).contains(n),
    decreases sv,
{
    lemma_lookup_in_keys(sv.types, n);
    let keys = keys_of(sv.types);
    let rest = match sv.parent {
        Some(p) => all_names(*p),
        None => Seq::<Seq<char>>::empty(),
    };
    assert(all_names(sv) == keys + rest);
    assert((keys + rest).contains(n) == (keys.contains(n) || rest.contains(n))) by {
        if keys.contains(n) {
            let i = choose|i: int| 0 <= i < keys.len() && keys[i] == n;
            assert((keys + rest)[i] == n);
        }
        if rest.contains(n) {
            let i = choose|i: int| 0 <= i < rest.len() && rest[i] == n;
            assert((keys + rest)[keys.len() + i] == n);
        }
        if (keys + rest).contains(n) {
            let i = choose|i: int| 0 <= i < (keys + rest).len() && (keys + rest)[i] == n;
            if i < keys.len() {
                assert(keys[i] == n);
            } else {
                assert(rest[i - keys.len()] == n);
            }
        }
    }
    match sv.parent {
        Some(p) => {
            lemma_find_all_names(*p, n);
        },
        None => {
        },
    }
}

/// A fixer that, on one named type of a schema, moves an object field to a
/// new name.
#[derive(Debug)]
pub struct FieldRenameFixer {
    pub old_name: String,
    pub new_name: String,
    pub targetting: TypeReference,
}

impl FieldRenameFixer {
    /// What the fixer does to the type registered under a name.
    pub open spec fn applied(&self, n: Seq<char>, t: TypeView) -> TypeView {
        if n == self.targetting@ {
            rule_fix_type(
                RuleView::RenameField { from: self.old_name@, to: self.new_name@ },
                t,
            )
        } else {
            t
        }
    }

    /// Rewrites the type bound under `reference`; other types pass through.
    pub fn fix_type(&self, reference: &TypeReference, input: Type) -> (r: Type)
        ensures
            r@ == self.applied(reference@, input@),
    {
        if str_eq(reference.name.as_str(), self.targetting.name.as_str()) {
            let rule = Rule::RenameField {
                from: self.old_name.clone(),
                to: self.new_name.clone(),
            };
            rule.fix_type(input)
        } else {
            input
        }
    }
}

/// The binding a fixer leaves in the derived version's own table: the
/// rewritten type where the rewrite changed it, nothing otherwise.
pub open spec fn fixed_entry(sv: SchemaView, f: FieldRenameFixer, n: Seq<char>) -> Option<
    TypeView,
> {
    match find_in(sv, n) {
        Some(t) => if f.applied(n, t) != t {
            Some(f.applied(n, t))
        } else {
            None
        },
        None => None,
    }
}

impl Schema {
    /// Derives the next schema version by passing every registered type
    /// through a fixer.  A lookup in the result gives the fixed form of what
    /// the old chain bound.
    #[verifier::loop_isolation(false)]
    pub fn fixer(self, fixer: &FieldRenameFixer) -> (r: Schema)
        requires
            self@.version < u32::MAX,
        ensures
            r@.version == self@.version + 1,
            r@.parent == Some(Box::new(self@)),
            forall|n: Seq<char>|
                #![auto]
                find_in(r@, n) == match find_in(self@, n) {
                    Some(t) => Some(fixer.applied(n, t)),
                    None => None,
                },
    {
        let ghost sv = self@;
        let names = self.find_all_types();
        let ghost nameseq = refs_view(names@);
        proof {
            lemma_dedup_first_distinct(all_names(sv));
            assert forall|n: Seq<char>| nameseq.contains(n) == (find_in(sv, n) is Some) by {
                lemma_dedup_first_contains(all_names(sv), n);
                lemma_find_all_names(sv, n);
            }
        }
        let mut child = Schema::new(self);
        let mut k: usize = 0;
        while k < names.len()
            invariant
                k <= names.len(),
                child@.version == sv.version + 1,
                child@.parent == Some(Box::new(sv)),
                forall|n: Seq<char>|
                    #![auto]
                    lookup_key(child@.types, n) == if nameseq.take(k as int).contains(n) {
                        fixed_entry(sv, *fixer, n)
                    } else {
                        Option::<TypeView>::None
                    },
            decreases names.len() - k,
        {
            let ghost n = names@[k as int]@;
            proof {
                assert(nameseq[k as int] == n);
                assert(nameseq.contains(n));
                assert(!nameseq.take(k as int).contains(n)) by {
                    if nameseq.take(k as int).contains(n) {
                        let j = choose|j: int|
                            0 <= j < k && nameseq.take(k as int)[j] == n;
                        assert(nameseq[j] == n);
                    }
                }
                assert(lookup_key(child@.types, n) is None);
                assert(find_in(sv, n) is Some);
            }
            let ty = match child.find_type(&names[k]) {
                Some(t) => t,
                None => {
                    proof {
                        assert(false);
                    }
                    Type::Unit
                },
            };
            let ghost t0 = ty@;
            proof {
                assert(find_in(sv, n) == Some(t0));
            }
            let fixed = fixer.fix_type(&names[k], ty.duplicate());
            let changed = !ty.same_as(&fixed);
            let ghost pre_types = child@.types;
            let ghost fv = fixed@;
            if changed {
                child.insert_type(&names[k], fixed);
                proof {
                    lemma_lookup_set_key(pre_types, n, fv);
                    assert(child@.types == crate::value::set_key(pre_types, n, fv));
                    assert(lookup_key(child@.types, n) == Some(fv));
                }
            }
            k = k + 1;
            proof {
                assert forall|m: Seq<char>|
                    nameseq.take(k as int).contains(m) == (nameseq.take(k as int - 1).contains(m)
                        || m == n) by {
                    if nameseq.take(k as int).contains(m) {
                        let j = choose|j: int|
                            0 <= j < k && nameseq.take(k as int)[j] == m;
                        if j < k - 1 {
                            assert(nameseq.take(k as int - 1)[j] == m);
                        }
                    }
                    if nameseq.take(k as int - 1).contains(m) {
                        let j = choose|j: int|
                            0 <= j < k - 1 && #[trigger] nameseq.take(k as int - 1)[j] == m;
                        assert(nameseq.take(k as int)[j] == m);
                    }
                    if m == n {
                        assert(nameseq.take(k as int)[k - 1] == n);
                    }
                }
                assert(fixed_entry(sv, *fixer, n) == (if fixer.applied(n, t0) != t0 {
                    Some(fixer.applied(n, t0))
                } else {
                    Option::<TypeView>::None
                }));
                assert forall|m: Seq<char>|
                    #![auto]
                    lookup_key(child@.types, m) == (if nameseq.take(k as int).contains(m) {
                        fixed_entry(sv, *fixer, m)
                    } else {
                        Option::<TypeView>::None
                    }) by {
                    if m == n {
                        assert(nameseq.take(k as int).contains(m));
                        assert(fv == fixer.applied(n, t0));
                        if changed {
                            assert(fv != t0);
                            assert(lookup_key(child@.types, n) == Some(fv));
                            assert(fixed_entry(sv, *fixer, n) == Some(fv));
                        } else {
                            assert(fv == t0);
                            assert(lookup_key(child@.types, n) == lookup_key(pre_types, n));
                            assert(lookup_key(pre_types, n) is None);
                            assert(fixed_entry(sv, *fixer, n) is None);
                        }
                    } else {
                        assert(nameseq.take(k as int).contains(m) == nameseq.take(
                            k as int - 1,
                        ).contains(m));
                        assert(lookup_key(child@.types, m) == lookup_key(pre_types, m));
                        assert(lookup_key(pre_types, m) == (if nameseq.take(
                            k as int - 1,
                        ).contains(m) {
                            fixed_entry(sv, *fixer, m)
                        } else {
                            Option::<TypeView>::None
                        }));
                    }
                }
            }
        }
        proof {
            assert(nameseq.take(names@.len() as int) =~= nameseq);
            assert forall|n: Seq<char>|
                #![auto]
                find_in(child@, n) == match find_in(sv, n) {
                    Some(t) => Some(fixer.applied(n, t)),
                    None => Option::<TypeView>::None,
                } by {
                if find_in(sv, n) is Some {
                    assert(nameseq.contains(n));
                } else {
                    assert(!nameseq.contains(n));
                }
            }
        }
        child
    }
}

} // verus!
