//! Rewrite rules: total transformations applied to both data trees and type
//! descriptors during schema evolution.

use vstd::prelude::*;

use crate::ops::{kv_get, kv_remove, kv_set, lemma_entries_kv, DynamicOps};
use crate::types::{lemma_tfields_kv, tfields_view, Type, TypeView};
use crate::value::{entries_view, lookup_key, remove_key, set_key, TreeView, Value};

verus! {

/// Spec-level mirror of [`FieldInit`].
pub enum InitView {
    Constant(TreeView),
    FieldOr { name: Seq<char>, fallback: TreeView },
}

/// How `new_field` obtains the value of the field it adds: a fixed value, or
/// a copy of a sibling field with a fallback.
#[derive(Debug)]
pub enum FieldInit {
    /// Always the given value.
    Constant(Value),
    /// The value of the named sibling field, or the fallback when the target
    /// is not a map or has no such field.
    FieldOr { name: String, fallback: Value },
}

impl View for FieldInit {
    type V = InitView;

    open spec fn view(&self) -> InitView {
        match self {
            FieldInit::Constant(v) => InitView::Constant(v@),
            FieldInit::FieldOr { name, fallback } => InitView::FieldOr {
                name: name@,
                fallback: fallback@,
            },
        }
    }
}

/// Spec-level mirror of [`Rule`].
pub enum RuleView {
    NewField { name: Seq<char>, source: InitView, ty: TypeView },
    RemoveField { name: Seq<char> },
    ApplyToField { name: Seq<char>, rule: Box<RuleView> },
    RenameField { from: Seq<char>, to: Seq<char> },
    AndThen(Box<RuleView>, Box<RuleView>),
}

/// A rewrite rule: a pair of total transformations, one on data trees and one
/// on type descriptors.  A rule passes values through unchanged where it does
/// not apply.
#[derive(Debug)]
pub enum Rule {
    /// Inserts or overwrites a field of a map / an object type.
    NewField { name: String, source: FieldInit, ty: Type },
    /// Deletes a field from a map / an object type; a missing key is not an
    /// error.
    RemoveField { name: String },
    /// Rewrites the named sub-tree / sub-type where it is present.
    ApplyToField { name: String, rule: Box<Rule> },
    /// Moves a field to a new name, keeping its value / shape.
    RenameField { from: String, to: String },
    /// Applies the left rule, then the right one, on both channels.
    AndThen(Box<Rule>, Box<Rule>),
}

impl View for Rule {
    type V = RuleView;

    open spec fn view(&self) -> RuleView {
        rule_view(*self)
    }
}

/// The model of a rule.
pub open spec fn rule_view(r: Rule) -> RuleView
    decreases r,
{
    match r {
        Rule::NewField { name, source, ty } => RuleView::NewField {
            name: name@,
            source: source@,
            ty: ty@,
        },
        Rule::RemoveField { name } => RuleView::RemoveField { name: name@ },
        Rule::ApplyToField { name, rule } => RuleView::ApplyToField {
            name: name@,
            rule: Box::new(rule_view(*rule)),
        },
        Rule::RenameField { from, to } => RuleView::RenameField { from: from@, to: to@ },
        Rule::AndThen(a, b) => RuleView::AndThen(
            Box::new(rule_view(*a)),
            Box::new(rule_view(*b)),
        ),
    }
}

/// The value a `new_field` rule inserts, as a function of the whole target.
pub open spec fn init_value(source: InitView, v: TreeView) -> TreeView {
    match source {
        InitView::Constant(c) => c,
        InitView::FieldOr { name, fallback } => match v {
            TreeView::Object(es) => match lookup_key(es, name) {
                Some(x) => x,
                None => fallback,
            },
            _ => fallback,
        },
    }
}

/// Renames a field of a map: the old entry leaves its place and the value
/// re-enters under the new name.  Targets without the field pass through.
pub open spec fn rename_fix(from: Seq<char>, to: Seq<char>, v: TreeView) -> TreeView {
    match v {
        TreeView::Object(es) => match lookup_key(es, from) {
            Some(x) => TreeView::Object(set_key(remove_key(es, from), to, x)),
            None => v,
        },
        _ => v,
    }
}

/// The data channel of a rule: a total transformation of a tree.
pub open spec fn rule_fix_data(r: RuleView, v: TreeView) -> TreeView
    decreases r,
{
    match r {
        RuleView::NewField { name, source, ty: _ } => match v {
            TreeView::Object(es) => TreeView::Object(set_key(es, name, init_value(source, v))),
            _ => v,
        },
        RuleView::RemoveField { name } => match v {
            TreeView::Object(es) => TreeView::Object(remove_key(es, name)),
            _ => v,
        },
        RuleView::ApplyToField { name, rule } => match v {
            TreeView::Object(es) => match lookup_key(es, name) {
                Some(x) => TreeView::Object(set_key(es, name, rule_fix_data(*rule, x))),
                None => v,
            },
            _ => v,
        },
        RuleView::RenameField { from, to } => rename_fix(from, to, v),
        RuleView::AndThen(a, b) => rule_fix_data(*b, rule_fix_data(*a, v)),
    }
}

/// The type channel of a rule: a total transformation of a type descriptor.
pub open spec fn rule_fix_type(r: RuleView, t: TypeView) -> TypeView
    decreases r,
{
    match r {
        RuleView::NewField { name, source: _, ty } => match t {
            TypeView::Object(fs) => TypeView::Object(set_key(fs, name, ty)),
            _ => t,
        },
        RuleView::RemoveField { name } => match t {
            TypeView::Object(fs) => TypeView::Object(remove_key(fs, name)),
            _ => t,
        },
        RuleView::ApplyToField { name, rule } => match t {
            TypeView::Object(fs) => match lookup_key(fs, name) {
                Some(x) => TypeView::Object(set_key(fs, name, rule_fix_type(*rule, x))),
                None => t,
            },
            _ => t,
        },
        RuleView::RenameField { from, to } => match t {
            TypeView::Object(fs) => match lookup_key(fs, from) {
                Some(x) => TypeView::Object(set_key(remove_key(fs, from), to, x)),
                None => t,
            },
            _ => t,
        },
        RuleView::AndThen(a, b) => rule_fix_type(*b, rule_fix_type(*a, t)),
    }
}

/// Builds the value a `new_field` rule inserts.
fn eval_init(source: &FieldInit, es: &Vec<(String, Value)>) -> (r: Value)
    ensures
        r@ == init_value(source@, TreeView::Object(entries_view(es@))),
{
    proof {
        lemma_entries_kv(es@);
    }
    match source {
        FieldInit::Constant(c) => c.duplicate(),
        FieldInit::FieldOr { name, fallback } => match kv_get(es, name.as_str()) {
            Some(x) => x.duplicate(),
            None => fallback.duplicate(),
        },
    }
}

impl Rule {
    /// Applies the rule's data channel to a tree.
    pub fn fix_data(&self, value: Value) -> (r: Value)
        ensures
            r@ == rule_fix_data(self@, value@),
        decreases self,
    {
        match self {
            Rule::NewField { name, source, ty: _ } => match value {
                Value::Object(mut es) => {
                    let v = eval_init(source, &es);
                    proof {
                        lemma_entries_kv(es@);
                    }
                    kv_set(&mut es, name.as_str(), v);
                    proof {
                        lemma_entries_kv(es@);
                    }
                    Value::Object(es)
                },
                other => other,
            },
            Rule::RemoveField { name } => match value {
                Value::Object(mut es) => {
                    proof {
                        lemma_entries_kv(es@);
                    }
                    let _ = kv_remove(&mut es, name.as_str());
                    proof {
                        lemma_entries_kv(es@);
                    }
                    Value::Object(es)
                },
                other => other,
            },
            Rule::ApplyToField { name, rule } => match value {
                Value::Object(mut es) => {
                    proof {
                        lemma_entries_kv(es@);
                    }
                    let field = match kv_get(&es, name.as_str()) {
                        Some(x) => Some(x.duplicate()),
                        None => None,
                    };
                    match field {
                        Some(x) => {
                            let fixed = rule.fix_data(x);
                            kv_set(&mut es, name.as_str(), fixed);
                            proof {
                                lemma_entries_kv(es@);
                            }
                            Value::Object(es)
                        },
                        None => Value::Object(es),
                    }
                },
                other => other,
            },
            Rule::RenameField { from, to } => match value {
                Value::Object(mut es) => {
                    proof {
                        lemma_entries_kv(es@);
                    }
                    let ghost pre = entries_view(es@);
                    match kv_remove(&mut es, from.as_str()) {
                        Some(x) => {
                            kv_set(&mut es, to.as_str(), x);
                            proof {
                                lemma_entries_kv(es@);
                            }
                            Value::Object(es)
                        },
                        None => {
                            proof {
                                lemma_entries_kv(es@);
                                crate::ops::lemma_remove_key_none(pre, from@);
                            }
                            Value::Object(es)
                        },
                    }
                },
                other => other,
            },
            Rule::AndThen(a, b) => {
                let mid = a.fix_data(value);
                b.fix_data(mid)
            },
        }
    }

    /// Applies the rule's type channel to a type descriptor.
    pub fn fix_type(&self, ty: Type) -> (r: Type)
        ensures
            r@ == rule_fix_type(self@, ty@),
        decreases self,
    {
        match self {
            Rule::NewField { name, source: _, ty: new_ty } => match ty {
                Type::Object(mut o) => {
                    proof {
                        lemma_tfields_kv(o.fields@);
                    }
                    kv_set(&mut o.fields, name.as_str(), new_ty.duplicate());
                    proof {
                        lemma_tfields_kv(o.fields@);
                    }
                    Type::Object(o)
                },
                other => other,
            },
            Rule::RemoveField { name } => match ty {
                Type::Object(mut o) => {
                    proof {
                        lemma_tfields_kv(o.fields@);
                    }
                    let _ = kv_remove(&mut o.fields, name.as_str());
                    proof {
                        lemma_tfields_kv(o.fields@);
                    }
                    Type::Object(o)
                },
                other => other,
            },
            Rule::ApplyToField { name, rule } => match ty {
                Type::Object(mut o) => {
                    proof {
                        lemma_tfields_kv(o.fields@);
                    }
                    let field = match kv_get(&o.fields, name.as_str()) {
                        Some(x) => Some(x.duplicate()),
                        None => None,
                    };
                    match field {
                        Some(x) => {
                            let fixed = rule.fix_type(x);
                            kv_set(&mut o.fields, name.as_str(), fixed);
                            proof {
                                lemma_tfields_kv(o.fields@);
                            }
                            Type::Object(o)
                        },
                        None => Type::Object(o),
                    }
                },
                other => other,
            },
            Rule::RenameField { from, to } => match ty {
                Type::Object(mut o) => {
                    proof {
                        lemma_tfields_kv(o.fields@);
                    }
                    let ghost pre = tfields_view(o.fields@);
                    match kv_remove(&mut o.fields, from.as_str()) {
                        Some(x) => {
                            kv_set(&mut o.fields, to.as_str(), x);
                            proof {
                                lemma_tfields_kv(o.fields@);
                            }
                            Type::Object(o)
                        },
                        None => {
                            proof {
                                lemma_tfields_kv(o.fields@);
                                crate::ops::lemma_remove_key_none(pre, from@);
                            }
                            Type::Object(o)
                        },
                    }
                },
                other => other,
            },
            Rule::AndThen(a, b) => {
                let mid = a.fix_type(ty);
                b.fix_type(mid)
            },
        }
    }

    /// Composes two rules, left first, on both channels.
    pub fn and_then(self, other: Rule) -> (r: Rule)
        ensures
            r@ == (RuleView::AndThen(Box::new(self@), Box::new(other@))),
    {
        Rule::AndThen(Box::new(self), Box::new(other))
    }
}

/// Constructors for the primitive rewrite rules.
pub struct Rules;

impl Rules {
    /// A rule that inserts or overwrites a field: on maps the value comes from
    /// `source`, on object types the shape is `ty`.  Other targets pass
    /// through.
    pub fn new_field(field_name: &str, source: FieldInit, ty: Type) -> (r: Rule)
        ensures
            r@ == (RuleView::NewField { name: field_name@, source: source@, ty: ty@ }),
    {
        Rule::NewField { name: field_name.to_owned(), source, ty }
    }

    /// A rule that deletes a field from maps and object types.
    pub fn remove_field(field_name: &str) -> (r: Rule)
        ensures
            r@ == (RuleView::RemoveField { name: field_name@ }),
    {
        Rule::RemoveField { name: field_name.to_owned() }
    }

    /// A rule that rewrites the named sub-tree / sub-type by the given rule
    /// where the field is present.
    pub fn apply_to_field(field_name: &str, rule: Rule) -> (r: Rule)
        ensures
            r@ == (RuleView::ApplyToField { name: field_name@, rule: Box::new(rule@) }),
    {
        Rule::ApplyToField { name: field_name.to_owned(), rule: Box::new(rule) }
    }
}

impl DynamicOps {
    /// Applies a rule's data channel to a tree, as the backend entry point.
    pub fn repair(&self, value: Value, rule: &Rule) -> (r: Value)
        ensures
            r@ == rule_fix_data(rule@, value@),
    {
        rule.fix_data(value)
    }
}

/// A data fixer that moves a field of a map to a new name.
#[derive(Debug)]
pub struct FieldRename {
    pub old_name: String,
    pub new_name: String,
}

impl FieldRename {
    /// Renames the field on a tree; targets without it pass through.
    pub fn fix(&self, value: Value) -> (r: Value)
        ensures
            r@ == rename_fix(self.old_name@, self.new_name@, value@),
    {
        let rule = Rule::RenameField {
            from: self.old_name.clone(),
            to: self.new_name.clone(),
        };
        rule.fix_data(value)
    }
}

/// Constructors for data fixers.
pub struct Fixers;

impl Fixers {
    /// A fixer that moves a field of a map from one name to another.
    pub fn field_rename(from: &str, to: &str) -> (r: FieldRename)
        ensures
            r.old_name@ == from@,
            r.new_name@ == to@,
    {
        FieldRename { old_name: from.to_owned(), new_name: to.to_owned() }
    }
}

} // verus!
