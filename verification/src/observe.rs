//! What the expressions of a module say about the arguments of its calls.

use vstd::hash_set::StringHashSet;
use vstd::prelude::*;
use vstd::string::*;

use crate::annotation::{
    mentions, set_views, ts_type_to_expr, type_expr, type_mentions, TYPE_DEPTH_LIMIT,
};
use crate::json::{Json, JsonView};
use crate::model::{
    map_view, views, ArgsView, CallArgs, Observed, ObservedView, TypeExpr, TypeExprView,
};
use crate::scope::{Binding, BindingView, Scope, ScopeMap};
use crate::source::Source;
use crate::syntax::{key_name, key_of, literal_value, simple_literal};

verus! {

broadcast use {crate::model::group_model_views, crate::json::group_json_sizes};

// ---------------------------------------------------------------------------
// Names in scope
// ---------------------------------------------------------------------------

pub open spec fn scope_views(s: Seq<Scope>) -> Seq<ScopeMap> {
    Seq::new(s.len(), |i: int| map_view(s[i]@))
}

/// What a name refers to in the innermost scope that binds it.
pub open spec fn lookup(scopes: Seq<ScopeMap>, name: Seq<char>) -> Option<BindingView>
    decreases scopes.len(),
{
    if scopes.len() == 0 {
        None
    } else if scopes.last().contains_key(name) {
        Some(scopes.last()[name])
    } else {
        lookup(scopes.drop_last(), name)
    }
}

pub open spec fn opt_binding(b: Option<&Binding>) -> Option<BindingView> {
    match b {
        Some(x) => Some(x@),
        None => None,
    }
}

/// What a name refers to in the innermost scope that binds it.
pub fn look_up<'a>(scopes: &'a Vec<Scope>, name: &str) -> (r: Option<&'a Binding>)
    ensures
        opt_binding(r) == lookup(scope_views(scopes@), name@),
{
    let ghost all = scope_views(scopes@);
    let mut i: usize = scopes.len();
    assert(all.take(all.len() as int) =~= all);
    while i > 0
        invariant
            i <= scopes@.len(),
            all == scope_views(scopes@),
            lookup(all, name@) == lookup(all.take(i as int), name@),
        decreases i,
    {
        proof {
            assert(all.take(i as int).drop_last() =~= all.take(i - 1));
            assert(all.take(i as int).last() == map_view(scopes@[i - 1]@));
        }
        if let Some(b) = scopes[i - 1].get(name) {
            return Some(b);
        }
        i -= 1;
    }
    None
}

// ---------------------------------------------------------------------------
// Expressions
// ---------------------------------------------------------------------------

/// Whether a node is an access to a property by its name.
pub open spec fn is_static_member(e: JsonView) -> bool {
    e.is_kind("MemberExpression"@) && !e.get("computed"@).is_true() && e.get("property"@).is_kind(
        "Identifier"@,
    )
}

pub fn static_member(e: &Json) -> (r: bool)
    ensures
        r == is_static_member(e@),
{
    e.is_kind("MemberExpression") && !e.get("computed").is_true() && e.get("property").is_kind(
        "Identifier",
    )
}

/// Names in scope, and the type names that scopes declare locally: an
/// annotation that mentions one of those means something that only the scope
/// knows.
#[verifier::ext_equal]
pub struct NamesView {
    pub scopes: Seq<ScopeMap>,
    pub shadows: Seq<Set<Seq<char>>>,
}

/// A value of the given type, unless the type mentions a local name.
pub open spec fn typed(t: TypeExprView, names: NamesView) -> ObservedView {
    if mentions(t, names.shadows) {
        ObservedView::Opaque
    } else {
        ObservedView::Typed(t)
    }
}

/// What a name in scope stands for as a value.
pub open spec fn named_value(name: Seq<char>, names: NamesView) -> ObservedView {
    match lookup(names.scopes, name) {
        Some(BindingView::Param { ann: Some(t) }) => typed(t, names),
        Some(BindingView::Const { ann: Some(t), lit: _ }) => typed(t, names),
        Some(BindingView::Const { ann: None, lit: Some(l) }) => l,
        _ => ObservedView::Opaque,
    }
}

/// What an expression is known to evaluate to.
pub open spec fn observed(e: JsonView, src: Seq<char>, names: NamesView, depth: int) -> ObservedView
    decreases TYPE_DEPTH_LIMIT + 1 - depth, 0int,
{
    if depth > TYPE_DEPTH_LIMIT {
        ObservedView::Opaque
    } else if literal_value(e) is Some {
        literal_value(e)->0
    } else if e.is_kind("Identifier"@) {
        if e.name() == "undefined"@ {
            ObservedView::Undefined
        } else {
            named_value(e.name(), names)
        }
    } else if is_static_member(e) && e.get("object"@).is_kind("Identifier"@) {
        match lookup(names.scopes, e.get("object"@).name()) {
            Some(BindingView::EnumDecl) => ObservedView::EnumMember {
                enum_name: e.get("object"@).name(),
                member: e.get("property"@).name(),
            },
            Some(BindingView::Import) => ObservedView::EnumMember {
                enum_name: e.get("object"@).name(),
                member: e.get("property"@).name(),
            },
            _ => ObservedView::Opaque,
        }
    } else if e.is_kind("ObjectExpression"@) {
        match observed_props(e.get("properties"@).items(), src, names, depth + 1) {
            Some(props) => ObservedView::Object(props),
            None => ObservedView::Opaque,
        }
    } else if e.is_kind("TSAsExpression"@) {
        let t = e.get("typeAnnotation"@);
        if is_const_type(t) {
            observed(e.get("expression"@), src, names, depth + 1)
        } else {
            typed(type_expr(t, src, 0), names)
        }
    } else if e.is_kind("TSSatisfiesExpression"@) || e.is_kind("TSNonNullExpression"@) || e.is_kind(
        "ParenthesizedExpression"@,
    ) {
        observed(e.get("expression"@), src, names, depth + 1)
    } else {
        ObservedView::Opaque
    }
}

/// The type in `x as const`.
pub open spec fn is_const_type(t: JsonView) -> bool {
    t.is_kind("TSTypeReference"@) && t.get("typeName"@).is_kind("Identifier"@) && t.get(
        "typeName"@,
    ).name() == "const"@
}

/// The properties of an object literal, unless one is computed or spread.
pub open spec fn observed_props(
    items: Seq<JsonView>,
    src: Seq<char>,
    names: NamesView,
    depth: int,
) -> Option<Seq<(Seq<char>, ObservedView)>>
    decreases TYPE_DEPTH_LIMIT + 1 - depth, items.len(),
{
    if items.len() == 0 {
        Some(Seq::empty())
    } else {
        let p = items.last();
        match (observed_props(items.drop_last(), src, names, depth), key_name(p)) {
            (Some(before), Some(name)) => if p.is_kind("Property"@) {
                Some(before.push((name, observed(p.get("value"@), src, names, depth))))
            } else {
                None
            },
            _ => None,
        }
    }
}

proof fn lemma_props_fail(
    items: Seq<JsonView>,
    src: Seq<char>,
    names: NamesView,
    depth: int,
    k: int,
)
    requires
        0 <= k <= items.len(),
        observed_props(items.take(k), src, names, depth) is None,
    ensures
        observed_props(items, src, names, depth) is None,
    decreases items.len() - k,
{
    if k == items.len() {
        assert(items.take(k) =~= items);
    } else {
        assert(items.take(k + 1).drop_last() =~= items.take(k));
        lemma_props_fail(items, src, names, depth, k + 1);
    }
}

pub open spec fn has_spread(items: Seq<JsonView>) -> bool {
    exists|i: int| 0 <= i < items.len() && (#[trigger] items[i]).is_kind("SpreadElement"@)
}

/// The arguments of a call; a spread makes all of them uncertain.
pub open spec fn observed_args(items: Seq<JsonView>, src: Seq<char>, names: NamesView) -> ArgsView {
    if has_spread(items) {
        ArgsView::Opaque
    } else {
        ArgsView::Args(Seq::new(items.len(), |i: int| observed(items[i], src, names, 0)))
    }
}

/// The names in scope at a place of a module.
pub struct Names {
    pub scopes: Vec<Scope>,
    pub shadows: Vec<StringHashSet>,
}

impl View for Names {
    type V = NamesView;

    open spec fn view(&self) -> NamesView {
        NamesView { scopes: scope_views(self.scopes@), shadows: set_views(self.shadows@) }
    }
}

impl Names {
    pub fn lookup(&self, name: &str) -> (r: Option<&Binding>)
        ensures
            opt_binding(r) == lookup(self@.scopes, name@),
    {
        look_up(&self.scopes, name)
    }

    fn typed(&self, t: TypeExpr) -> (r: Observed)
        ensures
            r@ == typed(t@, self@),
    {
        if type_mentions(&t, &self.shadows) {
            Observed::Opaque
        } else {
            Observed::Typed(t)
        }
    }

    fn named_value(&self, name: &str) -> (r: Observed)
        ensures
            r@ == named_value(name@, self@),
    {
        match self.lookup(name) {
            Some(Binding::Param { ann: Some(t) }) => self.typed(t.copy()),
            Some(Binding::Const { ann: Some(t), lit: _ }) => self.typed(t.copy()),
            Some(Binding::Const { ann: None, lit: Some(l) }) => l.copy(),
            _ => Observed::Opaque,
        }
    }

    /// What an expression is known to evaluate to.
    pub fn expr_to_observed(&self, e: &Json, src: &Source, depth: usize) -> (r: Observed)
        requires
            src.well_formed(),
        ensures
            r@ == observed(e@, src@, self@, depth as int),
        decreases TYPE_DEPTH_LIMIT + 1 - depth, 0int,
    {
        if depth > TYPE_DEPTH_LIMIT {
            return Observed::Opaque;
        }
        if let Some(l) = simple_literal(e) {
            return l;
        }
        if e.is_kind("Identifier") {
            if e.named("undefined") {
                return Observed::Undefined;
            }
            return self.named_value(e.get("name").text());
        }
        if static_member(e) && e.get("object").is_kind("Identifier") {
            let name = e.get("object").name();
            return match self.lookup(name.as_str()) {
                Some(Binding::EnumDecl) => Observed::EnumMember {
                    enum_name: name,
                    member: e.get("property").name(),
                },
                Some(Binding::Import) => Observed::EnumMember {
                    enum_name: name,
                    member: e.get("property").name(),
                },
                _ => Observed::Opaque,
            };
        }
        if e.is_kind("ObjectExpression") {
            return self.object_to_observed(e.get("properties"), src, depth + 1);
        }
        if e.is_kind("TSAsExpression") {
            let t = e.get("typeAnnotation");
            if t.is_kind("TSTypeReference") && t.get("typeName").is_kind("Identifier") && t.get(
                "typeName",
            ).named("const") {
                return self.expr_to_observed(e.get("expression"), src, depth + 1);
            }
            return self.typed(ts_type_to_expr(t, src, 0));
        }
        if e.is_kind("TSSatisfiesExpression") || e.is_kind("TSNonNullExpression") || e.is_kind(
            "ParenthesizedExpression",
        ) {
            return self.expr_to_observed(e.get("expression"), src, depth + 1);
        }
        Observed::Opaque
    }

    fn object_to_observed(&self, list: &Json, src: &Source, depth: usize) -> (r: Observed)
        requires
            src.well_formed(),
        ensures
            r@ == (match observed_props(list@.items(), src@, self@, depth as int) {
                Some(props) => ObservedView::Object(props),
                None => ObservedView::Opaque,
            }),
        decreases TYPE_DEPTH_LIMIT + 1 - depth, 1int,
    {
        let ghost all = list@.items();
        let ghost names = self@;
        let mut props: Vec<(String, Observed)> = Vec::new();
        assert(views(props@) =~= Seq::empty());
        let total: usize = list.count();
        let mut i: usize = 0;
        while i < total
            invariant
                src.well_formed(),
                all == list@.items(),
                names == self@,
                total == all.len(),
                i <= total,
                observed_props(all.take(i as int), src@, names, depth as int) == Some(
                    views(props@),
                ),
            decreases total - i,
        {
            let p = list.at(i);
            proof {
                assert(all.take(i + 1).drop_last() =~= all.take(i as int));
                assert(all.take(i + 1).last() == p@);
                if observed_props(all.take(i + 1), src@, names, depth as int) is None {
                    lemma_props_fail(all, src@, names, depth as int, i + 1);
                }
            }
            if !p.is_kind("Property") {
                return Observed::Opaque;
            }
            let name = match key_of(p) {
                Some(name) => name,
                None => return Observed::Opaque,
            };
            let entry = (name, self.expr_to_observed(p.get("value"), src, depth));
            let ghost before = views(props@);
            props.push(entry);
            assert(views(props@) =~= before.push(entry@));
            i += 1;
        }
        assert(all.take(i as int) =~= all);
        Observed::Object(props)
    }

    /// The arguments of a call.
    pub fn args_of(&self, list: &Json, src: &Source) -> (r: CallArgs)
        requires
            src.well_formed(),
        ensures
            r@ == observed_args(list@.items(), src@, self@),
    {
        let ghost all = list@.items();
        let mut args: Vec<Observed> = Vec::new();
        let total: usize = list.count();
        let mut i: usize = 0;
        while i < total
            invariant
                src.well_formed(),
                all == list@.items(),
                total == all.len(),
                i <= total,
                args@.len() == i,
                forall|j: int| 0 <= j < i ==> !(#[trigger] all[j]).is_kind("SpreadElement"@),
                forall|j: int|
                    0 <= j < i ==> (#[trigger] args@[j])@ == observed(all[j], src@, self@, 0),
            decreases total - i,
        {
            let a = list.at(i);
            if a.is_kind("SpreadElement") {
                assert(all[i as int].is_kind("SpreadElement"@));
                return CallArgs::Opaque;
            }
            args.push(self.expr_to_observed(a, src, 0));
            i += 1;
        }
        proof {
            assert(!has_spread(all));
            assert(views(args@) =~= Seq::new(all.len(), |i: int| observed(all[i], src@, self@, 0)));
        }
        CallArgs::Args(args)
    }
}

} // verus!
