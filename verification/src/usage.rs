//! The usages of functions in a module: calls with what they pass, and every
//! other reference.
//!
//! Any reference that cannot be attributed precisely is recorded as a
//! (possibly broad) escape or an opaque observation, never dropped: dropped
//! calls would make up false findings, broad escapes only cost coverage.

use vstd::hash_set::StringHashSet;
use vstd::prelude::*;
use vstd::string::*;

use crate::annotation::{annotation, annotation_of, mentions, set_views, type_mentions};
use crate::json::{Json, JsonView};
use crate::model::{
    map_view, opt_view, views, ArgsView, CallArgs, Observed, Owner, OwnerView, TargetView, TypeExpr,
    TypeExprView, Usage, UsageKind, UsageKindView, UsageTargetRef, UsageView,
};
use crate::observe::{lookup, observed, observed_args, opt_binding, Names, NamesView};
use crate::param::{param_pattern, pattern_of};
use crate::prepass::{classify_declarator, variable_binding};
use crate::scope::{
    bind, bind_object_projections, bind_pattern_names, empty_scope, scan_stmts, scan_view,
    scanned_all, with_names, with_projections, Binding, BindingView, ScanView, Scope, ScopeMap,
};
use crate::source::Source;

verus! {

broadcast use {crate::model::group_model_views, crate::json::group_json_sizes};

// ---------------------------------------------------------------------------
// State
// ---------------------------------------------------------------------------

/// What is known at a place of a module, and the usages found so far.
#[verifier::ext_equal]
pub struct StateView {
    pub names: NamesView,
    pub usages: Seq<UsageView>,
}

/// Whether an escape of the target has been recorded.
pub open spec fn has_escape(usages: Seq<UsageView>, t: TargetView) -> bool {
    exists|i: int|
        0 <= i < usages.len() && (#[trigger] usages[i]).kind is Escape && usages[i].target == t
}

impl StateView {
    /// With an escape; escaping is idempotent, so each target is recorded once.
    pub open spec fn escape(self, t: TargetView) -> StateView {
        if has_escape(self.usages, t) {
            self
        } else {
            StateView {
                usages: self.usages.push(
                    UsageView { target: t, kind: UsageKindView::Escape, line: 0 },
                ),
                ..self
            }
        }
    }

    pub open spec fn call(self, t: TargetView, args: ArgsView, line: u32) -> StateView {
        StateView {
            usages: self.usages.push(
                UsageView { target: t, kind: UsageKindView::Call(args), line },
            ),
            ..self
        }
    }

    pub open spec fn lookup(self, name: Seq<char>) -> Option<BindingView> {
        lookup(self.names.scopes, name)
    }

    /// With the innermost scope replaced.
    pub open spec fn top(self, scope: ScopeMap) -> StateView {
        StateView {
            names: NamesView {
                scopes: self.names.scopes.update(self.names.scopes.len() - 1, scope),
                ..self.names
            },
            ..self
        }
    }

    /// With a binding in the innermost scope.
    pub open spec fn bound(self, name: Seq<char>, b: BindingView) -> StateView {
        self.top(self.names.scopes.last().insert(name, b))
    }

    /// Inside a scope of its own.
    pub open spec fn pushed(self, scope: ScopeMap, types: Set<Seq<char>>) -> StateView {
        StateView {
            names: NamesView {
                scopes: self.names.scopes.push(scope),
                shadows: self.names.shadows.push(types),
            },
            ..self
        }
    }

    /// Outside the innermost scope.
    pub open spec fn popped(self) -> StateView {
        StateView {
            names: NamesView {
                scopes: self.names.scopes.drop_last(),
                shadows: self.names.shadows.drop_last(),
            },
            ..self
        }
    }

    /// With what escapes when a name is used as a value.
    pub open spec fn escape_use(self, name: Seq<char>) -> StateView {
        match self.lookup(name) {
            Some(BindingView::Fn) => self.escape(
                TargetView::Local { owner: OwnerView::Free, name },
            ),
            Some(BindingView::Import) => self.escape(TargetView::Imported { local: name }),
            Some(BindingView::Namespace) => self.escape(
                TargetView::AllExportsOfModule { ns_local: name },
            ),
            Some(BindingView::ObjectConst) => self.escape(
                TargetView::AllMembersOf(OwnerView::ObjectConst(name)),
            ),
            Some(BindingView::Instance(c)) => self.escape(
                TargetView::AllMembersOf(OwnerView::Class(c)),
            ),
            Some(BindingView::ClassDecl) => self.escape(
                TargetView::AllMembersOf(OwnerView::Class(name)),
            ),
            _ => self,
        }
    }

    /// With what escapes when a property of an unknown value is used: any
    /// method of that name, or a free function reached through an object that
    /// stands for a module.
    pub open spec fn escape_member(self, name: Seq<char>) -> StateView {
        self.escape(TargetView::AnyMethodNamed(name)).escape(TargetView::AnyFreeNamed(name))
    }
}

/// The call target that a name stands for, if it is a function or imported.
pub open spec fn callee_target(b: Option<BindingView>, name: Seq<char>) -> Option<TargetView> {
    match b {
        Some(BindingView::Fn) => Some(TargetView::Local { owner: OwnerView::Free, name }),
        Some(BindingView::Import) => Some(TargetView::Imported { local: name }),
        _ => None,
    }
}

/// Collects the usages of a module.
pub struct UsageVisitor {
    names: Names,
    usages: Vec<Usage>,
    /// The names of the `AnyMethodNamed` escapes recorded.
    methods: StringHashSet,
    /// The names of the `AnyFreeNamed` escapes recorded.
    free: StringHashSet,
}

impl View for UsageVisitor {
    type V = StateView;

    closed spec fn view(&self) -> StateView {
        StateView { names: self.names@, usages: views(self.usages@) }
    }
}

impl UsageVisitor {
    pub closed spec fn well_formed(&self) -> bool {
        &&& forall|n: Seq<char>|
            #![trigger self.methods@.contains(n)]
            self.methods@.contains(n) == has_escape(self@.usages, TargetView::AnyMethodNamed(n))
        &&& forall|n: Seq<char>|
            #![trigger self.free@.contains(n)]
            self.free@.contains(n) == has_escape(self@.usages, TargetView::AnyFreeNamed(n))
    }

    /// A visitor at the start of a module.
    pub fn new(scope: Scope, types: StringHashSet) -> (r: Self)
        ensures
            r.well_formed(),
            r@.names.scopes == seq![map_view(scope@)],
            r@.names.shadows == seq![types@],
            r@.usages == Seq::<UsageView>::empty(),
    {
        let mut scopes: Vec<Scope> = Vec::new();
        scopes.push(scope);
        let mut shadows: Vec<StringHashSet> = Vec::new();
        shadows.push(types);
        let r = UsageVisitor {
            names: Names { scopes, shadows },
            usages: Vec::new(),
            methods: StringHashSet::new(),
            free: StringHashSet::new(),
        };
        proof {
            assert(r@.names.scopes =~= seq![map_view(scope@)]);
            assert(r@.names.shadows =~= seq![types@]);
            assert(r@.usages =~= Seq::empty());
        }
        r
    }

    /// What a name refers to.
    pub fn lookup(&self, name: &str) -> (r: Option<&Binding>)
        ensures
            opt_binding(r) == self@.lookup(name@),
    {
        self.names.lookup(name)
    }

    /// Whether the place is inside a function.
    pub fn in_function(&self) -> (r: bool)
        ensures
            r == (self@.names.scopes.len() > 1),
    {
        self.names.scopes.len() > 1
    }

    /// What an expression is known to evaluate to.
    pub fn observe(&self, e: &Json, src: &Source) -> (r: Observed)
        requires
            src.well_formed(),
        ensures
            r@ == observed(e@, src@, self@.names, 0),
    {
        self.names.expr_to_observed(e, src, 0)
    }

    /// The arguments of a call.
    pub fn args_of(&self, list: &Json, src: &Source) -> (r: CallArgs)
        requires
            src.well_formed(),
        ensures
            r@ == observed_args(list@.items(), src@, self@.names),
    {
        self.names.args_of(list, src)
    }

    /// The usages collected.
    pub fn into_usages(self) -> (r: Vec<Usage>)
        ensures
            views(r@) == self@.usages,
    {
        self.usages
    }

    fn escape_recorded(&self, t: &UsageTargetRef) -> (r: bool)
        ensures
            r == has_escape(self@.usages, t@),
    {
        let mut i: usize = 0;
        while i < self.usages.len()
            invariant
                i <= self.usages@.len(),
                forall|j: int|
                    0 <= j < i ==> !((#[trigger] self@.usages[j]).kind is Escape
                        && self@.usages[j].target == t@),
            decreases self.usages@.len() - i,
        {
            let u = &self.usages[i];
            assert(self@.usages[i as int] == u@);
            if let UsageKind::Escape = u.kind {
                if u.target.same(t) {
                    assert(self@.usages[i as int].kind is Escape);
                    return true;
                }
            }
            i += 1;
        }
        false
    }

    /// Records an escape, once per target.
    pub fn escape(&mut self, t: UsageTargetRef)
        requires
            old(self).well_formed(),
        ensures
            final(self).well_formed(),
            final(self)@ == old(self)@.escape(t@),
    {
        let known = match &t {
            UsageTargetRef::AnyMethodNamed(n) => self.methods.contains(n.as_str()),
            UsageTargetRef::AnyFreeNamed(n) => self.free.contains(n.as_str()),
            _ => self.escape_recorded(&t),
        };
        if known {
            return ;
        }
        let ghost before = self@;
        let ghost tv = t@;
        match &t {
            UsageTargetRef::AnyMethodNamed(n) => {
                let _ = self.methods.insert(n.clone());
            },
            UsageTargetRef::AnyFreeNamed(n) => {
                let _ = self.free.insert(n.clone());
            },
            _ => {},
        }
        let u = Usage { target: t, kind: UsageKind::Escape, line: 0 };
        self.usages.push(u);
        proof {
            assert(self@.usages =~= before.usages.push(u@));
            lemma_escape_push(before.usages, u@);
        }
    }

    /// Records a call.
    pub fn call(&mut self, t: UsageTargetRef, args: CallArgs, line: u32)
        requires
            old(self).well_formed(),
        ensures
            final(self).well_formed(),
            final(self)@ == old(self)@.call(t@, args@, line),
    {
        let ghost before = self@;
        let u = Usage { target: t, kind: UsageKind::Call(args), line };
        self.usages.push(u);
        proof {
            assert(self@.usages =~= before.usages.push(u@));
            lemma_escape_push(before.usages, u@);
        }
    }

    pub fn escape_member(&mut self, name: String)
        requires
            old(self).well_formed(),
        ensures
            final(self).well_formed(),
            final(self)@ == old(self)@.escape_member(name@),
    {
        self.escape(UsageTargetRef::AnyMethodNamed(name.clone()));
        self.escape(UsageTargetRef::AnyFreeNamed(name));
    }

    /// Records what escapes when a name is used as a value.
    pub fn escape_identifier_use(&mut self, name: &str)
        requires
            old(self).well_formed(),
        ensures
            final(self).well_formed(),
            final(self)@ == old(self)@.escape_use(name@),
    {
        let t = match self.names.lookup(name) {
            Some(Binding::Fn) => UsageTargetRef::Local {
                owner: Owner::Free,
                name: name.to_owned(),
            },
            Some(Binding::Import) => UsageTargetRef::Imported { local: name.to_owned() },
            Some(Binding::Namespace) => UsageTargetRef::AllExportsOfModule {
                ns_local: name.to_owned(),
            },
            Some(Binding::ObjectConst) => UsageTargetRef::AllMembersOf(
                Owner::ObjectConst(name.to_owned()),
            ),
            Some(Binding::Instance(c)) => UsageTargetRef::AllMembersOf(Owner::Class(c.clone())),
            Some(Binding::ClassDecl) => UsageTargetRef::AllMembersOf(
                Owner::Class(name.to_owned()),
            ),
            _ => return ,
        };
        self.escape(t);
    }

    /// Binds a name in the innermost scope.
    pub fn bind_here(&mut self, name: String, b: Binding)
        requires
            old(self).well_formed(),
            old(self)@.names.scopes.len() > 0,
        ensures
            final(self).well_formed(),
            final(self)@ == old(self)@.bound(name@, b@),
    {
        let ghost before = self@;
        let k: usize = self.names.scopes.len() - 1;
        bind(&mut self.names.scopes[k], name, b);
        assert(self@ =~= before.bound(name@, b@)) by {
            assert(self@.names.scopes =~= before.bound(name@, b@).names.scopes);
        }
    }

    /// Binds the names of a pattern in the innermost scope.
    pub fn bind_names_here(&mut self, pattern: &Json)
        requires
            old(self).well_formed(),
            old(self)@.names.scopes.len() > 0,
        ensures
            final(self).well_formed(),
            final(self)@ == old(self)@.top(
                with_names(pattern@, old(self)@.names.scopes.last()),
            ),
    {
        let ghost before = self@;
        let k: usize = self.names.scopes.len() - 1;
        bind_pattern_names(pattern, &mut self.names.scopes[k]);
        assert(self@ =~= before.top(with_names(pattern@, before.names.scopes.last()))) by {
            assert(self@.names.scopes =~= before.top(
                with_names(pattern@, before.names.scopes.last()),
            ).names.scopes);
        }
    }

    /// Leaves the innermost scope.
    pub fn pop_fn_scope(&mut self)
        requires
            old(self).well_formed(),
            old(self)@.names.scopes.len() > 0,
            old(self)@.names.shadows.len() > 0,
        ensures
            final(self).well_formed(),
            final(self)@ == old(self)@.popped(),
    {
        let ghost before = self@;
        let _ = self.names.scopes.pop();
        let _ = self.names.shadows.pop();
        assert(self@ =~= before.popped()) by {
            assert(self@.names.scopes =~= before.names.scopes.drop_last());
            assert(self@.names.shadows =~= before.names.shadows.drop_last());
        }
    }
}

proof fn lemma_escape_push(usages: Seq<UsageView>, u: UsageView)
    ensures
        forall|t: TargetView| #[trigger]
            has_escape(usages.push(u), t) == (has_escape(usages, t) || (u.kind is Escape && u.target
                == t)),
{
    let after = usages.push(u);
    assert forall|t: TargetView| #[trigger]
        has_escape(after, t) == (has_escape(usages, t) || (u.kind is Escape && u.target == t)) by {
        if has_escape(usages, t) {
            let i = choose|i: int|
                0 <= i < usages.len() && (#[trigger] usages[i]).kind is Escape && usages[i].target
                    == t;
            assert(after[i] == usages[i]);
        }
        if u.kind is Escape && u.target == t {
            assert(after[usages.len() as int] == u);
        }
        if has_escape(after, t) {
            let i = choose|i: int|
                0 <= i < after.len() && (#[trigger] after[i]).kind is Escape && after[i].target
                    == t;
            if i < usages.len() {
                assert(after[i] == usages[i]);
            }
        }
    }
}

// ---------------------------------------------------------------------------
// Scopes of functions
// ---------------------------------------------------------------------------

pub open spec fn type_param_names(items: Seq<JsonView>) -> Set<Seq<char>>
    decreases items.len(),
{
    if items.len() == 0 {
        Set::empty()
    } else {
        type_param_names(items.drop_last()).insert(items.last().get("name"@).name())
    }
}

/// An annotation, unless it mentions a local type name.
pub open spec fn safe_ann(ann: Option<TypeExprView>, shadows: Seq<Set<Seq<char>>>) -> Option<
    TypeExprView,
> {
    match ann {
        Some(t) => if mentions(t, shadows) {
            None
        } else {
            ann
        },
        None => None,
    }
}

/// The scope with a parameter bound. The names of an annotated object pattern
/// are bound to the properties they receive, so that handing one on narrows
/// the function that gets it too.
pub open spec fn with_param(
    n: JsonView,
    src: Seq<char>,
    shadows: Seq<Set<Seq<char>>>,
    scope: ScopeMap,
) -> ScopeMap {
    let p = param_pattern(n);
    let ann = safe_ann(annotation_of(p, src), shadows);
    if p.is_kind("Identifier"@) {
        scope.insert(p.name(), BindingView::Param { ann })
    } else if p.is_kind("ObjectPattern"@) && ann is Some {
        with_projections(p.get("properties"@).items(), ann->0, scope)
    } else {
        with_names(p, scope)
    }
}

pub open spec fn with_params(
    items: Seq<JsonView>,
    src: Seq<char>,
    shadows: Seq<Set<Seq<char>>>,
    scope: ScopeMap,
) -> ScopeMap
    decreases items.len(),
{
    if items.len() == 0 {
        scope
    } else {
        with_param(
            items.last(),
            src,
            shadows,
            with_params(items.drop_last(), src, shadows, scope),
        )
    }
}

/// What a function binds for its body: the names declared anywhere in it,
/// then its parameters; and the type names it declares.
pub open spec fn function_scope(
    f: JsonView,
    src: Seq<char>,
    shadows: Seq<Set<Seq<char>>>,
) -> ScanView {
    let types = type_param_names(f.get("typeParameters"@).get("params"@).items());
    let body = f.get("body"@);
    let start = ScanView { values: Map::empty(), types };
    let scan = if body.is_kind("BlockStatement"@) {
        scanned_all(body.get("body"@).items(), 0, start)
    } else {
        start
    };
    ScanView {
        values: with_params(
            f.get("params"@).items(),
            src,
            shadows.push(scan.types),
            scan.values,
        ),
        types: scan.types,
    }
}

/// A local variable's binding, without an annotation that mentions a local type.
pub open spec fn safe_binding(b: BindingView, shadows: Seq<Set<Seq<char>>>) -> BindingView {
    match b {
        BindingView::Const { ann, lit } => BindingView::Const {
            ann: safe_ann(ann, shadows),
            lit,
        },
        _ => b,
    }
}

fn keep_safe(ann: Option<TypeExpr>, shadows: &Vec<StringHashSet>) -> (r: Option<TypeExpr>)
    ensures
        opt_view(r) == safe_ann(opt_view(ann), set_views(shadows@)),
{
    match ann {
        Some(t) => if type_mentions(&t, shadows) {
            None
        } else {
            Some(t)
        },
        None => None,
    }
}

fn bind_param(n: &Json, src: &Source, shadows: &Vec<StringHashSet>, scope: &mut Scope)
    requires
        src.well_formed(),
    ensures
        map_view(final(scope)@) == with_param(
            n@,
            src@,
            set_views(shadows@),
            map_view(old(scope)@),
        ),
{
    let p = pattern_of(n);
    let ann = keep_safe(annotation(p, src), shadows);
    if p.is_kind("Identifier") {
        bind(scope, p.name(), Binding::Param { ann });
    } else {
        match ann {
            Some(base) => {
                if p.is_kind("ObjectPattern") {
                    bind_object_projections(p.get("properties"), &base, scope);
                } else {
                    bind_pattern_names(p, scope);
                }
            },
            None => bind_pattern_names(p, scope),
        }
    }
}

fn collect_type_params(list: &Json) -> (r: StringHashSet)
    ensures
        r@ == type_param_names(list@.items()),
{
    let ghost all = list@.items();
    let mut out: StringHashSet = StringHashSet::new();
    let total: usize = list.count();
    let mut i: usize = 0;
    while i < total
        invariant
            all == list@.items(),
            total == all.len(),
            i <= total,
            out@ == type_param_names(all.take(i as int)),
        decreases total - i,
    {
        let _ = out.insert(list.at(i).get("name").name());
        proof {
            assert(all.take(i + 1).drop_last() =~= all.take(i as int));
            assert(all.take(i + 1).last() == all[i as int]);
        }
        i += 1;
    }
    assert(all.take(i as int) =~= all);
    out
}

impl UsageVisitor {
    /// Enters the scope of a function.
    pub fn push_fn_scope(&mut self, f: &Json, src: &Source)
        requires
            src.well_formed(),
            old(self).well_formed(),
        ensures
            final(self).well_formed(),
            final(self)@ == old(self)@.pushed(
                function_scope(f@, src@, old(self)@.names.shadows).values,
                function_scope(f@, src@, old(self)@.names.shadows).types,
            ),
    {
        let ghost before = self@;
        let mut types = collect_type_params(f.get("typeParameters").get("params"));
        let mut scope = empty_scope();
        let body = f.get("body");
        let ghost start = ScanView { values: Map::empty(), types: types@ };
        assert(scan_view(scope, types) == start);
        if body.is_kind("BlockStatement") {
            scan_stmts(body.get("body"), &mut scope, &mut types, 0);
        }
        let ghost scan = scan_view(scope, types);
        let ghost shadows = before.names.shadows.push(types@);
        let ghost values = map_view(scope@);
        self.names.shadows.push(types);
        assert(set_views(self.names.shadows@) =~= shadows);
        let list = f.get("params");
        let ghost all = list@.items();
        let total: usize = list.count();
        let mut i: usize = 0;
        while i < total
            invariant
                src.well_formed(),
                all == list@.items(),
                total == all.len(),
                i <= total,
                shadows == set_views(self.names.shadows@),
                map_view(scope@) == with_params(all.take(i as int), src@, shadows, values),
            decreases total - i,
        {
            bind_param(list.at(i), src, &self.names.shadows, &mut scope);
            proof {
                assert(all.take(i + 1).drop_last() =~= all.take(i as int));
                assert(all.take(i + 1).last() == all[i as int]);
            }
            i += 1;
        }
        assert(all.take(i as int) =~= all);
        self.names.scopes.push(scope);
        proof {
            let target = function_scope(f@, src@, before.names.shadows);
            assert(self@.names.scopes =~= before.names.scopes.push(target.values));
            assert(self@.names.shadows =~= before.names.shadows.push(target.types));
            assert(self@.usages == before.usages);
        }
    }

    /// Binds a local variable.
    pub fn bind_local(&mut self, d: &Json, is_const: bool, src: &Source)
        requires
            src.well_formed(),
            old(self).well_formed(),
            old(self)@.names.scopes.len() > 0,
        ensures
            final(self).well_formed(),
            final(self)@ == old(self)@.bound(
                d@.get("id"@).name(),
                safe_binding(
                    variable_binding(d@, is_const, false, src@),
                    old(self)@.names.shadows,
                ),
            ),
    {
        let b = classify_declarator(d, is_const, false, src);
        let safe = match b {
            Binding::Const { ann, lit } => Binding::Const {
                ann: keep_safe(ann, &self.names.shadows),
                lit,
            },
            other => other,
        };
        self.bind_here(d.get("id").name(), safe);
    }
}

} // verus!
