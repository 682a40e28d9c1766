//! What names refer to in a scope, and which names a function body declares.

use vstd::hash_map::StringHashMap;
use vstd::hash_set::StringHashSet;
use vstd::prelude::*;

use crate::json::{items_size, Json, JsonView};
use crate::model::{map_view, opt_view, Observed, ObservedView, TypeExpr, TypeExprView};
use crate::syntax::{key_name, key_of};

verus! {

broadcast use {crate::json::group_json_sizes, crate::model::group_model_views};

/// What a name in scope refers to, for conservative resolution.
#[derive(Debug)]
pub enum Binding {
    /// Module-level function or const-bound arrow/function expression (a call target).
    Fn,
    /// Imported binding (named or default); resolved through the module's
    /// imports when linking. Unresolvable imports have this binding too, so
    /// that their uses taint by name instead of vanishing.
    Import,
    /// `import * as ns from ...`.
    Namespace,
    Const { ann: Option<TypeExpr>, lit: Option<Observed> },
    Param { ann: Option<TypeExpr> },
    /// `const obj = { m() {} }`: methods are call targets.
    ObjectConst,
    /// `const x = new Cls()`.
    Instance(String),
    ClassDecl,
    EnumDecl,
    /// Anything else local (let, nested function, catch variable, block
    /// shadow, ...): shadows outer names; calls through it are unattributable.
    LocalOther,
}

#[verifier::ext_equal]
pub enum BindingView {
    Fn,
    Import,
    Namespace,
    Const { ann: Option<TypeExprView>, lit: Option<ObservedView> },
    Param { ann: Option<TypeExprView> },
    ObjectConst,
    Instance(Seq<char>),
    ClassDecl,
    EnumDecl,
    LocalOther,
}

impl View for Binding {
    type V = BindingView;

    open spec fn view(&self) -> BindingView {
        match self {
            Binding::Fn => BindingView::Fn,
            Binding::Import => BindingView::Import,
            Binding::Namespace => BindingView::Namespace,
            Binding::Const { ann, lit } => BindingView::Const {
                ann: opt_view(*ann),
                lit: opt_view(*lit),
            },
            Binding::Param { ann } => BindingView::Param { ann: opt_view(*ann) },
            Binding::ObjectConst => BindingView::ObjectConst,
            Binding::Instance(c) => BindingView::Instance(c@),
            Binding::ClassDecl => BindingView::ClassDecl,
            Binding::EnumDecl => BindingView::EnumDecl,
            Binding::LocalOther => BindingView::LocalOther,
        }
    }
}

pub type Scope = StringHashMap<Binding>;

pub type ScopeMap = Map<Seq<char>, BindingView>;

/// Adds a binding.
pub fn bind(scope: &mut Scope, name: String, b: Binding)
    ensures
        map_view(final(scope)@) == map_view(old(scope)@).insert(name@, b@),
{
    let ghost before = map_view(scope@);
    scope.insert(name, b);
    assert(map_view(scope@) =~= before.insert(name@, b@));
}

/// No bindings.
pub fn empty_scope() -> (r: Scope)
    ensures
        map_view(r@) == Map::<Seq<char>, BindingView>::empty(),
{
    let s: Scope = StringHashMap::new();
    assert(map_view(s@) =~= Map::empty());
    s
}

// ---------------------------------------------------------------------------
// Patterns
// ---------------------------------------------------------------------------

/// The scope with every name of a pattern bound as a local.
pub open spec fn with_names(n: JsonView, scope: ScopeMap) -> ScopeMap
    decreases n.size(),
{
    if n is Null {
        scope
    } else if n.is_kind("Identifier"@) {
        scope.insert(n.name(), BindingView::LocalOther)
    } else if n.is_kind("ObjectPattern"@) {
        with_all_names(n.get("properties"@).items(), scope)
    } else if n.is_kind("ArrayPattern"@) {
        with_all_names(n.get("elements"@).items(), scope)
    } else if n.is_kind("Property"@) {
        with_names(n.get("value"@), scope)
    } else if n.is_kind("AssignmentPattern"@) {
        with_names(n.get("left"@), scope)
    } else if n.is_kind("RestElement"@) {
        with_names(n.get("argument"@), scope)
    } else if n.is_kind("TSParameterProperty"@) {
        with_names(n.get("parameter"@), scope)
    } else {
        scope
    }
}

pub open spec fn with_all_names(items: Seq<JsonView>, scope: ScopeMap) -> ScopeMap
    decreases items_size(items),
{
    if items.len() == 0 {
        scope
    } else {
        with_names(items.last(), with_all_names(items.drop_last(), scope))
    }
}

/// The scope with the names of an object pattern bound to the types of the
/// properties of `base` that they receive. Names that receive anything else
/// are bound as locals.
pub open spec fn with_projections(
    items: Seq<JsonView>,
    base: TypeExprView,
    scope: ScopeMap,
) -> ScopeMap
    decreases items_size(items),
{
    if items.len() == 0 {
        scope
    } else {
        let prop = items.last();
        let before = with_projections(items.drop_last(), base, scope);
        match key_name(prop) {
            Some(key) => if prop.is_kind("Property"@) {
                with_projection(
                    prop.get("value"@),
                    TypeExprView::Proj(Box::new(base), key),
                    before,
                )
            } else {
                with_names(prop, before)
            },
            None => with_names(prop, before),
        }
    }
}

/// The scope with the names of a pattern bound to what they receive of a value
/// of type `ty`. A default only takes `undefined` out of that type.
pub open spec fn with_projection(n: JsonView, ty: TypeExprView, scope: ScopeMap) -> ScopeMap
    decreases n.size(),
{
    if n is Null {
        scope
    } else if n.is_kind("Identifier"@) {
        scope.insert(n.name(), BindingView::Param { ann: Some(ty) })
    } else if n.is_kind("ObjectPattern"@) {
        with_projections(n.get("properties"@).items(), ty, scope)
    } else if n.is_kind("AssignmentPattern"@) {
        with_projection(n.get("left"@), ty, scope)
    } else {
        with_names(n, scope)
    }
}

/// Binds every name of a pattern as a local.
pub fn bind_pattern_names(n: &Json, scope: &mut Scope)
    ensures
        map_view(final(scope)@) == with_names(n@, map_view(old(scope)@)),
    decreases n@.size(),
{
    if n.is_null() {
    } else if n.is_kind("Identifier") {
        bind(scope, n.name(), Binding::LocalOther);
    } else if n.is_kind("ObjectPattern") {
        bind_list_names(n.get("properties"), scope);
    } else if n.is_kind("ArrayPattern") {
        bind_list_names(n.get("elements"), scope);
    } else if n.is_kind("Property") {
        bind_pattern_names(n.get("value"), scope);
    } else if n.is_kind("AssignmentPattern") {
        bind_pattern_names(n.get("left"), scope);
    } else if n.is_kind("RestElement") {
        bind_pattern_names(n.get("argument"), scope);
    } else if n.is_kind("TSParameterProperty") {
        bind_pattern_names(n.get("parameter"), scope);
    }
}

/// Binds every name of the patterns in a list as a local.
pub fn bind_list_names(list: &Json, scope: &mut Scope)
    ensures
        map_view(final(scope)@) == with_all_names(list@.items(), map_view(old(scope)@)),
    decreases list@.size(),
{
    let ghost all = list@.items();
    let ghost before = map_view(scope@);
    let total: usize = list.count();
    let mut i: usize = 0;
    while i < total
        invariant
            all == list@.items(),
            total == all.len(),
            i <= total,
            map_view(scope@) == with_all_names(all.take(i as int), before),
        decreases total - i,
    {
        bind_pattern_names(list.at(i), scope);
        proof {
            assert(all.take(i + 1).drop_last() =~= all.take(i as int));
            assert(all.take(i + 1).last() == all[i as int]);
        }
        i += 1;
    }
    assert(all.take(i as int) =~= all);
}

/// Binds the names of an object pattern to property projections of `base`.
pub fn bind_object_projections(list: &Json, base: &TypeExpr, scope: &mut Scope)
    ensures
        map_view(final(scope)@) == with_projections(
            list@.items(),
            base@,
            map_view(old(scope)@),
        ),
    decreases list@.size(),
{
    let ghost all = list@.items();
    let ghost before = map_view(scope@);
    let total: usize = list.count();
    let mut i: usize = 0;
    while i < total
        invariant
            all == list@.items(),
            total == all.len(),
            i <= total,
            map_view(scope@) == with_projections(all.take(i as int), base@, before),
        decreases total - i,
    {
        let prop = list.at(i);
        proof {
            assert(all.take(i + 1).drop_last() =~= all.take(i as int));
            assert(all.take(i + 1).last() == prop@);
        }
        match key_of(prop) {
            Some(key) => {
                if prop.is_kind("Property") {
                    let proj = TypeExpr::Proj(Box::new(base.copy()), key);
                    bind_pattern_projection(prop.get("value"), proj, scope);
                } else {
                    bind_pattern_names(prop, scope);
                }
            },
            None => bind_pattern_names(prop, scope),
        }
        i += 1;
    }
    assert(all.take(i as int) =~= all);
}

fn bind_pattern_projection(n: &Json, ty: TypeExpr, scope: &mut Scope)
    ensures
        map_view(final(scope)@) == with_projection(n@, ty@, map_view(old(scope)@)),
    decreases n@.size(),
{
    if n.is_null() {
    } else if n.is_kind("Identifier") {
        bind(scope, n.name(), Binding::Param { ann: Some(ty) });
    } else if n.is_kind("ObjectPattern") {
        bind_object_projections(n.get("properties"), &ty, scope);
    } else if n.is_kind("AssignmentPattern") {
        bind_pattern_projection(n.get("left"), ty, scope);
    } else {
        bind_pattern_names(n, scope);
    }
}

// ---------------------------------------------------------------------------
// Function bodies: every name declared anywhere in a function body (at any
// block depth, outside nested functions) shadows outer scopes for the whole
// function. References before or inside blocks then degrade to unattributable
// ones instead of being bound to an outer declaration.
// ---------------------------------------------------------------------------

/// Nesting beyond which statements are not scanned.
pub const STMT_DEPTH_LIMIT: usize = 500;

/// The values and the types that a body declares.
#[verifier::ext_equal]
pub struct ScanView {
    pub values: ScopeMap,
    pub types: Set<Seq<char>>,
}

impl ScanView {
    pub open spec fn value(self, id: JsonView) -> ScanView {
        if id is Null {
            self
        } else {
            ScanView {
                values: self.values.insert(id.name(), BindingView::LocalOther),
                types: self.types,
            }
        }
    }

    pub open spec fn typed(self, id: JsonView) -> ScanView {
        ScanView { values: self.values, types: self.types.insert(id.name()) }
    }

    /// With the names of a variable declaration; anything else declares nothing.
    pub open spec fn variables(self, n: JsonView) -> ScanView {
        if n.is_kind("VariableDeclaration"@) {
            ScanView {
                values: with_declarators(n.get("declarations"@).items(), self.values),
                types: self.types,
            }
        } else {
            self
        }
    }
}

pub open spec fn with_declarators(items: Seq<JsonView>, scope: ScopeMap) -> ScopeMap
    decreases items.len(),
{
    if items.len() == 0 {
        scope
    } else {
        with_names(items.last().get("id"@), with_declarators(items.drop_last(), scope))
    }
}

/// What a statement declares, added to what is known.
pub open spec fn scanned(n: JsonView, depth: int, s: ScanView) -> ScanView
    decreases STMT_DEPTH_LIMIT + 1 - depth, 0int, 0nat,
{
    if depth > STMT_DEPTH_LIMIT {
        s
    } else if n.is_kind("VariableDeclaration"@) {
        s.variables(n)
    } else if n.is_kind("FunctionDeclaration"@) || n.is_kind("TSDeclareFunction"@) || n.is_kind(
        "ClassDeclaration"@,
    ) {
        s.value(n.get("id"@))
    } else if n.is_kind("TSTypeAliasDeclaration"@) || n.is_kind("TSInterfaceDeclaration"@) {
        s.typed(n.get("id"@))
    } else if n.is_kind("TSEnumDeclaration"@) {
        s.typed(n.get("id"@)).value(n.get("id"@))
    } else if n.is_kind("BlockStatement"@) {
        scanned_all(n.get("body"@).items(), depth + 1, s)
    } else if n.is_kind("IfStatement"@) {
        scanned(n.get("alternate"@), depth + 1, scanned(n.get("consequent"@), depth + 1, s))
    } else if n.is_kind("ForStatement"@) {
        scanned(n.get("body"@), depth + 1, s.variables(n.get("init"@)))
    } else if n.is_kind("ForInStatement"@) || n.is_kind("ForOfStatement"@) {
        scanned(n.get("body"@), depth + 1, s.variables(n.get("left"@)))
    } else if n.is_kind("WhileStatement"@) || n.is_kind("DoWhileStatement"@) || n.is_kind(
        "LabeledStatement"@,
    ) {
        scanned(n.get("body"@), depth + 1, s)
    } else if n.is_kind("SwitchStatement"@) {
        scanned_cases(n.get("cases"@).items(), depth + 1, s)
    } else if n.is_kind("TryStatement"@) {
        let block = scanned_all(n.get("block"@).get("body"@).items(), depth + 1, s);
        let handler = n.get("handler"@);
        let caught = scanned_all(
            handler.get("body"@).get("body"@).items(),
            depth + 1,
            ScanView {
                values: with_names(handler.get("param"@), block.values),
                types: block.types,
            },
        );
        scanned_all(n.get("finalizer"@).get("body"@).items(), depth + 1, caught)
    } else {
        s
    }
}

/// What the statements declare, added to what is known.
pub open spec fn scanned_all(items: Seq<JsonView>, depth: int, s: ScanView) -> ScanView
    decreases STMT_DEPTH_LIMIT + 1 - depth, 1int, items.len(),
{
    if items.len() == 0 {
        s
    } else {
        scanned(items.last(), depth, scanned_all(items.drop_last(), depth, s))
    }
}

/// What the cases of a switch declare, added to what is known.
pub open spec fn scanned_cases(items: Seq<JsonView>, depth: int, s: ScanView) -> ScanView
    decreases STMT_DEPTH_LIMIT + 1 - depth, 2int, items.len(),
{
    if items.len() == 0 {
        s
    } else {
        scanned_all(
            items.last().get("consequent"@).items(),
            depth,
            scanned_cases(items.drop_last(), depth, s),
        )
    }
}

pub open spec fn scan_view(values: Scope, types: StringHashSet) -> ScanView {
    ScanView { values: map_view(values@), types: types@ }
}

fn scan_variables(n: &Json, values: &mut Scope)
    ensures
        forall|types: Set<Seq<char>>|
            (#[trigger] (ScanView { values: map_view(old(values)@), types }).variables(n@)) == (
            ScanView { values: map_view(final(values)@), types }),
{
    if n.is_kind("VariableDeclaration") {
        let list = n.get("declarations");
        let ghost all = list@.items();
        let ghost before = map_view(values@);
        let total: usize = list.count();
        let mut i: usize = 0;
        while i < total
            invariant
                all == list@.items(),
                total == all.len(),
                i <= total,
                map_view(values@) == with_declarators(all.take(i as int), before),
            decreases total - i,
        {
            bind_pattern_names(list.at(i).get("id"), values);
            proof {
                assert(all.take(i + 1).drop_last() =~= all.take(i as int));
                assert(all.take(i + 1).last() == all[i as int]);
            }
            i += 1;
        }
        assert(all.take(i as int) =~= all);
    }
}

fn scan_value(id: &Json, values: &mut Scope)
    ensures
        forall|types: Set<Seq<char>>|
            (#[trigger] (ScanView { values: map_view(old(values)@), types }).value(id@)) == (
            ScanView { values: map_view(final(values)@), types }),
{
    if !id.is_null() {
        bind(values, id.name(), Binding::LocalOther);
    }
}

/// Collects what the statements of a list declare.
pub fn scan_stmts(list: &Json, values: &mut Scope, types: &mut StringHashSet, depth: usize)
    ensures
        scan_view(*final(values), *final(types)) == scanned_all(
            list@.items(),
            depth as int,
            scan_view(*old(values), *old(types)),
        ),
    decreases STMT_DEPTH_LIMIT + 1 - depth, 1int,
{
    let ghost all = list@.items();
    let ghost before = scan_view(*values, *types);
    let total: usize = list.count();
    let mut i: usize = 0;
    while i < total
        invariant
            all == list@.items(),
            total == all.len(),
            i <= total,
            scan_view(*values, *types) == scanned_all(all.take(i as int), depth as int, before),
        decreases total - i,
    {
        scan_stmt(list.at(i), values, types, depth);
        proof {
            assert(all.take(i + 1).drop_last() =~= all.take(i as int));
            assert(all.take(i + 1).last() == all[i as int]);
        }
        i += 1;
    }
    assert(all.take(i as int) =~= all);
}

fn scan_cases(list: &Json, values: &mut Scope, types: &mut StringHashSet, depth: usize)
    ensures
        scan_view(*final(values), *final(types)) == scanned_cases(
            list@.items(),
            depth as int,
            scan_view(*old(values), *old(types)),
        ),
    decreases STMT_DEPTH_LIMIT + 1 - depth, 2int,
{
    let ghost all = list@.items();
    let ghost before = scan_view(*values, *types);
    let total: usize = list.count();
    let mut i: usize = 0;
    while i < total
        invariant
            all == list@.items(),
            total == all.len(),
            i <= total,
            scan_view(*values, *types) == scanned_cases(all.take(i as int), depth as int, before),
        decreases total - i,
    {
        scan_stmts(list.at(i).get("consequent"), values, types, depth);
        proof {
            assert(all.take(i + 1).drop_last() =~= all.take(i as int));
            assert(all.take(i + 1).last() == all[i as int]);
        }
        i += 1;
    }
    assert(all.take(i as int) =~= all);
}

/// Collects what a statement declares.
pub fn scan_stmt(n: &Json, values: &mut Scope, types: &mut StringHashSet, depth: usize)
    ensures
        scan_view(*final(values), *final(types)) == scanned(
            n@,
            depth as int,
            scan_view(*old(values), *old(types)),
        ),
    decreases STMT_DEPTH_LIMIT + 1 - depth, 0int,
{
    if depth > STMT_DEPTH_LIMIT {
        return ;
    }
    if n.is_kind("VariableDeclaration") {
        scan_variables(n, values);
    } else if n.is_kind("FunctionDeclaration") || n.is_kind("TSDeclareFunction") || n.is_kind(
        "ClassDeclaration",
    ) {
        scan_value(n.get("id"), values);
    } else if n.is_kind("TSTypeAliasDeclaration") || n.is_kind("TSInterfaceDeclaration") {
        let _ = types.insert(n.get("id").name());
    } else if n.is_kind("TSEnumDeclaration") {
        let _ = types.insert(n.get("id").name());
        scan_value(n.get("id"), values);
    } else if n.is_kind("BlockStatement") {
        scan_stmts(n.get("body"), values, types, depth + 1);
    } else if n.is_kind("IfStatement") {
        scan_stmt(n.get("consequent"), values, types, depth + 1);
        scan_stmt(n.get("alternate"), values, types, depth + 1);
    } else if n.is_kind("ForStatement") {
        scan_variables(n.get("init"), values);
        scan_stmt(n.get("body"), values, types, depth + 1);
    } else if n.is_kind("ForInStatement") || n.is_kind("ForOfStatement") {
        scan_variables(n.get("left"), values);
        scan_stmt(n.get("body"), values, types, depth + 1);
    } else if n.is_kind("WhileStatement") || n.is_kind("DoWhileStatement") || n.is_kind(
        "LabeledStatement",
    ) {
        scan_stmt(n.get("body"), values, types, depth + 1);
    } else if n.is_kind("SwitchStatement") {
        scan_cases(n.get("cases"), values, types, depth + 1);
    } else if n.is_kind("TryStatement") {
        scan_stmts(n.get("block").get("body"), values, types, depth + 1);
        let handler = n.get("handler");
        bind_pattern_names(handler.get("param"), values);
        scan_stmts(handler.get("body").get("body"), values, types, depth + 1);
        scan_stmts(n.get("finalizer").get("body"), values, types, depth + 1);
    }
}

} // verus!
