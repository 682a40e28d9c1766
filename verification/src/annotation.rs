//! Type annotations, read from syntax trees.

use vstd::hash_set::StringHashSet;
use vstd::prelude::*;
use vstd::string::*;

use crate::json::{Json, JsonView};
use crate::model::{
    opt_view, views, ObjProp, ObjPropView, Observed, ObservedView, TypeExpr, TypeExprView,
};
use crate::source::Source;
use crate::syntax::{key_name, key_of, literal_value, simple_literal};

verus! {

broadcast use crate::model::group_model_views;

/// Nesting beyond which types and literals are not read.
pub const TYPE_DEPTH_LIMIT: usize = 200;

/// What a type node says, nested `depth` levels deep.
pub open spec fn type_expr(t: JsonView, src: Seq<char>, depth: int) -> TypeExprView
    decreases TYPE_DEPTH_LIMIT + 1 - depth, 0int,
{
    if depth > TYPE_DEPTH_LIMIT {
        TypeExprView::Opaque("<deep>"@)
    } else if t.is_kind("TSUnionType"@) {
        TypeExprView::Union(type_list(t.get("types"@).items(), src, depth + 1))
    } else if t.is_kind("TSLiteralType"@) {
        match literal_value(t.get("literal"@)) {
            Some(ObservedView::StrLit(s)) => TypeExprView::StrLit(s),
            Some(ObservedView::NumLit(n)) => TypeExprView::NumLit(n),
            Some(ObservedView::BoolLit(b)) => TypeExprView::BoolLit(b),
            _ => TypeExprView::Opaque(t.source_text(src)),
        }
    } else if t.is_kind("TSTypeReference"@) {
        if t.get("typeArguments"@) is Null && t.get("typeName"@).is_kind("Identifier"@) {
            TypeExprView::Ref(t.get("typeName"@).name())
        } else {
            TypeExprView::Opaque(t.source_text(src))
        }
    } else if t.is_kind("TSTypeLiteral"@) {
        object_type(t.get("members"@).items(), src, depth + 1)
    } else if t.is_kind("TSStringKeyword"@) {
        TypeExprView::Str
    } else if t.is_kind("TSNumberKeyword"@) {
        TypeExprView::Num
    } else if t.is_kind("TSBooleanKeyword"@) {
        TypeExprView::Bool
    } else if t.is_kind("TSUndefinedKeyword"@) {
        TypeExprView::Undefined
    } else if t.is_kind("TSNullKeyword"@) {
        TypeExprView::Null
    } else if t.is_kind("TSAnyKeyword"@) {
        TypeExprView::Any
    } else if t.is_kind("TSUnknownKeyword"@) {
        TypeExprView::Unknown
    } else if t.is_kind("TSParenthesizedType"@) {
        type_expr(t.get("typeAnnotation"@), src, depth + 1)
    } else {
        TypeExprView::Opaque(t.source_text(src))
    }
}

pub open spec fn type_list(items: Seq<JsonView>, src: Seq<char>, depth: int) -> Seq<TypeExprView>
    decreases TYPE_DEPTH_LIMIT + 1 - depth, items.len(),
{
    if items.len() == 0 {
        Seq::empty()
    } else {
        type_list(items.drop_last(), src, depth).push(type_expr(items.last(), src, depth))
    }
}

/// The object type with the given members; only property signatures are modelled.
pub open spec fn object_type(members: Seq<JsonView>, src: Seq<char>, depth: int) -> TypeExprView
    decreases TYPE_DEPTH_LIMIT + 1 - depth, members.len() + 1,
{
    if depth > TYPE_DEPTH_LIMIT {
        TypeExprView::Opaque("<deep>"@)
    } else {
        match object_props(members, src, depth) {
            Some(props) => TypeExprView::ObjectLit(props),
            None => TypeExprView::Opaque("<interface>"@),
        }
    }
}

pub open spec fn object_props(members: Seq<JsonView>, src: Seq<char>, depth: int) -> Option<
    Seq<ObjPropView>,
>
    decreases TYPE_DEPTH_LIMIT + 1 - depth, members.len(),
{
    if depth > TYPE_DEPTH_LIMIT {
        None
    } else if members.len() == 0 {
        Some(Seq::empty())
    } else {
        let m = members.last();
        match (object_props(members.drop_last(), src, depth), key_name(m)) {
            (Some(before), Some(name)) => if m.is_kind("TSPropertySignature"@) {
                Some(
                    before.push(
                        ObjPropView {
                            name,
                            ty: if m.get("typeAnnotation"@) is Null {
                                TypeExprView::Any
                            } else {
                                type_expr(
                                    m.get("typeAnnotation"@).get("typeAnnotation"@),
                                    src,
                                    depth + 1,
                                )
                            },
                            optional: m.get("optional"@).is_true(),
                        },
                    ),
                )
            } else {
                None
            },
            _ => None,
        }
    }
}

/// The annotation of a parameter, variable or property, if it has one.
pub open spec fn annotation_of(n: JsonView, src: Seq<char>) -> Option<TypeExprView> {
    if n.get("typeAnnotation"@) is Null {
        None
    } else {
        Some(type_expr(n.get("typeAnnotation"@).get("typeAnnotation"@), src, 0))
    }
}

proof fn lemma_props_fail(members: Seq<JsonView>, src: Seq<char>, depth: int, k: int)
    requires
        0 <= k <= members.len(),
        object_props(members.take(k), src, depth) is None,
    ensures
        object_props(members, src, depth) is None,
    decreases members.len() - k,
{
    if k == members.len() {
        assert(members.take(k) =~= members);
    } else {
        assert(members.take(k + 1).drop_last() =~= members.take(k));
        lemma_props_fail(members, src, depth, k + 1);
    }
}

fn signatures_to_object(members: &Json, src: &Source, depth: usize) -> (r: TypeExpr)
    requires
        src.well_formed(),
    ensures
        r@ == object_type(members@.items(), src@, depth as int),
    decreases TYPE_DEPTH_LIMIT + 1 - depth, 1int,
{
    if depth > TYPE_DEPTH_LIMIT {
        return TypeExpr::Opaque(String::from_str("<deep>"));
    }
    let ghost all = members@.items();
    let mut props: Vec<ObjProp> = Vec::new();
    assert(views(props@) =~= Seq::empty());
    let total: usize = members.count();
    let mut i: usize = 0;
    while i < total
        invariant
            src.well_formed(),
            depth <= TYPE_DEPTH_LIMIT,
            all == members@.items(),
            total == all.len(),
            i <= total,
            object_props(all.take(i as int), src@, depth as int) == Some(views(props@)),
        decreases total - i,
    {
        let m = members.at(i);
        proof {
            assert(all.take(i + 1).drop_last() =~= all.take(i as int));
            assert(all.take(i + 1).last() == m@);
        }
        if !m.is_kind("TSPropertySignature") {
            proof {
                lemma_props_fail(all, src@, depth as int, i + 1);
            }
            return TypeExpr::Opaque(String::from_str("<interface>"));
        }
        match key_of(m) {
            None => {
                proof {
                    lemma_props_fail(all, src@, depth as int, i + 1);
                }
                return TypeExpr::Opaque(String::from_str("<interface>"));
            },
            Some(name) => {
                let ty = if m.get("typeAnnotation").is_null() {
                    TypeExpr::Any
                } else {
                    ts_type_to_expr(m.get("typeAnnotation").get("typeAnnotation"), src, depth + 1)
                };
                let ghost before = views(props@);
                let p = ObjProp { name, ty, optional: m.get("optional").is_true() };
                props.push(p);
                assert(views(props@) =~= before.push(p@));
            },
        }
        i += 1;
    }
    assert(all.take(i as int) =~= all);
    TypeExpr::ObjectLit(props)
}

/// Reads a type node, nested `depth` levels deep.
pub fn ts_type_to_expr(t: &Json, src: &Source, depth: usize) -> (r: TypeExpr)
    requires
        src.well_formed(),
    ensures
        r@ == type_expr(t@, src@, depth as int),
    decreases TYPE_DEPTH_LIMIT + 1 - depth, 0int,
{
    if depth > TYPE_DEPTH_LIMIT {
        return TypeExpr::Opaque(String::from_str("<deep>"));
    }
    if t.is_kind("TSUnionType") {
        let types = t.get("types");
        let ghost all = types@.items();
        let mut out: Vec<TypeExpr> = Vec::new();
        assert(views(out@) =~= type_list(all.take(0), src@, depth + 1));
        let total: usize = types.count();
        let mut i: usize = 0;
        while i < total
            invariant
                src.well_formed(),
                depth <= TYPE_DEPTH_LIMIT,
                all == types@.items(),
                total == all.len(),
                i <= total,
                views(out@) == type_list(all.take(i as int), src@, depth + 1),
            decreases total - i,
        {
            let x = ts_type_to_expr(types.at(i), src, depth + 1);
            let ghost before = views(out@);
            out.push(x);
            proof {
                assert(views(out@) =~= before.push(x@));
                assert(all.take(i + 1).drop_last() =~= all.take(i as int));
                assert(all.take(i + 1).last() == all[i as int]);
            }
            i += 1;
        }
        assert(all.take(i as int) =~= all);
        TypeExpr::Union(out)
    } else if t.is_kind("TSLiteralType") {
        match simple_literal(t.get("literal")) {
            Some(Observed::StrLit(s)) => TypeExpr::StrLit(s),
            Some(Observed::NumLit(n)) => TypeExpr::NumLit(n),
            Some(Observed::BoolLit(b)) => TypeExpr::BoolLit(b),
            _ => TypeExpr::Opaque(t.source_text(src)),
        }
    } else if t.is_kind("TSTypeReference") {
        let name = t.get("typeName");
        if t.get("typeArguments").is_null() && name.is_kind("Identifier") {
            TypeExpr::Ref(name.name())
        } else {
            TypeExpr::Opaque(t.source_text(src))
        }
    } else if t.is_kind("TSTypeLiteral") {
        signatures_to_object(t.get("members"), src, depth + 1)
    } else if t.is_kind("TSStringKeyword") {
        TypeExpr::Str
    } else if t.is_kind("TSNumberKeyword") {
        TypeExpr::Num
    } else if t.is_kind("TSBooleanKeyword") {
        TypeExpr::Bool
    } else if t.is_kind("TSUndefinedKeyword") {
        TypeExpr::Undefined
    } else if t.is_kind("TSNullKeyword") {
        TypeExpr::Null
    } else if t.is_kind("TSAnyKeyword") {
        TypeExpr::Any
    } else if t.is_kind("TSUnknownKeyword") {
        TypeExpr::Unknown
    } else if t.is_kind("TSParenthesizedType") {
        ts_type_to_expr(t.get("typeAnnotation"), src, depth + 1)
    } else {
        TypeExpr::Opaque(t.source_text(src))
    }
}

/// The object type with the members of an interface.
pub fn interface_type(members: &Json, src: &Source) -> (r: TypeExpr)
    requires
        src.well_formed(),
    ensures
        r@ == object_type(members@.items(), src@, 0),
{
    signatures_to_object(members, src, 0)
}

/// Reads the annotation of a parameter, variable or property.
pub fn annotation(n: &Json, src: &Source) -> (r: Option<TypeExpr>)
    requires
        src.well_formed(),
    ensures
        opt_view(r) == annotation_of(n@, src@),
{
    if n.get("typeAnnotation").is_null() {
        None
    } else {
        Some(ts_type_to_expr(n.get("typeAnnotation").get("typeAnnotation"), src, 0))
    }
}

// ---------------------------------------------------------------------------
// Mentioned names
// ---------------------------------------------------------------------------

/// The names in the innermost scopes, as sets.
pub open spec fn set_views(s: Seq<StringHashSet>) -> Seq<Set<Seq<char>>> {
    Seq::new(s.len(), |i: int| s[i]@)
}

/// Whether some scope declares the name.
pub open spec fn declared_in(sets: Seq<Set<Seq<char>>>, name: Seq<char>) -> bool {
    exists|i: int| 0 <= i < sets.len() && (#[trigger] sets[i]).contains(name)
}

/// Whether a type refers to a name that some scope declares.
pub open spec fn mentions(te: TypeExprView, sets: Seq<Set<Seq<char>>>) -> bool
    decreases te,
{
    match te {
        TypeExprView::Ref(n) => declared_in(sets, n),
        TypeExprView::Union(parts) => exists|i: int|
            0 <= i < parts.len() && mentions(#[trigger] parts[i], sets),
        TypeExprView::ObjectLit(props) => exists|i: int|
            0 <= i < props.len() && mentions((#[trigger] props[i]).ty, sets),
        TypeExprView::Proj(base, _) => mentions(*base, sets),
        _ => false,
    }
}

fn name_declared(sets: &Vec<StringHashSet>, name: &String) -> (r: bool)
    ensures
        r == declared_in(set_views(sets@), name@),
{
    let mut i: usize = 0;
    while i < sets.len()
        invariant
            i <= sets@.len(),
            forall|j: int| 0 <= j < i ==> !(#[trigger] sets@[j])@.contains(name@),
        decreases sets@.len() - i,
    {
        if sets[i].contains(name.as_str()) {
            assert(set_views(sets@)[i as int].contains(name@));
            return true;
        }
        i += 1;
    }
    assert forall|j: int| 0 <= j < sets@.len() implies !(#[trigger] set_views(sets@)[j]).contains(
        name@,
    ) by {
        assert(!sets@[j]@.contains(name@));
    }
    false
}

/// Tests whether a type refers to a name that some scope declares.
pub fn type_mentions(te: &TypeExpr, sets: &Vec<StringHashSet>) -> (r: bool)
    ensures
        r == mentions(te@, set_views(sets@)),
    decreases te,
{
    let ghost shadows = set_views(sets@);
    match te {
        TypeExpr::Ref(n) => name_declared(sets, n),
        TypeExpr::Union(parts) => {
            let mut i: usize = 0;
            while i < parts.len()
                invariant
                    i <= parts@.len(),
                    *te == TypeExpr::Union(*parts),
                    te@ == TypeExprView::Union(views(parts@)),
                    shadows == set_views(sets@),
                    forall|j: int| 0 <= j < i ==> !mentions(#[trigger] views(parts@)[j], shadows),
                decreases parts@.len() - i,
            {
                proof {
                    assert(decreases_to!(*te => te->Union_0));
                    assert(decreases_to!(te->Union_0 => parts@));
                    assert(decreases_to!(parts@ => parts@[i as int]));
                    assert(views(parts@)[i as int] == parts@[i as int]@);
                }
                if type_mentions(&parts[i], sets) {
                    proof {
                        let all = views(parts@);
                        assert(mentions(all[i as int], shadows));
                        assert(i < all.len());
                        let whole = TypeExprView::Union(all);
                        assert(whole->Union_0[i as int] == all[i as int]);
                        assert(mentions(whole, shadows)) by {
                            reveal_with_fuel(mentions, 2);
                        }
                    }
                    return true;
                }
                i += 1;
            }
            false
        },
        TypeExpr::ObjectLit(props) => {
            let mut i: usize = 0;
            while i < props.len()
                invariant
                    i <= props@.len(),
                    *te == TypeExpr::ObjectLit(*props),
                    te@ == TypeExprView::ObjectLit(views(props@)),
                    shadows == set_views(sets@),
                    forall|j: int|
                        0 <= j < i ==> !mentions((#[trigger] views(props@)[j]).ty, shadows),
                decreases props@.len() - i,
            {
                proof {
                    assert(decreases_to!(*te => te->ObjectLit_0));
                    assert(decreases_to!(te->ObjectLit_0 => props@));
                    assert(decreases_to!(props@ => props@[i as int]));
                    assert(decreases_to!(props@[i as int] => props@[i as int].ty));
                    assert(views(props@)[i as int] == props@[i as int]@);
                }
                if type_mentions(&props[i].ty, sets) {
                    assert(mentions(views(props@)[i as int].ty, shadows));
                    return true;
                }
                i += 1;
            }
            false
        },
        TypeExpr::Proj(base, _) => type_mentions(base, sets),
        _ => false,
    }
}

// ---------------------------------------------------------------------------
// Literal values
// ---------------------------------------------------------------------------

/// The value of a literal, `undefined` or an object literal of such values,
/// independent of any scope.
pub open spec fn constant_value(e: JsonView, depth: int) -> Option<ObservedView>
    decreases TYPE_DEPTH_LIMIT + 1 - depth, 0int,
{
    if depth > TYPE_DEPTH_LIMIT {
        None
    } else if literal_value(e) is Some {
        literal_value(e)
    } else if e.is_kind("Identifier"@) && e.name() == "undefined"@ {
        Some(ObservedView::Undefined)
    } else if e.is_kind("ObjectExpression"@) {
        match constant_props(e.get("properties"@).items(), depth + 1) {
            Some(props) => Some(ObservedView::Object(props)),
            None => None,
        }
    } else {
        None
    }
}

pub open spec fn constant_props(items: Seq<JsonView>, depth: int) -> Option<
    Seq<(Seq<char>, ObservedView)>,
>
    decreases TYPE_DEPTH_LIMIT + 1 - depth, items.len(),
{
    if items.len() == 0 {
        Some(Seq::empty())
    } else {
        let p = items.last();
        match (
            constant_props(items.drop_last(), depth),
            key_name(p),
            constant_value(p.get("value"@), depth),
        ) {
            (Some(before), Some(name), Some(v)) => if p.is_kind("Property"@) {
                Some(before.push((name, v)))
            } else {
                None
            },
            _ => None,
        }
    }
}

proof fn lemma_constant_fail(items: Seq<JsonView>, depth: int, k: int)
    requires
        0 <= k <= items.len(),
        constant_props(items.take(k), depth) is None,
    ensures
        constant_props(items, depth) is None,
    decreases items.len() - k,
{
    if k == items.len() {
        assert(items.take(k) =~= items);
    } else {
        assert(items.take(k + 1).drop_last() =~= items.take(k));
        lemma_constant_fail(items, depth, k + 1);
    }
}

/// Reads a constant. Safe for parameter defaults: the default is evaluated
/// anew at call entry, so a nested object literal is exactly the value
/// observed. Not safe for variables, whose objects can change before a call.
pub fn literal_observed(e: &Json, depth: usize) -> (r: Option<Observed>)
    ensures
        opt_view(r) == constant_value(e@, depth as int),
    decreases TYPE_DEPTH_LIMIT + 1 - depth,
{
    if depth > TYPE_DEPTH_LIMIT {
        return None;
    }
    if let Some(l) = simple_literal(e) {
        return Some(l);
    }
    if e.is_kind("Identifier") && e.named("undefined") {
        return Some(Observed::Undefined);
    }
    if !e.is_kind("ObjectExpression") {
        return None;
    }
    let list = e.get("properties");
    let ghost all = list@.items();
    let mut props: Vec<(String, Observed)> = Vec::new();
    assert(views(props@) =~= Seq::empty());
    let total: usize = list.count();
    let mut i: usize = 0;
    while i < total
        invariant
            depth <= TYPE_DEPTH_LIMIT,
            all == list@.items(),
            total == all.len(),
            i <= total,
            constant_props(all.take(i as int), depth + 1) == Some(views(props@)),
            constant_value(e@, depth as int) == (match constant_props(all, depth + 1) {
                Some(props) => Some(ObservedView::Object(props)),
                None => None,
            }),
        decreases total - i,
    {
        let p = list.at(i);
        proof {
            assert(all.take(i + 1).drop_last() =~= all.take(i as int));
            assert(all.take(i + 1).last() == p@);
            if constant_props(all.take(i + 1), depth + 1) is None {
                lemma_constant_fail(all, depth + 1, i + 1);
            }
        }
        if !p.is_kind("Property") {
            return None;
        }
        let name = match key_of(p) {
            Some(name) => name,
            None => return None,
        };
        let v = match literal_observed(p.get("value"), depth + 1) {
            Some(v) => v,
            None => return None,
        };
        let ghost before = views(props@);
        let entry = (name, v);
        props.push(entry);
        assert(views(props@) =~= before.push(entry@));
        i += 1;
    }
    assert(all.take(i as int) =~= all);
    Some(Observed::Object(props))
}

} // verus!
