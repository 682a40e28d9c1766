//! What is read of types, expressions, variables and parameters.

use vstd::prelude::*;

use crate::annotation::{
    annotation_of, constant_props, constant_value, mentions, object_props, type_expr, type_list, TYPE_DEPTH_LIMIT,
};
use crate::json::JsonView;
use crate::link::passed;
use crate::model::{
    ArgsView, ObservedView, OwnerView, ParamView, SkipReason, TargetView, TypeExprView,
    UsageKindView,
};
use crate::observe::{is_static_member, lookup, observed, observed_args, observed_props, NamesView};
use crate::param::{decl_view, param_view, plain_params};
use crate::prepass::{is_function_value, variable_binding};
use crate::resolve::{resolved_observed, ProjectView};
use crate::scope::{BindingView, ScopeMap};
use crate::syntax::{key_name, literal_value};
use crate::usage::{safe_binding, StateView};
use crate::visit::{
    array_callback, attribute_props, attribute_value, callback_shape, component_args,
    event_handler, is_array_value, is_component_name, with_declared,
};

verus! {

/// The kinds of type nodes differ.
pub proof fn lemma_type_kinds()
    ensures
        "TSUnionType"@ != "TSLiteralType"@,
        "TSUnionType"@ != "TSTypeReference"@,
        "TSUnionType"@ != "TSTypeLiteral"@,
        "TSUnionType"@ != "TSStringKeyword"@,
        "TSUnionType"@ != "TSNumberKeyword"@,
        "TSUnionType"@ != "TSBooleanKeyword"@,
        "TSUnionType"@ != "TSUndefinedKeyword"@,
        "TSUnionType"@ != "TSNullKeyword"@,
        "TSUnionType"@ != "TSAnyKeyword"@,
        "TSUnionType"@ != "TSUnknownKeyword"@,
        "TSUnionType"@ != "TSParenthesizedType"@,
        "TSLiteralType"@ != "TSTypeReference"@,
        "TSLiteralType"@ != "TSTypeLiteral"@,
        "TSLiteralType"@ != "TSStringKeyword"@,
        "TSLiteralType"@ != "TSNumberKeyword"@,
        "TSLiteralType"@ != "TSBooleanKeyword"@,
        "TSLiteralType"@ != "TSUndefinedKeyword"@,
        "TSLiteralType"@ != "TSNullKeyword"@,
        "TSLiteralType"@ != "TSAnyKeyword"@,
        "TSLiteralType"@ != "TSUnknownKeyword"@,
        "TSLiteralType"@ != "TSParenthesizedType"@,
        "TSTypeReference"@ != "TSTypeLiteral"@,
        "TSTypeReference"@ != "TSStringKeyword"@,
        "TSTypeReference"@ != "TSNumberKeyword"@,
        "TSTypeReference"@ != "TSBooleanKeyword"@,
        "TSTypeReference"@ != "TSUndefinedKeyword"@,
        "TSTypeReference"@ != "TSNullKeyword"@,
        "TSTypeReference"@ != "TSAnyKeyword"@,
        "TSTypeReference"@ != "TSUnknownKeyword"@,
        "TSTypeReference"@ != "TSParenthesizedType"@,
        "TSTypeLiteral"@ != "TSStringKeyword"@,
        "TSTypeLiteral"@ != "TSNumberKeyword"@,
        "TSTypeLiteral"@ != "TSBooleanKeyword"@,
        "TSTypeLiteral"@ != "TSUndefinedKeyword"@,
        "TSTypeLiteral"@ != "TSNullKeyword"@,
        "TSTypeLiteral"@ != "TSAnyKeyword"@,
        "TSTypeLiteral"@ != "TSUnknownKeyword"@,
        "TSTypeLiteral"@ != "TSParenthesizedType"@,
        "TSStringKeyword"@ != "TSNumberKeyword"@,
        "TSStringKeyword"@ != "TSBooleanKeyword"@,
        "TSStringKeyword"@ != "TSUndefinedKeyword"@,
        "TSStringKeyword"@ != "TSNullKeyword"@,
        "TSStringKeyword"@ != "TSAnyKeyword"@,
        "TSStringKeyword"@ != "TSUnknownKeyword"@,
        "TSStringKeyword"@ != "TSParenthesizedType"@,
        "TSNumberKeyword"@ != "TSBooleanKeyword"@,
        "TSNumberKeyword"@ != "TSUndefinedKeyword"@,
        "TSNumberKeyword"@ != "TSNullKeyword"@,
        "TSNumberKeyword"@ != "TSAnyKeyword"@,
        "TSNumberKeyword"@ != "TSUnknownKeyword"@,
        "TSNumberKeyword"@ != "TSParenthesizedType"@,
        "TSBooleanKeyword"@ != "TSUndefinedKeyword"@,
        "TSBooleanKeyword"@ != "TSNullKeyword"@,
        "TSBooleanKeyword"@ != "TSAnyKeyword"@,
        "TSBooleanKeyword"@ != "TSUnknownKeyword"@,
        "TSBooleanKeyword"@ != "TSParenthesizedType"@,
        "TSUndefinedKeyword"@ != "TSNullKeyword"@,
        "TSUndefinedKeyword"@ != "TSAnyKeyword"@,
        "TSUndefinedKeyword"@ != "TSUnknownKeyword"@,
        "TSUndefinedKeyword"@ != "TSParenthesizedType"@,
        "TSNullKeyword"@ != "TSAnyKeyword"@,
        "TSNullKeyword"@ != "TSUnknownKeyword"@,
        "TSNullKeyword"@ != "TSParenthesizedType"@,
        "TSAnyKeyword"@ != "TSUnknownKeyword"@,
        "TSAnyKeyword"@ != "TSParenthesizedType"@,
        "TSUnknownKeyword"@ != "TSParenthesizedType"@,
        "TSUnionType"@.len() > 0,
        "TSLiteralType"@.len() > 0,
        "TSTypeReference"@.len() > 0,
        "TSTypeLiteral"@.len() > 0,
        "TSStringKeyword"@.len() > 0,
        "TSNumberKeyword"@.len() > 0,
        "TSBooleanKeyword"@.len() > 0,
        "TSUndefinedKeyword"@.len() > 0,
        "TSNullKeyword"@.len() > 0,
        "TSAnyKeyword"@.len() > 0,
        "TSUnknownKeyword"@.len() > 0,
        "TSParenthesizedType"@.len() > 0,
{
    reveal_strlit("TSUnionType");
    reveal_strlit("TSLiteralType");
    reveal_strlit("TSTypeReference");
    reveal_strlit("TSTypeLiteral");
    reveal_strlit("TSStringKeyword");
    reveal_strlit("TSNumberKeyword");
    reveal_strlit("TSBooleanKeyword");
    reveal_strlit("TSUndefinedKeyword");
    reveal_strlit("TSNullKeyword");
    reveal_strlit("TSAnyKeyword");
    reveal_strlit("TSUnknownKeyword");
    reveal_strlit("TSParenthesizedType");
    assert("TSUnionType"@.len() == 11);
    assert("TSLiteralType"@.len() == 13);
    assert("TSTypeReference"@.len() == 15);
    assert("TSTypeLiteral"@.len() == 13);
    assert("TSStringKeyword"@.len() == 15);
    assert("TSNumberKeyword"@.len() == 15);
    assert("TSBooleanKeyword"@.len() == 16);
    assert("TSUndefinedKeyword"@.len() == 18);
    assert("TSNullKeyword"@.len() == 13);
    assert("TSAnyKeyword"@.len() == 12);
    assert("TSUnknownKeyword"@.len() == 16);
    assert("TSParenthesizedType"@.len() == 19);
    assert("TSLiteralType"@[2] == 'L');
    assert("TSTypeLiteral"@[2] == 'T');
    assert("TSNullKeyword"@[2] == 'N');
    assert("TSTypeReference"@[2] == 'T');
    assert("TSStringKeyword"@[2] == 'S');
    assert("TSNumberKeyword"@[2] == 'N');
    assert("TSBooleanKeyword"@[2] == 'B');
    assert("TSUnknownKeyword"@[2] == 'U');
}

/// The kinds of expressions differ.
#[verifier::rlimit(40)]
pub proof fn lemma_expression_kinds()
    ensures
        "Literal"@ != "Identifier"@,
        "Literal"@ != "MemberExpression"@,
        "Literal"@ != "ObjectExpression"@,
        "Literal"@ != "TSAsExpression"@,
        "Literal"@ != "TSSatisfiesExpression"@,
        "Literal"@ != "TSNonNullExpression"@,
        "Literal"@ != "ParenthesizedExpression"@,
        "Literal"@ != "CallExpression"@,
        "Identifier"@ != "MemberExpression"@,
        "Identifier"@ != "ObjectExpression"@,
        "Identifier"@ != "TSAsExpression"@,
        "Identifier"@ != "TSSatisfiesExpression"@,
        "Identifier"@ != "TSNonNullExpression"@,
        "Identifier"@ != "ParenthesizedExpression"@,
        "Identifier"@ != "CallExpression"@,
        "MemberExpression"@ != "ObjectExpression"@,
        "MemberExpression"@ != "TSAsExpression"@,
        "MemberExpression"@ != "TSSatisfiesExpression"@,
        "MemberExpression"@ != "TSNonNullExpression"@,
        "MemberExpression"@ != "ParenthesizedExpression"@,
        "MemberExpression"@ != "CallExpression"@,
        "ObjectExpression"@ != "TSAsExpression"@,
        "ObjectExpression"@ != "TSSatisfiesExpression"@,
        "ObjectExpression"@ != "TSNonNullExpression"@,
        "ObjectExpression"@ != "ParenthesizedExpression"@,
        "ObjectExpression"@ != "CallExpression"@,
        "TSAsExpression"@ != "TSSatisfiesExpression"@,
        "TSAsExpression"@ != "TSNonNullExpression"@,
        "TSAsExpression"@ != "ParenthesizedExpression"@,
        "TSAsExpression"@ != "CallExpression"@,
        "TSSatisfiesExpression"@ != "TSNonNullExpression"@,
        "TSSatisfiesExpression"@ != "ParenthesizedExpression"@,
        "TSSatisfiesExpression"@ != "CallExpression"@,
        "TSNonNullExpression"@ != "ParenthesizedExpression"@,
        "TSNonNullExpression"@ != "CallExpression"@,
        "ParenthesizedExpression"@ != "CallExpression"@,
        "Literal"@.len() > 0,
        "Identifier"@.len() > 0,
        "MemberExpression"@.len() > 0,
        "ObjectExpression"@.len() > 0,
        "TSAsExpression"@.len() > 0,
        "TSSatisfiesExpression"@.len() > 0,
        "TSNonNullExpression"@.len() > 0,
        "ParenthesizedExpression"@.len() > 0,
        "CallExpression"@.len() > 0,
{
    reveal_strlit("Literal");
    reveal_strlit("Identifier");
    reveal_strlit("MemberExpression");
    reveal_strlit("ObjectExpression");
    reveal_strlit("TSAsExpression");
    reveal_strlit("TSSatisfiesExpression");
    reveal_strlit("TSNonNullExpression");
    reveal_strlit("ParenthesizedExpression");
    reveal_strlit("CallExpression");
    assert("Literal"@.len() == 7);
    assert("Identifier"@.len() == 10);
    assert("MemberExpression"@.len() == 16);
    assert("ObjectExpression"@.len() == 16);
    assert("TSAsExpression"@.len() == 14);
    assert("TSSatisfiesExpression"@.len() == 21);
    assert("TSNonNullExpression"@.len() == 19);
    assert("ParenthesizedExpression"@.len() == 23);
    assert("CallExpression"@.len() == 14);
    assert("MemberExpression"@[0] == 'M');
    assert("ObjectExpression"@[0] == 'O');
    assert("TSAsExpression"@[0] == 'T');
    assert("CallExpression"@[0] == 'C');
}

/// The kinds of attribute values differ.
pub proof fn lemma_attribute_kinds()
    ensures
        "Literal"@ != "JSXExpressionContainer"@,
        "Literal"@.len() > 0,
        "JSXExpressionContainer"@.len() > 0,
{
    reveal_strlit("Literal");
    reveal_strlit("JSXExpressionContainer");
    assert("Literal"@.len() == 7);
    assert("JSXExpressionContainer"@.len() == 22);
}

/// The names of array methods differ.
pub proof fn lemma_method_names()
    ensures
        "map"@ != "filter"@,
        "map"@ != "forEach"@,
        "map"@ != "some"@,
        "map"@ != "every"@,
        "map"@ != "find"@,
        "map"@ != "findIndex"@,
        "map"@ != "findLast"@,
        "map"@ != "findLastIndex"@,
        "map"@ != "flatMap"@,
        "map"@ != "sort"@,
        "map"@ != "toSorted"@,
        "map"@ != "reduce"@,
        "map"@ != "reduceRight"@,
        "filter"@ != "forEach"@,
        "filter"@ != "some"@,
        "filter"@ != "every"@,
        "filter"@ != "find"@,
        "filter"@ != "findIndex"@,
        "filter"@ != "findLast"@,
        "filter"@ != "findLastIndex"@,
        "filter"@ != "flatMap"@,
        "filter"@ != "sort"@,
        "filter"@ != "toSorted"@,
        "filter"@ != "reduce"@,
        "filter"@ != "reduceRight"@,
        "forEach"@ != "some"@,
        "forEach"@ != "every"@,
        "forEach"@ != "find"@,
        "forEach"@ != "findIndex"@,
        "forEach"@ != "findLast"@,
        "forEach"@ != "findLastIndex"@,
        "forEach"@ != "flatMap"@,
        "forEach"@ != "sort"@,
        "forEach"@ != "toSorted"@,
        "forEach"@ != "reduce"@,
        "forEach"@ != "reduceRight"@,
        "some"@ != "every"@,
        "some"@ != "find"@,
        "some"@ != "findIndex"@,
        "some"@ != "findLast"@,
        "some"@ != "findLastIndex"@,
        "some"@ != "flatMap"@,
        "some"@ != "sort"@,
        "some"@ != "toSorted"@,
        "some"@ != "reduce"@,
        "some"@ != "reduceRight"@,
        "every"@ != "find"@,
        "every"@ != "findIndex"@,
        "every"@ != "findLast"@,
        "every"@ != "findLastIndex"@,
        "every"@ != "flatMap"@,
        "every"@ != "sort"@,
        "every"@ != "toSorted"@,
        "every"@ != "reduce"@,
        "every"@ != "reduceRight"@,
        "find"@ != "findIndex"@,
        "find"@ != "findLast"@,
        "find"@ != "findLastIndex"@,
        "find"@ != "flatMap"@,
        "find"@ != "sort"@,
        "find"@ != "toSorted"@,
        "find"@ != "reduce"@,
        "find"@ != "reduceRight"@,
        "findIndex"@ != "findLast"@,
        "findIndex"@ != "findLastIndex"@,
        "findIndex"@ != "flatMap"@,
        "findIndex"@ != "sort"@,
        "findIndex"@ != "toSorted"@,
        "findIndex"@ != "reduce"@,
        "findIndex"@ != "reduceRight"@,
        "findLast"@ != "findLastIndex"@,
        "findLast"@ != "flatMap"@,
        "findLast"@ != "sort"@,
        "findLast"@ != "toSorted"@,
        "findLast"@ != "reduce"@,
        "findLast"@ != "reduceRight"@,
        "findLastIndex"@ != "flatMap"@,
        "findLastIndex"@ != "sort"@,
        "findLastIndex"@ != "toSorted"@,
        "findLastIndex"@ != "reduce"@,
        "findLastIndex"@ != "reduceRight"@,
        "flatMap"@ != "sort"@,
        "flatMap"@ != "toSorted"@,
        "flatMap"@ != "reduce"@,
        "flatMap"@ != "reduceRight"@,
        "sort"@ != "toSorted"@,
        "sort"@ != "reduce"@,
        "sort"@ != "reduceRight"@,
        "toSorted"@ != "reduce"@,
        "toSorted"@ != "reduceRight"@,
        "reduce"@ != "reduceRight"@,
        "map"@.len() > 0,
        "filter"@.len() > 0,
        "forEach"@.len() > 0,
        "some"@.len() > 0,
        "every"@.len() > 0,
        "find"@.len() > 0,
        "findIndex"@.len() > 0,
        "findLast"@.len() > 0,
        "findLastIndex"@.len() > 0,
        "flatMap"@.len() > 0,
        "sort"@.len() > 0,
        "toSorted"@.len() > 0,
        "reduce"@.len() > 0,
        "reduceRight"@.len() > 0,
{
    reveal_strlit("map");
    reveal_strlit("filter");
    reveal_strlit("forEach");
    reveal_strlit("some");
    reveal_strlit("every");
    reveal_strlit("find");
    reveal_strlit("findIndex");
    reveal_strlit("findLast");
    reveal_strlit("findLastIndex");
    reveal_strlit("flatMap");
    reveal_strlit("sort");
    reveal_strlit("toSorted");
    reveal_strlit("reduce");
    reveal_strlit("reduceRight");
    assert("map"@.len() == 3);
    assert("filter"@.len() == 6);
    assert("forEach"@.len() == 7);
    assert("some"@.len() == 4);
    assert("every"@.len() == 5);
    assert("find"@.len() == 4);
    assert("findIndex"@.len() == 9);
    assert("findLast"@.len() == 8);
    assert("findLastIndex"@.len() == 13);
    assert("flatMap"@.len() == 7);
    assert("sort"@.len() == 4);
    assert("toSorted"@.len() == 8);
    assert("reduce"@.len() == 6);
    assert("reduceRight"@.len() == 11);
    assert("filter"@[0] == 'f');
    assert("reduce"@[0] == 'r');
    assert("forEach"@[1] == 'o');
    assert("flatMap"@[1] == 'l');
    assert("some"@[0] == 's');
    assert("find"@[0] == 'f');
    assert("some"@[2] == 'm');
    assert("sort"@[2] == 'r');
    assert("sort"@[0] == 's');
    assert("findLast"@[0] == 'f');
    assert("toSorted"@[0] == 't');
}

/// The kinds of array values differ.
pub proof fn lemma_array_kinds()
    ensures
        "ArrayExpression"@ != "ParenthesizedExpression"@,
        "ArrayExpression"@ != "TSNonNullExpression"@,
        "ArrayExpression"@ != "CallExpression"@,
        "ParenthesizedExpression"@ != "TSNonNullExpression"@,
        "ParenthesizedExpression"@ != "CallExpression"@,
        "TSNonNullExpression"@ != "CallExpression"@,
        "ArrayExpression"@.len() > 0,
        "ParenthesizedExpression"@.len() > 0,
        "TSNonNullExpression"@.len() > 0,
        "CallExpression"@.len() > 0,
{
    reveal_strlit("ArrayExpression");
    reveal_strlit("ParenthesizedExpression");
    reveal_strlit("TSNonNullExpression");
    reveal_strlit("CallExpression");
    assert("ArrayExpression"@.len() == 15);
    assert("ParenthesizedExpression"@.len() == 23);
    assert("TSNonNullExpression"@.len() == 19);
    assert("CallExpression"@.len() == 14);
}

/// The kinds of parameters differ.
pub proof fn lemma_parameter_kinds()
    ensures
        "Identifier"@ != "AssignmentPattern"@,
        "Identifier"@ != "ArrayPattern"@,
        "Identifier"@ != "ObjectPattern"@,
        "Identifier"@ != "TSParameterProperty"@,
        "Identifier"@ != "RestElement"@,
        "AssignmentPattern"@ != "ArrayPattern"@,
        "AssignmentPattern"@ != "ObjectPattern"@,
        "AssignmentPattern"@ != "TSParameterProperty"@,
        "AssignmentPattern"@ != "RestElement"@,
        "ArrayPattern"@ != "ObjectPattern"@,
        "ArrayPattern"@ != "TSParameterProperty"@,
        "ArrayPattern"@ != "RestElement"@,
        "ObjectPattern"@ != "TSParameterProperty"@,
        "ObjectPattern"@ != "RestElement"@,
        "TSParameterProperty"@ != "RestElement"@,
        "Identifier"@.len() > 0,
        "AssignmentPattern"@.len() > 0,
        "ArrayPattern"@.len() > 0,
        "ObjectPattern"@.len() > 0,
        "TSParameterProperty"@.len() > 0,
        "RestElement"@.len() > 0,
{
    reveal_strlit("Identifier");
    reveal_strlit("AssignmentPattern");
    reveal_strlit("ArrayPattern");
    reveal_strlit("ObjectPattern");
    reveal_strlit("TSParameterProperty");
    reveal_strlit("RestElement");
    assert("Identifier"@.len() == 10);
    assert("AssignmentPattern"@.len() == 17);
    assert("ArrayPattern"@.len() == 12);
    assert("ObjectPattern"@.len() == 13);
    assert("TSParameterProperty"@.len() == 19);
    assert("RestElement"@.len() == 11);
}

/// The kinds of initializers differ.
pub proof fn lemma_value_kinds()
    ensures
        "ArrowFunctionExpression"@ != "FunctionExpression"@,
        "ArrowFunctionExpression"@ != "TSEmptyBodyFunctionExpression"@,
        "ArrowFunctionExpression"@ != "ObjectExpression"@,
        "ArrowFunctionExpression"@ != "NewExpression"@,
        "ArrowFunctionExpression"@ != "Literal"@,
        "ArrowFunctionExpression"@ != "Identifier"@,
        "FunctionExpression"@ != "TSEmptyBodyFunctionExpression"@,
        "FunctionExpression"@ != "ObjectExpression"@,
        "FunctionExpression"@ != "NewExpression"@,
        "FunctionExpression"@ != "Literal"@,
        "FunctionExpression"@ != "Identifier"@,
        "TSEmptyBodyFunctionExpression"@ != "ObjectExpression"@,
        "TSEmptyBodyFunctionExpression"@ != "NewExpression"@,
        "TSEmptyBodyFunctionExpression"@ != "Literal"@,
        "TSEmptyBodyFunctionExpression"@ != "Identifier"@,
        "ObjectExpression"@ != "NewExpression"@,
        "ObjectExpression"@ != "Literal"@,
        "ObjectExpression"@ != "Identifier"@,
        "NewExpression"@ != "Literal"@,
        "NewExpression"@ != "Identifier"@,
        "Literal"@ != "Identifier"@,
        "ArrowFunctionExpression"@.len() > 0,
        "FunctionExpression"@.len() > 0,
        "TSEmptyBodyFunctionExpression"@.len() > 0,
        "ObjectExpression"@.len() > 0,
        "NewExpression"@.len() > 0,
        "Literal"@.len() > 0,
        "Identifier"@.len() > 0,
{
    reveal_strlit("ArrowFunctionExpression");
    reveal_strlit("FunctionExpression");
    reveal_strlit("TSEmptyBodyFunctionExpression");
    reveal_strlit("ObjectExpression");
    reveal_strlit("NewExpression");
    reveal_strlit("Literal");
    reveal_strlit("Identifier");
    assert("ArrowFunctionExpression"@.len() == 23);
    assert("FunctionExpression"@.len() == 18);
    assert("TSEmptyBodyFunctionExpression"@.len() == 29);
    assert("ObjectExpression"@.len() == 16);
    assert("NewExpression"@.len() == 13);
    assert("Literal"@.len() == 7);
    assert("Identifier"@.len() == 10);
}

// ---------------------------------------------------------------------------
// Types
// ---------------------------------------------------------------------------

proof fn lemma_type_list(items: Seq<JsonView>, src: Seq<char>, depth: int)
    ensures
        type_list(items, src, depth).len() == items.len(),
        forall|i: int|
            0 <= i < items.len() ==> #[trigger] type_list(items, src, depth)[i] == type_expr(
                items[i],
                src,
                depth,
            ),
    decreases items.len(),
{
    if items.len() > 0 {
        lemma_type_list(items.drop_last(), src, depth);
        assert forall|i: int| 0 <= i < items.len() implies #[trigger] type_list(
            items,
            src,
            depth,
        )[i] == type_expr(items[i], src, depth) by {
            if i < items.len() - 1 {
                assert(items.drop_last()[i] == items[i]);
                assert(type_list(items, src, depth)[i] == type_list(
                    items.drop_last(),
                    src,
                    depth,
                )[i]);
            }
        }
    }
}

/// The types that are keywords, and what each stands for.
pub open spec fn keyword(t: JsonView) -> Option<TypeExprView> {
    let kind = t.get("type"@).text();
    if kind == "TSStringKeyword"@ {
        Some(TypeExprView::Str)
    } else if kind == "TSNumberKeyword"@ {
        Some(TypeExprView::Num)
    } else if kind == "TSBooleanKeyword"@ {
        Some(TypeExprView::Bool)
    } else if kind == "TSUndefinedKeyword"@ {
        Some(TypeExprView::Undefined)
    } else if kind == "TSNullKeyword"@ {
        Some(TypeExprView::Null)
    } else if kind == "TSAnyKeyword"@ {
        Some(TypeExprView::Any)
    } else if kind == "TSUnknownKeyword"@ {
        Some(TypeExprView::Unknown)
    } else {
        None
    }
}

/// A keyword is read as the type that it names.
pub proof fn law_keywords_are_read(t: JsonView, src: Seq<char>, depth: int)
    requires
        depth <= TYPE_DEPTH_LIMIT,
        keyword(t) is Some,
    ensures
        type_expr(t, src, depth) == keyword(t)->0,
{
    lemma_type_kinds();
}

/// A literal type is read as its literal, string by string, number by number.
pub proof fn law_literal_types_are_read(t: JsonView, src: Seq<char>, depth: int)
    requires
        depth <= TYPE_DEPTH_LIMIT,
        t.is_kind("TSLiteralType"@),
        t.get("literal"@).is_kind("Literal"@),
    ensures
        t.get("literal"@).get("value"@) is Str ==> type_expr(t, src, depth)
            == TypeExprView::StrLit(t.get("literal"@).get("value"@)->Str_0),
        t.get("literal"@).get("value"@) is Bool ==> type_expr(t, src, depth)
            == TypeExprView::BoolLit(t.get("literal"@).get("value"@)->Bool_0),
        t.get("literal"@).get("value"@) is Number ==> type_expr(t, src, depth) is NumLit,
{
    lemma_type_kinds();
}

/// A union is read alternative by alternative: none is lost, none is added.
pub proof fn law_unions_are_read(t: JsonView, src: Seq<char>, depth: int, i: int)
    requires
        depth <= TYPE_DEPTH_LIMIT,
        t.is_kind("TSUnionType"@),
        0 <= i < t.get("types"@).items().len(),
    ensures
        type_expr(t, src, depth) is Union,
        type_expr(t, src, depth)->Union_0.len() == t.get("types"@).items().len(),
        type_expr(t, src, depth)->Union_0[i] == type_expr(
            t.get("types"@).items()[i],
            src,
            depth + 1,
        ),
{
    lemma_type_kinds();
    lemma_type_list(t.get("types"@).items(), src, depth + 1);
}

/// A plain name stands for the type of that name; one with type arguments is
/// not modelled. Parentheses do not matter.
pub proof fn law_references_are_read(t: JsonView, src: Seq<char>, depth: int)
    requires
        depth <= TYPE_DEPTH_LIMIT,
    ensures
        t.is_kind("TSTypeReference"@) && t.get("typeName"@).is_kind("Identifier"@) ==> if t.get(
            "typeArguments"@,
        ) is Null {
            type_expr(t, src, depth) == TypeExprView::Ref(t.get("typeName"@).name())
        } else {
            type_expr(t, src, depth) is Opaque
        },
        t.is_kind("TSParenthesizedType"@) ==> type_expr(t, src, depth) == type_expr(
            t.get("typeAnnotation"@),
            src,
            depth + 1,
        ),
{
    lemma_type_kinds();
}

/// What a type node is that is modelled.
pub open spec fn modelled_type(t: JsonView) -> bool {
    keyword(t) is Some || t.is_kind("TSUnionType"@) || t.is_kind("TSLiteralType"@) || t.is_kind(
        "TSTypeReference"@,
    ) || t.is_kind("TSTypeLiteral"@) || t.is_kind("TSParenthesizedType"@)
}

/// Any other type, as an intersection, an array or a function, is opaque.
pub proof fn law_other_types_are_opaque(t: JsonView, src: Seq<char>, depth: int)
    requires
        !modelled_type(t),
    ensures
        type_expr(t, src, depth) is Opaque,
{
}

/// Whether every member of an object type is a property with a plain name.
pub open spec fn all_properties(members: Seq<JsonView>) -> bool {
    forall|i: int|
        0 <= i < members.len() ==> (#[trigger] members[i]).is_kind("TSPropertySignature"@)
            && key_name(members[i]) is Some
}

/// Members of an object type are read in order, under their names, with their
/// types, and optional just where they say so; a single one that is no
/// property leaves the whole type unmodelled.
pub proof fn law_object_types_are_read(members: Seq<JsonView>, src: Seq<char>, depth: int)
    requires
        depth <= TYPE_DEPTH_LIMIT,
    ensures
        object_props(members, src, depth) is Some <==> all_properties(members),
        object_props(members, src, depth) is Some ==> {
            let props = object_props(members, src, depth)->0;
            &&& props.len() == members.len()
            &&& forall|i: int|
                0 <= i < members.len() ==> {
                    let p = #[trigger] props[i];
                    let m = members[i];
                    &&& p.name == key_name(m)->0
                    &&& p.optional == m.get("optional"@).is_true()
                    &&& m.get("typeAnnotation"@) is Null ==> p.ty is Any
                    &&& !(m.get("typeAnnotation"@) is Null) ==> p.ty == type_expr(
                        m.get("typeAnnotation"@).get("typeAnnotation"@),
                        src,
                        depth + 1,
                    )
                }
        },
    decreases members.len(),
{
    if members.len() > 0 {
        let front = members.drop_last();
        law_object_types_are_read(front, src, depth);
        if all_properties(members) {
            assert forall|i: int| 0 <= i < front.len() implies (#[trigger] front[i]).is_kind(
                "TSPropertySignature"@,
            ) && key_name(front[i]) is Some by {
                assert(members[i] == front[i]);
            }
            assert(members[members.len() - 1].is_kind("TSPropertySignature"@));
            let props = object_props(members, src, depth)->0;
            let before = object_props(front, src, depth)->0;
            assert forall|i: int| 0 <= i < members.len() implies {
                let p = #[trigger] props[i];
                let m = members[i];
                &&& p.name == key_name(m)->0
                &&& p.optional == m.get("optional"@).is_true()
                &&& m.get("typeAnnotation"@) is Null ==> p.ty is Any
                &&& !(m.get("typeAnnotation"@) is Null) ==> p.ty == type_expr(
                    m.get("typeAnnotation"@).get("typeAnnotation"@),
                    src,
                    depth + 1,
                )
            } by {
                if i < front.len() {
                    assert(props[i] == before[i]);
                    assert(front[i] == members[i]);
                }
            }
        }
        if object_props(members, src, depth) is Some {
            assert forall|i: int| 0 <= i < members.len() implies (#[trigger] members[i]).is_kind(
                "TSPropertySignature"@,
            ) && key_name(members[i]) is Some by {
                if i < front.len() {
                    assert(front[i] == members[i]);
                }
            }
        }
    }
}

// ---------------------------------------------------------------------------
// Expressions
// ---------------------------------------------------------------------------

/// A literal is read as its value.
pub proof fn law_literals_are_read(e: JsonView, src: Seq<char>, names: NamesView, depth: int)
    requires
        0 <= depth <= TYPE_DEPTH_LIMIT,
        e.is_kind("Literal"@),
    ensures
        e.get("value"@) is Str ==> observed(e, src, names, depth) == ObservedView::StrLit(
            e.get("value"@)->Str_0,
        ) && constant_value(e, depth) == Some(observed(e, src, names, depth)),
        e.get("value"@) is Bool ==> observed(e, src, names, depth) == ObservedView::BoolLit(
            e.get("value"@)->Bool_0,
        ) && constant_value(e, depth) == Some(observed(e, src, names, depth)),
        e.get("value"@) is Number ==> observed(e, src, names, depth) is NumLit,
        e.get("value"@) is Null && e.get("bigint"@) is Null && e.get("regex"@) is Null ==> observed(
            e,
            src,
            names,
            depth,
        ) is Null,
        e.get("value"@) is Null && !(e.get("bigint"@) is Null && e.get("regex"@) is Null)
            ==> observed(e, src, names, depth) is Opaque,
{
    lemma_expression_kinds();
}

/// `undefined` is read as itself.
pub proof fn law_undefined_is_read(e: JsonView, src: Seq<char>, names: NamesView, depth: int)
    requires
        0 <= depth <= TYPE_DEPTH_LIMIT,
        e.is_kind("Identifier"@),
        e.name() == "undefined"@,
    ensures
        observed(e, src, names, depth) is Undefined,
        constant_value(e, depth) == Some(ObservedView::Undefined),
{
    lemma_expression_kinds();
}

/// A name stands for a known value only if it is a constant or a parameter:
/// for the literal of an unannotated constant, and for a value of its type
/// where it is annotated with one that means the same everywhere.
pub proof fn law_names_are_read(e: JsonView, src: Seq<char>, names: NamesView, depth: int)
    requires
        0 <= depth <= TYPE_DEPTH_LIMIT,
        e.is_kind("Identifier"@),
        e.name() != "undefined"@,
    ensures
        (match lookup(names.scopes, e.name()) {
            Some(BindingView::Const { ann: None, lit: Some(l) }) => observed(e, src, names, depth)
                == l,
            Some(BindingView::Const { ann: Some(t), lit: _ }) => observed(e, src, names, depth)
                == if mentions(t, names.shadows) {
                ObservedView::Opaque
            } else {
                ObservedView::Typed(t)
            },
            Some(BindingView::Param { ann: Some(t) }) => observed(e, src, names, depth)
                == if mentions(t, names.shadows) {
                ObservedView::Opaque
            } else {
                ObservedView::Typed(t)
            },
            _ => observed(e, src, names, depth) is Opaque,
        }),
{
    lemma_expression_kinds();
}

/// A name means what the innermost scope that binds it binds it to.
pub proof fn law_inner_scopes_win(scopes: Seq<ScopeMap>, name: Seq<char>, i: int)
    requires
        0 <= i < scopes.len(),
        scopes[i].contains_key(name),
        forall|j: int| i < j < scopes.len() ==> !(#[trigger] scopes[j]).contains_key(name),
    ensures
        lookup(scopes, name) == Some(scopes[i][name]),
    decreases scopes.len(),
{
    if i < scopes.len() - 1 {
        assert(!scopes[scopes.len() - 1].contains_key(name));
        assert(scopes.drop_last()[i] == scopes[i]);
        assert forall|j: int| i < j < scopes.drop_last().len() implies !(
        #[trigger] scopes.drop_last()[j]).contains_key(name) by {
            assert(scopes[j] == scopes.drop_last()[j]);
        }
        law_inner_scopes_win(scopes.drop_last(), name, i);
    }
}

/// A member of an enum, of the module or imported, is read as that member.
pub proof fn law_enum_members_are_read(e: JsonView, src: Seq<char>, names: NamesView, depth: int)
    requires
        0 <= depth <= TYPE_DEPTH_LIMIT,
        is_static_member(e),
        e.get("object"@).is_kind("Identifier"@),
    ensures
        ({
            let b = lookup(names.scopes, e.get("object"@).name());
            if b == Some(BindingView::EnumDecl) || b == Some(BindingView::Import) {
                observed(e, src, names, depth) == (ObservedView::EnumMember {
                    enum_name: e.get("object"@).name(),
                    member: e.get("property"@).name(),
                })
            } else {
                observed(e, src, names, depth) is Opaque
            }
        }),
{
    lemma_expression_kinds();
}

/// `satisfies`, `!`, parentheses and `as const` leave the value as it is; a
/// cast to another type makes it a value of that type.
pub proof fn law_casts_are_read(e: JsonView, src: Seq<char>, names: NamesView, depth: int)
    requires
        0 <= depth <= TYPE_DEPTH_LIMIT,
    ensures
        e.is_kind("TSSatisfiesExpression"@) || e.is_kind("TSNonNullExpression"@) || e.is_kind(
            "ParenthesizedExpression"@,
        ) ==> observed(e, src, names, depth) == observed(
            e.get("expression"@),
            src,
            names,
            depth + 1,
        ),
        e.is_kind("TSAsExpression"@) ==> {
            let t = e.get("typeAnnotation"@);
            let as_const = t.is_kind("TSTypeReference"@) && t.get("typeName"@).is_kind(
                "Identifier"@,
            ) && t.get("typeName"@).name() == "const"@;
            if as_const {
                observed(e, src, names, depth) == observed(
                    e.get("expression"@),
                    src,
                    names,
                    depth + 1,
                )
            } else if mentions(type_expr(t, src, 0), names.shadows) {
                observed(e, src, names, depth) is Opaque
            } else {
                observed(e, src, names, depth) == ObservedView::Typed(type_expr(t, src, 0))
            }
        },
{
    lemma_expression_kinds();
}

/// Whether every property of an object literal has a plain name; neither a
/// spread nor a computed one does.
pub open spec fn all_named(items: Seq<JsonView>) -> bool {
    forall|i: int|
        0 <= i < items.len() ==> (#[trigger] items[i]).is_kind("Property"@) && key_name(items[i])
            is Some
}

/// The properties of an object literal are read in order, under their names;
/// one that cannot be told leaves the whole object unknown.
pub proof fn law_object_literals_are_read(
    items: Seq<JsonView>,
    src: Seq<char>,
    names: NamesView,
    depth: int,
)
    ensures
        observed_props(items, src, names, depth) is Some <==> all_named(items),
        observed_props(items, src, names, depth) is Some ==> {
            let props = observed_props(items, src, names, depth)->0;
            &&& props.len() == items.len()
            &&& forall|i: int|
                0 <= i < items.len() ==> (#[trigger] props[i]) == (
                    key_name(items[i])->0,
                    observed(items[i].get("value"@), src, names, depth),
                )
        },
    decreases items.len(),
{
    if items.len() > 0 {
        let front = items.drop_last();
        law_object_literals_are_read(front, src, names, depth);
        if all_named(items) {
            assert forall|i: int| 0 <= i < front.len() implies (#[trigger] front[i]).is_kind(
                "Property"@,
            ) && key_name(front[i]) is Some by {
                assert(items[i] == front[i]);
            }
            assert(items[items.len() - 1].is_kind("Property"@));
            let props = observed_props(items, src, names, depth)->0;
            let before = observed_props(front, src, names, depth)->0;
            assert forall|i: int| 0 <= i < items.len() implies (#[trigger] props[i]) == (
                key_name(items[i])->0,
                observed(items[i].get("value"@), src, names, depth),
            ) by {
                if i < front.len() {
                    assert(props[i] == before[i]);
                    assert(front[i] == items[i]);
                }
            }
        }
        if observed_props(items, src, names, depth) is Some {
            assert forall|i: int| 0 <= i < items.len() implies (#[trigger] items[i]).is_kind(
                "Property"@,
            ) && key_name(items[i]) is Some by {
                if i < front.len() {
                    assert(front[i] == items[i]);
                }
            }
        }
    }
}

/// An object literal is read as the object of its properties, or not at all.
pub proof fn law_objects_are_read(e: JsonView, src: Seq<char>, names: NamesView, depth: int)
    requires
        0 <= depth <= TYPE_DEPTH_LIMIT,
        e.is_kind("ObjectExpression"@),
    ensures
        (match observed_props(e.get("properties"@).items(), src, names, depth + 1) {
            Some(props) => observed(e, src, names, depth) == ObservedView::Object(props),
            None => observed(e, src, names, depth) is Opaque,
        }),
{
    lemma_expression_kinds();
}

/// What an expression is that is read at all.
pub open spec fn read_expression(e: JsonView) -> bool {
    e.is_kind("Literal"@) || e.is_kind("Identifier"@) || e.is_kind("MemberExpression"@)
        || e.is_kind("ObjectExpression"@) || e.is_kind("TSAsExpression"@) || e.is_kind(
        "TSSatisfiesExpression"@,
    ) || e.is_kind("TSNonNullExpression"@) || e.is_kind("ParenthesizedExpression"@)
}

/// Of any other expression, as a call, a condition, a template or an
/// operation, nothing is known; nor of one that is nested too deeply.
pub proof fn law_other_expressions_are_opaque(
    e: JsonView,
    src: Seq<char>,
    names: NamesView,
    depth: int,
)
    requires
        !read_expression(e) || depth > TYPE_DEPTH_LIMIT,
    ensures
        observed(e, src, names, depth) is Opaque,
{
}

/// The arguments of a call are read one by one, in order; a spread among them
/// leaves all of them unknown.
pub proof fn law_arguments_are_read(items: Seq<JsonView>, src: Seq<char>, names: NamesView, i: int)
    requires
        0 <= i < items.len(),
    ensures
        items[i].is_kind("SpreadElement"@) ==> observed_args(items, src, names) is Opaque,
        (forall|j: int| 0 <= j < items.len() ==> !(#[trigger] items[j]).is_kind("SpreadElement"@))
            ==> observed_args(items, src, names) is Args && observed_args(
            items,
            src,
            names,
        )->Args_0.len() == items.len() && observed_args(items, src, names)->Args_0[i] == observed(
            items[i],
            src,
            names,
            0,
        ),
{
}

// ---------------------------------------------------------------------------
// Variables
// ---------------------------------------------------------------------------

/// A variable that is not declared with `const` is never bound to a known
/// value, whatever its initializer is: its name as an argument is opaque.
pub proof fn law_assignable_variables_are_opaque(
    d: JsonView,
    module_level: bool,
    src: Seq<char>,
    e: JsonView,
    names: NamesView,
    depth: int,
)
    requires
        e.is_kind("Identifier"@),
        e.name() != "undefined"@,
        lookup(names.scopes, e.name()) == Some(variable_binding(d, false, module_level, src))
            || lookup(names.scopes, e.name()) == Some(
            safe_binding(variable_binding(d, false, module_level, src), names.shadows),
        ),
    ensures
        variable_binding(d, false, module_level, src) is Fn || variable_binding(
            d,
            false,
            module_level,
            src,
        ) is LocalOther,
        observed(e, src, names, depth) is Opaque,
{
    lemma_expression_kinds();
}

/// A `let` or `var` inside a function leaves its name without a known value.
pub proof fn law_local_variables_are_opaque(
    d: JsonView,
    src: Seq<char>,
    s: StateView,
    e: JsonView,
    depth: int,
)
    requires
        s.names.scopes.len() > 1,
        d.get("id"@).is_kind("Identifier"@),
        e.is_kind("Identifier"@),
        e.name() == d.get("id"@).name(),
        e.name() != "undefined"@,
    ensures
        observed(e, src, with_declared(d, false, src, s).names, depth) is Opaque,
{
    lemma_expression_kinds();
    let after = with_declared(d, false, src, s);
    assert(after.names.scopes.last().contains_key(e.name()));
}

/// A constant with a literal initializer stands for that literal, unless it is
/// annotated; then for a value of the annotated type.
pub proof fn law_constants_are_known(d: JsonView, module_level: bool, src: Seq<char>)
    requires
        d.get("init"@).is_kind("Literal"@),
        literal_value(d.get("init"@)) is Some,
    ensures
        variable_binding(d, true, module_level, src) == (BindingView::Const {
            ann: annotation_of(d.get("id"@), src),
            lit: literal_value(d.get("init"@)),
        }),
{
    lemma_value_kinds();
}

/// A constant that holds an object, an instance or a computed value has no
/// literal: objects can change before a call.
pub proof fn law_only_literals_are_known(d: JsonView, is_const: bool, module_level: bool, src: Seq<char>)
    requires
        !d.get("init"@).is_kind("Literal"@),
    ensures
        (match variable_binding(d, is_const, module_level, src) {
            BindingView::Const { ann, lit } => lit is None && is_const && ann == annotation_of(
                d.get("id"@),
                src,
            ),
            BindingView::Param { .. } => false,
            _ => true,
        }),
{
    lemma_value_kinds();
}

/// At the module level a variable that holds a function is that function, and
/// a constant object with methods stands for them; inside functions neither is
/// a call target.
pub proof fn law_function_variables(d: JsonView, is_const: bool, src: Seq<char>)
    ensures
        is_function_value(d.get("init"@)) ==> variable_binding(d, is_const, true, src) is Fn,
        is_function_value(d.get("init"@)) ==> variable_binding(d, is_const, false, src)
            is LocalOther,
        variable_binding(d, is_const, true, src) is Fn ==> is_function_value(d.get("init"@)),
        !(variable_binding(d, is_const, false, src) is ObjectConst),
        variable_binding(d, is_const, true, src) is ObjectConst ==> is_const,
        !(variable_binding(d, is_const, true, src) is Import),
        !(variable_binding(d, is_const, true, src) is Namespace),
        !(variable_binding(d, is_const, true, src) is EnumDecl),
        !(variable_binding(d, is_const, true, src) is ClassDecl),
{
}

/// `new C()` in a constant makes the constant an instance of `C`.
pub proof fn law_instances_are_known(d: JsonView, module_level: bool, src: Seq<char>)
    requires
        d.get("init"@).is_kind("NewExpression"@),
        d.get("init"@).get("callee"@).is_kind("Identifier"@),
    ensures
        variable_binding(d, true, module_level, src) == BindingView::Instance(
            d.get("init"@).get("callee"@).name(),
        ),
        variable_binding(d, false, module_level, src) is LocalOther,
{
    lemma_value_kinds();
}

// ---------------------------------------------------------------------------
// Constants
// ---------------------------------------------------------------------------

/// A constant object is read property by property; anything in it that is not
/// constant leaves the whole object unknown.
pub proof fn law_constant_objects_are_read(items: Seq<JsonView>, depth: int)
    ensures
        constant_props(items, depth) is Some <==> all_named(items) && forall|i: int|
            0 <= i < items.len() ==> constant_value((#[trigger] items[i]).get("value"@), depth)
                is Some,
        constant_props(items, depth) is Some ==> {
            let props = constant_props(items, depth)->0;
            &&& props.len() == items.len()
            &&& forall|i: int|
                0 <= i < items.len() ==> (#[trigger] props[i]) == (
                    key_name(items[i])->0,
                    constant_value(items[i].get("value"@), depth)->0,
                )
        },
    decreases items.len(),
{
    if items.len() > 0 {
        let front = items.drop_last();
        law_constant_objects_are_read(front, depth);
        let all = all_named(items) && forall|i: int|
            0 <= i < items.len() ==> constant_value((#[trigger] items[i]).get("value"@), depth)
                is Some;
        if all {
            assert forall|i: int| 0 <= i < front.len() implies (#[trigger] front[i]).is_kind(
                "Property"@,
            ) && key_name(front[i]) is Some && constant_value(front[i].get("value"@), depth)
                is Some by {
                assert(items[i] == front[i]);
            }
            assert(items[items.len() - 1].is_kind("Property"@));
            assert(constant_value(items[items.len() - 1].get("value"@), depth) is Some);
            let props = constant_props(items, depth)->0;
            let before = constant_props(front, depth)->0;
            assert forall|i: int| 0 <= i < items.len() implies (#[trigger] props[i]) == (
                key_name(items[i])->0,
                constant_value(items[i].get("value"@), depth)->0,
            ) by {
                if i < front.len() {
                    assert(props[i] == before[i]);
                    assert(front[i] == items[i]);
                }
            }
        }
        if constant_props(items, depth) is Some {
            assert forall|i: int| 0 <= i < items.len() implies (#[trigger] items[i]).is_kind(
                "Property"@,
            ) && key_name(items[i]) is Some && constant_value(items[i].get("value"@), depth)
                is Some by {
                if i < front.len() {
                    assert(front[i] == items[i]);
                }
            }
        }
    }
}

/// What is constant is what an expression evaluates to in every scope.
pub proof fn law_constants_hold_in_every_scope(
    e: JsonView,
    src: Seq<char>,
    names: NamesView,
    depth: int,
)
    requires
        constant_value(e, depth) is Some,
    ensures
        observed(e, src, names, depth) == constant_value(e, depth)->0,
    decreases TYPE_DEPTH_LIMIT + 1 - depth, 1int, 0nat,
{
    lemma_expression_kinds();
    if literal_value(e) is None && e.is_kind("ObjectExpression"@) {
        let items = e.get("properties"@).items();
        lemma_constant_props_hold(items, src, names, depth + 1);
    }
}

proof fn lemma_constant_props_hold(
    items: Seq<JsonView>,
    src: Seq<char>,
    names: NamesView,
    depth: int,
)
    requires
        constant_props(items, depth) is Some,
        depth <= TYPE_DEPTH_LIMIT + 1,
    ensures
        observed_props(items, src, names, depth) == constant_props(items, depth),
    decreases TYPE_DEPTH_LIMIT + 1 - depth, 2int, items.len(),
{
    if items.len() > 0 {
        lemma_constant_props_hold(items.drop_last(), src, names, depth);
        law_constants_hold_in_every_scope(items.last().get("value"@), src, names, depth);
    }
}

// ---------------------------------------------------------------------------
// Names of properties
// ---------------------------------------------------------------------------

/// A property has the name that its key spells: an identifier or a string. A
/// computed key is no name.
pub proof fn law_keys_are_read(n: JsonView)
    ensures
        n.get("computed"@).is_true() ==> key_name(n) is None,
        !n.get("computed"@).is_true() && n.get("key"@).is_kind("Identifier"@) ==> key_name(n)
            == Some(n.get("key"@).get("name"@).text()),
        !n.get("computed"@).is_true() && n.get("key"@).is_kind("Literal"@) && n.get("key"@).get(
            "value"@,
        ) is Str ==> key_name(n) == Some(n.get("key"@).get("value"@)->Str_0),
        !n.get("computed"@).is_true() && n.get("key"@).is_kind("Literal"@) && !(n.get("key"@).get(
            "value"@,
        ) is Str) ==> key_name(n) is None,
{
    lemma_expression_kinds();
}

// ---------------------------------------------------------------------------
// Components, callbacks and handlers
// ---------------------------------------------------------------------------

/// An attribute without a value passes `true`, one with a string that string,
/// one in braces what the expression evaluates to.
pub proof fn law_attributes_are_read(a: JsonView, src: Seq<char>, names: NamesView)
    ensures
        a.get("value"@) is Null ==> attribute_value(a, src, names) == ObservedView::BoolLit(true),
        a.get("value"@).is_kind("Literal"@) && a.get("value"@).get("value"@) is Str
            ==> attribute_value(a, src, names) == ObservedView::StrLit(
            a.get("value"@).get("value"@)->Str_0,
        ),
        a.get("value"@).is_kind("JSXExpressionContainer"@) ==> attribute_value(a, src, names)
            == observed(a.get("value"@).get("expression"@), src, names, 0),
        !(a.get("value"@) is Null) && !a.get("value"@).is_kind("Literal"@) && !a.get(
            "value"@,
        ).is_kind("JSXExpressionContainer"@) ==> attribute_value(a, src, names) is Opaque,
{
    lemma_attribute_kinds();
}

/// Whether every attribute has a plain name.
pub open spec fn all_attributes(items: Seq<JsonView>) -> bool {
    forall|i: int|
        0 <= i < items.len() ==> (#[trigger] items[i]).is_kind("JSXAttribute"@) && items[i].get(
            "name"@,
        ).is_kind("JSXIdentifier"@)
}

/// The attributes of a component are read in order, under their names; a
/// spread leaves all of them unknown.
pub proof fn law_attribute_lists_are_read(items: Seq<JsonView>, src: Seq<char>, names: NamesView)
    ensures
        attribute_props(items, src, names) is Some <==> all_attributes(items),
        attribute_props(items, src, names) is Some ==> {
            let props = attribute_props(items, src, names)->0;
            &&& props.len() == items.len()
            &&& forall|i: int|
                0 <= i < items.len() ==> (#[trigger] props[i]) == (
                    items[i].get("name"@).get("name"@).text(),
                    attribute_value(items[i], src, names),
                )
        },
    decreases items.len(),
{
    if items.len() > 0 {
        let front = items.drop_last();
        law_attribute_lists_are_read(front, src, names);
        if all_attributes(items) {
            assert forall|i: int| 0 <= i < front.len() implies (#[trigger] front[i]).is_kind(
                "JSXAttribute"@,
            ) && front[i].get("name"@).is_kind("JSXIdentifier"@) by {
                assert(items[i] == front[i]);
            }
            assert(items[items.len() - 1].is_kind("JSXAttribute"@));
            let props = attribute_props(items, src, names)->0;
            let before = attribute_props(front, src, names)->0;
            assert forall|i: int| 0 <= i < items.len() implies (#[trigger] props[i]) == (
                items[i].get("name"@).get("name"@).text(),
                attribute_value(items[i], src, names),
            ) by {
                if i < front.len() {
                    assert(props[i] == before[i]);
                    assert(front[i] == items[i]);
                }
            }
        }
        if attribute_props(items, src, names) is Some {
            assert forall|i: int| 0 <= i < items.len() implies (#[trigger] items[i]).is_kind(
                "JSXAttribute"@,
            ) && items[i].get("name"@).is_kind("JSXIdentifier"@) by {
                if i < front.len() {
                    assert(front[i] == items[i]);
                }
            }
        }
    }
}

/// A component is called with one object, of its attributes; where one is
/// spread, with nothing known. Children are passed too, but nothing is known
/// of them.
pub proof fn law_components_pass_one_object(
    items: Seq<JsonView>,
    has_children: bool,
    src: Seq<char>,
    names: NamesView,
)
    ensures
        !all_attributes(items) ==> component_args(items, has_children, src, names) is Opaque,
        all_attributes(items) ==> {
            let args = component_args(items, has_children, src, names);
            &&& args is Args
            &&& args->Args_0.len() == 1
            &&& args->Args_0[0] is Object
            &&& has_children ==> args->Args_0[0]->Object_0.len() == items.len() + 1
            &&& !has_children ==> args->Args_0[0]->Object_0.len() == items.len()
            &&& has_children ==> args->Args_0[0]->Object_0[0] == (
                "children"@,
                ObservedView::Opaque,
            )
            &&& has_children ==> forall|i: int|
                #![trigger items[i]]
                0 <= i < items.len() ==> args->Args_0[0]->Object_0[i + 1] == (
                    items[i].get("name"@).get("name"@).text(),
                    attribute_value(items[i], src, names),
                )
            &&& !has_children ==> forall|i: int|
                #![trigger items[i]]
                0 <= i < items.len() ==> args->Args_0[0]->Object_0[i] == (
                    items[i].get("name"@).get("name"@).text(),
                    attribute_value(items[i], src, names),
                )
        },
{
    law_attribute_lists_are_read(items, src, names);
    if all_attributes(items) {
        let props = attribute_props(items, src, names)->0;
        let obj = component_args(items, has_children, src, names)->Args_0[0]->Object_0;
        assert forall|i: int| 0 <= i < items.len() implies props[i] == (
            (#[trigger] items[i]).get("name"@).get("name"@).text(),
            attribute_value(items[i], src, names),
        ) && (has_children ==> obj[i + 1] == props[i]) && (!has_children ==> obj[i]
            == props[i]) by {}
    }
}

/// Components are the tags that start with no lower-case letter and have no
/// hyphen.
pub proof fn law_component_names(name: Seq<char>, i: int)
    ensures
        name.len() > 0 && 'a' <= name[0] && name[0] <= 'z' ==> !is_component_name(name),
        0 <= i < name.len() && name[i] == '-' ==> !is_component_name(name),
        name.len() > 0 && !('a' <= name[0] && name[0] <= 'z') && (forall|j: int|
            0 <= j < name.len() ==> #[trigger] name[j] != '-') ==> is_component_name(name),
{
}

/// Whether a value is a number that is not known.
pub open spec fn some_number(o: ObservedView) -> bool {
    o == ObservedView::Typed(TypeExprView::Num)
}

/// What array methods hand to a callback: elements and arrays of which nothing
/// is known, and a position that is a number, behind the element.
pub proof fn law_callbacks_get_unknown_elements(method: Seq<char>, i: int)
    requires
        callback_shape(method) is Some,
        0 <= i < callback_shape(method)->0.len(),
    ensures
        ({
            let shape = callback_shape(method)->0;
            let folds = method == "reduce"@ || method == "reduceRight"@;
            let compares = method == "sort"@ || method == "toSorted"@;
            &&& some_number(shape[i]) <==> (i == if folds {
                2int
            } else {
                1int
            }) && !compares
            &&& !some_number(shape[i]) ==> shape[i] is Opaque
            &&& shape.len() == if folds {
                4int
            } else if compares {
                2int
            } else {
                3int
            }
        }),
{
    lemma_method_names();
}

/// The methods that call back: those that array callbacks are known of.
pub proof fn law_known_callbacks(method: Seq<char>)
    ensures
        callback_shape(method) is Some <==> method == "map"@ || method == "filter"@ || method
            == "forEach"@ || method == "some"@ || method == "every"@ || method == "find"@ || method
            == "findIndex"@ || method == "findLast"@ || method == "findLastIndex"@ || method
            == "flatMap"@ || method == "sort"@ || method == "toSorted"@ || method == "reduce"@
            || method == "reduceRight"@,
{
}

/// Nothing is an array for sure but an array literal, in parentheses or not,
/// or what an array method makes of such a one.
pub proof fn law_arrays_for_sure(e: JsonView)
    requires
        is_array_value(e),
    ensures
        e.is_kind("ArrayExpression"@) || e.is_kind("ParenthesizedExpression"@) || e.is_kind(
            "TSNonNullExpression"@,
        ) || e.is_kind("CallExpression"@),
        e.is_kind("CallExpression"@) && !e.is_kind("ArrayExpression"@) ==> is_static_member(
            e.get("callee"@),
        ) && is_array_value(e.get("callee"@).get("object"@)),
        e.is_kind("ParenthesizedExpression"@) || e.is_kind("TSNonNullExpression"@)
            ==> is_array_value(e.get("expression"@)),
{
    lemma_array_kinds();
}

/// A callback is taken for called by an array method only where the receiver
/// is an array for sure, and it is the function that the first argument names.
pub proof fn law_callbacks_need_an_array(n: JsonView, s: StateView)
    requires
        array_callback(n, s) is Some,
    ensures
        ({
            let callee = n.get("callee"@);
            let args = n.get("arguments"@).items();
            let (target, given) = array_callback(n, s)->0;
            &&& is_static_member(callee)
            &&& is_array_value(callee.get("object"@))
            &&& args.len() > 0
            &&& args[0].is_kind("Identifier"@)
            &&& callback_shape(callee.get("property"@).name()) is Some
            &&& given == ArgsView::Args(
                callback_shape(callee.get("property"@).name())->0,
            )
            &&& lookup(s.names.scopes, args[0].name()) == Some(BindingView::Fn) ==> target == (TargetView::Local { owner: OwnerView::Free, name: args[0].name() })
            &&& lookup(s.names.scopes, args[0].name()) == Some(BindingView::Import)
                ==> target == (TargetView::Imported { local: args[0].name() })
            &&& lookup(s.names.scopes, args[0].name()) == Some(BindingView::Fn) || lookup(
                s.names.scopes,
                args[0].name(),
            ) == Some(BindingView::Import)
        }),
{
}

/// A function is taken for called as an event handler only through an
/// attribute that starts with `on` and holds just its name.
pub proof fn law_handlers_start_with_on(a: JsonView, s: StateView)
    requires
        event_handler(a, s) is Some,
    ensures
        a.is_kind("JSXAttribute"@),
        a.get("name"@).get("name"@).text().len() >= 2,
        a.get("name"@).get("name"@).text()[0] == 'o',
        a.get("name"@).get("name"@).text()[1] == 'n',
        a.get("value"@).is_kind("JSXExpressionContainer"@),
        a.get("value"@).get("expression"@).is_kind("Identifier"@),
        ({
            let name = a.get("value"@).get("expression"@).name();
            ||| event_handler(a, s)->0 == (TargetView::Local { owner: OwnerView::Free, name })
                && lookup(s.names.scopes, name) == Some(BindingView::Fn)
            ||| event_handler(a, s)->0 == (TargetView::Imported { local: name }) && lookup(
                s.names.scopes,
                name,
            ) == Some(BindingView::Import)
        }),
{
    reveal_strlit("on");
    let t = a.get("name"@).name();
    assert("on"@.len() == 2);
    assert("on"@[0] == 'o' && "on"@[1] == 'n');
    assert(t.take(2)[0] == t[0] && t.take(2)[1] == t[1]);
    assert(t.subrange(0, 2)[0] == t[0] && t.subrange(0, 2)[1] == t[1]);
}

// ---------------------------------------------------------------------------
// Parameters
// ---------------------------------------------------------------------------

/// The parameters that take an argument are the listed ones without `this` and
/// without a rest parameter, in order.
pub proof fn law_plain_parameters(items: Seq<JsonView>, i: int)
    requires
        0 <= i < items.len(),
    ensures
        items[i].is_kind("RestElement"@) ==> forall|k: int|
            0 <= k < plain_params(items).len() ==> !(#[trigger] plain_params(items)[k]).is_kind(
                "RestElement"@,
            ),
        (forall|j: int|
            0 <= j < items.len() ==> !(#[trigger] items[j]).is_kind("RestElement"@) && !(
            items[j].is_kind("Identifier"@) && items[j].name() == "this"@)) ==> plain_params(items)
            == items,
    decreases items.len(),
{
    lemma_no_rest(items);
    lemma_all_plain(items);
}

proof fn lemma_no_rest(items: Seq<JsonView>)
    ensures
        forall|k: int|
            0 <= k < plain_params(items).len() ==> !(#[trigger] plain_params(items)[k]).is_kind(
                "RestElement"@,
            ) && !(plain_params(items)[k].is_kind("Identifier"@) && plain_params(items)[k].name()
                == "this"@) && items.contains(plain_params(items)[k]),
    decreases items.len(),
{
    if items.len() > 0 {
        let front = items.drop_last();
        lemma_no_rest(front);
        let r = plain_params(items);
        let before = plain_params(front);
        assert forall|k: int| 0 <= k < r.len() implies !(#[trigger] r[k]).is_kind("RestElement"@)
            && !(r[k].is_kind("Identifier"@) && r[k].name() == "this"@) && items.contains(
            r[k],
        ) by {
            if k < before.len() {
                assert(r[k] == before[k]);
                let j = choose|j: int| 0 <= j < front.len() && front[j] == before[k];
                assert(items[j] == r[k]);
            } else {
                assert(r[k] == items[items.len() - 1]);
            }
        }
    }
}

proof fn lemma_all_plain(items: Seq<JsonView>)
    ensures
        (forall|j: int|
            0 <= j < items.len() ==> !(#[trigger] items[j]).is_kind("RestElement"@) && !(
            items[j].is_kind("Identifier"@) && items[j].name() == "this"@)) ==> plain_params(items)
            == items,
    decreases items.len(),
{
    if items.len() > 0 {
        let front = items.drop_last();
        lemma_all_plain(front);
        if forall|j: int|
            0 <= j < items.len() ==> !(#[trigger] items[j]).is_kind("RestElement"@) && !(
            items[j].is_kind("Identifier"@) && items[j].name() == "this"@) {
            assert forall|j: int| 0 <= j < front.len() implies !(#[trigger] front[j]).is_kind(
                "RestElement"@,
            ) && !(front[j].is_kind("Identifier"@) && front[j].name() == "this"@) by {
                assert(items[j] == front[j]);
            }
            assert(!items[items.len() - 1].is_kind("RestElement"@));
            assert(plain_params(items) =~= items);
        }
    }
}

/// A plain parameter is read with its name, its annotation and whether it is
/// optional; it has no default.
pub proof fn law_plain_parameters_are_read(n: JsonView, src: Seq<char>)
    requires
        n.is_kind("Identifier"@),
    ensures
        param_view(n, src).name == n.get("name"@).text(),
        param_view(n, src).optional == n.get("optional"@).is_true(),
        param_view(n, src).default is None,
        n.get("typeAnnotation"@) is Null ==> param_view(n, src).ty is None,
        !(n.get("typeAnnotation"@) is Null) ==> param_view(n, src).ty == Some(
            type_expr(n.get("typeAnnotation"@).get("typeAnnotation"@), src, 0),
        ),
{
    lemma_parameter_kinds();
}

/// A default is what a call that leaves the argument out passes: the constant
/// that it is, or nothing known. It changes nothing else of its parameter.
pub proof fn law_defaults_are_read(n: JsonView, src: Seq<char>)
    requires
        n.is_kind("AssignmentPattern"@),
        n.get("left"@).is_kind("Identifier"@),
        !(n.get("right"@) is Null),
    ensures
        param_view(n, src).name == param_view(n.get("left"@), src).name,
        param_view(n, src).ty == param_view(n.get("left"@), src).ty,
        param_view(n, src).optional == param_view(n.get("left"@), src).optional,
        param_view(n, src).default == Some(
            match constant_value(n.get("right"@), 0) {
                Some(v) => v,
                None => ObservedView::Opaque,
            },
        ),
{
    lemma_parameter_kinds();
}

/// A parameter that is also a property is read as without its modifiers; an
/// array pattern has no declared type that could be narrowed.
pub proof fn law_other_parameters_are_read(n: JsonView, src: Seq<char>)
    ensures
        n.is_kind("TSParameterProperty"@) && n.get("parameter"@).is_kind("Identifier"@)
            ==> param_view(n, src) == param_view(n.get("parameter"@), src),
        n.is_kind("ArrayPattern"@) ==> param_view(n, src).ty is None,
        n.is_kind("ObjectPattern"@) && !(n.get("typeAnnotation"@) is Null) ==> param_view(n, src).ty
            == Some(type_expr(n.get("typeAnnotation"@).get("typeAnnotation"@), src, 0)),
{
    lemma_parameter_kinds();
}

/// Which functions are analyzed: those that are neither generic nor
/// overloaded, have no rest parameter, and have a parameter at all.
pub proof fn law_which_functions_are_analyzed(
    name: Seq<char>,
    owner: OwnerView,
    f: JsonView,
    at: JsonView,
    exported: bool,
    overloaded: bool,
    src: Seq<char>,
    i: int,
)
    ensures
        ({
            let d = decl_view(name, owner, f, at, exported, overloaded, src);
            let params = f.get("params"@).items();
            &&& d.eligible <==> !overloaded && f.get("typeParameters"@) is Null && (forall|j: int|
                0 <= j < params.len() ==> !(#[trigger] params[j]).is_kind("RestElement"@))
                && plain_params(params).len() > 0
            &&& d.eligible <==> d.skip is None
            &&& d.name == name
            &&& d.owner == owner
            &&& d.exported == exported
            &&& d.line == at.start_line(src)
            &&& d.end_line == at.end_line(src)
            &&& d.params.len() == plain_params(params).len()
            &&& 0 <= i < d.params.len() ==> d.params[i] == param_view(plain_params(params)[i], src)
            &&& overloaded ==> d.skip == Some(SkipReason::Overload)
            &&& !overloaded && !(f.get("typeParameters"@) is Null) ==> d.skip == Some(
                SkipReason::Generic,
            )
            &&& !overloaded && f.get("typeParameters"@) is Null && 0 <= i < params.len()
                && params[i].is_kind("RestElement"@) ==> d.skip == Some(SkipReason::RestParam)
            &&& !overloaded && f.get("typeParameters"@) is Null && params.len() == 0 ==> d.skip
                == Some(SkipReason::NoParams)
        }),
{
}

// ---------------------------------------------------------------------------
// What a call passes
// ---------------------------------------------------------------------------

/// A call passes for a parameter the argument at its position, as its own
/// module understands it. Left out, it passes the default, as the module of
/// the function understands it, or `undefined` where the parameter is
/// optional; else nothing is known.
pub proof fn law_what_a_call_passes(
    p: ProjectView,
    m: int,
    param: ParamView,
    i: int,
    site: (int, int),
    args: Seq<ObservedView>,
)
    requires
        0 <= i,
        p.modules[site.0].usages[site.1].kind == UsageKindView::Call(ArgsView::Args(args)),
    ensures
        i < args.len() ==> passed(p, m, param, i, site) == resolved_observed(
            p,
            args[i],
            site.0 as usize,
        ),
        i >= args.len() && param.default is Some ==> passed(p, m, param, i, site)
            == resolved_observed(p, param.default->0, m as usize),
        i >= args.len() && param.default is None && param.optional ==> passed(p, m, param, i, site)
            is Undefined,
        i >= args.len() && param.default is None && !param.optional ==> passed(
            p,
            m,
            param,
            i,
            site,
        ) is AnyLike,
{
}

} // verus!
