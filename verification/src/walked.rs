//! What the walk over a tree records at each kind of node, and what it leaves
//! alone.

use vstd::prelude::*;

use crate::bound::{adds_locals, binds, law_patterns_bind_their_names};
use crate::json::JsonView;
use crate::kept::{keeps, lemma_args_keep, value_target};
use crate::model::{
    ArgsView, ObservedView, OwnerView, TargetView, TypeExprView, UsageKindView, UsageView,
};
use crate::observe::{is_static_member, observed_args};
use crate::reached::{comes_to, fields_come_to};
use crate::scope::BindingView;
use crate::syntax::string_value;
use crate::usage::{has_escape, safe_binding, StateView};
use crate::visit::{
    array_callback, called_member, called_name, component_args, event_handler, is_component,
    root_name, visited, visited_args, visited_attributes, visited_call, visited_element,
    visited_fields, visited_items, visited_member, visited_tag, visited_tag_object, with_declared,
};

verus! {

broadcast use {crate::json::group_json_sizes, crate::json::group_json_views};

/// The kinds of nodes that the walk tells apart differ.
pub proof fn lemma_walk_kinds()
    ensures
        "TSTypeAliasDeclaration"@ != "TSInterfaceDeclaration"@,
        "TSTypeAliasDeclaration"@ != "ImportDeclaration"@,
        "TSTypeAliasDeclaration"@ != "ExportAllDeclaration"@,
        "TSTypeAliasDeclaration"@ != "JSXClosingElement"@,
        "TSTypeAliasDeclaration"@ != "MetaProperty"@,
        "TSTypeAliasDeclaration"@ != "TSIndexSignature"@,
        "TSTypeAliasDeclaration"@ != "Identifier"@,
        "TSTypeAliasDeclaration"@ != "ExportNamedDeclaration"@,
        "TSTypeAliasDeclaration"@ != "ExportDefaultDeclaration"@,
        "TSTypeAliasDeclaration"@ != "TSEnumDeclaration"@,
        "TSTypeAliasDeclaration"@ != "TSQualifiedName"@,
        "TSTypeAliasDeclaration"@ != "TSClassImplements"@,
        "TSTypeAliasDeclaration"@ != "FunctionDeclaration"@,
        "TSTypeAliasDeclaration"@ != "FunctionExpression"@,
        "TSTypeAliasDeclaration"@ != "ArrowFunctionExpression"@,
        "TSTypeAliasDeclaration"@ != "TSDeclareFunction"@,
        "TSTypeAliasDeclaration"@ != "TSEmptyBodyFunctionExpression"@,
        "TSTypeAliasDeclaration"@ != "VariableDeclaration"@,
        "TSTypeAliasDeclaration"@ != "CatchClause"@,
        "TSTypeAliasDeclaration"@ != "CallExpression"@,
        "TSTypeAliasDeclaration"@ != "NewExpression"@,
        "TSTypeAliasDeclaration"@ != "MemberExpression"@,
        "TSTypeAliasDeclaration"@ != "JSXElement"@,
        "TSInterfaceDeclaration"@ != "ImportDeclaration"@,
        "TSInterfaceDeclaration"@ != "ExportAllDeclaration"@,
        "TSInterfaceDeclaration"@ != "JSXClosingElement"@,
        "TSInterfaceDeclaration"@ != "MetaProperty"@,
        "TSInterfaceDeclaration"@ != "TSIndexSignature"@,
        "TSInterfaceDeclaration"@ != "Identifier"@,
        "TSInterfaceDeclaration"@ != "ExportNamedDeclaration"@,
        "TSInterfaceDeclaration"@ != "ExportDefaultDeclaration"@,
        "TSInterfaceDeclaration"@ != "TSEnumDeclaration"@,
        "TSInterfaceDeclaration"@ != "TSQualifiedName"@,
        "TSInterfaceDeclaration"@ != "TSClassImplements"@,
        "TSInterfaceDeclaration"@ != "FunctionDeclaration"@,
        "TSInterfaceDeclaration"@ != "FunctionExpression"@,
        "TSInterfaceDeclaration"@ != "ArrowFunctionExpression"@,
        "TSInterfaceDeclaration"@ != "TSDeclareFunction"@,
        "TSInterfaceDeclaration"@ != "TSEmptyBodyFunctionExpression"@,
        "TSInterfaceDeclaration"@ != "VariableDeclaration"@,
        "TSInterfaceDeclaration"@ != "CatchClause"@,
        "TSInterfaceDeclaration"@ != "CallExpression"@,
        "TSInterfaceDeclaration"@ != "NewExpression"@,
        "TSInterfaceDeclaration"@ != "MemberExpression"@,
        "TSInterfaceDeclaration"@ != "JSXElement"@,
        "ImportDeclaration"@ != "ExportAllDeclaration"@,
        "ImportDeclaration"@ != "JSXClosingElement"@,
        "ImportDeclaration"@ != "MetaProperty"@,
        "ImportDeclaration"@ != "TSIndexSignature"@,
        "ImportDeclaration"@ != "Identifier"@,
        "ImportDeclaration"@ != "ExportNamedDeclaration"@,
        "ImportDeclaration"@ != "ExportDefaultDeclaration"@,
        "ImportDeclaration"@ != "TSEnumDeclaration"@,
        "ImportDeclaration"@ != "TSQualifiedName"@,
        "ImportDeclaration"@ != "TSClassImplements"@,
        "ImportDeclaration"@ != "FunctionDeclaration"@,
        "ImportDeclaration"@ != "FunctionExpression"@,
        "ImportDeclaration"@ != "ArrowFunctionExpression"@,
        "ImportDeclaration"@ != "TSDeclareFunction"@,
        "ImportDeclaration"@ != "TSEmptyBodyFunctionExpression"@,
        "ImportDeclaration"@ != "VariableDeclaration"@,
        "ImportDeclaration"@ != "CatchClause"@,
        "ImportDeclaration"@ != "CallExpression"@,
        "ImportDeclaration"@ != "NewExpression"@,
        "ImportDeclaration"@ != "MemberExpression"@,
        "ImportDeclaration"@ != "JSXElement"@,
        "ExportAllDeclaration"@ != "JSXClosingElement"@,
        "ExportAllDeclaration"@ != "MetaProperty"@,
        "ExportAllDeclaration"@ != "TSIndexSignature"@,
        "ExportAllDeclaration"@ != "Identifier"@,
        "ExportAllDeclaration"@ != "ExportNamedDeclaration"@,
        "ExportAllDeclaration"@ != "ExportDefaultDeclaration"@,
        "ExportAllDeclaration"@ != "TSEnumDeclaration"@,
        "ExportAllDeclaration"@ != "TSQualifiedName"@,
        "ExportAllDeclaration"@ != "TSClassImplements"@,
        "ExportAllDeclaration"@ != "FunctionDeclaration"@,
        "ExportAllDeclaration"@ != "FunctionExpression"@,
        "ExportAllDeclaration"@ != "ArrowFunctionExpression"@,
        "ExportAllDeclaration"@ != "TSDeclareFunction"@,
        "ExportAllDeclaration"@ != "TSEmptyBodyFunctionExpression"@,
        "ExportAllDeclaration"@ != "VariableDeclaration"@,
        "ExportAllDeclaration"@ != "CatchClause"@,
        "ExportAllDeclaration"@ != "CallExpression"@,
        "ExportAllDeclaration"@ != "NewExpression"@,
        "ExportAllDeclaration"@ != "MemberExpression"@,
        "ExportAllDeclaration"@ != "JSXElement"@,
        "JSXClosingElement"@ != "MetaProperty"@,
        "JSXClosingElement"@ != "TSIndexSignature"@,
        "JSXClosingElement"@ != "Identifier"@,
        "JSXClosingElement"@ != "ExportNamedDeclaration"@,
        "JSXClosingElement"@ != "ExportDefaultDeclaration"@,
        "JSXClosingElement"@ != "TSEnumDeclaration"@,
        "JSXClosingElement"@ != "TSQualifiedName"@,
        "JSXClosingElement"@ != "TSClassImplements"@,
        "JSXClosingElement"@ != "FunctionDeclaration"@,
        "JSXClosingElement"@ != "FunctionExpression"@,
        "JSXClosingElement"@ != "ArrowFunctionExpression"@,
        "JSXClosingElement"@ != "TSDeclareFunction"@,
        "JSXClosingElement"@ != "TSEmptyBodyFunctionExpression"@,
        "JSXClosingElement"@ != "VariableDeclaration"@,
        "JSXClosingElement"@ != "CatchClause"@,
        "JSXClosingElement"@ != "CallExpression"@,
        "JSXClosingElement"@ != "NewExpression"@,
        "JSXClosingElement"@ != "MemberExpression"@,
        "JSXClosingElement"@ != "JSXElement"@,
        "MetaProperty"@ != "TSIndexSignature"@,
        "MetaProperty"@ != "Identifier"@,
        "MetaProperty"@ != "ExportNamedDeclaration"@,
        "MetaProperty"@ != "ExportDefaultDeclaration"@,
        "MetaProperty"@ != "TSEnumDeclaration"@,
        "MetaProperty"@ != "TSQualifiedName"@,
        "MetaProperty"@ != "TSClassImplements"@,
        "MetaProperty"@ != "FunctionDeclaration"@,
        "MetaProperty"@ != "FunctionExpression"@,
        "MetaProperty"@ != "ArrowFunctionExpression"@,
        "MetaProperty"@ != "TSDeclareFunction"@,
        "MetaProperty"@ != "TSEmptyBodyFunctionExpression"@,
        "MetaProperty"@ != "VariableDeclaration"@,
        "MetaProperty"@ != "CatchClause"@,
        "MetaProperty"@ != "CallExpression"@,
        "MetaProperty"@ != "NewExpression"@,
        "MetaProperty"@ != "MemberExpression"@,
        "MetaProperty"@ != "JSXElement"@,
        "TSIndexSignature"@ != "Identifier"@,
        "TSIndexSignature"@ != "ExportNamedDeclaration"@,
        "TSIndexSignature"@ != "ExportDefaultDeclaration"@,
        "TSIndexSignature"@ != "TSEnumDeclaration"@,
        "TSIndexSignature"@ != "TSQualifiedName"@,
        "TSIndexSignature"@ != "TSClassImplements"@,
        "TSIndexSignature"@ != "FunctionDeclaration"@,
        "TSIndexSignature"@ != "FunctionExpression"@,
        "TSIndexSignature"@ != "ArrowFunctionExpression"@,
        "TSIndexSignature"@ != "TSDeclareFunction"@,
        "TSIndexSignature"@ != "TSEmptyBodyFunctionExpression"@,
        "TSIndexSignature"@ != "VariableDeclaration"@,
        "TSIndexSignature"@ != "CatchClause"@,
        "TSIndexSignature"@ != "CallExpression"@,
        "TSIndexSignature"@ != "NewExpression"@,
        "TSIndexSignature"@ != "MemberExpression"@,
        "TSIndexSignature"@ != "JSXElement"@,
        "Identifier"@ != "ExportNamedDeclaration"@,
        "Identifier"@ != "ExportDefaultDeclaration"@,
        "Identifier"@ != "TSEnumDeclaration"@,
        "Identifier"@ != "TSQualifiedName"@,
        "Identifier"@ != "TSClassImplements"@,
        "Identifier"@ != "FunctionDeclaration"@,
        "Identifier"@ != "FunctionExpression"@,
        "Identifier"@ != "ArrowFunctionExpression"@,
        "Identifier"@ != "TSDeclareFunction"@,
        "Identifier"@ != "TSEmptyBodyFunctionExpression"@,
        "Identifier"@ != "VariableDeclaration"@,
        "Identifier"@ != "CatchClause"@,
        "Identifier"@ != "CallExpression"@,
        "Identifier"@ != "NewExpression"@,
        "Identifier"@ != "MemberExpression"@,
        "Identifier"@ != "JSXElement"@,
        "ExportNamedDeclaration"@ != "ExportDefaultDeclaration"@,
        "ExportNamedDeclaration"@ != "TSEnumDeclaration"@,
        "ExportNamedDeclaration"@ != "TSQualifiedName"@,
        "ExportNamedDeclaration"@ != "TSClassImplements"@,
        "ExportNamedDeclaration"@ != "FunctionDeclaration"@,
        "ExportNamedDeclaration"@ != "FunctionExpression"@,
        "ExportNamedDeclaration"@ != "ArrowFunctionExpression"@,
        "ExportNamedDeclaration"@ != "TSDeclareFunction"@,
        "ExportNamedDeclaration"@ != "TSEmptyBodyFunctionExpression"@,
        "ExportNamedDeclaration"@ != "VariableDeclaration"@,
        "ExportNamedDeclaration"@ != "CatchClause"@,
        "ExportNamedDeclaration"@ != "CallExpression"@,
        "ExportNamedDeclaration"@ != "NewExpression"@,
        "ExportNamedDeclaration"@ != "MemberExpression"@,
        "ExportNamedDeclaration"@ != "JSXElement"@,
        "ExportDefaultDeclaration"@ != "TSEnumDeclaration"@,
        "ExportDefaultDeclaration"@ != "TSQualifiedName"@,
        "ExportDefaultDeclaration"@ != "TSClassImplements"@,
        "ExportDefaultDeclaration"@ != "FunctionDeclaration"@,
        "ExportDefaultDeclaration"@ != "FunctionExpression"@,
        "ExportDefaultDeclaration"@ != "ArrowFunctionExpression"@,
        "ExportDefaultDeclaration"@ != "TSDeclareFunction"@,
        "ExportDefaultDeclaration"@ != "TSEmptyBodyFunctionExpression"@,
        "ExportDefaultDeclaration"@ != "VariableDeclaration"@,
        "ExportDefaultDeclaration"@ != "CatchClause"@,
        "ExportDefaultDeclaration"@ != "CallExpression"@,
        "ExportDefaultDeclaration"@ != "NewExpression"@,
        "ExportDefaultDeclaration"@ != "MemberExpression"@,
        "ExportDefaultDeclaration"@ != "JSXElement"@,
        "TSEnumDeclaration"@ != "TSQualifiedName"@,
        "TSEnumDeclaration"@ != "TSClassImplements"@,
        "TSEnumDeclaration"@ != "FunctionDeclaration"@,
        "TSEnumDeclaration"@ != "FunctionExpression"@,
        "TSEnumDeclaration"@ != "ArrowFunctionExpression"@,
        "TSEnumDeclaration"@ != "TSDeclareFunction"@,
        "TSEnumDeclaration"@ != "TSEmptyBodyFunctionExpression"@,
        "TSEnumDeclaration"@ != "VariableDeclaration"@,
        "TSEnumDeclaration"@ != "CatchClause"@,
        "TSEnumDeclaration"@ != "CallExpression"@,
        "TSEnumDeclaration"@ != "NewExpression"@,
        "TSEnumDeclaration"@ != "MemberExpression"@,
        "TSEnumDeclaration"@ != "JSXElement"@,
        "TSQualifiedName"@ != "TSClassImplements"@,
        "TSQualifiedName"@ != "FunctionDeclaration"@,
        "TSQualifiedName"@ != "FunctionExpression"@,
        "TSQualifiedName"@ != "ArrowFunctionExpression"@,
        "TSQualifiedName"@ != "TSDeclareFunction"@,
        "TSQualifiedName"@ != "TSEmptyBodyFunctionExpression"@,
        "TSQualifiedName"@ != "VariableDeclaration"@,
        "TSQualifiedName"@ != "CatchClause"@,
        "TSQualifiedName"@ != "CallExpression"@,
        "TSQualifiedName"@ != "NewExpression"@,
        "TSQualifiedName"@ != "MemberExpression"@,
        "TSQualifiedName"@ != "JSXElement"@,
        "TSClassImplements"@ != "FunctionDeclaration"@,
        "TSClassImplements"@ != "FunctionExpression"@,
        "TSClassImplements"@ != "ArrowFunctionExpression"@,
        "TSClassImplements"@ != "TSDeclareFunction"@,
        "TSClassImplements"@ != "TSEmptyBodyFunctionExpression"@,
        "TSClassImplements"@ != "VariableDeclaration"@,
        "TSClassImplements"@ != "CatchClause"@,
        "TSClassImplements"@ != "CallExpression"@,
        "TSClassImplements"@ != "NewExpression"@,
        "TSClassImplements"@ != "MemberExpression"@,
        "TSClassImplements"@ != "JSXElement"@,
        "FunctionDeclaration"@ != "FunctionExpression"@,
        "FunctionDeclaration"@ != "ArrowFunctionExpression"@,
        "FunctionDeclaration"@ != "TSDeclareFunction"@,
        "FunctionDeclaration"@ != "TSEmptyBodyFunctionExpression"@,
        "FunctionDeclaration"@ != "VariableDeclaration"@,
        "FunctionDeclaration"@ != "CatchClause"@,
        "FunctionDeclaration"@ != "CallExpression"@,
        "FunctionDeclaration"@ != "NewExpression"@,
        "FunctionDeclaration"@ != "MemberExpression"@,
        "FunctionDeclaration"@ != "JSXElement"@,
        "FunctionExpression"@ != "ArrowFunctionExpression"@,
        "FunctionExpression"@ != "TSDeclareFunction"@,
        "FunctionExpression"@ != "TSEmptyBodyFunctionExpression"@,
        "FunctionExpression"@ != "VariableDeclaration"@,
        "FunctionExpression"@ != "CatchClause"@,
        "FunctionExpression"@ != "CallExpression"@,
        "FunctionExpression"@ != "NewExpression"@,
        "FunctionExpression"@ != "MemberExpression"@,
        "FunctionExpression"@ != "JSXElement"@,
        "ArrowFunctionExpression"@ != "TSDeclareFunction"@,
        "ArrowFunctionExpression"@ != "TSEmptyBodyFunctionExpression"@,
        "ArrowFunctionExpression"@ != "VariableDeclaration"@,
        "ArrowFunctionExpression"@ != "CatchClause"@,
        "ArrowFunctionExpression"@ != "CallExpression"@,
        "ArrowFunctionExpression"@ != "NewExpression"@,
        "ArrowFunctionExpression"@ != "MemberExpression"@,
        "ArrowFunctionExpression"@ != "JSXElement"@,
        "TSDeclareFunction"@ != "TSEmptyBodyFunctionExpression"@,
        "TSDeclareFunction"@ != "VariableDeclaration"@,
        "TSDeclareFunction"@ != "CatchClause"@,
        "TSDeclareFunction"@ != "CallExpression"@,
        "TSDeclareFunction"@ != "NewExpression"@,
        "TSDeclareFunction"@ != "MemberExpression"@,
        "TSDeclareFunction"@ != "JSXElement"@,
        "TSEmptyBodyFunctionExpression"@ != "VariableDeclaration"@,
        "TSEmptyBodyFunctionExpression"@ != "CatchClause"@,
        "TSEmptyBodyFunctionExpression"@ != "CallExpression"@,
        "TSEmptyBodyFunctionExpression"@ != "NewExpression"@,
        "TSEmptyBodyFunctionExpression"@ != "MemberExpression"@,
        "TSEmptyBodyFunctionExpression"@ != "JSXElement"@,
        "VariableDeclaration"@ != "CatchClause"@,
        "VariableDeclaration"@ != "CallExpression"@,
        "VariableDeclaration"@ != "NewExpression"@,
        "VariableDeclaration"@ != "MemberExpression"@,
        "VariableDeclaration"@ != "JSXElement"@,
        "CatchClause"@ != "CallExpression"@,
        "CatchClause"@ != "NewExpression"@,
        "CatchClause"@ != "MemberExpression"@,
        "CatchClause"@ != "JSXElement"@,
        "CallExpression"@ != "NewExpression"@,
        "CallExpression"@ != "MemberExpression"@,
        "CallExpression"@ != "JSXElement"@,
        "NewExpression"@ != "MemberExpression"@,
        "NewExpression"@ != "JSXElement"@,
        "MemberExpression"@ != "JSXElement"@,
        "TSTypeAliasDeclaration"@.len() > 0,
        "TSInterfaceDeclaration"@.len() > 0,
        "ImportDeclaration"@.len() > 0,
        "ExportAllDeclaration"@.len() > 0,
        "JSXClosingElement"@.len() > 0,
        "MetaProperty"@.len() > 0,
        "TSIndexSignature"@.len() > 0,
        "Identifier"@.len() > 0,
        "ExportNamedDeclaration"@.len() > 0,
        "ExportDefaultDeclaration"@.len() > 0,
        "TSEnumDeclaration"@.len() > 0,
        "TSQualifiedName"@.len() > 0,
        "TSClassImplements"@.len() > 0,
        "FunctionDeclaration"@.len() > 0,
        "FunctionExpression"@.len() > 0,
        "ArrowFunctionExpression"@.len() > 0,
        "TSDeclareFunction"@.len() > 0,
        "TSEmptyBodyFunctionExpression"@.len() > 0,
        "VariableDeclaration"@.len() > 0,
        "CatchClause"@.len() > 0,
        "CallExpression"@.len() > 0,
        "NewExpression"@.len() > 0,
        "MemberExpression"@.len() > 0,
        "JSXElement"@.len() > 0,
{
    reveal_strlit("TSTypeAliasDeclaration");
    reveal_strlit("TSInterfaceDeclaration");
    reveal_strlit("ImportDeclaration");
    reveal_strlit("ExportAllDeclaration");
    reveal_strlit("JSXClosingElement");
    reveal_strlit("MetaProperty");
    reveal_strlit("TSIndexSignature");
    reveal_strlit("Identifier");
    reveal_strlit("ExportNamedDeclaration");
    reveal_strlit("ExportDefaultDeclaration");
    reveal_strlit("TSEnumDeclaration");
    reveal_strlit("TSQualifiedName");
    reveal_strlit("TSClassImplements");
    reveal_strlit("FunctionDeclaration");
    reveal_strlit("FunctionExpression");
    reveal_strlit("ArrowFunctionExpression");
    reveal_strlit("TSDeclareFunction");
    reveal_strlit("TSEmptyBodyFunctionExpression");
    reveal_strlit("VariableDeclaration");
    reveal_strlit("CatchClause");
    reveal_strlit("CallExpression");
    reveal_strlit("NewExpression");
    reveal_strlit("MemberExpression");
    reveal_strlit("JSXElement");
    assert("TSTypeAliasDeclaration"@.len() == 22);
    assert("TSInterfaceDeclaration"@.len() == 22);
    assert("ImportDeclaration"@.len() == 17);
    assert("ExportAllDeclaration"@.len() == 20);
    assert("JSXClosingElement"@.len() == 17);
    assert("MetaProperty"@.len() == 12);
    assert("TSIndexSignature"@.len() == 16);
    assert("Identifier"@.len() == 10);
    assert("ExportNamedDeclaration"@.len() == 22);
    assert("ExportDefaultDeclaration"@.len() == 24);
    assert("TSEnumDeclaration"@.len() == 17);
    assert("TSQualifiedName"@.len() == 15);
    assert("TSClassImplements"@.len() == 17);
    assert("FunctionDeclaration"@.len() == 19);
    assert("FunctionExpression"@.len() == 18);
    assert("ArrowFunctionExpression"@.len() == 23);
    assert("TSDeclareFunction"@.len() == 17);
    assert("TSEmptyBodyFunctionExpression"@.len() == 29);
    assert("VariableDeclaration"@.len() == 19);
    assert("CatchClause"@.len() == 11);
    assert("CallExpression"@.len() == 14);
    assert("NewExpression"@.len() == 13);
    assert("MemberExpression"@.len() == 16);
    assert("JSXElement"@.len() == 10);
    assert("TSTypeAliasDeclaration"@[2] == 'T');
    assert("TSInterfaceDeclaration"@[2] == 'I');
    assert("TSTypeAliasDeclaration"@[0] == 'T');
    assert("ExportNamedDeclaration"@[0] == 'E');
    assert("TSInterfaceDeclaration"@[0] == 'T');
    assert("ImportDeclaration"@[0] == 'I');
    assert("JSXClosingElement"@[0] == 'J');
    assert("TSEnumDeclaration"@[0] == 'T');
    assert("TSClassImplements"@[0] == 'T');
    assert("TSDeclareFunction"@[0] == 'T');
    assert("TSIndexSignature"@[0] == 'T');
    assert("MemberExpression"@[0] == 'M');
    assert("Identifier"@[0] == 'I');
    assert("JSXElement"@[0] == 'J');
    assert("TSEnumDeclaration"@[2] == 'E');
    assert("TSClassImplements"@[2] == 'C');
    assert("TSDeclareFunction"@[2] == 'D');
    assert("FunctionDeclaration"@[0] == 'F');
    assert("VariableDeclaration"@[0] == 'V');
}

/// The kinds of nodes of an element differ.
pub proof fn lemma_tag_kinds()
    ensures
        "JSXIdentifier"@ != "JSXMemberExpression"@,
        "JSXIdentifier"@ != "JSXAttribute"@,
        "JSXIdentifier"@ != "JSXExpressionContainer"@,
        "JSXIdentifier"@ != "JSXSpreadAttribute"@,
        "JSXMemberExpression"@ != "JSXAttribute"@,
        "JSXMemberExpression"@ != "JSXExpressionContainer"@,
        "JSXMemberExpression"@ != "JSXSpreadAttribute"@,
        "JSXAttribute"@ != "JSXExpressionContainer"@,
        "JSXAttribute"@ != "JSXSpreadAttribute"@,
        "JSXExpressionContainer"@ != "JSXSpreadAttribute"@,
        "JSXIdentifier"@.len() > 0,
        "JSXMemberExpression"@.len() > 0,
        "JSXAttribute"@.len() > 0,
        "JSXExpressionContainer"@.len() > 0,
        "JSXSpreadAttribute"@.len() > 0,
{
    reveal_strlit("JSXIdentifier");
    reveal_strlit("JSXMemberExpression");
    reveal_strlit("JSXAttribute");
    reveal_strlit("JSXExpressionContainer");
    reveal_strlit("JSXSpreadAttribute");
    assert("JSXIdentifier"@.len() == 13);
    assert("JSXMemberExpression"@.len() == 19);
    assert("JSXAttribute"@.len() == 12);
    assert("JSXExpressionContainer"@.len() == 22);
    assert("JSXSpreadAttribute"@.len() == 18);
}

/// Whether the kind of a node is one that the walk deals with in its own way.
pub open spec fn special(kind: Seq<char>) -> bool {
    ||| kind == "Identifier"@
    ||| kind == "ExportNamedDeclaration"@
    ||| kind == "ExportDefaultDeclaration"@
    ||| kind == "TSEnumDeclaration"@
    ||| kind == "TSQualifiedName"@
    ||| kind == "TSClassImplements"@
    ||| kind == "FunctionDeclaration"@
    ||| kind == "FunctionExpression"@
    ||| kind == "ArrowFunctionExpression"@
    ||| kind == "TSDeclareFunction"@
    ||| kind == "TSEmptyBodyFunctionExpression"@
    ||| kind == "VariableDeclaration"@
    ||| kind == "CatchClause"@
    ||| kind == "CallExpression"@
    ||| kind == "NewExpression"@
    ||| kind == "MemberExpression"@
    ||| kind == "JSXElement"@
}

/// Whether the kind of a node holds no uses of values.
pub open spec fn silent(kind: Seq<char>) -> bool {
    ||| kind == "TSTypeAliasDeclaration"@
    ||| kind == "TSInterfaceDeclaration"@
    ||| kind == "ImportDeclaration"@
    ||| kind == "ExportAllDeclaration"@
    ||| kind == "JSXClosingElement"@
    ||| kind == "MetaProperty"@
    ||| kind == "TSIndexSignature"@
}

proof fn lemma_no_kind(n: JsonView)
    requires
        !(n is Object),
    ensures
        n.get("type"@).text() == Seq::<char>::empty(),
{
    assert(n.get("type"@).text() =~= Seq::<char>::empty());
}

// ---------------------------------------------------------------------------
// Usages
// ---------------------------------------------------------------------------

/// An escape is recorded once, behind what is recorded already; a call every
/// time. Neither changes what names mean.
pub proof fn law_usages_are_recorded(s: StateView, t: TargetView, args: ArgsView, line: u32)
    ensures
        has_escape(s.usages, t) ==> s.escape(t) == s,
        !has_escape(s.usages, t) ==> s.escape(t).usages == s.usages.push(
            UsageView { target: t, kind: UsageKindView::Escape, line: 0 },
        ),
        s.escape(t).names == s.names,
        s.escape(t).escape(t) == s.escape(t),
        s.call(t, args, line).usages == s.usages.push(
            UsageView { target: t, kind: UsageKindView::Call(args), line },
        ),
        s.call(t, args, line).names == s.names,
{
    crate::kept::lemma_escape_is_recorded(s, t);
}

/// A member of something unknown may be a method or, through a namespace that
/// is not seen as one, a function.
pub proof fn law_unknown_members(s: StateView, name: Seq<char>)
    ensures
        s.escape_member(name) == s.escape(TargetView::AnyMethodNamed(name)).escape(
            TargetView::AnyFreeNamed(name),
        ),
{
}

// ---------------------------------------------------------------------------
// Nodes
// ---------------------------------------------------------------------------

/// Types, imports, re-exports and closing tags use no values.
pub proof fn law_silent_nodes(n: JsonView, src: Seq<char>, s: StateView)
    requires
        silent(n.get("type"@).text()),
    ensures
        visited(n, src, s) == s,
{
    lemma_walk_kinds();
    if !(n is Object) {
        lemma_no_kind(n);
    }
}

/// An export is no use: what is exported by name is not walked, what is
/// declared in the export is.
pub proof fn law_exports_are_no_uses(n: JsonView, src: Seq<char>, s: StateView)
    ensures
        n.is_kind("ExportNamedDeclaration"@) ==> visited(n, src, s) == visited(
            n.get("declaration"@),
            src,
            s,
        ),
        n.is_kind("ExportNamedDeclaration"@) && n.get("declaration"@) is Null ==> visited(
            n,
            src,
            s,
        ) == s,
        n.is_kind("ExportDefaultDeclaration"@) && n.get("declaration"@).is_kind("Identifier"@)
            ==> visited(n, src, s) == s,
        n.is_kind("ExportDefaultDeclaration"@) && !n.get("declaration"@).is_kind("Identifier"@)
            ==> visited(n, src, s) == visited(n.get("declaration"@), src, s),
{
    lemma_walk_kinds();
    if !(n is Object) {
        lemma_no_kind(n);
    }
    assert(visited(JsonView::Null, src, s) == s);
}

/// A name that stands as a value lets escape just what it means.
pub proof fn law_names_as_values(n: JsonView, src: Seq<char>, s: StateView)
    requires
        n.is_kind("Identifier"@),
    ensures
        (match value_target(s.lookup(n.name()), n.name()) {
            Some(t) => visited(n, src, s) == s.escape(t),
            None => visited(n, src, s) == s,
        }),
{
    lemma_walk_kinds();
    if !(n is Object) {
        lemma_no_kind(n);
    }
}

/// To make an instance of a class is no use of the class as a value.
pub proof fn law_new_is_no_use(n: JsonView, src: Seq<char>, s: StateView)
    requires
        n.is_kind("NewExpression"@),
    ensures
        n.get("callee"@).is_kind("Identifier"@) ==> visited(n, src, s) == visited_items(
            n.get("arguments"@).items(),
            src,
            s,
        ),
        !n.get("callee"@).is_kind("Identifier"@) ==> visited(n, src, s) == visited_items(
            n.get("arguments"@).items(),
            src,
            visited(n.get("callee"@), src, s),
        ),
{
    lemma_walk_kinds();
    if !(n is Object) {
        lemma_no_kind(n);
    }
}

/// Nodes are walked one after the other.
pub proof fn law_lists_are_walked(items: Seq<JsonView>, n: JsonView, src: Seq<char>, s: StateView)
    ensures
        visited_items(items.push(n), src, s) == visited(n, src, visited_items(items, src, s)),
        visited_items(Seq::empty(), src, s) == s,
        visited(JsonView::Array(items), src, s) == visited_items(items, src, s),
{
    let more = items.push(n);
    assert(more.drop_last() =~= items);
    assert(more.last() == n);
}

/// An interface that a class implements is named; of a dotted name the first
/// part is used.
pub proof fn law_implemented_names(n: JsonView, src: Seq<char>, s: StateView)
    requires
        n.is_kind("TSClassImplements"@),
    ensures
        ({
            let e = n.get("expression"@);
            &&& e.is_kind("Identifier"@) ==> visited(n, src, s) == visited(e, src, s)
            &&& e.is_kind("MemberExpression"@) && e.get("object"@).is_kind("Identifier"@)
                ==> visited(n, src, s) == visited(e.get("object"@), src, s)
        }),
{
    lemma_walk_kinds();
    if !(n is Object) {
        lemma_no_kind(n);
    }
    let e = n.get("expression"@);
    if !(e is Object) {
        lemma_no_kind(e);
    }
    if !(e.get("object"@) is Object) {
        lemma_no_kind(e.get("object"@));
    }
    reveal_with_fuel(root_name, 2);
}

/// Any other node is walked field by field.
pub proof fn law_other_nodes_are_walked(n: JsonView, src: Seq<char>, s: StateView)
    requires
        n is Object,
        !special(n.get("type"@).text()),
        !silent(n.get("type"@).text()),
    ensures
        visited(n, src, s) == visited_fields(n.fields(), n.get("computed"@).is_true(), src, s),
{
}

/// Whether a field holds a type, a declared name or a label.
pub open spec fn names_or_types(name: Seq<char>) -> bool {
    ||| name == "typeAnnotation"@
    ||| name == "returnType"@
    ||| name == "typeParameters"@
    ||| name == "typeArguments"@
    ||| name == "superTypeArguments"@
    ||| name == "id"@
    ||| name == "label"@
}

/// Of the fields of a node those are walked that hold neither types nor names;
/// a key only if it is computed.
pub proof fn law_fields_are_walked(
    fields: Seq<(Seq<char>, JsonView)>,
    name: Seq<char>,
    v: JsonView,
    computed: bool,
    src: Seq<char>,
    s: StateView,
)
    ensures
        ({
            let before = visited_fields(fields, computed, src, s);
            let after = visited_fields(fields.push((name, v)), computed, src, s);
            if names_or_types(name) || (name == "key"@ && !computed) {
                after == before
            } else {
                after == visited(v, src, before)
            }
        }),
        visited_fields(Seq::empty(), computed, src, s) == s,
{
    let more = fields.push((name, v));
    assert(more.drop_last() =~= fields);
    assert(more[more.len() - 1] == (name, v));
}

/// So the walk comes to what stands in any such field.
pub proof fn law_children_are_reached(n: JsonView, i: int)
    requires
        n is Object,
        !special(n.get("type"@).text()),
        !silent(n.get("type"@).text()),
        0 <= i < n.fields().len(),
        !names_or_types(n.fields()[i].0),
        n.fields()[i].0 != "key"@ || n.get("computed"@).is_true(),
    ensures
        comes_to(n, n.fields()[i].1),
{
    lemma_reached(n.fields(), n.get("computed"@).is_true(), i);
}

proof fn lemma_reached(fields: Seq<(Seq<char>, JsonView)>, computed: bool, i: int)
    requires
        0 <= i < fields.len(),
        !names_or_types(fields[i].0),
        fields[i].0 != "key"@ || computed,
    ensures
        fields_come_to(fields, computed, fields[i].1),
    decreases fields.len(),
{
    if i < fields.len() - 1 {
        let front = fields.drop_last();
        assert(front[i] == fields[i]);
        lemma_reached(front, computed, i);
    } else {
        assert(comes_to(fields[i].1, fields[i].1));
    }
}

// ---------------------------------------------------------------------------
// Members
// ---------------------------------------------------------------------------

/// A member that is used but not called lets escape what it may be: that
/// member of a known object or instance, the function or the module itself
/// that it is a member of, or anything of its name; an enum's member is no
/// function.
pub proof fn law_member_uses(n: JsonView, src: Seq<char>, s: StateView)
    requires
        is_static_member(n),
        n.get("object"@).is_kind("Identifier"@),
    ensures
        ({
            let object = n.get("object"@).name();
            let name = n.get("property"@).name();
            let after = visited(n, src, s);
            match s.lookup(object) {
                Some(BindingView::ObjectConst) => after == s.escape(
                    TargetView::Local { owner: OwnerView::ObjectConst(object), name },
                ),
                Some(BindingView::Instance(c)) => after == s.escape(
                    TargetView::Local { owner: OwnerView::Class(c), name },
                ),
                Some(BindingView::Fn) => after == s.escape(
                    TargetView::Local { owner: OwnerView::Free, name: object },
                ),
                Some(BindingView::Namespace) => after == s.escape(
                    TargetView::AllExportsOfModule { ns_local: object },
                ),
                Some(BindingView::Import) => after == s.escape(
                    TargetView::Imported { local: object },
                ).escape(TargetView::AnyMethodNamed(name)).escape(TargetView::AnyFreeNamed(name)),
                Some(BindingView::EnumDecl) => after == s,
                _ => after == s.escape(TargetView::AnyMethodNamed(name)).escape(
                    TargetView::AnyFreeNamed(name),
                ),
            }
        }),
{
    lemma_walk_kinds();
    if !(n is Object) {
        lemma_no_kind(n);
    }
    assert(visited(n, src, s) == visited_member(n, src, s));
}

/// `object["name"]` is a use of the member of that name, of something unknown.
pub proof fn law_literal_member_uses(n: JsonView, src: Seq<char>, s: StateView, name: Seq<char>)
    requires
        n.is_kind("MemberExpression"@),
        n.get("computed"@).is_true(),
        string_value(n.get("property"@)) == Some(name),
    ensures
        visited(n, src, s) == visited(
            n.get("object"@),
            src,
            s.escape(TargetView::AnyMethodNamed(name)).escape(TargetView::AnyFreeNamed(name)),
        ),
{
    lemma_walk_kinds();
    if !(n is Object) {
        lemma_no_kind(n);
    }
}

// ---------------------------------------------------------------------------
// Calls
// ---------------------------------------------------------------------------

/// What a call records first: the call itself, with its line.
pub open spec fn records_call(
    before: StateView,
    after: StateView,
    t: TargetView,
    args: ArgsView,
    line: u32,
) -> bool {
    &&& before.usages.len() < after.usages.len()
    &&& after.usages[before.usages.len() as int] == (UsageView {
        target: t,
        kind: UsageKindView::Call(args),
        line,
    })
}

proof fn lemma_call_walk(n: JsonView, src: Seq<char>, s: StateView, called: StateView)
    requires
        visited(n, src, s) == (match array_callback(n, called) {
            Some((t, shape)) => visited_args(
                n.get("arguments"@).items(),
                true,
                src,
                called.call(t, shape, n.start_line(src)),
            ),
            None => visited_args(n.get("arguments"@).items(), false, src, called),
        }),
    ensures
        keeps(called.usages, visited(n, src, s).usages),
{
    let items = n.get("arguments"@).items();
    match array_callback(n, called) {
        Some((t, shape)) => {
            lemma_args_keep(items, true, src, called.call(t, shape, n.start_line(src)));
        },
        None => {
            lemma_args_keep(items, false, src, called);
        },
    }
}

/// A call of a function by its name is recorded as such, with its arguments
/// and its line; so is one of an imported name.
pub proof fn law_calls_by_name(n: JsonView, src: Seq<char>, s: StateView)
    requires
        n.is_kind("CallExpression"@),
        n.get("callee"@).is_kind("Identifier"@),
    ensures
        ({
            let name = n.get("callee"@).name();
            let args = observed_args(n.get("arguments"@).items(), src, s.names);
            let after = visited(n, src, s);
            let line = n.start_line(src);
            &&& s.lookup(name) == Some(BindingView::Fn) ==> records_call(
                s,
                after,
                TargetView::Local { owner: OwnerView::Free, name },
                args,
                line,
            )
            &&& s.lookup(name) == Some(BindingView::Import) ==> records_call(
                s,
                after,
                TargetView::Imported { local: name },
                args,
                line,
            )
        }),
{
    lemma_walk_kinds();
    if !(n is Object) {
        lemma_no_kind(n);
    }
    let args = observed_args(n.get("arguments"@).items(), src, s.names);
    let called = called_name(n.get("callee"@).name(), args, n.start_line(src), s);
    assert(visited(n, src, s) == visited_call(n, src, s));
    lemma_call_walk(n, src, s, called);
    if s.usages.len() < called.usages.len() {
        assert(visited(n, src, s).usages[s.usages.len() as int]
            == called.usages[s.usages.len() as int]);
    }
}

/// A call of a member of a known object, instance or namespace is recorded as
/// such, with its arguments and its line.
pub proof fn law_calls_of_members(n: JsonView, src: Seq<char>, s: StateView)
    requires
        n.is_kind("CallExpression"@),
        is_static_member(n.get("callee"@)),
        n.get("callee"@).get("object"@).is_kind("Identifier"@),
    ensures
        ({
            let object = n.get("callee"@).get("object"@).name();
            let name = n.get("callee"@).get("property"@).name();
            let args = observed_args(n.get("arguments"@).items(), src, s.names);
            let after = visited(n, src, s);
            let line = n.start_line(src);
            match s.lookup(object) {
                Some(BindingView::ObjectConst) => records_call(
                    s,
                    after,
                    TargetView::Local { owner: OwnerView::ObjectConst(object), name },
                    args,
                    line,
                ),
                Some(BindingView::Instance(c)) => records_call(
                    s,
                    after,
                    TargetView::Local { owner: OwnerView::Class(c), name },
                    args,
                    line,
                ),
                Some(BindingView::Namespace) => records_call(
                    s,
                    after,
                    TargetView::NamespaceMember { ns_local: object, name },
                    args,
                    line,
                ),
                _ => true,
            }
        }),
{
    lemma_walk_kinds();
    if !(n is Object) {
        lemma_no_kind(n);
    }
    let object = n.get("callee"@).get("object"@).name();
    let name = n.get("callee"@).get("property"@).name();
    let args = observed_args(n.get("arguments"@).items(), src, s.names);
    let called = called_member(object, name, args, n.start_line(src), s);
    assert(visited(n, src, s) == visited_call(n, src, s));
    lemma_call_walk(n, src, s, called);
    if s.usages.len() < called.usages.len() {
        assert(visited(n, src, s).usages[s.usages.len() as int]
            == called.usages[s.usages.len() as int]);
    }
}

/// A call without arguments records nothing but the call: of a known function
/// just that, of anything else just what it may reach.
pub proof fn law_calls_record_nothing_else(n: JsonView, src: Seq<char>, s: StateView)
    requires
        n.is_kind("CallExpression"@),
        n.get("callee"@).is_kind("Identifier"@),
        n.get("arguments"@).items().len() == 0,
    ensures
        ({
            let name = n.get("callee"@).name();
            let after = visited(n, src, s);
            let args = ArgsView::Args(Seq::empty());
            match s.lookup(name) {
                Some(BindingView::Fn) => after == s.call(
                    TargetView::Local { owner: OwnerView::Free, name },
                    args,
                    n.start_line(src),
                ),
                Some(BindingView::Import) => after == s.call(
                    TargetView::Imported { local: name },
                    args,
                    n.start_line(src),
                ),
                Some(BindingView::Namespace) => after == s.escape(
                    TargetView::AllExportsOfModule { ns_local: name },
                ),
                _ => after == s.escape(TargetView::AnyFreeNamed(name)),
            }
        }),
{
    lemma_walk_kinds();
    if !(n is Object) {
        lemma_no_kind(n);
    }
    let items = n.get("arguments"@).items();
    let args = observed_args(items, src, s.names);
    assert(args == ArgsView::Args(Seq::empty())) by {
        assert(args->Args_0 =~= Seq::empty());
    }
    let called = called_name(n.get("callee"@).name(), args, n.start_line(src), s);
    assert(visited(n, src, s) == visited_call(n, src, s));
    assert(array_callback(n, called) is None);
    assert(visited_args(items, false, src, called) == called);
}

/// The arguments of a call are walked, all but a function that an array method
/// calls.
pub proof fn law_arguments_are_walked(
    items: Seq<JsonView>,
    a: JsonView,
    src: Seq<char>,
    s: StateView,
)
    ensures
        visited_args(items.push(a), false, src, s) == visited(
            a,
            src,
            visited_args(items, false, src, s),
        ),
        items.len() > 0 ==> visited_args(items.push(a), true, src, s) == visited(
            a,
            src,
            visited_args(items, true, src, s),
        ),
        visited_args(seq![a], true, src, s) == s,
        visited_args(Seq::empty(), false, src, s) == s,
{
    let more = items.push(a);
    assert(more.drop_last() =~= items);
    assert(more.last() == a);
}

// ---------------------------------------------------------------------------
// Elements
// ---------------------------------------------------------------------------

/// An element of the platform uses nothing by its tag. A component calls the
/// function that it names, at its line; a class or a namespace that it names
/// escapes, and so does any function of a name that nothing binds.
pub proof fn law_tags(opening: JsonView, has_children: bool, src: Seq<char>, s: StateView)
    ensures
        ({
            let tag = opening.get("name"@);
            let name = tag.name();
            let after = visited_tag(opening, has_children, src, s);
            let args = component_args(
                opening.get("attributes"@).items(),
                has_children,
                src,
                s.names,
            );
            let line = opening.start_line(src);
            &&& tag.is_kind("JSXIdentifier"@) && !is_component(tag) ==> after == s
            &&& is_component(tag) ==> match s.lookup(name) {
                Some(BindingView::Fn) => after == s.call(
                    TargetView::Local { owner: OwnerView::Free, name },
                    args,
                    line,
                ),
                Some(BindingView::Import) => after == s.call(
                    TargetView::Imported { local: name },
                    args,
                    line,
                ),
                Some(BindingView::ClassDecl) => after == s.escape(
                    TargetView::AllMembersOf(OwnerView::Class(name)),
                ),
                Some(BindingView::Namespace) => after == s.escape(
                    TargetView::AllExportsOfModule { ns_local: name },
                ),
                _ => after == s.escape(TargetView::AnyFreeNamed(name)),
            }
        }),
{
    lemma_tag_kinds();
}

/// A dotted tag lets anything of its last name escape, and what its first name
/// stands for.
pub proof fn law_dotted_tags(opening: JsonView, has_children: bool, src: Seq<char>, s: StateView)
    requires
        opening.get("name"@).is_kind("JSXMemberExpression"@),
        opening.get("name"@).get("object"@).is_kind("JSXIdentifier"@),
    ensures
        ({
            let tag = opening.get("name"@);
            visited_tag(opening, has_children, src, s) == s.escape(
                TargetView::AnyMethodNamed(tag.get("property"@).name()),
            ).escape(TargetView::AnyFreeNamed(tag.get("property"@).name())).escape_use(
                tag.get("object"@).name(),
            )
        }),
{
    lemma_tag_kinds();
    let tag = opening.get("name"@);
    let o = tag.get("object"@);
    if !(tag is Object) {
        lemma_no_kind(tag);
    }
    if !(o is Object) {
        lemma_no_kind(o);
    }
    reveal_with_fuel(visited_tag_object, 2);
}

/// The attributes of an element are walked; an event handler of an element of
/// the platform is a call with one unknown argument, and no escape.
pub proof fn law_attributes_are_walked(
    items: Seq<JsonView>,
    a: JsonView,
    intrinsic: bool,
    src: Seq<char>,
    s: StateView,
)
    ensures
        ({
            let before = visited_attributes(items, intrinsic, src, s);
            let after = visited_attributes(items.push(a), intrinsic, src, s);
            match event_handler(a, before) {
                Some(t) if intrinsic => after == before.call(
                    t,
                    ArgsView::Args(seq![ObservedView::Opaque]),
                    a.start_line(src),
                ),
                _ => {
                    &&& a.is_kind("JSXAttribute"@) ==> after == visited(
                        a.get("value"@),
                        src,
                        before,
                    )
                    &&& a.is_kind("JSXSpreadAttribute"@) ==> after == visited(
                        a.get("argument"@),
                        src,
                        before,
                    )
                },
            }
        }),
        visited_attributes(Seq::empty(), intrinsic, src, s) == s,
{
    lemma_tag_kinds();
    let more = items.push(a);
    assert(more.drop_last() =~= items);
    assert(more.last() == a);
}

/// An element is walked by its tag, its attributes and its children.
pub proof fn law_elements_are_walked(n: JsonView, src: Seq<char>, s: StateView)
    requires
        n.is_kind("JSXElement"@),
    ensures
        ({
            let opening = n.get("openingElement"@);
            let children = n.get("children"@).items();
            let tagged = visited_tag(opening, children.len() > 0, src, s);
            &&& visited(n, src, s) == visited_items(
                children,
                src,
                visited_attributes(
                    opening.get("attributes"@).items(),
                    opening.get("name"@).is_kind("JSXIdentifier"@) && !is_component(
                        opening.get("name"@),
                    ),
                    src,
                    tagged,
                ),
            )
        }),
{
    lemma_walk_kinds();
    if !(n is Object) {
        lemma_no_kind(n);
    }
    assert(visited(n, src, s) == visited_element(n, src, s));
}

// ---------------------------------------------------------------------------
// Variables
// ---------------------------------------------------------------------------

/// Inside a function the names that a pattern declares are local from there
/// on; at the level of a module, names are bound beforehand.
pub proof fn law_declared_variables(
    d: JsonView,
    is_const: bool,
    src: Seq<char>,
    s: StateView,
    name: Seq<char>,
)
    requires
        s.names.scopes.len() > 0,
    ensures
        ({
            let after = with_declared(d, is_const, src, s);
            let id = d.get("id"@);
            &&& after.usages == s.usages
            &&& !id.is_kind("Identifier"@) ==> adds_locals(
                s.names.scopes.last(),
                after.names.scopes.last(),
                name,
                binds(id, name),
            )
            &&& id.is_kind("Identifier"@) && s.names.scopes.len() == 1 ==> after == s
            &&& id.is_kind("Identifier"@) && s.names.scopes.len() > 1
                ==> after.names.scopes.last().contains_key(id.name())
        }),
{
    law_patterns_bind_their_names(d.get("id"@), s.names.scopes.last(), name);
}

/// An annotation that names a type which only the function knows is not used.
pub proof fn law_local_types_hide_annotations(
    ann: TypeExprView,
    lit: Option<ObservedView>,
    shadows: Seq<Set<Seq<char>>>,
)
    ensures
        crate::annotation::mentions(ann, shadows) ==> safe_binding(
            BindingView::Const { ann: Some(ann), lit },
            shadows,
        ) == (BindingView::Const { ann: None, lit }),
        !crate::annotation::mentions(ann, shadows) ==> safe_binding(
            BindingView::Const { ann: Some(ann), lit },
            shadows,
        ) == (BindingView::Const { ann: Some(ann), lit }),
{
}

} // verus!
