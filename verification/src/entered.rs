//! What modules and functions bring into scope, and how functions are walked.

use vstd::prelude::*;

use crate::declared::lemma_statement_kinds;
use crate::diff::{with_line, with_lines};
use crate::extract::{finished_decls, module_facts};
use crate::json::JsonView;
use crate::prepass::{
    dynamic_import, variable_binding, with_methods, with_object_methods, with_statement,
    with_variable, with_variables, PlaceView, PreView,
};
use crate::project::{all_facts, project_specs, FileView};
use crate::scope::BindingView;
use crate::source::{line_at, text_of_span};
use crate::specifier::{import_candidates, import_target};
use crate::syntax::{parser_output, tree_in};
use crate::text::{decimal, ends_with, law_decimal_is_read_back};
use crate::usage::{function_scope, StateView};
use crate::visit::{
    visited, visited_binding, visited_bindings, visited_declarators, visited_function,
    visited_initializers, visited_items, with_declared,
};
use crate::walked::lemma_walk_kinds;
use crate::workspace::{with_configs, with_entries, with_packages, ConfigView, SpecView};

verus! {

broadcast use {crate::json::group_json_sizes, crate::json::group_json_views};

// ---------------------------------------------------------------------------
// Modules
// ---------------------------------------------------------------------------

proof fn lemma_methods_bind_nothing(
    s: PreView,
    class: Seq<char>,
    members: Seq<JsonView>,
    k: int,
    exported: bool,
    src: Seq<char>,
)
    ensures
        with_methods(s, class, members, k, exported, src).scope == s.scope,
    decreases k,
{
    if k > 0 {
        lemma_methods_bind_nothing(s, class, members, k - 1, exported, src);
    }
}

/// A class that is declared, exported or not, is known by its name as a class;
/// its methods bring nothing into scope.
pub proof fn law_classes_are_in_scope(
    s: PreView,
    c: JsonView,
    outer: JsonView,
    src: Seq<char>,
    place: PlaceView,
)
    requires
        c.is_kind("ClassDeclaration"@),
        !(c.get("id"@) is Null),
        outer.is_kind("ExportDefaultDeclaration"@),
        outer.get("declaration"@) == c,
    ensures
        with_statement(s, c, src, place).scope == s.scope.insert(
            c.get("id"@).name(),
            BindingView::ClassDecl,
        ),
        with_statement(s, outer, src, place).scope == s.scope.insert(
            c.get("id"@).name(),
            BindingView::ClassDecl,
        ),
{
    lemma_statement_kinds();
    let name = c.get("id"@).name();
    let members = c.get("body"@).get("body"@).items();
    let b = s.bound(name, BindingView::ClassDecl);
    lemma_methods_bind_nothing(b, name, members, members.len() as int, false, src);
    lemma_methods_bind_nothing(b, name, members, members.len() as int, true, src);
}

proof fn lemma_object_methods_bind_nothing(
    s: PreView,
    name: Seq<char>,
    props: Seq<JsonView>,
    k: int,
    exported: bool,
    src: Seq<char>,
)
    ensures
        with_object_methods(s, name, props, k, exported, src).scope == s.scope,
    decreases k,
{
    if k > 0 {
        lemma_object_methods_bind_nothing(s, name, props, k - 1, exported, src);
    }
}

/// A variable of a module is in scope as what it is given; a pattern of a
/// module brings nothing into scope that is known.
pub proof fn law_variables_are_in_scope(
    s: PreView,
    items: Seq<JsonView>,
    d: JsonView,
    is_const: bool,
    exported: bool,
    src: Seq<char>,
    place: PlaceView,
)
    ensures
        ({
            let before = with_variables(s, items, is_const, exported, src, place);
            let after = with_variables(s, items.push(d), is_const, exported, src, place);
            let id = d.get("id"@);
            &&& !id.is_kind("Identifier"@) ==> after == before
            &&& id.is_kind("Identifier"@) && dynamic_import(d.get("init"@)) is None
                ==> after.scope == before.scope.insert(
                id.name(),
                variable_binding(d, is_const, true, src),
            )
        }),
{
    let more = items.push(d);
    assert(more.drop_last() =~= items);
    assert(more.last() == d);
    let before = with_variables(s, items, is_const, exported, src, place);
    let props = d.get("init"@).get("properties"@).items();
    lemma_object_methods_bind_nothing(
        before,
        d.get("id"@).name(),
        props,
        props.len() as int,
        exported,
        src,
    );
}

/// Whether declared variables cannot be assigned to is told by `const`, and
/// they are exported by an `export` before them.
pub proof fn law_variable_statements(
    s: PreView,
    n: JsonView,
    outer: JsonView,
    src: Seq<char>,
    place: PlaceView,
)
    requires
        n.is_kind("VariableDeclaration"@),
        outer.is_kind("ExportNamedDeclaration"@),
        outer.get("declaration"@) == n,
        outer.get("source"@) is Null,
        outer.get("specifiers"@).items().len() == 0,
    ensures
        ({
            let items = n.get("declarations"@).items();
            let fixed = n.get("kind"@).text() == seq!['c', 'o', 'n', 's', 't'];
            &&& with_statement(s, n, src, place) == with_variables(
                s,
                items,
                fixed,
                false,
                src,
                place,
            )
            &&& with_statement(s, outer, src, place) == with_variables(
                s,
                items,
                fixed,
                true,
                src,
                place,
            )
        }),
{
    lemma_statement_kinds();
    reveal_strlit("const");
    assert("const"@ =~= seq!['c', 'o', 'n', 's', 't']);
}

/// Just the methods of instances with a body are declared of a class: no
/// constructor, accessor, static or computed member.
pub proof fn law_other_members_are_not_declared(
    s: PreView,
    class: Seq<char>,
    members: Seq<JsonView>,
    k: int,
    exported: bool,
    src: Seq<char>,
)
    requires
        0 <= k < members.len(),
        members[k].get("static"@).is_true() || members[k].get("computed"@).is_true()
            || members[k].get("kind"@).text() != seq!['m', 'e', 't', 'h', 'o', 'd']
            || members[k].get("value"@).get("body"@) is Null || !members[k].is_kind(
            "MethodDefinition"@,
        ),
    ensures
        with_methods(s, class, members, k + 1, exported, src) == with_methods(
            s,
            class,
            members,
            k,
            exported,
            src,
        ),
{
    reveal_strlit("method");
    assert("method"@ =~= seq!['m', 'e', 't', 'h', 'o', 'd']);
}

/// Just the functions with a body are declared of an object.
pub proof fn law_other_properties_are_not_declared(
    s: PreView,
    name: Seq<char>,
    props: Seq<JsonView>,
    k: int,
    exported: bool,
    src: Seq<char>,
)
    requires
        0 <= k < props.len(),
        props[k].get("computed"@).is_true() || props[k].get("value"@).get("body"@) is Null
            || !props[k].is_kind("Property"@),
    ensures
        with_object_methods(s, name, props, k + 1, exported, src) == with_object_methods(
            s,
            name,
            props,
            k,
            exported,
            src,
        ),
{
}

/// The functions of an object are declared where nothing else can be assigned
/// to its name; other variables declare nothing but a function they are given.
pub proof fn law_object_constants(
    s: PreView,
    d: JsonView,
    exported: bool,
    src: Seq<char>,
    place: PlaceView,
)
    requires
        d.get("id"@).is_kind("Identifier"@),
        d.get("init"@).is_kind("ObjectExpression"@),
        dynamic_import(d.get("init"@)) is None,
    ensures
        ({
            let name = d.get("id"@).name();
            let props = d.get("init"@).get("properties"@).items();
            &&& with_variable(s, d, true, exported, src, place).info == with_object_methods(
                s,
                name,
                props,
                props.len() as int,
                exported,
                src,
            ).info
            &&& with_variable(s, d, false, exported, src, place).info == s.info
        }),
{
    crate::reading::lemma_value_kinds();
}

/// A function that is the only one of its name stays as it is declared, but
/// for what the module exports: it is analyzed if nothing else stands against
/// it.
pub proof fn law_sole_functions_are_analyzed(s: PreView, i: int)
    requires
        0 <= i < s.info.decls.len(),
        forall|j: int|
            0 <= j < s.info.decls.len() && j != i ==> !((#[trigger] s.info.decls[j]).owner
                == s.info.decls[i].owner && s.info.decls[j].name == s.info.decls[i].name),
        s.info.decls[i].owner !is Free || !s.bodyless.contains(s.info.decls[i].name),
    ensures
        finished_decls(s).len() == s.info.decls.len(),
        ({
            let before = s.info.decls[i];
            let after = finished_decls(s)[i];
            &&& after.skip == before.skip
            &&& after.eligible == before.eligible
            &&& after.name == before.name
            &&& after.owner == before.owner
            &&& after.params == before.params
            &&& after.line == before.line
            &&& after.end_line == before.end_line
        }),
{
}

/// A function or class without a name cannot be called by one.
pub proof fn law_anonymous_defaults(s: PreView, n: JsonView, src: Seq<char>, place: PlaceView)
    requires
        n.is_kind("ExportDefaultDeclaration"@),
        n.get("declaration"@).is_kind("FunctionDeclaration"@) || n.get("declaration"@).is_kind(
            "ClassDeclaration"@,
        ),
        n.get("declaration"@).get("id"@) is Null,
    ensures
        with_statement(s, n, src, place) == s,
{
    lemma_statement_kinds();
}

// ---------------------------------------------------------------------------
// Functions
// ---------------------------------------------------------------------------

/// The state inside a function: its own scope on top of those around it.
pub open spec fn inside(n: JsonView, src: Seq<char>, s: StateView) -> StateView {
    s.pushed(
        function_scope(n, src, s.names.shadows).values,
        function_scope(n, src, s.names.shadows).types,
    )
}

/// The defaults of parameters and the body of a function are walked with the
/// function's names in scope; these are forgotten behind it.
pub proof fn law_functions_are_walked(n: JsonView, src: Seq<char>, s: StateView)
    requires
        n is Object,
        n.is_kind("ArrowFunctionExpression"@) || n.is_kind("FunctionExpression"@),
        n.get("id"@) is Null,
    ensures
        visited(n, src, s) == visited(
            n.get("body"@),
            src,
            visited_bindings(n.get("params"@).items(), src, inside(n, src, s)),
        ).popped(),
{
    lemma_walk_kinds();
    assert(visited(n, src, s) == visited_function(n, src, s));
}

/// The name of a function expression is local inside the function.
pub proof fn law_named_function_expressions(n: JsonView, src: Seq<char>, s: StateView)
    requires
        n is Object,
        n.is_kind("FunctionExpression"@),
        !(n.get("id"@) is Null),
    ensures
        visited(n, src, s) == visited(
            n.get("body"@),
            src,
            visited_bindings(
                n.get("params"@).items(),
                src,
                inside(n, src, s).bound(n.get("id"@).name(), BindingView::LocalOther),
            ),
        ).popped(),
{
    lemma_walk_kinds();
    assert(visited(n, src, s) == visited_function(n, src, s));
}

/// The name of a function that is declared inside another is local there; that
/// of one at the level of the module is in scope already.
pub proof fn law_function_declarations_are_walked(n: JsonView, src: Seq<char>, s: StateView)
    requires
        n is Object,
        n.is_kind("FunctionDeclaration"@),
        !(n.get("id"@) is Null),
    ensures
        ({
            let around = if s.names.scopes.len() > 1 {
                s.bound(n.get("id"@).name(), BindingView::LocalOther)
            } else {
                s
            };
            visited(n, src, s) == visited(
                n.get("body"@),
                src,
                visited_bindings(n.get("params"@).items(), src, inside(n, src, around)),
            ).popped()
        }),
{
    lemma_walk_kinds();
    assert(visited(n, src, s) == visited_function(n, src, s));
}

/// To enter a function adds one scope, which is looked into first; to leave it
/// takes that scope away. Neither changes what is recorded.
pub proof fn law_scopes_are_entered_and_left(n: JsonView, src: Seq<char>, s: StateView, name: Seq<char>)
    requires
        s.names.scopes.len() > 0,
    ensures
        inside(n, src, s).popped() == s,
        inside(n, src, s).usages == s.usages,
        function_scope(n, src, s.names.shadows).values.contains_key(name) ==> inside(
            n,
            src,
            s,
        ).lookup(name) == Some(function_scope(n, src, s.names.shadows).values[name]),
        !function_scope(n, src, s.names.shadows).values.contains_key(name) ==> inside(
            n,
            src,
            s,
        ).lookup(name) == s.lookup(name),
{
    let i = inside(n, src, s);
    assert(i.names.scopes.drop_last() =~= s.names.scopes);
    assert(i.names.shadows.drop_last() =~= s.names.shadows);
}

/// The expressions inside patterns are walked: defaults and computed keys.
pub proof fn law_patterns_are_walked(n: JsonView, src: Seq<char>, s: StateView)
    requires
        n is Object,
        n.get("decorators"@).items().len() == 0,
    ensures
        n.is_kind("Identifier"@) ==> visited_binding(n, src, s) == s,
        n.is_kind("AssignmentPattern"@) ==> visited_binding(n, src, s) == visited(
            n.get("right"@),
            src,
            visited_binding(n.get("left"@), src, s),
        ),
        n.is_kind("ObjectPattern"@) ==> visited_binding(n, src, s) == visited_bindings(
            n.get("properties"@).items(),
            src,
            s,
        ),
        n.is_kind("ArrayPattern"@) ==> visited_binding(n, src, s) == visited_bindings(
            n.get("elements"@).items(),
            src,
            s,
        ),
        n.is_kind("Property"@) && !n.get("computed"@).is_true() ==> visited_binding(n, src, s)
            == visited_binding(n.get("value"@), src, s),
        n.is_kind("Property"@) && n.get("computed"@).is_true() ==> visited_binding(n, src, s)
            == visited_binding(n.get("value"@), src, visited(n.get("key"@), src, s)),
        n.is_kind("RestElement"@) ==> visited_binding(n, src, s) == visited_binding(
            n.get("argument"@),
            src,
            s,
        ),
        n.is_kind("TSParameterProperty"@) ==> visited_binding(n, src, s) == visited_binding(
            n.get("parameter"@),
            src,
            s,
        ),
{
    crate::bound::lemma_pattern_kinds();
    assert(visited_items(n.get("decorators"@).items(), src, s) == s);
}

/// Patterns are walked one after the other.
pub proof fn law_pattern_lists_are_walked(
    items: Seq<JsonView>,
    n: JsonView,
    src: Seq<char>,
    s: StateView,
)
    ensures
        visited_bindings(items.push(n), src, s) == visited_binding(
            n,
            src,
            visited_bindings(items, src, s),
        ),
        visited_bindings(Seq::empty(), src, s) == s,
{
    let more = items.push(n);
    assert(more.drop_last() =~= items);
    assert(more.last() == n);
}

/// A variable is in scope before its initializer is walked.
pub proof fn law_variables_are_walked(
    n: JsonView,
    items: Seq<JsonView>,
    d: JsonView,
    src: Seq<char>,
    s: StateView,
)
    requires
        n is Object,
        n.is_kind("VariableDeclaration"@),
        n.get("declarations"@).items() == items.push(d),
    ensures
        ({
            let fixed = n.get("kind"@).text() == seq!['c', 'o', 'n', 's', 't'];
            let before = visited_declarators(items, fixed, src, s);
            visited(n, src, s) == visited(
                d.get("init"@),
                src,
                visited_binding(d.get("id"@), src, with_declared(d, fixed, src, before)),
            )
        }),
{
    lemma_walk_kinds();
    reveal_strlit("const");
    assert("const"@ =~= seq!['c', 'o', 'n', 's', 't']);
    let all = items.push(d);
    assert(all.drop_last() =~= items);
    assert(all.last() == d);
    let fixed = n.get("kind"@).text() == "const"@;
    assert(visited(n, src, s) == visited_declarators(n.get("declarations"@).items(), fixed, src, s));
}

/// What is caught is declared before the handler is walked; of an enum the
/// initializers are walked; of a qualified name its first part.
pub proof fn law_other_declarations_are_walked(
    n: JsonView,
    items: Seq<JsonView>,
    m: JsonView,
    src: Seq<char>,
    s: StateView,
)
    requires
        n is Object,
    ensures
        n.is_kind("CatchClause"@) ==> visited(n, src, s) == visited(
            n.get("body"@),
            src,
            visited_binding(n.get("param"@), src, s),
        ),
        n.is_kind("TSEnumDeclaration"@) && n.get("body"@).get("members"@).items() == items.push(m)
            ==> visited(n, src, s) == visited(
            m.get("initializer"@),
            src,
            visited_initializers(items, src, s),
        ),
        n.is_kind("TSQualifiedName"@) ==> visited(n, src, s) == visited(n.get("left"@), src, s),
{
    lemma_walk_kinds();
    let all = items.push(m);
    assert(all.drop_last() =~= items);
    assert(all.last() == m);
    if n.is_kind("TSEnumDeclaration"@) {
        assert(visited(n, src, s) == visited_initializers(
            n.get("body"@).get("members"@).items(),
            src,
            s,
        ));
    }
}

// ---------------------------------------------------------------------------
// Diffs
// ---------------------------------------------------------------------------

/// A diff is read line by line, and starts in no file: a line that looks like
/// a new file without an old one before it names none.
pub proof fn law_diffs_start_in_no_file(lines: Seq<Seq<char>>, line: Seq<char>, root: Seq<char>)
    ensures
        with_lines(lines.push(line), root) == with_line(with_lines(lines, root), line, root),
        with_lines(seq![line], root).current is None,
        with_lines(seq![line], root).changed == Map::<Seq<char>, Seq<(u32, u32)>>::empty(),
{
    let more = lines.push(line);
    assert(more.drop_last() =~= lines);
    assert(more.last() == line);
    let one = seq![line];
    assert(one.drop_last() =~= Seq::<Seq<char>>::empty());
    assert(one.last() == line);
    let none = with_lines(Seq::empty(), root);
    assert(none.current is None && !none.after_old);
    assert(with_lines(one, root) == with_line(none, line, root));
}

// ---------------------------------------------------------------------------
// Files
// ---------------------------------------------------------------------------

/// An import means the first of its candidates that exists.
pub proof fn law_imports_mean_existing_files(
    from: Seq<char>,
    spec: Seq<char>,
    m: SpecView,
    existing: Set<Seq<char>>,
    i: int,
)
    requires
        0 <= i <= import_candidates(from, spec, m).len(),
        forall|j: int|
            0 <= j < i ==> !existing.contains(#[trigger] import_candidates(from, spec, m)[j]),
    ensures
        i < import_candidates(from, spec, m).len() && existing.contains(
            import_candidates(from, spec, m)[i],
        ) ==> import_target(from, spec, m, existing) == Some(import_candidates(from, spec, m)[i]),
        i == import_candidates(from, spec, m).len() ==> import_target(from, spec, m, existing)
            is None,
{
    lemma_first(import_candidates(from, spec, m), existing, i);
}

proof fn lemma_first(files: Seq<Seq<char>>, existing: Set<Seq<char>>, i: int)
    requires
        0 <= i <= files.len(),
        forall|j: int| 0 <= j < i ==> !existing.contains(#[trigger] files[j]),
    ensures
        i < files.len() && existing.contains(files[i]) ==> crate::specifier::first_existing(
            files,
            existing,
        ) == Some(files[i]),
        i == files.len() ==> crate::specifier::first_existing(files, existing) is None,
    decreases i,
{
    if i > 0 {
        assert(!existing.contains(files[0]));
        let rest = files.drop_first();
        assert forall|j: int| 0 <= j < i - 1 implies !existing.contains(#[trigger] rest[j]) by {
            assert(rest[j] == files[j + 1]);
        }
        lemma_first(rest, existing, i - 1);
    }
}

proof fn lemma_entries_keep_packages(
    m: SpecView,
    base: Seq<char>,
    es: Seq<crate::workspace::EntryView>,
)
    ensures
        with_entries(m, base, es).packages == m.packages,
    decreases es.len(),
{
    if es.len() > 0 {
        lemma_entries_keep_packages(m, base, es.drop_last());
    }
}

proof fn lemma_configs_keep_packages(m: SpecView, files: Seq<ConfigView>)
    ensures
        with_configs(m, files).packages == m.packages,
    decreases files.len(),
{
    if files.len() > 0 {
        lemma_configs_keep_packages(m, files.drop_last());
        let before = with_configs(m, files.drop_last());
        let doc = crate::json::json_document(crate::jsonc::plain_json(files.last().text));
        if doc is Some {
            lemma_entries_keep_packages(
                before,
                crate::workspace::base_url(files.last().dir, doc->0),
                crate::workspace::path_entries(
                    doc->0.get("compilerOptions"@).get("paths"@).fields(),
                ),
            );
        }
    }
}

/// A project knows the packages of its manifests, whatever its configurations
/// say.
pub proof fn law_projects_know_their_packages(configs: Seq<ConfigView>)
    ensures
        project_specs(configs).packages == with_packages(configs).packages,
{
    lemma_configs_keep_packages(with_packages(configs), configs);
}

/// Each file of a project is read as a module of its own, under its path; just
/// those with the suffix for it may hold elements.
pub proof fn law_files_are_read(fs: Seq<FileView>, specs: SpecView, existing: Set<Seq<char>>, i: int, stem: Seq<char>)
    requires
        0 <= i < fs.len(),
    ensures
        all_facts(fs, specs, existing).len() == fs.len(),
        ({
            let f = fs[i];
            let place = PlaceView { path: f.path, specs, existing };
            let jsx = tree_in(parser_output(f.text, true));
            let plain = tree_in(parser_output(f.text, false));
            &&& f.path == stem + seq!['a', '.', 't', 's', 'x'] ==> all_facts(fs, specs, existing)[i]
                == module_facts(jsx.0, jsx.1, f.rel, f.text, place)
            &&& f.path == stem + seq!['.', 't', 's'] ==> all_facts(fs, specs, existing)[i]
                == module_facts(plain.0, plain.1, f.rel, f.text, place)
        }),
{
    reveal_strlit(".tsx");
    assert(".tsx"@ =~= seq!['.', 't', 's', 'x']);
    let path = fs[i].path;
    if path == stem + seq!['a', '.', 't', 's', 'x'] {
        assert(path.subrange(path.len() - 4, path.len() as int) =~= ".tsx"@);
        assert(ends_with(path, ".tsx"@));
        lemma_name_behind(stem, seq!['a', '.', 't', 's', 'x']);
    }
    if path == stem + seq!['.', 't', 's'] {
        if ends_with(path, ".tsx"@) {
            assert(path.subrange(path.len() - 4, path.len() as int)[3] == 's');
        }
    }
}

proof fn lemma_name_behind(stem: Seq<char>, name: Seq<char>)
    requires
        name.len() > 0,
        forall|i: int| 0 <= i < name.len() ==> #[trigger] name[i] != '/',
    ensures
        crate::path::file_name(stem + name).len() >= name.len(),
    decreases name.len(),
{
    lemma_name_start(stem, name);
}

proof fn lemma_name_start(stem: Seq<char>, name: Seq<char>)
    requires
        forall|i: int| 0 <= i < name.len() ==> #[trigger] name[i] != '/',
    ensures
        0 <= crate::path::name_start(stem + name) <= stem.len(),
    decreases stem.len() + name.len(),
{
    let path = stem + name;
    if name.len() > 0 {
        let front = name.drop_last();
        assert(path.drop_last() =~= stem + front);
        assert(path.last() == name[name.len() - 1]);
        assert forall|i: int| 0 <= i < front.len() implies #[trigger] front[i] != '/' by {
            assert(front[i] == name[i]);
        }
        lemma_name_start(stem, front);
    } else if stem.len() > 0 {
        assert(path =~= stem);
        let front = stem.drop_last();
        assert(front + name =~= front);
        lemma_name_start(front, name);
    }
}

/// A node stands where its byte offsets say.
pub proof fn law_nodes_stand_at_their_offsets(n: JsonView, src: Seq<char>, a: nat, b: nat)
    requires
        n.get("start"@) == JsonView::Number(decimal(a)),
        n.get("end"@) == JsonView::Number(decimal(b)),
        a <= u32::MAX,
        b <= u32::MAX,
    ensures
        n.start_line(src) == line_at(src, a),
        n.end_line(src) == line_at(src, b),
        n.source_text(src) == text_of_span(src, a, b),
{
    law_decimal_is_read_back(a, u32::MAX as nat);
    law_decimal_is_read_back(b, u32::MAX as nat);
}

} // verus!
