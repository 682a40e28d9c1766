//! Per-file extraction: parses a source and keeps what the analysis needs.

use vstd::hash_set::StringHashSet;
use vstd::prelude::*;
use vstd::string::*;

use crate::json::{Json, JsonView};
use crate::model::{
    blank_module, map_view, opt_view, views, DeclView, FnDecl, ModuleInfo, ModuleView, Owner,
    SkipReason,
};
use crate::observe::NamesView;
use crate::path::{extension_is, has_extension};
use crate::prepass::{prepass, with_statements, Place, PlaceView, Pre, PreView};
use crate::resolve::{home_name, home_of};
use crate::scope::{empty_scope, scan_stmt, scan_view, scanned, ScanView, Scope};
use crate::source::Source;
use crate::syntax::{parse, parser_output, tree_in, Parsed};
use crate::usage::{StateView, UsageVisitor};
use crate::visit::visited;
use crate::workspace::SpecifierMap;

verus! {

// ---------------------------------------------------------------------------
// Declarations
// ---------------------------------------------------------------------------

/// Whether another declaration has the owner and the name of the one at `i`.
pub open spec fn has_twin(decls: Seq<DeclView>, i: int) -> bool {
    exists|j: int|
        0 <= j < decls.len() && j != i && (#[trigger] decls[j]).owner == decls[i].owner
            && decls[j].name == decls[i].name
}

/// Whether a declaration has several signatures or implementations.
pub open spec fn is_overloaded(s: PreView, i: int) -> bool {
    has_twin(s.info.decls, i) || (s.info.decls[i].owner is Free && s.bodyless.contains(
        s.info.decls[i].name,
    ))
}

/// Whether a declaration, or the class or object it belongs to, is exported.
pub open spec fn is_exported(s: PreView, d: DeclView) -> bool {
    d.exported || s.exported.contains(home_name(d)) || s.info.default_export == Some(home_name(d))
}

/// A declaration with what the whole module says about it.
pub open spec fn finished_decl(s: PreView, i: int) -> DeclView {
    let d = s.info.decls[i];
    DeclView {
        exported: is_exported(s, d),
        skip: if is_overloaded(s, i) {
            Some(SkipReason::Overload)
        } else {
            d.skip
        },
        eligible: d.eligible && !is_overloaded(s, i),
        ..d
    }
}

pub open spec fn finished_decls(s: PreView) -> Seq<DeclView> {
    Seq::new(s.info.decls.len(), |i: int| finished_decl(s, i))
}

// ---------------------------------------------------------------------------
// Modules
// ---------------------------------------------------------------------------

/// Statements that hold others.
pub open spec fn is_compound(n: JsonView) -> bool {
    n.is_kind("BlockStatement"@) || n.is_kind("IfStatement"@) || n.is_kind("ForStatement"@)
        || n.is_kind("ForInStatement"@) || n.is_kind("ForOfStatement"@) || n.is_kind(
        "WhileStatement"@,
    ) || n.is_kind("DoWhileStatement"@) || n.is_kind("SwitchStatement"@) || n.is_kind(
        "TryStatement"@,
    ) || n.is_kind("LabeledStatement"@)
}

/// What the blocks of a module declare: such names shadow those of the module
/// level everywhere.
pub open spec fn nested_names(items: Seq<JsonView>) -> ScanView
    decreases items.len(),
{
    if items.len() == 0 {
        ScanView { values: Map::empty(), types: Set::empty() }
    } else {
        let before = nested_names(items.drop_last());
        if is_compound(items.last()) {
            scanned(items.last(), 0, before)
        } else {
            before
        }
    }
}

/// What the module level of a tree declares.
pub open spec fn module_level(
    tree: JsonView,
    errors: nat,
    rel: Seq<char>,
    src: Seq<char>,
    place: PlaceView,
) -> PreView {
    with_statements(
        PreView {
            info: blank_module(place.path, rel, errors),
            scope: Map::empty(),
            exported: Set::empty(),
            bodyless: Set::empty(),
        },
        tree.get("body"@).items(),
        src,
        place,
    )
}

/// The names in scope at the start of a module.
pub open spec fn module_names(pre: PreView, tree: JsonView) -> NamesView {
    let nested = nested_names(tree.get("body"@).items());
    NamesView {
        scopes: seq![pre.scope.union_prefer_right(nested.values)],
        shadows: seq![nested.types],
    }
}

/// The facts about a module, from its tree.
pub open spec fn module_facts(
    tree: JsonView,
    errors: nat,
    rel: Seq<char>,
    src: Seq<char>,
    place: PlaceView,
) -> ModuleView {
    let pre = module_level(tree, errors, rel, src, place);
    let start = StateView { names: module_names(pre, tree), usages: Seq::empty() };
    ModuleView {
        decls: finished_decls(pre),
        usages: visited(tree, src, start).usages,
        ..pre.info
    }
}

fn twin_of(decls: &Vec<FnDecl>, i: usize) -> (r: bool)
    requires
        i < decls@.len(),
    ensures
        r == has_twin(views(decls@), i as int),
{
    let ghost all = views(decls@);
    let mut j: usize = 0;
    while j < decls.len()
        invariant
            all == views(decls@),
            i < decls@.len(),
            j <= decls@.len(),
            forall|k: int|
                0 <= k < j && k != i ==> !((#[trigger] all[k]).owner == all[i as int].owner
                    && all[k].name == all[i as int].name),
        decreases decls@.len() - j,
    {
        assert(all[j as int] == decls@[j as int]@);
        assert(all[i as int] == decls@[i as int]@);
        if j != i && decls[j].owner.same(&decls[i].owner) && decls[j].name == decls[i].name {
            assert(has_twin(all, i as int));
            return true;
        }
        j += 1;
    }
    false
}

/// Marks overloaded and exported declarations.
fn finish_decls(pre: Pre) -> (r: (ModuleInfo, Scope))
    ensures
        r.0@ == (ModuleView { decls: finished_decls(pre@), ..pre@.info }),
        map_view(r.1@) == pre@.scope,
{
    let ghost start = pre@;
    let mut info = pre.info;
    let total: usize = info.decls.len();
    // Overloads are found before anything is changed.
    let mut overloaded: Vec<bool> = Vec::new();
    let mut i: usize = 0;
    while i < total
        invariant
            i <= total,
            total == info.decls@.len(),
            start.info.decls == views(info.decls@),
            start.bodyless == pre.bodyless@,
            overloaded@.len() == i,
            forall|j: int| 0 <= j < i ==> #[trigger] overloaded@[j] == is_overloaded(start, j),
        decreases total - i,
    {
        let d = &info.decls[i];
        assert(start.info.decls[i as int] == d@);
        let lacking = match d.owner {
            Owner::Free => pre.bodyless.contains(d.name.as_str()),
            _ => false,
        };
        overloaded.push(twin_of(&info.decls, i) || lacking);
        i += 1;
    }
    let mut out: Vec<FnDecl> = Vec::new();
    let ghost all = info.decls@;
    let default_export = match &info.default_export {
        Some(n) => Some(n.clone()),
        None => None,
    };
    assert(opt_view(default_export) == start.info.default_export);
    let decls = info.decls;
    for d in it: decls
        invariant
            it.seq() == all,
            total == all.len(),
            start.info.decls == views(all),
            start.exported == pre.exported@,
            start.info.default_export == opt_view(default_export),
            overloaded@.len() == total,
            forall|j: int| 0 <= j < total ==> #[trigger] overloaded@[j] == is_overloaded(start, j),
            out@.len() == it.index(),
            forall|j: int|
                0 <= j < out@.len() ==> (#[trigger] out@[j])@ == finished_decl(start, j),
    {
        let k: usize = out.len();
        let ghost before = d@;
        assert(start.info.decls[k as int] == d@);
        let by_default = match &default_export {
            Some(n) => *n == *home_of(&d),
            None => false,
        };
        let exported = d.exported || pre.exported.contains(home_of(&d).as_str()) || by_default;
        let many = overloaded[k];
        out.push(
            FnDecl {
                name: d.name,
                owner: d.owner,
                params: d.params,
                line: d.line,
                end_line: d.end_line,
                exported,
                skip: if many {
                    Some(SkipReason::Overload)
                } else {
                    d.skip
                },
                eligible: d.eligible && !many,
            },
        );
        assert(out@[k as int]@ =~= finished_decl(start, k as int));
    }
    let r = ModuleInfo {
        path: info.path,
        rel: info.rel,
        decls: out,
        type_aliases: info.type_aliases,
        enums: info.enums,
        imports: info.imports,
        reexports_named: info.reexports_named,
        reexports_star: info.reexports_star,
        default_export: info.default_export,
        usages: info.usages,
        parse_errors: info.parse_errors,
    };
    assert(views(r.decls@) =~= finished_decls(start));
    assert(r@ =~= ModuleView { decls: finished_decls(start), ..start.info });
    (r, pre.scope)
}

fn compound(n: &Json) -> (r: bool)
    ensures
        r == is_compound(n@),
{
    n.is_kind("BlockStatement") || n.is_kind("IfStatement") || n.is_kind("ForStatement")
        || n.is_kind("ForInStatement") || n.is_kind("ForOfStatement") || n.is_kind(
        "WhileStatement",
    ) || n.is_kind("DoWhileStatement") || n.is_kind("SwitchStatement") || n.is_kind(
        "TryStatement",
    ) || n.is_kind("LabeledStatement")
}

fn scan_blocks(list: &Json) -> (r: (Scope, StringHashSet))
    ensures
        scan_view(r.0, r.1) == nested_names(list@.items()),
{
    let ghost all = list@.items();
    let mut values = empty_scope();
    let mut types: StringHashSet = StringHashSet::new();
    let total: usize = list.count();
    let mut i: usize = 0;
    while i < total
        invariant
            all == list@.items(),
            total == all.len(),
            i <= total,
            scan_view(values, types) == nested_names(all.take(i as int)),
        decreases total - i,
    {
        let n = list.at(i);
        proof {
            assert(all.take(i + 1).drop_last() =~= all.take(i as int));
            assert(all.take(i + 1).last() == n@);
        }
        if compound(n) {
            scan_stmt(n, &mut values, &mut types, 0);
        }
        i += 1;
    }
    assert(all.take(i as int) =~= all);
    (values, types)
}

/// Extracts a module from its tree.
pub fn extract_tree(parsed: &Parsed, rel: &str, source: &str, place: &Place) -> (r: ModuleInfo)
    ensures
        r@ == module_facts(
            parsed.program@,
            parsed.errors as nat,
            rel@,
            source@,
            place@,
        ),
{
    let tree = &parsed.program;
    let src = Source::new(source);
    let mut pre = Pre {
        info: ModuleInfo::blank(place.path, rel, parsed.errors),
        scope: empty_scope(),
        exported: StringHashSet::new(),
        bodyless: StringHashSet::new(),
    };
    prepass(&mut pre, tree.get("body"), &src, place);
    let ghost level = pre@;
    assert(level == module_level(tree@, parsed.errors as nat, rel@, source@, place@));
    let (mut info, mut scope) = finish_decls(pre);
    let (values, types) = scan_blocks(tree.get("body"));
    let ghost nested = scan_view(values, types);
    scope.union_prefer_right(values);
    assert(map_view(scope@) =~= level.scope.union_prefer_right(nested.values));
    let mut v = UsageVisitor::new(scope, types);
    let ghost start = StateView { names: module_names(level, tree@), usages: Seq::empty() };
    assert(v@ =~= start);
    v.visit(tree, &src);
    info.usages = v.into_usages();
    assert(info@ =~= module_facts(
        tree@,
        parsed.errors as nat,
        rel@,
        source@,
        place@,
    ));
    info
}

/// Parses the source of a module. Files named `.tsx` may hold elements.
pub fn parse_module(path: &str, source: &str) -> (r: Parsed)
    ensures
        (r.program@, r.errors as nat) == tree_in(
            parser_output(source@, has_extension(path@, ".tsx"@)),
        ),
{
    parse(source, extension_is(path, ".tsx"))
}

/// Parses and extracts a module. `existing` holds the files that exist among
/// those that its imports may mean.
pub fn extract_module(
    path: &str,
    rel: &str,
    source: &str,
    specs: &SpecifierMap,
    existing: &StringHashSet,
) -> (r: ModuleInfo)
    ensures
        ({
            let out = tree_in(parser_output(source@, has_extension(path@, ".tsx"@)));
            let place = PlaceView { path: path@, specs: specs@, existing: existing@ };
            r@ == module_facts(out.0, out.1, rel@, source@, place)
        }),
{
    let parsed = parse_module(path, source);
    let place = Place { path, specs, existing };
    extract_tree(&parsed, rel, source, &place)
}

} // verus!
