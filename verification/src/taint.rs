//! Which declarations a usage reaches: the one it is attributed to, or all
//! those that it could reach when it cannot be attributed.

use vstd::hash_set::StringHashSet;
use vstd::prelude::*;

use crate::model::{
    opt_view, views, DeclView, FnDecl, Owner, OwnerView, TargetView, UsageKindView, UsageTargetRef,
    UsageView,
};
use crate::resolve::{
    find_definition, find_local, home_name, home_of, import_module, imported_definition,
    lemma_definition_in_range, opt_key, Key, NameKind, ProjectView, Resolver,
};
use crate::text::same_text;

verus! {

// ---------------------------------------------------------------------------
// Attribution
// ---------------------------------------------------------------------------

/// A declaration: its module and its position there.
pub type DeclId = (int, int);

/// The position of the last declaration of the given owner and name.
pub open spec fn last_decl(decls: Seq<DeclView>, owner: OwnerView, name: Seq<char>) -> Option<int>
    decreases decls.len(),
{
    if decls.len() == 0 {
        None
    } else if decls.last().owner == owner && decls.last().name == name {
        Some(decls.len() - 1)
    } else {
        last_decl(decls.drop_last(), owner, name)
    }
}

pub open spec fn decl_in(p: ProjectView, m: usize, owner: OwnerView, name: Seq<char>) -> Option<
    DeclId,
> {
    if m >= p.modules.len() {
        None
    } else {
        match last_decl(p.modules[m as int].decls, owner, name) {
            Some(d) => Some((m as int, d)),
            None => None,
        }
    }
}

/// What `ns.name` means in module `mid`, where `ns` is a namespace import.
pub open spec fn namespace_member(
    p: ProjectView,
    mid: usize,
    ns: Seq<char>,
    name: Seq<char>,
) -> Option<Key> {
    match import_module(p, mid, ns) {
        Some(m2) => find_definition(p, m2, name, NameKind::Value, Seq::empty()),
        None => None,
    }
}

/// The one declaration that a target of module `mid` names, if there is one.
pub open spec fn attributed(p: ProjectView, mid: usize, t: TargetView) -> Option<DeclId> {
    match t {
        TargetView::Local { owner, name } => match decl_in(p, mid, owner, name) {
            Some(d) => Some(d),
            None => match owner {
                OwnerView::Class(c) => match imported_definition(p, mid, c, NameKind::Value) {
                    Some((m2, n2)) => decl_in(p, m2, OwnerView::Class(n2), name),
                    None => None,
                },
                _ => None,
            },
        },
        TargetView::Imported { local } => match imported_definition(
            p,
            mid,
            local,
            NameKind::Value,
        ) {
            Some((m2, n2)) => decl_in(p, m2, OwnerView::Free, n2),
            None => None,
        },
        TargetView::NamespaceMember { ns_local, name } => match namespace_member(
            p,
            mid,
            ns_local,
            name,
        ) {
            Some((m2, n2)) => decl_in(p, m2, OwnerView::Free, n2),
            None => None,
        },
        _ => None,
    }
}

// ---------------------------------------------------------------------------
// Star re-exports
// ---------------------------------------------------------------------------

/// Whether module `a` re-exports all of module `b`.
pub open spec fn star_edge(p: ProjectView, a: int, b: int) -> bool {
    &&& 0 <= a < p.modules.len()
    &&& 0 <= b < p.modules.len()
    &&& exists|s: int| #[trigger] star_leads(p, a, s, b)
}

/// Whether the star re-export at position `s` of module `a` leads to module `b`.
pub open spec fn star_leads(p: ProjectView, a: int, s: int, b: int) -> bool {
    let stars = p.modules[a].reexports_star;
    0 <= s < stars.len() && stars[s] is Some && p.by_path.contains_key(stars[s]->0)
        && p.by_path[stars[s]->0] == b
}

pub open spec fn is_star_path(p: ProjectView, path: Seq<int>) -> bool {
    path.len() > 0 && forall|i: int|
        0 <= i < path.len() - 1 ==> star_edge(p, #[trigger] path[i], path[i + 1])
}

/// Whether a chain of star re-exports, possibly empty, leads from `a` to `b`.
pub open spec fn star_reaches(p: ProjectView, a: int, b: int) -> bool {
    exists|path: Seq<int>| #[trigger]
        is_star_path(p, path) && path[0] == a && path.last() == b
}

/// The declaration behind the named re-export at position `r` of module `m`.
pub open spec fn reexport_target(p: ProjectView, m: int, r: int) -> Option<Key> {
    let source = p.modules[m].reexports_named[r].source;
    if source.path is Some && p.by_path.contains_key(source.path->0) {
        find_definition(
            p,
            p.by_path[source.path->0],
            source.name,
            NameKind::Value,
            Seq::empty(),
        )
    } else {
        None
    }
}

/// Whether module `m` holds a named re-export of the given key.
pub open spec fn reexports(p: ProjectView, m: int, key: Key) -> bool {
    exists|r: int|
        0 <= r < p.modules[m].reexports_named.len() && #[trigger] reexport_target(p, m, r) == Some(
            key,
        )
}

/// Whether module `from` offers to its importers something named `home` of module `m`.
pub open spec fn offers(p: ProjectView, from: int, m: int, home: Seq<char>) -> bool {
    ||| star_reaches(p, from, m)
    ||| exists|k: int|
        0 <= k < p.modules.len() && #[trigger] star_reaches(p, from, k) && reexports(
            p,
            k,
            (m as usize, home),
        )
}

// ---------------------------------------------------------------------------
// Taints
// ---------------------------------------------------------------------------

/// A set of declarations that a usage lets escape.
#[verifier::ext_equal]
pub enum TaintView {
    Decl(DeclId),
    /// Free functions of a name.
    FreeNamed(Seq<char>),
    /// Class and object members of a name.
    MethodsNamed(Seq<char>),
    /// Everything that belongs to a module-level name, in any module.
    Named(Seq<char>),
    /// Everything that belongs to a name of one module.
    NameIn(int, Seq<char>),
    /// Everything that a module offers to its importers.
    Exports(int),
}

/// Whether a taint covers the declaration at position `d` of module `m`.
pub open spec fn covers_decl(p: ProjectView, t: TaintView, m: int, d: int) -> bool {
    let decl = p.modules[m].decls[d];
    match t {
        TaintView::Decl(id) => id == (m, d),
        TaintView::FreeNamed(n) => decl.owner is Free && decl.name == n,
        TaintView::MethodsNamed(n) => decl.owner !is Free && decl.name == n,
        TaintView::Named(n) => home_name(decl) == n,
        TaintView::NameIn(m2, n) => m == m2 && home_name(decl) == n,
        TaintView::Exports(m2) => offers(p, m2, m, home_name(decl)),
    }
}

/// Everything that a name bound by an unresolvable import may stand for.
pub open spec fn unresolved_taints(p: ProjectView, mid: usize, local: Seq<char>) -> Seq<TaintView> {
    let imports = p.modules[mid as int].imports;
    if mid < p.modules.len() && imports.contains_key(local) && imports[local].name != "default"@
        && imports[local].name != "*"@ {
        seq![TaintView::Named(local), TaintView::Named(imports[local].name)]
    } else {
        seq![TaintView::Named(local)]
    }
}

/// What escapes through a target that names no single declaration.
pub open spec fn target_taints(p: ProjectView, mid: usize, t: TargetView) -> Seq<TaintView> {
    match t {
        TargetView::Local { owner, name } => match owner {
            OwnerView::Free => seq![TaintView::FreeNamed(name)],
            _ => seq![TaintView::MethodsNamed(name)],
        },
        TargetView::Imported { local } => match imported_definition(
            p,
            mid,
            local,
            NameKind::Value,
        ) {
            Some((m2, n2)) => seq![TaintView::NameIn(m2 as int, n2)],
            None => unresolved_taints(p, mid, local),
        },
        TargetView::NamespaceMember { ns_local, name } => match namespace_member(
            p,
            mid,
            ns_local,
            name,
        ) {
            Some((m2, n2)) => seq![TaintView::NameIn(m2 as int, n2)],
            None => seq![TaintView::FreeNamed(name), TaintView::MethodsNamed(name)],
        },
        TargetView::AnyMethodNamed(name) => seq![TaintView::MethodsNamed(name)],
        TargetView::AnyFreeNamed(name) => seq![TaintView::FreeNamed(name)],
        TargetView::AllMembersOf(owner) => match owner {
            OwnerView::Free => Seq::empty(),
            OwnerView::Class(c) => members_taints(p, mid, c),
            OwnerView::ObjectConst(c) => members_taints(p, mid, c),
        },
        TargetView::AllExportsOfModule { ns_local } => match import_module(p, mid, ns_local) {
            Some(m2) => seq![TaintView::Exports(m2 as int)],
            None => Seq::empty(),
        },
    }
}

/// What escapes with the class or object of the given name.
pub open spec fn members_taints(p: ProjectView, mid: usize, c: Seq<char>) -> Seq<TaintView> {
    match find_local(p, mid, c, NameKind::Value) {
        Some((m2, n2)) => seq![TaintView::NameIn(m2 as int, n2)],
        None => if mid < p.modules.len() && p.modules[mid as int].imports.contains_key(c) {
            unresolved_taints(p, mid, c)
        } else {
            Seq::empty()
        },
    }
}

/// What escapes through a usage of module `mid`: the declaration it names, if
/// it is no call; everything it might reach, if it names no single one.
pub open spec fn usage_taints(p: ProjectView, mid: usize, u: UsageView) -> Seq<TaintView> {
    match attributed(p, mid, u.target) {
        Some(id) => match u.kind {
            UsageKindView::Escape => seq![TaintView::Decl(id)],
            UsageKindView::Call(_) => Seq::empty(),
        },
        None => target_taints(p, mid, u.target),
    }
}

/// Whether one of the taints covers the declaration.
pub open spec fn covered(p: ProjectView, taints: Seq<TaintView>, m: int, d: int) -> bool {
    exists|k: int| 0 <= k < taints.len() && covers_decl(p, #[trigger] taints[k], m, d)
}

/// Whether a usage lets the declaration escape.
pub open spec fn lets_escape(p: ProjectView, mid: int, k: int, m: int, d: int) -> bool {
    covered(p, usage_taints(p, mid as usize, p.modules[mid].usages[k]), m, d)
}

/// Whether some usage of the project lets the declaration escape.
pub open spec fn escaped(p: ProjectView, m: int, d: int) -> bool {
    exists|mid: int, k: int|
        0 <= mid < p.modules.len() && 0 <= k < p.modules[mid].usages.len()
            && #[trigger] lets_escape(p, mid, k, m, d)
}

// ---------------------------------------------------------------------------
// Calls
// ---------------------------------------------------------------------------

pub open spec fn calls_decl(p: ProjectView, mid: int, k: int, m: int, d: int) -> bool {
    let u = p.modules[mid].usages[k];
    u.kind is Call && attributed(p, mid as usize, u.target) == Some((m, d))
}

/// The calls of a declaration among the first `k` usages of module `mid`.
pub open spec fn calls_within(p: ProjectView, mid: int, k: int, m: int, d: int) -> Seq<(int, int)>
    decreases k,
{
    if k <= 0 {
        Seq::empty()
    } else {
        let before = calls_within(p, mid, k - 1, m, d);
        if calls_decl(p, mid, k - 1, m, d) {
            before.push((mid, k - 1))
        } else {
            before
        }
    }
}

/// The calls of a declaration in the first `n` modules.
pub open spec fn calls_before(p: ProjectView, n: int, m: int, d: int) -> Seq<(int, int)>
    decreases n,
{
    if n <= 0 {
        Seq::empty()
    } else {
        calls_before(p, n - 1, m, d) + calls_within(
            p,
            n - 1,
            p.modules[n - 1].usages.len() as int,
            m,
            d,
        )
    }
}

/// The calls of a declaration, in order, each as its module and its position there.
pub open spec fn calls_to(p: ProjectView, m: int, d: int) -> Seq<(int, int)> {
    calls_before(p, p.modules.len() as int, m, d)
}

// ---------------------------------------------------------------------------
// Attribution, executed
// ---------------------------------------------------------------------------

fn find_decl(decls: &Vec<FnDecl>, owner: &Owner, name: &String) -> (r: Option<usize>)
    ensures
        (match r {
            Some(d) => d < decls@.len() && last_decl(views(decls@), owner@, name@) == Some(
                d as int,
            ),
            None => last_decl(views(decls@), owner@, name@) is None,
        }),
{
    let ghost all = views(decls@);
    let mut i: usize = decls.len();
    proof {
        assert(all.take(all.len() as int) =~= all);
    }
    while i > 0
        invariant
            i <= decls@.len(),
            all == views(decls@),
            last_decl(all, owner@, name@) == last_decl(all.take(i as int), owner@, name@),
        decreases i,
    {
        proof {
            assert(all.take(i as int).drop_last() =~= all.take(i - 1));
            assert(all.take(i as int).last() == decls@[i - 1]@);
        }
        if decls[i - 1].owner.same(owner) && decls[i - 1].name == *name {
            return Some(i - 1);
        }
        i -= 1;
    }
    None
}

pub open spec fn opt_id(id: Option<(usize, usize)>) -> Option<DeclId> {
    match id {
        Some((m, d)) => Some((m as int, d as int)),
        None => None,
    }
}

/// Whether an identifier found names a declaration of the project.
pub open spec fn in_project(p: ProjectView, id: Option<(usize, usize)>) -> bool {
    match id {
        Some((m, d)) => m < p.modules.len() && d < p.modules[m as int].decls.len(),
        None => true,
    }
}

impl<'m> Resolver<'m> {
    fn decl_at(&self, m: usize, owner: &Owner, name: &String) -> (r: Option<(usize, usize)>)
        ensures
            opt_id(r) == decl_in(self@, m, owner@, name@),
            in_project(self@, r),
    {
        if m >= self.modules.len() {
            return None;
        }
        assert(self@.modules[m as int] == self.modules@[m as int]@);
        match find_decl(&self.modules[m].decls, owner, name) {
            Some(d) => Some((m, d)),
            None => None,
        }
    }

    fn member_of_namespace(&self, mid: usize, ns: &String, name: &String) -> (r: Option<
        (usize, String),
    >)
        ensures
            opt_key(r) == namespace_member(self@, mid, ns@, name@),
    {
        match self.imported_module(mid, ns) {
            Some(m2) => self.offered(m2, name, NameKind::Value),
            None => None,
        }
    }

    /// The one declaration that a target of module `mid` names, if there is one.
    pub fn attribute(&self, mid: usize, t: &UsageTargetRef) -> (r: Option<(usize, usize)>)
        ensures
            opt_id(r) == attributed(self@, mid, t@),
            in_project(self@, r),
    {
        match t {
            UsageTargetRef::Local { owner, name } => {
                let here = self.decl_at(mid, owner, name);
                if here.is_some() {
                    return here;
                }
                match owner {
                    Owner::Class(c) => match self.imported(mid, c, NameKind::Value) {
                        Some((m2, n2)) => self.decl_at(m2, &Owner::Class(n2), name),
                        None => None,
                    },
                    _ => None,
                }
            },
            UsageTargetRef::Imported { local } => match self.imported(
                mid,
                local,
                NameKind::Value,
            ) {
                Some((m2, n2)) => self.decl_at(m2, &Owner::Free, &n2),
                None => None,
            },
            UsageTargetRef::NamespaceMember { ns_local, name } => match self.member_of_namespace(
                mid,
                ns_local,
                name,
            ) {
                Some((m2, n2)) => self.decl_at(m2, &Owner::Free, &n2),
                None => None,
            },
            _ => None,
        }
    }
}

// ---------------------------------------------------------------------------
// Taints, executed
// ---------------------------------------------------------------------------

/// A set of declarations that a usage lets escape.
#[derive(Debug)]
pub enum Taint {
    Decl(usize, usize),
    FreeNamed(String),
    MethodsNamed(String),
    Named(String),
    NameIn(usize, String),
    Exports(usize),
}

impl View for Taint {
    type V = TaintView;

    open spec fn view(&self) -> TaintView {
        match self {
            Taint::Decl(m, d) => TaintView::Decl((*m as int, *d as int)),
            Taint::FreeNamed(n) => TaintView::FreeNamed(n@),
            Taint::MethodsNamed(n) => TaintView::MethodsNamed(n@),
            Taint::Named(n) => TaintView::Named(n@),
            Taint::NameIn(m, n) => TaintView::NameIn(*m as int, n@),
            Taint::Exports(m) => TaintView::Exports(*m as int),
        }
    }
}

fn one(t: Taint) -> (r: Vec<Taint>)
    ensures
        views(r@) == seq![t@],
{
    let mut out: Vec<Taint> = Vec::new();
    out.push(t);
    assert(views(out@) =~= seq![t@]);
    out
}

fn two(a: Taint, b: Taint) -> (r: Vec<Taint>)
    ensures
        views(r@) == seq![a@, b@],
{
    let mut out: Vec<Taint> = Vec::new();
    out.push(a);
    out.push(b);
    assert(views(out@) =~= seq![a@, b@]);
    out
}

fn nothing() -> (r: Vec<Taint>)
    ensures
        views(r@) == Seq::<TaintView>::empty(),
{
    let out: Vec<Taint> = Vec::new();
    assert(views(out@) =~= Seq::empty());
    out
}

impl<'m> Resolver<'m> {
    fn unresolved(&self, mid: usize, local: &String) -> (r: Vec<Taint>)
        ensures
            views(r@) == unresolved_taints(self@, mid, local@),
    {
        if mid >= self.modules.len() {
            return one(Taint::Named(local.clone()));
        }
        let m = &self.modules[mid];
        assert(self@.modules[mid as int] == m@);
        match m.imports.get(local.as_str()) {
            Some(source) => {
                assert(m@.imports[local@] == source@);
                if same_text(source.name.as_str(), "default") || same_text(
                    source.name.as_str(),
                    "*",
                ) {
                    one(Taint::Named(local.clone()))
                } else {
                    two(Taint::Named(local.clone()), Taint::Named(source.name.clone()))
                }
            },
            None => one(Taint::Named(local.clone())),
        }
    }

    fn members(&self, mid: usize, c: &String) -> (r: Vec<Taint>)
        ensures
            views(r@) == members_taints(self@, mid, c@),
    {
        match self.local(mid, c, NameKind::Value) {
            Some((m2, n2)) => one(Taint::NameIn(m2, n2)),
            None => {
                if mid < self.modules.len() {
                    assert(self@.modules[mid as int] == self.modules@[mid as int]@);
                    if self.modules[mid].imports.contains_key(c.as_str()) {
                        return self.unresolved(mid, c);
                    }
                }
                nothing()
            },
        }
    }

    /// What escapes through a target that names no single declaration.
    pub fn unattributed(&self, mid: usize, t: &UsageTargetRef) -> (r: Vec<Taint>)
        ensures
            views(r@) == target_taints(self@, mid, t@),
    {
        match t {
            UsageTargetRef::Local { owner, name } => match owner {
                Owner::Free => one(Taint::FreeNamed(name.clone())),
                _ => one(Taint::MethodsNamed(name.clone())),
            },
            UsageTargetRef::Imported { local } => match self.imported(
                mid,
                local,
                NameKind::Value,
            ) {
                Some((m2, n2)) => one(Taint::NameIn(m2, n2)),
                None => self.unresolved(mid, local),
            },
            UsageTargetRef::NamespaceMember { ns_local, name } => match self.member_of_namespace(
                mid,
                ns_local,
                name,
            ) {
                Some((m2, n2)) => one(Taint::NameIn(m2, n2)),
                None => two(Taint::FreeNamed(name.clone()), Taint::MethodsNamed(name.clone())),
            },
            UsageTargetRef::AnyMethodNamed(name) => one(Taint::MethodsNamed(name.clone())),
            UsageTargetRef::AnyFreeNamed(name) => one(Taint::FreeNamed(name.clone())),
            UsageTargetRef::AllMembersOf(owner) => match owner {
                Owner::Free => nothing(),
                Owner::Class(c) => self.members(mid, c),
                Owner::ObjectConst(c) => self.members(mid, c),
            },
            UsageTargetRef::AllExportsOfModule { ns_local } => match self.imported_module(
                mid,
                ns_local,
            ) {
                Some(m2) => one(Taint::Exports(m2)),
                None => nothing(),
            },
        }
    }
}

// ---------------------------------------------------------------------------
// The modules that star re-exports lead to
// ---------------------------------------------------------------------------

/// The number of entries that are still false.
spec fn count_false(s: Seq<bool>) -> nat
    decreases s.len(),
{
    if s.len() == 0 {
        0
    } else {
        count_false(s.drop_last()) + (if s.last() {
            0nat
        } else {
            1
        })
    }
}

proof fn lemma_count_false(s: Seq<bool>, i: int)
    requires
        0 <= i < s.len(),
        !s[i],
    ensures
        count_false(s.update(i, true)) + 1 == count_false(s),
    decreases s.len(),
{
    let u = s.update(i, true);
    if i == s.len() - 1 {
        assert(u.drop_last() =~= s.drop_last());
    } else {
        lemma_count_false(s.drop_last(), i);
        assert(u.drop_last() =~= s.drop_last().update(i, true));
    }
}

proof fn lemma_reaches_self(p: ProjectView, a: int)
    ensures
        star_reaches(p, a, a),
{
    let path = seq![a];
    assert(is_star_path(p, path) && path[0] == a && path.last() == a);
}

proof fn lemma_reaches_further(p: ProjectView, a: int, b: int, c: int)
    requires
        star_reaches(p, a, b),
        star_edge(p, b, c),
    ensures
        star_reaches(p, a, c),
{
    let path = choose|path: Seq<int>| #[trigger]
        is_star_path(p, path) && path[0] == a && path.last() == b;
    let longer = path.push(c);
    assert forall|i: int| 0 <= i < longer.len() - 1 implies star_edge(
        p,
        #[trigger] longer[i],
        longer[i + 1],
    ) by {
        if i < path.len() - 1 {
            assert(star_edge(p, path[i], path[i + 1]));
        }
    }
    assert(is_star_path(p, longer) && longer[0] == a && longer.last() == c);
}

/// A set that holds the start and is closed under star re-exports holds
/// everything that they lead to.
proof fn lemma_closed_holds_all(p: ProjectView, held: Seq<bool>, path: Seq<int>)
    requires
        held.len() == p.modules.len(),
        is_star_path(p, path),
        0 <= path[0] < held.len(),
        held[path[0]],
        forall|a: int, b: int|
            0 <= a < held.len() && 0 <= b < held.len() && held[a] && #[trigger] star_edge(p, a, b)
                ==> held[b],
    ensures
        0 <= path.last() < held.len(),
        held[path.last()],
    decreases path.len(),
{
    if path.len() > 1 {
        let shorter = path.drop_last();
        assert forall|i: int| 0 <= i < shorter.len() - 1 implies star_edge(
            p,
            #[trigger] shorter[i],
            shorter[i + 1],
        ) by {
            assert(star_edge(p, path[i], path[i + 1]));
        }
        lemma_closed_holds_all(p, held, shorter);
        assert(path[path.len() - 2] == shorter.last());
        assert(star_edge(p, path[path.len() - 2], path[path.len() - 2 + 1]));
    }
}

impl<'m> Resolver<'m> {
    /// Marks the modules that chains of star re-exports lead to.
    fn star_closure(&self, from: usize) -> (r: Vec<bool>)
        ensures
            r@.len() == self@.modules.len(),
            forall|b: int|
                0 <= b < r@.len() ==> #[trigger] r@[b] == (from < self@.modules.len()
                    && star_reaches(self@, from as int, b)),
    {
        let ghost p = self@;
        let n: usize = self.modules.len();
        let mut held: Vec<bool> = Vec::new();
        let mut i: usize = 0;
        while i < n
            invariant
                i <= n,
                held@.len() == i,
                forall|b: int| 0 <= b < i ==> !held@[b],
            decreases n - i,
        {
            held.push(false);
            i += 1;
        }
        if from >= n {
            return held;
        }
        held.set(from, true);
        let mut work: Vec<usize> = Vec::new();
        work.push(from);
        proof {
            lemma_reaches_self(p, from as int);
            assert(work@[0] == from);
        }
        i = 0;
        while i < work.len()
            invariant
                p == self@,
                n == self.modules@.len(),
                n == p.modules.len(),
                held@.len() == n,
                i <= work@.len(),
                from < n,
                held@[from as int],
                forall|b: int|
                    0 <= b < n && #[trigger] held@[b] ==> star_reaches(p, from as int, b),
                forall|j: int| 0 <= j < work@.len() ==> #[trigger] work@[j] < n,
                forall|b: int|
                    0 <= b < n && #[trigger] held@[b] ==> exists|j: int|
                        0 <= j < work@.len() && work@[j] == b,
                forall|j: int| 0 <= j < work@.len() ==> held@[#[trigger] work@[j] as int],
                forall|j: int, b: int|
                    0 <= j < i && 0 <= b < n && #[trigger] star_edge(p, work@[j] as int, b)
                        ==> held@[b],
            decreases count_false(held@), work@.len() - i,
        {
            let a: usize = work[i];
            let m = &self.modules[a];
            assert(p.modules[a as int] == m@);
            let ghost work0 = work@;
            let ghost held0 = held@;
            let mut s: usize = 0;
            while s < m.reexports_star.len()
                invariant
                    p == self@,
                    n == self.modules@.len(),
                    n == p.modules.len(),
                    held@.len() == n,
                    from < n,
                    held@[from as int],
                    a < n,
                    i < work0.len() <= work@.len(),
                    p.modules[a as int] == m@,
                    work0[i as int] == a,
                    s <= m.reexports_star@.len(),
                    star_reaches(p, from as int, a as int),
                    forall|j: int| 0 <= j < work0.len() ==> work@[j] == work0[j],
                    forall|b: int| 0 <= b < n && held0[b] ==> held@[b],
                    held0.len() == n,
                    count_false(held@) <= count_false(held0),
                    count_false(held@) == count_false(held0) ==> work@.len() == work0.len(),
                    forall|b: int|
                        0 <= b < n && #[trigger] held@[b] ==> star_reaches(p, from as int, b),
                    forall|j: int| 0 <= j < work@.len() ==> #[trigger] work@[j] < n,
                    forall|b: int|
                        0 <= b < n && #[trigger] held@[b] ==> exists|j: int|
                            0 <= j < work@.len() && work@[j] == b,
                    forall|j: int| 0 <= j < work@.len() ==> held@[#[trigger] work@[j] as int],
                    forall|t: int, b: int|
                        0 <= t < s && 0 <= b < n && #[trigger] star_leads(p, a as int, t, b)
                            ==> held@[b],
                decreases m.reexports_star@.len() - s,
            {
                proof {
                    assert(m@.reexports_star[s as int] == opt_view(m.reexports_star@[s as int]));
                }
                if let Some(path) = &m.reexports_star[s] {
                    if let Some(to) = self.by_path.get(path.as_str()) {
                        let b: usize = *to;
                        if b < n && !held[b] {
                            proof {
                                assert(star_leads(p, a as int, s as int, b as int));
                                assert(star_edge(p, a as int, b as int));
                                lemma_reaches_further(p, from as int, a as int, b as int);
                                lemma_count_false(held@, b as int);
                            }
                            let ghost held1 = held@;
                            let ghost work1 = work@;
                            held.set(b, true);
                            work.push(b);
                            proof {
                                assert(work@[work1.len() as int] == b);
                                assert forall|c: int| 0 <= c < n && #[trigger] held@[c] implies exists|
                                    j: int,
                                |
                                    0 <= j < work@.len() && work@[j] == c by {
                                    if c == b {
                                        assert(work@[work1.len() as int] == c);
                                    } else {
                                        assert(held1[c]);
                                        let j = choose|j: int|
                                            0 <= j < work1.len() && work1[j] == c;
                                        assert(work@[j] == c);
                                    }
                                }
                            }
                        }
                    }
                }
                s += 1;
            }
            proof {
                assert forall|j: int, b: int|
                    0 <= j < i + 1 && 0 <= b < n && #[trigger] star_edge(
                        p,
                        work@[j] as int,
                        b,
                    ) implies held@[b] by {
                    if j < i {
                        assert(work@[j] == work0[j]);
                        assert(held0[b]);
                    } else {
                        let t = choose|t: int| #[trigger] star_leads(p, a as int, t, b);
                        assert(star_leads(p, a as int, t, b));
                    }
                }
            }
            i += 1;
        }
        proof {
            assert forall|a: int, b: int|
                0 <= a < held@.len() && 0 <= b < held@.len() && held@[a] && #[trigger] star_edge(
                    p,
                    a,
                    b,
                ) implies held@[b] by {
                let j = choose|j: int| 0 <= j < work@.len() && work@[j] == a;
                assert(star_edge(p, work@[j] as int, b));
            }
            assert forall|b: int| 0 <= b < held@.len() implies #[trigger] held@[b] == (from
                < p.modules.len() && star_reaches(p, from as int, b)) by {
                if star_reaches(p, from as int, b) {
                    let path = choose|path: Seq<int>| #[trigger]
                        is_star_path(p, path) && path[0] == from && path.last() == b;
                    lemma_closed_holds_all(p, held@, path);
                }
            }
        }
        held
    }
}

proof fn lemma_reaches_nothing(p: ProjectView, a: int, b: int)
    requires
        a >= p.modules.len(),
        star_reaches(p, a, b),
    ensures
        b == a,
{
    let path = choose|path: Seq<int>| #[trigger]
        is_star_path(p, path) && path[0] == a && path.last() == b;
    if path.len() > 1 {
        let first: int = 0;
        assert(star_edge(p, path[first], path[first + 1]));
    }
}

/// Whether one of the first `i` named re-exports of module `m` leads to the key.
spec fn reexports_upto(p: ProjectView, m: int, i: int, key: Key) -> bool {
    exists|r: int| 0 <= r < i && #[trigger] reexport_target(p, m, r) == Some(key)
}

/// Whether one of the first `k` modules, among those that are held, offers the name.
spec fn offers_upto(p: ProjectView, held: Seq<bool>, k: int, m: int, home: Seq<char>) -> bool {
    ||| 0 <= m < k && held[m]
    ||| exists|j: int| 0 <= j < k && #[trigger] held[j] && reexports(p, j, (m as usize, home))
}

// ---------------------------------------------------------------------------
// Marks
// ---------------------------------------------------------------------------

/// The declarations that escape, indexed for constant-time tests.
pub struct Marks {
    free: StringHashSet,
    methods: StringHashSet,
    named: StringHashSet,
    /// Per module: whether all of it escapes.
    whole: Vec<bool>,
    /// Per module: the names of which everything escapes.
    names: Vec<StringHashSet>,
    /// Per module and declaration.
    decls: Vec<Vec<bool>>,
}

impl Marks {
    pub closed spec fn well_formed(&self, p: ProjectView) -> bool {
        &&& self.whole@.len() == p.modules.len()
        &&& self.names@.len() == p.modules.len()
        &&& self.decls@.len() == p.modules.len()
        &&& forall|m: int|
            0 <= m < p.modules.len() ==> (#[trigger] self.decls@[m])@.len()
                == p.modules[m].decls.len()
    }

    /// Whether the declaration at position `d` of module `m` is marked.
    pub closed spec fn marked(&self, p: ProjectView, m: int, d: int) -> bool {
        let decl = p.modules[m].decls[d];
        ||| self.decls@[m]@[d]
        ||| decl.owner is Free && self.free@.contains(decl.name)
        ||| decl.owner !is Free && self.methods@.contains(decl.name)
        ||| self.named@.contains(home_name(decl))
        ||| self.names@[m]@.contains(home_name(decl))
        ||| self.whole@[m]
    }

    /// No marks.
    pub fn new(r: &Resolver) -> (marks: Self)
        ensures
            marks.well_formed(r@),
            forall|m: int, d: int|
                0 <= m < r@.modules.len() && 0 <= d < r@.modules[m].decls.len() ==> !(
                #[trigger] marks.marked(r@, m, d)),
    {
        let ghost p = r@;
        let mut whole: Vec<bool> = Vec::new();
        let mut names: Vec<StringHashSet> = Vec::new();
        let mut decls: Vec<Vec<bool>> = Vec::new();
        let mut i: usize = 0;
        while i < r.modules.len()
            invariant
                p == r@,
                i <= r.modules@.len(),
                whole@.len() == i,
                names@.len() == i,
                decls@.len() == i,
                forall|m: int| 0 <= m < i ==> !#[trigger] whole@[m],
                forall|m: int| 0 <= m < i ==> (#[trigger] names@[m])@ == Set::<Seq<char>>::empty(),
                forall|m: int|
                    0 <= m < i ==> (#[trigger] decls@[m])@.len() == p.modules[m].decls.len(),
                forall|m: int, d: int|
                    0 <= m < i && 0 <= d < p.modules[m].decls.len() ==> !#[trigger] decls@[m]@[d],
            decreases r.modules@.len() - i,
        {
            let mut row: Vec<bool> = Vec::new();
            let mut j: usize = 0;
            while j < r.modules[i].decls.len()
                invariant
                    i < r.modules@.len(),
                    j <= r.modules@[i as int].decls@.len(),
                    row@.len() == j,
                    forall|d: int| 0 <= d < j ==> !row@[d],
                decreases r.modules@[i as int].decls@.len() - j,
            {
                row.push(false);
                j += 1;
            }
            assert(p.modules[i as int] == r.modules@[i as int]@);
            whole.push(false);
            names.push(StringHashSet::new());
            decls.push(row);
            i += 1;
        }
        Marks {
            free: StringHashSet::new(),
            methods: StringHashSet::new(),
            named: StringHashSet::new(),
            whole,
            names,
            decls,
        }
    }

    /// Whether the declaration at position `d` of module `m` is marked.
    pub fn is_marked(&self, r: &Resolver, m: usize, d: usize) -> (res: bool)
        requires
            self.well_formed(r@),
            m < r@.modules.len(),
            d < r@.modules[m as int].decls.len(),
        ensures
            res == self.marked(r@, m as int, d as int),
    {
        let decl = &r.modules[m].decls[d];
        assert(r@.modules[m as int].decls[d as int] == decl@);
        let home = home_of(decl);
        let by_name = match &decl.owner {
            Owner::Free => self.free.contains(decl.name.as_str()),
            _ => self.methods.contains(decl.name.as_str()),
        };
        self.decls[m][d] || by_name || self.named.contains(home.as_str())
            || self.names[m].contains(home.as_str()) || self.whole[m]
    }

    fn mark_name(&mut self, r: &Resolver, m: usize, name: String)
        requires
            old(self).well_formed(r@),
            m < r@.modules.len(),
        ensures
            final(self).well_formed(r@),
            forall|k: int, d: int|
                0 <= k < r@.modules.len() && 0 <= d < r@.modules[k].decls.len() ==> (
                #[trigger] final(self).marked(r@, k, d) == (old(self).marked(r@, k, d) || (k == m
                    && home_name(r@.modules[k].decls[d]) == name@))),
    {
        let _ = self.names[m].insert(name);
    }

    /// Marks the targets of the named re-exports of module `k`.
    fn mark_reexports(&mut self, r: &Resolver, k: usize)
        requires
            old(self).well_formed(r@),
            k < r@.modules.len(),
        ensures
            final(self).well_formed(r@),
            forall|m: int, d: int|
                0 <= m < r@.modules.len() && 0 <= d < r@.modules[m].decls.len() ==> (
                #[trigger] final(self).marked(r@, m, d) == (old(self).marked(r@, m, d)
                    || reexports(r@, k as int, (m as usize, home_name(r@.modules[m].decls[d]))))),
    {
        let ghost p = r@;
        let module = &r.modules[k];
        let total: usize = r.modules.len();
        assert(p.modules[k as int] == module@);
        let mut i: usize = 0;
        while i < module.reexports_named.len()
            invariant
                p == r@,
                total == p.modules.len(),
                k < p.modules.len(),
                p.modules[k as int] == module@,
                i <= module.reexports_named@.len(),
                self.well_formed(p),
                forall|m: int, d: int|
                    0 <= m < p.modules.len() && 0 <= d < p.modules[m].decls.len() ==> (
                    #[trigger] self.marked(p, m, d) == (old(self).marked(p, m, d)
                        || reexports_upto(
                        p,
                        k as int,
                        i as int,
                        (m as usize, home_name(p.modules[m].decls[d])),
                    ))),
            decreases module.reexports_named@.len() - i,
        {
            let source = &module.reexports_named[i].source;
            proof {
                assert(p.modules[k as int].reexports_named[i as int].source == source@);
                assert forall|key: Key| #[trigger]
                    reexports_upto(p, k as int, i + 1, key) == (reexports_upto(
                        p,
                        k as int,
                        i as int,
                        key,
                    ) || reexport_target(p, k as int, i as int) == Some(key)) by {
                    if reexport_target(p, k as int, i as int) == Some(key) {
                        assert(reexport_target(p, k as int, i as int) == Some(key));
                    }
                }
            }
            if let Some(path) = &source.path {
                if let Some(m2) = r.by_path.get(path.as_str()) {
                    if let Some((m3, n3)) = r.offered(*m2, &source.name, NameKind::Value) {
                        proof {
                            lemma_definition_in_range(
                                p,
                                *m2,
                                source@.name,
                                NameKind::Value,
                                Seq::empty(),
                            );
                        }
                        self.mark_name(r, m3, n3);
                    }
                }
            }
            i += 1;
        }
    }

    /// Marks everything that module `from` offers to its importers.
    fn mark_exports(&mut self, r: &Resolver, from: usize)
        requires
            old(self).well_formed(r@),
        ensures
            final(self).well_formed(r@),
            forall|m: int, d: int|
                0 <= m < r@.modules.len() && 0 <= d < r@.modules[m].decls.len() ==> (
                #[trigger] final(self).marked(r@, m, d) == (old(self).marked(r@, m, d) || offers(
                    r@,
                    from as int,
                    m,
                    home_name(r@.modules[m].decls[d]),
                ))),
    {
        let ghost p = r@;
        let held = r.star_closure(from);
        if from >= r.modules.len() {
            proof {
                assert forall|k: int| 0 <= k < p.modules.len() implies !star_reaches(
                    p,
                    from as int,
                    k,
                ) by {
                    if star_reaches(p, from as int, k) {
                        lemma_reaches_nothing(p, from as int, k);
                    }
                }
            }
            return ;
        }
        let mut k: usize = 0;
        while k < r.modules.len()
            invariant
                p == r@,
                from < p.modules.len(),
                k <= r.modules@.len(),
                held@.len() == p.modules.len(),
                forall|b: int|
                    0 <= b < held@.len() ==> #[trigger] held@[b] == star_reaches(
                        p,
                        from as int,
                        b,
                    ),
                self.well_formed(p),
                forall|m: int, d: int|
                    0 <= m < p.modules.len() && 0 <= d < p.modules[m].decls.len() ==> (
                    #[trigger] self.marked(p, m, d) == (old(self).marked(p, m, d) || offers_upto(
                        p,
                        held@,
                        k as int,
                        m,
                        home_name(p.modules[m].decls[d]),
                    ))),
            decreases r.modules@.len() - k,
        {
            proof {
                assert forall|m: int, home: Seq<char>| #[trigger]
                    offers_upto(p, held@, k + 1, m, home) == (offers_upto(
                        p,
                        held@,
                        k as int,
                        m,
                        home,
                    ) || (held@[k as int] && (m == k || reexports(
                        p,
                        k as int,
                        (m as usize, home),
                    )))) by {
                    if held@[k as int] && reexports(p, k as int, (m as usize, home)) {
                        assert(held@[k as int]);
                    }
                }
            }
            if held[k] {
                self.mark_reexports(r, k);
                let ghost before = *self;
                self.whole.set(k, true);
                assert forall|m: int, d: int|
                    0 <= m < p.modules.len() && 0 <= d < p.modules[m].decls.len() implies (
                #[trigger] self.marked(p, m, d) == (before.marked(p, m, d) || m == k)) by {}
            }
            k += 1;
        }
        proof {
            assert forall|m: int, d: int|
                0 <= m < p.modules.len() && 0 <= d < p.modules[m].decls.len() implies (
            #[trigger] self.marked(p, m, d) == (old(self).marked(p, m, d) || offers(
                p,
                from as int,
                m,
                home_name(p.modules[m].decls[d]),
            ))) by {
                let home = home_name(p.modules[m].decls[d]);
                if offers(p, from as int, m, home) && !star_reaches(p, from as int, m) {
                    let j = choose|j: int|
                        0 <= j < p.modules.len() && #[trigger] star_reaches(p, from as int, j)
                            && reexports(p, j, (m as usize, home));
                    assert(held@[j]);
                }
            }
        }
    }

    /// Marks what a taint covers.
    pub fn mark(&mut self, r: &Resolver, t: Taint)
        requires
            old(self).well_formed(r@),
        ensures
            final(self).well_formed(r@),
            forall|m: int, d: int|
                0 <= m < r@.modules.len() && 0 <= d < r@.modules[m].decls.len() ==> (
                #[trigger] final(self).marked(r@, m, d) == (old(self).marked(r@, m, d)
                    || covers_decl(r@, t@, m, d))),
    {
        match t {
            Taint::Decl(m, d) => {
                if m < self.decls.len() && d < self.decls[m].len() {
                    self.decls[m].set(d, true);
                }
            },
            Taint::FreeNamed(n) => {
                let _ = self.free.insert(n);
            },
            Taint::MethodsNamed(n) => {
                let _ = self.methods.insert(n);
            },
            Taint::Named(n) => {
                let _ = self.named.insert(n);
            },
            Taint::NameIn(m, n) => {
                if m < self.names.len() {
                    self.mark_name(r, m, n);
                }
            },
            Taint::Exports(from) => {
                self.mark_exports(r, from);
            },
        }
    }

    /// Marks what the taints cover.
    pub fn mark_all(&mut self, r: &Resolver, taints: Vec<Taint>)
        requires
            old(self).well_formed(r@),
        ensures
            final(self).well_formed(r@),
            forall|m: int, d: int|
                0 <= m < r@.modules.len() && 0 <= d < r@.modules[m].decls.len() ==> (
                #[trigger] final(self).marked(r@, m, d) == (old(self).marked(r@, m, d) || covered(
                    r@,
                    views(taints@),
                    m,
                    d,
                ))),
    {
        let ghost p = r@;
        let ghost items = taints@;
        let ghost all = views(taints@);
        for t in it: taints
            invariant
                p == r@,
                it.seq() == items,
                all == views(items),
                self.well_formed(p),
                forall|m: int, d: int|
                    0 <= m < p.modules.len() && 0 <= d < p.modules[m].decls.len() ==> (
                    #[trigger] self.marked(p, m, d) == (old(self).marked(p, m, d) || covered(
                        p,
                        all.take(it.index()),
                        m,
                        d,
                    ))),
        {
            let ghost k = it.index();
            proof {
                assert forall|m: int, d: int| #[trigger]
                    covered(p, all.take(k + 1), m, d) == (covered(p, all.take(k), m, d)
                        || covers_decl(p, t@, m, d)) by {
                    let longer = all.take(k + 1);
                    let shorter = all.take(k);
                    if covered(p, shorter, m, d) {
                        let j = choose|j: int|
                            0 <= j < shorter.len() && covers_decl(p, #[trigger] shorter[j], m, d);
                        assert(longer[j] == shorter[j]);
                    }
                    if covers_decl(p, t@, m, d) {
                        assert(longer[k] == t@);
                    }
                    if covered(p, longer, m, d) {
                        let j = choose|j: int|
                            0 <= j < longer.len() && covers_decl(p, #[trigger] longer[j], m, d);
                        if j < k {
                            assert(longer[j] == shorter[j]);
                        }
                    }
                }
            }
            self.mark(r, t);
        }
        assert(all.take(all.len() as int) =~= all);
    }
}

} // verus!
