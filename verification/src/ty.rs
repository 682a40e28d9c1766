//! Semantic types: what annotations and arguments resolve to.

use vstd::prelude::*;
use vstd::string::*;

use crate::model::views;

verus! {

#[derive(Debug)]
pub enum Ty {
    StrLit(String),
    NumLit(String),
    BoolLit(bool),
    Str,
    Num,
    Bool,
    Undefined,
    Null,
    /// any / unknown / uninterpretable value: assignable both ways, covers all.
    AnyLike,
    EnumLit { enum_name: String, member: String },
    Union(Vec<Ty>),
    Object(Vec<RProp>),
    /// Unmodelled type; never matches anything.
    Opaque(String),
}

#[derive(Debug)]
pub struct RProp {
    pub name: String,
    pub ty: Ty,
    pub optional: bool,
}

#[verifier::ext_equal]
pub enum TyView {
    StrLit(Seq<char>),
    NumLit(Seq<char>),
    BoolLit(bool),
    Str,
    Num,
    Bool,
    Undefined,
    Null,
    AnyLike,
    EnumLit { enum_name: Seq<char>, member: Seq<char> },
    Union(Seq<TyView>),
    Object(Seq<RPropView>),
    Opaque(Seq<char>),
}

#[verifier::ext_equal]
pub struct RPropView {
    pub name: Seq<char>,
    pub ty: TyView,
    pub optional: bool,
}

impl View for Ty {
    type V = TyView;

    open spec fn view(&self) -> TyView
        decreases self,
    {
        match self {
            Ty::StrLit(s) => TyView::StrLit(s@),
            Ty::NumLit(s) => TyView::NumLit(s@),
            Ty::BoolLit(b) => TyView::BoolLit(*b),
            Ty::Str => TyView::Str,
            Ty::Num => TyView::Num,
            Ty::Bool => TyView::Bool,
            Ty::Undefined => TyView::Undefined,
            Ty::Null => TyView::Null,
            Ty::AnyLike => TyView::AnyLike,
            Ty::EnumLit { enum_name, member } => TyView::EnumLit {
                enum_name: enum_name@,
                member: member@,
            },
            Ty::Union(parts) => TyView::Union(
                Seq::new(
                    parts@.len(),
                    |i: int|
                        if 0 <= i < parts@.len() {
                            parts@[i].view()
                        } else {
                            arbitrary()
                        },
                ),
            ),
            Ty::Object(props) => TyView::Object(
                Seq::new(
                    props@.len(),
                    |i: int|
                        if 0 <= i < props@.len() {
                            RPropView {
                                name: props@[i].name@,
                                ty: props@[i].ty.view(),
                                optional: props@[i].optional,
                            }
                        } else {
                            arbitrary()
                        },
                ),
            ),
            Ty::Opaque(s) => TyView::Opaque(s@),
        }
    }
}

impl View for RProp {
    type V = RPropView;

    open spec fn view(&self) -> RPropView {
        RPropView { name: self.name@, ty: self.ty@, optional: self.optional }
    }
}

pub broadcast proof fn lemma_ty_union_view(parts: Vec<Ty>)
    ensures
        (#[trigger] Ty::Union(parts)@) == TyView::Union(views(parts@)),
{
    reveal_with_fuel(<Ty as View>::view, 2);
    assert(Ty::Union(parts)@->Union_0 =~= views(parts@));
}

pub broadcast proof fn lemma_ty_object_view(props: Vec<RProp>)
    ensures
        (#[trigger] Ty::Object(props)@) == TyView::Object(views(props@)),
{
    reveal_with_fuel(<Ty as View>::view, 2);
    assert(Ty::Object(props)@->Object_0 =~= views(props@));
}

pub broadcast group group_ty_views {
    lemma_ty_union_view,
    lemma_ty_object_view,
}

impl Ty {
    /// A copy of the type.
    pub fn copy(&self) -> (r: Self)
        ensures
            r@ == self@,
        decreases self,
    {
        broadcast use group_ty_views;

        match self {
            Ty::StrLit(s) => Ty::StrLit(s.clone()),
            Ty::NumLit(s) => Ty::NumLit(s.clone()),
            Ty::BoolLit(b) => Ty::BoolLit(*b),
            Ty::Str => Ty::Str,
            Ty::Num => Ty::Num,
            Ty::Bool => Ty::Bool,
            Ty::Undefined => Ty::Undefined,
            Ty::Null => Ty::Null,
            Ty::AnyLike => Ty::AnyLike,
            Ty::EnumLit { enum_name, member } => Ty::EnumLit {
                enum_name: enum_name.clone(),
                member: member.clone(),
            },
            Ty::Union(parts) => {
                let mut out: Vec<Ty> = Vec::new();
                let mut i: usize = 0;
                while i < parts.len()
                    invariant
                        i <= parts@.len(),
                        *self == Ty::Union(*parts),
                        out@.len() == i,
                        forall|j: int| 0 <= j < i ==> out@[j]@ == parts@[j]@,
                    decreases parts@.len() - i,
                {
                    proof {
                        assert(decreases_to!(*self => self->Union_0));
                        assert(decreases_to!(self->Union_0 => parts@));
                        assert(decreases_to!(parts@ => parts@[i as int]));
                    }
                    out.push(parts[i].copy());
                    i += 1;
                }
                assert(views(out@) =~= views(parts@));
                Ty::Union(out)
            },
            Ty::Object(props) => {
                let mut out: Vec<RProp> = Vec::new();
                let mut i: usize = 0;
                while i < props.len()
                    invariant
                        i <= props@.len(),
                        *self == Ty::Object(*props),
                        out@.len() == i,
                        forall|j: int| 0 <= j < i ==> out@[j]@ == props@[j]@,
                    decreases props@.len() - i,
                {
                    let p = &props[i];
                    proof {
                        assert(decreases_to!(*self => self->Object_0));
                        assert(decreases_to!(self->Object_0 => props@));
                        assert(decreases_to!(props@ => props@[i as int]));
                        assert(decreases_to!(props@[i as int] => props@[i as int].ty));
                    }
                    out.push(RProp { name: p.name.clone(), ty: p.ty.copy(), optional: p.optional });
                    i += 1;
                }
                assert(views(out@) =~= views(props@));
                Ty::Object(out)
            },
            Ty::Opaque(s) => Ty::Opaque(s.clone()),
        }
    }

    /// Structural equality.
    pub fn same(&self, other: &Ty) -> (r: bool)
        ensures
            r == (self@ == other@),
        decreases self,
    {
        broadcast use group_ty_views;

        match (self, other) {
            (Ty::StrLit(a), Ty::StrLit(b)) => *a == *b,
            (Ty::NumLit(a), Ty::NumLit(b)) => *a == *b,
            (Ty::BoolLit(a), Ty::BoolLit(b)) => *a == *b,
            (Ty::Str, Ty::Str) => true,
            (Ty::Num, Ty::Num) => true,
            (Ty::Bool, Ty::Bool) => true,
            (Ty::Undefined, Ty::Undefined) => true,
            (Ty::Null, Ty::Null) => true,
            (Ty::AnyLike, Ty::AnyLike) => true,
            (
                Ty::EnumLit { enum_name: e1, member: m1 },
                Ty::EnumLit { enum_name: e2, member: m2 },
            ) => *e1 == *e2 && *m1 == *m2,
            (Ty::Union(a), Ty::Union(b)) => {
                if a.len() != b.len() {
                    assert(views(a@).len() != views(b@).len());
                    return false;
                }
                let mut i: usize = 0;
                while i < a.len()
                    invariant
                        i <= a@.len(),
                        a@.len() == b@.len(),
                        *self == Ty::Union(*a),
                        self@ == TyView::Union(views(a@)),
                        other@ == TyView::Union(views(b@)),
                        forall|j: int| 0 <= j < i ==> a@[j]@ == b@[j]@,
                    decreases a@.len() - i,
                {
                    proof {
                        assert(decreases_to!(*self => self->Union_0));
                        assert(decreases_to!(self->Union_0 => a@));
                        assert(decreases_to!(a@ => a@[i as int]));
                    }
                    if !a[i].same(&b[i]) {
                        assert(views(a@)[i as int] != views(b@)[i as int]);
                        return false;
                    }
                    i += 1;
                }
                assert(views(a@) =~= views(b@));
                true
            },
            (Ty::Object(a), Ty::Object(b)) => {
                if a.len() != b.len() {
                    assert(views(a@).len() != views(b@).len());
                    return false;
                }
                let mut i: usize = 0;
                while i < a.len()
                    invariant
                        i <= a@.len(),
                        a@.len() == b@.len(),
                        *self == Ty::Object(*a),
                        self@ == TyView::Object(views(a@)),
                        other@ == TyView::Object(views(b@)),
                        forall|j: int| 0 <= j < i ==> a@[j]@ == b@[j]@,
                    decreases a@.len() - i,
                {
                    let p = &a[i];
                    let q = &b[i];
                    proof {
                        assert(decreases_to!(*self => self->Object_0));
                        assert(decreases_to!(self->Object_0 => a@));
                        assert(decreases_to!(a@ => a@[i as int]));
                        assert(decreases_to!(a@[i as int] => a@[i as int].ty));
                    }
                    if p.name != q.name || p.optional != q.optional || !p.ty.same(&q.ty) {
                        assert(views(a@)[i as int] != views(b@)[i as int]);
                        return false;
                    }
                    i += 1;
                }
                assert(views(a@) =~= views(b@));
                true
            },
            (Ty::Opaque(a), Ty::Opaque(b)) => *a == *b,
            _ => false,
        }
    }
}

/// Whether `t` occurs among `list`.
pub fn contains_ty(list: &Vec<Ty>, t: &Ty) -> (r: bool)
    ensures
        r == views(list@).contains(t@),
{
    let mut i: usize = 0;
    while i < list.len()
        invariant
            i <= list@.len(),
            forall|j: int| 0 <= j < i ==> list@[j]@ != t@,
        decreases list@.len() - i,
    {
        if list[i].same(t) {
            assert(views(list@)[i as int] == t@);
            return true;
        }
        i += 1;
    }
    false
}

/// The first property of the given name.
pub open spec fn find_prop(props: Seq<RPropView>, name: Seq<char>) -> Option<RPropView>
    decreases props.len(),
{
    if props.len() == 0 {
        None
    } else if props[0].name == name {
        Some(props[0])
    } else {
        find_prop(props.drop_first(), name)
    }
}

/// The position of the first property of the given name.
pub fn prop_index(props: &Vec<RProp>, name: &String) -> (r: Option<usize>)
    ensures
        (match r {
            Some(i) => i < props@.len() && find_prop(views(props@), name@) == Some(
                props@[i as int]@,
            ),
            None => find_prop(views(props@), name@) is None,
        }),
{
    let ghost all = views(props@);
    let mut i: usize = 0;
    proof {
        assert(all.skip(0) =~= all);
    }
    while i < props.len()
        invariant
            i <= props@.len(),
            all == views(props@),
            find_prop(all, name@) == find_prop(all.skip(i as int), name@),
        decreases props@.len() - i,
    {
        if props[i].name == *name {
            return Some(i);
        }
        proof {
            assert(all.skip(i as int).drop_first() =~= all.skip(i + 1));
        }
        i += 1;
    }
    None
}

/// The constituents of a type: those of a union, or the type alone.
pub open spec fn split_parts(t: TyView) -> Seq<TyView> {
    match t {
        TyView::Union(parts) => parts,
        other => seq![other],
    }
}

/// The type with `undefined` among its constituents.
pub open spec fn with_undefined(t: TyView) -> TyView {
    match t {
        TyView::Union(parts) => if parts.contains(TyView::Undefined) {
            t
        } else {
            TyView::Union(parts.push(TyView::Undefined))
        },
        other => TyView::Union(seq![other, TyView::Undefined]),
    }
}

pub fn add_undefined(t: &Ty) -> (r: Ty)
    ensures
        r@ == with_undefined(t@),
{
    broadcast use group_ty_views;

    let mut p: Vec<Ty> = Vec::new();
    match t {
        Ty::Union(parts) => {
            let mut i: usize = 0;
            while i < parts.len()
                invariant
                    i <= parts@.len(),
                    p@.len() == i,
                    forall|j: int| 0 <= j < i ==> p@[j]@ == parts@[j]@,
                decreases parts@.len() - i,
            {
                p.push(parts[i].copy());
                i += 1;
            }
            assert(views(p@) =~= views(parts@));
            if !contains_ty(parts, &Ty::Undefined) {
                p.push(Ty::Undefined);
                assert(views(p@) =~= views(parts@).push(TyView::Undefined));
            }
        },
        other => {
            p.push(other.copy());
            p.push(Ty::Undefined);
            assert(views(p@) =~= seq![other@, TyView::Undefined]);
        },
    }
    Ty::Union(p)
}

// ---------------------------------------------------------------------------
// Display
// ---------------------------------------------------------------------------

/// The text of a type.
pub open spec fn printed(t: TyView) -> Seq<char>
    decreases t,
{
    match t {
        TyView::StrLit(s) => "\""@ + s + "\""@,
        TyView::NumLit(n) => n,
        TyView::BoolLit(b) => if b {
            "true"@
        } else {
            "false"@
        },
        TyView::Str => "string"@,
        TyView::Num => "number"@,
        TyView::Bool => "boolean"@,
        TyView::Undefined => "undefined"@,
        TyView::Null => "null"@,
        TyView::AnyLike => "any"@,
        TyView::EnumLit { enum_name, member } => enum_name + "."@ + member,
        TyView::Union(parts) => printed_union(parts),
        TyView::Object(props) => "{ "@ + printed_props(props) + "}"@,
        TyView::Opaque(s) => s,
    }
}

/// The texts of the constituents with ` | ` between them.
pub open spec fn printed_union(parts: Seq<TyView>) -> Seq<char>
    decreases parts,
{
    if parts.len() == 0 {
        Seq::empty()
    } else if parts.len() == 1 {
        printed(parts[0])
    } else {
        printed_union(parts.drop_last()) + " | "@ + printed(parts[parts.len() - 1])
    }
}

/// The texts `name: type; ` of the properties, with a `?` behind optional names.
pub open spec fn printed_props(props: Seq<RPropView>) -> Seq<char>
    decreases props,
{
    if props.len() == 0 {
        Seq::empty()
    } else {
        let p = props[props.len() - 1];
        printed_props(props.drop_last()) + p.name + (if p.optional {
            "?"@
        } else {
            Seq::<char>::empty()
        }) + ": "@ + printed(p.ty) + "; "@
    }
}

/// Writes a type out for display.
pub fn print_ty(t: &Ty) -> (r: String)
    ensures
        r@ == printed(t@),
    decreases t,
{
    broadcast use group_ty_views;

    match t {
        Ty::StrLit(s) => {
            let mut out: String = String::from_str("\"");
            out.append(s.as_str());
            out.append("\"");
            out
        },
        Ty::NumLit(n) => n.clone(),
        Ty::BoolLit(b) => {
            if *b {
                String::from_str("true")
            } else {
                String::from_str("false")
            }
        },
        Ty::Str => String::from_str("string"),
        Ty::Num => String::from_str("number"),
        Ty::Bool => String::from_str("boolean"),
        Ty::Undefined => String::from_str("undefined"),
        Ty::Null => String::from_str("null"),
        Ty::AnyLike => String::from_str("any"),
        Ty::EnumLit { enum_name, member } => {
            let mut out: String = enum_name.clone();
            out.append(".");
            out.append(member.as_str());
            out
        },
        Ty::Union(parts) => {
            let mut out: String = String::new();
            let mut i: usize = 0;
            let ghost all = views(parts@);
            while i < parts.len()
                invariant
                    i <= parts@.len(),
                    *t == Ty::Union(*parts),
                    all == views(parts@),
                    out@ == printed_union(all.take(i as int)),
                decreases parts@.len() - i,
            {
                proof {
                    assert(decreases_to!(*t => t->Union_0));
                    assert(decreases_to!(t->Union_0 => parts@));
                    assert(decreases_to!(parts@ => parts@[i as int]));
                    assert(all.take(i + 1).drop_last() =~= all.take(i as int));
                }
                if i > 0 {
                    out.append(" | ");
                }
                out.append(print_ty(&parts[i]).as_str());
                i += 1;
                proof {
                    assert(out@ =~= printed_union(all.take(i as int)));
                }
            }
            assert(all.take(i as int) =~= all);
            out
        },
        Ty::Object(props) => {
            let mut out: String = String::from_str("{ ");
            let mut i: usize = 0;
            let ghost all = views(props@);
            proof {
                assert(out@ =~= "{ "@ + printed_props(all.take(0)));
            }
            while i < props.len()
                invariant
                    i <= props@.len(),
                    *t == Ty::Object(*props),
                    all == views(props@),
                    out@ == "{ "@ + printed_props(all.take(i as int)),
                decreases props@.len() - i,
            {
                let p = &props[i];
                proof {
                    assert(decreases_to!(*t => t->Object_0));
                    assert(decreases_to!(t->Object_0 => props@));
                    assert(decreases_to!(props@ => props@[i as int]));
                    assert(decreases_to!(props@[i as int] => props@[i as int].ty));
                    assert(all.take(i + 1).drop_last() =~= all.take(i as int));
                }
                out.append(p.name.as_str());
                if p.optional {
                    out.append("?");
                }
                out.append(": ");
                out.append(print_ty(&p.ty).as_str());
                out.append("; ");
                i += 1;
                proof {
                    assert(out@ =~= "{ "@ + printed_props(all.take(i as int)));
                }
            }
            assert(all.take(i as int) =~= all);
            out.append("}");
            out
        },
        Ty::Opaque(s) => s.clone(),
    }
}

} // verus!
