//! What types mean: the values that belong to them, and what assignability,
//! narrowing and resolution say of those values.

use vstd::prelude::*;

use crate::laws::{choices, inside, leads, Spot};
use crate::narrow::{
    assignable_from, child_observed, covers, covers_some, is_assignable, marked_by, marks,
    param_reports, reported, union_report, unused_texts, used, walk_props, walk_reports, ReportView,
    ASSIGNABLE_DEPTH_LIMIT,
};
use crate::resolve::{deduped, law_deduped, projected, projected_parts};
use crate::ty::{find_prop, printed, split_parts, with_undefined, RPropView, TyView};

verus! {

// ---------------------------------------------------------------------------
// Values
// ---------------------------------------------------------------------------

/// What a program computes with, as far as types tell it apart.
#[verifier::ext_equal]
pub enum Datum {
    Str(Seq<char>),
    Num(Seq<char>),
    Bool(bool),
    Undefined,
    Null,
    Member { enum_name: Seq<char>, member: Seq<char> },
    Object(Seq<(Seq<char>, Datum)>),
}

/// The field of an object, where it has one of that name.
pub open spec fn field(fields: Seq<(Seq<char>, Datum)>, name: Seq<char>) -> Option<Datum>
    decreases fields.len(),
{
    if fields.len() == 0 {
        None
    } else if fields[0].0 == name {
        Some(fields[0].1)
    } else {
        field(fields.drop_first(), name)
    }
}

/// Whether a value may stand where a type is declared. Objects may have more
/// fields than the type asks for. Of a type that is not modelled there is no
/// value.
pub open spec fn belongs(v: Datum, t: TyView) -> bool
    decreases t,
{
    match t {
        TyView::StrLit(s) => v == Datum::Str(s),
        TyView::NumLit(s) => v == Datum::Num(s),
        TyView::BoolLit(b) => v == Datum::Bool(b),
        TyView::Str => v is Str,
        TyView::Num => v is Num,
        TyView::Bool => v is Bool,
        TyView::Undefined => v is Undefined,
        TyView::Null => v is Null,
        TyView::AnyLike => true,
        TyView::EnumLit { enum_name, member } => v == (Datum::Member { enum_name, member }),
        TyView::Union(parts) => exists|i: int|
            0 <= i < parts.len() && belongs(v, #[trigger] parts[i]),
        TyView::Object(props) => v is Object && forall|i: int|
            0 <= i < props.len() ==> match field(v->Object_0, (#[trigger] props[i]).name) {
                Some(w) => belongs(w, props[i].ty),
                None => props[i].optional,
            },
        TyView::Opaque(_) => false,
    }
}

/// Whether a value is built as a type says: an object has just the properties
/// of the type. Of `any` nothing is known to be built.
pub open spec fn built(v: Datum, t: TyView) -> bool
    decreases t,
{
    match t {
        TyView::StrLit(s) => v == Datum::Str(s),
        TyView::NumLit(s) => v == Datum::Num(s),
        TyView::BoolLit(b) => v == Datum::Bool(b),
        TyView::Str => v is Str,
        TyView::Num => v is Num,
        TyView::Bool => v is Bool,
        TyView::Undefined => v is Undefined,
        TyView::Null => v is Null,
        TyView::AnyLike => false,
        TyView::EnumLit { enum_name, member } => v == (Datum::Member { enum_name, member }),
        TyView::Union(parts) => exists|i: int|
            0 <= i < parts.len() && built(v, #[trigger] parts[i]),
        TyView::Object(props) => v is Object && v->Object_0.len() == props.len() && forall|i: int|
            0 <= i < props.len() ==> v->Object_0[i].0 == (#[trigger] props[i]).name && built(
                v->Object_0[i].1,
                props[i].ty,
            ),
        TyView::Opaque(_) => false,
    }
}

/// Whether a type says of a value what it is: a literal, or an object of such.
pub open spec fn concrete(t: TyView) -> bool
    decreases t,
{
    match t {
        TyView::StrLit(_) => true,
        TyView::NumLit(_) => true,
        TyView::BoolLit(_) => true,
        TyView::Undefined => true,
        TyView::Null => true,
        TyView::EnumLit { .. } => true,
        TyView::Object(props) => forall|i: int|
            0 <= i < props.len() ==> concrete((#[trigger] props[i]).ty),
        _ => false,
    }
}

/// The value that a concrete type stands for.
pub open spec fn value_of(t: TyView) -> Datum
    decreases t,
{
    match t {
        TyView::StrLit(s) => Datum::Str(s),
        TyView::NumLit(s) => Datum::Num(s),
        TyView::BoolLit(b) => Datum::Bool(b),
        TyView::Undefined => Datum::Undefined,
        TyView::Null => Datum::Null,
        TyView::EnumLit { enum_name, member } => Datum::Member { enum_name, member },
        TyView::Object(props) => Datum::Object(
            Seq::new(
                props.len(),
                |i: int|
                    if 0 <= i < props.len() {
                        (props[i].name, value_of(props[i].ty))
                    } else {
                        arbitrary()
                    },
            ),
        ),
        _ => arbitrary(),
    }
}

/// Whether unions and objects nest no deeper than `n` in a type.
pub open spec fn nests(t: TyView, n: int) -> bool
    decreases t,
{
    match t {
        TyView::Union(parts) => n > 0 && forall|i: int|
            0 <= i < parts.len() ==> nests(#[trigger] parts[i], n - 1),
        TyView::Object(props) => n > 0 && forall|i: int|
            0 <= i < props.len() ==> nests((#[trigger] props[i]).ty, n - 1),
        _ => n >= 0,
    }
}

// ---------------------------------------------------------------------------
// Assignability
// ---------------------------------------------------------------------------

proof fn lemma_field_of_value(props: Seq<RPropView>, fields: Seq<(Seq<char>, Datum)>, name: Seq<char>)
    requires
        fields.len() == props.len(),
        forall|i: int|
            0 <= i < props.len() ==> fields[i] == (
                (#[trigger] props[i]).name,
                value_of(props[i].ty),
            ),
    ensures
        field(fields, name) == (match find_prop(props, name) {
            Some(x) => Some(value_of(x.ty)),
            None => None,
        }),
    decreases props.len(),
{
    if props.len() > 0 {
        assert(fields[0] == (props[0].name, value_of(props[0].ty)));
        assert forall|i: int| 0 <= i < props.drop_first().len() implies fields.drop_first()[i] == (
            (#[trigger] props.drop_first()[i]).name,
            value_of(props.drop_first()[i].ty),
        ) by {
            assert(props.drop_first()[i] == props[i + 1]);
        }
        lemma_field_of_value(props.drop_first(), fields.drop_first(), name);
    }
}

proof fn lemma_found_is_there(props: Seq<RPropView>, name: Seq<char>) -> (i: int)
    requires
        find_prop(props, name) is Some,
    ensures
        0 <= i < props.len(),
        props[i].name == name,
        find_prop(props, name) == Some(props[i]),
    decreases props.len(),
{
    if props[0].name == name {
        0
    } else {
        let i = lemma_found_is_there(props.drop_first(), name);
        assert(props.drop_first()[i] == props[i + 1]);
        i + 1
    }
}

proof fn lemma_concrete_assignable(a: TyView, b: TyView, depth: int, na: int, nb: int)
    requires
        concrete(a),
        nests(a, na),
        nests(b, nb),
        depth + na + nb <= ASSIGNABLE_DEPTH_LIMIT,
    ensures
        assignable_from(a, b, depth) <==> belongs(value_of(a), b),
    decreases nb,
{
    match b {
        TyView::Union(parts) => {
            assert forall|i: int| 0 <= i < parts.len() implies (assignable_from(
                a,
                #[trigger] parts[i],
                depth + 1,
            ) <==> belongs(value_of(a), parts[i])) by {
                lemma_concrete_assignable(a, parts[i], depth + 1, na, nb - 1);
            }
            if assignable_from(a, b, depth) {
                let i = choose|i: int|
                    0 <= i < parts.len() && assignable_from(a, #[trigger] parts[i], depth + 1);
                assert(belongs(value_of(a), parts[i]));
            }
            if belongs(value_of(a), b) {
                let i = choose|i: int| 0 <= i < parts.len() && belongs(value_of(a), #[trigger] parts[i]);
                assert(assignable_from(a, parts[i], depth + 1));
            }
        },
        TyView::Object(bp) => {
            if let TyView::Object(ap) = a {
                let fields = value_of(a)->Object_0;
                assert forall|i: int| 0 <= i < bp.len() implies ((match find_prop(
                    ap,
                    (#[trigger] bp[i]).name,
                ) {
                    Some(have) => assignable_from(have.ty, bp[i].ty, depth + 1),
                    None => bp[i].optional,
                }) <==> (match field(fields, bp[i].name) {
                    Some(w) => belongs(w, bp[i].ty),
                    None => bp[i].optional,
                })) by {
                    lemma_field_of_value(ap, fields, bp[i].name);
                    if find_prop(ap, bp[i].name) is Some {
                        let k = lemma_found_is_there(ap, bp[i].name);
                        lemma_concrete_assignable(ap[k].ty, bp[i].ty, depth + 1, na - 1, nb - 1);
                    }
                }
            }
        },
        _ => {},
    }
}

/// What a call literally passes is assignable to a type exactly if it belongs
/// to it. So two literals are assignable only if they are the same, and an
/// object only where each of its properties belongs.
pub proof fn law_argument_fits_iff_it_belongs(a: TyView, b: TyView, na: int, nb: int)
    requires
        concrete(a),
        nests(a, na),
        nests(b, nb),
        na + nb <= ASSIGNABLE_DEPTH_LIMIT,
    ensures
        is_assignable(a, b) <==> belongs(value_of(a), b),
{
    lemma_concrete_assignable(a, b, 0, na, nb);
}

proof fn lemma_field_of_built(
    props: Seq<RPropView>,
    fields: Seq<(Seq<char>, Datum)>,
    name: Seq<char>,
)
    requires
        fields.len() == props.len(),
        forall|i: int|
            0 <= i < props.len() ==> fields[i].0 == (#[trigger] props[i]).name && built(
                fields[i].1,
                props[i].ty,
            ),
    ensures
        field(fields, name) is Some <==> find_prop(props, name) is Some,
        field(fields, name) is Some ==> built(
            field(fields, name)->0,
            find_prop(props, name)->0.ty,
        ),
    decreases props.len(),
{
    if props.len() > 0 {
        assert(fields[0].0 == props[0].name);
        assert forall|i: int| 0 <= i < props.drop_first().len() implies fields.drop_first()[i].0
            == (#[trigger] props.drop_first()[i]).name && built(
            fields.drop_first()[i].1,
            props.drop_first()[i].ty,
        ) by {
            assert(props.drop_first()[i] == props[i + 1]);
        }
        lemma_field_of_built(props.drop_first(), fields.drop_first(), name);
    }
}

proof fn lemma_assignable_values(v: Datum, a: TyView, b: TyView, depth: int, na: int, nb: int)
    requires
        assignable_from(a, b, depth),
        built(v, a),
        nests(a, na),
        nests(b, nb),
        depth + na + nb <= ASSIGNABLE_DEPTH_LIMIT,
    ensures
        belongs(v, b),
    decreases na + nb,
{
    match (a, b) {
        (_, TyView::AnyLike) => {},
        (TyView::Union(parts), _) => {
            let i = choose|i: int| 0 <= i < parts.len() && built(v, #[trigger] parts[i]);
            assert(nests(parts[i], na - 1));
            assert(nb >= 0);
            lemma_assignable_values(v, parts[i], b, depth + 1, na - 1, nb);
        },
        (_, TyView::Union(parts)) => {
            let i = choose|i: int|
                0 <= i < parts.len() && assignable_from(a, #[trigger] parts[i], depth + 1);
            assert(nests(parts[i], nb - 1));
            lemma_assignable_values(v, a, parts[i], depth + 1, na, nb - 1);
            assert(belongs(v, parts[i]));
        },
        (TyView::Object(ap), TyView::Object(bp)) => {
            let fields = v->Object_0;
            assert forall|i: int| 0 <= i < bp.len() implies match field(
                fields,
                (#[trigger] bp[i]).name,
            ) {
                Some(w) => belongs(w, bp[i].ty),
                None => bp[i].optional,
            } by {
                lemma_field_of_built(ap, fields, bp[i].name);
                if find_prop(ap, bp[i].name) is Some {
                    let k = lemma_found_is_there(ap, bp[i].name);
                    let w = field(fields, bp[i].name)->0;
                    lemma_assignable_values(w, ap[k].ty, bp[i].ty, depth + 1, na - 1, nb - 1);
                }
            }
        },
        _ => {},
    }
}

/// Every value that is built as a type says belongs to each type that the
/// first is assignable to.
pub proof fn law_assignable_means_contained(v: Datum, a: TyView, b: TyView, na: int, nb: int)
    requires
        is_assignable(a, b),
        built(v, a),
        nests(a, na),
        nests(b, nb),
        na + nb <= ASSIGNABLE_DEPTH_LIMIT,
    ensures
        belongs(v, b),
{
    lemma_assignable_values(v, a, b, 0, na, nb);
}

/// Whether no part of a type is opaque, no property is named twice, and no
/// union stands directly in another.
pub open spec fn modelled(t: TyView) -> bool
    decreases t,
{
    match t {
        TyView::Opaque(_) => false,
        TyView::Union(parts) => forall|i: int|
            0 <= i < parts.len() ==> (#[trigger] parts[i]) !is Union && modelled(parts[i]),
        TyView::Object(props) => (forall|i: int|
            0 <= i < props.len() ==> modelled((#[trigger] props[i]).ty)) && forall|i: int, j: int|
            0 <= i < j < props.len() ==> (#[trigger] props[i]).name != (#[trigger] props[j]).name,
        _ => true,
    }
}

proof fn lemma_find_only(props: Seq<RPropView>, i: int)
    requires
        0 <= i < props.len(),
        forall|i: int, j: int|
            0 <= i < j < props.len() ==> (#[trigger] props[i]).name != (#[trigger] props[j]).name,
    ensures
        find_prop(props, props[i].name) == Some(props[i]),
    decreases props.len(),
{
    if i > 0 {
        assert(props[0].name != props[i].name);
        let rest = props.drop_first();
        assert(rest[i - 1] == props[i]);
        assert forall|x: int, y: int| 0 <= x < y < rest.len() implies (#[trigger] rest[x]).name != (
        #[trigger] rest[y]).name by {
            assert(rest[x] == props[x + 1] && rest[y] == props[y + 1]);
        }
        lemma_find_only(rest, i - 1);
    }
}

proof fn lemma_assignable_to_itself(t: TyView, depth: int)
    requires
        modelled(t),
    ensures
        assignable_from(t, t, depth),
    decreases t,
{
    if depth <= ASSIGNABLE_DEPTH_LIMIT {
        match t {
            TyView::Union(parts) => {
                assert forall|i: int| 0 <= i < parts.len() implies assignable_from(
                    #[trigger] parts[i],
                    t,
                    depth + 1,
                ) by {
                    assert(parts[i] !is Union && modelled(parts[i]));
                    lemma_assignable_to_itself(parts[i], depth + 2);
                }
            },
            TyView::Object(props) => {
                assert forall|i: int| 0 <= i < props.len() implies match find_prop(
                    props,
                    (#[trigger] props[i]).name,
                ) {
                    Some(have) => assignable_from(have.ty, props[i].ty, depth + 1),
                    None => props[i].optional,
                } by {
                    lemma_find_only(props, i);
                    lemma_assignable_to_itself(props[i].ty, depth + 1);
                }
            },
            _ => {},
        }
    }
}

/// Every type that is modelled throughout is assignable to itself.
pub proof fn law_assignable_to_itself(t: TyView)
    requires
        modelled(t),
    ensures
        is_assignable(t, t),
{
    lemma_assignable_to_itself(t, 0);
}

// ---------------------------------------------------------------------------
// What an argument uses
// ---------------------------------------------------------------------------

/// Whether a type is a literal or a primitive.
pub open spec fn simple(t: TyView) -> bool {
    !(t is AnyLike) && !(t is Union) && !(t is Object) && !(t is Opaque)
}

/// A literal or primitive that is passed uses a constituent exactly if some
/// value is of both.
pub proof fn law_simple_argument_covers_what_it_may_be(oc: TyView, c: TyView)
    requires
        simple(oc),
        c !is Union,
    ensures
        covers(oc, c) <==> exists|v: Datum| #[trigger] built(v, oc) && belongs(v, c),
{
    let v = match oc {
        TyView::Str => match c {
            TyView::StrLit(s) => Datum::Str(s),
            _ => Datum::Str(Seq::empty()),
        },
        TyView::Num => match c {
            TyView::NumLit(s) => Datum::Num(s),
            _ => Datum::Num(Seq::empty()),
        },
        TyView::Bool => match c {
            TyView::BoolLit(b) => Datum::Bool(b),
            _ => Datum::Bool(true),
        },
        _ => value_of(oc),
    };
    assert(built(v, oc));
    if covers(oc, c) {
        assert(belongs(v, c));
    }
}

/// An object that a call writes out uses every constituent that it belongs to.
pub proof fn law_object_argument_covers_what_it_is(oc: TyView, c: TyView, na: int, nb: int)
    requires
        oc is Object,
        concrete(oc),
        nests(oc, na),
        nests(c, nb),
        na + nb <= ASSIGNABLE_DEPTH_LIMIT,
        belongs(value_of(oc), c),
    ensures
        covers(oc, c),
{
    law_argument_fits_iff_it_belongs(oc, c, na, nb);
}

/// What is passed just as it is declared uses its constituent.
pub proof fn law_declared_constituent_covers_itself(c: TyView)
    requires
        modelled(c),
    ensures
        covers(c, c),
{
    law_assignable_to_itself(c);
}

/// Whether two types are literals of which no value is both.
pub open spec fn literals_apart(a: TyView, b: TyView) -> bool {
    concrete(a) && concrete(b) && simple(a) && simple(b) && value_of(a) != value_of(b)
}

/// A variant of a discriminated union is not used by an object whose
/// discriminant is another literal.
pub proof fn law_other_discriminant_excludes(
    oc: Seq<RPropView>,
    c: Seq<RPropView>,
    name: Seq<char>,
)
    requires
        find_prop(oc, name) is Some,
        find_prop(c, name) is Some,
        literals_apart(find_prop(oc, name)->0.ty, find_prop(c, name)->0.ty),
    ensures
        !covers(TyView::Object(oc), TyView::Object(c)),
        !is_assignable(TyView::Object(oc), TyView::Object(c)),
        !is_assignable(TyView::Object(c), TyView::Object(oc)),
{
    let i = lemma_found_is_there(oc, name);
    let j = lemma_found_is_there(c, name);
    assert(nests(oc[i].ty, 0) && nests(c[j].ty, 0));
    lemma_concrete_assignable(oc[i].ty, c[j].ty, 1, 0, 0);
    lemma_concrete_assignable(c[j].ty, oc[i].ty, 1, 0, 0);
    assert(oc[i].name == name && c[j].name == name);
}

// ---------------------------------------------------------------------------
// What is reported
// ---------------------------------------------------------------------------

/// What is reported as never passed is not among the values that a call may
/// pass: neither of a literal or primitive argument, nor of an object that is
/// written out.
pub proof fn law_reported_is_never_passed(
    observed: Seq<TyView>,
    constituents: Seq<TyView>,
    suppress: bool,
    c: TyView,
    i: int,
    k: int,
    v: Datum,
    na: int,
    nb: int,
)
    requires
        reported(observed, constituents, suppress, c),
        c !is Union,
        0 <= i < observed.len(),
        0 <= k < split_parts(observed[i]).len(),
        ({
            let part = split_parts(observed[i])[k];
            ||| simple(part) && built(v, part)
            ||| part is Object && concrete(part) && v == value_of(part) && nests(part, na) && nests(
                c,
                nb,
            ) && na + nb <= ASSIGNABLE_DEPTH_LIMIT
        }),
    ensures
        !belongs(v, c),
{
    let part = split_parts(observed[i])[k];
    if belongs(v, c) {
        if simple(part) {
            law_simple_argument_covers_what_it_may_be(part, c);
        } else {
            law_object_argument_covers_what_it_is(part, c, na, nb);
        }
        assert(marks(part, constituents, c));
        assert(marked_by(observed[i], constituents, c));
    }
}

/// Whether every argument consists of literals and primitives of which some
/// value belongs to a constituent.
pub open spec fn all_told(observed: Seq<TyView>, constituents: Seq<TyView>) -> bool {
    forall|i: int, k: int|
        0 <= i < observed.len() && 0 <= k < split_parts(observed[i]).len() ==> simple(
            #[trigger] split_parts(observed[i])[k],
        ) && exists|v: Datum, j: int|
            0 <= j < constituents.len() && #[trigger] built(v, split_parts(observed[i])[k])
                && belongs(v, #[trigger] constituents[j])
}

/// Whether some call may pass a value of the constituent.
pub open spec fn may_be_passed(observed: Seq<TyView>, c: TyView) -> bool {
    exists|i: int, k: int, v: Datum|
        0 <= i < observed.len() && 0 <= k < split_parts(observed[i]).len() && #[trigger] built(
            v,
            split_parts(observed[i])[k],
        ) && belongs(v, c)
}

/// Where every argument is told, a constituent is reported exactly if no call
/// can pass a value of it, `undefined` of optional places apart.
pub proof fn law_reported_iff_no_call_can_pass_it(
    observed: Seq<TyView>,
    constituents: Seq<TyView>,
    suppress: bool,
    c: TyView,
)
    requires
        all_told(observed, constituents),
        no_unions(constituents),
        c !is Union,
    ensures
        reported(observed, constituents, suppress, c) <==> !may_be_passed(observed, c) && !(suppress
            && c is Undefined),
{
    if may_be_passed(observed, c) {
        let (i, k, v) = choose|i: int, k: int, v: Datum|
            0 <= i < observed.len() && 0 <= k < split_parts(observed[i]).len() && #[trigger] built(
                v,
                split_parts(observed[i])[k],
            ) && belongs(v, c);
        let part = split_parts(observed[i])[k];
        assert(simple(part));
        law_simple_argument_covers_what_it_may_be(part, c);
        assert(marks(part, constituents, c));
        assert(marked_by(observed[i], constituents, c));
    }
    if used(observed, constituents, c) {
        let i = choose|i: int|
            0 <= i < observed.len() && marked_by(#[trigger] observed[i], constituents, c);
        let k = choose|k: int|
            0 <= k < split_parts(observed[i]).len() && marks(
                #[trigger] split_parts(observed[i])[k],
                constituents,
                c,
            );
        let part = split_parts(observed[i])[k];
        assert(simple(part));
        let (v, j) = choose|v: Datum, j: int|
            0 <= j < constituents.len() && #[trigger] built(v, part) && belongs(
                v,
                #[trigger] constituents[j],
            );
        law_simple_argument_covers_what_it_may_be(part, constituents[j]);
        assert(covers_some(part, constituents));
        law_simple_argument_covers_what_it_may_be(part, c);
        let w = choose|w: Datum| #[trigger] built(w, part) && belongs(w, c);
        assert(built(w, split_parts(observed[i])[k]));
        assert(may_be_passed(observed, c));
    }
}

/// A variant whose discriminant no call passes is reported: each call passes
/// an object that uses some variant and has another literal there.
pub proof fn law_variant_nobody_constructs_is_reported(
    observed: Seq<TyView>,
    constituents: Seq<TyView>,
    suppress: bool,
    c: Seq<RPropView>,
    name: Seq<char>,
)
    requires
        find_prop(c, name) is Some,
        forall|i: int|
            0 <= i < observed.len() ==> (#[trigger] observed[i]) is Object && covers_some(
                observed[i],
                constituents,
            ) && find_prop(observed[i]->Object_0, name) is Some && literals_apart(
                find_prop(observed[i]->Object_0, name)->0.ty,
                find_prop(c, name)->0.ty,
            ),
    ensures
        reported(observed, constituents, suppress, TyView::Object(c)),
{
    let t = TyView::Object(c);
    if used(observed, constituents, t) {
        let i = choose|i: int|
            0 <= i < observed.len() && marked_by(#[trigger] observed[i], constituents, t);
        assert(observed[i] is Object);
        law_other_discriminant_excludes(observed[i]->Object_0, c, name);
        assert(split_parts(observed[i]) =~= seq![observed[i]]);
        let k = choose|k: int|
            0 <= k < split_parts(observed[i]).len() && marks(
                #[trigger] split_parts(observed[i])[k],
                constituents,
                t,
            );
        assert(k == 0);
    }
}

// ---------------------------------------------------------------------------
// Places in a declared type
// ---------------------------------------------------------------------------

/// Below a property stands what the calls pass for it: the field of the
/// object, or, where a call leaves an optional property out, `undefined`, and
/// nothing known where it leaves another out.
pub proof fn law_property_sees_what_is_passed(
    observed: Seq<TyView>,
    prop: RPropView,
    i: int,
    v: Datum,
)
    requires
        0 <= i < observed.len(),
        observed[i] is Object,
        built(v, observed[i]),
    ensures
        child_observed(observed, prop).len() == observed.len(),
        (match field(v->Object_0, prop.name) {
            Some(w) => child_observed(observed, prop)[i] is AnyLike || built(
                w,
                child_observed(observed, prop)[i],
            ),
            None => child_observed(observed, prop)[i] == if prop.optional {
                TyView::Undefined
            } else {
                TyView::AnyLike
            },
        }),
{
    lemma_field_of_built(observed[i]->Object_0, v->Object_0, prop.name);
}

/// An object that is written out is taken apart: below a property stands just
/// the value of its field.
pub proof fn law_property_of_a_written_object(observed: Seq<TyView>, prop: RPropView, i: int)
    requires
        0 <= i < observed.len(),
        observed[i] is Object,
        concrete(observed[i]),
        field(value_of(observed[i])->Object_0, prop.name) is Some,
    ensures
        concrete(child_observed(observed, prop)[i]),
        value_of(child_observed(observed, prop)[i]) == field(
            value_of(observed[i])->Object_0,
            prop.name,
        )->0,
{
    let props = observed[i]->Object_0;
    lemma_field_of_value(props, value_of(observed[i])->Object_0, prop.name);
    let k = lemma_found_is_there(props, prop.name);
    assert(concrete(props[k].ty));
}

/// Whether a report at the path of a spot names the constituent.
pub open spec fn reports_at(reports: Seq<ReportView>, to: Spot, c: TyView) -> bool {
    exists|k: int|
        0 <= k < reports.len() && (#[trigger] reports[k]).path == to.path && reports[k].declared
            == printed(to.declared) && reports[k].unused.contains(printed(c))
}

proof fn lemma_text_is_listed(
    list: Seq<TyView>,
    observed: Seq<TyView>,
    constituents: Seq<TyView>,
    suppress: bool,
    j: int,
)
    requires
        0 <= j < list.len(),
        reported(observed, constituents, suppress, list[j]),
    ensures
        unused_texts(list, observed, constituents, suppress).contains(printed(list[j])),
    decreases list.len(),
{
    let before = unused_texts(list.drop_last(), observed, constituents, suppress);
    let all = unused_texts(list, observed, constituents, suppress);
    if j == list.len() - 1 {
        assert(all[before.len() as int] == printed(list[j]));
    } else {
        lemma_text_is_listed(list.drop_last(), observed, constituents, suppress, j);
        let k = choose|k: int| 0 <= k < before.len() && before[k] == printed(list[j]);
        assert(all[k] == before[k]);
    }
}

proof fn lemma_props_hold_report(
    props: Seq<RPropView>,
    observed: Seq<TyView>,
    path: Seq<char>,
    budget: int,
    n: int,
    r: ReportView,
)
    requires
        0 <= n < props.len(),
        walk_reports(
            props[n].ty,
            child_observed(observed, props[n]),
            path + "."@ + props[n].name,
            props[n].optional,
            budget - 1,
        ).contains(r),
    ensures
        walk_props(props, observed, path, budget).contains(r),
    decreases props.len(),
{
    let p = props[props.len() - 1];
    let before = walk_props(props.drop_last(), observed, path, budget);
    let here = walk_reports(
        p.ty,
        child_observed(observed, p),
        path + "."@ + p.name,
        p.optional,
        budget - 1,
    );
    let all = walk_props(props, observed, path, budget);
    assert(all == before + here);
    if n == props.len() - 1 {
        let k = choose|k: int| 0 <= k < here.len() && here[k] == r;
        assert(all[before.len() + k] == r);
    } else {
        assert(props.drop_last()[n] == props[n]);
        lemma_props_hold_report(props.drop_last(), observed, path, budget, n, r);
        let k = choose|k: int| 0 <= k < before.len() && before[k] == r;
        assert(all[k] == r);
    }
}

/// Nothing that the arguments exclude is left out: at every place that at most
/// `budget` properties lead to, each constituent that is never passed there is
/// reported.
pub proof fn law_every_exclusion_is_reported(
    from: Spot,
    steps: Seq<int>,
    to: Spot,
    budget: int,
    j: int,
)
    requires
        leads(from, steps, to),
        steps.len() <= budget,
        choices(to.declared) is Some,
        0 <= j < choices(to.declared)->0.len(),
        reported(to.observed, choices(to.declared)->0, to.optional, choices(to.declared)->0[j]),
    ensures
        reports_at(
            walk_reports(from.declared, from.observed, from.path, from.optional, budget),
            to,
            choices(to.declared)->0[j],
        ),
    decreases steps.len(),
{
    let reports = walk_reports(from.declared, from.observed, from.path, from.optional, budget);
    let c = choices(to.declared)->0[j];
    if steps.len() == 0 {
        let cs = choices(to.declared)->0;
        lemma_text_is_listed(cs, to.observed, cs, to.optional, j);
        let texts = unused_texts(cs, to.observed, cs, to.optional);
        assert(texts.contains(printed(c)));
        assert(texts.len() > 0);
        assert(reports[0].path == to.path);
    } else {
        let n = steps[0];
        let child = inside(from, n);
        law_every_exclusion_is_reported(child, steps.drop_first(), to, budget - 1, j);
        let below = walk_reports(
            child.declared,
            child.observed,
            child.path,
            child.optional,
            budget - 1,
        );
        let k = choose|k: int|
            0 <= k < below.len() && (#[trigger] below[k]).path == to.path && below[k].declared
                == printed(to.declared) && below[k].unused.contains(printed(c));
        assert(below.contains(below[k]));
        lemma_props_hold_report(
            from.declared->Object_0,
            from.observed,
            from.path,
            budget,
            n,
            below[k],
        );
        let m = choose|m: int| 0 <= m < reports.len() && reports[m] == below[k];
        assert(reports[m].path == to.path);
    }
}

/// What stands as `undefined` beside a type adds that value and no other, and
/// leaves the constituents in place.
pub proof fn law_undefined_is_added(t: TyView, v: Datum)
    ensures
        belongs(v, with_undefined(t)) <==> v is Undefined || belongs(v, t),
        split_parts(with_undefined(t)).take(split_parts(t).len() as int) == split_parts(t),
        with_undefined(with_undefined(t)) == with_undefined(t),
{
    let parts = split_parts(t);
    let u = with_undefined(t);
    let more = u->Union_0;
    assert(more.take(parts.len() as int) =~= parts);
    match t {
        TyView::Union(ps) => {
            if ps.contains(TyView::Undefined) {
                let i = choose|i: int| 0 <= i < ps.len() && ps[i] == TyView::Undefined;
                assert(u == t);
                if v is Undefined {
                    assert(belongs(v, t->Union_0[i]));
                    assert(belongs(v, t));
                }
            } else {
                assert(more[ps.len() as int] == TyView::Undefined);
                if belongs(v, t) {
                    let i = choose|i: int|
                        0 <= i < t->Union_0.len() && belongs(v, #[trigger] t->Union_0[i]);
                    assert(u->Union_0[i] == ps[i]);
                    assert(belongs(v, u->Union_0[i]));
                    assert(belongs(v, u));
                }
                if v is Undefined {
                    assert(belongs(v, u->Union_0[ps.len() as int]));
                    assert(belongs(v, u));
                }
                if belongs(v, with_undefined(t)) {
                    let i = choose|i: int|
                        0 <= i < u->Union_0.len() && belongs(v, #[trigger] u->Union_0[i]);
                    if i < ps.len() {
                        assert(more[i] == ps[i]);
                        assert(belongs(v, t->Union_0[i]));
                        assert(belongs(v, t));
                    } else {
                        assert(more[i] is Undefined);
                        assert(v is Undefined);
                    }
                }
                assert(more.contains(TyView::Undefined));
            }
        },
        _ => {
            assert(u->Union_0[0] == t && u->Union_0[1] == TyView::Undefined);
            if belongs(v, t) {
                assert(belongs(v, u->Union_0[0]));
                assert(belongs(v, u));
            }
            if v is Undefined {
                assert(belongs(v, u->Union_0[1]));
                assert(belongs(v, u));
            }
            if belongs(v, u) {
                let i = choose|i: int|
                    0 <= i < u->Union_0.len() && belongs(v, #[trigger] u->Union_0[i]);
                assert(i == 0 || i == 1);
            }
            assert(more.contains(TyView::Undefined));
        },
    }
}

/// The constituents of a parameter's type, `undefined` of an optional one too.
pub open spec fn parameter_choices(declared: TyView, optional: bool) -> Seq<TyView> {
    if optional {
        split_parts(with_undefined(declared))
    } else {
        split_parts(declared)
    }
}

/// Whether no constituent is itself a union.
pub open spec fn no_unions(cs: Seq<TyView>) -> bool {
    forall|j: int| 0 <= j < cs.len() ==> (#[trigger] cs[j]) !is Union
}

/// What a parameter reports: where its declared type is a union and every
/// argument is told, just the texts of the constituents that no call can pass.
pub proof fn law_parameter_reports_what_no_call_passes(
    declared: TyView,
    observed: Seq<TyView>,
    optional: bool,
    max_depth: nat,
    text: Seq<char>,
)
    requires
        declared is Union,
        all_told(observed, parameter_choices(declared, optional)),
        no_unions(parameter_choices(declared, optional)),
    ensures
        ({
            let reports = param_reports(declared, observed, optional, max_depth);
            let cs = split_parts(declared);
            (exists|k: int| 0 <= k < reports.len() && (#[trigger] reports[k]).unused.contains(text))
                <==> exists|j: int|
                0 <= j < cs.len() && printed(#[trigger] cs[j]) == text && !may_be_passed(
                    observed,
                    cs[j],
                ) && !(optional && cs[j] is Undefined)
        }),
{
    let t = if optional {
        with_undefined(declared)
    } else {
        declared
    };
    let cs = parameter_choices(declared, optional);
    let own = split_parts(declared);
    let reports = param_reports(declared, observed, optional, max_depth);
    law_undefined_is_added(declared, Datum::Null);
    assert(own =~= cs.take(own.len() as int));
    assert(reports == union_report(cs, printed(t), observed, Seq::empty(), optional));
    assert forall|j: int| 0 <= j < cs.len() implies (reported(
        observed,
        cs,
        optional,
        #[trigger] cs[j],
    ) <==> !may_be_passed(observed, cs[j]) && !(optional && cs[j] is Undefined)) by {
        law_reported_iff_no_call_can_pass_it(observed, cs, optional, cs[j]);
    }
    crate::laws::law_union_report_is_exact(
        cs,
        printed(t),
        observed,
        Seq::empty(),
        optional,
        text,
    );
    if exists|j: int|
        0 <= j < own.len() && printed(#[trigger] own[j]) == text && !may_be_passed(
            observed,
            own[j],
        ) && !(optional && own[j] is Undefined) {
        let j = choose|j: int|
            0 <= j < own.len() && printed(#[trigger] own[j]) == text && !may_be_passed(
                observed,
                own[j],
            ) && !(optional && own[j] is Undefined);
        assert(cs[j] == own[j]);
        assert(reported(observed, cs, optional, cs[j]));
    }
    if exists|k: int| 0 <= k < reports.len() && (#[trigger] reports[k]).unused.contains(text) {
        let j = choose|j: int|
            0 <= j < cs.len() && reported(observed, cs, optional, #[trigger] cs[j]) && printed(
                cs[j],
            ) == text;
        if j < own.len() {
            assert(own[j] == cs[j]);
        } else {
            assert(cs[j] is Undefined);
        }
    }
}

// ---------------------------------------------------------------------------
// Properties of values
// ---------------------------------------------------------------------------

/// What an object has under a name.
pub open spec fn under(v: Datum, key: Seq<char>) -> Datum {
    match field(v->Object_0, key) {
        Some(w) => w,
        None => Datum::Undefined,
    }
}

proof fn lemma_in_union(w: Datum, parts: Seq<TyView>, i: int)
    requires
        0 <= i < parts.len(),
        belongs(w, parts[i]),
    ensures
        belongs(w, TyView::Union(deduped(parts))),
{
    law_deduped(parts);
    assert(parts.contains(parts[i]));
    let d = deduped(parts);
    assert(d.contains(parts[i]));
    let j = choose|j: int| 0 <= j < d.len() && d[j] == parts[i];
    let u = TyView::Union(d);
    assert(belongs(w, u->Union_0[j]));
}

/// The values of a union are those of its parts taken together, also where
/// repetitions are left out.
pub proof fn law_deduped_union_keeps_values(v: Datum, parts: Seq<TyView>)
    ensures
        belongs(v, TyView::Union(deduped(parts))) <==> belongs(v, TyView::Union(parts)),
{
    if belongs(v, TyView::Union(parts)) {
        let i = choose|i: int| 0 <= i < parts.len() && belongs(v, #[trigger] parts[i]);
        lemma_in_union(v, parts, i);
    }
    let d = deduped(parts);
    if belongs(v, TyView::Union(d)) {
        law_deduped(parts);
        let j = choose|j: int| 0 <= j < d.len() && belongs(v, #[trigger] d[j]);
        assert(d.contains(d[j]));
        let i = choose|i: int| 0 <= i < parts.len() && parts[i] == d[j];
        let u = TyView::Union(parts);
        assert(belongs(v, u->Union_0[i]));
    }
}

/// The type of a property holds what the values of the type have there.
pub proof fn law_projection_holds_the_property(v: Datum, t: TyView, key: Seq<char>)
    requires
        belongs(v, t),
        v is Object,
    ensures
        belongs(under(v, key), projected(t, key)),
    decreases t,
{
    match t {
        TyView::Object(props) => {
            if find_prop(props, key) is Some {
                let k = lemma_found_is_there(props, key);
                assert(props[k].name == key);
                law_undefined_is_added(props[k].ty, under(v, key));
            }
        },
        TyView::Union(parts) => {
            let i = choose|i: int| 0 <= i < parts.len() && belongs(v, #[trigger] parts[i]);
            lemma_projected_part(v, parts, i, key);
            let all = projected_parts(parts, key);
            let j = choose|j: int| 0 <= j < all.len() && belongs(under(v, key), #[trigger] all[j]);
            lemma_in_union(under(v, key), all, j);
        },
        _ => {},
    }
}

proof fn lemma_projected_part(v: Datum, parts: Seq<TyView>, i: int, key: Seq<char>)
    requires
        0 <= i < parts.len(),
        belongs(v, parts[i]),
        v is Object,
    ensures
        exists|j: int|
            0 <= j < projected_parts(parts, key).len() && belongs(
                under(v, key),
                #[trigger] projected_parts(parts, key)[j],
            ),
    decreases parts,
{
    let all = projected_parts(parts, key);
    let before = projected_parts(parts.drop_last(), key);
    let last = projected(parts[parts.len() - 1], key);
    assert(all == before + split_parts(last));
    if i == parts.len() - 1 {
        law_projection_holds_the_property(v, parts[i], key);
        let w = under(v, key);
        match last {
            TyView::Union(ps) => {
                let j = choose|j: int| 0 <= j < ps.len() && belongs(w, #[trigger] ps[j]);
                assert(all[before.len() + j] == ps[j]);
            },
            _ => {
                assert(all[before.len() as int] == last);
            },
        }
    } else {
        assert(parts.drop_last()[i] == parts[i]);
        lemma_projected_part(v, parts.drop_last(), i, key);
        let j = choose|j: int|
            0 <= j < before.len() && belongs(under(v, key), #[trigger] before[j]);
        assert(all[j] == before[j]);
    }
}

} // verus!
