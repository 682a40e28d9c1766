//! Parameters and function declarations, read from syntax trees.

use vstd::prelude::*;
use vstd::string::*;

use crate::annotation::{
    annotation, annotation_of, constant_value, literal_observed,
};
use crate::json::{Json, JsonView};
use crate::model::{
    views, DeclView, FnDecl, Observed, ObservedView, Owner, OwnerView, ParamInfo, ParamView,
    SkipReason,
};
use crate::source::Source;
use crate::syntax::{plain_key, plain_key_of};

verus! {

broadcast use crate::model::group_model_views;

// ---------------------------------------------------------------------------
// Parameters
// ---------------------------------------------------------------------------

/// Whether a node of a parameter list takes an argument of its own: neither a
/// rest parameter nor the type of `this`.
pub open spec fn is_plain_param(n: JsonView) -> bool {
    !n.is_kind("RestElement"@) && !(n.is_kind("Identifier"@) && n.name() == "this"@)
}

pub open spec fn plain_params(items: Seq<JsonView>) -> Seq<JsonView>
    decreases items.len(),
{
    if items.len() == 0 {
        Seq::empty()
    } else if is_plain_param(items.last()) {
        plain_params(items.drop_last()).push(items.last())
    } else {
        plain_params(items.drop_last())
    }
}

pub open spec fn has_rest(items: Seq<JsonView>) -> bool {
    exists|i: int| 0 <= i < items.len() && (#[trigger] items[i]).is_kind("RestElement"@)
}

/// A parameter without the modifiers that make it a property.
pub open spec fn bare_param(n: JsonView) -> JsonView {
    if n.is_kind("TSParameterProperty"@) {
        n.get("parameter"@)
    } else {
        n
    }
}

/// The pattern of a parameter, without its default.
pub open spec fn param_pattern(n: JsonView) -> JsonView {
    let p = bare_param(n);
    if p.is_kind("AssignmentPattern"@) {
        p.get("left"@)
    } else {
        p
    }
}

/// The default of a parameter; null if it has none.
pub open spec fn param_default(n: JsonView) -> JsonView {
    let p = bare_param(n);
    if p.is_kind("AssignmentPattern"@) {
        p.get("right"@)
    } else {
        JsonView::Null
    }
}

/// The properties of an object pattern, without a rest element.
pub open spec fn pattern_props(items: Seq<JsonView>) -> Seq<JsonView>
    decreases items.len(),
{
    if items.len() == 0 {
        Seq::empty()
    } else if items.last().is_kind("RestElement"@) {
        pattern_props(items.drop_last())
    } else {
        pattern_props(items.drop_last()).push(items.last())
    }
}

/// The identifier keys of properties.
pub open spec fn plain_keys(items: Seq<JsonView>) -> Seq<Seq<char>>
    decreases items.len(),
{
    if items.len() == 0 {
        Seq::empty()
    } else {
        let before = plain_keys(items.drop_last());
        match plain_key(items.last()) {
            Some(k) => before.push(k),
            None => before,
        }
    }
}

/// Texts with commas between them.
pub open spec fn comma_list(list: Seq<Seq<char>>) -> Seq<char>
    decreases list.len(),
{
    if list.len() == 0 {
        Seq::empty()
    } else if list.len() == 1 {
        list[0]
    } else {
        comma_list(list.drop_last()) + ", "@ + list.last()
    }
}

/// The name under which a parameter is shown: its own, or for an object
/// pattern the first three keys.
pub open spec fn pattern_display(p: JsonView) -> Seq<char> {
    if p.is_kind("Identifier"@) {
        p.name()
    } else if p.is_kind("ObjectPattern"@) {
        let items = p.get("properties"@).items();
        let props = pattern_props(items);
        let shown = if props.len() <= 3 {
            props
        } else {
            props.take(3)
        };
        "{"@ + comma_list(plain_keys(shown)) + (if props.len() > 3 || has_rest(items) {
            ", …"@
        } else {
            Seq::<char>::empty()
        }) + "}"@
    } else if p.is_kind("ArrayPattern"@) {
        "[…]"@
    } else {
        Seq::empty()
    }
}

/// What is known of a parameter. Array patterns have no analyzable declared
/// shape; object patterns and identifiers use the annotation as it is.
pub open spec fn param_view(n: JsonView, src: Seq<char>) -> ParamView {
    let p = param_pattern(n);
    let analyzable = !p.is_kind("ArrayPattern"@);
    ParamView {
        name: pattern_display(p),
        ty: if analyzable {
            annotation_of(p, src)
        } else {
            None
        },
        ty_text: if analyzable && !(p.get("typeAnnotation"@) is Null) {
            Some(p.get("typeAnnotation"@).get("typeAnnotation"@).source_text(src))
        } else {
            None
        },
        optional: p.get("optional"@).is_true(),
        default: if param_default(n) is Null {
            None
        } else {
            Some(
                match constant_value(param_default(n), 0) {
                    Some(v) => v,
                    None => ObservedView::Opaque,
                },
            )
        },
    }
}

pub open spec fn param_views(items: Seq<JsonView>, src: Seq<char>) -> Seq<ParamView> {
    Seq::new(items.len(), |i: int| param_view(items[i], src))
}

/// Why a function with the given parameters is left out of the analysis.
pub open spec fn skip_reason(generic: bool, params: Seq<JsonView>) -> Option<SkipReason> {
    if generic {
        Some(SkipReason::Generic)
    } else if has_rest(params) {
        Some(SkipReason::RestParam)
    } else if plain_params(params).len() == 0 {
        Some(SkipReason::NoParams)
    } else {
        None
    }
}

/// The declaration of a function. `at` is the node whose lines it occupies.
pub open spec fn decl_view(
    name: Seq<char>,
    owner: OwnerView,
    f: JsonView,
    at: JsonView,
    exported: bool,
    overloaded: bool,
    src: Seq<char>,
) -> DeclView {
    let params = f.get("params"@).items();
    let skip = if overloaded {
        Some(SkipReason::Overload)
    } else {
        skip_reason(!(f.get("typeParameters"@) is Null), params)
    };
    DeclView {
        name,
        owner,
        params: param_views(plain_params(params), src),
        line: at.start_line(src),
        end_line: at.end_line(src),
        exported,
        skip,
        eligible: skip is None,
    }
}

// ---------------------------------------------------------------------------
// Execution
// ---------------------------------------------------------------------------

pub fn plain_param(n: &Json) -> (r: bool)
    ensures
        r == is_plain_param(n@),
{
    !n.is_kind("RestElement") && !(n.is_kind("Identifier") && n.named("this"))
}

pub fn rest_among(list: &Json) -> (r: bool)
    ensures
        r == has_rest(list@.items()),
{
    let ghost all = list@.items();
    let total: usize = list.count();
    let mut i: usize = 0;
    while i < total
        invariant
            all == list@.items(),
            total == all.len(),
            i <= total,
            forall|j: int| 0 <= j < i ==> !(#[trigger] all[j]).is_kind("RestElement"@),
        decreases total - i,
    {
        if list.at(i).is_kind("RestElement") {
            assert(all[i as int].is_kind("RestElement"@));
            return true;
        }
        i += 1;
    }
    false
}

pub fn bare(n: &Json) -> (r: &Json)
    ensures
        r@ == bare_param(n@),
{
    if n.is_kind("TSParameterProperty") {
        n.get("parameter")
    } else {
        n
    }
}

pub fn pattern_of(n: &Json) -> (r: &Json)
    ensures
        r@ == param_pattern(n@),
{
    let p = bare(n);
    if p.is_kind("AssignmentPattern") {
        p.get("left")
    } else {
        p
    }
}

pub fn default_of(n: &Json) -> (r: &Json)
    ensures
        r@ == param_default(n@),
{
    let p = bare(n);
    if p.is_kind("AssignmentPattern") {
        p.get("right")
    } else {
        &Json::Null
    }
}

/// The shown keys of an object pattern, and the number of its properties.
fn shown_keys(list: &Json) -> (r: (Vec<String>, usize))
    ensures
        r.1 == pattern_props(list@.items()).len(),
        views(r.0@) == plain_keys(
            (if pattern_props(list@.items()).len() <= 3 {
                pattern_props(list@.items())
            } else {
                pattern_props(list@.items()).take(3)
            }),
        ),
{
    let ghost all = list@.items();
    let mut keys: Vec<String> = Vec::new();
    let mut n: usize = 0;
    let total: usize = list.count();
    let mut i: usize = 0;
    proof {
        assert(views(keys@) =~= plain_keys(pattern_props(all.take(0))));
    }
    while i < total
        invariant
            all == list@.items(),
            total == all.len(),
            i <= total,
            n <= i,
            n == pattern_props(all.take(i as int)).len(),
            views(keys@) == plain_keys(
                (if n <= 3 {
                    pattern_props(all.take(i as int))
                } else {
                    pattern_props(all.take(i as int)).take(3)
                }),
            ),
        decreases total - i,
    {
        let prop = list.at(i);
        let ghost before = pattern_props(all.take(i as int));
        proof {
            assert(all.take(i + 1).drop_last() =~= all.take(i as int));
            assert(all.take(i + 1).last() == prop@);
        }
        if !prop.is_kind("RestElement") {
            proof {
                let after = before.push(prop@);
                assert(after == pattern_props(all.take(i + 1)));
                assert(after.drop_last() =~= before);
                if n == 3 {
                    assert(after.take(3) =~= before);
                }
                if n > 3 {
                    assert(after.take(3) =~= before.take(3));
                }
            }
            if n < 3 {
                if let Some(k) = plain_key_of(prop) {
                    let ghost so_far = views(keys@);
                    keys.push(k);
                    assert(views(keys@) =~= so_far.push(k@));
                }
            }
            n += 1;
        }
        i += 1;
    }
    assert(all.take(i as int) =~= all);
    (keys, n)
}

fn join_commas(list: &Vec<String>) -> (r: String)
    ensures
        r@ == comma_list(views(list@)),
{
    let ghost all = views(list@);
    let mut out: String = String::new();
    assert(out@ =~= comma_list(all.take(0)));
    let mut i: usize = 0;
    while i < list.len()
        invariant
            all == views(list@),
            i <= list@.len(),
            out@ == comma_list(all.take(i as int)),
        decreases list@.len() - i,
    {
        if i > 0 {
            out.append(", ");
        }
        out.append(list[i].as_str());
        proof {
            assert(all.take(i + 1).drop_last() =~= all.take(i as int));
            assert(all.take(i + 1).last() == list@[i as int]@);
            assert(out@ =~= comma_list(all.take(i + 1)));
        }
        i += 1;
    }
    assert(all.take(i as int) =~= all);
    out
}

/// The name under which a parameter is shown.
fn display(p: &Json) -> (r: String)
    ensures
        r@ == pattern_display(p@),
{
    if p.is_kind("Identifier") {
        p.name()
    } else if p.is_kind("ObjectPattern") {
        let list = p.get("properties");
        let (keys, n) = shown_keys(list);
        let mut out: String = String::from_str("{");
        out.append(join_commas(&keys).as_str());
        if n > 3 || rest_among(list) {
            out.append(", …");
        }
        out.append("}");
        assert(out@ =~= pattern_display(p@));
        out
    } else if p.is_kind("ArrayPattern") {
        String::from_str("[…]")
    } else {
        String::new()
    }
}

fn extract_param(n: &Json, src: &Source) -> (r: ParamInfo)
    requires
        src.well_formed(),
    ensures
        r@ == param_view(n@, src@),
{
    let p = pattern_of(n);
    let analyzable = !p.is_kind("ArrayPattern");
    let (ty, ty_text) = if analyzable && !p.get("typeAnnotation").is_null() {
        (
            annotation(p, src),
            Some(p.get("typeAnnotation").get("typeAnnotation").source_text(src)),
        )
    } else {
        (None, None)
    };
    let init = default_of(n);
    let default = if init.is_null() {
        None
    } else {
        match literal_observed(init, 0) {
            Some(v) => Some(v),
            None => Some(Observed::Opaque),
        }
    };
    ParamInfo { name: display(p), ty, ty_text, optional: p.get("optional").is_true(), default }
}

/// Reads the parameters of a function.
fn extract_params(list: &Json, src: &Source) -> (r: Vec<ParamInfo>)
    requires
        src.well_formed(),
    ensures
        views(r@) == param_views(plain_params(list@.items()), src@),
{
    let ghost all = list@.items();
    let mut out: Vec<ParamInfo> = Vec::new();
    let total: usize = list.count();
    let mut i: usize = 0;
    assert(views(out@) =~= param_views(plain_params(all.take(0)), src@));
    while i < total
        invariant
            src.well_formed(),
            all == list@.items(),
            total == all.len(),
            i <= total,
            views(out@) == param_views(plain_params(all.take(i as int)), src@),
        decreases total - i,
    {
        let n = list.at(i);
        proof {
            assert(all.take(i + 1).drop_last() =~= all.take(i as int));
            assert(all.take(i + 1).last() == n@);
        }
        if plain_param(n) {
            let p = extract_param(n, src);
            let ghost before = views(out@);
            out.push(p);
            proof {
                assert(views(out@) =~= before.push(p@));
                assert(views(out@) =~= param_views(plain_params(all.take(i + 1)), src@));
            }
        }
        i += 1;
    }
    assert(all.take(i as int) =~= all);
    out
}

fn skip_reason_of(generic: bool, list: &Json) -> (r: Option<SkipReason>)
    ensures
        r == skip_reason(generic, list@.items()),
{
    if generic {
        return Some(SkipReason::Generic);
    }
    if rest_among(list) {
        return Some(SkipReason::RestParam);
    }
    let ghost all = list@.items();
    let total: usize = list.count();
    let mut i: usize = 0;
    while i < total
        invariant
            all == list@.items(),
            total == all.len(),
            i <= total,
            plain_params(all.take(i as int)).len() == 0,
            !generic,
            !has_rest(all),
        decreases total - i,
    {
        proof {
            assert(all.take(i + 1).drop_last() =~= all.take(i as int));
            assert(all.take(i + 1).last() == all[i as int]);
        }
        if plain_param(list.at(i)) {
            proof {
                lemma_plain_params_grow(all, i + 1);
            }
            return None;
        }
        i += 1;
    }
    assert(all.take(i as int) =~= all);
    Some(SkipReason::NoParams)
}

proof fn lemma_plain_params_grow(items: Seq<JsonView>, k: int)
    requires
        0 <= k <= items.len(),
    ensures
        plain_params(items.take(k)).len() <= plain_params(items).len(),
    decreases items.len() - k,
{
    if k == items.len() {
        assert(items.take(k) =~= items);
    } else {
        assert(items.take(k + 1).drop_last() =~= items.take(k));
        lemma_plain_params_grow(items, k + 1);
    }
}

/// Reads the declaration of a function.
pub fn extract_decl(
    name: String,
    owner: Owner,
    f: &Json,
    at: &Json,
    exported: bool,
    overloaded: bool,
    src: &Source,
) -> (r: FnDecl)
    requires
        src.well_formed(),
    ensures
        r@ == decl_view(name@, owner@, f@, at@, exported, overloaded, src@),
{
    let list = f.get("params");
    let skip = if overloaded {
        Some(SkipReason::Overload)
    } else {
        skip_reason_of(!f.get("typeParameters").is_null(), list)
    };
    FnDecl {
        name,
        owner,
        params: extract_params(list, src),
        line: at.start_line(src),
        end_line: at.end_line(src),
        exported,
        skip,
        eligible: skip.is_none(),
    }
}

} // verus!
