//! Which methods are warned about for a missing `Unpin` bound.

use crate::analysis::laws::common::{
    is_adt, is_new_unchecked, is_pinned, lemma_contains_append, lemma_items_met, lemma_pinned_sites,
    lemma_quotes, met_first, quotes,
};
use crate::analysis::missing_unpin_bound::{self, projection_hazard, return_hazard};
use crate::analysis::paths::lemma_pin_paths;
use crate::analysis::util::{calls_pin_new_unchecked, items_of, pinned_fields_of};
use crate::diagnostic::DiagnosticView;
use crate::model::{
    Crate, Expr, FieldDef, FnDecl, HirTyKind, ImplItem, ImplItemKind, ItemKind, Predicate, TyId,
    TyKind, TyTable, TypeParam,
};
use crate::search::{first_at, lemma_first_absent, lemma_first_found};
use vstd::prelude::*;

verus! {

/// The type is the type parameter with the given index.
pub open spec fn is_param(types: TyTable, ty: TyId, index: u32) -> bool {
    ty < types.types@.len() && match types.types@[ty as int].kind {
        TyKind::Param { index: i, .. } => i == index,
        _ => false,
    }
}

/// The method's where-clauses demand that the type, or the same type parameter, is `Unpin`.
pub open spec fn demands(krate: Crate, method: FnDecl, ty: TyId) -> bool {
    exists|i: int|
        0 <= i < method.predicates@.len() && match #[trigger] method.predicates@[i] {
            Predicate::Trait { trait_id, self_ty } => krate.lang.unpin_trait == Some(trait_id) && (
            self_ty == ty || exists|index: u32|
                #[trigger] is_param(krate.types, ty, index) && is_param(krate.types, self_ty, index)),
            Predicate::Other => false,
        }
}

/// A value of the type `output` gives away one of the type `field`: it is one, or it is a struct,
/// enum, union or tuple with one directly inside.
pub open spec fn gives_away(types: TyTable, output: TyId, field: TyId) -> bool {
    ||| output == field
    ||| output < types.types@.len() && match types.types@[output as int].kind {
        TyKind::Adt { variants, .. } => exists|v: int, f: int|
            0 <= v < variants@.len() && 0 <= f < variants@[v]@.len() && #[trigger] variants@[v]@[f]
                == field,
        TyKind::Tuple(elems) => exists|i: int|
            0 <= i < elems@.len() && #[trigger] elems@[i] == field,
        _ => false,
    }
}

/// The method's first parameter is written as a mutable reference.
pub open spec fn takes_mut(method: FnDecl) -> bool {
    match method.first_input {
        Some(ty) => match ty.kind {
            HirTyKind::Ref { mutable, .. } => mutable == true,
            _ => false,
        },
        None => false,
    }
}

/// The method's body calls `Pin::new_unchecked`.
pub open spec fn calls_new_unchecked(method: FnDecl) -> bool {
    exists|e: int|
        0 <= e < method.exprs@.len() && match #[trigger] method.exprs@[e] {
            Expr::Call { callee, .. } => match *callee {
                Expr::Path(Some(def)) => is_new_unchecked(def.path@),
                _ => false,
            },
            _ => false,
        }
}

/// Nothing but the given promises to callers makes the field safe from the method: it is pinned,
/// and the method does not demand that it is `Unpin`.
pub open spec fn is_open(
    krate: Crate,
    pinned: Set<(u64, Seq<char>)>,
    adt: u64,
    method: FnDecl,
    field: FieldDef,
) -> bool {
    pinned.contains((adt, field.name@)) && !demands(krate, method, field.ty)
}

proof fn lemma_method_terms(krate: Crate, method: FnDecl, ty: TyId)
    ensures
        missing_unpin_bound::bounds_unpin(krate, method, ty) <==> demands(krate, method, ty),
        missing_unpin_bound::exposes(krate.types, method.output, ty) <==> gives_away(
            krate.types,
            method.output,
            ty,
        ),
        missing_unpin_bound::takes_mut_ref(method) <==> takes_mut(method),
        missing_unpin_bound::projects(method) <==> calls_new_unchecked(method),
{
    let types = krate.types;
    assert forall|i: int| 0 <= i < method.predicates@.len() implies (
    missing_unpin_bound::demands_unpin(krate, #[trigger] method.predicates@[i], ty) <==> match method.predicates@[i] {
        Predicate::Trait { trait_id, self_ty } => krate.lang.unpin_trait == Some(trait_id) && (
        self_ty == ty || exists|index: u32|
            #[trigger] is_param(types, ty, index) && is_param(types, self_ty, index)),
        Predicate::Other => false,
    }) by {
        match method.predicates@[i] {
            Predicate::Trait { trait_id, self_ty } => {
                if missing_unpin_bound::same_param(types, ty, self_ty) {
                    match types.kind_of(ty) {
                        Some(TyKind::Param { index, .. }) => {
                            assert(is_param(types, ty, index));
                        },
                        _ => {},
                    }
                }
            },
            Predicate::Other => {},
        }
    }
    match types.kind_of(method.output) {
        Some(TyKind::Tuple(elems)) => {
            if elems@.contains(ty) {
                assert(elems@[elems@.index_of(ty)] == ty);
            }
            if gives_away(types, method.output, ty) && method.output != ty {
                let i = choose|i: int| 0 <= i < elems@.len() && #[trigger] elems@[i] == ty;
                assert(elems@.contains(ty));
            }
        },
        _ => {},
    }
    assert forall|e: int| 0 <= e < method.exprs@.len() implies (
    calls_pin_new_unchecked(#[trigger] method.exprs@[e])
        <==> match method.exprs@[e] {
        Expr::Call { callee, .. } => match *callee {
            Expr::Path(Some(def)) => is_new_unchecked(def.path@),
            _ => false,
        },
        _ => false,
    }) by {
        match method.exprs@[e] {
            Expr::Call { callee, .. } => {
                match *callee {
                    Expr::Path(Some(def)) => {
                        lemma_pin_paths(def.path@);
                    },
                    _ => {},
                }
            },
            _ => {},
        }
    }
}

/// A method is warned about exactly when there is a pinned field that it does not demand to be
/// `Unpin`, and it either gives the field's type away, or takes a mutable reference first and
/// calls `Pin::new_unchecked`.
pub proof fn lemma_method_warned_iff(
    krate: Crate,
    pinned: Set<(u64, Seq<char>)>,
    adt: u64,
    method: FnDecl,
)
    ensures
        missing_unpin_bound::method_report(krate, pinned, adt, method) is Some <==> exists|f: int|
            {
                &&& 0 <= f < krate.fields_of(adt).len()
                &&& is_open(krate, pinned, adt, method, #[trigger] krate.fields_of(adt)[f])
                &&& gives_away(krate.types, method.output, krate.fields_of(adt)[f].ty) || (
                takes_mut(method) && calls_new_unchecked(method))
            },
{
    let fields = krate.fields_of(adt);
    let exposed = missing_unpin_bound::unbounded_exposed(krate, pinned, adt, method);
    let unbounded = missing_unpin_bound::unbounded_pinned(krate, pinned, adt, method);
    assert forall|f: int| 0 <= f < fields.len() implies (exposed(#[trigger] fields[f]) <==> is_open(
        krate,
        pinned,
        adt,
        method,
        fields[f],
    ) && gives_away(krate.types, method.output, fields[f].ty)) && (unbounded(fields[f])
        <==> is_open(krate, pinned, adt, method, fields[f])) by {
        lemma_method_terms(krate, method, fields[f].ty);
    }
    lemma_method_terms(krate, method, 0);
    lemma_first_absent(fields, exposed);
    lemma_first_absent(fields, unbounded);
}

/// A method whose first parameter is not written as a mutable reference, be it a shared
/// reference, a path such as `Pin<&mut Self>`, `self` or nothing, and that gives no pinned
/// field's type away, is not warned about, whatever its body calls.
pub proof fn lemma_other_receivers_not_warned(
    krate: Crate,
    pinned: Set<(u64, Seq<char>)>,
    adt: u64,
    method: FnDecl,
)
    requires
        match method.first_input {
            Some(ty) => match ty.kind {
                HirTyKind::Ref { mutable, .. } => !mutable,
                _ => true,
            },
            None => true,
        },
        forall|f: int|
            0 <= f < krate.fields_of(adt).len() && pinned.contains(
                (adt, (#[trigger] krate.fields_of(adt)[f]).name@),
            ) ==> !gives_away(krate.types, method.output, krate.fields_of(adt)[f].ty),
    ensures
        missing_unpin_bound::method_report(krate, pinned, adt, method) is None,
{
    lemma_method_warned_iff(krate, pinned, adt, method);
}

/// The warning is on the first field in question: giving a field's type away goes before
/// projecting through one.
pub proof fn lemma_first_field_named(
    krate: Crate,
    pinned: Set<(u64, Seq<char>)>,
    adt: u64,
    method: FnDecl,
    f: int,
)
    requires
        0 <= f < krate.fields_of(adt).len(),
        is_open(krate, pinned, adt, method, krate.fields_of(adt)[f]),
    ensures
        gives_away(krate.types, method.output, krate.fields_of(adt)[f].ty) && (forall|j: int|
            0 <= j < f ==> !(is_open(krate, pinned, adt, method, #[trigger] krate.fields_of(adt)[j])
                && gives_away(krate.types, method.output, krate.fields_of(adt)[j].ty)))
            ==> missing_unpin_bound::method_report(krate, pinned, adt, method) == Some(
            return_hazard(
                method.span,
                krate.fields_of(adt)[f].name@,
                missing_unpin_bound::bound_target_of(krate, adt, krate.fields_of(adt)[f].ty),
            ),
        ),
        takes_mut(method) && calls_new_unchecked(method) && (forall|j: int|
            0 <= j < krate.fields_of(adt).len() && is_open(
                krate,
                pinned,
                adt,
                method,
                #[trigger] krate.fields_of(adt)[j],
            ) ==> j >= f && !gives_away(
                krate.types,
                method.output,
                krate.fields_of(adt)[j].ty,
            )) ==> missing_unpin_bound::method_report(krate, pinned, adt, method) == Some(
            projection_hazard(
                method.span,
                missing_unpin_bound::bound_target_of(krate, adt, krate.fields_of(adt)[f].ty),
            ),
        ),
{
    let fields = krate.fields_of(adt);
    let exposed = missing_unpin_bound::unbounded_exposed(krate, pinned, adt, method);
    let unbounded = missing_unpin_bound::unbounded_pinned(krate, pinned, adt, method);
    assert forall|j: int| 0 <= j < fields.len() implies (exposed(#[trigger] fields[j]) <==> is_open(
        krate,
        pinned,
        adt,
        method,
        fields[j],
    ) && gives_away(krate.types, method.output, fields[j].ty)) && (unbounded(fields[j])
        <==> is_open(krate, pinned, adt, method, fields[j])) by {
        lemma_method_terms(krate, method, fields[j].ty);
    }
    lemma_method_terms(krate, method, 0);
    lemma_first_absent(fields, exposed);
    if gives_away(krate.types, method.output, fields[f].ty) && (forall|j: int|
        0 <= j < f ==> !(is_open(krate, pinned, adt, method, #[trigger] fields[j]) && gives_away(
            krate.types,
            method.output,
            fields[j].ty,
        ))) {
        assert(first_at(fields, exposed, f));
        lemma_first_found(fields, exposed, f);
    }
    if takes_mut(method) && calls_new_unchecked(method) && (forall|j: int|
        0 <= j < fields.len() && is_open(krate, pinned, adt, method, #[trigger] fields[j]) ==> j
            >= f && !gives_away(krate.types, method.output, fields[j].ty)) {
        assert(first_at(fields, unbounded, f));
        lemma_first_found(fields, unbounded, f);
    }
}

/// What a warning asks to be `Unpin` is the declared name of the field's type parameter, the last
/// one with its index, and the printed type where there is none.
pub proof fn lemma_bound_target(krate: Crate, adt: u64, ty: TyId, index: u32, k: int)
    requires
        is_param(krate.types, ty, index),
    ensures
        0 <= k < krate.type_params_of(adt).len() && krate.type_params_of(adt)[k].index == index && (
        forall|j: int|
            k < j < krate.type_params_of(adt).len() ==> (#[trigger] krate.type_params_of(
                adt,
            )[j]).index != index) ==> missing_unpin_bound::bound_target_of(krate, adt, ty)
            == krate.type_params_of(adt)[k].name@,
        (forall|j: int|
            0 <= j < krate.type_params_of(adt).len() ==> (#[trigger] krate.type_params_of(
                adt,
            )[j]).index != index) ==> missing_unpin_bound::bound_target_of(krate, adt, ty)
            == krate.types.types@[ty as int].text@,
{
    let params = krate.type_params_of(adt);
    if 0 <= k < params.len() && params[k].index == index && (forall|j: int|
        k < j < params.len() ==> (#[trigger] params[j]).index != index) {
        lemma_param_name(params, index, k);
    }
    if forall|j: int| 0 <= j < params.len() ==> (#[trigger] params[j]).index != index {
        lemma_param_name(params, index, -1);
    }
}

proof fn lemma_param_name(params: Seq<TypeParam>, index: u32, k: int)
    requires
        -1 <= k < params.len(),
        k >= 0 ==> params[k].index == index,
        forall|j: int| k < j < params.len() ==> (#[trigger] params[j]).index != index,
    ensures
        missing_unpin_bound::param_name(params, index) == if k >= 0 {
            Some(params[k].name@)
        } else {
            None
        },
    decreases params.len(),
{
    if params.len() > 0 && k < params.len() - 1 {
        assert(params[params.len() - 1] == params.last());
        let rest = params.drop_last();
        assert forall|j: int| k < j < rest.len() implies (#[trigger] rest[j]).index != index by {
            assert(rest[j] == params[j]);
        }
        lemma_param_name(rest, index, k);
    }
}

/// The members of two lists are warned about as those of each: a safe method by itself gets its
/// own warning, and an unsafe method or another member gets none.
pub proof fn lemma_members_by_themselves(
    krate: Crate,
    pinned: Set<(u64, Seq<char>)>,
    adt: u64,
    a: Seq<ImplItem>,
    member: ImplItem,
    b: Seq<ImplItem>,
)
    ensures
        missing_unpin_bound::member_reports(krate, pinned, adt, a + seq![member] + b)
            == missing_unpin_bound::member_reports(krate, pinned, adt, a) + (match member.kind {
            ImplItemKind::Fn(method) => if method.is_unsafe {
                Seq::empty()
            } else {
                match missing_unpin_bound::method_report(krate, pinned, adt, method) {
                    Some(d) => seq![d],
                    None => Seq::empty(),
                }
            },
            ImplItemKind::Other => Seq::empty(),
        }) + missing_unpin_bound::member_reports(krate, pinned, adt, b),
    decreases b.len(),
{
    let all = a + seq![member] + b;
    if b.len() == 0 {
        assert(all.drop_last() =~= a);
        assert(all.last() == member);
        let r = missing_unpin_bound::member_reports(krate, pinned, adt, all);
        assert(r + Seq::<DiagnosticView>::empty() =~= r);
    } else {
        assert(all.drop_last() =~= a + seq![member] + b.drop_last());
        assert(all.last() == b.last());
        lemma_members_by_themselves(krate, pinned, adt, a, member, b.drop_last());
    }
}

/// The items of two lists are warned about as those of each; by itself, an inherent impl for a
/// struct, enum or union has the warnings on its members, and nothing else has any.
pub proof fn lemma_missing_items_by_themselves(
    krate: Crate,
    pinned: Set<(u64, Seq<char>)>,
    a: Seq<usize>,
    i: usize,
    b: Seq<usize>,
)
    ensures
        missing_unpin_bound::reports(krate, pinned, a + seq![i] + b)
            == missing_unpin_bound::reports(krate, pinned, a) + missing_unpin_bound::reports(
            krate,
            pinned,
            seq![i],
        ) + missing_unpin_bound::reports(krate, pinned, b),
        forall|adt: u64|
            #![trigger is_adt(krate.types, (krate.items@[i as int].kind->Impl_0).self_ty, adt)]
            krate.items@[i as int].kind is Impl && (krate.items@[i as int].kind->Impl_0).of_trait
                is None && is_adt(
                krate.types,
                (krate.items@[i as int].kind->Impl_0).self_ty,
                adt,
            ) ==> missing_unpin_bound::reports(krate, pinned, seq![i])
                == missing_unpin_bound::member_reports(
                krate,
                pinned,
                adt,
                (krate.items@[i as int].kind->Impl_0).items@,
            ),
        (krate.items@[i as int].kind !is Impl || (krate.items@[i as int].kind->Impl_0).of_trait
            is Some || forall|adt: u64|
            !is_adt(krate.types, (krate.items@[i as int].kind->Impl_0).self_ty, adt))
            ==> missing_unpin_bound::reports(krate, pinned, seq![i]) == Seq::<
            DiagnosticView,
        >::empty(),
    decreases b.len(),
{
    let one = missing_unpin_bound::reports(krate, pinned, seq![i]);
    let kind = krate.items@[i as int].kind;
    assert(seq![i].drop_last() =~= Seq::empty());
    assert(missing_unpin_bound::reports(krate, pinned, Seq::empty()) =~= Seq::empty());
    assert(one =~= missing_unpin_bound::item_reports(krate, pinned, kind));
    if kind is Impl {
        let ty = (kind->Impl_0).self_ty;
        match krate.types.adt_of(ty) {
            Some(id) => {
                assert(is_adt(krate.types, ty, id));
            },
            None => {},
        }
    }
    let all = a + seq![i] + b;
    if b.len() == 0 {
        assert(all.drop_last() =~= a);
        assert(all.last() == i);
        let r = missing_unpin_bound::reports(krate, pinned, all);
        assert(r + Seq::<DiagnosticView>::empty() =~= r);
    } else {
        assert(all.drop_last() =~= a + seq![i] + b.drop_last());
        assert(all.last() == b.last());
        lemma_missing_items_by_themselves(krate, pinned, a, i, b.drop_last());
        assert(missing_unpin_bound::reports(krate, pinned, all) =~= missing_unpin_bound::reports(
            krate,
            pinned,
            a,
        ) + one + missing_unpin_bound::reports(krate, pinned, b));
    }
}

/// The item is an inherent impl for the type, and the method is one of its members.
pub open spec fn inherent_method(krate: Crate, i: int, m: int, adt: u64, method: FnDecl) -> bool {
    &&& met_first(krate, i)
    &&& match krate.items@[i].kind {
        ItemKind::Impl(data) => {
            &&& data.of_trait is None
            &&& is_adt(krate.types, data.self_ty, adt)
            &&& 0 <= m < data.items@.len()
            &&& data.items@[m].kind == ImplItemKind::Fn(method)
        },
        _ => false,
    }
}

/// A safe method endangers a pinned field of the type.
pub open spec fn endangers(krate: Crate, adt: u64, method: FnDecl) -> bool {
    !method.is_unsafe && exists|f: int|
        {
            &&& 0 <= f < krate.fields_of(adt).len()
            &&& is_pinned(krate, adt, (#[trigger] krate.fields_of(adt)[f]).name@)
            &&& !demands(krate, method, krate.fields_of(adt)[f].ty)
            &&& gives_away(krate.types, method.output, krate.fields_of(adt)[f].ty) || (takes_mut(
                method,
            ) && calls_new_unchecked(method))
        }
}

/// The crate has a warning on missing bounds at a place exactly when some inherent method there
/// endangers a pinned field.
pub proof fn lemma_missing_bounds_found(krate: Crate, span: u64)
    ensures
        (exists|d: DiagnosticView| #[trigger]
            missing_unpin_bound::crate_reports(krate).contains(d) && d.span == span)
            <==> exists|i: int, m: int, adt: u64, method: FnDecl| #[trigger]
            inherent_method(krate, i, m, adt, method) && endangers(krate, adt, method)
                && method.span == span,
{
    let pinned = pinned_fields_of(krate);
    let order = items_of(krate);
    lemma_items_met(krate);
    if exists|d: DiagnosticView| #[trigger]
        missing_unpin_bound::crate_reports(krate).contains(d) && d.span == span {
        let d = choose|d: DiagnosticView| #[trigger]
            missing_unpin_bound::crate_reports(krate).contains(d) && d.span == span;
        lemma_missing_in_items(krate, pinned, order, d);
        let k = choose|k: int|
            0 <= k < order.len() && missing_unpin_bound::item_reports(
                krate,
                pinned,
                krate.items@[#[trigger] order[k] as int].kind,
            ).contains(d);
        let i = order[k] as int;
        assert(order.contains(order[k]));
        match krate.items@[i].kind {
            ItemKind::Impl(data) => {
                let adt = krate.types.adt_of(data.self_ty)->0;
                lemma_missing_in_members(krate, pinned, adt, data.items@, d);
                let m = choose|m: int|
                    0 <= m < data.items@.len() && member_warned(
                        krate,
                        pinned,
                        adt,
                        #[trigger] data.items@[m],
                        d,
                    );
                match data.items@[m].kind {
                    ImplItemKind::Fn(method) => {
                        assert(inherent_method(krate, i, m, adt, method));
                        lemma_endangers(krate, adt, method);
                    },
                    ImplItemKind::Other => {},
                }
            },
            _ => {},
        }
    }
    if exists|i: int, m: int, adt: u64, method: FnDecl| #[trigger]
        inherent_method(krate, i, m, adt, method) && endangers(krate, adt, method) && method.span
            == span {
        let (i, m, adt, method) = choose|i: int, m: int, adt: u64, method: FnDecl| #[trigger]
            inherent_method(krate, i, m, adt, method) && endangers(krate, adt, method)
                && method.span == span;
        lemma_endangers(krate, adt, method);
        let d = missing_unpin_bound::method_report(krate, pinned, adt, method)->0;
        match krate.items@[i].kind {
            ItemKind::Impl(data) => {
                assert(krate.items@.len() == krate.items.len());
                assert(member_warned(krate, pinned, adt, data.items@[m], d));
                lemma_missing_in_members(krate, pinned, adt, data.items@, d);
                assert(order.contains(i as usize));
                let k = order.index_of(i as usize);
                assert(order[k] == i as usize);
                lemma_missing_in_items(krate, pinned, order, d);
                assert(missing_unpin_bound::crate_reports(krate).contains(d));
            },
            _ => {},
        }
    }
}

proof fn lemma_endangers(krate: Crate, adt: u64, method: FnDecl)
    ensures
        endangers(krate, adt, method) <==> !method.is_unsafe && missing_unpin_bound::method_report(
            krate,
            pinned_fields_of(krate),
            adt,
            method,
        ) is Some,
        missing_unpin_bound::method_report(krate, pinned_fields_of(krate), adt, method) matches Some(
            d,
        ) ==> d.span == method.span,
{
    lemma_method_warned_iff(krate, pinned_fields_of(krate), adt, method);
    assert forall|f: int| 0 <= f < krate.fields_of(adt).len() implies (pinned_fields_of(
        krate,
    ).contains((adt, (#[trigger] krate.fields_of(adt)[f]).name@)) <==> is_pinned(
        krate,
        adt,
        krate.fields_of(adt)[f].name@,
    )) by {
        lemma_pinned_sites(krate, adt, krate.fields_of(adt)[f].name@);
    }
}

/// The member is a safe method with the given warning.
spec fn member_warned(
    krate: Crate,
    pinned: Set<(u64, Seq<char>)>,
    adt: u64,
    member: ImplItem,
    d: DiagnosticView,
) -> bool {
    match member.kind {
        ImplItemKind::Fn(method) => !method.is_unsafe && missing_unpin_bound::method_report(
            krate,
            pinned,
            adt,
            method,
        ) == Some(d),
        ImplItemKind::Other => false,
    }
}

proof fn lemma_missing_in_members(
    krate: Crate,
    pinned: Set<(u64, Seq<char>)>,
    adt: u64,
    members: Seq<ImplItem>,
    d: DiagnosticView,
)
    ensures
        missing_unpin_bound::member_reports(krate, pinned, adt, members).contains(d)
            <==> exists|m: int|
            0 <= m < members.len() && member_warned(krate, pinned, adt, #[trigger] members[m], d),
    decreases members.len(),
{
    if members.len() > 0 {
        let rest = members.drop_last();
        let before = missing_unpin_bound::member_reports(krate, pinned, adt, rest);
        let all = missing_unpin_bound::member_reports(krate, pinned, adt, members);
        lemma_missing_in_members(krate, pinned, adt, rest, d);
        assert(members[members.len() - 1] == members.last());
        assert(forall|m: int| 0 <= m < rest.len() ==> rest[m] == members[m]);
        lemma_contains_append(before, all.skip(before.len() as int), d);
        assert(all =~= before + all.skip(before.len() as int));
        let added = all.skip(before.len() as int);
        if member_warned(krate, pinned, adt, members.last(), d) {
            assert(added[0] == d);
        }
    }
}

proof fn lemma_missing_in_items(
    krate: Crate,
    pinned: Set<(u64, Seq<char>)>,
    order: Seq<usize>,
    d: DiagnosticView,
)
    ensures
        missing_unpin_bound::reports(krate, pinned, order).contains(d) <==> exists|k: int|
            0 <= k < order.len() && missing_unpin_bound::item_reports(
                krate,
                pinned,
                krate.items@[#[trigger] order[k] as int].kind,
            ).contains(d),
    decreases order.len(),
{
    if order.len() > 0 {
        let rest = order.drop_last();
        let before = missing_unpin_bound::reports(krate, pinned, rest);
        let added = missing_unpin_bound::item_reports(
            krate,
            pinned,
            krate.items@[order.last() as int].kind,
        );
        lemma_missing_in_items(krate, pinned, rest, d);
        assert(order[order.len() - 1] == order.last());
        assert(forall|k: int| 0 <= k < rest.len() ==> rest[k] == order[k]);
        lemma_contains_append(before, added, d);
    }
}

/// The warning on a method that gives a pinned field away stands at the method, names the field,
/// and asks for the bound on the type that is to be bounded.
pub proof fn lemma_return_hazard_says(span: u64, field: Seq<char>, target: Seq<char>)
    ensures
        return_hazard(span, field, target).span == span,
        return_hazard(span, field, target).notes.len() == 2,
        return_hazard(span, field, target).notes[0].span is None,
        return_hazard(span, field, target).notes[1].span is None,
        quotes(return_hazard(span, field, target).notes[0].text, field),
        quotes(return_hazard(span, field, target).notes[0].text, target + ": Unpin"@),
        quotes(return_hazard(span, field, target).help, "where "@ + target + ": Unpin"@),
{
    let text = return_hazard(span, field, target).notes[0].text;
    let first = "field `"@;
    let middle = "` is structurally pinned (it is the target of \
                 `Pin::new_unchecked` projection elsewhere on this type), so any \
                 method that exposes it by ownership requires `"@;
    let last = ": Unpin` \
                 in its where-clause"@;
    reveal_strlit("field `");
    reveal_strlit(
        "` is structurally pinned (it is the target of \
                 `Pin::new_unchecked` projection elsewhere on this type), so any \
                 method that exposes it by ownership requires `",
    );
    reveal_strlit(": Unpin` \
                 in its where-clause");
    reveal_strlit(": Unpin");
    assert(text =~= first + field + (middle + target + last));
    lemma_quotes(first, field, middle + target + last);
    assert(last =~= ": Unpin"@ + last.skip(7));
    assert(text =~= (first + field + middle) + (target + ": Unpin"@) + last.skip(7));
    lemma_quotes(first + field + middle, target + ": Unpin"@, last.skip(7));
    let help = return_hazard(span, field, target).help;
    let start = "add `where "@;
    let end = ": Unpin` to this method's signature, or \
                 mark the method `unsafe`"@;
    reveal_strlit("add `where ");
    reveal_strlit("where ");
    reveal_strlit(
        ": Unpin` to this method's signature, or \
                 mark the method `unsafe`",
    );
    assert(start =~= start.take(5) + "where "@);
    assert(end =~= ": Unpin"@ + end.skip(7));
    assert(help =~= start.take(5) + ("where "@ + target + ": Unpin"@) + end.skip(7));
    lemma_quotes(start.take(5), "where "@ + target + ": Unpin"@, end.skip(7));
}

/// The warning on a method that projects through a pinned field stands at the method and names
/// the type that is to be bounded.
pub proof fn lemma_projection_hazard_says(span: u64, target: Seq<char>)
    ensures
        projection_hazard(span, target).span == span,
        projection_hazard(span, target).notes.len() == 2,
        projection_hazard(span, target).notes[0].span is None,
        projection_hazard(span, target).notes[1].span is None,
        quotes(projection_hazard(span, target).notes[0].text, target),
        quotes(projection_hazard(span, target).help, "where "@ + target + ": Unpin"@),
{
    let before = "the body calls `Pin::new_unchecked` on a field whose type \
                 (`"@;
    let after = "`) is treated as structurally pinned elsewhere, \
                 but this method's receiver is `&mut self` rather than \
                 `Pin<&mut Self>` — pinning here does not retroactively pin \
                 the underlying storage"@;
    reveal_strlit(
        "the body calls `Pin::new_unchecked` on a field whose type \
                 (`",
    );
    reveal_strlit(
        "`) is treated as structurally pinned elsewhere, \
                 but this method's receiver is `&mut self` rather than \
                 `Pin<&mut Self>` — pinning here does not retroactively pin \
                 the underlying storage",
    );
    lemma_quotes(before, target, after);
    let help = projection_hazard(span, target).help;
    let start = "either add `where Self: Unpin` (or `where "@;
    let end = ": Unpin`) \
                 to this method, change the receiver to `Pin<&mut Self>`, or mark \
                 the method `unsafe`"@;
    reveal_strlit("either add `where Self: Unpin` (or `where ");
    reveal_strlit("where ");
    reveal_strlit(": Unpin");
    reveal_strlit(
        ": Unpin`) \
                 to this method, change the receiver to `Pin<&mut Self>`, or mark \
                 the method `unsafe`",
    );
    assert(start =~= start.take(start.len() - 6) + "where "@);
    assert(end =~= ": Unpin"@ + end.skip(7));
    assert(help =~= start.take(start.len() - 6) + ("where "@ + target + ": Unpin"@) + end.skip(7));
    lemma_quotes(start.take(start.len() - 6), "where "@ + target + ": Unpin"@, end.skip(7));
}

} // verus!
