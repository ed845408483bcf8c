//! `Unpin` impls whose where-clause does not bound the type parameters of pinned fields.

use crate::analysis::util::{
    all_items, collect_pinned_fields, items_of, pinned_fields_of, PinnedFields,
};
use crate::diagnostic::{
    as_list, diagnostic_views, option_view, plain_note, push_if_some, warning, Diagnostic,
    DiagnosticView,
};
use crate::model::{
    Crate, FieldDef, HirBound, HirTy, HirTyKind, ImplData, Item, ItemKind, TyKind, WherePredicate,
};
use crate::names::{listing, NameSet};
use crate::text::{join, joined};
use vstd::prelude::*;
use vstd::string::*;

verus! {

pub const MESSAGE: &'static str =
    "wrong-direction `Unpin` bound: structurally-pinned field is not bounded by `Unpin`";

pub const HELP: &'static str =
    "either change the where-clause to bound the pinned field's type parameter, \
     or use the `pin_project` macro which emits the correct bounds automatically";

/// A written type by the last segment of its path, or else by its debug form.
pub open spec fn written_name(ty: HirTy) -> Seq<char> {
    match ty.kind {
        HirTyKind::Path(path) => if path.segments@.len() > 0 {
            path.segments@.last().name@
        } else {
            ty.debug@
        },
        _ => ty.debug@,
    }
}

/// A bound is `Unpin`.
pub open spec fn is_unpin_bound(krate: Crate, bound: HirBound) -> bool {
    match bound {
        HirBound::Trait(Some(t)) => krate.lang.unpin_trait == Some(t),
        _ => false,
    }
}

/// A part of a where-clause bounds the named type by `Unpin`.
pub open spec fn bounds_name(krate: Crate, p: WherePredicate, name: Seq<char>) -> bool {
    match p {
        WherePredicate::Bound { bounded, bounds } => {
            &&& written_name(bounded) == name
            &&& exists|j: int|
                0 <= j < bounds@.len() && is_unpin_bound(krate, #[trigger] bounds@[j])
        },
        WherePredicate::Other => false,
    }
}

/// The names of the types that a where-clause bounds by `Unpin`.
pub open spec fn unpin_bounded(krate: Crate, predicates: Seq<WherePredicate>) -> Set<Seq<char>> {
    Set::new(
        |name: Seq<char>|
            exists|i: int|
                0 <= i < predicates.len() && bounds_name(krate, #[trigger] predicates[i], name),
    )
}

/// The names in ascending order, with commas between them.
pub open spec fn names_text(names: Set<Seq<char>>) -> Seq<char> {
    if names == Set::<Seq<char>>::empty() {
        "(none)"@
    } else {
        joined(listing(names), ", "@)
    }
}

/// The warning on a pinned field whose type parameter is not bounded.
pub open spec fn unbounded_field(
    span: u64,
    field: Seq<char>,
    param: Seq<char>,
    bounded: Set<Seq<char>>,
) -> DiagnosticView {
    DiagnosticView {
        span,
        message: MESSAGE@,
        notes: seq![
            plain_note(
                "field `"@ + field + "` (type parameter `"@ + param + "`) is structurally \
                 pinned (it is the target of `Pin::new_unchecked` projection somewhere), \
                 so the impl must require `"@ + param + ": Unpin`"@,
            ),
            plain_note("instead, the where-clause bounds: "@ + names_text(bounded)),
        ],
        help: HELP@,
    }
}

/// The warning on one field of the type that an `Unpin` impl is for, if any.
pub open spec fn field_report(
    krate: Crate,
    pinned: Set<(u64, Seq<char>)>,
    span: u64,
    adt: u64,
    bounded: Set<Seq<char>>,
    field: FieldDef,
) -> Option<DiagnosticView> {
    if pinned.contains((adt, field.name@)) {
        match krate.types.kind_of(field.ty) {
            Some(TyKind::Param { name, .. }) => if bounded.contains(name@) {
                None
            } else {
                Some(unbounded_field(span, field.name@, name@, bounded))
            },
            _ => None,
        }
    } else {
        None
    }
}

/// The warnings on the fields of the type that an `Unpin` impl is for.
pub open spec fn field_reports(
    krate: Crate,
    pinned: Set<(u64, Seq<char>)>,
    span: u64,
    adt: u64,
    bounded: Set<Seq<char>>,
    fields: Seq<FieldDef>,
) -> Seq<DiagnosticView>
    decreases fields.len(),
{
    if fields.len() == 0 {
        Seq::empty()
    } else {
        field_reports(krate, pinned, span, adt, bounded, fields.drop_last()) + as_list(
            field_report(krate, pinned, span, adt, bounded, fields.last()),
        )
    }
}

/// The impl is one of `Unpin`.
pub open spec fn is_unpin_impl(krate: Crate, data: ImplData) -> bool {
    match data.of_trait {
        Some(t) => t.trait_id is Some && t.trait_id == krate.lang.unpin_trait,
        None => false,
    }
}

/// The warnings on one item: those on an `Unpin` impl.
pub open spec fn item_reports(
    krate: Crate,
    pinned: Set<(u64, Seq<char>)>,
    item: Item,
) -> Seq<DiagnosticView> {
    match item.kind {
        ItemKind::Impl(data) => match krate.types.adt_of(data.self_ty) {
            Some(adt) => if is_unpin_impl(krate, data) {
                field_reports(
                    krate,
                    pinned,
                    item.span,
                    adt,
                    unpin_bounded(krate, data.predicates@),
                    krate.fields_of(adt),
                )
            } else {
                Seq::empty()
            },
            None => Seq::empty(),
        },
        _ => Seq::empty(),
    }
}

/// The warnings on the items at the given positions.
pub open spec fn reports(
    krate: Crate,
    pinned: Set<(u64, Seq<char>)>,
    order: Seq<usize>,
) -> Seq<DiagnosticView>
    decreases order.len(),
{
    if order.len() == 0 {
        Seq::empty()
    } else {
        reports(krate, pinned, order.drop_last()) + item_reports(
            krate,
            pinned,
            krate.items@[order.last() as int],
        )
    }
}

/// The warnings on a crate, in the order of its items.
pub open spec fn crate_reports(krate: Crate) -> Seq<DiagnosticView> {
    reports(krate, pinned_fields_of(krate), items_of(krate))
}

/// Looks through all `Unpin` impls for types that have pinned fields.
pub fn check_crate(krate: &Crate) -> (r: Vec<Diagnostic>)
    ensures
        diagnostic_views(r@) == crate_reports(*krate),
{
    let pinned_fields = collect_pinned_fields(krate);
    scan_unpin_impls(krate, &pinned_fields)
}

fn scan_unpin_impls(krate: &Crate, pinned: &PinnedFields) -> (r: Vec<Diagnostic>)
    ensures
        diagnostic_views(r@) == reports(*krate, pinned@, items_of(*krate)),
{
    let order = all_items(krate);
    let mut out: Vec<Diagnostic> = Vec::new();
    let mut k: usize = 0;
    assert(diagnostic_views(out@) =~= Seq::empty());
    while k < order.len()
        invariant
            k <= order.len(),
            forall|i: int| 0 <= i < order@.len() ==> order@[i] < krate.items@.len(),
            diagnostic_views(out@) == reports(*krate, pinned@, order@.take(k as int)),
        decreases order.len() - k,
    {
        assert(order@.take(k + 1).drop_last() =~= order@.take(k as int));
        let ghost before = diagnostic_views(out@);
        let item = &krate.items[order[k]];
        if let ItemKind::Impl(data) = &item.kind {
            if implements_unpin(krate, data) {
                if let Some(adt) = krate.types.adt(data.self_ty) {
                    verify_where_clause(krate, pinned, item.span, adt, &data.predicates, &mut out);
                }
            }
        }
        assert(diagnostic_views(out@) =~= before + item_reports(*krate, pinned@, *item));
        k += 1;
    }
    assert(order@.take(order@.len() as int) =~= order@);
    out
}

fn implements_unpin(krate: &Crate, data: &ImplData) -> (r: bool)
    ensures
        r == is_unpin_impl(*krate, *data),
{
    match &data.of_trait {
        Some(t) => match (t.trait_id, krate.lang.unpin_trait) {
            (Some(a), Some(b)) => a == b,
            _ => false,
        },
        None => false,
    }
}

/// Holds the where-clause of an `Unpin` impl against the pinned fields of the given type.
pub fn verify_where_clause(
    krate: &Crate,
    pinned: &PinnedFields,
    span: u64,
    adt: u64,
    predicates: &Vec<WherePredicate>,
    out: &mut Vec<Diagnostic>,
)
    ensures
        diagnostic_views(final(out)@) == diagnostic_views(old(out)@) + field_reports(
            *krate,
            pinned@,
            span,
            adt,
            unpin_bounded(*krate, predicates@),
            krate.fields_of(adt),
        ),
{
    let bounded = unpin_bounded_params(krate, predicates);
    let ghost start = diagnostic_views(out@);
    assert(start + Seq::<DiagnosticView>::empty() =~= start);
    let def = match krate.adt_def(adt) {
        Some(def) => def,
        None => {
            return ;
        },
    };
    let mut i: usize = 0;
    while i < def.fields.len()
        invariant
            i <= def.fields.len(),
            bounded@ == unpin_bounded(*krate, predicates@),
            diagnostic_views(out@) =~= start + field_reports(
                *krate,
                pinned@,
                span,
                adt,
                bounded@,
                def.fields@.take(i as int),
            ),
        decreases def.fields.len() - i,
    {
        assert(def.fields@.take(i + 1).drop_last() =~= def.fields@.take(i as int));
        let report = check_field(krate, pinned, span, adt, &bounded, &def.fields[i]);
        push_if_some(out, report);
        i += 1;
    }
    assert(def.fields@.take(def.fields@.len() as int) =~= def.fields@);
}

fn check_field(
    krate: &Crate,
    pinned: &PinnedFields,
    span: u64,
    adt: u64,
    bounded: &NameSet,
    field: &FieldDef,
) -> (r: Option<Diagnostic>)
    ensures
        option_view(r) == field_report(*krate, pinned@, span, adt, bounded@, *field),
{
    match pinned.get(adt) {
        Some(names) => {
            if !names.contains(field.name.as_str()) {
                return None;
            }
        },
        None => {
            return None;
        },
    }
    assert(pinned@.contains((adt, field.name@)));
    match krate.types.kind(field.ty) {
        Some(TyKind::Param { name, .. }) => {
            if bounded.contains(name.as_str()) {
                None
            } else {
                Some(report(span, field.name.as_str(), name.as_str(), bounded))
            }
        },
        _ => None,
    }
}

fn unpin_bounded_params(krate: &Crate, predicates: &Vec<WherePredicate>) -> (r: NameSet)
    ensures
        r@ == unpin_bounded(*krate, predicates@),
{
    let mut names = NameSet::new();
    let mut i: usize = 0;
    while i < predicates.len()
        invariant
            i <= predicates.len(),
            forall|n: Seq<char>| #[trigger]
                names@.contains(n) <==> exists|j: int|
                    0 <= j < i && bounds_name(*krate, #[trigger] predicates@[j], n),
        decreases predicates.len() - i,
    {
        let ghost before = names@;
        if let WherePredicate::Bound { bounded, bounds } = &predicates[i] {
            if any_bound_is_unpin(krate, bounds) {
                names.insert(format_hir_ty(bounded));
            }
        }
        assert forall|n: Seq<char>| #[trigger]
            names@.contains(n) <==> exists|j: int|
                0 <= j < i + 1 && bounds_name(*krate, #[trigger] predicates@[j], n) by {
            assert(names@.contains(n) <==> before.contains(n) || bounds_name(
                *krate,
                predicates@[i as int],
                n,
            ));
            if before.contains(n) {
                let j = choose|j: int|
                    0 <= j < i && bounds_name(*krate, #[trigger] predicates@[j], n);
                assert(bounds_name(*krate, predicates@[j], n));
            }
        }
        i += 1;
    }
    assert(names@ =~= unpin_bounded(*krate, predicates@));
    names
}

fn any_bound_is_unpin(krate: &Crate, bounds: &Vec<HirBound>) -> (r: bool)
    ensures
        r == exists|j: int|
            0 <= j < bounds@.len() && is_unpin_bound(*krate, #[trigger] bounds@[j]),
{
    let mut j: usize = 0;
    while j < bounds.len()
        invariant
            j <= bounds.len(),
            forall|m: int| 0 <= m < j ==> !is_unpin_bound(*krate, #[trigger] bounds@[m]),
        decreases bounds.len() - j,
    {
        if bound_is_unpin(krate, &bounds[j]) {
            assert(is_unpin_bound(*krate, bounds@[j as int]));
            return true;
        }
        j += 1;
    }
    false
}

fn bound_is_unpin(krate: &Crate, bound: &HirBound) -> (r: bool)
    ensures
        r == is_unpin_bound(*krate, *bound),
{
    match (bound, krate.lang.unpin_trait) {
        (HirBound::Trait(Some(a)), Some(b)) => *a == b,
        _ => false,
    }
}

/// A written type by the last segment of its path, or else by its debug form.
pub fn format_hir_ty(ty: &HirTy) -> (r: String)
    ensures
        r@ == written_name(*ty),
{
    if let HirTyKind::Path(path) = &ty.kind {
        if path.segments.len() > 0 {
            return path.segments[path.segments.len() - 1].name.clone();
        }
    }
    ty.debug.clone()
}

fn report(span: u64, field: &str, param: &str, bounded: &NameSet) -> (r: Diagnostic)
    ensures
        r@ == unbounded_field(span, field@, param@, bounded@),
{
    let actually = if bounded.is_empty() {
        "(none)".to_owned()
    } else {
        join(bounded.sorted(), ", ")
    };
    let mut note = "field `".to_owned();
    note.append(field);
    note.append("` (type parameter `");
    note.append(param);
    note.append(
        "`) is structurally \
         pinned (it is the target of `Pin::new_unchecked` projection somewhere), \
         so the impl must require `",
    );
    note.append(param);
    note.append(": Unpin`");
    let mut instead = "instead, the where-clause bounds: ".to_owned();
    instead.append(actually.as_str());
    let r = warning(span, MESSAGE.to_owned(), vec![note, instead], HELP.to_owned());
    assert(r@.notes =~= unbounded_field(span, field@, param@, bounded@).notes);
    r
}

/// An `Unpin` impl whose where-clause bounds the type parameter of every pinned field gets no
/// warning.
pub proof fn lemma_bounded_impl_not_reported(
    krate: Crate,
    pinned: Set<(u64, Seq<char>)>,
    span: u64,
    adt: u64,
    bounded: Set<Seq<char>>,
    fields: Seq<FieldDef>,
)
    requires
        forall|i: int|
            0 <= i < fields.len() && pinned.contains((adt, (#[trigger] fields[i]).name@)) ==> {
                match krate.types.kind_of(fields[i].ty) {
                    Some(TyKind::Param { name, .. }) => bounded.contains(name@),
                    _ => true,
                }
            },
    ensures
        field_reports(krate, pinned, span, adt, bounded, fields) == Seq::<DiagnosticView>::empty(),
    decreases fields.len(),
{
    if fields.len() > 0 {
        let rest = fields.drop_last();
        assert forall|i: int|
            0 <= i < rest.len() && pinned.contains((adt, (#[trigger] rest[i]).name@)) implies {
            match krate.types.kind_of(rest[i].ty) {
                Some(TyKind::Param { name, .. }) => bounded.contains(name@),
                _ => true,
            }
        } by {
            assert(rest[i] == fields[i]);
        }
        lemma_bounded_impl_not_reported(krate, pinned, span, adt, bounded, rest);
        assert(fields.last() == fields[fields.len() - 1]);
        assert(field_reports(krate, pinned, span, adt, bounded, fields) =~= Seq::<
            DiagnosticView,
        >::empty());
    }
}

/// Every pinned field whose type is a type parameter that the where-clause does not bound gets
/// a warning of its own.
pub proof fn lemma_unbounded_field_reported(
    krate: Crate,
    pinned: Set<(u64, Seq<char>)>,
    span: u64,
    adt: u64,
    bounded: Set<Seq<char>>,
    fields: Seq<FieldDef>,
    i: int,
)
    requires
        0 <= i < fields.len(),
        field_report(krate, pinned, span, adt, bounded, fields[i]) is Some,
    ensures
        field_reports(krate, pinned, span, adt, bounded, fields).contains(
            field_report(krate, pinned, span, adt, bounded, fields[i])->0,
        ),
    decreases fields.len(),
{
    let all = field_reports(krate, pinned, span, adt, bounded, fields);
    let rest = field_reports(krate, pinned, span, adt, bounded, fields.drop_last());
    let wanted = field_report(krate, pinned, span, adt, bounded, fields[i])->0;
    if i == fields.len() - 1 {
        assert(all[rest.len() as int] == wanted);
    } else {
        lemma_unbounded_field_reported(krate, pinned, span, adt, bounded, fields.drop_last(), i);
        let k = rest.index_of(wanted);
        assert(all[k] == wanted);
    }
}

} // verus!
