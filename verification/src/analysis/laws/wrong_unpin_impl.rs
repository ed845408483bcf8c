//! Which impls of `Unpin` are warned about.

use crate::analysis::laws::common::{
    is_adt, is_pinned, lemma_contains_append, lemma_items_met, lemma_pinned_sites, lemma_quotes,
    met_first, quotes,
};
use crate::analysis::util::{items_of, pinned_fields_of};
use crate::analysis::wrong_unpin_impl::{self, unbounded_field};
use crate::diagnostic::{as_list, DiagnosticView};
use crate::model::{
    Crate, FieldDef, HirBound, HirTy, HirTyKind, ImplData, ItemKind, TyKind, WherePredicate,
};
use crate::names::{ascending, lemma_listing, lemma_listing_unique, listing};
use crate::text::joined;
use vstd::prelude::*;

verus! {

/// The written type goes by the name: the last segment of its path, or else its debug form.
pub open spec fn goes_by(ty: HirTy, name: Seq<char>) -> bool {
    match ty.kind {
        HirTyKind::Path(path) => if path.segments@.len() > 0 {
            path.segments@[path.segments@.len() - 1].name@ == name
        } else {
            ty.debug@ == name
        },
        _ => ty.debug@ == name,
    }
}

/// The where-clause of the impl bounds what goes by the name by `Unpin`.
pub open spec fn bounds_by_unpin(
    krate: Crate,
    predicates: Seq<WherePredicate>,
    name: Seq<char>,
) -> bool {
    exists|p: int|
        0 <= p < predicates.len() && match #[trigger] predicates[p] {
            WherePredicate::Bound { bounded, bounds } => goes_by(bounded, name) && exists|b: int|
                0 <= b < bounds@.len() && match #[trigger] bounds@[b] {
                    HirBound::Trait(Some(t)) => krate.lang.unpin_trait == Some(t),
                    _ => false,
                },
            WherePredicate::Other => false,
        }
}

/// The names that the where-clause bounds by `Unpin`.
pub open spec fn bounded_names(krate: Crate, predicates: Seq<WherePredicate>) -> Set<Seq<char>> {
    Set::new(|name: Seq<char>| bounds_by_unpin(krate, predicates, name))
}

/// The item is an impl of `Unpin` for the type, with the given data.
pub open spec fn unpin_impl(krate: Crate, i: int, adt: u64, data: ImplData) -> bool {
    &&& met_first(krate, i)
    &&& krate.items@[i].kind == ItemKind::Impl(data)
    &&& is_adt(krate.types, data.self_ty, adt)
    &&& match data.of_trait {
        Some(t) => match t.trait_id {
            Some(id) => krate.lang.unpin_trait == Some(id),
            None => false,
        },
        None => false,
    }
}

/// The field is pinned, its type is the type parameter of the given name, and the where-clause
/// does not bound that.
pub open spec fn left_unbounded(
    krate: Crate,
    adt: u64,
    predicates: Seq<WherePredicate>,
    field: FieldDef,
    param: Seq<char>,
) -> bool {
    &&& is_pinned(krate, adt, field.name@)
    &&& field.ty < krate.types.types@.len()
    &&& match krate.types.types@[field.ty as int].kind {
        TyKind::Param { name, .. } => name@ == param,
        _ => false,
    }
    &&& !bounds_by_unpin(krate, predicates, param)
}

/// The crate's warnings on wrong impls are, for each impl of `Unpin` and each declared field of
/// its type that is pinned and whose type is a type parameter that the where-clause does not
/// bound, the one that names the impl, the field, the parameter and what is bounded instead.
pub proof fn lemma_wrong_impls_found(krate: Crate, d: DiagnosticView)
    ensures
        wrong_unpin_impl::crate_reports(krate).contains(d) <==> exists|
            i: int,
            adt: u64,
            data: ImplData,
            f: int,
            param: Seq<char>,
        |
            {
                &&& #[trigger] unpin_impl(krate, i, adt, data)
                &&& 0 <= f < krate.fields_of(adt).len()
                &&& #[trigger] left_unbounded(
                    krate,
                    adt,
                    data.predicates@,
                    krate.fields_of(adt)[f],
                    param,
                )
                &&& d == unbounded_field(
                    krate.items@[i].span,
                    krate.fields_of(adt)[f].name@,
                    param,
                    bounded_names(krate, data.predicates@),
                )
            },
{
    let pinned = pinned_fields_of(krate);
    let order = items_of(krate);
    lemma_items_met(krate);
    assert(krate.items@.len() == krate.items.len());
    lemma_wrong_in_items(krate, pinned, order, d);
    if wrong_unpin_impl::crate_reports(krate).contains(d) {
        let k = choose|k: int|
            0 <= k < order.len() && wrong_unpin_impl::item_reports(
                krate,
                pinned,
                krate.items@[#[trigger] order[k] as int],
            ).contains(d);
        let i = order[k] as int;
        assert(order.contains(order[k]));
        match krate.items@[i].kind {
            ItemKind::Impl(data) => {
                let adt = krate.types.adt_of(data.self_ty)->0;
                let bounded = wrong_unpin_impl::unpin_bounded(krate, data.predicates@);
                let fields = krate.fields_of(adt);
                lemma_bounded_names(krate, data.predicates@);
                lemma_wrong_in_fields(krate, pinned, krate.items@[i].span, adt, bounded, fields, d);
                let f = choose|f: int|
                    0 <= f < fields.len() && wrong_unpin_impl::field_report(
                        krate,
                        pinned,
                        krate.items@[i].span,
                        adt,
                        bounded,
                        #[trigger] fields[f],
                    ) == Some(d);
                lemma_pinned_sites(krate, adt, fields[f].name@);
                match krate.types.kind_of(fields[f].ty) {
                    Some(TyKind::Param { name, .. }) => {
                        assert(unpin_impl(krate, i, adt, data));
                        assert(bounded.contains(name@) <==> bounds_by_unpin(
                            krate,
                            data.predicates@,
                            name@,
                        ));
                        assert(left_unbounded(krate, adt, data.predicates@, fields[f], name@));
                    },
                    _ => {},
                }
            },
            _ => {},
        }
    }
    if exists|i: int, adt: u64, data: ImplData, f: int, param: Seq<char>|
        {
            &&& #[trigger] unpin_impl(krate, i, adt, data)
            &&& 0 <= f < krate.fields_of(adt).len()
            &&& #[trigger] left_unbounded(
                krate,
                adt,
                data.predicates@,
                krate.fields_of(adt)[f],
                param,
            )
            &&& d == unbounded_field(
                krate.items@[i].span,
                krate.fields_of(adt)[f].name@,
                param,
                bounded_names(krate, data.predicates@),
            )
        } {
        let (i, adt, data, f, param) = choose|
            i: int,
            adt: u64,
            data: ImplData,
            f: int,
            param: Seq<char>,
        |
            {
                &&& #[trigger] unpin_impl(krate, i, adt, data)
                &&& 0 <= f < krate.fields_of(adt).len()
                &&& #[trigger] left_unbounded(
                    krate,
                    adt,
                    data.predicates@,
                    krate.fields_of(adt)[f],
                    param,
                )
                &&& d == unbounded_field(
                    krate.items@[i].span,
                    krate.fields_of(adt)[f].name@,
                    param,
                    bounded_names(krate, data.predicates@),
                )
            };
        let bounded = wrong_unpin_impl::unpin_bounded(krate, data.predicates@);
        let fields = krate.fields_of(adt);
        lemma_bounded_names(krate, data.predicates@);
        lemma_pinned_sites(krate, adt, fields[f].name@);
        assert(bounded.contains(param) <==> bounds_by_unpin(krate, data.predicates@, param));
        assert(wrong_unpin_impl::field_report(
            krate,
            pinned,
            krate.items@[i].span,
            adt,
            bounded,
            fields[f],
        ) == Some(d));
        lemma_wrong_in_fields(krate, pinned, krate.items@[i].span, adt, bounded, fields, d);
        assert(order.contains(i as usize));
        let k = order.index_of(i as usize);
        assert(order[k] == i as usize);
        assert(wrong_unpin_impl::item_reports(
            krate,
            pinned,
            krate.items@[order[k] as int],
        ).contains(d));
    }
}

proof fn lemma_bounded_names(krate: Crate, predicates: Seq<WherePredicate>)
    ensures
        wrong_unpin_impl::unpin_bounded(krate, predicates) == bounded_names(krate, predicates),
{
    assert forall|name: Seq<char>| wrong_unpin_impl::unpin_bounded(krate, predicates).contains(name)
        <==> bounded_names(krate, predicates).contains(name) by {
        assert forall|p: int| 0 <= p < predicates.len() implies (wrong_unpin_impl::bounds_name(
            krate,
            #[trigger] predicates[p],
            name,
        ) <==> match predicates[p] {
            WherePredicate::Bound { bounded, bounds } => goes_by(bounded, name) && exists|b: int|
                0 <= b < bounds@.len() && match #[trigger] bounds@[b] {
                    HirBound::Trait(Some(t)) => krate.lang.unpin_trait == Some(t),
                    _ => false,
                },
            WherePredicate::Other => false,
        }) by {
            match predicates[p] {
                WherePredicate::Bound { bounded, bounds } => {
                    assert forall|b: int| 0 <= b < bounds@.len() implies (
                    wrong_unpin_impl::is_unpin_bound(krate, #[trigger] bounds@[b])
                        <==> match bounds@[b] {
                        HirBound::Trait(Some(t)) => krate.lang.unpin_trait == Some(t),
                        _ => false,
                    }) by {}
                },
                WherePredicate::Other => {},
            }
        }
    }
    assert(wrong_unpin_impl::unpin_bounded(krate, predicates) =~= bounded_names(
        krate,
        predicates,
    ));
}

proof fn lemma_wrong_in_fields(
    krate: Crate,
    pinned: Set<(u64, Seq<char>)>,
    span: u64,
    adt: u64,
    bounded: Set<Seq<char>>,
    fields: Seq<FieldDef>,
    d: DiagnosticView,
)
    ensures
        wrong_unpin_impl::field_reports(krate, pinned, span, adt, bounded, fields).contains(d)
            <==> exists|f: int|
            0 <= f < fields.len() && wrong_unpin_impl::field_report(
                krate,
                pinned,
                span,
                adt,
                bounded,
                #[trigger] fields[f],
            ) == Some(d),
    decreases fields.len(),
{
    if fields.len() > 0 {
        let rest = fields.drop_last();
        let before = wrong_unpin_impl::field_reports(krate, pinned, span, adt, bounded, rest);
        let last = wrong_unpin_impl::field_report(
            krate,
            pinned,
            span,
            adt,
            bounded,
            fields.last(),
        );
        lemma_wrong_in_fields(krate, pinned, span, adt, bounded, rest, d);
        assert(fields[fields.len() - 1] == fields.last());
        assert(forall|f: int| 0 <= f < rest.len() ==> rest[f] == fields[f]);
        lemma_contains_append(before, as_list(last), d);
        if last == Some(d) {
            assert(as_list(last)[0] == d);
        }
    }
}

proof fn lemma_wrong_in_items(
    krate: Crate,
    pinned: Set<(u64, Seq<char>)>,
    order: Seq<usize>,
    d: DiagnosticView,
)
    ensures
        wrong_unpin_impl::reports(krate, pinned, order).contains(d) <==> exists|k: int|
            0 <= k < order.len() && wrong_unpin_impl::item_reports(
                krate,
                pinned,
                krate.items@[#[trigger] order[k] as int],
            ).contains(d),
    decreases order.len(),
{
    if order.len() > 0 {
        let rest = order.drop_last();
        let before = wrong_unpin_impl::reports(krate, pinned, rest);
        let added = wrong_unpin_impl::item_reports(
            krate,
            pinned,
            krate.items@[order.last() as int],
        );
        lemma_wrong_in_items(krate, pinned, rest, d);
        assert(order[order.len() - 1] == order.last());
        assert(forall|k: int| 0 <= k < rest.len() ==> rest[k] == order[k]);
        lemma_contains_append(before, added, d);
    }
}

/// The fields of two lists are warned about as those of each.
pub proof fn lemma_fields_by_themselves(
    krate: Crate,
    pinned: Set<(u64, Seq<char>)>,
    span: u64,
    adt: u64,
    bounded: Set<Seq<char>>,
    a: Seq<FieldDef>,
    b: Seq<FieldDef>,
)
    ensures
        wrong_unpin_impl::field_reports(krate, pinned, span, adt, bounded, a + b)
            == wrong_unpin_impl::field_reports(krate, pinned, span, adt, bounded, a)
            + wrong_unpin_impl::field_reports(krate, pinned, span, adt, bounded, b),
        a.len() == 1 ==> wrong_unpin_impl::field_reports(
            krate,
            pinned,
            span,
            adt,
            bounded,
            a,
        ).len() <= 1,
    decreases b.len(),
{
    let whole = wrong_unpin_impl::field_reports(krate, pinned, span, adt, bounded, a);
    if a.len() == 1 {
        assert(a.drop_last() =~= Seq::empty());
        assert(wrong_unpin_impl::field_reports(krate, pinned, span, adt, bounded, Seq::empty())
            =~= Seq::empty());
    }
    if b.len() == 0 {
        assert(a + b =~= a);
        assert(whole + Seq::<DiagnosticView>::empty() =~= whole);
    } else {
        assert((a + b).drop_last() =~= a + b.drop_last());
        lemma_fields_by_themselves(krate, pinned, span, adt, bounded, a, b.drop_last());
        assert(wrong_unpin_impl::field_reports(krate, pinned, span, adt, bounded, a + b)
            =~= whole + wrong_unpin_impl::field_reports(krate, pinned, span, adt, bounded, b));
    }
}

/// The items of two lists are warned about as those of each.
pub proof fn lemma_wrong_items_by_themselves(
    krate: Crate,
    pinned: Set<(u64, Seq<char>)>,
    a: Seq<usize>,
    b: Seq<usize>,
)
    ensures
        wrong_unpin_impl::reports(krate, pinned, a + b) == wrong_unpin_impl::reports(
            krate,
            pinned,
            a,
        ) + wrong_unpin_impl::reports(krate, pinned, b),
    decreases b.len(),
{
    let whole = wrong_unpin_impl::reports(krate, pinned, a);
    if b.len() == 0 {
        assert(a + b =~= a);
        assert(whole + Seq::<DiagnosticView>::empty() =~= whole);
    } else {
        assert((a + b).drop_last() =~= a + b.drop_last());
        lemma_wrong_items_by_themselves(krate, pinned, a, b.drop_last());
        assert(wrong_unpin_impl::reports(krate, pinned, a + b) =~= whole
            + wrong_unpin_impl::reports(krate, pinned, b));
    }
}

/// The warning on a field stands at the impl, names the field, its type parameter and the bound
/// that is missing, and ends its second note with the parameters that are bounded: in ascending
/// order and with commas between them, or `(none)`.
pub proof fn lemma_unbounded_field_says(
    span: u64,
    field: Seq<char>,
    param: Seq<char>,
    bounded: Set<Seq<char>>,
    names: Seq<Seq<char>>,
)
    requires
        ascending(names),
        names.to_set() == bounded,
    ensures
        unbounded_field(span, field, param, bounded).span == span,
        unbounded_field(span, field, param, bounded).notes.len() == 2,
        unbounded_field(span, field, param, bounded).notes[0].span is None,
        unbounded_field(span, field, param, bounded).notes[1].span is None,
        quotes(unbounded_field(span, field, param, bounded).notes[0].text, field),
        quotes(unbounded_field(span, field, param, bounded).notes[0].text, param),
        quotes(unbounded_field(span, field, param, bounded).notes[0].text, param + ": Unpin"@),
        names.len() > 0 ==> unbounded_field(span, field, param, bounded).notes[1].text
            == "instead, the where-clause bounds: "@ + joined(names, ", "@),
        names.len() == 0 ==> unbounded_field(span, field, param, bounded).notes[1].text
            == "instead, the where-clause bounds: "@ + "(none)"@,
{
    let text = unbounded_field(span, field, param, bounded).notes[0].text;
    let first = "field `"@;
    let second = "` (type parameter `"@;
    let third = "`) is structurally \
                 pinned (it is the target of `Pin::new_unchecked` projection somewhere), \
                 so the impl must require `"@;
    let last = ": Unpin`"@;
    reveal_strlit("field `");
    reveal_strlit("` (type parameter `");
    reveal_strlit(
        "`) is structurally \
                 pinned (it is the target of `Pin::new_unchecked` projection somewhere), \
                 so the impl must require `",
    );
    reveal_strlit(": Unpin`");
    reveal_strlit(": Unpin");
    assert(text =~= first + field + (second + param + third + param + last));
    lemma_quotes(first, field, second + param + third + param + last);
    assert(text =~= (first + field + second) + param + (third + param + last));
    lemma_quotes(first + field + second, param, third + param + last);
    assert(last =~= ": Unpin"@ + last.skip(7));
    assert(text =~= (first + field + second + param + third) + (param + ": Unpin"@) + last.skip(7));
    lemma_quotes(first + field + second + param + third, param + ": Unpin"@, last.skip(7));
    vstd::seq_lib::seq_to_set_is_finite(names);
    lemma_listing(bounded);
    lemma_listing_unique(names, listing(bounded));
    if names.len() > 0 {
        assert(names.to_set().contains(names[0]));
        assert(bounded != Set::<Seq<char>>::empty());
    } else {
        assert(bounded =~= Set::<Seq<char>>::empty());
    }
}

} // verus!
