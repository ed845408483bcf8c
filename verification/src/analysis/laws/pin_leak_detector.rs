//! Which constructors are warned about.

use crate::analysis::laws::common::{
    ends_in_call, is_adt, is_cleaner, lemma_block_call, lemma_contains_append, lemma_items_met,
    lemma_known_functions, lemma_quotes, met_first, quotes,
};
use crate::analysis::origin::{is_one_of, Origin, OriginMap};
use crate::analysis::pin_leak_detector::{self, leak, Constructor};
use crate::analysis::util::{block_call, has_part, holds_pinned, items_of, leads_to_pinned};
use crate::diagnostic::{as_list, DiagnosticView};
use crate::flow::Visit;
use crate::model::{
    AdtItem, Body, Crate, Destructor, FnDecl, ImplItem, ImplItemKind, ItemKind, TyId, TyKind,
    TyTable,
};
use vstd::prelude::*;

verus! {

/// The type holds the other one directly: in a field of one of its variants, as an element of a
/// tuple or as that of an array. What a reference or a pointer leads to is no part.
pub open spec fn is_part(types: TyTable, ty: TyId, part: TyId) -> bool {
    ty < types.types@.len() && match types.types@[ty as int].kind {
        TyKind::Adt { variants, .. } => exists|v: int, f: int|
            0 <= v < variants@.len() && 0 <= f < variants@[v]@.len() && #[trigger] variants@[v]@[f]
                == part,
        TyKind::Tuple(elems) => exists|i: int|
            0 <= i < elems@.len() && #[trigger] elems@[i] == part,
        TyKind::Array(elem) => elem == part,
        _ => false,
    }
}

/// The type is `PhantomPinned`.
pub open spec fn is_pin_marker(types: TyTable, ty: TyId) -> bool {
    ty < types.types@.len() && match types.types@[ty as int].kind {
        TyKind::Adt { def, .. } => def.path@ == "core::marker::PhantomPinned"@ || def.path@
            == "std::marker::PhantomPinned"@,
        _ => false,
    }
}

/// A way from the type, from part to part, to `PhantomPinned`.
pub open spec fn is_way_to_marker(types: TyTable, ty: TyId, way: Seq<TyId>) -> bool {
    &&& way.len() > 0
    &&& way[0] == ty
    &&& forall|i: int| 0 <= i < way.len() - 1 ==> is_part(types, #[trigger] way[i], way[i + 1])
    &&& is_pin_marker(types, way[way.len() - 1])
}

/// A type holds `PhantomPinned` exactly when some way through its parts leads there.
pub proof fn lemma_marker_found(types: TyTable, ty: TyId)
    ensures
        holds_pinned(types, ty) <==> exists|way: Seq<TyId>| #[trigger]
            is_way_to_marker(types, ty, way),
{
    assert forall|a: TyId, b: TyId| #[trigger] is_part(types, a, b) <==> has_part(types, a, b) by {
        match types.kind_of(a) {
            Some(TyKind::Tuple(elems)) => {
                if elems@.contains(b) {
                    assert(elems@[elems@.index_of(b)] == b);
                }
            },
            _ => {},
        }
    }
    if holds_pinned(types, ty) {
        let path = choose|path: Seq<TyId>| #[trigger] leads_to_pinned(types, ty, path);
        assert forall|i: int| 0 <= i < path.len() - 1 implies is_part(
            types,
            #[trigger] path[i],
            path[i + 1],
        ) by {
            assert(has_part(types, path[i], path[i + 1]));
        }
        assert(is_way_to_marker(types, ty, path));
    }
    if exists|way: Seq<TyId>| #[trigger] is_way_to_marker(types, ty, way) {
        let way = choose|way: Seq<TyId>| #[trigger] is_way_to_marker(types, ty, way);
        assert forall|i: int| 0 <= i < way.len() - 1 implies has_part(
            types,
            #[trigger] way[i],
            way[i + 1],
        ) by {
            assert(is_part(types, way[i], way[i + 1]));
        }
        assert(leads_to_pinned(types, ty, way));
    }
}

/// Some block of the destructor, wherever it stands, ends in a call that cleans up.
pub open spec fn destructor_cleans(krate: Crate, destructor: Destructor) -> bool {
    match destructor.body {
        Some(b) => b < krate.bodies@.len() && exists|k: int, path: Seq<char>, span: u64|
            0 <= k < krate.bodies@[b as int].blocks@.len() && #[trigger] ends_in_call(
                krate.bodies@[b as int].blocks@[k],
                path,
                span,
            ) && is_cleaner(path),
        None => false,
    }
}

/// The item declares the type with the given number, and its destructor must not be skipped: the
/// type holds `PhantomPinned`, or the destructor cleans up something outside.
pub open spec fn declares_critical(krate: Crate, kind: ItemKind, id: u64) -> bool {
    match kind {
        ItemKind::Struct(adt) => adt_is_critical(krate, adt, id),
        ItemKind::Enum(adt) => adt_is_critical(krate, adt, id),
        ItemKind::Union(adt) => adt_is_critical(krate, adt, id),
        _ => false,
    }
}

/// See [`declares_critical`].
pub open spec fn adt_is_critical(krate: Crate, adt: AdtItem, id: u64) -> bool {
    adt.id == id && match adt.destructor {
        Some(destructor) => destructor_cleans(krate, destructor) || exists|way: Seq<TyId>|
            #[trigger] is_way_to_marker(krate.types, adt.ty, way),
        None => false,
    }
}

/// The crate declares the type with the given number, and its destructor must not be skipped.
pub open spec fn is_critical(krate: Crate, id: u64) -> bool {
    exists|i: int| #[trigger]
        met_first(krate, i) && declares_critical(krate, krate.items@[i].kind, id)
}

proof fn lemma_destructor_cleans(krate: Crate, destructor: Destructor)
    ensures
        pin_leak_detector::external_cleanup(krate, destructor) <==> destructor_cleans(
            krate,
            destructor,
        ),
{
    match krate.body_at(destructor.body) {
        Some(body) => {
            let blocks = body.blocks@;
            if pin_leak_detector::external_cleanup(krate, destructor) {
                let k = choose|k: int|
                    0 <= k < blocks.len() && pin_leak_detector::block_cleans_up(
                        #[trigger] blocks[k],
                    );
                match block_call(blocks[k]) {
                    Some((def, span)) => {
                        lemma_known_functions(def.path@);
                        lemma_block_call(blocks[k], def.path@, span);
                        assert(ends_in_call(blocks[k], def.path@, span));
                    },
                    None => {},
                }
            }
            if destructor_cleans(krate, destructor) {
                let (k, path, span) = choose|k: int, path: Seq<char>, span: u64|
                    0 <= k < blocks.len() && #[trigger] ends_in_call(blocks[k], path, span)
                        && is_cleaner(path);
                lemma_known_functions(path);
                lemma_block_call(blocks[k], path, span);
                assert(pin_leak_detector::block_cleans_up(blocks[k]));
            }
        },
        None => {},
    }
}

/// A type counts as drop-critical exactly when the crate declares it so.
pub proof fn lemma_critical_types(krate: Crate, id: u64)
    ensures
        pin_leak_detector::critical_types(krate).contains(id) <==> is_critical(krate, id),
{
    let order = items_of(krate);
    lemma_items_met(krate);
    assert(krate.items@.len() == krate.items.len());
    assert forall|i: int| 0 <= i < krate.items@.len() implies (pin_leak_detector::critical_item(
        krate,
        (#[trigger] krate.items@[i]).kind,
    ) == Some(id) <==> declares_critical(krate, krate.items@[i].kind, id)) by {
        match krate.items@[i].kind {
            ItemKind::Struct(adt) => {
                lemma_adt_is_critical(krate, adt, id);
            },
            ItemKind::Enum(adt) => {
                lemma_adt_is_critical(krate, adt, id);
            },
            ItemKind::Union(adt) => {
                lemma_adt_is_critical(krate, adt, id);
            },
            _ => {},
        }
    }
    if pin_leak_detector::critical_types(krate).contains(id) {
        let k = choose|k: int|
            0 <= k < order.len() && pin_leak_detector::critical_item(
                krate,
                krate.items@[#[trigger] order[k] as int].kind,
            ) == Some(id);
        assert(order.contains(order[k]));
        assert(met_first(krate, order[k] as int));
    }
    if is_critical(krate, id) {
        let i = choose|i: int| #[trigger]
            met_first(krate, i) && declares_critical(krate, krate.items@[i].kind, id);
        assert(order.contains(i as usize));
        let k = order.index_of(i as usize);
        assert(order[k] == i as usize);
    }
}

proof fn lemma_adt_is_critical(krate: Crate, adt: AdtItem, id: u64)
    ensures
        adt.id == id && pin_leak_detector::drop_critical_type(krate, adt) <==> adt_is_critical(
            krate,
            adt,
            id,
        ),
{
    lemma_marker_found(krate.types, adt.ty);
    match adt.destructor {
        Some(destructor) => {
            lemma_destructor_cleans(krate, destructor);
        },
        None => {},
    }
}

/// A destructor with a cleaning call in any of its blocks makes its type drop-critical.
pub proof fn lemma_any_cleaning_block_counts(
    krate: Crate,
    i: int,
    adt: AdtItem,
    b: usize,
    k: int,
    path: Seq<char>,
    span: u64,
)
    requires
        met_first(krate, i),
        krate.items@[i].kind == ItemKind::Struct(adt) || krate.items@[i].kind == ItemKind::Enum(adt)
            || krate.items@[i].kind == ItemKind::Union(adt),
        adt.destructor == Some(Destructor { body: Some(b) }),
        b < krate.bodies@.len(),
        0 <= k < krate.bodies@[b as int].blocks@.len(),
        ends_in_call(krate.bodies@[b as int].blocks@[k], path, span),
        is_cleaner(path),
    ensures
        pin_leak_detector::critical_types(krate).contains(adt.id),
{
    let destructor = adt.destructor->0;
    assert(destructor.body == Some(b));
    assert(ends_in_call(krate.bodies@[b as int].blocks@[k], path, span));
    assert(destructor_cleans(krate, destructor));
    assert(adt_is_critical(krate, adt, adt.id));
    assert(declares_critical(krate, krate.items@[i].kind, adt.id));
    lemma_critical_types(krate, adt.id);
}

/// The type is a drop-critical one.
pub open spec fn is_critical_ty(krate: Crate, ty: TyId) -> bool {
    exists|id: u64| #[trigger] is_adt(krate.types, ty, id) && is_critical(krate, id)
}

/// The item is the function, or an inherent impl with the function among its members.
pub open spec fn holds_fn(krate: Crate, i: int, f: FnDecl) -> bool {
    &&& met_first(krate, i)
    &&& match krate.items@[i].kind {
        ItemKind::Fn(g) => g == f,
        ItemKind::Impl(data) => data.of_trait is None && exists|m: int|
            0 <= m < data.items@.len() && (#[trigger] data.items@[m]).kind == ImplItemKind::Fn(f),
        _ => false,
    }
}

/// A visit to the body comes to a return where the return value was made in the function.
pub open spec fn returns_new(body: Body, visits: Seq<Visit<OriginMap>>) -> bool {
    exists|v: int|
        0 <= v < visits.len() && (#[trigger] visits[v]).state.locals@[0] == Origin::FreshInThisFn
            && match body.blocks@[visits[v].block as int].terminator {
            Some(t) => t.kind is Return,
            None => false,
        }
}

/// The function is a public and safe one that returns a drop-critical type by ownership, and
/// made the value itself.
pub open spec fn leaks_value(
    krate: Crate,
    flows: Seq<Vec<Visit<OriginMap>>>,
    f: FnDecl,
    b: int,
) -> bool {
    &&& f.is_public
    &&& !f.is_unsafe
    &&& is_critical_ty(krate, f.output)
    &&& 0 <= b < krate.bodies@.len()
    &&& f.body == Some(b as usize)
    &&& b < flows.len()
    &&& is_critical_ty(krate, krate.bodies@[b].locals@[0])
    &&& returns_new(krate.bodies@[b], flows[b]@)
}

proof fn lemma_critical_ty(krate: Crate, ty: TyId)
    ensures
        is_one_of(krate.types, pin_leak_detector::critical_types(krate), ty) <==> is_critical_ty(
            krate,
            ty,
        ),
{
    match krate.types.adt_of(ty) {
        Some(id) => {
            lemma_critical_types(krate, id);
            assert(is_adt(krate.types, ty, id));
        },
        None => {},
    }
}

/// The crate's warnings on leaks are, for each public and safe function, free or of an inherent
/// impl, that returns by ownership a drop-critical value that it made, the one on that function
/// that names the type.
pub proof fn lemma_leaks_found(
    krate: Crate,
    flows: Seq<Vec<Visit<OriginMap>>>,
    d: DiagnosticView,
)
    requires
        pin_leak_detector::flows_fit(krate, flows),
    ensures
        pin_leak_detector::crate_reports(krate, flows).contains(d) <==> exists|
            i: int,
            f: FnDecl,
            b: int,
        |
            {
                &&& #[trigger] holds_fn(krate, i, f)
                &&& #[trigger] leaks_value(krate, flows, f, b)
                &&& d == leak(
                    f.span,
                    krate.types.types@[krate.bodies@[b].locals@[0] as int].text@,
                )
            },
{
    let critical = pin_leak_detector::critical_types(krate);
    let order = items_of(krate);
    let constructors = pin_leak_detector::constructors_of(krate);
    lemma_items_met(krate);
    assert(krate.items@.len() == krate.items.len());
    assert(krate.bodies@.len() == krate.bodies.len());
    lemma_leaks_in(krate, critical, flows, constructors, d);
    if pin_leak_detector::crate_reports(krate, flows).contains(d) {
        let j = choose|j: int|
            0 <= j < constructors.len() && report_on(
                krate,
                critical,
                flows,
                #[trigger] constructors[j],
            ) == Some(d);
        let c = constructors[j];
        assert(constructors.contains(c));
        lemma_constructors_in(krate, critical, order, c);
        let k = choose|k: int|
            0 <= k < order.len() && pin_leak_detector::item_constructors(
                krate,
                critical,
                krate.items@[#[trigger] order[k] as int].kind,
            ).contains(c);
        let i = order[k] as int;
        assert(order.contains(order[k]));
        assert(met_first(krate, i));
        match krate.items@[i].kind {
            ItemKind::Fn(f) => {
                lemma_fn_constructor(krate, critical, f, c);
                assert(holds_fn(krate, i, f));
                lemma_leaks_value(krate, flows, f, c);
                assert(leaks_value(krate, flows, f, c.body as int));
            },
            ItemKind::Impl(data) => {
                lemma_constructor_members(krate, critical, data.items@, c);
                let m = choose|m: int|
                    0 <= m < data.items@.len() && member_makes(
                        krate,
                        critical,
                        #[trigger] data.items@[m],
                        c,
                    );
                match data.items@[m].kind {
                    ImplItemKind::Fn(f) => {
                        lemma_fn_constructor(krate, critical, f, c);
                        assert(holds_fn(krate, i, f));
                        lemma_leaks_value(krate, flows, f, c);
                        assert(leaks_value(krate, flows, f, c.body as int));
                    },
                    ImplItemKind::Other => {},
                }
            },
            _ => {},
        }
    }
    if exists|i: int, f: FnDecl, b: int|
        {
            &&& #[trigger] holds_fn(krate, i, f)
            &&& #[trigger] leaks_value(krate, flows, f, b)
            &&& d == leak(
                    f.span,
                    krate.types.types@[krate.bodies@[b].locals@[0] as int].text@,
                )
        } {
        let (i, f, b) = choose|i: int, f: FnDecl, b: int|
            {
                &&& #[trigger] holds_fn(krate, i, f)
                &&& #[trigger] leaks_value(krate, flows, f, b)
                &&& d == leak(
                    f.span,
                    krate.types.types@[krate.bodies@[b].locals@[0] as int].text@,
                )
            };
        let c = Constructor { body: b as usize, span: f.span };
        lemma_critical_ty(krate, f.output);
        lemma_leaks_value(krate, flows, f, c);
        assert(pin_leak_detector::as_constructor(krate, critical, f) == Some(c));
        lemma_fn_constructor(krate, critical, f, c);
        match krate.items@[i].kind {
            ItemKind::Impl(data) => {
                let m = choose|m: int|
                    0 <= m < data.items@.len() && (#[trigger] data.items@[m]).kind
                        == ImplItemKind::Fn(f);
                assert(member_makes(krate, critical, data.items@[m], c));
                lemma_constructor_members(krate, critical, data.items@, c);
            },
            _ => {},
        }
        assert(order.contains(i as usize));
        let k = order.index_of(i as usize);
        assert(order[k] == i as usize);
        lemma_constructors_in(krate, critical, order, c);
        assert(constructors.contains(c));
        let j = constructors.index_of(c);
        assert(constructors[j] == c);
        assert(report_on(krate, critical, flows, constructors[j]) == Some(d));
    }
}

/// The warning on a constructor.
spec fn report_on(
    krate: Crate,
    critical: Set<u64>,
    flows: Seq<Vec<Visit<OriginMap>>>,
    c: Constructor,
) -> Option<DiagnosticView> {
    pin_leak_detector::body_report(
        krate,
        critical,
        krate.bodies@[c.body as int],
        c.span,
        pin_leak_detector::visits_of(flows, c.body),
    )
}

proof fn lemma_leaks_value(
    krate: Crate,
    flows: Seq<Vec<Visit<OriginMap>>>,
    f: FnDecl,
    c: Constructor,
)
    requires
        pin_leak_detector::flows_fit(krate, flows),
        c.span == f.span,
        f.body == Some(c.body),
        c.body < krate.bodies@.len(),
        f.is_public,
        !f.is_unsafe,
        is_one_of(krate.types, pin_leak_detector::critical_types(krate), f.output),
    ensures
        report_on(krate, pin_leak_detector::critical_types(krate), flows, c) == if leaks_value(
            krate,
            flows,
            f,
            c.body as int,
        ) {
            Some(leak(f.span, krate.types.text_of(krate.bodies@[c.body as int].locals@[0])))
        } else {
            None
        },
{
    let critical = pin_leak_detector::critical_types(krate);
    let body = krate.bodies@[c.body as int];
    let visits = pin_leak_detector::visits_of(flows, c.body);
    lemma_critical_ty(krate, f.output);
    lemma_critical_ty(krate, body.locals@[0]);
    if c.body < flows.len() {
        assert(pin_leak_detector::visits_fit(body, flows[c.body as int]@));
        assert forall|v: int| 0 <= v < visits.len() implies (pin_leak_detector::leaks(
            krate,
            critical,
            body,
            #[trigger] visits[v],
        ) <==> is_critical_ty(krate, body.locals@[0]) && visits[v].state.locals@[0]
            == Origin::FreshInThisFn && match body.blocks@[visits[v].block as int].terminator {
            Some(t) => t.kind is Return,
            None => false,
        }) by {
            assert(pin_leak_detector::visit_fits(body, visits[v]));
        }
    }
}

proof fn lemma_leaks_in(
    krate: Crate,
    critical: Set<u64>,
    flows: Seq<Vec<Visit<OriginMap>>>,
    constructors: Seq<Constructor>,
    d: DiagnosticView,
)
    ensures
        pin_leak_detector::reports(krate, critical, flows, constructors).contains(d)
            <==> exists|j: int|
            0 <= j < constructors.len() && report_on(
                krate,
                critical,
                flows,
                #[trigger] constructors[j],
            ) == Some(d),
    decreases constructors.len(),
{
    if constructors.len() > 0 {
        let rest = constructors.drop_last();
        let before = pin_leak_detector::reports(krate, critical, flows, rest);
        let last = report_on(krate, critical, flows, constructors.last());
        lemma_leaks_in(krate, critical, flows, rest, d);
        assert(constructors[constructors.len() - 1] == constructors.last());
        assert(forall|j: int| 0 <= j < rest.len() ==> rest[j] == constructors[j]);
        lemma_contains_append(before, as_list(last), d);
        if last == Some(d) {
            assert(as_list(last)[0] == d);
        }
    }
}

proof fn lemma_fn_constructor(krate: Crate, critical: Set<u64>, f: FnDecl, c: Constructor)
    ensures
        pin_leak_detector::fn_constructors(krate, critical, f).contains(c)
            <==> pin_leak_detector::as_constructor(krate, critical, f) == Some(c),
{
    let list = pin_leak_detector::fn_constructors(krate, critical, f);
    if pin_leak_detector::as_constructor(krate, critical, f) == Some(c) {
        assert(list[0] == c);
    }
}

spec fn member_makes(krate: Crate, critical: Set<u64>, member: ImplItem, c: Constructor) -> bool {
    match member.kind {
        ImplItemKind::Fn(f) => pin_leak_detector::as_constructor(krate, critical, f) == Some(c),
        ImplItemKind::Other => false,
    }
}

proof fn lemma_constructor_members(
    krate: Crate,
    critical: Set<u64>,
    members: Seq<ImplItem>,
    c: Constructor,
)
    ensures
        pin_leak_detector::member_constructors(krate, critical, members).contains(c)
            <==> exists|m: int|
            0 <= m < members.len() && member_makes(krate, critical, #[trigger] members[m], c),
    decreases members.len(),
{
    if members.len() > 0 {
        let rest = members.drop_last();
        let before = pin_leak_detector::member_constructors(krate, critical, rest);
        lemma_constructor_members(krate, critical, rest, c);
        assert(members[members.len() - 1] == members.last());
        assert(forall|m: int| 0 <= m < rest.len() ==> rest[m] == members[m]);
        match members.last().kind {
            ImplItemKind::Fn(f) => {
                lemma_fn_constructor(krate, critical, f, c);
                lemma_contains_append(
                    before,
                    pin_leak_detector::fn_constructors(krate, critical, f),
                    c,
                );
            },
            ImplItemKind::Other => {
                lemma_contains_append(before, Seq::<Constructor>::empty(), c);
            },
        }
    }
}

proof fn lemma_constructors_in(
    krate: Crate,
    critical: Set<u64>,
    order: Seq<usize>,
    c: Constructor,
)
    ensures
        pin_leak_detector::constructors_in(krate, critical, order).contains(c) <==> exists|k: int|
            0 <= k < order.len() && pin_leak_detector::item_constructors(
                krate,
                critical,
                krate.items@[#[trigger] order[k] as int].kind,
            ).contains(c),
    decreases order.len(),
{
    if order.len() > 0 {
        let rest = order.drop_last();
        let before = pin_leak_detector::constructors_in(krate, critical, rest);
        let added = pin_leak_detector::item_constructors(
            krate,
            critical,
            krate.items@[order.last() as int].kind,
        );
        lemma_constructors_in(krate, critical, rest, c);
        assert(order[order.len() - 1] == order.last());
        assert(forall|k: int| 0 <= k < rest.len() ==> rest[k] == order[k]);
        lemma_contains_append(before, added, c);
    }
}

/// The constructors in two lists of items, or of members, are those in each; those of two lists
/// are warned about as those of each.
pub proof fn lemma_constructors_by_themselves(
    krate: Crate,
    critical: Set<u64>,
    flows: Seq<Vec<Visit<OriginMap>>>,
    a: Seq<usize>,
    b: Seq<usize>,
    p: Seq<ImplItem>,
    q: Seq<ImplItem>,
    c: Seq<Constructor>,
    e: Seq<Constructor>,
)
    ensures
        pin_leak_detector::constructors_in(krate, critical, a + b)
            == pin_leak_detector::constructors_in(krate, critical, a)
            + pin_leak_detector::constructors_in(krate, critical, b),
        pin_leak_detector::member_constructors(krate, critical, p + q)
            == pin_leak_detector::member_constructors(krate, critical, p)
            + pin_leak_detector::member_constructors(krate, critical, q),
        pin_leak_detector::reports(krate, critical, flows, c + e) == pin_leak_detector::reports(
            krate,
            critical,
            flows,
            c,
        ) + pin_leak_detector::reports(krate, critical, flows, e),
    decreases b.len() + q.len() + e.len(),
{
    let items = pin_leak_detector::constructors_in(krate, critical, a);
    let members = pin_leak_detector::member_constructors(krate, critical, p);
    let reports = pin_leak_detector::reports(krate, critical, flows, c);
    if b.len() > 0 {
        assert((a + b).drop_last() =~= a + b.drop_last());
        lemma_constructors_by_themselves(krate, critical, flows, a, b.drop_last(), p, q, c, e);
        assert(pin_leak_detector::constructors_in(krate, critical, a + b) =~= items
            + pin_leak_detector::constructors_in(krate, critical, b));
    } else if q.len() > 0 {
        assert((p + q).drop_last() =~= p + q.drop_last());
        lemma_constructors_by_themselves(krate, critical, flows, a, b, p, q.drop_last(), c, e);
        assert(pin_leak_detector::member_constructors(krate, critical, p + q) =~= members
            + pin_leak_detector::member_constructors(krate, critical, q));
    } else if e.len() > 0 {
        assert((c + e).drop_last() =~= c + e.drop_last());
        lemma_constructors_by_themselves(krate, critical, flows, a, b, p, q, c, e.drop_last());
        assert(pin_leak_detector::reports(krate, critical, flows, c + e) =~= reports
            + pin_leak_detector::reports(krate, critical, flows, e));
    } else {
        assert(a + b =~= a);
        assert(p + q =~= p);
        assert(c + e =~= c);
        assert(items + Seq::<Constructor>::empty() =~= items);
        assert(members + Seq::<Constructor>::empty() =~= members);
        assert(reports + Seq::<DiagnosticView>::empty() =~= reports);
    }
}

/// The visits fit the bodies exactly when each visit is to a block with an end, and knows of the
/// return value where that end is a return. Bodies without visits and visits without a body do
/// not matter.
pub proof fn lemma_flows_fit(krate: Crate, flows: Seq<Vec<Visit<OriginMap>>>)
    ensures
        pin_leak_detector::flows_fit(krate, flows) <==> forall|b: int, v: int|
            0 <= b < krate.bodies@.len() && b < flows.len() && 0 <= v < flows[b]@.len() ==> {
                let visit = #[trigger] flows[b]@[v];
                let body = krate.bodies@[b];
                &&& visit.block < body.blocks@.len()
                &&& match body.blocks@[visit.block as int].terminator {
                    Some(end) => end.kind is Return ==> body.locals@.len() > 0
                        && visit.state.locals@.len() > 0,
                    None => false,
                }
            },
{
    if pin_leak_detector::flows_fit(krate, flows) {
        assert forall|b: int, v: int|
            0 <= b < krate.bodies@.len() && b < flows.len() && 0 <= v
                < flows[b]@.len() implies pin_leak_detector::visit_fits(
            krate.bodies@[b],
            #[trigger] flows[b]@[v],
        ) by {
            assert(pin_leak_detector::visits_fit(krate.bodies@[b], flows[b]@));
        }
    } else {
        let b = choose|b: int|
            0 <= b < krate.bodies@.len() && b < flows.len() && !pin_leak_detector::visits_fit(
                krate.bodies@[b],
                #[trigger] flows[b]@,
            );
        let v = choose|v: int|
            0 <= v < flows[b]@.len() && !pin_leak_detector::visit_fits(
                krate.bodies@[b],
                #[trigger] flows[b]@[v],
            );
        assert(flows[b]@[v] == flows[b]@[v]);
    }
}

/// The warning on a leak stands at the function and names the type in its only note.
pub proof fn lemma_leak_says(span: u64, ty: Seq<char>)
    ensures
        leak(span, ty).span == span,
        leak(span, ty).notes.len() == 1,
        leak(span, ty).notes[0].span is None,
        quotes(leak(span, ty).notes[0].text, ty),
{
    let before = "return type `"@;
    let after = "` is drop-critical (its `Drop` impl maintains an \
                 external invariant). Returning it by ownership from safe code lets \
                 callers `mem::forget` the value, skipping `Drop` and breaking the \
                 invariant — see RUSTSEC-2020-0021 (rio)."@;
    reveal_strlit("return type `");
    reveal_strlit(
        "` is drop-critical (its `Drop` impl maintains an \
                 external invariant). Returning it by ownership from safe code lets \
                 callers `mem::forget` the value, skipping `Drop` and breaking the \
                 invariant — see RUSTSEC-2020-0021 (rio).",
    );
    lemma_quotes(before, ty, after);
}

} // verus!
