//! Methods that expose a pinned field, or project through one, without demanding `Unpin`.

use crate::analysis::util::{
    all_items, any_pin_call, calls_pin_new_unchecked, collect_pinned_fields, has_part, items_of,
    pinned_fields_of, PinnedFields,
};
use crate::diagnostic::{
    as_list, diagnostic_views, option_view, plain_note, push_if_some, warning, Diagnostic,
    DiagnosticView,
};
use crate::model::{
    Crate, FieldDef, FnDecl, HirTyKind, ImplItem, ImplItemKind, ItemKind, Predicate, TyId, TyKind,
    TyTable, TypeParam,
};
use crate::search::{first_at, first_where, lemma_first_absent, lemma_first_found};
use vstd::prelude::*;
use vstd::string::*;

verus! {

pub const RETURN_MESSAGE: &'static str =
    "method returns a structurally-pinned field's type by value without an `Unpin` bound";

pub const RETURN_REASON: &'static str =
    "without this bound, callers can pin the field through one method, \
     then move it via this method — see RUSTSEC-2023-0005 (tokio `unsplit`)";

pub const PROJECTION_MESSAGE: &'static str =
    "method takes `&mut self` and projects through a pinned field \
     without an `Unpin` bound";

pub const PROJECTION_REFERENCE: &'static str =
    "see tokio PR #2612 (`AsyncReadExt::read_buf` / `write_buf`)";

/// The declared name of the type parameter with the given index.
pub open spec fn param_name(params: Seq<TypeParam>, index: u32) -> Option<Seq<char>>
    decreases params.len(),
{
    if params.len() == 0 {
        None
    } else if params.last().index == index {
        Some(params.last().name@)
    } else {
        param_name(params.drop_last(), index)
    }
}

/// What has to be `Unpin` for a field to be: the field's type parameter, or else its type.
pub open spec fn bound_target_of(krate: Crate, adt: u64, ty: TyId) -> Seq<char> {
    match krate.types.kind_of(ty) {
        Some(TyKind::Param { index, .. }) => match param_name(krate.type_params_of(adt), index) {
            Some(name) => name,
            None => krate.types.text_of(ty),
        },
        _ => krate.types.text_of(ty),
    }
}

/// A value of type `output` is one of type `field`, or holds one as a field or a tuple element.
pub open spec fn exposes(types: TyTable, output: TyId, field: TyId) -> bool {
    ||| output == field
    ||| {
        &&& types.kind_of(output) is Some
        &&& types.kind_of(output)->0 is Adt || types.kind_of(output)->0 is Tuple
        &&& has_part(types, output, field)
    }
}

/// Both types are the type parameter with the same index.
pub open spec fn same_param(types: TyTable, a: TyId, b: TyId) -> bool {
    match (types.kind_of(a), types.kind_of(b)) {
        (Some(TyKind::Param { index: i, .. }), Some(TyKind::Param { index: j, .. })) => i == j,
        _ => false,
    }
}

/// A where-clause demands that the given type is `Unpin`.
pub open spec fn demands_unpin(krate: Crate, p: Predicate, ty: TyId) -> bool {
    match p {
        Predicate::Trait { trait_id, self_ty } => {
            &&& krate.lang.unpin_trait == Some(trait_id)
            &&& self_ty == ty || same_param(krate.types, ty, self_ty)
        },
        Predicate::Other => false,
    }
}

/// Some where-clause of the method demands that the given type is `Unpin`.
pub open spec fn bounds_unpin(krate: Crate, method: FnDecl, ty: TyId) -> bool {
    exists|i: int|
        0 <= i < method.predicates@.len() && demands_unpin(
            krate,
            #[trigger] method.predicates@[i],
            ty,
        )
}

/// The method's first parameter is a mutable reference.
pub open spec fn takes_mut_ref(method: FnDecl) -> bool {
    match method.first_input {
        Some(ty) => match ty.kind {
            HirTyKind::Ref { mutable, .. } => mutable,
            _ => false,
        },
        None => false,
    }
}

/// The method's body calls `Pin::new_unchecked`.
pub open spec fn projects(method: FnDecl) -> bool {
    exists|i: int|
        0 <= i < method.exprs@.len() && calls_pin_new_unchecked(#[trigger] method.exprs@[i])
}

/// A pinned field that the method does not demand to be `Unpin`.
pub open spec fn unbounded_pinned(
    krate: Crate,
    pinned: Set<(u64, Seq<char>)>,
    adt: u64,
    method: FnDecl,
) -> spec_fn(FieldDef) -> bool {
    |f: FieldDef| pinned.contains((adt, f.name@)) && !bounds_unpin(krate, method, f.ty)
}

/// A pinned field that the method does not demand to be `Unpin` and whose type it returns.
pub open spec fn unbounded_exposed(
    krate: Crate,
    pinned: Set<(u64, Seq<char>)>,
    adt: u64,
    method: FnDecl,
) -> spec_fn(FieldDef) -> bool {
    |f: FieldDef|
        pinned.contains((adt, f.name@)) && exposes(krate.types, method.output, f.ty)
            && !bounds_unpin(krate, method, f.ty)
}

/// The warning on a method that returns the type of a pinned field.
pub open spec fn return_hazard(span: u64, field: Seq<char>, target: Seq<char>) -> DiagnosticView {
    DiagnosticView {
        span,
        message: RETURN_MESSAGE@,
        notes: seq![
            plain_note(
                "field `"@ + field + "` is structurally pinned (it is the target of \
                 `Pin::new_unchecked` projection elsewhere on this type), so any \
                 method that exposes it by ownership requires `"@ + target + ": Unpin` \
                 in its where-clause"@,
            ),
            plain_note(RETURN_REASON@),
        ],
        help: "add `where "@ + target + ": Unpin` to this method's signature, or \
                 mark the method `unsafe`"@,
    }
}

/// The warning on a method that projects through a pinned field.
pub open spec fn projection_hazard(span: u64, target: Seq<char>) -> DiagnosticView {
    DiagnosticView {
        span,
        message: PROJECTION_MESSAGE@,
        notes: seq![
            plain_note(
                "the body calls `Pin::new_unchecked` on a field whose type \
                 (`"@ + target + "`) is treated as structurally pinned elsewhere, \
                 but this method's receiver is `&mut self` rather than \
                 `Pin<&mut Self>` — pinning here does not retroactively pin \
                 the underlying storage"@,
            ),
            plain_note(PROJECTION_REFERENCE@),
        ],
        help: "either add `where Self: Unpin` (or `where "@ + target + ": Unpin`) \
                 to this method, change the receiver to `Pin<&mut Self>`, or mark \
                 the method `unsafe`"@,
    }
}

/// The warning that a safe method of the given type gets, if any.
pub open spec fn method_report(
    krate: Crate,
    pinned: Set<(u64, Seq<char>)>,
    adt: u64,
    method: FnDecl,
) -> Option<DiagnosticView> {
    let fields = krate.fields_of(adt);
    match first_where(fields, unbounded_exposed(krate, pinned, adt, method)) {
        Some(f) => Some(
            return_hazard(method.span, f.name@, bound_target_of(krate, adt, f.ty)),
        ),
        None => if takes_mut_ref(method) && projects(method) {
            match first_where(fields, unbounded_pinned(krate, pinned, adt, method)) {
                Some(f) => Some(projection_hazard(method.span, bound_target_of(krate, adt, f.ty))),
                None => None,
            }
        } else {
            None
        },
    }
}

/// The warnings on the members of an inherent impl of the given type.
pub open spec fn member_reports(
    krate: Crate,
    pinned: Set<(u64, Seq<char>)>,
    adt: u64,
    members: Seq<ImplItem>,
) -> Seq<DiagnosticView>
    decreases members.len(),
{
    if members.len() == 0 {
        Seq::empty()
    } else {
        member_reports(krate, pinned, adt, members.drop_last()) + match members.last().kind {
            ImplItemKind::Fn(method) => if method.is_unsafe {
                Seq::empty()
            } else {
                as_list(method_report(krate, pinned, adt, method))
            },
            ImplItemKind::Other => Seq::empty(),
        }
    }
}

/// The warnings on one item: those on the members of an inherent impl.
pub open spec fn item_reports(
    krate: Crate,
    pinned: Set<(u64, Seq<char>)>,
    kind: ItemKind,
) -> Seq<DiagnosticView> {
    match kind {
        ItemKind::Impl(data) => if data.of_trait is Some {
            Seq::empty()
        } else {
            match krate.types.adt_of(data.self_ty) {
                Some(adt) => member_reports(krate, pinned, adt, data.items@),
                None => Seq::empty(),
            }
        },
        _ => Seq::empty(),
    }
}

/// The warnings on the items at the given positions.
pub open spec fn reports(
    krate: Crate,
    pinned: Set<(u64, Seq<char>)>,
    order: Seq<usize>,
) -> Seq<DiagnosticView>
    decreases order.len(),
{
    if order.len() == 0 {
        Seq::empty()
    } else {
        reports(krate, pinned, order.drop_last()) + item_reports(
            krate,
            pinned,
            krate.items@[order.last() as int].kind,
        )
    }
}

/// The warnings on a crate, in the order of its items.
pub open spec fn crate_reports(krate: Crate) -> Seq<DiagnosticView> {
    reports(krate, pinned_fields_of(krate), items_of(krate))
}

/// Looks through all inherent impls of types that have pinned fields.
pub fn check_crate(krate: &Crate) -> (r: Vec<Diagnostic>)
    ensures
        diagnostic_views(r@) == crate_reports(*krate),
{
    let pinned_fields = collect_pinned_fields(krate);
    scan_methods(krate, &pinned_fields)
}

fn scan_methods(krate: &Crate, pinned: &PinnedFields) -> (r: Vec<Diagnostic>)
    ensures
        diagnostic_views(r@) == reports(*krate, pinned@, items_of(*krate)),
{
    let order = all_items(krate);
    let mut out: Vec<Diagnostic> = Vec::new();
    let mut k: usize = 0;
    assert(diagnostic_views(out@) =~= Seq::empty());
    while k < order.len()
        invariant
            k <= order.len(),
            forall|i: int| 0 <= i < order@.len() ==> order@[i] < krate.items@.len(),
            diagnostic_views(out@) == reports(*krate, pinned@, order@.take(k as int)),
        decreases order.len() - k,
    {
        assert(order@.take(k + 1).drop_last() =~= order@.take(k as int));
        let ghost before = diagnostic_views(out@);
        if let ItemKind::Impl(data) = &krate.items[order[k]].kind {
            // The bounds of a trait impl are those of the trait.
            if data.of_trait.is_none() {
                if let Some(adt) = krate.types.adt(data.self_ty) {
                    check_members(krate, pinned, adt, &data.items, &mut out);
                }
            }
        }
        assert(diagnostic_views(out@) =~= before + item_reports(
            *krate,
            pinned@,
            krate.items@[order@[k as int] as int].kind,
        ));
        k += 1;
    }
    assert(order@.take(order@.len() as int) =~= order@);
    out
}

/// Looks through the members of an inherent impl of the given type.
pub fn check_members(
    krate: &Crate,
    pinned: &PinnedFields,
    adt: u64,
    members: &Vec<ImplItem>,
    out: &mut Vec<Diagnostic>,
)
    ensures
        diagnostic_views(final(out)@) == diagnostic_views(old(out)@) + member_reports(
            *krate,
            pinned@,
            adt,
            members@,
        ),
{
    let ghost start = diagnostic_views(out@);
    let mut i: usize = 0;
    assert(start + Seq::<DiagnosticView>::empty() =~= start);
    while i < members.len()
        invariant
            i <= members.len(),
            diagnostic_views(out@) =~= start + member_reports(
                *krate,
                pinned@,
                adt,
                members@.take(i as int),
            ),
        decreases members.len() - i,
    {
        assert(members@.take(i + 1).drop_last() =~= members@.take(i as int));
        if let ImplItemKind::Fn(method) = &members[i].kind {
            // An unsafe method may move the field without the bound.
            if !method.is_unsafe {
                let report = check_method(krate, pinned, adt, method);
                push_if_some(out, report);
            }
        }
        i += 1;
    }
    assert(members@.take(members@.len() as int) =~= members@);
}

/// Looks at one safe method of the given type.
pub fn check_method(krate: &Crate, pinned: &PinnedFields, adt: u64, method: &FnDecl) -> (r: Option<
    Diagnostic,
>)
    ensures
        option_view(r) == method_report(*krate, pinned@, adt, *method),
{
    let ghost exposed = unbounded_exposed(*krate, pinned@, adt, *method);
    let ghost unbounded = unbounded_pinned(*krate, pinned@, adt, *method);
    proof {
        lemma_first_absent(krate.fields_of(adt), exposed);
        lemma_first_absent(krate.fields_of(adt), unbounded);
    }
    let (def, names) = match (krate.adt_def(adt), pinned.get(adt)) {
        (Some(def), Some(names)) => (def, names),
        _ => {
            return None;
        },
    };
    let mut i: usize = 0;
    while i < def.fields.len()
        invariant
            i <= def.fields.len(),
            forall|n: Seq<char>| names@.contains(n) <==> #[trigger] pinned@.contains((adt, n)),
            def.fields@ == krate.fields_of(adt),
            def.type_params@ == krate.type_params_of(adt),
            exposed == unbounded_exposed(*krate, pinned@, adt, *method),
            forall|j: int| 0 <= j < i ==> !exposed(#[trigger] def.fields@[j]),
        decreases def.fields.len() - i,
    {
        let field = &def.fields[i];
        if names.contains(field.name.as_str()) && return_exposes_field_ty(
            &krate.types,
            method.output,
            field.ty,
        ) && !method_bounds_field_unpin(krate, method, field.ty) {
            proof {
                assert(first_at(def.fields@, exposed, i as int));
                lemma_first_found(def.fields@, exposed, i as int);
            }
            let target = bound_target(krate, adt, &def.type_params, field.ty);
            return Some(report_return_hazard(method.span, field.name.as_str(), target.as_str()));
        }
        i += 1;
    }
    if takes_mut_self_not_pin(method) && body_projects_through_pinned_field(method) {
        let mut i: usize = 0;
        while i < def.fields.len()
            invariant
                i <= def.fields.len(),
                forall|n: Seq<char>| names@.contains(n) <==> #[trigger] pinned@.contains((adt, n)),
                def.fields@ == krate.fields_of(adt),
                def.type_params@ == krate.type_params_of(adt),
                takes_mut_ref(*method),
                projects(*method),
                first_where(
                    def.fields@,
                    unbounded_exposed(*krate, pinned@, adt, *method),
                ) is None,
                unbounded == unbounded_pinned(*krate, pinned@, adt, *method),
                forall|j: int| 0 <= j < i ==> !unbounded(#[trigger] def.fields@[j]),
            decreases def.fields.len() - i,
        {
            let field = &def.fields[i];
            if names.contains(field.name.as_str()) && !method_bounds_field_unpin(
                krate,
                method,
                field.ty,
            ) {
                proof {
                    assert(first_at(def.fields@, unbounded, i as int));
                    lemma_first_found(def.fields@, unbounded, i as int);
                }
                let target = bound_target(krate, adt, &def.type_params, field.ty);
                return Some(report_projection_hazard(method.span, target.as_str()));
            }
            i += 1;
        }
    }
    None
}

fn return_exposes_field_ty(types: &TyTable, output: TyId, field: TyId) -> (r: bool)
    ensures
        r == exposes(*types, output, field),
{
    if output == field {
        return true;
    }
    match types.kind(output) {
        Some(TyKind::Adt { def, variants }) => {
            let mut v: usize = 0;
            while v < variants.len()
                invariant
                    v <= variants.len(),
                    types.kind_of(output) == Some(TyKind::Adt { def: *def, variants: *variants }),
                    forall|w: int, f: int|
                        0 <= w < v && 0 <= f < variants@[w]@.len() ==> #[trigger] variants@[w]@[f]
                            != field,
                decreases variants.len() - v,
            {
                let fields = &variants[v];
                if holds(fields, field) {
                    proof {
                        let f = fields@.index_of(field);
                        assert(types.kind_of(output)->0->variants == *variants);
                        assert(variants@[v as int]@[f] == field);
                        assert(has_part(*types, output, field));
                    }
                    return true;
                }
                assert forall|f: int| 0 <= f < variants@[v as int]@.len() implies #[trigger]
                    variants@[v as int]@[f] != field by {
                    assert(fields@[f] != field);
                }
                v += 1;
            }
            assert(types.kind_of(output)->0->variants == *variants);
            false
        },
        Some(TyKind::Tuple(elems)) => holds(elems, field),
        _ => false,
    }
}

fn holds(list: &Vec<TyId>, ty: TyId) -> (r: bool)
    ensures
        r == list@.contains(ty),
{
    let mut i: usize = 0;
    while i < list.len()
        invariant
            i <= list.len(),
            forall|j: int| 0 <= j < i ==> list@[j] != ty,
        decreases list.len() - i,
    {
        if list[i] == ty {
            assert(list@[i as int] == ty);
            return true;
        }
        i += 1;
    }
    false
}

fn takes_mut_self_not_pin(method: &FnDecl) -> (r: bool)
    ensures
        r == takes_mut_ref(*method),
{
    match &method.first_input {
        Some(ty) => match &ty.kind {
            HirTyKind::Ref { mutable, .. } => *mutable,
            _ => false,
        },
        None => false,
    }
}

fn body_projects_through_pinned_field(method: &FnDecl) -> (r: bool)
    ensures
        r == projects(*method),
{
    any_pin_call(&method.exprs)
}

fn method_bounds_field_unpin(krate: &Crate, method: &FnDecl, ty: TyId) -> (r: bool)
    ensures
        r == bounds_unpin(*krate, *method, ty),
{
    let unpin_trait: u64 = match krate.lang.unpin_trait {
        Some(t) => t,
        None => {
            return false;
        },
    };
    let mut i: usize = 0;
    while i < method.predicates.len()
        invariant
            i <= method.predicates.len(),
            krate.lang.unpin_trait == Some(unpin_trait),
            forall|j: int|
                0 <= j < i ==> !demands_unpin(*krate, #[trigger] method.predicates@[j], ty),
        decreases method.predicates.len() - i,
    {
        if let Predicate::Trait { trait_id, self_ty } = &method.predicates[i] {
            if *trait_id == unpin_trait {
                let same = match (krate.types.kind(ty), krate.types.kind(*self_ty)) {
                    (
                        Some(TyKind::Param { index: a, .. }),
                        Some(TyKind::Param { index: b, .. }),
                    ) => *a == *b,
                    _ => false,
                };
                if *self_ty == ty || same {
                    assert(demands_unpin(*krate, method.predicates@[i as int], ty));
                    return true;
                }
            }
        }
        i += 1;
    }
    false
}

/// What has to be `Unpin` for a field of the given type to be.
fn bound_target(krate: &Crate, adt: u64, params: &Vec<TypeParam>, ty: TyId) -> (r: String)
    requires
        params@ == krate.type_params_of(adt),
    ensures
        r@ == bound_target_of(*krate, adt, ty),
{
    match krate.types.kind(ty) {
        Some(TyKind::Param { index, .. }) => {
            let mut i: usize = params.len();
            assert(params@.take(params@.len() as int) =~= params@);
            while i > 0
                invariant
                    i <= params.len(),
                    param_name(params@, *index) == param_name(params@.take(i as int), *index),
                    params@ == krate.type_params_of(adt),
                    krate.types.kind_of(ty) is Some,
                    krate.types.kind_of(ty)->0 is Param,
                    krate.types.kind_of(ty)->0->index == *index,
                decreases i,
            {
                assert(params@.take(i as int).drop_last() =~= params@.take(i - 1));
                if params[i - 1].index == *index {
                    return params[i - 1].name.clone();
                }
                i -= 1;
            }
            krate.types.text(ty)
        },
        _ => krate.types.text(ty),
    }
}

fn report_return_hazard(span: u64, field: &str, target: &str) -> (r: Diagnostic)
    ensures
        r@ == return_hazard(span, field@, target@),
{
    let mut note = "field `".to_owned();
    note.append(field);
    note.append(
        "` is structurally pinned (it is the target of \
         `Pin::new_unchecked` projection elsewhere on this type), so any \
         method that exposes it by ownership requires `",
    );
    note.append(target);
    note.append(": Unpin` in its where-clause");
    let mut help = "add `where ".to_owned();
    help.append(target);
    help.append(": Unpin` to this method's signature, or mark the method `unsafe`");
    let r = warning(span, RETURN_MESSAGE.to_owned(), vec![note, RETURN_REASON.to_owned()], help);
    assert(r@.notes =~= return_hazard(span, field@, target@).notes);
    r
}

fn report_projection_hazard(span: u64, target: &str) -> (r: Diagnostic)
    ensures
        r@ == projection_hazard(span, target@),
{
    let mut note = "the body calls `Pin::new_unchecked` on a field whose type (`".to_owned();
    note.append(target);
    note.append(
        "`) is treated as structurally pinned elsewhere, \
         but this method's receiver is `&mut self` rather than \
         `Pin<&mut Self>` — pinning here does not retroactively pin \
         the underlying storage",
    );
    let mut help = "either add `where Self: Unpin` (or `where ".to_owned();
    help.append(target);
    help.append(
        ": Unpin`) to this method, change the receiver to `Pin<&mut Self>`, or mark \
         the method `unsafe`",
    );
    let r = warning(
        span,
        PROJECTION_MESSAGE.to_owned(),
        vec![note, PROJECTION_REFERENCE.to_owned()],
        help,
    );
    assert(r@.notes =~= projection_hazard(span, target@).notes);
    r
}

/// The methods of a type without pinned fields get no warning.
pub proof fn lemma_nothing_pinned(
    krate: Crate,
    pinned: Set<(u64, Seq<char>)>,
    adt: u64,
    members: Seq<ImplItem>,
)
    requires
        forall|n: Seq<char>| !#[trigger] pinned.contains((adt, n)),
    ensures
        member_reports(krate, pinned, adt, members) == Seq::<DiagnosticView>::empty(),
    decreases members.len(),
{
    if members.len() > 0 {
        lemma_nothing_pinned(krate, pinned, adt, members.drop_last());
        match members.last().kind {
            ImplItemKind::Fn(method) => {
                let fields = krate.fields_of(adt);
                lemma_first_absent(fields, unbounded_exposed(krate, pinned, adt, method));
                lemma_first_absent(fields, unbounded_pinned(krate, pinned, adt, method));
            },
            ImplItemKind::Other => {},
        }
        assert(member_reports(krate, pinned, adt, members) =~= Seq::<DiagnosticView>::empty());
    }
}

/// Where no field of the crate is pinned, there is no warning.
pub proof fn lemma_no_pins_no_reports(krate: Crate)
    requires
        pinned_fields_of(krate) == Set::<(u64, Seq<char>)>::empty(),
    ensures
        crate_reports(krate) == Seq::<DiagnosticView>::empty(),
{
    lemma_no_pins_no_reports_among(krate, items_of(krate));
}

proof fn lemma_no_pins_no_reports_among(krate: Crate, order: Seq<usize>)
    requires
        pinned_fields_of(krate) == Set::<(u64, Seq<char>)>::empty(),
    ensures
        reports(krate, pinned_fields_of(krate), order) == Seq::<DiagnosticView>::empty(),
    decreases order.len(),
{
    if order.len() > 0 {
        let pinned = pinned_fields_of(krate);
        lemma_no_pins_no_reports_among(krate, order.drop_last());
        match krate.items@[order.last() as int].kind {
            ItemKind::Impl(data) => {
                match krate.types.adt_of(data.self_ty) {
                    Some(adt) => {
                        lemma_nothing_pinned(krate, pinned, adt, data.items@);
                    },
                    None => {},
                }
            },
            _ => {},
        }
        assert(reports(krate, pinned, order) =~= Seq::<DiagnosticView>::empty());
    }
}

/// Following the advice of a warning silences it: a method whose where-clauses demand `Unpin`
/// of all pinned fields gets no warning.
pub proof fn lemma_bounded_method_not_reported(
    krate: Crate,
    pinned: Set<(u64, Seq<char>)>,
    adt: u64,
    method: FnDecl,
)
    requires
        forall|i: int|
            0 <= i < krate.fields_of(adt).len() && pinned.contains(
                (adt, (#[trigger] krate.fields_of(adt)[i]).name@),
            ) ==> bounds_unpin(krate, method, krate.fields_of(adt)[i].ty),
    ensures
        method_report(krate, pinned, adt, method) is None,
{
    lemma_first_absent(krate.fields_of(adt), unbounded_exposed(krate, pinned, adt, method));
    lemma_first_absent(krate.fields_of(adt), unbounded_pinned(krate, pinned, adt, method));
}

/// A method gets a warning exactly when a pinned field that it does not demand to be `Unpin`
/// has a type that it returns, or when there is such a field at all and the method takes a
/// mutable reference first and calls `Pin::new_unchecked`.
pub proof fn lemma_method_reported_iff(
    krate: Crate,
    pinned: Set<(u64, Seq<char>)>,
    adt: u64,
    method: FnDecl,
)
    ensures
        method_report(krate, pinned, adt, method) is Some <==> exists|i: int|
            {
                &&& 0 <= i < krate.fields_of(adt).len()
                &&& pinned.contains((adt, (#[trigger] krate.fields_of(adt)[i]).name@))
                &&& !bounds_unpin(krate, method, krate.fields_of(adt)[i].ty)
                &&& exposes(krate.types, method.output, krate.fields_of(adt)[i].ty) || (
                takes_mut_ref(method) && projects(method))
            },
{
    let fields = krate.fields_of(adt);
    let exposed = unbounded_exposed(krate, pinned, adt, method);
    let unbounded = unbounded_pinned(krate, pinned, adt, method);
    lemma_first_absent(fields, exposed);
    lemma_first_absent(fields, unbounded);
    if method_report(krate, pinned, adt, method) is Some {
        if first_where(fields, exposed) is Some {
            let i = choose|i: int| 0 <= i < fields.len() && exposed(#[trigger] fields[i]);
            assert(pinned.contains((adt, fields[i].name@)));
        } else {
            let i = choose|i: int| 0 <= i < fields.len() && unbounded(#[trigger] fields[i]);
            assert(pinned.contains((adt, fields[i].name@)));
        }
    }
}

/// Following the other advice silences a warning too: an unsafe method adds nothing to the
/// warnings on the members around it.
pub proof fn lemma_unsafe_method_not_reported(
    krate: Crate,
    pinned: Set<(u64, Seq<char>)>,
    adt: u64,
    before: Seq<ImplItem>,
    member: ImplItem,
    after: Seq<ImplItem>,
)
    requires
        member.kind matches ImplItemKind::Fn(method) && method.is_unsafe,
    ensures
        member_reports(krate, pinned, adt, before + seq![member] + after) == member_reports(
            krate,
            pinned,
            adt,
            before + after,
        ),
    decreases after.len(),
{
    let with = before + seq![member] + after;
    let without = before + after;
    if after.len() == 0 {
        assert(with.drop_last() =~= before);
        assert(without =~= before);
        assert(with.last() == member);
        let reports = member_reports(krate, pinned, adt, before);
        assert(reports + Seq::<DiagnosticView>::empty() =~= reports);
    } else {
        assert(with.drop_last() =~= before + seq![member] + after.drop_last());
        assert(without.drop_last() =~= before + after.drop_last());
        lemma_unsafe_method_not_reported(krate, pinned, adt, before, member, after.drop_last());
    }
}

} // verus!
