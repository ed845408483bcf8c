//! Safe constructors that hand out a value whose `Drop` impl must not be skipped.

use crate::analysis::origin::{is_drop_critical_ty, is_one_of, Origin, OriginMap};
use crate::analysis::util::{
    all_items, block_call, call_in_block, contains_phantom_pinned, holds_pinned, items_of,
};
use crate::diagnostic::{
    as_list, diagnostic_views, option_view, plain_note, push_if_some, warning, Diagnostic,
    DiagnosticView,
};
use crate::flow::Visit;
use crate::model::{
    AdtItem, Block, Body, Crate, Destructor, FnDecl, ImplItem, ImplItemKind, ItemKind, Terminator,
    TerminatorKind, TyTable,
};
use crate::text::{contains, has_infix};
use std::collections::HashSet;
use vstd::prelude::*;
use vstd::std_specs::hash::*;
use vstd::string::*;

verus! {

broadcast use group_hash_axioms;

pub const CLEANUP_KEYWORDS: [&'static str; 12] = [
    "::close",
    "::release",
    "::deregister",
    "::unregister",
    "::lock",
    "::unlock",
    "::retain",
    "::remove",
    "::wait",
    "::join",
    "::shutdown",
    "::abort",
];

pub const MESSAGE: &'static str = "safe constructor returns a drop-critical type by ownership";

pub const HELP: &'static str =
    "either mark this function `unsafe`, return the value behind a \
     pinning wrapper that disallows safe ownership transfer, or \
     redesign the type so its invariant does not depend on `Drop`";

// ---------------------------------------------------------------------------------------------
// Drop-critical types
// ---------------------------------------------------------------------------------------------

/// A function that cleans up something outside, by its printed path.
pub open spec fn cleans_up(path: Seq<char>) -> bool {
    exists|i: int|
        0 <= i < CLEANUP_KEYWORDS@.len() && has_infix(path, #[trigger] CLEANUP_KEYWORDS@[i]@)
}

/// A block ends in a call of a function that cleans up something outside.
pub open spec fn block_cleans_up(block: Block) -> bool {
    match block_call(block) {
        Some((def, _)) => cleans_up(def.path@),
        None => false,
    }
}

/// The destructor cleans up something outside, as far as its body is known.
pub open spec fn external_cleanup(krate: Crate, destructor: Destructor) -> bool {
    match krate.body_at(destructor.body) {
        Some(body) => exists|b: int|
            0 <= b < body.blocks@.len() && block_cleans_up(#[trigger] body.blocks@[b]),
        None => false,
    }
}

/// A type's destructor must not be skipped: the type is pinned, or the destructor cleans up
/// something outside.
pub open spec fn drop_critical_type(krate: Crate, adt: AdtItem) -> bool {
    match adt.destructor {
        Some(destructor) => holds_pinned(krate.types, adt.ty) || external_cleanup(
            krate,
            destructor,
        ),
        None => false,
    }
}

/// The struct, enum or union that an item declares, where it is drop-critical.
pub open spec fn critical_item(krate: Crate, kind: ItemKind) -> Option<u64> {
    let adt = match kind {
        ItemKind::Struct(adt) => Some(adt),
        ItemKind::Enum(adt) => Some(adt),
        ItemKind::Union(adt) => Some(adt),
        _ => None,
    };
    match adt {
        Some(adt) => if drop_critical_type(krate, adt) {
            Some(adt.id)
        } else {
            None
        },
        None => None,
    }
}

/// The drop-critical types among the items at the given positions.
pub open spec fn critical_among(krate: Crate, order: Seq<usize>) -> Set<u64> {
    Set::new(
        |id: u64|
            exists|k: int|
                0 <= k < order.len() && critical_item(
                    krate,
                    krate.items@[#[trigger] order[k] as int].kind,
                ) == Some(id),
    )
}

/// The drop-critical types that a crate declares.
pub open spec fn critical_types(krate: Crate) -> Set<u64> {
    critical_among(krate, items_of(krate))
}

/// The drop-critical types that a crate declares.
pub fn classify_drop_critical_types(krate: &Crate) -> (r: HashSet<u64>)
    ensures
        r@ == critical_types(*krate),
{
    let order = all_items(krate);
    let mut result: HashSet<u64> = HashSet::new();
    let mut k: usize = 0;
    while k < order.len()
        invariant
            k <= order.len(),
            forall|i: int| 0 <= i < order@.len() ==> order@[i] < krate.items@.len(),
            forall|id: u64| #[trigger]
                result@.contains(id) <==> exists|j: int|
                    0 <= j < k && critical_item(
                        *krate,
                        krate.items@[#[trigger] order@[j] as int].kind,
                    ) == Some(id),
        decreases order.len() - k,
    {
        let ghost before = result@;
        let found = find_critical(krate, &krate.items[order[k]].kind);
        if let Some(id) = found {
            result.insert(id);
        }
        assert forall|id: u64| #[trigger]
            result@.contains(id) <==> exists|j: int|
                0 <= j < k + 1 && critical_item(
                    *krate,
                    krate.items@[#[trigger] order@[j] as int].kind,
                ) == Some(id) by {
            assert(result@.contains(id) <==> before.contains(id) || found == Some(id));
            if before.contains(id) {
                let j = choose|j: int|
                    0 <= j < k && critical_item(
                        *krate,
                        krate.items@[#[trigger] order@[j] as int].kind,
                    ) == Some(id);
                assert(critical_item(*krate, krate.items@[order@[j] as int].kind) == Some(id));
            }
            assert(critical_item(*krate, krate.items@[order@[k as int] as int].kind) == found);
        }
        k += 1;
    }
    assert(result@ =~= critical_types(*krate));
    result
}

fn find_critical(krate: &Crate, kind: &ItemKind) -> (r: Option<u64>)
    ensures
        r == critical_item(*krate, *kind),
{
    let adt = match kind {
        ItemKind::Struct(adt) => adt,
        ItemKind::Enum(adt) => adt,
        ItemKind::Union(adt) => adt,
        _ => {
            return None;
        },
    };
    if is_drop_critical(krate, adt) {
        Some(adt.id)
    } else {
        None
    }
}

/// Whether a type's destructor must not be skipped.
pub fn is_drop_critical(krate: &Crate, adt: &AdtItem) -> (r: bool)
    ensures
        r == drop_critical_type(*krate, *adt),
{
    match &adt.destructor {
        Some(destructor) => {
            contains_phantom_pinned(&krate.types, adt.ty) || drop_impl_does_external_cleanup(
                krate,
                destructor,
            )
        },
        None => false,
    }
}

fn is_cleanup(path: &str) -> (r: bool)
    ensures
        r == cleans_up(path@),
{
    let keywords = CLEANUP_KEYWORDS;
    let mut i: usize = 0;
    while i < keywords.len()
        invariant
            i <= keywords@.len(),
            keywords == CLEANUP_KEYWORDS,
            forall|j: int| 0 <= j < i ==> !has_infix(path@, #[trigger] CLEANUP_KEYWORDS@[j]@),
        decreases keywords@.len() - i,
    {
        if contains(path, keywords[i]) {
            assert(has_infix(path@, CLEANUP_KEYWORDS@[i as int]@));
            return true;
        }
        i += 1;
    }
    false
}

/// Whether a destructor cleans up something outside, as far as its body is known.
pub fn drop_impl_does_external_cleanup(krate: &Crate, destructor: &Destructor) -> (r: bool)
    ensures
        r == external_cleanup(*krate, *destructor),
{
    let body = match krate.body(destructor.body) {
        Some(body) => body,
        None => {
            return false;
        },
    };
    let mut b: usize = 0;
    while b < body.blocks.len()
        invariant
            b <= body.blocks.len(),
            krate.body_at(destructor.body) == Some(*body),
            forall|c: int| 0 <= c < b ==> !block_cleans_up(#[trigger] body.blocks@[c]),
        decreases body.blocks.len() - b,
    {
        if let Some((def, _)) = call_in_block(&body.blocks[b]) {
            if is_cleanup(def.path.as_str()) {
                assert(block_cleans_up((krate.body_at(destructor.body)->0).blocks@[b as int]));
                return true;
            }
        }
        b += 1;
    }
    false
}

// ---------------------------------------------------------------------------------------------
// Constructors
// ---------------------------------------------------------------------------------------------

/// A function that has to be looked at: the place of its compiled body, and its own place.
#[derive(Clone, Copy, PartialEq, Eq, Structural, Debug)]
pub struct Constructor {
    pub body: usize,
    pub span: u64,
}

/// The function is one that any code may call.
pub open spec fn callable(f: FnDecl) -> bool {
    !f.is_unsafe && f.is_public
}

/// A function as a constructor of a drop-critical type, if it is one.
pub open spec fn as_constructor(krate: Crate, critical: Set<u64>, f: FnDecl) -> Option<
    Constructor,
> {
    if callable(f) && is_one_of(krate.types, critical, f.output) && krate.body_at(f.body) is Some {
        Some(Constructor { body: f.body->0, span: f.span })
    } else {
        None
    }
}

/// A function as a list of one constructor, or of none.
pub open spec fn fn_constructors(krate: Crate, critical: Set<u64>, f: FnDecl) -> Seq<Constructor> {
    match as_constructor(krate, critical, f) {
        Some(c) => seq![c],
        None => Seq::empty(),
    }
}

/// The constructors among the members of an inherent impl.
pub open spec fn member_constructors(
    krate: Crate,
    critical: Set<u64>,
    members: Seq<ImplItem>,
) -> Seq<Constructor>
    decreases members.len(),
{
    if members.len() == 0 {
        Seq::empty()
    } else {
        member_constructors(krate, critical, members.drop_last()) + match members.last().kind {
            ImplItemKind::Fn(f) => fn_constructors(krate, critical, f),
            ImplItemKind::Other => Seq::empty(),
        }
    }
}

/// The constructors in one item.
pub open spec fn item_constructors(krate: Crate, critical: Set<u64>, kind: ItemKind) -> Seq<
    Constructor,
> {
    match kind {
        ItemKind::Fn(f) => fn_constructors(krate, critical, f),
        ItemKind::Impl(data) => if data.of_trait is Some {
            Seq::empty()
        } else {
            member_constructors(krate, critical, data.items@)
        },
        _ => Seq::empty(),
    }
}

/// The constructors in the items at the given positions.
pub open spec fn constructors_in(krate: Crate, critical: Set<u64>, order: Seq<usize>) -> Seq<
    Constructor,
>
    decreases order.len(),
{
    if order.len() == 0 {
        Seq::empty()
    } else {
        constructors_in(krate, critical, order.drop_last()) + item_constructors(
            krate,
            critical,
            krate.items@[order.last() as int].kind,
        )
    }
}

/// The constructors of drop-critical types in a crate, in the order of its items.
pub open spec fn constructors_of(krate: Crate) -> Seq<Constructor> {
    constructors_in(krate, critical_types(krate), items_of(krate))
}

/// Whether any code may call the function.
pub fn should_check_fn(f: &FnDecl) -> (r: bool)
    ensures
        r == callable(*f),
{
    !f.is_unsafe && f.is_public
}

fn push_constructor(
    krate: &Crate,
    drop_critical: &HashSet<u64>,
    f: &FnDecl,
    out: &mut Vec<Constructor>,
)
    ensures
        final(out)@ == old(out)@ + fn_constructors(*krate, drop_critical@, *f),
{
    if should_check_fn(f) && is_drop_critical_ty(&krate.types, drop_critical, f.output) {
        if let Some(_) = krate.body(f.body) {
            if let Some(body) = f.body {
                out.push(Constructor { body, span: f.span });
            }
        }
    }
    assert(final(out)@ =~= old(out)@ + fn_constructors(*krate, drop_critical@, *f));
}

fn push_member_constructors(
    krate: &Crate,
    drop_critical: &HashSet<u64>,
    members: &Vec<ImplItem>,
    out: &mut Vec<Constructor>,
)
    ensures
        final(out)@ == old(out)@ + member_constructors(*krate, drop_critical@, members@),
{
    let ghost start = out@;
    let mut i: usize = 0;
    while i < members.len()
        invariant
            i <= members.len(),
            out@ =~= start + member_constructors(
                *krate,
                drop_critical@,
                members@.take(i as int),
            ),
        decreases members.len() - i,
    {
        assert(members@.take(i + 1).drop_last() =~= members@.take(i as int));
        if let ImplItemKind::Fn(f) = &members[i].kind {
            push_constructor(krate, drop_critical, f, out);
        }
        i += 1;
    }
    assert(members@.take(members@.len() as int) =~= members@);
}

/// The functions that any code may call and that return one of the given types, in the order
/// of the items; those of trait impls are left out.
pub fn scan_constructors(krate: &Crate, drop_critical: &HashSet<u64>) -> (r: Vec<Constructor>)
    ensures
        r@ == constructors_in(*krate, drop_critical@, items_of(*krate)),
{
    let order = all_items(krate);
    let mut out: Vec<Constructor> = Vec::new();
    let mut k: usize = 0;
    while k < order.len()
        invariant
            k <= order.len(),
            forall|i: int| 0 <= i < order@.len() ==> order@[i] < krate.items@.len(),
            out@ =~= constructors_in(*krate, drop_critical@, order@.take(k as int)),
        decreases order.len() - k,
    {
        assert(order@.take(k + 1).drop_last() =~= order@.take(k as int));
        match &krate.items[order[k]].kind {
            ItemKind::Fn(f) => {
                push_constructor(krate, drop_critical, f, &mut out);
            },
            ItemKind::Impl(data) => {
                if data.of_trait.is_none() {
                    push_member_constructors(krate, drop_critical, &data.items, &mut out);
                }
            },
            _ => {},
        }
        k += 1;
    }
    assert(order@.take(order@.len() as int) =~= order@);
    out
}

// ---------------------------------------------------------------------------------------------
// Warnings
// ---------------------------------------------------------------------------------------------

/// The warning on a constructor that returns a value of the given type.
pub open spec fn leak(span: u64, ty: Seq<char>) -> DiagnosticView {
    DiagnosticView {
        span,
        message: MESSAGE@,
        notes: seq![
            plain_note(
                "return type `"@ + ty + "` is drop-critical (its `Drop` impl maintains an \
                 external invariant). Returning it by ownership from safe code lets \
                 callers `mem::forget` the value, skipping `Drop` and breaking the \
                 invariant — see RUSTSEC-2020-0021 (rio)."@,
            ),
        ],
        help: HELP@,
    }
}

/// A block ends in a return of a drop-critical value that was made in the function.
pub open spec fn returns_fresh(
    types: TyTable,
    critical: Set<u64>,
    body: Body,
    terminator: Terminator,
    state: Seq<Origin>,
) -> bool {
    &&& terminator.kind is Return
    &&& is_one_of(types, critical, body.locals@[0])
    &&& state[0] == Origin::FreshInThisFn
}

/// Looks at the ends of the blocks of one body, and reports the body once.
pub struct ReturnVisitor<'a> {
    pub types: &'a TyTable,
    pub body: &'a Body,
    pub drop_critical: &'a HashSet<u64>,
    pub fn_span: u64,
    pub reported: bool,
}

impl<'a> ReturnVisitor<'a> {
    pub fn visit_after_early_terminator_effect(
        &mut self,
        state: &OriginMap,
        terminator: &Terminator,
    ) -> (r: Option<Diagnostic>)
        requires
            terminator.kind is Return ==> old(self).body.locals@.len() > 0 && state@.len() > 0,
        ensures
            final(self).types == old(self).types,
            final(self).body == old(self).body,
            final(self).drop_critical == old(self).drop_critical,
            final(self).fn_span == old(self).fn_span,
            final(self).reported == (old(self).reported || returns_fresh(
                *old(self).types,
                old(self).drop_critical@,
                *old(self).body,
                *terminator,
                state@,
            )),
            option_view(r) == if final(self).reported && !old(self).reported {
                Some(
                    leak(
                        old(self).fn_span,
                        old(self).types.text_of(old(self).body.locals@[0]),
                    ),
                )
            } else {
                None
            },
    {
        if self.reported {
            return None;
        }
        match &terminator.kind {
            TerminatorKind::Return => {},
            _ => {
                return None;
            },
        }
        let return_ty: usize = self.body.locals[0];
        if !is_drop_critical_ty(self.types, self.drop_critical, return_ty) {
            return None;
        }
        if state.locals[0] != Origin::FreshInThisFn {
            return None;
        }
        self.reported = true;
        let text = self.types.text(return_ty);
        Some(report(self.fn_span, text.as_str()))
    }
}

fn report(span: u64, ty: &str) -> (r: Diagnostic)
    ensures
        r@ == leak(span, ty@),
{
    let mut note = "return type `".to_owned();
    note.append(ty);
    note.append(
        "` is drop-critical (its `Drop` impl maintains an \
         external invariant). Returning it by ownership from safe code lets \
         callers `mem::forget` the value, skipping `Drop` and breaking the \
         invariant — see RUSTSEC-2020-0021 (rio).",
    );
    let r = warning(span, MESSAGE.to_owned(), vec![note], HELP.to_owned());
    assert(r@.notes =~= leak(span, ty@).notes);
    r
}

/// The visited block has an end, and where it returns, the state covers the return value.
pub open spec fn visit_fits(body: Body, visit: Visit<OriginMap>) -> bool {
    &&& visit.block < body.blocks@.len()
    &&& match body.blocks@[visit.block as int].terminator {
        Some(t) => t.kind is Return ==> body.locals@.len() > 0 && visit.state@.len() > 0,
        None => false,
    }
}

/// All visits fit the body.
pub open spec fn visits_fit(body: Body, visits: Seq<Visit<OriginMap>>) -> bool {
    forall|v: int| 0 <= v < visits.len() ==> visit_fits(body, #[trigger] visits[v])
}

/// A visit meets a return of a drop-critical value that was made in the function.
pub open spec fn leaks(krate: Crate, critical: Set<u64>, body: Body, visit: Visit<OriginMap>) -> bool {
    returns_fresh(
        krate.types,
        critical,
        body,
        body.blocks@[visit.block as int].terminator->0,
        visit.state@,
    )
}

/// The warning on a constructor: there is one where some visit meets a return of a value that
/// was made in the function.
pub open spec fn body_report(
    krate: Crate,
    critical: Set<u64>,
    body: Body,
    span: u64,
    visits: Seq<Visit<OriginMap>>,
) -> Option<DiagnosticView> {
    if exists|v: int| 0 <= v < visits.len() && leaks(krate, critical, body, #[trigger] visits[v]) {
        Some(leak(span, krate.types.text_of(body.locals@[0])))
    } else {
        None
    }
}

/// Looks through the visited blocks of one constructor.
pub fn check_function(
    krate: &Crate,
    drop_critical: &HashSet<u64>,
    body: &Body,
    span: u64,
    visits: &Vec<Visit<OriginMap>>,
) -> (r: Option<Diagnostic>)
    requires
        visits_fit(*body, visits@),
    ensures
        option_view(r) == body_report(*krate, drop_critical@, *body, span, visits@),
{
    let mut visitor = ReturnVisitor {
        types: &krate.types,
        body,
        drop_critical,
        fn_span: span,
        reported: false,
    };
    let mut v: usize = 0;
    while v < visits.len()
        invariant
            v <= visits.len(),
            visits_fit(*body, visits@),
            *visitor.types == krate.types,
            *visitor.body == *body,
            *visitor.drop_critical == *drop_critical,
            visitor.fn_span == span,
            !visitor.reported,
            forall|w: int|
                0 <= w < v ==> !leaks(*krate, drop_critical@, *body, #[trigger] visits@[w]),
        decreases visits.len() - v,
    {
        let visit = &visits[v];
        assert(visit_fits(*body, visits@[v as int]));
        if let Some(terminator) = &body.blocks[visit.block].terminator {
            let report = visitor.visit_after_early_terminator_effect(&visit.state, terminator);
            if report.is_some() {
                assert(leaks(*krate, drop_critical@, *body, visits@[v as int]));
                return report;
            }
        }
        v += 1;
    }
    None
}

/// The visits to a body; none where the analysis was not run on it.
pub open spec fn visits_of(flows: Seq<Vec<Visit<OriginMap>>>, body: usize) -> Seq<
    Visit<OriginMap>,
> {
    if body < flows.len() {
        flows[body as int]@
    } else {
        Seq::empty()
    }
}

/// The visits fit the bodies at the same positions.
pub open spec fn flows_fit(krate: Crate, flows: Seq<Vec<Visit<OriginMap>>>) -> bool {
    forall|b: int|
        #![trigger flows[b]]
        0 <= b < krate.bodies@.len() && b < flows.len() ==> visits_fit(
            krate.bodies@[b],
            flows[b]@,
        )
}

/// Whether the visits fit the bodies at the same positions.
pub fn check_flows(krate: &Crate, flows: &Vec<Vec<Visit<OriginMap>>>) -> (r: bool)
    ensures
        r == flows_fit(*krate, flows@),
{
    let mut b: usize = 0;
    while b < krate.bodies.len() && b < flows.len()
        invariant
            b <= krate.bodies.len(),
            b <= flows.len(),
            forall|c: int|
                #![trigger flows@[c]]
                0 <= c < b ==> visits_fit(krate.bodies@[c], flows@[c]@),
        decreases krate.bodies.len() - b,
    {
        let visits = &flows[b];
        let body = &krate.bodies[b];
        let mut v: usize = 0;
        while v < visits.len()
            invariant
                v <= visits.len(),
                b < krate.bodies.len(),
                b < flows.len(),
                *visits == flows@[b as int],
                *body == krate.bodies@[b as int],
                forall|w: int| 0 <= w < v ==> visit_fits(*body, #[trigger] visits@[w]),
            decreases visits.len() - v,
        {
            if !check_visit(body, &visits[v]) {
                assert(!visit_fits(*body, visits@[v as int]));
                assert(!visits_fit(krate.bodies@[b as int], flows@[b as int]@));
                return false;
            }
            v += 1;
        }
        b += 1;
    }
    true
}

fn check_visit(body: &Body, visit: &Visit<OriginMap>) -> (r: bool)
    ensures
        r == visit_fits(*body, *visit),
{
    if visit.block >= body.blocks.len() {
        return false;
    }
    match &body.blocks[visit.block].terminator {
        Some(t) => match &t.kind {
            TerminatorKind::Return => body.locals.len() > 0 && visit.state.locals.len() > 0,
            _ => true,
        },
        None => false,
    }
}

/// The warnings on the given constructors.
pub open spec fn reports(
    krate: Crate,
    critical: Set<u64>,
    flows: Seq<Vec<Visit<OriginMap>>>,
    constructors: Seq<Constructor>,
) -> Seq<DiagnosticView>
    decreases constructors.len(),
{
    if constructors.len() == 0 {
        Seq::empty()
    } else {
        let c = constructors.last();
        reports(krate, critical, flows, constructors.drop_last()) + as_list(
            body_report(
                krate,
                critical,
                krate.bodies@[c.body as int],
                c.span,
                visits_of(flows, c.body),
            ),
        )
    }
}

/// The warnings on a crate, in the order of its constructors.
pub open spec fn crate_reports(krate: Crate, flows: Seq<Vec<Visit<OriginMap>>>) -> Seq<
    DiagnosticView,
> {
    reports(krate, critical_types(krate), flows, constructors_of(krate))
}

/// Looks at all constructors of drop-critical types, given the visits that the analysis made to
/// their bodies.
pub fn check_crate(krate: &Crate, flows: &Vec<Vec<Visit<OriginMap>>>) -> (r: Vec<Diagnostic>)
    requires
        flows_fit(*krate, flows@),
    ensures
        diagnostic_views(r@) == crate_reports(*krate, flows@),
{
    let drop_critical = classify_drop_critical_types(krate);
    let constructors = scan_constructors(krate, &drop_critical);
    proof {
        lemma_constructor_bodies(*krate, drop_critical@, items_of(*krate));
    }
    let mut out: Vec<Diagnostic> = Vec::new();
    let mut i: usize = 0;
    assert(diagnostic_views(out@) =~= Seq::empty());
    while i < constructors.len()
        invariant
            i <= constructors.len(),
            flows_fit(*krate, flows@),
            forall|j: int|
                0 <= j < constructors@.len() ==> (#[trigger] constructors@[j]).body
                    < krate.bodies@.len(),
            diagnostic_views(out@) =~= reports(
                *krate,
                drop_critical@,
                flows@,
                constructors@.take(i as int),
            ),
        decreases constructors.len() - i,
    {
        assert(constructors@.take(i + 1).drop_last() =~= constructors@.take(i as int));
        let c = constructors[i];
        assert(constructors@[i as int].body < krate.bodies@.len());
        if c.body < flows.len() {
            assert(visits_fit(krate.bodies@[c.body as int], flows@[c.body as int]@));
            let report = check_function(
                krate,
                &drop_critical,
                &krate.bodies[c.body],
                c.span,
                &flows[c.body],
            );
            push_if_some(&mut out, report);
        }
        i += 1;
    }
    assert(constructors@.take(constructors@.len() as int) =~= constructors@);
    out
}

// ---------------------------------------------------------------------------------------------
// Laws
// ---------------------------------------------------------------------------------------------

/// Every constructor that is looked at has a body in the crate.
pub proof fn lemma_constructor_bodies(krate: Crate, critical: Set<u64>, order: Seq<usize>)
    ensures
        forall|j: int|
            0 <= j < constructors_in(krate, critical, order).len() ==> (#[trigger] constructors_in(
                krate,
                critical,
                order,
            )[j]).body < krate.bodies@.len(),
    decreases order.len(),
{
    if order.len() > 0 {
        let rest = constructors_in(krate, critical, order.drop_last());
        let all = constructors_in(krate, critical, order);
        let kind = krate.items@[order.last() as int].kind;
        lemma_constructor_bodies(krate, critical, order.drop_last());
        match kind {
            ItemKind::Impl(data) => {
                lemma_member_bodies(krate, critical, data.items@);
            },
            _ => {},
        }
        let added = item_constructors(krate, critical, kind);
        assert forall|j: int| 0 <= j < all.len() implies (#[trigger] all[j]).body
            < krate.bodies@.len() by {
            if j < rest.len() {
                assert(all[j] == rest[j]);
            } else {
                assert(all[j] == added[j - rest.len()]);
            }
        }
    }
}

proof fn lemma_member_bodies(krate: Crate, critical: Set<u64>, members: Seq<ImplItem>)
    ensures
        forall|j: int|
            0 <= j < member_constructors(krate, critical, members).len() ==> (
            #[trigger] member_constructors(krate, critical, members)[j]).body < krate.bodies@.len(),
    decreases members.len(),
{
    if members.len() > 0 {
        let rest = member_constructors(krate, critical, members.drop_last());
        let all = member_constructors(krate, critical, members);
        lemma_member_bodies(krate, critical, members.drop_last());
        assert forall|j: int| 0 <= j < all.len() implies (#[trigger] all[j]).body
            < krate.bodies@.len() by {
            if j < rest.len() {
                assert(all[j] == rest[j]);
            }
        }
    }
}

/// Where a crate declares no drop-critical type, there is no warning.
pub proof fn lemma_nothing_critical_no_reports(krate: Crate, flows: Seq<Vec<Visit<OriginMap>>>)
    requires
        critical_types(krate) == Set::<u64>::empty(),
    ensures
        crate_reports(krate, flows) == Seq::<DiagnosticView>::empty(),
{
    lemma_nothing_critical_no_constructors(krate, items_of(krate));
}

proof fn lemma_nothing_critical_no_constructors(krate: Crate, order: Seq<usize>)
    ensures
        constructors_in(krate, Set::<u64>::empty(), order) == Seq::<Constructor>::empty(),
    decreases order.len(),
{
    if order.len() > 0 {
        lemma_nothing_critical_no_constructors(krate, order.drop_last());
        match krate.items@[order.last() as int].kind {
            ItemKind::Impl(data) => {
                lemma_nothing_critical_no_members(krate, data.items@);
            },
            _ => {},
        }
        assert(constructors_in(krate, Set::<u64>::empty(), order) =~= Seq::<Constructor>::empty());
    }
}

proof fn lemma_nothing_critical_no_members(krate: Crate, members: Seq<ImplItem>)
    ensures
        member_constructors(krate, Set::<u64>::empty(), members) == Seq::<Constructor>::empty(),
    decreases members.len(),
{
    if members.len() > 0 {
        lemma_nothing_critical_no_members(krate, members.drop_last());
        assert(member_constructors(krate, Set::<u64>::empty(), members) =~= Seq::<
            Constructor,
        >::empty());
    }
}

/// A constructor gets at most one warning.
pub proof fn lemma_one_report_per_constructor(
    krate: Crate,
    critical: Set<u64>,
    flows: Seq<Vec<Visit<OriginMap>>>,
    constructors: Seq<Constructor>,
)
    ensures
        reports(krate, critical, flows, constructors).len() <= constructors.len(),
    decreases constructors.len(),
{
    if constructors.len() > 0 {
        lemma_one_report_per_constructor(krate, critical, flows, constructors.drop_last());
    }
}

/// Following the advice of a warning silences it: a function that is unsafe, that returns no
/// drop-critical type, or that is not public, is not looked at as a constructor.
pub proof fn lemma_not_a_constructor(krate: Crate, critical: Set<u64>, f: FnDecl)
    requires
        f.is_unsafe || !f.is_public || !is_one_of(krate.types, critical, f.output),
    ensures
        fn_constructors(krate, critical, f) == Seq::<Constructor>::empty(),
{
}

} // verus!
