//! Safe functions that call `Pin::new_unchecked` on memory that came from a parameter.

use crate::analysis::paths::names_pin_new_unchecked;
use crate::analysis::provenance::{
    operand_provenance, provenance_of_operand, Provenance, ProvenanceMap,
};
use crate::analysis::util::{callee_of, is_pin_new_unchecked, mir_callee_def_id};
use crate::diagnostic::{
    diagnostic_views, option_view, plain_note, push_if_some, warning, Diagnostic, DiagnosticView,
};
use crate::flow::{check_terminator, operand_fits, terminator_fits, Visit};
use crate::model::{Body, BodyOwner, Crate, DefKind, OperandKind, Terminator, TerminatorKind};
use std::collections::HashSet;
use vstd::prelude::*;
use vstd::std_specs::hash::*;
use vstd::string::*;

verus! {

broadcast use group_hash_axioms;

pub const MESSAGE: &'static str =
    "`Pin::new_unchecked` is called on memory whose pinning invariant \
     is not enforced by this function's signature";

pub const FROM_PARAM_NOTE: &'static str =
    "argument provenance traces back to a function parameter";

pub const MIXED_NOTE: &'static str =
    "argument provenance is `Mixed` — at least one control-flow path \
     reaches here from a function parameter";

pub const CONTRACT_NOTE: &'static str =
    "callers of this safe function never opted into the pinning \
     contract — they passed an ordinary `&mut T` and received back \
     a `Pin<&mut T>` that depends on storage stability";

pub const HELP: &'static str =
    "either mark this function `unsafe` and document the pinning \
     precondition, or change the receiver to `Pin<&mut Self>` \
     (or take the value by ownership in a Box) so that the caller \
     must establish the pinning invariant before calling";

/// The warning on a call with an argument of the given provenance.
pub open spec fn unchecked_call(span: u64, provenance: Provenance) -> DiagnosticView {
    DiagnosticView {
        span,
        message: MESSAGE@,
        notes: seq![
            plain_note(
                if provenance == Provenance::FromParam {
                    FROM_PARAM_NOTE@
                } else {
                    MIXED_NOTE@
                },
            ),
            plain_note(CONTRACT_NOTE@),
        ],
        help: HELP@,
    }
}

/// The provenance of the argument, where a block ends in a call of `Pin::new_unchecked` whose
/// argument may point to memory from a parameter.
pub open spec fn suspicious_call(terminator: Terminator, state: Seq<Provenance>) -> Option<
    Provenance,
> {
    match terminator.kind {
        TerminatorKind::Call { func, args, .. } => match callee_of(func) {
            Some(def) => if names_pin_new_unchecked(def.path@) && args@.len() > 0 {
                match args@[0].kind {
                    OperandKind::Constant(_) => None,
                    _ => if operand_provenance(args@[0], state).suspicious() {
                        Some(operand_provenance(args@[0], state))
                    } else {
                        None
                    },
                }
            } else {
                None
            },
            None => None,
        },
        _ => None,
    }
}

/// Looks at the ends of the blocks of one body, and reports each place once.
pub struct CallSiteVisitor {
    pub reported_at: HashSet<u64>,
}

impl CallSiteVisitor {
    pub fn new() -> (r: CallSiteVisitor)
        ensures
            r.reported_at@ == Set::<u64>::empty(),
    {
        CallSiteVisitor { reported_at: HashSet::new() }
    }

    pub fn visit_after_early_terminator_effect(
        &mut self,
        state: &ProvenanceMap,
        terminator: &Terminator,
    ) -> (r: Option<Diagnostic>)
        requires
            terminator_fits(*terminator, state@.len()),
        ensures
            match suspicious_call(*terminator, state@) {
                Some(p) => {
                    &&& final(self).reported_at@ == old(self).reported_at@.insert(terminator.span)
                    &&& option_view(r) == if old(self).reported_at@.contains(terminator.span) {
                        None
                    } else {
                        Some(unchecked_call(terminator.span, p))
                    }
                },
                None => {
                    &&& final(self).reported_at@ == old(self).reported_at@
                    &&& r is None
                },
            },
    {
        if let TerminatorKind::Call { func, args, .. } = &terminator.kind {
            if let Some(callee) = mir_callee_def_id(func) {
                if is_pin_new_unchecked(callee) && args.len() > 0 {
                    assert(operand_fits(args@[0], state@.len()));
                    if let OperandKind::Constant(_) = &args[0].kind {
                        return None;
                    }
                    let provenance = provenance_of_operand(&args[0], state);
                    if provenance.is_suspicious() {
                        if self.reported_at.insert(terminator.span) {
                            return Some(report(terminator.span, provenance));
                        }
                        assert(final(self).reported_at@ =~= old(self).reported_at@.insert(
                            terminator.span,
                        ));
                    }
                }
            }
        }
        None
    }
}

fn report(span: u64, provenance: Provenance) -> (r: Diagnostic)
    requires
        provenance.suspicious(),
    ensures
        r@ == unchecked_call(span, provenance),
{
    let note = match provenance {
        Provenance::FromParam => FROM_PARAM_NOTE,
        _ => MIXED_NOTE,
    };
    let r = warning(
        span,
        MESSAGE.to_owned(),
        vec![note.to_owned(), CONTRACT_NOTE.to_owned()],
        HELP.to_owned(),
    );
    assert(r@.notes =~= unchecked_call(span, provenance).notes);
    r
}

/// The visited block has an end, and its state covers the local variables read there.
pub open spec fn visit_fits(body: Body, visit: Visit<ProvenanceMap>) -> bool {
    &&& visit.block < body.blocks@.len()
    &&& match body.blocks@[visit.block as int].terminator {
        Some(t) => terminator_fits(t, visit.state@.len()),
        None => false,
    }
}

/// All visits fit the body.
pub open spec fn visits_fit(body: Body, visits: Seq<Visit<ProvenanceMap>>) -> bool {
    forall|v: int| 0 <= v < visits.len() ==> visit_fits(body, #[trigger] visits[v])
}

/// The end of the visited block.
pub open spec fn visited(body: Body, visit: Visit<ProvenanceMap>) -> Terminator {
    body.blocks@[visit.block as int].terminator->0
}

/// What is suspicious about the end of the visited block.
pub open spec fn suspicious_visit(body: Body, visit: Visit<ProvenanceMap>) -> Option<Provenance> {
    suspicious_call(visited(body, visit), visit.state@)
}

/// A suspicious call was met at the given place.
pub open spec fn met_at(body: Body, visits: Seq<Visit<ProvenanceMap>>, span: u64) -> bool {
    exists|v: int|
        0 <= v < visits.len() && suspicious_visit(body, #[trigger] visits[v]) is Some && visited(
            body,
            visits[v],
        ).span == span
}

/// The warnings on the visited blocks of a body: one for each place with a suspicious call, at
/// the first visit that meets it.
pub open spec fn body_reports(body: Body, visits: Seq<Visit<ProvenanceMap>>) -> Seq<DiagnosticView>
    decreases visits.len(),
{
    if visits.len() == 0 {
        Seq::empty()
    } else {
        let before = visits.drop_last();
        let span = visited(body, visits.last()).span;
        body_reports(body, before) + match suspicious_visit(body, visits.last()) {
            Some(p) => if met_at(body, before, span) {
                Seq::empty()
            } else {
                seq![unchecked_call(span, p)]
            },
            None => Seq::empty(),
        }
    }
}

/// Looks through the visited blocks of one body.
pub fn check_function(body: &Body, visits: &Vec<Visit<ProvenanceMap>>, out: &mut Vec<Diagnostic>)
    requires
        visits_fit(*body, visits@),
    ensures
        diagnostic_views(final(out)@) == diagnostic_views(old(out)@) + body_reports(*body, visits@),
{
    let ghost start = diagnostic_views(out@);
    let mut visitor = CallSiteVisitor::new();
    let mut v: usize = 0;
    assert(start + Seq::<DiagnosticView>::empty() =~= start);
    while v < visits.len()
        invariant
            v <= visits.len(),
            visits_fit(*body, visits@),
            forall|span: u64| #[trigger]
                visitor.reported_at@.contains(span) <==> met_at(
                    *body,
                    visits@.take(v as int),
                    span,
                ),
            diagnostic_views(out@) =~= start + body_reports(*body, visits@.take(v as int)),
        decreases visits.len() - v,
    {
        let ghost before = visits@.take(v as int);
        let ghost after = visits@.take(v + 1);
        assert(after.drop_last() =~= before);
        assert(visit_fits(*body, visits@[v as int]));
        let visit = &visits[v];
        if let Some(terminator) = &body.blocks[visit.block].terminator {
            let report = visitor.visit_after_early_terminator_effect(&visit.state, terminator);
            push_if_some(out, report);
        }
        assert forall|span: u64| #[trigger]
            visitor.reported_at@.contains(span) <==> met_at(*body, after, span) by {
            if met_at(*body, before, span) {
                let w = choose|w: int|
                    0 <= w < before.len() && suspicious_visit(*body, #[trigger] before[w]) is Some
                        && visited(*body, before[w]).span == span;
                assert(after[w] == before[w]);
            }
            if met_at(*body, after, span) {
                let w = choose|w: int|
                    0 <= w < after.len() && suspicious_visit(*body, #[trigger] after[w]) is Some
                        && visited(*body, after[w]).span == span;
                if w < v {
                    assert(before[w] == after[w]);
                }
            }
            assert(after[v as int] == visits@[v as int]);
        }
        v += 1;
    }
    assert(visits@.take(visits@.len() as int) =~= visits@);
}

/// What is to be looked at: functions and methods that are safe to call and have a body here.
pub open spec fn checked_body(krate: Crate, owner: BodyOwner) -> Option<usize> {
    if owner.kind != DefKind::Other && !owner.is_unsafe && krate.body_at(owner.body) is Some {
        owner.body
    } else {
        None
    }
}

/// Whether a definition is to be looked at, and which body it has.
pub fn should_check(krate: &Crate, owner: &BodyOwner) -> (r: Option<usize>)
    ensures
        r == checked_body(*krate, *owner),
        r is Some ==> r->0 < krate.bodies@.len(),
{
    match owner.kind {
        DefKind::Other => {
            return None;
        },
        _ => {},
    }
    if owner.is_unsafe {
        return None;
    }
    match krate.body(owner.body) {
        Some(_) => owner.body,
        None => None,
    }
}

/// The visits to a body; none where the analysis was not run on it.
pub open spec fn visits_of(flows: Seq<Vec<Visit<ProvenanceMap>>>, body: usize) -> Seq<
    Visit<ProvenanceMap>,
> {
    if body < flows.len() {
        flows[body as int]@
    } else {
        Seq::empty()
    }
}

/// The visits fit the bodies at the same positions.
pub open spec fn flows_fit(krate: Crate, flows: Seq<Vec<Visit<ProvenanceMap>>>) -> bool {
    forall|b: int|
        #![trigger flows[b]]
        0 <= b < krate.bodies@.len() && b < flows.len() ==> visits_fit(
            krate.bodies@[b],
            flows[b]@,
        )
}

/// The warnings on the given definitions.
pub open spec fn reports(
    krate: Crate,
    flows: Seq<Vec<Visit<ProvenanceMap>>>,
    owners: Seq<BodyOwner>,
) -> Seq<DiagnosticView>
    decreases owners.len(),
{
    if owners.len() == 0 {
        Seq::empty()
    } else {
        reports(krate, flows, owners.drop_last()) + match checked_body(krate, owners.last()) {
            Some(b) => body_reports(krate.bodies@[b as int], visits_of(flows, b)),
            None => Seq::empty(),
        }
    }
}

/// The warnings on a crate, in the order of its definitions.
pub open spec fn crate_reports(krate: Crate, flows: Seq<Vec<Visit<ProvenanceMap>>>) -> Seq<
    DiagnosticView,
> {
    reports(krate, flows, krate.body_owners@)
}

/// Whether the visits fit the bodies at the same positions.
pub fn check_flows(krate: &Crate, flows: &Vec<Vec<Visit<ProvenanceMap>>>) -> (r: bool)
    ensures
        r == flows_fit(*krate, flows@),
{
    let mut b: usize = 0;
    while b < krate.bodies.len() && b < flows.len()
        invariant
            b <= krate.bodies.len(),
            b <= flows.len(),
            forall|c: int|
                #![trigger flows@[c]]
                0 <= c < b ==> visits_fit(krate.bodies@[c], flows@[c]@),
        decreases krate.bodies.len() - b,
    {
        let visits = &flows[b];
        let body = &krate.bodies[b];
        let mut v: usize = 0;
        while v < visits.len()
            invariant
                v <= visits.len(),
                b < krate.bodies.len(),
                b < flows.len(),
                *visits == flows@[b as int],
                *body == krate.bodies@[b as int],
                forall|w: int| 0 <= w < v ==> visit_fits(*body, #[trigger] visits@[w]),
            decreases visits.len() - v,
        {
            if !check_visit(body, &visits[v]) {
                assert(!visit_fits(*body, visits@[v as int]));
                assert(!visits_fit(krate.bodies@[b as int], flows@[b as int]@));
                return false;
            }
            v += 1;
        }
        b += 1;
    }
    true
}

fn check_visit(body: &Body, visit: &Visit<ProvenanceMap>) -> (r: bool)
    ensures
        r == visit_fits(*body, *visit),
{
    if visit.block >= body.blocks.len() {
        return false;
    }
    match &body.blocks[visit.block].terminator {
        Some(t) => check_terminator(t, visit.state.locals.len()),
        None => false,
    }
}

/// The bodies that the analysis has to be run on.
pub open spec fn checked_bodies(krate: Crate, owners: Seq<BodyOwner>) -> Seq<usize>
    decreases owners.len(),
{
    if owners.len() == 0 {
        Seq::empty()
    } else {
        let rest = checked_bodies(krate, owners.drop_last());
        match checked_body(krate, owners.last()) {
            Some(b) => rest.push(b),
            None => rest,
        }
    }
}

/// The bodies that the analysis has to be run on.
pub fn bodies_to_check(krate: &Crate) -> (r: Vec<usize>)
    ensures
        r@ == checked_bodies(*krate, krate.body_owners@),
{
    let mut out: Vec<usize> = Vec::new();
    let mut i: usize = 0;
    while i < krate.body_owners.len()
        invariant
            i <= krate.body_owners.len(),
            out@ =~= checked_bodies(*krate, krate.body_owners@.take(i as int)),
        decreases krate.body_owners.len() - i,
    {
        assert(krate.body_owners@.take(i + 1).drop_last() =~= krate.body_owners@.take(i as int));
        if let Some(b) = should_check(krate, &krate.body_owners[i]) {
            out.push(b);
        }
        i += 1;
    }
    assert(krate.body_owners@.take(krate.body_owners@.len() as int) =~= krate.body_owners@);
    out
}

/// Looks at all safe functions, given the visits that the analysis made to their bodies.
pub fn check_crate(krate: &Crate, flows: &Vec<Vec<Visit<ProvenanceMap>>>) -> (r: Vec<Diagnostic>)
    requires
        flows_fit(*krate, flows@),
    ensures
        diagnostic_views(r@) == crate_reports(*krate, flows@),
{
    let mut out: Vec<Diagnostic> = Vec::new();
    let mut i: usize = 0;
    assert(diagnostic_views(out@) =~= Seq::empty());
    while i < krate.body_owners.len()
        invariant
            i <= krate.body_owners.len(),
            flows_fit(*krate, flows@),
            diagnostic_views(out@) =~= reports(
                *krate,
                flows@,
                krate.body_owners@.take(i as int),
            ),
        decreases krate.body_owners.len() - i,
    {
        assert(krate.body_owners@.take(i + 1).drop_last() =~= krate.body_owners@.take(i as int));
        if let Some(b) = should_check(krate, &krate.body_owners[i]) {
            if b < flows.len() {
                assert(visits_fit(krate.bodies@[b as int], flows@[b as int]@));
                check_function(&krate.bodies[b], &flows[b], &mut out);
            }
        }
        i += 1;
    }
    assert(krate.body_owners@.take(krate.body_owners@.len() as int) =~= krate.body_owners@);
    out
}

/// Each place of a body is reported at most once.
pub proof fn lemma_place_reported_once(body: Body, visits: Seq<Visit<ProvenanceMap>>)
    ensures
        forall|i: int, j: int|
            0 <= i < j < body_reports(body, visits).len() ==> (#[trigger] body_reports(
                body,
                visits,
            )[i]).span != (#[trigger] body_reports(body, visits)[j]).span,
        forall|i: int|
            0 <= i < body_reports(body, visits).len() ==> met_at(
                body,
                visits,
                (#[trigger] body_reports(body, visits)[i]).span,
            ),
    decreases visits.len(),
{
    if visits.len() > 0 {
        let before = visits.drop_last();
        let old_reports = body_reports(body, before);
        let all = body_reports(body, visits);
        lemma_place_reported_once(body, before);
        assert(visits.last() == visits[visits.len() - 1]);
        assert forall|i: int| 0 <= i < all.len() implies met_at(
            body,
            visits,
            (#[trigger] all[i]).span,
        ) by {
            if i < old_reports.len() {
                assert(all[i] == old_reports[i]);
                let w = choose|w: int|
                    0 <= w < before.len() && suspicious_visit(body, #[trigger] before[w]) is Some
                        && visited(body, before[w]).span == old_reports[i].span;
                assert(visits[w] == before[w]);
            } else {
                assert(suspicious_visit(body, visits[visits.len() - 1]) is Some);
            }
        }
        assert forall|i: int, j: int| 0 <= i < j < all.len() implies (#[trigger] all[i]).span != (
        #[trigger] all[j]).span by {
            assert(all[i] == old_reports[i]);
            if j < old_reports.len() {
                assert(all[j] == old_reports[j]);
            }
        }
    }
}

/// Every place where a visit meets a suspicious call is reported.
pub proof fn lemma_suspicious_place_reported(
    body: Body,
    visits: Seq<Visit<ProvenanceMap>>,
    span: u64,
)
    requires
        met_at(body, visits, span),
    ensures
        exists|i: int|
            0 <= i < body_reports(body, visits).len() && (#[trigger] body_reports(
                body,
                visits,
            )[i]).span == span,
    decreases visits.len(),
{
    let before = visits.drop_last();
    let old_reports = body_reports(body, before);
    let all = body_reports(body, visits);
    if met_at(body, before, span) {
        lemma_suspicious_place_reported(body, before, span);
        let i = choose|i: int| 0 <= i < old_reports.len() && (#[trigger] old_reports[i]).span == span;
        assert(all[i] == old_reports[i]);
    } else {
        let w = choose|w: int|
            0 <= w < visits.len() && suspicious_visit(body, #[trigger] visits[w]) is Some
                && visited(body, visits[w]).span == span;
        if w < visits.len() - 1 {
            assert(before[w] == visits[w]);
            assert(met_at(body, before, span));
        }
        assert(all[old_reports.len() as int].span == span);
    }
}

/// Following the advice of a warning silences it: an unsafe function adds nothing to the
/// warnings on the functions around it.
pub proof fn lemma_unsafe_function_not_reported(
    krate: Crate,
    flows: Seq<Vec<Visit<ProvenanceMap>>>,
    before: Seq<BodyOwner>,
    owner: BodyOwner,
    after: Seq<BodyOwner>,
)
    requires
        owner.is_unsafe,
    ensures
        reports(krate, flows, before + seq![owner] + after) == reports(
            krate,
            flows,
            before + after,
        ),
    decreases after.len(),
{
    let with = before + seq![owner] + after;
    let without = before + after;
    if after.len() == 0 {
        assert(with.drop_last() =~= before);
        assert(without =~= before);
        assert(with.last() == owner);
        let rest = reports(krate, flows, before);
        assert(rest + Seq::<DiagnosticView>::empty() =~= rest);
    } else {
        assert(with.drop_last() =~= before + seq![owner] + after.drop_last());
        assert(without.drop_last() =~= before + after.drop_last());
        lemma_unsafe_function_not_reported(krate, flows, before, owner, after.drop_last());
    }
}

} // verus!
