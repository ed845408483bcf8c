//! Which calls of `Pin::new_unchecked` are warned about.

use crate::analysis::laws::common::{is_new_unchecked, lemma_contains_append, lemma_quotes, quotes};
use crate::analysis::paths::lemma_pin_paths;
use crate::analysis::provenance::{Provenance, ProvenanceMap};
use crate::analysis::safe_pin_unchecked::{self, unchecked_call};
use crate::diagnostic::DiagnosticView;
use crate::flow::{terminator_fits, Visit};
use crate::model::{Block, Body, BodyOwner, Crate, DefKind, OperandKind, TerminatorKind};
use vstd::prelude::*;

verus! {

/// The definition is a safe function or method with the given compiled body.
pub open spec fn is_safe_fn(krate: Crate, owner: BodyOwner, b: int) -> bool {
    &&& owner.kind == DefKind::Fn || owner.kind == DefKind::AssocFn
    &&& !owner.is_unsafe
    &&& 0 <= b < krate.bodies@.len()
    &&& owner.body == Some(b as usize)
}

/// The block ends, at the given place, in a call of `Pin::new_unchecked` on what a local variable
/// holds, and the provenance of that variable is the given one.
pub open spec fn pins_local(
    block: Block,
    state: Seq<Provenance>,
    span: u64,
    provenance: Provenance,
) -> bool {
    match block.terminator {
        Some(t) => t.span == span && match t.kind {
            TerminatorKind::Call { func, args, .. } => match func.kind {
                OperandKind::Constant(Some(f)) => is_new_unchecked(f.def.path@) && args@.len() > 0
                    && match args@[0].kind {
                    OperandKind::Move(place) => state[place.local as int] == provenance,
                    OperandKind::Copy(place) => state[place.local as int] == provenance,
                    OperandKind::Constant(_) => false,
                },
                _ => false,
            },
            _ => false,
        },
        None => false,
    }
}

/// The visit comes to a call of `Pin::new_unchecked`, at the given place, on memory that on some
/// way came from a parameter.
pub open spec fn pins_parameter(body: Body, visit: Visit<ProvenanceMap>, span: u64) -> bool {
    ||| pins_local(
        body.blocks@[visit.block as int],
        visit.state.locals@,
        span,
        Provenance::FromParam,
    )
    ||| pins_local(
        body.blocks@[visit.block as int],
        visit.state.locals@,
        span,
        Provenance::Mixed,
    )
}

proof fn lemma_suspicious_visit(body: Body, visit: Visit<ProvenanceMap>)
    requires
        safe_pin_unchecked::visit_fits(body, visit),
    ensures
        forall|span: u64| #[trigger]
            pins_parameter(body, visit, span) <==> safe_pin_unchecked::suspicious_visit(
                body,
                visit,
            ) is Some && safe_pin_unchecked::visited(body, visit).span == span,
        forall|p: Provenance|
            safe_pin_unchecked::suspicious_visit(body, visit) == Some(p) ==> (p
                == Provenance::FromParam || p == Provenance::Mixed) && #[trigger] pins_local(
                body.blocks@[visit.block as int],
                visit.state.locals@,
                safe_pin_unchecked::visited(body, visit).span,
                p,
            ),
{
    let t = safe_pin_unchecked::visited(body, visit);
    match t.kind {
        TerminatorKind::Call { func, args, .. } => {
            match func.kind {
                OperandKind::Constant(Some(f)) => {
                    lemma_pin_paths(f.def.path@);
                },
                _ => {},
            }
        },
        _ => {},
    }
}

/// A safe function or method with a body in the crate adds the warnings on its own body, and
/// other definitions add none, whatever stands before and after.
pub proof fn lemma_functions_by_themselves(
    krate: Crate,
    flows: Seq<Vec<Visit<ProvenanceMap>>>,
    before: Seq<BodyOwner>,
    owner: BodyOwner,
    after: Seq<BodyOwner>,
)
    ensures
        forall|b: int|
            is_safe_fn(krate, owner, b) ==> safe_pin_unchecked::reports(
                krate,
                flows,
                before + seq![owner] + after,
            ) == safe_pin_unchecked::reports(krate, flows, before)
                + safe_pin_unchecked::body_reports(
                #[trigger] krate.bodies@[b],
                if b < flows.len() {
                    flows[b]@
                } else {
                    Seq::empty()
                },
            ) + safe_pin_unchecked::reports(krate, flows, after),
        (forall|b: int| !is_safe_fn(krate, owner, b)) ==> safe_pin_unchecked::reports(
            krate,
            flows,
            before + seq![owner] + after,
        ) == safe_pin_unchecked::reports(krate, flows, before) + safe_pin_unchecked::reports(
            krate,
            flows,
            after,
        ),
    decreases after.len(),
{
    let all = before + seq![owner] + after;
    let first = safe_pin_unchecked::reports(krate, flows, before);
    let own = match safe_pin_unchecked::checked_body(krate, owner) {
        Some(b) => safe_pin_unchecked::body_reports(
            krate.bodies@[b as int],
            safe_pin_unchecked::visits_of(flows, b),
        ),
        None => Seq::empty(),
    };
    let last = safe_pin_unchecked::reports(krate, flows, after);
    match safe_pin_unchecked::checked_body(krate, owner) {
        Some(b) => {
            assert(is_safe_fn(krate, owner, b as int));
        },
        None => {
            assert(krate.bodies@.len() == krate.bodies.len());
        },
    }
    assert(safe_pin_unchecked::reports(krate, flows, all) == first + own + last) by {
        if after.len() == 0 {
            assert(all.drop_last() =~= before);
            assert(all.last() == owner);
            assert(first + own + last =~= first + own);
        } else {
            assert(all.drop_last() =~= before + seq![owner] + after.drop_last());
            assert(all.last() == after.last());
            lemma_functions_by_themselves(krate, flows, before, owner, after.drop_last());
            assert(safe_pin_unchecked::reports(krate, flows, all) =~= first + own + last);
        }
    }
    assert(krate.bodies@.len() == krate.bodies.len());
    assert forall|b: int| is_safe_fn(krate, owner, b) implies own
        == safe_pin_unchecked::body_reports(
        #[trigger] krate.bodies@[b],
        if b < flows.len() {
            flows[b]@
        } else {
            Seq::empty()
        },
    ) by {
        assert(safe_pin_unchecked::checked_body(krate, owner) == Some(b as usize));
    }
    if forall|b: int| !is_safe_fn(krate, owner, b) {
        assert(first + own + last =~= first + last);
    }
}

/// The crate has a warning on unchecked pins at a place exactly when a visit to the body of one of
/// its safe functions comes there to a call of `Pin::new_unchecked` on memory from a parameter.
pub proof fn lemma_unchecked_pins_found(
    krate: Crate,
    flows: Seq<Vec<Visit<ProvenanceMap>>>,
    span: u64,
)
    requires
        safe_pin_unchecked::flows_fit(krate, flows),
    ensures
        (exists|d: DiagnosticView| #[trigger]
            safe_pin_unchecked::crate_reports(krate, flows).contains(d) && d.span == span)
            <==> exists|o: int, b: int, v: int|
            {
                &&& 0 <= o < krate.body_owners@.len()
                &&& #[trigger] is_safe_fn(krate, krate.body_owners@[o], b)
                &&& b < flows.len()
                &&& 0 <= v < flows[b]@.len()
                &&& #[trigger] pins_parameter(krate.bodies@[b], flows[b]@[v], span)
            },
{
    let owners = krate.body_owners@;
    assert(krate.bodies@.len() == krate.bodies.len());
    if exists|d: DiagnosticView| #[trigger]
        safe_pin_unchecked::crate_reports(krate, flows).contains(d) && d.span == span {
        let d = choose|d: DiagnosticView| #[trigger]
            safe_pin_unchecked::crate_reports(krate, flows).contains(d) && d.span == span;
        lemma_unchecked_in(krate, flows, owners, d);
        let o = choose|o: int|
            0 <= o < owners.len() && owner_warned(krate, flows, #[trigger] owners[o], d);
        let b = safe_pin_unchecked::checked_body(krate, owners[o])->0 as int;
        assert(is_safe_fn(krate, owners[o], b));
        let body = krate.bodies@[b];
        let visits = safe_pin_unchecked::visits_of(flows, b as usize);
        let k = safe_pin_unchecked::body_reports(body, visits).index_of(d);
        safe_pin_unchecked::lemma_place_reported_once(body, visits);
        assert(safe_pin_unchecked::body_reports(body, visits)[k] == d);
        let v = choose|v: int|
            0 <= v < visits.len() && safe_pin_unchecked::suspicious_visit(
                body,
                #[trigger] visits[v],
            ) is Some && safe_pin_unchecked::visited(body, visits[v]).span == span;
        assert(safe_pin_unchecked::visits_fit(body, flows[b]@));
        assert(safe_pin_unchecked::visit_fits(body, visits[v]));
        lemma_suspicious_visit(body, visits[v]);
        assert(pins_parameter(body, flows[b]@[v], span));
    }
    if exists|o: int, b: int, v: int|
        {
            &&& 0 <= o < krate.body_owners@.len()
            &&& #[trigger] is_safe_fn(krate, krate.body_owners@[o], b)
            &&& b < flows.len()
            &&& 0 <= v < flows[b]@.len()
            &&& #[trigger] pins_parameter(krate.bodies@[b], flows[b]@[v], span)
        } {
        let (o, b, v) = choose|o: int, b: int, v: int|
            {
                &&& 0 <= o < krate.body_owners@.len()
                &&& #[trigger] is_safe_fn(krate, krate.body_owners@[o], b)
                &&& b < flows.len()
                &&& 0 <= v < flows[b]@.len()
                &&& #[trigger] pins_parameter(krate.bodies@[b], flows[b]@[v], span)
            };
        let body = krate.bodies@[b];
        let visits = flows[b]@;
        assert(safe_pin_unchecked::visits_fit(body, flows[b]@));
        assert(safe_pin_unchecked::visit_fits(body, visits[v]));
        lemma_suspicious_visit(body, visits[v]);
        assert(safe_pin_unchecked::met_at(body, visits, span));
        safe_pin_unchecked::lemma_suspicious_place_reported(body, visits, span);
        let list = safe_pin_unchecked::body_reports(body, visits);
        let k = choose|k: int| 0 <= k < list.len() && (#[trigger] list[k]).span == span;
        let d = list[k];
        assert(list.contains(d));
        assert(owner_warned(krate, flows, owners[o], d));
        lemma_unchecked_in(krate, flows, owners, d);
    }
}

spec fn owner_warned(
    krate: Crate,
    flows: Seq<Vec<Visit<ProvenanceMap>>>,
    owner: BodyOwner,
    d: DiagnosticView,
) -> bool {
    match safe_pin_unchecked::checked_body(krate, owner) {
        Some(b) => safe_pin_unchecked::body_reports(
            krate.bodies@[b as int],
            safe_pin_unchecked::visits_of(flows, b),
        ).contains(d),
        None => false,
    }
}

proof fn lemma_unchecked_in(
    krate: Crate,
    flows: Seq<Vec<Visit<ProvenanceMap>>>,
    owners: Seq<BodyOwner>,
    d: DiagnosticView,
)
    ensures
        safe_pin_unchecked::reports(krate, flows, owners).contains(d) <==> exists|o: int|
            0 <= o < owners.len() && owner_warned(krate, flows, #[trigger] owners[o], d),
    decreases owners.len(),
{
    if owners.len() > 0 {
        let rest = owners.drop_last();
        let before = safe_pin_unchecked::reports(krate, flows, rest);
        lemma_unchecked_in(krate, flows, rest, d);
        assert(owners[owners.len() - 1] == owners.last());
        assert(forall|o: int| 0 <= o < rest.len() ==> rest[o] == owners[o]);
        match safe_pin_unchecked::checked_body(krate, owners.last()) {
            Some(b) => {
                lemma_contains_append(
                    before,
                    safe_pin_unchecked::body_reports(
                        krate.bodies@[b as int],
                        safe_pin_unchecked::visits_of(flows, b),
                    ),
                    d,
                );
            },
            None => {
                lemma_contains_append(before, Seq::<DiagnosticView>::empty(), d);
            },
        }
    }
}

/// The warning at a place is the one that the first visit to it calls for: it says whether the
/// memory comes from a parameter on all ways or on some. Later visits add warnings behind those
/// there are.
pub proof fn lemma_first_visit_decides(
    body: Body,
    visits: Seq<Visit<ProvenanceMap>>,
    next: Visit<ProvenanceMap>,
    span: u64,
    p: Provenance,
)
    requires
        safe_pin_unchecked::visits_fit(body, visits),
        safe_pin_unchecked::visit_fits(body, next),
    ensures
        pins_local(body.blocks@[next.block as int], next.state.locals@, span, p) && (p
            == Provenance::FromParam || p == Provenance::Mixed) && (forall|v: int|
            0 <= v < visits.len() ==> !pins_parameter(body, #[trigger] visits[v], span))
            ==> safe_pin_unchecked::body_reports(body, visits.push(next))
            == safe_pin_unchecked::body_reports(body, visits).push(unchecked_call(span, p)),
        (forall|s: u64| !pins_parameter(body, next, s)) || (pins_parameter(body, next, span)
            && exists|v: int|
            0 <= v < visits.len() && pins_parameter(body, #[trigger] visits[v], span))
            ==> safe_pin_unchecked::body_reports(body, visits.push(next))
            == safe_pin_unchecked::body_reports(body, visits),
{
    let all = visits.push(next);
    let here = safe_pin_unchecked::visited(body, next).span;
    assert(all.drop_last() =~= visits);
    lemma_suspicious_visit(body, next);
    assert forall|v: int| 0 <= v < visits.len() implies (pins_parameter(
        body,
        #[trigger] visits[v],
        span,
    ) <==> safe_pin_unchecked::suspicious_visit(body, visits[v]) is Some
        && safe_pin_unchecked::visited(body, visits[v]).span == span) by {
        lemma_suspicious_visit(body, visits[v]);
    }
    assert(safe_pin_unchecked::met_at(body, visits, span) <==> exists|v: int|
        0 <= v < visits.len() && pins_parameter(body, #[trigger] visits[v], span));
    let before = safe_pin_unchecked::body_reports(body, visits);
    assert(before + Seq::<DiagnosticView>::empty() =~= before);
    if pins_local(body.blocks@[next.block as int], next.state.locals@, span, p) && (p
        == Provenance::FromParam || p == Provenance::Mixed) {
        assert(pins_parameter(body, next, span));
        let q = safe_pin_unchecked::suspicious_visit(body, next)->0;
        assert(pins_local(body.blocks@[next.block as int], next.state.locals@, here, q));
        assert(before + seq![unchecked_call(span, p)] =~= before.push(unchecked_call(span, p)));
    }
    if forall|s: u64| !pins_parameter(body, next, s) {
        assert(!pins_parameter(body, next, here));
    }
}

/// The visits fit the bodies exactly when each visit is to a block with an end, and knows of
/// every local variable that this end reads or assigns to.
pub proof fn lemma_flows_fit(krate: Crate, flows: Seq<Vec<Visit<ProvenanceMap>>>)
    ensures
        safe_pin_unchecked::flows_fit(krate, flows) <==> forall|b: int, v: int|
            0 <= b < krate.bodies@.len() && b < flows.len() && 0 <= v < flows[b]@.len() ==> {
                let visit = #[trigger] flows[b]@[v];
                let body = krate.bodies@[b];
                &&& visit.block < body.blocks@.len()
                &&& match body.blocks@[visit.block as int].terminator {
                    Some(end) => terminator_fits(end, visit.state.locals@.len()),
                    None => false,
                }
            },
{
    if safe_pin_unchecked::flows_fit(krate, flows) {
        assert forall|b: int, v: int|
            0 <= b < krate.bodies@.len() && b < flows.len() && 0 <= v
                < flows[b]@.len() implies safe_pin_unchecked::visit_fits(
            krate.bodies@[b],
            #[trigger] flows[b]@[v],
        ) by {
            assert(safe_pin_unchecked::visits_fit(krate.bodies@[b], flows[b]@));
        }
    } else {
        let b = choose|b: int|
            0 <= b < krate.bodies@.len() && b < flows.len() && !safe_pin_unchecked::visits_fit(
                krate.bodies@[b],
                #[trigger] flows[b]@,
            );
        let v = choose|v: int|
            0 <= v < flows[b]@.len() && !safe_pin_unchecked::visit_fits(
                krate.bodies@[b],
                #[trigger] flows[b]@[v],
            );
        assert(flows[b]@[v] == flows[b]@[v]);
    }
}

/// The bodies to look at are those of the safe functions and methods, in the order of the
/// definitions.
pub proof fn lemma_bodies_to_look_at(
    krate: Crate,
    before: Seq<BodyOwner>,
    owner: BodyOwner,
    after: Seq<BodyOwner>,
)
    ensures
        forall|b: int| #[trigger]
            is_safe_fn(krate, owner, b) ==> safe_pin_unchecked::checked_bodies(
                krate,
                before + seq![owner] + after,
            ) == safe_pin_unchecked::checked_bodies(krate, before).push(b as usize)
                + safe_pin_unchecked::checked_bodies(krate, after),
        (forall|b: int| !is_safe_fn(krate, owner, b)) ==> safe_pin_unchecked::checked_bodies(
            krate,
            before + seq![owner] + after,
        ) == safe_pin_unchecked::checked_bodies(krate, before) + safe_pin_unchecked::checked_bodies(
            krate,
            after,
        ),
        safe_pin_unchecked::checked_bodies(krate, Seq::empty()) == Seq::<usize>::empty(),
    decreases after.len(),
{
    let all = before + seq![owner] + after;
    if after.len() == 0 {
        assert(all.drop_last() =~= before);
        assert(all.last() == owner);
        if forall|b: int| !is_safe_fn(krate, owner, b) {
            match owner.body {
                Some(b) => {
                    assert(!is_safe_fn(krate, owner, b as int));
                },
                None => {},
            }
        }
    } else {
        lemma_bodies_to_look_at(krate, before, owner, after.drop_last());
        assert(all.drop_last() =~= before + seq![owner] + after.drop_last());
        assert(all.last() == after.last());
    }
}

/// The warning on an unchecked pin stands at the call, and its first note says whether the
/// memory comes from a parameter on all ways or on some.
pub proof fn lemma_unchecked_call_says(span: u64)
    ensures
        unchecked_call(span, Provenance::FromParam).span == span,
        unchecked_call(span, Provenance::Mixed).span == span,
        unchecked_call(span, Provenance::FromParam).notes.len() == 2,
        unchecked_call(span, Provenance::Mixed).notes.len() == 2,
        unchecked_call(span, Provenance::FromParam).notes[0].text
            == "argument provenance traces back to a function parameter"@,
        quotes(unchecked_call(span, Provenance::Mixed).notes[0].text, "Mixed"@),
        unchecked_call(span, Provenance::FromParam).notes[0].span is None,
        unchecked_call(span, Provenance::Mixed).notes[0].span is None,
{
    let text = unchecked_call(span, Provenance::Mixed).notes[0].text;
    reveal_strlit("Mixed");
    reveal_strlit(
        "argument provenance is `Mixed` — at least one control-flow path \
     reaches here from a function parameter",
    );
    assert(text.take(24) + "Mixed"@ + text.skip(29) =~= text);
    lemma_quotes(text.take(24), "Mixed"@, text.skip(29));
}

} // verus!
