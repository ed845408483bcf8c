//! The two data-flow analyses: their lattices, their effects, and what is read off them.

use pinvio::analysis::origin::{
    callee_return_ty, is_drop_critical_ty, Origin, OriginAnalysis, OriginMap,
};
use pinvio::analysis::pin_leak_detector::{self, ReturnVisitor};
use pinvio::analysis::provenance::{
    provenance_of_operand, provenance_of_rvalue, Provenance, ProvenanceAnalysis, ProvenanceMap,
};
use pinvio::analysis::safe_pin_unchecked::{self, CallSiteVisitor};
use pinvio::flow::{check_body, Visit};
use pinvio::model::{
    Block, Body, BodyOwner, Crate, DefId, DefKind, FnRef, LangItems, Operand, OperandKind, Place,
    Rvalue, Statement, Terminator, TerminatorKind, TyData, TyKind, TyTable,
};
use std::collections::HashSet;

const PROVENANCES: [Provenance; 4] = [
    Provenance::Unknown,
    Provenance::FromParam,
    Provenance::FromOwnedLocal,
    Provenance::Mixed,
];

const ORIGINS: [Origin; 4] =
    [Origin::Unknown, Origin::FreshInThisFn, Origin::FromParam, Origin::Mixed];

fn ty(kind: TyKind, text: &str) -> TyData {
    TyData { kind, text: text.to_string() }
}

/// Type 0 is a drop-critical struct, type 1 a number, type 2 a reference, type 3 a pointer.
fn types() -> TyTable {
    let def = DefId { id: 10, path: "Handle".to_string() };
    TyTable {
        types: vec![
            ty(TyKind::Adt { def, variants: vec![vec![1]] }, "Handle"),
            ty(TyKind::Other, "u8"),
            ty(TyKind::Ref(1), "&mut u8"),
            ty(TyKind::RawPtr, "*mut u8"),
        ],
    }
}

fn local(n: usize) -> Place {
    Place { local: n, is_bare: true, text: format!("_{n}") }
}

fn part(n: usize) -> Place {
    Place { local: n, is_bare: false, text: format!("(_{n}.0)") }
}

fn moved(place: Place) -> Operand {
    Operand { kind: OperandKind::Move(place), text: String::new() }
}

fn copied(place: Place) -> Operand {
    Operand { kind: OperandKind::Copy(place), text: String::new() }
}

fn constant() -> Operand {
    Operand { kind: OperandKind::Constant(None), text: String::new() }
}

fn function(path: &str, output: usize) -> Operand {
    let def = DefId { id: 60, path: path.to_string() };
    Operand { kind: OperandKind::Constant(Some(FnRef { def, output })), text: String::new() }
}

fn call(func: Operand, args: Vec<Operand>, destination: Place, span: u64) -> Terminator {
    Terminator { kind: TerminatorKind::Call { func, args, destination }, span }
}

fn ret() -> Terminator {
    Terminator { kind: TerminatorKind::Return, span: 0 }
}

fn body(arg_count: usize, locals: Vec<usize>) -> Body {
    Body { span: 0, arg_count, locals, blocks: vec![] }
}

fn pin_call(arg: Operand, span: u64) -> Terminator {
    call(function("std::pin::Pin::<P>::new_unchecked", 1), vec![arg], local(0), span)
}

fn provenance_map(locals: &[Provenance]) -> ProvenanceMap {
    ProvenanceMap { locals: locals.to_vec() }
}

#[test]
fn provenance_join_table() {
    let joined = |a: Provenance, b: Provenance| a.join(b);
    assert_eq!(joined(Provenance::Unknown, Provenance::FromParam), Provenance::FromParam);
    assert_eq!(joined(Provenance::FromParam, Provenance::Unknown), Provenance::FromParam);
    assert_eq!(joined(Provenance::FromParam, Provenance::FromParam), Provenance::FromParam);
    assert_eq!(joined(Provenance::FromParam, Provenance::FromOwnedLocal), Provenance::Mixed);
    assert_eq!(joined(Provenance::Mixed, Provenance::FromParam), Provenance::Mixed);
    assert_eq!(joined(Provenance::Unknown, Provenance::Unknown), Provenance::Unknown);
}

#[test]
fn provenance_join_is_a_semilattice() {
    for a in PROVENANCES {
        assert_eq!(a.join(a), a);
        for b in PROVENANCES {
            assert_eq!(a.join(b), b.join(a));
            assert_eq!(
                a.join(b).is_suspicious(),
                a.is_suspicious() || b.is_suspicious()
            );
            for c in PROVENANCES {
                assert_eq!(a.join(b).join(c), a.join(b.join(c)));
            }
        }
    }
}

#[test]
fn suspicious_provenances() {
    assert!(!Provenance::Unknown.is_suspicious());
    assert!(Provenance::FromParam.is_suspicious());
    assert!(!Provenance::FromOwnedLocal.is_suspicious());
    assert!(Provenance::Mixed.is_suspicious());
}

#[test]
fn origin_join_is_a_semilattice() {
    for a in ORIGINS {
        assert_eq!(a.join(a), a);
        assert_eq!(a.join(Origin::Unknown), a);
        for b in ORIGINS {
            assert_eq!(a.join(b), b.join(a));
            for c in ORIGINS {
                assert_eq!(a.join(b).join(c), a.join(b.join(c)));
            }
        }
    }
    assert_eq!(Origin::FreshInThisFn.join(Origin::FromParam), Origin::Mixed);
}

#[test]
fn maps_are_joined_place_by_place() {
    let mut a = provenance_map(&[Provenance::Unknown, Provenance::FromParam]);
    let b = provenance_map(&[Provenance::FromOwnedLocal, Provenance::FromOwnedLocal]);
    assert!(a.join(&b));
    assert_eq!(a.locals, vec![Provenance::FromOwnedLocal, Provenance::Mixed]);
    assert!(!a.join(&b));
    let mut longer = provenance_map(&[Provenance::Unknown, Provenance::FromParam]);
    assert!(longer.join(&provenance_map(&[Provenance::Mixed])));
    assert_eq!(longer.locals, vec![Provenance::Mixed, Provenance::FromParam]);

    let mut a = OriginMap { locals: vec![Origin::FreshInThisFn] };
    assert!(!a.join(&OriginMap { locals: vec![Origin::Unknown, Origin::Mixed] }));
    assert!(a.join(&OriginMap { locals: vec![Origin::FromParam] }));
    assert_eq!(a.locals, vec![Origin::Mixed]);
}

#[test]
fn provenance_at_the_start() {
    let types = types();
    let body = body(3, vec![1, 2, 1, 3, 2]);
    let analysis = ProvenanceAnalysis { types: &types, body: &body };
    let mut state = analysis.bottom_value();
    assert_eq!(state.locals, vec![Provenance::Unknown; 5]);
    analysis.initialize_start_block(&mut state);
    assert_eq!(
        state.locals,
        vec![
            Provenance::Unknown,
            Provenance::FromParam,
            Provenance::Unknown,
            Provenance::FromParam,
            Provenance::Unknown,
        ]
    );
}

#[test]
fn provenance_of_values() {
    let state = provenance_map(&[Provenance::Unknown, Provenance::FromParam]);
    assert_eq!(provenance_of_operand(&moved(part(1)), &state), Provenance::FromParam);
    assert_eq!(provenance_of_operand(&copied(local(0)), &state), Provenance::Unknown);
    assert_eq!(provenance_of_operand(&constant(), &state), Provenance::FromOwnedLocal);
    assert_eq!(provenance_of_rvalue(&Rvalue::Ref(part(1)), &state), Provenance::FromParam);
    assert_eq!(provenance_of_rvalue(&Rvalue::RawPtr(local(1)), &state), Provenance::FromParam);
    assert_eq!(provenance_of_rvalue(&Rvalue::Cast(moved(local(1))), &state), Provenance::FromParam);
    assert_eq!(provenance_of_rvalue(&Rvalue::Use(copied(local(0))), &state), Provenance::Unknown);
    assert_eq!(provenance_of_rvalue(&Rvalue::Aggregate, &state), Provenance::FromOwnedLocal);
    assert_eq!(provenance_of_rvalue(&Rvalue::Other, &state), Provenance::FromOwnedLocal);
}

#[test]
fn provenance_effects() {
    let types = types();
    let body = body(1, vec![1, 2]);
    let analysis = ProvenanceAnalysis { types: &types, body: &body };
    let mut state = provenance_map(&[Provenance::Unknown, Provenance::FromParam]);
    let assign = Statement::Assign(local(0), Rvalue::Ref(part(1)));
    analysis.apply_primary_statement_effect(&mut state, &assign);
    assert_eq!(state.locals[0], Provenance::FromParam);
    let into_part = Statement::Assign(part(1), Rvalue::Aggregate);
    analysis.apply_primary_statement_effect(&mut state, &into_part);
    analysis.apply_primary_statement_effect(&mut state, &Statement::Other);
    assert_eq!(state.locals[1], Provenance::FromParam);
    analysis.apply_primary_terminator_effect(&mut state, &call(constant(), vec![], part(0), 0));
    analysis.apply_primary_terminator_effect(&mut state, &ret());
    assert_eq!(state.locals[0], Provenance::FromParam);
    analysis.apply_primary_terminator_effect(&mut state, &call(constant(), vec![], local(0), 0));
    assert_eq!(state.locals[0], Provenance::FromOwnedLocal);
}

#[test]
fn origin_effects() {
    let types = types();
    let body = body(1, vec![0, 0, 1]);
    let critical: HashSet<u64> = [10].into_iter().collect();
    let analysis = OriginAnalysis { types: &types, body: &body, drop_critical: &critical };
    let mut state = analysis.bottom_value();
    assert_eq!(state.locals, vec![Origin::Unknown; 3]);
    analysis.initialize_start_block(&mut state);
    assert_eq!(state.locals, vec![Origin::Unknown, Origin::FromParam, Origin::Unknown]);

    let mut after = |statement: Statement| {
        analysis.apply_primary_statement_effect(&mut state, &statement);
        state.locals.clone()
    };
    assert_eq!(after(Statement::Assign(local(0), Rvalue::Aggregate))[0], Origin::FreshInThisFn);
    assert_eq!(after(Statement::Assign(local(0), Rvalue::Use(copied(local(1)))))[0], Origin::FromParam);
    assert_eq!(after(Statement::Assign(local(0), Rvalue::Use(constant())))[0], Origin::FreshInThisFn);
    assert_eq!(after(Statement::Assign(part(0), Rvalue::Other))[0], Origin::FreshInThisFn);
    assert_eq!(after(Statement::Assign(local(0), Rvalue::Other))[0], Origin::Unknown);
    assert_eq!(after(Statement::Assign(local(2), Rvalue::Aggregate))[2], Origin::Unknown);
    assert_eq!(after(Statement::Assign(local(2), Rvalue::Use(constant())))[2], Origin::Unknown);

    let mut end = |terminator: Terminator| {
        analysis.apply_primary_terminator_effect(&mut state, &terminator);
        state.locals.clone()
    };
    assert_eq!(end(call(function("make", 0), vec![], local(2), 0))[2], Origin::FreshInThisFn);
    assert_eq!(end(call(function("make", 1), vec![], local(1), 0))[1], Origin::Unknown);
    assert_eq!(end(call(moved(local(1)), vec![], local(2), 0))[2], Origin::Unknown);
    assert_eq!(end(call(function("make", 0), vec![], part(2), 0))[2], Origin::Unknown);
    assert_eq!(end(ret())[2], Origin::Unknown);
}

#[test]
fn drop_critical_types_and_callees() {
    let types = types();
    let critical: HashSet<u64> = [10].into_iter().collect();
    assert!(is_drop_critical_ty(&types, &critical, 0));
    assert!(!is_drop_critical_ty(&types, &critical, 1));
    assert!(!is_drop_critical_ty(&types, &HashSet::new(), 0));
    assert_eq!(callee_return_ty(&function("f", 3)), Some(3));
    assert_eq!(callee_return_ty(&constant()), None);
    assert_eq!(callee_return_ty(&moved(local(0))), None);
}

#[test]
fn call_sites_are_reported_once() {
    let mut visitor = CallSiteVisitor::new();
    let state = provenance_map(&[Provenance::Unknown, Provenance::FromParam]);
    let first = visitor.visit_after_early_terminator_effect(&state, &pin_call(moved(local(1)), 5));
    assert_eq!(first.map(|d| d.span), Some(5));
    let again = visitor.visit_after_early_terminator_effect(&state, &pin_call(copied(local(1)), 5));
    assert!(again.is_none());
    let other = visitor.visit_after_early_terminator_effect(&state, &pin_call(moved(local(1)), 6));
    assert_eq!(other.map(|d| d.span), Some(6));
}

#[test]
fn unsuspicious_call_sites() {
    let mut visitor = CallSiteVisitor::new();
    let state = provenance_map(&[Provenance::FromOwnedLocal, Provenance::FromParam]);
    for terminator in [
        pin_call(moved(local(0)), 5),
        pin_call(constant(), 5),
        call(function("std::pin::Pin::<P>::new_unchecked", 1), vec![], local(0), 5),
        call(function("std::pin::Pin::<P>::new", 1), vec![moved(local(1))], local(0), 5),
        call(constant(), vec![moved(local(1))], local(0), 5),
        ret(),
    ] {
        assert!(visitor.visit_after_early_terminator_effect(&state, &terminator).is_none());
    }
    assert!(visitor.reported_at.is_empty());
}

#[test]
fn mixed_provenance_has_its_own_note() {
    let mut visitor = CallSiteVisitor::new();
    let state = provenance_map(&[Provenance::Mixed]);
    let report = visitor.visit_after_early_terminator_effect(&state, &pin_call(moved(local(0)), 1));
    assert_eq!(
        report.map(|d| d.notes[0].text.clone()),
        Some(
            "argument provenance is `Mixed` — at least one control-flow path reaches here from \
             a function parameter"
                .to_string()
        )
    );
}

#[test]
fn returns_are_reported_once() {
    let types = types();
    let body = body(0, vec![0]);
    let critical: HashSet<u64> = [10].into_iter().collect();
    let mut visitor = ReturnVisitor {
        types: &types,
        body: &body,
        drop_critical: &critical,
        fn_span: 7,
        reported: false,
    };
    let fresh = OriginMap { locals: vec![Origin::FreshInThisFn] };
    let mixed = OriginMap { locals: vec![Origin::Mixed] };
    assert!(visitor.visit_after_early_terminator_effect(&mixed, &ret()).is_none());
    let other = Terminator { kind: TerminatorKind::Other, span: 0 };
    assert!(visitor.visit_after_early_terminator_effect(&fresh, &other).is_none());
    let report = visitor.visit_after_early_terminator_effect(&fresh, &ret());
    assert_eq!(report.map(|d| d.span), Some(7));
    assert!(visitor.reported);
    assert!(visitor.visit_after_early_terminator_effect(&fresh, &ret()).is_none());
}

#[test]
fn harmless_returns() {
    let types = types();
    let body = body(0, vec![1]);
    let critical: HashSet<u64> = [10].into_iter().collect();
    let mut visitor = ReturnVisitor {
        types: &types,
        body: &body,
        drop_critical: &critical,
        fn_span: 7,
        reported: false,
    };
    let fresh = OriginMap { locals: vec![Origin::FreshInThisFn] };
    assert!(visitor.visit_after_early_terminator_effect(&fresh, &ret()).is_none());
}

#[test]
fn bodies_are_checked_against_their_locals() {
    let block = |terminator| Block { statements: vec![], terminator };
    let mut good = body(1, vec![1, 2]);
    good.blocks = vec![block(Some(ret()))];
    assert!(check_body(&good));
    let too_many_args = body(2, vec![1, 2]);
    assert!(!check_body(&too_many_args));
    let mut stray = body(1, vec![1, 2]);
    stray.blocks = vec![block(Some(pin_call(moved(local(2)), 1)))];
    assert!(!check_body(&stray));
}

fn crate_of(bodies: Vec<Body>, body_owners: Vec<BodyOwner>) -> Crate {
    Crate {
        types: types(),
        adts: vec![],
        items: vec![],
        hir_types: vec![],
        exprs: vec![],
        body_owners,
        bodies,
        lang: LangItems { unpin_trait: None, deref_trait: None, deref_mut_trait: None },
    }
}

#[test]
fn only_safe_functions_are_checked() {
    let owner = |kind, is_unsafe, body| BodyOwner { kind, is_unsafe, body };
    let krate = crate_of(
        vec![body(0, vec![1]), body(0, vec![1])],
        vec![
            owner(DefKind::Fn, false, Some(1)),
            owner(DefKind::AssocFn, false, Some(0)),
            owner(DefKind::Fn, true, Some(0)),
            owner(DefKind::Other, false, Some(0)),
            owner(DefKind::Fn, false, None),
            owner(DefKind::Fn, false, Some(9)),
        ],
    );
    assert_eq!(safe_pin_unchecked::bodies_to_check(&krate), vec![1, 0]);
}

#[test]
fn flows_that_do_not_fit_are_refused() {
    let mut with_call = body(1, vec![1, 2]);
    with_call.blocks = vec![Block {
        statements: vec![],
        terminator: Some(pin_call(moved(local(1)), 3)),
    }];
    let owner = BodyOwner { kind: DefKind::Fn, is_unsafe: false, body: Some(0) };
    let krate = crate_of(vec![with_call], vec![owner]);
    let flow = |block, locals: &[Provenance]| {
        vec![vec![Visit { block, state: provenance_map(locals) }]]
    };
    let both = [Provenance::Unknown, Provenance::FromParam];
    assert!(safe_pin_unchecked::check_flows(&krate, &flow(0, &both)));
    assert!(!safe_pin_unchecked::check_flows(&krate, &flow(1, &both)));
    assert!(!safe_pin_unchecked::check_flows(&krate, &flow(0, &both[..1])));
    assert!(pin_leak_detector::check_flows(&krate, &vec![]));
}
