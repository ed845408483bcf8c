//! Where the memory behind the local variables of a body comes from.

use crate::analysis::util::{is_reference_like, reference_like};
use crate::flow::{operand_fits, rvalue_fits, statement_fits, terminator_fits};
use crate::model::{
    Body, Operand, OperandKind, Place, Rvalue, Statement, Terminator, TerminatorKind, TyTable,
};
use vstd::prelude::*;

verus! {

// ---------------------------------------------------------------------------------------------
// Lattice
// ---------------------------------------------------------------------------------------------

/// Where the memory behind a local variable comes from.
#[derive(Clone, Copy, PartialEq, Eq, Structural, Debug)]
pub enum Provenance {
    Unknown,
    FromParam,
    FromOwnedLocal,
    Mixed,
}

impl Provenance {
    /// What is known where two control-flow paths meet.
    pub open spec fn joined_with(self, other: Provenance) -> Provenance {
        if self == Provenance::Unknown {
            other
        } else if other == Provenance::Unknown || self == other {
            self
        } else {
            Provenance::Mixed
        }
    }

    pub fn join(self, other: Provenance) -> (r: Provenance)
        ensures
            r == self.joined_with(other),
    {
        match (self, other) {
            (Provenance::Unknown, x) => x,
            (x, Provenance::Unknown) => x,
            (a, b) => if a == b {
                a
            } else {
                Provenance::Mixed
            },
        }
    }

    /// Some of the memory may have come from a parameter.
    pub open spec fn suspicious(self) -> bool {
        self == Provenance::FromParam || self == Provenance::Mixed
    }

    pub fn is_suspicious(self) -> (r: bool)
        ensures
            r == self.suspicious(),
    {
        match self {
            Provenance::FromParam => true,
            Provenance::Mixed => true,
            _ => false,
        }
    }

    /// How much is known: nothing, one source, or several.
    pub open spec fn rank(self) -> nat {
        match self {
            Provenance::Unknown => 0,
            Provenance::FromParam => 1,
            Provenance::FromOwnedLocal => 1,
            Provenance::Mixed => 2,
        }
    }
}

/// The provenance of each local variable.
#[derive(Debug)]
pub struct ProvenanceMap {
    pub locals: Vec<Provenance>,
}

impl Clone for ProvenanceMap {
    fn clone(&self) -> (r: ProvenanceMap)
        ensures
            r@ == self@,
    {
        ProvenanceMap { locals: self.locals.clone() }
    }
}

impl View for ProvenanceMap {
    type V = Seq<Provenance>;

    open spec fn view(&self) -> Seq<Provenance> {
        self.locals@
    }
}

/// What is known of each local variable where two control-flow paths meet.
pub open spec fn join_maps(a: Seq<Provenance>, b: Seq<Provenance>) -> Seq<Provenance> {
    Seq::new(
        a.len(),
        |i: int|
            if i < b.len() {
                a[i].joined_with(b[i])
            } else {
                a[i]
            },
    )
}

impl ProvenanceMap {
    /// Takes in what another path knows; returns whether that changed anything.
    pub fn join(&mut self, other: &ProvenanceMap) -> (changed: bool)
        ensures
            final(self)@ == join_maps(old(self)@, other@),
            changed == (final(self)@ != old(self)@),
    {
        let ghost start = self@;
        let mut changed = false;
        let mut i: usize = 0;
        while i < self.locals.len() && i < other.locals.len()
            invariant
                i <= self.locals.len(),
                i <= other.locals.len(),
                self@.len() == start.len(),
                forall|j: int| 0 <= j < i ==> self@[j] == start[j].joined_with(other@[j]),
                forall|j: int| i <= j < start.len() ==> self@[j] == start[j],
                changed == (exists|j: int| 0 <= j < i && self@[j] != #[trigger] start[j]),
            decreases self.locals.len() - i,
        {
            let ghost before = self@;
            let new = self.locals[i].join(other.locals[i]);
            if new != self.locals[i] {
                self.locals.set(i, new);
                changed = true;
                assert(self@[i as int] != start[i as int]);
            }
            proof {
                if exists|j: int| 0 <= j < i && before[j] != #[trigger] start[j] {
                    let j = choose|j: int| 0 <= j < i && before[j] != #[trigger] start[j];
                    assert(self@[j] != start[j]);
                }
            }
            i += 1;
        }
        assert(self@ =~= join_maps(start, other@));
        proof {
            if changed {
                let j = choose|j: int| 0 <= j < i && self@[j] != #[trigger] start[j];
                assert(self@[j] != start[j]);
            } else {
                assert(self@ =~= start);
            }
        }
        changed
    }
}

// ---------------------------------------------------------------------------------------------
// Data flow
// ---------------------------------------------------------------------------------------------

/// The provenance of an operand.
pub open spec fn operand_provenance(operand: Operand, state: Seq<Provenance>) -> Provenance {
    match operand.kind {
        OperandKind::Move(place) => state[place.local as int],
        OperandKind::Copy(place) => state[place.local as int],
        OperandKind::Constant(_) => Provenance::FromOwnedLocal,
    }
}

/// The provenance of a computed value.
pub open spec fn rvalue_provenance(rvalue: Rvalue, state: Seq<Provenance>) -> Provenance {
    match rvalue {
        Rvalue::Ref(place) => state[place.local as int],
        Rvalue::RawPtr(place) => state[place.local as int],
        Rvalue::Use(operand) => operand_provenance(operand, state),
        Rvalue::Cast(operand) => operand_provenance(operand, state),
        _ => Provenance::FromOwnedLocal,
    }
}

/// The state after a statement: an assignment to a whole local variable sets its provenance.
pub open spec fn statement_effect(statement: Statement, state: Seq<Provenance>) -> Seq<
    Provenance,
> {
    match statement {
        Statement::Assign(place, rvalue) => if place.is_bare {
            state.update(place.local as int, rvalue_provenance(rvalue, state))
        } else {
            state
        },
        Statement::Other => state,
    }
}

/// The state after the end of a block: what a call returns is owned.
pub open spec fn terminator_effect(terminator: Terminator, state: Seq<Provenance>) -> Seq<
    Provenance,
> {
    match terminator.kind {
        TerminatorKind::Call { destination, .. } => if destination.is_bare {
            state.update(destination.local as int, Provenance::FromOwnedLocal)
        } else {
            state
        },
        _ => state,
    }
}

/// The state at the start of a body: what its reference parameters point to is from outside.
pub open spec fn start_state(types: TyTable, body: Body, state: Seq<Provenance>) -> Seq<
    Provenance,
> {
    Seq::new(
        state.len(),
        |i: int|
            if 1 <= i <= body.arg_count && reference_like(types, body.locals@[i]) {
                Provenance::FromParam
            } else {
                state[i]
            },
    )
}

/// Follows the provenance of the local variables of one body.
pub struct ProvenanceAnalysis<'a> {
    pub types: &'a TyTable,
    pub body: &'a Body,
}

impl<'a> ProvenanceAnalysis<'a> {
    /// The state where nothing is known.
    pub fn bottom_value(&self) -> (r: ProvenanceMap)
        ensures
            r@ == Seq::new(self.body.locals@.len(), |i: int| Provenance::Unknown),
    {
        let mut locals: Vec<Provenance> = Vec::new();
        let mut i: usize = 0;
        while i < self.body.locals.len()
            invariant
                i <= self.body.locals.len(),
                locals@ =~= Seq::new(i as nat, |j: int| Provenance::Unknown),
            decreases self.body.locals.len() - i,
        {
            locals.push(Provenance::Unknown);
            i += 1;
        }
        ProvenanceMap { locals }
    }

    pub fn initialize_start_block(&self, state: &mut ProvenanceMap)
        requires
            self.body.arg_count < self.body.locals@.len(),
            old(state)@.len() == self.body.locals@.len(),
        ensures
            final(state)@ == start_state(*self.types, *self.body, old(state)@),
    {
        let ghost start = state@;
        let mut i: usize = 1;
        while i <= self.body.arg_count
            invariant
                1 <= i <= self.body.arg_count + 1,
                self.body.arg_count < self.body.locals.len(),
                state@.len() == self.body.locals@.len(),
                start.len() == state@.len(),
                forall|j: int|
                    0 <= j < i ==> state@[j] == start_state(*self.types, *self.body, start)[j],
                forall|j: int| i <= j < state@.len() ==> state@[j] == start[j],
            decreases self.body.arg_count + 1 - i,
        {
            if is_reference_like(self.types, self.body.locals[i]) {
                state.locals.set(i, Provenance::FromParam);
            }
            i += 1;
        }
        assert(state@ =~= start_state(*self.types, *self.body, start));
    }

    pub fn apply_primary_statement_effect(&self, state: &mut ProvenanceMap, statement: &Statement)
        requires
            statement_fits(*statement, old(state)@.len()),
        ensures
            final(state)@ == statement_effect(*statement, old(state)@),
    {
        if let Statement::Assign(place, rvalue) = statement {
            if place.is_bare {
                let provenance = provenance_of_rvalue(rvalue, state);
                state.locals.set(place.local, provenance);
            }
        }
    }

    pub fn apply_primary_terminator_effect(
        &self,
        state: &mut ProvenanceMap,
        terminator: &Terminator,
    )
        requires
            terminator_fits(*terminator, old(state)@.len()),
        ensures
            final(state)@ == terminator_effect(*terminator, old(state)@),
    {
        if let TerminatorKind::Call { destination, .. } = &terminator.kind {
            if destination.is_bare {
                state.locals.set(destination.local, Provenance::FromOwnedLocal);
            }
        }
    }
}

pub fn provenance_of_rvalue(rvalue: &Rvalue, state: &ProvenanceMap) -> (r: Provenance)
    requires
        rvalue_fits(*rvalue, state@.len()),
    ensures
        r == rvalue_provenance(*rvalue, state@),
{
    match rvalue {
        Rvalue::Ref(place) => state.locals[place.local],
        Rvalue::RawPtr(place) => state.locals[place.local],
        Rvalue::Use(operand) => provenance_of_operand(operand, state),
        Rvalue::Cast(operand) => provenance_of_operand(operand, state),
        _ => Provenance::FromOwnedLocal,
    }
}

pub fn provenance_of_operand(operand: &Operand, state: &ProvenanceMap) -> (r: Provenance)
    requires
        operand_fits(*operand, state@.len()),
    ensures
        r == operand_provenance(*operand, state@),
{
    match &operand.kind {
        OperandKind::Move(place) => state.locals[place.local],
        OperandKind::Copy(place) => state.locals[place.local],
        OperandKind::Constant(_) => Provenance::FromOwnedLocal,
    }
}

// ---------------------------------------------------------------------------------------------
// Laws
// ---------------------------------------------------------------------------------------------

/// Joining is commutative, associative and idempotent; `Unknown` adds nothing, and nothing
/// changes `Mixed`.
pub proof fn lemma_join_laws(a: Provenance, b: Provenance, c: Provenance)
    ensures
        a.joined_with(b) == b.joined_with(a),
        a.joined_with(b).joined_with(c) == a.joined_with(b.joined_with(c)),
        a.joined_with(a) == a,
        a.joined_with(Provenance::Unknown) == a,
        a.joined_with(Provenance::Mixed) == Provenance::Mixed,
{
}

/// What is suspicious on one path stays so where the path meets others.
pub proof fn lemma_suspicion_grows(a: Provenance, b: Provenance)
    ensures
        a.suspicious() ==> a.joined_with(b).suspicious(),
{
}

/// What is known where all of the given paths meet.
pub open spec fn join_all(paths: Seq<Provenance>) -> Provenance
    decreases paths.len(),
{
    if paths.len() == 0 {
        Provenance::Unknown
    } else {
        join_all(paths.drop_last()).joined_with(paths.last())
    }
}

/// Where no single path is mixed in itself, the place where they meet is suspicious exactly
/// when at least one of them comes from a parameter.
pub proof fn lemma_suspicious_iff_param_path(paths: Seq<Provenance>)
    requires
        forall|i: int| 0 <= i < paths.len() ==> #[trigger] paths[i] != Provenance::Mixed,
    ensures
        join_all(paths).suspicious() <==> exists|i: int|
            0 <= i < paths.len() && #[trigger] paths[i] == Provenance::FromParam,
    decreases paths.len(),
{
    if paths.len() > 0 {
        let rest = paths.drop_last();
        assert(forall|i: int| 0 <= i < rest.len() ==> rest[i] == paths[i]);
        lemma_suspicious_iff_param_path(rest);
        lemma_mixed_needs_param(rest);
        assert(paths.last() == paths[paths.len() - 1]);
        if exists|i: int| 0 <= i < rest.len() && #[trigger] rest[i] == Provenance::FromParam {
            let i = choose|i: int| 0 <= i < rest.len() && #[trigger] rest[i] == Provenance::FromParam;
            assert(paths[i] == Provenance::FromParam);
        }
    }
}

proof fn lemma_mixed_needs_param(paths: Seq<Provenance>)
    requires
        forall|i: int| 0 <= i < paths.len() ==> #[trigger] paths[i] != Provenance::Mixed,
    ensures
        join_all(paths) == Provenance::Mixed ==> exists|i: int|
            0 <= i < paths.len() && #[trigger] paths[i] == Provenance::FromParam,
    decreases paths.len(),
{
    if paths.len() > 0 {
        let rest = paths.drop_last();
        assert(forall|i: int| 0 <= i < rest.len() ==> rest[i] == paths[i]);
        lemma_mixed_needs_param(rest);
        lemma_single_source(rest);
        assert(paths.last() == paths[paths.len() - 1]);
    }
}

proof fn lemma_single_source(paths: Seq<Provenance>)
    requires
        forall|i: int| 0 <= i < paths.len() ==> #[trigger] paths[i] != Provenance::Mixed,
    ensures
        join_all(paths) == Provenance::FromParam ==> exists|i: int|
            0 <= i < paths.len() && #[trigger] paths[i] == Provenance::FromParam,
    decreases paths.len(),
{
    if paths.len() > 0 {
        let rest = paths.drop_last();
        assert(forall|i: int| 0 <= i < rest.len() ==> rest[i] == paths[i]);
        lemma_single_source(rest);
        assert(paths.last() == paths[paths.len() - 1]);
    }
}

/// On a single path nothing becomes mixed: neither a statement nor the end of a block makes a
/// provenance `Mixed` where none was.
pub proof fn lemma_effects_do_not_mix(
    statement: Statement,
    terminator: Terminator,
    state: Seq<Provenance>,
)
    requires
        statement_fits(statement, state.len()),
        terminator_fits(terminator, state.len()),
        forall|i: int| 0 <= i < state.len() ==> #[trigger] state[i] != Provenance::Mixed,
    ensures
        forall|i: int|
            0 <= i < state.len() ==> #[trigger] statement_effect(statement, state)[i]
                != Provenance::Mixed,
        forall|i: int|
            0 <= i < state.len() ==> #[trigger] terminator_effect(terminator, state)[i]
                != Provenance::Mixed,
{
}

/// It makes no difference whether two paths meet before a statement or after it, nor whether
/// they meet before the end of a block or after it.
pub proof fn lemma_effects_distribute(
    statement: Statement,
    terminator: Terminator,
    a: Seq<Provenance>,
    b: Seq<Provenance>,
)
    requires
        a.len() == b.len(),
        statement_fits(statement, a.len()),
        terminator_fits(terminator, a.len()),
    ensures
        statement_effect(statement, join_maps(a, b)) == join_maps(
            statement_effect(statement, a),
            statement_effect(statement, b),
        ),
        terminator_effect(terminator, join_maps(a, b)) == join_maps(
            terminator_effect(terminator, a),
            terminator_effect(terminator, b),
        ),
{
    assert(statement_effect(statement, join_maps(a, b)) =~= join_maps(
        statement_effect(statement, a),
        statement_effect(statement, b),
    ));
    assert(terminator_effect(terminator, join_maps(a, b)) =~= join_maps(
        terminator_effect(terminator, a),
        terminator_effect(terminator, b),
    ));
}

/// What an analysis meets on its way along a control-flow path.
pub enum Step {
    Statement(Statement),
    Terminator(Terminator),
}

/// The state after one step.
pub open spec fn step_effect(step: Step, state: Seq<Provenance>) -> Seq<Provenance> {
    match step {
        Step::Statement(s) => statement_effect(s, state),
        Step::Terminator(t) => terminator_effect(t, state),
    }
}

/// All steps read and assign only local variables among the first `n`.
pub open spec fn steps_fit(path: Seq<Step>, n: nat) -> bool {
    forall|i: int|
        0 <= i < path.len() ==> match #[trigger] path[i] {
            Step::Statement(s) => statement_fits(s, n),
            Step::Terminator(t) => terminator_fits(t, n),
        }
}

/// The state at the end of a control-flow path.
pub open spec fn state_along(path: Seq<Step>, state: Seq<Provenance>) -> Seq<Provenance>
    decreases path.len(),
{
    if path.len() == 0 {
        state
    } else {
        step_effect(path.last(), state_along(path.drop_last(), state))
    }
}

/// Nothing becomes mixed along a single control-flow path.
pub proof fn lemma_path_does_not_mix(path: Seq<Step>, state: Seq<Provenance>)
    requires
        steps_fit(path, state.len()),
        forall|i: int| 0 <= i < state.len() ==> #[trigger] state[i] != Provenance::Mixed,
    ensures
        state_along(path, state).len() == state.len(),
        forall|i: int|
            0 <= i < state.len() ==> #[trigger] state_along(path, state)[i] != Provenance::Mixed,
    decreases path.len(),
{
    if path.len() > 0 {
        let rest = path.drop_last();
        assert(forall|i: int| 0 <= i < rest.len() ==> rest[i] == path[i]);
        lemma_path_does_not_mix(rest, state);
        assert(path.last() == path[path.len() - 1]);
    }
}

/// Two paths that meet before a common way give the same as when they meet behind it.
pub proof fn lemma_path_distributes(path: Seq<Step>, a: Seq<Provenance>, b: Seq<Provenance>)
    requires
        a.len() == b.len(),
        steps_fit(path, a.len()),
    ensures
        state_along(path, a).len() == a.len(),
        state_along(path, b).len() == b.len(),
        state_along(path, join_maps(a, b)) == join_maps(state_along(path, a), state_along(path, b)),
    decreases path.len(),
{
    if path.len() > 0 {
        let rest = path.drop_last();
        assert(forall|i: int| 0 <= i < rest.len() ==> rest[i] == path[i]);
        lemma_path_distributes(rest, a, b);
        let x = state_along(rest, a);
        let y = state_along(rest, b);
        assert(path.last() == path[path.len() - 1]);
        assert(step_effect(path.last(), join_maps(x, y)) =~= join_maps(
            step_effect(path.last(), x),
            step_effect(path.last(), y),
        ));
    }
}

/// What is known of a local variable where the given control-flow paths meet is suspicious
/// exactly when at least one of them brings it there from a parameter.
pub proof fn lemma_suspicious_iff_some_path_from_param(
    paths: Seq<Seq<Step>>,
    start: Seq<Provenance>,
    local: int,
)
    requires
        0 <= local < start.len(),
        forall|i: int| 0 <= i < start.len() ==> #[trigger] start[i] != Provenance::Mixed,
        forall|p: int| 0 <= p < paths.len() ==> steps_fit(#[trigger] paths[p], start.len()),
    ensures
        join_all(
            Seq::new(paths.len(), |p: int| state_along(paths[p], start)[local]),
        ).suspicious() <==> exists|p: int|
            0 <= p < paths.len() && state_along(#[trigger] paths[p], start)[local]
                == Provenance::FromParam,
{
    let ends = Seq::new(paths.len(), |p: int| state_along(paths[p], start)[local]);
    assert forall|p: int| 0 <= p < ends.len() implies #[trigger] ends[p] != Provenance::Mixed by {
        lemma_path_does_not_mix(paths[p], start);
    }
    lemma_suspicious_iff_param_path(ends);
    if exists|p: int| 0 <= p < ends.len() && #[trigger] ends[p] == Provenance::FromParam {
        let p = choose|p: int| 0 <= p < ends.len() && #[trigger] ends[p] == Provenance::FromParam;
        assert(state_along(paths[p], start)[local] == Provenance::FromParam);
    }
    if exists|p: int|
        0 <= p < paths.len() && state_along(#[trigger] paths[p], start)[local]
            == Provenance::FromParam {
        let p = choose|p: int|
            0 <= p < paths.len() && state_along(#[trigger] paths[p], start)[local]
                == Provenance::FromParam;
        assert(ends[p] == Provenance::FromParam);
    }
}

/// Joining maps is idempotent, and what was joined once adds nothing more. Among maps of the
/// same locals it is commutative; it is associative unless the middle map is shorter than both others.
pub proof fn lemma_join_maps_laws(a: Seq<Provenance>, b: Seq<Provenance>, c: Seq<Provenance>)
    ensures
        join_maps(a, a) == a,
        join_maps(join_maps(a, b), b) == join_maps(a, b),
        a.len() == b.len() ==> join_maps(a, b) == join_maps(b, a),
        a.len() <= b.len() || c.len() <= b.len() ==> join_maps(join_maps(a, b), c) == join_maps(
            a,
            join_maps(b, c),
        ),
{
    assert(join_maps(a, a) =~= a);
    assert(join_maps(join_maps(a, b), b) =~= join_maps(a, b));
    if a.len() == b.len() {
        assert(join_maps(a, b) =~= join_maps(b, a));
    }
    if a.len() <= b.len() || c.len() <= b.len() {
        assert(join_maps(join_maps(a, b), c) =~= join_maps(a, join_maps(b, c)));
    }
}

/// How much is known of all local variables together.
pub open spec fn total_rank(map: Seq<Provenance>) -> nat
    decreases map.len(),
{
    if map.len() == 0 {
        0
    } else {
        total_rank(map.drop_last()) + map.last().rank()
    }
}

/// A join that changes a map raises its rank, and no rank exceeds twice the number of local
/// variables: a map can be changed by joins only so many times.
pub proof fn lemma_join_terminates(a: Seq<Provenance>, b: Seq<Provenance>)
    ensures
        join_maps(a, b) != a ==> total_rank(join_maps(a, b)) > total_rank(a),
        total_rank(join_maps(a, b)) >= total_rank(a),
        total_rank(a) <= 2 * a.len(),
    decreases a.len(),
{
    if a.len() > 0 {
        let r = join_maps(a, b);
        let rest = join_maps(a.drop_last(), b);
        assert(rest =~= r.drop_last());
        lemma_join_terminates(a.drop_last(), b);
        if r != a {
            if rest == a.drop_last() && r.last() == a.last() {
                assert(r =~= r.drop_last().push(r.last()));
                assert(a =~= a.drop_last().push(a.last()));
                assert(false);
            }
        }
    } else {
        assert(join_maps(a, b) =~= a);
    }
}

/// Where two paths bring something different, both are known of, and `Mixed` says so.
pub proof fn lemma_join_of_different(a: Provenance, b: Provenance)
    requires
        a != b,
        a != Provenance::Unknown,
        b != Provenance::Unknown,
    ensures
        a.joined_with(b) == Provenance::Mixed,
        !Provenance::Unknown.suspicious(),
        !Provenance::FromOwnedLocal.suspicious(),
        Provenance::FromParam.suspicious(),
        Provenance::Mixed.suspicious(),
{
}

/// An assignment to a whole local variable makes it as suspicious as what is assigned: a
/// reference or a raw pointer is what the place comes from, a value that is used or cast is what
/// its local variable is, and all else is the function's own. Nothing else changes, and an
/// assignment to a part of a variable changes nothing.
pub proof fn lemma_assignment(place: Place, rvalue: Rvalue, state: Seq<Provenance>, i: int)
    requires
        statement_fits(Statement::Assign(place, rvalue), state.len()),
        0 <= i < state.len(),
    ensures
        statement_effect(Statement::Assign(place, rvalue), state).len() == state.len(),
        statement_effect(Statement::Other, state) == state,
        i != place.local || !place.is_bare ==> statement_effect(
            Statement::Assign(place, rvalue),
            state,
        )[i] == state[i],
        i == place.local && place.is_bare ==> {
            let new = statement_effect(Statement::Assign(place, rvalue), state)[i];
            match rvalue {
                Rvalue::Ref(p) => new == state[p.local as int],
                Rvalue::RawPtr(p) => new == state[p.local as int],
                Rvalue::Use(op) => match op.kind {
                    OperandKind::Move(p) => new == state[p.local as int],
                    OperandKind::Copy(p) => new == state[p.local as int],
                    OperandKind::Constant(_) => new == Provenance::FromOwnedLocal,
                },
                Rvalue::Cast(op) => match op.kind {
                    OperandKind::Move(p) => new == state[p.local as int],
                    OperandKind::Copy(p) => new == state[p.local as int],
                    OperandKind::Constant(_) => new == Provenance::FromOwnedLocal,
                },
                _ => new == Provenance::FromOwnedLocal,
            }
        },
{
}

/// What a call returns into a whole local variable is the function's own. Nothing else changes at
/// the end of a block.
pub proof fn lemma_block_end(terminator: Terminator, state: Seq<Provenance>, i: int)
    requires
        terminator_fits(terminator, state.len()),
        0 <= i < state.len(),
    ensures
        terminator_effect(terminator, state).len() == state.len(),
        match terminator.kind {
            TerminatorKind::Call { destination, .. } => terminator_effect(terminator, state)[i]
                == if destination.is_bare && i == destination.local {
                Provenance::FromOwnedLocal
            } else {
                state[i]
            },
            _ => terminator_effect(terminator, state)[i] == state[i],
        },
{
}

/// At the start of a body each parameter that is a reference or a raw pointer, and nothing else,
/// is set to come from a parameter.
pub proof fn lemma_start(types: TyTable, body: Body, state: Seq<Provenance>, i: int)
    requires
        0 <= i < state.len(),
        body.arg_count < body.locals@.len(),
    ensures
        start_state(types, body, state).len() == state.len(),
        start_state(types, body, state)[i] == if 1 <= i <= body.arg_count && body.locals@[i]
            < types.types@.len() && (types.types@[body.locals@[i] as int].kind is Ref
            || types.types@[body.locals@[i] as int].kind is RawPtr) {
            Provenance::FromParam
        } else {
            state[i]
        },
{
}

/// Where two paths meet, each local variable is known by itself: what both paths know of it is
/// joined, and what only the first one knows of is kept.
pub proof fn lemma_joined_by_local(a: Seq<Provenance>, b: Seq<Provenance>, i: int)
    requires
        0 <= i < a.len(),
    ensures
        join_maps(a, b).len() == a.len(),
        i < b.len() && a[i] == b[i] ==> join_maps(a, b)[i] == a[i],
        i < b.len() && a[i] == Provenance::Unknown ==> join_maps(a, b)[i] == b[i],
        i < b.len() && b[i] == Provenance::Unknown ==> join_maps(a, b)[i] == a[i],
        i < b.len() && a[i] != b[i] && a[i] != Provenance::Unknown && b[i] != Provenance::Unknown
            ==> join_maps(a, b)[i] == Provenance::Mixed,
        i >= b.len() ==> join_maps(a, b)[i] == a[i],
{
}

/// At first nothing is known of any local variable, so that a join with it gives what the other
/// path knows.
pub proof fn lemma_nothing_known_at_first(
    analysis: ProvenanceAnalysis,
    r: ProvenanceMap,
    other: Seq<Provenance>,
)
    requires
        call_ensures(ProvenanceAnalysis::bottom_value, (&analysis,), r),
    ensures
        r.locals@.len() == analysis.body.locals@.len(),
        forall|i: int| 0 <= i < r.locals@.len() ==> #[trigger] r.locals@[i] == Provenance::Unknown,
        other.len() == r.locals@.len() ==> join_maps(r.locals@, other) == other && join_maps(
            other,
            r.locals@,
        ) == other,
{
    let first = r@;
    assert forall|i: int| 0 <= i < first.len() implies #[trigger] r.locals@[i] == Provenance::Unknown by {
        assert(first[i] == Provenance::Unknown);
    }
    if other.len() == first.len() {
        assert(join_maps(first, other) =~= other);
        assert(join_maps(other, first) =~= other);
    }
}

} // verus!
