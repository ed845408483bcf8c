//! Where the values of the local variables of a body come from.

use crate::flow::{statement_fits, terminator_fits};
use crate::model::{
    Body, Operand, OperandKind, Place, Rvalue, Statement, Terminator, TerminatorKind, TyId, TyKind,
    TyTable,
};
use std::collections::HashSet;
use vstd::prelude::*;
use vstd::std_specs::hash::*;

verus! {

broadcast use group_hash_axioms;

// ---------------------------------------------------------------------------------------------
// Lattice
// ---------------------------------------------------------------------------------------------

/// Where the value of a local variable comes from.
#[derive(Clone, Copy, PartialEq, Eq, Structural, Debug)]
pub enum Origin {
    Unknown,
    FreshInThisFn,
    FromParam,
    Mixed,
}

impl Origin {
    /// What is known where two control-flow paths meet.
    pub open spec fn joined_with(self, other: Origin) -> Origin {
        if self == Origin::Unknown {
            other
        } else if other == Origin::Unknown || self == other {
            self
        } else {
            Origin::Mixed
        }
    }

    pub fn join(self, other: Origin) -> (r: Origin)
        ensures
            r == self.joined_with(other),
    {
        match (self, other) {
            (Origin::Unknown, x) => x,
            (x, Origin::Unknown) => x,
            (a, b) => if a == b {
                a
            } else {
                Origin::Mixed
            },
        }
    }

    /// How much is known: nothing, one source, or several.
    pub open spec fn rank(self) -> nat {
        match self {
            Origin::Unknown => 0,
            Origin::FreshInThisFn => 1,
            Origin::FromParam => 1,
            Origin::Mixed => 2,
        }
    }
}

/// The origin of each local variable.
#[derive(Debug)]
pub struct OriginMap {
    pub locals: Vec<Origin>,
}

impl Clone for OriginMap {
    fn clone(&self) -> (r: OriginMap)
        ensures
            r@ == self@,
    {
        OriginMap { locals: self.locals.clone() }
    }
}

impl View for OriginMap {
    type V = Seq<Origin>;

    open spec fn view(&self) -> Seq<Origin> {
        self.locals@
    }
}

/// What is known of each local variable where two control-flow paths meet.
pub open spec fn join_maps(a: Seq<Origin>, b: Seq<Origin>) -> Seq<Origin> {
    Seq::new(
        a.len(),
        |i: int|
            if i < b.len() {
                a[i].joined_with(b[i])
            } else {
                a[i]
            },
    )
}

impl OriginMap {
    /// Takes in what another path knows; returns whether that changed anything.
    pub fn join(&mut self, other: &OriginMap) -> (changed: bool)
        ensures
            final(self)@ == join_maps(old(self)@, other@),
            changed == (final(self)@ != old(self)@),
    {
        let ghost start = self@;
        let mut changed = false;
        let mut i: usize = 0;
        while i < self.locals.len() && i < other.locals.len()
            invariant
                i <= self.locals.len(),
                i <= other.locals.len(),
                self@.len() == start.len(),
                forall|j: int| 0 <= j < i ==> self@[j] == start[j].joined_with(other@[j]),
                forall|j: int| i <= j < start.len() ==> self@[j] == start[j],
                changed == (exists|j: int| 0 <= j < i && self@[j] != #[trigger] start[j]),
            decreases self.locals.len() - i,
        {
            let ghost before = self@;
            let new = self.locals[i].join(other.locals[i]);
            if new != self.locals[i] {
                self.locals.set(i, new);
                changed = true;
                assert(self@[i as int] != start[i as int]);
            }
            proof {
                if exists|j: int| 0 <= j < i && before[j] != #[trigger] start[j] {
                    let j = choose|j: int| 0 <= j < i && before[j] != #[trigger] start[j];
                    assert(self@[j] != start[j]);
                }
            }
            i += 1;
        }
        assert(self@ =~= join_maps(start, other@));
        proof {
            if changed {
                let j = choose|j: int| 0 <= j < i && self@[j] != #[trigger] start[j];
                assert(self@[j] != start[j]);
            } else {
                assert(self@ =~= start);
            }
        }
        changed
    }
}

// ---------------------------------------------------------------------------------------------
// Data flow
// ---------------------------------------------------------------------------------------------

/// A type is one of the given structs, enums and unions.
pub open spec fn is_one_of(types: TyTable, critical: Set<u64>, ty: TyId) -> bool {
    match types.adt_of(ty) {
        Some(adt) => critical.contains(adt),
        None => false,
    }
}

/// What a function that is called there returns, where it is known.
pub open spec fn output_of(func: Operand) -> Option<TyId> {
    match func.kind {
        OperandKind::Constant(Some(f)) => Some(f.output),
        _ => None,
    }
}

/// The origin of a value that is made on the spot: fresh where its type is drop-critical.
pub open spec fn made_here(types: TyTable, critical: Set<u64>, ty: TyId) -> Origin {
    if is_one_of(types, critical, ty) {
        Origin::FreshInThisFn
    } else {
        Origin::Unknown
    }
}

/// The origin of a computed value that is assigned to a local variable of the given type.
pub open spec fn rvalue_origin(
    types: TyTable,
    critical: Set<u64>,
    ty: TyId,
    rvalue: Rvalue,
    state: Seq<Origin>,
) -> Origin {
    match rvalue {
        Rvalue::Aggregate => made_here(types, critical, ty),
        Rvalue::Use(operand) => match operand.kind {
            OperandKind::Move(place) => state[place.local as int],
            OperandKind::Copy(place) => state[place.local as int],
            OperandKind::Constant(_) => made_here(types, critical, ty),
        },
        _ => Origin::Unknown,
    }
}

/// The state after a statement: an assignment to a whole local variable sets its origin.
pub open spec fn statement_effect(
    types: TyTable,
    critical: Set<u64>,
    locals: Seq<TyId>,
    statement: Statement,
    state: Seq<Origin>,
) -> Seq<Origin> {
    match statement {
        Statement::Assign(place, rvalue) => if place.is_bare {
            state.update(
                place.local as int,
                rvalue_origin(types, critical, locals[place.local as int], rvalue, state),
            )
        } else {
            state
        },
        Statement::Other => state,
    }
}

/// The state after the end of a block: what a call returns is fresh where the type that the
/// function returns is drop-critical.
pub open spec fn terminator_effect(
    types: TyTable,
    critical: Set<u64>,
    terminator: Terminator,
    state: Seq<Origin>,
) -> Seq<Origin> {
    match terminator.kind {
        TerminatorKind::Call { func, destination, .. } => if destination.is_bare {
            state.update(
                destination.local as int,
                match output_of(func) {
                    Some(ty) => made_here(types, critical, ty),
                    None => Origin::Unknown,
                },
            )
        } else {
            state
        },
        _ => state,
    }
}

/// The state at the start of a body: the parameters come from outside.
pub open spec fn start_state(body: Body, state: Seq<Origin>) -> Seq<Origin> {
    Seq::new(
        state.len(),
        |i: int|
            if 1 <= i <= body.arg_count {
                Origin::FromParam
            } else {
                state[i]
            },
    )
}

/// Follows the origins of the local variables of one body.
pub struct OriginAnalysis<'a> {
    pub types: &'a TyTable,
    pub body: &'a Body,
    pub drop_critical: &'a HashSet<u64>,
}

impl<'a> OriginAnalysis<'a> {
    /// The state where nothing is known.
    pub fn bottom_value(&self) -> (r: OriginMap)
        ensures
            r@ == Seq::new(self.body.locals@.len(), |i: int| Origin::Unknown),
    {
        let mut locals: Vec<Origin> = Vec::new();
        let mut i: usize = 0;
        while i < self.body.locals.len()
            invariant
                i <= self.body.locals.len(),
                locals@ =~= Seq::new(i as nat, |j: int| Origin::Unknown),
            decreases self.body.locals.len() - i,
        {
            locals.push(Origin::Unknown);
            i += 1;
        }
        OriginMap { locals }
    }

    pub fn initialize_start_block(&self, state: &mut OriginMap)
        requires
            self.body.arg_count < old(state)@.len(),
        ensures
            final(state)@ == start_state(*self.body, old(state)@),
    {
        let ghost start = state@;
        let mut i: usize = 1;
        while i <= self.body.arg_count
            invariant
                1 <= i <= self.body.arg_count + 1,
                self.body.arg_count < state.locals.len(),
                start.len() == state@.len(),
                forall|j: int| 0 <= j < i ==> state@[j] == start_state(*self.body, start)[j],
                forall|j: int| i <= j < state@.len() ==> state@[j] == start[j],
            decreases self.body.arg_count + 1 - i,
        {
            state.locals.set(i, Origin::FromParam);
            i += 1;
        }
        assert(state@ =~= start_state(*self.body, start));
    }

    pub fn apply_primary_statement_effect(&self, state: &mut OriginMap, statement: &Statement)
        requires
            old(state)@.len() == self.body.locals@.len(),
            statement_fits(*statement, old(state)@.len()),
        ensures
            final(state)@ == statement_effect(
                *self.types,
                self.drop_critical@,
                self.body.locals@,
                *statement,
                old(state)@,
            ),
    {
        if let Statement::Assign(place, rvalue) = statement {
            if place.is_bare {
                let ty: TyId = self.body.locals[place.local];
                let origin = match rvalue {
                    Rvalue::Aggregate => self.fresh_if_critical(ty),
                    Rvalue::Use(operand) => match &operand.kind {
                        OperandKind::Move(p) => state.locals[p.local],
                        OperandKind::Copy(p) => state.locals[p.local],
                        OperandKind::Constant(_) => self.fresh_if_critical(ty),
                    },
                    _ => Origin::Unknown,
                };
                state.locals.set(place.local, origin);
            }
        }
    }

    pub fn apply_primary_terminator_effect(&self, state: &mut OriginMap, terminator: &Terminator)
        requires
            terminator_fits(*terminator, old(state)@.len()),
        ensures
            final(state)@ == terminator_effect(
                *self.types,
                self.drop_critical@,
                *terminator,
                old(state)@,
            ),
    {
        if let TerminatorKind::Call { func, destination, .. } = &terminator.kind {
            if destination.is_bare {
                let origin = match callee_return_ty(func) {
                    Some(ty) => self.fresh_if_critical(ty),
                    None => Origin::Unknown,
                };
                state.locals.set(destination.local, origin);
            }
        }
    }

    fn fresh_if_critical(&self, ty: TyId) -> (r: Origin)
        ensures
            r == made_here(*self.types, self.drop_critical@, ty),
    {
        if is_drop_critical_ty(self.types, self.drop_critical, ty) {
            Origin::FreshInThisFn
        } else {
            Origin::Unknown
        }
    }
}

/// Whether a type is one of the given structs, enums and unions.
pub fn is_drop_critical_ty(types: &TyTable, drop_critical: &HashSet<u64>, ty: TyId) -> (r: bool)
    ensures
        r == is_one_of(*types, drop_critical@, ty),
{
    match types.adt(ty) {
        Some(adt) => drop_critical.contains(&adt),
        None => false,
    }
}

/// What a function that is called there returns, where it is known.
pub fn callee_return_ty(func: &Operand) -> (r: Option<TyId>)
    ensures
        r == output_of(*func),
{
    match &func.kind {
        OperandKind::Constant(Some(f)) => Some(f.output),
        _ => None,
    }
}

// ---------------------------------------------------------------------------------------------
// Laws
// ---------------------------------------------------------------------------------------------

/// Joining is commutative, associative and idempotent; `Unknown` adds nothing, and nothing
/// changes `Mixed`.
pub proof fn lemma_join_laws(a: Origin, b: Origin, c: Origin)
    ensures
        a.joined_with(b) == b.joined_with(a),
        a.joined_with(b).joined_with(c) == a.joined_with(b.joined_with(c)),
        a.joined_with(a) == a,
        a.joined_with(Origin::Unknown) == a,
        a.joined_with(Origin::Mixed) == Origin::Mixed,
{
}

/// What is known where all of the given paths meet.
pub open spec fn join_all(paths: Seq<Origin>) -> Origin
    decreases paths.len(),
{
    if paths.len() == 0 {
        Origin::Unknown
    } else {
        join_all(paths.drop_last()).joined_with(paths.last())
    }
}

/// A value is fresh where paths meet exactly when it is fresh on one of them and not known to
/// be anything else on the others.
pub proof fn lemma_fresh_iff_all_paths_fresh(paths: Seq<Origin>)
    ensures
        join_all(paths) == Origin::FreshInThisFn <==> {
            &&& exists|i: int| 0 <= i < paths.len() && #[trigger] paths[i] == Origin::FreshInThisFn
            &&& forall|i: int|
                0 <= i < paths.len() ==> #[trigger] paths[i] == Origin::FreshInThisFn || paths[i]
                    == Origin::Unknown
        },
        join_all(paths) == Origin::Unknown <==> forall|i: int|
            0 <= i < paths.len() ==> #[trigger] paths[i] == Origin::Unknown,
    decreases paths.len(),
{
    if paths.len() > 0 {
        let rest = paths.drop_last();
        lemma_fresh_iff_all_paths_fresh(rest);
        assert(forall|i: int| 0 <= i < rest.len() ==> rest[i] == paths[i]);
        assert(paths.last() == paths[paths.len() - 1]);
        if exists|i: int| 0 <= i < rest.len() && #[trigger] rest[i] == Origin::FreshInThisFn {
            let i = choose|i: int|
                0 <= i < rest.len() && #[trigger] rest[i] == Origin::FreshInThisFn;
            assert(paths[i] == Origin::FreshInThisFn);
        }
        if exists|i: int| 0 <= i < paths.len() && #[trigger] paths[i] == Origin::FreshInThisFn {
            let i = choose|i: int|
                0 <= i < paths.len() && #[trigger] paths[i] == Origin::FreshInThisFn;
            if i < rest.len() {
                assert(rest[i] == Origin::FreshInThisFn);
            }
        }
        assert forall|i: int| 0 <= i < paths.len() implies (#[trigger] paths[i]) == (if i
            < rest.len() {
            rest[i]
        } else {
            paths.last()
        }) by {}
    }
}

/// It makes no difference whether two paths meet before a statement or after it, nor whether
/// they meet before the end of a block or after it.
pub proof fn lemma_effects_distribute(
    types: TyTable,
    critical: Set<u64>,
    locals: Seq<TyId>,
    statement: Statement,
    terminator: Terminator,
    a: Seq<Origin>,
    b: Seq<Origin>,
)
    requires
        a.len() == b.len(),
        statement_fits(statement, a.len()),
        terminator_fits(terminator, a.len()),
    ensures
        statement_effect(types, critical, locals, statement, join_maps(a, b)) == join_maps(
            statement_effect(types, critical, locals, statement, a),
            statement_effect(types, critical, locals, statement, b),
        ),
        terminator_effect(types, critical, terminator, join_maps(a, b)) == join_maps(
            terminator_effect(types, critical, terminator, a),
            terminator_effect(types, critical, terminator, b),
        ),
{
    assert(statement_effect(types, critical, locals, statement, join_maps(a, b)) =~= join_maps(
        statement_effect(types, critical, locals, statement, a),
        statement_effect(types, critical, locals, statement, b),
    ));
    assert(terminator_effect(types, critical, terminator, join_maps(a, b)) =~= join_maps(
        terminator_effect(types, critical, terminator, a),
        terminator_effect(types, critical, terminator, b),
    ));
}

/// On a single path nothing becomes mixed: neither a statement nor the end of a block makes an
/// origin `Mixed` where none was.
pub proof fn lemma_effects_do_not_mix(
    types: TyTable,
    critical: Set<u64>,
    locals: Seq<TyId>,
    statement: Statement,
    terminator: Terminator,
    state: Seq<Origin>,
)
    requires
        statement_fits(statement, state.len()),
        terminator_fits(terminator, state.len()),
        forall|i: int| 0 <= i < state.len() ==> #[trigger] state[i] != Origin::Mixed,
    ensures
        forall|i: int|
            0 <= i < state.len() ==> #[trigger] statement_effect(
                types,
                critical,
                locals,
                statement,
                state,
            )[i] != Origin::Mixed,
        forall|i: int|
            0 <= i < state.len() ==> #[trigger] terminator_effect(
                types,
                critical,
                terminator,
                state,
            )[i] != Origin::Mixed,
{
}

/// Joining maps is idempotent, and what was joined once adds nothing more. Among maps of the
/// same locals it is commutative; it is associative unless the middle map is shorter than both others.
pub proof fn lemma_join_maps_laws(a: Seq<Origin>, b: Seq<Origin>, c: Seq<Origin>)
    ensures
        join_maps(a, a) == a,
        join_maps(join_maps(a, b), b) == join_maps(a, b),
        a.len() == b.len() ==> join_maps(a, b) == join_maps(b, a),
        a.len() <= b.len() || c.len() <= b.len() ==> join_maps(join_maps(a, b), c) == join_maps(
            a,
            join_maps(b, c),
        ),
{
    assert(join_maps(a, a) =~= a);
    assert(join_maps(join_maps(a, b), b) =~= join_maps(a, b));
    if a.len() == b.len() {
        assert(join_maps(a, b) =~= join_maps(b, a));
    }
    if a.len() <= b.len() || c.len() <= b.len() {
        assert(join_maps(join_maps(a, b), c) =~= join_maps(a, join_maps(b, c)));
    }
}

/// How much is known of all local variables together.
pub open spec fn total_rank(map: Seq<Origin>) -> nat
    decreases map.len(),
{
    if map.len() == 0 {
        0
    } else {
        total_rank(map.drop_last()) + map.last().rank()
    }
}

/// A join that changes a map raises its rank, and no rank exceeds twice the number of local
/// variables: a map can be changed by joins only so many times.
pub proof fn lemma_join_terminates(a: Seq<Origin>, b: Seq<Origin>)
    ensures
        join_maps(a, b) != a ==> total_rank(join_maps(a, b)) > total_rank(a),
        total_rank(join_maps(a, b)) >= total_rank(a),
        total_rank(a) <= 2 * a.len(),
    decreases a.len(),
{
    if a.len() > 0 {
        let r = join_maps(a, b);
        let rest = join_maps(a.drop_last(), b);
        assert(rest =~= r.drop_last());
        lemma_join_terminates(a.drop_last(), b);
        if r != a {
            if rest == a.drop_last() && r.last() == a.last() {
                assert(r =~= r.drop_last().push(r.last()));
                assert(a =~= a.drop_last().push(a.last()));
                assert(false);
            }
        }
    } else {
        assert(join_maps(a, b) =~= a);
    }
}

/// Where two paths bring something different, both are known of, and `Mixed` says so.
pub proof fn lemma_join_of_different(a: Origin, b: Origin)
    requires
        a != b,
        a != Origin::Unknown,
        b != Origin::Unknown,
    ensures
        a.joined_with(b) == Origin::Mixed,
{
}

/// An assignment to a whole local variable sets its origin: a moved or copied value keeps its
/// own, and a constant or an aggregate is fresh where the variable's type is drop-critical. Of
/// all else nothing is known. Nothing else changes, and an assignment to a part of a variable
/// changes nothing.
pub proof fn lemma_assignment(
    types: TyTable,
    critical: Set<u64>,
    locals: Seq<TyId>,
    place: Place,
    rvalue: Rvalue,
    state: Seq<Origin>,
    i: int,
)
    requires
        statement_fits(Statement::Assign(place, rvalue), state.len()),
        locals.len() == state.len(),
        0 <= i < state.len(),
    ensures
        statement_effect(types, critical, locals, Statement::Assign(place, rvalue), state).len()
            == state.len(),
        statement_effect(types, critical, locals, Statement::Other, state) == state,
        i != place.local || !place.is_bare ==> statement_effect(
            types,
            critical,
            locals,
            Statement::Assign(place, rvalue),
            state,
        )[i] == state[i],
        i == place.local && place.is_bare ==> {
            let new = statement_effect(
                types,
                critical,
                locals,
                Statement::Assign(place, rvalue),
                state,
            )[i];
            let fresh = if locals[i] < types.types@.len()
                && match types.types@[locals[i] as int].kind {
                TyKind::Adt { def, .. } => critical.contains(def.id),
                _ => false,
            } {
                Origin::FreshInThisFn
            } else {
                Origin::Unknown
            };
            match rvalue {
                Rvalue::Aggregate => new == fresh,
                Rvalue::Use(op) => match op.kind {
                    OperandKind::Move(p) => new == state[p.local as int],
                    OperandKind::Copy(p) => new == state[p.local as int],
                    OperandKind::Constant(_) => new == fresh,
                },
                _ => new == Origin::Unknown,
            }
        },
{
}

/// What a call returns into a whole local variable is fresh where the function is known and
/// returns a drop-critical type, and else nothing is known of it. Nothing else changes at the end
/// of a block.
pub proof fn lemma_block_end(
    types: TyTable,
    critical: Set<u64>,
    terminator: Terminator,
    state: Seq<Origin>,
    i: int,
)
    requires
        terminator_fits(terminator, state.len()),
        0 <= i < state.len(),
    ensures
        terminator_effect(types, critical, terminator, state).len() == state.len(),
        match terminator.kind {
            TerminatorKind::Call { func, destination, .. } => terminator_effect(
                types,
                critical,
                terminator,
                state,
            )[i] == if !destination.is_bare || i != destination.local {
                state[i]
            } else if match func.kind {
                OperandKind::Constant(Some(f)) => f.output < types.types@.len()
                    && match types.types@[f.output as int].kind {
                    TyKind::Adt { def, .. } => critical.contains(def.id),
                    _ => false,
                },
                _ => false,
            } {
                Origin::FreshInThisFn
            } else {
                Origin::Unknown
            },
            _ => terminator_effect(types, critical, terminator, state)[i] == state[i],
        },
{
}

/// At the start of a body the parameters, and nothing else, are set to come from outside.
pub proof fn lemma_start(body: Body, state: Seq<Origin>, i: int)
    requires
        0 <= i < state.len(),
    ensures
        start_state(body, state).len() == state.len(),
        start_state(body, state)[i] == if 1 <= i <= body.arg_count {
            Origin::FromParam
        } else {
            state[i]
        },
{
}

/// Where two paths meet, each local variable is known by itself: what both paths know of it is
/// joined, and what only the first one knows of is kept.
pub proof fn lemma_joined_by_local(a: Seq<Origin>, b: Seq<Origin>, i: int)
    requires
        0 <= i < a.len(),
    ensures
        join_maps(a, b).len() == a.len(),
        i < b.len() && a[i] == b[i] ==> join_maps(a, b)[i] == a[i],
        i < b.len() && a[i] == Origin::Unknown ==> join_maps(a, b)[i] == b[i],
        i < b.len() && b[i] == Origin::Unknown ==> join_maps(a, b)[i] == a[i],
        i < b.len() && a[i] != b[i] && a[i] != Origin::Unknown && b[i] != Origin::Unknown
            ==> join_maps(a, b)[i] == Origin::Mixed,
        i >= b.len() ==> join_maps(a, b)[i] == a[i],
{
}

/// At first nothing is known of any local variable, so that a join with it gives what the other
/// path knows.
pub proof fn lemma_nothing_known_at_first(
    analysis: OriginAnalysis,
    r: OriginMap,
    other: Seq<Origin>,
)
    requires
        call_ensures(OriginAnalysis::bottom_value, (&analysis,), r),
    ensures
        r.locals@.len() == analysis.body.locals@.len(),
        forall|i: int| 0 <= i < r.locals@.len() ==> #[trigger] r.locals@[i] == Origin::Unknown,
        other.len() == r.locals@.len() ==> join_maps(r.locals@, other) == other && join_maps(
            other,
            r.locals@,
        ) == other,
{
    let first = r@;
    assert forall|i: int| 0 <= i < first.len() implies #[trigger] r.locals@[i] == Origin::Unknown by {
        assert(first[i] == Origin::Unknown);
    }
    if other.len() == first.len() {
        assert(join_maps(first, other) =~= other);
        assert(join_maps(other, first) =~= other);
    }
}

} // verus!
