//! How the state of a data-flow analysis fits the body that is analysed.

use crate::model::{
    Block, Body, Operand, OperandKind, Place, Rvalue, Statement, Terminator, TerminatorKind,
};
use vstd::prelude::*;

verus! {

/// The state that an analysis has reached when it comes to the end of a block.
#[derive(Debug)]
pub struct Visit<S> {
    pub block: usize,
    pub state: S,
}

/// A local variable among the first `n`.
pub open spec fn place_fits(place: Place, n: nat) -> bool {
    place.local < n
}

/// Only local variables among the first `n` are read.
pub open spec fn operand_fits(operand: Operand, n: nat) -> bool {
    match operand.kind {
        OperandKind::Move(place) => place_fits(place, n),
        OperandKind::Copy(place) => place_fits(place, n),
        OperandKind::Constant(_) => true,
    }
}

/// Only local variables among the first `n` are read.
pub open spec fn rvalue_fits(rvalue: Rvalue, n: nat) -> bool {
    match rvalue {
        Rvalue::Use(operand) => operand_fits(operand, n),
        Rvalue::Cast(operand) => operand_fits(operand, n),
        Rvalue::Ref(place) => place_fits(place, n),
        Rvalue::RawPtr(place) => place_fits(place, n),
        _ => true,
    }
}

/// Only local variables among the first `n` are read or assigned.
pub open spec fn statement_fits(statement: Statement, n: nat) -> bool {
    match statement {
        Statement::Assign(place, rvalue) => place_fits(place, n) && rvalue_fits(rvalue, n),
        Statement::Other => true,
    }
}

/// Only local variables among the first `n` are read or assigned.
pub open spec fn terminator_fits(terminator: Terminator, n: nat) -> bool {
    match terminator.kind {
        TerminatorKind::Call { func, args, destination } => {
            &&& operand_fits(func, n)
            &&& place_fits(destination, n)
            &&& forall|i: int| 0 <= i < args@.len() ==> operand_fits(#[trigger] args@[i], n)
        },
        _ => true,
    }
}

/// Only local variables among the first `n` are read or assigned.
pub open spec fn block_fits(block: Block, n: nat) -> bool {
    &&& forall|i: int|
        0 <= i < block.statements@.len() ==> statement_fits(#[trigger] block.statements@[i], n)
    &&& match block.terminator {
        Some(t) => terminator_fits(t, n),
        None => true,
    }
}

/// A body has a return value and its parameters among its local variables, and reads and
/// assigns no others.
pub open spec fn body_fits(body: Body) -> bool {
    &&& body.arg_count < body.locals@.len()
    &&& forall|b: int|
        0 <= b < body.blocks@.len() ==> block_fits(#[trigger] body.blocks@[b], body.locals@.len())
}

pub fn check_place(place: &Place, n: usize) -> (r: bool)
    ensures
        r == place_fits(*place, n as nat),
{
    place.local < n
}

pub fn check_operand(operand: &Operand, n: usize) -> (r: bool)
    ensures
        r == operand_fits(*operand, n as nat),
{
    match &operand.kind {
        OperandKind::Move(place) => check_place(place, n),
        OperandKind::Copy(place) => check_place(place, n),
        OperandKind::Constant(_) => true,
    }
}

pub fn check_statement(statement: &Statement, n: usize) -> (r: bool)
    ensures
        r == statement_fits(*statement, n as nat),
{
    match statement {
        Statement::Assign(place, rvalue) => check_place(place, n) && match rvalue {
            Rvalue::Use(operand) => check_operand(operand, n),
            Rvalue::Cast(operand) => check_operand(operand, n),
            Rvalue::Ref(place) => check_place(place, n),
            Rvalue::RawPtr(place) => check_place(place, n),
            _ => true,
        },
        Statement::Other => true,
    }
}

pub fn check_terminator(terminator: &Terminator, n: usize) -> (r: bool)
    ensures
        r == terminator_fits(*terminator, n as nat),
{
    match &terminator.kind {
        TerminatorKind::Call { func, args, destination } => {
            if !check_operand(func, n) || !check_place(destination, n) {
                return false;
            }
            let mut i: usize = 0;
            while i < args.len()
                invariant
                    i <= args.len(),
                    forall|j: int| 0 <= j < i ==> operand_fits(#[trigger] args@[j], n as nat),
                    terminator.kind matches TerminatorKind::Call { args: a, .. } && a == *args,
                decreases args.len() - i,
            {
                if !check_operand(&args[i], n) {
                    assert(!operand_fits(args@[i as int], n as nat));
                    return false;
                }
                i += 1;
            }
            true
        },
        _ => true,
    }
}

pub fn check_block(block: &Block, n: usize) -> (r: bool)
    ensures
        r == block_fits(*block, n as nat),
{
    let mut i: usize = 0;
    while i < block.statements.len()
        invariant
            i <= block.statements.len(),
            forall|j: int|
                0 <= j < i ==> statement_fits(#[trigger] block.statements@[j], n as nat),
        decreases block.statements.len() - i,
    {
        if !check_statement(&block.statements[i], n) {
            assert(!statement_fits(block.statements@[i as int], n as nat));
            return false;
        }
        i += 1;
    }
    match &block.terminator {
        Some(t) => check_terminator(t, n),
        None => true,
    }
}

/// Whether a body reads and assigns only its own local variables.
pub fn check_body(body: &Body) -> (r: bool)
    ensures
        r == body_fits(*body),
{
    if body.arg_count >= body.locals.len() {
        return false;
    }
    let mut b: usize = 0;
    while b < body.blocks.len()
        invariant
            b <= body.blocks.len(),
            forall|c: int|
                0 <= c < b ==> block_fits(#[trigger] body.blocks@[c], body.locals@.len()),
        decreases body.blocks.len() - b,
    {
        if !check_block(&body.blocks[b], body.locals.len()) {
            assert(!block_fits(body.blocks@[b as int], body.locals@.len()));
            return false;
        }
        b += 1;
    }
    true
}

/// The operand reads no local variable, or one among the first `n`.
pub open spec fn reads_within(operand: Operand, n: nat) -> bool {
    match operand.kind {
        OperandKind::Move(place) => place.local < n,
        OperandKind::Copy(place) => place.local < n,
        OperandKind::Constant(_) => true,
    }
}

/// A statement fits exactly when the local variable that it assigns to, and the one that it
/// reads, are among the first `n`.
pub proof fn lemma_statement_fits(place: Place, rvalue: Rvalue, n: nat)
    ensures
        statement_fits(Statement::Other, n),
        statement_fits(Statement::Assign(place, rvalue), n) <==> place.local < n && match rvalue {
            Rvalue::Use(operand) => reads_within(operand, n),
            Rvalue::Cast(operand) => reads_within(operand, n),
            Rvalue::Ref(p) => p.local < n,
            Rvalue::RawPtr(p) => p.local < n,
            _ => true,
        },
{
}

/// The end of a block fits exactly when it is no call, or a call that reads and assigns only
/// local variables among the first `n`.
pub proof fn lemma_terminator_fits(terminator: Terminator, n: nat)
    ensures
        terminator_fits(terminator, n) <==> match terminator.kind {
            TerminatorKind::Call { func, args, destination } => {
                &&& reads_within(func, n)
                &&& destination.local < n
                &&& forall|i: int| 0 <= i < args@.len() ==> reads_within(#[trigger] args@[i], n)
            },
            _ => true,
        },
{
    match terminator.kind {
        TerminatorKind::Call { func, args, destination } => {
            assert forall|i: int| 0 <= i < args@.len() implies operand_fits(#[trigger] args@[i], n)
                == reads_within(args@[i], n) by {}
        },
        _ => {},
    }
}

/// A body fits exactly when there is room for its parameters and its return value among its
/// local variables and each statement and each end of its blocks fits those variables.
pub proof fn lemma_body_fits(body: Body)
    ensures
        body_fits(body) <==> {
            &&& body.arg_count < body.locals@.len()
            &&& forall|b: int, s: int|
                0 <= b < body.blocks@.len() && 0 <= s < body.blocks@[b].statements@.len()
                    ==> statement_fits(
                    #[trigger] body.blocks@[b].statements@[s],
                    body.locals@.len(),
                )
            &&& forall|b: int|
                0 <= b < body.blocks@.len() && (#[trigger] body.blocks@[b]).terminator is Some
                    ==> terminator_fits(body.blocks@[b].terminator->0, body.locals@.len())
        },
{
    let n = body.locals@.len();
    if forall|b: int, s: int|
        0 <= b < body.blocks@.len() && 0 <= s < body.blocks@[b].statements@.len()
            ==> statement_fits(#[trigger] body.blocks@[b].statements@[s], n) {
        assert forall|b: int| 0 <= b < body.blocks@.len() && (body.blocks@[b].terminator is Some
            ==> terminator_fits(body.blocks@[b].terminator->0, n)) implies block_fits(
            #[trigger] body.blocks@[b],
            n,
        ) by {}
    }
    if body_fits(body) {
        assert forall|b: int, s: int|
            0 <= b < body.blocks@.len() && 0 <= s
                < body.blocks@[b].statements@.len() implies statement_fits(
            #[trigger] body.blocks@[b].statements@[s],
            n,
        ) by {
            assert(block_fits(body.blocks@[b], n));
        }
    }
}

} // verus!
