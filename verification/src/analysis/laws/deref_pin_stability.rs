//! Which impls of `Deref` and `DerefMut` are warned about.

use crate::analysis::deref_pin_stability::{self, unstable, FindingKindView, FindingView};
use crate::analysis::laws::common::{
    ends_in_call, is_adt, is_allocator, is_mover, lemma_block_call, lemma_contains_append,
    lemma_items_met, lemma_known_functions, lemma_quotes, met_first, quotes,
};
use crate::analysis::paths::{lemma_pin_paths, without_generics};
use crate::analysis::util::{block_call, items_of};
use crate::diagnostic::{as_list, DiagnosticView};
use crate::model::{
    Block, Body, Crate, GenericArg, HirTy, HirTyKind, ImplItemKind, ItemKind, Rvalue, Statement,
};
use crate::search::{first_at, lemma_first_absent, lemma_first_found};
use crate::text::decimal_text;
use vstd::prelude::*;

verus! {

/// The statement assigns to the return value, or to a part of it, what the text stands for: a
/// reference or a raw pointer to a place, or an operand.
pub open spec fn gives_back(statement: Statement, text: Seq<char>) -> bool {
    match statement {
        Statement::Assign(place, rvalue) => place.local == 0 && match rvalue {
            Rvalue::Ref(p) => p.text@ == text,
            Rvalue::RawPtr(p) => p.text@ == text,
            Rvalue::Use(op) => op.text@ == text,
            _ => false,
        },
        Statement::Other => false,
    }
}

/// Some statement of the body gives back what the text stands for.
pub open spec fn may_give_back(blocks: Seq<Block>, text: Seq<char>) -> bool {
    exists|b: int, s: int|
        0 <= b < blocks.len() && 0 <= s < blocks[b].statements@.len() && gives_back(
            #[trigger] blocks[b].statements@[s],
            text,
        )
}

/// What flows into the return value of a body is what its statements give back, and that is
/// finite.
pub proof fn lemma_return_sources(blocks: Seq<Block>)
    ensures
        deref_pin_stability::return_sources(blocks) == Set::new(
            |text: Seq<char>| may_give_back(blocks, text),
        ),
        deref_pin_stability::return_sources(blocks).finite(),
{
    let sources = deref_pin_stability::return_sources(blocks);
    assert forall|text: Seq<char>| sources.contains(text) <==> may_give_back(blocks, text) by {
        if sources.contains(text) {
            let b = choose|b: int|
                0 <= b < blocks.len() && deref_pin_stability::block_sources(
                    #[trigger] blocks[b],
                ).contains(text);
            let s = choose|s: int|
                0 <= s < blocks[b].statements@.len() && deref_pin_stability::return_source(
                    #[trigger] blocks[b].statements@[s],
                ) == Some(text);
            assert(gives_back(blocks[b].statements@[s], text));
        }
        if may_give_back(blocks, text) {
            let (b, s) = choose|b: int, s: int|
                0 <= b < blocks.len() && 0 <= s < blocks[b].statements@.len() && gives_back(
                    #[trigger] blocks[b].statements@[s],
                    text,
                );
            assert(deref_pin_stability::return_source(blocks[b].statements@[s]) == Some(text));
            assert(deref_pin_stability::block_sources(blocks[b]).contains(text));
        }
    }
    assert(sources =~= Set::new(|text: Seq<char>| may_give_back(blocks, text)));
    lemma_sources_finite(blocks);
}

proof fn lemma_sources_finite(blocks: Seq<Block>)
    ensures
        deref_pin_stability::return_sources(blocks).finite(),
    decreases blocks.len(),
{
    let sources = deref_pin_stability::return_sources(blocks);
    if blocks.len() == 0 {
        assert(sources =~= Set::empty());
    } else {
        let rest = blocks.drop_last();
        lemma_sources_finite(rest);
        lemma_statements_finite(blocks.last().statements@);
        let added = statement_sources(blocks.last().statements@);
        let before = deref_pin_stability::return_sources(rest);
        assert(sources =~= before.union(added)) by {
            assert forall|text: Seq<char>| sources.contains(text) <==> before.contains(text)
                || added.contains(text) by {
                if sources.contains(text) {
                    let b = choose|b: int|
                        0 <= b < blocks.len() && deref_pin_stability::block_sources(
                            #[trigger] blocks[b],
                        ).contains(text);
                    if b < rest.len() {
                        assert(rest[b] == blocks[b]);
                    }
                }
                if before.contains(text) {
                    let b = choose|b: int|
                        0 <= b < rest.len() && deref_pin_stability::block_sources(
                            #[trigger] rest[b],
                        ).contains(text);
                    assert(blocks[b] == rest[b]);
                }
                if added.contains(text) {
                    assert(deref_pin_stability::block_sources(
                        blocks[blocks.len() - 1],
                    ).contains(text));
                }
            }
        }
    }
}

spec fn statement_sources(statements: Seq<Statement>) -> Set<Seq<char>> {
    Set::new(
        |text: Seq<char>|
            exists|s: int|
                0 <= s < statements.len() && deref_pin_stability::return_source(
                    #[trigger] statements[s],
                ) == Some(text),
    )
}

proof fn lemma_statements_finite(statements: Seq<Statement>)
    ensures
        statement_sources(statements).finite(),
    decreases statements.len(),
{
    let sources = statement_sources(statements);
    if statements.len() == 0 {
        assert(sources =~= Set::empty());
    } else {
        let rest = statements.drop_last();
        lemma_statements_finite(rest);
        let before = statement_sources(rest);
        let last = deref_pin_stability::return_source(statements.last());
        let all = match last {
            Some(text) => before.insert(text),
            None => before,
        };
        assert(sources =~= all) by {
            assert forall|text: Seq<char>| sources.contains(text) <==> all.contains(text) by {
                if sources.contains(text) {
                    let s = choose|s: int|
                        0 <= s < statements.len() && deref_pin_stability::return_source(
                            #[trigger] statements[s],
                        ) == Some(text);
                    if s < rest.len() {
                        assert(rest[s] == statements[s]);
                    }
                }
                if before.contains(text) {
                    let s = choose|s: int|
                        0 <= s < rest.len() && deref_pin_stability::return_source(
                            #[trigger] rest[s],
                        ) == Some(text);
                    assert(statements[s] == rest[s]);
                }
                if last == Some(text) {
                    assert(statements[statements.len() - 1] == statements.last());
                }
            }
        }
    }
}

/// The body may give back two different things.
pub open spec fn branches(blocks: Seq<Block>) -> bool {
    exists|a: Seq<char>, b: Seq<char>|
        a != b && #[trigger] may_give_back(blocks, a) && #[trigger] may_give_back(blocks, b)
}

/// The body ends a block in a call of a function that allocates or moves values in memory.
pub open spec fn calls_suspect(blocks: Seq<Block>) -> bool {
    exists|b: int, path: Seq<char>, span: u64|
        0 <= b < blocks.len() && #[trigger] ends_in_call(blocks[b], path, span) && (is_allocator(
            path,
        ) || is_mover(path))
}

/// The finding is one to be made in the body: a call that allocates, a call that moves values in
/// memory, or how many things flow into the return value, where that is more than one.
pub open spec fn is_to_be_found(body: Body, f: FindingView) -> bool {
    match f.kind {
        FindingKindView::Allocation(path) => is_allocator(path) && exists|b: int|
            0 <= b < body.blocks@.len() && #[trigger] ends_in_call(body.blocks@[b], path, f.span),
        FindingKindView::MemMutation(path) => is_mover(path) && exists|b: int|
            0 <= b < body.blocks@.len() && #[trigger] ends_in_call(body.blocks@[b], path, f.span),
        FindingKindView::BranchingReturn(n) => {
            &&& branches(body.blocks@)
            &&& n == Set::new(|text: Seq<char>| may_give_back(body.blocks@, text)).len()
            &&& f.span == body.span
        },
    }
}

/// What is found in a body is what is to be found.
pub proof fn lemma_findings(body: Body, f: FindingView)
    ensures
        deref_pin_stability::body_findings(body).contains(f) <==> is_to_be_found(body, f),
{
    let blocks = body.blocks@;
    let allocs = deref_pin_stability::allocations(blocks);
    let branch = deref_pin_stability::branchings(body);
    let moves = deref_pin_stability::mutations(blocks);
    lemma_contains_append(allocs + branch, moves, f);
    lemma_contains_append(allocs, branch, f);
    lemma_allocations(blocks, f);
    lemma_mutations(blocks, f);
    lemma_branches(blocks);
    let found = FindingView {
        span: body.span,
        kind: FindingKindView::BranchingReturn(deref_pin_stability::return_sources(blocks).len()),
    };
    assert(branch.contains(f) <==> branches(blocks) && f == found) by {
        if branches(blocks) {
            assert(branch[0] == found);
        }
    }
    match f.kind {
        FindingKindView::Allocation(path) => {},
        FindingKindView::MemMutation(path) => {},
        FindingKindView::BranchingReturn(n) => {},
    }
}

/// Something is found in a body exactly when it may give back two different things, or calls a
/// function that allocates or moves values in memory.
pub proof fn lemma_suspect_bodies(body: Body)
    ensures
        deref_pin_stability::body_findings(body).len() > 0 <==> branches(body.blocks@)
            || calls_suspect(body.blocks@),
{
    let blocks = body.blocks@;
    let all = deref_pin_stability::body_findings(body);
    if branches(blocks) {
        lemma_findings(
            body,
            FindingView {
                span: body.span,
                kind: FindingKindView::BranchingReturn(
                    Set::new(|text: Seq<char>| may_give_back(blocks, text)).len(),
                ),
            },
        );
    }
    if calls_suspect(blocks) {
        let (b, path, span) = choose|b: int, path: Seq<char>, span: u64|
            0 <= b < blocks.len() && #[trigger] ends_in_call(blocks[b], path, span) && (
            is_allocator(path) || is_mover(path));
        let f = FindingView { span, kind: FindingKindView::Allocation(path) };
        let g = FindingView { span, kind: FindingKindView::MemMutation(path) };
        lemma_findings(body, f);
        lemma_findings(body, g);
        if is_allocator(path) {
            assert(f.kind->Allocation_0 == path);
            assert(ends_in_call(body.blocks@[b], f.kind->Allocation_0, f.span));
            assert(is_to_be_found(body, f));
        } else {
            assert(g.kind->MemMutation_0 == path);
            assert(ends_in_call(body.blocks@[b], g.kind->MemMutation_0, g.span));
            assert(is_to_be_found(body, g));
        }
    }
    if all.len() > 0 {
        let f = all[0];
        assert(all.contains(f));
        lemma_findings(body, f);
        match f.kind {
            FindingKindView::Allocation(path) => {
                let b = choose|b: int|
                    0 <= b < blocks.len() && #[trigger] ends_in_call(blocks[b], path, f.span);
                assert(ends_in_call(blocks[b], path, f.span));
                assert(calls_suspect(blocks));
            },
            FindingKindView::MemMutation(path) => {
                let b = choose|b: int|
                    0 <= b < blocks.len() && #[trigger] ends_in_call(blocks[b], path, f.span);
                assert(ends_in_call(blocks[b], path, f.span));
                assert(calls_suspect(blocks));
            },
            FindingKindView::BranchingReturn(n) => {},
        }
    }
}

/// Two statements of a body that give back different things, whichever way, make it suspect.
pub proof fn lemma_two_returns_found(body: Body, b: int, s: int, c: int, t: int, x: Seq<char>, y: Seq<char>)
    requires
        0 <= b < body.blocks@.len(),
        0 <= s < body.blocks@[b].statements@.len(),
        0 <= c < body.blocks@.len(),
        0 <= t < body.blocks@[c].statements@.len(),
        gives_back(body.blocks@[b].statements@[s], x),
        gives_back(body.blocks@[c].statements@[t], y),
        x != y,
    ensures
        deref_pin_stability::body_findings(body).len() > 0,
        deref_pin_stability::return_sources(body.blocks@).contains(x),
        deref_pin_stability::return_sources(body.blocks@).contains(y),
        deref_pin_stability::return_sources(body.blocks@).len() > 1,
{
    assert(may_give_back(body.blocks@, x));
    assert(may_give_back(body.blocks@, y));
    lemma_branches(body.blocks@);
    lemma_return_sources(body.blocks@);
    lemma_suspect_bodies(body);
}

proof fn lemma_branches(blocks: Seq<Block>)
    ensures
        branches(blocks) <==> deref_pin_stability::return_sources(blocks).len() > 1,
        deref_pin_stability::return_sources(blocks) == Set::new(
            |text: Seq<char>| may_give_back(blocks, text),
        ),
{
    lemma_return_sources(blocks);
    let sources = deref_pin_stability::return_sources(blocks);
    lemma_two_members(sources);
    if branches(blocks) {
        let (a, b) = choose|a: Seq<char>, b: Seq<char>|
            a != b && #[trigger] may_give_back(blocks, a) && #[trigger] may_give_back(blocks, b);
        assert(sources.contains(a) && sources.contains(b));
    }
    if sources.len() > 1 {
        let a = choose|a: Seq<char>|
            #[trigger] sources.contains(a) && exists|b: Seq<char>|
                #[trigger] sources.contains(b) && a != b;
        let b = choose|b: Seq<char>| #[trigger] sources.contains(b) && a != b;
        assert(may_give_back(blocks, a) && may_give_back(blocks, b));
    }
}

proof fn lemma_two_members(set: Set<Seq<char>>)
    requires
        set.finite(),
    ensures
        set.len() > 1 <==> exists|a: Seq<char>|
            #[trigger] set.contains(a) && exists|b: Seq<char>| #[trigger] set.contains(b) && a != b,
{
    if set.len() > 1 {
        let a = set.choose();
        assert(set.contains(a));
        let rest = set.remove(a);
        assert(rest.len() > 0);
        let b = rest.choose();
        assert(rest.contains(b));
        assert(set.contains(b) && a != b);
    }
    if exists|a: Seq<char>|
        #[trigger] set.contains(a) && exists|b: Seq<char>| #[trigger] set.contains(b) && a != b {
        let a = choose|a: Seq<char>|
            #[trigger] set.contains(a) && exists|b: Seq<char>| #[trigger] set.contains(b) && a != b;
        let b = choose|b: Seq<char>| #[trigger] set.contains(b) && a != b;
        let rest = set.remove(a);
        assert(rest.contains(b));
        assert(rest.remove(b).len() + 1 == rest.len());
    }
}

/// The finding is a call in one of the blocks that allocates.
spec fn is_allocation_in(blocks: Seq<Block>, f: FindingView) -> bool {
    match f.kind {
        FindingKindView::Allocation(path) => is_allocator(path) && exists|b: int|
            0 <= b < blocks.len() && #[trigger] ends_in_call(blocks[b], path, f.span),
        _ => false,
    }
}

/// The finding is a call in one of the blocks that moves values in memory.
spec fn is_move_in(blocks: Seq<Block>, f: FindingView) -> bool {
    match f.kind {
        FindingKindView::MemMutation(path) => is_mover(path) && exists|b: int|
            0 <= b < blocks.len() && #[trigger] ends_in_call(blocks[b], path, f.span),
        _ => false,
    }
}

proof fn lemma_allocations(blocks: Seq<Block>, f: FindingView)
    ensures
        deref_pin_stability::allocations(blocks).contains(f) <==> is_allocation_in(blocks, f),
    decreases blocks.len(),
{
    if blocks.len() > 0 {
        let rest = blocks.drop_last();
        let before = deref_pin_stability::allocations(rest);
        lemma_allocations(rest, f);
        assert(blocks[blocks.len() - 1] == blocks.last());
        assert(forall|b: int| 0 <= b < rest.len() ==> rest[b] == blocks[b]);
        match block_call(blocks.last()) {
            Some((def, span)) => {
                lemma_known_functions(def.path@);
                let new = FindingView { span, kind: FindingKindView::Allocation(def.path@) };
                lemma_contains_append(before, seq![new], f);
                assert(before.push(new) =~= before + seq![new]);
                assert(seq![new].contains(f) <==> f == new) by {
                    assert(seq![new][0] == new);
                }
            },
            None => {},
        }
        match f.kind {
            FindingKindView::Allocation(path) => {
                lemma_block_call(blocks.last(), path, f.span);
                if exists|b: int|
                    0 <= b < rest.len() && #[trigger] ends_in_call(rest[b], path, f.span) {
                    let b = choose|b: int|
                        0 <= b < rest.len() && #[trigger] ends_in_call(rest[b], path, f.span);
                    assert(ends_in_call(blocks[b], path, f.span));
                }
                if exists|b: int|
                    0 <= b < blocks.len() && #[trigger] ends_in_call(blocks[b], path, f.span) {
                    let b = choose|b: int|
                        0 <= b < blocks.len() && #[trigger] ends_in_call(blocks[b], path, f.span);
                    if b < rest.len() {
                        assert(ends_in_call(rest[b], path, f.span));
                    }
                }
                if ends_in_call(blocks.last(), path, f.span) {
                    assert(ends_in_call(blocks[blocks.len() - 1], path, f.span));
                }
            },
            _ => {},
        }
    }
}

proof fn lemma_mutations(blocks: Seq<Block>, f: FindingView)
    ensures
        deref_pin_stability::mutations(blocks).contains(f) <==> is_move_in(blocks, f),
    decreases blocks.len(),
{
    if blocks.len() > 0 {
        let rest = blocks.drop_last();
        let before = deref_pin_stability::mutations(rest);
        lemma_mutations(rest, f);
        assert(blocks[blocks.len() - 1] == blocks.last());
        assert(forall|b: int| 0 <= b < rest.len() ==> rest[b] == blocks[b]);
        match block_call(blocks.last()) {
            Some((def, span)) => {
                lemma_known_functions(def.path@);
                let new = FindingView { span, kind: FindingKindView::MemMutation(def.path@) };
                lemma_contains_append(before, seq![new], f);
                assert(before.push(new) =~= before + seq![new]);
                assert(seq![new].contains(f) <==> f == new) by {
                    assert(seq![new][0] == new);
                }
            },
            None => {},
        }
        match f.kind {
            FindingKindView::MemMutation(path) => {
                lemma_block_call(blocks.last(), path, f.span);
                if exists|b: int|
                    0 <= b < rest.len() && #[trigger] ends_in_call(rest[b], path, f.span) {
                    let b = choose|b: int|
                        0 <= b < rest.len() && #[trigger] ends_in_call(rest[b], path, f.span);
                    assert(ends_in_call(blocks[b], path, f.span));
                }
                if exists|b: int|
                    0 <= b < blocks.len() && #[trigger] ends_in_call(blocks[b], path, f.span) {
                    let b = choose|b: int|
                        0 <= b < blocks.len() && #[trigger] ends_in_call(blocks[b], path, f.span);
                    if b < rest.len() {
                        assert(ends_in_call(rest[b], path, f.span));
                    }
                }
                if ends_in_call(blocks.last(), path, f.span) {
                    assert(ends_in_call(blocks[blocks.len() - 1], path, f.span));
                }
            },
            _ => {},
        }
    }
}

/// The calls in two lists of blocks are found as those in each, so each call is found once, and
/// in the order of the blocks.
pub proof fn lemma_calls_found_in_order(a: Seq<Block>, b: Seq<Block>)
    ensures
        deref_pin_stability::allocations(a + b) == deref_pin_stability::allocations(a)
            + deref_pin_stability::allocations(b),
        deref_pin_stability::mutations(a + b) == deref_pin_stability::mutations(a)
            + deref_pin_stability::mutations(b),
        a.len() == 1 ==> deref_pin_stability::allocations(a).len() <= 1
            && deref_pin_stability::mutations(a).len() <= 1,
    decreases b.len(),
{
    if a.len() == 1 {
        assert(deref_pin_stability::allocations(a.drop_last()).len() == 0);
        assert(deref_pin_stability::mutations(a.drop_last()).len() == 0);
    }
    if b.len() == 0 {
        assert(a + b =~= a);
        assert(deref_pin_stability::allocations(a + b) =~= deref_pin_stability::allocations(a)
            + deref_pin_stability::allocations(b));
        assert(deref_pin_stability::mutations(a + b) =~= deref_pin_stability::mutations(a)
            + deref_pin_stability::mutations(b));
    } else {
        assert((a + b).drop_last() =~= a + b.drop_last());
        lemma_calls_found_in_order(a, b.drop_last());
        assert(deref_pin_stability::allocations(a + b) =~= deref_pin_stability::allocations(a)
            + deref_pin_stability::allocations(b));
        assert(deref_pin_stability::mutations(a + b) =~= deref_pin_stability::mutations(a)
            + deref_pin_stability::mutations(b));
    }
}

/// The path of `Pin`, generic arguments aside.
pub open spec fn is_pin(path: Seq<char>) -> bool {
    ||| exists|start: Seq<char>| without_generics(path) == #[trigger] (start + "core::pin::Pin"@)
    ||| exists|start: Seq<char>| without_generics(path) == #[trigger] (start + "std::pin::Pin"@)
}

/// The written type is a path that was resolved to the definition with the given number.
pub open spec fn is_path_to(ty: HirTy, id: u64) -> bool {
    match ty.kind {
        HirTyKind::Path(path) => match path.res {
            Some(def) => def.id == id,
            None => false,
        },
        _ => false,
    }
}

/// The written type is `Pin<..>` with the definition, or a reference to it, among its arguments.
pub open spec fn is_pin_around(ty: HirTy, id: u64) -> bool {
    match ty.kind {
        HirTyKind::Path(path) => match path.res {
            Some(def) => is_pin(def.path@) && path.segments@.len() > 0 && match path.segments@[
            path.segments@.len() - 1].args {
                Some(args) => exists|a: int|
                    0 <= a < args@.len() && match #[trigger] args@[a] {
                        GenericArg::Type(inner) => is_path_to(inner, id) || match inner.kind {
                            HirTyKind::Ref { target, .. } => is_path_to(*target, id),
                            _ => false,
                        },
                        GenericArg::Other => false,
                    },
                None => false,
            },
            None => false,
        },
        _ => false,
    }
}

/// The definition stands inside `Pin<..>` somewhere in the crate.
pub open spec fn stands_in_pin(krate: Crate, id: u64) -> bool {
    exists|h: int|
        0 <= h < krate.hir_types@.len() && is_pin_around(#[trigger] krate.hir_types@[h], id)
}

/// A definition counts as pinned pointer exactly when it stands inside `Pin<..>`.
pub proof fn lemma_pinned_pointers(krate: Crate, id: u64)
    ensures
        deref_pin_stability::pinned_pointers(krate).contains(id) <==> stands_in_pin(krate, id),
{
    assert forall|h: int| 0 <= h < krate.hir_types@.len() implies (deref_pin_stability::pins(
        #[trigger] krate.hir_types@[h],
        id,
    ) <==> is_pin_around(krate.hir_types@[h], id)) by {
        match krate.hir_types@[h].kind {
            HirTyKind::Path(path) => {
                match path.res {
                    Some(def) => {
                        lemma_pin_paths(def.path@);
                        if path.segments@.len() > 0 {
                            match path.segments@.last().args {
                                Some(args) => {
                                    assert forall|a: int| 0 <= a < args@.len() implies (
                                    deref_pin_stability::arg_names(#[trigger] args@[a], id)
                                        <==> match args@[a] {
                                        GenericArg::Type(inner) => is_path_to(inner, id)
                                            || match inner.kind {
                                            HirTyKind::Ref { target, .. } => is_path_to(
                                                *target,
                                                id,
                                            ),
                                            _ => false,
                                        },
                                        GenericArg::Other => false,
                                    }) by {}
                                },
                                None => {},
                            }
                        }
                    },
                    None => {},
                }
            },
            _ => {},
        }
    }
}

/// The item is an impl of `Deref` or `DerefMut` for a pinned pointer type, whose first member of
/// the method's name is a function with the given compiled body.
pub open spec fn deref_impl(krate: Crate, i: int, name: Seq<char>, b: int) -> bool {
    &&& met_first(krate, i)
    &&& 0 <= b < krate.bodies@.len()
    &&& match krate.items@[i].kind {
        ItemKind::Impl(data) => {
            &&& match data.of_trait {
                Some(t) => match t.trait_id {
                    Some(id) => if krate.lang.deref_trait == Some(id) {
                        name == "deref"@
                    } else {
                        krate.lang.deref_mut_trait == Some(id) && name == "deref_mut"@
                    },
                    None => false,
                },
                None => false,
            }
            &&& exists|adt: u64| #[trigger]
                is_adt(krate.types, data.self_ty, adt) && stands_in_pin(krate, adt)
            &&& exists|m: int|
                {
                    &&& 0 <= m < data.items@.len()
                    &&& (#[trigger] data.items@[m]).name@ == name
                    &&& forall|j: int| 0 <= j < m ==> (#[trigger] data.items@[j]).name@ != name
                    &&& match data.items@[m].kind {
                        ImplItemKind::Fn(f) => f.body == Some(b as usize),
                        ImplItemKind::Other => false,
                    }
                }
        },
        _ => false,
    }
}

/// The crate's warnings on unstable impls are, for each impl of `Deref` or `DerefMut` for a
/// pinned pointer type whose method branches, allocates or moves values in memory, the one on
/// that impl with all that was found.
pub proof fn lemma_unstable_impls_found(krate: Crate, d: DiagnosticView)
    ensures
        deref_pin_stability::crate_reports(krate).contains(d) <==> exists|
            i: int,
            name: Seq<char>,
            b: int,
        |
            {
                &&& #[trigger] deref_impl(krate, i, name, b)
                &&& branches(krate.bodies@[b].blocks@) || calls_suspect(krate.bodies@[b].blocks@)
                &&& d == unstable(
                    krate.items@[i].span,
                    name,
                    deref_pin_stability::body_findings(krate.bodies@[b]),
                )
            },
{
    let pinned = deref_pin_stability::pinned_pointers(krate);
    let order = items_of(krate);
    lemma_items_met(krate);
    assert(krate.items@.len() == krate.items.len());
    assert(krate.bodies@.len() == krate.bodies.len());
    lemma_unstable_in_items(krate, pinned, order, d);
    if deref_pin_stability::crate_reports(krate).contains(d) {
        let k = choose|k: int|
            0 <= k < order.len() && deref_pin_stability::item_report(
                krate,
                pinned,
                krate.items@[#[trigger] order[k] as int],
            ) == Some(d);
        let i = order[k] as int;
        assert(order.contains(order[k]));
        match krate.items@[i].kind {
            ItemKind::Impl(data) => {
                let adt = krate.types.adt_of(data.self_ty)->0;
                lemma_pinned_pointers(krate, adt);
                assert(is_adt(krate.types, data.self_ty, adt));
                let method = deref_pin_stability::deref_method(krate, data)->0;
                let name = method.name_text();
                let wanted = deref_pin_stability::named(name);
                lemma_first_absent(data.items@, wanted);
                let m = choose|m: int| first_at(data.items@, wanted, m);
                assert(first_at(data.items@, wanted, m));
                lemma_first_found(data.items@, wanted, m);
                match data.items@[m].kind {
                    ImplItemKind::Fn(f) => {
                        let b = f.body->0 as int;
                        lemma_suspect_bodies(krate.bodies@[b]);
                        assert(forall|j: int|
                            0 <= j < m ==> !wanted(#[trigger] data.items@[j]));
                        assert(deref_impl(krate, i, name, b));
                    },
                    ImplItemKind::Other => {},
                }
            },
            _ => {},
        }
    }
    if exists|i: int, name: Seq<char>, b: int|
        {
            &&& #[trigger] deref_impl(krate, i, name, b)
            &&& branches(krate.bodies@[b].blocks@) || calls_suspect(krate.bodies@[b].blocks@)
            &&& d == unstable(
                krate.items@[i].span,
                name,
                deref_pin_stability::body_findings(krate.bodies@[b]),
            )
        } {
        let (i, name, b) = choose|i: int, name: Seq<char>, b: int|
            {
                &&& #[trigger] deref_impl(krate, i, name, b)
                &&& branches(krate.bodies@[b].blocks@) || calls_suspect(krate.bodies@[b].blocks@)
                &&& d == unstable(
                    krate.items@[i].span,
                    name,
                    deref_pin_stability::body_findings(krate.bodies@[b]),
                )
            };
        lemma_suspect_bodies(krate.bodies@[b]);
        match krate.items@[i].kind {
            ItemKind::Impl(data) => {
                let adt = choose|adt: u64| #[trigger]
                    is_adt(krate.types, data.self_ty, adt) && stands_in_pin(krate, adt);
                lemma_pinned_pointers(krate, adt);
                let wanted = deref_pin_stability::named(name);
                let m = choose|m: int|
                    {
                        &&& 0 <= m < data.items@.len()
                        &&& (#[trigger] data.items@[m]).name@ == name
                        &&& forall|j: int| 0 <= j < m ==> (#[trigger] data.items@[j]).name@ != name
                        &&& match data.items@[m].kind {
                            ImplItemKind::Fn(f) => f.body == Some(b as usize),
                            ImplItemKind::Other => false,
                        }
                    };
                assert(first_at(data.items@, wanted, m));
                lemma_first_found(data.items@, wanted, m);
                assert(order.contains(i as usize));
                let k = order.index_of(i as usize);
                assert(order[k] == i as usize);
                assert(deref_pin_stability::item_report(
                    krate,
                    pinned,
                    krate.items@[order[k] as int],
                ) == Some(d));
            },
            _ => {},
        }
    }
}

proof fn lemma_unstable_in_items(
    krate: Crate,
    pinned: Set<u64>,
    order: Seq<usize>,
    d: DiagnosticView,
)
    ensures
        deref_pin_stability::reports(krate, pinned, order).contains(d) <==> exists|k: int|
            0 <= k < order.len() && deref_pin_stability::item_report(
                krate,
                pinned,
                krate.items@[#[trigger] order[k] as int],
            ) == Some(d),
    decreases order.len(),
{
    if order.len() > 0 {
        let rest = order.drop_last();
        let before = deref_pin_stability::reports(krate, pinned, rest);
        let last = deref_pin_stability::item_report(
            krate,
            pinned,
            krate.items@[order.last() as int],
        );
        lemma_unstable_in_items(krate, pinned, rest, d);
        assert(order[order.len() - 1] == order.last());
        assert(forall|k: int| 0 <= k < rest.len() ==> rest[k] == order[k]);
        lemma_contains_append(before, as_list(last), d);
        if last == Some(d) {
            assert(as_list(last)[0] == d);
        }
    }
}

/// The items of two lists are warned about as those of each, and no item more than once.
pub proof fn lemma_unstable_items_by_themselves(
    krate: Crate,
    pinned: Set<u64>,
    a: Seq<usize>,
    b: Seq<usize>,
)
    ensures
        deref_pin_stability::reports(krate, pinned, a + b) == deref_pin_stability::reports(
            krate,
            pinned,
            a,
        ) + deref_pin_stability::reports(krate, pinned, b),
        deref_pin_stability::reports(krate, pinned, b).len() <= b.len(),
    decreases b.len(),
{
    let whole = deref_pin_stability::reports(krate, pinned, a);
    if b.len() == 0 {
        assert(a + b =~= a);
        assert(whole + Seq::<DiagnosticView>::empty() =~= whole);
    } else {
        assert((a + b).drop_last() =~= a + b.drop_last());
        lemma_unstable_items_by_themselves(krate, pinned, a, b.drop_last());
        assert(deref_pin_stability::reports(krate, pinned, a + b) =~= whole
            + deref_pin_stability::reports(krate, pinned, b));
    }
}

/// The warning on an impl stands at the impl, names the method, and has one note for each
/// finding, in their order. A call is noted at its own place and with its path, and a branching
/// return with the number of its sources.
pub proof fn lemma_unstable_says(
    span: u64,
    method: Seq<char>,
    findings: Seq<FindingView>,
    k: int,
)
    requires
        0 <= k < findings.len(),
    ensures
        unstable(span, method, findings).span == span,
        quotes(unstable(span, method, findings).message, method),
        unstable(span, method, findings).notes.len() == findings.len(),
        match findings[k].kind {
            FindingKindView::Allocation(path) => {
                let note = unstable(span, method, findings).notes[k];
                &&& note.span == Some(findings[k].span)
                &&& quotes(note.text, method)
                &&& quotes(note.text, path)
            },
            FindingKindView::MemMutation(path) => {
                let note = unstable(span, method, findings).notes[k];
                &&& note.span == Some(findings[k].span)
                &&& quotes(note.text, path)
            },
            FindingKindView::BranchingReturn(n) => {
                let note = unstable(span, method, findings).notes[k];
                &&& note.span is None
                &&& quotes(note.text, method)
                &&& exists|end: Seq<char>|
                    note.text == #[trigger] (decimal_text(n) + seq![' '] + end)
            },
        },
{
    reveal_strlit("`");
    reveal_strlit(
        "` impl on a type used in `Pin<...>` may violate Pin's \
                 location-stability guarantee",
    );
    lemma_quotes(
        "`"@,
        method,
        "` impl on a type used in `Pin<...>` may violate Pin's \
                 location-stability guarantee"@,
    );
    let text = unstable(span, method, findings).notes[k].text;
    match findings[k].kind {
        FindingKindView::Allocation(path) => {
            reveal_strlit("allocation in `");
            reveal_strlit("` body via `");
            let start = "allocation in `"@;
            let middle = "` body via `"@;
            assert(text =~= start + method + (middle + path + "`"@));
            lemma_quotes(start, method, middle + path + "`"@);
            lemma_quotes(start + method + middle, path, "`"@);
        },
        FindingKindView::MemMutation(path) => {
            reveal_strlit("call to `");
            reveal_strlit("` mutates the receiver");
            lemma_quotes("call to `"@, path, "` mutates the receiver"@);
        },
        FindingKindView::BranchingReturn(n) => {
            let middle = " distinct expressions flow into the return value — \
                         a sound `"@;
            let end = "` impl returns one fixed field address"@;
            reveal_strlit(
                " distinct expressions flow into the return value — \
                         a sound `",
            );
            reveal_strlit("` impl returns one fixed field address");
            lemma_quotes(decimal_text(n) + middle, method, end);
            assert(text =~= decimal_text(n) + seq![' '] + (middle.skip(1) + method + end));
        },
    }
}

/// Of what is found in a body, allocations come first, then at most one branching return, then
/// moves in memory.
pub proof fn lemma_findings_in_order(body: Body, i: int, j: int)
    requires
        0 <= i < j < deref_pin_stability::body_findings(body).len(),
    ensures
        deref_pin_stability::body_findings(body)[j].kind is Allocation
            ==> deref_pin_stability::body_findings(body)[i].kind is Allocation,
        deref_pin_stability::body_findings(body)[i].kind is MemMutation
            ==> deref_pin_stability::body_findings(body)[j].kind is MemMutation,
        deref_pin_stability::body_findings(body)[i].kind is BranchingReturn
            ==> deref_pin_stability::body_findings(body)[j].kind is MemMutation,
{
    let all = deref_pin_stability::body_findings(body);
    let allocs = deref_pin_stability::allocations(body.blocks@);
    let branch = deref_pin_stability::branchings(body);
    let moves = deref_pin_stability::mutations(body.blocks@);
    assert forall|k: int| 0 <= k < allocs.len() implies (#[trigger] allocs[k]).kind is Allocation by {
        lemma_allocations(body.blocks@, allocs[k]);
        assert(allocs.contains(allocs[k]));
    }
    assert forall|k: int| 0 <= k < moves.len() implies (#[trigger] moves[k]).kind is MemMutation by {
        lemma_mutations(body.blocks@, moves[k]);
        assert(moves.contains(moves[k]));
    }
    let a = allocs.len() as int;
    let m = a + branch.len();
    assert forall|k: int| 0 <= k < all.len() implies (#[trigger] all[k]) == (if k < a {
        allocs[k]
    } else if k < m {
        branch[k - a]
    } else {
        moves[k - m]
    }) by {}
    assert(all[i] == all[i] && all[j] == all[j]);
}

} // verus!
