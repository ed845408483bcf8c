//! What the laws of several analyses speak of: paths, items, types, pinned fields and calls.

use crate::analysis::deref_pin_stability;
use crate::analysis::paths::{lemma_pin_paths, without_generics};
use crate::analysis::pin_leak_detector;
use crate::analysis::util::{
    adt_behind_refs, block_call, is_first_visit, items_of, lemma_first_visits, pinned_by,
    pinned_fields_of,
};
use crate::model::{Block, Crate, Expr, OperandKind, TerminatorKind, TyId, TyKind, TyTable};
use crate::text::{has_infix, has_suffix, lemma_infix, lemma_suffix};
use vstd::prelude::*;

verus! {

/// The path of `Pin::new_unchecked`, generic arguments aside.
pub open spec fn is_new_unchecked(path: Seq<char>) -> bool {
    ||| exists|start: Seq<char>|
        without_generics(path) == #[trigger] (start + "core::pin::Pin::new_unchecked"@)
    ||| exists|start: Seq<char>|
        without_generics(path) == #[trigger] (start + "std::pin::Pin::new_unchecked"@)
}

/// A walk through the crate meets the item for the first time.
pub open spec fn met_first(krate: Crate, i: int) -> bool {
    &&& 0 <= i < krate.items@.len()
    &&& forall|j: int| 0 <= j < i ==> krate.items@[j].id != krate.items@[i].id
}

/// The type is the struct, enum or union with the given number.
pub open spec fn is_adt(types: TyTable, ty: TyId, id: u64) -> bool {
    ty < types.types@.len() && match types.types@[ty as int].kind {
        TyKind::Adt { def, .. } => def.id == id,
        _ => false,
    }
}

/// The type is the struct, enum or union with the given number, or a reference to it.
pub open spec fn refers_to(types: TyTable, ty: TyId, id: u64) -> bool
    decreases ty,
{
    ||| is_adt(types, ty, id)
    ||| ty < types.types@.len() && match types.types@[ty as int].kind {
        TyKind::Ref(target) => target < ty && refers_to(types, target, id),
        _ => false,
    }
}

/// Each item of a crate is looked at where it is met first.
pub proof fn lemma_items_met(krate: Crate)
    ensures
        forall|i: usize| #[trigger] items_of(krate).contains(i) <==> met_first(krate, i as int),
{
    let n = krate.items.len();
    assert(n == krate.items@.len());
    lemma_first_visits(krate.items@, krate.items@.len());
    assert forall|i: usize| #[trigger] items_of(krate).contains(i) <==> met_first(
        krate,
        i as int,
    ) by {
        if met_first(krate, i as int) {
            assert(is_first_visit(krate.items@, i as int));
            let k = choose|k: int|
                0 <= k < items_of(krate).len() && #[trigger] items_of(krate)[k] == i as int;
            assert(items_of(krate)[k] == i);
        }
        if items_of(krate).contains(i) {
            let k = items_of(krate).index_of(i);
            assert(items_of(krate)[k] == i);
        }
    }
}

/// What a type refers to is the struct, enum or union behind its references.
pub proof fn lemma_refers_to(types: TyTable, ty: TyId, id: u64)
    ensures
        refers_to(types, ty, id) <==> adt_behind_refs(types, ty) == Some(id),
    decreases ty,
{
    if ty < types.types@.len() {
        match types.types@[ty as int].kind {
            TyKind::Ref(target) => {
                if target < ty {
                    lemma_refers_to(types, target, id);
                }
            },
            _ => {},
        }
    }
}

// ---------------------------------------------------------------------------------------------
// Pinned fields
// ---------------------------------------------------------------------------------------------

/// The expression is `Pin::new_unchecked(&mut x.name)`, with the field looked up on the type
/// with the given number.
pub open spec fn pins_field(types: TyTable, e: Expr, adt: u64, name: Seq<char>) -> bool {
    match e {
        Expr::Call { callee, args } => match *callee {
            Expr::Path(Some(def)) => is_new_unchecked(def.path@) && args@.len() > 0
                && match args@[0] {
                Expr::AddrOf(inner) => match *inner {
                    Expr::Field { owner_ty, name: n } => n@ == name && refers_to(
                        types,
                        owner_ty,
                        adt,
                    ),
                    _ => false,
                },
                _ => false,
            },
            _ => false,
        },
        _ => false,
    }
}

/// Some expression of the crate pins the field.
pub open spec fn is_pinned(krate: Crate, adt: u64, name: Seq<char>) -> bool {
    exists|e: int|
        0 <= e < krate.exprs@.len() && pins_field(
            krate.types,
            #[trigger] krate.exprs@[e],
            adt,
            name,
        )
}

/// A field counts as pinned exactly when some expression of the crate pins it.
pub proof fn lemma_pinned_sites(krate: Crate, adt: u64, name: Seq<char>)
    ensures
        pinned_fields_of(krate).contains((adt, name)) <==> is_pinned(krate, adt, name),
{
    assert forall|e: int| 0 <= e < krate.exprs@.len() implies (pins_field(
        krate.types,
        #[trigger] krate.exprs@[e],
        adt,
        name,
    ) <==> pinned_by(krate.types, krate.exprs@[e]) == Some((adt, name))) by {
        match krate.exprs@[e] {
            Expr::Call { callee, args } => {
                match *callee {
                    Expr::Path(Some(def)) => {
                        lemma_pin_paths(def.path@);
                    },
                    _ => {},
                }
                if args@.len() > 0 {
                    match args@[0] {
                        Expr::AddrOf(inner) => {
                            match *inner {
                                Expr::Field { owner_ty, name: n } => {
                                    lemma_refers_to(krate.types, owner_ty, adt);
                                },
                                _ => {},
                            }
                        },
                        _ => {},
                    }
                }
            },
            _ => {},
        }
    }
}

// ---------------------------------------------------------------------------------------------
// Calls in compiled bodies
// ---------------------------------------------------------------------------------------------

/// The block ends, at the given place, in a call of the function with the given path.
pub open spec fn ends_in_call(block: Block, path: Seq<char>, span: u64) -> bool {
    match block.terminator {
        Some(t) => t.span == span && match t.kind {
            TerminatorKind::Call { func, .. } => match func.kind {
                OperandKind::Constant(Some(f)) => f.def.path@ == path,
                _ => false,
            },
            _ => false,
        },
        None => false,
    }
}

/// One text occurs in another.
pub open spec fn occurs_in(text: Seq<char>, part: Seq<char>) -> bool {
    exists|start: Seq<char>, end: Seq<char>| text == #[trigger] (start + part + end)
}

/// One text is the end of another.
pub open spec fn is_end_of(text: Seq<char>, part: Seq<char>) -> bool {
    exists|start: Seq<char>| text == #[trigger] (start + part)
}

/// The path is that of a function that allocates.
pub open spec fn is_allocator(path: Seq<char>) -> bool {
    ||| occurs_in(path, "alloc::boxed::Box::<T>::new"@)
    ||| occurs_in(path, "alloc::alloc::alloc"@)
    ||| occurs_in(path, "alloc::vec::Vec::<T>::with_capacity"@)
    ||| occurs_in(path, "alloc::vec::Vec::<T>::new"@)
    ||| occurs_in(path, "alloc::sync::Arc::<T>::new"@)
    ||| occurs_in(path, "alloc::rc::Rc::<T>::new"@)
}

/// The path is that of a function that moves values in memory.
pub open spec fn is_mover(path: Seq<char>) -> bool {
    ||| is_end_of(path, "mem::replace"@)
    ||| is_end_of(path, "mem::swap"@)
    ||| is_end_of(path, "ptr::write"@)
    ||| is_end_of(path, "ptr::read"@)
}

/// The path is that of a function that cleans up something outside.
pub open spec fn is_cleaner(path: Seq<char>) -> bool {
    ||| occurs_in(path, "::close"@)
    ||| occurs_in(path, "::release"@)
    ||| occurs_in(path, "::deregister"@)
    ||| occurs_in(path, "::unregister"@)
    ||| occurs_in(path, "::lock"@)
    ||| occurs_in(path, "::unlock"@)
    ||| occurs_in(path, "::retain"@)
    ||| occurs_in(path, "::remove"@)
    ||| occurs_in(path, "::wait"@)
    ||| occurs_in(path, "::join"@)
    ||| occurs_in(path, "::shutdown"@)
    ||| occurs_in(path, "::abort"@)
}

/// Which functions allocate, which move values in memory and which clean up.
pub proof fn lemma_known_functions(path: Seq<char>)
    ensures
        deref_pin_stability::allocates(path) <==> is_allocator(path),
        deref_pin_stability::moves_memory(path) <==> is_mover(path),
        pin_leak_detector::cleans_up(path) <==> is_cleaner(path),
{
    let allocs = deref_pin_stability::ALLOC_FUNCS@;
    assert forall|i: int| 0 <= i < allocs.len() implies (has_infix(path, #[trigger] allocs[i]@)
        <==> occurs_in(path, allocs[i]@)) by {
        lemma_infix(path, allocs[i]@);
    }
    assert(allocs.len() == 6);
    assert(allocs[0]@ == "alloc::boxed::Box::<T>::new"@);
    assert(allocs[1]@ == "alloc::alloc::alloc"@);
    assert(allocs[2]@ == "alloc::vec::Vec::<T>::with_capacity"@);
    assert(allocs[3]@ == "alloc::vec::Vec::<T>::new"@);
    assert(allocs[4]@ == "alloc::sync::Arc::<T>::new"@);
    assert(allocs[5]@ == "alloc::rc::Rc::<T>::new"@);
    let moves = deref_pin_stability::MEM_FUNCS@;
    assert forall|i: int| 0 <= i < moves.len() implies (has_suffix(path, #[trigger] moves[i]@)
        <==> is_end_of(path, moves[i]@)) by {
        lemma_suffix(path, moves[i]@);
    }
    assert(moves.len() == 4);
    assert(moves[0]@ == "mem::replace"@);
    assert(moves[1]@ == "mem::swap"@);
    assert(moves[2]@ == "ptr::write"@);
    assert(moves[3]@ == "ptr::read"@);
    let words = pin_leak_detector::CLEANUP_KEYWORDS@;
    assert forall|i: int| 0 <= i < words.len() implies (has_infix(path, #[trigger] words[i]@)
        <==> occurs_in(path, words[i]@)) by {
        lemma_infix(path, words[i]@);
    }
    assert(words.len() == 12);
    assert(words[0]@ == "::close"@);
    assert(words[1]@ == "::release"@);
    assert(words[2]@ == "::deregister"@);
    assert(words[3]@ == "::unregister"@);
    assert(words[4]@ == "::lock"@);
    assert(words[5]@ == "::unlock"@);
    assert(words[6]@ == "::retain"@);
    assert(words[7]@ == "::remove"@);
    assert(words[8]@ == "::wait"@);
    assert(words[9]@ == "::join"@);
    assert(words[10]@ == "::shutdown"@);
    assert(words[11]@ == "::abort"@);
}

/// The call that a block ends in is the one that is known of it.
pub proof fn lemma_block_call(block: Block, path: Seq<char>, span: u64)
    ensures
        ends_in_call(block, path, span) <==> match block_call(block) {
            Some((def, s)) => def.path@ == path && s == span,
            None => false,
        },
{
}

/// What two lists hold together is what each holds.
pub proof fn lemma_contains_append<T>(a: Seq<T>, b: Seq<T>, x: T)
    ensures
        (a + b).contains(x) <==> a.contains(x) || b.contains(x),
{
    if a.contains(x) {
        assert((a + b)[a.index_of(x)] == x);
    }
    if b.contains(x) {
        assert((a + b)[a.len() + b.index_of(x)] == x);
    }
    if (a + b).contains(x) {
        let k = (a + b).index_of(x);
        if k < a.len() {
            assert(a[k] == x);
        } else {
            assert(b[k - a.len()] == x);
        }
    }
}

// ---------------------------------------------------------------------------------------------
// What warnings say
// ---------------------------------------------------------------------------------------------

/// The text holds the other one between backquotes.
pub open spec fn quotes(text: Seq<char>, part: Seq<char>) -> bool {
    exists|start: Seq<char>, end: Seq<char>|
        text == #[trigger] (start + (seq!['`'] + part + seq!['`']) + end)
}

/// A text between one that ends in a backquote and one that begins with one is quoted.
pub proof fn lemma_quotes(before: Seq<char>, part: Seq<char>, after: Seq<char>)
    requires
        before.len() > 0,
        before.last() == '`',
        after.len() > 0,
        after[0] == '`',
    ensures
        quotes(before + part + after, part),
{
    assert(before + part + after =~= before.drop_last() + (seq!['`'] + part + seq!['`'])
        + after.skip(1));
}

} // verus!
