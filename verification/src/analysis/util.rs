//! What several analyses share: how paths are matched, what types contain, which items a
//! crate has, and which fields are pinned in it.

use crate::analysis::paths::{
    bracket_depth, collapse_colons, four_colons_at, names_pin, names_pin_new_unchecked,
    outside_brackets, path_matches, without_generics,
};
use crate::model::{
    Block, Crate, DefId, Expr, Item, Operand, OperandKind, TerminatorKind, TyId, TyKind, TyTable,
};
use crate::names::NameSet;
use crate::text::{chars_of, ends_with, join_slices, same_text, slice_texts};
use std::collections::{HashMap, HashSet};
use vstd::prelude::*;
use vstd::std_specs::hash::*;

verus! {

broadcast use group_hash_axioms;

/// Whether a definition's path, generic arguments aside, is the given one or ends with it.
pub fn matches_path(def_id: &DefId, path: &[&str]) -> (r: bool)
    ensures
        r == path_matches(def_id.path@, slice_texts(path@)),
{
    let actual = strip_generic_args(def_id.path.as_str());
    let expected = join_slices(path, "::");
    ends_with(actual.as_str(), expected.as_str())
}

/// A printed path without its generic arguments.
pub fn strip_generic_args(s: &str) -> (r: String)
    ensures
        r@ == without_generics(s@),
{
    let chars = chars_of(s);
    let mut kept: Vec<char> = Vec::new();
    let mut depth: usize = 0;
    let mut i: usize = 0;
    while i < chars.len()
        invariant
            i <= chars.len(),
            depth <= i,
            depth == bracket_depth(chars@.take(i as int)),
            kept@ == outside_brackets(chars@.take(i as int)),
        decreases chars.len() - i,
    {
        let c = chars[i];
        assert(chars@.take(i + 1).drop_last() =~= chars@.take(i as int));
        assert(chars@.take(i + 1).last() == c);
        if c == '<' {
            depth += 1;
        } else if c == '>' {
            if depth > 0 {
                depth -= 1;
            }
        } else if depth == 0 {
            kept.push(c);
        }
        i += 1;
    }
    assert(chars@.take(chars@.len() as int) =~= chars@);
    collapse(&kept)
}

/// Shortens every run of four or more colons, two at a time, to fewer than four.
fn collapse(s: &Vec<char>) -> (r: String)
    ensures
        r@ == collapse_colons(s@),
{
    let mut out = String::new();
    let mut i: usize = 0;
    assert(s@.skip(0) =~= s@);
    while i < s.len()
        invariant
            i <= s.len(),
            out@ + collapse_colons(s@.skip(i as int)) =~= collapse_colons(s@),
        decreases s.len() - i,
    {
        let ghost rest = s@.skip(i as int);
        assert(four_colons_at(rest, 0) <==> four_colons_at(s@, i as int));
        if s.len() - i >= 4 && s[i] == ':' && s[i + 1] == ':' && s[i + 2] == ':' && s[i + 3] == ':' {
            assert(rest.skip(2) =~= s@.skip(i + 2));
            i += 2;
        } else {
            assert(rest.skip(1) =~= s@.skip(i + 1));
            out.push(s[i]);
            i += 1;
        }
    }
    out
}

/// Whether a definition is `Pin::new_unchecked`.
pub fn is_pin_new_unchecked(def_id: &DefId) -> (r: bool)
    ensures
        r == names_pin_new_unchecked(def_id.path@),
{
    let core: [&str; 4] = ["core", "pin", "Pin", "new_unchecked"];
    let std: [&str; 4] = ["std", "pin", "Pin", "new_unchecked"];
    assert(slice_texts(core@) =~= seq!["core"@, "pin"@, "Pin"@, "new_unchecked"@]);
    assert(slice_texts(std@) =~= seq!["std"@, "pin"@, "Pin"@, "new_unchecked"@]);
    matches_path(def_id, &core) || matches_path(def_id, &std)
}

/// Whether a definition is `Pin`.
pub fn is_pin(def_id: &DefId) -> (r: bool)
    ensures
        r == names_pin(def_id.path@),
{
    let core: [&str; 3] = ["core", "pin", "Pin"];
    let std: [&str; 3] = ["std", "pin", "Pin"];
    assert(slice_texts(core@) =~= seq!["core"@, "pin"@, "Pin"@]);
    assert(slice_texts(std@) =~= seq!["std"@, "pin"@, "Pin"@]);
    matches_path(def_id, &core) || matches_path(def_id, &std)
}

/// The definition of the function that a call calls, where it is known.
pub open spec fn callee_of(func: Operand) -> Option<DefId> {
    match func.kind {
        OperandKind::Constant(Some(f)) => Some(f.def),
        _ => None,
    }
}

/// The definition of the function that a call calls, where it is known.
pub fn mir_callee_def_id(func: &Operand) -> (r: Option<&DefId>)
    ensures
        match r {
            Some(def) => callee_of(*func) == Some(*def),
            None => callee_of(*func) is None,
        },
{
    match &func.kind {
        OperandKind::Constant(Some(f)) => Some(&f.def),
        _ => None,
    }
}

/// The function that a block ends in a call of, where it is known, and the place of the call.
pub open spec fn block_call(block: Block) -> Option<(DefId, u64)> {
    match block.terminator {
        Some(t) => match t.kind {
            TerminatorKind::Call { func, .. } => match callee_of(func) {
                Some(def) => Some((def, t.span)),
                None => None,
            },
            _ => None,
        },
        None => None,
    }
}

/// The function that a block ends in a call of, where it is known, and the place of the call.
pub fn call_in_block(block: &Block) -> (r: Option<(&DefId, u64)>)
    ensures
        match r {
            Some((def, span)) => block_call(*block) == Some((*def, span)),
            None => block_call(*block) is None,
        },
{
    match &block.terminator {
        Some(t) => match &t.kind {
            TerminatorKind::Call { func, .. } => match mir_callee_def_id(func) {
                Some(def) => Some((def, t.span)),
                None => None,
            },
            _ => None,
        },
        None => None,
    }
}

// ---------------------------------------------------------------------------------------------
// Types
// ---------------------------------------------------------------------------------------------

/// A type is a reference or a raw pointer.
pub open spec fn reference_like(types: TyTable, ty: TyId) -> bool {
    match types.kind_of(ty) {
        Some(TyKind::Ref(_)) => true,
        Some(TyKind::RawPtr) => true,
        _ => false,
    }
}

/// Whether a type is a reference or a raw pointer.
pub fn is_reference_like(types: &TyTable, ty: TyId) -> (r: bool)
    ensures
        r == reference_like(*types, ty),
{
    match types.kind(ty) {
        Some(TyKind::Ref(_)) => true,
        Some(TyKind::RawPtr) => true,
        _ => false,
    }
}

/// Whether a type implements a trait, from the obligations that remain unmet when the bound
/// is solved.
pub fn type_implements_trait(unmet: &Vec<String>) -> (r: bool)
    ensures
        r <==> unmet@.len() == 0,
{
    unmet.len() == 0
}

/// Whether a type lacks `Unpin`, from the obligations that remain unmet when the bound is
/// solved; `None` where the language has no such trait.
pub fn is_not_unpin(unmet: Option<&Vec<String>>) -> (r: bool)
    ensures
        r <==> unmet is Some && unmet->0@.len() > 0,
{
    match unmet {
        Some(unmet) => !type_implements_trait(unmet),
        None => false,
    }
}

/// The printed path is that of `PhantomPinned`.
pub open spec fn names_phantom_pinned(path: Seq<char>) -> bool {
    path == "core::marker::PhantomPinned"@ || path == "std::marker::PhantomPinned"@
}

/// A type is `PhantomPinned`.
pub open spec fn is_phantom_pinned(types: TyTable, ty: TyId) -> bool {
    match types.kind_of(ty) {
        Some(TyKind::Adt { def, .. }) => names_phantom_pinned(def.path@),
        _ => false,
    }
}

/// A type holds another one directly: as a field, as an element of a tuple or of an array.
pub open spec fn has_part(types: TyTable, ty: TyId, part: TyId) -> bool {
    match types.kind_of(ty) {
        Some(TyKind::Adt { variants, .. }) => exists|v: int, f: int|
            0 <= v < variants@.len() && 0 <= f < variants@[v]@.len() && #[trigger] variants@[v]@[f]
                == part,
        Some(TyKind::Tuple(elems)) => elems@.contains(part),
        Some(TyKind::Array(elem)) => elem == part,
        _ => false,
    }
}

/// Each type of `path` holds the next one directly.
pub open spec fn is_part_path(types: TyTable, path: Seq<TyId>) -> bool {
    &&& path.len() > 0
    &&& forall|i: int|
        0 <= i < path.len() - 1 ==> has_part(types, #[trigger] path[i], path[i + 1])
}

/// A path through the parts of a type that leads to `PhantomPinned`.
pub open spec fn leads_to_pinned(types: TyTable, ty: TyId, path: Seq<TyId>) -> bool {
    &&& is_part_path(types, path)
    &&& path[0] == ty
    &&& is_phantom_pinned(types, path.last())
}

/// A type is `PhantomPinned` or holds it anywhere in its parts, however deep.
pub open spec fn holds_pinned(types: TyTable, ty: TyId) -> bool {
    exists|path: Seq<TyId>| #[trigger] leads_to_pinned(types, ty, path)
}

/// A path through the parts of one type that leads to another one.
spec fn leads_to(types: TyTable, ty: TyId, target: TyId, path: Seq<TyId>) -> bool {
    &&& is_part_path(types, path)
    &&& path[0] == ty
    &&& path.last() == target
}

/// How many of the marks are set.
spec fn count_set(marks: Seq<bool>) -> nat
    decreases marks.len(),
{
    if marks.len() == 0 {
        0
    } else {
        count_set(marks.drop_last()) + if marks.last() {
            1nat
        } else {
            0
        }
    }
}

proof fn lemma_count_bounded(marks: Seq<bool>)
    ensures
        count_set(marks) <= marks.len(),
    decreases marks.len(),
{
    if marks.len() > 0 {
        lemma_count_bounded(marks.drop_last());
    }
}

proof fn lemma_count_none(marks: Seq<bool>)
    requires
        forall|i: int| 0 <= i < marks.len() ==> !#[trigger] marks[i],
    ensures
        count_set(marks) == 0,
    decreases marks.len(),
{
    if marks.len() > 0 {
        lemma_count_none(marks.drop_last());
    }
}

proof fn lemma_count_update(marks: Seq<bool>, i: int)
    requires
        0 <= i < marks.len(),
        !marks[i],
    ensures
        count_set(marks.update(i, true)) == count_set(marks) + 1,
    decreases marks.len(),
{
    let rest = marks.drop_last();
    let after = marks.update(i, true);
    if i == marks.len() - 1 {
        assert(after.drop_last() =~= rest);
    } else {
        assert(after.drop_last() =~= rest.update(i, true));
        lemma_count_update(rest, i);
    }
}

/// The types that a walk through the parts of `ty` has met: those that are marked are those in
/// the queue, each once, and each is part of `ty`.
spec fn met(types: TyTable, ty: TyId, seen: Seq<bool>, queue: Seq<TyId>) -> bool {
    &&& seen.len() == types.types@.len()
    &&& count_set(seen) == queue.len()
    &&& forall|k: int|
        0 <= k < queue.len() ==> #[trigger] queue[k] < seen.len() && seen[queue[k] as int]
            && exists|path: Seq<TyId>| leads_to(types, ty, queue[k], path)
    &&& forall|x: int|
        0 <= x < seen.len() && #[trigger] seen[x] ==> exists|k: int|
            0 <= k < queue.len() && #[trigger] queue[k] == x
}

/// Puts a part of a type that was met into the queue, unless it is there or not in the table.
fn meet_part(
    Ghost(types): Ghost<TyTable>,
    Ghost(ty): Ghost<TyId>,
    Ghost(at): Ghost<TyId>,
    part: TyId,
    seen: &mut Vec<bool>,
    queue: &mut Vec<TyId>,
)
    requires
        met(types, ty, old(seen)@, old(queue)@),
        old(queue)@.contains(at),
        has_part(types, at, part),
    ensures
        met(types, ty, final(seen)@, final(queue)@),
        old(queue)@.is_prefix_of(final(queue)@),
        forall|x: int| 0 <= x < old(seen)@.len() && old(seen)@[x] ==> #[trigger] final(seen)@[x],
        part < final(seen)@.len() ==> final(seen)@[part as int],
{
    if part < seen.len() && !seen[part] {
        let ghost seen_before = seen@;
        let ghost queue_before = queue@;
        seen.set(part, true);
        queue.push(part);
        proof {
            lemma_count_update(seen_before, part as int);
            let k = queue_before.index_of(at);
            let path = choose|path: Seq<TyId>| leads_to(types, ty, queue_before[k], path);
            let longer = path.push(part);
            assert forall|i: int| 0 <= i < longer.len() - 1 implies has_part(
                types,
                #[trigger] longer[i],
                longer[i + 1],
            ) by {
                if i < path.len() - 1 {
                    assert(longer[i] == path[i]);
                } else {
                    assert(longer[i] == at);
                }
            }
            assert(leads_to(types, ty, part, longer));
            assert forall|j: int| 0 <= j < queue@.len() implies #[trigger] queue@[j] < seen@.len()
                && seen@[queue@[j] as int] && exists|p: Seq<TyId>|
                leads_to(types, ty, queue@[j], p) by {
                if j < queue_before.len() {
                    assert(queue@[j] == queue_before[j]);
                    assert(seen_before[queue_before[j] as int]);
                    let p = choose|p: Seq<TyId>| leads_to(types, ty, queue_before[j], p);
                    assert(leads_to(types, ty, queue@[j], p));
                } else {
                    assert(queue@[j] == part);
                    assert(leads_to(types, ty, queue@[j], longer));
                }
            }
            assert forall|x: int| 0 <= x < seen@.len() && #[trigger] seen@[x] implies exists|j: int|
                0 <= j < queue@.len() && #[trigger] queue@[j] == x by {
                if x == part {
                    assert(queue@[queue_before.len() as int] == x);
                } else {
                    assert(seen_before[x]);
                    let j = choose|j: int|
                        0 <= j < queue_before.len() && #[trigger] queue_before[j] == x;
                    assert(queue@[j] == x);
                }
            }
        }
    }
}

/// Puts parts of a type that was met into the queue.
fn meet_parts(
    Ghost(types): Ghost<TyTable>,
    Ghost(ty): Ghost<TyId>,
    Ghost(at): Ghost<TyId>,
    parts: &Vec<TyId>,
    seen: &mut Vec<bool>,
    queue: &mut Vec<TyId>,
)
    requires
        met(types, ty, old(seen)@, old(queue)@),
        old(queue)@.contains(at),
        forall|i: int| 0 <= i < parts@.len() ==> has_part(types, at, #[trigger] parts@[i]),
    ensures
        met(types, ty, final(seen)@, final(queue)@),
        old(queue)@.is_prefix_of(final(queue)@),
        forall|x: int| 0 <= x < old(seen)@.len() && old(seen)@[x] ==> #[trigger] final(seen)@[x],
        forall|i: int|
            0 <= i < parts@.len() && #[trigger] parts@[i] < final(seen)@.len()
                ==> final(seen)@[parts@[i] as int],
{
    let ghost seen_before = seen@;
    let ghost queue_before = queue@;
    let mut i: usize = 0;
    while i < parts.len()
        invariant
            i <= parts.len(),
            met(types, ty, seen@, queue@),
            queue_before.is_prefix_of(queue@),
            queue@.contains(at),
            seen_before.len() == seen@.len(),
            forall|k: int| 0 <= k < parts@.len() ==> has_part(types, at, #[trigger] parts@[k]),
            forall|x: int| 0 <= x < seen@.len() && seen_before[x] ==> #[trigger] seen@[x],
            forall|k: int|
                0 <= k < i && #[trigger] parts@[k] < seen@.len() ==> seen@[parts@[k] as int],
        decreases parts.len() - i,
    {
        let ghost queue_then = queue@;
        meet_part(Ghost(types), Ghost(ty), Ghost(at), parts[i], seen, queue);
        assert(queue@[queue_then.index_of(at)] == at);
        i += 1;
    }
}

/// Whether a type is `PhantomPinned` or holds it anywhere in its parts.
pub fn contains_phantom_pinned(types: &TyTable, ty: TyId) -> (r: bool)
    ensures
        r == holds_pinned(*types, ty),
{
    let n: usize = types.types.len();
    let mut seen: Vec<bool> = Vec::new();
    while seen.len() < n
        invariant
            seen.len() <= n,
            forall|i: int| 0 <= i < seen@.len() ==> !#[trigger] seen@[i],
        decreases n - seen.len(),
    {
        seen.push(false);
    }
    let mut queue: Vec<TyId> = Vec::new();
    if ty >= n {
        assert forall|path: Seq<TyId>| !#[trigger] leads_to_pinned(*types, ty, path) by {
            if leads_to_pinned(*types, ty, path) {
                lemma_closed(*types, seen@, path);
            }
        }
        return false;
    }
    proof {
        lemma_count_none(seen@);
        lemma_count_update(seen@, ty as int);
        assert(leads_to(*types, ty, ty, seq![ty]));
    }
    seen.set(ty, true);
    queue.push(ty);
    assert(queue@[0] == ty);
    let mut next: usize = 0;
    while next < queue.len()
        invariant
            next <= queue.len(),
            n == types.types@.len(),
            ty < n,
            met(*types, ty, seen@, queue@),
            seen@[ty as int],
            forall|k: int|
                0 <= k < next ==> !is_phantom_pinned(*types, #[trigger] queue@[k]) && parts_seen(
                    *types,
                    seen@,
                    queue@[k],
                ),
        decreases n - next,
    {
        proof {
            lemma_count_bounded(seen@);
        }
        let at: TyId = queue[next];
        if is_marker(types, at) {
            proof {
                let path = choose|path: Seq<TyId>| leads_to(*types, ty, queue@[next as int], path);
                assert(leads_to_pinned(*types, ty, path));
            }
            return true;
        }
        let ghost seen_before = seen@;
        let ghost queue_before = queue@;
        assert(queue@.contains(at));
        meet_parts_of(types, Ghost(ty), at, &mut seen, &mut queue);
        assert forall|k: int| 0 <= k < next + 1 implies !is_phantom_pinned(
            *types,
            #[trigger] queue@[k],
        ) && parts_seen(*types, seen@, queue@[k]) by {
            assert(queue@[k] == queue_before[k]);
            if k < next {
                assert(parts_seen(*types, seen_before, queue_before[k]));
            }
        }
        next += 1;
    }
    proof {
        assert forall|x: usize| x < seen@.len() && seen@[x as int] implies !is_phantom_pinned(
            *types,
            x,
        ) && #[trigger] parts_seen(*types, seen@, x) by {
            let k = choose|k: int| 0 <= k < queue@.len() && #[trigger] queue@[k] == x;
            assert(parts_seen(*types, seen@, queue@[k]));
        }
        assert forall|path: Seq<TyId>| !#[trigger] leads_to_pinned(*types, ty, path) by {
            if leads_to_pinned(*types, ty, path) {
                lemma_closed(*types, seen@, path);
            }
        }
    }
    false
}

/// All parts of a type that are in the table are marked.
spec fn parts_seen(types: TyTable, seen: Seq<bool>, ty: TyId) -> bool {
    forall|part: TyId| #[trigger]
        has_part(types, ty, part) && part < seen.len() ==> seen[part as int]
}

/// No marked type is `PhantomPinned`, and all parts of a marked type are marked.
spec fn parts_closed(types: TyTable, seen: Seq<bool>) -> bool {
    forall|x: usize|
        x < seen.len() && seen[x as int] ==> !is_phantom_pinned(types, x) && #[trigger] parts_seen(
            types,
            seen,
            x,
        )
}

/// Where what is marked is closed under taking parts, no path leads out of it, but to what is
/// not in the table.
proof fn lemma_closed(types: TyTable, seen: Seq<bool>, path: Seq<TyId>)
    requires
        seen.len() == types.types@.len(),
        is_part_path(types, path),
        path[0] < seen.len() ==> seen[path[0] as int],
        parts_closed(types, seen),
    ensures
        path.last() < seen.len() ==> seen[path.last() as int],
        !is_phantom_pinned(types, path.last()),
    decreases path.len(),
{
    if path.len() > 1 {
        let rest = path.drop_last();
        assert forall|i: int| 0 <= i < rest.len() - 1 implies has_part(
            types,
            #[trigger] rest[i],
            rest[i + 1],
        ) by {
            assert(rest[i] == path[i]);
        }
        lemma_closed(types, seen, rest);
        assert(has_part(types, path[path.len() - 2], path[path.len() - 1]));
        assert(parts_seen(types, seen, rest.last()));
    }
    if path.last() < seen.len() {
        assert(parts_seen(types, seen, path.last()));
    }
}

fn is_marker(types: &TyTable, ty: TyId) -> (r: bool)
    ensures
        r == is_phantom_pinned(*types, ty),
{
    match types.kind(ty) {
        Some(TyKind::Adt { def, .. }) => same_text(
            def.path.as_str(),
            "core::marker::PhantomPinned",
        ) || same_text(def.path.as_str(), "std::marker::PhantomPinned"),
        _ => false,
    }
}

/// Puts all parts of a type that was met into the queue.
fn meet_parts_of(
    types: &TyTable,
    Ghost(ty): Ghost<TyId>,
    at: TyId,
    seen: &mut Vec<bool>,
    queue: &mut Vec<TyId>,
)
    requires
        met(*types, ty, old(seen)@, old(queue)@),
        old(queue)@.contains(at),
    ensures
        met(*types, ty, final(seen)@, final(queue)@),
        old(queue)@.is_prefix_of(final(queue)@),
        forall|x: int| 0 <= x < old(seen)@.len() && old(seen)@[x] ==> #[trigger] final(seen)@[x],
        parts_seen(*types, final(seen)@, at),
{
    let ghost seen_before = seen@;
    let ghost queue_before = queue@;
    match types.kind(at) {
        Some(TyKind::Adt { def, variants }) => {
            let mut v: usize = 0;
            while v < variants.len()
                invariant
                    v <= variants.len(),
                    types.kind_of(at) == Some(TyKind::Adt { def: *def, variants: *variants }),
                    met(*types, ty, seen@, queue@),
                    queue_before.is_prefix_of(queue@),
                    queue@.contains(at),
                    seen_before.len() == seen@.len(),
                    forall|x: int| 0 <= x < seen@.len() && seen_before[x] ==> #[trigger] seen@[x],
                    forall|w: int, f: int|
                        0 <= w < v && 0 <= f < variants@[w]@.len() && #[trigger] variants@[w]@[f]
                            < seen@.len() ==> seen@[variants@[w]@[f] as int],
                decreases variants.len() - v,
            {
                let ghost seen_then = seen@;
                let ghost queue_then = queue@;
                let fields = &variants[v];
                assert(types.kind_of(at)->0->variants == *variants);
                assert forall|i: int| 0 <= i < fields@.len() implies has_part(
                    *types,
                    at,
                    #[trigger] fields@[i],
                ) by {
                    assert(variants@[v as int]@[i] == fields@[i]);
                }
                meet_parts(Ghost(*types), Ghost(ty), Ghost(at), fields, seen, queue);
                assert(queue@[queue_then.index_of(at)] == at);
                assert forall|w: int, f: int|
                    0 <= w < v + 1 && 0 <= f < variants@[w]@.len() && #[trigger] variants@[w]@[f]
                        < seen@.len() implies seen@[variants@[w]@[f] as int] by {
                    if w < v {
                        assert(seen_then[variants@[w]@[f] as int]);
                    } else {
                        assert(fields@[f] == variants@[w]@[f]);
                    }
                }
                v += 1;
            }
            assert(types.kind_of(at)->0->variants == *variants);
        },
        Some(TyKind::Tuple(elems)) => {
            assert forall|i: int| 0 <= i < elems@.len() implies has_part(
                *types,
                at,
                #[trigger] elems@[i],
            ) by {
                assert(elems@.contains(elems@[i]));
            }
            meet_parts(Ghost(*types), Ghost(ty), Ghost(at), elems, seen, queue);
            assert forall|part: TyId| #[trigger] has_part(*types, at, part) && part
                < seen@.len() implies seen@[part as int] by {
                assert(elems@[elems@.index_of(part)] == part);
            }
        },
        Some(TyKind::Array(elem)) => {
            meet_part(Ghost(*types), Ghost(ty), Ghost(at), *elem, seen, queue);
        },
        _ => {},
    }
}

/// A type holds `PhantomPinned` exactly when it is that, or when one of its parts holds it.
pub proof fn lemma_pinned_by_parts(types: TyTable, ty: TyId)
    ensures
        holds_pinned(types, ty) <==> is_phantom_pinned(types, ty) || exists|part: TyId| #[trigger]
            has_part(types, ty, part) && holds_pinned(types, part),
{
    if holds_pinned(types, ty) && !is_phantom_pinned(types, ty) {
        let path = choose|path: Seq<TyId>| #[trigger] leads_to_pinned(types, ty, path);
        let tail = path.skip(1);
        assert forall|i: int| 0 <= i < tail.len() - 1 implies has_part(
            types,
            #[trigger] tail[i],
            tail[i + 1],
        ) by {
            assert(tail[i] == path[i + 1]);
        }
        assert(has_part(types, path[0], path[1]));
        assert(leads_to_pinned(types, path[1], tail));
    }
    if is_phantom_pinned(types, ty) {
        assert(leads_to_pinned(types, ty, seq![ty]));
    }
    if exists|part: TyId| #[trigger] has_part(types, ty, part) && holds_pinned(types, part) {
        let part = choose|part: TyId| #[trigger]
            has_part(types, ty, part) && holds_pinned(types, part);
        let tail = choose|path: Seq<TyId>| #[trigger] leads_to_pinned(types, part, path);
        let path = seq![ty] + tail;
        assert forall|i: int| 0 <= i < path.len() - 1 implies has_part(
            types,
            #[trigger] path[i],
            path[i + 1],
        ) by {
            if i > 0 {
                assert(path[i] == tail[i - 1]);
            }
        }
        assert(leads_to_pinned(types, ty, path));
    }
}

// ---------------------------------------------------------------------------------------------
// Items
// ---------------------------------------------------------------------------------------------

/// The item at position `i` was not met before.
pub open spec fn is_first_visit(items: Seq<Item>, i: int) -> bool {
    forall|j: int| 0 <= j < i ==> items[j].id != items[i].id
}

/// The positions of the items among the first `n` that were not met before.
pub open spec fn first_visits(items: Seq<Item>, n: nat) -> Seq<usize>
    decreases n,
{
    if n == 0 {
        Seq::empty()
    } else {
        let rest = first_visits(items, (n - 1) as nat);
        if is_first_visit(items, n - 1) {
            rest.push((n - 1) as usize)
        } else {
            rest
        }
    }
}

/// The items of a crate, each once, by their positions in `items`.
pub open spec fn items_of(krate: Crate) -> Seq<usize> {
    first_visits(krate.items@, krate.items@.len())
}

/// The items of a crate, each once, in the order in which they are first met.
pub fn all_items(krate: &Crate) -> (r: Vec<usize>)
    ensures
        r@ == items_of(*krate),
        forall|k: int| 0 <= k < r@.len() ==> r@[k] < krate.items@.len(),
{
    let mut seen: HashSet<u64> = HashSet::new();
    let mut items: Vec<usize> = Vec::new();
    let mut i: usize = 0;
    while i < krate.items.len()
        invariant
            i <= krate.items.len(),
            forall|id: u64|
                seen@.contains(id) <==> exists|j: int|
                    0 <= j < i && #[trigger] krate.items@[j].id == id,
            items@ == first_visits(krate.items@, i as nat),
            forall|k: int| 0 <= k < items@.len() ==> items@[k] < krate.items@.len(),
        decreases krate.items.len() - i,
    {
        let ghost before = seen@;
        let id: u64 = krate.items[i].id;
        if seen.insert(id) {
            items.push(i);
        }
        assert(krate.items@[i as int].id == id);
        assert(is_first_visit(krate.items@, i as int) <==> !before.contains(id));
        assert forall|d: u64|
            seen@.contains(d) <==> exists|j: int|
                0 <= j < i + 1 && #[trigger] krate.items@[j].id == d by {
            if before.contains(d) {
                let j = choose|j: int| 0 <= j < i && #[trigger] krate.items@[j].id == d;
                assert(krate.items@[j].id == d);
            }
        }
        i += 1;
    }
    items
}

/// Every item that a walk meets is among the items of the crate, once and no more, and the
/// items stand in the order of the walk.
pub proof fn lemma_items_each_once(krate: Crate)
    requires
        krate.items@.len() <= usize::MAX,
    ensures
        forall|i: int|
            0 <= i < krate.items@.len() ==> exists|k: int|
                0 <= k < items_of(krate).len() && krate.items@[#[trigger] items_of(
                    krate,
                )[k] as int].id == (#[trigger] krate.items@[i]).id,
        forall|k: int, m: int|
            #![trigger items_of(krate)[k], items_of(krate)[m]]
            0 <= k < m < items_of(krate).len() ==> {
                &&& items_of(krate)[k] < items_of(krate)[m]
                &&& krate.items@[items_of(krate)[k] as int].id != krate.items@[items_of(
                    krate,
                )[m] as int].id
            },
{
    let items = krate.items@;
    lemma_first_visits(items, items.len());
    assert forall|i: int| 0 <= i < items.len() implies exists|k: int|
        0 <= k < items_of(krate).len() && items[#[trigger] items_of(krate)[k] as int].id == (
        #[trigger] items[i]).id by {
        lemma_first_of_id(items, i);
        let f = choose|f: int|
            0 <= f <= i && is_first_visit(items, f) && items[f].id == items[i].id;
        let k = choose|k: int|
            0 <= k < items_of(krate).len() && #[trigger] items_of(krate)[k] == f;
        assert(items[items_of(krate)[k] as int].id == items[i].id);
    }
}

proof fn lemma_first_of_id(items: Seq<Item>, i: int)
    requires
        0 <= i < items.len(),
    ensures
        exists|f: int| 0 <= f <= i && is_first_visit(items, f) && items[f].id == items[i].id,
    decreases i,
{
    if !is_first_visit(items, i) {
        let j = choose|j: int| 0 <= j < i && items[j].id == items[i].id;
        lemma_first_of_id(items, j);
    }
}

/// The first visits among the first `n` items, in order.
pub proof fn lemma_first_visits(items: Seq<Item>, n: nat)
    requires
        n <= items.len(),
        n <= usize::MAX,
    ensures
        forall|k: int|
            #![trigger first_visits(items, n)[k]]
            0 <= k < first_visits(items, n).len() ==> first_visits(items, n)[k] < n
                && is_first_visit(items, first_visits(items, n)[k] as int),
        forall|k: int, m: int|
            #![trigger first_visits(items, n)[k], first_visits(items, n)[m]]
            0 <= k < m < first_visits(items, n).len() ==> first_visits(items, n)[k]
                < first_visits(items, n)[m],
        forall|f: int|
            0 <= f < n && #[trigger] is_first_visit(items, f) ==> exists|k: int|
                0 <= k < first_visits(items, n).len() && #[trigger] first_visits(items, n)[k] == f,
    decreases n,
{
    if n > 0 {
        let rest = first_visits(items, (n - 1) as nat);
        let list = first_visits(items, n);
        lemma_first_visits(items, (n - 1) as nat);
        assert forall|f: int| 0 <= f < n && #[trigger] is_first_visit(items, f) implies exists|
            k: int,
        | 0 <= k < list.len() && #[trigger] list[k] == f by {
            if f == n - 1 {
                assert(list[list.len() - 1] == f);
            } else {
                let k = choose|k: int| 0 <= k < rest.len() && #[trigger] rest[k] == f;
                assert(list[k] == f);
            }
        }
    }
}

// ---------------------------------------------------------------------------------------------
// Pinned fields
// ---------------------------------------------------------------------------------------------

/// The struct, enum or union that a type is, or that it refers to.
pub open spec fn adt_behind_refs(types: TyTable, ty: TyId) -> Option<u64>
    decreases ty,
{
    match types.kind_of(ty) {
        Some(TyKind::Adt { def, .. }) => Some(def.id),
        Some(TyKind::Ref(target)) => if target < ty {
            adt_behind_refs(types, target)
        } else {
            None
        },
        _ => None,
    }
}

/// An expression is the path of `Pin::new_unchecked`.
pub open spec fn is_pin_new_unchecked_path(e: Expr) -> bool {
    match e {
        Expr::Path(Some(def)) => names_pin_new_unchecked(def.path@),
        _ => false,
    }
}

/// An expression is a call of `Pin::new_unchecked`.
pub open spec fn calls_pin_new_unchecked(e: Expr) -> bool {
    match e {
        Expr::Call { callee, .. } => is_pin_new_unchecked_path(*callee),
        _ => false,
    }
}

/// The field whose address an expression takes: the type that it is looked up on, and its name.
/// A reference has no fields, so what it refers to is meant.
pub open spec fn borrowed_field(types: TyTable, e: Expr) -> Option<(u64, Seq<char>)> {
    match e {
        Expr::AddrOf(inner) => match *inner {
            Expr::Field { owner_ty, name } => match adt_behind_refs(types, owner_ty) {
                Some(adt) => Some((adt, name@)),
                None => None,
            },
            _ => None,
        },
        _ => None,
    }
}

/// The field that an expression `Pin::new_unchecked(&mut x.field)` pins.
pub open spec fn pinned_by(types: TyTable, e: Expr) -> Option<(u64, Seq<char>)> {
    match e {
        Expr::Call { callee, args } => if is_pin_new_unchecked_path(*callee) && args@.len() > 0 {
            borrowed_field(types, args@[0])
        } else {
            None
        },
        _ => None,
    }
}

/// The fields that are pinned by some expression of the crate.
pub open spec fn pinned_fields_of(krate: Crate) -> Set<(u64, Seq<char>)> {
    Set::new(
        |p: (u64, Seq<char>)|
            exists|i: int|
                0 <= i < krate.exprs@.len() && pinned_by(krate.types, #[trigger] krate.exprs@[i])
                    == Some(p),
    )
}

/// The type has a declared field of the given name.
pub open spec fn has_field(krate: Crate, adt: u64, name: Seq<char>) -> bool {
    exists|f: int|
        0 <= f < krate.fields_of(adt).len() && (#[trigger] krate.fields_of(adt)[f]).name@ == name
}

/// The crate holds the declaration of the type.
pub open spec fn is_declared(krate: Crate, adt: u64) -> bool {
    exists|k: int| krate.declares(adt, k)
}

/// Where an expression accesses a field of a type that the crate declares, the type has such a
/// field.
pub open spec fn accesses_declared(krate: Crate, e: Expr) -> bool
    decreases e,
{
    match e {
        Expr::Call { callee, args } => {
            &&& accesses_declared(krate, *callee)
            &&& forall|i: int|
                0 <= i < args@.len() ==> accesses_declared(krate, #[trigger] args@[i])
        },
        Expr::AddrOf(inner) => accesses_declared(krate, *inner),
        Expr::Field { owner_ty, name } => match adt_behind_refs(krate.types, owner_ty) {
            Some(adt) => is_declared(krate, adt) ==> has_field(krate, adt, name@),
            None => true,
        },
        _ => true,
    }
}

/// What is pinned in a declared type are fields of that type: every name that is recorded for it
/// is that of a declared field.
pub proof fn lemma_pinned_names_declared(krate: Crate, adt: u64, name: Seq<char>)
    requires
        forall|i: int|
            0 <= i < krate.exprs@.len() ==> accesses_declared(krate, #[trigger] krate.exprs@[i]),
        pinned_fields_of(krate).contains((adt, name)),
        is_declared(krate, adt),
    ensures
        has_field(krate, adt, name),
{
    let i = choose|i: int|
        0 <= i < krate.exprs@.len() && pinned_by(krate.types, #[trigger] krate.exprs@[i]) == Some(
            (adt, name),
        );
    let e = krate.exprs@[i];
    assert(accesses_declared(krate, e));
    match e {
        Expr::Call { callee, args } => {
            assert(accesses_declared(krate, args@[0]));
            match args@[0] {
                Expr::AddrOf(inner) => {
                    assert(accesses_declared(krate, *inner));
                },
                _ => {},
            }
        },
        _ => {},
    }
}

/// Fields, by the types that they belong to and their names. A type without any has no entry.
pub struct PinnedFields {
    map: HashMap<u64, NameSet>,
}

impl View for PinnedFields {
    type V = Set<(u64, Seq<char>)>;

    closed spec fn view(&self) -> Set<(u64, Seq<char>)> {
        Set::new(
            |p: (u64, Seq<char>)| self.map@.contains_key(p.0) && self.map@[p.0]@.contains(p.1),
        )
    }
}

impl PinnedFields {
    #[verifier::type_invariant]
    spec fn inv(self) -> bool {
        forall|adt: u64| #[trigger]
            self.map@.contains_key(adt) ==> self.map@[adt]@ != Set::<Seq<char>>::empty()
    }

    pub fn new() -> (r: PinnedFields)
        ensures
            r@ == Set::<(u64, Seq<char>)>::empty(),
    {
        let r = PinnedFields { map: HashMap::new() };
        assert(r@ =~= Set::<(u64, Seq<char>)>::empty());
        r
    }

    pub fn insert(&mut self, adt: u64, name: String)
        ensures
            final(self)@ == old(self)@.insert((adt, name@)),
    {
        proof {
            use_type_invariant(&*self);
        }
        let ghost field = (adt, name@);
        let mut map: HashMap<u64, NameSet> = HashMap::new();
        std::mem::swap(&mut map, &mut self.map);
        let mut names = match map.remove(&adt) {
            Some(names) => names,
            None => NameSet::new(),
        };
        names.insert(name);
        assert(names@.contains(field.1));
        map.insert(adt, names);
        self.map = map;
        assert(final(self)@ =~= old(self)@.insert(field));
    }

    /// The names of the given type's fields, where there are any.
    pub fn get(&self, adt: u64) -> (r: Option<&NameSet>)
        ensures
            match r {
                Some(names) => {
                    &&& names@ != Set::<Seq<char>>::empty()
                    &&& forall|n: Seq<char>|
                        names@.contains(n) <==> #[trigger] self@.contains((adt, n))
                },
                None => forall|n: Seq<char>| !#[trigger] self@.contains((adt, n)),
            },
    {
        proof {
            use_type_invariant(self);
        }
        self.map.get(&adt)
    }
}

fn peel_refs(types: &TyTable, ty: TyId) -> (r: Option<u64>)
    ensures
        r == adt_behind_refs(*types, ty),
{
    let mut at: TyId = ty;
    loop
        invariant
            adt_behind_refs(*types, at) == adt_behind_refs(*types, ty),
        decreases at,
    {
        match types.kind(at) {
            Some(TyKind::Adt { def, .. }) => {
                return Some(def.id);
            },
            Some(TyKind::Ref(target)) => {
                if *target >= at {
                    return None;
                }
                at = *target;
            },
            _ => {
                return None;
            },
        }
    }
}

/// Whether an expression is the path of `Pin::new_unchecked`.
fn is_pin_path(callee: &Expr) -> (r: bool)
    ensures
        r == is_pin_new_unchecked_path(*callee),
{
    match callee {
        Expr::Path(Some(def)) => is_pin_new_unchecked(def),
        _ => false,
    }
}

/// Whether one of the expressions calls `Pin::new_unchecked`.
pub fn any_pin_call(exprs: &Vec<Expr>) -> (r: bool)
    ensures
        r == exists|i: int| 0 <= i < exprs@.len() && calls_pin_new_unchecked(#[trigger] exprs@[i]),
{
    let mut i: usize = 0;
    while i < exprs.len()
        invariant
            i <= exprs.len(),
            forall|j: int| 0 <= j < i ==> !calls_pin_new_unchecked(#[trigger] exprs@[j]),
        decreases exprs.len() - i,
    {
        if let Expr::Call { callee, .. } = &exprs[i] {
            if is_pin_path(callee) {
                assert(calls_pin_new_unchecked(exprs@[i as int]));
                return true;
            }
        }
        i += 1;
    }
    false
}

fn record_if_field_borrow(types: &TyTable, arg: &Expr, pinned: &mut PinnedFields)
    ensures
        match borrowed_field(*types, *arg) {
            Some(field) => final(pinned)@ == old(pinned)@.insert(field),
            None => final(pinned)@ == old(pinned)@,
        },
{
    if let Expr::AddrOf(inner) = arg {
        if let Expr::Field { owner_ty, name } = &**inner {
            if let Some(adt) = peel_refs(types, *owner_ty) {
                pinned.insert(adt, name.clone());
            }
        }
    }
}

/// The fields that are pinned by some expression of the crate.
pub fn collect_pinned_fields(krate: &Crate) -> (r: PinnedFields)
    ensures
        r@ == pinned_fields_of(*krate),
{
    let mut pinned = PinnedFields::new();
    let mut i: usize = 0;
    while i < krate.exprs.len()
        invariant
            i <= krate.exprs.len(),
            forall|p: (u64, Seq<char>)| #[trigger]
                pinned@.contains(p) <==> exists|j: int|
                    0 <= j < i && pinned_by(krate.types, #[trigger] krate.exprs@[j]) == Some(p),
        decreases krate.exprs.len() - i,
    {
        let ghost before = pinned@;
        let ghost found = pinned_by(krate.types, krate.exprs@[i as int]);
        if let Expr::Call { callee, args } = &krate.exprs[i] {
            if is_pin_path(callee) && args.len() > 0 {
                record_if_field_borrow(&krate.types, &args[0], &mut pinned);
            }
        }
        assert forall|p: (u64, Seq<char>)| #[trigger]
            pinned@.contains(p) <==> exists|j: int|
                0 <= j < i + 1 && pinned_by(krate.types, #[trigger] krate.exprs@[j]) == Some(
                    p,
                ) by {
            assert(pinned@.contains(p) <==> before.contains(p) || found == Some(p));
            if before.contains(p) {
                let j = choose|j: int|
                    0 <= j < i && pinned_by(krate.types, #[trigger] krate.exprs@[j]) == Some(p);
                assert(pinned_by(krate.types, krate.exprs@[j]) == Some(p));
            }
        }
        i += 1;
    }
    assert(pinned@ =~= pinned_fields_of(*krate));
    pinned
}

/// A type implements a trait exactly when no obligation remains unmet, and it is known not to be
/// `Unpin` exactly when the obligations were solved for and one remains.
pub proof fn lemma_unmet_obligations(unmet: Vec<String>, implements: bool, known: bool, asked: bool)
    requires
        call_ensures(type_implements_trait, (&unmet,), implements),
        call_ensures(is_not_unpin, (Some(&unmet),), known),
        call_ensures(is_not_unpin, (None,), asked),
    ensures
        implements <==> unmet@ == Seq::<String>::empty(),
        known <==> !implements,
        !asked,
{
    if unmet@.len() == 0 {
        assert(unmet@ =~= Seq::<String>::empty());
    }
}

} // verus!
