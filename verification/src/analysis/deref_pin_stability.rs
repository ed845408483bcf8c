//! `Deref` and `DerefMut` impls that may hand out a different address on another call, for
//! types that stand inside `Pin`.

use crate::analysis::paths::names_pin;
use crate::analysis::util::{all_items, block_call, call_in_block, is_pin, items_of};
use crate::diagnostic::{
    as_list, diagnostic_views, note_views, option_view, push_if_some, Diagnostic, DiagnosticView,
    Note, NoteView,
};
use crate::model::{
    Block, Body, Crate, GenericArg, HirTy, HirTyKind, ImplData, ImplItem, ImplItemKind, Item,
    ItemKind, Rvalue, Statement,
};
use crate::names::NameSet;
use crate::search::{first_at, first_where, lemma_first_absent, lemma_first_found};
use crate::text::{contains, decimal, decimal_text, ends_with, has_infix, has_suffix, same_text};
use std::collections::HashSet;
use vstd::prelude::*;
use vstd::std_specs::hash::*;
use vstd::string::*;

verus! {

broadcast use group_hash_axioms;

pub const ALLOC_FUNCS: [&'static str; 6] = [
    "alloc::boxed::Box::<T>::new",
    "alloc::alloc::alloc",
    "alloc::vec::Vec::<T>::with_capacity",
    "alloc::vec::Vec::<T>::new",
    "alloc::sync::Arc::<T>::new",
    "alloc::rc::Rc::<T>::new",
];

pub const MEM_FUNCS: [&'static str; 4] = ["mem::replace", "mem::swap", "ptr::write", "ptr::read"];

pub const HELP: &'static str =
    "ensure `deref`/`deref_mut` returns the same address on every call. \
     Pin<P> relies on this for location stability of `!Unpin` targets.";

/// Which of the two traits an impl is of.
#[derive(Clone, Copy, PartialEq, Eq, Structural, Debug)]
pub enum DerefMethod {
    Deref,
    DerefMut,
}

impl DerefMethod {
    /// The name of the method that the trait has.
    pub open spec fn name_text(self) -> Seq<char> {
        match self {
            DerefMethod::Deref => "deref"@,
            DerefMethod::DerefMut => "deref_mut"@,
        }
    }

    pub fn name(self) -> (r: &'static str)
        ensures
            r@ == self.name_text(),
    {
        match self {
            DerefMethod::Deref => "deref",
            DerefMethod::DerefMut => "deref_mut",
        }
    }
}

/// What was found in the body of a method.
#[derive(Debug)]
pub enum FindingKind {
    Allocation(String),
    BranchingReturn(usize),
    MemMutation(String),
}

#[derive(Debug)]
pub struct Finding {
    pub span: u64,
    pub kind: FindingKind,
}

/// What a finding says.
#[verifier::ext_equal]
pub enum FindingKindView {
    Allocation(Seq<char>),
    BranchingReturn(nat),
    MemMutation(Seq<char>),
}

#[verifier::ext_equal]
pub struct FindingView {
    pub span: u64,
    pub kind: FindingKindView,
}

impl View for Finding {
    type V = FindingView;

    open spec fn view(&self) -> FindingView {
        FindingView {
            span: self.span,
            kind: match self.kind {
                FindingKind::Allocation(path) => FindingKindView::Allocation(path@),
                FindingKind::BranchingReturn(n) => FindingKindView::BranchingReturn(n as nat),
                FindingKind::MemMutation(path) => FindingKindView::MemMutation(path@),
            },
        }
    }
}

/// What a list of findings says.
pub open spec fn finding_views(findings: Seq<Finding>) -> Seq<FindingView> {
    findings.map_values(|f: Finding| f@)
}

/// The note on a finding in a method of the given name.
pub open spec fn finding_note(method: Seq<char>, finding: FindingView) -> NoteView {
    match finding.kind {
        FindingKindView::Allocation(path) => NoteView {
            span: Some(finding.span),
            text: "allocation in `"@ + method + "` body via `"@ + path + "`"@,
        },
        FindingKindView::BranchingReturn(n) => NoteView {
            span: None,
            text: decimal_text(n) + " distinct expressions flow into the return value — \
                         a sound `"@ + method + "` impl returns one fixed field address"@,
        },
        FindingKindView::MemMutation(path) => NoteView {
            span: Some(finding.span),
            text: "call to `"@ + path + "` mutates the receiver"@,
        },
    }
}

/// The notes on the findings in a method of the given name.
pub open spec fn finding_notes(method: Seq<char>, findings: Seq<FindingView>) -> Seq<NoteView> {
    findings.map_values(|f: FindingView| finding_note(method, f))
}

/// A function that allocates, by its printed path.
pub open spec fn allocates(path: Seq<char>) -> bool {
    exists|i: int| 0 <= i < ALLOC_FUNCS@.len() && has_infix(path, #[trigger] ALLOC_FUNCS@[i]@)
}

/// A function that moves values in memory, by its printed path.
pub open spec fn moves_memory(path: Seq<char>) -> bool {
    exists|i: int| 0 <= i < MEM_FUNCS@.len() && has_suffix(path, #[trigger] MEM_FUNCS@[i]@)
}

/// The allocations, one for each block that ends in a call of such a function.
pub open spec fn allocations(blocks: Seq<Block>) -> Seq<FindingView>
    decreases blocks.len(),
{
    if blocks.len() == 0 {
        Seq::empty()
    } else {
        let rest = allocations(blocks.drop_last());
        match block_call(blocks.last()) {
            Some((def, span)) => if allocates(def.path@) {
                rest.push(FindingView { span, kind: FindingKindView::Allocation(def.path@) })
            } else {
                rest
            },
            None => rest,
        }
    }
}

/// The moves in memory, one for each block that ends in a call of such a function.
pub open spec fn mutations(blocks: Seq<Block>) -> Seq<FindingView>
    decreases blocks.len(),
{
    if blocks.len() == 0 {
        Seq::empty()
    } else {
        let rest = mutations(blocks.drop_last());
        match block_call(blocks.last()) {
            Some((def, span)) => if moves_memory(def.path@) {
                rest.push(FindingView { span, kind: FindingKindView::MemMutation(def.path@) })
            } else {
                rest
            },
            None => rest,
        }
    }
}

/// The expression that a statement assigns to the return value, by its debug form.
pub open spec fn return_source(statement: Statement) -> Option<Seq<char>> {
    match statement {
        Statement::Assign(place, rvalue) => if place.local != 0 {
            None
        } else {
            match rvalue {
                Rvalue::Ref(inner) => Some(inner.text@),
                Rvalue::RawPtr(inner) => Some(inner.text@),
                Rvalue::Use(op) => Some(op.text@),
                _ => None,
            }
        },
        Statement::Other => None,
    }
}

/// The expressions that some statement of a block assigns to the return value.
pub open spec fn block_sources(block: Block) -> Set<Seq<char>> {
    Set::new(
        |key: Seq<char>|
            exists|s: int|
                0 <= s < block.statements@.len() && return_source(#[trigger] block.statements@[s])
                    == Some(key),
    )
}

/// The expressions that some statement of the body assigns to the return value.
pub open spec fn return_sources(blocks: Seq<Block>) -> Set<Seq<char>> {
    Set::new(
        |key: Seq<char>|
            exists|b: int| 0 <= b < blocks.len() && block_sources(#[trigger] blocks[b]).contains(key),
    )
}

/// More than one expression flows into the return value.
pub open spec fn branchings(body: Body) -> Seq<FindingView> {
    let n = return_sources(body.blocks@).len();
    if n > 1 {
        seq![FindingView { span: body.span, kind: FindingKindView::BranchingReturn(n) }]
    } else {
        Seq::empty()
    }
}

/// All findings in the body of a method.
pub open spec fn body_findings(body: Body) -> Seq<FindingView> {
    allocations(body.blocks@) + branchings(body) + mutations(body.blocks@)
}

/// The warning on an impl whose method has the given findings.
pub open spec fn unstable(
    span: u64,
    method: Seq<char>,
    findings: Seq<FindingView>,
) -> DiagnosticView {
    DiagnosticView {
        span,
        message: "`"@ + method + "` impl on a type used in `Pin<...>` may violate Pin's \
                 location-stability guarantee"@,
        notes: finding_notes(method, findings),
        help: HELP@,
    }
}

/// An impl's members of the given name.
pub open spec fn named(name: Seq<char>) -> spec_fn(ImplItem) -> bool {
    |item: ImplItem| item.name@ == name
}

/// The compiled body of an impl's first member of the given name.
pub open spec fn method_body(krate: Crate, data: ImplData, name: Seq<char>) -> Option<Body> {
    match first_where(data.items@, named(name)) {
        Some(item) => match item.kind {
            ImplItemKind::Fn(f) => krate.body_at(f.body),
            ImplItemKind::Other => None,
        },
        None => None,
    }
}

/// The warning on an impl of the given trait, if any.
pub open spec fn impl_report(
    krate: Crate,
    span: u64,
    data: ImplData,
    method: DerefMethod,
) -> Option<DiagnosticView> {
    match method_body(krate, data, method.name_text()) {
        Some(body) => {
            let findings = body_findings(body);
            if findings.len() > 0 {
                Some(unstable(span, method.name_text(), findings))
            } else {
                None
            }
        },
        None => None,
    }
}

/// The definition that a written type names, seen through one reference.
pub open spec fn pointer_def(ty: HirTy) -> Option<u64> {
    let seen = match ty.kind {
        HirTyKind::Ref { target, .. } => *target,
        _ => ty,
    };
    match seen.kind {
        HirTyKind::Path(path) => match path.res {
            Some(def) => Some(def.id),
            None => None,
        },
        _ => None,
    }
}

/// A generic argument is a type that names the given definition.
pub open spec fn arg_names(arg: GenericArg, id: u64) -> bool {
    match arg {
        GenericArg::Type(ty) => pointer_def(ty) == Some(id),
        GenericArg::Other => false,
    }
}

/// A written type is `Pin<..>` around a type that names the given definition.
pub open spec fn pins(ty: HirTy, id: u64) -> bool {
    match ty.kind {
        HirTyKind::Path(path) => {
            &&& path.res is Some
            &&& names_pin((path.res->0).path@)
            &&& path.segments@.len() > 0
            &&& path.segments@.last().args is Some
            &&& exists|a: int|
                0 <= a < (path.segments@.last().args->0)@.len() && arg_names(
                    #[trigger] (path.segments@.last().args->0)@[a],
                    id,
                )
        },
        _ => false,
    }
}

/// The definitions that stand inside `Pin<..>` somewhere in the crate.
pub open spec fn pinned_pointers(krate: Crate) -> Set<u64> {
    Set::new(
        |id: u64|
            exists|i: int|
                0 <= i < krate.hir_types@.len() && pins(#[trigger] krate.hir_types@[i], id),
    )
}

/// Which of the two traits an impl is of, if any.
pub open spec fn deref_method(krate: Crate, data: ImplData) -> Option<DerefMethod> {
    match data.of_trait {
        Some(t) => if t.trait_id is None {
            None
        } else if t.trait_id == krate.lang.deref_trait {
            Some(DerefMethod::Deref)
        } else if t.trait_id == krate.lang.deref_mut_trait {
            Some(DerefMethod::DerefMut)
        } else {
            None
        },
        None => None,
    }
}

/// The trait that has to be looked at in an item: an impl for a type that stands inside `Pin`.
pub open spec fn candidate(krate: Crate, pinned: Set<u64>, kind: ItemKind) -> Option<DerefMethod> {
    match kind {
        ItemKind::Impl(data) => match krate.types.adt_of(data.self_ty) {
            Some(adt) => if pinned.contains(adt) {
                deref_method(krate, data)
            } else {
                None
            },
            None => None,
        },
        _ => None,
    }
}

/// The warning on one item, if any.
pub open spec fn item_report(krate: Crate, pinned: Set<u64>, item: Item) -> Option<DiagnosticView> {
    match (item.kind, candidate(krate, pinned, item.kind)) {
        (ItemKind::Impl(data), Some(method)) => impl_report(krate, item.span, data, method),
        _ => None,
    }
}

/// The warnings on the items at the given positions.
pub open spec fn reports(krate: Crate, pinned: Set<u64>, order: Seq<usize>) -> Seq<DiagnosticView>
    decreases order.len(),
{
    if order.len() == 0 {
        Seq::empty()
    } else {
        reports(krate, pinned, order.drop_last()) + as_list(
            item_report(krate, pinned, krate.items@[order.last() as int]),
        )
    }
}

/// The warnings on a crate, in the order of its items.
pub open spec fn crate_reports(krate: Crate) -> Seq<DiagnosticView> {
    reports(krate, pinned_pointers(krate), items_of(krate))
}

/// Looks at all `Deref` and `DerefMut` impls for types that stand inside `Pin`.
pub fn check_crate(krate: &Crate) -> (r: Vec<Diagnostic>)
    ensures
        diagnostic_views(r@) == crate_reports(*krate),
{
    let pinned = pinned_pointer_types(krate);
    let order = all_items(krate);
    let mut out: Vec<Diagnostic> = Vec::new();
    let mut k: usize = 0;
    assert(diagnostic_views(out@) =~= Seq::empty());
    while k < order.len()
        invariant
            k <= order.len(),
            forall|i: int| 0 <= i < order@.len() ==> order@[i] < krate.items@.len(),
            diagnostic_views(out@) == reports(*krate, pinned@, order@.take(k as int)),
        decreases order.len() - k,
    {
        assert(order@.take(k + 1).drop_last() =~= order@.take(k as int));
        let ghost before = diagnostic_views(out@);
        let item = &krate.items[order[k]];
        if let Some(method) = find_candidate(krate, &pinned, &item.kind) {
            if let ItemKind::Impl(data) = &item.kind {
                let report = inspect_deref_body(krate, item.span, data, method);
                push_if_some(&mut out, report);
            }
        }
        assert(diagnostic_views(out@) =~= before + as_list(item_report(*krate, pinned@, *item)));
        k += 1;
    }
    assert(order@.take(order@.len() as int) =~= order@);
    out
}

/// The definitions that stand inside `Pin<..>` somewhere in the crate.
pub fn pinned_pointer_types(krate: &Crate) -> (r: HashSet<u64>)
    ensures
        r@ == pinned_pointers(*krate),
{
    let mut pinned: HashSet<u64> = HashSet::new();
    let mut i: usize = 0;
    while i < krate.hir_types.len()
        invariant
            i <= krate.hir_types.len(),
            forall|id: u64| #[trigger]
                pinned@.contains(id) <==> exists|j: int|
                    0 <= j < i && pins(#[trigger] krate.hir_types@[j], id),
        decreases krate.hir_types.len() - i,
    {
        let ghost before = pinned@;
        visit_ty(&krate.hir_types[i], &mut pinned);
        assert forall|id: u64| #[trigger]
            pinned@.contains(id) <==> exists|j: int|
                0 <= j < i + 1 && pins(#[trigger] krate.hir_types@[j], id) by {
            assert(pinned@.contains(id) <==> before.contains(id) || pins(
                krate.hir_types@[i as int],
                id,
            ));
            if before.contains(id) {
                let j = choose|j: int| 0 <= j < i && pins(#[trigger] krate.hir_types@[j], id);
                assert(pins(krate.hir_types@[j], id));
            }
        }
        i += 1;
    }
    assert(pinned@ =~= pinned_pointers(*krate));
    pinned
}

/// Records the definitions that a written type `Pin<..>` is around.
pub fn visit_ty(ty: &HirTy, pinned: &mut HashSet<u64>)
    ensures
        forall|id: u64| #[trigger]
            final(pinned)@.contains(id) <==> old(pinned)@.contains(id) || pins(*ty, id),
{
    if let HirTyKind::Path(path) = &ty.kind {
        if let Some(def) = &path.res {
            if is_pin(def) && path.segments.len() > 0 {
                let segment = &path.segments[path.segments.len() - 1];
                if let Some(args) = &segment.args {
                    let ghost start = pinned@;
                    let mut a: usize = 0;
                    while a < args.len()
                        invariant
                            a <= args.len(),
                            start == old(pinned)@,
                            forall|id: u64| #[trigger]
                                pinned@.contains(id) <==> start.contains(id) || exists|b: int|
                                    0 <= b < a && arg_names(#[trigger] args@[b], id),
                        decreases args.len() - a,
                    {
                        let ghost before = pinned@;
                        if let GenericArg::Type(inner) = &args[a] {
                            record_pointer_type(inner, pinned);
                        }
                        assert forall|id: u64| #[trigger]
                            pinned@.contains(id) <==> start.contains(id) || exists|b: int|
                                0 <= b < a + 1 && arg_names(#[trigger] args@[b], id) by {
                            assert(pinned@.contains(id) <==> before.contains(id) || arg_names(
                                args@[a as int],
                                id,
                            ));
                            if before.contains(id) && !start.contains(id) {
                                let b = choose|b: int|
                                    0 <= b < a && arg_names(#[trigger] args@[b], id);
                                assert(arg_names(args@[b], id));
                            }
                        }
                        a += 1;
                    }
                    assert(path.segments@.last() == *segment);
                }
            }
        }
    }
}

/// Records the definition that a written type names, seen through one reference.
fn record_pointer_type(ty: &HirTy, pinned: &mut HashSet<u64>)
    ensures
        forall|id: u64| #[trigger]
            final(pinned)@.contains(id) <==> old(pinned)@.contains(id) || pointer_def(*ty) == Some(
                id,
            ),
{
    let seen = match &ty.kind {
        HirTyKind::Ref { target, .. } => &**target,
        _ => ty,
    };
    if let HirTyKind::Path(path) = &seen.kind {
        if let Some(def) = &path.res {
            pinned.insert(def.id);
        }
    }
}

fn find_candidate(krate: &Crate, pinned: &HashSet<u64>, kind: &ItemKind) -> (r: Option<DerefMethod>)
    ensures
        r == candidate(*krate, pinned@, *kind),
{
    if let ItemKind::Impl(data) = kind {
        if let Some(adt) = krate.types.adt(data.self_ty) {
            if pinned.contains(&adt) {
                return which_deref(krate, data);
            }
        }
    }
    None
}

fn which_deref(krate: &Crate, data: &ImplData) -> (r: Option<DerefMethod>)
    ensures
        r == deref_method(*krate, *data),
{
    let trait_id: u64 = match &data.of_trait {
        Some(t) => match t.trait_id {
            Some(id) => id,
            None => {
                return None;
            },
        },
        None => {
            return None;
        },
    };
    if let Some(id) = krate.lang.deref_trait {
        if id == trait_id {
            return Some(DerefMethod::Deref);
        }
    }
    if let Some(id) = krate.lang.deref_mut_trait {
        if id == trait_id {
            return Some(DerefMethod::DerefMut);
        }
    }
    None
}

/// Looks into the body of the method that the impl supplies for the given trait.
pub fn inspect_deref_body(
    krate: &Crate,
    span: u64,
    data: &ImplData,
    method: DerefMethod,
) -> (r: Option<Diagnostic>)
    ensures
        option_view(r) == impl_report(*krate, span, *data, method),
{
    let name = method.name();
    let body = match find_body(krate, data, name) {
        Some(body) => body,
        None => {
            return None;
        },
    };
    let mut findings: Vec<Finding> = Vec::new();
    assert(finding_views(findings@) =~= Seq::empty());
    scan_for_allocation(body, &mut findings);
    scan_for_branching_returns(body, &mut findings);
    scan_for_mem_replace_swap(body, &mut findings);
    assert(finding_views(findings@) =~= body_findings(*body));
    assert(finding_views(findings@).len() == findings@.len());
    if findings.len() > 0 {
        Some(report(span, name, &findings))
    } else {
        None
    }
}

fn find_body<'a>(krate: &'a Crate, data: &ImplData, name: &str) -> (r: Option<&'a Body>)
    ensures
        match r {
            Some(body) => method_body(*krate, *data, name@) == Some(*body),
            None => method_body(*krate, *data, name@) is None,
        },
{
    let ghost wanted = named(name@);
    proof {
        lemma_first_absent(data.items@, wanted);
    }
    let mut i: usize = 0;
    while i < data.items.len()
        invariant
            i <= data.items.len(),
            wanted == named(name@),
            forall|j: int| 0 <= j < i ==> !wanted(#[trigger] data.items@[j]),
        decreases data.items.len() - i,
    {
        if same_text(data.items[i].name.as_str(), name) {
            proof {
                assert(first_at(data.items@, wanted, i as int));
                lemma_first_found(data.items@, wanted, i as int);
            }
            return match &data.items[i].kind {
                ImplItemKind::Fn(f) => krate.body(f.body),
                ImplItemKind::Other => None,
            };
        }
        i += 1;
    }
    None
}

fn is_allocation(path: &str) -> (r: bool)
    ensures
        r == allocates(path@),
{
    let needles = ALLOC_FUNCS;
    let mut i: usize = 0;
    while i < needles.len()
        invariant
            i <= needles@.len(),
            needles == ALLOC_FUNCS,
            forall|j: int| 0 <= j < i ==> !has_infix(path@, #[trigger] ALLOC_FUNCS@[j]@),
        decreases needles@.len() - i,
    {
        if contains(path, needles[i]) {
            assert(has_infix(path@, ALLOC_FUNCS@[i as int]@));
            return true;
        }
        i += 1;
    }
    false
}

fn is_memory_move(path: &str) -> (r: bool)
    ensures
        r == moves_memory(path@),
{
    let needles = MEM_FUNCS;
    let mut i: usize = 0;
    while i < needles.len()
        invariant
            i <= needles@.len(),
            needles == MEM_FUNCS,
            forall|j: int| 0 <= j < i ==> !has_suffix(path@, #[trigger] MEM_FUNCS@[j]@),
        decreases needles@.len() - i,
    {
        if ends_with(path, needles[i]) {
            assert(has_suffix(path@, MEM_FUNCS@[i as int]@));
            return true;
        }
        i += 1;
    }
    false
}

fn push_finding(findings: &mut Vec<Finding>, finding: Finding)
    ensures
        finding_views(final(findings)@) == finding_views(old(findings)@).push(finding@),
{
    findings.push(finding);
    assert(finding_views(final(findings)@) =~= finding_views(old(findings)@).push(finding@));
}

/// Adds the allocations that the body makes.
pub fn scan_for_allocation(body: &Body, findings: &mut Vec<Finding>)
    ensures
        finding_views(final(findings)@) == finding_views(old(findings)@) + allocations(body.blocks@),
{
    let ghost start = finding_views(findings@);
    let mut b: usize = 0;
    while b < body.blocks.len()
        invariant
            b <= body.blocks.len(),
            finding_views(findings@) =~= start + allocations(body.blocks@.take(b as int)),
        decreases body.blocks.len() - b,
    {
        assert(body.blocks@.take(b + 1).drop_last() =~= body.blocks@.take(b as int));
        if let Some((def, span)) = call_in_block(&body.blocks[b]) {
            if is_allocation(def.path.as_str()) {
                let kind = FindingKind::Allocation(def.path.clone());
                push_finding(findings, Finding { span, kind });
            }
        }
        b += 1;
    }
    assert(body.blocks@.take(body.blocks@.len() as int) =~= body.blocks@);
}

/// Adds the moves in memory that the body makes.
pub fn scan_for_mem_replace_swap(body: &Body, findings: &mut Vec<Finding>)
    ensures
        finding_views(final(findings)@) == finding_views(old(findings)@) + mutations(body.blocks@),
{
    let ghost start = finding_views(findings@);
    let mut b: usize = 0;
    while b < body.blocks.len()
        invariant
            b <= body.blocks.len(),
            finding_views(findings@) =~= start + mutations(body.blocks@.take(b as int)),
        decreases body.blocks.len() - b,
    {
        assert(body.blocks@.take(b + 1).drop_last() =~= body.blocks@.take(b as int));
        if let Some((def, span)) = call_in_block(&body.blocks[b]) {
            if is_memory_move(def.path.as_str()) {
                let kind = FindingKind::MemMutation(def.path.clone());
                push_finding(findings, Finding { span, kind });
            }
        }
        b += 1;
    }
    assert(body.blocks@.take(body.blocks@.len() as int) =~= body.blocks@);
}

fn source_key(statement: &Statement) -> (r: Option<String>)
    ensures
        match r {
            Some(key) => return_source(*statement) == Some(key@),
            None => return_source(*statement) is None,
        },
{
    match statement {
        Statement::Assign(place, rvalue) => {
            if place.local != 0 {
                return None;
            }
            match rvalue {
                Rvalue::Ref(inner) => Some(inner.text.clone()),
                Rvalue::RawPtr(inner) => Some(inner.text.clone()),
                Rvalue::Use(op) => Some(op.text.clone()),
                _ => None,
            }
        },
        Statement::Other => None,
    }
}

fn add_block_sources(block: &Block, sources: &mut NameSet)
    ensures
        forall|key: Seq<char>| #[trigger]
            final(sources)@.contains(key) <==> old(sources)@.contains(key) || block_sources(
                *block,
            ).contains(key),
{
    let ghost start = sources@;
    let mut s: usize = 0;
    while s < block.statements.len()
        invariant
            s <= block.statements.len(),
            forall|key: Seq<char>| #[trigger]
                sources@.contains(key) <==> start.contains(key) || exists|t: int|
                    0 <= t < s && return_source(#[trigger] block.statements@[t]) == Some(key),
        decreases block.statements.len() - s,
    {
        let ghost before = sources@;
        let ghost found = return_source(block.statements@[s as int]);
        if let Some(key) = source_key(&block.statements[s]) {
            sources.insert(key);
        }
        assert forall|key: Seq<char>| #[trigger]
            sources@.contains(key) <==> start.contains(key) || exists|t: int|
                0 <= t < s + 1 && return_source(#[trigger] block.statements@[t]) == Some(key) by {
            assert(sources@.contains(key) <==> before.contains(key) || found == Some(key));
            if before.contains(key) && !start.contains(key) {
                let t = choose|t: int|
                    0 <= t < s && return_source(#[trigger] block.statements@[t]) == Some(key);
                assert(return_source(block.statements@[t]) == Some(key));
            }
        }
        s += 1;
    }
}

/// Adds a finding where more than one expression flows into the return value.
pub fn scan_for_branching_returns(body: &Body, findings: &mut Vec<Finding>)
    ensures
        finding_views(final(findings)@) == finding_views(old(findings)@) + branchings(*body),
{
    let mut sources = NameSet::new();
    let mut b: usize = 0;
    while b < body.blocks.len()
        invariant
            b <= body.blocks.len(),
            forall|key: Seq<char>| #[trigger]
                sources@.contains(key) <==> exists|c: int|
                    0 <= c < b && block_sources(#[trigger] body.blocks@[c]).contains(key),
        decreases body.blocks.len() - b,
    {
        let ghost before = sources@;
        add_block_sources(&body.blocks[b], &mut sources);
        assert forall|key: Seq<char>| #[trigger]
            sources@.contains(key) <==> exists|c: int|
                0 <= c < b + 1 && block_sources(#[trigger] body.blocks@[c]).contains(key) by {
            if before.contains(key) {
                let c = choose|c: int|
                    0 <= c < b && block_sources(#[trigger] body.blocks@[c]).contains(key);
                assert(block_sources(body.blocks@[c]).contains(key));
            }
        }
        b += 1;
    }
    assert(sources@ =~= return_sources(body.blocks@));
    let n: usize = sources.len();
    if n > 1 {
        push_finding(findings, Finding { span: body.span, kind: FindingKind::BranchingReturn(n) });
    }
    assert(finding_views(final(findings)@) =~= finding_views(old(findings)@) + branchings(*body));
}

fn note_on(method: &str, finding: &Finding) -> (r: Note)
    ensures
        r@ == finding_note(method@, finding@),
{
    match &finding.kind {
        FindingKind::Allocation(path) => {
            let mut text = "allocation in `".to_owned();
            text.append(method);
            text.append("` body via `");
            text.append(path.as_str());
            text.append("`");
            Note { span: Some(finding.span), text }
        },
        FindingKind::BranchingReturn(n) => {
            let mut text = decimal(*n);
            text.append(
                " distinct expressions flow into the return value — \
                 a sound `",
            );
            text.append(method);
            text.append("` impl returns one fixed field address");
            Note { span: None, text }
        },
        FindingKind::MemMutation(path) => {
            let mut text = "call to `".to_owned();
            text.append(path.as_str());
            text.append("` mutates the receiver");
            Note { span: Some(finding.span), text }
        },
    }
}

fn report(span: u64, method: &str, findings: &Vec<Finding>) -> (r: Diagnostic)
    ensures
        r@ == unstable(span, method@, finding_views(findings@)),
{
    let mut message = "`".to_owned();
    message.append(method);
    message.append(
        "` impl on a type used in `Pin<...>` may violate Pin's \
         location-stability guarantee",
    );
    let mut notes: Vec<Note> = Vec::new();
    let mut i: usize = 0;
    while i < findings.len()
        invariant
            i <= findings.len(),
            notes@.len() == i,
            forall|j: int|
                0 <= j < i ==> (#[trigger] notes@[j])@ == finding_note(method@, findings@[j]@),
        decreases findings.len() - i,
    {
        notes.push(note_on(method, &findings[i]));
        i += 1;
    }
    assert(note_views(notes@) =~= finding_notes(method@, finding_views(findings@)));
    Diagnostic { span, message, notes, help: HELP.to_owned() }
}

/// An impl is reported exactly when its method allocates, returns one of several expressions,
/// or moves values in memory.
pub proof fn lemma_body_reported_iff(body: Body)
    ensures
        body_findings(body).len() > 0 <==> {
            ||| return_sources(body.blocks@).len() > 1
            ||| exists|b: int|
                0 <= b < body.blocks@.len() && match block_call(#[trigger] body.blocks@[b]) {
                    Some((def, _)) => allocates(def.path@) || moves_memory(def.path@),
                    None => false,
                }
        },
{
    lemma_allocations_iff(body.blocks@);
    lemma_mutations_iff(body.blocks@);
}

spec fn ends_in(block: Block, p: spec_fn(Seq<char>) -> bool) -> bool {
    match block_call(block) {
        Some((def, _)) => p(def.path@),
        None => false,
    }
}

proof fn lemma_allocations_iff(blocks: Seq<Block>)
    ensures
        allocations(blocks).len() > 0 <==> exists|b: int|
            0 <= b < blocks.len() && ends_in(#[trigger] blocks[b], |p: Seq<char>| allocates(p)),
    decreases blocks.len(),
{
    if blocks.len() > 0 {
        let rest = blocks.drop_last();
        lemma_allocations_iff(rest);
        assert(forall|b: int| 0 <= b < rest.len() ==> rest[b] == blocks[b]);
        assert(blocks.last() == blocks[blocks.len() - 1]);
    }
}

proof fn lemma_mutations_iff(blocks: Seq<Block>)
    ensures
        mutations(blocks).len() > 0 <==> exists|b: int|
            0 <= b < blocks.len() && ends_in(#[trigger] blocks[b], |p: Seq<char>| moves_memory(p)),
    decreases blocks.len(),
{
    if blocks.len() > 0 {
        let rest = blocks.drop_last();
        lemma_mutations_iff(rest);
        assert(forall|b: int| 0 <= b < rest.len() ==> rest[b] == blocks[b]);
        assert(blocks.last() == blocks[blocks.len() - 1]);
    }
}

} // verus!
