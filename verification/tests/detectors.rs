//! Edge cases of the analyses that look at items and bodies.

use pinvio::analysis::deref_pin_stability::{self, pinned_pointer_types};
use pinvio::analysis::missing_unpin_bound;
use pinvio::analysis::pin_leak_detector::{
    classify_drop_critical_types, scan_constructors, should_check_fn,
};
use pinvio::analysis::wrong_unpin_impl::{self, format_hir_ty};
use pinvio::model::{
    AdtDef, AdtItem, Block, Body, Crate, DefId, Destructor, Expr, FieldDef, FnDecl, FnRef,
    GenericArg, HirBound, HirPath, HirTy, HirTyKind, ImplData, ImplItem, ImplItemKind, Item,
    ItemKind, LangItems, Operand, OperandKind, PathSegment, Place, Predicate, Rvalue, Statement,
    Terminator, TerminatorKind, TraitRef, TyData, TyKind, TyTable, TypeParam, WherePredicate,
};

const UNPIN: u64 = 100;
const DEREF: u64 = 101;

fn def(id: u64, path: &str) -> DefId {
    DefId { id, path: path.to_string() }
}

fn ty(kind: TyKind, text: &str) -> TyData {
    TyData { kind, text: text.to_string() }
}

/// A struct `S<T> { pinned: T, list: Vec<T>, other: u8 }` whose first two fields are pinned.
///
/// Types: 0 `T`, 1 `Vec<T>`, 2 `u8`, 3 `S<T>`, 4 `Option<T>`, 5 `(u8, T)`, 6 `&mut T`,
/// 7 another mention of `T`.
fn pinned_struct() -> Crate {
    let adt = |id: u64, path: &str, variants: Vec<Vec<usize>>| TyKind::Adt {
        def: def(id, path),
        variants,
    };
    let param = || TyKind::Param { index: 0, name: "T".to_string() };
    let borrow = |name: &str| {
        let field = Expr::Field { owner_ty: 3, name: name.to_string() };
        Expr::Call {
            callee: Box::new(Expr::Path(Some(def(60, "core::pin::Pin::<P>::new_unchecked")))),
            args: vec![Expr::AddrOf(Box::new(field))],
        }
    };
    let field = |name: &str, ty: usize| FieldDef { name: name.to_string(), ty };
    Crate {
        types: TyTable {
            types: vec![
                ty(param(), "T"),
                ty(adt(20, "Vec", vec![vec![]]), "Vec<T>"),
                ty(TyKind::Other, "u8"),
                ty(adt(10, "S", vec![vec![0, 1, 2]]), "S<T>"),
                ty(adt(21, "Option", vec![vec![], vec![0]]), "Option<T>"),
                ty(TyKind::Tuple(vec![2, 0]), "(u8, T)"),
                ty(TyKind::Ref(0), "&mut T"),
                ty(param(), "T"),
            ],
        },
        adts: vec![AdtDef {
            id: 10,
            fields: vec![field("pinned", 0), field("list", 1), field("other", 2)],
            type_params: vec![TypeParam { index: 0, name: "T".to_string() }],
        }],
        items: vec![],
        hir_types: vec![],
        exprs: vec![borrow("pinned"), borrow("list")],
        body_owners: vec![],
        bodies: vec![],
        lang: LangItems {
            unpin_trait: Some(UNPIN),
            deref_trait: Some(DEREF),
            deref_mut_trait: None,
        },
    }
}

fn returning(output: usize) -> FnDecl {
    FnDecl {
        span: 9,
        is_unsafe: false,
        is_public: true,
        output,
        first_input: None,
        predicates: vec![],
        exprs: vec![],
        body: None,
    }
}

fn impl_item(of_trait: Option<u64>, self_ty: usize, items: Vec<ImplItem>) -> Item {
    Item {
        id: 1,
        span: 8,
        file: "src/lib.rs".to_string(),
        kind: ItemKind::Impl(ImplData {
            of_trait: of_trait.map(|t| TraitRef { trait_id: Some(t) }),
            self_ty,
            predicates: vec![],
            items,
        }),
    }
}

fn method(name: &str, decl: FnDecl) -> ImplItem {
    ImplItem { name: name.to_string(), kind: ImplItemKind::Fn(decl) }
}

/// The messages for a single method of the struct.
fn reports_on(decl: FnDecl) -> Vec<(String, String)> {
    let mut krate = pinned_struct();
    krate.items = vec![impl_item(None, 3, vec![method("m", decl)])];
    let reports = missing_unpin_bound::check_crate(&krate);
    reports.into_iter().map(|d| (d.message, d.notes[0].text.clone())).collect()
}

fn mutable_receiver() -> Option<HirTy> {
    let target = HirTy { kind: HirTyKind::Other, debug: "Self".to_string() };
    Some(HirTy {
        kind: HirTyKind::Ref { mutable: true, target: Box::new(target) },
        debug: "&mut Self".to_string(),
    })
}

fn projecting() -> FnDecl {
    let mut decl = returning(2);
    decl.first_input = mutable_receiver();
    decl.exprs = vec![Expr::Call {
        callee: Box::new(Expr::Path(Some(def(60, "std::pin::Pin::<P>::new_unchecked")))),
        args: vec![],
    }];
    decl
}

#[test]
fn exposing_types() {
    for output in [0, 4, 5] {
        let reports = reports_on(returning(output));
        assert_eq!(reports.len(), 1);
        assert!(reports[0].1.starts_with("field `pinned` is structurally pinned"));
    }
    let reports = reports_on(returning(1));
    assert!(reports[0].1.contains("requires `Vec<T>: Unpin`"));
    assert_eq!(reports_on(returning(3)).len(), 1);
}

#[test]
fn harmless_outputs() {
    assert_eq!(reports_on(returning(2)), vec![]);
    assert_eq!(reports_on(returning(6)), vec![]);
}

#[test]
fn bounds_silence_the_warning() {
    for self_ty in [0, 7] {
        let mut decl = returning(0);
        decl.predicates =
            vec![Predicate::Other, Predicate::Trait { trait_id: UNPIN, self_ty }];
        assert_eq!(reports_on(decl), vec![]);
    }
    let mut decl = returning(0);
    decl.predicates = vec![
        Predicate::Trait { trait_id: 1, self_ty: 0 },
        Predicate::Trait { trait_id: UNPIN, self_ty: 1 },
    ];
    assert_eq!(reports_on(decl).len(), 1);
}

#[test]
fn unsafe_methods_and_trait_impls_are_passed_over() {
    let mut decl = returning(0);
    decl.is_unsafe = true;
    assert_eq!(reports_on(decl), vec![]);
    let mut krate = pinned_struct();
    krate.items = vec![impl_item(Some(1), 3, vec![method("m", returning(0))])];
    assert_eq!(missing_unpin_bound::check_crate(&krate).len(), 0);
}

#[test]
fn no_pins_no_warnings() {
    let mut krate = pinned_struct();
    krate.exprs.clear();
    krate.items = vec![impl_item(None, 3, vec![method("m", returning(0))])];
    assert_eq!(missing_unpin_bound::check_crate(&krate).len(), 0);
}

#[test]
fn projection_through_a_mutable_receiver() {
    let reports = reports_on(projecting());
    assert_eq!(reports.len(), 1);
    assert_eq!(
        reports[0].0,
        "method takes `&mut self` and projects through a pinned field without an `Unpin` bound"
    );
    assert_eq!(
        reports[0].1,
        "the body calls `Pin::new_unchecked` on a field whose type (`T`) is treated as \
         structurally pinned elsewhere, but this method's receiver is `&mut self` rather than \
         `Pin<&mut Self>` — pinning here does not retroactively pin the underlying storage"
    );
    let mut krate = pinned_struct();
    krate.items = vec![impl_item(None, 3, vec![method("m", projecting())])];
    let report = &missing_unpin_bound::check_crate(&krate)[0];
    assert_eq!(
        report.notes[1].text,
        "see tokio PR #2612 (`AsyncReadExt::read_buf` / `write_buf`)"
    );
    assert_eq!(
        report.help,
        "either add `where Self: Unpin` (or `where T: Unpin`) to this method, change the \
         receiver to `Pin<&mut Self>`, or mark the method `unsafe`"
    );
}

#[test]
fn projection_needs_receiver_and_call() {
    let mut decl = projecting();
    decl.first_input = None;
    assert_eq!(reports_on(decl), vec![]);
    let mut decl = projecting();
    decl.exprs.clear();
    assert_eq!(reports_on(decl), vec![]);
    // A bound on the first pinned field leaves the second.
    let mut decl = projecting();
    decl.predicates = vec![Predicate::Trait { trait_id: UNPIN, self_ty: 0 }];
    assert!(reports_on(decl)[0].1.contains("(`Vec<T>`)"));
}

fn where_clause(name: &str, bounds: Vec<HirBound>) -> WherePredicate {
    WherePredicate::Bound { bounded: written(name), bounds }
}

fn written(name: &str) -> HirTy {
    HirTy {
        kind: HirTyKind::Path(HirPath {
            res: None,
            segments: vec![PathSegment { name: name.to_string(), args: None }],
        }),
        debug: format!("debug {name}"),
    }
}

fn unpin_impl(predicates: Vec<WherePredicate>) -> Crate {
    let mut krate = pinned_struct();
    let mut item = impl_item(Some(UNPIN), 3, vec![]);
    if let ItemKind::Impl(data) = &mut item.kind {
        data.predicates = predicates;
    }
    krate.items = vec![item];
    krate
}

#[test]
fn unbounded_impl_names_what_it_bounds() {
    let reports = wrong_unpin_impl::check_crate(&unpin_impl(vec![]));
    assert_eq!(reports.len(), 1);
    assert_eq!(reports[0].notes[1].text, "instead, the where-clause bounds: (none)");
    let reports = wrong_unpin_impl::check_crate(&unpin_impl(vec![
        where_clause("V", vec![HirBound::Trait(Some(UNPIN))]),
        where_clause("U", vec![HirBound::Other, HirBound::Trait(Some(UNPIN))]),
        where_clause("T", vec![HirBound::Trait(Some(1)), HirBound::Trait(None)]),
        where_clause("V", vec![HirBound::Trait(Some(UNPIN))]),
        WherePredicate::Other,
    ]));
    assert_eq!(reports[0].notes[1].text, "instead, the where-clause bounds: U, V");
}

#[test]
fn other_impls_are_not_held_to_unpin() {
    let mut krate = pinned_struct();
    krate.items = vec![impl_item(Some(7), 3, vec![]), impl_item(None, 3, vec![])];
    assert_eq!(wrong_unpin_impl::check_crate(&krate).len(), 0);
    let mut krate = unpin_impl(vec![]);
    krate.lang.unpin_trait = None;
    assert_eq!(wrong_unpin_impl::check_crate(&krate).len(), 0);
}

#[test]
fn written_types_by_name() {
    assert_eq!(format_hir_ty(&written("T")), "T");
    let empty = HirTy {
        kind: HirTyKind::Path(HirPath { res: None, segments: vec![] }),
        debug: "debug".to_string(),
    };
    assert_eq!(format_hir_ty(&empty), "debug");
    let other = HirTy { kind: HirTyKind::Other, debug: "&T".to_string() };
    assert_eq!(format_hir_ty(&other), "&T");
}

fn place(local: usize, text: &str) -> Place {
    Place { local, is_bare: true, text: text.to_string() }
}

fn call_of(path: &str, span: u64) -> Option<Terminator> {
    Some(Terminator {
        kind: TerminatorKind::Call {
            func: Operand {
                kind: OperandKind::Constant(Some(FnRef { def: def(70, path), output: 0 })),
                text: String::new(),
            },
            args: vec![],
            destination: place(1, "_1"),
        },
        span,
    })
}

/// The notes on a `deref` with the given blocks.
fn deref_notes(blocks: Vec<Block>) -> Vec<(Option<u64>, String)> {
    let mut krate = pinned_struct();
    let pin = HirPath {
        res: Some(def(61, "core::pin::Pin")),
        segments: vec![PathSegment {
            name: "Pin".to_string(),
            args: Some(vec![GenericArg::Other, GenericArg::Type(named(10))]),
        }],
    };
    krate.hir_types = vec![HirTy { kind: HirTyKind::Path(pin), debug: String::new() }];
    krate.bodies = vec![Body { span: 50, arg_count: 0, locals: vec![6, 2], blocks }];
    let mut decl = returning(6);
    decl.body = Some(0);
    krate.items = vec![impl_item(Some(DEREF), 3, vec![method("deref", decl)])];
    let mut reports = deref_pin_stability::check_crate(&krate);
    match reports.pop() {
        Some(report) => report.notes.into_iter().map(|n| (n.span, n.text)).collect(),
        None => vec![],
    }
}

fn named(id: u64) -> HirTy {
    HirTy {
        kind: HirTyKind::Path(HirPath { res: Some(def(id, "S")), segments: vec![] }),
        debug: String::new(),
    }
}

fn assign(local: usize, rvalue: Rvalue) -> Statement {
    Statement::Assign(place(local, "_"), rvalue)
}

fn block(statements: Vec<Statement>, terminator: Option<Terminator>) -> Block {
    Block { statements, terminator }
}

#[test]
fn allocation_in_deref() {
    let notes = deref_notes(vec![
        block(vec![], call_of("alloc::boxed::Box::<T>::new", 41)),
        block(vec![], call_of("my::alloc::vec::Vec::<T>::with_capacity", 42)),
        block(vec![], call_of("alloc::string::String::new", 43)),
    ]);
    assert_eq!(
        notes,
        vec![
            (
                Some(41),
                "allocation in `deref` body via `alloc::boxed::Box::<T>::new`".to_string()
            ),
            (
                Some(42),
                "allocation in `deref` body via `my::alloc::vec::Vec::<T>::with_capacity`"
                    .to_string()
            ),
        ]
    );
}

#[test]
fn branching_deref() {
    let operand = |text: &str| Operand {
        kind: OperandKind::Copy(place(1, "_1")),
        text: text.to_string(),
    };
    let notes = deref_notes(vec![block(
        vec![
            assign(0, Rvalue::Ref(place(1, "a"))),
            assign(0, Rvalue::RawPtr(place(1, "b"))),
            assign(0, Rvalue::Use(operand("a"))),
            assign(0, Rvalue::Cast(operand("c"))),
            assign(1, Rvalue::Ref(place(1, "d"))),
            Statement::Other,
        ],
        None,
    )]);
    assert_eq!(
        notes,
        vec![(
            None,
            "2 distinct expressions flow into the return value — a sound `deref` impl returns \
             one fixed field address"
                .to_string()
        )]
    );
}

#[test]
fn findings_come_in_a_fixed_order() {
    let notes = deref_notes(vec![
        block(vec![assign(0, Rvalue::Ref(place(1, "a")))], call_of("core::ptr::read", 41)),
        block(vec![assign(0, Rvalue::Ref(place(1, "b")))], call_of("alloc::alloc::alloc", 42)),
        block(vec![], call_of("std::mem::replace", 43)),
    ]);
    let spans: Vec<Option<u64>> = notes.iter().map(|n| n.0).collect();
    assert_eq!(spans, vec![Some(42), None, Some(41), Some(43)]);
}

#[test]
fn sound_deref_is_not_reported() {
    let one = || assign(0, Rvalue::Ref(place(1, "a")));
    assert_eq!(deref_notes(vec![block(vec![one(), one()], call_of("mem::take", 1))]), vec![]);
}

#[test]
fn pointers_inside_pin() {
    let mut krate = pinned_struct();
    krate.hir_types = vec![named(1)];
    assert!(pinned_pointer_types(&krate).is_empty());
    let pin = |path: &str, args| HirTy {
        kind: HirTyKind::Path(HirPath {
            res: Some(def(61, path)),
            segments: vec![PathSegment { name: "Pin".to_string(), args }],
        }),
        debug: String::new(),
    };
    krate.hir_types = vec![
        pin("std::pin::Pin", Some(vec![GenericArg::Type(named(3))])),
        pin("std::pin::Pin", None),
        pin("other::Pin", Some(vec![GenericArg::Type(named(4))])),
    ];
    let pinned = pinned_pointer_types(&krate);
    assert_eq!(pinned.len(), 1);
    assert!(pinned.contains(&3));
}

/// A type with a destructor that ends in the given call.
fn with_destructor(path: &str) -> Crate {
    let mut krate = pinned_struct();
    krate.bodies = vec![Body {
        span: 0,
        arg_count: 1,
        locals: vec![2, 2],
        blocks: vec![block(vec![], call_of(path, 1))],
    }];
    krate.items = vec![Item {
        id: 1,
        span: 1,
        file: "src/lib.rs".to_string(),
        kind: ItemKind::Enum(AdtItem {
            id: 10,
            ty: 3,
            destructor: Some(Destructor { body: Some(0) }),
        }),
    }];
    krate
}

#[test]
fn cleaning_destructors() {
    for path in ["os::close", "x::release_all", "Mutex::unlock", "JoinHandle::join"] {
        assert!(classify_drop_critical_types(&with_destructor(path)).contains(&10));
    }
    for path in ["close", "core::mem::drop", "x::reclose"] {
        assert!(classify_drop_critical_types(&with_destructor(path)).is_empty());
    }
}

#[test]
fn types_without_own_destructor_are_not_critical() {
    let mut krate = with_destructor("os::close");
    krate.bodies.clear();
    assert!(classify_drop_critical_types(&krate).is_empty());
    let mut krate = with_destructor("os::close");
    if let ItemKind::Enum(adt) = &mut krate.items[0].kind {
        adt.destructor = None;
    }
    assert!(classify_drop_critical_types(&krate).is_empty());
}

#[test]
fn public_safe_functions_are_constructors() {
    let mut krate = with_destructor("os::close");
    let with_body = || {
        let mut decl = returning(3);
        decl.body = Some(0);
        decl
    };
    let mut private = with_body();
    private.is_public = false;
    let mut marked = with_body();
    marked.is_unsafe = true;
    assert!(should_check_fn(&with_body()));
    assert!(!should_check_fn(&private));
    assert!(!should_check_fn(&marked));
    let fn_item = |id: u64, decl: FnDecl| Item {
        id,
        span: 1,
        file: "src/lib.rs".to_string(),
        kind: ItemKind::Fn(decl),
    };
    krate.items.push(fn_item(2, with_body()));
    krate.items.push(fn_item(3, private));
    krate.items.push(fn_item(4, marked));
    krate.items.push(fn_item(5, returning(2)));
    krate.items.push(fn_item(6, returning(3)));
    let mut own = impl_item(None, 3, vec![method("new", with_body())]);
    own.id = 7;
    krate.items.push(own);
    let mut of_trait = impl_item(Some(7), 3, vec![method("default", with_body())]);
    of_trait.id = 8;
    krate.items.push(of_trait);
    let critical = classify_drop_critical_types(&krate);
    let constructors = scan_constructors(&krate, &critical);
    let found: Vec<(usize, u64)> = constructors.iter().map(|c| (c.body, c.span)).collect();
    assert_eq!(found, vec![(0, 9), (0, 9)]);
}

#[test]
fn unsafe_methods_add_nothing_between_others() {
    let mut marked = returning(0);
    marked.is_unsafe = true;
    let reports = |items: Vec<ImplItem>| {
        let mut krate = pinned_struct();
        krate.items = vec![impl_item(None, 3, items)];
        let list: Vec<u64> =
            missing_unpin_bound::check_crate(&krate).iter().map(|d| d.span).collect();
        list
    };
    let with = reports(vec![
        method("a", returning(0)),
        method("b", marked),
        method("c", returning(4)),
    ]);
    let without = reports(vec![method("a", returning(0)), method("c", returning(4))]);
    assert_eq!(with, without);
    assert_eq!(with.len(), 2);
}
