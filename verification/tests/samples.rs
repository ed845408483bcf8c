//! Small crates, each with one violation, given as the model that the analyses read.

use pinvio::analysis::origin::{Origin, OriginMap};
use pinvio::analysis::pin_leak_detector;
use pinvio::analysis::provenance::{Provenance, ProvenanceMap};
use pinvio::analysis::{
    deref_pin_stability, missing_unpin_bound, safe_pin_unchecked, wrong_unpin_impl,
};
use pinvio::analyze;
use pinvio::flow::Visit;
use pinvio::model::{
    AdtDef, AdtItem, Block, Body, BodyOwner, Crate, DefId, DefKind, Destructor, Expr, FieldDef,
    FnDecl, FnRef, GenericArg, HirBound, HirPath, HirTy, HirTyKind, ImplData, ImplItem,
    ImplItemKind, Item, ItemKind, LangItems, Operand, OperandKind, PathSegment, Place, Rvalue,
    Statement, Terminator, TerminatorKind, TraitRef, TyData, TyKind, TyTable, TypeParam,
    WherePredicate,
};

const UNPIN: u64 = 100;
const DEREF: u64 = 101;
const DEREF_MUT: u64 = 102;

fn def(id: u64, path: &str) -> DefId {
    DefId { id, path: path.to_string() }
}

fn ty(kind: TyKind, text: &str) -> TyData {
    TyData { kind, text: text.to_string() }
}

fn param(index: u32, name: &str) -> TyData {
    ty(TyKind::Param { index, name: name.to_string() }, name)
}

fn empty_crate() -> Crate {
    Crate {
        types: TyTable { types: vec![] },
        adts: vec![],
        items: vec![],
        hir_types: vec![],
        exprs: vec![],
        body_owners: vec![],
        bodies: vec![],
        lang: LangItems {
            unpin_trait: Some(UNPIN),
            deref_trait: Some(DEREF),
            deref_mut_trait: Some(DEREF_MUT),
        },
    }
}

fn item(id: u64, span: u64, kind: ItemKind) -> Item {
    Item { id, span, file: "src/lib.rs".to_string(), kind }
}

fn field(name: &str, ty: usize) -> FieldDef {
    FieldDef { name: name.to_string(), ty }
}

fn type_param(index: u32, name: &str) -> TypeParam {
    TypeParam { index, name: name.to_string() }
}

fn fn_decl(span: u64, output: usize, body: Option<usize>) -> FnDecl {
    FnDecl {
        span,
        is_unsafe: false,
        is_public: true,
        output,
        first_input: None,
        predicates: vec![],
        exprs: vec![],
        body,
    }
}

fn method(name: &str, decl: FnDecl) -> ImplItem {
    ImplItem { name: name.to_string(), kind: ImplItemKind::Fn(decl) }
}

fn inherent(self_ty: usize, items: Vec<ImplItem>) -> ItemKind {
    ItemKind::Impl(ImplData { of_trait: None, self_ty, predicates: vec![], items })
}

fn trait_impl(
    trait_id: u64,
    self_ty: usize,
    predicates: Vec<WherePredicate>,
    items: Vec<ImplItem>,
) -> ItemKind {
    ItemKind::Impl(ImplData {
        of_trait: Some(TraitRef { trait_id: Some(trait_id) }),
        self_ty,
        predicates,
        items,
    })
}

fn place(local: usize, is_bare: bool, text: &str) -> Place {
    Place { local, is_bare, text: text.to_string() }
}

fn local(n: usize) -> Place {
    place(n, true, &format!("_{n}"))
}

fn moved(n: usize) -> Operand {
    Operand { kind: OperandKind::Move(local(n)), text: format!("move _{n}") }
}

fn function(id: u64, path: &str, output: usize) -> Operand {
    Operand {
        kind: OperandKind::Constant(Some(FnRef { def: def(id, path), output })),
        text: path.to_string(),
    }
}

fn call(func: Operand, args: Vec<Operand>, destination: Place, span: u64) -> Option<Terminator> {
    Some(Terminator { kind: TerminatorKind::Call { func, args, destination }, span })
}

fn ret(span: u64) -> Option<Terminator> {
    Some(Terminator { kind: TerminatorKind::Return, span })
}

fn written(res: Option<DefId>, name: &str, args: Option<Vec<GenericArg>>) -> HirTy {
    HirTy {
        kind: HirTyKind::Path(HirPath {
            res,
            segments: vec![PathSegment { name: name.to_string(), args }],
        }),
        debug: format!("Ty({name})"),
    }
}

fn written_ref(target: HirTy) -> HirTy {
    HirTy {
        kind: HirTyKind::Ref { mutable: true, target: Box::new(target) },
        debug: "Ty(&mut)".to_string(),
    }
}

/// `Pin::new_unchecked(&mut base.name)`
fn projection(owner_ty: usize, name: &str) -> Expr {
    Expr::Call {
        callee: Box::new(Expr::Path(Some(def(60, "std::pin::Pin::<Ptr>::new_unchecked")))),
        args: vec![Expr::AddrOf(Box::new(Expr::Field { owner_ty, name: name.to_string() }))],
    }
}

/// A pointer type whose `deref_mut` swaps two fields.
fn swapping_pointer() -> Crate {
    let mut krate = empty_crate();
    krate.types.types = vec![
        param(0, "T"),
        ty(TyKind::Other, "bool"),
        ty(
            TyKind::Adt { def: def(10, "SwappingPtr"), variants: vec![vec![0, 0, 1]] },
            "SwappingPtr<T>",
        ),
        ty(TyKind::Ref(2), "&mut SwappingPtr<T>"),
        ty(TyKind::Ref(0), "&mut T"),
    ];
    krate.hir_types.push(written(
        Some(def(61, "std::pin::Pin")),
        "Pin",
        Some(vec![GenericArg::Type(written_ref(written(
            Some(def(10, "SwappingPtr")),
            "SwappingPtr",
            None,
        )))]),
    ));
    let deref_body = Body {
        span: 30,
        arg_count: 1,
        locals: vec![4, 3],
        blocks: vec![Block {
            statements: vec![Statement::Assign(
                local(0),
                Rvalue::Ref(place(1, false, "((*_1).0: T)")),
            )],
            terminator: ret(31),
        }],
    };
    let deref_mut_body = Body {
        span: 40,
        arg_count: 1,
        locals: vec![4, 3, 4, 4, 1],
        blocks: vec![
            Block {
                statements: vec![
                    Statement::Assign(local(2), Rvalue::Ref(place(1, false, "((*_1).0: T)"))),
                    Statement::Assign(local(3), Rvalue::Ref(place(1, false, "((*_1).1: T)"))),
                ],
                terminator: call(
                    function(62, "std::mem::swap", 1),
                    vec![moved(2), moved(3)],
                    local(4),
                    41,
                ),
            },
            Block {
                statements: vec![Statement::Assign(
                    local(0),
                    Rvalue::Ref(place(1, false, "((*_1).0: T)")),
                )],
                terminator: ret(42),
            },
        ],
    };
    krate.bodies = vec![deref_body, deref_mut_body];
    krate.items = vec![
        item(1, 1, ItemKind::Struct(AdtItem { id: 10, ty: 2, destructor: None })),
        item(2, 2, inherent(2, vec![method("new", fn_decl(3, 2, None))])),
        item(3, 4, trait_impl(DEREF, 2, vec![], vec![method("deref", fn_decl(5, 4, Some(0)))])),
        item(
            4,
            6,
            trait_impl(DEREF_MUT, 2, vec![], vec![method("deref_mut", fn_decl(7, 4, Some(1)))]),
        ),
    ];
    krate
}

/// A wrapper that projects to its field, and gives the field away.
fn sub_wrapper() -> Crate {
    let mut krate = empty_crate();
    krate.types.types = vec![
        param(0, "T"),
        ty(TyKind::Adt { def: def(10, "SubWrapper"), variants: vec![vec![0]] }, "SubWrapper<T>"),
        ty(TyKind::Ref(1), "&mut SubWrapper<T>"),
        ty(TyKind::Adt { def: def(61, "std::pin::Pin"), variants: vec![vec![4]] }, "Pin<&mut T>"),
        ty(TyKind::Ref(0), "&mut T"),
    ];
    krate.adts = vec![AdtDef {
        id: 10,
        fields: vec![field("inner", 0)],
        type_params: vec![type_param(0, "T")],
    }];
    krate.exprs = vec![projection(2, "inner")];
    let mut pin_project = fn_decl(3, 3, None);
    pin_project.exprs = vec![projection(2, "inner")];
    krate.items = vec![
        item(1, 1, ItemKind::Struct(AdtItem { id: 10, ty: 1, destructor: None })),
        item(
            2,
            2,
            inherent(
                1,
                vec![
                    method("pin_project", pin_project),
                    method("into_inner", fn_decl(4, 0, None)),
                ],
            ),
        ),
    ];
    krate
}

/// A wrapper whose `Unpin` impl bounds the parameter of the field that is not pinned.
fn wrapper(bounded: &str) -> Crate {
    let mut krate = empty_crate();
    krate.types.types = vec![
        param(0, "T"),
        param(1, "U"),
        ty(TyKind::Adt { def: def(10, "Wrapper"), variants: vec![vec![0, 1]] }, "Wrapper<T, U>"),
        ty(TyKind::Ref(2), "&mut Wrapper<T, U>"),
    ];
    krate.adts = vec![AdtDef {
        id: 10,
        fields: vec![field("pinned", 0), field("data", 1)],
        type_params: vec![type_param(0, "T"), type_param(1, "U")],
    }];
    krate.exprs = vec![projection(3, "pinned")];
    krate.items = vec![
        item(1, 1, ItemKind::Struct(AdtItem { id: 10, ty: 2, destructor: None })),
        item(
            2,
            2,
            trait_impl(
                UNPIN,
                2,
                vec![WherePredicate::Bound {
                    bounded: written(Some(def(70, bounded)), bounded, None),
                    bounds: vec![HirBound::Trait(Some(UNPIN))],
                }],
                vec![],
            ),
        ),
    ];
    krate
}

/// A pinned handle with a destructor, and a function that makes one.
fn io_handle() -> Crate {
    let mut krate = empty_crate();
    krate.types.types = vec![
        ty(TyKind::Other, "i32"),
        ty(
            TyKind::Adt { def: def(63, "std::marker::PhantomPinned"), variants: vec![vec![]] },
            "PhantomPinned",
        ),
        ty(TyKind::Adt { def: def(10, "IoHandle"), variants: vec![vec![0, 1]] }, "IoHandle"),
        ty(TyKind::Ref(2), "&mut IoHandle"),
    ];
    let drop_body = Body {
        span: 20,
        arg_count: 1,
        locals: vec![0, 3],
        blocks: vec![Block {
            statements: vec![],
            terminator: call(function(64, "close", 0), vec![moved(1)], local(0), 21),
        }],
    };
    let new_body = Body {
        span: 22,
        arg_count: 1,
        locals: vec![2, 0],
        blocks: vec![Block {
            statements: vec![Statement::Assign(local(0), Rvalue::Aggregate)],
            terminator: ret(23),
        }],
    };
    krate.bodies = vec![drop_body, new_body];
    krate.items = vec![
        item(
            1,
            1,
            ItemKind::Struct(AdtItem {
                id: 10,
                ty: 2,
                destructor: Some(Destructor { body: Some(0) }),
            }),
        ),
        item(2, 5, ItemKind::Fn(fn_decl(5, 2, Some(1)))),
    ];
    krate
}

fn io_handle_flows() -> Vec<Vec<Visit<OriginMap>>> {
    vec![
        vec![],
        vec![Visit {
            block: 0,
            state: OriginMap { locals: vec![Origin::FreshInThisFn, Origin::FromParam] },
        }],
    ]
}

/// A safe function that pins what its parameter points to.
fn pin_from_ref() -> Crate {
    let mut krate = empty_crate();
    krate.types.types = vec![
        param(0, "T"),
        ty(TyKind::Ref(0), "&mut T"),
        ty(TyKind::Adt { def: def(61, "std::pin::Pin"), variants: vec![vec![1]] }, "Pin<&mut T>"),
    ];
    krate.bodies = vec![Body {
        span: 20,
        arg_count: 1,
        locals: vec![2, 1],
        blocks: vec![
            Block {
                statements: vec![],
                terminator: call(
                    function(60, "std::pin::Pin::<Ptr>::new_unchecked", 2),
                    vec![moved(1)],
                    local(0),
                    21,
                ),
            },
            Block { statements: vec![], terminator: ret(22) },
        ],
    }];
    krate.body_owners = vec![BodyOwner { kind: DefKind::Fn, is_unsafe: false, body: Some(0) }];
    krate.items = vec![item(1, 1, ItemKind::Fn(fn_decl(1, 2, Some(0))))];
    krate
}

fn pin_from_ref_flows() -> Vec<Vec<Visit<ProvenanceMap>>> {
    vec![vec![
        Visit {
            block: 0,
            state: ProvenanceMap { locals: vec![Provenance::Unknown, Provenance::FromParam] },
        },
        Visit {
            block: 1,
            state: ProvenanceMap {
                locals: vec![Provenance::FromOwnedLocal, Provenance::FromParam],
            },
        },
    ]]
}

#[test]
fn swapping_deref_mut_is_reported() {
    let reports = deref_pin_stability::check_crate(&swapping_pointer());
    assert_eq!(reports.len(), 1);
    assert_eq!(reports[0].span, 6);
    assert_eq!(
        reports[0].message,
        "`deref_mut` impl on a type used in `Pin<...>` may violate Pin's \
         location-stability guarantee"
    );
    assert_eq!(reports[0].notes.len(), 1);
    assert_eq!(reports[0].notes[0].span, Some(41));
    assert_eq!(reports[0].notes[0].text, "call to `std::mem::swap` mutates the receiver");
    assert_eq!(
        reports[0].help,
        "ensure `deref`/`deref_mut` returns the same address on every call. \
         Pin<P> relies on this for location stability of `!Unpin` targets."
    );
}

#[test]
fn unpinned_pointer_is_not_looked_at() {
    let mut krate = swapping_pointer();
    krate.hir_types.clear();
    assert_eq!(deref_pin_stability::check_crate(&krate).len(), 0);
}

#[test]
fn field_given_away_is_reported() {
    let reports = missing_unpin_bound::check_crate(&sub_wrapper());
    assert_eq!(reports.len(), 1);
    assert_eq!(reports[0].span, 4);
    assert_eq!(
        reports[0].message,
        "method returns a structurally-pinned field's type by value without an `Unpin` bound"
    );
    assert_eq!(
        reports[0].notes[0].text,
        "field `inner` is structurally pinned (it is the target of `Pin::new_unchecked` \
         projection elsewhere on this type), so any method that exposes it by ownership \
         requires `T: Unpin` in its where-clause"
    );
    assert_eq!(
        reports[0].notes[1].text,
        "without this bound, callers can pin the field through one method, then move it via \
         this method — see RUSTSEC-2023-0005 (tokio `unsplit`)"
    );
    assert_eq!(reports[0].notes[0].span, None);
    assert_eq!(
        reports[0].help,
        "add `where T: Unpin` to this method's signature, or mark the method `unsafe`"
    );
}

#[test]
fn wrong_direction_impl_is_reported() {
    let reports = wrong_unpin_impl::check_crate(&wrapper("U"));
    assert_eq!(reports.len(), 1);
    assert_eq!(reports[0].span, 2);
    assert_eq!(
        reports[0].message,
        "wrong-direction `Unpin` bound: structurally-pinned field is not bounded by `Unpin`"
    );
    assert_eq!(
        reports[0].notes[0].text,
        "field `pinned` (type parameter `T`) is structurally pinned (it is the target of \
         `Pin::new_unchecked` projection somewhere), so the impl must require `T: Unpin`"
    );
    assert_eq!(reports[0].notes[1].text, "instead, the where-clause bounds: U");
    assert_eq!(
        reports[0].help,
        "either change the where-clause to bound the pinned field's type parameter, or use \
         the `pin_project` macro which emits the correct bounds automatically"
    );
}

#[test]
fn right_direction_impl_is_not_reported() {
    assert_eq!(wrong_unpin_impl::check_crate(&wrapper("T")).len(), 0);
}

#[test]
fn leaking_constructor_is_reported() {
    let krate = io_handle();
    let flows = io_handle_flows();
    assert!(pin_leak_detector::check_flows(&krate, &flows));
    let reports = pin_leak_detector::check_crate(&krate, &flows);
    assert_eq!(reports.len(), 1);
    assert_eq!(reports[0].span, 5);
    assert_eq!(
        reports[0].message,
        "safe constructor returns a drop-critical type by ownership"
    );
    assert_eq!(
        reports[0].notes[0].text,
        "return type `IoHandle` is drop-critical (its `Drop` impl maintains an external \
         invariant). Returning it by ownership from safe code lets callers `mem::forget` the \
         value, skipping `Drop` and breaking the invariant — see RUSTSEC-2020-0021 (rio)."
    );
    assert_eq!(
        reports[0].help,
        "either mark this function `unsafe`, return the value behind a pinning wrapper that \
         disallows safe ownership transfer, or redesign the type so its invariant does not \
         depend on `Drop`"
    );
}

#[test]
fn unchecked_pin_of_parameter_is_reported() {
    let krate = pin_from_ref();
    let flows = pin_from_ref_flows();
    assert_eq!(safe_pin_unchecked::bodies_to_check(&krate), vec![0]);
    assert!(safe_pin_unchecked::check_flows(&krate, &flows));
    let reports = safe_pin_unchecked::check_crate(&krate, &flows);
    assert_eq!(reports.len(), 1);
    assert_eq!(reports[0].span, 21);
    assert_eq!(
        reports[0].message,
        "`Pin::new_unchecked` is called on memory whose pinning invariant is not enforced by \
         this function's signature"
    );
    assert_eq!(
        reports[0].notes[0].text,
        "argument provenance traces back to a function parameter"
    );
    assert_eq!(
        reports[0].notes[1].text,
        "callers of this safe function never opted into the pinning contract — they passed an \
         ordinary `&mut T` and received back a `Pin<&mut T>` that depends on storage stability"
    );
    assert_eq!(
        reports[0].help,
        "either mark this function `unsafe` and document the pinning precondition, or change \
         the receiver to `Pin<&mut Self>` (or take the value by ownership in a Box) so that \
         the caller must establish the pinning invariant before calling"
    );
}

#[test]
fn analyses_run_in_order() {
    let krate = sub_wrapper();
    let analysis = analyze(&krate, &vec![], &vec![]);
    assert_eq!(analysis.scope, "Scope: 1 source file(s) in crate — src/lib.rs");
    let names: Vec<&str> = analysis.runs.iter().map(|r| r.started.as_str()).collect();
    assert_eq!(
        names,
        vec![
            "++++++++++++++++++++ Running: MissingUnpinBound",
            "++++++++++++++++++++ Running: WrongUnpinImpl",
            "++++++++++++++++++++ Running: PinLeakDetector",
            "++++++++++++++++++++ Running: DerefPinStability",
            "++++++++++++++++++++ Running: SafePinUnchecked",
        ]
    );
    assert_eq!(analysis.runs[4].finished, "-------------------- Complete: SafePinUnchecked");
    let counts: Vec<usize> = analysis.runs.iter().map(|r| r.result.len()).collect();
    assert_eq!(counts, vec![1, 0, 0, 0, 0]);
}

#[test]
fn scope_lists_each_file_on_disk_once() {
    let mut krate = empty_crate();
    for (i, file) in ["src/lib.rs", "src/a.rs", "<anon>", "src/lib.rs"].iter().enumerate() {
        krate.items.push(Item {
            id: i as u64,
            span: 0,
            file: file.to_string(),
            kind: ItemKind::Other,
        });
    }
    let analysis = analyze(&krate, &vec![], &vec![]);
    assert_eq!(analysis.scope, "Scope: 2 source file(s) in crate — src/a.rs, src/lib.rs");
}

#[test]
fn empty_crate_has_empty_scope() {
    let analysis = analyze(&empty_crate(), &vec![], &vec![]);
    assert_eq!(analysis.scope, "Scope: 0 source file(s) in crate — ");
}

#[test]
fn analyze_covers_flows() {
    let analysis = analyze(&io_handle(), &io_handle_flows(), &vec![]);
    assert_eq!(analysis.runs[2].result.len(), 1);
    let analysis = analyze(&pin_from_ref(), &vec![], &pin_from_ref_flows());
    assert_eq!(analysis.runs[4].result.len(), 1);
}
