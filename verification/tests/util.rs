//! Paths, names, texts and what the analyses share.

use pinvio::analysis::util::{
    all_items, any_pin_call, call_in_block, collect_pinned_fields, contains_phantom_pinned,
    is_not_unpin, is_pin, is_pin_new_unchecked, is_reference_like, matches_path,
    mir_callee_def_id, strip_generic_args, type_implements_trait, PinnedFields,
};
use pinvio::model::{
    Block, Crate, DefId, Expr, FnRef, Item, ItemKind, LangItems, Operand, OperandKind, Place,
    Terminator, TerminatorKind, TyData, TyKind, TyTable,
};
use pinvio::names::{order_of, NameSet, Order};
use pinvio::text::{contains, decimal, ends_with, join, same_text, starts_with};

fn def(id: u64, path: &str) -> DefId {
    DefId { id, path: path.to_string() }
}

fn ty(kind: TyKind) -> TyData {
    TyData { kind, text: String::new() }
}

fn adt(path: &str, fields: Vec<usize>) -> TyKind {
    TyKind::Adt { def: def(1, path), variants: vec![fields] }
}

fn crate_with(types: Vec<TyData>, items: Vec<Item>, exprs: Vec<Expr>) -> Crate {
    Crate {
        types: TyTable { types },
        adts: vec![],
        items,
        hir_types: vec![],
        exprs,
        body_owners: vec![],
        bodies: vec![],
        lang: LangItems { unpin_trait: None, deref_trait: None, deref_mut_trait: None },
    }
}

fn new_unchecked() -> Expr {
    Expr::Path(Some(def(9, "core::pin::Pin::<Ptr>::new_unchecked")))
}

fn pin_call(callee: Expr, args: Vec<Expr>) -> Expr {
    Expr::Call { callee: Box::new(callee), args }
}

fn field_borrow(owner_ty: usize, name: &str) -> Expr {
    Expr::AddrOf(Box::new(Expr::Field { owner_ty, name: name.to_string() }))
}

#[test]
fn generic_arguments_are_stripped() {
    assert_eq!(strip_generic_args("std::pin::Pin::<Ptr>::new_unchecked"), "std::pin::Pin::new_unchecked");
    assert_eq!(strip_generic_args("a::<b::<c>>::d"), "a::d");
    assert_eq!(strip_generic_args("<T as Trait>::f"), "::f");
    assert_eq!(strip_generic_args("a::::::::b"), "a::b");
    assert_eq!(strip_generic_args("a::::::b"), "a::b");
    assert_eq!(strip_generic_args("a:::::b"), "a:::b");
    assert_eq!(strip_generic_args("plain::path"), "plain::path");
    assert_eq!(strip_generic_args(""), "");
}

#[test]
fn unbalanced_brackets() {
    assert_eq!(strip_generic_args("a>b"), "ab");
    assert_eq!(strip_generic_args("a<b"), "a");
    assert_eq!(strip_generic_args("a>>b<c>d"), "abd");
}

#[test]
fn stripped_paths_stay() {
    let once = strip_generic_args("x::<y>::<z>::w");
    assert_eq!(strip_generic_args(&once), once);
}

#[test]
fn paths_match_by_their_end() {
    let path = ["core", "pin", "Pin"];
    assert!(matches_path(&def(1, "core::pin::Pin"), &path));
    assert!(matches_path(&def(1, "x::core::pin::Pin::<P>"), &path) == false);
    assert!(matches_path(&def(1, "x::core::pin::Pin<P>"), &path));
    assert!(matches_path(&def(1, "xcore::pin::Pin"), &path));
    assert!(!matches_path(&def(1, "pin::Pin"), &path));
    assert!(matches_path(&def(1, "anything"), &[]));
}

#[test]
fn pin_is_recognised() {
    assert!(is_pin(&def(1, "std::pin::Pin")));
    assert!(is_pin(&def(1, "core::pin::Pin")));
    assert!(!is_pin(&def(1, "my::Pin")));
    assert!(is_pin_new_unchecked(&def(1, "std::pin::Pin::<P>::new_unchecked")));
    assert!(is_pin_new_unchecked(&def(1, "core::pin::Pin::new_unchecked")));
    assert!(!is_pin_new_unchecked(&def(1, "std::pin::Pin::new")));
}

#[test]
fn callee_of_an_operand() {
    let place = || Place { local: 0, is_bare: true, text: String::new() };
    let func = Operand {
        kind: OperandKind::Constant(Some(FnRef { def: def(7, "f"), output: 0 })),
        text: String::new(),
    };
    assert_eq!(mir_callee_def_id(&func).map(|d| d.id), Some(7));
    let other = Operand { kind: OperandKind::Constant(None), text: String::new() };
    assert!(mir_callee_def_id(&other).is_none());
    let copied = Operand { kind: OperandKind::Copy(place()), text: String::new() };
    assert!(mir_callee_def_id(&copied).is_none());
    let block = Block {
        statements: vec![],
        terminator: Some(Terminator {
            kind: TerminatorKind::Call { func, args: vec![], destination: place() },
            span: 3,
        }),
    };
    assert_eq!(call_in_block(&block).map(|(d, span)| (d.id, span)), Some((7, 3)));
    let end = Block { statements: vec![], terminator: None };
    assert!(call_in_block(&end).is_none());
}

#[test]
fn references_and_pointers() {
    let types = TyTable {
        types: vec![ty(TyKind::Other), ty(TyKind::Ref(0)), ty(TyKind::RawPtr), ty(adt("A", vec![]))],
    };
    assert!(!is_reference_like(&types, 0));
    assert!(is_reference_like(&types, 1));
    assert!(is_reference_like(&types, 2));
    assert!(!is_reference_like(&types, 3));
    assert!(!is_reference_like(&types, 4));
}

#[test]
fn trait_obligations() {
    assert!(type_implements_trait(&vec![]));
    assert!(!type_implements_trait(&vec!["T: Unpin".to_string()]));
    assert!(is_not_unpin(Some(&vec!["T: Unpin".to_string()])));
    assert!(!is_not_unpin(Some(&vec![])));
    assert!(!is_not_unpin(None));
}

/// A chain of wrappers: type 0 is the marker, type `n` holds type `n - 1`.
fn chain(n: usize) -> TyTable {
    let mut types = vec![ty(adt("core::marker::PhantomPinned", vec![]))];
    for i in 0..n {
        types.push(ty(match i % 3 {
            0 => adt("W", vec![i]),
            1 => TyKind::Tuple(vec![i]),
            _ => TyKind::Array(i),
        }));
    }
    TyTable { types }
}

#[test]
fn marker_is_found_at_any_depth() {
    for steps in [0, 1, 2, 16, 17, 18, 100] {
        assert!(contains_phantom_pinned(&chain(steps), steps));
    }
}

#[test]
fn marker_in_nested_tuples() {
    let mut types = vec![ty(adt("core::marker::PhantomPinned", vec![]))];
    for i in 0..17 {
        types.push(ty(TyKind::Tuple(vec![i])));
    }
    assert!(contains_phantom_pinned(&TyTable { types }, 17));
}

#[test]
fn marker_in_one_of_many_parts() {
    let types = TyTable {
        types: vec![
            ty(TyKind::Other),
            ty(adt("std::marker::PhantomPinned", vec![])),
            ty(TyKind::Tuple(vec![0, 0, 1])),
            ty(TyKind::Adt { def: def(2, "E"), variants: vec![vec![0], vec![], vec![0, 2]] }),
            ty(TyKind::Tuple(vec![0, 7])),
        ],
    };
    assert!(contains_phantom_pinned(&types, 3));
    assert!(!contains_phantom_pinned(&types, 0));
    // A part that is not in the table holds nothing.
    assert!(!contains_phantom_pinned(&types, 4));
    assert!(!contains_phantom_pinned(&types, 7));
}

#[test]
fn marker_is_not_found_behind_references() {
    let types = TyTable {
        types: vec![
            ty(adt("std::marker::PhantomPinned", vec![])),
            ty(TyKind::Ref(0)),
            ty(adt("W", vec![1])),
            ty(adt("my::std::marker::PhantomPinned", vec![])),
        ],
    };
    assert!(contains_phantom_pinned(&types, 0));
    assert!(!contains_phantom_pinned(&types, 1));
    assert!(!contains_phantom_pinned(&types, 2));
    assert!(!contains_phantom_pinned(&types, 3));
}

#[test]
fn recursive_types_are_walked_once() {
    let types = TyTable { types: vec![ty(adt("List", vec![0]))] };
    assert!(!contains_phantom_pinned(&types, 0));
    let types = TyTable {
        types: vec![
            ty(adt("A", vec![1])),
            ty(adt("B", vec![0, 2])),
            ty(adt("std::marker::PhantomPinned", vec![])),
        ],
    };
    assert!(contains_phantom_pinned(&types, 0));
}

#[test]
fn items_are_met_once() {
    let item = |id: u64| Item { id, span: 0, file: String::new(), kind: ItemKind::Other };
    let krate = crate_with(vec![], vec![item(5), item(6), item(5), item(7), item(6)], vec![]);
    assert_eq!(all_items(&krate), vec![0, 1, 3]);
}

#[test]
fn pinned_fields_are_collected() {
    let types = vec![
        ty(TyKind::Adt { def: def(10, "A"), variants: vec![] }),
        ty(TyKind::Ref(0)),
        ty(TyKind::Ref(1)),
        ty(TyKind::Other),
    ];
    let exprs = vec![
        pin_call(new_unchecked(), vec![field_borrow(2, "f")]),
        pin_call(new_unchecked(), vec![field_borrow(0, "g")]),
        pin_call(new_unchecked(), vec![field_borrow(0, "g")]),
        // not a struct, no field, no borrow, no argument, another function
        pin_call(new_unchecked(), vec![field_borrow(3, "h")]),
        pin_call(new_unchecked(), vec![Expr::AddrOf(Box::new(Expr::Other))]),
        pin_call(new_unchecked(), vec![Expr::Field { owner_ty: 0, name: "i".to_string() }]),
        pin_call(new_unchecked(), vec![]),
        pin_call(Expr::Path(Some(def(8, "other"))), vec![field_borrow(0, "j")]),
        pin_call(Expr::Path(None), vec![field_borrow(0, "k")]),
        pin_call(Expr::Other, vec![field_borrow(0, "l")]),
    ];
    let pinned = collect_pinned_fields(&crate_with(types, vec![], exprs));
    let names = pinned.get(10).map(|n| n.sorted().clone());
    assert_eq!(names, Some(vec!["f".to_string(), "g".to_string()]));
    assert!(pinned.get(11).is_none());
}

#[test]
fn pin_calls_among_expressions() {
    assert!(any_pin_call(&vec![Expr::Other, pin_call(new_unchecked(), vec![])]));
    assert!(!any_pin_call(&vec![Expr::Other, new_unchecked()]));
    assert!(!any_pin_call(&vec![]));
}

#[test]
fn names_in_ascending_order() {
    let mut set = NameSet::new();
    assert!(set.is_empty());
    for name in ["b", "a", "ab", "B", "—", "a"] {
        set.insert(name.to_string());
    }
    assert_eq!(set.len(), 5);
    assert!(!set.is_empty());
    assert!(set.contains("ab"));
    assert!(!set.contains("abc"));
    let sorted: Vec<&str> = set.sorted().iter().map(|s| s.as_str()).collect();
    assert_eq!(sorted, vec!["B", "a", "ab", "b", "—"]);
    assert!(!set.insert("a".to_string()));
    assert!(set.insert("c".to_string()));
}

#[test]
fn order_of_names() {
    assert_eq!(order_of("a", "b"), Order::Before);
    assert_eq!(order_of("b", "a"), Order::After);
    assert_eq!(order_of("a", "ab"), Order::Before);
    assert_eq!(order_of("ab", "a"), Order::After);
    assert_eq!(order_of("", ""), Order::Same);
    assert_eq!(order_of("", "a"), Order::Before);
}

#[test]
fn parts_of_texts() {
    assert!(starts_with("abc", "ab"));
    assert!(!starts_with("abc", "bc"));
    assert!(starts_with("abc", ""));
    assert!(ends_with("abc", "bc"));
    assert!(!ends_with("bc", "abc"));
    assert!(contains("abcd", "bc"));
    assert!(!contains("abcd", "bd"));
    assert!(contains("", ""));
    assert!(same_text("é", "é"));
    assert!(!same_text("a", "ab"));
}

#[test]
fn joined_and_written_out() {
    let parts: Vec<String> = vec!["a".to_string(), "".to_string(), "b".to_string()];
    assert_eq!(join(&parts, ", "), "a, , b");
    assert_eq!(join(&vec![], ", "), "");
    assert_eq!(decimal(0), "0");
    assert_eq!(decimal(10), "10");
    assert_eq!(decimal(90807), "90807");
}

#[test]
fn pinned_field_behind_a_box() {
    // `Pin::new_unchecked(&mut x.field)` with `x: Box<S>`: the field is looked up on `S`.
    let types = vec![
        ty(TyKind::Adt { def: def(10, "S"), variants: vec![vec![2]] }),
        ty(TyKind::Adt { def: def(11, "Box"), variants: vec![] }),
        ty(TyKind::Other),
    ];
    let exprs = vec![pin_call(new_unchecked(), vec![field_borrow(0, "field")])];
    let pinned = collect_pinned_fields(&crate_with(types, vec![], exprs));
    assert_eq!(pinned.get(10).map(|n| n.sorted().clone()), Some(vec!["field".to_string()]));
    assert!(pinned.get(11).is_none());
}

#[test]
fn entries_are_never_empty() {
    let mut pinned = PinnedFields::new();
    assert!(pinned.get(1).is_none());
    pinned.insert(1, "a".to_string());
    pinned.insert(1, "a".to_string());
    assert_eq!(pinned.get(1).map(|n| n.len()), Some(1));
    assert!(pinned.get(2).is_none());
}
