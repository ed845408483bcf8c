//! The parts of a compiled crate that the analyses read, as plain values.

use vstd::prelude::*;

verus! {

/// A definition: a number that identifies it, and its printed path.
#[derive(Debug)]
pub struct DefId {
    pub id: u64,
    pub path: String,
}

/// The place of a type in a [`TyTable`].
pub type TyId = usize;

/// The shape of a type.
#[derive(Debug)]
pub enum TyKind {
    /// A struct, an enum or a union; per variant, the types of its fields.
    Adt { def: DefId, variants: Vec<Vec<TyId>> },
    Tuple(Vec<TyId>),
    Array(TyId),
    /// A reference to a type that stands before it in the table.
    Ref(TyId),
    RawPtr,
    /// A type parameter.
    Param { index: u32, name: String },
    Other,
}

/// A type: its shape, and its printed form.
#[derive(Debug)]
pub struct TyData {
    pub kind: TyKind,
    pub text: String,
}

/// The types of a crate. Equal types have equal places.
#[derive(Debug)]
pub struct TyTable {
    pub types: Vec<TyData>,
}

impl TyTable {
    /// The shape of a type; none for a place that is not in the table.
    pub open spec fn kind_of(self, ty: TyId) -> Option<TyKind> {
        if ty < self.types@.len() {
            Some(self.types@[ty as int].kind)
        } else {
            None
        }
    }

    /// The printed form of a type; empty for a place that is not in the table.
    pub open spec fn text_of(self, ty: TyId) -> Seq<char> {
        if ty < self.types@.len() {
            self.types@[ty as int].text@
        } else {
            Seq::empty()
        }
    }

    /// The struct, enum or union that a type is, if it is one.
    pub open spec fn adt_of(self, ty: TyId) -> Option<u64> {
        match self.kind_of(ty) {
            Some(TyKind::Adt { def, .. }) => Some(def.id),
            _ => None,
        }
    }

    pub fn kind(&self, ty: TyId) -> (r: Option<&TyKind>)
        ensures
            match r {
                Some(k) => self.kind_of(ty) == Some(*k),
                None => self.kind_of(ty) is None,
            },
    {
        if ty < self.types.len() {
            Some(&self.types[ty].kind)
        } else {
            None
        }
    }

    pub fn text(&self, ty: TyId) -> (r: String)
        ensures
            r@ == self.text_of(ty),
    {
        if ty < self.types.len() {
            self.types[ty].text.clone()
        } else {
            String::new()
        }
    }

    pub fn adt(&self, ty: TyId) -> (r: Option<u64>)
        ensures
            r == self.adt_of(ty),
    {
        match self.kind(ty) {
            Some(TyKind::Adt { def, .. }) => Some(def.id),
            _ => None,
        }
    }
}

/// A field as it is declared, with its type in terms of the type's own parameters.
#[derive(Debug)]
pub struct FieldDef {
    pub name: String,
    pub ty: TyId,
}

/// A type parameter as it is declared.
#[derive(Debug)]
pub struct TypeParam {
    pub index: u32,
    pub name: String,
}

/// The declaration of a struct or a union, with its fields; an enum is held without any.
#[derive(Debug)]
pub struct AdtDef {
    pub id: u64,
    pub fields: Vec<FieldDef>,
    pub type_params: Vec<TypeParam>,
}

/// A written type, and its debug form.
#[derive(Debug)]
pub struct HirTy {
    pub kind: HirTyKind,
    pub debug: String,
}

#[derive(Debug)]
pub enum HirTyKind {
    /// A path that was resolved.
    Path(HirPath),
    Ref { mutable: bool, target: Box<HirTy> },
    Other,
}

#[derive(Debug)]
pub struct HirPath {
    pub res: Option<DefId>,
    pub segments: Vec<PathSegment>,
}

#[derive(Debug)]
pub struct PathSegment {
    pub name: String,
    pub args: Option<Vec<GenericArg>>,
}

#[derive(Debug)]
pub enum GenericArg {
    Type(HirTy),
    Other,
}

/// A bound in a where-clause; a trait bound holds the trait that it was resolved to.
#[derive(Debug)]
pub enum HirBound {
    Trait(Option<u64>),
    Other,
}

#[derive(Debug)]
pub enum WherePredicate {
    Bound { bounded: HirTy, bounds: Vec<HirBound> },
    Other,
}

/// An expression, as far as the analyses look into it.
#[derive(Debug)]
pub enum Expr {
    Call { callee: Box<Expr>, args: Vec<Expr> },
    /// A path, and the definition that it was resolved to.
    Path(Option<DefId>),
    AddrOf(Box<Expr>),
    /// An access to a field, with the type that the field is looked up on: that of the base after
    /// all automatic dereferencing, be it through references, a `Box` or a `Deref` impl.
    Field { owner_ty: TyId, name: String },
    Other,
}

/// What a function's where-clauses demand.
#[derive(Debug)]
pub enum Predicate {
    Trait { trait_id: u64, self_ty: TyId },
    Other,
}

/// A function: its signature, the expressions of its body, and the place of its compiled body.
#[derive(Debug)]
pub struct FnDecl {
    pub span: u64,
    pub is_unsafe: bool,
    pub is_public: bool,
    pub output: TyId,
    pub first_input: Option<HirTy>,
    pub predicates: Vec<Predicate>,
    pub exprs: Vec<Expr>,
    /// None where the function belongs to another crate.
    pub body: Option<usize>,
}

#[derive(Debug)]
pub enum ImplItemKind {
    Fn(FnDecl),
    Other,
}

#[derive(Debug)]
pub struct ImplItem {
    pub name: String,
    pub kind: ImplItemKind,
}

/// The trait of an impl, as far as it was resolved.
#[derive(Debug)]
pub struct TraitRef {
    pub trait_id: Option<u64>,
}

#[derive(Debug)]
pub struct ImplData {
    pub of_trait: Option<TraitRef>,
    pub self_ty: TyId,
    pub predicates: Vec<WherePredicate>,
    pub items: Vec<ImplItem>,
}

/// The method that a `Drop` impl supplies, by the place of its compiled body.
#[derive(Debug)]
pub struct Destructor {
    /// None where the method belongs to another crate.
    pub body: Option<usize>,
}

#[derive(Debug)]
pub struct AdtItem {
    pub id: u64,
    pub ty: TyId,
    pub destructor: Option<Destructor>,
}

#[derive(Debug)]
pub enum ItemKind {
    Struct(AdtItem),
    Enum(AdtItem),
    Union(AdtItem),
    Fn(FnDecl),
    Impl(ImplData),
    Other,
}

#[derive(Debug)]
pub struct Item {
    pub id: u64,
    pub span: u64,
    /// The name of the file that the item stands in.
    pub file: String,
    pub kind: ItemKind,
}

/// A place in memory: a local variable, what is projected out of it, and its debug form.
#[derive(Debug)]
pub struct Place {
    pub local: usize,
    /// Whether the place is the whole local variable.
    pub is_bare: bool,
    pub text: String,
}

/// The function that a constant names: its definition and what it returns there.
#[derive(Debug)]
pub struct FnRef {
    pub def: DefId,
    pub output: TyId,
}

#[derive(Debug)]
pub enum OperandKind {
    Move(Place),
    Copy(Place),
    /// A constant; where its type is that of a function, that function.
    Constant(Option<FnRef>),
}

/// An operand, and its debug form.
#[derive(Debug)]
pub struct Operand {
    pub kind: OperandKind,
    pub text: String,
}

#[derive(Debug)]
pub enum Rvalue {
    Use(Operand),
    Ref(Place),
    RawPtr(Place),
    Cast(Operand),
    Aggregate,
    Other,
}

#[derive(Debug)]
pub enum Statement {
    Assign(Place, Rvalue),
    Other,
}

#[derive(Debug)]
pub enum TerminatorKind {
    Call { func: Operand, args: Vec<Operand>, destination: Place },
    Return,
    Other,
}

#[derive(Debug)]
pub struct Terminator {
    pub kind: TerminatorKind,
    pub span: u64,
}

#[derive(Debug)]
pub struct Block {
    pub statements: Vec<Statement>,
    pub terminator: Option<Terminator>,
}

/// A compiled body. Local 0 is the return value, the next `arg_count` are the parameters.
#[derive(Debug)]
pub struct Body {
    pub span: u64,
    pub arg_count: usize,
    pub locals: Vec<TyId>,
    pub blocks: Vec<Block>,
}

#[derive(Clone, Copy, PartialEq, Eq, Structural, Debug)]
pub enum DefKind {
    Fn,
    AssocFn,
    Other,
}

/// A definition that has a body.
#[derive(Debug)]
pub struct BodyOwner {
    pub kind: DefKind,
    pub is_unsafe: bool,
    /// None where the definition belongs to another crate.
    pub body: Option<usize>,
}

/// The traits that the language knows by name.
#[derive(Debug)]
pub struct LangItems {
    pub unpin_trait: Option<u64>,
    pub deref_trait: Option<u64>,
    pub deref_mut_trait: Option<u64>,
}

/// A compiled crate.
#[derive(Debug)]
pub struct Crate {
    pub types: TyTable,
    pub adts: Vec<AdtDef>,
    /// The items in the order in which a walk through the crate meets them.
    pub items: Vec<Item>,
    /// All types that are written somewhere in the crate.
    pub hir_types: Vec<HirTy>,
    /// All expressions of the crate.
    pub exprs: Vec<Expr>,
    pub body_owners: Vec<BodyOwner>,
    pub bodies: Vec<Body>,
    pub lang: LangItems,
}

impl Crate {
    /// The compiled body at the given place, if it is one of this crate's.
    pub open spec fn body_at(self, body: Option<usize>) -> Option<Body> {
        match body {
            Some(b) => if b < self.bodies@.len() {
                Some(self.bodies@[b as int])
            } else {
                None
            },
            None => None,
        }
    }

    /// The declaration of the given type, by its place in `adts`.
    pub open spec fn declares(self, id: u64, k: int) -> bool {
        &&& 0 <= k < self.adts@.len()
        &&& self.adts@[k].id == id
        &&& forall|j: int| 0 <= j < k ==> self.adts@[j].id != id
    }

    /// The declared fields of the given type; none where its declaration is not known.
    pub open spec fn fields_of(self, id: u64) -> Seq<FieldDef> {
        if exists|k: int| self.declares(id, k) {
            self.adts@[choose|k: int| self.declares(id, k)].fields@
        } else {
            Seq::empty()
        }
    }

    /// The declared type parameters of the given type.
    pub open spec fn type_params_of(self, id: u64) -> Seq<TypeParam> {
        if exists|k: int| self.declares(id, k) {
            self.adts@[choose|k: int| self.declares(id, k)].type_params@
        } else {
            Seq::empty()
        }
    }

    pub fn body(&self, body: Option<usize>) -> (r: Option<&Body>)
        ensures
            match r {
                Some(b) => self.body_at(body) == Some(*b),
                None => self.body_at(body) is None,
            },
    {
        match body {
            Some(b) => {
                if b < self.bodies.len() {
                    Some(&self.bodies[b])
                } else {
                    None
                }
            },
            None => None,
        }
    }

    pub fn adt_def(&self, id: u64) -> (r: Option<&AdtDef>)
        ensures
            match r {
                Some(def) => {
                    &&& def.id == id
                    &&& def.fields@ == self.fields_of(id)
                    &&& def.type_params@ == self.type_params_of(id)
                },
                None => {
                    &&& self.fields_of(id).len() == 0
                    &&& self.type_params_of(id).len() == 0
                },
            },
    {
        let mut k: usize = 0;
        while k < self.adts.len()
            invariant
                k <= self.adts.len(),
                forall|j: int| 0 <= j < k ==> self.adts@[j].id != id,
            decreases self.adts.len() - k,
        {
            if self.adts[k].id == id {
                assert(self.declares(id, k as int));
                let ghost c = choose|c: int| self.declares(id, c);
                assert(c == k);
                return Some(&self.adts[k]);
            }
            k += 1;
        }
        None
    }
}

/// The fields and type parameters of a type are those of its first declaration; a type that is
/// not declared has none.
pub proof fn lemma_first_declaration(krate: Crate, id: u64, k: int)
    ensures
        0 <= k < krate.adts@.len() && krate.adts@[k].id == id && (forall|j: int|
            0 <= j < k ==> krate.adts@[j].id != id) ==> krate.fields_of(id)
            == krate.adts@[k].fields@ && krate.type_params_of(id) == krate.adts@[k].type_params@,
        (forall|j: int| 0 <= j < krate.adts@.len() ==> krate.adts@[j].id != id) ==> krate.fields_of(
            id,
        ).len() == 0 && krate.type_params_of(id).len() == 0,
{
    if 0 <= k < krate.adts@.len() && krate.adts@[k].id == id && (forall|j: int|
        0 <= j < k ==> krate.adts@[j].id != id) {
        assert(krate.declares(id, k));
        let c = choose|c: int| krate.declares(id, c);
        assert(c == k);
    }
}

} // verus!
