//! The types that the ownership analysis walks over, and the table of ADT
//! definitions that it consults.
use vstd::prelude::*;

verus! {

/// A type, as far as the analysis looks into it.
///
/// An ADT is named by its definition id and carries its generic arguments.
/// `Param(i)` is the `i`-th generic parameter of the enclosing definition
/// (lifetimes and constants count in that numbering, as they do in rustc).
pub enum Ty {
    Adt(u64, Box<GenericArgs>),
    Array(Box<Ty>),
    Slice(Box<Ty>),
    RawPtr(Box<Ty>),
    Ref(Box<Ty>),
    Tuple(Box<TyList>),
    Param(usize),
    Other,
}

/// One generic argument of an ADT.
pub enum GenericArg {
    Type(Ty),
    Lifetime,
    Const,
}

/// The generic arguments of an ADT, in order.
pub enum GenericArgs {
    Nil,
    Cons(GenericArg, Box<GenericArgs>),
}

/// A list of types: the elements of a tuple, or the fields of a variant.
pub enum TyList {
    Nil,
    Cons(Ty, Box<TyList>),
}

/// What kind of ADT a definition is.
#[derive(Debug, Copy, Clone, PartialEq, Eq, Structural)]
pub enum AdtKind {
    Struct,
    Enum,
    Union,
}

/// An ADT definition: its id, its kind, whether it is `PhantomData`, the
/// number of its generic parameters, and, for each variant, the types of its
/// fields written over its own parameters.
pub struct AdtDef {
    pub did: u64,
    pub kind: AdtKind,
    pub is_phantom_data: bool,
    pub n_generics: usize,
    pub variants: Vec<TyList>,
}

// ---------------------------------------------------------------------------
// Lists

impl GenericArgs {
    pub open spec fn len(self) -> nat
        decreases self,
    {
        match self {
            GenericArgs::Nil => 0,
            GenericArgs::Cons(_, rest) => 1 + rest.len(),
        }
    }

    /// The `i`-th argument, if there is one.
    pub open spec fn get(self, i: int) -> Option<GenericArg>
        decreases self,
    {
        match self {
            GenericArgs::Nil => None,
            GenericArgs::Cons(a, rest) => if i == 0 {
                Some(a)
            } else {
                rest.get(i - 1)
            },
        }
    }
}

impl TyList {
    pub open spec fn len(self) -> nat
        decreases self,
    {
        match self {
            TyList::Nil => 0,
            TyList::Cons(_, rest) => 1 + rest.len(),
        }
    }

    /// The concatenation of two lists.
    pub open spec fn append(self, other: TyList) -> TyList
        decreases self,
    {
        match self {
            TyList::Nil => other,
            TyList::Cons(t, rest) => TyList::Cons(t, Box::new(rest.append(other))),
        }
    }
}

/// All fields of a definition, variant after variant.
pub open spec fn all_fields(variants: Seq<TyList>) -> TyList
    decreases variants.len(),
{
    if variants.len() == 0 {
        TyList::Nil
    } else {
        variants[0].append(all_fields(variants.drop_first()))
    }
}

// ---------------------------------------------------------------------------
// Substitution

/// The type `t` with each parameter `Param(i)` replaced by the `i`-th
/// argument; a parameter that has no type argument becomes `Other`.
pub open spec fn subst(t: Ty, args: GenericArgs) -> Ty
    decreases t,
{
    match t {
        Ty::Adt(d, a) => Ty::Adt(d, Box::new(subst_args(*a, args))),
        Ty::Array(e) => Ty::Array(Box::new(subst(*e, args))),
        Ty::Slice(e) => Ty::Slice(Box::new(subst(*e, args))),
        Ty::RawPtr(e) => Ty::RawPtr(Box::new(subst(*e, args))),
        Ty::Ref(e) => Ty::Ref(Box::new(subst(*e, args))),
        Ty::Tuple(l) => Ty::Tuple(Box::new(subst_list(*l, args))),
        Ty::Param(i) => match args.get(i as int) {
            Some(GenericArg::Type(u)) => u,
            _ => Ty::Other,
        },
        Ty::Other => Ty::Other,
    }
}

pub open spec fn subst_args(a: GenericArgs, args: GenericArgs) -> GenericArgs
    decreases a,
{
    match a {
        GenericArgs::Nil => GenericArgs::Nil,
        GenericArgs::Cons(g, rest) => GenericArgs::Cons(
            match g {
                GenericArg::Type(u) => GenericArg::Type(subst(u, args)),
                GenericArg::Lifetime => GenericArg::Lifetime,
                GenericArg::Const => GenericArg::Const,
            },
            Box::new(subst_args(*rest, args)),
        ),
    }
}

pub open spec fn subst_list(l: TyList, args: GenericArgs) -> TyList
    decreases l,
{
    match l {
        TyList::Nil => TyList::Nil,
        TyList::Cons(t, rest) => TyList::Cons(subst(t, args), Box::new(subst_list(*rest, args))),
    }
}

// ---------------------------------------------------------------------------
// Copies

/// A copy of a type.
pub fn copy_ty(t: &Ty) -> (r: Ty)
    ensures
        r == *t,
    decreases t,
{
    match t {
        Ty::Adt(d, a) => Ty::Adt(*d, Box::new(copy_args(a))),
        Ty::Array(e) => Ty::Array(Box::new(copy_ty(e))),
        Ty::Slice(e) => Ty::Slice(Box::new(copy_ty(e))),
        Ty::RawPtr(e) => Ty::RawPtr(Box::new(copy_ty(e))),
        Ty::Ref(e) => Ty::Ref(Box::new(copy_ty(e))),
        Ty::Tuple(l) => Ty::Tuple(Box::new(copy_list(l))),
        Ty::Param(i) => Ty::Param(*i),
        Ty::Other => Ty::Other,
    }
}

/// A copy of a list of generic arguments.
pub fn copy_args(a: &GenericArgs) -> (r: GenericArgs)
    ensures
        r == *a,
    decreases a,
{
    match a {
        GenericArgs::Nil => GenericArgs::Nil,
        GenericArgs::Cons(g, rest) => {
            let g2 = match g {
                GenericArg::Type(u) => GenericArg::Type(copy_ty(u)),
                GenericArg::Lifetime => GenericArg::Lifetime,
                GenericArg::Const => GenericArg::Const,
            };
            GenericArgs::Cons(g2, Box::new(copy_args(rest)))
        },
    }
}

/// A copy of a list of types.
pub fn copy_list(l: &TyList) -> (r: TyList)
    ensures
        r == *l,
    decreases l,
{
    match l {
        TyList::Nil => TyList::Nil,
        TyList::Cons(t, rest) => TyList::Cons(copy_ty(t), Box::new(copy_list(rest))),
    }
}

// ---------------------------------------------------------------------------
// Equality

/// Whether two types are the same.
pub fn ty_eq(a: &Ty, b: &Ty) -> (r: bool)
    ensures
        r == (*a == *b),
    decreases a,
{
    match (a, b) {
        (Ty::Adt(d1, a1), Ty::Adt(d2, a2)) => *d1 == *d2 && args_eq(a1, a2),
        (Ty::Array(e1), Ty::Array(e2)) => ty_eq(e1, e2),
        (Ty::Slice(e1), Ty::Slice(e2)) => ty_eq(e1, e2),
        (Ty::RawPtr(e1), Ty::RawPtr(e2)) => ty_eq(e1, e2),
        (Ty::Ref(e1), Ty::Ref(e2)) => ty_eq(e1, e2),
        (Ty::Tuple(l1), Ty::Tuple(l2)) => list_eq(l1, l2),
        (Ty::Param(i), Ty::Param(j)) => *i == *j,
        (Ty::Other, Ty::Other) => true,
        _ => false,
    }
}

/// Whether two lists of generic arguments are the same.
pub fn args_eq(a: &GenericArgs, b: &GenericArgs) -> (r: bool)
    ensures
        r == (*a == *b),
    decreases a,
{
    match (a, b) {
        (GenericArgs::Nil, GenericArgs::Nil) => true,
        (GenericArgs::Cons(g1, r1), GenericArgs::Cons(g2, r2)) => {
            let head = match (g1, g2) {
                (GenericArg::Type(u1), GenericArg::Type(u2)) => ty_eq(u1, u2),
                (GenericArg::Lifetime, GenericArg::Lifetime) => true,
                (GenericArg::Const, GenericArg::Const) => true,
                _ => false,
            };
            head && args_eq(r1, r2)
        },
        _ => false,
    }
}

/// Whether two lists of types are the same.
pub fn list_eq(a: &TyList, b: &TyList) -> (r: bool)
    ensures
        r == (*a == *b),
    decreases a,
{
    match (a, b) {
        (TyList::Nil, TyList::Nil) => true,
        (TyList::Cons(t1, r1), TyList::Cons(t2, r2)) => ty_eq(t1, t2) && list_eq(r1, r2),
        _ => false,
    }
}

// ---------------------------------------------------------------------------
// Substitution, executable

/// The `i`-th generic argument.
pub fn args_get(a: &GenericArgs, i: usize) -> (r: Option<&GenericArg>)
    ensures
        match r {
            Some(g) => a.get(i as int) == Some(*g),
            None => a.get(i as int) is None,
        },
    decreases a,
{
    match a {
        GenericArgs::Nil => None,
        GenericArgs::Cons(g, rest) => if i == 0 {
            Some(g)
        } else {
            args_get(rest, i - 1)
        },
    }
}

/// The number of generic arguments.
pub fn args_len(a: &GenericArgs) -> (r: usize)
    requires
        a.len() <= usize::MAX,
    ensures
        r == a.len(),
    decreases a,
{
    match a {
        GenericArgs::Nil => 0,
        GenericArgs::Cons(_, rest) => 1 + args_len(rest),
    }
}

/// Substitutes the arguments `args` for the parameters of `t`.
pub fn subst_ty(t: &Ty, args: &GenericArgs) -> (r: Ty)
    ensures
        r == subst(*t, *args),
    decreases t,
{
    match t {
        Ty::Adt(d, a) => Ty::Adt(*d, Box::new(subst_ty_args(a, args))),
        Ty::Array(e) => Ty::Array(Box::new(subst_ty(e, args))),
        Ty::Slice(e) => Ty::Slice(Box::new(subst_ty(e, args))),
        Ty::RawPtr(e) => Ty::RawPtr(Box::new(subst_ty(e, args))),
        Ty::Ref(e) => Ty::Ref(Box::new(subst_ty(e, args))),
        Ty::Tuple(l) => Ty::Tuple(Box::new(subst_ty_list(l, args))),
        Ty::Param(i) => match args_get(args, *i) {
            Some(GenericArg::Type(u)) => copy_ty(u),
            _ => Ty::Other,
        },
        Ty::Other => Ty::Other,
    }
}

/// Substitutes `args` in every argument of `a`.
pub fn subst_ty_args(a: &GenericArgs, args: &GenericArgs) -> (r: GenericArgs)
    ensures
        r == subst_args(*a, *args),
    decreases a,
{
    match a {
        GenericArgs::Nil => GenericArgs::Nil,
        GenericArgs::Cons(g, rest) => {
            let g2 = match g {
                GenericArg::Type(u) => GenericArg::Type(subst_ty(u, args)),
                GenericArg::Lifetime => GenericArg::Lifetime,
                GenericArg::Const => GenericArg::Const,
            };
            GenericArgs::Cons(g2, Box::new(subst_ty_args(rest, args)))
        },
    }
}

/// Substitutes `args` in every type of `l`.
pub fn subst_ty_list(l: &TyList, args: &GenericArgs) -> (r: TyList)
    ensures
        r == subst_list(*l, *args),
    decreases l,
{
    match l {
        TyList::Nil => TyList::Nil,
        TyList::Cons(t, rest) => TyList::Cons(subst_ty(t, args), Box::new(subst_ty_list(rest, args))),
    }
}


// ---------------------------------------------------------------------------
// The table of definitions

/// The ids of all definitions in a table.
pub open spec fn table_dids(defs: Seq<AdtDef>) -> Set<u64> {
    Set::new(|d: u64| exists|i: int| 0 <= i < defs.len() && defs[i].did == d)
}

/// No two definitions of the table share an id.
pub open spec fn dids_unique(defs: Seq<AdtDef>) -> bool {
    forall|i: int, j: int|
        #![trigger defs[i], defs[j]]
        0 <= i < defs.len() && 0 <= j < defs.len() && defs[i].did == defs[j].did ==> i == j
}

/// The position of the definition with id `did`.
pub open spec fn def_index(defs: Seq<AdtDef>, did: u64) -> int {
    choose|i: int| 0 <= i < defs.len() && defs[i].did == did
}

/// The definition with id `did`.
pub open spec fn def_of(defs: Seq<AdtDef>, did: u64) -> AdtDef {
    defs[def_index(defs, did)]
}

/// Every ADT id in `t` is in `dids`, and every parameter of `t` is below `n`.
pub open spec fn ty_ok(t: Ty, dids: Set<u64>, n: nat) -> bool
    decreases t,
{
    match t {
        Ty::Adt(d, a) => dids.contains(d) && args_ok(*a, dids, n),
        Ty::Array(e) => ty_ok(*e, dids, n),
        Ty::Slice(e) => ty_ok(*e, dids, n),
        Ty::RawPtr(e) => ty_ok(*e, dids, n),
        Ty::Ref(e) => ty_ok(*e, dids, n),
        Ty::Tuple(l) => list_ok(*l, dids, n),
        Ty::Param(i) => i < n,
        Ty::Other => true,
    }
}

pub open spec fn args_ok(a: GenericArgs, dids: Set<u64>, n: nat) -> bool
    decreases a,
{
    match a {
        GenericArgs::Nil => true,
        GenericArgs::Cons(g, rest) => (match g {
            GenericArg::Type(u) => ty_ok(u, dids, n),
            _ => true,
        }) && args_ok(*rest, dids, n),
    }
}

pub open spec fn list_ok(l: TyList, dids: Set<u64>, n: nat) -> bool
    decreases l,
{
    match l {
        TyList::Nil => true,
        TyList::Cons(t, rest) => ty_ok(t, dids, n) && list_ok(*rest, dids, n),
    }
}

/// The ids of the table are unique, and structs and unions have exactly
/// one variant.
pub open spec fn defs_basic_ok(defs: Seq<AdtDef>) -> bool {
    &&& dids_unique(defs)
    &&& forall|i: int|
        0 <= i < defs.len() && (#[trigger] defs[i]).kind != AdtKind::Enum ==> defs[i].variants@.len() == 1
}

/// `s` is a set of ids of the table, and the fields of each definition in
/// `s` name only ADTs of `s` and only the definition's own parameters.
pub open spec fn closed_over(defs: Seq<AdtDef>, s: Set<u64>) -> bool {
    &&& s.subset_of(table_dids(defs))
    &&& forall|i: int, v: int|
        0 <= i < defs.len() && s.contains(defs[i].did) && 0 <= v < defs[i].variants@.len() ==> list_ok(
            #[trigger] defs[i].variants@[v],
            s,
            defs[i].n_generics as nat,
        )
}

/// A table is well formed when its ids are unique, structs and unions have
/// one variant, and the fields of each definition name only ADTs of the
/// table and only its own parameters.
pub open spec fn table_ok(defs: Seq<AdtDef>) -> bool {
    defs_basic_ok(defs) && closed_over(defs, table_dids(defs))
}

/// Raising the parameter bound keeps a type well formed.
pub proof fn lemma_ty_ok_weaken(t: Ty, dids: Set<u64>, n: nat, m: nat)
    requires
        ty_ok(t, dids, n),
        n <= m,
    ensures
        ty_ok(t, dids, m),
    decreases t,
{
    match t {
        Ty::Adt(_, a) => lemma_args_ok_weaken(*a, dids, n, m),
        Ty::Array(e) => lemma_ty_ok_weaken(*e, dids, n, m),
        Ty::Slice(e) => lemma_ty_ok_weaken(*e, dids, n, m),
        Ty::RawPtr(e) => lemma_ty_ok_weaken(*e, dids, n, m),
        Ty::Ref(e) => lemma_ty_ok_weaken(*e, dids, n, m),
        Ty::Tuple(l) => lemma_list_ok_weaken(*l, dids, n, m),
        _ => {},
    }
}

pub proof fn lemma_args_ok_weaken(a: GenericArgs, dids: Set<u64>, n: nat, m: nat)
    requires
        args_ok(a, dids, n),
        n <= m,
    ensures
        args_ok(a, dids, m),
    decreases a,
{
    match a {
        GenericArgs::Nil => {},
        GenericArgs::Cons(g, rest) => {
            match g {
                GenericArg::Type(u) => lemma_ty_ok_weaken(u, dids, n, m),
                _ => {},
            }
            lemma_args_ok_weaken(*rest, dids, n, m);
        },
    }
}

pub proof fn lemma_list_ok_weaken(l: TyList, dids: Set<u64>, n: nat, m: nat)
    requires
        list_ok(l, dids, n),
        n <= m,
    ensures
        list_ok(l, dids, m),
    decreases l,
{
    match l {
        TyList::Nil => {},
        TyList::Cons(t, rest) => {
            lemma_ty_ok_weaken(t, dids, n, m);
            lemma_list_ok_weaken(*rest, dids, n, m);
        },
    }
}

/// Finds the definition with id `did`.
pub fn find_def(defs: &Vec<AdtDef>, did: u64) -> (r: Option<usize>)
    requires
        dids_unique(defs@),
    ensures
        match r {
            Some(i) => i < defs@.len() && defs@[i as int].did == did && i == def_index(defs@, did),
            None => !table_dids(defs@).contains(did),
        },
{
    let mut i: usize = 0;
    while i < defs.len()
        invariant
            i <= defs@.len(),
            dids_unique(defs@),
            forall|j: int| 0 <= j < i ==> defs@[j].did != did,
        decreases defs@.len() - i,
    {
        if defs[i].did == did {
            proof {
                let k = def_index(defs@, did);
                assert(0 <= k < defs@.len() && defs@[k].did == did);
                assert(defs@[k].did == defs@[i as int].did);
            }
            return Some(i);
        }
        i = i + 1;
    }
    None
}

// ---------------------------------------------------------------------------
// Lemmas on substitution

/// Substituting well-formed arguments gives a well-formed type.
pub proof fn lemma_subst_ok(t: Ty, args: GenericArgs, dids: Set<u64>, m: nat, n: nat)
    requires
        ty_ok(t, dids, m),
        args_ok(args, dids, n),
    ensures
        ty_ok(subst(t, args), dids, n),
    decreases t,
{
    match t {
        Ty::Adt(d, a) => lemma_subst_args_ok(*a, args, dids, m, n),
        Ty::Array(e) => lemma_subst_ok(*e, args, dids, m, n),
        Ty::Slice(e) => lemma_subst_ok(*e, args, dids, m, n),
        Ty::RawPtr(e) => lemma_subst_ok(*e, args, dids, m, n),
        Ty::Ref(e) => lemma_subst_ok(*e, args, dids, m, n),
        Ty::Tuple(l) => lemma_subst_list_ok(*l, args, dids, m, n),
        Ty::Param(i) => lemma_get_ok(args, i as int, dids, n),
        Ty::Other => {},
    }
}

pub proof fn lemma_subst_args_ok(a: GenericArgs, args: GenericArgs, dids: Set<u64>, m: nat, n: nat)
    requires
        args_ok(a, dids, m),
        args_ok(args, dids, n),
    ensures
        args_ok(subst_args(a, args), dids, n),
    decreases a,
{
    match a {
        GenericArgs::Nil => {},
        GenericArgs::Cons(g, rest) => {
            match g {
                GenericArg::Type(u) => lemma_subst_ok(u, args, dids, m, n),
                _ => {},
            }
            lemma_subst_args_ok(*rest, args, dids, m, n);
        },
    }
}

pub proof fn lemma_subst_list_ok(l: TyList, args: GenericArgs, dids: Set<u64>, m: nat, n: nat)
    requires
        list_ok(l, dids, m),
        args_ok(args, dids, n),
    ensures
        list_ok(subst_list(l, args), dids, n),
    decreases l,
{
    match l {
        TyList::Nil => {},
        TyList::Cons(t, rest) => {
            lemma_subst_ok(t, args, dids, m, n);
            lemma_subst_list_ok(*rest, args, dids, m, n);
        },
    }
}

/// Each type argument of a well-formed list is well formed.
pub proof fn lemma_get_ok(args: GenericArgs, i: int, dids: Set<u64>, n: nat)
    requires
        args_ok(args, dids, n),
    ensures
        match args.get(i) {
            Some(GenericArg::Type(u)) => ty_ok(u, dids, n),
            _ => true,
        },
    decreases args,
{
    match args {
        GenericArgs::Nil => {},
        GenericArgs::Cons(g, rest) => if i != 0 {
            lemma_get_ok(*rest, i - 1, dids, n);
        },
    }
}


// ---------------------------------------------------------------------------
// Checking well-formedness

/// Whether `d` is among `ids`.
pub fn ids_contain(ids: &Vec<u64>, d: u64) -> (r: bool)
    ensures
        r == ids@.to_set().contains(d),
{
    let mut i: usize = 0;
    while i < ids.len()
        invariant
            i <= ids@.len(),
            forall|j: int| 0 <= j < i ==> ids@[j] != d,
        decreases ids@.len() - i,
    {
        if ids[i] == d {
            assert(ids@.contains(d));
            return true;
        }
        i = i + 1;
    }
    assert(!ids@.contains(d));
    false
}

/// Whether `ty_ok(t, ids, n)` holds.
pub fn ty_within(t: &Ty, ids: &Vec<u64>, n: u128) -> (r: bool)
    ensures
        r == ty_ok(*t, ids@.to_set(), n as nat),
    decreases t,
{
    match t {
        Ty::Adt(d, a) => ids_contain(ids, *d) && args_within(a, ids, n),
        Ty::Array(e) => ty_within(e, ids, n),
        Ty::Slice(e) => ty_within(e, ids, n),
        Ty::RawPtr(e) => ty_within(e, ids, n),
        Ty::Ref(e) => ty_within(e, ids, n),
        Ty::Tuple(l) => list_within(l, ids, n),
        Ty::Param(i) => (*i as u128) < n,
        Ty::Other => true,
    }
}

/// Whether `args_ok(a, ids, n)` holds.
pub fn args_within(a: &GenericArgs, ids: &Vec<u64>, n: u128) -> (r: bool)
    ensures
        r == args_ok(*a, ids@.to_set(), n as nat),
    decreases a,
{
    match a {
        GenericArgs::Nil => true,
        GenericArgs::Cons(g, rest) => {
            let here = match g {
                GenericArg::Type(u) => ty_within(u, ids, n),
                _ => true,
            };
            here && args_within(rest, ids, n)
        },
    }
}

/// Whether `list_ok(l, ids, n)` holds.
pub fn list_within(l: &TyList, ids: &Vec<u64>, n: u128) -> (r: bool)
    ensures
        r == list_ok(*l, ids@.to_set(), n as nat),
    decreases l,
{
    match l {
        TyList::Nil => true,
        TyList::Cons(t, rest) => ty_within(t, ids, n) && list_within(rest, ids, n),
    }
}

/// The ids of the table, in order.
pub fn table_ids(defs: &Vec<AdtDef>) -> (r: Vec<u64>)
    ensures
        r@.to_set() == table_dids(defs@),
        r@.len() == defs@.len(),
        forall|i: int| 0 <= i < defs@.len() ==> r@[i] == #[trigger] defs@[i].did,
{
    let mut r: Vec<u64> = Vec::new();
    let mut i: usize = 0;
    while i < defs.len()
        invariant
            i <= defs@.len(),
            r@.len() == i,
            forall|j: int| 0 <= j < i ==> r@[j] == #[trigger] defs@[j].did,
        decreases defs@.len() - i,
    {
        r.push(defs[i].did);
        i = i + 1;
    }
    assert forall|d: u64| r@.to_set().contains(d) == table_dids(defs@).contains(d) by {
        if r@.to_set().contains(d) {
            let j = choose|j: int| 0 <= j < r@.len() && r@[j] == d;
            assert(defs@[j].did == d);
        }
        if table_dids(defs@).contains(d) {
            let j = choose|j: int| 0 <= j < defs@.len() && defs@[j].did == d;
            assert(r@[j] == d);
            assert(r@.contains(d));
        }
    }
    assert(r@.to_set() =~= table_dids(defs@));
    r
}

/// Whether `defs_basic_ok(defs)` holds.
pub fn defs_basic_check(defs: &Vec<AdtDef>) -> (r: bool)
    ensures
        r == defs_basic_ok(defs@),
{
    let mut i: usize = 0;
    while i < defs.len()
        invariant
            i <= defs@.len(),
            forall|a: int, b: int|
                #![trigger defs@[a], defs@[b]]
                0 <= a < i && 0 <= b < defs@.len() && defs@[a].did == defs@[b].did ==> a == b,
            forall|a: int|
                0 <= a < i && (#[trigger] defs@[a]).kind != AdtKind::Enum ==> defs@[a].variants@.len() == 1,
        decreases defs@.len() - i,
    {
        if defs[i].kind != AdtKind::Enum && defs[i].variants.len() != 1 {
            assert(!defs_basic_ok(defs@));
            return false;
        }
        let mut j: usize = 0;
        while j < defs.len()
            invariant
                i < defs@.len(),
                j <= defs@.len(),
                forall|b: int| 0 <= b < j && b != i ==> defs@[b].did != defs@[i as int].did,
            decreases defs@.len() - j,
        {
            if j != i && defs[j].did == defs[i].did {
                assert(!dids_unique(defs@)) by {
                    assert(defs@[i as int].did == defs@[j as int].did);
                }
                return false;
            }
            j = j + 1;
        }
        i = i + 1;
    }
    true
}

/// Whether `closed_over(defs, ids)` holds.
pub fn closed_over_check(defs: &Vec<AdtDef>, ids: &Vec<u64>) -> (r: bool)
    ensures
        r == closed_over(defs@, ids@.to_set()),
{
    let table = table_ids(defs);
    let mut k: usize = 0;
    while k < ids.len()
        invariant
            k <= ids@.len(),
            table@.to_set() == table_dids(defs@),
            forall|j: int| 0 <= j < k ==> table_dids(defs@).contains(#[trigger] ids@[j]),
        decreases ids@.len() - k,
    {
        if !ids_contain(&table, ids[k]) {
            assert(!ids@.to_set().subset_of(table_dids(defs@))) by {
                assert(ids@.to_set().contains(ids@[k as int]));
            }
            return false;
        }
        k = k + 1;
    }
    assert(ids@.to_set().subset_of(table_dids(defs@))) by {
        assert forall|d: u64| ids@.to_set().contains(d) implies table_dids(defs@).contains(d) by {
            let j = choose|j: int| 0 <= j < ids@.len() && ids@[j] == d;
        }
    }
    let ghost s = ids@.to_set();
    let mut i: usize = 0;
    while i < defs.len()
        invariant
            i <= defs@.len(),
            s == ids@.to_set(),
            forall|a: int, v: int|
                0 <= a < i && s.contains(defs@[a].did) && 0 <= v < defs@[a].variants@.len() ==> list_ok(
                    #[trigger] defs@[a].variants@[v],
                    s,
                    defs@[a].n_generics as nat,
                ),
        decreases defs@.len() - i,
    {
        if ids_contain(ids, defs[i].did) {
            let mut v: usize = 0;
            while v < defs[i].variants.len()
                invariant
                    i < defs@.len(),
                    s == ids@.to_set(),
                    s.contains(defs@[i as int].did),
                    v <= defs@[i as int].variants@.len(),
                    forall|w: int|
                        0 <= w < v ==> list_ok(
                            #[trigger] defs@[i as int].variants@[w],
                            s,
                            defs@[i as int].n_generics as nat,
                        ),
                decreases defs@[i as int].variants@.len() - v,
            {
                if !list_within(&defs[i].variants[v], ids, defs[i].n_generics as u128) {
                    assert(!closed_over(defs@, s)) by {
                        assert(s.contains(defs@[i as int].did));
                        assert(!list_ok(defs@[i as int].variants@[v as int], s, defs@[i as int].n_generics as nat));
                    }
                    return false;
                }
                v = v + 1;
            }
        }
        i = i + 1;
    }
    true
}

/// Whether `table_ok(defs)` holds.
pub fn table_check(defs: &Vec<AdtDef>) -> (r: bool)
    ensures
        r == table_ok(defs@),
{
    if !defs_basic_check(defs) {
        return false;
    }
    let table = table_ids(defs);
    closed_over_check(defs, &table)
}

} // verus!
