//! The ADT ownership analysis.
//!
//! For every ADT definition it computes, per variant, whether the variant
//! directly owns a heap allocation, and for each generic parameter whether
//! the parameter is held "raw" (as a whole field, or inside tuples and
//! arrays) rather than behind a pointer.
use vstd::prelude::*;

use std::collections::HashMap;
use std::collections::HashSet;
use vstd::std_specs::iter::IteratorSpec;

use crate::analysis::type_analysis::ownership::RawTypeOwner;
use crate::ty::{
    all_fields, def_index, def_of, dids_unique, find_def, list_ok, subst, subst_args, subst_list,
    subst_ty, subst_ty_list, table_dids, table_ok, ty_ok, args_ok, AdtDef, AdtKind, GenericArg,
    GenericArgs, Ty, TyList, args_len, ty_eq, defs_basic_ok, closed_over, lemma_subst_list_ok, lemma_get_ok, copy_ty, lemma_list_ok_weaken,
    closed_over_check, table_ids, ty_within,
};

pub mod closure;
pub mod init;
pub mod monotone;
pub mod ownership;

verus! {

broadcast use vstd::std_specs::hash::group_hash_axioms;

/// The result of the analysis for each ADT: one entry per variant, the
/// ownership of the variant and the raw-parameter flags.
pub type AdtOwner = HashMap<u64, Vec<(RawTypeOwner, Vec<bool>)>>;

/// The mathematical content of one variant's entry.
pub type VariantView = (RawTypeOwner, Seq<bool>);

/// The mathematical content of an `AdtOwner`.
pub open spec fn owner_view(m: &AdtOwner) -> Map<u64, Seq<VariantView>> {
    m@.map_values(
        |v: Vec<(RawTypeOwner, Vec<bool>)>|
            v@.map_values(|p: (RawTypeOwner, Vec<bool>)| (p.0, p.1@)),
    )
}

/// The mathematical content of one entry vector.
pub open spec fn entry_view(v: Vec<(RawTypeOwner, Vec<bool>)>) -> Seq<VariantView> {
    v@.map_values(|p: (RawTypeOwner, Vec<bool>)| (p.0, p.1@))
}

// ---------------------------------------------------------------------------
// Raw parameters

/// Parameter `i` is held raw in `t`: `t` is that parameter, or a tuple or an
/// array that holds it raw.
pub open spec fn raw_param(t: Ty, i: int) -> bool
    decreases t,
{
    match t {
        Ty::Array(e) => raw_param(*e, i),
        Ty::Tuple(l) => raw_param_list(*l, i),
        Ty::Param(j) => j == i,
        _ => false,
    }
}

/// Parameter `i` is held raw in some type of `l`.
pub open spec fn raw_param_list(l: TyList, i: int) -> bool
    decreases l,
{
    match l {
        TyList::Nil => false,
        TyList::Cons(t, rest) => raw_param(t, i) || raw_param_list(*rest, i),
    }
}

/// Every parameter that `t` holds raw is below `n`.
pub open spec fn raw_params_below(t: Ty, n: nat) -> bool
    decreases t,
{
    match t {
        Ty::Array(e) => raw_params_below(*e, n),
        Ty::Tuple(l) => raw_params_below_list(*l, n),
        Ty::Param(j) => j < n,
        _ => true,
    }
}

/// Every parameter that a type of `l` holds raw is below `n`.
pub open spec fn raw_params_below_list(l: TyList, n: nat) -> bool
    decreases l,
{
    match l {
        TyList::Nil => true,
        TyList::Cons(t, rest) => raw_params_below(t, n) && raw_params_below_list(*rest, n),
    }
}

/// Collects the generic parameters of a definition that its fields hold raw.
pub struct RawGeneric {
    record: Vec<bool>,
}

impl RawGeneric {
    /// The flags collected so far, one per generic parameter.
    pub closed spec fn record_view(&self) -> Seq<bool> {
        self.record@
    }

    /// A collector for a definition with `len` generic parameters.
    pub fn new(len: usize) -> (r: Self)
        ensures
            r.record_view() == Seq::new(len as nat, |i: int| false),
    {
        let mut record: Vec<bool> = Vec::new();
        let mut i: usize = 0;
        while i < len
            invariant
                i <= len,
                record@ == Seq::new(i as nat, |j: int| false),
            decreases len - i,
        {
            record.push(false);
            i = i + 1;
        }
        RawGeneric { record }
    }

    /// The flags collected so far.
    pub fn record(&self) -> (r: &Vec<bool>)
        ensures
            r@ == self.record_view(),
    {
        &self.record
    }

    /// Records the parameters that `t` holds raw.
    pub fn visit_ty(&mut self, t: &Ty)
        requires
            raw_params_below(*t, old(self).record_view().len()),
        ensures
            final(self).record_view() == Seq::new(
                old(self).record_view().len(),
                |i: int| old(self).record_view()[i] || raw_param(*t, i),
            ),
        decreases t,
    {
        match t {
            Ty::Array(e) => self.visit_ty(e),
            Ty::Tuple(l) => self.visit_list(l),
            Ty::Param(j) => {
                self.record.set(*j, true);
            },
            _ => {},
        }
        assert(self.record@ =~= Seq::new(
            old(self).record@.len(),
            |i: int| old(self).record@[i] || raw_param(*t, i),
        ));
    }

    /// Records the parameters that the types of `l` hold raw.
    pub fn visit_list(&mut self, l: &TyList)
        requires
            raw_params_below_list(*l, old(self).record_view().len()),
        ensures
            final(self).record_view() == Seq::new(
                old(self).record_view().len(),
                |i: int| old(self).record_view()[i] || raw_param_list(*l, i),
            ),
        decreases l,
    {
        match l {
            TyList::Nil => {},
            TyList::Cons(t, rest) => {
                self.visit_ty(t);
                self.visit_list(rest);
            },
        }
        assert(self.record@ =~= Seq::new(
            old(self).record@.len(),
            |i: int| old(self).record@[i] || raw_param_list(*l, i),
        ));
    }
}

// ---------------------------------------------------------------------------
// Parameters of a generic argument

/// Parameter `i` occurs in `t` through tuples, arrays and ADT arguments.
pub open spec fn field_param(t: Ty, i: int) -> bool
    decreases t,
{
    match t {
        Ty::Adt(_, a) => field_param_args(*a, i),
        Ty::Array(e) => field_param(*e, i),
        Ty::Tuple(l) => field_param_list(*l, i),
        Ty::Param(j) => j == i,
        _ => false,
    }
}

pub open spec fn field_param_args(a: GenericArgs, i: int) -> bool
    decreases a,
{
    match a {
        GenericArgs::Nil => false,
        GenericArgs::Cons(g, rest) => (match g {
            GenericArg::Type(u) => field_param(u, i),
            _ => false,
        }) || field_param_args(*rest, i),
    }
}

pub open spec fn field_param_list(l: TyList, i: int) -> bool
    decreases l,
{
    match l {
        TyList::Nil => false,
        TyList::Cons(t, rest) => field_param(t, i) || field_param_list(*rest, i),
    }
}

/// Collects the generic parameters that occur in a type argument.
pub struct RawGenericFieldSubst {
    parameters: Vec<usize>,
}

impl RawGenericFieldSubst {
    /// The parameters collected so far.
    pub closed spec fn params_view(&self) -> Set<usize> {
        self.parameters@.to_set()
    }

    /// An empty collector.
    pub fn new() -> (r: Self)
        ensures
            r.params_view() == Set::<usize>::empty(),
    {
        let r = RawGenericFieldSubst { parameters: Vec::new() };
        assert(r.params_view() =~= Set::<usize>::empty());
        r
    }

    /// The parameters collected so far.
    pub fn parameters(&self) -> (r: &Vec<usize>)
        ensures
            r@.to_set() == self.params_view(),
    {
        &self.parameters
    }

    /// Whether some parameter has been collected.
    pub fn contains_param(&self) -> (r: bool)
        ensures
            r == (self.params_view() != Set::<usize>::empty()),
    {
        if self.parameters.len() == 0 {
            assert(self.params_view() =~= Set::<usize>::empty());
            false
        } else {
            assert(self.params_view().contains(self.parameters@[0]));
            true
        }
    }

    fn insert(&mut self, p: usize)
        ensures
            final(self).params_view() == old(self).params_view().insert(p),
    {
        let mut k: usize = 0;
        while k < self.parameters.len()
            invariant
                k <= self.parameters@.len(),
                forall|j: int| 0 <= j < k ==> self.parameters@[j] != p,
            decreases self.parameters@.len() - k,
        {
            if self.parameters[k] == p {
                assert(self.params_view().contains(p));
                assert(self.params_view() =~= old(self).params_view().insert(p));
                return;
            }
            k = k + 1;
        }
        self.parameters.push(p);
        proof {
            old(self).parameters@.lemma_push_to_set_commute(p);
        }
    }

    /// Collects the parameters that occur in `t`.
    pub fn visit_ty(&mut self, t: &Ty)
        ensures
            final(self).params_view() == old(self).params_view().union(Set::new(|i: usize| field_param(*t, i as int))),
        decreases t,
    {
        match t {
            Ty::Adt(_, a) => self.visit_args(a),
            Ty::Array(e) => self.visit_ty(e),
            Ty::Tuple(l) => self.visit_list(l),
            Ty::Param(j) => self.insert(*j),
            _ => {},
        }
        assert(self.params_view() =~= old(self).params_view().union(Set::new(|i: usize| field_param(*t, i as int))));
    }

    /// Collects the parameters that occur in the type arguments of `a`.
    pub fn visit_args(&mut self, a: &GenericArgs)
        ensures
            final(self).params_view() == old(self).params_view().union(Set::new(|i: usize| field_param_args(*a, i as int))),
        decreases a,
    {
        match a {
            GenericArgs::Nil => {},
            GenericArgs::Cons(g, rest) => {
                match g {
                    GenericArg::Type(u) => self.visit_ty(u),
                    _ => {},
                }
                self.visit_args(rest);
            },
        }
        assert(self.params_view() =~= old(self).params_view().union(Set::new(|i: usize| field_param_args(*a, i as int))));
    }

    /// Collects the parameters that occur in the types of `l`.
    pub fn visit_list(&mut self, l: &TyList)
        ensures
            final(self).params_view() == old(self).params_view().union(Set::new(|i: usize| field_param_list(*l, i as int))),
        decreases l,
    {
        match l {
            TyList::Nil => {},
            TyList::Cons(t, rest) => {
                self.visit_ty(t);
                self.visit_list(rest);
            },
        }
        assert(self.params_view() =~= old(self).params_view().union(Set::new(|i: usize| field_param_list(*l, i as int))));
    }
}


// ---------------------------------------------------------------------------
// Termination measure of the propagations

/// The number of table entries whose id is not in `u`.
pub open spec fn unvisited(defs: Seq<AdtDef>, u: Set<u64>) -> nat
    decreases defs.len(),
{
    if defs.len() == 0 {
        0
    } else {
        unvisited(defs.drop_last(), u) + if u.contains(defs.last().did) {
            0nat
        } else {
            1nat
        }
    }
}

/// Visiting more ids leaves fewer entries unvisited.
pub proof fn lemma_unvisited_mono(defs: Seq<AdtDef>, u1: Set<u64>, u2: Set<u64>)
    requires
        u1.subset_of(u2),
    ensures
        unvisited(defs, u2) <= unvisited(defs, u1),
    decreases defs.len(),
{
    if defs.len() > 0 {
        lemma_unvisited_mono(defs.drop_last(), u1, u2);
    }
}

/// Visiting a new id of the table leaves strictly fewer entries unvisited.
pub proof fn lemma_unvisited_insert(defs: Seq<AdtDef>, u: Set<u64>, d: u64)
    requires
        !u.contains(d),
        table_dids(defs).contains(d),
    ensures
        unvisited(defs, u.insert(d)) < unvisited(defs, u),
    decreases defs.len(),
{
    let i = choose|i: int| 0 <= i < defs.len() && defs[i].did == d;
    if defs.last().did == d {
        lemma_unvisited_mono(defs.drop_last(), u, u.insert(d));
    } else {
        assert(i < defs.len() - 1);
        assert(defs.drop_last()[i].did == d);
        assert(table_dids(defs.drop_last()).contains(d));
        lemma_unvisited_insert(defs.drop_last(), u, d);
    }
}

/// Every parameter that occurs in a well-formed type is below its bound.
pub proof fn lemma_field_param_bound(t: Ty, dids: Set<u64>, n: nat, e: int)
    requires
        ty_ok(t, dids, n),
        field_param(t, e),
    ensures
        0 <= e < n,
    decreases t,
{
    match t {
        Ty::Adt(_, a) => lemma_field_param_bound_args(*a, dids, n, e),
        Ty::Array(x) => lemma_field_param_bound(*x, dids, n, e),
        Ty::Tuple(l) => lemma_field_param_bound_list(*l, dids, n, e),
        _ => {},
    }
}

pub proof fn lemma_field_param_bound_args(a: GenericArgs, dids: Set<u64>, n: nat, e: int)
    requires
        args_ok(a, dids, n),
        field_param_args(a, e),
    ensures
        0 <= e < n,
    decreases a,
{
    match a {
        GenericArgs::Nil => {},
        GenericArgs::Cons(g, rest) => {
            match g {
                GenericArg::Type(u) => if field_param(u, e) {
                    lemma_field_param_bound(u, dids, n, e);
                } else {
                    lemma_field_param_bound_args(*rest, dids, n, e);
                },
                _ => lemma_field_param_bound_args(*rest, dids, n, e),
            }
        },
    }
}

pub proof fn lemma_field_param_bound_list(l: TyList, dids: Set<u64>, n: nat, e: int)
    requires
        list_ok(l, dids, n),
        field_param_list(l, e),
    ensures
        0 <= e < n,
    decreases l,
{
    match l {
        TyList::Nil => {},
        TyList::Cons(t, rest) => if field_param(t, e) {
            lemma_field_param_bound(t, dids, n, e);
        } else {
            lemma_field_param_bound_list(*rest, dids, n, e);
        },
    }
}

// ---------------------------------------------------------------------------
// Propagation of raw parameters through ADT fields

/// Parameter `e` occurs in the `k`-th argument of `a`, which is a type.
pub open spec fn arg_field_param(a: GenericArgs, k: int, e: int) -> bool {
    0 <= k && match a.get(k) {
        Some(GenericArg::Type(u)) => field_param(u, e),
        _ => false,
    }
}

/// Some type argument of `a` holds a parameter.
pub open spec fn has_param_arg(a: GenericArgs) -> bool {
    exists|k: int, e: int| arg_field_param(a, k, e)
}

/// The flags `rec` after marking every parameter that occurs in a type
/// argument of `a` whose position is flagged in `flags`.
pub open spec fn propagated(rec: Seq<bool>, flags: Seq<bool>, a: GenericArgs) -> Seq<bool> {
    Seq::new(
        rec.len(),
        |e: int| rec[e] || exists|k: int| 0 <= k < flags.len() && flags[k] && arg_field_param(a, k, e),
    )
}

/// What visiting `t` does to the flags and the set of ADTs being visited,
/// and whether the visit breaks off.
///
/// An ADT without arguments, or an enum reached from a struct, breaks off.
/// An ADT already being visited is skipped. Otherwise the ADT is marked as
/// being visited; if none of its type arguments holds a parameter, or it has
/// no entry, the visit breaks off there (leaving the ADT marked). Else the
/// parameters of the arguments in the raw positions of its first variant are
/// flagged, its fields are visited with the arguments substituted, the mark
/// is removed, and its arguments are visited in turn until one breaks off.
/// Arrays visit their element, tuples their elements until one breaks off.
pub open spec fn gp_ty(
    defs: Seq<AdtDef>,
    owner: Map<u64, Seq<VariantView>>,
    src_enum: bool,
    t: Ty,
    rec: Seq<bool>,
    uniq: Set<u64>,
) -> (Seq<bool>, Set<u64>, bool)
    decreases unvisited(defs, uniq), 0nat, t,
{
    match t {
        Ty::Adt(did, a) => {
            if a.len() == 0 {
                (rec, uniq, true)
            } else if !table_dids(defs).contains(did) {
                (rec, uniq, true)
            } else if !src_enum && def_of(defs, did).kind == AdtKind::Enum {
                (rec, uniq, true)
            } else if uniq.contains(did) {
                (rec, uniq, false)
            } else {
                let u1 = uniq.insert(did);
                if !has_param_arg(*a) {
                    (rec, u1, true)
                } else if !owner.contains_key(did) || owner[did].len() == 0 {
                    (rec, u1, true)
                } else {
                    let rec1 = propagated(rec, owner[did][0].1, *a);
                    proof {
                        lemma_unvisited_insert(defs, uniq, did);
                    }
                    let (rec2, u2) = gp_variants(
                        defs,
                        owner,
                        src_enum,
                        def_of(defs, did).variants@,
                        *a,
                        rec1,
                        u1,
                    );
                    if u1.subset_of(u2) {
                        let u3 = u2.remove(did);
                        proof {
                            assert(uniq.subset_of(u3));
                            lemma_unvisited_mono(defs, uniq, u3);
                        }
                        gp_args(defs, owner, src_enum, *a, rec2, u3)
                    } else {
                        (rec, uniq, false)
                    }
                }
            }
        },
        Ty::Array(e) => gp_ty(defs, owner, src_enum, *e, rec, uniq),
        Ty::Tuple(l) => gp_tuple(defs, owner, src_enum, *l, rec, uniq),
        _ => (rec, uniq, false),
    }
}

/// Visits the fields of the variants `vs`, with `a` substituted, in order.
pub open spec fn gp_variants(
    defs: Seq<AdtDef>,
    owner: Map<u64, Seq<VariantView>>,
    src_enum: bool,
    vs: Seq<TyList>,
    a: GenericArgs,
    rec: Seq<bool>,
    uniq: Set<u64>,
) -> (Seq<bool>, Set<u64>)
    decreases unvisited(defs, uniq), 1nat, vs,
{
    if vs.len() == 0 {
        (rec, uniq)
    } else {
        let (r1, u1) = gp_fields(defs, owner, src_enum, subst_list(vs[0], a), rec, uniq);
        if uniq.subset_of(u1) {
            proof {
                lemma_unvisited_mono(defs, uniq, u1);
            }
            gp_variants(defs, owner, src_enum, vs.drop_first(), a, r1, u1)
        } else {
            (rec, uniq)
        }
    }
}

/// Visits the types of `l` in order, whatever each visit returns.
pub open spec fn gp_fields(
    defs: Seq<AdtDef>,
    owner: Map<u64, Seq<VariantView>>,
    src_enum: bool,
    l: TyList,
    rec: Seq<bool>,
    uniq: Set<u64>,
) -> (Seq<bool>, Set<u64>)
    decreases unvisited(defs, uniq), 0nat, l,
{
    match l {
        TyList::Nil => (rec, uniq),
        TyList::Cons(t, rest) => {
            let (r1, u1, _) = gp_ty(defs, owner, src_enum, t, rec, uniq);
            if uniq.subset_of(u1) {
                proof {
                    lemma_unvisited_mono(defs, uniq, u1);
                }
                gp_fields(defs, owner, src_enum, *rest, r1, u1)
            } else {
                (rec, uniq)
            }
        },
    }
}

/// Visits the type arguments of `a` in order until one breaks off.
pub open spec fn gp_args(
    defs: Seq<AdtDef>,
    owner: Map<u64, Seq<VariantView>>,
    src_enum: bool,
    a: GenericArgs,
    rec: Seq<bool>,
    uniq: Set<u64>,
) -> (Seq<bool>, Set<u64>, bool)
    decreases unvisited(defs, uniq), 0nat, a,
{
    match a {
        GenericArgs::Nil => (rec, uniq, false),
        GenericArgs::Cons(g, rest) => match g {
            GenericArg::Type(u) => {
                let (r1, u1, b) = gp_ty(defs, owner, src_enum, u, rec, uniq);
                if b {
                    (r1, u1, true)
                } else if uniq.subset_of(u1) {
                    proof {
                        lemma_unvisited_mono(defs, uniq, u1);
                    }
                    gp_args(defs, owner, src_enum, *rest, r1, u1)
                } else {
                    (rec, uniq, false)
                }
            },
            _ => gp_args(defs, owner, src_enum, *rest, rec, uniq),
        },
    }
}

/// Visits the elements of a tuple in order until one breaks off.
pub open spec fn gp_tuple(
    defs: Seq<AdtDef>,
    owner: Map<u64, Seq<VariantView>>,
    src_enum: bool,
    l: TyList,
    rec: Seq<bool>,
    uniq: Set<u64>,
) -> (Seq<bool>, Set<u64>, bool)
    decreases unvisited(defs, uniq), 0nat, l,
{
    match l {
        TyList::Nil => (rec, uniq, false),
        TyList::Cons(t, rest) => {
            let (r1, u1, b) = gp_ty(defs, owner, src_enum, t, rec, uniq);
            if b {
                (r1, u1, true)
            } else if uniq.subset_of(u1) {
                proof {
                    lemma_unvisited_mono(defs, uniq, u1);
                }
                gp_tuple(defs, owner, src_enum, *rest, r1, u1)
            } else {
                (rec, uniq, false)
            }
        },
    }
}


/// A parameter occurring in a type has a non-negative index.
pub proof fn lemma_field_param_nonneg(t: Ty, e: int)
    requires
        field_param(t, e),
    ensures
        0 <= e <= usize::MAX,
    decreases t,
{
    match t {
        Ty::Adt(_, a) => lemma_field_param_nonneg_args(*a, e),
        Ty::Array(x) => lemma_field_param_nonneg(*x, e),
        Ty::Tuple(l) => lemma_field_param_nonneg_list(*l, e),
        _ => {},
    }
}

pub proof fn lemma_field_param_nonneg_args(a: GenericArgs, e: int)
    requires
        field_param_args(a, e),
    ensures
        0 <= e <= usize::MAX,
    decreases a,
{
    match a {
        GenericArgs::Nil => {},
        GenericArgs::Cons(g, rest) => match g {
            GenericArg::Type(u) => if field_param(u, e) {
                lemma_field_param_nonneg(u, e);
            } else {
                lemma_field_param_nonneg_args(*rest, e);
            },
            _ => lemma_field_param_nonneg_args(*rest, e),
        },
    }
}

pub proof fn lemma_field_param_nonneg_list(l: TyList, e: int)
    requires
        field_param_list(l, e),
    ensures
        0 <= e <= usize::MAX,
    decreases l,
{
    match l {
        TyList::Nil => {},
        TyList::Cons(t, rest) => if field_param(t, e) {
            lemma_field_param_nonneg(t, e);
        } else {
            lemma_field_param_nonneg_list(*rest, e);
        },
    }
}

/// Whether some type argument of `a` holds a parameter.
pub fn any_param_arg(a: &GenericArgs) -> (r: bool)
    ensures
        r == has_param_arg(*a),
    decreases a,
{
    match a {
        GenericArgs::Nil => {
            assert forall|k: int, e: int| !arg_field_param(*a, k, e) by {}
            false
        },
        GenericArgs::Cons(g, rest) => {
            let here = match g {
                GenericArg::Type(u) => {
                    let mut fs = RawGenericFieldSubst::new();
                    fs.visit_ty(u);
                    let c = fs.contains_param();
                    proof {
                        let ghost sv = Set::new(|i: usize| field_param(*u, i as int));
                        assert(fs.params_view() =~= sv);
                        if c {
                            if !(exists|e: usize| fs.params_view().contains(e)) {
                                assert(fs.params_view() =~= Set::<usize>::empty());
                            }
                            let e = choose|e: usize| fs.params_view().contains(e);
                            assert(sv.contains(e));
                            assert(field_param(*u, e as int));
                            assert(arg_field_param(*a, 0, e as int));
                        } else {
                            assert forall|e: int| !field_param(*u, e) by {
                                if field_param(*u, e) {
                                    lemma_field_param_nonneg(*u, e);
                                    assert(sv.contains(e as usize));
                                    assert(fs.params_view().contains(e as usize));
                                }
                            }
                        }
                    }
                    c
                },
                _ => false,
            };
            if here {
                true
            } else {
                let r = any_param_arg(rest);
                proof {
                    if r {
                        let (k, e) = choose|k: int, e: int| arg_field_param(**rest, k, e);
                        assert(arg_field_param(*a, k + 1, e));
                    } else {
                        assert forall|k: int, e: int| !arg_field_param(*a, k, e) by {
                            if k != 0 {
                                assert(!arg_field_param(**rest, k - 1, e));
                            }
                        }
                    }
                }
                r
            }
        },
    }
}

/// Propagates raw parameters from the fields of the ADTs that a type
/// reaches, for one variant of a definition.
pub struct RawGenericPropagation {
    record: Vec<bool>,
    unique: HashSet<u64>,
    source_enum: bool,
}

impl RawGenericPropagation {
    /// The raw-parameter flags of the variant being analysed.
    pub closed spec fn record_view(&self) -> Seq<bool> {
        self.record@
    }

    /// The ADTs being visited.
    pub closed spec fn unique_view(&self) -> Set<u64> {
        self.unique@
    }

    /// Whether the definition being analysed is an enum.
    pub closed spec fn source_enum_view(&self) -> bool {
        self.source_enum
    }

    /// A propagation that starts from the flags `record`.
    pub fn new(record: Vec<bool>, source_enum: bool) -> (r: Self)
        ensures
            r.record_view() == record@,
            r.unique_view() == Set::<u64>::empty(),
            r.source_enum_view() == source_enum,
    {
        RawGenericPropagation { record, unique: HashSet::new(), source_enum }
    }

    /// The flags.
    pub fn record(&self) -> (r: &Vec<bool>)
        ensures
            r@ == self.record_view(),
    {
        &self.record
    }

    /// The ADTs being visited.
    pub fn unique(&self) -> (r: &HashSet<u64>)
        ensures
            r@ == self.unique_view(),
    {
        &self.unique
    }

    /// Whether the definition being analysed is an enum.
    pub fn source_enum(&self) -> (r: bool)
        ensures
            r == self.source_enum_view(),
    {
        self.source_enum
    }

    /// Flags every parameter that occurs in `u`.
    fn mark_params(&mut self, defs: &Vec<AdtDef>, u: &Ty, Ghost(s): Ghost<Set<u64>>)
        requires
            ty_ok(*u, s, old(self).record@.len()),
        ensures
            final(self).record@ == Seq::new(
                old(self).record@.len(),
                |e: int| old(self).record@[e] || field_param(*u, e),
            ),
            final(self).unique@ == old(self).unique@,
            final(self).source_enum == old(self).source_enum,
    {
        let mut fs = RawGenericFieldSubst::new();
        fs.visit_ty(u);
        let ps = fs.parameters();
        let ghost n = self.record@.len();
        let mut i: usize = 0;
        while i < ps.len()
            invariant
                i <= ps@.len(),
                ps@.to_set() == Set::new(|e: usize| field_param(*u, e as int)),
                ty_ok(*u, s, n),
                self.record@.len() == n,
                n == old(self).record@.len(),
                self.unique@ == old(self).unique@,
                self.source_enum == old(self).source_enum,
                self.record@ == Seq::new(
                    n,
                    |e: int| old(self).record@[e] || exists|m: int| 0 <= m < i && ps@[m] == e,
                ),
            decreases ps@.len() - i,
        {
            let p = ps[i];
            proof {
                assert(ps@.to_set().contains(p));
                lemma_field_param_bound(*u, s, n, p as int);
            }
            self.record.set(p, true);
            i = i + 1;
            proof {
                assert forall|e: int| 0 <= e < n implies self.record@[e] == (old(self).record@[e]
                    || exists|m: int| 0 <= m < i && ps@[m] == e) by {
                    if e == p {
                        assert(ps@[i - 1] == e);
                    }
                }
            }
            assert(self.record@ =~= Seq::new(
                n,
                |e: int| old(self).record@[e] || exists|m: int| 0 <= m < i && ps@[m] == e,
            ));
        }
        proof {
            assert forall|e: int| 0 <= e < n implies self.record@[e] == (old(self).record@[e]
                || field_param(*u, e)) by {
                if field_param(*u, e) {
                    lemma_field_param_nonneg(*u, e);
                    assert(Set::new(|e: usize| field_param(*u, e as int)).contains(e as usize));
                    assert(ps@.to_set().contains(e as usize));
                    let m = choose|m: int| 0 <= m < ps@.len() && ps@[m] == e as usize;
                    assert(ps@[m] == e);
                }
                if exists|m: int| 0 <= m < i && ps@[m] == e {
                    let m = choose|m: int| 0 <= m < i && ps@[m] == e;
                    assert(ps@.to_set().contains(ps@[m]));
                }
            }
        }
        assert(self.record@ =~= Seq::new(n, |e: int| old(self).record@[e] || field_param(*u, e)));
    }

    /// Flags the parameters of the type arguments of `a` whose positions,
    /// counted from `k`, are flagged in `flags`.
    fn apply_flags(
        &mut self,
        defs: &Vec<AdtDef>,
        a: &GenericArgs,
        flags: &Vec<bool>,
        k: usize,
        Ghost(s): Ghost<Set<u64>>,
    )
        requires
            k <= flags@.len(),
            args_ok(*a, s, old(self).record@.len()),
        ensures
            final(self).record@ == Seq::new(
                old(self).record@.len(),
                |e: int|
                    old(self).record@[e] || exists|j: int|
                        0 <= j && k + j < flags@.len() && flags@[k + j] && arg_field_param(*a, j, e),
            ),
            final(self).unique@ == old(self).unique@,
            final(self).source_enum == old(self).source_enum,
        decreases a,
    {
        let ghost n = self.record@.len();
        if k >= flags.len() {
            assert(self.record@ =~= Seq::new(
                n,
                |e: int|
                    old(self).record@[e] || exists|j: int|
                        0 <= j && k + j < flags@.len() && flags@[k + j] && arg_field_param(*a, j, e),
            ));
            return;
        }
        match a {
            GenericArgs::Nil => {
                assert(self.record@ =~= Seq::new(
                    n,
                    |e: int|
                        old(self).record@[e] || exists|j: int|
                            0 <= j && k + j < flags@.len() && flags@[k + j] && arg_field_param(*a, j, e),
                ));
            },
            GenericArgs::Cons(g, rest) => {
                match g {
                    GenericArg::Type(u) => if flags[k] {
                        self.mark_params(defs, u, Ghost(s));
                    },
                    _ => {},
                }
                let ghost r1 = self.record@;
                assert(r1 =~= Seq::new(
                    n,
                    |e: int| old(self).record@[e] || (flags@[k as int] && arg_field_param(*a, 0, e)),
                ));
                self.apply_flags(defs, rest, flags, k + 1, Ghost(s));
                proof {
                    assert forall|e: int| 0 <= e < n implies self.record@[e] == (old(self).record@[e]
                        || exists|j: int|
                        0 <= j && k + j < flags@.len() && flags@[k + j] && arg_field_param(*a, j, e)) by {
                        if flags@[k as int] && arg_field_param(*a, 0, e) {
                            assert(0 <= 0 && k + 0 < flags@.len() && flags@[k + 0] && arg_field_param(*a, 0, e));
                        }
                        if exists|j: int|
                            0 <= j && (k + 1) + j < flags@.len() && flags@[(k + 1) + j] && arg_field_param(
                                **rest,
                                j,
                                e,
                            ) {
                            let j = choose|j: int|
                                0 <= j && (k + 1) + j < flags@.len() && flags@[(k + 1) + j]
                                    && arg_field_param(**rest, j, e);
                            assert(arg_field_param(*a, j + 1, e));
                        }
                        if exists|j: int|
                            0 <= j && k + j < flags@.len() && flags@[k + j] && arg_field_param(*a, j, e) {
                            let j = choose|j: int|
                                0 <= j && k + j < flags@.len() && flags@[k + j] && arg_field_param(*a, j, e);
                            if j > 0 {
                                assert(arg_field_param(**rest, j - 1, e));
                            }
                        }
                    }
                }
                assert(self.record@ =~= Seq::new(
                    n,
                    |e: int|
                        old(self).record@[e] || exists|j: int|
                            0 <= j && k + j < flags@.len() && flags@[k + j] && arg_field_param(*a, j, e),
                ));
            },
        }
    }
}


impl RawGenericPropagation {
    /// Visits `t`: flags the raw parameters that reach the variant through
    /// the ADTs in `t`; says whether the visit breaks off.
    pub fn visit_ty(&mut self, defs: &Vec<AdtDef>, owner: &AdtOwner, t: &Ty, Ghost(s): Ghost<Set<u64>>) -> (broke: bool)
        requires
            defs_basic_ok(defs@),
            closed_over(defs@, s),
            s.subset_of(owner_view(owner).dom()),
            ty_ok(*t, s, old(self).record_view().len()),
        ensures
            (final(self).record_view(), final(self).unique_view(), broke) == gp_ty(
                defs@,
                owner_view(owner),
                old(self).source_enum_view(),
                *t,
                old(self).record_view(),
                old(self).unique_view(),
            ),
            old(self).unique_view().subset_of(final(self).unique_view()),
            final(self).record_view().len() == old(self).record_view().len(),
            final(self).source_enum_view() == old(self).source_enum_view(),
        decreases unvisited(defs@, old(self).unique_view()), 0nat, t,
    {
        let ghost ov = owner_view(owner);
        let ghost n = self.record@.len();
        match t {
            Ty::Adt(did, a) => {
                let did = *did;
                match &**a {
                    GenericArgs::Nil => {
                        return true;
                    },
                    _ => {},
                }
                let idx = match find_def(defs, did) {
                    Some(i) => i,
                    None => {
                        return true;
                    },
                };
                if !self.source_enum && defs[idx].kind == AdtKind::Enum {
                    return true;
                }
                if !self.unique.insert(did) {
                    return false;
                }
                let ghost u1 = self.unique@;
                if !any_param_arg(a) {
                    return true;
                }
                let entry = match owner.get(&did) {
                    Some(v) => v,
                    None => {
                        return true;
                    },
                };
                assert(ov[did] == entry_view(*entry));
                if entry.len() == 0 {
                    return true;
                }
                let flags = &entry[0].1;
                self.apply_flags(defs, a, flags, 0, Ghost(s));
                let ghost rec1 = self.record@;
                assert(rec1 =~= propagated(old(self).record@, ov[did][0].1, **a)) by {
                    assert forall|e: int| 0 <= e < n implies rec1[e] == propagated(
                        old(self).record@,
                        ov[did][0].1,
                        **a,
                    )[e] by {
                        if exists|j: int|
                            0 <= j && 0 + j < flags@.len() && flags@[0 + j] && arg_field_param(**a, j, e) {
                            let j = choose|j: int|
                                0 <= j && 0 + j < flags@.len() && flags@[0 + j] && arg_field_param(**a, j, e);
                            assert(0 <= j < flags@.len() && flags@[j] && arg_field_param(**a, j, e));
                        }
                        if exists|j: int| 0 <= j < flags@.len() && flags@[j] && arg_field_param(**a, j, e) {
                            let j = choose|j: int| 0 <= j < flags@.len() && flags@[j] && arg_field_param(**a, j, e);
                            assert(0 <= j && 0 + j < flags@.len() && flags@[0 + j] && arg_field_param(**a, j, e));
                        }
                    }
                }
                proof {
                    lemma_unvisited_insert(defs@, old(self).unique@, did);
                }
                let ghost vs = defs@[idx as int].variants@;
                let nv = defs[idx].variants.len();
                assert(vs.skip(0) =~= vs);
                let mut vi: usize = 0;
                while vi < nv
                    invariant
                        vi <= nv,
                        nv == vs.len(),
                        vs == defs@[idx as int].variants@,
                        idx < defs@.len(),
                        defs@[idx as int].did == did,
                        s.contains(did),
                        defs_basic_ok(defs@),
                        closed_over(defs@, s),
                        s.subset_of(owner_view(owner).dom()),
                        ov == owner_view(owner),
                        args_ok(**a, s, n),
                        self.record@.len() == n,
                        self.source_enum == old(self).source_enum,
                        u1 == old(self).unique@.insert(did),
                        u1.subset_of(self.unique@),
                        unvisited(defs@, u1) < unvisited(defs@, old(self).unique@),
                        gp_variants(defs@, ov, self.source_enum, vs, **a, rec1, u1) == gp_variants(
                            defs@,
                            ov,
                            self.source_enum,
                            vs.skip(vi as int),
                            **a,
                            self.record@,
                            self.unique@,
                        ),
                    decreases nv - vi,
                {
                    let l = subst_ty_list(&defs[idx].variants[vi], a);
                    proof {
                        assert(list_ok(
                            defs@[idx as int].variants@[vi as int],
                            s,
                            defs@[idx as int].n_generics as nat,
                        ));
                        lemma_subst_list_ok(
                            defs@[idx as int].variants@[vi as int],
                            **a,
                            s,
                            defs@[idx as int].n_generics as nat,
                            n,
                        );
                        lemma_unvisited_mono(defs@, u1, self.unique@);
                    }
                    let ghost rb = self.record@;
                    let ghost ub = self.unique@;
                    self.visit_fields(defs, owner, &l, Ghost(s));
                    proof {
                        let rest = vs.skip(vi as int);
                        assert(rest[0] == vs[vi as int]);
                        assert(rest.drop_first() =~= vs.skip(vi + 1));
                        lemma_unvisited_mono(defs@, ub, self.unique@);
                    }
                    vi = vi + 1;
                }
                assert(vs.skip(nv as int) =~= Seq::<TyList>::empty());
                let ghost u2 = self.unique@;
                self.unique.remove(&did);
                proof {
                    assert(old(self).unique@.subset_of(self.unique@));
                    lemma_unvisited_mono(defs@, old(self).unique@, self.unique@);
                }
                self.visit_args(defs, owner, a, Ghost(s))
            },
            Ty::Array(e) => self.visit_ty(defs, owner, e, Ghost(s)),
            Ty::Tuple(l) => self.visit_tuple(defs, owner, l, Ghost(s)),
            _ => false,
        }
    }

    /// Visits every type of `l` in order.
    pub fn visit_fields(&mut self, defs: &Vec<AdtDef>, owner: &AdtOwner, l: &TyList, Ghost(s): Ghost<Set<u64>>)
        requires
            defs_basic_ok(defs@),
            closed_over(defs@, s),
            s.subset_of(owner_view(owner).dom()),
            list_ok(*l, s, old(self).record_view().len()),
        ensures
            (final(self).record_view(), final(self).unique_view()) == gp_fields(
                defs@,
                owner_view(owner),
                old(self).source_enum_view(),
                *l,
                old(self).record_view(),
                old(self).unique_view(),
            ),
            old(self).unique_view().subset_of(final(self).unique_view()),
            final(self).record_view().len() == old(self).record_view().len(),
            final(self).source_enum_view() == old(self).source_enum_view(),
        decreases unvisited(defs@, old(self).unique_view()), 0nat, l,
    {
        match l {
            TyList::Nil => {},
            TyList::Cons(t, rest) => {
                self.visit_ty(defs, owner, t, Ghost(s));
                proof {
                    lemma_unvisited_mono(defs@, old(self).unique@, self.unique@);
                }
                self.visit_fields(defs, owner, rest, Ghost(s));
            },
        }
    }

    /// Visits the type arguments of `a` in order until one breaks off.
    pub fn visit_args(&mut self, defs: &Vec<AdtDef>, owner: &AdtOwner, a: &GenericArgs, Ghost(s): Ghost<Set<u64>>) -> (broke: bool)
        requires
            defs_basic_ok(defs@),
            closed_over(defs@, s),
            s.subset_of(owner_view(owner).dom()),
            args_ok(*a, s, old(self).record_view().len()),
        ensures
            (final(self).record_view(), final(self).unique_view(), broke) == gp_args(
                defs@,
                owner_view(owner),
                old(self).source_enum_view(),
                *a,
                old(self).record_view(),
                old(self).unique_view(),
            ),
            old(self).unique_view().subset_of(final(self).unique_view()),
            final(self).record_view().len() == old(self).record_view().len(),
            final(self).source_enum_view() == old(self).source_enum_view(),
        decreases unvisited(defs@, old(self).unique_view()), 0nat, a,
    {
        match a {
            GenericArgs::Nil => false,
            GenericArgs::Cons(g, rest) => match g {
                GenericArg::Type(u) => {
                    if self.visit_ty(defs, owner, u, Ghost(s)) {
                        return true;
                    }
                    proof {
                        lemma_unvisited_mono(defs@, old(self).unique@, self.unique@);
                    }
                    self.visit_args(defs, owner, rest, Ghost(s))
                },
                _ => self.visit_args(defs, owner, rest, Ghost(s)),
            },
        }
    }

    /// Visits the elements of a tuple in order until one breaks off.
    pub fn visit_tuple(&mut self, defs: &Vec<AdtDef>, owner: &AdtOwner, l: &TyList, Ghost(s): Ghost<Set<u64>>) -> (broke: bool)
        requires
            defs_basic_ok(defs@),
            closed_over(defs@, s),
            s.subset_of(owner_view(owner).dom()),
            list_ok(*l, s, old(self).record_view().len()),
        ensures
            (final(self).record_view(), final(self).unique_view(), broke) == gp_tuple(
                defs@,
                owner_view(owner),
                old(self).source_enum_view(),
                *l,
                old(self).record_view(),
                old(self).unique_view(),
            ),
            old(self).unique_view().subset_of(final(self).unique_view()),
            final(self).record_view().len() == old(self).record_view().len(),
            final(self).source_enum_view() == old(self).source_enum_view(),
        decreases unvisited(defs@, old(self).unique_view()), 0nat, l,
    {
        match l {
            TyList::Nil => false,
            TyList::Cons(t, rest) => {
                if self.visit_ty(defs, owner, t, Ghost(s)) {
                    return true;
                }
                proof {
                    lemma_unvisited_mono(defs@, old(self).unique@, self.unique@);
                }
                self.visit_tuple(defs, owner, rest, Ghost(s))
            },
        }
    }
}


// ---------------------------------------------------------------------------
// Propagation of ownership through ADT fields

/// What visiting `t` does to the ownership of the variant being analysed
/// and to the set of ADTs being visited, and whether the visit breaks off.
///
/// An ADT already being visited is skipped. Otherwise it is marked as being
/// visited; an enum, or an ADT whose entry is empty, breaks off there
/// (leaving the mark). Else the variant becomes owned if the ADT's first
/// variant is, the ADT's fields are visited with its arguments substituted,
/// the mark is removed, and its arguments are visited until one breaks off.
pub open spec fn op_ty(
    defs: Seq<AdtDef>,
    owner: Map<u64, Seq<VariantView>>,
    t: Ty,
    own: RawTypeOwner,
    uniq: Set<u64>,
) -> (RawTypeOwner, Set<u64>, bool)
    decreases unvisited(defs, uniq), 0nat, t,
{
    match t {
        Ty::Adt(did, a) => {
            if uniq.contains(did) {
                (own, uniq, false)
            } else {
                let u1 = uniq.insert(did);
                if !table_dids(defs).contains(did) {
                    (own, u1, true)
                } else if def_of(defs, did).kind == AdtKind::Enum {
                    (own, u1, true)
                } else if !owner.contains_key(did) || owner[did].len() == 0 {
                    (own, u1, true)
                } else {
                    let own1 = if owner[did][0].0 == RawTypeOwner::Owned {
                        RawTypeOwner::Owned
                    } else {
                        own
                    };
                    proof {
                        lemma_unvisited_insert(defs, uniq, did);
                    }
                    let (own2, u2) = op_variants(defs, owner, def_of(defs, did).variants@, *a, own1, u1);
                    if u1.subset_of(u2) {
                        let u3 = u2.remove(did);
                        proof {
                            assert(uniq.subset_of(u3));
                            lemma_unvisited_mono(defs, uniq, u3);
                        }
                        op_args(defs, owner, *a, own2, u3)
                    } else {
                        (own, uniq, false)
                    }
                }
            }
        },
        Ty::Array(e) => op_ty(defs, owner, *e, own, uniq),
        Ty::Tuple(l) => op_tuple(defs, owner, *l, own, uniq),
        _ => (own, uniq, false),
    }
}

/// Visits the fields of the variants `vs`, with `a` substituted, in order.
pub open spec fn op_variants(
    defs: Seq<AdtDef>,
    owner: Map<u64, Seq<VariantView>>,
    vs: Seq<TyList>,
    a: GenericArgs,
    own: RawTypeOwner,
    uniq: Set<u64>,
) -> (RawTypeOwner, Set<u64>)
    decreases unvisited(defs, uniq), 1nat, vs,
{
    if vs.len() == 0 {
        (own, uniq)
    } else {
        let (o1, u1) = op_fields(defs, owner, subst_list(vs[0], a), own, uniq);
        if uniq.subset_of(u1) {
            proof {
                lemma_unvisited_mono(defs, uniq, u1);
            }
            op_variants(defs, owner, vs.drop_first(), a, o1, u1)
        } else {
            (own, uniq)
        }
    }
}

/// Visits the types of `l` in order, whatever each visit returns.
pub open spec fn op_fields(
    defs: Seq<AdtDef>,
    owner: Map<u64, Seq<VariantView>>,
    l: TyList,
    own: RawTypeOwner,
    uniq: Set<u64>,
) -> (RawTypeOwner, Set<u64>)
    decreases unvisited(defs, uniq), 0nat, l,
{
    match l {
        TyList::Nil => (own, uniq),
        TyList::Cons(t, rest) => {
            let (o1, u1, _) = op_ty(defs, owner, t, own, uniq);
            if uniq.subset_of(u1) {
                proof {
                    lemma_unvisited_mono(defs, uniq, u1);
                }
                op_fields(defs, owner, *rest, o1, u1)
            } else {
                (own, uniq)
            }
        },
    }
}

/// Visits the type arguments of `a` in order until one breaks off.
pub open spec fn op_args(
    defs: Seq<AdtDef>,
    owner: Map<u64, Seq<VariantView>>,
    a: GenericArgs,
    own: RawTypeOwner,
    uniq: Set<u64>,
) -> (RawTypeOwner, Set<u64>, bool)
    decreases unvisited(defs, uniq), 0nat, a,
{
    match a {
        GenericArgs::Nil => (own, uniq, false),
        GenericArgs::Cons(g, rest) => match g {
            GenericArg::Type(u) => {
                let (o1, u1, b) = op_ty(defs, owner, u, own, uniq);
                if b {
                    (o1, u1, true)
                } else if uniq.subset_of(u1) {
                    proof {
                        lemma_unvisited_mono(defs, uniq, u1);
                    }
                    op_args(defs, owner, *rest, o1, u1)
                } else {
                    (own, uniq, false)
                }
            },
            _ => op_args(defs, owner, *rest, own, uniq),
        },
    }
}

/// Visits the elements of a tuple in order until one breaks off.
pub open spec fn op_tuple(
    defs: Seq<AdtDef>,
    owner: Map<u64, Seq<VariantView>>,
    l: TyList,
    own: RawTypeOwner,
    uniq: Set<u64>,
) -> (RawTypeOwner, Set<u64>, bool)
    decreases unvisited(defs, uniq), 0nat, l,
{
    match l {
        TyList::Nil => (own, uniq, false),
        TyList::Cons(t, rest) => {
            let (o1, u1, b) = op_ty(defs, owner, t, own, uniq);
            if b {
                (o1, u1, true)
            } else if uniq.subset_of(u1) {
                proof {
                    lemma_unvisited_mono(defs, uniq, u1);
                }
                op_tuple(defs, owner, *rest, o1, u1)
            } else {
                (own, uniq, false)
            }
        },
    }
}

/// A bound that every parameter index meets.
pub open spec fn any_param() -> nat {
    usize::MAX as nat + 1
}

/// Propagates ownership from the fields of the ADTs that a type reaches, for
/// one variant of a definition.
pub struct OwnerPropagation {
    ownership: RawTypeOwner,
    unique: HashSet<u64>,
}

impl OwnerPropagation {
    /// The ownership found so far.
    pub closed spec fn ownership_view(&self) -> RawTypeOwner {
        self.ownership
    }

    /// The ADTs being visited.
    pub closed spec fn unique_view(&self) -> Set<u64> {
        self.unique@
    }

    /// A propagation that starts from the ownership `ownership`.
    pub fn new(ownership: RawTypeOwner) -> (r: Self)
        ensures
            r.ownership_view() == ownership,
            r.unique_view() == Set::<u64>::empty(),
    {
        OwnerPropagation { ownership, unique: HashSet::new() }
    }

    /// The ownership found so far.
    pub fn ownership(&self) -> (r: RawTypeOwner)
        ensures
            r == self.ownership_view(),
    {
        self.ownership
    }

    /// The ADTs being visited.
    pub fn unique(&self) -> (r: &HashSet<u64>)
        ensures
            r@ == self.unique_view(),
    {
        &self.unique
    }

    /// Visits `t`; says whether the visit breaks off.
    pub fn visit_ty(&mut self, defs: &Vec<AdtDef>, owner: &AdtOwner, t: &Ty, Ghost(s): Ghost<Set<u64>>) -> (broke: bool)
        requires
            defs_basic_ok(defs@),
            closed_over(defs@, s),
            s.subset_of(owner_view(owner).dom()),
            ty_ok(*t, s, any_param()),
        ensures
            (final(self).ownership_view(), final(self).unique_view(), broke) == op_ty(
                defs@,
                owner_view(owner),
                *t,
                old(self).ownership_view(),
                old(self).unique_view(),
            ),
            old(self).unique_view().subset_of(final(self).unique_view()),
        decreases unvisited(defs@, old(self).unique_view()), 0nat, t,
    {
        let ghost ov = owner_view(owner);
        match t {
            Ty::Adt(did, a) => {
                let did = *did;
                if !self.unique.insert(did) {
                    return false;
                }
                let ghost u1 = self.unique@;
                let idx = match find_def(defs, did) {
                    Some(i) => i,
                    None => {
                        return true;
                    },
                };
                if defs[idx].kind == AdtKind::Enum {
                    return true;
                }
                let entry = match owner.get(&did) {
                    Some(v) => v,
                    None => {
                        return true;
                    },
                };
                assert(ov[did] == entry_view(*entry));
                if entry.len() == 0 {
                    return true;
                }
                match entry[0].0 {
                    RawTypeOwner::Owned => {
                        self.ownership = RawTypeOwner::Owned;
                    },
                    _ => {},
                }
                let ghost own1 = self.ownership;
                proof {
                    lemma_unvisited_insert(defs@, old(self).unique@, did);
                }
                let ghost vs = defs@[idx as int].variants@;
                let nv = defs[idx].variants.len();
                assert(vs.skip(0) =~= vs);
                let mut vi: usize = 0;
                while vi < nv
                    invariant
                        vi <= nv,
                        nv == vs.len(),
                        vs == defs@[idx as int].variants@,
                        idx < defs@.len(),
                        defs@[idx as int].did == did,
                        s.contains(did),
                        defs_basic_ok(defs@),
                        closed_over(defs@, s),
                        s.subset_of(owner_view(owner).dom()),
                        ov == owner_view(owner),
                        args_ok(**a, s, any_param()),
                        u1 == old(self).unique@.insert(did),
                        u1.subset_of(self.unique@),
                        unvisited(defs@, u1) < unvisited(defs@, old(self).unique@),
                        op_variants(defs@, ov, vs, **a, own1, u1) == op_variants(
                            defs@,
                            ov,
                            vs.skip(vi as int),
                            **a,
                            self.ownership,
                            self.unique@,
                        ),
                    decreases nv - vi,
                {
                    let l = subst_ty_list(&defs[idx].variants[vi], a);
                    proof {
                        assert(list_ok(
                            defs@[idx as int].variants@[vi as int],
                            s,
                            defs@[idx as int].n_generics as nat,
                        ));
                        lemma_subst_list_ok(
                            defs@[idx as int].variants@[vi as int],
                            **a,
                            s,
                            defs@[idx as int].n_generics as nat,
                            any_param(),
                        );
                        lemma_unvisited_mono(defs@, u1, self.unique@);
                    }
                    let ghost ub = self.unique@;
                    self.visit_fields(defs, owner, &l, Ghost(s));
                    proof {
                        let rest = vs.skip(vi as int);
                        assert(rest[0] == vs[vi as int]);
                        assert(rest.drop_first() =~= vs.skip(vi + 1));
                        lemma_unvisited_mono(defs@, ub, self.unique@);
                    }
                    vi = vi + 1;
                }
                assert(vs.skip(nv as int) =~= Seq::<TyList>::empty());
                self.unique.remove(&did);
                proof {
                    assert(old(self).unique@.subset_of(self.unique@));
                    lemma_unvisited_mono(defs@, old(self).unique@, self.unique@);
                }
                self.visit_args(defs, owner, a, Ghost(s))
            },
            Ty::Array(e) => self.visit_ty(defs, owner, e, Ghost(s)),
            Ty::Tuple(l) => self.visit_tuple(defs, owner, l, Ghost(s)),
            _ => false,
        }
    }

    /// Visits every type of `l` in order.
    pub fn visit_fields(&mut self, defs: &Vec<AdtDef>, owner: &AdtOwner, l: &TyList, Ghost(s): Ghost<Set<u64>>)
        requires
            defs_basic_ok(defs@),
            closed_over(defs@, s),
            s.subset_of(owner_view(owner).dom()),
            list_ok(*l, s, any_param()),
        ensures
            (final(self).ownership_view(), final(self).unique_view()) == op_fields(
                defs@,
                owner_view(owner),
                *l,
                old(self).ownership_view(),
                old(self).unique_view(),
            ),
            old(self).unique_view().subset_of(final(self).unique_view()),
        decreases unvisited(defs@, old(self).unique_view()), 0nat, l,
    {
        match l {
            TyList::Nil => {},
            TyList::Cons(t, rest) => {
                self.visit_ty(defs, owner, t, Ghost(s));
                proof {
                    lemma_unvisited_mono(defs@, old(self).unique@, self.unique@);
                }
                self.visit_fields(defs, owner, rest, Ghost(s));
            },
        }
    }

    /// Visits the type arguments of `a` in order until one breaks off.
    pub fn visit_args(&mut self, defs: &Vec<AdtDef>, owner: &AdtOwner, a: &GenericArgs, Ghost(s): Ghost<Set<u64>>) -> (broke: bool)
        requires
            defs_basic_ok(defs@),
            closed_over(defs@, s),
            s.subset_of(owner_view(owner).dom()),
            args_ok(*a, s, any_param()),
        ensures
            (final(self).ownership_view(), final(self).unique_view(), broke) == op_args(
                defs@,
                owner_view(owner),
                *a,
                old(self).ownership_view(),
                old(self).unique_view(),
            ),
            old(self).unique_view().subset_of(final(self).unique_view()),
        decreases unvisited(defs@, old(self).unique_view()), 0nat, a,
    {
        match a {
            GenericArgs::Nil => false,
            GenericArgs::Cons(g, rest) => match g {
                GenericArg::Type(u) => {
                    if self.visit_ty(defs, owner, u, Ghost(s)) {
                        return true;
                    }
                    proof {
                        lemma_unvisited_mono(defs@, old(self).unique@, self.unique@);
                    }
                    self.visit_args(defs, owner, rest, Ghost(s))
                },
                _ => self.visit_args(defs, owner, rest, Ghost(s)),
            },
        }
    }

    /// Visits the elements of a tuple in order until one breaks off.
    pub fn visit_tuple(&mut self, defs: &Vec<AdtDef>, owner: &AdtOwner, l: &TyList, Ghost(s): Ghost<Set<u64>>) -> (broke: bool)
        requires
            defs_basic_ok(defs@),
            closed_over(defs@, s),
            s.subset_of(owner_view(owner).dom()),
            list_ok(*l, s, any_param()),
        ensures
            (final(self).ownership_view(), final(self).unique_view(), broke) == op_tuple(
                defs@,
                owner_view(owner),
                *l,
                old(self).ownership_view(),
                old(self).unique_view(),
            ),
            old(self).unique_view().subset_of(final(self).unique_view()),
        decreases unvisited(defs@, old(self).unique_view()), 0nat, l,
    {
        match l {
            TyList::Nil => false,
            TyList::Cons(t, rest) => {
                if self.visit_ty(defs, owner, t, Ghost(s)) {
                    return true;
                }
                proof {
                    lemma_unvisited_mono(defs@, old(self).unique@, self.unique@);
                }
                self.visit_tuple(defs, owner, rest, Ghost(s))
            },
        }
    }
}


// ---------------------------------------------------------------------------
// The four passes over the definitions

/// The entry that the first pass gives a definition: every variant unowned,
/// with the parameters that its fields hold raw.
pub open spec fn raw_generic_entry(def: AdtDef) -> Seq<VariantView> {
    Seq::new(
        def.variants@.len(),
        |v: int|
            (
                RawTypeOwner::Unowned,
                Seq::new(def.n_generics as nat, |i: int| raw_param_list(def.variants@[v], i)),
            ),
    )
}

/// The entry that the second pass gives `did`: each variant's flags after
/// propagating through the ADTs its fields reach.
pub open spec fn raw_generic_prop_entry(
    defs: Seq<AdtDef>,
    owner: Map<u64, Seq<VariantView>>,
    did: u64,
) -> Seq<VariantView> {
    let def = def_of(defs, did);
    let e = owner[did];
    Seq::new(
        e.len(),
        |v: int|
            if v < def.variants@.len() {
                (
                    RawTypeOwner::Unowned,
                    gp_fields(
                        defs,
                        owner,
                        def.kind == AdtKind::Enum,
                        def.variants@[v],
                        e[v].1,
                        Set::empty(),
                    ).0,
                )
            } else {
                e[v]
            },
    )
}

/// Scanning the arguments of a `PhantomData` field: `Some(true)` at the
/// first type argument that holds a parameter, `Some(false)` at a lifetime
/// or constant met first, `None` when the arguments run out.
pub open spec fn phantom_args(a: GenericArgs) -> Option<bool>
    decreases a,
{
    match a {
        GenericArgs::Nil => None,
        GenericArgs::Cons(g, rest) => match g {
            GenericArg::Type(u) => if exists|e: int| field_param(u, e) {
                Some(true)
            } else {
                phantom_args(*rest)
            },
            _ => Some(false),
        },
    }
}

/// Scanning fields in order for `PhantomData` fields; the first scan of
/// arguments that ends decides.
pub open spec fn phantom_list(defs: Seq<AdtDef>, l: TyList) -> Option<bool>
    decreases l,
{
    match l {
        TyList::Nil => None,
        TyList::Cons(f, rest) => match f {
            Ty::Adt(fd, fa) => if table_dids(defs).contains(fd) && def_of(defs, fd).is_phantom_data {
                match phantom_args(*fa) {
                    Some(b) => Some(b),
                    None => phantom_list(defs, *rest),
                }
            } else {
                phantom_list(defs, *rest)
            },
            _ => phantom_list(defs, *rest),
        },
    }
}

/// Scanning the fields of all variants in order.
pub open spec fn phantom_variants(defs: Seq<AdtDef>, vs: Seq<TyList>) -> Option<bool>
    decreases vs.len(),
{
    if vs.len() == 0 {
        None
    } else {
        match phantom_list(defs, vs[0]) {
            Some(b) => Some(b),
            None => phantom_variants(defs, vs.drop_first()),
        }
    }
}

/// Every argument of `a` is a type.
pub open spec fn all_type_args(a: GenericArgs) -> bool
    decreases a,
{
    match a {
        GenericArgs::Nil => true,
        GenericArgs::Cons(g, rest) => g is Type && all_type_args(*rest),
    }
}

/// The scan of the arguments of a `PhantomData` field finds an owner only
/// when a type argument mentions a generic parameter; when every argument
/// is a type, it finds one exactly then.
pub proof fn lemma_phantom_args_param(a: GenericArgs)
    ensures
        phantom_args(a) == Some(true) ==> exists|k: int, e: int| arg_field_param(a, k, e),
        all_type_args(a) ==> (phantom_args(a) == Some(true) <==> exists|k: int, e: int| arg_field_param(a, k, e)),
    decreases a,
{
    match a {
        GenericArgs::Nil => {
            assert forall|k: int, e: int| !arg_field_param(a, k, e) by {}
        },
        GenericArgs::Cons(g, rest) => {
            lemma_phantom_args_param(*rest);
            match g {
                GenericArg::Type(u) => {
                    if exists|e: int| field_param(u, e) {
                        let e = choose|e: int| field_param(u, e);
                        assert(arg_field_param(a, 0, e));
                    } else {
                        if exists|k: int, e: int| arg_field_param(*rest, k, e) {
                            let (k, e) = choose|k: int, e: int| arg_field_param(*rest, k, e);
                            assert(a.get(k + 1) == rest.get(k));
                            assert(arg_field_param(a, k + 1, e));
                        }
                        assert forall|k: int, e: int| arg_field_param(a, k, e) implies arg_field_param(*rest, k - 1, e) by {
                            if k == 0 {
                                assert(field_param(u, e));
                            }
                        }
                    }
                },
                _ => {},
            }
        },
    }
}

/// Some field of `l` is a `PhantomData` whose arguments mention a generic
/// parameter.
pub open spec fn has_phantom_param_field(defs: Seq<AdtDef>, l: TyList) -> bool
    decreases l,
{
    match l {
        TyList::Nil => false,
        TyList::Cons(f, rest) => (match f {
            Ty::Adt(fd, fa) => table_dids(defs).contains(fd) && def_of(defs, fd).is_phantom_data && exists|k: int, e: int|
                arg_field_param(*fa, k, e),
            _ => false,
        }) || has_phantom_param_field(defs, *rest),
    }
}

/// The scan of fields finds an owner only when some `PhantomData` field
/// mentions a generic parameter in its arguments.
pub proof fn lemma_phantom_list_param(defs: Seq<AdtDef>, l: TyList)
    ensures
        phantom_list(defs, l) == Some(true) ==> has_phantom_param_field(defs, l),
    decreases l,
{
    match l {
        TyList::Nil => {},
        TyList::Cons(f, rest) => {
            lemma_phantom_list_param(defs, *rest);
            match f {
                Ty::Adt(fd, fa) => lemma_phantom_args_param(*fa),
                _ => {},
            }
        },
    }
}

/// The third pass makes a struct an owner only when some field of it is a
/// `PhantomData` whose arguments mention a generic parameter.
pub proof fn lemma_phantom_variants_param(defs: Seq<AdtDef>, vs: Seq<TyList>)
    ensures
        phantom_variants(defs, vs) == Some(true) ==> exists|v: int|
            0 <= v < vs.len() && #[trigger] has_phantom_param_field(defs, vs[v]),
    decreases vs.len(),
{
    if vs.len() > 0 {
        lemma_phantom_list_param(defs, vs[0]);
        lemma_phantom_variants_param(defs, vs.drop_first());
        if phantom_list(defs, vs[0]) is None && phantom_variants(defs, vs.drop_first()) == Some(true) {
            let v = choose|v: int| 0 <= v < vs.drop_first().len() && #[trigger] has_phantom_param_field(defs, vs.drop_first()[v]);
            assert(has_phantom_param_field(defs, vs[v + 1]));
        }
        if phantom_list(defs, vs[0]) == Some(true) {
            assert(has_phantom_param_field(defs, vs[0]));
        }
    }
}

/// A struct whose `PhantomData` field carries a parameter owns its heap data.
pub open spec fn phantom_owned(defs: Seq<AdtDef>, did: u64) -> bool {
    def_of(defs, did).kind == AdtKind::Struct && phantom_variants(defs, def_of(defs, did).variants@) == Some(true)
}

/// The result of the third pass on `did`.
pub open spec fn phantom_unit_result(
    defs: Seq<AdtDef>,
    owner: Map<u64, Seq<VariantView>>,
    did: u64,
) -> Map<u64, Seq<VariantView>> {
    if phantom_owned(defs, did) {
        owner.insert(did, seq![(RawTypeOwner::Owned, owner[did][0].1)])
    } else {
        owner
    }
}

/// The entry that the fourth pass gives `did`: each variant owned if an ADT
/// its fields reach owns heap data.
pub open spec fn owner_prop_entry(
    defs: Seq<AdtDef>,
    owner: Map<u64, Seq<VariantView>>,
    did: u64,
) -> Seq<VariantView> {
    let def = def_of(defs, did);
    let e = owner[did];
    Seq::new(
        e.len(),
        |v: int|
            if v < def.variants@.len() {
                (op_fields(defs, owner, def.variants@[v], e[v].0, Set::empty()).0, e[v].1)
            } else {
                e[v]
            },
    )
}

/// Each definition of the table whose id is in `s` has an entry with one
/// element per variant and one flag per generic parameter.
pub open spec fn owner_shaped(defs: Seq<AdtDef>, s: Set<u64>, owner: Map<u64, Seq<VariantView>>) -> bool {
    forall|i: int|
        0 <= i < defs.len() && s.contains(defs[i].did) ==> {
            &&& owner.contains_key(#[trigger] defs[i].did)
            &&& owner[defs[i].did].len() == defs[i].variants@.len()
            &&& forall|v: int|
                0 <= v < defs[i].variants@.len() ==> (#[trigger] owner[defs[i].did][v]).1.len()
                    == defs[i].n_generics
        }
}

/// Replacing the entry of a definition by one of the right shape keeps the
/// entries shaped.
pub proof fn lemma_shaped_insert(
    defs: Seq<AdtDef>,
    s: Set<u64>,
    owner: Map<u64, Seq<VariantView>>,
    did: u64,
    entry: Seq<VariantView>,
)
    requires
        dids_unique(defs),
        owner_shaped(defs, s, owner),
        table_dids(defs).contains(did),
        entry.len() == def_of(defs, did).variants@.len(),
        forall|v: int| 0 <= v < entry.len() ==> (#[trigger] entry[v]).1.len() == def_of(defs, did).n_generics,
    ensures
        owner_shaped(defs, s, owner.insert(did, entry)),
{
    let k = def_index(defs, did);
    assert forall|i: int| 0 <= i < defs.len() && defs[i].did == did implies i == k by {
        assert(defs[i].did == defs[k].did);
    }
}

/// A copy of a vector of flags.
pub fn copy_flags(v: &Vec<bool>) -> (r: Vec<bool>)
    ensures
        r@ == v@,
{
    let mut r: Vec<bool> = Vec::new();
    let mut i: usize = 0;
    while i < v.len()
        invariant
            i <= v@.len(),
            r@ == v@.subrange(0, i as int),
        decreases v@.len() - i,
    {
        r.push(v[i]);
        i = i + 1;
        assert(r@ =~= v@.subrange(0, i as int));
    }
    assert(v@.subrange(0, v@.len() as int) =~= v@);
    r
}

/// A copy of an entry.
pub fn copy_entry(e: &Vec<(RawTypeOwner, Vec<bool>)>) -> (r: Vec<(RawTypeOwner, Vec<bool>)>)
    ensures
        entry_view(r) == entry_view(*e),
{
    let mut r: Vec<(RawTypeOwner, Vec<bool>)> = Vec::new();
    let mut i: usize = 0;
    while i < e.len()
        invariant
            i <= e@.len(),
            r@.len() == i,
            forall|j: int| 0 <= j < i ==> r@[j].0 == e@[j].0 && r@[j].1@ == e@[j].1@,
        decreases e@.len() - i,
    {
        r.push((e[i].0, copy_flags(&e[i].1)));
        i = i + 1;
    }
    assert(entry_view(r) =~= entry_view(*e));
    r
}

/// Raw parameters of a well-formed type are below its bound.
pub proof fn lemma_raw_below(t: Ty, dids: Set<u64>, n: nat)
    requires
        ty_ok(t, dids, n),
    ensures
        raw_params_below(t, n),
    decreases t,
{
    match t {
        Ty::Array(e) => lemma_raw_below(*e, dids, n),
        Ty::Tuple(l) => lemma_raw_below_list(*l, dids, n),
        _ => {},
    }
}

pub proof fn lemma_raw_below_list(l: TyList, dids: Set<u64>, n: nat)
    requires
        list_ok(l, dids, n),
    ensures
        raw_params_below_list(l, n),
    decreases l,
{
    match l {
        TyList::Nil => {},
        TyList::Cons(t, rest) => {
            lemma_raw_below(t, dids, n);
            lemma_raw_below_list(*rest, dids, n);
        },
    }
}

/// Scans the arguments of a `PhantomData` field.
pub fn scan_phantom_args(a: &GenericArgs) -> (r: Option<bool>)
    ensures
        r == phantom_args(*a),
    decreases a,
{
    match a {
        GenericArgs::Nil => None,
        GenericArgs::Cons(g, rest) => match g {
            GenericArg::Type(u) => {
                let mut fs = RawGenericFieldSubst::new();
                fs.visit_ty(u);
                let c = fs.contains_param();
                proof {
                    let ghost sv = Set::new(|i: usize| field_param(*u, i as int));
                    assert(fs.params_view() =~= sv);
                    if c {
                        if !(exists|e: usize| fs.params_view().contains(e)) {
                            assert(fs.params_view() =~= Set::<usize>::empty());
                        }
                        let e = choose|e: usize| fs.params_view().contains(e);
                        assert(sv.contains(e));
                        assert(field_param(*u, e as int));
                    } else {
                        assert forall|e: int| !field_param(*u, e) by {
                            if field_param(*u, e) {
                                lemma_field_param_nonneg(*u, e);
                                assert(sv.contains(e as usize));
                                assert(fs.params_view().contains(e as usize));
                            }
                        }
                    }
                }
                if c {
                    Some(true)
                } else {
                    scan_phantom_args(rest)
                }
            },
            _ => Some(false),
        },
    }
}

/// Scans fields in order for `PhantomData` fields.
pub fn scan_phantom_list(defs: &Vec<AdtDef>, l: &TyList) -> (r: Option<bool>)
    requires
        dids_unique(defs@),
    ensures
        r == phantom_list(defs@, *l),
    decreases l,
{
    match l {
        TyList::Nil => None,
        TyList::Cons(f, rest) => {
            match f {
                Ty::Adt(fd, fa) => {
                    match find_def(defs, *fd) {
                        Some(i) => {
                            if defs[i].is_phantom_data {
                                match scan_phantom_args(fa) {
                                    Some(b) => {
                                        return Some(b);
                                    },
                                    None => {},
                                }
                            }
                        },
                        None => {},
                    }
                },
                _ => {},
            }
            scan_phantom_list(defs, rest)
        },
    }
}

/// A function body: the types of its locals, and for each basic block the
/// function item that its terminator calls, if it calls one.
pub struct FnBody<L> {
    pub def_id: u64,
    pub local_decls: Vec<L>,
    pub calls: Vec<Option<u64>>,
}

/// A function body whose locals are types of the ownership analysis.
pub type MirBody = FnBody<Ty>;

/// The state of the ownership analysis: the definitions and bodies it
/// knows, what it has collected, and the entries it has computed.
pub struct TypeAnalysis {
    defs: Vec<AdtDef>,
    bodies: Vec<MirBody>,
    fn_set: HashSet<u64>,
    ty_map: Vec<Ty>,
    adt_recorder: HashSet<u64>,
    adt_owner: AdtOwner,
    type_limit: usize,
}

impl TypeAnalysis {
    /// The definitions.
    pub closed spec fn defs_view(&self) -> Seq<AdtDef> {
        self.defs@
    }

    /// The function bodies.
    pub closed spec fn bodies_view(&self) -> Seq<MirBody> {
        self.bodies@
    }

    /// The entries computed so far.
    pub closed spec fn owner_map(&self) -> Map<u64, Seq<VariantView>> {
        owner_view(&self.adt_owner)
    }

    /// The functions whose bodies have been visited.
    pub closed spec fn fn_set_view(&self) -> Set<u64> {
        self.fn_set@
    }

    /// The ADT types met so far, in the order they were met.
    pub closed spec fn ty_map_view(&self) -> Seq<Ty> {
        self.ty_map@
    }

    /// The ADT definitions met so far.
    pub closed spec fn adt_recorder_view(&self) -> Set<u64> {
        self.adt_recorder@
    }

    /// The most ADT types the collection may meet.
    pub closed spec fn type_limit_view(&self) -> usize {
        self.type_limit
    }

    /// Every ADT type met is well formed and closed in what was met, and the
    /// ADT definitions recorded are those of the types met.
    pub closed spec fn collection_is_closed(&self) -> bool {
        closure::collection_closed(self.defs@, self.ty_map@, self.adt_recorder@)
    }

    /// An analysis over the definitions `defs` and the function bodies
    /// `bodies` that meets at most `type_limit` distinct ADT types.
    pub fn new(defs: Vec<AdtDef>, bodies: Vec<MirBody>, type_limit: usize) -> (r: Self)
        ensures
            r.defs_view() == defs@,
            r.bodies_view() == bodies@,
            r.owner_map() == Map::<u64, Seq<VariantView>>::empty(),
            r.fn_set_view() == Set::<u64>::empty(),
            r.ty_map_view() == Seq::<Ty>::empty(),
            r.adt_recorder_view() == Set::<u64>::empty(),
            r.type_limit_view() == type_limit,
            r.collection_is_closed(),
    {
        let r = TypeAnalysis {
            defs,
            bodies,
            fn_set: HashSet::new(),
            ty_map: Vec::new(),
            adt_recorder: HashSet::new(),
            adt_owner: HashMap::new(),
            type_limit,
        };
        assert(owner_view(&r.adt_owner) =~= Map::<u64, Seq<VariantView>>::empty());
        assert(r.adt_recorder@ =~= closure::rec_of(r.ty_map@));
        assert(r.ty_map@.subrange(0, 0) =~= Seq::<Ty>::empty());
        r
    }

    /// The definitions.
    pub fn defs(&self) -> (r: &Vec<AdtDef>)
        ensures
            r@ == self.defs_view(),
    {
        &self.defs
    }

    /// The functions whose bodies have been visited.
    pub fn fn_set(&self) -> (r: &HashSet<u64>)
        ensures
            r@ == self.fn_set_view(),
    {
        &self.fn_set
    }

    /// The ADT types met so far.
    pub fn ty_map(&self) -> (r: &Vec<Ty>)
        ensures
            r@ == self.ty_map_view(),
    {
        &self.ty_map
    }

    /// The ADT definitions met so far.
    pub fn adt_recorder(&self) -> (r: &HashSet<u64>)
        ensures
            r@ == self.adt_recorder_view(),
    {
        &self.adt_recorder
    }

    /// The entries computed so far.
    pub fn adt_owner(&self) -> (r: &AdtOwner)
        ensures
            owner_view(r) == self.owner_map(),
    {
        &self.adt_owner
    }

    /// First pass on `did`: the raw parameters of each variant.
    pub fn extract_raw_generic(&mut self, did: u64, Ghost(s): Ghost<Set<u64>>)
        requires
            defs_basic_ok(old(self).defs_view()),
            closed_over(old(self).defs_view(), s),
            s.contains(did),
        ensures
            final(self).owner_map() == old(self).owner_map().insert(
                did,
                raw_generic_entry(def_of(old(self).defs_view(), did)),
            ),
            final(self).defs_view() == old(self).defs_view(),
            final(self).bodies_view() == old(self).bodies_view(),
            final(self).fn_set_view() == old(self).fn_set_view(),
            final(self).ty_map_view() == old(self).ty_map_view(),
            final(self).adt_recorder_view() == old(self).adt_recorder_view(),
            final(self).type_limit_view() == old(self).type_limit_view(),
    {
        let idx = find_def(&self.defs, did).unwrap();
        let ghost def = self.defs@[idx as int];
        let nv = self.defs[idx].variants.len();
        let n = self.defs[idx].n_generics;
        let mut v_res: Vec<(RawTypeOwner, Vec<bool>)> = Vec::new();
        let mut vi: usize = 0;
        while vi < nv
            invariant
                vi <= nv,
                nv == def.variants@.len(),
                n == def.n_generics,
                idx < self.defs@.len(),
                def == self.defs@[idx as int],
                def.did == did,
                defs_basic_ok(self.defs@),
                closed_over(self.defs@, s),
                s.contains(did),
                v_res@.len() == vi,
                forall|j: int|
                    0 <= j < vi ==> v_res@[j].0 == RawTypeOwner::Unowned && v_res@[j].1@ == Seq::new(
                        n as nat,
                        |i: int| raw_param_list(def.variants@[j], i),
                    ),
            decreases nv - vi,
        {
            let mut rg = RawGeneric::new(n);
            proof {
                assert(list_ok(self.defs@[idx as int].variants@[vi as int], s, def.n_generics as nat));
                lemma_raw_below_list(def.variants@[vi as int], s, n as nat);
            }
            rg.visit_list(&self.defs[idx].variants[vi]);
            let rec = copy_flags(rg.record());
            assert(rec@ =~= Seq::new(n as nat, |i: int| raw_param_list(def.variants@[vi as int], i)));
            v_res.push((RawTypeOwner::Unowned, rec));
            vi = vi + 1;
        }
        assert(entry_view(v_res) =~= raw_generic_entry(def));
        self.adt_owner.insert(did, v_res);
        assert(owner_view(&self.adt_owner) =~= old(self).owner_map().insert(did, raw_generic_entry(def)));
    }
}


impl TypeAnalysis {
    /// Second pass on `did`: propagates the raw parameters of each variant
    /// through the ADTs its fields reach.
    pub fn extract_raw_generic_prop(&mut self, did: u64, Ghost(s): Ghost<Set<u64>>)
        requires
            defs_basic_ok(old(self).defs_view()),
            closed_over(old(self).defs_view(), s),
            s.contains(did),
            owner_shaped(old(self).defs_view(), s, old(self).owner_map()),
        ensures
            final(self).owner_map() == old(self).owner_map().insert(
                did,
                raw_generic_prop_entry(old(self).defs_view(), old(self).owner_map(), did),
            ),
            final(self).defs_view() == old(self).defs_view(),
            final(self).bodies_view() == old(self).bodies_view(),
            final(self).fn_set_view() == old(self).fn_set_view(),
            final(self).ty_map_view() == old(self).ty_map_view(),
            final(self).adt_recorder_view() == old(self).adt_recorder_view(),
            final(self).type_limit_view() == old(self).type_limit_view(),
            owner_shaped(final(self).defs_view(), s, final(self).owner_map()),
    {
        let ghost ov = owner_view(&self.adt_owner);
        let ghost defs = self.defs@;
        let idx = find_def(&self.defs, did).unwrap();
        let ghost def = self.defs@[idx as int];
        let source_enum = self.defs[idx].kind == AdtKind::Enum;
        assert(ov.contains_key(defs[idx as int].did));
        let entry = self.adt_owner.get(&did).unwrap();
        let mut v_res = copy_entry(entry);
        let ghost e = ov[did];
        assert(entry_view(v_res) == e);
        assert forall|j: int| 0 <= j < e.len() implies (#[trigger] v_res@[j]).1@.len() == def.n_generics by {
            assert(entry_view(v_res)[j] == e[j]);
        }
        let nv = self.defs[idx].variants.len();
        let mut vi: usize = 0;
        while vi < nv
            invariant
                vi <= nv,
                nv == def.variants@.len(),
                idx < defs.len(),
                def == defs[idx as int],
                def.did == did,
                defs == self.defs@,
                ov == owner_view(&self.adt_owner),
                defs_basic_ok(defs),
                closed_over(defs, s),
                s.contains(did),
                owner_shaped(defs, s, ov),
                source_enum == (def.kind == AdtKind::Enum),
                e == ov[did],
                e.len() == nv,
                v_res@.len() == e.len(),
                forall|j: int| vi <= j < e.len() ==> entry_view(v_res)[j] == e[j],
                forall|j: int|
                    0 <= j < vi ==> entry_view(v_res)[j] == raw_generic_prop_entry(defs, ov, did)[j],
                forall|j: int| 0 <= j < e.len() ==> (#[trigger] v_res@[j]).1@.len() == def.n_generics,
            decreases nv - vi,
        {
            let rec = copy_flags(&v_res[vi].1);
            let mut prop = RawGenericPropagation::new(rec, source_enum);
            proof {
                assert(entry_view(v_res)[vi as int] == e[vi as int]);
                assert(e[vi as int].1.len() == def.n_generics);
                assert(list_ok(def.variants@[vi as int], s, def.n_generics as nat));
                assert forall|d: u64| s.contains(d) implies owner_view(&self.adt_owner).dom().contains(d) by {
                    assert(table_dids(defs).contains(d));
                    let i = choose|i: int| 0 <= i < defs.len() && defs[i].did == d;
                    assert(ov.contains_key(defs[i].did));
                }
            }
            prop.visit_fields(&self.defs, &self.adt_owner, &self.defs[idx].variants[vi], Ghost(s));
            let ghost old_res = entry_view(v_res);
            let ghost old_v = v_res@;
            v_res.set(vi, (RawTypeOwner::Unowned, prop.record));
            proof {
                assert forall|j: int| 0 <= j < e.len() implies (#[trigger] v_res@[j]).1@.len() == def.n_generics by {
                    if j != vi {
                        assert(v_res@[j] == old_v[j]);
                    }
                }
            }
            proof {
                assert forall|j: int| 0 <= j < vi + 1 implies entry_view(v_res)[j] == raw_generic_prop_entry(
                    defs,
                    ov,
                    did,
                )[j] by {
                    if j < vi {
                        assert(entry_view(v_res)[j] == old_res[j]);
                    }
                }
                assert forall|j: int| vi + 1 <= j < e.len() implies entry_view(v_res)[j] == e[j] by {
                    assert(entry_view(v_res)[j] == old_res[j]);
                }
            }
            vi = vi + 1;
        }
        assert(entry_view(v_res) =~= raw_generic_prop_entry(defs, ov, did));
        proof {
            assert(def_of(defs, did) == def);
            lemma_shaped_insert(defs, s, ov, did, entry_view(v_res));
        }
        self.adt_owner.insert(did, v_res);
        assert(owner_view(&self.adt_owner) =~= ov.insert(did, raw_generic_prop_entry(defs, ov, did)));
    }

    /// Third pass on `did`: a struct with a `PhantomData` field that carries
    /// a parameter becomes owned.
    pub fn extract_phantom_unit(&mut self, did: u64, Ghost(s): Ghost<Set<u64>>)
        requires
            defs_basic_ok(old(self).defs_view()),
            closed_over(old(self).defs_view(), s),
            s.contains(did),
            owner_shaped(old(self).defs_view(), s, old(self).owner_map()),
        ensures
            final(self).owner_map() == phantom_unit_result(old(self).defs_view(), old(self).owner_map(), did),
            final(self).defs_view() == old(self).defs_view(),
            final(self).bodies_view() == old(self).bodies_view(),
            final(self).fn_set_view() == old(self).fn_set_view(),
            final(self).ty_map_view() == old(self).ty_map_view(),
            final(self).adt_recorder_view() == old(self).adt_recorder_view(),
            final(self).type_limit_view() == old(self).type_limit_view(),
            owner_shaped(final(self).defs_view(), s, final(self).owner_map()),
    {
        let ghost ov = owner_view(&self.adt_owner);
        let ghost defs = self.defs@;
        let idx = find_def(&self.defs, did).unwrap();
        let ghost def = self.defs@[idx as int];
        if self.defs[idx].kind == AdtKind::Struct {
            assert(ov.contains_key(defs[idx as int].did));
            let entry = self.adt_owner.get(&did).unwrap();
            assert(entry_view(*entry) == ov[did]);
            assert(defs_basic_ok(defs));
            assert(def.variants@.len() == 1);
            assert(ov[did].len() == 1);
            let flags = copy_flags(&entry[0].1);
            let ghost vs = def.variants@;
            let nv = self.defs[idx].variants.len();
            assert(vs.skip(0) =~= vs);
            let mut vi: usize = 0;
            while vi < nv
                invariant
                    vi <= nv,
                    nv == vs.len(),
                    vs == def.variants@,
                    idx < defs.len(),
                    def == defs[idx as int],
                    defs == self.defs@,
                    dids_unique(defs),
                    def.did == did,
                    def.kind == AdtKind::Struct,
                    defs == old(self).defs@,
                    ov == old(self).owner_map(),
                    ov == owner_view(&self.adt_owner),
                    owner_shaped(defs, s, ov),
                    defs_basic_ok(defs),
                    closed_over(defs, s),
                    s.contains(did),
                    ov.contains_key(did),
                    ov[did].len() >= 1,
                    flags@ == ov[did][0].1,
                    self.bodies@ == old(self).bodies@,
                    self.fn_set@ == old(self).fn_set@,
                    self.ty_map@ == old(self).ty_map@,
                    self.adt_recorder@ == old(self).adt_recorder@,
                    self.type_limit == old(self).type_limit,
                    phantom_variants(defs, vs) == phantom_variants(defs, vs.skip(vi as int)),
                decreases nv - vi,
            {
                let r = scan_phantom_list(&self.defs, &self.defs[idx].variants[vi]);
                proof {
                    let rest = vs.skip(vi as int);
                    assert(rest[0] == vs[vi as int]);
                    assert(rest.drop_first() =~= vs.skip(vi + 1));
                }
                match r {
                    Some(true) => {
                        let mut v: Vec<(RawTypeOwner, Vec<bool>)> = Vec::new();
                        v.push((RawTypeOwner::Owned, flags));
                        self.adt_owner.insert(did, v);
                        assert(entry_view(v) =~= seq![(RawTypeOwner::Owned, ov[did][0].1)]);
                        assert(owner_view(&self.adt_owner) =~= phantom_unit_result(defs, ov, did));
                        proof {
                            assert(def_of(defs, did) == def);
                            lemma_shaped_insert(defs, s, ov, did, seq![(RawTypeOwner::Owned, ov[did][0].1)]);
                        }
                        return;
                    },
                    Some(false) => {
                        assert(phantom_variants(defs, vs.skip(vi as int)) == Some(false));
                        assert(!phantom_owned(defs, did));
                        return;
                    },
                    None => {},
                }
                vi = vi + 1;
            }
            assert(vs.skip(nv as int) =~= Seq::<TyList>::empty());
        }
    }

    /// Fourth pass on `did`: each variant becomes owned if an ADT its fields
    /// reach owns heap data.
    pub fn extract_owner_prop(&mut self, did: u64, Ghost(s): Ghost<Set<u64>>)
        requires
            defs_basic_ok(old(self).defs_view()),
            closed_over(old(self).defs_view(), s),
            s.contains(did),
            owner_shaped(old(self).defs_view(), s, old(self).owner_map()),
        ensures
            final(self).owner_map() == old(self).owner_map().insert(
                did,
                owner_prop_entry(old(self).defs_view(), old(self).owner_map(), did),
            ),
            final(self).defs_view() == old(self).defs_view(),
            final(self).bodies_view() == old(self).bodies_view(),
            final(self).fn_set_view() == old(self).fn_set_view(),
            final(self).ty_map_view() == old(self).ty_map_view(),
            final(self).adt_recorder_view() == old(self).adt_recorder_view(),
            final(self).type_limit_view() == old(self).type_limit_view(),
            owner_shaped(final(self).defs_view(), s, final(self).owner_map()),
    {
        let ghost ov = owner_view(&self.adt_owner);
        let ghost defs = self.defs@;
        let idx = find_def(&self.defs, did).unwrap();
        let ghost def = self.defs@[idx as int];
        assert(ov.contains_key(defs[idx as int].did));
        let entry = self.adt_owner.get(&did).unwrap();
        let mut v_res = copy_entry(entry);
        let ghost e = ov[did];
        assert(entry_view(v_res) == e);
        assert forall|j: int| 0 <= j < e.len() implies (#[trigger] v_res@[j]).1@.len() == def.n_generics by {
            assert(entry_view(v_res)[j] == e[j]);
        }
        let nv = self.defs[idx].variants.len();
        let mut vi: usize = 0;
        while vi < nv
            invariant
                vi <= nv,
                nv == def.variants@.len(),
                idx < defs.len(),
                def == defs[idx as int],
                def.did == did,
                defs == self.defs@,
                ov == owner_view(&self.adt_owner),
                defs_basic_ok(defs),
                closed_over(defs, s),
                s.contains(did),
                owner_shaped(defs, s, ov),
                e == ov[did],
                e.len() == nv,
                v_res@.len() == e.len(),
                forall|j: int| vi <= j < e.len() ==> entry_view(v_res)[j] == e[j],
                forall|j: int| 0 <= j < vi ==> entry_view(v_res)[j] == owner_prop_entry(defs, ov, did)[j],
                forall|j: int| 0 <= j < e.len() ==> (#[trigger] v_res@[j]).1@.len() == def.n_generics,
            decreases nv - vi,
        {
            let mut prop = OwnerPropagation::new(v_res[vi].0);
            proof {
                assert(entry_view(v_res)[vi as int] == e[vi as int]);
                assert(list_ok(def.variants@[vi as int], s, def.n_generics as nat));
                lemma_list_ok_weaken(def.variants@[vi as int], s, def.n_generics as nat, any_param());
                assert forall|d: u64| s.contains(d) implies owner_view(&self.adt_owner).dom().contains(d) by {
                    assert(table_dids(defs).contains(d));
                    let i = choose|i: int| 0 <= i < defs.len() && defs[i].did == d;
                    assert(ov.contains_key(defs[i].did));
                }
            }
            prop.visit_fields(&self.defs, &self.adt_owner, &self.defs[idx].variants[vi], Ghost(s));
            let ghost old_res = entry_view(v_res);
            let ghost old_v = v_res@;
            let flags = copy_flags(&v_res[vi].1);
            v_res.set(vi, (prop.ownership(), flags));
            proof {
                assert forall|j: int| 0 <= j < e.len() implies (#[trigger] v_res@[j]).1@.len() == def.n_generics by {
                    if j != vi {
                        assert(v_res@[j] == old_v[j]);
                    }
                }
            }
            proof {
                assert forall|j: int| 0 <= j < vi + 1 implies entry_view(v_res)[j] == owner_prop_entry(
                    defs,
                    ov,
                    did,
                )[j] by {
                    if j < vi {
                        assert(entry_view(v_res)[j] == old_res[j]);
                    }
                }
                assert forall|j: int| vi + 1 <= j < e.len() implies entry_view(v_res)[j] == e[j] by {
                    assert(entry_view(v_res)[j] == old_res[j]);
                }
            }
            vi = vi + 1;
        }
        assert(entry_view(v_res) =~= owner_prop_entry(defs, ov, did));
        proof {
            assert(def_of(defs, did) == def);
            lemma_shaped_insert(defs, s, ov, did, entry_view(v_res));
        }
        self.adt_owner.insert(did, v_res);
        assert(owner_view(&self.adt_owner) =~= ov.insert(did, owner_prop_entry(defs, ov, did)));
    }
}


/// The first pass over `dids`, in order.
pub open spec fn pass_raw(defs: Seq<AdtDef>, dids: Seq<u64>, owner: Map<u64, Seq<VariantView>>) -> Map<
    u64,
    Seq<VariantView>,
>
    decreases dids.len(),
{
    if dids.len() == 0 {
        owner
    } else {
        pass_raw(defs, dids.drop_first(), owner.insert(dids[0], raw_generic_entry(def_of(defs, dids[0]))))
    }
}

/// The second pass over `dids`, in order.
pub open spec fn pass_prop(defs: Seq<AdtDef>, dids: Seq<u64>, owner: Map<u64, Seq<VariantView>>) -> Map<
    u64,
    Seq<VariantView>,
>
    decreases dids.len(),
{
    if dids.len() == 0 {
        owner
    } else {
        pass_prop(defs, dids.drop_first(), owner.insert(dids[0], raw_generic_prop_entry(defs, owner, dids[0])))
    }
}

/// The third pass over `dids`, in order.
pub open spec fn pass_phantom(defs: Seq<AdtDef>, dids: Seq<u64>, owner: Map<u64, Seq<VariantView>>) -> Map<
    u64,
    Seq<VariantView>,
>
    decreases dids.len(),
{
    if dids.len() == 0 {
        owner
    } else {
        pass_phantom(defs, dids.drop_first(), phantom_unit_result(defs, owner, dids[0]))
    }
}

/// The fourth pass over `dids`, in order.
pub open spec fn pass_owner(defs: Seq<AdtDef>, dids: Seq<u64>, owner: Map<u64, Seq<VariantView>>) -> Map<
    u64,
    Seq<VariantView>,
>
    decreases dids.len(),
{
    if dids.len() == 0 {
        owner
    } else {
        pass_owner(defs, dids.drop_first(), owner.insert(dids[0], owner_prop_entry(defs, owner, dids[0])))
    }
}

/// The four passes, each over all of `dids` in order.
pub open spec fn ownership_passes(
    defs: Seq<AdtDef>,
    dids: Seq<u64>,
    owner: Map<u64, Seq<VariantView>>,
) -> Map<u64, Seq<VariantView>> {
    pass_owner(defs, dids, pass_phantom(defs, dids, pass_prop(defs, dids, pass_raw(defs, dids, owner))))
}

impl TypeAnalysis {
    /// Runs the four passes, each over all of `dids` in order.
    pub fn solve_ownership(&mut self, dids: &Vec<u64>)
        requires
            defs_basic_ok(old(self).defs_view()),
            closed_over(old(self).defs_view(), dids@.to_set()),
        ensures
            final(self).owner_map() == ownership_passes(old(self).defs_view(), dids@, old(self).owner_map()),
            owner_shaped(final(self).defs_view(), dids@.to_set(), final(self).owner_map()),
            final(self).defs_view() == old(self).defs_view(),
            final(self).bodies_view() == old(self).bodies_view(),
            final(self).fn_set_view() == old(self).fn_set_view(),
            final(self).ty_map_view() == old(self).ty_map_view(),
            final(self).adt_recorder_view() == old(self).adt_recorder_view(),
            final(self).type_limit_view() == old(self).type_limit_view(),
    {
        let ghost defs = self.defs@;
        let ghost s = dids@.to_set();
        let ghost o0 = self.owner_map();
        let n = dids.len();
        assert(dids@.skip(0) =~= dids@);
        let mut i: usize = 0;
        while i < n
            invariant
                i <= n,
                n == dids@.len(),
                s == dids@.to_set(),
                defs == self.defs@,
                defs_basic_ok(defs),
                closed_over(defs, s),
                pass_raw(defs, dids@, o0) == pass_raw(defs, dids@.skip(i as int), self.owner_map()),
                forall|j: int|
                    0 <= j < i ==> self.owner_map().contains_key(#[trigger] dids@[j])
                        && self.owner_map()[dids@[j]] == raw_generic_entry(def_of(defs, dids@[j])),
                self.bodies@ == old(self).bodies@,
                self.fn_set@ == old(self).fn_set@,
                self.ty_map@ == old(self).ty_map@,
                self.adt_recorder@ == old(self).adt_recorder@,
                self.type_limit == old(self).type_limit,
            decreases n - i,
        {
            let d = dids[i];
            assert(s.contains(d));
            self.extract_raw_generic(d, Ghost(s));
            proof {
                assert(dids@.skip(i as int).drop_first() =~= dids@.skip(i + 1));
                assert forall|j: int| 0 <= j < i + 1 implies self.owner_map().contains_key(#[trigger] dids@[j])
                    && self.owner_map()[dids@[j]] == raw_generic_entry(def_of(defs, dids@[j])) by {
                    if dids@[j] != d {
                        assert(j < i);
                    }
                }
            }
            i = i + 1;
        }
        assert(dids@.skip(n as int) =~= Seq::<u64>::empty());
        proof {
            let ov = self.owner_map();
            assert forall|k: int| 0 <= k < defs.len() && s.contains(defs[k].did) implies {
                &&& ov.contains_key(#[trigger] defs[k].did)
                &&& ov[defs[k].did].len() == defs[k].variants@.len()
                &&& forall|v: int|
                    0 <= v < defs[k].variants@.len() ==> (#[trigger] ov[defs[k].did][v]).1.len()
                        == defs[k].n_generics
            } by {
                assert(dids@.contains(defs[k].did));
                let j = choose|j: int| 0 <= j < dids@.len() && dids@[j] == defs[k].did;
                assert(ov[dids@[j]] == raw_generic_entry(def_of(defs, dids@[j])));
                let m = def_index(defs, defs[k].did);
                assert(table_dids(defs).contains(defs[k].did));
                assert(defs[m].did == defs[k].did);
                assert(m == k);
            }
        }
        let ghost o1 = self.owner_map();
        assert(owner_shaped(defs, s, o1));
        // second pass
        let mut i: usize = 0;
        while i < n
            invariant
                i <= n,
                n == dids@.len(),
                s == dids@.to_set(),
                defs == self.defs@,
                defs_basic_ok(defs),
                closed_over(defs, s),
                owner_shaped(defs, s, self.owner_map()),
                pass_prop(defs, dids@, o1) == pass_prop(defs, dids@.skip(i as int), self.owner_map()),
                self.bodies@ == old(self).bodies@,
                self.fn_set@ == old(self).fn_set@,
                self.ty_map@ == old(self).ty_map@,
                self.adt_recorder@ == old(self).adt_recorder@,
                self.type_limit == old(self).type_limit,
            decreases n - i,
        {
            let d = dids[i];
            assert(s.contains(d));
            self.extract_raw_generic_prop(d, Ghost(s));
            assert(dids@.skip(i as int).drop_first() =~= dids@.skip(i + 1));
            i = i + 1;
        }
        let ghost o2 = self.owner_map();
        // third pass
        let mut i: usize = 0;
        while i < n
            invariant
                i <= n,
                n == dids@.len(),
                s == dids@.to_set(),
                defs == self.defs@,
                defs_basic_ok(defs),
                closed_over(defs, s),
                owner_shaped(defs, s, self.owner_map()),
                pass_phantom(defs, dids@, o2) == pass_phantom(defs, dids@.skip(i as int), self.owner_map()),
                self.bodies@ == old(self).bodies@,
                self.fn_set@ == old(self).fn_set@,
                self.ty_map@ == old(self).ty_map@,
                self.adt_recorder@ == old(self).adt_recorder@,
                self.type_limit == old(self).type_limit,
            decreases n - i,
        {
            let d = dids[i];
            assert(s.contains(d));
            self.extract_phantom_unit(d, Ghost(s));
            assert(dids@.skip(i as int).drop_first() =~= dids@.skip(i + 1));
            i = i + 1;
        }
        let ghost o3 = self.owner_map();
        // fourth pass
        let mut i: usize = 0;
        while i < n
            invariant
                i <= n,
                n == dids@.len(),
                s == dids@.to_set(),
                defs == self.defs@,
                defs_basic_ok(defs),
                closed_over(defs, s),
                owner_shaped(defs, s, self.owner_map()),
                pass_owner(defs, dids@, o3) == pass_owner(defs, dids@.skip(i as int), self.owner_map()),
                self.bodies@ == old(self).bodies@,
                self.fn_set@ == old(self).fn_set@,
                self.ty_map@ == old(self).ty_map@,
                self.adt_recorder@ == old(self).adt_recorder@,
                self.type_limit == old(self).type_limit,
            decreases n - i,
        {
            let d = dids[i];
            assert(s.contains(d));
            self.extract_owner_prop(d, Ghost(s));
            assert(dids@.skip(i as int).drop_first() =~= dids@.skip(i + 1));
            i = i + 1;
        }
    }
}

// ---------------------------------------------------------------------------
// Collecting the ADT types that the bodies use

/// How many more ADT types may still be met.
pub open spec fn room(limit: nat, seen: Seq<Ty>) -> nat {
    if seen.len() <= limit {
        (limit - seen.len()) as nat
    } else {
        0
    }
}

/// What visiting `t` does to the ADT types met (`seen`, in order) and to
/// the ADT definitions met (`rec`); `false` when more than `limit` ADT types
/// would be met.
///
/// An ADT type met before is skipped. A new one is recorded, then the fields
/// of its definition are visited with its arguments substituted, then its
/// arguments. Arrays, slices, pointers and references visit what they hold;
/// a tuple visits its elements twice over.
pub open spec fn cl_ty(defs: Seq<AdtDef>, limit: nat, t: Ty, seen: Seq<Ty>, rec: Set<u64>) -> (
    Seq<Ty>,
    Set<u64>,
    bool,
)
    decreases room(limit, seen), 0nat, t,
{
    match t {
        Ty::Adt(did, a) => {
            if seen.contains(t) {
                (seen, rec, true)
            } else if seen.len() >= limit {
                (seen, rec, false)
            } else {
                let s1 = seen.push(t);
                let r1 = rec.insert(did);
                if !table_dids(defs).contains(did) {
                    (s1, r1, true)
                } else {
                    let (s2, r2, ok) = cl_variants(defs, limit, def_of(defs, did).variants@, *a, s1, r1);
                    if !ok {
                        (s2, r2, false)
                    } else if s1.len() <= s2.len() {
                        cl_args(defs, limit, *a, s2, r2)
                    } else {
                        (seen, rec, false)
                    }
                }
            }
        },
        Ty::Array(e) => cl_ty(defs, limit, *e, seen, rec),
        Ty::Slice(e) => cl_ty(defs, limit, *e, seen, rec),
        Ty::RawPtr(e) => cl_ty(defs, limit, *e, seen, rec),
        Ty::Ref(e) => cl_ty(defs, limit, *e, seen, rec),
        Ty::Tuple(l) => {
            let (s1, r1, ok) = cl_list(defs, limit, *l, seen, rec);
            if !ok {
                (s1, r1, false)
            } else if seen.len() <= s1.len() {
                cl_list(defs, limit, *l, s1, r1)
            } else {
                (seen, rec, false)
            }
        },
        _ => (seen, rec, true),
    }
}

/// Visits the fields of the variants `vs`, with `a` substituted, in order.
pub open spec fn cl_variants(
    defs: Seq<AdtDef>,
    limit: nat,
    vs: Seq<TyList>,
    a: GenericArgs,
    seen: Seq<Ty>,
    rec: Set<u64>,
) -> (Seq<Ty>, Set<u64>, bool)
    decreases room(limit, seen), 1nat, vs,
{
    if vs.len() == 0 {
        (seen, rec, true)
    } else {
        let (s1, r1, ok) = cl_list(defs, limit, subst_list(vs[0], a), seen, rec);
        if !ok {
            (s1, r1, false)
        } else if seen.len() <= s1.len() {
            cl_variants(defs, limit, vs.drop_first(), a, s1, r1)
        } else {
            (seen, rec, false)
        }
    }
}

/// Visits the types of `l` in order.
pub open spec fn cl_list(defs: Seq<AdtDef>, limit: nat, l: TyList, seen: Seq<Ty>, rec: Set<u64>) -> (
    Seq<Ty>,
    Set<u64>,
    bool,
)
    decreases room(limit, seen), 0nat, l,
{
    match l {
        TyList::Nil => (seen, rec, true),
        TyList::Cons(t, rest) => {
            let (s1, r1, ok) = cl_ty(defs, limit, t, seen, rec);
            if !ok {
                (s1, r1, false)
            } else if seen.len() <= s1.len() {
                cl_list(defs, limit, *rest, s1, r1)
            } else {
                (seen, rec, false)
            }
        },
    }
}

/// Visits the type arguments of `a` in order.
pub open spec fn cl_args(defs: Seq<AdtDef>, limit: nat, a: GenericArgs, seen: Seq<Ty>, rec: Set<u64>) -> (
    Seq<Ty>,
    Set<u64>,
    bool,
)
    decreases room(limit, seen), 0nat, a,
{
    match a {
        GenericArgs::Nil => (seen, rec, true),
        GenericArgs::Cons(g, rest) => match g {
            GenericArg::Type(u) => {
                let (s1, r1, ok) = cl_ty(defs, limit, u, seen, rec);
                if !ok {
                    (s1, r1, false)
                } else if seen.len() <= s1.len() {
                    cl_args(defs, limit, *rest, s1, r1)
                } else {
                    (seen, rec, false)
                }
            },
            _ => cl_args(defs, limit, *rest, seen, rec),
        },
    }
}

impl TypeAnalysis {
    /// Whether `t` has been met.
    fn ty_map_contains(&self, t: &Ty) -> (r: bool)
        ensures
            r == self.ty_map@.contains(*t),
    {
        let mut i: usize = 0;
        while i < self.ty_map.len()
            invariant
                i <= self.ty_map@.len(),
                forall|j: int| 0 <= j < i ==> self.ty_map@[j] != *t,
            decreases self.ty_map@.len() - i,
        {
            if ty_eq(&self.ty_map[i], t) {
                assert(self.ty_map@[i as int] == *t);
                return true;
            }
            i = i + 1;
        }
        false
    }

    /// Visits `t`, recording the ADT types and definitions it reaches;
    /// `false` when more than the limit of ADT types would be met.
    pub fn visit_ty(&mut self, t: &Ty) -> (ok: bool)
        requires
            table_ok(old(self).defs_view()),
            ty_ok(*t, table_dids(old(self).defs_view()), any_param()),
        ensures
            (final(self).ty_map_view(), final(self).adt_recorder_view(), ok) == cl_ty(
                old(self).defs_view(),
                old(self).type_limit_view() as nat,
                *t,
                old(self).ty_map_view(),
                old(self).adt_recorder_view(),
            ),
            old(self).ty_map_view().len() <= final(self).ty_map_view().len(),
            final(self).defs_view() == old(self).defs_view(),
            final(self).bodies_view() == old(self).bodies_view(),
            final(self).fn_set_view() == old(self).fn_set_view(),
            final(self).owner_map() == old(self).owner_map(),
            final(self).type_limit_view() == old(self).type_limit_view(),
        decreases room(old(self).type_limit_view() as nat, old(self).ty_map_view()), 0nat, t,
    {
        match t {
            Ty::Adt(did, a) => {
                if self.ty_map_contains(t) {
                    return true;
                }
                if self.ty_map.len() >= self.type_limit {
                    return false;
                }
                self.ty_map.push(copy_ty(t));
                self.adt_recorder.insert(*did);
                let ghost s1 = self.ty_map@;
                let idx = match find_def(&self.defs, *did) {
                    Some(i) => i,
                    None => {
                        return true;
                    },
                };
                let ghost defs = self.defs@;
                let ghost vs = defs[idx as int].variants@;
                let ghost lim = self.type_limit as nat;
                let nv = self.defs[idx].variants.len();
                assert(vs.skip(0) =~= vs);
                let mut vi: usize = 0;
                while vi < nv
                    invariant
                        vi <= nv,
                        nv == vs.len(),
                        idx < defs.len(),
                        defs == self.defs@,
                        vs == defs[idx as int].variants@,
                        table_ok(defs),
                        args_ok(**a, table_dids(defs), any_param()),
                        lim == self.type_limit,
                        self.type_limit == old(self).type_limit,
                        !old(self).ty_map@.contains(*t),
                        *t == Ty::Adt(*did, *a),
                        old(self).ty_map@.len() < lim,
                        table_dids(defs).contains(*did),
                        def_of(defs, *did).variants@ == vs,
                        defs == old(self).defs@,
                        s1 == old(self).ty_map@.push(*t),
                        s1.len() <= self.ty_map@.len(),
                        room(lim, s1) < room(lim, old(self).ty_map@),
                        cl_variants(defs, lim, vs, **a, s1, old(self).adt_recorder@.insert(*did)) == cl_variants(
                            defs,
                            lim,
                            vs.skip(vi as int),
                            **a,
                            self.ty_map@,
                            self.adt_recorder@,
                        ),
                        self.bodies@ == old(self).bodies@,
                        self.fn_set@ == old(self).fn_set@,
                        owner_view(&self.adt_owner) == owner_view(&old(self).adt_owner),
                    decreases nv - vi,
                {
                    let l = subst_ty_list(&self.defs[idx].variants[vi], a);
                    proof {
                        assert(list_ok(vs[vi as int], table_dids(defs), defs[idx as int].n_generics as nat));
                        lemma_subst_list_ok(
                            vs[vi as int],
                            **a,
                            table_dids(defs),
                            defs[idx as int].n_generics as nat,
                            any_param(),
                        );
                        let rest = vs.skip(vi as int);
                        assert(rest[0] == vs[vi as int]);
                        assert(rest.drop_first() =~= vs.skip(vi + 1));
                    }
                    let ghost sb = self.ty_map@;
                    let ghost rb = self.adt_recorder@;
                    if !self.visit_list(&l) {
                        assert(cl_variants(defs, lim, vs.skip(vi as int), **a, sb, rb) == (
                            self.ty_map@,
                            self.adt_recorder@,
                            false,
                        ));
                        return false;
                    }
                    vi = vi + 1;
                }
                assert(vs.skip(nv as int) =~= Seq::<TyList>::empty());
                self.visit_args(a)
            },
            Ty::Array(e) => self.visit_ty(e),
            Ty::Slice(e) => self.visit_ty(e),
            Ty::RawPtr(e) => self.visit_ty(e),
            Ty::Ref(e) => self.visit_ty(e),
            Ty::Tuple(l) => {
                if !self.visit_list(l) {
                    return false;
                }
                self.visit_list(l)
            },
            _ => true,
        }
    }

    /// Visits the types of `l` in order.
    pub fn visit_list(&mut self, l: &TyList) -> (ok: bool)
        requires
            table_ok(old(self).defs_view()),
            list_ok(*l, table_dids(old(self).defs_view()), any_param()),
        ensures
            (final(self).ty_map_view(), final(self).adt_recorder_view(), ok) == cl_list(
                old(self).defs_view(),
                old(self).type_limit_view() as nat,
                *l,
                old(self).ty_map_view(),
                old(self).adt_recorder_view(),
            ),
            old(self).ty_map_view().len() <= final(self).ty_map_view().len(),
            final(self).defs_view() == old(self).defs_view(),
            final(self).bodies_view() == old(self).bodies_view(),
            final(self).fn_set_view() == old(self).fn_set_view(),
            final(self).owner_map() == old(self).owner_map(),
            final(self).type_limit_view() == old(self).type_limit_view(),
        decreases room(old(self).type_limit_view() as nat, old(self).ty_map_view()), 0nat, l,
    {
        match l {
            TyList::Nil => true,
            TyList::Cons(t, rest) => {
                if !self.visit_ty(t) {
                    return false;
                }
                self.visit_list(rest)
            },
        }
    }

    /// Visits the type arguments of `a` in order.
    pub fn visit_args(&mut self, a: &GenericArgs) -> (ok: bool)
        requires
            table_ok(old(self).defs_view()),
            args_ok(*a, table_dids(old(self).defs_view()), any_param()),
        ensures
            (final(self).ty_map_view(), final(self).adt_recorder_view(), ok) == cl_args(
                old(self).defs_view(),
                old(self).type_limit_view() as nat,
                *a,
                old(self).ty_map_view(),
                old(self).adt_recorder_view(),
            ),
            old(self).ty_map_view().len() <= final(self).ty_map_view().len(),
            final(self).defs_view() == old(self).defs_view(),
            final(self).bodies_view() == old(self).bodies_view(),
            final(self).fn_set_view() == old(self).fn_set_view(),
            final(self).owner_map() == old(self).owner_map(),
            final(self).type_limit_view() == old(self).type_limit_view(),
        decreases room(old(self).type_limit_view() as nat, old(self).ty_map_view()), 0nat, a,
    {
        match a {
            GenericArgs::Nil => true,
            GenericArgs::Cons(g, rest) => match g {
                GenericArg::Type(u) => {
                    if !self.visit_ty(u) {
                        return false;
                    }
                    self.visit_args(rest)
                },
                _ => self.visit_args(rest),
            },
        }
    }
}


/// The ids of the functions that have a body.
pub open spec fn body_dids<L>(bodies: Seq<FnBody<L>>) -> Set<u64> {
    Set::new(|d: u64| exists|i: int| 0 <= i < bodies.len() && bodies[i].def_id == d)
}

/// The position of the body of `d`.
pub open spec fn body_index<L>(bodies: Seq<FnBody<L>>, d: u64) -> int {
    choose|i: int| 0 <= i < bodies.len() && bodies[i].def_id == d
}

/// The bodies have distinct ids and their locals have well-formed types.
pub open spec fn bodies_ok(defs: Seq<AdtDef>, bodies: Seq<MirBody>) -> bool {
    &&& forall|i: int, j: int|
        #![trigger bodies[i], bodies[j]]
        0 <= i < bodies.len() && 0 <= j < bodies.len() && bodies[i].def_id == bodies[j].def_id ==> i == j
    &&& forall|i: int, k: int|
        0 <= i < bodies.len() && 0 <= k < bodies[i].local_decls@.len() ==> ty_ok(
            #[trigger] bodies[i].local_decls@[k],
            table_dids(defs),
            any_param(),
        )
}

/// The number of bodies whose id is not in `fns`.
pub open spec fn unvisited_bodies(bodies: Seq<MirBody>, fns: Set<u64>) -> nat
    decreases bodies.len(),
{
    if bodies.len() == 0 {
        0
    } else {
        unvisited_bodies(bodies.drop_last(), fns) + if fns.contains(bodies.last().def_id) {
            0nat
        } else {
            1nat
        }
    }
}

pub proof fn lemma_unvisited_bodies_mono(bodies: Seq<MirBody>, f1: Set<u64>, f2: Set<u64>)
    requires
        f1.subset_of(f2),
    ensures
        unvisited_bodies(bodies, f2) <= unvisited_bodies(bodies, f1),
    decreases bodies.len(),
{
    if bodies.len() > 0 {
        lemma_unvisited_bodies_mono(bodies.drop_last(), f1, f2);
    }
}

pub proof fn lemma_unvisited_bodies_insert(bodies: Seq<MirBody>, f: Set<u64>, d: u64)
    requires
        !f.contains(d),
        body_dids(bodies).contains(d),
    ensures
        unvisited_bodies(bodies, f.insert(d)) < unvisited_bodies(bodies, f),
    decreases bodies.len(),
{
    let i = choose|i: int| 0 <= i < bodies.len() && bodies[i].def_id == d;
    if bodies.last().def_id == d {
        lemma_unvisited_bodies_mono(bodies.drop_last(), f, f.insert(d));
    } else {
        assert(bodies.drop_last()[i].def_id == d);
        assert(body_dids(bodies.drop_last()).contains(d));
        lemma_unvisited_bodies_insert(bodies.drop_last(), f, d);
    }
}

/// Visits the types of the locals `ls` in order.
pub open spec fn cl_locals(defs: Seq<AdtDef>, limit: nat, ls: Seq<Ty>, seen: Seq<Ty>, rec: Set<u64>) -> (
    Seq<Ty>,
    Set<u64>,
    bool,
)
    decreases ls.len(),
{
    if ls.len() == 0 {
        (seen, rec, true)
    } else {
        let (s1, r1, ok) = cl_ty(defs, limit, ls[0], seen, rec);
        if !ok {
            (s1, r1, false)
        } else {
            cl_locals(defs, limit, ls.drop_first(), s1, r1)
        }
    }
}

/// What visiting the body at position `bi` does to the visited functions,
/// the ADT types met and the ADT definitions met: the types of its locals
/// are visited, then the body of each function item called that has a body
/// and was not visited yet.
pub open spec fn vb_body(
    defs: Seq<AdtDef>,
    bodies: Seq<MirBody>,
    limit: nat,
    bi: int,
    fns: Set<u64>,
    seen: Seq<Ty>,
    rec: Set<u64>,
) -> (Set<u64>, Seq<Ty>, Set<u64>, bool)
    decreases unvisited_bodies(bodies, fns), 1nat, bodies[bi].calls@,
{
    let (s1, r1, ok) = cl_locals(defs, limit, bodies[bi].local_decls@, seen, rec);
    if !ok {
        (fns, s1, r1, false)
    } else {
        vb_calls(defs, bodies, limit, bodies[bi].calls@, fns, s1, r1)
    }
}

/// Follows the calls `calls` in order.
pub open spec fn vb_calls(
    defs: Seq<AdtDef>,
    bodies: Seq<MirBody>,
    limit: nat,
    calls: Seq<Option<u64>>,
    fns: Set<u64>,
    seen: Seq<Ty>,
    rec: Set<u64>,
) -> (Set<u64>, Seq<Ty>, Set<u64>, bool)
    decreases unvisited_bodies(bodies, fns), 0nat, calls,
{
    if calls.len() == 0 {
        (fns, seen, rec, true)
    } else {
        match calls[0] {
            Some(fd) => if body_dids(bodies).contains(fd) && !fns.contains(fd) {
                proof {
                    lemma_unvisited_bodies_insert(bodies, fns, fd);
                }
                let (f2, s2, r2, ok) = vb_body(
                    defs,
                    bodies,
                    limit,
                    body_index(bodies, fd),
                    fns.insert(fd),
                    seen,
                    rec,
                );
                if !ok {
                    (f2, s2, r2, false)
                } else if fns.subset_of(f2) {
                    proof {
                        lemma_unvisited_bodies_mono(bodies, fns, f2);
                    }
                    vb_calls(defs, bodies, limit, calls.drop_first(), f2, s2, r2)
                } else {
                    (fns, seen, rec, false)
                }
            } else {
                vb_calls(defs, bodies, limit, calls.drop_first(), fns, seen, rec)
            },
            None => vb_calls(defs, bodies, limit, calls.drop_first(), fns, seen, rec),
        }
    }
}

/// Visits the bodies of the functions `keys` in order, each unless visited
/// already.
pub open spec fn vb_keys(
    defs: Seq<AdtDef>,
    bodies: Seq<MirBody>,
    limit: nat,
    keys: Seq<u64>,
    fns: Set<u64>,
    seen: Seq<Ty>,
    rec: Set<u64>,
) -> (Set<u64>, Seq<Ty>, Set<u64>, bool)
    decreases keys.len(),
{
    if keys.len() == 0 {
        (fns, seen, rec, true)
    } else if fns.contains(keys[0]) {
        vb_keys(defs, bodies, limit, keys.drop_first(), fns, seen, rec)
    } else {
        let (f1, s1, r1, ok) = vb_body(
            defs,
            bodies,
            limit,
            body_index(bodies, keys[0]),
            fns.insert(keys[0]),
            seen,
            rec,
        );
        if !ok {
            (f1, s1, r1, false)
        } else {
            vb_keys(defs, bodies, limit, keys.drop_first(), f1, s1, r1)
        }
    }
}

/// Finds the body of the function `d`.
pub fn find_body<L>(bodies: &Vec<FnBody<L>>, d: u64) -> (r: Option<usize>)
    requires
        forall|i: int, j: int|
            #![trigger bodies@[i], bodies@[j]]
            0 <= i < bodies@.len() && 0 <= j < bodies@.len() && bodies@[i].def_id == bodies@[j].def_id ==> i
                == j,
    ensures
        match r {
            Some(i) => i < bodies@.len() && bodies@[i as int].def_id == d && i == body_index(bodies@, d),
            None => !body_dids(bodies@).contains(d),
        },
{
    let mut i: usize = 0;
    while i < bodies.len()
        invariant
            i <= bodies@.len(),
            forall|i: int, j: int|
                #![trigger bodies@[i], bodies@[j]]
                0 <= i < bodies@.len() && 0 <= j < bodies@.len() && bodies@[i].def_id == bodies@[j].def_id
                    ==> i == j,
            forall|j: int| 0 <= j < i ==> bodies@[j].def_id != d,
        decreases bodies@.len() - i,
    {
        if bodies[i].def_id == d {
            proof {
                let k = body_index(bodies@, d);
                assert(0 <= k < bodies@.len() && bodies@[k].def_id == d);
                assert(bodies@[k].def_id == bodies@[i as int].def_id);
            }
            return Some(i);
        }
        i = i + 1;
    }
    None
}

impl TypeAnalysis {
    /// Visits the body at position `bi`: the types of its locals, then the
    /// bodies of the functions it calls that were not visited yet.
    pub fn visit_body(&mut self, bi: usize) -> (ok: bool)
        requires
            table_ok(old(self).defs_view()),
            bodies_ok(old(self).defs_view(), old(self).bodies_view()),
            bi < old(self).bodies_view().len(),
        ensures
            (final(self).fn_set_view(), final(self).ty_map_view(), final(self).adt_recorder_view(), ok)
                == vb_body(
                old(self).defs_view(),
                old(self).bodies_view(),
                old(self).type_limit_view() as nat,
                bi as int,
                old(self).fn_set_view(),
                old(self).ty_map_view(),
                old(self).adt_recorder_view(),
            ),
            old(self).fn_set_view().subset_of(final(self).fn_set_view()),
            final(self).defs_view() == old(self).defs_view(),
            final(self).bodies_view() == old(self).bodies_view(),
            final(self).owner_map() == old(self).owner_map(),
            final(self).type_limit_view() == old(self).type_limit_view(),
        decreases
            unvisited_bodies(old(self).bodies_view(), old(self).fn_set_view()),
            1nat,
            old(self).bodies_view()[bi as int].calls@,
    {
        let ghost defs = self.defs@;
        let ghost bodies = self.bodies@;
        let ghost lim = self.type_limit as nat;
        let ghost ls = bodies[bi as int].local_decls@;
        let nl = self.bodies[bi].local_decls.len();
        assert(ls.skip(0) =~= ls);
        let mut li: usize = 0;
        while li < nl
            invariant
                li <= nl,
                nl == ls.len(),
                bi < bodies.len(),
                ls == bodies[bi as int].local_decls@,
                defs == self.defs@,
                bodies == self.bodies@,
                defs == old(self).defs@,
                bodies == old(self).bodies@,
                table_ok(defs),
                bodies_ok(defs, bodies),
                lim == self.type_limit,
                self.type_limit == old(self).type_limit,
                self.fn_set@ == old(self).fn_set@,
                owner_view(&self.adt_owner) == owner_view(&old(self).adt_owner),
                cl_locals(defs, lim, ls, old(self).ty_map@, old(self).adt_recorder@) == cl_locals(
                    defs,
                    lim,
                    ls.skip(li as int),
                    self.ty_map@,
                    self.adt_recorder@,
                ),
            decreases nl - li,
        {
            let t = copy_ty(&self.bodies[bi].local_decls[li]);
            proof {
                assert(ty_ok(ls[li as int], table_dids(defs), any_param()));
                let rest = ls.skip(li as int);
                assert(rest[0] == ls[li as int]);
                assert(rest.drop_first() =~= ls.skip(li + 1));
            }
            if !self.visit_ty(&t) {
                return false;
            }
            li = li + 1;
        }
        assert(ls.skip(nl as int) =~= Seq::<Ty>::empty());
        let ghost s1 = self.ty_map@;
        let ghost r1 = self.adt_recorder@;
        assert(cl_locals(defs, lim, ls, old(self).ty_map@, old(self).adt_recorder@) == (s1, r1, true));
        let ghost cs = bodies[bi as int].calls@;
        let nc = self.bodies[bi].calls.len();
        assert(cs.skip(0) =~= cs);
        let mut ci: usize = 0;
        while ci < nc
            invariant
                ci <= nc,
                nc == cs.len(),
                bi < bodies.len(),
                cs == bodies[bi as int].calls@,
                defs == self.defs@,
                bodies == self.bodies@,
                defs == old(self).defs@,
                bodies == old(self).bodies@,
                table_ok(defs),
                bodies_ok(defs, bodies),
                lim == self.type_limit,
                self.type_limit == old(self).type_limit,
                old(self).fn_set@.subset_of(self.fn_set@),
                owner_view(&self.adt_owner) == owner_view(&old(self).adt_owner),
                vb_body(defs, bodies, lim, bi as int, old(self).fn_set@, old(self).ty_map@, old(self).adt_recorder@)
                    == vb_calls(defs, bodies, lim, cs, old(self).fn_set@, s1, r1),
                vb_calls(defs, bodies, lim, cs, old(self).fn_set@, s1, r1) == vb_calls(
                    defs,
                    bodies,
                    lim,
                    cs.skip(ci as int),
                    self.fn_set@,
                    self.ty_map@,
                    self.adt_recorder@,
                ),
            decreases nc - ci,
        {
            let c = self.bodies[bi].calls[ci];
            let ghost fb = self.fn_set@;
            let ghost sb = self.ty_map@;
            let ghost rb = self.adt_recorder@;
            proof {
                let rest = cs.skip(ci as int);
                assert(rest[0] == cs[ci as int]);
                assert(rest.drop_first() =~= cs.skip(ci + 1));
            }
            match c {
                Some(fd) => {
                    match find_body(&self.bodies, fd) {
                        Some(j) => {
                            if self.fn_set.insert(fd) {
                                proof {
                                    lemma_unvisited_bodies_insert(bodies, fb, fd);
                                    lemma_unvisited_bodies_mono(bodies, old(self).fn_set@, fb);
                                }
                                if !self.visit_body(j) {
                                    assert(vb_calls(defs, bodies, lim, cs.skip(ci as int), fb, sb, rb) == (
                                        self.fn_set@,
                                        self.ty_map@,
                                        self.adt_recorder@,
                                        false,
                                    ));
                                    return false;
                                }
                                assert(fb.subset_of(self.fn_set@));
                            } else {
                                assert(self.fn_set@ =~= fb);
                            }
                        },
                        None => {},
                    }
                },
                None => {},
            }
            assert(vb_calls(defs, bodies, lim, cs.skip(ci as int), fb, sb, rb) == vb_calls(
                defs,
                bodies,
                lim,
                cs.skip(ci + 1),
                self.fn_set@,
                self.ty_map@,
                self.adt_recorder@,
            ));
            ci = ci + 1;
        }
        assert(cs.skip(nc as int) =~= Seq::<Option<u64>>::empty());
        true
    }
}


/// Whether `bodies_ok(defs, bodies)` holds.
pub fn bodies_check(defs: &Vec<AdtDef>, bodies: &Vec<MirBody>) -> (r: bool)
    ensures
        r == bodies_ok(defs@, bodies@),
{
    let table = table_ids(defs);
    let mut i: usize = 0;
    while i < bodies.len()
        invariant
            i <= bodies@.len(),
            table@.to_set() == table_dids(defs@),
            forall|a: int, b: int|
                #![trigger bodies@[a], bodies@[b]]
                0 <= a < i && 0 <= b < bodies@.len() && bodies@[a].def_id == bodies@[b].def_id ==> a == b,
            forall|a: int, k: int|
                0 <= a < i && 0 <= k < bodies@[a].local_decls@.len() ==> ty_ok(
                    #[trigger] bodies@[a].local_decls@[k],
                    table_dids(defs@),
                    any_param(),
                ),
        decreases bodies@.len() - i,
    {
        let mut j: usize = 0;
        while j < bodies.len()
            invariant
                i < bodies@.len(),
                j <= bodies@.len(),
                forall|b: int| 0 <= b < j && b != i ==> bodies@[b].def_id != bodies@[i as int].def_id,
            decreases bodies@.len() - j,
        {
            if j != i && bodies[j].def_id == bodies[i].def_id {
                assert(!bodies_ok(defs@, bodies@)) by {
                    assert(bodies@[i as int].def_id == bodies@[j as int].def_id);
                }
                return false;
            }
            j = j + 1;
        }
        let mut k: usize = 0;
        while k < bodies[i].local_decls.len()
            invariant
                i < bodies@.len(),
                k <= bodies@[i as int].local_decls@.len(),
                table@.to_set() == table_dids(defs@),
                forall|m: int|
                    0 <= m < k ==> ty_ok(
                        #[trigger] bodies@[i as int].local_decls@[m],
                        table_dids(defs@),
                        any_param(),
                    ),
            decreases bodies@[i as int].local_decls@.len() - k,
        {
            if !ty_within(&bodies[i].local_decls[k], &table, usize::MAX as u128 + 1) {
                assert(!bodies_ok(defs@, bodies@)) by {
                    assert(!ty_ok(bodies@[i as int].local_decls@[k as int], table_dids(defs@), any_param()));
                }
                return false;
            }
            k = k + 1;
        }
        i = i + 1;
    }
    true
}

impl TypeAnalysis {
    /// The ids of the ADT definitions met, in the order the set hands them out.
    fn recorded_dids(&self) -> (r: Vec<u64>)
        ensures
            r@.to_set() == self.adt_recorder@,
            r@.no_duplicates(),
    {
        let mut r: Vec<u64> = Vec::new();
        let ghost ks = vstd::std_specs::hash::spec_hash_keys_iter(&self.adt_recorder).remaining().unref();
        for d in it: self.adt_recorder.iter()
            invariant
                ks == it.seq().unref(),
                r@ == ks.take(it.index()),
        {
            r.push(*d);
            proof {
                assert(r@ =~= ks.take(it.index() + 1));
            }
        }
        assert(r@ =~= ks);
        r
    }

    /// Visits the body of each function of `mir_keys` not visited yet, then
    /// runs the four passes over the ADT definitions met.
    ///
    /// Returns `false`, and leaves the entries untouched, when the limit of
    /// ADT types is reached, or when the definitions met name ADTs that were
    /// not met. The latter never happens when the collection was closed
    /// before, as it is for a new analysis: the collection then stays closed.
    pub fn visitor(&mut self, mir_keys: &Vec<u64>) -> (ok: bool)
        requires
            table_ok(old(self).defs_view()),
            bodies_ok(old(self).defs_view(), old(self).bodies_view()),
            forall|i: int| 0 <= i < mir_keys@.len() ==> body_dids(old(self).bodies_view()).contains(#[trigger] mir_keys@[i]),
        ensures
            ({
                let (f, s, r, cok) = vb_keys(
                    old(self).defs_view(),
                    old(self).bodies_view(),
                    old(self).type_limit_view() as nat,
                    mir_keys@,
                    old(self).fn_set_view(),
                    old(self).ty_map_view(),
                    old(self).adt_recorder_view(),
                );
                &&& final(self).fn_set_view() == f
                &&& final(self).ty_map_view() == s
                &&& final(self).adt_recorder_view() == r
                &&& ok == (cok && closed_over(old(self).defs_view(), r))
            }),
            ok ==> exists|order: Seq<u64>|
                order.no_duplicates() && order.to_set() == final(self).adt_recorder_view()
                    && final(self).owner_map() == ownership_passes(old(self).defs_view(), order, old(self).owner_map()),
            ok ==> owner_shaped(final(self).defs_view(), final(self).adt_recorder_view(), final(self).owner_map()),
            !ok ==> final(self).owner_map() == old(self).owner_map(),
            old(self).collection_is_closed() ==> (ok == vb_keys(
                old(self).defs_view(),
                old(self).bodies_view(),
                old(self).type_limit_view() as nat,
                mir_keys@,
                old(self).fn_set_view(),
                old(self).ty_map_view(),
                old(self).adt_recorder_view(),
            ).3),
            old(self).collection_is_closed() && ok ==> final(self).collection_is_closed(),
            final(self).defs_view() == old(self).defs_view(),
            final(self).bodies_view() == old(self).bodies_view(),
            final(self).type_limit_view() == old(self).type_limit_view(),
    {
        let ghost defs = self.defs@;
        let ghost was_closed = self.collection_is_closed();
        let ghost bodies = self.bodies@;
        let ghost lim = self.type_limit as nat;
        let ghost ks = mir_keys@;
        let n = mir_keys.len();
        assert(ks.skip(0) =~= ks);
        let mut i: usize = 0;
        while i < n
            invariant
                i <= n,
                n == ks.len(),
                ks == mir_keys@,
                defs == self.defs@,
                bodies == self.bodies@,
                defs == old(self).defs@,
                bodies == old(self).bodies@,
                table_ok(defs),
                bodies_ok(defs, bodies),
                forall|j: int| 0 <= j < ks.len() ==> body_dids(bodies).contains(#[trigger] ks[j]),
                lim == self.type_limit,
                self.type_limit == old(self).type_limit,
                owner_view(&self.adt_owner) == owner_view(&old(self).adt_owner),
                vb_keys(defs, bodies, lim, ks, old(self).fn_set@, old(self).ty_map@, old(self).adt_recorder@)
                    == vb_keys(defs, bodies, lim, ks.skip(i as int), self.fn_set@, self.ty_map@, self.adt_recorder@),
            decreases n - i,
        {
            let k = mir_keys[i];
            proof {
                let rest = ks.skip(i as int);
                assert(rest[0] == ks[i as int]);
                assert(rest.drop_first() =~= ks.skip(i + 1));
                assert(body_dids(bodies).contains(ks[i as int]));
            }
            let ghost fb = self.fn_set@;
            let ghost sb = self.ty_map@;
            let ghost rb = self.adt_recorder@;
            if self.fn_set.insert(k) {
                let bi = find_body(&self.bodies, k).unwrap();
                if !self.visit_body(bi) {
                    assert(vb_keys(defs, bodies, lim, ks.skip(i as int), fb, sb, rb) == (
                        self.fn_set@,
                        self.ty_map@,
                        self.adt_recorder@,
                        false,
                    ));
                    return false;
                }
            } else {
                assert(self.fn_set@ =~= fb);
            }
            assert(vb_keys(defs, bodies, lim, ks.skip(i as int), fb, sb, rb) == vb_keys(
                defs,
                bodies,
                lim,
                ks.skip(i + 1),
                self.fn_set@,
                self.ty_map@,
                self.adt_recorder@,
            ));
            i = i + 1;
        }
        assert(ks.skip(n as int) =~= Seq::<u64>::empty());
        proof {
            if was_closed {
                closure::lemma_vb_keys_closed(
                    defs,
                    bodies,
                    lim,
                    ks,
                    old(self).fn_set@,
                    old(self).ty_map@,
                    old(self).adt_recorder@,
                );
                closure::lemma_grows_trans(defs, Seq::empty(), old(self).ty_map@, self.ty_map@);
                closure::lemma_closed_collection(defs, self.ty_map@, self.adt_recorder@);
            }
        }
        let dids = self.recorded_dids();
        if !closed_over_check(&self.defs, &dids) {
            return false;
        }
        self.solve_ownership(&dids);
        true
    }
}

} // verus!
