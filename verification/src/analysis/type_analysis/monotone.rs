//! The propagations only add: a raw flag once set stays set, and an owned
//! variant stays owned.
use vstd::prelude::*;

use crate::analysis::type_analysis::ownership::RawTypeOwner;
use crate::analysis::type_analysis::{
    body_dids, body_index, cl_locals, lemma_unvisited_bodies_insert, lemma_unvisited_bodies_mono, unvisited_bodies,
    vb_body, vb_calls, vb_keys, MirBody, gp_args, gp_fields, gp_tuple, gp_ty, gp_variants, lemma_unvisited_insert, lemma_unvisited_mono,
    op_args, op_fields, op_tuple, op_ty, op_variants, owner_prop_entry, phantom_unit_result, propagated,
    raw_generic_prop_entry, unvisited, VariantView, arg_field_param,
};
use crate::ty::{def_of, subst_list, table_dids, AdtDef, AdtKind, GenericArg, GenericArgs, Ty, TyList};

verus! {

/// `r1` keeps every flag that `r0` sets.
pub open spec fn flags_grow(r0: Seq<bool>, r1: Seq<bool>) -> bool {
    r0.len() == r1.len() && forall|i: int| 0 <= i < r0.len() && #[trigger] r0[i] ==> r1[i]
}

/// An owned variant stays owned.
pub open spec fn owner_grows(o0: RawTypeOwner, o1: RawTypeOwner) -> bool {
    o0 == RawTypeOwner::Owned ==> o1 == RawTypeOwner::Owned
}

proof fn lemma_flags_trans(r0: Seq<bool>, r1: Seq<bool>, r2: Seq<bool>)
    requires
        flags_grow(r0, r1),
        flags_grow(r1, r2),
    ensures
        flags_grow(r0, r2),
{
    assert forall|i: int| 0 <= i < r0.len() && #[trigger] r0[i] implies r2[i] by {
        assert(r1[i]);
    }
}

/// Propagating raw parameters through a type never clears a flag.
pub proof fn lemma_gp_ty_grows(
    defs: Seq<AdtDef>,
    owner: Map<u64, Seq<VariantView>>,
    src_enum: bool,
    t: Ty,
    rec: Seq<bool>,
    uniq: Set<u64>,
)
    ensures
        flags_grow(rec, gp_ty(defs, owner, src_enum, t, rec, uniq).0),
    decreases unvisited(defs, uniq), 0nat, t,
{
    match t {
        Ty::Adt(did, a) => {
            if a.len() == 0 || !table_dids(defs).contains(did) || (!src_enum && def_of(defs, did).kind
                == AdtKind::Enum) || uniq.contains(did) {
            } else {
                let u1 = uniq.insert(did);
                if !crate::analysis::type_analysis::has_param_arg(*a) || !owner.contains_key(did) || owner[did].len()
                    == 0 {
                } else {
                    let rec1 = propagated(rec, owner[did][0].1, *a);
                    lemma_unvisited_insert(defs, uniq, did);
                    let (rec2, u2) = gp_variants(defs, owner, src_enum, def_of(defs, did).variants@, *a, rec1, u1);
                    lemma_gp_variants_grows(defs, owner, src_enum, def_of(defs, did).variants@, *a, rec1, u1);
                    if u1.subset_of(u2) {
                        let u3 = u2.remove(did);
                        assert(uniq.subset_of(u3));
                        lemma_unvisited_mono(defs, uniq, u3);
                        lemma_gp_args_grows(defs, owner, src_enum, *a, rec2, u3);
                        lemma_flags_trans(rec, rec1, rec2);
                        lemma_flags_trans(rec, rec2, gp_ty(defs, owner, src_enum, t, rec, uniq).0);
                    }
                }
            }
        },
        Ty::Array(e) => lemma_gp_ty_grows(defs, owner, src_enum, *e, rec, uniq),
        Ty::Tuple(l) => lemma_gp_tuple_grows(defs, owner, src_enum, *l, rec, uniq),
        _ => {},
    }
}

pub proof fn lemma_gp_variants_grows(
    defs: Seq<AdtDef>,
    owner: Map<u64, Seq<VariantView>>,
    src_enum: bool,
    vs: Seq<TyList>,
    a: GenericArgs,
    rec: Seq<bool>,
    uniq: Set<u64>,
)
    ensures
        flags_grow(rec, gp_variants(defs, owner, src_enum, vs, a, rec, uniq).0),
    decreases unvisited(defs, uniq), 1nat, vs,
{
    if vs.len() > 0 {
        let (r1, u1) = gp_fields(defs, owner, src_enum, subst_list(vs[0], a), rec, uniq);
        lemma_gp_fields_grows(defs, owner, src_enum, subst_list(vs[0], a), rec, uniq);
        if uniq.subset_of(u1) {
            lemma_unvisited_mono(defs, uniq, u1);
            lemma_gp_variants_grows(defs, owner, src_enum, vs.drop_first(), a, r1, u1);
            lemma_flags_trans(rec, r1, gp_variants(defs, owner, src_enum, vs, a, rec, uniq).0);
        }
    }
}

pub proof fn lemma_gp_fields_grows(
    defs: Seq<AdtDef>,
    owner: Map<u64, Seq<VariantView>>,
    src_enum: bool,
    l: TyList,
    rec: Seq<bool>,
    uniq: Set<u64>,
)
    ensures
        flags_grow(rec, gp_fields(defs, owner, src_enum, l, rec, uniq).0),
    decreases unvisited(defs, uniq), 0nat, l,
{
    match l {
        TyList::Nil => {},
        TyList::Cons(t, rest) => {
            let (r1, u1, _) = gp_ty(defs, owner, src_enum, t, rec, uniq);
            lemma_gp_ty_grows(defs, owner, src_enum, t, rec, uniq);
            if uniq.subset_of(u1) {
                lemma_unvisited_mono(defs, uniq, u1);
                lemma_gp_fields_grows(defs, owner, src_enum, *rest, r1, u1);
                lemma_flags_trans(rec, r1, gp_fields(defs, owner, src_enum, l, rec, uniq).0);
            }
        },
    }
}

pub proof fn lemma_gp_args_grows(
    defs: Seq<AdtDef>,
    owner: Map<u64, Seq<VariantView>>,
    src_enum: bool,
    a: GenericArgs,
    rec: Seq<bool>,
    uniq: Set<u64>,
)
    ensures
        flags_grow(rec, gp_args(defs, owner, src_enum, a, rec, uniq).0),
    decreases unvisited(defs, uniq), 0nat, a,
{
    match a {
        GenericArgs::Nil => {},
        GenericArgs::Cons(g, rest) => match g {
            GenericArg::Type(u) => {
                let (r1, u1, b) = gp_ty(defs, owner, src_enum, u, rec, uniq);
                lemma_gp_ty_grows(defs, owner, src_enum, u, rec, uniq);
                if !b && uniq.subset_of(u1) {
                    lemma_unvisited_mono(defs, uniq, u1);
                    lemma_gp_args_grows(defs, owner, src_enum, *rest, r1, u1);
                    lemma_flags_trans(rec, r1, gp_args(defs, owner, src_enum, a, rec, uniq).0);
                }
            },
            _ => lemma_gp_args_grows(defs, owner, src_enum, *rest, rec, uniq),
        },
    }
}

pub proof fn lemma_gp_tuple_grows(
    defs: Seq<AdtDef>,
    owner: Map<u64, Seq<VariantView>>,
    src_enum: bool,
    l: TyList,
    rec: Seq<bool>,
    uniq: Set<u64>,
)
    ensures
        flags_grow(rec, gp_tuple(defs, owner, src_enum, l, rec, uniq).0),
    decreases unvisited(defs, uniq), 0nat, l,
{
    match l {
        TyList::Nil => {},
        TyList::Cons(t, rest) => {
            let (r1, u1, b) = gp_ty(defs, owner, src_enum, t, rec, uniq);
            lemma_gp_ty_grows(defs, owner, src_enum, t, rec, uniq);
            if !b && uniq.subset_of(u1) {
                lemma_unvisited_mono(defs, uniq, u1);
                lemma_gp_tuple_grows(defs, owner, src_enum, *rest, r1, u1);
                lemma_flags_trans(rec, r1, gp_tuple(defs, owner, src_enum, l, rec, uniq).0);
            }
        },
    }
}

/// Propagating ownership through a type keeps an owned variant owned.
pub proof fn lemma_op_ty_grows(defs: Seq<AdtDef>, owner: Map<u64, Seq<VariantView>>, t: Ty, own: RawTypeOwner, uniq: Set<u64>)
    ensures
        owner_grows(own, op_ty(defs, owner, t, own, uniq).0),
    decreases unvisited(defs, uniq), 0nat, t,
{
    match t {
        Ty::Adt(did, a) => {
            if uniq.contains(did) {
            } else {
                let u1 = uniq.insert(did);
                if !table_dids(defs).contains(did) || def_of(defs, did).kind == AdtKind::Enum || !owner.contains_key(did)
                    || owner[did].len() == 0 {
                } else {
                    let own1 = if owner[did][0].0 == RawTypeOwner::Owned {
                        RawTypeOwner::Owned
                    } else {
                        own
                    };
                    lemma_unvisited_insert(defs, uniq, did);
                    let (own2, u2) = op_variants(defs, owner, def_of(defs, did).variants@, *a, own1, u1);
                    lemma_op_variants_grows(defs, owner, def_of(defs, did).variants@, *a, own1, u1);
                    if u1.subset_of(u2) {
                        let u3 = u2.remove(did);
                        assert(uniq.subset_of(u3));
                        lemma_unvisited_mono(defs, uniq, u3);
                        lemma_op_args_grows(defs, owner, *a, own2, u3);
                    }
                }
            }
        },
        Ty::Array(e) => lemma_op_ty_grows(defs, owner, *e, own, uniq),
        Ty::Tuple(l) => lemma_op_tuple_grows(defs, owner, *l, own, uniq),
        _ => {},
    }
}

pub proof fn lemma_op_variants_grows(
    defs: Seq<AdtDef>,
    owner: Map<u64, Seq<VariantView>>,
    vs: Seq<TyList>,
    a: GenericArgs,
    own: RawTypeOwner,
    uniq: Set<u64>,
)
    ensures
        owner_grows(own, op_variants(defs, owner, vs, a, own, uniq).0),
    decreases unvisited(defs, uniq), 1nat, vs,
{
    if vs.len() > 0 {
        let (o1, u1) = op_fields(defs, owner, subst_list(vs[0], a), own, uniq);
        lemma_op_fields_grows(defs, owner, subst_list(vs[0], a), own, uniq);
        if uniq.subset_of(u1) {
            lemma_unvisited_mono(defs, uniq, u1);
            lemma_op_variants_grows(defs, owner, vs.drop_first(), a, o1, u1);
        }
    }
}

pub proof fn lemma_op_fields_grows(
    defs: Seq<AdtDef>,
    owner: Map<u64, Seq<VariantView>>,
    l: TyList,
    own: RawTypeOwner,
    uniq: Set<u64>,
)
    ensures
        owner_grows(own, op_fields(defs, owner, l, own, uniq).0),
    decreases unvisited(defs, uniq), 0nat, l,
{
    match l {
        TyList::Nil => {},
        TyList::Cons(t, rest) => {
            let (o1, u1, _) = op_ty(defs, owner, t, own, uniq);
            lemma_op_ty_grows(defs, owner, t, own, uniq);
            if uniq.subset_of(u1) {
                lemma_unvisited_mono(defs, uniq, u1);
                lemma_op_fields_grows(defs, owner, *rest, o1, u1);
            }
        },
    }
}

pub proof fn lemma_op_args_grows(
    defs: Seq<AdtDef>,
    owner: Map<u64, Seq<VariantView>>,
    a: GenericArgs,
    own: RawTypeOwner,
    uniq: Set<u64>,
)
    ensures
        owner_grows(own, op_args(defs, owner, a, own, uniq).0),
    decreases unvisited(defs, uniq), 0nat, a,
{
    match a {
        GenericArgs::Nil => {},
        GenericArgs::Cons(g, rest) => match g {
            GenericArg::Type(u) => {
                let (o1, u1, b) = op_ty(defs, owner, u, own, uniq);
                lemma_op_ty_grows(defs, owner, u, own, uniq);
                if !b && uniq.subset_of(u1) {
                    lemma_unvisited_mono(defs, uniq, u1);
                    lemma_op_args_grows(defs, owner, *rest, o1, u1);
                }
            },
            _ => lemma_op_args_grows(defs, owner, *rest, own, uniq),
        },
    }
}

pub proof fn lemma_op_tuple_grows(
    defs: Seq<AdtDef>,
    owner: Map<u64, Seq<VariantView>>,
    l: TyList,
    own: RawTypeOwner,
    uniq: Set<u64>,
)
    ensures
        owner_grows(own, op_tuple(defs, owner, l, own, uniq).0),
    decreases unvisited(defs, uniq), 0nat, l,
{
    match l {
        TyList::Nil => {},
        TyList::Cons(t, rest) => {
            let (o1, u1, b) = op_ty(defs, owner, t, own, uniq);
            lemma_op_ty_grows(defs, owner, t, own, uniq);
            if !b && uniq.subset_of(u1) {
                lemma_unvisited_mono(defs, uniq, u1);
                lemma_op_tuple_grows(defs, owner, *rest, o1, u1);
            }
        },
    }
}


/// `o1` is `o0`, or owned.
pub open spec fn own_or_owned(o0: RawTypeOwner, o1: RawTypeOwner) -> bool {
    o1 == o0 || o1 == RawTypeOwner::Owned
}

/// Propagating raw parameters through a type only adds to the set of ADTs
/// being visited; so the tests of `gp_*` that this set did not shrink always
/// pass, and the arms taken when they fail are never taken.
pub proof fn lemma_gp_ty_uniq(
    defs: Seq<AdtDef>,
    owner: Map<u64, Seq<VariantView>>,
    src_enum: bool,
    t: Ty,
    rec: Seq<bool>,
    uniq: Set<u64>,
)
    ensures
        uniq.subset_of(gp_ty(defs, owner, src_enum, t, rec, uniq).1),
    decreases unvisited(defs, uniq), 0nat, t,
{
    match t {
        Ty::Adt(did, a) => {
            if a.len() == 0 || !table_dids(defs).contains(did) || (!src_enum && def_of(defs, did).kind
                == AdtKind::Enum) || uniq.contains(did) {
            } else {
                let u1 = uniq.insert(did);
                if !crate::analysis::type_analysis::has_param_arg(*a) || !owner.contains_key(did) || owner[did].len()
                    == 0 {
                } else {
                    let rec1 = propagated(rec, owner[did][0].1, *a);
                    lemma_unvisited_insert(defs, uniq, did);
                    let (rec2, u2) = gp_variants(defs, owner, src_enum, def_of(defs, did).variants@, *a, rec1, u1);
                    lemma_gp_variants_uniq(defs, owner, src_enum, def_of(defs, did).variants@, *a, rec1, u1);
                    let u3 = u2.remove(did);
                    assert(uniq.subset_of(u3));
                    lemma_unvisited_mono(defs, uniq, u3);
                    lemma_gp_args_uniq(defs, owner, src_enum, *a, rec2, u3);
                }
            }
        },
        Ty::Array(e) => lemma_gp_ty_uniq(defs, owner, src_enum, *e, rec, uniq),
        Ty::Tuple(l) => lemma_gp_tuple_uniq(defs, owner, src_enum, *l, rec, uniq),
        _ => {},
    }
}

pub proof fn lemma_gp_variants_uniq(
    defs: Seq<AdtDef>,
    owner: Map<u64, Seq<VariantView>>,
    src_enum: bool,
    vs: Seq<TyList>,
    a: GenericArgs,
    rec: Seq<bool>,
    uniq: Set<u64>,
)
    ensures
        uniq.subset_of(gp_variants(defs, owner, src_enum, vs, a, rec, uniq).1),
    decreases unvisited(defs, uniq), 1nat, vs,
{
    if vs.len() > 0 {
        let (r1, u1) = gp_fields(defs, owner, src_enum, subst_list(vs[0], a), rec, uniq);
        lemma_gp_fields_uniq(defs, owner, src_enum, subst_list(vs[0], a), rec, uniq);
        lemma_unvisited_mono(defs, uniq, u1);
        lemma_gp_variants_uniq(defs, owner, src_enum, vs.drop_first(), a, r1, u1);
    }
}

pub proof fn lemma_gp_fields_uniq(
    defs: Seq<AdtDef>,
    owner: Map<u64, Seq<VariantView>>,
    src_enum: bool,
    l: TyList,
    rec: Seq<bool>,
    uniq: Set<u64>,
)
    ensures
        uniq.subset_of(gp_fields(defs, owner, src_enum, l, rec, uniq).1),
    decreases unvisited(defs, uniq), 0nat, l,
{
    match l {
        TyList::Nil => {},
        TyList::Cons(t, rest) => {
            let (r1, u1, _) = gp_ty(defs, owner, src_enum, t, rec, uniq);
            lemma_gp_ty_uniq(defs, owner, src_enum, t, rec, uniq);
            lemma_unvisited_mono(defs, uniq, u1);
            lemma_gp_fields_uniq(defs, owner, src_enum, *rest, r1, u1);
        },
    }
}

pub proof fn lemma_gp_args_uniq(
    defs: Seq<AdtDef>,
    owner: Map<u64, Seq<VariantView>>,
    src_enum: bool,
    a: GenericArgs,
    rec: Seq<bool>,
    uniq: Set<u64>,
)
    ensures
        uniq.subset_of(gp_args(defs, owner, src_enum, a, rec, uniq).1),
    decreases unvisited(defs, uniq), 0nat, a,
{
    match a {
        GenericArgs::Nil => {},
        GenericArgs::Cons(g, rest) => match g {
            GenericArg::Type(u) => {
                let (r1, u1, b) = gp_ty(defs, owner, src_enum, u, rec, uniq);
                lemma_gp_ty_uniq(defs, owner, src_enum, u, rec, uniq);
                if !b {
                    lemma_unvisited_mono(defs, uniq, u1);
                    lemma_gp_args_uniq(defs, owner, src_enum, *rest, r1, u1);
                }
            },
            _ => lemma_gp_args_uniq(defs, owner, src_enum, *rest, rec, uniq),
        },
    }
}

pub proof fn lemma_gp_tuple_uniq(
    defs: Seq<AdtDef>,
    owner: Map<u64, Seq<VariantView>>,
    src_enum: bool,
    l: TyList,
    rec: Seq<bool>,
    uniq: Set<u64>,
)
    ensures
        uniq.subset_of(gp_tuple(defs, owner, src_enum, l, rec, uniq).1),
    decreases unvisited(defs, uniq), 0nat, l,
{
    match l {
        TyList::Nil => {},
        TyList::Cons(t, rest) => {
            let (r1, u1, b) = gp_ty(defs, owner, src_enum, t, rec, uniq);
            lemma_gp_ty_uniq(defs, owner, src_enum, t, rec, uniq);
            if !b {
                lemma_unvisited_mono(defs, uniq, u1);
                lemma_gp_tuple_uniq(defs, owner, src_enum, *rest, r1, u1);
            }
        },
    }
}

/// Propagating ownership through a type only adds to the set of ADTs being
/// visited (so the tests of `op_*` that this set did not shrink always pass),
/// and leaves the ownership as it was or makes it owned.
pub proof fn lemma_op_ty_shape(defs: Seq<AdtDef>, owner: Map<u64, Seq<VariantView>>, t: Ty, own: RawTypeOwner, uniq: Set<u64>)
    ensures
        uniq.subset_of(op_ty(defs, owner, t, own, uniq).1),
        own_or_owned(own, op_ty(defs, owner, t, own, uniq).0),
    decreases unvisited(defs, uniq), 0nat, t,
{
    match t {
        Ty::Adt(did, a) => {
            if !uniq.contains(did) {
                let u1 = uniq.insert(did);
                if table_dids(defs).contains(did) && def_of(defs, did).kind != AdtKind::Enum && owner.contains_key(did)
                    && owner[did].len() > 0 {
                    let own1 = if owner[did][0].0 == RawTypeOwner::Owned {
                        RawTypeOwner::Owned
                    } else {
                        own
                    };
                    lemma_unvisited_insert(defs, uniq, did);
                    let (own2, u2) = op_variants(defs, owner, def_of(defs, did).variants@, *a, own1, u1);
                    lemma_op_variants_shape(defs, owner, def_of(defs, did).variants@, *a, own1, u1);
                    let u3 = u2.remove(did);
                    assert(uniq.subset_of(u3));
                    lemma_unvisited_mono(defs, uniq, u3);
                    lemma_op_args_shape(defs, owner, *a, own2, u3);
                }
            }
        },
        Ty::Array(e) => lemma_op_ty_shape(defs, owner, *e, own, uniq),
        Ty::Tuple(l) => lemma_op_tuple_shape(defs, owner, *l, own, uniq),
        _ => {},
    }
}

pub proof fn lemma_op_variants_shape(
    defs: Seq<AdtDef>,
    owner: Map<u64, Seq<VariantView>>,
    vs: Seq<TyList>,
    a: GenericArgs,
    own: RawTypeOwner,
    uniq: Set<u64>,
)
    ensures
        uniq.subset_of(op_variants(defs, owner, vs, a, own, uniq).1),
        own_or_owned(own, op_variants(defs, owner, vs, a, own, uniq).0),
    decreases unvisited(defs, uniq), 1nat, vs,
{
    if vs.len() > 0 {
        let (o1, u1) = op_fields(defs, owner, subst_list(vs[0], a), own, uniq);
        lemma_op_fields_shape(defs, owner, subst_list(vs[0], a), own, uniq);
        lemma_unvisited_mono(defs, uniq, u1);
        lemma_op_variants_shape(defs, owner, vs.drop_first(), a, o1, u1);
    }
}

pub proof fn lemma_op_fields_shape(
    defs: Seq<AdtDef>,
    owner: Map<u64, Seq<VariantView>>,
    l: TyList,
    own: RawTypeOwner,
    uniq: Set<u64>,
)
    ensures
        uniq.subset_of(op_fields(defs, owner, l, own, uniq).1),
        own_or_owned(own, op_fields(defs, owner, l, own, uniq).0),
    decreases unvisited(defs, uniq), 0nat, l,
{
    match l {
        TyList::Nil => {},
        TyList::Cons(t, rest) => {
            let (o1, u1, _) = op_ty(defs, owner, t, own, uniq);
            lemma_op_ty_shape(defs, owner, t, own, uniq);
            lemma_unvisited_mono(defs, uniq, u1);
            lemma_op_fields_shape(defs, owner, *rest, o1, u1);
        },
    }
}

pub proof fn lemma_op_args_shape(
    defs: Seq<AdtDef>,
    owner: Map<u64, Seq<VariantView>>,
    a: GenericArgs,
    own: RawTypeOwner,
    uniq: Set<u64>,
)
    ensures
        uniq.subset_of(op_args(defs, owner, a, own, uniq).1),
        own_or_owned(own, op_args(defs, owner, a, own, uniq).0),
    decreases unvisited(defs, uniq), 0nat, a,
{
    match a {
        GenericArgs::Nil => {},
        GenericArgs::Cons(g, rest) => match g {
            GenericArg::Type(u) => {
                let (o1, u1, b) = op_ty(defs, owner, u, own, uniq);
                lemma_op_ty_shape(defs, owner, u, own, uniq);
                if !b {
                    lemma_unvisited_mono(defs, uniq, u1);
                    lemma_op_args_shape(defs, owner, *rest, o1, u1);
                }
            },
            _ => lemma_op_args_shape(defs, owner, *rest, own, uniq),
        },
    }
}

pub proof fn lemma_op_tuple_shape(
    defs: Seq<AdtDef>,
    owner: Map<u64, Seq<VariantView>>,
    l: TyList,
    own: RawTypeOwner,
    uniq: Set<u64>,
)
    ensures
        uniq.subset_of(op_tuple(defs, owner, l, own, uniq).1),
        own_or_owned(own, op_tuple(defs, owner, l, own, uniq).0),
    decreases unvisited(defs, uniq), 0nat, l,
{
    match l {
        TyList::Nil => {},
        TyList::Cons(t, rest) => {
            let (o1, u1, b) = op_ty(defs, owner, t, own, uniq);
            lemma_op_ty_shape(defs, owner, t, own, uniq);
            if !b {
                lemma_unvisited_mono(defs, uniq, u1);
                lemma_op_tuple_shape(defs, owner, *rest, o1, u1);
            }
        },
    }
}

/// What visiting a type does to the ownership of the variant analysed: it
/// stays as it was or becomes owned, an owned variant stays owned, and
/// meeting, outside the ADTs being visited, a struct or union with an entry
/// whose first variant is owned makes it owned.
pub proof fn lemma_owner_visit(defs: Seq<AdtDef>, owner: Map<u64, Seq<VariantView>>, t: Ty, own: RawTypeOwner, uniq: Set<u64>)
    ensures
        own_or_owned(own, op_ty(defs, owner, t, own, uniq).0),
        owner_grows(own, op_ty(defs, owner, t, own, uniq).0),
        (t matches Ty::Adt(d, _) && !uniq.contains(d) && table_dids(defs).contains(d) && def_of(defs, d).kind
            != AdtKind::Enum && owner.contains_key(d) && owner[d].len() > 0 && owner[d][0].0 == RawTypeOwner::Owned)
            ==> op_ty(defs, owner, t, own, uniq).0 == RawTypeOwner::Owned,
{
    lemma_op_ty_shape(defs, owner, t, own, uniq);
    lemma_op_ty_grows(defs, owner, t, own, uniq);
    match t {
        Ty::Adt(did, a) => {
            if !uniq.contains(did) && table_dids(defs).contains(did) && def_of(defs, did).kind != AdtKind::Enum
                && owner.contains_key(did) && owner[did].len() > 0 && owner[did][0].0 == RawTypeOwner::Owned {
                let u1 = uniq.insert(did);
                lemma_unvisited_insert(defs, uniq, did);
                let vs = def_of(defs, did).variants@;
                let (own2, u2) = op_variants(defs, owner, vs, *a, RawTypeOwner::Owned, u1);
                lemma_op_variants_shape(defs, owner, vs, *a, RawTypeOwner::Owned, u1);
                lemma_op_variants_grows(defs, owner, vs, *a, RawTypeOwner::Owned, u1);
                let u3 = u2.remove(did);
                assert(uniq.subset_of(u3));
                lemma_unvisited_mono(defs, uniq, u3);
                lemma_op_args_grows(defs, owner, *a, own2, u3);
            }
        },
        _ => {},
    }
}

/// A type that the propagations pass over without a change: neither an
/// ADT, nor an array, nor a tuple.
pub open spec fn passed_over(t: Ty) -> bool {
    !(t is Adt || t is Array || t is Tuple)
}

/// Visiting `t` first meets an owned struct or union: `t` is one, outside
/// the ADTs being visited, with an entry whose first variant is owned; or
/// `t` is an array of such a type; or a tuple whose elements before the
/// first such one are all passed over.
pub open spec fn meets_owned(defs: Seq<AdtDef>, owner: Map<u64, Seq<VariantView>>, t: Ty, uniq: Set<u64>) -> bool
    decreases t,
{
    match t {
        Ty::Adt(d, _) => !uniq.contains(d) && table_dids(defs).contains(d) && def_of(defs, d).kind != AdtKind::Enum
            && owner.contains_key(d) && owner[d].len() > 0 && owner[d][0].0 == RawTypeOwner::Owned,
        Ty::Array(e) => meets_owned(defs, owner, *e, uniq),
        Ty::Tuple(l) => meets_owned_list(defs, owner, *l, uniq),
        _ => false,
    }
}

pub open spec fn meets_owned_list(defs: Seq<AdtDef>, owner: Map<u64, Seq<VariantView>>, l: TyList, uniq: Set<u64>) -> bool
    decreases l,
{
    match l {
        TyList::Nil => false,
        TyList::Cons(t, rest) => meets_owned(defs, owner, t, uniq) || (passed_over(t) && meets_owned_list(
            defs,
            owner,
            *rest,
            uniq,
        )),
    }
}

/// Ownership is found through arrays and tuples: a variant that meets an
/// owned struct or union, directly, as the element of an array, or among
/// the elements of a tuple, becomes owned, whatever it was before.
pub proof fn lemma_owner_through(
    defs: Seq<AdtDef>,
    owner: Map<u64, Seq<VariantView>>,
    t: Ty,
    own: RawTypeOwner,
    uniq: Set<u64>,
)
    requires
        meets_owned(defs, owner, t, uniq),
    ensures
        op_ty(defs, owner, t, own, uniq).0 == RawTypeOwner::Owned,
    decreases t,
{
    match t {
        Ty::Adt(_, _) => lemma_owner_visit(defs, owner, t, own, uniq),
        Ty::Array(e) => lemma_owner_through(defs, owner, *e, own, uniq),
        Ty::Tuple(l) => lemma_owner_through_list(defs, owner, *l, own, uniq),
        _ => {},
    }
}

pub proof fn lemma_owner_through_list(
    defs: Seq<AdtDef>,
    owner: Map<u64, Seq<VariantView>>,
    l: TyList,
    own: RawTypeOwner,
    uniq: Set<u64>,
)
    requires
        meets_owned_list(defs, owner, l, uniq),
    ensures
        op_tuple(defs, owner, l, own, uniq).0 == RawTypeOwner::Owned,
    decreases l,
{
    match l {
        TyList::Nil => {},
        TyList::Cons(t, rest) => {
            let (o1, u1, b) = op_ty(defs, owner, t, own, uniq);
            lemma_op_ty_shape(defs, owner, t, own, uniq);
            if meets_owned(defs, owner, t, uniq) {
                lemma_owner_through(defs, owner, t, own, uniq);
                if !b {
                    lemma_unvisited_mono(defs, uniq, u1);
                    lemma_op_tuple_grows(defs, owner, *rest, o1, u1);
                }
            } else {
                assert(op_ty(defs, owner, t, own, uniq) == (own, uniq, false));
                lemma_owner_through_list(defs, owner, *rest, own, uniq);
            }
        },
    }
}

/// Visiting `t` first meets an ADT whose raw flags reach parameter `e`: an
/// ADT with type arguments, outside the ADTs being visited, visited from
/// where it may be (an enum only from an enum), with an entry whose first
/// variant flags a position `k` whose argument holds `e`; or an array of
/// such a type; or a tuple whose elements before the first such one are
/// all passed over.
pub open spec fn meets_raw(
    defs: Seq<AdtDef>,
    owner: Map<u64, Seq<VariantView>>,
    src_enum: bool,
    t: Ty,
    uniq: Set<u64>,
    e: int,
) -> bool
    decreases t,
{
    match t {
        Ty::Adt(d, a) => a.len() != 0 && table_dids(defs).contains(d) && (src_enum || def_of(defs, d).kind
            != AdtKind::Enum) && !uniq.contains(d) && owner.contains_key(d) && owner[d].len() > 0 && exists|k: int|
            0 <= k < owner[d][0].1.len() && owner[d][0].1[k] && #[trigger] arg_field_param(*a, k, e),
        Ty::Array(x) => meets_raw(defs, owner, src_enum, *x, uniq, e),
        Ty::Tuple(l) => meets_raw_list(defs, owner, src_enum, *l, uniq, e),
        _ => false,
    }
}

pub open spec fn meets_raw_list(
    defs: Seq<AdtDef>,
    owner: Map<u64, Seq<VariantView>>,
    src_enum: bool,
    l: TyList,
    uniq: Set<u64>,
    e: int,
) -> bool
    decreases l,
{
    match l {
        TyList::Nil => false,
        TyList::Cons(t, rest) => meets_raw(defs, owner, src_enum, t, uniq, e) || (passed_over(t) && meets_raw_list(
            defs,
            owner,
            src_enum,
            *rest,
            uniq,
            e,
        )),
    }
}

/// Raw parameters are found through arrays and tuples: when a type meets,
/// directly, as the element of an array, or among the elements of a tuple,
/// an ADT whose first variant holds a flagged argument that mentions
/// parameter `e`, flag `e` is set after the visit.
pub proof fn lemma_raw_through(
    defs: Seq<AdtDef>,
    owner: Map<u64, Seq<VariantView>>,
    src_enum: bool,
    t: Ty,
    rec: Seq<bool>,
    uniq: Set<u64>,
    e: int,
)
    requires
        meets_raw(defs, owner, src_enum, t, uniq, e),
        0 <= e < rec.len(),
    ensures
        gp_ty(defs, owner, src_enum, t, rec, uniq).0.len() == rec.len(),
        gp_ty(defs, owner, src_enum, t, rec, uniq).0[e],
    decreases t,
{
    lemma_gp_ty_grows(defs, owner, src_enum, t, rec, uniq);
    match t {
        Ty::Adt(did, a) => {
            let k = choose|k: int|
                0 <= k < owner[did][0].1.len() && owner[did][0].1[k] && #[trigger] arg_field_param(*a, k, e);
            assert(crate::analysis::type_analysis::has_param_arg(*a));
            let u1 = uniq.insert(did);
            let rec1 = propagated(rec, owner[did][0].1, *a);
            assert(rec1[e]);
            lemma_unvisited_insert(defs, uniq, did);
            let (rec2, u2) = gp_variants(defs, owner, src_enum, def_of(defs, did).variants@, *a, rec1, u1);
            lemma_gp_variants_grows(defs, owner, src_enum, def_of(defs, did).variants@, *a, rec1, u1);
            lemma_gp_variants_uniq(defs, owner, src_enum, def_of(defs, did).variants@, *a, rec1, u1);
            let u3 = u2.remove(did);
            assert(uniq.subset_of(u3));
            lemma_unvisited_mono(defs, uniq, u3);
            lemma_gp_args_grows(defs, owner, src_enum, *a, rec2, u3);
        },
        Ty::Array(x) => lemma_raw_through(defs, owner, src_enum, *x, rec, uniq, e),
        Ty::Tuple(l) => lemma_raw_through_list(defs, owner, src_enum, *l, rec, uniq, e),
        _ => {},
    }
}

pub proof fn lemma_raw_through_list(
    defs: Seq<AdtDef>,
    owner: Map<u64, Seq<VariantView>>,
    src_enum: bool,
    l: TyList,
    rec: Seq<bool>,
    uniq: Set<u64>,
    e: int,
)
    requires
        meets_raw_list(defs, owner, src_enum, l, uniq, e),
        0 <= e < rec.len(),
    ensures
        gp_tuple(defs, owner, src_enum, l, rec, uniq).0.len() == rec.len(),
        gp_tuple(defs, owner, src_enum, l, rec, uniq).0[e],
    decreases l,
{
    lemma_gp_tuple_grows(defs, owner, src_enum, l, rec, uniq);
    match l {
        TyList::Nil => {},
        TyList::Cons(t, rest) => {
            let (r1, u1, b) = gp_ty(defs, owner, src_enum, t, rec, uniq);
            lemma_gp_ty_uniq(defs, owner, src_enum, t, rec, uniq);
            if meets_raw(defs, owner, src_enum, t, uniq, e) {
                lemma_raw_through(defs, owner, src_enum, t, rec, uniq, e);
                if !b {
                    lemma_unvisited_mono(defs, uniq, u1);
                    lemma_gp_tuple_grows(defs, owner, src_enum, *rest, r1, u1);
                }
            } else {
                assert(gp_ty(defs, owner, src_enum, t, rec, uniq) == (rec, uniq, false));
                lemma_raw_through_list(defs, owner, src_enum, *rest, rec, uniq, e);
            }
        },
    }
}

/// Raw parameters are found through the first fields of a variant: when the
/// fields before one that meets a flagged argument mentioning `e` are all
/// passed over, flag `e` is set after the fields are visited.
pub proof fn lemma_raw_through_fields(
    defs: Seq<AdtDef>,
    owner: Map<u64, Seq<VariantView>>,
    src_enum: bool,
    l: TyList,
    rec: Seq<bool>,
    uniq: Set<u64>,
    e: int,
)
    requires
        meets_raw_list(defs, owner, src_enum, l, uniq, e),
        0 <= e < rec.len(),
    ensures
        gp_fields(defs, owner, src_enum, l, rec, uniq).0.len() == rec.len(),
        gp_fields(defs, owner, src_enum, l, rec, uniq).0[e],
    decreases l,
{
    lemma_gp_fields_grows(defs, owner, src_enum, l, rec, uniq);
    match l {
        TyList::Nil => {},
        TyList::Cons(t, rest) => {
            let (r1, u1, b) = gp_ty(defs, owner, src_enum, t, rec, uniq);
            lemma_gp_ty_uniq(defs, owner, src_enum, t, rec, uniq);
            if meets_raw(defs, owner, src_enum, t, uniq, e) {
                lemma_raw_through(defs, owner, src_enum, t, rec, uniq, e);
                lemma_unvisited_mono(defs, uniq, u1);
                lemma_gp_fields_grows(defs, owner, src_enum, *rest, r1, u1);
            } else {
                assert(gp_ty(defs, owner, src_enum, t, rec, uniq) == (rec, uniq, false));
                lemma_raw_through_fields(defs, owner, src_enum, *rest, rec, uniq, e);
            }
        },
    }
}

/// The second pass sets flag `e` of variant `v` of `did` when the fields of
/// the variant, before one that meets a flagged argument mentioning `e`,
/// are all passed over.
pub proof fn lemma_raw_prop_entry(defs: Seq<AdtDef>, owner: Map<u64, Seq<VariantView>>, did: u64, v: int, e: int)
    requires
        owner.contains_key(did),
        0 <= v < owner[did].len(),
        v < def_of(defs, did).variants@.len(),
        0 <= e < owner[did][v].1.len(),
        meets_raw_list(
            defs,
            owner,
            def_of(defs, did).kind == AdtKind::Enum,
            def_of(defs, did).variants@[v],
            Set::empty(),
            e,
        ),
    ensures
        raw_generic_prop_entry(defs, owner, did)[v].1[e],
{
    lemma_raw_through_fields(
        defs,
        owner,
        def_of(defs, did).kind == AdtKind::Enum,
        def_of(defs, did).variants@[v],
        owner[did][v].1,
        Set::empty(),
        e,
    );
}

/// An ADT that the fourth pass gives up on: one outside the table, an enum,
/// or one without an entry.
pub open spec fn op_dead(defs: Seq<AdtDef>, owner: Map<u64, Seq<VariantView>>, d: u64) -> bool {
    !table_dids(defs).contains(d) || def_of(defs, d).kind == AdtKind::Enum || !owner.contains_key(d)
        || owner[d].len() == 0
}

/// The ADTs of `u` are those of `uniq`, or ones the fourth pass gives up on.
pub open spec fn marks_within(defs: Seq<AdtDef>, owner: Map<u64, Seq<VariantView>>, uniq: Set<u64>, u: Set<u64>) -> bool {
    forall|x: u64| #[trigger] u.contains(x) ==> uniq.contains(x) || op_dead(defs, owner, x)
}

proof fn lemma_marks_trans(
    defs: Seq<AdtDef>,
    owner: Map<u64, Seq<VariantView>>,
    u0: Set<u64>,
    u1: Set<u64>,
    u2: Set<u64>,
)
    requires
        marks_within(defs, owner, u0, u1),
        marks_within(defs, owner, u1, u2),
    ensures
        marks_within(defs, owner, u0, u2),
{
}

/// A visit of the fourth pass leaves marked, besides the ADTs marked before,
/// only ADTs it gives up on.
pub proof fn lemma_op_ty_marks(defs: Seq<AdtDef>, owner: Map<u64, Seq<VariantView>>, t: Ty, own: RawTypeOwner, uniq: Set<u64>)
    ensures
        marks_within(defs, owner, uniq, op_ty(defs, owner, t, own, uniq).1),
    decreases unvisited(defs, uniq), 0nat, t,
{
    match t {
        Ty::Adt(did, a) => {
            if !uniq.contains(did) && !op_dead(defs, owner, did) {
                let u1 = uniq.insert(did);
                let own1 = if owner[did][0].0 == RawTypeOwner::Owned {
                    RawTypeOwner::Owned
                } else {
                    own
                };
                lemma_unvisited_insert(defs, uniq, did);
                let (own2, u2) = op_variants(defs, owner, def_of(defs, did).variants@, *a, own1, u1);
                lemma_op_variants_marks(defs, owner, def_of(defs, did).variants@, *a, own1, u1);
                lemma_op_variants_shape(defs, owner, def_of(defs, did).variants@, *a, own1, u1);
                let u3 = u2.remove(did);
                assert(uniq.subset_of(u3));
                assert(marks_within(defs, owner, uniq, u3));
                lemma_unvisited_mono(defs, uniq, u3);
                lemma_op_args_marks(defs, owner, *a, own2, u3);
                lemma_marks_trans(defs, owner, uniq, u3, op_ty(defs, owner, t, own, uniq).1);
            }
        },
        Ty::Array(e) => lemma_op_ty_marks(defs, owner, *e, own, uniq),
        Ty::Tuple(l) => lemma_op_tuple_marks(defs, owner, *l, own, uniq),
        _ => {},
    }
}

pub proof fn lemma_op_variants_marks(
    defs: Seq<AdtDef>,
    owner: Map<u64, Seq<VariantView>>,
    vs: Seq<TyList>,
    a: GenericArgs,
    own: RawTypeOwner,
    uniq: Set<u64>,
)
    ensures
        marks_within(defs, owner, uniq, op_variants(defs, owner, vs, a, own, uniq).1),
    decreases unvisited(defs, uniq), 1nat, vs,
{
    if vs.len() > 0 {
        let (o1, u1) = op_fields(defs, owner, subst_list(vs[0], a), own, uniq);
        lemma_op_fields_marks(defs, owner, subst_list(vs[0], a), own, uniq);
        lemma_op_fields_shape(defs, owner, subst_list(vs[0], a), own, uniq);
        lemma_unvisited_mono(defs, uniq, u1);
        lemma_op_variants_marks(defs, owner, vs.drop_first(), a, o1, u1);
        lemma_marks_trans(defs, owner, uniq, u1, op_variants(defs, owner, vs, a, own, uniq).1);
    }
}

pub proof fn lemma_op_fields_marks(
    defs: Seq<AdtDef>,
    owner: Map<u64, Seq<VariantView>>,
    l: TyList,
    own: RawTypeOwner,
    uniq: Set<u64>,
)
    ensures
        marks_within(defs, owner, uniq, op_fields(defs, owner, l, own, uniq).1),
    decreases unvisited(defs, uniq), 0nat, l,
{
    match l {
        TyList::Nil => {},
        TyList::Cons(t, rest) => {
            let (o1, u1, _) = op_ty(defs, owner, t, own, uniq);
            lemma_op_ty_marks(defs, owner, t, own, uniq);
            lemma_op_ty_shape(defs, owner, t, own, uniq);
            lemma_unvisited_mono(defs, uniq, u1);
            lemma_op_fields_marks(defs, owner, *rest, o1, u1);
            lemma_marks_trans(defs, owner, uniq, u1, op_fields(defs, owner, l, own, uniq).1);
        },
    }
}

pub proof fn lemma_op_args_marks(
    defs: Seq<AdtDef>,
    owner: Map<u64, Seq<VariantView>>,
    a: GenericArgs,
    own: RawTypeOwner,
    uniq: Set<u64>,
)
    ensures
        marks_within(defs, owner, uniq, op_args(defs, owner, a, own, uniq).1),
    decreases unvisited(defs, uniq), 0nat, a,
{
    match a {
        GenericArgs::Nil => {},
        GenericArgs::Cons(g, rest) => match g {
            GenericArg::Type(u) => {
                let (o1, u1, b) = op_ty(defs, owner, u, own, uniq);
                lemma_op_ty_marks(defs, owner, u, own, uniq);
                lemma_op_ty_shape(defs, owner, u, own, uniq);
                if !b {
                    lemma_unvisited_mono(defs, uniq, u1);
                    lemma_op_args_marks(defs, owner, *rest, o1, u1);
                    lemma_marks_trans(defs, owner, uniq, u1, op_args(defs, owner, a, own, uniq).1);
                }
            },
            _ => lemma_op_args_marks(defs, owner, *rest, own, uniq),
        },
    }
}

pub proof fn lemma_op_tuple_marks(
    defs: Seq<AdtDef>,
    owner: Map<u64, Seq<VariantView>>,
    l: TyList,
    own: RawTypeOwner,
    uniq: Set<u64>,
)
    ensures
        marks_within(defs, owner, uniq, op_tuple(defs, owner, l, own, uniq).1),
    decreases unvisited(defs, uniq), 0nat, l,
{
    match l {
        TyList::Nil => {},
        TyList::Cons(t, rest) => {
            let (o1, u1, b) = op_ty(defs, owner, t, own, uniq);
            lemma_op_ty_marks(defs, owner, t, own, uniq);
            lemma_op_ty_shape(defs, owner, t, own, uniq);
            if !b {
                lemma_unvisited_mono(defs, uniq, u1);
                lemma_op_tuple_marks(defs, owner, *rest, o1, u1);
                lemma_marks_trans(defs, owner, uniq, u1, op_tuple(defs, owner, l, own, uniq).1);
            }
        },
    }
}

/// Meeting an owned struct stays true when only ADTs that the fourth pass
/// gives up on are marked besides.
pub proof fn lemma_meets_owned_keep(
    defs: Seq<AdtDef>,
    owner: Map<u64, Seq<VariantView>>,
    t: Ty,
    uniq: Set<u64>,
    u: Set<u64>,
)
    requires
        meets_owned(defs, owner, t, uniq),
        marks_within(defs, owner, uniq, u),
    ensures
        meets_owned(defs, owner, t, u),
    decreases t,
{
    match t {
        Ty::Adt(d, _) => {
            assert(!op_dead(defs, owner, d));
        },
        Ty::Array(e) => lemma_meets_owned_keep(defs, owner, *e, uniq, u),
        Ty::Tuple(l) => lemma_meets_owned_list_keep(defs, owner, *l, uniq, u),
        _ => {},
    }
}

pub proof fn lemma_meets_owned_list_keep(
    defs: Seq<AdtDef>,
    owner: Map<u64, Seq<VariantView>>,
    l: TyList,
    uniq: Set<u64>,
    u: Set<u64>,
)
    requires
        meets_owned_list(defs, owner, l, uniq),
        marks_within(defs, owner, uniq, u),
    ensures
        meets_owned_list(defs, owner, l, u),
    decreases l,
{
    match l {
        TyList::Nil => {},
        TyList::Cons(t, rest) => {
            if meets_owned(defs, owner, t, uniq) {
                lemma_meets_owned_keep(defs, owner, t, uniq, u);
            } else {
                lemma_meets_owned_list_keep(defs, owner, *rest, uniq, u);
            }
        },
    }
}

/// Some field of `l` meets an owned struct or union.
pub open spec fn some_field_meets_owned(
    defs: Seq<AdtDef>,
    owner: Map<u64, Seq<VariantView>>,
    l: TyList,
    uniq: Set<u64>,
) -> bool
    decreases l,
{
    match l {
        TyList::Nil => false,
        TyList::Cons(t, rest) => meets_owned(defs, owner, t, uniq) || some_field_meets_owned(defs, owner, *rest, uniq),
    }
}

/// A variant with a field that meets an owned struct or union, directly,
/// as the element of an array, or among the elements of a tuple, becomes
/// owned when its fields are visited.
pub proof fn lemma_owner_through_fields(
    defs: Seq<AdtDef>,
    owner: Map<u64, Seq<VariantView>>,
    l: TyList,
    own: RawTypeOwner,
    uniq: Set<u64>,
)
    requires
        some_field_meets_owned(defs, owner, l, uniq),
    ensures
        op_fields(defs, owner, l, own, uniq).0 == RawTypeOwner::Owned,
    decreases l,
{
    match l {
        TyList::Nil => {},
        TyList::Cons(t, rest) => {
            let (o1, u1, _) = op_ty(defs, owner, t, own, uniq);
            lemma_op_ty_shape(defs, owner, t, own, uniq);
            lemma_unvisited_mono(defs, uniq, u1);
            if meets_owned(defs, owner, t, uniq) {
                lemma_owner_through(defs, owner, t, own, uniq);
                lemma_op_fields_grows(defs, owner, *rest, o1, u1);
            } else {
                lemma_op_ty_marks(defs, owner, t, own, uniq);
                lemma_some_field_keep(defs, owner, *rest, uniq, u1);
                lemma_owner_through_fields(defs, owner, *rest, o1, u1);
            }
        },
    }
}

proof fn lemma_some_field_keep(
    defs: Seq<AdtDef>,
    owner: Map<u64, Seq<VariantView>>,
    l: TyList,
    uniq: Set<u64>,
    u: Set<u64>,
)
    requires
        some_field_meets_owned(defs, owner, l, uniq),
        marks_within(defs, owner, uniq, u),
    ensures
        some_field_meets_owned(defs, owner, l, u),
    decreases l,
{
    match l {
        TyList::Nil => {},
        TyList::Cons(t, rest) => {
            if meets_owned(defs, owner, t, uniq) {
                lemma_meets_owned_keep(defs, owner, t, uniq, u);
            } else {
                lemma_some_field_keep(defs, owner, *rest, uniq, u);
            }
        },
    }
}

/// The fourth pass makes variant `v` of `did` owned when one of its fields
/// meets an owned struct or union, directly, as the element of an array,
/// or among the elements of a tuple.
pub proof fn lemma_owner_prop_entry_owned(defs: Seq<AdtDef>, owner: Map<u64, Seq<VariantView>>, did: u64, v: int)
    requires
        owner.contains_key(did),
        0 <= v < owner[did].len(),
        v < def_of(defs, did).variants@.len(),
        some_field_meets_owned(defs, owner, def_of(defs, did).variants@[v], Set::empty()),
    ensures
        owner_prop_entry(defs, owner, did)[v].0 == RawTypeOwner::Owned,
{
    lemma_owner_through_fields(defs, owner, def_of(defs, did).variants@[v], owner[did][v].0, Set::empty());
}

/// Visiting a body only adds to the set of visited functions; so the test
/// of `vb_calls` that this set did not shrink always passes, and the arm
/// taken when it fails is never taken.
pub proof fn lemma_vb_body_fns(
    defs: Seq<AdtDef>,
    bodies: Seq<MirBody>,
    limit: nat,
    bi: int,
    fns: Set<u64>,
    seen: Seq<Ty>,
    rec: Set<u64>,
)
    ensures
        fns.subset_of(vb_body(defs, bodies, limit, bi, fns, seen, rec).0),
    decreases unvisited_bodies(bodies, fns), 1nat, bodies[bi].calls@,
{
    let (s1, r1, ok) = cl_locals(defs, limit, bodies[bi].local_decls@, seen, rec);
    if ok {
        lemma_vb_calls_fns(defs, bodies, limit, bodies[bi].calls@, fns, s1, r1);
    }
}

pub proof fn lemma_vb_calls_fns(
    defs: Seq<AdtDef>,
    bodies: Seq<MirBody>,
    limit: nat,
    calls: Seq<Option<u64>>,
    fns: Set<u64>,
    seen: Seq<Ty>,
    rec: Set<u64>,
)
    ensures
        fns.subset_of(vb_calls(defs, bodies, limit, calls, fns, seen, rec).0),
    decreases unvisited_bodies(bodies, fns), 0nat, calls,
{
    if calls.len() > 0 {
        match calls[0] {
            Some(fd) => if body_dids(bodies).contains(fd) && !fns.contains(fd) {
                lemma_unvisited_bodies_insert(bodies, fns, fd);
                let (f2, s2, r2, ok) = vb_body(defs, bodies, limit, body_index(bodies, fd), fns.insert(fd), seen, rec);
                lemma_vb_body_fns(defs, bodies, limit, body_index(bodies, fd), fns.insert(fd), seen, rec);
                assert(fns.subset_of(f2));
                if ok {
                    lemma_unvisited_bodies_mono(bodies, fns, f2);
                    lemma_vb_calls_fns(defs, bodies, limit, calls.drop_first(), f2, s2, r2);
                }
            } else {
                lemma_vb_calls_fns(defs, bodies, limit, calls.drop_first(), fns, seen, rec);
            },
            None => lemma_vb_calls_fns(defs, bodies, limit, calls.drop_first(), fns, seen, rec),
        }
    }
}

/// Visiting the bodies of `keys` only adds to the set of visited functions.
pub proof fn lemma_vb_keys_fns(
    defs: Seq<AdtDef>,
    bodies: Seq<MirBody>,
    limit: nat,
    keys: Seq<u64>,
    fns: Set<u64>,
    seen: Seq<Ty>,
    rec: Set<u64>,
)
    ensures
        fns.subset_of(vb_keys(defs, bodies, limit, keys, fns, seen, rec).0),
    decreases keys.len(),
{
    if keys.len() > 0 {
        if fns.contains(keys[0]) {
            lemma_vb_keys_fns(defs, bodies, limit, keys.drop_first(), fns, seen, rec);
        } else {
            let (f1, s1, r1, ok) = vb_body(defs, bodies, limit, body_index(bodies, keys[0]), fns.insert(keys[0]), seen, rec);
            lemma_vb_body_fns(defs, bodies, limit, body_index(bodies, keys[0]), fns.insert(keys[0]), seen, rec);
            if ok {
                lemma_vb_keys_fns(defs, bodies, limit, keys.drop_first(), f1, s1, r1);
            }
        }
    }
}

/// The second pass never clears a raw flag of an entry, and leaves the
/// entry's length as it was.
pub proof fn lemma_prop_entry_grows(defs: Seq<AdtDef>, owner: Map<u64, Seq<VariantView>>, did: u64)
    requires
        owner.contains_key(did),
    ensures
        raw_generic_prop_entry(defs, owner, did).len() == owner[did].len(),
        forall|v: int|
            0 <= v < owner[did].len() ==> flags_grow(
                owner[did][v].1,
                #[trigger] raw_generic_prop_entry(defs, owner, did)[v].1,
            ),
{
    let def = def_of(defs, did);
    let e = owner[did];
    assert forall|v: int| 0 <= v < e.len() implies flags_grow(
        e[v].1,
        #[trigger] raw_generic_prop_entry(defs, owner, did)[v].1,
    ) by {
        if v < def.variants@.len() {
            lemma_gp_fields_grows(defs, owner, def.kind == AdtKind::Enum, def.variants@[v], e[v].1, Set::empty());
        }
    }
}

/// The third pass keeps every flag, and an owned variant stays owned.
pub proof fn lemma_phantom_keeps(defs: Seq<AdtDef>, owner: Map<u64, Seq<VariantView>>, did: u64)
    requires
        owner.contains_key(did),
        owner[did].len() == 1,
    ensures
        phantom_unit_result(defs, owner, did).contains_key(did),
        phantom_unit_result(defs, owner, did)[did].len() == 1,
        phantom_unit_result(defs, owner, did)[did][0].1 == owner[did][0].1,
        owner_grows(owner[did][0].0, phantom_unit_result(defs, owner, did)[did][0].0),
        forall|k: u64| k != did ==> #[trigger] phantom_unit_result(defs, owner, did).get(k) == owner.get(k),
{
}

/// The fourth pass keeps every flag, and an owned variant stays owned.
pub proof fn lemma_owner_entry_grows(defs: Seq<AdtDef>, owner: Map<u64, Seq<VariantView>>, did: u64)
    requires
        owner.contains_key(did),
    ensures
        owner_prop_entry(defs, owner, did).len() == owner[did].len(),
        forall|v: int|
            0 <= v < owner[did].len() ==> (#[trigger] owner_prop_entry(defs, owner, did)[v]).1 == owner[did][v].1
                && owner_grows(owner[did][v].0, owner_prop_entry(defs, owner, did)[v].0),
{
    let def = def_of(defs, did);
    let e = owner[did];
    assert forall|v: int| 0 <= v < e.len() implies (#[trigger] owner_prop_entry(defs, owner, did)[v]).1 == e[v].1
        && owner_grows(e[v].0, owner_prop_entry(defs, owner, did)[v].0) by {
        if v < def.variants@.len() {
            lemma_op_fields_grows(defs, owner, def.variants@[v], e[v].0, Set::empty());
        }
    }
}

} // verus!
