//! The collection of ADT types is closed: every ADT definition it records
//! names, in its fields, only ADTs that it records too.
use vstd::prelude::*;

use crate::analysis::type_analysis::{
    any_param, bodies_ok, body_dids, body_index, cl_args, cl_list, cl_locals, cl_ty, cl_variants, lemma_unvisited_bodies_insert,
    lemma_unvisited_bodies_mono, room, unvisited_bodies, vb_body, vb_calls, vb_keys, MirBody,
};
use crate::ty::{
    args_ok, closed_over, def_index, def_of, list_ok, subst, subst_args, subst_list, table_dids, table_ok, ty_ok, AdtDef,
    GenericArg, GenericArgs, Ty, TyList, lemma_subst_list_ok,
};

verus! {

/// The ADT types that visiting `t` meets first: `t` itself when it is an
/// ADT, else those of what it holds.
pub open spec fn tops(t: Ty) -> Set<Ty>
    decreases t,
{
    match t {
        Ty::Adt(_, _) => set![t],
        Ty::Array(e) => tops(*e),
        Ty::Slice(e) => tops(*e),
        Ty::RawPtr(e) => tops(*e),
        Ty::Ref(e) => tops(*e),
        Ty::Tuple(l) => tops_list(*l),
        _ => Set::empty(),
    }
}

pub open spec fn tops_list(l: TyList) -> Set<Ty>
    decreases l,
{
    match l {
        TyList::Nil => Set::empty(),
        TyList::Cons(t, rest) => tops(t).union(tops_list(*rest)),
    }
}

pub open spec fn tops_args(a: GenericArgs) -> Set<Ty>
    decreases a,
{
    match a {
        GenericArgs::Nil => Set::empty(),
        GenericArgs::Cons(g, rest) => (match g {
            GenericArg::Type(u) => tops(u),
            _ => Set::empty(),
        }).union(tops_args(*rest)),
    }
}

/// Every type of `ts` is among `s`.
pub open spec fn covered(ts: Set<Ty>, s: Seq<Ty>) -> bool {
    forall|u: Ty| #[trigger] ts.contains(u) ==> s.contains(u)
}

/// The ADT type `u` is closed in `s`: the types that its arguments and the
/// fields of its definition, with the arguments substituted, meet first
/// are all among `s`.
pub open spec fn ty_closed(defs: Seq<AdtDef>, u: Ty, s: Seq<Ty>) -> bool {
    match u {
        Ty::Adt(d, a) => covered(tops_args(*a), s) && (table_dids(defs).contains(d) ==> forall|v: int|
            0 <= v < def_of(defs, d).variants@.len() ==> covered(
                tops_list(subst_list(#[trigger] def_of(defs, d).variants@[v], *a)),
                s,
            )),
        _ => true,
    }
}

/// The id of an ADT type.
pub open spec fn adt_id(t: Ty) -> Option<u64> {
    match t {
        Ty::Adt(d, _) => Some(d),
        _ => None,
    }
}

/// The ids of the ADT types of `s`.
pub open spec fn rec_of(s: Seq<Ty>) -> Set<u64> {
    Set::new(|d: u64| exists|i: int| 0 <= i < s.len() && adt_id(s[i]) == Some(d))
}

/// `s1` extends `s0`, and every type it adds is a well-formed ADT type
/// closed in `s1`.
pub open spec fn grows_closed(defs: Seq<AdtDef>, s0: Seq<Ty>, s1: Seq<Ty>) -> bool {
    &&& s0.len() <= s1.len()
    &&& s1.subrange(0, s0.len() as int) == s0
    &&& forall|i: int| s0.len() <= i < s1.len() ==> ty_closed(defs, #[trigger] s1[i], s1)
    &&& forall|i: int| s0.len() <= i < s1.len() ==> (#[trigger] s1[i]) is Adt && ty_ok(s1[i], table_dids(defs), any_param())
}

/// A state of the collection that is closed: every type met is a
/// well-formed ADT type closed in what was met, and the ids recorded are
/// those of the types met.
pub open spec fn collection_closed(defs: Seq<AdtDef>, s: Seq<Ty>, r: Set<u64>) -> bool {
    &&& grows_closed(defs, Seq::empty(), s)
    &&& r == rec_of(s)
}

proof fn lemma_covered_mono(ts: Set<Ty>, s1: Seq<Ty>, s2: Seq<Ty>)
    requires
        covered(ts, s1),
        s1.len() <= s2.len(),
        s2.subrange(0, s1.len() as int) == s1,
    ensures
        covered(ts, s2),
{
    assert forall|u: Ty| #[trigger] ts.contains(u) implies s2.contains(u) by {
        let i = choose|i: int| 0 <= i < s1.len() && s1[i] == u;
        assert(s2.subrange(0, s1.len() as int)[i] == s2[i]);
    }
}

proof fn lemma_closed_mono(defs: Seq<AdtDef>, u: Ty, s1: Seq<Ty>, s2: Seq<Ty>)
    requires
        ty_closed(defs, u, s1),
        s1.len() <= s2.len(),
        s2.subrange(0, s1.len() as int) == s1,
    ensures
        ty_closed(defs, u, s2),
{
    match u {
        Ty::Adt(d, a) => {
            lemma_covered_mono(tops_args(*a), s1, s2);
            if table_dids(defs).contains(d) {
                assert forall|v: int| 0 <= v < def_of(defs, d).variants@.len() implies covered(
                    tops_list(subst_list(#[trigger] def_of(defs, d).variants@[v], *a)),
                    s2,
                ) by {
                    lemma_covered_mono(tops_list(subst_list(def_of(defs, d).variants@[v], *a)), s1, s2);
                }
            }
        },
        _ => {},
    }
}

/// Growing closed is transitive.
pub proof fn lemma_grows_trans(defs: Seq<AdtDef>, s0: Seq<Ty>, s1: Seq<Ty>, s2: Seq<Ty>)
    requires
        grows_closed(defs, s0, s1),
        grows_closed(defs, s1, s2),
    ensures
        grows_closed(defs, s0, s2),
{
    assert(s2.subrange(0, s0.len() as int) =~= s0) by {
        assert forall|i: int| 0 <= i < s0.len() implies s2.subrange(0, s0.len() as int)[i] == s0[i] by {
            assert(s2.subrange(0, s1.len() as int)[i] == s2[i]);
            assert(s1.subrange(0, s0.len() as int)[i] == s1[i]);
        }
    }
    assert forall|i: int| s0.len() <= i < s2.len() implies ty_closed(defs, #[trigger] s2[i], s2) by {
        if i < s1.len() {
            assert(s2.subrange(0, s1.len() as int)[i] == s2[i]);
            assert(ty_closed(defs, s1[i], s1));
            lemma_closed_mono(defs, s1[i], s1, s2);
        }
    }
    assert forall|i: int| s0.len() <= i < s2.len() implies (#[trigger] s2[i]) is Adt && ty_ok(
        s2[i],
        table_dids(defs),
        any_param(),
    ) by {
        if i < s1.len() {
            assert(s2.subrange(0, s1.len() as int)[i] == s2[i]);
            assert(s1[i] is Adt && ty_ok(s1[i], table_dids(defs), any_param()));
        }
    }
}

proof fn lemma_grows_refl(defs: Seq<AdtDef>, s: Seq<Ty>)
    ensures
        grows_closed(defs, s, s),
{
    assert(s.subrange(0, s.len() as int) =~= s);
}

proof fn lemma_rec_of_push(s: Seq<Ty>, d: u64, a: Box<GenericArgs>)
    ensures
        rec_of(s.push(Ty::Adt(d, a))) == rec_of(s).insert(d),
{
    let t = s.push(Ty::Adt(d, a));
    assert forall|e: u64| #[trigger] rec_of(t).contains(e) == rec_of(s).insert(d).contains(e) by {
        if rec_of(t).contains(e) {
            let i = choose|i: int| 0 <= i < t.len() && adt_id(t[i]) == Some(e);
            if i < s.len() {
                assert(s[i] == t[i]);
                assert(0 <= i < s.len() && adt_id(s[i]) == Some(e));
                assert(rec_of(s).contains(e));
            } else {
                assert(e == d);
            }
        }
        if rec_of(s).contains(e) {
            let i = choose|i: int| 0 <= i < s.len() && adt_id(s[i]) == Some(e);
            assert(t[i] == s[i]);
            assert(0 <= i < t.len() && adt_id(t[i]) == Some(e));
        }
        if e == d {
            let k = s.len() as int;
            assert(t[k] == Ty::Adt(d, a));
            assert(0 <= k < t.len() && adt_id(t[k]) == Some(e));
        }
    }
    assert(rec_of(t) =~= rec_of(s).insert(d));
}

/// Adding a closed, well-formed ADT type before a closed growth keeps the
/// growth closed.
proof fn lemma_grows_push(defs: Seq<AdtDef>, seen: Seq<Ty>, t: Ty, s2: Seq<Ty>)
    requires
        grows_closed(defs, seen.push(t), s2),
        ty_closed(defs, t, s2),
        t is Adt,
        ty_ok(t, table_dids(defs), any_param()),
    ensures
        grows_closed(defs, seen, s2),
{
    let s1 = seen.push(t);
    assert(s2.subrange(0, seen.len() as int) =~= seen) by {
        assert forall|i: int| 0 <= i < seen.len() implies s2.subrange(0, seen.len() as int)[i] == seen[i] by {
            assert(s2.subrange(0, s1.len() as int)[i] == s2[i]);
            assert(s1[i] == seen[i]);
        }
    }
    assert(s2[seen.len() as int] == t) by {
        assert(s2.subrange(0, s1.len() as int)[seen.len() as int] == s2[seen.len() as int]);
    }
}

/// What visiting `t` leaves, when it succeeds: the types met before are
/// kept, each type added is closed, the types `t` meets first are met, and
/// the ids recorded follow the types met.
pub proof fn lemma_cl_ty_closed(defs: Seq<AdtDef>, limit: nat, t: Ty, seen: Seq<Ty>, rec: Set<u64>)
    requires
        table_ok(defs),
        ty_ok(t, table_dids(defs), any_param()),
        cl_ty(defs, limit, t, seen, rec).2,
    ensures
        grows_closed(defs, seen, cl_ty(defs, limit, t, seen, rec).0),
        covered(tops(t), cl_ty(defs, limit, t, seen, rec).0),
        rec == rec_of(seen) ==> cl_ty(defs, limit, t, seen, rec).1 == rec_of(cl_ty(defs, limit, t, seen, rec).0),
    decreases room(limit, seen), 0nat, t,
{
    let (s2, r2, ok) = cl_ty(defs, limit, t, seen, rec);
    match t {
        Ty::Adt(did, a) => {
            if seen.contains(t) {
                lemma_grows_refl(defs, seen);
            } else {
                let s1 = seen.push(t);
                let r1 = rec.insert(did);
                lemma_rec_of_push(seen, did, a);
                let vs = def_of(defs, did).variants@;
                let (sv, rv, okv) = cl_variants(defs, limit, vs, *a, s1, r1);
                assert forall|k: int| 0 <= k < vs.len() implies list_ok(
                    subst_list(#[trigger] vs[k], *a),
                    table_dids(defs),
                    any_param(),
                ) by {
                    let m = crate::ty::def_index(defs, did);
                    assert(0 <= m < defs.len() && defs[m].did == did);
                    assert(list_ok(defs[m].variants@[k], table_dids(defs), defs[m].n_generics as nat));
                    lemma_subst_list_ok(vs[k], *a, table_dids(defs), defs[m].n_generics as nat, any_param());
                }
                lemma_cl_variants_closed(defs, limit, vs, *a, s1, r1);
                lemma_cl_args_closed(defs, limit, *a, sv, rv);
                lemma_grows_trans(defs, s1, sv, s2);
                assert(ty_closed(defs, t, s2)) by {
                    assert forall|v: int| 0 <= v < vs.len() implies covered(
                        tops_list(subst_list(#[trigger] def_of(defs, did).variants@[v], *a)),
                        s2,
                    ) by {
                        lemma_covered_mono(tops_list(subst_list(vs[v], *a)), sv, s2);
                    }
                }
                lemma_grows_push(defs, seen, t, s2);
                assert(s2.contains(t)) by {
                    assert(s2.subrange(0, s1.len() as int)[seen.len() as int] == s2[seen.len() as int]);
                }
                assert(covered(tops(t), s2)) by {
                    assert forall|u: Ty| #[trigger] tops(t).contains(u) implies s2.contains(u) by {
                        assert(u == t);
                    }
                }
            }
        },
        Ty::Array(e) => lemma_cl_ty_closed(defs, limit, *e, seen, rec),
        Ty::Slice(e) => lemma_cl_ty_closed(defs, limit, *e, seen, rec),
        Ty::RawPtr(e) => lemma_cl_ty_closed(defs, limit, *e, seen, rec),
        Ty::Ref(e) => lemma_cl_ty_closed(defs, limit, *e, seen, rec),
        Ty::Tuple(l) => {
            let (s1, r1, ok1) = cl_list(defs, limit, *l, seen, rec);
            lemma_cl_list_closed(defs, limit, *l, seen, rec);
            lemma_cl_list_closed(defs, limit, *l, s1, r1);
            lemma_grows_trans(defs, seen, s1, s2);
        },
        _ => {
            lemma_grows_refl(defs, seen);
        },
    }
}

pub proof fn lemma_cl_variants_closed(
    defs: Seq<AdtDef>,
    limit: nat,
    vs: Seq<TyList>,
    a: GenericArgs,
    seen: Seq<Ty>,
    rec: Set<u64>,
)
    requires
        table_ok(defs),
        forall|k: int| 0 <= k < vs.len() ==> list_ok(subst_list(#[trigger] vs[k], a), table_dids(defs), any_param()),
        cl_variants(defs, limit, vs, a, seen, rec).2,
    ensures
        grows_closed(defs, seen, cl_variants(defs, limit, vs, a, seen, rec).0),
        forall|k: int|
            0 <= k < vs.len() ==> covered(
                tops_list(subst_list(#[trigger] vs[k], a)),
                cl_variants(defs, limit, vs, a, seen, rec).0,
            ),
        rec == rec_of(seen) ==> cl_variants(defs, limit, vs, a, seen, rec).1 == rec_of(
            cl_variants(defs, limit, vs, a, seen, rec).0,
        ),
    decreases room(limit, seen), 1nat, vs,
{
    if vs.len() == 0 {
        lemma_grows_refl(defs, seen);
    } else {
        let (s1, r1, ok1) = cl_list(defs, limit, subst_list(vs[0], a), seen, rec);
        let s2 = cl_variants(defs, limit, vs, a, seen, rec).0;
        lemma_cl_list_closed(defs, limit, subst_list(vs[0], a), seen, rec);
        let rest = vs.drop_first();
        assert forall|k: int| 0 <= k < rest.len() implies list_ok(
            subst_list(#[trigger] rest[k], a),
            table_dids(defs),
            any_param(),
        ) by {
            assert(rest[k] == vs[k + 1]);
        }
        lemma_cl_variants_closed(defs, limit, rest, a, s1, r1);
        lemma_grows_trans(defs, seen, s1, s2);
        assert forall|k: int| 0 <= k < vs.len() implies covered(tops_list(subst_list(#[trigger] vs[k], a)), s2) by {
            if k == 0 {
                lemma_covered_mono(tops_list(subst_list(vs[0], a)), s1, s2);
            } else {
                assert(rest[k - 1] == vs[k]);
            }
        }
    }
}

pub proof fn lemma_cl_list_closed(defs: Seq<AdtDef>, limit: nat, l: TyList, seen: Seq<Ty>, rec: Set<u64>)
    requires
        table_ok(defs),
        list_ok(l, table_dids(defs), any_param()),
        cl_list(defs, limit, l, seen, rec).2,
    ensures
        grows_closed(defs, seen, cl_list(defs, limit, l, seen, rec).0),
        covered(tops_list(l), cl_list(defs, limit, l, seen, rec).0),
        rec == rec_of(seen) ==> cl_list(defs, limit, l, seen, rec).1 == rec_of(cl_list(defs, limit, l, seen, rec).0),
    decreases room(limit, seen), 0nat, l,
{
    match l {
        TyList::Nil => {
            lemma_grows_refl(defs, seen);
        },
        TyList::Cons(t, rest) => {
            let (s1, r1, ok1) = cl_ty(defs, limit, t, seen, rec);
            let s2 = cl_list(defs, limit, l, seen, rec).0;
            lemma_cl_ty_closed(defs, limit, t, seen, rec);
            lemma_cl_list_closed(defs, limit, *rest, s1, r1);
            lemma_grows_trans(defs, seen, s1, s2);
            lemma_covered_mono(tops(t), s1, s2);
        },
    }
}

pub proof fn lemma_cl_args_closed(defs: Seq<AdtDef>, limit: nat, a: GenericArgs, seen: Seq<Ty>, rec: Set<u64>)
    requires
        table_ok(defs),
        args_ok(a, table_dids(defs), any_param()),
        cl_args(defs, limit, a, seen, rec).2,
    ensures
        grows_closed(defs, seen, cl_args(defs, limit, a, seen, rec).0),
        covered(tops_args(a), cl_args(defs, limit, a, seen, rec).0),
        rec == rec_of(seen) ==> cl_args(defs, limit, a, seen, rec).1 == rec_of(cl_args(defs, limit, a, seen, rec).0),
    decreases room(limit, seen), 0nat, a,
{
    match a {
        GenericArgs::Nil => {
            lemma_grows_refl(defs, seen);
        },
        GenericArgs::Cons(g, rest) => match g {
            GenericArg::Type(u) => {
                let (s1, r1, ok1) = cl_ty(defs, limit, u, seen, rec);
                let s2 = cl_args(defs, limit, a, seen, rec).0;
                lemma_cl_ty_closed(defs, limit, u, seen, rec);
                lemma_cl_args_closed(defs, limit, *rest, s1, r1);
                lemma_grows_trans(defs, seen, s1, s2);
                lemma_covered_mono(tops(u), s1, s2);
            },
            _ => {
                lemma_cl_args_closed(defs, limit, *rest, seen, rec);
            },
        },
    }
}


/// Visiting the locals `ls` keeps the growth closed.
pub proof fn lemma_cl_locals_closed(defs: Seq<AdtDef>, limit: nat, ls: Seq<Ty>, seen: Seq<Ty>, rec: Set<u64>)
    requires
        table_ok(defs),
        forall|k: int| 0 <= k < ls.len() ==> ty_ok(#[trigger] ls[k], table_dids(defs), any_param()),
        cl_locals(defs, limit, ls, seen, rec).2,
    ensures
        grows_closed(defs, seen, cl_locals(defs, limit, ls, seen, rec).0),
        rec == rec_of(seen) ==> cl_locals(defs, limit, ls, seen, rec).1 == rec_of(cl_locals(defs, limit, ls, seen, rec).0),
    decreases ls.len(),
{
    if ls.len() == 0 {
        lemma_grows_refl(defs, seen);
    } else {
        let (s1, r1, ok1) = cl_ty(defs, limit, ls[0], seen, rec);
        lemma_cl_ty_closed(defs, limit, ls[0], seen, rec);
        let rest = ls.drop_first();
        assert forall|k: int| 0 <= k < rest.len() implies ty_ok(#[trigger] rest[k], table_dids(defs), any_param()) by {
            assert(rest[k] == ls[k + 1]);
        }
        lemma_cl_locals_closed(defs, limit, rest, s1, r1);
        lemma_grows_trans(defs, seen, s1, cl_locals(defs, limit, ls, seen, rec).0);
    }
}

/// Visiting a body keeps the growth closed.
pub proof fn lemma_vb_body_closed(
    defs: Seq<AdtDef>,
    bodies: Seq<MirBody>,
    limit: nat,
    bi: int,
    fns: Set<u64>,
    seen: Seq<Ty>,
    rec: Set<u64>,
)
    requires
        table_ok(defs),
        bodies_ok(defs, bodies),
        0 <= bi < bodies.len(),
        vb_body(defs, bodies, limit, bi, fns, seen, rec).3,
    ensures
        grows_closed(defs, seen, vb_body(defs, bodies, limit, bi, fns, seen, rec).1),
        rec == rec_of(seen) ==> vb_body(defs, bodies, limit, bi, fns, seen, rec).2 == rec_of(
            vb_body(defs, bodies, limit, bi, fns, seen, rec).1,
        ),
    decreases unvisited_bodies(bodies, fns), 1nat, bodies[bi].calls@,
{
    let ls = bodies[bi].local_decls@;
    let (s1, r1, ok1) = cl_locals(defs, limit, ls, seen, rec);
    lemma_cl_locals_closed(defs, limit, ls, seen, rec);
    lemma_vb_calls_closed(defs, bodies, limit, bodies[bi].calls@, fns, s1, r1);
    lemma_grows_trans(defs, seen, s1, vb_body(defs, bodies, limit, bi, fns, seen, rec).1);
}

/// Following calls keeps the growth closed.
pub proof fn lemma_vb_calls_closed(
    defs: Seq<AdtDef>,
    bodies: Seq<MirBody>,
    limit: nat,
    calls: Seq<Option<u64>>,
    fns: Set<u64>,
    seen: Seq<Ty>,
    rec: Set<u64>,
)
    requires
        table_ok(defs),
        bodies_ok(defs, bodies),
        vb_calls(defs, bodies, limit, calls, fns, seen, rec).3,
    ensures
        grows_closed(defs, seen, vb_calls(defs, bodies, limit, calls, fns, seen, rec).1),
        rec == rec_of(seen) ==> vb_calls(defs, bodies, limit, calls, fns, seen, rec).2 == rec_of(
            vb_calls(defs, bodies, limit, calls, fns, seen, rec).1,
        ),
    decreases unvisited_bodies(bodies, fns), 0nat, calls,
{
    if calls.len() == 0 {
        lemma_grows_refl(defs, seen);
    } else {
        let s_end = vb_calls(defs, bodies, limit, calls, fns, seen, rec).1;
        match calls[0] {
            Some(fd) => if body_dids(bodies).contains(fd) && !fns.contains(fd) {
                lemma_unvisited_bodies_insert(bodies, fns, fd);
                let j = body_index(bodies, fd);
                let (f2, s2, r2, ok2) = vb_body(defs, bodies, limit, j, fns.insert(fd), seen, rec);
                lemma_vb_body_closed(defs, bodies, limit, j, fns.insert(fd), seen, rec);
                lemma_unvisited_bodies_mono(bodies, fns, f2);
                lemma_vb_calls_closed(defs, bodies, limit, calls.drop_first(), f2, s2, r2);
                lemma_grows_trans(defs, seen, s2, s_end);
            } else {
                lemma_vb_calls_closed(defs, bodies, limit, calls.drop_first(), fns, seen, rec);
            },
            None => {
                lemma_vb_calls_closed(defs, bodies, limit, calls.drop_first(), fns, seen, rec);
            },
        }
    }
}

/// Visiting the bodies of `keys` keeps the growth closed.
pub proof fn lemma_vb_keys_closed(
    defs: Seq<AdtDef>,
    bodies: Seq<MirBody>,
    limit: nat,
    keys: Seq<u64>,
    fns: Set<u64>,
    seen: Seq<Ty>,
    rec: Set<u64>,
)
    requires
        table_ok(defs),
        bodies_ok(defs, bodies),
        forall|k: int| 0 <= k < keys.len() ==> body_dids(bodies).contains(#[trigger] keys[k]),
        vb_keys(defs, bodies, limit, keys, fns, seen, rec).3,
    ensures
        grows_closed(defs, seen, vb_keys(defs, bodies, limit, keys, fns, seen, rec).1),
        rec == rec_of(seen) ==> vb_keys(defs, bodies, limit, keys, fns, seen, rec).2 == rec_of(
            vb_keys(defs, bodies, limit, keys, fns, seen, rec).1,
        ),
    decreases keys.len(),
{
    if keys.len() == 0 {
        lemma_grows_refl(defs, seen);
    } else {
        let rest = keys.drop_first();
        assert forall|k: int| 0 <= k < rest.len() implies body_dids(bodies).contains(#[trigger] rest[k]) by {
            assert(rest[k] == keys[k + 1]);
        }
        if fns.contains(keys[0]) {
            lemma_vb_keys_closed(defs, bodies, limit, rest, fns, seen, rec);
        } else {
            assert(body_dids(bodies).contains(keys[0]));
            let j = body_index(bodies, keys[0]);
            let (f1, s1, r1, ok1) = vb_body(defs, bodies, limit, j, fns.insert(keys[0]), seen, rec);
            lemma_vb_body_closed(defs, bodies, limit, j, fns.insert(keys[0]), seen, rec);
            lemma_vb_keys_closed(defs, bodies, limit, rest, f1, s1, r1);
            lemma_grows_trans(defs, seen, s1, vb_keys(defs, bodies, limit, keys, fns, seen, rec).1);
        }
    }
}

/// A type whose first-met types are among a closed collection names only
/// the ADTs that the collection records.
proof fn lemma_covered_ty_ok(defs: Seq<AdtDef>, w: Ty, s: Seq<Ty>, r: Set<u64>)
    requires
        covered(tops(w), s),
        collection_closed(defs, s, r),
    ensures
        ty_ok(w, r, any_param()),
    decreases w,
{
    match w {
        Ty::Adt(d, a) => {
            assert(tops(w).contains(w));
            let i = choose|i: int| 0 <= i < s.len() && s[i] == w;
            assert(ty_closed(defs, s[i], s));
            assert(adt_id(s[i]) == Some(d));
            assert(r.contains(d));
            lemma_covered_args_ok(defs, *a, s, r);
        },
        Ty::Array(e) => lemma_covered_ty_ok(defs, *e, s, r),
        Ty::Slice(e) => lemma_covered_ty_ok(defs, *e, s, r),
        Ty::RawPtr(e) => lemma_covered_ty_ok(defs, *e, s, r),
        Ty::Ref(e) => lemma_covered_ty_ok(defs, *e, s, r),
        Ty::Tuple(l) => lemma_covered_list_ok(defs, *l, s, r),
        _ => {},
    }
}

proof fn lemma_covered_args_ok(defs: Seq<AdtDef>, a: GenericArgs, s: Seq<Ty>, r: Set<u64>)
    requires
        covered(tops_args(a), s),
        collection_closed(defs, s, r),
    ensures
        args_ok(a, r, any_param()),
    decreases a,
{
    match a {
        GenericArgs::Nil => {},
        GenericArgs::Cons(g, rest) => {
            match g {
                GenericArg::Type(u) => {
                    assert(covered(tops(u), s)) by {
                        assert forall|x: Ty| #[trigger] tops(u).contains(x) implies s.contains(x) by {
                            assert(tops_args(a).contains(x));
                        }
                    }
                    lemma_covered_ty_ok(defs, u, s, r);
                },
                _ => {},
            }
            assert(covered(tops_args(*rest), s)) by {
                assert forall|x: Ty| #[trigger] tops_args(*rest).contains(x) implies s.contains(x) by {
                    assert(tops_args(a).contains(x));
                }
            }
            lemma_covered_args_ok(defs, *rest, s, r);
        },
    }
}

proof fn lemma_covered_list_ok(defs: Seq<AdtDef>, l: TyList, s: Seq<Ty>, r: Set<u64>)
    requires
        covered(tops_list(l), s),
        collection_closed(defs, s, r),
    ensures
        list_ok(l, r, any_param()),
    decreases l,
{
    match l {
        TyList::Nil => {},
        TyList::Cons(t, rest) => {
            assert(covered(tops(t), s)) by {
                assert forall|x: Ty| #[trigger] tops(t).contains(x) implies s.contains(x) by {
                    assert(tops_list(l).contains(x));
                }
            }
            assert(covered(tops_list(*rest), s)) by {
                assert forall|x: Ty| #[trigger] tops_list(*rest).contains(x) implies s.contains(x) by {
                    assert(tops_list(l).contains(x));
                }
            }
            lemma_covered_ty_ok(defs, t, s, r);
            lemma_covered_list_ok(defs, *rest, s, r);
        },
    }
}

/// A type well formed over `d1` with parameters below `n`, whose
/// substitution names only ADTs of `d2`, is well formed over `d2`.
proof fn lemma_unsubst_ok(t: Ty, a: GenericArgs, d1: Set<u64>, d2: Set<u64>, n: nat, m: nat)
    requires
        ty_ok(t, d1, n),
        ty_ok(subst(t, a), d2, m),
    ensures
        ty_ok(t, d2, n),
    decreases t,
{
    match t {
        Ty::Adt(d, b) => lemma_unsubst_args_ok(*b, a, d1, d2, n, m),
        Ty::Array(e) => lemma_unsubst_ok(*e, a, d1, d2, n, m),
        Ty::Slice(e) => lemma_unsubst_ok(*e, a, d1, d2, n, m),
        Ty::RawPtr(e) => lemma_unsubst_ok(*e, a, d1, d2, n, m),
        Ty::Ref(e) => lemma_unsubst_ok(*e, a, d1, d2, n, m),
        Ty::Tuple(l) => lemma_unsubst_list_ok(*l, a, d1, d2, n, m),
        _ => {},
    }
}

proof fn lemma_unsubst_args_ok(b: GenericArgs, a: GenericArgs, d1: Set<u64>, d2: Set<u64>, n: nat, m: nat)
    requires
        args_ok(b, d1, n),
        args_ok(subst_args(b, a), d2, m),
    ensures
        args_ok(b, d2, n),
    decreases b,
{
    match b {
        GenericArgs::Nil => {},
        GenericArgs::Cons(g, rest) => {
            match g {
                GenericArg::Type(u) => lemma_unsubst_ok(u, a, d1, d2, n, m),
                _ => {},
            }
            lemma_unsubst_args_ok(*rest, a, d1, d2, n, m);
        },
    }
}

proof fn lemma_unsubst_list_ok(l: TyList, a: GenericArgs, d1: Set<u64>, d2: Set<u64>, n: nat, m: nat)
    requires
        list_ok(l, d1, n),
        list_ok(subst_list(l, a), d2, m),
    ensures
        list_ok(l, d2, n),
    decreases l,
{
    match l {
        TyList::Nil => {},
        TyList::Cons(t, rest) => {
            lemma_unsubst_ok(t, a, d1, d2, n, m);
            lemma_unsubst_list_ok(*rest, a, d1, d2, n, m);
        },
    }
}

/// The definitions that a closed collection records name, in their fields,
/// only ADTs that it records.
pub proof fn lemma_closed_collection(defs: Seq<AdtDef>, s: Seq<Ty>, r: Set<u64>)
    requires
        table_ok(defs),
        collection_closed(defs, s, r),
    ensures
        closed_over(defs, r),
{
    assert forall|d: u64| r.contains(d) implies table_dids(defs).contains(d) by {
        let i = choose|i: int| 0 <= i < s.len() && adt_id(s[i]) == Some(d);
        assert(s[i] is Adt && ty_ok(s[i], table_dids(defs), any_param()));
    }
    assert forall|k: int, v: int|
        0 <= k < defs.len() && r.contains(defs[k].did) && 0 <= v < defs[k].variants@.len() implies list_ok(
        #[trigger] defs[k].variants@[v],
        r,
        defs[k].n_generics as nat,
    ) by {
        let d = defs[k].did;
        let i = choose|i: int| 0 <= i < s.len() && adt_id(s[i]) == Some(d);
        let u = s[i];
        match u {
            Ty::Adt(e, a) => {
                assert(e == d);
                assert(ty_closed(defs, u, s));
                assert(table_dids(defs).contains(d));
                let m = def_index(defs, d);
                assert(defs[m].did == defs[k].did);
                assert(m == k);
                assert(covered(tops_list(subst_list(def_of(defs, d).variants@[v], *a)), s));
                lemma_covered_list_ok(defs, subst_list(defs[k].variants@[v], *a), s, r);
                assert(list_ok(defs[k].variants@[v], table_dids(defs), defs[k].n_generics as nat));
                lemma_unsubst_list_ok(
                    defs[k].variants@[v],
                    *a,
                    table_dids(defs),
                    r,
                    defs[k].n_generics as nat,
                    any_param(),
                );
            },
            _ => {},
        }
    }
}

// ---------------------------------------------------------------------------
// Reachability

/// `w` is met first when the ADT type `v` is visited: from its type
/// arguments, or from the fields of its definition with the arguments
/// substituted.
pub open spec fn adt_succ(defs: Seq<AdtDef>, v: Ty, w: Ty) -> bool {
    match v {
        Ty::Adt(d, a) => tops_args(*a).contains(w) || (table_dids(defs).contains(d) && exists|k: int|
            0 <= k < def_of(defs, d).variants@.len() && #[trigger] tops_list(
                subst_list(def_of(defs, d).variants@[k], *a),
            ).contains(w)),
        _ => false,
    }
}

/// The types that visiting the ADT type `v` meets first.
pub open spec fn succs(defs: Seq<AdtDef>, v: Ty) -> Set<Ty> {
    Set::new(|w: Ty| adt_succ(defs, v, w))
}

/// Each type of `p` is met first from the one before it.
pub open spec fn is_chain(defs: Seq<AdtDef>, p: Seq<Ty>) -> bool
    decreases p.len(),
{
    p.len() <= 1 || (adt_succ(defs, p[0], p[1]) && is_chain(defs, p.drop_first()))
}

/// The ADT type `u` is reachable from the types `roots`: a chain leads from
/// one of them to `u`.
pub open spec fn reaches_from(defs: Seq<AdtDef>, roots: Set<Ty>, u: Ty) -> bool {
    exists|p: Seq<Ty>| #[trigger] is_chain(defs, p) && p.len() > 0 && roots.contains(p[0]) && p.last() == u
}

/// The ADT types reachable from `t`: those that visiting `t` meets first,
/// and every type met first from a reachable one.
pub open spec fn reaches(defs: Seq<AdtDef>, t: Ty, u: Ty) -> bool {
    reaches_from(defs, tops(t), u)
}

proof fn lemma_reach_root(defs: Seq<AdtDef>, roots: Set<Ty>, u: Ty)
    requires
        roots.contains(u),
    ensures
        reaches_from(defs, roots, u),
{
    let p = seq![u];
    assert(is_chain(defs, p));
}

proof fn lemma_reach_mono(defs: Seq<AdtDef>, r1: Set<Ty>, r2: Set<Ty>, u: Ty)
    requires
        reaches_from(defs, r1, u),
        r1.subset_of(r2),
    ensures
        reaches_from(defs, r2, u),
{
    let p = choose|p: Seq<Ty>| #[trigger] is_chain(defs, p) && p.len() > 0 && r1.contains(p[0]) && p.last() == u;
    assert(is_chain(defs, p) && p.len() > 0 && r2.contains(p[0]) && p.last() == u);
}

/// A type reachable from what `v` meets first is reachable from `v`.
proof fn lemma_reach_step(defs: Seq<AdtDef>, roots: Set<Ty>, v: Ty, u: Ty)
    requires
        roots.contains(v),
        reaches_from(defs, succs(defs, v), u),
    ensures
        reaches_from(defs, roots, u),
{
    let p = choose|p: Seq<Ty>|
        #[trigger] is_chain(defs, p) && p.len() > 0 && succs(defs, v).contains(p[0]) && p.last() == u;
    let q = seq![v] + p;
    assert(q.drop_first() =~= p);
    assert(q[1] == p[0]);
    assert(is_chain(defs, q));
    assert(q.last() == u);
}

/// The last type of a chain that starts in a closed collection is in it.
proof fn lemma_chain_in(defs: Seq<AdtDef>, p: Seq<Ty>, s: Seq<Ty>)
    requires
        is_chain(defs, p),
        p.len() > 0,
        s.contains(p[0]),
        forall|i: int| 0 <= i < s.len() ==> ty_closed(defs, #[trigger] s[i], s),
    ensures
        s.contains(p.last()),
    decreases p.len(),
{
    if p.len() > 1 {
        let j = choose|j: int| 0 <= j < s.len() && s[j] == p[0];
        assert(ty_closed(defs, s[j], s));
        match p[0] {
            Ty::Adt(d, a) => {
                if tops_args(*a).contains(p[1]) {
                    assert(s.contains(p[1]));
                } else {
                    let k = choose|k: int|
                        0 <= k < def_of(defs, d).variants@.len() && #[trigger] tops_list(
                            subst_list(def_of(defs, d).variants@[k], *a),
                        ).contains(p[1]);
                    assert(covered(tops_list(subst_list(def_of(defs, d).variants@[k], *a)), s));
                    assert(s.contains(p[1]));
                }
            },
            _ => {},
        }
        let q = p.drop_first();
        lemma_chain_in(defs, q, s);
        assert(q.last() == p.last());
    }
}

/// Every type that visiting `t` adds is reachable from `roots`, when
/// `roots` holds what `t` meets first.
pub proof fn lemma_cl_ty_reach(defs: Seq<AdtDef>, limit: nat, t: Ty, seen: Seq<Ty>, rec: Set<u64>, roots: Set<Ty>)
    requires
        table_ok(defs),
        ty_ok(t, table_dids(defs), any_param()),
        cl_ty(defs, limit, t, seen, rec).2,
        tops(t).subset_of(roots),
    ensures
        forall|i: int|
            seen.len() <= i < cl_ty(defs, limit, t, seen, rec).0.len() ==> reaches_from(
                defs,
                roots,
                #[trigger] cl_ty(defs, limit, t, seen, rec).0[i],
            ),
    decreases room(limit, seen), 0nat, t,
{
    let s2 = cl_ty(defs, limit, t, seen, rec).0;
    lemma_cl_ty_closed(defs, limit, t, seen, rec);
    match t {
        Ty::Adt(did, a) => {
            if !seen.contains(t) {
                let s1 = seen.push(t);
                let r1 = rec.insert(did);
                assert(tops(t).contains(t));
                lemma_reach_root(defs, roots, t);
                if !table_dids(defs).contains(did) {
                    assert(s2 == s1);
                    assert forall|i: int| seen.len() <= i < s2.len() implies reaches_from(defs, roots, #[trigger] s2[i]) by {
                        assert(i == seen.len());
                    }
                } else {
                    let vs = def_of(defs, did).variants@;
                    let (sv, rv, okv) = cl_variants(defs, limit, vs, *a, s1, r1);
                    let sc = succs(defs, t);
                    assert forall|k: int| 0 <= k < vs.len() implies list_ok(
                        subst_list(#[trigger] vs[k], *a),
                        table_dids(defs),
                        any_param(),
                    ) by {
                        let m = crate::ty::def_index(defs, did);
                        assert(0 <= m < defs.len() && defs[m].did == did);
                        assert(list_ok(defs[m].variants@[k], table_dids(defs), defs[m].n_generics as nat));
                        lemma_subst_list_ok(vs[k], *a, table_dids(defs), defs[m].n_generics as nat, any_param());
                    }
                    assert forall|k: int| 0 <= k < vs.len() implies tops_list(subst_list(#[trigger] vs[k], *a)).subset_of(
                        sc,
                    ) by {
                        assert forall|w: Ty| tops_list(subst_list(vs[k], *a)).contains(w) implies sc.contains(w) by {
                            assert(adt_succ(defs, t, w));
                        }
                    }
                    assert(tops_args(*a).subset_of(sc)) by {
                        assert forall|w: Ty| tops_args(*a).contains(w) implies sc.contains(w) by {
                            assert(adt_succ(defs, t, w));
                        }
                    }
                    lemma_cl_variants_closed(defs, limit, vs, *a, s1, r1);
                    lemma_cl_variants_reach(defs, limit, vs, *a, s1, r1, sc);
                    lemma_cl_args_closed(defs, limit, *a, sv, rv);
                    lemma_cl_args_reach(defs, limit, *a, sv, rv, sc);
                    lemma_grows_trans(defs, s1, sv, s2);
                    assert(s2[seen.len() as int] == t) by {
                        assert(s2.subrange(0, s1.len() as int)[seen.len() as int] == s2[seen.len() as int]);
                    }
                    assert forall|i: int| seen.len() <= i < s2.len() implies reaches_from(defs, roots, #[trigger] s2[i]) by {
                        if i == seen.len() {
                        } else if i < sv.len() {
                            assert(s2.subrange(0, sv.len() as int)[i] == s2[i]);
                            assert(reaches_from(defs, sc, sv[i]));
                            lemma_reach_step(defs, roots, t, s2[i]);
                        } else {
                            assert(reaches_from(defs, sc, s2[i]));
                            lemma_reach_step(defs, roots, t, s2[i]);
                        }
                    }
                }
            } else {
                assert(s2 == seen);
            }
        },
        Ty::Array(e) => {
            lemma_cl_ty_reach(defs, limit, *e, seen, rec, roots);
            assert(s2 == cl_ty(defs, limit, *e, seen, rec).0);
        },
        Ty::Slice(e) => {
            lemma_cl_ty_reach(defs, limit, *e, seen, rec, roots);
            assert(s2 == cl_ty(defs, limit, *e, seen, rec).0);
        },
        Ty::RawPtr(e) => {
            lemma_cl_ty_reach(defs, limit, *e, seen, rec, roots);
            assert(s2 == cl_ty(defs, limit, *e, seen, rec).0);
        },
        Ty::Ref(e) => {
            lemma_cl_ty_reach(defs, limit, *e, seen, rec, roots);
            assert(s2 == cl_ty(defs, limit, *e, seen, rec).0);
        },
        Ty::Tuple(l) => {
            let (s1, r1, ok1) = cl_list(defs, limit, *l, seen, rec);
            lemma_cl_list_closed(defs, limit, *l, seen, rec);
            lemma_cl_list_reach(defs, limit, *l, seen, rec, roots);
            lemma_cl_list_closed(defs, limit, *l, s1, r1);
            lemma_cl_list_reach(defs, limit, *l, s1, r1, roots);
            assert forall|i: int| seen.len() <= i < s2.len() implies reaches_from(defs, roots, #[trigger] s2[i]) by {
                if i < s1.len() {
                    assert(s2.subrange(0, s1.len() as int)[i] == s2[i]);
                    assert(reaches_from(defs, roots, s1[i]));
                }
            }
        },
        _ => {},
    }
}

pub proof fn lemma_cl_variants_reach(
    defs: Seq<AdtDef>,
    limit: nat,
    vs: Seq<TyList>,
    a: GenericArgs,
    seen: Seq<Ty>,
    rec: Set<u64>,
    roots: Set<Ty>,
)
    requires
        table_ok(defs),
        forall|k: int| 0 <= k < vs.len() ==> list_ok(subst_list(#[trigger] vs[k], a), table_dids(defs), any_param()),
        forall|k: int| 0 <= k < vs.len() ==> tops_list(subst_list(#[trigger] vs[k], a)).subset_of(roots),
        cl_variants(defs, limit, vs, a, seen, rec).2,
    ensures
        forall|i: int|
            seen.len() <= i < cl_variants(defs, limit, vs, a, seen, rec).0.len() ==> reaches_from(
                defs,
                roots,
                #[trigger] cl_variants(defs, limit, vs, a, seen, rec).0[i],
            ),
    decreases room(limit, seen), 1nat, vs,
{
    if vs.len() > 0 {
        let (s1, r1, ok1) = cl_list(defs, limit, subst_list(vs[0], a), seen, rec);
        let s2 = cl_variants(defs, limit, vs, a, seen, rec).0;
        lemma_cl_list_closed(defs, limit, subst_list(vs[0], a), seen, rec);
        lemma_cl_list_reach(defs, limit, subst_list(vs[0], a), seen, rec, roots);
        let rest = vs.drop_first();
        assert forall|k: int| 0 <= k < rest.len() implies list_ok(
            subst_list(#[trigger] rest[k], a),
            table_dids(defs),
            any_param(),
        ) && tops_list(subst_list(rest[k], a)).subset_of(roots) by {
            assert(rest[k] == vs[k + 1]);
        }
        lemma_cl_variants_closed(defs, limit, rest, a, s1, r1);
        lemma_cl_variants_reach(defs, limit, rest, a, s1, r1, roots);
        assert forall|i: int| seen.len() <= i < s2.len() implies reaches_from(defs, roots, #[trigger] s2[i]) by {
            if i < s1.len() {
                assert(s2.subrange(0, s1.len() as int)[i] == s2[i]);
                assert(reaches_from(defs, roots, s1[i]));
            }
        }
    }
}

pub proof fn lemma_cl_list_reach(defs: Seq<AdtDef>, limit: nat, l: TyList, seen: Seq<Ty>, rec: Set<u64>, roots: Set<Ty>)
    requires
        table_ok(defs),
        list_ok(l, table_dids(defs), any_param()),
        cl_list(defs, limit, l, seen, rec).2,
        tops_list(l).subset_of(roots),
    ensures
        forall|i: int|
            seen.len() <= i < cl_list(defs, limit, l, seen, rec).0.len() ==> reaches_from(
                defs,
                roots,
                #[trigger] cl_list(defs, limit, l, seen, rec).0[i],
            ),
    decreases room(limit, seen), 0nat, l,
{
    match l {
        TyList::Nil => {},
        TyList::Cons(t, rest) => {
            let (s1, r1, ok1) = cl_ty(defs, limit, t, seen, rec);
            let s2 = cl_list(defs, limit, l, seen, rec).0;
            lemma_cl_ty_closed(defs, limit, t, seen, rec);
            lemma_cl_ty_reach(defs, limit, t, seen, rec, roots);
            lemma_cl_list_closed(defs, limit, *rest, s1, r1);
            lemma_cl_list_reach(defs, limit, *rest, s1, r1, roots);
            assert forall|i: int| seen.len() <= i < s2.len() implies reaches_from(defs, roots, #[trigger] s2[i]) by {
                if i < s1.len() {
                    assert(s2.subrange(0, s1.len() as int)[i] == s2[i]);
                    assert(reaches_from(defs, roots, s1[i]));
                }
            }
        },
    }
}

pub proof fn lemma_cl_args_reach(defs: Seq<AdtDef>, limit: nat, a: GenericArgs, seen: Seq<Ty>, rec: Set<u64>, roots: Set<Ty>)
    requires
        table_ok(defs),
        args_ok(a, table_dids(defs), any_param()),
        cl_args(defs, limit, a, seen, rec).2,
        tops_args(a).subset_of(roots),
    ensures
        forall|i: int|
            seen.len() <= i < cl_args(defs, limit, a, seen, rec).0.len() ==> reaches_from(
                defs,
                roots,
                #[trigger] cl_args(defs, limit, a, seen, rec).0[i],
            ),
    decreases room(limit, seen), 0nat, a,
{
    match a {
        GenericArgs::Nil => {},
        GenericArgs::Cons(g, rest) => match g {
            GenericArg::Type(u) => {
                let (s1, r1, ok1) = cl_ty(defs, limit, u, seen, rec);
                let s2 = cl_args(defs, limit, a, seen, rec).0;
                lemma_cl_ty_closed(defs, limit, u, seen, rec);
                lemma_cl_ty_reach(defs, limit, u, seen, rec, roots);
                lemma_cl_args_closed(defs, limit, *rest, s1, r1);
                lemma_cl_args_reach(defs, limit, *rest, s1, r1, roots);
                assert forall|i: int| seen.len() <= i < s2.len() implies reaches_from(defs, roots, #[trigger] s2[i]) by {
                    if i < s1.len() {
                        assert(s2.subrange(0, s1.len() as int)[i] == s2[i]);
                        assert(reaches_from(defs, roots, s1[i]));
                    }
                }
            },
            _ => {
                lemma_cl_args_reach(defs, limit, *rest, seen, rec, roots);
            },
        },
    }
}

/// Visiting `t` from a closed collection, when it stays within the limit,
/// keeps the ADT types met before, in order, and afterwards a type has been
/// met exactly when it had been met before or is reachable from `t`; the
/// ids recorded are those of the types met, and the collection is closed.
pub proof fn lemma_visit_reaches(defs: Seq<AdtDef>, limit: nat, t: Ty, seen: Seq<Ty>, rec: Set<u64>)
    requires
        table_ok(defs),
        ty_ok(t, table_dids(defs), any_param()),
        collection_closed(defs, seen, rec),
        cl_ty(defs, limit, t, seen, rec).2,
    ensures
        seen.len() <= cl_ty(defs, limit, t, seen, rec).0.len(),
        cl_ty(defs, limit, t, seen, rec).0.subrange(0, seen.len() as int) == seen,
        forall|u: Ty|
            #[trigger] cl_ty(defs, limit, t, seen, rec).0.contains(u) <==> (seen.contains(u) || reaches(defs, t, u)),
        collection_closed(defs, cl_ty(defs, limit, t, seen, rec).0, cl_ty(defs, limit, t, seen, rec).1),
{
    let (s2, r2, ok) = cl_ty(defs, limit, t, seen, rec);
    lemma_cl_ty_closed(defs, limit, t, seen, rec);
    lemma_cl_ty_reach(defs, limit, t, seen, rec, tops(t));
    lemma_grows_trans(defs, Seq::empty(), seen, s2);
    assert forall|u: Ty| #[trigger] s2.contains(u) <==> (seen.contains(u) || reaches(defs, t, u)) by {
        if s2.contains(u) {
            let i = choose|i: int| 0 <= i < s2.len() && s2[i] == u;
            if i < seen.len() {
                assert(s2.subrange(0, seen.len() as int)[i] == s2[i]);
                assert(seen[i] == u);
            } else {
                assert(reaches_from(defs, tops(t), s2[i]));
            }
        }
        if seen.contains(u) {
            let i = choose|i: int| 0 <= i < seen.len() && seen[i] == u;
            assert(s2.subrange(0, seen.len() as int)[i] == s2[i]);
        }
        if reaches(defs, t, u) {
            let p = choose|p: Seq<Ty>|
                #[trigger] is_chain(defs, p) && p.len() > 0 && tops(t).contains(p[0]) && p.last() == u;
            lemma_chain_in(defs, p, s2);
        }
    }
}

/// Visiting a type whose first-met ADT types have all been met changes
/// nothing.
pub proof fn lemma_cl_ty_covered(defs: Seq<AdtDef>, limit: nat, t: Ty, seen: Seq<Ty>, rec: Set<u64>)
    requires
        covered(tops(t), seen),
    ensures
        cl_ty(defs, limit, t, seen, rec) == (seen, rec, true),
    decreases t,
{
    match t {
        Ty::Adt(_, _) => {
            assert(tops(t).contains(t));
        },
        Ty::Array(e) => lemma_cl_ty_covered(defs, limit, *e, seen, rec),
        Ty::Slice(e) => lemma_cl_ty_covered(defs, limit, *e, seen, rec),
        Ty::RawPtr(e) => lemma_cl_ty_covered(defs, limit, *e, seen, rec),
        Ty::Ref(e) => lemma_cl_ty_covered(defs, limit, *e, seen, rec),
        Ty::Tuple(l) => lemma_cl_list_covered(defs, limit, *l, seen, rec),
        _ => {},
    }
}

pub proof fn lemma_cl_list_covered(defs: Seq<AdtDef>, limit: nat, l: TyList, seen: Seq<Ty>, rec: Set<u64>)
    requires
        covered(tops_list(l), seen),
    ensures
        cl_list(defs, limit, l, seen, rec) == (seen, rec, true),
    decreases l,
{
    match l {
        TyList::Nil => {},
        TyList::Cons(t, rest) => {
            assert(covered(tops(t), seen)) by {
                assert forall|x: Ty| #[trigger] tops(t).contains(x) implies seen.contains(x) by {
                    assert(tops_list(l).contains(x));
                }
            }
            assert(covered(tops_list(*rest), seen)) by {
                assert forall|x: Ty| #[trigger] tops_list(*rest).contains(x) implies seen.contains(x) by {
                    assert(tops_list(l).contains(x));
                }
            }
            lemma_cl_ty_covered(defs, limit, t, seen, rec);
            lemma_cl_list_covered(defs, limit, *rest, seen, rec);
        },
    }
}

/// A visit never drops a type met, and one that breaks off has met as many
/// types as the limit allows.
pub proof fn lemma_cl_ty_len(defs: Seq<AdtDef>, limit: nat, t: Ty, seen: Seq<Ty>, rec: Set<u64>)
    ensures
        seen.len() <= cl_ty(defs, limit, t, seen, rec).0.len(),
        !cl_ty(defs, limit, t, seen, rec).2 ==> cl_ty(defs, limit, t, seen, rec).0.len() >= limit,
    decreases room(limit, seen), 0nat, t,
{
    match t {
        Ty::Adt(did, a) => {
            if !seen.contains(t) && seen.len() < limit {
                let s1 = seen.push(t);
                let r1 = rec.insert(did);
                if table_dids(defs).contains(did) {
                    let vs = def_of(defs, did).variants@;
                    let (sv, rv, okv) = cl_variants(defs, limit, vs, *a, s1, r1);
                    lemma_cl_variants_len(defs, limit, vs, *a, s1, r1);
                    if okv {
                        lemma_cl_args_len(defs, limit, *a, sv, rv);
                    }
                }
            }
        },
        Ty::Array(e) => lemma_cl_ty_len(defs, limit, *e, seen, rec),
        Ty::Slice(e) => lemma_cl_ty_len(defs, limit, *e, seen, rec),
        Ty::RawPtr(e) => lemma_cl_ty_len(defs, limit, *e, seen, rec),
        Ty::Ref(e) => lemma_cl_ty_len(defs, limit, *e, seen, rec),
        Ty::Tuple(l) => {
            let (s1, r1, ok1) = cl_list(defs, limit, *l, seen, rec);
            lemma_cl_list_len(defs, limit, *l, seen, rec);
            if ok1 {
                lemma_cl_list_len(defs, limit, *l, s1, r1);
            }
        },
        _ => {},
    }
}

pub proof fn lemma_cl_variants_len(
    defs: Seq<AdtDef>,
    limit: nat,
    vs: Seq<TyList>,
    a: GenericArgs,
    seen: Seq<Ty>,
    rec: Set<u64>,
)
    ensures
        seen.len() <= cl_variants(defs, limit, vs, a, seen, rec).0.len(),
        !cl_variants(defs, limit, vs, a, seen, rec).2 ==> cl_variants(defs, limit, vs, a, seen, rec).0.len() >= limit,
    decreases room(limit, seen), 1nat, vs,
{
    if vs.len() > 0 {
        let (s1, r1, ok1) = cl_list(defs, limit, subst_list(vs[0], a), seen, rec);
        lemma_cl_list_len(defs, limit, subst_list(vs[0], a), seen, rec);
        if ok1 {
            lemma_cl_variants_len(defs, limit, vs.drop_first(), a, s1, r1);
        }
    }
}

pub proof fn lemma_cl_list_len(defs: Seq<AdtDef>, limit: nat, l: TyList, seen: Seq<Ty>, rec: Set<u64>)
    ensures
        seen.len() <= cl_list(defs, limit, l, seen, rec).0.len(),
        !cl_list(defs, limit, l, seen, rec).2 ==> cl_list(defs, limit, l, seen, rec).0.len() >= limit,
    decreases room(limit, seen), 0nat, l,
{
    match l {
        TyList::Nil => {},
        TyList::Cons(t, rest) => {
            let (s1, r1, ok1) = cl_ty(defs, limit, t, seen, rec);
            lemma_cl_ty_len(defs, limit, t, seen, rec);
            if ok1 {
                lemma_cl_list_len(defs, limit, *rest, s1, r1);
            }
        },
    }
}

pub proof fn lemma_cl_args_len(defs: Seq<AdtDef>, limit: nat, a: GenericArgs, seen: Seq<Ty>, rec: Set<u64>)
    ensures
        seen.len() <= cl_args(defs, limit, a, seen, rec).0.len(),
        !cl_args(defs, limit, a, seen, rec).2 ==> cl_args(defs, limit, a, seen, rec).0.len() >= limit,
    decreases room(limit, seen), 0nat, a,
{
    match a {
        GenericArgs::Nil => {},
        GenericArgs::Cons(g, rest) => match g {
            GenericArg::Type(u) => {
                let (s1, r1, ok1) = cl_ty(defs, limit, u, seen, rec);
                lemma_cl_ty_len(defs, limit, u, seen, rec);
                if ok1 {
                    lemma_cl_args_len(defs, limit, *rest, s1, r1);
                }
            },
            _ => lemma_cl_args_len(defs, limit, *rest, seen, rec),
        },
    }
}

/// Once as many types are met as the limit allows, a visit changes nothing.
pub proof fn lemma_cl_ty_full(defs: Seq<AdtDef>, limit: nat, t: Ty, seen: Seq<Ty>, rec: Set<u64>)
    requires
        seen.len() >= limit,
    ensures
        cl_ty(defs, limit, t, seen, rec).0 == seen,
        cl_ty(defs, limit, t, seen, rec).1 == rec,
    decreases t,
{
    match t {
        Ty::Array(e) => lemma_cl_ty_full(defs, limit, *e, seen, rec),
        Ty::Slice(e) => lemma_cl_ty_full(defs, limit, *e, seen, rec),
        Ty::RawPtr(e) => lemma_cl_ty_full(defs, limit, *e, seen, rec),
        Ty::Ref(e) => lemma_cl_ty_full(defs, limit, *e, seen, rec),
        Ty::Tuple(l) => lemma_cl_list_full(defs, limit, *l, seen, rec),
        _ => {},
    }
}

pub proof fn lemma_cl_list_full(defs: Seq<AdtDef>, limit: nat, l: TyList, seen: Seq<Ty>, rec: Set<u64>)
    requires
        seen.len() >= limit,
    ensures
        cl_list(defs, limit, l, seen, rec).0 == seen,
        cl_list(defs, limit, l, seen, rec).1 == rec,
    decreases l,
{
    match l {
        TyList::Nil => {},
        TyList::Cons(t, rest) => {
            lemma_cl_ty_full(defs, limit, t, seen, rec);
            lemma_cl_list_full(defs, limit, *rest, seen, rec);
        },
    }
}

/// Visiting a type a second time, right after a visit, changes nothing:
/// after a visit that stayed within the limit every type it meets has been
/// met, and after one that broke off no more types may be met. A second
/// visit succeeds when the first did.
pub proof fn lemma_visit_twice(defs: Seq<AdtDef>, limit: nat, t: Ty, seen: Seq<Ty>, rec: Set<u64>)
    requires
        table_ok(defs),
        ty_ok(t, table_dids(defs), any_param()),
    ensures
        cl_ty(defs, limit, t, cl_ty(defs, limit, t, seen, rec).0, cl_ty(defs, limit, t, seen, rec).1).0 == cl_ty(
            defs,
            limit,
            t,
            seen,
            rec,
        ).0,
        cl_ty(defs, limit, t, cl_ty(defs, limit, t, seen, rec).0, cl_ty(defs, limit, t, seen, rec).1).1 == cl_ty(
            defs,
            limit,
            t,
            seen,
            rec,
        ).1,
        cl_ty(defs, limit, t, seen, rec).2 ==> cl_ty(
            defs,
            limit,
            t,
            cl_ty(defs, limit, t, seen, rec).0,
            cl_ty(defs, limit, t, seen, rec).1,
        ).2,
{
    let (s1, r1, ok) = cl_ty(defs, limit, t, seen, rec);
    if ok {
        lemma_cl_ty_closed(defs, limit, t, seen, rec);
        lemma_cl_ty_covered(defs, limit, t, s1, r1);
    } else {
        lemma_cl_ty_len(defs, limit, t, seen, rec);
        lemma_cl_ty_full(defs, limit, t, s1, r1);
    }
}

} // verus!
