//! Type discernment: the ADT types that the locals of the crate's function
//! bodies mention, each kept under rustc's debug text of it in a two-way map.
use vstd::prelude::*;

use std::collections::HashSet;

use crate::analysis::type_analysis::{body_dids, body_index, find_body, FnBody};
use crate::text::str_eq;

verus! {

broadcast use vstd::std_specs::hash::group_hash_axioms;

// ---------------------------------------------------------------------------
// Types as type discernment sees them

/// A type as type discernment walks it: the id under which rustc interns
/// it (two types are the same type exactly when their ids are equal),
/// rustc's debug text of it, and what it is made of.
pub struct NamedTy {
    pub id: u64,
    pub debug: String,
    pub kind: NamedKind,
}

/// What a type is made of, as far as type discernment looks into it.
pub enum NamedKind {
    /// An ADT type, with its type arguments; lifetime and constant
    /// arguments are left out.
    Adt(Box<NamedList>),
    Array(Box<NamedTy>),
    Slice(Box<NamedTy>),
    RawPtr(Box<NamedTy>),
    Ref(Box<NamedTy>),
    Tuple(Box<NamedList>),
    Other,
}

/// A list of types.
pub enum NamedList {
    Nil,
    Cons(Box<NamedTy>, Box<NamedList>),
}

/// A copy of `t`.
fn copy_named(t: &NamedTy) -> (r: NamedTy)
    ensures
        r == *t,
    decreases t,
{
    let kind = match &t.kind {
        NamedKind::Adt(a) => NamedKind::Adt(Box::new(copy_named_list(a))),
        NamedKind::Array(e) => NamedKind::Array(Box::new(copy_named(e))),
        NamedKind::Slice(e) => NamedKind::Slice(Box::new(copy_named(e))),
        NamedKind::RawPtr(e) => NamedKind::RawPtr(Box::new(copy_named(e))),
        NamedKind::Ref(e) => NamedKind::Ref(Box::new(copy_named(e))),
        NamedKind::Tuple(l) => NamedKind::Tuple(Box::new(copy_named_list(l))),
        NamedKind::Other => NamedKind::Other,
    };
    NamedTy { id: t.id, debug: t.debug.clone(), kind }
}

/// A copy of `l`.
fn copy_named_list(l: &NamedList) -> (r: NamedList)
    ensures
        r == *l,
    decreases l,
{
    match l {
        NamedList::Nil => NamedList::Nil,
        NamedList::Cons(t, rest) => NamedList::Cons(Box::new(copy_named(t)), Box::new(copy_named_list(rest))),
    }
}

// ---------------------------------------------------------------------------
// The two-way map between types and their debug texts


/// The map from type ids to debug texts that the entries `v` give.
pub open spec fn t2s_of(v: Seq<(u64, String)>) -> Map<u64, Seq<char>> {
    Map::new(
        |t: u64| exists|i: int| 0 <= i < v.len() && v[i].0 == t,
        |t: u64| v[choose|i: int| 0 <= i < v.len() && v[i].0 == t].1@,
    )
}

/// The map from debug texts to types that the entries `v` give.
pub open spec fn s2t_of(v: Seq<(String, NamedTy)>) -> Map<Seq<char>, NamedTy> {
    Map::new(
        |s: Seq<char>| exists|i: int| 0 <= i < v.len() && v[i].0@ == s,
        |s: Seq<char>| v[choose|i: int| 0 <= i < v.len() && v[i].0@ == s].1,
    )
}

/// No type occurs twice among the entries `v`.
pub open spec fn unique_t(v: Seq<(u64, String)>) -> bool {
    forall|i: int, j: int| #![trigger v[i], v[j]] 0 <= i < j < v.len() ==> v[i].0 != v[j].0
}

/// No debug text occurs twice among the entries `v`.
pub open spec fn unique_s(v: Seq<(String, NamedTy)>) -> bool {
    forall|i: int, j: int| #![trigger v[i], v[j]] 0 <= i < j < v.len() ==> v[i].0@ != v[j].0@
}

/// The map of entries with distinct types gives each entry.
pub proof fn lemma_t2s_of_at(v: Seq<(u64, String)>, i: int)
    requires
        unique_t(v),
        0 <= i < v.len(),
    ensures
        t2s_of(v).contains_key(v[i].0),
        t2s_of(v)[v[i].0] == v[i].1@,
{
    let k = choose|k: int| 0 <= k < v.len() && v[k].0 == v[i].0;
    if k < i {
        assert(v[k].0 != v[i].0);
    } else if k > i {
        assert(v[i].0 != v[k].0);
    }
}

/// The map of entries with distinct debug texts gives each entry.
pub proof fn lemma_s2t_of_at(v: Seq<(String, NamedTy)>, i: int)
    requires
        unique_s(v),
        0 <= i < v.len(),
    ensures
        s2t_of(v).contains_key(v[i].0@),
        s2t_of(v)[v[i].0@] == v[i].1,
{
    let k = choose|k: int| 0 <= k < v.len() && v[k].0@ == v[i].0@;
    if k < i {
        assert(v[k].0@ != v[i].0@);
    } else if k > i {
        assert(v[i].0@ != v[k].0@);
    }
}

/// Setting the debug text of a type held at `i` changes only that text.
pub proof fn lemma_t2s_update(v: Seq<(u64, String)>, i: int, e: (u64, String))
    requires
        unique_t(v),
        0 <= i < v.len(),
        v[i].0 == e.0,
    ensures
        unique_t(v.update(i, e)),
        t2s_of(v.update(i, e)) == t2s_of(v).insert(e.0, e.1@),
{
    let w = v.update(i, e);
    assert forall|a: int, b: int| #![trigger w[a], w[b]] 0 <= a < b < w.len() implies w[a].0 != w[b].0 by {
        assert(v[a].0 == w[a].0 && v[b].0 == w[b].0);
        assert(v[a].0 != v[b].0);
    }
    assert forall|t: u64| #[trigger] t2s_of(w).contains_key(t) == t2s_of(v).insert(e.0, e.1@).contains_key(t) by {
        if t2s_of(w).contains_key(t) {
            let j = choose|j: int| 0 <= j < w.len() && w[j].0 == t;
            assert(v[j].0 == t);
        }
        if t2s_of(v).contains_key(t) {
            let j = choose|j: int| 0 <= j < v.len() && v[j].0 == t;
            assert(w[j].0 == t);
        }
        if t == e.0 {
            assert(w[i].0 == t);
        }
    }
    assert forall|t: u64| t2s_of(w).contains_key(t) implies t2s_of(w)[t] == t2s_of(v).insert(e.0, e.1@)[t] by {
        let j = choose|j: int| 0 <= j < w.len() && w[j].0 == t;
        lemma_t2s_of_at(w, j);
        if j != i {
            lemma_t2s_of_at(v, j);
        }
    }
    assert(t2s_of(w) =~= t2s_of(v).insert(e.0, e.1@));
}

/// Adding a type not held adds its debug text.
pub proof fn lemma_t2s_push(v: Seq<(u64, String)>, e: (u64, String))
    requires
        unique_t(v),
        !t2s_of(v).contains_key(e.0),
    ensures
        unique_t(v.push(e)),
        t2s_of(v.push(e)) == t2s_of(v).insert(e.0, e.1@),
{
    let w = v.push(e);
    assert forall|a: int, b: int| #![trigger w[a], w[b]] 0 <= a < b < w.len() implies w[a].0 != w[b].0 by {
        if b == v.len() {
            assert(w[a].0 == v[a].0);
        } else {
            assert(v[a].0 != v[b].0);
        }
    }
    assert forall|t: u64| #[trigger] t2s_of(w).contains_key(t) == t2s_of(v).insert(e.0, e.1@).contains_key(t) by {
        if t2s_of(w).contains_key(t) {
            let j = choose|j: int| 0 <= j < w.len() && w[j].0 == t;
            if j < v.len() {
                assert(v[j].0 == t);
            }
        }
        if t2s_of(v).contains_key(t) {
            let j = choose|j: int| 0 <= j < v.len() && v[j].0 == t;
            assert(w[j].0 == t);
        }
        if t == e.0 {
            assert(w[v.len() as int].0 == t);
        }
    }
    assert forall|t: u64| t2s_of(w).contains_key(t) implies t2s_of(w)[t] == t2s_of(v).insert(e.0, e.1@)[t] by {
        let j = choose|j: int| 0 <= j < w.len() && w[j].0 == t;
        lemma_t2s_of_at(w, j);
        if j < v.len() {
            lemma_t2s_of_at(v, j);
        }
    }
    assert(t2s_of(w) =~= t2s_of(v).insert(e.0, e.1@));
}

/// Removing the entry at `i` forgets its type.
pub proof fn lemma_t2s_remove(v: Seq<(u64, String)>, i: int)
    requires
        unique_t(v),
        0 <= i < v.len(),
    ensures
        unique_t(v.remove(i)),
        t2s_of(v.remove(i)) == t2s_of(v).remove(v[i].0),
{
    let w = v.remove(i);
    assert forall|a: int, b: int| #![trigger w[a], w[b]] 0 <= a < b < w.len() implies w[a].0 != w[b].0 by {
        let a2 = if a < i { a } else { a + 1 };
        let b2 = if b < i { b } else { b + 1 };
        assert(w[a] == v[a2] && w[b] == v[b2]);
        assert(v[a2].0 != v[b2].0);
    }
    assert forall|t: u64| #[trigger] t2s_of(w).contains_key(t) == t2s_of(v).remove(v[i].0).contains_key(t) by {
        if t2s_of(w).contains_key(t) {
            let j = choose|j: int| 0 <= j < w.len() && w[j].0 == t;
            let j2 = if j < i { j } else { j + 1 };
            assert(w[j] == v[j2]);
            if j2 < i {
                assert(v[j2].0 != v[i].0);
            } else {
                assert(v[i].0 != v[j2].0);
            }
        }
        if t2s_of(v).contains_key(t) && t != v[i].0 {
            let j = choose|j: int| 0 <= j < v.len() && v[j].0 == t;
            if j < i {
                assert(w[j].0 == t);
            } else {
                assert(w[j - 1].0 == t);
            }
        }
    }
    assert forall|t: u64| t2s_of(w).contains_key(t) implies t2s_of(w)[t] == t2s_of(v).remove(v[i].0)[t] by {
        let j = choose|j: int| 0 <= j < w.len() && w[j].0 == t;
        let j2 = if j < i { j } else { j + 1 };
        assert(w[j] == v[j2]);
        lemma_t2s_of_at(w, j);
        lemma_t2s_of_at(v, j2);
    }
    assert(t2s_of(w) =~= t2s_of(v).remove(v[i].0));
}

/// Setting the type of a debug text held at `i` changes only that type.
pub proof fn lemma_s2t_update(v: Seq<(String, NamedTy)>, i: int, e: (String, NamedTy))
    requires
        unique_s(v),
        0 <= i < v.len(),
        v[i].0@ == e.0@,
    ensures
        unique_s(v.update(i, e)),
        s2t_of(v.update(i, e)) == s2t_of(v).insert(e.0@, e.1),
{
    let w = v.update(i, e);
    assert forall|a: int, b: int| #![trigger w[a], w[b]] 0 <= a < b < w.len() implies w[a].0@ != w[b].0@ by {
        assert(v[a].0@ == w[a].0@ && v[b].0@ == w[b].0@);
        assert(v[a].0@ != v[b].0@);
    }
    assert forall|s: Seq<char>| #[trigger] s2t_of(w).contains_key(s) == s2t_of(v).insert(e.0@, e.1).contains_key(s) by {
        if s2t_of(w).contains_key(s) {
            let j = choose|j: int| 0 <= j < w.len() && w[j].0@ == s;
            assert(v[j].0@ == s);
        }
        if s2t_of(v).contains_key(s) {
            let j = choose|j: int| 0 <= j < v.len() && v[j].0@ == s;
            assert(w[j].0@ == s);
        }
        if s == e.0@ {
            assert(w[i].0@ == s);
        }
    }
    assert forall|s: Seq<char>| s2t_of(w).contains_key(s) implies s2t_of(w)[s] == s2t_of(v).insert(e.0@, e.1)[s] by {
        let j = choose|j: int| 0 <= j < w.len() && w[j].0@ == s;
        lemma_s2t_of_at(w, j);
        if j != i {
            lemma_s2t_of_at(v, j);
        }
    }
    assert(s2t_of(w) =~= s2t_of(v).insert(e.0@, e.1));
}

/// Adding a debug text not held adds its type.
pub proof fn lemma_s2t_push(v: Seq<(String, NamedTy)>, e: (String, NamedTy))
    requires
        unique_s(v),
        !s2t_of(v).contains_key(e.0@),
    ensures
        unique_s(v.push(e)),
        s2t_of(v.push(e)) == s2t_of(v).insert(e.0@, e.1),
{
    let w = v.push(e);
    assert forall|a: int, b: int| #![trigger w[a], w[b]] 0 <= a < b < w.len() implies w[a].0@ != w[b].0@ by {
        if b == v.len() {
            assert(w[a].0@ == v[a].0@);
        } else {
            assert(v[a].0@ != v[b].0@);
        }
    }
    assert forall|s: Seq<char>| #[trigger] s2t_of(w).contains_key(s) == s2t_of(v).insert(e.0@, e.1).contains_key(s) by {
        if s2t_of(w).contains_key(s) {
            let j = choose|j: int| 0 <= j < w.len() && w[j].0@ == s;
            if j < v.len() {
                assert(v[j].0@ == s);
            }
        }
        if s2t_of(v).contains_key(s) {
            let j = choose|j: int| 0 <= j < v.len() && v[j].0@ == s;
            assert(w[j].0@ == s);
        }
        if s == e.0@ {
            assert(w[v.len() as int].0@ == s);
        }
    }
    assert forall|s: Seq<char>| s2t_of(w).contains_key(s) implies s2t_of(w)[s] == s2t_of(v).insert(e.0@, e.1)[s] by {
        let j = choose|j: int| 0 <= j < w.len() && w[j].0@ == s;
        lemma_s2t_of_at(w, j);
        if j < v.len() {
            lemma_s2t_of_at(v, j);
        }
    }
    assert(s2t_of(w) =~= s2t_of(v).insert(e.0@, e.1));
}

/// Removing the entry at `i` forgets its debug text.
pub proof fn lemma_s2t_remove(v: Seq<(String, NamedTy)>, i: int)
    requires
        unique_s(v),
        0 <= i < v.len(),
    ensures
        unique_s(v.remove(i)),
        s2t_of(v.remove(i)) == s2t_of(v).remove(v[i].0@),
{
    let w = v.remove(i);
    assert forall|a: int, b: int| #![trigger w[a], w[b]] 0 <= a < b < w.len() implies w[a].0@ != w[b].0@ by {
        let a2 = if a < i { a } else { a + 1 };
        let b2 = if b < i { b } else { b + 1 };
        assert(w[a] == v[a2] && w[b] == v[b2]);
        assert(v[a2].0@ != v[b2].0@);
    }
    assert forall|s: Seq<char>| #[trigger] s2t_of(w).contains_key(s) == s2t_of(v).remove(v[i].0@).contains_key(s) by {
        if s2t_of(w).contains_key(s) {
            let j = choose|j: int| 0 <= j < w.len() && w[j].0@ == s;
            let j2 = if j < i { j } else { j + 1 };
            assert(w[j] == v[j2]);
            if j2 < i {
                assert(v[j2].0@ != v[i].0@);
            } else {
                assert(v[i].0@ != v[j2].0@);
            }
        }
        if s2t_of(v).contains_key(s) && s != v[i].0@ {
            let j = choose|j: int| 0 <= j < v.len() && v[j].0@ == s;
            if j < i {
                assert(w[j].0@ == s);
            } else {
                assert(w[j - 1].0@ == s);
            }
        }
    }
    assert forall|s: Seq<char>| s2t_of(w).contains_key(s) implies s2t_of(w)[s] == s2t_of(v).remove(v[i].0@)[s] by {
        let j = choose|j: int| 0 <= j < w.len() && w[j].0@ == s;
        let j2 = if j < i { j } else { j + 1 };
        assert(w[j] == v[j2]);
        lemma_s2t_of_at(w, j);
        lemma_s2t_of_at(v, j2);
    }
    assert(s2t_of(w) =~= s2t_of(v).remove(v[i].0@));
}


/// The types met and their debug texts, each held twice: from type ids to
/// debug texts and from debug texts to types.
pub struct TypeMap {
    ty_to_string: Vec<(u64, String)>,
    string_to_ty: Vec<(String, NamedTy)>,
}

impl TypeMap {
    /// The debug texts of the types held, by type id.
    pub closed spec fn t2s(&self) -> Map<u64, Seq<char>> {
        t2s_of(self.ty_to_string@)
    }

    /// The types of the debug texts held.
    pub closed spec fn s2t(&self) -> Map<Seq<char>, NamedTy> {
        s2t_of(self.string_to_ty@)
    }

    /// No type and no debug text is held twice.
    pub closed spec fn wf(&self) -> bool {
        unique_t(self.ty_to_string@) && unique_s(self.string_to_ty@)
    }

    fn t2s_index(&self, id: u64) -> (r: Option<usize>)
        requires
            self.wf(),
        ensures
            match r {
                Some(i) => i < self.ty_to_string@.len() && self.ty_to_string@[i as int].0 == id,
                None => !self.t2s().contains_key(id),
            },
    {
        let mut i: usize = 0;
        while i < self.ty_to_string.len()
            invariant
                i <= self.ty_to_string@.len(),
                forall|j: int| 0 <= j < i ==> self.ty_to_string@[j].0 != id,
            decreases self.ty_to_string@.len() - i,
        {
            if self.ty_to_string[i].0 == id {
                return Some(i);
            }
            i = i + 1;
        }
        None
    }

    fn s2t_index(&self, s: &str) -> (r: Option<usize>)
        requires
            self.wf(),
        ensures
            match r {
                Some(i) => i < self.string_to_ty@.len() && self.string_to_ty@[i as int].0@ == s@,
                None => !self.s2t().contains_key(s@),
            },
    {
        let mut i: usize = 0;
        while i < self.string_to_ty.len()
            invariant
                i <= self.string_to_ty@.len(),
                forall|j: int| 0 <= j < i ==> self.string_to_ty@[j].0@ != s@,
            decreases self.string_to_ty@.len() - i,
        {
            if str_eq(self.string_to_ty[i].0.as_str(), s) {
                return Some(i);
            }
            i = i + 1;
        }
        None
    }

    /// The debug text of `ty`, if it is held.
    pub fn get_t2s(&self, ty: &NamedTy) -> (r: Option<String>)
        requires
            self.wf(),
        ensures
            match r {
                Some(s) => self.t2s().contains_key(ty.id) && self.t2s()[ty.id] == s@,
                None => !self.t2s().contains_key(ty.id),
            },
    {
        match self.t2s_index(ty.id) {
            Some(i) => {
                proof {
                    lemma_t2s_of_at(self.ty_to_string@, i as int);
                }
                Some(self.ty_to_string[i].1.clone())
            },
            None => None,
        }
    }

    /// The type whose debug text is `s`, if it is held.
    pub fn get_s2t(&self, s: &str) -> (r: Option<NamedTy>)
        requires
            self.wf(),
        ensures
            match r {
                Some(t) => self.s2t().contains_key(s@) && self.s2t()[s@] == t,
                None => !self.s2t().contains_key(s@),
            },
    {
        match self.s2t_index(s) {
            Some(i) => {
                proof {
                    lemma_s2t_of_at(self.string_to_ty@, i as int);
                }
                Some(copy_named(&self.string_to_ty[i].1))
            },
            None => None,
        }
    }
}

impl Default for TypeMap {
    fn default() -> (r: Self)
        ensures
            r.wf(),
            r.t2s() == Map::<u64, Seq<char>>::empty(),
            r.s2t() == Map::<Seq<char>, NamedTy>::empty(),
    {
        let r = TypeMap { ty_to_string: Vec::new(), string_to_ty: Vec::new() };
        assert(r.t2s() =~= Map::<u64, Seq<char>>::empty());
        assert(r.s2t() =~= Map::<Seq<char>, NamedTy>::empty());
        r
    }
}

impl TypeMap {
    fn set_t2s(&mut self, id: u64, s: String)
        requires
            old(self).wf(),
        ensures
            final(self).wf(),
            final(self).t2s() == old(self).t2s().insert(id, s@),
            final(self).s2t() == old(self).s2t(),
    {
        match self.t2s_index(id) {
            Some(i) => {
                proof {
                    lemma_t2s_update(self.ty_to_string@, i as int, (id, s));
                }
                self.ty_to_string.set(i, (id, s));
            },
            None => {
                proof {
                    lemma_t2s_push(self.ty_to_string@, (id, s));
                }
                self.ty_to_string.push((id, s));
            },
        }
    }

    fn set_s2t(&mut self, s: String, ty: NamedTy)
        requires
            old(self).wf(),
        ensures
            final(self).wf(),
            final(self).s2t() == old(self).s2t().insert(s@, ty),
            final(self).t2s() == old(self).t2s(),
    {
        match self.s2t_index(s.as_str()) {
            Some(i) => {
                proof {
                    lemma_s2t_update(self.string_to_ty@, i as int, (s, ty));
                }
                self.string_to_ty.set(i, (s, ty));
            },
            None => {
                proof {
                    lemma_s2t_push(self.string_to_ty@, (s, ty));
                }
                self.string_to_ty.push((s, ty));
            },
        }
    }

    fn unset_t2s(&mut self, id: u64)
        requires
            old(self).wf(),
        ensures
            final(self).wf(),
            final(self).t2s() == old(self).t2s().remove(id),
            final(self).s2t() == old(self).s2t(),
    {
        match self.t2s_index(id) {
            Some(i) => {
                proof {
                    lemma_t2s_remove(self.ty_to_string@, i as int);
                }
                self.ty_to_string.remove(i);
            },
            None => {
                assert(self.t2s() =~= self.t2s().remove(id));
            },
        }
    }

    fn unset_s2t(&mut self, s: &str)
        requires
            old(self).wf(),
        ensures
            final(self).wf(),
            final(self).s2t() == old(self).s2t().remove(s@),
            final(self).t2s() == old(self).t2s(),
    {
        match self.s2t_index(s) {
            Some(i) => {
                proof {
                    lemma_s2t_remove(self.string_to_ty@, i as int);
                }
                self.string_to_ty.remove(i);
            },
            None => {
                assert(self.s2t() =~= self.s2t().remove(s@));
            },
        }
    }

    /// Holds `ty` under its debug text, both ways.
    pub fn insert_ty(&mut self, ty: NamedTy)
        requires
            old(self).wf(),
        ensures
            final(self).wf(),
            final(self).t2s() == old(self).t2s().insert(ty.id, ty.debug@),
            final(self).s2t() == old(self).s2t().insert(ty.debug@, ty),
    {
        let s = ty.debug.clone();
        let id = ty.id;
        self.set_s2t(s.clone(), ty);
        self.set_t2s(id, s);
    }

    /// Forgets `ty` and its debug text.
    pub fn remove_ty(&mut self, ty: &NamedTy)
        requires
            old(self).wf(),
        ensures
            final(self).wf(),
            final(self).t2s() == old(self).t2s().remove(ty.id),
            final(self).s2t() == old(self).s2t().remove(ty.debug@),
    {
        self.unset_s2t(ty.debug.as_str());
        self.unset_t2s(ty.id);
    }

    /// Forgets the debug text `s` and the type it is the text of.
    pub fn remove_string(&mut self, s: &str)
        requires
            old(self).wf(),
            old(self).s2t().contains_key(s@),
        ensures
            final(self).wf(),
            final(self).s2t() == old(self).s2t().remove(s@),
            final(self).t2s() == old(self).t2s().remove(old(self).s2t()[s@].id),
    {
        let ty = self.get_s2t(s).unwrap();
        self.unset_s2t(s);
        self.unset_t2s(ty.id);
    }
}

// ---------------------------------------------------------------------------
// Discerning the types of the bodies

/// The two maps of a map of types: from type ids to debug texts, from debug
/// texts to types.
pub type TypeMapView = (Map<u64, Seq<char>>, Map<Seq<char>, NamedTy>);

/// A function body whose locals are types with their debug texts.
pub type NamedBody = FnBody<NamedTy>;

/// What visiting `t` does to the map `m`: an ADT type not held yet is added
/// under its debug text and its type arguments are visited; arrays, slices,
/// pointers and references visit what they hold; tuples visit their
/// elements.
pub open spec fn td_ty(m: TypeMapView, t: NamedTy) -> TypeMapView
    decreases t,
{
    match t.kind {
        NamedKind::Adt(a) => if m.0.contains_key(t.id) {
            m
        } else {
            td_list((m.0.insert(t.id, t.debug@), m.1.insert(t.debug@, t)), *a)
        },
        NamedKind::Array(e) => td_ty(m, *e),
        NamedKind::Slice(e) => td_ty(m, *e),
        NamedKind::RawPtr(e) => td_ty(m, *e),
        NamedKind::Ref(e) => td_ty(m, *e),
        NamedKind::Tuple(l) => td_list(m, *l),
        NamedKind::Other => m,
    }
}

/// Visits the types of `l` in order.
pub open spec fn td_list(m: TypeMapView, l: NamedList) -> TypeMapView
    decreases l,
{
    match l {
        NamedList::Nil => m,
        NamedList::Cons(t, rest) => td_list(td_ty(m, *t), *rest),
    }
}

/// Visits the types `ls` in order.
pub open spec fn td_locals(m: TypeMapView, ls: Seq<NamedTy>) -> TypeMapView
    decreases ls.len(),
{
    if ls.len() == 0 {
        m
    } else {
        td_ty(td_locals(m, ls.drop_last()), ls.last())
    }
}


/// `rank` decreases along every call from a body to a body.
pub open spec fn call_ranked(bodies: Seq<NamedBody>, rank: spec_fn(int) -> nat) -> bool {
    forall|i: int, c: int|
        0 <= i < bodies.len() && 0 <= c < bodies[i].calls@.len() && (#[trigger] bodies[i].calls@[c]) is Some
            && body_dids(bodies).contains(bodies[i].calls@[c].unwrap()) ==> rank(
            body_index(bodies, bodies[i].calls@[c].unwrap()),
        ) < rank(i)
}

/// No body reaches itself through calls.
pub open spec fn calls_acyclic(bodies: Seq<NamedBody>) -> bool {
    exists|rank: spec_fn(int) -> nat| call_ranked(bodies, rank)
}

/// A rank that decreases along calls, when there is one.
pub open spec fn call_rank(bodies: Seq<NamedBody>) -> spec_fn(int) -> nat {
    choose|rank: spec_fn(int) -> nat| call_ranked(bodies, rank)
}


/// What visiting the body at `bi` does to `m`: its locals are visited, then
/// the body of every function it calls that has one, again and again.
pub open spec fn td_body(bodies: Seq<NamedBody>, m: TypeMapView, bi: int) -> TypeMapView
    decreases call_rank(bodies)(bi), 1nat, 0nat,
    when calls_acyclic(bodies) && 0 <= bi < bodies.len()
{
    td_calls(bodies, td_locals(m, bodies[bi].local_decls@), bi, bodies[bi].calls@.len() as int)
}

/// Follows the first `k` calls of the body at `bi`.
pub open spec fn td_calls(bodies: Seq<NamedBody>, m: TypeMapView, bi: int, k: int) -> TypeMapView
    decreases call_rank(bodies)(bi), 0nat, k,
    when calls_acyclic(bodies) && 0 <= bi < bodies.len() && 0 <= k <= bodies[bi].calls@.len()
{
    if k == 0 {
        m
    } else {
        let m1 = td_calls(bodies, m, bi, k - 1);
        match bodies[bi].calls@[k - 1] {
            Some(fd) => if body_dids(bodies).contains(fd) {
                td_body(bodies, m1, body_index(bodies, fd))
            } else {
                m1
            },
            None => m1,
        }
    }
}


/// The state of type discernment: the function bodies it knows, the
/// results read from the LLVM phase, the types met under their debug texts, and
/// the functions visited from the crate's own.
pub struct TypeDiscernment {
    bodies: Vec<NamedBody>,
    llvm_res_set: HashSet<String>,
    type_map: TypeMap,
    func_set: HashSet<u64>,
}

impl TypeDiscernment {
    /// The function bodies.
    pub closed spec fn bodies_view(&self) -> Seq<NamedBody> {
        self.bodies@
    }

    /// The types met, and their debug texts.
    pub closed spec fn map_view(&self) -> TypeMapView {
        (self.type_map.t2s(), self.type_map.s2t())
    }

    /// The functions visited from the crate's own.
    pub closed spec fn func_set_view(&self) -> Set<u64> {
        self.func_set@
    }

    /// The map of types is well formed.
    pub closed spec fn wf(&self) -> bool {
        self.type_map.wf()
    }

    /// A discernment over the bodies `bodies`, with nothing met yet.
    pub fn new(bodies: Vec<NamedBody>) -> (r: Self)
        ensures
            r.wf(),
            r.bodies_view() == bodies@,
            r.map_view() == (Map::<u64, Seq<char>>::empty(), Map::<Seq<char>, NamedTy>::empty()),
            r.func_set_view() == Set::<u64>::empty(),
            r.llvm_res_view() == Set::<String>::empty(),
    {
        TypeDiscernment {
            bodies,
            llvm_res_set: HashSet::new(),
            type_map: TypeMap::default(),
            func_set: HashSet::new(),
        }
    }

    /// The results read from the LLVM phase.
    pub closed spec fn llvm_res_view(&self) -> Set<String> {
        self.llvm_res_set@
    }

    /// The results read from the LLVM phase.
    pub fn llvm_res_set(&self) -> (r: &HashSet<String>)
        ensures
            r@ == self.llvm_res_view(),
    {
        &self.llvm_res_set
    }

    /// The types met, under their debug texts.
    pub fn type_map(&self) -> (r: &TypeMap)
        ensures
            r.wf() == self.wf(),
            (r.t2s(), r.s2t()) == self.map_view(),
    {
        &self.type_map
    }

    /// The functions visited from the crate's own.
    pub fn func_set(&self) -> (r: &HashSet<u64>)
        ensures
            r@ == self.func_set_view(),
    {
        &self.func_set
    }

    /// Visits `t`: an ADT type not met yet is held under its debug text,
    /// then its type arguments are visited.
    pub fn visit_ty(&mut self, t: &NamedTy)
        requires
            old(self).wf(),
        ensures
            final(self).wf(),
            final(self).map_view() == td_ty(old(self).map_view(), *t),
            final(self).bodies_view() == old(self).bodies_view(),
            final(self).func_set_view() == old(self).func_set_view(),
            final(self).llvm_res_view() == old(self).llvm_res_view(),
        decreases t,
    {
        match &t.kind {
            NamedKind::Adt(a) => {
                if self.type_map.get_t2s(t).is_some() {
                    return;
                }
                self.type_map.insert_ty(copy_named(t));
                self.visit_list(a);
            },
            NamedKind::Array(e) => self.visit_ty(e),
            NamedKind::Slice(e) => self.visit_ty(e),
            NamedKind::RawPtr(e) => self.visit_ty(e),
            NamedKind::Ref(e) => self.visit_ty(e),
            NamedKind::Tuple(l) => self.visit_list(l),
            NamedKind::Other => {},
        }
    }

    /// Visits the types of `l` in order.
    pub fn visit_list(&mut self, l: &NamedList)
        requires
            old(self).wf(),
        ensures
            final(self).wf(),
            final(self).map_view() == td_list(old(self).map_view(), *l),
            final(self).bodies_view() == old(self).bodies_view(),
            final(self).func_set_view() == old(self).func_set_view(),
            final(self).llvm_res_view() == old(self).llvm_res_view(),
        decreases l,
    {
        match l {
            NamedList::Nil => {},
            NamedList::Cons(t, rest) => {
                self.visit_ty(t);
                self.visit_list(rest);
            },
        }
    }

    /// Visits the body at `bi`: the types of its locals, then the body of
    /// every function it calls that has one.
    pub fn visit_body(&mut self, bi: usize)
        requires
            old(self).wf(),
            calls_acyclic(old(self).bodies_view()),
            bi < old(self).bodies_view().len(),
            forall|i: int, j: int|
                #![trigger old(self).bodies_view()[i], old(self).bodies_view()[j]]
                0 <= i < old(self).bodies_view().len() && 0 <= j < old(self).bodies_view().len()
                    && old(self).bodies_view()[i].def_id == old(self).bodies_view()[j].def_id ==> i == j,
        ensures
            final(self).wf(),
            final(self).map_view() == td_body(old(self).bodies_view(), old(self).map_view(), bi as int),
            final(self).bodies_view() == old(self).bodies_view(),
            final(self).func_set_view() == old(self).func_set_view(),
            final(self).llvm_res_view() == old(self).llvm_res_view(),
        decreases call_rank(old(self).bodies_view())(bi as int),
    {
        let ghost bodies = self.bodies@;
        let ghost ls = bodies[bi as int].local_decls@;
        let ghost m0 = self.map_view();
        let nl = self.bodies[bi].local_decls.len();
        let mut li: usize = 0;
        while li < nl
            invariant
                li <= nl,
                nl == ls.len(),
                bi < bodies.len(),
                bodies == self.bodies@,
                ls == bodies[bi as int].local_decls@,
                self.wf(),
                self.func_set@ == old(self).func_set@,
                self.llvm_res_set@ == old(self).llvm_res_set@,
                self.map_view() == td_locals(m0, ls.take(li as int)),
            decreases nl - li,
        {
            let t = copy_named(&self.bodies[bi].local_decls[li]);
            assert(ls.take(li + 1).drop_last() =~= ls.take(li as int));
            self.visit_ty(&t);
            li = li + 1;
        }
        assert(ls.take(nl as int) =~= ls);
        let nc = self.bodies[bi].calls.len();
        let mut ci: usize = 0;
        while ci < nc
            invariant
                ci <= nc,
                nc == bodies[bi as int].calls@.len(),
                bi < bodies.len(),
                bodies == self.bodies@,
                bodies == old(self).bodies@,
                self.wf(),
                calls_acyclic(bodies),
                forall|i: int, j: int|
                    #![trigger bodies[i], bodies[j]]
                    0 <= i < bodies.len() && 0 <= j < bodies.len() && bodies[i].def_id == bodies[j].def_id ==> i == j,
                self.func_set@ == old(self).func_set@,
                self.llvm_res_set@ == old(self).llvm_res_set@,
                self.map_view() == td_calls(bodies, td_locals(m0, ls), bi as int, ci as int),
                ls == bodies[bi as int].local_decls@,
            decreases nc - ci,
        {
            match self.bodies[bi].calls[ci] {
                Some(fd) => {
                    match find_body(&self.bodies, fd) {
                        Some(j) => {
                            proof {
                                assert(bodies[bi as int].calls@[ci as int] is Some);
                                assert(body_dids(bodies).contains(fd)) by {
                                    assert(bodies[j as int].def_id == fd);
                                }
                                let r = call_rank(bodies);
                                assert(call_ranked(bodies, r));
                                assert(bodies[bi as int].calls@[ci as int] == Some(fd));
                                assert(r(body_index(bodies, fd)) < r(bi as int));
                            }
                            self.visit_body(j);
                        },
                        None => {},
                    }
                },
                None => {},
            }
            ci = ci + 1;
        }
    }

    /// Visits the body of each function of `mir_keys` not visited yet.
    pub fn visitor(&mut self, mir_keys: &Vec<u64>)
        requires
            old(self).wf(),
            calls_acyclic(old(self).bodies_view()),
            forall|i: int, j: int|
                #![trigger old(self).bodies_view()[i], old(self).bodies_view()[j]]
                0 <= i < old(self).bodies_view().len() && 0 <= j < old(self).bodies_view().len()
                    && old(self).bodies_view()[i].def_id == old(self).bodies_view()[j].def_id ==> i == j,
            forall|i: int| 0 <= i < mir_keys@.len() ==> body_dids(old(self).bodies_view()).contains(#[trigger] mir_keys@[i]),
        ensures
            final(self).wf(),
            (final(self).map_view(), final(self).func_set_view()) == td_keys(
                old(self).bodies_view(),
                (old(self).map_view(), old(self).func_set_view()),
                mir_keys@,
            ),
            final(self).bodies_view() == old(self).bodies_view(),
            final(self).llvm_res_view() == old(self).llvm_res_view(),
    {
        let ghost bodies = self.bodies@;
        let ghost ks = mir_keys@;
        let mut i: usize = 0;
        while i < mir_keys.len()
            invariant
                i <= ks.len(),
                ks == mir_keys@,
                bodies == self.bodies@,
                self.llvm_res_set@ == old(self).llvm_res_set@,
                self.wf(),
                calls_acyclic(bodies),
                forall|a: int, b: int|
                    #![trigger bodies[a], bodies[b]]
                    0 <= a < bodies.len() && 0 <= b < bodies.len() && bodies[a].def_id == bodies[b].def_id ==> a == b,
                forall|j: int| 0 <= j < ks.len() ==> body_dids(bodies).contains(#[trigger] ks[j]),
                (self.map_view(), self.func_set@) == td_keys(
                    bodies,
                    (old(self).map_view(), old(self).func_set@),
                    ks.take(i as int),
                ),
            decreases ks.len() - i,
        {
            let k = mir_keys[i];
            assert(ks.take(i + 1).drop_last() =~= ks.take(i as int));
            assert(body_dids(bodies).contains(ks[i as int]));
            if self.func_set.insert(k) {
                let bi = find_body(&self.bodies, k).unwrap();
                self.visit_body(bi);
            }
            i = i + 1;
        }
        assert(ks.take(ks.len() as int) =~= ks);
    }
}

/// Visits the bodies of the functions `keys` in order, each unless it was
/// visited from the crate's own already.
pub open spec fn td_keys(bodies: Seq<NamedBody>, st: (TypeMapView, Set<u64>), keys: Seq<u64>) -> (TypeMapView, Set<u64>)
    decreases keys.len(),
{
    if keys.len() == 0 {
        st
    } else {
        let (m, f) = td_keys(bodies, st, keys.drop_last());
        let k = keys.last();
        if f.contains(k) {
            (m, f)
        } else {
            (td_body(bodies, m, body_index(bodies, k)), f.insert(k))
        }
    }
}



/// The number of flags of `s` that are set.
pub open spec fn count_set(s: Seq<bool>) -> nat
    decreases s.len(),
{
    if s.len() == 0 {
        0
    } else {
        count_set(s.drop_last()) + if s.last() {
            1nat
        } else {
            0nat
        }
    }
}

proof fn lemma_count_set_bound(s: Seq<bool>)
    ensures
        count_set(s) <= s.len(),
    decreases s.len(),
{
    if s.len() > 0 {
        lemma_count_set_bound(s.drop_last());
    }
}

proof fn lemma_count_set_update(s: Seq<bool>, j: int)
    requires
        0 <= j < s.len(),
        !s[j],
    ensures
        count_set(s.update(j, true)) == count_set(s) + 1,
    decreases s.len(),
{
    if j == s.len() - 1 {
        assert(s.update(j, true).drop_last() =~= s.drop_last());
    } else {
        assert(s.update(j, true).drop_last() =~= s.drop_last().update(j, true));
        lemma_count_set_update(s.drop_last(), j);
    }
}

proof fn lemma_count_set_none(s: Seq<bool>)
    requires
        forall|k: int| 0 <= k < s.len() ==> !s[k],
    ensures
        count_set(s) == 0,
    decreases s.len(),
{
    if s.len() > 0 {
        lemma_count_set_none(s.drop_last());
    }
}

/// Among the indices that `p` holds of, one has the least rank.
proof fn lemma_least_rank(p: spec_fn(int) -> bool, rank: spec_fn(int) -> nat, x: int)
    requires
        p(x),
    ensures
        exists|m: int| #[trigger] p(m) && forall|y: int| #[trigger] p(y) ==> rank(m) <= rank(y),
    decreases rank(x),
{
    if !(forall|y: int| #[trigger] p(y) ==> rank(x) <= rank(y)) {
        let y = choose|y: int| #[trigger] p(y) && rank(y) < rank(x);
        lemma_least_rank(p, rank, y);
    }
}

/// Every call of the body at `i` that goes to a body goes to one that is
/// ranked.
pub open spec fn callees_ranked(bodies: Seq<NamedBody>, ranked: Seq<bool>, i: int) -> bool {
    forall|c: int|
        0 <= c < bodies[i].calls@.len() && (#[trigger] bodies[i].calls@[c]) is Some && body_dids(bodies).contains(
            bodies[i].calls@[c].unwrap(),
        ) ==> ranked[body_index(bodies, bodies[i].calls@[c].unwrap())]
}

/// Whether every call of the body at `i` that goes to a body goes to one
/// that is ranked.
fn all_callees_ranked(bodies: &Vec<NamedBody>, ranked: &Vec<bool>, i: usize) -> (r: bool)
    requires
        i < bodies@.len(),
        ranked@.len() == bodies@.len(),
        forall|a: int, b: int|
            #![trigger bodies@[a], bodies@[b]]
            0 <= a < bodies@.len() && 0 <= b < bodies@.len() && bodies@[a].def_id == bodies@[b].def_id ==> a == b,
    ensures
        r == callees_ranked(bodies@, ranked@, i as int),
{
    let mut c: usize = 0;
    while c < bodies[i].calls.len()
        invariant
            i < bodies@.len(),
            ranked@.len() == bodies@.len(),
            c <= bodies@[i as int].calls@.len(),
            forall|a: int, b: int|
                #![trigger bodies@[a], bodies@[b]]
                0 <= a < bodies@.len() && 0 <= b < bodies@.len() && bodies@[a].def_id == bodies@[b].def_id ==> a == b,
            forall|e: int|
                0 <= e < c && (#[trigger] bodies@[i as int].calls@[e]) is Some && body_dids(bodies@).contains(
                    bodies@[i as int].calls@[e].unwrap(),
                ) ==> ranked@[body_index(bodies@, bodies@[i as int].calls@[e].unwrap())],
        decreases bodies@[i as int].calls@.len() - c,
    {
        match bodies[i].calls[c] {
            Some(fd) => match find_body(bodies, fd) {
                Some(j) => {
                    if !ranked[j] {
                        assert(bodies@[i as int].calls@[c as int] is Some);
                        return false;
                    }
                },
                None => {},
            },
            None => {},
        }
        c = c + 1;
    }
    true
}

/// Checks that the calls among `bodies` can be ranked so that every call
/// goes to a body of lower rank: bodies are ranked one at a time, each once
/// all the bodies it calls are, until all are or none can be.
#[verifier::spinoff_prover]
pub fn calls_acyclic_check(bodies: &Vec<NamedBody>) -> (r: bool)
    requires
        forall|i: int, j: int|
            #![trigger bodies@[i], bodies@[j]]
            0 <= i < bodies@.len() && 0 <= j < bodies@.len() && bodies@[i].def_id == bodies@[j].def_id ==> i == j,
    ensures
        r == calls_acyclic(bodies@),
{
    let n = bodies.len();
    let mut ranked: Vec<bool> = Vec::new();
    let mut rank: Vec<usize> = Vec::new();
    let mut i: usize = 0;
    while i < n
        invariant
            i <= n,
            n == bodies@.len(),
            ranked@.len() == i,
            rank@.len() == i,
            forall|k: int| 0 <= k < i ==> !ranked@[k],
        decreases n - i,
    {
        ranked.push(false);
        rank.push(0);
        i = i + 1;
    }
    proof {
        lemma_count_set_none(ranked@);
    }
    let mut count: usize = 0;
    loop
        invariant
            n == bodies@.len(),
            ranked@.len() == n,
            rank@.len() == n,
            count == count_set(ranked@),
            forall|a: int, b: int|
                #![trigger bodies@[a], bodies@[b]]
                0 <= a < bodies@.len() && 0 <= b < bodies@.len() && bodies@[a].def_id == bodies@[b].def_id ==> a == b,
            forall|k: int| 0 <= k < n && ranked@[k] ==> rank@[k] < count,
            forall|k: int| 0 <= k < n && #[trigger] ranked@[k] ==> callees_ranked(bodies@, ranked@, k),
            forall|k: int, c: int|
                0 <= k < n && ranked@[k] && 0 <= c < bodies@[k].calls@.len() && (#[trigger] bodies@[k].calls@[c]) is Some
                    && body_dids(bodies@).contains(bodies@[k].calls@[c].unwrap()) ==> rank@[body_index(
                    bodies@,
                    bodies@[k].calls@[c].unwrap(),
                )] < rank@[k],
        decreases n - count,
    {
        proof {
            lemma_count_set_bound(ranked@);
        }
        let mut j: usize = 0;
        let mut found: bool = false;
        while j < n && !found
            invariant
                n == bodies@.len(),
                ranked@.len() == n,
                j <= n,
                forall|a: int, b: int|
                    #![trigger bodies@[a], bodies@[b]]
                    0 <= a < bodies@.len() && 0 <= b < bodies@.len() && bodies@[a].def_id == bodies@[b].def_id
                        ==> a == b,
                found ==> j < n && !ranked@[j as int] && callees_ranked(bodies@, ranked@, j as int),
                !found ==> forall|k: int| 0 <= k < j && !ranked@[k] ==> !callees_ranked(bodies@, ranked@, k),
            decreases n - j + if found { 0int } else { 1int },
        {
            if !ranked[j] && all_callees_ranked(bodies, &ranked, j) {
                found = true;
            } else {
                j = j + 1;
            }
        }
        if !found {
            let mut all: bool = true;
            let mut k: usize = 0;
            while k < n
                invariant
                    n == bodies@.len(),
                    ranked@.len() == n,
                    k <= n,
                    all == forall|e: int| 0 <= e < k ==> ranked@[e],
                decreases n - k,
            {
                if !ranked[k] {
                    all = false;
                }
                k = k + 1;
            }
            if all {
                let ghost r = |x: int|
                    if 0 <= x < n {
                        rank@[x] as nat
                    } else {
                        0nat
                    };
                assert(call_ranked(bodies@, r)) by {
                    assert forall|a: int, c: int|
                        0 <= a < bodies@.len() && 0 <= c < bodies@[a].calls@.len() && (#[trigger] bodies@[a].calls@[c]) is Some
                            && body_dids(bodies@).contains(bodies@[a].calls@[c].unwrap()) implies r(
                        body_index(bodies@, bodies@[a].calls@[c].unwrap()),
                    ) < r(a) by {
                        assert(ranked@[a]);
                    }
                }
                return true;
            }
            proof {
                if calls_acyclic(bodies@) {
                    let rk = call_rank(bodies@);
                    assert(call_ranked(bodies@, rk));
                    let u = choose|e: int| 0 <= e < n && !ranked@[e];
                    let p = |x: int| 0 <= x < n && !ranked@[x];
                    lemma_least_rank(p, rk, u);
                    let m = choose|m: int| #[trigger] p(m) && forall|y: int| #[trigger] p(y) ==> rk(m) <= rk(y);
                    assert(!callees_ranked(bodies@, ranked@, m));
                    let c = choose|c: int|
                        0 <= c < bodies@[m].calls@.len() && (#[trigger] bodies@[m].calls@[c]) is Some
                            && body_dids(bodies@).contains(bodies@[m].calls@[c].unwrap()) && !ranked@[body_index(
                            bodies@,
                            bodies@[m].calls@[c].unwrap(),
                        )];
                    let callee = body_index(bodies@, bodies@[m].calls@[c].unwrap());
                    assert(rk(callee) < rk(m));
                    assert(p(callee));
                    assert(false);
                }
            }
            return false;
        }
        proof {
            lemma_count_set_update(ranked@, j as int);
            lemma_count_set_bound(ranked@.update(j as int, true));
        }
        let ghost old_ranked = ranked@;
        let ghost old_rank = rank@;
        ranked.set(j, true);
        rank.set(j, count);
        proof {
            assert forall|k: int| 0 <= k < n && #[trigger] ranked@[k] implies callees_ranked(bodies@, ranked@, k) by {
                assert(callees_ranked(bodies@, old_ranked, k));
                assert forall|c: int|
                    0 <= c < bodies@[k].calls@.len() && (#[trigger] bodies@[k].calls@[c]) is Some && body_dids(
                        bodies@,
                    ).contains(bodies@[k].calls@[c].unwrap()) implies ranked@[body_index(
                    bodies@,
                    bodies@[k].calls@[c].unwrap(),
                )] by {
                    let x = body_index(bodies@, bodies@[k].calls@[c].unwrap());
                    assert(old_ranked[x]);
                }
            }
            assert forall|k: int, c: int|
                0 <= k < n && ranked@[k] && 0 <= c < bodies@[k].calls@.len() && (#[trigger] bodies@[k].calls@[c]) is Some
                    && body_dids(bodies@).contains(bodies@[k].calls@[c].unwrap()) implies rank@[body_index(
                bodies@,
                bodies@[k].calls@[c].unwrap(),
            )] < rank@[k] by {
                let x = body_index(bodies@, bodies@[k].calls@[c].unwrap());
                if k == j {
                    assert(callees_ranked(bodies@, old_ranked, k));
                    assert(old_ranked[x]);
                    assert(x != j);
                } else {
                    assert(old_ranked[k]);
                    assert(callees_ranked(bodies@, old_ranked, k));
                    assert(old_ranked[x]);
                    if x == j {
                        assert(!old_ranked[j as int]);
                    }
                }
            }
        }
        count = count + 1;
    }
}


// ---------------------------------------------------------------------------
// Laws

/// Removing a type undoes inserting it when neither the type nor its debug
/// text was held before.
pub proof fn lemma_remove_undoes_insert(m: TypeMapView, t: NamedTy)
    requires
        !m.0.contains_key(t.id),
        !m.1.contains_key(t.debug@),
    ensures
        m.0.insert(t.id, t.debug@).remove(t.id) == m.0,
        m.1.insert(t.debug@, t).remove(t.debug@) == m.1,
{
    assert(m.0.insert(t.id, t.debug@).remove(t.id) =~= m.0);
    assert(m.1.insert(t.debug@, t).remove(t.debug@) =~= m.1);
}

/// After inserting a type, it is held under its debug text and the text
/// gives it back.
pub proof fn lemma_insert_then_lookup(m: TypeMapView, t: NamedTy)
    ensures
        m.0.insert(t.id, t.debug@)[t.id] == t.debug@,
        m.1.insert(t.debug@, t)[t.debug@] == t,
{
}

/// Visiting a type keeps every type held, with its debug text.
pub proof fn lemma_td_ty_keeps(m: TypeMapView, t: NamedTy)
    ensures
        forall|u: u64| #[trigger] m.0.contains_key(u) ==> td_ty(m, t).0.contains_key(u) && td_ty(m, t).0[u] == m.0[u],
    decreases t,
{
    match t.kind {
        NamedKind::Adt(a) => if !m.0.contains_key(t.id) {
            let m1 = (m.0.insert(t.id, t.debug@), m.1.insert(t.debug@, t));
            lemma_td_list_keeps(m1, *a);
            assert forall|u: u64| #[trigger] m.0.contains_key(u) implies td_ty(m, t).0.contains_key(u) && td_ty(
                m,
                t,
            ).0[u] == m.0[u] by {
                assert(u != t.id);
                assert(m1.0.contains_key(u) && m1.0[u] == m.0[u]);
            }
        },
        NamedKind::Array(e) => lemma_td_ty_keeps(m, *e),
        NamedKind::Slice(e) => lemma_td_ty_keeps(m, *e),
        NamedKind::RawPtr(e) => lemma_td_ty_keeps(m, *e),
        NamedKind::Ref(e) => lemma_td_ty_keeps(m, *e),
        NamedKind::Tuple(l) => lemma_td_list_keeps(m, *l),
        NamedKind::Other => {},
    }
}

pub proof fn lemma_td_list_keeps(m: TypeMapView, l: NamedList)
    ensures
        forall|u: u64| #[trigger] m.0.contains_key(u) ==> td_list(m, l).0.contains_key(u) && td_list(m, l).0[u] == m.0[u],
    decreases l,
{
    match l {
        NamedList::Nil => {},
        NamedList::Cons(t, rest) => {
            lemma_td_ty_keeps(m, *t);
            lemma_td_list_keeps(td_ty(m, *t), *rest);
        },
    }
}

/// After visiting an ADT type, the type is held: under its debug text when
/// it was not held before.
pub proof fn lemma_td_ty_holds(m: TypeMapView, t: NamedTy)
    requires
        t.kind is Adt,
    ensures
        td_ty(m, t).0.contains_key(t.id),
        !m.0.contains_key(t.id) ==> td_ty(m, t).0[t.id] == t.debug@,
{
    match t.kind {
        NamedKind::Adt(a) => if !m.0.contains_key(t.id) {
            let m1 = (m.0.insert(t.id, t.debug@), m.1.insert(t.debug@, t));
            lemma_td_list_keeps(m1, *a);
            assert(m1.0.contains_key(t.id));
        },
        _ => {},
    }
}

/// The ADT types that visiting `t` meets first: `t` itself when it is an
/// ADT, else those that what it holds meets first, through arrays, slices,
/// raw pointers, references and tuples.
pub open spec fn first_adts(t: NamedTy) -> Set<NamedTy>
    decreases t,
{
    match t.kind {
        NamedKind::Adt(_) => set![t],
        NamedKind::Array(e) => first_adts(*e),
        NamedKind::Slice(e) => first_adts(*e),
        NamedKind::RawPtr(e) => first_adts(*e),
        NamedKind::Ref(e) => first_adts(*e),
        NamedKind::Tuple(l) => first_adts_list(*l),
        NamedKind::Other => Set::empty(),
    }
}

pub open spec fn first_adts_list(l: NamedList) -> Set<NamedTy>
    decreases l,
{
    match l {
        NamedList::Nil => Set::empty(),
        NamedList::Cons(t, rest) => first_adts(*t).union(first_adts_list(*rest)),
    }
}

/// After visiting `t`, every ADT type that `t` meets first is held, and
/// when `t` is an ADT type not held before, it is held under its own debug
/// text and every ADT type that its type arguments meet first is held too.
pub proof fn lemma_td_ty_reaches(m: TypeMapView, t: NamedTy)
    ensures
        forall|u: NamedTy| #[trigger] first_adts(t).contains(u) ==> td_ty(m, t).0.contains_key(u.id),
        t.kind matches NamedKind::Adt(a) ==> (!m.0.contains_key(t.id) ==> {
            &&& td_ty(m, t).0[t.id] == t.debug@
            &&& forall|u: NamedTy| #[trigger] first_adts_list(*a).contains(u) ==> td_ty(m, t).0.contains_key(u.id)
        }),
    decreases t,
{
    match t.kind {
        NamedKind::Adt(a) => {
            if !m.0.contains_key(t.id) {
                let m1 = (m.0.insert(t.id, t.debug@), m.1.insert(t.debug@, t));
                lemma_td_list_keeps(m1, *a);
                lemma_td_list_reaches(m1, *a);
                assert(m1.0.contains_key(t.id));
            }
            assert forall|u: NamedTy| #[trigger] first_adts(t).contains(u) implies td_ty(m, t).0.contains_key(u.id) by {
                assert(u == t);
            }
        },
        NamedKind::Array(e) => {
            lemma_td_ty_reaches(m, *e);
            assert(td_ty(m, t) == td_ty(m, *e) && first_adts(t) == first_adts(*e));
        },
        NamedKind::Slice(e) => {
            lemma_td_ty_reaches(m, *e);
            assert(td_ty(m, t) == td_ty(m, *e) && first_adts(t) == first_adts(*e));
        },
        NamedKind::RawPtr(e) => {
            lemma_td_ty_reaches(m, *e);
            assert(td_ty(m, t) == td_ty(m, *e) && first_adts(t) == first_adts(*e));
        },
        NamedKind::Ref(e) => {
            lemma_td_ty_reaches(m, *e);
            assert(td_ty(m, t) == td_ty(m, *e) && first_adts(t) == first_adts(*e));
        },
        NamedKind::Tuple(l) => {
            lemma_td_list_reaches(m, *l);
            assert(td_ty(m, t) == td_list(m, *l) && first_adts(t) == first_adts_list(*l));
        },
        NamedKind::Other => {},
    }
}

/// After visiting the types of `l`, every ADT type that one of them meets
/// first is held.
pub proof fn lemma_td_list_reaches(m: TypeMapView, l: NamedList)
    ensures
        forall|u: NamedTy| #[trigger] first_adts_list(l).contains(u) ==> td_list(m, l).0.contains_key(u.id),
    decreases l,
{
    match l {
        NamedList::Nil => {},
        NamedList::Cons(t, rest) => {
            let m1 = td_ty(m, *t);
            lemma_td_ty_reaches(m, *t);
            lemma_td_list_keeps(m1, *rest);
            lemma_td_list_reaches(m1, *rest);
            assert forall|u: NamedTy| #[trigger] first_adts_list(l).contains(u) implies td_list(m, l).0.contains_key(
                u.id,
            ) by {
                if first_adts(*t).contains(u) {
                    assert(m1.0.contains_key(u.id));
                } else {
                    assert(first_adts_list(*rest).contains(u));
                }
            }
        },
    }
}

} // verus!
