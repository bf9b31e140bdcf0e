//! The decisions of the `cargo-rlc` driver: what it reads from its command
//! line, which cargo and rustc commands it runs for which targets, and the
//! environment it hands them.
use vstd::prelude::*;
use vstd::string::StringExecFns;

use crate::text::{chars_of, drop_chars, ends_with, is_prefix, is_suffix, starts_with, str_eq};

verus! {

// ---------------------------------------------------------------------------
// Reading the command line

/// The arguments before the first `--`.
pub open spec fn before_sep(args: Seq<Seq<char>>) -> Seq<Seq<char>>
    decreases args.len(),
{
    if args.len() == 0 || args[0] == "--"@ {
        Seq::empty()
    } else {
        seq![args[0]] + before_sep(args.drop_first())
    }
}

/// The value of the flag `name` among `xs`: the argument after the first
/// one equal to `name`, or what follows `name=` in the first argument that
/// begins that way; arguments that begin with `name` otherwise are passed
/// over.
pub open spec fn flag_value(xs: Seq<Seq<char>>, name: Seq<char>) -> Option<Seq<char>>
    decreases xs.len(),
{
    if xs.len() == 0 {
        None
    } else if !is_prefix(name, xs[0]) {
        flag_value(xs.drop_first(), name)
    } else if xs[0].len() == name.len() {
        if xs.len() > 1 {
            Some(xs[1])
        } else {
            None
        }
    } else if xs[0][name.len() as int] == '=' {
        Some(xs[0].skip(name.len() as int + 1))
    } else {
        flag_value(xs.drop_first(), name)
    }
}

/// Whether one of the values of the flag `name` among `xs` names a library
/// crate type. The search gives up at the first argument that begins with
/// `name` but neither is `name` nor continues with `=`, and at a `name` with
/// no argument after it.
pub open spec fn flag_names_lib(xs: Seq<Seq<char>>, name: Seq<char>) -> bool
    decreases xs.len(),
{
    if xs.len() == 0 {
        false
    } else if !is_prefix(name, xs[0]) {
        flag_names_lib(xs.drop_first(), name)
    } else if xs[0].len() == name.len() {
        if xs.len() > 1 {
            is_lib_kind(xs[1]) || flag_names_lib(xs.skip(2), name)
        } else {
            false
        }
    } else if xs[0][name.len() as int] == '=' {
        is_lib_kind(xs[0].skip(name.len() as int + 1)) || flag_names_lib(xs.drop_first(), name)
    } else {
        false
    }
}

/// A crate kind that builds a library.
pub open spec fn is_lib_kind(s: Seq<char>) -> bool {
    s == "lib"@ || s == "rlib"@ || s == "staticlib"@
}

/// The position of the first `--` in `args`, or its length when there is
/// none.
fn sep_index(args: &Vec<String>) -> (r: usize)
    ensures
        r <= args@.len(),
        before_sep(args.deep_view()) == args.deep_view().take(r as int),
{
    let ghost a = args.deep_view();
    let mut i: usize = 0;
    while i < args.len()
        invariant
            i <= args@.len(),
            a == args.deep_view(),
            forall|j: int| 0 <= j < i ==> a[j] != "--"@,
        decreases args@.len() - i,
    {
        if str_eq(args[i].as_str(), "--") {
            proof {
                lemma_before_sep_at(a, i as int);
            }
            return i;
        }
        i = i + 1;
    }
    proof {
        lemma_before_sep_at(a, i as int);
    }
    i
}

/// `before_sep` stops at the first `--`.
pub proof fn lemma_before_sep_at(a: Seq<Seq<char>>, i: int)
    requires
        0 <= i <= a.len(),
        forall|j: int| 0 <= j < i ==> a[j] != "--"@,
        i == a.len() || a[i] == "--"@,
    ensures
        before_sep(a) == a.take(i),
    decreases i,
{
    if i == 0 {
        assert(a.take(0) =~= Seq::<Seq<char>>::empty());
    } else {
        lemma_before_sep_at(a.drop_first(), i - 1);
        assert(a.take(i) =~= seq![a[0]] + a.drop_first().take(i - 1));
    }
}

/// The arguments before the first `--`.
pub fn args_before_sep(args: &Vec<String>) -> (r: Vec<String>)
    ensures
        r.deep_view() == before_sep(args.deep_view()),
{
    let n = sep_index(args);
    let mut r: Vec<String> = Vec::new();
    let mut i: usize = 0;
    while i < n
        invariant
            i <= n <= args@.len(),
            r.deep_view() == args.deep_view().take(i as int),
        decreases n - i,
    {
        let ghost prev = r.deep_view();
        r.push(args[i].clone());
        assert(r.deep_view() =~= prev.push(args.deep_view()[i as int]));
        assert(args.deep_view().take(i + 1) =~= args.deep_view().take(i as int).push(args.deep_view()[i as int]));
        i = i + 1;
    }
    r
}

/// Whether `name` is among `xs`.
pub fn contains_arg(xs: &Vec<String>, name: &str) -> (r: bool)
    ensures
        r == xs.deep_view().contains(name@),
{
    let mut i: usize = 0;
    while i < xs.len()
        invariant
            i <= xs@.len(),
            forall|j: int| 0 <= j < i ==> xs.deep_view()[j] != name@,
        decreases xs@.len() - i,
    {
        if str_eq(xs[i].as_str(), name) {
            assert(xs.deep_view()[i as int] == name@);
            return true;
        }
        i = i + 1;
    }
    false
}

/// Whether the flag `name` is given before the first `--`.
pub fn has_arg_flag(args: &Vec<String>, name: &str) -> (r: bool)
    ensures
        r == before_sep(args.deep_view()).contains(name@),
{
    let xs = args_before_sep(args);
    contains_arg(&xs, name)
}

/// Whether `name` is given after the first `--`.
pub fn has_rlc_arg_flag(args: &Vec<String>, name: &str) -> (r: bool)
    ensures
        r == after_sep(args.deep_view()).contains(name@),
{
    let ghost a = args.deep_view();
    let k = sep_index(args);
    assert(before_sep(a).len() == k);
    if k >= args.len() {
        assert(after_sep(a) =~= Seq::<Seq<char>>::empty());
        return false;
    }
    let ghost rest = a.skip(k + 1);
    assert(after_sep(a) == rest);
    let mut i: usize = k + 1;
    while i < args.len()
        invariant
            k < i <= args@.len(),
            a == args.deep_view(),
            rest == a.skip(k + 1),
            after_sep(a) == rest,
            forall|j: int| k < j < i ==> a[j] != name@,
        decreases args@.len() - i,
    {
        if str_eq(args[i].as_str(), name) {
            assert(rest[i - k - 1] == name@);
            return true;
        }
        i = i + 1;
    }
    assert forall|j: int| 0 <= j < rest.len() implies rest[j] != name@ by {
        assert(rest[j] == a[j + k + 1]);
    }
    false
}

/// Whether the character at position `k` of `s` is `=`.
fn char_is_eq(s: &str, k: usize) -> (r: bool)
    requires
        k < s@.len(),
    ensures
        r == (s@[k as int] == '='),
{
    s.get_char(k) == '='
}

/// The value of the flag `name` before the first `--`, as the driver reads
/// it.
pub fn get_arg_flag_value(args: &Vec<String>, name: &str) -> (r: Option<String>)
    ensures
        match r {
            Some(v) => flag_value(before_sep(args.deep_view()), name@) == Some(v@),
            None => flag_value(before_sep(args.deep_view()), name@) is None,
        },
{
    let xs = args_before_sep(args);
    let ghost x = xs.deep_view();
    let nl = name.unicode_len();
    let mut i: usize = 0;
    assert(x.skip(0) =~= x);
    while i < xs.len()
        invariant
            i <= xs@.len(),
            x == xs.deep_view(),
            x == before_sep(args.deep_view()),
            nl == name@.len(),
            flag_value(x, name@) == flag_value(x.skip(i as int), name@),
        decreases xs@.len() - i,
    {
        let a = xs[i].as_str();
        let ghost rest = x.skip(i as int);
        assert(rest[0] == a@);
        assert(rest.drop_first() =~= x.skip(i + 1));
        if starts_with(a, name) {
            let al = a.unicode_len();
            if al == nl {
                if i + 1 < xs.len() {
                    assert(rest[1] == x[i + 1]);
                    return Some(xs[i + 1].clone());
                }
                return None;
            } else if char_is_eq(a, nl) {
                let v = drop_chars(a, nl + 1);
                assert(v@ =~= a@.skip(nl + 1));
                return Some(v);
            }
        }
        i = i + 1;
    }
    None
}

/// Whether a value of `--crate--type` before the first `--` names a library.
pub fn is_crate_type_lib(args: &Vec<String>) -> (r: bool)
    ensures
        r == flag_names_lib(before_sep(args.deep_view()), "--crate--type"@),
{
    let xs = args_before_sep(args);
    let name = "--crate--type";
    let ghost x = xs.deep_view();
    let nl = name.unicode_len();
    let mut i: usize = 0;
    assert(x.skip(0) =~= x);
    while i < xs.len()
        invariant
            i <= xs@.len(),
            x == xs.deep_view(),
            x == before_sep(args.deep_view()),
            name@ == "--crate--type"@,
            nl == name@.len(),
            flag_names_lib(x, name@) == flag_names_lib(x.skip(i as int), name@),
        decreases xs@.len() - i,
    {
        let a = xs[i].as_str();
        let ghost rest = x.skip(i as int);
        assert(rest[0] == a@);
        assert(rest.drop_first() =~= x.skip(i + 1));
        if starts_with(a, name) {
            let al = a.unicode_len();
            if al == nl {
                if i + 1 < xs.len() {
                    assert(rest[1] == x[i + 1]);
                    assert(rest.skip(2) =~= x.skip(i + 2));
                    if TargetKind::is_lib_str(xs[i + 1].as_str()) {
                        return true;
                    }
                    i = i + 2;
                    continue;
                }
                return false;
            } else if char_is_eq(a, nl) {
                let v = drop_chars(a, nl + 1);
                assert(v@ =~= a@.skip(nl + 1));
                if TargetKind::is_lib_str(v.as_str()) {
                    return true;
                }
            } else {
                return false;
            }
        }
        i = i + 1;
    }
    false
}


// ---------------------------------------------------------------------------
// Targets

/// The kind of a cargo target, in the order the targets are handled:
/// libraries before binaries.
#[derive(Debug, Copy, Clone, PartialEq, Eq, Structural)]
pub enum TargetKind {
    Library,
    Bin,
    Unspecified,
}

/// A cargo target, as far as the driver reads it: its name and its kinds.
pub struct TargetInfo {
    pub name: String,
    pub kind: Vec<String>,
}

/// The name and the kinds of a target.
pub open spec fn target_view(t: TargetInfo) -> (Seq<char>, Seq<Seq<char>>) {
    (t.name@, t.kind.deep_view())
}

/// The kind of a target with the kinds `kinds`.
pub open spec fn kind_of(kinds: Seq<Seq<char>>) -> TargetKind {
    if exists|i: int| 0 <= i < kinds.len() && is_lib_kind(#[trigger] kinds[i]) {
        TargetKind::Library
    } else if kinds.contains("bin"@) {
        TargetKind::Bin
    } else {
        TargetKind::Unspecified
    }
}

/// The position of a kind in the order targets are handled.
pub open spec fn kind_rank(k: TargetKind) -> nat {
    match k {
        TargetKind::Library => 0,
        TargetKind::Bin => 1,
        TargetKind::Unspecified => 2,
    }
}

/// The text a kind is shown as.
pub open spec fn kind_text(k: TargetKind) -> Seq<char> {
    match k {
        TargetKind::Library => "lib"@,
        TargetKind::Bin => "bin"@,
        TargetKind::Unspecified => "unspecified"@,
    }
}

impl TargetKind {
    /// The kind of a target with the kinds `kinds`: a library if one of them
    /// names a library, else a binary if one is `bin`.
    pub fn from_kinds(kinds: &Vec<String>) -> (r: TargetKind)
        ensures
            r == kind_of(kinds.deep_view()),
    {
        let ghost ks = kinds.deep_view();
        let mut i: usize = 0;
        while i < kinds.len()
            invariant
                i <= kinds@.len(),
                ks == kinds.deep_view(),
                forall|j: int| 0 <= j < i ==> !is_lib_kind(#[trigger] ks[j]),
            decreases kinds@.len() - i,
        {
            if TargetKind::is_lib_str(kinds[i].as_str()) {
                assert(is_lib_kind(ks[i as int]));
                return TargetKind::Library;
            }
            i = i + 1;
        }
        if contains_arg(kinds, "bin") {
            TargetKind::Bin
        } else {
            TargetKind::Unspecified
        }
    }

    /// Whether `s` names a library crate type.
    pub fn is_lib_str(s: &str) -> (r: bool)
        ensures
            r == is_lib_kind(s@),
    {
        str_eq(s, "lib") || str_eq(s, "rlib") || str_eq(s, "staticlib")
    }

    /// The position of the kind in the order targets are handled.
    pub fn rank(&self) -> (r: u8)
        ensures
            r as nat == kind_rank(*self),
    {
        match self {
            TargetKind::Library => 0,
            TargetKind::Bin => 1,
            TargetKind::Unspecified => 2,
        }
    }

    /// The text the kind is shown as.
    pub fn to_display_string(&self) -> (r: String)
        ensures
            r@ == kind_text(*self),
    {
        match self {
            TargetKind::Library => String::from_str("lib"),
            TargetKind::Bin => String::from_str("bin"),
            TargetKind::Unspecified => String::from_str("unspecified"),
        }
    }
}

/// The targets of `ts` of kind rank `k`, in order.
pub open spec fn of_rank(ts: Seq<(Seq<char>, Seq<Seq<char>>)>, k: nat) -> Seq<(Seq<char>, Seq<Seq<char>>)> {
    ts.filter(|t: (Seq<char>, Seq<Seq<char>>)| kind_rank(kind_of(t.1)) == k)
}

/// The targets in the order they are handled: libraries, then binaries,
/// then the rest, each group in the order given.
pub open spec fn sorted_by_kind(ts: Seq<(Seq<char>, Seq<Seq<char>>)>) -> Seq<(Seq<char>, Seq<Seq<char>>)> {
    of_rank(ts, 0) + of_rank(ts, 1) + of_rank(ts, 2)
}

/// The views of the targets `ts`.
pub open spec fn targets_view(ts: Seq<TargetInfo>) -> Seq<(Seq<char>, Seq<Seq<char>>)> {
    ts.map_values(|t: TargetInfo| target_view(t))
}

/// A copy of the strings `v`.
pub fn copy_strings(v: &Vec<String>) -> (r: Vec<String>)
    ensures
        r.deep_view() == v.deep_view(),
{
    let mut r: Vec<String> = Vec::new();
    let mut i: usize = 0;
    while i < v.len()
        invariant
            i <= v@.len(),
            r.deep_view() == v.deep_view().take(i as int),
        decreases v@.len() - i,
    {
        let ghost prev = r.deep_view();
        r.push(v[i].clone());
        assert(r.deep_view() =~= prev.push(v.deep_view()[i as int]));
        assert(v.deep_view().take(i + 1) =~= v.deep_view().take(i as int).push(v.deep_view()[i as int]));
        i = i + 1;
    }
    assert(v.deep_view().take(v@.len() as int) =~= v.deep_view());
    r
}

impl TargetInfo {
    /// A copy of the target.
    pub fn copy(&self) -> (r: TargetInfo)
        ensures
            target_view(r) == target_view(*self),
    {
        TargetInfo { name: self.name.clone(), kind: copy_strings(&self.kind) }
    }

    /// The kind of the target.
    pub fn target_kind(&self) -> (r: TargetKind)
        ensures
            r == kind_of(self.kind.deep_view()),
    {
        TargetKind::from_kinds(&self.kind)
    }
}

/// The targets in the order the driver handles them: libraries first, then
/// binaries, then the rest, keeping the order within each kind.
pub fn sort_targets(targets: &Vec<TargetInfo>) -> (r: Vec<TargetInfo>)
    ensures
        targets_view(r@) == sorted_by_kind(targets_view(targets@)),
{
    let ghost tv = targets_view(targets@);
    let mut out: Vec<TargetInfo> = Vec::new();
    let mut k: u8 = 0;
    while k < 3
        invariant
            k <= 3,
            tv == targets_view(targets@),
            targets_view(out@) == if k == 0 {
                Seq::empty()
            } else if k == 1 {
                of_rank(tv, 0)
            } else if k == 2 {
                of_rank(tv, 0) + of_rank(tv, 1)
            } else {
                sorted_by_kind(tv)
            },
        decreases 3 - k,
    {
        let ghost base = targets_view(out@);
        let mut i: usize = 0;
        while i < targets.len()
            invariant
                k < 3,
                i <= targets@.len(),
                tv == targets_view(targets@),
                targets_view(out@) == base + of_rank(tv.take(i as int), k as nat),
            decreases targets@.len() - i,
        {
            let ghost prev = targets_view(out@);
            proof {
                tv.take(i as int).lemma_filter_push(
                    tv[i as int],
                    |t: (Seq<char>, Seq<Seq<char>>)| kind_rank(kind_of(t.1)) == k as nat,
                );
                assert(tv.take(i + 1) =~= tv.take(i as int).push(tv[i as int]));
            }
            if targets[i].target_kind().rank() == k {
                out.push(targets[i].copy());
                assert(targets_view(out@) =~= prev.push(tv[i as int]));
            }
            i = i + 1;
        }
        assert(tv.take(targets@.len() as int) =~= tv);
        k = k + 1;
    }
    out
}

/// Every target of the sorted list has a kind rank no greater than the
/// targets after it.
pub proof fn lemma_sorted_by_kind_ordered(ts: Seq<(Seq<char>, Seq<Seq<char>>)>, i: int, j: int)
    requires
        0 <= i < j < sorted_by_kind(ts).len(),
    ensures
        kind_rank(kind_of(sorted_by_kind(ts)[i].1)) <= kind_rank(kind_of(sorted_by_kind(ts)[j].1)),
{
    broadcast use vstd::seq_lib::group_filter_ensures;

    let a = of_rank(ts, 0);
    let b = of_rank(ts, 1);
    let c = of_rank(ts, 2);
    let s = sorted_by_kind(ts);
    assert forall|k: int| 0 <= k < s.len() implies kind_rank(kind_of((#[trigger] s[k]).1)) == if k < a.len() {
        0nat
    } else if k < a.len() + b.len() {
        1nat
    } else {
        2nat
    } by {
        if k < a.len() {
            assert(s[k] == a[k]);
        } else if k < a.len() + b.len() {
            assert(s[k] == b[k - a.len()]);
        } else {
            assert(s[k] == c[k - a.len() - b.len()]);
        }
    }
    let (x, y) = (s[i], s[j]);
}

/// Sorting the targets keeps each of them, as often as it occurs.
pub proof fn lemma_sorted_by_kind_permutes(ts: Seq<(Seq<char>, Seq<Seq<char>>)>)
    ensures
        sorted_by_kind(ts).to_multiset() == ts.to_multiset(),
    decreases ts.len(),
{
    broadcast use vstd::seq_lib::group_to_multiset_ensures;
    if ts.len() == 0 {
        assert(sorted_by_kind(ts) =~= Seq::<(Seq<char>, Seq<Seq<char>>)>::empty());
    } else {
        let init = ts.drop_last();
        let x = ts.last();
        assert(ts =~= init.push(x));
        lemma_sorted_by_kind_permutes(init);
        let p0 = |t: (Seq<char>, Seq<Seq<char>>)| kind_rank(kind_of(t.1)) == 0nat;
        let p1 = |t: (Seq<char>, Seq<Seq<char>>)| kind_rank(kind_of(t.1)) == 1nat;
        let p2 = |t: (Seq<char>, Seq<Seq<char>>)| kind_rank(kind_of(t.1)) == 2nat;
        init.lemma_filter_push(x, p0);
        init.lemma_filter_push(x, p1);
        init.lemma_filter_push(x, p2);
        let a = of_rank(init, 0);
        let b = of_rank(init, 1);
        let c = of_rank(init, 2);
        vstd::seq_lib::lemma_multiset_commutative(a + b, c);
        vstd::seq_lib::lemma_multiset_commutative(a, b);
        let r = kind_rank(kind_of(x.1));
        let a2 = of_rank(ts, 0);
        let b2 = of_rank(ts, 1);
        let c2 = of_rank(ts, 2);
        vstd::seq_lib::lemma_multiset_commutative(a2 + b2, c2);
        vstd::seq_lib::lemma_multiset_commutative(a2, b2);
        if r == 0 {
            assert(a2 == a.push(x));
            assert(b2 == b);
            assert(c2 == c);
        } else if r == 1 {
            assert(a2 == a);
            assert(b2 == b.push(x));
            assert(c2 == c);
        } else {
            assert(a2 == a);
            assert(b2 == b);
            assert(c2 == c.push(x));
        }
        assert(sorted_by_kind(ts).to_multiset() =~= ts.to_multiset());
    }
}


// ---------------------------------------------------------------------------
// Choosing the package

/// The parent of a path given by its components: the path without its last
/// component; none for an empty path and for the root.
pub open spec fn parent_path(p: Seq<Seq<char>>) -> Option<Seq<Seq<char>>> {
    if p.len() == 0 || (p.len() == 1 && p[0] == "/"@) {
        None
    } else {
        Some(p.drop_last())
    }
}

/// The package whose manifest is at `m` is the one to check: its manifest
/// is the manifest asked for, or, when none is asked for, it lies in the
/// current directory `cur`.
pub open spec fn is_chosen_package(m: Seq<Seq<char>>, manifest: Option<Seq<Seq<char>>>, cur: Seq<Seq<char>>) -> bool {
    match manifest {
        Some(p) => m == p,
        None => parent_path(m) == Some(cur),
    }
}

/// The search for the package stops at the manifest `m`: it is the one to
/// check, or its directory is needed and it has none.
pub open spec fn stops_at(m: Seq<Seq<char>>, manifest: Option<Seq<Seq<char>>>, cur: Seq<Seq<char>>) -> bool {
    is_chosen_package(m, manifest, cur) || (manifest is None && parent_path(m) is None)
}

/// The components of an optional path.
pub open spec fn opt_components(o: Option<&Vec<String>>) -> Option<Seq<Seq<char>>> {
    match o {
        Some(p) => Some(p.deep_view()),
        None => None,
    }
}

/// What the search for the package finds.
pub enum PackageSearch {
    /// The package at this position is the one to check.
    Found(usize),
    /// No package is the one to check.
    Missing,
    /// The manifest at this position has no parent directory.
    NoParent(usize),
}

/// Whether the first `n` components of `a` are those of `b`.
fn components_eq(a: &Vec<String>, n: usize, b: &Vec<String>) -> (r: bool)
    requires
        n <= a@.len(),
    ensures
        r == (a.deep_view().take(n as int) == b.deep_view()),
{
    if n != b.len() {
        assert(a.deep_view().take(n as int).len() != b.deep_view().len());
        return false;
    }
    let mut i: usize = 0;
    while i < n
        invariant
            i <= n,
            n == b@.len(),
            n <= a@.len(),
            forall|j: int| 0 <= j < i ==> a.deep_view()[j] == b.deep_view()[j],
        decreases n - i,
    {
        if !str_eq(a[i].as_str(), b[i].as_str()) {
            assert(a.deep_view().take(n as int)[i as int] != b.deep_view()[i as int]);
            return false;
        }
        i = i + 1;
    }
    assert(a.deep_view().take(n as int) =~= b.deep_view());
    true
}

/// Searches the packages, given by the components of their manifest paths
/// in the order cargo lists them, for the one to check: the one whose
/// manifest is `manifest_path` when it is given, else the first one whose
/// manifest lies in `current_dir`.
pub fn package_index(manifests: &Vec<Vec<String>>, manifest_path: Option<&Vec<String>>, current_dir: &Vec<String>) -> (r:
    PackageSearch)
    ensures
        match r {
            PackageSearch::Found(i) => {
                &&& i < manifests@.len()
                &&& is_chosen_package(manifests.deep_view()[i as int], opt_components(manifest_path), current_dir.deep_view())
                &&& forall|j: int|
                    0 <= j < i ==> !stops_at(
                        #[trigger] manifests.deep_view()[j],
                        opt_components(manifest_path),
                        current_dir.deep_view(),
                    )
            },
            PackageSearch::NoParent(i) => {
                &&& i < manifests@.len()
                &&& manifest_path is None
                &&& parent_path(manifests.deep_view()[i as int]) is None
                &&& forall|j: int|
                    0 <= j < i ==> !stops_at(
                        #[trigger] manifests.deep_view()[j],
                        opt_components(manifest_path),
                        current_dir.deep_view(),
                    )
            },
            PackageSearch::Missing => forall|j: int|
                0 <= j < manifests@.len() ==> !stops_at(
                    #[trigger] manifests.deep_view()[j],
                    opt_components(manifest_path),
                    current_dir.deep_view(),
                ),
        },
{
    let ghost ms = manifests.deep_view();
    let ghost want = opt_components(manifest_path);
    let ghost cur = current_dir.deep_view();
    let mut i: usize = 0;
    while i < manifests.len()
        invariant
            i <= manifests@.len(),
            ms == manifests.deep_view(),
            want == opt_components(manifest_path),
            cur == current_dir.deep_view(),
            forall|j: int| 0 <= j < i ==> !stops_at(#[trigger] ms[j], want, cur),
        decreases manifests@.len() - i,
    {
        let m = &manifests[i];
        assert(m.deep_view() == ms[i as int]);
        match manifest_path {
            Some(p) => {
                let hit = components_eq(m, m.len(), p);
                assert(m.deep_view().take(m@.len() as int) =~= m.deep_view());
                if hit {
                    return PackageSearch::Found(i);
                }
            },
            None => {
                if m.len() == 0 || (m.len() == 1 && str_eq(m[0].as_str(), "/")) {
                    return PackageSearch::NoParent(i);
                }
                assert(m.deep_view().take(m@.len() - 1) =~= m.deep_view().drop_last());
                if components_eq(m, m.len() - 1, current_dir) {
                    return PackageSearch::Found(i);
                }
            },
        }
        i = i + 1;
    }
    PackageSearch::Missing
}


// ---------------------------------------------------------------------------
// Lists of strings

/// Appends `s` to `v`.
pub fn push_str(v: &mut Vec<String>, s: &str)
    ensures
        final(v).deep_view() == old(v).deep_view().push(s@),
{
    let ghost prev = v.deep_view();
    v.push(String::from_str(s));
    assert(v.deep_view() =~= prev.push(s@));
}

/// Appends the strings of `w` to `v`.
pub fn append_strings(v: &mut Vec<String>, w: &Vec<String>)
    ensures
        final(v).deep_view() == old(v).deep_view() + w.deep_view(),
{
    let ghost start = v.deep_view();
    let mut i: usize = 0;
    while i < w.len()
        invariant
            i <= w@.len(),
            v.deep_view() == start + w.deep_view().take(i as int),
        decreases w@.len() - i,
    {
        let ghost prev = v.deep_view();
        v.push(w[i].clone());
        assert(v.deep_view() =~= prev.push(w.deep_view()[i as int]));
        assert(start + w.deep_view().take(i + 1) =~= (start + w.deep_view().take(i as int)).push(
            w.deep_view()[i as int],
        ));
        i = i + 1;
    }
    assert(w.deep_view().take(w@.len() as int) =~= w.deep_view());
}

/// The elements of `xs` after the first `k`; none when there are fewer.
pub open spec fn drop_n<A>(xs: Seq<A>, k: int) -> Seq<A> {
    if k <= xs.len() {
        xs.skip(k)
    } else {
        Seq::empty()
    }
}

/// The strings of `v` after the first `k`.
pub fn strings_from(v: &Vec<String>, k: usize) -> (r: Vec<String>)
    ensures
        r.deep_view() == drop_n(v.deep_view(), k as int),
{
    let mut r: Vec<String> = Vec::new();
    if k >= v.len() {
        assert(drop_n(v.deep_view(), k as int) =~= Seq::<Seq<char>>::empty());
        return r;
    }
    let mut i: usize = k;
    while i < v.len()
        invariant
            k <= i <= v@.len(),
            r.deep_view() == v.deep_view().subrange(k as int, i as int),
        decreases v@.len() - i,
    {
        let ghost prev = r.deep_view();
        r.push(v[i].clone());
        assert(r.deep_view() =~= prev.push(v.deep_view()[i as int]));
        assert(r.deep_view() =~= v.deep_view().subrange(k as int, i + 1));
        i = i + 1;
    }
    assert(v.deep_view().subrange(k as int, v@.len() as int) =~= v.deep_view().skip(k as int));
    r
}

// ---------------------------------------------------------------------------
// The arguments handed from the cargo phase to the rustc phase

/// A hexadecimal digit, in lower case.
pub open spec fn hex_digit(n: int) -> char {
    seq!['0', '1', '2', '3', '4', '5', '6', '7', '8', '9', 'a', 'b', 'c', 'd', 'e', 'f'][n]
}

/// How one character is written inside a JSON string: quote and backslash
/// are escaped, the control characters with a short escape where JSON has
/// one and as `\u00XX` otherwise, and every other character as it is.
pub open spec fn json_escape(c: char) -> Seq<char> {
    if c == '"' {
        seq!['\\', '"']
    } else if c == '\\' {
        seq!['\\', '\\']
    } else if c == '\u{8}' {
        seq!['\\', 'b']
    } else if c == '\u{c}' {
        seq!['\\', 'f']
    } else if c == '\n' {
        seq!['\\', 'n']
    } else if c == '\r' {
        seq!['\\', 'r']
    } else if c == '\t' {
        seq!['\\', 't']
    } else if (c as u32) < 0x20 {
        seq!['\\', 'u', '0', '0', hex_digit(((c as u32) / 16) as int), hex_digit(((c as u32) % 16) as int)]
    } else {
        seq![c]
    }
}

/// The characters of `s`, each written as inside a JSON string.
pub open spec fn json_escaped(s: Seq<char>) -> Seq<char>
    decreases s.len(),
{
    if s.len() == 0 {
        Seq::empty()
    } else {
        json_escaped(s.drop_last()) + json_escape(s.last())
    }
}

/// `s` as a JSON string.
pub open spec fn json_string(s: Seq<char>) -> Seq<char> {
    seq!['"'] + json_escaped(s) + seq!['"']
}

/// The JSON strings of `xs`, separated by commas.
pub open spec fn json_items(xs: Seq<Seq<char>>) -> Seq<char>
    decreases xs.len(),
{
    if xs.len() == 0 {
        Seq::empty()
    } else if xs.len() == 1 {
        json_string(xs[0])
    } else {
        json_items(xs.drop_last()) + seq![','] + json_string(xs.last())
    }
}

/// The compact JSON array of the strings `xs`.
pub open spec fn json_string_array(xs: Seq<Seq<char>>) -> Seq<char> {
    seq!['['] + json_items(xs) + seq![']']
}

/// What `serde_json` reads from the text `s` as a list of strings: the
/// strings, or nothing when `s` is not a JSON array of strings.
pub uninterp spec fn json_strings_parse(s: Seq<char>) -> Option<Seq<Seq<char>>>;

/// The error type of `serde_json`.
#[verifier::external_type_specification]
#[verifier::external_body]
pub struct ExJsonError(serde_json::Error);

/// `serde_json::to_string` on a list of strings. It succeeds: a string
/// always serializes and the writer is a `Vec<u8>`, which never fails. The
/// text is the compact JSON array of the strings, escaped as `serde_json`'s
/// writer escapes them.
#[verifier::external_body]
fn json_to_string(v: &Vec<String>) -> (r: Result<String, serde_json::Error>)
    ensures
        r is Ok,
        r matches Ok(s) ==> s@ == json_string_array(v.deep_view()),
{
    serde_json::to_string(v)
}

/// `serde_json::from_str` into a list of strings. It succeeds exactly when
/// the named reading of `s` gives strings, and then gives them; the text
/// that `serde_json` writes for a list of strings reads back as that list.
#[verifier::external_body]
fn json_from_str(s: &str) -> (r: Result<Vec<String>, serde_json::Error>)
    ensures
        r is Ok <==> json_strings_parse(s@) is Some,
        r matches Ok(v) ==> json_strings_parse(s@) == Some(v.deep_view()),
        r is Ok || !(exists|xs: Seq<Seq<char>>| #[trigger] json_string_array(xs) == s@),
        r matches Ok(v) ==> forall|xs: Seq<Seq<char>>| #[trigger] json_string_array(xs) == s@ ==> v.deep_view() == xs,
{
    serde_json::from_str(s)
}

/// What can go wrong when the driver hands arguments from one phase to
/// the next.
#[derive(Debug, Copy, Clone, PartialEq, Eq, Structural)]
pub enum ArgsError {
    /// `RLC_ARGS` is not set.
    Missing,
    /// `RLC_ARGS` is not a JSON list of strings.
    Deserialize,
}

/// The JSON text of the arguments `v`.
pub fn encode_args(v: &Vec<String>) -> (r: String)
    ensures
        r@ == json_string_array(v.deep_view()),
{
    match json_to_string(v) {
        Ok(s) => s,
        Err(_) => {
            proof {
                assert(false);
            }
            String::new()
        },
    }
}

/// The arguments written as JSON in `s`.
pub fn decode_args(s: &str) -> (r: Result<Vec<String>, ArgsError>)
    ensures
        (r is Ok) == (json_strings_parse(s@) is Some),
        r matches Ok(v) ==> json_strings_parse(s@) == Some(v.deep_view()),
        r matches Err(e) ==> e == ArgsError::Deserialize,
        forall|xs: Seq<Seq<char>>|
            #[trigger] json_string_array(xs) == s@ ==> (r matches Ok(v) && v.deep_view() == xs),
{
    match json_from_str(s) {
        Ok(v) => Ok(v),
        Err(_) => Err(ArgsError::Deserialize),
    }
}


// ---------------------------------------------------------------------------
// The commands run for each target

/// The cargo flags that select the target `t`: `--lib` for a library,
/// `--bin` and its name for a binary; none for a target of another kind,
/// which is passed over.
pub open spec fn target_flags(t: (Seq<char>, Seq<Seq<char>>)) -> Option<Seq<Seq<char>>> {
    match kind_of(t.1) {
        TargetKind::Library => Some(seq!["--lib"@]),
        TargetKind::Bin => Some(seq!["--bin"@, t.0]),
        TargetKind::Unspecified => None,
    }
}

/// The cargo flags that select `target`, if it is handled.
pub fn target_flags_of(target: &TargetInfo) -> (r: Option<Vec<String>>)
    ensures
        match r {
            Some(v) => target_flags(target_view(*target)) == Some(v.deep_view()),
            None => target_flags(target_view(*target)) is None,
        },
{
    match target.target_kind() {
        TargetKind::Library => {
            let mut v: Vec<String> = Vec::new();
            push_str(&mut v, "--lib");
            assert(v.deep_view() =~= seq!["--lib"@]);
            Some(v)
        },
        TargetKind::Bin => {
            let mut v: Vec<String> = Vec::new();
            push_str(&mut v, "--bin");
            let ghost prev = v.deep_view();
            v.push(target.name.clone());
            assert(v.deep_view() =~= prev.push(target.name@));
            assert(v.deep_view() =~= seq!["--bin"@, target.name@]);
            Some(v)
        },
        TargetKind::Unspecified => None,
    }
}

/// The arguments of the `cargo clean` run before a library target is
/// checked.
pub open spec fn clean_args_spec(package: Seq<char>, host: Seq<char>) -> Seq<Seq<char>> {
    seq!["clean"@, "-p"@, package, "--target"@, host]
}

/// The arguments of `cargo clean` for the package `package` on `host`.
pub fn clean_args(package: &str, host: &str) -> (r: Vec<String>)
    ensures
        r.deep_view() == clean_args_spec(package@, host@),
{
    let mut v: Vec<String> = Vec::new();
    push_str(&mut v, "clean");
    push_str(&mut v, "-p");
    push_str(&mut v, package);
    push_str(&mut v, "--target");
    push_str(&mut v, host);
    assert(v.deep_view() =~= clean_args_spec(package@, host@));
    v
}

/// The arguments of the `cargo` run that emits the LLVM IR of a target.
pub open spec fn emit_args_spec(flags: Seq<Seq<char>>) -> Seq<Seq<char>> {
    seq!["rustc"@, "--target-dir"@, "/tmp/rlc/rlc-llvm-cache"@] + flags + seq!["--"@, "--emit=llvm-ir"@]
        + crate::default_args_spec()
}

/// The arguments of the `cargo` run that emits the LLVM IR of `target`;
/// none for a target that is passed over.
pub fn llvm_emit_args(target: &TargetInfo) -> (r: Option<Vec<String>>)
    ensures
        match r {
            Some(v) => target_flags(target_view(*target)) matches Some(f) && v.deep_view() == emit_args_spec(f),
            None => target_flags(target_view(*target)) is None,
        },
{
    let flags = match target_flags_of(target) {
        Some(f) => f,
        None => {
            return None;
        },
    };
    let mut v: Vec<String> = Vec::new();
    push_str(&mut v, "rustc");
    push_str(&mut v, "--target-dir");
    push_str(&mut v, crate::RLC_LLVM_CACHE);
    append_strings(&mut v, &flags);
    push_str(&mut v, "--");
    push_str(&mut v, "--emit=llvm-ir");
    let defaults = crate::rlc_default_args();
    append_strings(&mut v, &defaults);
    assert(v.deep_view() =~= emit_args_spec(flags.deep_view()));
    Some(v)
}

/// A path, given by its components, is an LLVM IR file.
pub open spec fn is_ir_path(components: Seq<Seq<char>>) -> bool {
    is_suffix(".ll"@, components.last())
}

/// A path, given by its components, is an LLVM IR file that cargo wrote
/// for a crate: an IR file under a `deps` directory.
pub open spec fn is_emitted_ir_path(components: Seq<Seq<char>>) -> bool {
    is_ir_path(components) && exists|i: int|
        0 <= i < components.len() && crate::text::contains_seq(#[trigger] components[i], "deps"@)
}

/// Whether the path with the components `components` is an LLVM IR file.
pub fn is_ir_file(components: &Vec<String>) -> (r: bool)
    requires
        components@.len() > 0,
    ensures
        r == is_ir_path(components.deep_view()),
{
    ends_with(components[components.len() - 1].as_str(), ".ll")
}

/// Whether the path with the components `components` is an LLVM IR file
/// that cargo wrote for a crate.
pub fn is_emitted_ir_file(components: &Vec<String>) -> (r: bool)
    requires
        components@.len() > 0,
    ensures
        r == is_emitted_ir_path(components.deep_view()),
{
    if !is_ir_file(components) {
        return false;
    }
    let ghost cs = components.deep_view();
    let mut i: usize = 0;
    while i < components.len()
        invariant
            i <= components@.len(),
            cs == components.deep_view(),
            is_ir_path(cs),
            forall|j: int| 0 <= j < i ==> !crate::text::contains_seq(#[trigger] cs[j], "deps"@),
        decreases components@.len() - i,
    {
        if crate::text::contains_str(components[i].as_str(), "deps") {
            assert(crate::text::contains_seq(cs[i as int], "deps"@));
            return true;
        }
        i = i + 1;
    }
    false
}

/// The name under which an emitted IR file of a target is kept: the kind
/// of the target, an underscore, and the file's name.
pub fn ir_dest_name(target: &TargetInfo, file_name: &str) -> (r: String)
    ensures
        r@ == kind_text(kind_of(target.kind.deep_view())) + "_"@ + file_name@,
{
    let mut s = target.target_kind().to_display_string();
    s.append("_");
    s.append(file_name);
    s
}


// ---------------------------------------------------------------------------
// The cargo phase

/// An environment variable and its value.
pub open spec fn env_view(e: (String, String)) -> (Seq<char>, Seq<char>) {
    (e.0@, e.1@)
}

/// The views of the environment settings `es`, in the order they are set.
pub open spec fn envs_view(es: Seq<(String, String)>) -> Seq<(Seq<char>, Seq<char>)> {
    es.map_values(|e: (String, String)| env_view(e))
}

/// Appends the setting of `key` to `value`.
fn push_env(es: &mut Vec<(String, String)>, key: &str, value: &str)
    ensures
        envs_view(final(es)@) == envs_view(old(es)@).push((key@, value@)),
{
    let ghost prev = envs_view(es@);
    es.push((String::from_str(key), String::from_str(value)));
    assert(envs_view(es@) =~= prev.push((key@, value@)));
}

/// The MIR display asked for after the first `--`: `-MIR=V` sets it to
/// `VERBOSE`, then `-MIR=VV` to `VERY VERBOSE`.
pub open spec fn mir_envs(args: Seq<Seq<char>>) -> Seq<(Seq<char>, Seq<char>)> {
    (if after_sep(args).contains("-MIR=V"@) {
        seq![("MIR_DISPLAY"@, "VERBOSE"@)]
    } else {
        Seq::empty()
    }) + (if after_sep(args).contains("-MIR=VV"@) {
        seq![("MIR_DISPLAY"@, "VERY VERBOSE"@)]
    } else {
        Seq::empty()
    })
}

/// The environment settings that ask rustc runs for a MIR display, in the
/// order they are set.
pub fn rlc_add_env(args: &Vec<String>) -> (r: Vec<(String, String)>)
    ensures
        envs_view(r@) == mir_envs(args.deep_view()),
{
    let mut es: Vec<(String, String)> = Vec::new();
    if has_rlc_arg_flag(args, "-MIR=V") {
        push_env(&mut es, "MIR_DISPLAY", "VERBOSE");
    }
    if has_rlc_arg_flag(args, "-MIR=VV") {
        push_env(&mut es, "MIR_DISPLAY", "VERY VERBOSE");
    }
    assert(envs_view(es@) =~= mir_envs(args.deep_view()));
    es
}

/// `-v` or `-vv` is given before the first `--`.
pub open spec fn is_verbose(args: Seq<Seq<char>>) -> bool {
    before_sep(args).contains("-v"@) || before_sep(args).contains("-vv"@)
}

/// The arguments after the first `--` of `xs`; none when there is none.
pub open spec fn after_sep(xs: Seq<Seq<char>>) -> Seq<Seq<char>> {
    if before_sep(xs).len() < xs.len() {
        xs.skip(before_sep(xs).len() as int + 1)
    } else {
        Seq::empty()
    }
}

/// The arguments of `cargo check` for a target selected by `flags`: the
/// flags, `-q` unless the build is a debug one or the run is verbose, the
/// cargo arguments given to the driver up to the first `--`, and the host
/// as target when no target is given.
pub open spec fn check_args_spec(args: Seq<Seq<char>>, flags: Seq<Seq<char>>, host: Seq<char>, debug_build: bool) -> Seq<
    Seq<char>,
> {
    seq!["check"@] + flags + (if !debug_build && !is_verbose(args) {
        seq!["-q"@]
    } else {
        Seq::empty()
    }) + before_sep(drop_n(args, 2)) + (if flag_value(before_sep(args), "--target"@) is None {
        seq!["--target"@, host]
    } else {
        Seq::empty()
    })
}

/// The environment of `cargo check`, in the order it is set: the arguments
/// for the checker after the first `--` as JSON, the driver itself as the
/// rustc wrapper, the verbosity when the run is verbose, and the MIR
/// display asked for.
pub open spec fn check_envs_spec(args: Seq<Seq<char>>, exe: Seq<char>) -> Seq<(Seq<char>, Seq<char>)> {
    seq![("RLC_ARGS"@, json_string_array(after_sep(drop_n(args, 2)))), ("RUSTC_WRAPPER"@, exe)] + (if is_verbose(
        args,
    ) {
        (if before_sep(args).contains("-v"@) {
            seq![("RLC_VERBOSE"@, "VERBOSE"@)]
        } else {
            Seq::empty()
        }) + (if before_sep(args).contains("-vv"@) {
            seq![("RLC_VERBOSE"@, "VERY VERBOSE"@)]
        } else {
            Seq::empty()
        })
    } else {
        Seq::empty()
    }) + mir_envs(args)
}

/// The `cargo check` run for one target.
pub struct CargoCheckPlan {
    /// Run `cargo clean` for the package first.
    pub clean_first: bool,
    /// The arguments of `cargo`.
    pub args: Vec<String>,
    /// The environment, in the order it is set.
    pub envs: Vec<(String, String)>,
    /// Show the command before running it.
    pub verbose: bool,
}

/// Plans the `cargo check` run of the cargo phase for `target`, from the
/// driver's command line `args`, the host triple, whether the driver is a
/// debug build and the path of the driver. No run for a target of a kind
/// that is passed over.
pub fn cargo_check_plan(args: &Vec<String>, target: &TargetInfo, host: &str, debug_build: bool, exe: &str) -> (r:
    Option<CargoCheckPlan>)
    ensures
        r is Some <==> target_flags(target_view(*target)) is Some,
        r matches Some(p) ==> {
            &&& target_flags(target_view(*target)) matches Some(f)
            &&& p.clean_first == (kind_of(target.kind.deep_view()) == TargetKind::Library)
            &&& p.args.deep_view() == check_args_spec(args.deep_view(), f, host@, debug_build)
            &&& envs_view(p.envs@) == check_envs_spec(args.deep_view(), exe@)
            &&& p.verbose == is_verbose(args.deep_view())
        },
{
    let ghost a = args.deep_view();
    let flags = match target_flags_of(target) {
        Some(f) => f,
        None => {
            return None;
        },
    };
    let clean_first = match target.target_kind() {
        TargetKind::Library => true,
        _ => false,
    };
    let mut cmd: Vec<String> = Vec::new();
    push_str(&mut cmd, "check");
    append_strings(&mut cmd, &flags);
    let verbose = has_arg_flag(args, "-v") || has_arg_flag(args, "-vv");
    if !debug_build && !verbose {
        push_str(&mut cmd, "-q");
    }
    let tail = strings_from(args, 2);
    let forwarded = args_before_sep(&tail);
    append_strings(&mut cmd, &forwarded);
    if get_arg_flag_value(args, "--target").is_none() {
        push_str(&mut cmd, "--target");
        push_str(&mut cmd, host);
    }
    assert(cmd.deep_view() =~= check_args_spec(a, flags.deep_view(), host@, debug_build));
    let k = sep_index(&tail);
    let rest = if k < tail.len() {
        strings_from(&tail, k + 1)
    } else {
        Vec::new()
    };
    assert(rest.deep_view() =~= after_sep(drop_n(a, 2)));
    let json = encode_args(&rest);
    let mut envs: Vec<(String, String)> = Vec::new();
    push_env(&mut envs, "RLC_ARGS", json.as_str());
    push_env(&mut envs, "RUSTC_WRAPPER", exe);
    if verbose {
        if has_arg_flag(args, "-v") {
            push_env(&mut envs, "RLC_VERBOSE", "VERBOSE");
        }
        if has_arg_flag(args, "-vv") {
            push_env(&mut envs, "RLC_VERBOSE", "VERY VERBOSE");
        }
    }
    let ghost before_mir = envs_view(envs@);
    let mir = rlc_add_env(args);
    let mut i: usize = 0;
    while i < mir.len()
        invariant
            i <= mir@.len(),
            envs_view(envs@) == before_mir + envs_view(mir@).take(i as int),
        decreases mir@.len() - i,
    {
        let ghost prev = envs_view(envs@);
        envs.push((mir[i].0.clone(), mir[i].1.clone()));
        assert(envs_view(envs@) =~= prev.push(envs_view(mir@)[i as int]));
        assert(before_mir + envs_view(mir@).take(i + 1) =~= (before_mir + envs_view(mir@).take(i as int)).push(
            envs_view(mir@)[i as int],
        ));
        i = i + 1;
    }
    assert(envs_view(mir@).take(mir@.len() as int) =~= envs_view(mir@));
    assert(envs_view(envs@) =~= check_envs_spec(a, exe@));
    Some(CargoCheckPlan { clean_first, args: cmd, envs, verbose })
}


// ---------------------------------------------------------------------------
// The rustc phase

/// The first argument of `xs` that ends with `.rs`.
pub open spec fn first_rs(xs: Seq<Seq<char>>) -> Option<Seq<char>>
    decreases xs.len(),
{
    if xs.len() == 0 {
        None
    } else if is_suffix(".rs"@, xs[0]) {
        Some(xs[0])
    } else {
        first_rs(xs.drop_first())
    }
}

/// A path is relative when it does not begin at the root, `/`.
pub open spec fn is_relative_path(p: Seq<char>) -> bool {
    !is_prefix("/"@, p)
}

/// The crate is built for the target rather than for the host: a target is
/// given before the first `--`.
pub open spec fn is_target_crate_spec(args: Seq<Seq<char>>) -> bool {
    flag_value(before_sep(args), "--target"@) is Some
}

/// The crate is the local one: the first source file named before the
/// first `--` is given by a relative path.
pub open spec fn is_current_crate_spec(args: Seq<Seq<char>>) -> bool {
    match first_rs(before_sep(args)) {
        Some(p) => is_relative_path(p),
        None => false,
    }
}

/// Whether the crate is built for the target.
pub fn is_target_crate(args: &Vec<String>) -> (r: bool)
    ensures
        r == is_target_crate_spec(args.deep_view()),
{
    get_arg_flag_value(args, "--target").is_some()
}

/// Whether the crate being built is the local crate.
pub fn is_current_compile_crate(args: &Vec<String>) -> (r: bool)
    ensures
        r == is_current_crate_spec(args.deep_view()),
{
    let xs = args_before_sep(args);
    let ghost x = xs.deep_view();
    assert(x.skip(0) =~= x);
    let mut i: usize = 0;
    while i < xs.len()
        invariant
            i <= xs@.len(),
            x == xs.deep_view(),
            x == before_sep(args.deep_view()),
            first_rs(x) == first_rs(x.skip(i as int)),
        decreases xs@.len() - i,
    {
        let ghost rest = x.skip(i as int);
        assert(rest[0] == x[i as int]);
        assert(rest.drop_first() =~= x.skip(i + 1));
        if ends_with(xs[i].as_str(), ".rs") {
            return !starts_with(xs[i].as_str(), "/");
        }
        i = i + 1;
    }
    false
}

/// The pieces of `s` between the occurrences of `c`, in order; an empty
/// string gives one empty piece.
pub open spec fn split_on(s: Seq<char>, c: char) -> Seq<Seq<char>>
    decreases s.len(),
{
    if s.len() == 0 {
        seq![Seq::empty()]
    } else {
        let init = split_on(s.drop_last(), c);
        if s.last() == c {
            init.push(Seq::empty())
        } else {
            init.update(init.len() - 1, init.last().push(s.last()))
        }
    }
}

/// `split_on` always gives at least one piece.
pub proof fn lemma_split_on_nonempty(s: Seq<char>, c: char)
    ensures
        split_on(s, c).len() >= 1,
    decreases s.len(),
{
    if s.len() > 0 {
        lemma_split_on_nonempty(s.drop_last(), c);
    }
}

/// The pieces of `s` between the commas.
pub fn split_commas(s: &str) -> (r: Vec<String>)
    ensures
        r.deep_view() == split_on(s@, ','),
{
    let cs = chars_of(s);
    let mut done: Vec<String> = Vec::new();
    let mut cur: Vec<char> = Vec::new();
    let mut i: usize = 0;
    while i < cs.len()
        invariant
            i <= cs@.len(),
            cs@ == s@,
            split_on(s@.take(i as int), ',') == done.deep_view().push(cur@),
        decreases cs@.len() - i,
    {
        proof {
            assert(s@.take(i + 1).drop_last() =~= s@.take(i as int));
            lemma_split_on_nonempty(s@.take(i as int), ',');
        }
        if cs[i] == ',' {
            let piece = crate::text::string_of_chars(&cur);
            let ghost prev = done.deep_view();
            done.push(piece);
            assert(done.deep_view() =~= prev.push(cur@));
            cur = Vec::new();
            assert(split_on(s@.take(i + 1), ',') =~= done.deep_view().push(cur@));
        } else {
            let ghost prev = cur@;
            cur.push(cs[i]);
            assert(split_on(s@.take(i + 1), ',') =~= done.deep_view().push(cur@));
        }
        i = i + 1;
    }
    assert(s@.take(cs@.len() as int) =~= s@);
    let piece = crate::text::string_of_chars(&cur);
    let ghost prev = done.deep_view();
    done.push(piece);
    assert(done.deep_view() =~= prev.push(cur@));
    done
}

/// `s` in lower case, as std's `str::to_lowercase` maps it.
pub uninterp spec fn lowercase(s: Seq<char>) -> Seq<char>;

/// std's `str::to_lowercase`: the named lower-case form of `s`.
#[verifier::external_body]
fn to_lowercase(s: &str) -> (r: String)
    ensures
        r@ == lowercase(s@),
{
    s.to_lowercase()
}

/// `package` is one of the names listed, separated by commas, in `list`,
/// compared without regard to case.
pub open spec fn listed_in(package: Seq<char>, list: Seq<char>) -> bool {
    exists|i: int|
        0 <= i < split_on(list, ',').len() && lowercase(#[trigger] split_on(list, ',')[i]) == lowercase(package)
}

/// The crate is one of those listed in `RLC_ADDITIONAL`.
pub open spec fn is_additional_spec(package: Option<Seq<char>>, additional: Option<Seq<char>>) -> bool {
    match (package, additional) {
        (Some(p), Some(a)) => listed_in(p, a),
        _ => false,
    }
}

/// Whether the package `package` is listed in `additional`, the value of
/// `RLC_ADDITIONAL`.
pub fn is_additional_compile_crate(package: Option<&str>, additional: Option<&str>) -> (r: bool)
    ensures
        r == is_additional_spec(
            match package {
                Some(p) => Some(p@),
                None => None,
            },
            match additional {
                Some(a) => Some(a@),
                None => None,
            },
        ),
{
    let (p, a) = match (package, additional) {
        (Some(p), Some(a)) => (p, a),
        _ => {
            return false;
        },
    };
    let pieces = split_commas(a);
    let want = to_lowercase(p);
    let ghost ps = pieces.deep_view();
    let mut i: usize = 0;
    while i < pieces.len()
        invariant
            i <= pieces@.len(),
            ps == pieces.deep_view(),
            ps == split_on(a@, ','),
            package == Some(p),
            additional == Some(a),
            want@ == lowercase(p@),
            forall|j: int| 0 <= j < i ==> lowercase(#[trigger] ps[j]) != lowercase(p@),
        decreases pieces@.len() - i,
    {
        let low = to_lowercase(pieces[i].as_str());
        if str_eq(low.as_str(), want.as_str()) {
            assert(lowercase(split_on(a@, ',')[i as int]) == lowercase(p@));
            assert(0 <= i < split_on(a@, ',').len());
            return true;
        }
        i = i + 1;
    }
    false
}

/// What the rustc phase runs for one crate: the checker, rustc, or both.
#[derive(Debug, Copy, Clone, PartialEq, Eq, Structural)]
pub struct RustcPlan {
    pub run_rlc: bool,
    pub run_rustc: bool,
}

/// The checker runs on the local crate built for the target and on the
/// additional crates; rustc runs on every other crate, and on a local crate
/// that is a library.
pub open spec fn rustc_plan_spec(args: Seq<Seq<char>>, package: Option<Seq<char>>, additional: Option<Seq<char>>) -> RustcPlan {
    let direct = is_current_crate_spec(args) && is_target_crate_spec(args);
    RustcPlan {
        run_rlc: direct || is_additional_spec(package, additional),
        run_rustc: !direct || flag_names_lib(before_sep(args), "--crate--type"@),
    }
}

/// Decides what the rustc phase runs, from the driver's command line, the
/// package being built (`CARGO_PKG_NAME`) and `RLC_ADDITIONAL`.
pub fn rustc_phase_plan(args: &Vec<String>, package: Option<&str>, additional: Option<&str>) -> (r: RustcPlan)
    ensures
        r == rustc_plan_spec(
            args.deep_view(),
            match package {
                Some(p) => Some(p@),
                None => None,
            },
            match additional {
                Some(a) => Some(a@),
                None => None,
            },
        ),
{
    let direct = is_current_compile_crate(args) && is_target_crate(args);
    let additional = is_additional_compile_crate(package, additional);
    RustcPlan { run_rlc: direct || additional, run_rustc: !direct || is_crate_type_lib(args) }
}

/// The arguments of the checker in the rustc phase: those of rustc, then
/// those that the cargo phase wrote as JSON into `RLC_ARGS`.
pub fn rlc_command_args(args: &Vec<String>, rlc_args: Option<&str>) -> (r: Result<Vec<String>, ArgsError>)
    ensures
        match rlc_args {
            None => r == Err::<Vec<String>, ArgsError>(ArgsError::Missing),
            Some(j) => match json_strings_parse(j@) {
                Some(xs) => r matches Ok(v) && v.deep_view() == drop_n(args.deep_view(), 2) + xs,
                None => r == Err::<Vec<String>, ArgsError>(ArgsError::Deserialize),
            },
        },
        forall|xs: Seq<Seq<char>>|
            (rlc_args matches Some(j) && #[trigger] json_string_array(xs) == j@) ==> (r matches Ok(v)
                && v.deep_view() == drop_n(args.deep_view(), 2) + xs),
{
    let j = match rlc_args {
        Some(j) => j,
        None => {
            return Err(ArgsError::Missing);
        },
    };
    let extra = match decode_args(j) {
        Ok(v) => v,
        Err(e) => {
            return Err(e);
        },
    };
    let mut v = strings_from(args, 2);
    append_strings(&mut v, &extra);
    Ok(v)
}

/// The arguments of rustc in the rustc phase: the driver's own after the
/// first two.
pub fn rustc_command_args(args: &Vec<String>) -> (r: Vec<String>)
    ensures
        r.deep_view() == drop_n(args.deep_view(), 2),
{
    strings_from(args, 2)
}

// ---------------------------------------------------------------------------
// The driver as a whole

/// What the driver was called to do.
#[derive(Debug, Copy, Clone, PartialEq, Eq, Structural)]
pub enum CargoRlcMode {
    /// `cargo rlc`: the preprocess, LLVM IR and cargo phases.
    Cargo,
    /// Called by cargo in place of rustc.
    Rustc,
    /// Called otherwise.
    Invalid,
}

/// The mode the command line asks for, by its second argument.
pub open spec fn mode_spec(args: Seq<Seq<char>>) -> CargoRlcMode {
    if args.len() > 1 && args[1] == "rlc"@ {
        CargoRlcMode::Cargo
    } else if args.len() > 1 && args[1] == "rustc"@ {
        CargoRlcMode::Rustc
    } else {
        CargoRlcMode::Invalid
    }
}

/// The mode the command line asks for.
pub fn cargo_rlc_mode(args: &Vec<String>) -> (r: CargoRlcMode)
    ensures
        r == mode_spec(args.deep_view()),
{
    if args.len() > 1 && str_eq(args[1].as_str(), "rlc") {
        CargoRlcMode::Cargo
    } else if args.len() > 1 && str_eq(args[1].as_str(), "rustc") {
        CargoRlcMode::Rustc
    } else {
        CargoRlcMode::Invalid
    }
}

/// The position of the first `--help`, if any.
pub open spec fn help_index(args: Seq<Seq<char>>) -> Option<int> {
    if args.contains("--help"@) {
        Some(choose|i: int| 0 <= i < args.len() && args[i] == "--help"@ && forall|j: int| 0 <= j < i ==> args[j] != "--help"@)
    } else {
        None
    }
}

/// What the preprocess phase shows: the help when `--help` is given, and
/// the version when `--version` comes after the first `--help`.
pub open spec fn shows_spec(args: Seq<Seq<char>>) -> (bool, bool) {
    match help_index(args) {
        Some(i) => (true, args.skip(i + 1).contains("--version"@)),
        None => (false, false),
    }
}

/// Whether the preprocess phase shows the help and the version.
pub fn preprocess_shows(args: &Vec<String>) -> (r: (bool, bool))
    ensures
        r == shows_spec(args.deep_view()),
{
    let ghost a = args.deep_view();
    let mut i: usize = 0;
    while i < args.len()
        invariant
            i <= args@.len(),
            a == args.deep_view(),
            forall|j: int| 0 <= j < i ==> a[j] != "--help"@,
        decreases args@.len() - i,
    {
        if str_eq(args[i].as_str(), "--help") {
            proof {
                assert(a.contains("--help"@)) by {
                    assert(a[i as int] == "--help"@);
                }
                let p = |k: int| 0 <= k < a.len() && a[k] == "--help"@ && forall|j: int| 0 <= j < k ==> a[j] != "--help"@;
                assert(p(i as int));
                let k = help_index(a).unwrap();
                assert(p(k));
                if k < i {
                    assert(a[k] != "--help"@);
                } else if k > i {
                    assert(a[i as int] != "--help"@);
                }
                assert(k == i);
            }
            let rest = strings_from(args, i + 1);
            assert(rest.deep_view() =~= a.skip(i + 1));
            let version = contains_arg(&rest, "--version");
            return (true, version);
        }
        i = i + 1;
    }
    (false, false)
}

/// Whether a command is shown before it runs: when `RLC_VERBOSE` is set,
/// except in the rustc phase.
pub fn shows_command(rlc_verbose_set: bool, phase: crate::RlcPhase) -> (r: bool)
    ensures
        r == (rlc_verbose_set && phase != crate::RlcPhase::Rustc),
{
    rlc_verbose_set && phase != crate::RlcPhase::Rustc
}

/// The version line of the driver for the package version `version`.
pub fn version_text(version: &str) -> (r: String)
    ensures
        r@ == "The RLC version: rlc "@ + version@,
{
    let mut s = String::from_str("The RLC version: rlc ");
    s.append(version);
    s
}


// ---------------------------------------------------------------------------
// Laws

/// Every crate that the rustc phase sees is handed to rustc, to the
/// checker, or to both.
pub proof fn lemma_rustc_phase_runs_something(
    args: Seq<Seq<char>>,
    package: Option<Seq<char>>,
    additional: Option<Seq<char>>,
)
    ensures
        rustc_plan_spec(args, package, additional).run_rlc || rustc_plan_spec(args, package, additional).run_rustc,
{
}

/// The pieces that `split_on` cuts, joined again by the separator.
pub open spec fn join_on(pieces: Seq<Seq<char>>, c: char) -> Seq<char>
    decreases pieces.len(),
{
    if pieces.len() <= 1 {
        if pieces.len() == 1 {
            pieces[0]
        } else {
            Seq::empty()
        }
    } else {
        join_on(pieces.drop_last(), c) + seq![c] + pieces.last()
    }
}

/// Joining the pieces of `s` by the separator gives back `s`.
pub proof fn lemma_split_join(s: Seq<char>, c: char)
    ensures
        join_on(split_on(s, c), c) == s,
    decreases s.len(),
{
    if s.len() > 0 {
        let init = s.drop_last();
        lemma_split_join(init, c);
        lemma_split_on_nonempty(init, c);
        let p = split_on(init, c);
        if s.last() == c {
            assert(p.push(Seq::empty()).drop_last() =~= p);
            assert(join_on(split_on(s, c), c) =~= s);
        } else {
            let q = p.update(p.len() - 1, p.last().push(s.last()));
            if p.len() == 1 {
                assert(join_on(q, c) =~= s);
            } else {
                assert(q.drop_last() =~= p.drop_last());
                assert(q.last() == p.last().push(s.last()));
                assert(join_on(p, c) == join_on(p.drop_last(), c) + seq![c] + p.last());
                assert(join_on(q, c) == join_on(p.drop_last(), c) + seq![c] + p.last().push(s.last()));
                assert(s =~= init.push(s.last()));
                assert(join_on(q, c) =~= s);
            }
        }
    }
}


} // verus!
