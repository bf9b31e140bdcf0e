use rlc::analysis::type_analysis::init::{is_call_graph_file, strip_indents_exec, CallGraph};
use rlc::analysis::type_analysis::ownership::RawTypeOwner;
use rlc::analysis::type_analysis::{bodies_check, MirBody, RawGeneric, RawGenericFieldSubst, TypeAnalysis};
use rlc::ty::{table_check, ty_eq, AdtDef, AdtKind, GenericArg, GenericArgs, Ty, TyList};

fn list(ts: Vec<Ty>) -> TyList {
    let mut l = TyList::Nil;
    for t in ts.into_iter().rev() {
        l = TyList::Cons(t, Box::new(l));
    }
    l
}

fn args(ts: Vec<Ty>) -> GenericArgs {
    let mut a = GenericArgs::Nil;
    for t in ts.into_iter().rev() {
        a = GenericArgs::Cons(GenericArg::Type(t), Box::new(a));
    }
    a
}

fn adt(did: u64, ts: Vec<Ty>) -> Ty {
    Ty::Adt(did, Box::new(args(ts)))
}

fn p(i: usize) -> Ty {
    Ty::Param(i)
}

fn tuple(ts: Vec<Ty>) -> Ty {
    Ty::Tuple(Box::new(list(ts)))
}

fn array(t: Ty) -> Ty {
    Ty::Array(Box::new(t))
}

fn def(did: u64, kind: AdtKind, n: usize, variants: Vec<Vec<Ty>>) -> AdtDef {
    AdtDef { did, kind, is_phantom_data: false, n_generics: n, variants: variants.into_iter().map(list).collect() }
}

const VEC: u64 = 2;
const X: u64 = 3;
const Y1: u64 = 4;
const EXAMPLE2: u64 = 5;
const PHANTOM: u64 = 9;
const FOO: u64 = 10;
const BAR: u64 = 11;
const OPT: u64 = 12;

// struct Vec<T> { ptr: *mut T, len: usize }
fn vec_def() -> AdtDef {
    def(VEC, AdtKind::Struct, 1, vec![vec![Ty::RawPtr(Box::new(p(0))), Ty::Other]])
}

// struct Example<A, B, T, S> { a: A, b: (i32, (f64, B)), c: [[S; 1]; 2], d: Vec<T> }
fn example_fields() -> Vec<Ty> {
    vec![p(0), tuple(vec![Ty::Other, tuple(vec![Ty::Other, p(1)])]), array(array(p(3))), adt(VEC, vec![p(2)])]
}

#[test]
fn raw_generic_of_example() {
    let mut rg = RawGeneric::new(4);
    rg.visit_list(&list(example_fields()));
    assert_eq!(rg.record(), &vec![true, true, false, true]);
}

#[test]
fn field_subst_parameters() {
    let mut fs = RawGenericFieldSubst::new();
    assert!(!fs.contains_param());
    fs.visit_ty(&adt(VEC, vec![tuple(vec![p(1), Ty::RawPtr(Box::new(p(0)))])]));
    assert!(fs.contains_param());
    assert_eq!(fs.parameters(), &vec![1]);
}

fn body(def_id: u64, locals: Vec<Ty>, calls: Vec<Option<u64>>) -> MirBody {
    MirBody { def_id, local_decls: locals, calls }
}

fn analysis(defs: Vec<AdtDef>, bodies: Vec<MirBody>) -> TypeAnalysis {
    assert!(table_check(&defs));
    assert!(bodies_check(&defs, &bodies));
    TypeAnalysis::new(defs, bodies, 1000)
}

#[test]
fn propagation_through_a_field() {
    // struct X<A> { a: A }
    // struct Y1<B> { a: (i32, (f64, B)), b: X<i32> }
    // struct Example2<A, B, T, S> { a: X<A>, b: (i32, (f64, B)), c: [[S; 1]; 2], d: Vec<T> }
    let defs = vec![
        vec_def(),
        def(X, AdtKind::Struct, 1, vec![vec![p(0)]]),
        def(Y1, AdtKind::Struct, 1, vec![vec![tuple(vec![Ty::Other, tuple(vec![Ty::Other, p(0)])]), adt(X, vec![Ty::Other])]]),
        def(
            EXAMPLE2,
            AdtKind::Struct,
            4,
            vec![vec![adt(X, vec![p(0)]), tuple(vec![Ty::Other, tuple(vec![Ty::Other, p(1)])]), array(array(p(3))), adt(VEC, vec![p(2)])]],
        ),
    ];
    let bodies = vec![body(100, vec![adt(EXAMPLE2, vec![Ty::Other, Ty::Other, Ty::Other, Ty::Other]), adt(Y1, vec![Ty::Other])], vec![None])];
    let mut ta = analysis(defs, bodies);
    assert!(ta.visitor(&vec![100]));
    let owner = ta.adt_owner();
    assert_eq!(owner[&X], vec![(RawTypeOwner::Unowned, vec![true])]);
    assert_eq!(owner[&Y1], vec![(RawTypeOwner::Unowned, vec![true])]);
    assert_eq!(owner[&EXAMPLE2], vec![(RawTypeOwner::Unowned, vec![true, true, false, true])]);
    assert_eq!(owner[&VEC], vec![(RawTypeOwner::Unowned, vec![false])]);
    assert!(ta.fn_set().contains(&100));
    assert!(ta.adt_recorder().contains(&X));
}

#[test]
fn phantom_data_makes_an_owner() {
    // struct PhantomData<T>;  struct Foo<T> { p: *mut T, m: PhantomData<T> }  struct Bar<T> { f: Foo<T> }
    // enum Opt<T> { None, Some(Foo<T>) }
    let mut phantom = def(PHANTOM, AdtKind::Struct, 1, vec![vec![]]);
    phantom.is_phantom_data = true;
    let defs = vec![
        phantom,
        def(FOO, AdtKind::Struct, 1, vec![vec![Ty::RawPtr(Box::new(p(0))), adt(PHANTOM, vec![p(0)])]]),
        def(BAR, AdtKind::Struct, 1, vec![vec![adt(FOO, vec![p(0)])]]),
        def(OPT, AdtKind::Enum, 1, vec![vec![], vec![adt(FOO, vec![p(0)])]]),
    ];
    let bodies = vec![
        body(200, vec![adt(BAR, vec![Ty::Other])], vec![Some(201), Some(999)]),
        body(201, vec![adt(OPT, vec![Ty::Other])], vec![Some(200)]),
    ];
    let mut ta = analysis(defs, bodies);
    assert!(ta.visitor(&vec![200, 201]));
    let owner = ta.adt_owner();
    assert_eq!(owner[&FOO], vec![(RawTypeOwner::Owned, vec![false])]);
    assert_eq!(owner[&BAR], vec![(RawTypeOwner::Owned, vec![false])]);
    assert_eq!(owner[&PHANTOM], vec![(RawTypeOwner::Unowned, vec![false])]);
    assert_eq!(owner[&OPT], vec![(RawTypeOwner::Unowned, vec![false]), (RawTypeOwner::Owned, vec![false])]);
    assert!(ta.fn_set().contains(&201));
}

#[test]
fn type_limit_stops_the_collection() {
    let defs = vec![vec_def(), def(X, AdtKind::Struct, 1, vec![vec![p(0)]])];
    let bodies = vec![body(1, vec![adt(X, vec![adt(VEC, vec![Ty::Other])])], vec![])];
    let mut ta = TypeAnalysis::new(defs, bodies, 1);
    assert!(!ta.visitor(&vec![1]));
    assert!(ta.adt_owner().is_empty());
}

#[test]
fn malformed_tables_are_refused() {
    // a field names an ADT missing from the table
    let defs = vec![def(X, AdtKind::Struct, 1, vec![vec![adt(77, vec![])]])];
    assert!(!table_check(&defs));
    // a struct with two variants
    let defs = vec![def(X, AdtKind::Struct, 0, vec![vec![], vec![]])];
    assert!(!table_check(&defs));
    // a parameter beyond the definition's own
    let defs = vec![def(X, AdtKind::Struct, 1, vec![vec![p(1)]])];
    assert!(!table_check(&defs));
    assert!(table_check(&vec![vec_def()]));
    // two bodies with one id
    assert!(!bodies_check(&vec![vec_def()], &vec![body(1, vec![], vec![]), body(1, vec![], vec![])]));
}

fn lines(xs: &[&str]) -> Vec<String> {
    xs.iter().map(|s| s.to_string()).collect()
}

#[test]
fn call_graph_files() {
    let files = vec![
        lines(&["main", "     foo", "     bar", "foo", "     baz"]),
        lines(&["main", "     qux"]),
    ];
    let ta = TypeAnalysis::new(vec![], vec![], 0);
    let g = ta.init(&files).unwrap();
    assert_eq!(g.callees("main"), Some(lines(&["qux"])));
    assert_eq!(g.callees("foo"), Some(lines(&["baz"])));
    assert_eq!(g.callees("bar"), None);
    assert!(ta.init(&vec![lines(&["     orphan"])]).is_none());
    let mut g = CallGraph::new();
    g.read_file(&lines(&["", "     x"]));
    g.read_file(&lines(&["     y"]));
    assert_eq!(g.callees(""), Some(lines(&["x", "y"])));
    assert_eq!(strip_indents_exec("          a     b  c"), "ab  c");
    assert!(is_call_graph_file("crate_a.rlc"));
    assert!(!is_call_graph_file("crate_a.ll"));
}

#[test]
fn ownership_flags() {
    assert!(RawTypeOwner::Owned.is_owned());
    assert!(!RawTypeOwner::Unowned.is_owned());
    assert!(!RawTypeOwner::Uninit.is_owned());
    assert_eq!(RawTypeOwner::default(), RawTypeOwner::Uninit);
}

const S: u64 = 20;
const E: u64 = 21;
const G: u64 = 22;
const LIST: u64 = 23;

#[test]
fn enums_stop_propagation_from_structs() {
    // enum E<T> { A(T) }   struct S<T> { e: E<T> }   enum G<T> { A(E<T>), B }
    // struct List<T> { next: *mut List<T>, item: (T,), more: List2 } is modelled with a self reference
    let defs = vec![
        def(E, AdtKind::Enum, 1, vec![vec![p(0)]]),
        def(S, AdtKind::Struct, 1, vec![vec![adt(E, vec![p(0)])]]),
        def(G, AdtKind::Enum, 1, vec![vec![adt(E, vec![p(0)])], vec![]]),
        def(LIST, AdtKind::Struct, 1, vec![vec![adt(LIST, vec![p(0)]), tuple(vec![p(0)])]]),
    ];
    let bodies = vec![body(
        300,
        vec![adt(S, vec![Ty::Other]), adt(G, vec![Ty::Other]), adt(LIST, vec![Ty::Other])],
        vec![],
    )];
    let mut ta = analysis(defs, bodies);
    assert!(ta.visitor(&vec![300]));
    let owner = ta.adt_owner();
    assert_eq!(owner[&E], vec![(RawTypeOwner::Unowned, vec![true])]);
    assert_eq!(owner[&S], vec![(RawTypeOwner::Unowned, vec![false])]);
    assert_eq!(owner[&G], vec![(RawTypeOwner::Unowned, vec![true]), (RawTypeOwner::Unowned, vec![false])]);
    assert_eq!(owner[&LIST], vec![(RawTypeOwner::Unowned, vec![true])]);
}

fn same_types(a: &Vec<Ty>, b: &Vec<Ty>) -> bool {
    a.len() == b.len() && a.iter().zip(b.iter()).all(|(x, y)| ty_eq(x, y))
}

#[test]
fn collection_meets_what_a_type_reaches_once() {
    // struct X<A> { a: A }   struct Y1<B> { x: X<Vec<B>> }
    let defs = vec![
        vec_def(),
        def(X, AdtKind::Struct, 1, vec![vec![p(0)]]),
        def(Y1, AdtKind::Struct, 1, vec![vec![adt(X, vec![adt(VEC, vec![p(0)])])]]),
    ];
    let mut ta = TypeAnalysis::new(defs, vec![], 1000);
    let t = Ty::Ref(Box::new(adt(Y1, vec![Ty::Other])));
    assert!(ta.visit_ty(&t));
    let expected = vec![adt(Y1, vec![Ty::Other]), adt(X, vec![adt(VEC, vec![Ty::Other])]), adt(VEC, vec![Ty::Other])];
    assert!(same_types(ta.ty_map(), &expected));
    assert!(ta.adt_recorder().contains(&Y1));
    assert!(ta.adt_recorder().contains(&X));
    assert!(ta.adt_recorder().contains(&VEC));
    assert_eq!(ta.adt_recorder().len(), 3);
    // a second visit of the same type changes nothing
    assert!(ta.visit_ty(&t));
    assert!(same_types(ta.ty_map(), &expected));
    assert_eq!(ta.adt_recorder().len(), 3);
    // a type that is no ADT and holds none changes nothing
    assert!(ta.visit_ty(&Ty::Other));
    assert!(same_types(ta.ty_map(), &expected));
}

#[test]
fn a_visit_at_the_limit_changes_nothing_the_second_time() {
    // struct X<A> { a: A }: meeting X<Vec<_>> needs two types, the limit allows one
    let defs = vec![vec_def(), def(X, AdtKind::Struct, 1, vec![vec![p(0)]])];
    let mut ta = TypeAnalysis::new(defs, vec![], 1);
    let t = adt(X, vec![adt(VEC, vec![Ty::Other])]);
    assert!(!ta.visit_ty(&t));
    let expected = vec![adt(X, vec![adt(VEC, vec![Ty::Other])])];
    assert!(same_types(ta.ty_map(), &expected));
    // X<Vec<_>> was met, so the second visit stops there
    assert!(ta.visit_ty(&t));
    assert!(same_types(ta.ty_map(), &expected));
    assert_eq!(ta.adt_recorder().len(), 1);
    // Vec<_> alone cannot be met any more
    assert!(!ta.visit_ty(&adt(VEC, vec![Ty::Other])));
    assert!(same_types(ta.ty_map(), &expected));
}
