use rlc::type_discernment::{calls_acyclic_check, NamedBody, NamedKind, NamedList, NamedTy, TypeDiscernment, TypeMap};

fn list(ts: Vec<NamedTy>) -> NamedList {
    let mut l = NamedList::Nil;
    for t in ts.into_iter().rev() {
        l = NamedList::Cons(Box::new(t), Box::new(l));
    }
    l
}

fn adt(id: u64, debug: &str, args: Vec<NamedTy>) -> NamedTy {
    NamedTy { id, debug: debug.to_string(), kind: NamedKind::Adt(Box::new(list(args))) }
}

fn other(id: u64, debug: &str) -> NamedTy {
    NamedTy { id, debug: debug.to_string(), kind: NamedKind::Other }
}

fn i32_ty() -> NamedTy {
    other(1, "i32")
}

fn vec_i32() -> NamedTy {
    adt(10, "std::vec::Vec<i32>", vec![i32_ty()])
}

fn string_ty() -> NamedTy {
    adt(11, "std::string::String", vec![])
}

fn option_vec_i32() -> NamedTy {
    adt(12, "std::option::Option<std::vec::Vec<i32>>", vec![vec_i32()])
}

#[test]
fn map_insert_and_remove() {
    let mut m = TypeMap::default();
    let t = vec_i32();
    m.insert_ty(vec_i32());
    assert_eq!(m.get_t2s(&t), Some("std::vec::Vec<i32>".to_string()));
    assert_eq!(m.get_s2t("std::vec::Vec<i32>").map(|u| u.id), Some(10));
    m.insert_ty(string_ty());
    m.remove_ty(&t);
    assert_eq!(m.get_t2s(&t), None);
    assert!(m.get_s2t("std::vec::Vec<i32>").is_none());
    assert_eq!(m.get_t2s(&string_ty()), Some("std::string::String".to_string()));
    m.remove_string("std::string::String");
    assert_eq!(m.get_t2s(&string_ty()), None);
    assert!(m.get_s2t("std::string::String").is_none());
}

#[test]
fn types_of_one_definition_are_told_apart() {
    // Vec<i32> and Vec<u8> are two types under two debug texts
    let mut m = TypeMap::default();
    m.insert_ty(vec_i32());
    m.insert_ty(adt(13, "std::vec::Vec<u8>", vec![other(2, "u8")]));
    assert_eq!(m.get_t2s(&vec_i32()), Some("std::vec::Vec<i32>".to_string()));
    assert_eq!(m.get_s2t("std::vec::Vec<u8>").map(|u| u.id), Some(13));
}

fn body(def_id: u64, locals: Vec<NamedTy>, calls: Vec<Option<u64>>) -> NamedBody {
    NamedBody { def_id, local_decls: locals, calls }
}

#[test]
fn discerned_types() {
    let reference = NamedTy {
        id: 20,
        debug: "&std::string::String".to_string(),
        kind: NamedKind::Ref(Box::new(string_ty())),
    };
    let pair = NamedTy {
        id: 21,
        debug: "(i32, [u8; 4])".to_string(),
        kind: NamedKind::Tuple(Box::new(list(vec![i32_ty(), NamedTy {
            id: 22,
            debug: "[u8; 4]".to_string(),
            kind: NamedKind::Array(Box::new(other(2, "u8"))),
        }]))),
    };
    let bodies = vec![
        body(1, vec![option_vec_i32(), i32_ty(), pair], vec![Some(2), Some(99)]),
        body(2, vec![reference], vec![]),
    ];
    assert!(calls_acyclic_check(&bodies));
    let mut td = TypeDiscernment::new(bodies);
    td.visitor(&vec![1, 2, 1]);
    let m = td.type_map();
    assert_eq!(m.get_t2s(&option_vec_i32()), Some("std::option::Option<std::vec::Vec<i32>>".to_string()));
    assert_eq!(m.get_t2s(&vec_i32()), Some("std::vec::Vec<i32>".to_string()));
    assert_eq!(m.get_t2s(&string_ty()), Some("std::string::String".to_string()));
    assert_eq!(m.get_s2t("std::string::String").map(|u| u.id), Some(11));
    // only ADT types are held
    assert_eq!(m.get_t2s(&i32_ty()), None);
    assert!(m.get_s2t("&std::string::String").is_none());
    assert!(m.get_s2t("(i32, [u8; 4])").is_none());
    assert!(td.func_set().contains(&1));
    assert!(td.func_set().contains(&2));
    assert!(td.llvm_res_set().is_empty());
}

#[test]
fn recursive_calls_are_detected() {
    let bodies = vec![body(1, vec![], vec![Some(2)]), body(2, vec![], vec![Some(1)])];
    assert!(!calls_acyclic_check(&bodies));
    let selfish = vec![body(1, vec![], vec![Some(1)])];
    assert!(!calls_acyclic_check(&selfish));
}
