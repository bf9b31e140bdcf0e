use rlc::display::{
    decimal_string, is_display_verbose, is_display_very_verbose, mir_display, BasicBlockData, Body, Display,
    LocalDecl, MirDisplay, Rvalue, Statement, StatementKind, Terminator, TerminatorKind,
};

#[test]
fn display_modes() {
    assert_eq!(mir_display(Some("VERBOSE")), MirDisplay::Verbose);
    assert_eq!(mir_display(Some("VERY VERBOSE")), MirDisplay::VeryVerobse);
    assert_eq!(mir_display(Some("verbose")), MirDisplay::Disabled);
    assert_eq!(mir_display(None), MirDisplay::Disabled);
    assert!(is_display_verbose(Some("VERY VERBOSE")));
    assert!(!is_display_very_verbose(Some("VERBOSE")));
    assert!(is_display_very_verbose(Some("VERY VERBOSE")));
    assert!(!is_display_verbose(None));
}

#[test]
fn decimal_numbers() {
    assert_eq!(decimal_string(0), "0");
    assert_eq!(decimal_string(7), "7");
    assert_eq!(decimal_string(10), "10");
    assert_eq!(decimal_string(40213), "40213");
}

#[test]
fn terminators() {
    let call = TerminatorKind::Call { fn_def: Some(42) };
    assert_eq!(call.display(MirDisplay::VeryVerobse), "  |:->|  Call FnDef ID is 42");
    assert_eq!(call.display(MirDisplay::Verbose), "");
    assert_eq!(TerminatorKind::Call { fn_def: None }.display(MirDisplay::VeryVerobse), "  |:->|  ");
    assert_eq!(TerminatorKind::Return.display(MirDisplay::VeryVerobse), "  |:->|  Return");
    let t = Terminator { kind: TerminatorKind::Goto, kind_debug: "goto -> bb1".to_string() };
    assert_eq!(t.display(MirDisplay::Verbose), "    goto -> bb1");
    assert_eq!(t.display(MirDisplay::VeryVerobse), "    goto -> bb1  |:->|  Goto");
    assert_eq!(t.display(MirDisplay::Disabled), "");
}

#[test]
fn statements_and_rvalues() {
    assert_eq!(Rvalue::Use.display(MirDisplay::VeryVerobse), "Rvalue Use");
    assert_eq!(Rvalue::Cast.display(MirDisplay::Verbose), "");
    let s = Statement {
        kind: StatementKind::Assign { place_debug: "_1".to_string(), rvalue: Rvalue::Ref },
        kind_debug: "_1 = &_2".to_string(),
    };
    assert_eq!(s.display(MirDisplay::VeryVerobse), "    _1 = &_2  |:->|  Assign  |:->|  _1 Rvalue Ref");
    assert_eq!(s.display(MirDisplay::Verbose), "    _1 = &_2");
    assert_eq!(StatementKind::Nop.display(MirDisplay::VeryVerobse), "  |:->|  Nop");
}

#[test]
fn whole_body() {
    let body = Body {
        local_decls: vec![LocalDecl { ty_debug: "i32".to_string(), ty_kind_debug: "Int(I32)".to_string() }],
        basic_blocks: vec![BasicBlockData {
            is_cleanup: false,
            statements: vec![Statement { kind: StatementKind::StorageLive, kind_debug: "StorageLive(_1)".to_string() }],
            terminator: Terminator { kind: TerminatorKind::Return, kind_debug: "return".to_string() },
        }],
    };
    assert_eq!(
        body.display(MirDisplay::Verbose),
        "_0: i32 \nbb 0 {\nclean_up:  |:->|  false\n    StorageLive(_1)\n    return\n}\n"
    );
    assert_eq!(
        body.display(MirDisplay::VeryVerobse),
        "_0: i32  |:->|  Int(I32) \nbb 0 {\nclean_up:  |:->|  false\n    StorageLive(_1)  |:->|  StorageLive\n    return  |:->|  Return\n}\n"
    );
    assert_eq!(body.display(MirDisplay::Disabled), "");
}
