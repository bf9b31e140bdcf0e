use rlc::cargo_rlc::{
    cargo_check_plan, cargo_rlc_mode, clean_args, decode_args, encode_args, get_arg_flag_value,
    has_arg_flag, has_rlc_arg_flag, ir_dest_name, is_crate_type_lib, is_current_compile_crate,
    is_additional_compile_crate, is_emitted_ir_file, is_ir_file, is_target_crate, llvm_emit_args, package_index,
    preprocess_shows, rlc_add_env, rlc_command_args, rustc_command_args, rustc_phase_plan,
    shows_command, sort_targets, split_commas, target_flags_of, version_text, ArgsError,
    CargoRlcMode, PackageSearch, RustcPlan, TargetInfo, TargetKind,
};
use rlc::RlcPhase;

fn strings(xs: &[&str]) -> Vec<String> {
    xs.iter().map(|s| s.to_string()).collect()
}

fn target(name: &str, kinds: &[&str]) -> TargetInfo {
    TargetInfo { name: name.to_string(), kind: strings(kinds) }
}

#[test]
fn arg_flag_stops_at_separator() {
    let args = strings(&["cargo-rlc", "rlc", "-v", "--", "-vv"]);
    assert!(has_arg_flag(&args, "-v"));
    assert!(!has_arg_flag(&args, "-vv"));
    assert!(!has_arg_flag(&args, "--"));
}

#[test]
fn rlc_arg_flag_searches_past_separator() {
    let args = strings(&["cargo-rlc", "rlc", "--", "-MIR=V"]);
    assert!(has_rlc_arg_flag(&args, "-MIR=V"));
    assert!(!has_rlc_arg_flag(&args, "--"));
    assert!(!has_rlc_arg_flag(&args, "rlc"));
    let before = strings(&["cargo-rlc", "rlc", "-MIR=V"]);
    assert!(!has_rlc_arg_flag(&before, "-MIR=V"));
    let repeated = strings(&["--", "--", "x"]);
    assert!(has_rlc_arg_flag(&repeated, "--"));
    assert!(has_rlc_arg_flag(&repeated, "x"));
}

#[test]
fn flag_value_forms() {
    let args = strings(&["rustc", "--target", "x86_64", "a.rs"]);
    assert_eq!(get_arg_flag_value(&args, "--target"), Some("x86_64".to_string()));
    let args = strings(&["rustc", "--target=aarch64", "a.rs"]);
    assert_eq!(get_arg_flag_value(&args, "--target"), Some("aarch64".to_string()));
    let args = strings(&["rustc", "--targetx", "--target=y"]);
    assert_eq!(get_arg_flag_value(&args, "--target"), Some("y".to_string()));
    let args = strings(&["rustc", "--target"]);
    assert_eq!(get_arg_flag_value(&args, "--target"), None);
    let args = strings(&["rustc", "--target", "--", "x"]);
    assert_eq!(get_arg_flag_value(&args, "--target"), None);
    let args = strings(&["rustc", "--", "--target=z"]);
    assert_eq!(get_arg_flag_value(&args, "--target"), None);
}

#[test]
fn crate_type_lib_flag() {
    assert!(is_crate_type_lib(&strings(&["rustc", "--crate--type", "lib"])));
    assert!(is_crate_type_lib(&strings(&["rustc", "--crate--type=rlib"])));
    assert!(is_crate_type_lib(&strings(&["rustc", "--crate--type", "bin", "--crate--type", "staticlib"])));
    assert!(!is_crate_type_lib(&strings(&["rustc", "--crate-type", "lib"])));
    assert!(!is_crate_type_lib(&strings(&["rustc", "--crate--typex", "--crate--type=lib"])));
    assert!(!is_crate_type_lib(&strings(&["rustc", "--crate--type"])));
    assert!(!is_crate_type_lib(&strings(&["rustc", "--", "--crate--type=lib"])));
}

#[test]
fn target_kinds() {
    assert_eq!(TargetKind::from_kinds(&strings(&["bin"])), TargetKind::Bin);
    assert_eq!(TargetKind::from_kinds(&strings(&["cdylib", "rlib"])), TargetKind::Library);
    assert_eq!(TargetKind::from_kinds(&strings(&["staticlib"])), TargetKind::Library);
    assert_eq!(TargetKind::from_kinds(&strings(&["test"])), TargetKind::Unspecified);
    assert!(TargetKind::is_lib_str("lib"));
    assert!(!TargetKind::is_lib_str("dylib"));
    assert_eq!(TargetKind::Library.to_display_string(), "lib");
    assert_eq!(TargetKind::Bin.to_display_string(), "bin");
    assert_eq!(TargetKind::Unspecified.to_display_string(), "unspecified");
    assert_eq!(TargetKind::Library.rank(), 0);
    assert_eq!(TargetKind::Unspecified.rank(), 2);
}

#[test]
fn targets_sorted_libraries_first() {
    let ts = vec![
        target("b1", &["bin"]),
        target("t", &["test"]),
        target("l", &["lib"]),
        target("b2", &["bin"]),
    ];
    let sorted = sort_targets(&ts);
    let names: Vec<&str> = sorted.iter().map(|t| t.name.as_str()).collect();
    assert_eq!(names, vec!["l", "b1", "b2", "t"]);
}

#[test]
fn target_commands() {
    let lib = target("mylib", &["lib"]);
    let bin = target("app", &["bin"]);
    let other = target("bench", &["bench"]);
    assert_eq!(target_flags_of(&lib), Some(strings(&["--lib"])));
    assert_eq!(target_flags_of(&bin), Some(strings(&["--bin", "app"])));
    assert_eq!(target_flags_of(&other), None);
    assert_eq!(clean_args("pkg", "x86_64-unknown-linux-gnu"), strings(&["clean", "-p", "pkg", "--target", "x86_64-unknown-linux-gnu"]));
    assert_eq!(
        llvm_emit_args(&bin),
        Some(strings(&[
            "rustc",
            "--target-dir",
            "/tmp/rlc/rlc-llvm-cache",
            "--bin",
            "app",
            "--",
            "--emit=llvm-ir",
            "-Zalways-encode-mir",
            "-Zmir-opt-level=0",
            "--cfg=rlc",
        ]))
    );
    assert_eq!(llvm_emit_args(&other), None);
}

#[test]
fn emitted_ir_files() {
    assert!(is_ir_file(&strings(&["tmp", "a.ll"])));
    assert!(!is_ir_file(&strings(&["tmp", "a.rs"])));
    assert!(is_emitted_ir_file(&strings(&["cache", "debug", "deps", "foo-123.ll"])));
    assert!(!is_emitted_ir_file(&strings(&["cache", "debug", "foo.ll"])));
    assert!(!is_emitted_ir_file(&strings(&["cache", "deps", "foo.o"])));
    assert_eq!(ir_dest_name(&target("x", &["lib"]), "foo.ll"), "lib_foo.ll");
    assert_eq!(ir_dest_name(&target("x", &["bin"]), "bar.ll"), "bin_bar.ll");
}

#[test]
fn mir_display_environment() {
    let es = rlc_add_env(&strings(&["cargo-rlc", "rlc", "--", "-MIR=V", "-MIR=VV"]));
    assert_eq!(
        es,
        vec![
            ("MIR_DISPLAY".to_string(), "VERBOSE".to_string()),
            ("MIR_DISPLAY".to_string(), "VERY VERBOSE".to_string())
        ]
    );
    assert!(rlc_add_env(&strings(&["cargo-rlc", "rlc"])).is_empty());
    assert!(rlc_add_env(&strings(&["cargo-rlc", "rlc", "-MIR=V", "--"])).is_empty());
}

#[test]
fn cargo_check_for_a_binary() {
    let args = strings(&["cargo-rlc", "rlc", "--release", "--", "-MIR=V", "x"]);
    let plan = cargo_check_plan(&args, &target("app", &["bin"]), "host-triple", false, "/bin/cargo-rlc").unwrap();
    assert!(!plan.clean_first);
    assert!(!plan.verbose);
    assert_eq!(plan.args, strings(&["check", "--bin", "app", "-q", "--release", "--target", "host-triple"]));
    assert_eq!(
        plan.envs,
        vec![
            ("RLC_ARGS".to_string(), "[\"-MIR=V\",\"x\"]".to_string()),
            ("RUSTC_WRAPPER".to_string(), "/bin/cargo-rlc".to_string()),
            ("MIR_DISPLAY".to_string(), "VERBOSE".to_string()),
        ]
    );
}

#[test]
fn cargo_check_for_a_verbose_library() {
    let args = strings(&["cargo-rlc", "rlc", "-vv", "--target", "t"]);
    let plan = cargo_check_plan(&args, &target("l", &["lib"]), "h", false, "e").unwrap();
    assert!(plan.clean_first);
    assert!(plan.verbose);
    assert_eq!(plan.args, strings(&["check", "--lib", "-vv", "--target", "t"]));
    assert_eq!(
        plan.envs,
        vec![
            ("RLC_ARGS".to_string(), "[]".to_string()),
            ("RUSTC_WRAPPER".to_string(), "e".to_string()),
            ("RLC_VERBOSE".to_string(), "VERY VERBOSE".to_string()),
        ]
    );
    assert!(cargo_check_plan(&args, &target("x", &["example"]), "h", false, "e").is_none());
    let debug = cargo_check_plan(&strings(&["cargo-rlc", "rlc"]), &target("l", &["lib"]), "h", true, "e").unwrap();
    assert_eq!(debug.args, strings(&["check", "--lib", "--target", "h"]));
}

#[test]
fn json_of_arguments() {
    let v = strings(&["a", "q\"uote", "back\\slash", "new\nline", "\u{1}"]);
    let text = encode_args(&v);
    assert_eq!(text, "[\"a\",\"q\\\"uote\",\"back\\\\slash\",\"new\\nline\",\"\\u0001\"]");
    assert_eq!(decode_args(&text).unwrap(), v);
    assert_eq!(decode_args("not json"), Err(ArgsError::Deserialize));
    assert_eq!(decode_args("[1, 2]"), Err(ArgsError::Deserialize));
}

#[test]
fn rustc_phase_decisions() {
    let local = strings(&["cargo-rlc", "rustc", "--crate-name", "x", "src/main.rs", "--target", "t"]);
    assert!(is_current_compile_crate(&local));
    assert!(is_target_crate(&local));
    assert_eq!(rustc_phase_plan(&local, Some("x"), None), RustcPlan { run_rlc: true, run_rustc: false });
    let dep = strings(&["cargo-rlc", "rustc", "/home/u/.cargo/registry/dep/src/lib.rs", "--target", "t"]);
    assert!(!is_current_compile_crate(&dep));
    assert_eq!(rustc_phase_plan(&dep, Some("dep"), None), RustcPlan { run_rlc: false, run_rustc: true });
    assert_eq!(rustc_phase_plan(&dep, Some("Dep"), Some("foo,DEP")), RustcPlan { run_rlc: true, run_rustc: true });
    let lib = strings(&["cargo-rlc", "rustc", "src/lib.rs", "--crate--type", "lib", "--target", "t"]);
    assert_eq!(rustc_phase_plan(&lib, None, None), RustcPlan { run_rlc: true, run_rustc: true });
    let host = strings(&["cargo-rlc", "rustc", "build.rs"]);
    assert_eq!(rustc_phase_plan(&host, None, None), RustcPlan { run_rlc: false, run_rustc: true });
}

#[test]
fn additional_crates() {
    assert!(is_additional_compile_crate(Some("Serde"), Some("log,serde")));
    assert!(!is_additional_compile_crate(Some("serde"), Some("log, serde")));
    assert!(!is_additional_compile_crate(None, Some("serde")));
    assert!(!is_additional_compile_crate(Some("serde"), None));
    assert_eq!(split_commas("a,,b"), strings(&["a", "", "b"]));
    assert_eq!(split_commas(""), strings(&[""]));
}

#[test]
fn checker_arguments_read_back() {
    let args = strings(&["cargo-rlc", "rustc", "src/main.rs"]);
    let written = encode_args(&strings(&["-MIR=V"]));
    assert_eq!(rlc_command_args(&args, Some(&written)).unwrap(), strings(&["src/main.rs", "-MIR=V"]));
    assert_eq!(rlc_command_args(&args, None), Err(ArgsError::Missing));
    assert_eq!(rlc_command_args(&args, Some("{")), Err(ArgsError::Deserialize));
    assert_eq!(rustc_command_args(&args), strings(&["src/main.rs"]));
    assert_eq!(rustc_command_args(&strings(&["only"])), Vec::<String>::new());
}

#[test]
fn driver_modes() {
    assert_eq!(cargo_rlc_mode(&strings(&["cargo-rlc", "rlc"])), CargoRlcMode::Cargo);
    assert_eq!(cargo_rlc_mode(&strings(&["cargo-rlc", "rustc", "x"])), CargoRlcMode::Rustc);
    assert_eq!(cargo_rlc_mode(&strings(&["cargo-rlc"])), CargoRlcMode::Invalid);
    assert_eq!(preprocess_shows(&strings(&["c", "rlc", "--help", "--version"])), (true, true));
    assert_eq!(preprocess_shows(&strings(&["c", "rlc", "--version", "--help"])), (true, false));
    assert_eq!(preprocess_shows(&strings(&["c", "rlc", "--version"])), (false, false));
    assert!(shows_command(true, RlcPhase::Cargo));
    assert!(!shows_command(true, RlcPhase::Rustc));
    assert!(!shows_command(false, RlcPhase::LLVM));
    assert_eq!(version_text("0.1.0"), "The RLC version: rlc 0.1.0");
}

#[test]
fn package_choice() {
    let manifests = vec![
        strings(&["/", "ws", "a", "Cargo.toml"]),
        strings(&["/", "ws", "b", "Cargo.toml"]),
    ];
    let here = strings(&["/", "ws", "b"]);
    assert!(matches!(package_index(&manifests, None, &here), PackageSearch::Found(1)));
    let asked = strings(&["/", "ws", "a", "Cargo.toml"]);
    assert!(matches!(package_index(&manifests, Some(&asked), &here), PackageSearch::Found(0)));
    let elsewhere = strings(&["/", "other"]);
    assert!(matches!(package_index(&manifests, None, &elsewhere), PackageSearch::Missing));
    let unknown = strings(&["/", "ws", "c", "Cargo.toml"]);
    assert!(matches!(package_index(&manifests, Some(&unknown), &here), PackageSearch::Missing));
    let rootless = vec![strings(&["/"]), strings(&["/", "ws", "b", "Cargo.toml"])];
    assert!(matches!(package_index(&rootless, None, &here), PackageSearch::NoParent(0)));
    assert!(matches!(package_index(&rootless, Some(&asked), &here), PackageSearch::Missing));
}
