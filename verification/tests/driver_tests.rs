use rlc::driver::{config_parse, RlcArgs, RlcCompilerCalls};
use rlc::grain::RlcGrain;
use rlc::log::{rlc_level_filter, output_target, LevelFilter, Verbosity};
use rlc::{compile_time_sysroot, rlc_default_args, run_analyzer, BuildEnv, RlcConfig, RLC_LLVM_CACHE, RLC_LLVM_IR, RLC_ROOT};

fn strings(xs: &[&str]) -> Vec<String> {
    xs.iter().map(|s| s.to_string()).collect()
}

#[test]
fn grain_flags_are_read() {
    let args = strings(&["rlc", "-rlc-grain-high", "a.rs", "-rlc-grain-medium", "--edition=2018"]);
    let parsed = config_parse(&args);
    assert_eq!(parsed.rlc_cc.rlc_config.grain(), RlcGrain::Medium);
    assert_eq!(parsed.rlc_cc.rlc_config.verbose(), Verbosity::Info);
    assert_eq!(parsed.args, strings(&["rlc", "a.rs", "--edition=2018"]));
    let plain = config_parse(&strings(&["rlc"]));
    assert_eq!(plain.rlc_cc.rlc_config.grain(), RlcGrain::Low);
}

#[test]
fn grain_setters() {
    let mut a = RlcArgs::default();
    a.push_args("rlc".to_string());
    a.set_config_ultra();
    assert_eq!(a.rlc_cc.rlc_config.grain(), RlcGrain::Ultra);
    a.set_config_high();
    assert_eq!(a.rlc_cc.rlc_config.grain(), RlcGrain::High);
    a.set_config_medium();
    assert_eq!(a.rlc_cc.rlc_config.grain(), RlcGrain::Medium);
    a.set_config_low();
    assert_eq!(a.rlc_cc.rlc_config.grain(), RlcGrain::Low);
    assert_eq!(a.args, strings(&["rlc"]));
}

#[test]
fn default_arguments_follow_the_binary() {
    let mut a = RlcArgs::default();
    a.push_args("rlc".to_string());
    a.push_args("main.rs".to_string());
    a.splice_args();
    assert_eq!(a.args, strings(&["rlc", "-Zalways-encode-mir", "-Zmir-opt-level=0", "--cfg=rlc", "main.rs"]));
}

#[test]
fn sysroot_is_added_once() {
    let mut a = RlcArgs::default();
    a.push_args("rlc".to_string());
    a.push_args("main.rs".to_string());
    a.finish_args(Some("/sys".to_string()));
    assert_eq!(
        a.args,
        strings(&["rlc", "-Zalways-encode-mir", "-Zmir-opt-level=0", "--cfg=rlc", "main.rs", "--sysroot", "/sys"])
    );
    let mut b = RlcArgs::default();
    b.push_args("rlc".to_string());
    b.push_args("--sysroot".to_string());
    b.push_args("/mine".to_string());
    b.finish_args(Some("/sys".to_string()));
    assert_eq!(
        b.args,
        strings(&["rlc", "-Zalways-encode-mir", "-Zmir-opt-level=0", "--cfg=rlc", "--sysroot", "/mine"])
    );
    assert!(b.has_arg("--sysroot"));
    let mut c = RlcArgs::default();
    c.finish_args(Some("/sys".to_string()));
    assert_eq!(c.args, strings(&["--sysroot", "-Zalways-encode-mir", "-Zmir-opt-level=0", "--cfg=rlc", "/sys"]));
}

#[test]
fn shown_texts() {
    assert_eq!(RlcGrain::Low.to_display_string(), "Low,");
    assert_eq!(RlcGrain::Ultra.to_display_string(), "Ultra");
    let cc = RlcCompilerCalls::new(RlcConfig::new(RlcGrain::High, Verbosity::Debug));
    assert_eq!(cc.to_display_string(), "High");
    let mut a = RlcArgs::default();
    a.push_args("rlc".to_string());
    a.push_args("x".to_string());
    assert_eq!(a.to_display_string(), "Low, Whole Args: [\"rlc\", \"x\"]");
}

#[test]
fn configuration() {
    let mut c = RlcConfig::default();
    assert_eq!(c.grain(), RlcGrain::Low);
    assert_eq!(c.verbose(), Verbosity::Info);
    c.set_grain(RlcGrain::High);
    c.set_verbose(Verbosity::Trace);
    assert_eq!(c.grain(), RlcGrain::High);
    assert_eq!(c.verbose(), Verbosity::Trace);
    assert_eq!(RlcGrain::Low.level(), 0);
    assert_eq!(RlcGrain::Ultra.level(), 3);
}

#[test]
fn log_levels() {
    assert_eq!(Verbosity::Info.level_filter(), LevelFilter::Info);
    assert_eq!(Verbosity::Debug.level_filter(), LevelFilter::Debug);
    assert_eq!(Verbosity::Trace.level_filter(), LevelFilter::Trace);
    assert_eq!(rlc_level_filter(), LevelFilter::Info);
    assert_eq!(output_target(), "rlc-output");
}

fn env() -> BuildEnv {
    BuildEnv {
        rustc_stage: None,
        rustup_home: None,
        multirust_home: None,
        rustup_toolchain: None,
        multirust_toolchain: None,
        rust_sysroot: None,
    }
}

#[test]
fn sysroot_from_the_build_environment() {
    let mut e = env();
    e.rustup_home = Some("/home/u/.rustup".to_string());
    e.multirust_toolchain = Some("nightly".to_string());
    assert_eq!(compile_time_sysroot(&e), Some("/home/u/.rustup/toolchains/nightly".to_string()));
    let mut e = env();
    e.rust_sysroot = Some("/opt/rust".to_string());
    assert_eq!(compile_time_sysroot(&e), Some("/opt/rust".to_string()));
    let mut e = env();
    e.rustc_stage = Some("2".to_string());
    assert_eq!(compile_time_sysroot(&e), None);
}

#[test]
fn defaults_and_paths() {
    assert_eq!(rlc_default_args(), strings(&["-Zalways-encode-mir", "-Zmir-opt-level=0", "--cfg=rlc"]));
    assert_eq!(RLC_ROOT, "/tmp/rlc");
    assert_eq!(RLC_LLVM_CACHE, "/tmp/rlc/rlc-llvm-cache");
    assert_eq!(RLC_LLVM_IR, "/tmp/rlc/rlc-llvm-ir");
    assert_eq!(run_analyzer("Type Collector", || 41 + 1), 42);
}
