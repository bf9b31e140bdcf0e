//! Core of the Rust leakage checker: the heap-ownership analysis of ADT types,
//! the command-line logic of the `rlc`/`cargo-rlc` drivers, and the textual
//! rendering of MIR, all over plain values.
pub mod analysis;
pub mod cargo_rlc;
pub mod display;
pub mod driver;
pub mod grain;
pub mod log;
pub mod text;
pub mod ty;
pub mod type_discernment;

use vstd::prelude::*;
use vstd::string::StringExecFns;

use crate::grain::RlcGrain;
use crate::log::Verbosity;

verus! {

/// The root directory of the checker's files.
pub const RLC_ROOT: &'static str = "/tmp/rlc";

/// Where cargo builds the crates whose LLVM IR is emitted.
pub const RLC_LLVM_CACHE: &'static str = "/tmp/rlc/rlc-llvm-cache";

/// Where the emitted LLVM IR files are gathered.
pub const RLC_LLVM_IR: &'static str = "/tmp/rlc/rlc-llvm-ir";

/// The rustc arguments that the checker always sets, for maximal validation
/// power.
pub open spec fn default_args_spec() -> Seq<Seq<char>> {
    seq!["-Zalways-encode-mir"@, "-Zmir-opt-level=0"@, "--cfg=rlc"@]
}

/// The rustc arguments that the checker always sets.
pub fn rlc_default_args() -> (r: Vec<String>)
    ensures
        r.deep_view() == default_args_spec(),
{
    let mut r: Vec<String> = Vec::new();
    r.push(String::from_str("-Zalways-encode-mir"));
    r.push(String::from_str("-Zmir-opt-level=0"));
    r.push(String::from_str("--cfg=rlc"));
    assert(r.deep_view() =~= default_args_spec());
    r
}

/// The configuration of a run: its grain and its verbosity.
#[derive(Debug, Copy, Clone, Hash)]
pub struct RlcConfig {
    grain: RlcGrain,
    verbose: Verbosity,
}

impl Default for RlcConfig {
    fn default() -> (r: Self)
        ensures
            r.grain_spec() == RlcGrain::Low,
            r.verbose_spec() == Verbosity::Info,
    {
        Self { grain: RlcGrain::Low, verbose: Verbosity::Info }
    }
}

impl RlcConfig {
    /// The grain of the configuration.
    pub closed spec fn grain_spec(&self) -> RlcGrain {
        self.grain
    }

    /// The verbosity of the configuration.
    pub closed spec fn verbose_spec(&self) -> Verbosity {
        self.verbose
    }

    pub fn new(grain: RlcGrain, verbose: Verbosity) -> (r: Self)
        ensures
            r.grain_spec() == grain,
            r.verbose_spec() == verbose,
    {
        Self { grain, verbose }
    }

    pub fn grain(&self) -> (r: RlcGrain)
        ensures
            r == self.grain_spec(),
    {
        self.grain
    }

    pub fn set_grain(&mut self, grain: RlcGrain)
        ensures
            final(self).grain_spec() == grain,
            final(self).verbose_spec() == old(self).verbose_spec(),
    {
        self.grain = grain;
    }

    pub fn verbose(&self) -> (r: Verbosity)
        ensures
            r == self.verbose_spec(),
    {
        self.verbose
    }

    pub fn set_verbose(&mut self, verbose: Verbosity)
        ensures
            final(self).verbose_spec() == verbose,
            final(self).grain_spec() == old(self).grain_spec(),
    {
        self.verbose = verbose;
    }
}

/// The phases of a run of the checker, in the order they run.
#[derive(Debug, Copy, Clone, Hash, Eq, PartialEq, PartialOrd, Ord, Structural)]
pub enum RlcPhase {
    PreProcess,
    LLVM,
    Cargo,
    Rustc,
}

/// The build-time environment that decides the default sysroot: each field
/// is the value of the variable of that name when the checker was built.
pub struct BuildEnv {
    pub rustc_stage: Option<String>,
    pub rustup_home: Option<String>,
    pub multirust_home: Option<String>,
    pub rustup_toolchain: Option<String>,
    pub multirust_toolchain: Option<String>,
    pub rust_sysroot: Option<String>,
}

/// The first of `a` and `b` that is set.
pub open spec fn first_set(a: Option<String>, b: Option<String>) -> Option<String> {
    if a is Some {
        a
    } else {
        b
    }
}

/// A sysroot can be found: the checker is built as part of rustc, or under
/// rustup, or with `RUST_SYSROOT` set.
pub open spec fn sysroot_known(env: BuildEnv) -> bool {
    env.rustc_stage is Some || (first_set(env.rustup_home, env.multirust_home) is Some && first_set(
        env.rustup_toolchain,
        env.multirust_toolchain,
    ) is Some) || env.rust_sysroot is Some
}

/// The default sysroot for the build environment `env`.
pub open spec fn sysroot_of(env: BuildEnv) -> Option<Seq<char>> {
    if env.rustc_stage is Some {
        None
    } else {
        let home = first_set(env.rustup_home, env.multirust_home);
        let toolchain = first_set(env.rustup_toolchain, env.multirust_toolchain);
        if home is Some && toolchain is Some {
            Some(home.unwrap()@ + "/toolchains/"@ + toolchain.unwrap()@)
        } else {
            Some(env.rust_sysroot.unwrap()@)
        }
    }
}

fn first_set_exec(a: &Option<String>, b: &Option<String>) -> (r: Option<String>)
    ensures
        r == first_set(*a, *b),
{
    match a {
        Some(s) => Some(s.clone()),
        None => match b {
            Some(s) => Some(s.clone()),
            None => None,
        },
    }
}

/// Returns the sysroot that the checker uses when no `--sysroot` flag is
/// set: none when built as part of rustc, the rustup toolchain directory
/// when built under rustup, and `RUST_SYSROOT` otherwise.
pub fn compile_time_sysroot(env: &BuildEnv) -> (r: Option<String>)
    requires
        sysroot_known(*env),
    ensures
        match r {
            Some(s) => sysroot_of(*env) == Some(s@),
            None => sysroot_of(*env) is None,
        },
{
    if env.rustc_stage.is_some() {
        return None;
    }
    let home = first_set_exec(&env.rustup_home, &env.multirust_home);
    let toolchain = first_set_exec(&env.rustup_toolchain, &env.multirust_toolchain);
    match (home, toolchain) {
        (Some(h), Some(t)) => {
            let mut s = h.clone();
            s.append("/toolchains/");
            s.append(t.as_str());
            Some(s)
        },
        _ => match &env.rust_sysroot {
            Some(s) => Some(s.clone()),
            None => None,
        },
    }
}

/// Runs the analyzer `func` and returns what it returns.
pub fn run_analyzer<F: FnOnce() -> R, R>(name: &str, func: F) -> (r: R)
    requires
        func.requires(()),
    ensures
        func.ensures((), r),
{
    func()
}

} // verus!
