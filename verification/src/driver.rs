//! The command line of the `rlc` compiler driver: the grain flags it reads,
//! and the rustc arguments it passes on.
use vstd::prelude::*;
use vstd::string::StringExecFns;

use crate::grain::{grain_text, RlcGrain};
use crate::log::Verbosity;
use crate::text::str_eq;
use crate::{default_args_spec, rlc_default_args, RlcConfig};

verus! {

/// The callbacks handed to rustc: they carry the configuration of the run.
#[derive(Copy, Clone)]
pub struct RlcCompilerCalls {
    pub rlc_config: RlcConfig,
}

impl Default for RlcCompilerCalls {
    fn default() -> (r: Self)
        ensures
            r.rlc_config.grain_spec() == RlcGrain::Low,
            r.rlc_config.verbose_spec() == Verbosity::Info,
    {
        Self { rlc_config: RlcConfig::default() }
    }
}

impl RlcCompilerCalls {
    pub fn new(rlc_config: RlcConfig) -> (r: Self)
        ensures
            r.rlc_config == rlc_config,
    {
        Self { rlc_config }
    }

    /// The text the callbacks are shown as: the grain of their configuration.
    pub fn to_display_string(&self) -> (r: String)
        ensures
            r@ == grain_text(self.rlc_config.grain_spec()),
    {
        self.rlc_config.grain().to_display_string()
    }
}

/// The arguments of a run of the driver: the callbacks and the arguments
/// passed on to rustc.
pub struct RlcArgs {
    pub rlc_cc: RlcCompilerCalls,
    pub args: Vec<String>,
}

impl Default for RlcArgs {
    fn default() -> (r: Self)
        ensures
            r.rlc_cc.rlc_config.grain_spec() == RlcGrain::Low,
            r.rlc_cc.rlc_config.verbose_spec() == Verbosity::Info,
            r.args@.len() == 0,
    {
        Self { rlc_cc: RlcCompilerCalls::default(), args: Vec::new() }
    }
}

impl RlcArgs {
    /// Sets the grain to `Low`.
    pub fn set_config_low(&mut self)
        ensures
            final(self).rlc_cc.rlc_config.grain_spec() == RlcGrain::Low,
            final(self).rlc_cc.rlc_config.verbose_spec() == old(self).rlc_cc.rlc_config.verbose_spec(),
            final(self).args@ == old(self).args@,
    {
        self.rlc_cc.rlc_config.set_grain(RlcGrain::Low);
    }

    /// Sets the grain to `Medium`.
    pub fn set_config_medium(&mut self)
        ensures
            final(self).rlc_cc.rlc_config.grain_spec() == RlcGrain::Medium,
            final(self).rlc_cc.rlc_config.verbose_spec() == old(self).rlc_cc.rlc_config.verbose_spec(),
            final(self).args@ == old(self).args@,
    {
        self.rlc_cc.rlc_config.set_grain(RlcGrain::Medium);
    }

    /// Sets the grain to `High`.
    pub fn set_config_high(&mut self)
        ensures
            final(self).rlc_cc.rlc_config.grain_spec() == RlcGrain::High,
            final(self).rlc_cc.rlc_config.verbose_spec() == old(self).rlc_cc.rlc_config.verbose_spec(),
            final(self).args@ == old(self).args@,
    {
        self.rlc_cc.rlc_config.set_grain(RlcGrain::High);
    }

    /// Sets the grain to `Ultra`.
    pub fn set_config_ultra(&mut self)
        ensures
            final(self).rlc_cc.rlc_config.grain_spec() == RlcGrain::Ultra,
            final(self).rlc_cc.rlc_config.verbose_spec() == old(self).rlc_cc.rlc_config.verbose_spec(),
            final(self).args@ == old(self).args@,
    {
        self.rlc_cc.rlc_config.set_grain(RlcGrain::Ultra);
    }

    /// Appends `arg` to the arguments.
    pub fn push_args(&mut self, arg: String)
        ensures
            final(self).args@ == old(self).args@.push(arg),
            final(self).rlc_cc == old(self).rlc_cc,
    {
        self.args.push(arg);
    }

    /// Inserts the default arguments right after the first one (the name of
    /// the binary).
    pub fn splice_args(&mut self)
        requires
            old(self).args@.len() >= 1,
        ensures
            final(self).args.deep_view() == seq![old(self).args.deep_view()[0]] + default_args_spec()
                + old(self).args.deep_view().skip(1),
            final(self).rlc_cc == old(self).rlc_cc,
    {
        let defaults = rlc_default_args();
        let ghost old_args = self.args.deep_view();
        let mut out: Vec<String> = Vec::new();
        out.push(self.args[0].clone());
        assert(out.deep_view() =~= seq![old_args[0]] + defaults.deep_view().take(0));
        let mut i: usize = 0;
        while i < defaults.len()
            invariant
                i <= defaults@.len(),
                old_args.len() >= 1,
                defaults.deep_view() == default_args_spec(),
                out.deep_view() == seq![old_args[0]] + defaults.deep_view().take(i as int),
            decreases defaults@.len() - i,
        {
            let ghost prev = out.deep_view();
            out.push(defaults[i].clone());
            assert(out.deep_view() =~= prev.push(defaults.deep_view()[i as int]));
            i = i + 1;
            assert(out.deep_view() =~= seq![old_args[0]] + defaults.deep_view().take(i as int));
        }
        let mut j: usize = 1;
        while j < self.args.len()
            invariant
                1 <= j <= self.args@.len(),
                self.args.deep_view() == old_args,
                out.deep_view() == seq![old_args[0]] + default_args_spec() + old_args.subrange(1, j as int),
            decreases self.args@.len() - j,
        {
            let ghost prev = out.deep_view();
            out.push(self.args[j].clone());
            assert(out.deep_view() =~= prev.push(old_args[j as int]));
            j = j + 1;
            assert(out.deep_view() =~= seq![old_args[0]] + default_args_spec() + old_args.subrange(1, j as int));
        }
        assert(old_args.subrange(1, old_args.len() as int) =~= old_args.skip(1));
        self.args = out;
    }

    /// Adds `--sysroot` and `sysroot` at the end unless the arguments
    /// already name a sysroot, then inserts the default arguments after the
    /// name of the binary.
    pub fn finish_args(&mut self, sysroot: Option<String>)
        requires
            old(self).args@.len() >= 1 || sysroot is Some,
        ensures
            final(self).rlc_cc == old(self).rlc_cc,
            final(self).args.deep_view() == seq![with_sysroot(old(self).args.deep_view(), sysroot)[0]]
                + default_args_spec() + with_sysroot(old(self).args.deep_view(), sysroot).skip(1),
    {
        let ghost ws = with_sysroot(self.args.deep_view(), sysroot);
        match sysroot {
            Some(s) => {
                if !self.has_arg("--sysroot") {
                    let ghost a0 = self.args.deep_view();
                    self.push_args(String::from_str("--sysroot"));
                    self.push_args(s);
                    assert(self.args.deep_view() =~= a0.push("--sysroot"@).push(s@));
                }
            },
            None => {},
        }
        assert(self.args.deep_view() == ws);
        self.splice_args();
    }

    /// Whether `name` is one of the arguments.
    pub fn has_arg(&self, name: &str) -> (r: bool)
        ensures
            r == self.args.deep_view().contains(name@),
    {
        let mut i: usize = 0;
        while i < self.args.len()
            invariant
                i <= self.args@.len(),
                forall|j: int| 0 <= j < i ==> self.args.deep_view()[j] != name@,
            decreases self.args@.len() - i,
        {
            if str_eq(self.args[i].as_str(), name) {
                assert(self.args.deep_view()[i as int] == name@);
                return true;
            }
            i = i + 1;
        }
        false
    }
}

/// The arguments `args` with `--sysroot` and the sysroot appended, when one
/// is given and `--sysroot` is not among them already.
pub open spec fn with_sysroot(args: Seq<Seq<char>>, sysroot: Option<String>) -> Seq<Seq<char>> {
    match sysroot {
        Some(s) => if args.contains("--sysroot"@) {
            args
        } else {
            args.push("--sysroot"@).push(s@)
        },
        None => args,
    }
}

/// The grain that an argument sets, if it is a grain flag.
pub open spec fn grain_flag(arg: Seq<char>) -> Option<RlcGrain> {
    if arg == "-rlc-grain-low"@ {
        Some(RlcGrain::Low)
    } else if arg == "-rlc-grain-medium"@ {
        Some(RlcGrain::Medium)
    } else if arg == "-rlc-grain-high"@ {
        Some(RlcGrain::High)
    } else if arg == "-rlc-grain-ultra"@ {
        Some(RlcGrain::Ultra)
    } else {
        None
    }
}

/// The word that names a grain on the command line.
pub open spec fn grain_word(g: RlcGrain) -> Seq<char> {
    match g {
        RlcGrain::Low => "low"@,
        RlcGrain::Medium => "medium"@,
        RlcGrain::High => "high"@,
        RlcGrain::Ultra => "ultra"@,
    }
}

/// An argument sets a grain exactly when it is `-rlc-grain-` followed by the
/// word of that grain; so the four flags set four distinct grains, and
/// every grain has its flag.
pub proof fn lemma_grain_flags(arg: Seq<char>, g: RlcGrain)
    ensures
        grain_flag(arg) == Some(g) <==> arg == "-rlc-grain-"@ + grain_word(g),
{
    reveal_strlit("-rlc-grain-");
    reveal_strlit("-rlc-grain-low");
    reveal_strlit("-rlc-grain-medium");
    reveal_strlit("-rlc-grain-high");
    reveal_strlit("-rlc-grain-ultra");
    reveal_strlit("low");
    reveal_strlit("medium");
    reveal_strlit("high");
    reveal_strlit("ultra");
    let low = "-rlc-grain-low"@;
    let medium = "-rlc-grain-medium"@;
    let high = "-rlc-grain-high"@;
    let ultra = "-rlc-grain-ultra"@;
    assert("-rlc-grain-"@ + "low"@ =~= low);
    assert("-rlc-grain-"@ + "medium"@ =~= medium);
    assert("-rlc-grain-"@ + "high"@ =~= high);
    assert("-rlc-grain-"@ + "ultra"@ =~= ultra);
    assert(low.len() != medium.len() && low.len() != high.len() && low.len() != ultra.len());
    assert(medium.len() != high.len() && high.len() != ultra.len());
    assert(medium[11] != ultra[11]);
}

/// The grain after reading a command line is the grain of its last grain
/// flag.
pub proof fn lemma_last_grain_flag(args: Seq<Seq<char>>, g: RlcGrain, k: int, h: RlcGrain)
    requires
        0 <= k < args.len(),
        args[k] == "-rlc-grain-"@ + grain_word(h),
        forall|j: int| k < j < args.len() ==> grain_flag(#[trigger] args[j]) is None,
    ensures
        last_grain(args, g) == h,
    decreases args.len(),
{
    lemma_grain_flags(args[k], h);
    if k < args.len() - 1 {
        assert(grain_flag(args.last()) is None);
        let init = args.drop_last();
        assert forall|j: int| k < j < init.len() implies grain_flag(#[trigger] init[j]) is None by {
            assert(init[j] == args[j]);
        }
        lemma_last_grain_flag(init, g, k, h);
    }
}

/// The grain set by the last grain flag of `args`, or `g` when there is none.
pub open spec fn last_grain(args: Seq<Seq<char>>, g: RlcGrain) -> RlcGrain
    decreases args.len(),
{
    if args.len() == 0 {
        g
    } else {
        match grain_flag(args.last()) {
            Some(h) => h,
            None => last_grain(args.drop_last(), g),
        }
    }
}

/// The arguments of `args` that are not grain flags, in order.
pub open spec fn non_grain_args(args: Seq<Seq<char>>) -> Seq<Seq<char>> {
    args.filter(|a: Seq<char>| grain_flag(a) is None)
}

fn grain_flag_exec(arg: &str) -> (r: Option<RlcGrain>)
    ensures
        r == grain_flag(arg@),
{
    if str_eq(arg, "-rlc-grain-low") {
        Some(RlcGrain::Low)
    } else if str_eq(arg, "-rlc-grain-medium") {
        Some(RlcGrain::Medium)
    } else if str_eq(arg, "-rlc-grain-high") {
        Some(RlcGrain::High)
    } else if str_eq(arg, "-rlc-grain-ultra") {
        Some(RlcGrain::Ultra)
    } else {
        None
    }
}

/// Reads the command line `args`: each grain flag sets the grain, and every
/// other argument is kept, in order, for rustc.
pub fn config_parse(args: &Vec<String>) -> (r: RlcArgs)
    ensures
        r.rlc_cc.rlc_config.grain_spec() == last_grain(args.deep_view(), RlcGrain::Low),
        r.rlc_cc.rlc_config.verbose_spec() == Verbosity::Info,
        r.args.deep_view() == non_grain_args(args.deep_view()),
{
    let mut rlc_args = RlcArgs::default();
    let ghost a = args.deep_view();
    let mut i: usize = 0;
    while i < args.len()
        invariant
            i <= args@.len(),
            a == args.deep_view(),
            rlc_args.rlc_cc.rlc_config.grain_spec() == last_grain(a.take(i as int), RlcGrain::Low),
            rlc_args.rlc_cc.rlc_config.verbose_spec() == Verbosity::Info,
            rlc_args.args.deep_view() == non_grain_args(a.take(i as int)),
        decreases args@.len() - i,
    {
        let ghost before = a.take(i as int);
        assert(a.take(i + 1) =~= before.push(a[i as int]));
        assert(a.take(i + 1).drop_last() =~= before);
        proof {
            before.lemma_filter_push(a[i as int], |x: Seq<char>| grain_flag(x) is None);
        }
        match grain_flag_exec(args[i].as_str()) {
            Some(RlcGrain::Low) => rlc_args.set_config_low(),
            Some(RlcGrain::Medium) => rlc_args.set_config_medium(),
            Some(RlcGrain::High) => rlc_args.set_config_high(),
            Some(RlcGrain::Ultra) => rlc_args.set_config_ultra(),
            None => {
                let ghost prev = rlc_args.args.deep_view();
                rlc_args.push_args(args[i].clone());
                assert(rlc_args.args.deep_view() =~= prev.push(a[i as int]));
            },
        }
        i = i + 1;
    }
    assert(a.take(args@.len() as int) =~= a);
    rlc_args
}


/// The text that `{:?}` gives for a list of strings: std's `Debug` of a
/// `Vec<String>`.
pub uninterp spec fn debug_list_text(args: Seq<Seq<char>>) -> Seq<char>;

/// Formats `args` with `{:?}`, std's `Debug` of a `Vec<String>`; the text
/// is the named function of the strings.
#[verifier::external_body]
fn debug_list(args: &Vec<String>) -> (r: String)
    ensures
        r@ == debug_list_text(args.deep_view()),
{
    format!("{:?}", args)
}

impl RlcArgs {
    /// The text the arguments are shown as: the grain, then the arguments.
    pub fn to_display_string(&self) -> (r: String)
        ensures
            r@ == grain_text(self.rlc_cc.rlc_config.grain_spec()) + " Whole Args: "@ + debug_list_text(
                self.args.deep_view(),
            ),
    {
        let mut s = self.rlc_cc.to_display_string();
        s.append(" Whole Args: ");
        let d = debug_list(&self.args);
        s.append(d.as_str());
        s
    }
}


/// The sysroot is added at most once: adding it to arguments that already
/// got it changes nothing.
pub proof fn lemma_sysroot_once(args: Seq<Seq<char>>, sysroot: Option<String>)
    ensures
        with_sysroot(with_sysroot(args, sysroot), sysroot) == with_sysroot(args, sysroot),
{
    match sysroot {
        Some(s) => if !args.contains("--sysroot"@) {
            let a2 = args.push("--sysroot"@).push(s@);
            assert(a2[args.len() as int] == "--sysroot"@);
        },
        None => {},
    }
}

} // verus!
