//! Build rules for the WASM part of the IDE: profiles, their option sets,
//! the compressed-size check, and the plans for the check, test and
//! finalisation commands that the build runner executes.

use vstd::prelude::*;
use vstd::string::{StrSliceExecFns, StringExecFns};

verus! {

broadcast use vstd::string::group_string_axioms;

/// The binaryen release the build installs when none is present.
pub const BINARYEN_VERSION_TO_INSTALL: u32 = 108;

/// Default timeout for the integration-test WASM suite, in seconds.
pub const DEFAULT_INTEGRATION_TESTS_WASM_TIMEOUT_SECS: u64 = 300;

/// The crate that holds the integration tests.
pub const INTEGRATION_TESTS_CRATE_NAME: &'static str = "enso-integration-test";

/// Base name of the emitted WASM bundle.
pub const OUTPUT_NAME: &'static str = "ide";

/// Name of the artifact uploaded from a build run.
pub const WASM_ARTIFACT_NAME: &'static str = "gui_wasm";

/// The crate compiled to WASM when none is named.
pub const DEFAULT_TARGET_CRATE: &'static str = "app/gui";

/// How much profiling instrumentation is compiled in.
#[derive(Clone, Copy, Debug, PartialEq, Eq, Structural)]
pub enum ProfilingLevel {
    /// Top-level objectives only.
    Objective,
    /// Objectives and tasks.
    Task,
    /// Tasks and their details.
    Detail,
    /// Everything, including debug-level spans.
    Debug,
}

impl Default for ProfilingLevel {
    /// The default level compiles in objectives only.
    fn default() -> (r: Self)
        ensures
            r == ProfilingLevel::Objective,
    {
        ProfilingLevel::Objective
    }
}

/// The kebab-case name of a profiling level.
pub open spec fn profiling_level_name(p: ProfilingLevel) -> Seq<char> {
    match p {
        ProfilingLevel::Objective => "objective"@,
        ProfilingLevel::Task => "task"@,
        ProfilingLevel::Detail => "detail"@,
        ProfilingLevel::Debug => "debug"@,
    }
}

impl ProfilingLevel {
    /// The kebab-case name, as the command line spells it.
    pub fn name(&self) -> (r: &'static str)
        ensures
            r@ == profiling_level_name(*self),
    {
        match self {
            ProfilingLevel::Objective => "objective",
            ProfilingLevel::Task => "task",
            ProfilingLevel::Detail => "detail",
            ProfilingLevel::Debug => "debug",
        }
    }
}

/// How verbose the compiled-in logging is.
#[derive(Clone, Copy, Debug, PartialEq, Eq, Structural)]
pub enum LogLevel {
    /// Errors only.
    Error,
    /// Errors and warnings.
    Warn,
    /// Informational messages.
    Info,
    /// Debug messages.
    Debug,
    /// Everything.
    Trace,
}

impl Default for LogLevel {
    /// The default level keeps warnings and errors.
    fn default() -> (r: Self)
        ensures
            r == LogLevel::Warn,
    {
        LogLevel::Warn
    }
}

/// The kebab-case name of a log level.
pub open spec fn log_level_name(l: LogLevel) -> Seq<char> {
    match l {
        LogLevel::Error => "error"@,
        LogLevel::Warn => "warn"@,
        LogLevel::Info => "info"@,
        LogLevel::Debug => "debug"@,
        LogLevel::Trace => "trace"@,
    }
}

impl LogLevel {
    /// The kebab-case name, as the command line spells it.
    pub fn name(&self) -> (r: &'static str)
        ensures
            r@ == log_level_name(*self),
    {
        match self {
            LogLevel::Error => "error",
            LogLevel::Warn => "warn",
            LogLevel::Info => "info",
            LogLevel::Debug => "debug",
            LogLevel::Trace => "trace",
        }
    }
}

/// The build profile of the WASM artifact.
#[derive(Clone, Copy, Debug, PartialEq, Eq, Structural)]
pub enum Profile {
    /// Fast unoptimised development build.
    Dev,
    /// Optimised build with profiling instrumentation.
    Profile,
    /// Fully optimised release build.
    Release,
}

/// The kebab-case name of a profile.
pub open spec fn profile_name(p: Profile) -> Seq<char> {
    match p {
        Profile::Dev => "dev"@,
        Profile::Profile => "profile"@,
        Profile::Release => "release"@,
    }
}

/// The profile handed to the WASM packager.
#[derive(Clone, Copy, Debug, PartialEq, Eq, Structural)]
pub enum WasmPackProfile {
    /// Unoptimised, with debug assertions.
    Dev,
    /// Optimised, with profiling support.
    Profile,
    /// Fully optimised.
    Release,
}

impl From<Profile> for WasmPackProfile {
    /// Each build profile maps to the packager profile of the same name.
    fn from(profile: Profile) -> (r: Self) {
        match profile {
            Profile::Dev => WasmPackProfile::Dev,
            Profile::Profile => WasmPackProfile::Profile,
            Profile::Release => WasmPackProfile::Release,
        }
    }
}

impl vstd::std_specs::convert::FromSpecImpl<Profile> for WasmPackProfile {
    open spec fn obeys_from_spec() -> bool {
        true
    }

    open spec fn from_spec(profile: Profile) -> Self {
        match profile {
            Profile::Dev => WasmPackProfile::Dev,
            Profile::Profile => WasmPackProfile::Profile,
            Profile::Release => WasmPackProfile::Release,
        }
    }
}

/// An optimisation level accepted by the WASM optimiser.
#[derive(Clone, Copy, Debug, PartialEq, Eq, Structural)]
pub enum OptimizationLevel {
    /// No optimisation.
    O0,
    /// Light optimisation.
    O1,
    /// Standard optimisation.
    O2,
    /// Heavy optimisation.
    O3,
    /// Heaviest optimisation.
    O4,
    /// The optimiser's default level.
    O,
    /// Optimise for size.
    Os,
    /// Optimise aggressively for size.
    Oz,
}

/// The command-line flag of an optimisation level.
pub open spec fn opt_level_flag(l: OptimizationLevel) -> Seq<char> {
    match l {
        OptimizationLevel::O0 => "-O0"@,
        OptimizationLevel::O1 => "-O1"@,
        OptimizationLevel::O2 => "-O2"@,
        OptimizationLevel::O3 => "-O3"@,
        OptimizationLevel::O4 => "-O4"@,
        OptimizationLevel::O => "-O"@,
        OptimizationLevel::Os => "-Os"@,
        OptimizationLevel::Oz => "-Oz"@,
    }
}

/// Which optimisation level a token such as `O3` or `Os` names, if any.
pub open spec fn opt_level_of(s: Seq<char>) -> Option<OptimizationLevel> {
    if s.len() == 1 && s[0] == 'O' {
        Some(OptimizationLevel::O)
    } else if s.len() == 2 && s[0] == 'O' {
        if s[1] == '0' {
            Some(OptimizationLevel::O0)
        } else if s[1] == '1' {
            Some(OptimizationLevel::O1)
        } else if s[1] == '2' {
            Some(OptimizationLevel::O2)
        } else if s[1] == '3' {
            Some(OptimizationLevel::O3)
        } else if s[1] == '4' {
            Some(OptimizationLevel::O4)
        } else if s[1] == 's' {
            Some(OptimizationLevel::Os)
        } else if s[1] == 'z' {
            Some(OptimizationLevel::Oz)
        } else {
            None
        }
    } else {
        None
    }
}

impl OptimizationLevel {
    /// The command-line flag, as the optimiser spells it.
    pub fn flag(&self) -> (r: &'static str)
        ensures
            r@ == opt_level_flag(*self),
    {
        match self {
            OptimizationLevel::O0 => "-O0",
            OptimizationLevel::O1 => "-O1",
            OptimizationLevel::O2 => "-O2",
            OptimizationLevel::O3 => "-O3",
            OptimizationLevel::O4 => "-O4",
            OptimizationLevel::O => "-O",
            OptimizationLevel::Os => "-Os",
            OptimizationLevel::Oz => "-Oz",
        }
    }

    /// Parse a token such as `O3` or `Os`.
    pub fn from_name(s: &str) -> (r: Option<OptimizationLevel>)
        ensures
            r == opt_level_of(s@),
    {
        let n = s.unicode_len();
        if n == 1 {
            if s.get_char(0) == 'O' {
                Some(OptimizationLevel::O)
            } else {
                None
            }
        } else if n == 2 {
            if s.get_char(0) != 'O' {
                return None;
            }
            let c = s.get_char(1);
            if c == '0' {
                Some(OptimizationLevel::O0)
            } else if c == '1' {
                Some(OptimizationLevel::O1)
            } else if c == '2' {
                Some(OptimizationLevel::O2)
            } else if c == '3' {
                Some(OptimizationLevel::O3)
            } else if c == '4' {
                Some(OptimizationLevel::O4)
            } else if c == 's' {
                Some(OptimizationLevel::Os)
            } else if c == 'z' {
                Some(OptimizationLevel::Oz)
            } else {
                None
            }
        } else {
            None
        }
    }
}

/// Whether a profile's artifact is held to the compressed-size limit.
pub open spec fn should_check_size_spec(p: Profile) -> bool {
    p == Profile::Release
}

/// The optimiser level a profile asks for.
pub open spec fn optimization_level_spec(p: Profile) -> OptimizationLevel {
    match p {
        Profile::Dev => OptimizationLevel::O0,
        Profile::Profile => OptimizationLevel::O,
        Profile::Release => OptimizationLevel::O3,
    }
}

impl Profile {
    /// The kebab-case name, as the command line spells it.
    pub fn name(&self) -> (r: &'static str)
        ensures
            r@ == profile_name(*self),
    {
        match self {
            Profile::Dev => "dev",
            Profile::Profile => "profile",
            Profile::Release => "release",
        }
    }

    /// Only release artifacts are held to the size limit.
    pub fn should_check_size(self) -> (r: bool)
        ensures
            r == should_check_size_spec(self),
    {
        match self {
            Profile::Dev => false,
            Profile::Profile => false,
            Profile::Release => true,
        }
    }

    /// Extra compiler options a profile adds; none today for any profile.
    pub fn extra_rust_options(self) -> (r: Vec<String>)
        ensures
            r@.len() == 0,
    {
        Vec::new()
    }

    /// The optimiser level the profile asks for.
    pub fn optimization_level(self) -> (r: OptimizationLevel)
        ensures
            r == optimization_level_spec(self),
    {
        match self {
            Profile::Dev => OptimizationLevel::O0,
            Profile::Profile => OptimizationLevel::O,
            Profile::Release => OptimizationLevel::O3,
        }
    }
}

// =======================
// === Size checking ===
// =======================

/// The rendering of a byte count in the most fitting binary unit, as the
/// formatting library produces it.
pub uninterp spec fn appropriate_unit_of(bytes: u64) -> Seq<char>;

/// Relies on `byte_unit::Byte::get_appropriate_unit` with binary multiples
/// and the display of the adjusted value: the rendering depends on the byte
/// count alone.
#[verifier::external_body]
fn appropriate_unit(bytes: u64) -> (r: String)
    ensures
        r@ == appropriate_unit_of(bytes),
{
    let adjusted = byte_unit::Byte::from_bytes(bytes as u128).get_appropriate_unit(true);
    format!("{}", adjusted)
}

/// The size report logged before the size check is decided.
pub fn size_report(bytes: u64) -> (r: String)
    ensures
        r@ == "compressed size is "@ + appropriate_unit_of(bytes),
{
    let mut s = String::from_str("compressed size is ");
    let unit = appropriate_unit(bytes);
    s.append(unit.as_str());
    s
}

/// What the compressed-size check concluded.
#[derive(Clone, Copy, Debug, PartialEq, Eq, Structural)]
pub enum SizeCheckOutcome {
    /// No size limit is configured; nothing to check.
    NoLimit,
    /// The profile opts out of the size check.
    SkippedProfile,
    /// Profiling instrumentation inflates the artifact; check skipped.
    SkippedProfiling,
    /// The artifact is within the limit.
    WithinLimit,
    /// The artifact exceeds the limit; the build fails.
    TooLarge,
}

/// The configured profiling level, or the default when none is set.
pub open spec fn profiling_or_default(p: Option<ProfilingLevel>) -> ProfilingLevel {
    match p {
        Some(l) => l,
        None => ProfilingLevel::Objective,
    }
}

/// The size-check rule: with no limit there is nothing to check; a profile
/// that opts out skips; a profiling level other than the default skips; else
/// the compressed size must be strictly below the limit.
pub open spec fn size_check_spec(
    compressed: u64,
    limit: Option<u64>,
    profile: Profile,
    profiling: Option<ProfilingLevel>,
) -> SizeCheckOutcome {
    match limit {
        None => SizeCheckOutcome::NoLimit,
        Some(l) => if !should_check_size_spec(profile) {
            SizeCheckOutcome::SkippedProfile
        } else if profiling_or_default(profiling) != ProfilingLevel::Objective {
            SizeCheckOutcome::SkippedProfiling
        } else if compressed < l {
            SizeCheckOutcome::WithinLimit
        } else {
            SizeCheckOutcome::TooLarge
        },
    }
}

/// Everything the WASM build step needs to know.
#[derive(Clone, Debug)]
pub struct BuildInput {
    /// Path of the crate compiled to WASM, relative to the repository root.
    pub crate_path: String,
    /// Extra options handed to the optimiser.
    pub wasm_opt_options: Vec<String>,
    /// Skip the optimiser altogether.
    pub skip_wasm_opt: bool,
    /// Extra options handed to the compiler.
    pub extra_cargo_options: Vec<String>,
    /// The build profile.
    pub profile: Profile,
    /// The profiling instrumentation level, if any was asked for.
    pub profiling_level: Option<ProfilingLevel>,
    /// The compiled-in log level.
    pub log_level: LogLevel,
    /// The compiled-in log level for uncollapsed logs.
    pub uncollapsed_log_level: LogLevel,
    /// The compressed-size limit in bytes, if one is configured.
    pub wasm_size_limit: Option<u64>,
    /// Use the system's shader tools instead of downloading them.
    pub system_shader_tools: bool,
}

impl BuildInput {
    /// Decide the compressed-size check for an artifact of the given
    /// compressed size, in bytes.
    pub fn perhaps_check_size(&self, compressed_size: u64) -> (r: SizeCheckOutcome)
        ensures
            r == size_check_spec(
                compressed_size,
                self.wasm_size_limit,
                self.profile,
                self.profiling_level,
            ),
    {
        match self.wasm_size_limit {
            None => SizeCheckOutcome::NoLimit,
            Some(limit) => {
                if !self.profile.should_check_size() {
                    SizeCheckOutcome::SkippedProfile
                } else {
                    let level = match self.profiling_level {
                        Some(l) => l,
                        None => ProfilingLevel::Objective,
                    };
                    if !matches!(level, ProfilingLevel::Objective) {
                        SizeCheckOutcome::SkippedProfiling
                    } else if compressed_size < limit {
                        SizeCheckOutcome::WithinLimit
                    } else {
                        SizeCheckOutcome::TooLarge
                    }
                }
            },
        }
    }
}

// ==========================
// === WASM finalisation ===
// ==========================

/// How many leading dashes a token starts with.
pub open spec fn leading_dashes(s: Seq<char>) -> int
    decreases s.len(),
{
    if s.len() == 0 || s[0] != '-' {
        0
    } else {
        1 + leading_dashes(s.drop_first())
    }
}

/// The leading dashes of a token are exactly its longest `-` prefix.
pub proof fn lemma_leading_dashes(s: Seq<char>)
    ensures
        0 <= leading_dashes(s) <= s.len(),
        forall|j: int| 0 <= j < leading_dashes(s) ==> s[j] == '-',
        leading_dashes(s) < s.len() ==> s[leading_dashes(s)] != '-',
    decreases s.len(),
{
    if s.len() == 0 || s[0] != '-' {
    } else {
        lemma_leading_dashes(s.drop_first());
        assert forall|j: int| 1 <= j < leading_dashes(s) implies s[j] == '-' by {
            assert(s.drop_first()[j - 1] == s[j]);
        }
    }
}

/// Strip the leading dashes of an option token.
pub fn trim_leading_dashes(s: &str) -> (r: &str)
    ensures
        r@ == s@.skip(leading_dashes(s@)),
{
    proof {
        lemma_leading_dashes(s@);
    }
    let n = s.unicode_len();
    let mut i: usize = 0;
    loop
        invariant
            i <= n,
            n == s@.len(),
            forall|j: int| 0 <= j < i ==> s@[j] == '-',
        ensures
            i as int == leading_dashes(s@),
        decreases n - i,
    {
        proof {
            lemma_leading_dashes(s@);
        }
        if i >= n {
            proof {
                if leading_dashes(s@) < i {
                    assert(s@[leading_dashes(s@)] == '-');
                }
            }
            break;
        }
        if s.get_char(i) != '-' {
            proof {
                if leading_dashes(s@) < i {
                    assert(s@[leading_dashes(s@)] == '-');
                }
                if leading_dashes(s@) > i {
                    assert(s@[i as int] == '-');
                }
            }
            break;
        }
        i = i + 1;
    }
    let r = s.substring_char(i, n);
    proof {
        assert(r@ =~= s@.skip(leading_dashes(s@)));
    }
    r
}

/// Whether any optimiser option names an optimisation level of its own, as in
/// `-O3` or `--Os`.
pub open spec fn has_custom_opt_level(opts: Seq<String>) -> bool {
    exists|i: int|
        0 <= i < opts.len() && opt_level_of(
            (#[trigger] opts[i])@.skip(leading_dashes(opts[i]@)),
        ) is Some
}

/// What the finalisation step does with the compiled WASM artifact.
#[derive(Clone, Copy, Debug, PartialEq, Eq, Structural)]
pub enum FinalizeAction {
    /// Run the optimiser; `level` is the profile's level, or nothing when
    /// the configured options already carry a level of their own.
    RunWasmOpt {
        /// The level flag to add, if any.
        level: Option<OptimizationLevel>,
    },
    /// Skip the optimiser and ship the compiled artifact unchanged.
    CopyFile,
}

/// The finalisation rule: development builds and explicit opt-outs skip the
/// optimiser; otherwise it runs, with the profile's level unless the options
/// already carry one.
pub open spec fn finalize_wasm_spec(
    wasm_opt_options: Seq<String>,
    skip_wasm_opt: bool,
    profile: Profile,
) -> FinalizeAction {
    if profile == Profile::Dev {
        FinalizeAction::CopyFile
    } else if skip_wasm_opt {
        FinalizeAction::CopyFile
    } else {
        FinalizeAction::RunWasmOpt {
            level: if has_custom_opt_level(wasm_opt_options) {
                None
            } else {
                Some(optimization_level_spec(profile))
            },
        }
    }
}

/// Marker for the WASM build target.
#[derive(Clone, Copy, Debug, PartialEq, Eq, Structural)]
pub struct Wasm;

impl Wasm {
    /// Decide how to finalise the compiled WASM: whether to run the
    /// optimiser, and with which level flag.
    pub fn finalize_wasm(
        wasm_opt_options: &Vec<String>,
        skip_wasm_opt: bool,
        profile: Profile,
    ) -> (r: FinalizeAction)
        ensures
            r == finalize_wasm_spec(wasm_opt_options@, skip_wasm_opt, profile),
    {
        if matches!(profile, Profile::Dev) {
            return FinalizeAction::CopyFile;
        }
        if skip_wasm_opt {
            return FinalizeAction::CopyFile;
        }
        let mut has_custom: bool = false;
        let mut i: usize = 0;
        while i < wasm_opt_options.len()
            invariant
                i <= wasm_opt_options@.len(),
                has_custom == exists|j: int|
                    0 <= j < i && opt_level_of(
                        (#[trigger] wasm_opt_options@[j])@.skip(
                            leading_dashes(wasm_opt_options@[j]@),
                        ),
                    ) is Some,
            decreases wasm_opt_options@.len() - i,
        {
            let trimmed = trim_leading_dashes(wasm_opt_options[i].as_str());
            if OptimizationLevel::from_name(trimmed).is_some() {
                has_custom = true;
            }
            i = i + 1;
        }
        if has_custom {
            FinalizeAction::RunWasmOpt { level: None }
        } else {
            FinalizeAction::RunWasmOpt { level: Some(profile.optimization_level()) }
        }
    }

    /// The compiler invocation that checks the whole workspace and the
    /// integration-test crate, all targets included.
    pub fn check_args() -> (r: Vec<String>)
        ensures
            r@.len() == 5,
            r@[0]@ == "check"@,
            r@[1]@ == "--workspace"@,
            r@[2]@ == "--package"@,
            r@[3]@ == INTEGRATION_TESTS_CRATE_NAME@,
            r@[4]@ == "--all-targets"@,
    {
        let mut args: Vec<String> = Vec::new();
        args.push(String::from_str("check"));
        args.push(String::from_str("--workspace"));
        args.push(String::from_str("--package"));
        args.push(String::from_str(INTEGRATION_TESTS_CRATE_NAME));
        args.push(String::from_str("--all-targets"));
        args
    }

    /// Which test suites a test run executes, in order: the native suite when
    /// asked for, then the WASM suite when at least one browser is named.
    pub fn test_plan(native: bool, wasm_browsers: usize) -> (r: (bool, bool))
        ensures
            r.0 == native,
            r.1 == (wasm_browsers > 0),
    {
        (native, wasm_browsers > 0)
    }

    /// The compiler invocation of the native test suite: the whole workspace,
    /// with colour forced on separately for the nested test binaries.
    pub fn native_test_args() -> (r: Vec<String>)
        ensures
            r@.len() == 4,
            r@[0]@ == "test"@,
            r@[1]@ == "--workspace"@,
            r@[2]@ == "--"@,
            r@[3]@ == "--color=always"@,
    {
        let mut args: Vec<String> = Vec::new();
        args.push(String::from_str("test"));
        args.push(String::from_str("--workspace"));
        args.push(String::from_str("--"));
        args.push(String::from_str("--color=always"));
        args
    }

    /// The arguments of the WASM integration-test invocation: the fixed
    /// test-profile arguments followed by the caller's extra options.
    pub fn integration_test_args(additional_options: Vec<String>) -> (r: Vec<String>)
        ensures
            r@.len() == 2 + additional_options@.len(),
            r@[0]@ == "integration-test"@,
            r@[1]@ == "--profile=integration-test"@,
            forall|i: int|
                0 <= i < additional_options@.len() ==> r@[2 + i] == additional_options@[i],
    {
        let mut args: Vec<String> = Vec::new();
        args.push(String::from_str("integration-test"));
        args.push(String::from_str("--profile=integration-test"));
        let mut rest = additional_options;
        let ghost rest0 = rest@;
        let mut i: usize = 0;
        while i < rest.len()
            invariant
                i <= rest0.len(),
                rest@ == rest0,
                args@.len() == 2 + i,
                args@[0]@ == "integration-test"@,
                args@[1]@ == "--profile=integration-test"@,
                forall|j: int| 0 <= j < i ==> args@[2 + j] == rest0[j],
            decreases rest0.len() - i,
        {
            let s = rest[i].clone();
            args.push(s);
            i = i + 1;
        }
        args
    }

}

/// What a watch run passes on to the file watcher.
#[derive(Clone, Debug)]
pub struct WatchInput {
    /// Options handed to the watcher.
    pub cargo_watch_options: Vec<String>,
}

/// The laid-out WASM distribution directory.
#[derive(Clone, Debug, PartialEq, Eq)]
pub struct Artifact {
    /// The distribution root.
    pub path: String,
    /// Directory of dynamically loaded assets.
    pub dynamic_assets: String,
    /// The generated loader script.
    pub pkg_js: String,
    /// The loader's source map.
    pub pkg_js_map: String,
    /// The compiled WASM, as the compiler wrote it.
    pub pkg_wasm: String,
    /// The optimised WASM that ships.
    pub pkg_opt_wasm: String,
}

impl Artifact {
    /// Lay out the distribution directory under the given root.
    pub fn new(path: String) -> (r: Artifact)
        ensures
            r.path@ == path@,
            r.dynamic_assets@ == path@ + "/dynamic-assets"@,
            r.pkg_js@ == path@ + "/pkg.js"@,
            r.pkg_js_map@ == path@ + "/pkg.js.map"@,
            r.pkg_wasm@ == path@ + "/pkg.wasm"@,
            r.pkg_opt_wasm@ == path@ + "/pkg-opt.wasm"@,
    {
        let dynamic_assets = path.clone().concat("/dynamic-assets");
        let pkg_js = path.clone().concat("/pkg.js");
        let pkg_js_map = path.clone().concat("/pkg.js.map");
        let pkg_wasm = path.clone().concat("/pkg.wasm");
        let pkg_opt_wasm = path.clone().concat("/pkg-opt.wasm");
        Artifact { path, dynamic_assets, pkg_js, pkg_js_map, pkg_wasm, pkg_opt_wasm }
    }

    /// The files that ship in the bundle: everything but the distribution
    /// root itself and the unoptimised WASM.
    pub fn files_to_ship(&self) -> (r: Vec<&str>)
        ensures
            r@.len() == 4,
            r@[0]@ == self.dynamic_assets@,
            r@[1]@ == self.pkg_js@,
            r@[2]@ == self.pkg_js_map@,
            r@[3]@ == self.pkg_opt_wasm@,
    {
        let mut files: Vec<&str> = Vec::new();
        files.push(self.dynamic_assets.as_str());
        files.push(self.pkg_js.as_str());
        files.push(self.pkg_js_map.as_str());
        files.push(self.pkg_opt_wasm.as_str());
        files
    }
}

} // verus!
