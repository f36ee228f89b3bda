use dataflow::{
    FinalizeAction, LogLevel, OptimizationLevel, Profile, ProfilingLevel, SizeCheckOutcome, Wasm,
    WasmArtifact, WasmPackProfile, size_report, trim_leading_dashes,
};

#[test]
fn profile_names_are_kebab_case() {
    assert_eq!(Profile::Dev.name(), "dev");
    assert_eq!(Profile::Profile.name(), "profile");
    assert_eq!(Profile::Release.name(), "release");
    assert_eq!(ProfilingLevel::Objective.name(), "objective");
    assert_eq!(ProfilingLevel::Task.name(), "task");
    assert_eq!(ProfilingLevel::Detail.name(), "detail");
    assert_eq!(ProfilingLevel::Debug.name(), "debug");
    assert_eq!(LogLevel::Error.name(), "error");
    assert_eq!(LogLevel::Warn.name(), "warn");
    assert_eq!(LogLevel::Trace.name(), "trace");
}

#[test]
fn defaults_match_the_build_defaults() {
    assert_eq!(ProfilingLevel::default(), ProfilingLevel::Objective);
    assert_eq!(LogLevel::default(), LogLevel::Warn);
}

#[test]
fn only_release_checks_the_size() {
    assert!(!Profile::Dev.should_check_size());
    assert!(!Profile::Profile.should_check_size());
    assert!(Profile::Release.should_check_size());
    assert!(Profile::Release.extra_rust_options().is_empty());
}

#[test]
fn profiles_map_to_wasm_pack_profiles() {
    assert_eq!(WasmPackProfile::from(Profile::Dev), WasmPackProfile::Dev);
    assert_eq!(WasmPackProfile::from(Profile::Profile), WasmPackProfile::Profile);
    assert_eq!(WasmPackProfile::from(Profile::Release), WasmPackProfile::Release);
}

#[test]
fn optimization_levels_by_profile() {
    assert_eq!(Profile::Dev.optimization_level(), OptimizationLevel::O0);
    assert_eq!(Profile::Profile.optimization_level(), OptimizationLevel::O);
    assert_eq!(Profile::Release.optimization_level(), OptimizationLevel::O3);
}

#[test]
fn optimization_level_tokens_parse() {
    assert_eq!(OptimizationLevel::from_name("O"), Some(OptimizationLevel::O));
    assert_eq!(OptimizationLevel::from_name("O0"), Some(OptimizationLevel::O0));
    assert_eq!(OptimizationLevel::from_name("O3"), Some(OptimizationLevel::O3));
    assert_eq!(OptimizationLevel::from_name("Os"), Some(OptimizationLevel::Os));
    assert_eq!(OptimizationLevel::from_name("Oz"), Some(OptimizationLevel::Oz));
    assert_eq!(OptimizationLevel::from_name("O9"), None);
    assert_eq!(OptimizationLevel::from_name("fast"), None);
    assert_eq!(OptimizationLevel::from_name(""), None);
}

#[test]
fn dashes_are_trimmed_before_parsing() {
    assert_eq!(trim_leading_dashes("-O3"), "O3");
    assert_eq!(trim_leading_dashes("--strip-debug"), "strip-debug");
    assert_eq!(trim_leading_dashes("plain"), "plain");
    assert_eq!(trim_leading_dashes("---"), "");
}

#[test]
fn finalize_skips_the_optimiser_for_dev_and_opt_outs() {
    let no_opts: Vec<String> = Vec::new();
    assert_eq!(
        Wasm::finalize_wasm(&no_opts, false, Profile::Dev),
        FinalizeAction::CopyFile
    );
    assert_eq!(
        Wasm::finalize_wasm(&no_opts, true, Profile::Release),
        FinalizeAction::CopyFile
    );
    assert_eq!(
        Wasm::finalize_wasm(&no_opts, false, Profile::Release),
        FinalizeAction::RunWasmOpt { level: Some(OptimizationLevel::O3) }
    );
}

#[test]
fn finalize_defers_to_a_custom_level_in_the_options() {
    let opts = vec!["--strip-debug".to_string(), "-O1".to_string()];
    assert_eq!(
        Wasm::finalize_wasm(&opts, false, Profile::Release),
        FinalizeAction::RunWasmOpt { level: None }
    );
    let opts = vec!["--strip-debug".to_string()];
    assert_eq!(
        Wasm::finalize_wasm(&opts, false, Profile::Profile),
        FinalizeAction::RunWasmOpt { level: Some(OptimizationLevel::O) }
    );
}

#[test]
fn size_check_covers_every_outcome() {
    let input = |limit: Option<u64>, profile: Profile, level: Option<ProfilingLevel>| {
        dataflow::BuildInput {
            crate_path: "app/gui".to_string(),
            wasm_opt_options: Vec::new(),
            skip_wasm_opt: false,
            extra_cargo_options: Vec::new(),
            profile,
            profiling_level: level,
            log_level: LogLevel::Warn,
            uncollapsed_log_level: LogLevel::Warn,
            wasm_size_limit: limit,
            system_shader_tools: false,
        }
    };
    assert_eq!(
        input(None, Profile::Release, None).perhaps_check_size(1000),
        SizeCheckOutcome::NoLimit
    );
    assert_eq!(
        input(Some(100), Profile::Dev, None).perhaps_check_size(1000),
        SizeCheckOutcome::SkippedProfile
    );
    assert_eq!(
        input(Some(100), Profile::Release, Some(ProfilingLevel::Task)).perhaps_check_size(1000),
        SizeCheckOutcome::SkippedProfiling
    );
    assert_eq!(
        input(Some(2000), Profile::Release, None).perhaps_check_size(1000),
        SizeCheckOutcome::WithinLimit
    );
    assert_eq!(
        input(Some(1000), Profile::Release, Some(ProfilingLevel::Objective))
            .perhaps_check_size(1000),
        SizeCheckOutcome::TooLarge
    );
}

#[test]
fn size_report_uses_the_fitting_binary_unit() {
    // Values cross-checked against the byte-rendering library's own rules:
    // counts up to one KiB print in bytes, larger ones with two decimals.
    assert_eq!(size_report(512), "compressed size is 512 B");
    assert_eq!(size_report(2048), "compressed size is 2.00 KiB");
}

#[test]
fn check_args_name_the_integration_test_crate() {
    let args = Wasm::check_args();
    assert_eq!(
        args,
        vec!["check", "--workspace", "--package", "enso-integration-test", "--all-targets"]
    );
}

#[test]
fn test_plan_runs_the_asked_for_suites() {
    assert_eq!(Wasm::test_plan(true, 0), (true, false));
    assert_eq!(Wasm::test_plan(false, 2), (false, true));
    assert_eq!(Wasm::test_plan(false, 0), (false, false));
    assert_eq!(
        Wasm::native_test_args(),
        vec!["test", "--workspace", "--", "--color=always"]
    );
}

#[test]
fn integration_test_args_append_the_extra_options() {
    let args = Wasm::integration_test_args(vec!["--quiet".to_string()]);
    assert_eq!(args, vec!["integration-test", "--profile=integration-test", "--quiet"]);
}

#[test]
fn optimization_levels_render_their_flags() {
    assert_eq!(OptimizationLevel::O0.flag(), "-O0");
    assert_eq!(OptimizationLevel::O.flag(), "-O");
    assert_eq!(OptimizationLevel::O3.flag(), "-O3");
    assert_eq!(OptimizationLevel::Oz.flag(), "-Oz");
}

#[test]
fn artifact_lays_out_the_distribution_directory() {
    let artifact = WasmArtifact::new("dist/wasm".to_string());
    assert_eq!(artifact.path, "dist/wasm");
    assert_eq!(artifact.dynamic_assets, "dist/wasm/dynamic-assets");
    assert_eq!(artifact.pkg_js, "dist/wasm/pkg.js");
    assert_eq!(artifact.pkg_js_map, "dist/wasm/pkg.js.map");
    assert_eq!(artifact.pkg_wasm, "dist/wasm/pkg.wasm");
    assert_eq!(artifact.pkg_opt_wasm, "dist/wasm/pkg-opt.wasm");
    let ship = artifact.files_to_ship();
    assert_eq!(
        ship,
        vec![
            "dist/wasm/dynamic-assets",
            "dist/wasm/pkg.js",
            "dist/wasm/pkg.js.map",
            "dist/wasm/pkg-opt.wasm",
        ]
    );
}
