use kclvm_runner::runner::{
    CliConfigs, CmdArgSpec, CmdExternalPkgSpec, ExecProgramArgs, ExecProgramResult, KclLibRunner,
    KclLibRunnerOptions, KeyValuePair, MapErrorResult, OverrideAction, OverrideSpec, SettingsFile,
};

fn pkg(name: &str, path: &str) -> CmdExternalPkgSpec {
    CmdExternalPkgSpec { pkg_name: name.to_string(), pkg_path: path.to_string() }
}

fn empty_cli() -> CliConfigs {
    CliConfigs {
        file: None,
        files: None,
        strict_range_check: None,
        disable_none: None,
        verbose: None,
        debug: None,
        sort_keys: None,
        recursive: None,
        include_schema_type_path: None,
        overrides: None,
        path_selector: None,
        package_maps: None,
    }
}

#[test]
fn package_maps_keep_the_last_path_of_a_name() {
    let mut args = ExecProgramArgs::default();
    args.external_pkgs = vec![pkg("a", "/1"), pkg("b", "/2"), pkg("a", "/3")];
    let maps = args.get_package_maps_from_external_pkg();
    assert_eq!(
        maps,
        vec![("a".to_string(), "/3".to_string()), ("b".to_string(), "/2".to_string())]
    );
}

#[test]
fn package_maps_set_back_into_arguments() {
    let mut args = ExecProgramArgs::default();
    args.set_external_pkg_from_package_maps(vec![("k".to_string(), "/p".to_string())]);
    assert_eq!(args.external_pkgs.len(), 1);
    assert_eq!(args.external_pkgs[0].pkg_name, "k");
    assert_eq!(args.external_pkgs[0].pkg_path, "/p");
}

#[test]
fn files_are_listed_in_order() {
    let mut args = ExecProgramArgs::default();
    args.k_filename_list = vec!["main.k".to_string(), "base.k".to_string()];
    assert_eq!(args.get_files(), vec!["main.k", "base.k"]);
}

#[test]
fn load_options_follow_the_request() {
    let mut args = ExecProgramArgs::default();
    args.work_dir = Some("/work".to_string());
    args.plugin_agent = 42;
    args.recursive = true;
    args.external_pkgs = vec![pkg("x", "/x")];
    let opts = args.get_load_program_options("/vendor".to_string());
    assert_eq!(opts.work_dir, "/work");
    assert_eq!(opts.vendor_dirs, vec!["/vendor".to_string()]);
    assert_eq!(opts.package_maps, vec![("x".to_string(), "/x".to_string())]);
    assert!(opts.load_plugins);
    assert!(opts.recursive);
    let opts = ExecProgramArgs::default().get_load_program_options(String::new());
    assert_eq!(opts.work_dir, "");
    assert!(!opts.load_plugins);
}

#[test]
fn settings_map_field_by_field() {
    let mut cli = empty_cli();
    cli.file = Some(vec!["f.k".to_string()]);
    cli.strict_range_check = Some(true);
    cli.verbose = Some(2);
    cli.debug = Some(true);
    cli.overrides = Some(vec![OverrideSpec {
        pkgpath: String::new(),
        field_path: "a.b".to_string(),
        field_value: "1".to_string(),
        action: OverrideAction::CreateOrUpdate,
    }]);
    cli.package_maps = Some(vec![("p".to_string(), "/p".to_string())]);
    let settings = SettingsFile {
        kcl_cli_configs: Some(cli),
        kcl_options: Some(vec![KeyValuePair { key: "env".to_string(), value: "prod".to_string() }]),
    };
    let args = ExecProgramArgs::from_settings(settings);
    assert_eq!(args.k_filename_list, vec!["f.k".to_string()]);
    assert!(args.strict_range_check);
    assert!(!args.disable_none);
    assert_eq!(args.verbose, 2);
    assert_eq!(args.debug, 1);
    assert_eq!(args.overrides.len(), 1);
    assert_eq!(args.overrides[0].field_path, "a.b");
    assert_eq!(args.external_pkgs[0].pkg_path, "/p");
    assert_eq!(args.args[0].name, "env");
    assert_eq!(args.args[0].value, "prod");
}

#[test]
fn settings_prefer_files_over_file() {
    let mut cli = empty_cli();
    cli.file = Some(vec!["old.k".to_string()]);
    cli.files = Some(vec!["new.k".to_string()]);
    let args = ExecProgramArgs::from_settings(SettingsFile { kcl_cli_configs: Some(cli), kcl_options: None });
    assert_eq!(args.k_filename_list, vec!["new.k".to_string()]);
    let args = ExecProgramArgs::from_settings(SettingsFile { kcl_cli_configs: None, kcl_options: None });
    assert!(args.k_filename_list.is_empty());
    assert!(args.args.is_empty());
    assert!(!args.disable_yaml_result && !args.print_override_ast && !args.compile_only);
    let args = ExecProgramArgs::from_settings_path(
        SettingsFile { kcl_cli_configs: None, kcl_options: None },
        Some("/proj".to_string()),
    );
    assert_eq!(args.work_dir.as_deref(), Some("/proj"));
}

#[test]
fn run_flags_encode_the_switches() {
    let mut args = ExecProgramArgs::default();
    args.args = vec![CmdArgSpec { name: "a".to_string(), value: "1".to_string() }];
    args.disable_none = true;
    args.debug = 3;
    let f = args.run_flags().unwrap();
    assert_eq!(f.option_len, 1);
    assert_eq!(f.strict_range_check, 0);
    assert_eq!(f.disable_none, 1);
    assert_eq!(f.disable_schema_check, 0);
    assert_eq!(f.list_option_mode, 0);
    assert_eq!(f.debug_mode, 3);
}

#[test]
fn options_with_nul_cannot_cross_the_boundary() {
    let mut args = ExecProgramArgs::default();
    args.args = vec![CmdArgSpec { name: "a".to_string(), value: "1".to_string() }];
    assert!(args.options_are_c_compatible());
    args.args.push(CmdArgSpec { name: "b".to_string(), value: "x\0y".to_string() });
    assert!(!args.options_are_c_compatible());
}

#[test]
fn error_message_maps_to_err() {
    let ok = ExecProgramResult {
        json_result: "{}".to_string(),
        yaml_result: "{}".to_string(),
        log_message: String::new(),
        err_message: String::new(),
    };
    assert!(ok.clone().map_err_to_result().is_ok());
    let mut bad = ok.clone();
    bad.err_message = "failed".to_string();
    let err = bad.map_err_to_result().unwrap_err();
    assert_eq!(err.to_string(), "failed");
    let wrapped: Result<ExecProgramResult, anyhow::Error> = Ok(ok);
    assert!(wrapped.map_err_to_result().is_ok());
    let failed: Result<ExecProgramResult, anyhow::Error> = Err(anyhow::Error::msg("load failed"));
    assert_eq!(failed.map_err_to_result().unwrap_err().to_string(), "load failed");
}

#[test]
fn runner_defaults_to_no_plugin() {
    assert_eq!(KclLibRunner::new(None).opts.plugin_agent_ptr, 0);
    let r = KclLibRunner::new(Some(KclLibRunnerOptions { plugin_agent_ptr: 9 }));
    assert_eq!(r.opts.plugin_agent_ptr, 9);
}
