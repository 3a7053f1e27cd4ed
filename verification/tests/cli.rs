use cargo_asm::cli::{
    disasm_config, get_cargo_args, parse_cli_args, source_root, CargoArgs, CliCommand, CliMatches,
    DisasmArgs,
};
use cargo_asm::commands::{bin_target_names, find_package, target_is_bin, CargoPackage, CargoTarget};
use cargo_asm::strategy::FileResolveStrategy;

fn found(subcommand: &str) -> CliMatches {
    CliMatches {
        subcommand: subcommand.to_string(),
        binary: Some("/bin/prog".to_string()),
        needle: "pow".to_string(),
        release: false,
        manifest_path: None,
        no_addr: false,
        jumps: false,
        bytes: false,
        show_source: false,
    }
}

fn args(binary_path: Option<&str>, manifest_path: Option<&str>) -> DisasmArgs {
    DisasmArgs {
        binary_path: binary_path.map(|p| p.to_string()),
        needle: "pow".to_string(),
        show_jumps: true,
        show_bytes: false,
        show_addrs: true,
        show_source: false,
        cargo: CargoArgs { manifest_path: manifest_path.map(|p| p.to_string()), profile: None },
    }
}

fn target(name: &str, kinds: &[&str]) -> CargoTarget {
    CargoTarget { name: name.to_string(), kinds: kinds.iter().map(|k| k.to_string()).collect() }
}

fn package(id: &str, targets: Vec<CargoTarget>) -> CargoPackage {
    CargoPackage { id: id.to_string(), targets }
}

#[test]
fn disasm_shows_addresses_unless_told_not_to() {
    match parse_cli_args(&found("disasm")) {
        Some(CliCommand::Disasm(args)) => {
            assert_eq!(args.binary_path.as_deref(), Some("/bin/prog"));
            assert_eq!(args.needle, "pow");
            assert!(args.show_addrs);
            assert!(!args.show_jumps && !args.show_bytes && !args.show_source);
            assert_eq!(args.cargo.profile, None);
            assert_eq!(args.cargo.manifest_path, None);
        }
        _ => panic!("no disasm"),
    }
    let mut hidden = found("disasm");
    hidden.no_addr = true;
    hidden.jumps = true;
    hidden.bytes = true;
    hidden.show_source = true;
    hidden.release = true;
    hidden.binary = None;
    hidden.manifest_path = Some("/work/Cargo.toml".to_string());
    match parse_cli_args(&hidden) {
        Some(CliCommand::Disasm(args)) => {
            assert_eq!(args.binary_path, None);
            assert!(!args.show_addrs);
            assert!(args.show_jumps && args.show_bytes && args.show_source);
            assert_eq!(args.cargo.profile.as_deref(), Some("release"));
            assert_eq!(args.cargo.manifest_path.as_deref(), Some("/work/Cargo.toml"));
        }
        _ => panic!("no disasm"),
    }
}

#[test]
fn list_takes_the_binary_the_needle_and_the_build() {
    let mut line = found("list");
    line.release = true;
    line.jumps = true;
    match parse_cli_args(&line) {
        Some(CliCommand::List(args)) => {
            assert_eq!(args.binary_path.as_deref(), Some("/bin/prog"));
            assert_eq!(args.needle, "pow");
            assert_eq!(args.cargo.profile.as_deref(), Some("release"));
            assert_eq!(args.cargo.manifest_path, None);
        }
        _ => panic!("no list"),
    }
}

#[test]
fn other_subcommands_are_no_command() {
    assert!(parse_cli_args(&found("")).is_none());
    assert!(parse_cli_args(&found("Disasm")).is_none());
    assert!(parse_cli_args(&found("lists")).is_none());
    assert!(parse_cli_args(&found("help")).is_none());
}

#[test]
fn profile_is_release_only_with_the_flag() {
    let mut line = found("list");
    assert_eq!(get_cargo_args(&line).profile, None);
    line.release = true;
    line.manifest_path = Some("Cargo.toml".to_string());
    let cargo = get_cargo_args(&line);
    assert_eq!(cargo.profile.as_deref(), Some("release"));
    assert_eq!(cargo.manifest_path.as_deref(), Some("Cargo.toml"));
}

#[test]
fn source_root_is_the_directory_of_the_binary() {
    let both = args(Some("/bin/prog"), Some("/work/Cargo.toml"));
    assert_eq!(source_root(&both, Some("/bin"), Some("/work"), "/cwd"), "/bin");
    assert_eq!(source_root(&both, None, Some("/work"), "/cwd"), "/cwd");
}

#[test]
fn source_root_is_the_directory_of_the_manifest_without_a_binary() {
    let manifest = args(None, Some("/work/Cargo.toml"));
    assert_eq!(source_root(&manifest, Some("/bin"), Some("/work"), "/cwd"), "/work");
    assert_eq!(source_root(&manifest, Some("/bin"), None, "/cwd"), "/cwd");
    let neither = args(None, None);
    assert_eq!(source_root(&neither, Some("/bin"), Some("/work"), "/cwd"), "/cwd");
}

#[test]
fn config_of_disasm_shows_instructions_and_patches() {
    let mut asked = args(None, None);
    let config = disasm_config(&asked, "/work");
    assert!(config.display_address && config.display_jumps && !config.display_bytes);
    assert!(config.display_patches && config.display_instr);
    assert!(!config.display_source && !config.load_debug_info);
    assert!(config.display_length && config.display_instr_count);
    assert_eq!(config.source_base_directory, "/work");
    assert_eq!(config.source_file_resolve, FileResolveStrategy::PreferRelative);
    asked.show_source = true;
    asked.show_addrs = false;
    asked.show_jumps = false;
    asked.show_bytes = true;
    let config = disasm_config(&asked, "");
    assert!(!config.display_address && !config.display_jumps && config.display_bytes);
    assert!(config.display_source && config.load_debug_info);
    assert_eq!(config.source_base_directory, "");
}

#[test]
fn target_is_a_program_where_one_of_its_kinds_is_bin() {
    assert!(target_is_bin(&target("a", &["bin"])));
    assert!(target_is_bin(&target("a", &["lib", "bin"])));
    assert!(!target_is_bin(&target("a", &["lib", "rlib"])));
    assert!(!target_is_bin(&target("a", &[])));
    assert!(!target_is_bin(&target("bin", &["Bin", "bins", "bi"])));
}

#[test]
fn package_is_found_by_its_id() {
    let packages = vec![package("a 0.1", vec![]), package("b 0.1", vec![]), package("a 0.1", vec![])];
    assert_eq!(find_package(&packages, "a 0.1"), Some(0));
    assert_eq!(find_package(&packages, "b 0.1"), Some(1));
    assert_eq!(find_package(&packages, "c 0.1"), None);
    assert_eq!(find_package(&Vec::new(), "a 0.1"), None);
}

#[test]
fn programs_of_a_workspace_come_member_by_member() {
    let packages = vec![
        package("dep 1.0", vec![target("dep_tool", &["bin"])]),
        package("b 0.1", vec![target("b_lib", &["lib"]), target("b_one", &["bin"]), target("b_two", &["bin"])]),
        package("a 0.1", vec![target("a_test", &["test"]), target("a_bin", &["bin"])]),
    ];
    let members = vec!["a 0.1".to_string(), "gone 0.1".to_string(), "b 0.1".to_string()];
    assert_eq!(bin_target_names(&members, &packages), vec!["a_bin", "b_one", "b_two"]);
    assert!(bin_target_names(&Vec::new(), &packages).is_empty());
    assert!(bin_target_names(&members, &Vec::new()).is_empty());
    let twice = vec!["a 0.1".to_string(), "a 0.1".to_string()];
    assert_eq!(bin_target_names(&twice, &packages), vec!["a_bin", "a_bin"]);
}
