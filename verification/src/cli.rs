use crate::listing::DisasmConfig;
use crate::strategy::FileResolveStrategy;
use crate::text::{same_text, text_of};
use vstd::prelude::*;

verus! {

/// Where the build of a package is looked for.
#[derive(Debug)]
pub struct CargoArgs {
    pub manifest_path: Option<String>,
    pub profile: Option<String>,
}

/// What `list` was asked for.
#[derive(Debug)]
pub struct ListArgs {
    pub binary_path: Option<String>,
    pub needle: String,
    pub cargo: CargoArgs,
}

/// What `disasm` was asked for.
#[derive(Debug)]
pub struct DisasmArgs {
    pub binary_path: Option<String>,
    pub needle: String,
    pub show_jumps: bool,
    pub show_bytes: bool,
    pub show_addrs: bool,
    pub show_source: bool,
    pub cargo: CargoArgs,
}

#[derive(Debug)]
pub enum CliCommand {
    Disasm(DisasmArgs),
    List(ListArgs),
}

/// What was found on a command line: the name of the subcommand, the values of its options
/// and which of its flags are there. The paths are those of the machine, a `~` in front
/// already replaced.
pub struct CliMatches {
    pub subcommand: String,
    pub binary: Option<String>,
    pub needle: String,
    pub release: bool,
    pub manifest_path: Option<String>,
    pub no_addr: bool,
    pub jumps: bool,
    pub bytes: bool,
    pub show_source: bool,
}

/// The profile that a command line asks for: `release` with the flag of that name, else the
/// one that the build chooses.
pub open spec fn profile_of(release: bool) -> Option<Seq<char>> {
    if release {
        Some("release"@)
    } else {
        None
    }
}

/// Where the build of a package is looked for, by what the command line says.
pub fn get_cargo_args(found: &CliMatches) -> (r: CargoArgs)
    ensures
        text_of(r.profile) == profile_of(found.release),
        text_of(r.manifest_path) == text_of(found.manifest_path),
{
    let profile = if found.release {
        Some("release".to_owned())
    } else {
        None
    };
    CargoArgs { profile, manifest_path: found.manifest_path.clone() }
}

/// The command line names the subcommand `disasm`.
pub open spec fn names_disasm(found: CliMatches) -> bool {
    found.subcommand@ == "disasm"@
}

/// The command line names the subcommand `list`.
pub open spec fn names_list(found: CliMatches) -> bool {
    found.subcommand@ == "list"@
}

/// What `disasm` is asked for by the command line: addresses are shown unless it says not
/// to, jumps, bytes and source where it says so.
pub open spec fn is_disasm_of(args: DisasmArgs, found: CliMatches) -> bool {
    &&& text_of(args.binary_path) == text_of(found.binary)
    &&& args.needle@ == found.needle@
    &&& args.show_addrs == !found.no_addr
    &&& args.show_jumps == found.jumps
    &&& args.show_bytes == found.bytes
    &&& args.show_source == found.show_source
    &&& text_of(args.cargo.profile) == profile_of(found.release)
    &&& text_of(args.cargo.manifest_path) == text_of(found.manifest_path)
}

/// What `list` is asked for by the command line.
pub open spec fn is_list_of(args: ListArgs, found: CliMatches) -> bool {
    &&& text_of(args.binary_path) == text_of(found.binary)
    &&& args.needle@ == found.needle@
    &&& text_of(args.cargo.profile) == profile_of(found.release)
    &&& text_of(args.cargo.manifest_path) == text_of(found.manifest_path)
}

/// The command that a command line asks for; none where it names no subcommand that there
/// is.
pub fn parse_cli_args(found: &CliMatches) -> (r: Option<CliCommand>)
    ensures
        match r {
            Some(CliCommand::Disasm(args)) => names_disasm(*found) && is_disasm_of(args, *found),
            Some(CliCommand::List(args)) => !names_disasm(*found) && names_list(*found)
                && is_list_of(args, *found),
            None => !names_disasm(*found) && !names_list(*found),
        },
{
    if same_text(found.subcommand.as_str(), "disasm") {
        let cargo = get_cargo_args(found);
        return Some(
            CliCommand::Disasm(
                DisasmArgs {
                    binary_path: found.binary.clone(),
                    needle: found.needle.clone(),
                    cargo,
                    show_addrs: !found.no_addr,
                    show_jumps: found.jumps,
                    show_bytes: found.bytes,
                    show_source: found.show_source,
                },
            ),
        );
    }
    if same_text(found.subcommand.as_str(), "list") {
        let cargo = get_cargo_args(found);
        return Some(
            CliCommand::List(
                ListArgs { binary_path: found.binary.clone(), needle: found.needle.clone(), cargo },
            ),
        );
    }
    None
}

/// The directory that the relative paths of the sources begin at: the one that holds the
/// binary where the command line names a binary, else the one that holds the manifest where
/// it names a manifest; the working directory where the path has no directory above it, or
/// where neither is named.
pub open spec fn source_root_of(
    args: DisasmArgs,
    binary_parent: Option<Seq<char>>,
    manifest_parent: Option<Seq<char>>,
    current_dir: Seq<char>,
) -> Seq<char> {
    let parent = if args.binary_path is Some {
        binary_parent
    } else if args.cargo.manifest_path is Some {
        manifest_parent
    } else {
        None
    };
    match parent {
        Some(directory) => directory,
        None => current_dir,
    }
}

/// The directory that the relative paths of the sources begin at. `binary_parent` and
/// `manifest_parent` are the directories above the paths of the binary and of the manifest,
/// where those have one.
pub fn source_root(
    args: &DisasmArgs,
    binary_parent: Option<&str>,
    manifest_parent: Option<&str>,
    current_dir: &str,
) -> (r: String)
    ensures
        r@ == source_root_of(
            *args,
            match binary_parent {
                Some(p) => Some(p@),
                None => None,
            },
            match manifest_parent {
                Some(p) => Some(p@),
                None => None,
            },
            current_dir@,
        ),
{
    let parent = if args.binary_path.is_some() {
        binary_parent
    } else if args.cargo.manifest_path.is_some() {
        manifest_parent
    } else {
        None
    };
    match parent {
        Some(directory) => directory.to_owned(),
        None => current_dir.to_owned(),
    }
}

/// What the listing of `disasm` shows: the instructions with the names of the symbols that
/// they refer to, and of the addresses, bytes, jumps and source what was asked for. Debug
/// information is read where source is shown; the paths of the sources begin at
/// `source_root`.
pub fn disasm_config(args: &DisasmArgs, source_root: &str) -> (config: DisasmConfig)
    ensures
        config.display_address == args.show_addrs,
        config.display_bytes == args.show_bytes,
        config.display_jumps == args.show_jumps,
        config.display_patches,
        config.display_instr,
        config.display_source == args.show_source,
        config.load_debug_info == args.show_source,
        config.source_base_directory@ == source_root@,
        config.source_file_resolve == FileResolveStrategy::PreferRelative,
        config.display_length,
        config.display_instr_count,
{
    let mut config = DisasmConfig::default();
    config.display_address = args.show_addrs;
    config.display_bytes = args.show_bytes;
    config.display_jumps = args.show_jumps;
    config.display_patches = true;
    config.display_instr = true;
    config.display_source = args.show_source;
    config.load_debug_info = args.show_source;
    config.source_base_directory = source_root.to_owned();
    config.source_file_resolve = FileResolveStrategy::PreferRelative;
    // The length of the function and the number of its instructions are asked for; no
    // listing shows them.
    config.display_length = true;
    config.display_instr_count = true;
    config
}

} // verus!
