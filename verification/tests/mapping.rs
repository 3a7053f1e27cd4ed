use cargo_asm::lines::Lines;
use cargo_asm::mapper::{
    describe_part, join_pieces, no_op_line_mapper, render_file, rendered_pieces, subrender_file,
    subrender_pieces,
    LineMapper, LineMappings, PathPart,
};
use cargo_asm::pdb_lines::{
    find_address_in_line_program, load_lines, LazyModule, PDBLineMapper, PdbLineInfo, PdbModule,
    PdbSequence,
};
use cargo_asm::platform::{path_converter_from, Converter, NativePathConverter, Platform};
use cargo_asm::strategy::FileResolveStrategy;

fn record(section: u16, offset: u32, length: Option<u32>, line_start: u32, file_index: usize) -> PdbLineInfo {
    PdbLineInfo { section, offset, length, line_start, line_end: line_start + 1, file_index }
}

fn shape(sequences: &[PdbSequence]) -> Vec<(u64, u64, u32, u32, usize)> {
    sequences.iter().map(|s| (s.range.start, s.range.end, s.line_start, s.line_end, s.file)).collect()
}

fn part(text: &str, relative: bool) -> PathPart {
    PathPart { text: text.to_string(), relative }
}

fn modules() -> Vec<PdbModule> {
    vec![
        PdbModule {
            lines: vec![record(1, 0x10, Some(4), 7, 0), record(1, 0x20, Some(8), 9, 1)],
            files: vec!["a.rs".to_string(), "b.rs".to_string()],
        },
        PdbModule { lines: Vec::new(), files: Vec::new() },
        PdbModule { lines: vec![record(2, 0, Some(0x10), 3, 0)], files: vec!["c.rs".to_string()] },
        PdbModule { lines: vec![record(1, 0x10, Some(4), 99, 0)], files: vec!["late.rs".to_string()] },
    ]
}

#[test]
fn pdb_records_become_sequences_in_order_of_start() {
    let records = vec![
        record(2, 0x10, Some(4), 7, 0),
        record(1, 0x20, None, 9, 1),
        record(1, 0x08, Some(0), 11, 2),
        record(1, 0x20, Some(2), 13, 3),
    ];
    let sequences = load_lines(&records, &vec![0x1000, 0x2000]);
    assert_eq!(
        shape(&sequences),
        vec![
            (0x1008, 0x1009, 11, 12, 2),
            (0x1020, 0x1021, 9, 10, 1),
            (0x1020, 0x1022, 13, 14, 3),
            (0x2010, 0x2014, 7, 8, 0),
        ]
    );
}

#[test]
fn pdb_records_without_a_section_are_skipped() {
    let records = vec![
        record(0, 0x10, Some(4), 1, 0),
        record(3, 0x10, Some(4), 2, 0),
        record(1, u32::MAX, Some(u32::MAX), 3, 0),
        record(2, 2, Some(1), 4, 0),
    ];
    let sequences = load_lines(&records, &vec![0x1000, u64::MAX - 2]);
    assert_eq!(shape(&sequences), vec![(0x1000 + 0xffff_ffff, 0x1000 + 0xffff_ffff + 0xffff_ffff, 3, 4, 0)]);
    assert!(load_lines(&records, &Vec::new()).is_empty());
    assert!(load_lines(&Vec::new(), &vec![0x1000]).is_empty());
}

#[test]
fn pdb_module_maps_an_address_to_the_first_line_of_its_sequence() {
    let all = modules();
    let module = LazyModule::new(
        PdbModule { lines: all[0].lines.clone(), files: all[0].files.clone() },
        &vec![0x1000],
    );
    assert_eq!(module.addr2line(0x1010), Some(("a.rs".to_string(), 7)));
    assert_eq!(module.addr2line(0x1013), Some(("a.rs".to_string(), 7)));
    assert_eq!(module.addr2line(0x1014), None);
    assert_eq!(module.addr2line(0x1027), Some(("b.rs".to_string(), 9)));
    assert_eq!(module.addr2line(0x1028), None);
    assert_eq!(module.addr2line(0x100f), None);
    let stray = LazyModule::new(
        PdbModule { lines: vec![record(1, 0, Some(1), 5, 4)], files: vec!["a.rs".to_string()] },
        &vec![0x1000],
    );
    assert_eq!(stray.addr2line(0x1000), None);
}

#[test]
fn pdb_mapper_asks_the_modules_in_order() {
    let mut mapper = PDBLineMapper::new(
        vec![0x1000, 0x2000],
        modules(),
        "/base",
        FileResolveStrategy::PreferRelative,
    );
    assert_eq!(mapper.map_address_to_line(0x1010), Some(("a.rs".to_string(), 7)));
    assert_eq!(mapper.map_address_to_line(0x2005), Some(("c.rs".to_string(), 3)));
    assert_eq!(mapper.map_address_to_line(0x1021), Some(("b.rs".to_string(), 9)));
    assert_eq!(mapper.map_address_to_line(0x3000), None);
    assert_eq!(mapper.map_address_to_line(0), None);
}

#[test]
fn pdb_mapper_asks_the_module_of_the_last_answer_first() {
    let mut mapper = PDBLineMapper::new(
        vec![0x1000, 0x2000],
        modules(),
        "/base",
        FileResolveStrategy::PreferRelative,
    );
    assert_eq!(mapper.map_address_to_line(0x1010), Some(("a.rs".to_string(), 7)));
    let mut late = PDBLineMapper::new(
        vec![0x1000, 0x2000],
        {
            let mut reordered = modules();
            reordered.swap(0, 3);
            reordered.swap(0, 1);
            reordered
        },
        "/base",
        FileResolveStrategy::PreferRelative,
    );
    assert_eq!(late.map_address_to_line(0x1020), Some(("b.rs".to_string(), 9)));
    assert_eq!(late.map_address_to_line(0x1010), Some(("a.rs".to_string(), 7)));
    assert_eq!(late.map_address_to_line(0x3000), None);
    assert_eq!(late.map_address_to_line(0x1010), Some(("late.rs".to_string(), 99)));
}

#[test]
fn no_op_mapper_maps_nothing() {
    let mut mappings = no_op_line_mapper();
    assert_eq!(mappings.get(0).unwrap(), None);
    assert_eq!(mappings.get(0x1140).unwrap(), None);
    assert_eq!(mappings.get(u64::MAX).unwrap(), None);
}

#[test]
fn mappings_of_a_pdb_mapper_ask_it() {
    let mapper = PDBLineMapper::new(
        vec![0x1000, 0x2000],
        modules(),
        "",
        FileResolveStrategy::PreferAbsolute,
    );
    let mut mappings = LineMappings::new(
        LineMapper::Pdb(mapper),
        path_converter_from(Platform::Windows, Platform::Unix),
    );
    assert_eq!(mappings.get(0x2000).unwrap(), Some(("c.rs".to_string(), 3)));
    assert_eq!(mappings.get(0x2010).unwrap(), None);
}

#[test]
fn relative_strategy_begins_at_the_base_and_keeps_relative_pieces() {
    let strategy = FileResolveStrategy::PreferRelative;
    assert_eq!(
        subrender_pieces(strategy, "/work", Some(&part("crate", true)), Some(&part("src", true)), "main.rs"),
        vec!["/work", "crate", "src", "main.rs"]
    );
    assert_eq!(
        subrender_pieces(strategy, "/work", Some(&part("/build", false)), Some(&part("src", true)), "main.rs"),
        vec!["/work", "src", "main.rs"]
    );
    assert_eq!(
        subrender_pieces(strategy, "/work", Some(&part("crate", true)), Some(&part("/abs", false)), "main.rs"),
        vec!["/work", "crate", "main.rs"]
    );
    assert_eq!(subrender_pieces(strategy, "", None, None, "/abs/main.rs"), vec!["", "/abs/main.rs"]);
}

#[test]
fn absolute_strategy_keeps_every_piece() {
    let strategy = FileResolveStrategy::PreferAbsolute;
    assert_eq!(
        subrender_pieces(strategy, "/work", Some(&part("/build", false)), Some(&part("src", true)), "main.rs"),
        vec!["/build", "src", "main.rs"]
    );
    assert_eq!(
        subrender_pieces(strategy, "/work", None, Some(&part("/abs", false)), "main.rs"),
        vec!["/abs", "main.rs"]
    );
    assert_eq!(subrender_pieces(strategy, "/work", None, None, "main.rs"), vec!["main.rs"]);
}

#[test]
fn pieces_are_those_of_the_other_strategy_where_the_path_is_no_file() {
    let comp_dir = part("/build", false);
    let directory = part("src", true);
    let relative = FileResolveStrategy::PreferRelative;
    let absolute = FileResolveStrategy::PreferAbsolute;
    assert_eq!(
        rendered_pieces(relative, "/work", Some(&comp_dir), Some(&directory), "main.rs", true),
        vec!["/work", "src", "main.rs"]
    );
    assert_eq!(
        rendered_pieces(relative, "/work", Some(&comp_dir), Some(&directory), "main.rs", false),
        vec!["/build", "src", "main.rs"]
    );
    assert_eq!(
        rendered_pieces(absolute, "/work", Some(&comp_dir), Some(&directory), "main.rs", true),
        vec!["/build", "src", "main.rs"]
    );
    assert_eq!(
        rendered_pieces(absolute, "/work", Some(&comp_dir), Some(&directory), "main.rs", false),
        vec!["/work", "src", "main.rs"]
    );
}

#[test]
fn piece_is_described_by_the_converter() {
    let to_unix = Converter::WindowsToUnix(cargo_asm::platform::WindowsToUnixPathConverter);
    let absolute = describe_part(&to_unix, "C:\\build\\crate");
    assert_eq!(absolute.text, "C:/build/crate");
    assert!(!absolute.relative);
    let relative = describe_part(&to_unix, "src\\bin");
    assert_eq!(relative.text, "src/bin");
    assert!(relative.relative);
    let native = Converter::Native(NativePathConverter);
    let kept = describe_part(&native, "src/bin");
    assert_eq!(kept.text, "src/bin");
    assert_eq!(kept.relative, std::path::Path::new("src/bin").is_relative());
}

#[test]
fn pieces_are_joined_as_the_machine_joins_paths() {
    let pieces = vec!["base".to_string(), "crate".to_string(), "src".to_string(), "main.rs".to_string()];
    let expected: std::path::PathBuf = ["base", "crate", "src", "main.rs"].iter().collect();
    assert_eq!(join_pieces(&pieces), expected.to_string_lossy());
    assert_eq!(join_pieces(&Vec::new()), "");
    assert_eq!(join_pieces(&vec!["only".to_string()]), "only");
    let mut replaced = std::path::PathBuf::from("base");
    replaced.push("/abs");
    replaced.push("main.rs");
    assert_eq!(
        join_pieces(&vec!["base".to_string(), "/abs".to_string(), "main.rs".to_string()]),
        replaced.to_string_lossy()
    );
}

#[test]
fn path_of_a_file_is_made_of_its_pieces() {
    let comp_dir = part("crate", true);
    let directory = part("src", true);
    let expected: std::path::PathBuf = ["no_such_base", "crate", "src", "main.rs"].iter().collect();
    assert_eq!(
        subrender_file(
            FileResolveStrategy::PreferRelative,
            "no_such_base",
            Some(&comp_dir),
            Some(&directory),
            "main.rs"
        ),
        expected.to_string_lossy()
    );
}

#[test]
fn path_that_is_no_file_falls_back_to_the_other_strategy() {
    let comp_dir = part("/no/such/dir", false);
    let directory = part("src", true);
    let other: std::path::PathBuf = ["/no/such/dir", "src", "main.rs"].iter().collect();
    assert_eq!(
        render_file(
            FileResolveStrategy::PreferRelative,
            "no_such_base",
            Some(&comp_dir),
            Some(&directory),
            "main.rs"
        ),
        other.to_string_lossy()
    );
    let relative: std::path::PathBuf = ["no_such_base", "src", "main.rs"].iter().collect();
    assert_eq!(
        render_file(
            FileResolveStrategy::PreferAbsolute,
            "no_such_base",
            Some(&comp_dir),
            Some(&directory),
            "main.rs"
        ),
        relative.to_string_lossy()
    );
}

#[test]
fn empty_lines_are_empty() {
    let lines = Lines::empty();
    assert_eq!(lines.sequences.len(), 0);
    assert_eq!(lines.files.len(), 0);
}

#[test]
fn record_of_an_address_is_the_first_that_covers_it() {
    let records = vec![
        record(0, 0x10, Some(8), 1, 0),
        record(3, 0x10, Some(8), 2, 0),
        record(1, 0x10, Some(8), 3, 0),
        record(1, 0x14, Some(8), 4, 0),
        record(2, 0x00, None, 5, 0),
        record(2, 0x01, Some(0), 6, 0),
    ];
    let sections = [0x1000, 0x2000];
    assert_eq!(find_address_in_line_program(0x1010, &sections, &records), Some(2));
    assert_eq!(find_address_in_line_program(0x1017, &sections, &records), Some(2));
    assert_eq!(find_address_in_line_program(0x1018, &sections, &records), Some(3));
    assert_eq!(find_address_in_line_program(0x101c, &sections, &records), None);
    assert_eq!(find_address_in_line_program(0x2000, &sections, &records), Some(4));
    assert_eq!(find_address_in_line_program(0x2001, &sections, &records), Some(5));
    assert_eq!(find_address_in_line_program(0x2002, &sections, &records), None);
    assert_eq!(find_address_in_line_program(0x10, &sections, &records), None);
    assert_eq!(find_address_in_line_program(0x1010, &[], &records), None);
    assert_eq!(find_address_in_line_program(0x1010, &sections, &Vec::new()), None);
    let far = vec![record(1, 2, Some(4), 1, 0)];
    assert_eq!(find_address_in_line_program(u64::MAX, &[u64::MAX - 2], &far), None);
}

#[test]
fn path_of_one_piece_is_the_piece() {
    assert_eq!(join_pieces(&vec!["src/main.rs".to_string()]), "src/main.rs");
    assert_eq!(join_pieces(&vec!["/abs/main.rs".to_string()]), "/abs/main.rs");
    assert_eq!(join_pieces(&vec!["".to_string()]), "");
    assert_eq!(join_pieces(&vec!["C:\\odd name\\".to_string()]), "C:\\odd name\\");
    assert_eq!(
        subrender_file(FileResolveStrategy::PreferAbsolute, "base", None, None, "main.rs"),
        "main.rs"
    );
    assert_eq!(
        subrender_file(FileResolveStrategy::PreferAbsolute, "base", None, None, ""),
        ""
    );
    let absolute = part("/build", false);
    let joined: std::path::PathBuf = ["base", "main.rs"].iter().collect();
    assert_eq!(
        subrender_file(FileResolveStrategy::PreferRelative, "base", Some(&absolute), None, "main.rs"),
        joined.to_string_lossy()
    );
}

#[test]
fn native_path_is_relative_where_the_machine_says_so() {
    let native = Converter::Native(NativePathConverter);
    for path in ["", "src/main.rs", "/abs/main.rs", "C:\\build", "..", "./a"] {
        let described = describe_part(&native, path);
        assert_eq!(described.relative, std::path::Path::new(path).is_relative());
        assert_eq!(described.text, path);
    }
}

#[test]
fn path_of_several_pieces_is_each_pushed_on_those_before_it() {
    let pieces = vec!["base".to_string(), "/abs".to_string(), "src".to_string(), "main.rs".to_string()];
    let mut expected = std::path::PathBuf::from("base");
    expected.push("/abs");
    expected.push("src");
    expected.push("main.rs");
    assert_eq!(join_pieces(&pieces), expected.to_string_lossy());
    let directory = part("dir", true);
    let absolute = part("/build", false);
    let mut rendered = std::path::PathBuf::from("/build");
    rendered.push("dir");
    rendered.push("main.rs");
    assert_eq!(
        subrender_file(
            FileResolveStrategy::PreferAbsolute,
            "base",
            Some(&absolute),
            Some(&directory),
            "main.rs"
        ),
        rendered.to_string_lossy()
    );
}
