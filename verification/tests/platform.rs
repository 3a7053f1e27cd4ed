use cargo_asm::platform::{
    path_converter_from, Converter, NativePathConverter, PathConverter, Platform,
    UnixToWindowsPathConverter, WindowsToUnixPathConverter,
};
use cargo_asm::strategy::FileResolveStrategy;

#[test]
fn other_strategy_toggles() {
    assert_eq!(FileResolveStrategy::PreferRelative.other(), FileResolveStrategy::PreferAbsolute);
    assert_eq!(FileResolveStrategy::PreferAbsolute.other(), FileResolveStrategy::PreferRelative);
    assert_eq!(FileResolveStrategy::PreferAbsolute.other().other(), FileResolveStrategy::PreferAbsolute);
    assert_eq!(FileResolveStrategy::default(), FileResolveStrategy::PreferRelative);
}

#[test]
fn windows_path_is_absolute_with_a_drive() {
    let convert = WindowsToUnixPathConverter;
    assert!(!convert.is_relative("C:\\Users\\me"));
    assert!(!convert.is_relative("c:/src/main.rs"));
    assert!(!convert.is_relative("abc:/x"));
    assert!(!convert.is_relative("C:\\"));
    assert!(convert.is_relative("C:"));
    assert!(convert.is_relative("C:src"));
    assert!(convert.is_relative(":/x"));
    assert!(convert.is_relative("1:/x"));
    assert!(convert.is_relative("C1:/x"));
    assert!(convert.is_relative("src\\main.rs"));
    assert!(convert.is_relative("/usr/src"));
    assert!(convert.is_relative("\\\\server\\share"));
    assert!(convert.is_relative(""));
    assert!(convert.is_relative("É:/x"));
}

#[test]
fn windows_path_is_converted_to_slashes() {
    let convert = WindowsToUnixPathConverter;
    assert_eq!(convert.convert("C:\\Users\\me\\main.rs"), "C:/Users/me/main.rs");
    assert_eq!(convert.convert("src/lib.rs"), "src/lib.rs");
    assert_eq!(convert.convert(""), "");
}

#[test]
fn unix_path_is_absolute_with_a_leading_slash() {
    let convert = UnixToWindowsPathConverter;
    assert!(!convert.is_relative("/usr/src"));
    assert!(!convert.is_relative("/"));
    assert!(convert.is_relative("usr/src"));
    assert!(convert.is_relative("./x"));
    assert!(convert.is_relative(""));
    assert!(convert.is_relative("C:/x"));
}

#[test]
fn unix_path_is_converted_to_backslashes() {
    let convert = UnixToWindowsPathConverter;
    assert_eq!(convert.convert("/usr/src/main.rs"), "\\usr\\src\\main.rs");
    assert_eq!(convert.convert("a\\b"), "a\\b");
}

#[test]
fn native_path_is_not_changed() {
    let convert = NativePathConverter;
    assert_eq!(convert.convert("/usr/src\\x"), "/usr/src\\x");
    assert_eq!(convert.is_relative("src/main.rs"), std::path::Path::new("src/main.rs").is_relative());
    assert_eq!(convert.is_relative("/src/main.rs"), std::path::Path::new("/src/main.rs").is_relative());
}

#[test]
fn converter_is_picked_by_platform_and_host() {
    assert!(matches!(path_converter_from(Platform::Unix, Platform::Unix), Converter::Native(_)));
    assert!(matches!(path_converter_from(Platform::Windows, Platform::Windows), Converter::Native(_)));
    assert!(matches!(
        path_converter_from(Platform::Windows, Platform::Unix),
        Converter::WindowsToUnix(_)
    ));
    assert!(matches!(
        path_converter_from(Platform::Unix, Platform::Windows),
        Converter::UnixToWindows(_)
    ));
}

#[test]
fn picked_converter_converts_as_its_kind() {
    let to_unix = path_converter_from(Platform::Windows, Platform::Unix);
    assert_eq!(to_unix.convert("a\\b"), "a/b");
    assert!(!to_unix.is_relative("D:\\x"));
    let to_windows = path_converter_from(Platform::Unix, Platform::Windows);
    assert_eq!(to_windows.convert("a/b"), "a\\b");
    assert!(!to_windows.is_relative("/x"));
    let native = path_converter_from(Platform::Unix, Platform::Unix);
    assert_eq!(native.convert("a/b\\c"), "a/b\\c");
}
