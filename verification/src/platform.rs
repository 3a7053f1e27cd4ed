use crate::text::{chars_of, char_is_ascii_alphabetic, is_ascii_alphabetic, string_of};
use vstd::prelude::*;

verus! {

/// Turns the paths that a binary holds into paths of the machine that reads it.
pub trait PathConverter {
    fn is_relative(&self, path_str: &str) -> bool;

    fn convert(&self, path_str: &str) -> String;
}

/// For paths that are written as the machine that reads them writes its own.
pub struct NativePathConverter;

/// For paths of Windows, read on Unix.
pub struct WindowsToUnixPathConverter;

/// For paths of Unix, read on Windows.
pub struct UnixToWindowsPathConverter;

/// Whether `std::path::Path::is_relative` takes the path for relative, in the program as it
/// is built: the answer is that of the kind of machine that the program is built for.
pub uninterp spec fn host_relative(path: Seq<char>) -> bool;

/// Calls `std::path::Path::is_relative`, which looks at the text of the path alone. Claims
/// only that the answer is the one named `host_relative`.
#[verifier::external_body]
fn host_path_is_relative(path_str: &str) -> (r: bool)
    ensures
        r == host_relative(path_str@),
{
    std::path::Path::new(path_str).is_relative()
}

/// `s` begins with letters, a colon and a slash of either kind.
pub open spec fn has_drive(s: Seq<char>) -> bool {
    exists|n: int|
        1 <= n && n + 1 < s.len() && (forall|k: int| 0 <= k < n ==> is_ascii_alphabetic(s[k]))
            && #[trigger] s[n] == ':' && (s[n + 1] == '/' || s[n + 1] == '\\')
}

/// `s` with `to` in place of each `from`.
pub open spec fn replace_char(s: Seq<char>, from: char, to: char) -> Seq<char> {
    Seq::new(
        s.len(),
        |i: int|
            if s[i] == from {
                to
            } else {
                s[i]
            },
    )
}

/// The text of `path_str` with `to` in place of each `from`.
fn replaced(path_str: &str, from: char, to: char) -> (r: String)
    ensures
        r@ == replace_char(path_str@, from, to),
{
    let chars = chars_of(path_str);
    let mut out: Vec<char> = Vec::new();
    let mut i: usize = 0;
    while i < chars.len()
        invariant
            i <= chars@.len(),
            out@ == replace_char(chars@, from, to).take(i as int),
        decreases chars@.len() - i,
    {
        let c = chars[i];
        out.push(
            if c == from {
                to
            } else {
                c
            },
        );
        i += 1;
        proof {
            assert(out@ =~= replace_char(chars@, from, to).take(i as int));
        }
    }
    proof {
        assert(out@ =~= replace_char(chars@, from, to));
    }
    string_of(&out)
}

impl PathConverter for NativePathConverter {
    /// A path of the machine itself is relative where the machine takes it for relative.
    fn is_relative(&self, path_str: &str) -> (r: bool)
        ensures
            r == host_relative(path_str@),
    {
        host_path_is_relative(path_str)
    }

    fn convert(&self, path_str: &str) -> (r: String)
        ensures
            r@ == path_str@,
    {
        path_str.to_owned()
    }
}

impl PathConverter for WindowsToUnixPathConverter {
    /// A path of Windows is relative unless it begins with a drive: letters, a colon and a
    /// slash of either kind.
    fn is_relative(&self, path_str: &str) -> (r: bool)
        ensures
            r == !has_drive(path_str@),
    {
        let chars = chars_of(path_str);
        let len = chars.len();
        let mut n: usize = 0;
        while n < len && char_is_ascii_alphabetic(chars[n])
            invariant
                n <= len,
                len == chars@.len(),
                forall|k: int| 0 <= k < n ==> is_ascii_alphabetic(chars@[k]),
            decreases len - n,
        {
            n += 1;
        }
        let found = n >= 1 && len - n >= 2 && chars[n] == ':' && (chars[n + 1] == '/' || chars[n
            + 1] == '\\');
        proof {
            let s = chars@;
            if found {
                assert(s[n as int] == ':');
            }
            if has_drive(s) {
                let m = choose|m: int|
                    1 <= m && m + 1 < s.len() && (forall|k: int|
                        0 <= k < m ==> is_ascii_alphabetic(s[k])) && #[trigger] s[m] == ':' && (s[m
                        + 1] == '/' || s[m + 1] == '\\');
                if m < n {
                    assert(is_ascii_alphabetic(s[m]));
                }
                if n < m {
                    assert(is_ascii_alphabetic(s[n as int]));
                }
                assert(m == n);
            }
        }
        !found
    }

    fn convert(&self, path_str: &str) -> (r: String)
        ensures
            r@ == replace_char(path_str@, '\\', '/'),
    {
        replaced(path_str, '\\', '/')
    }
}

impl PathConverter for UnixToWindowsPathConverter {
    /// A path of Unix is relative unless it begins with a slash.
    fn is_relative(&self, path_str: &str) -> (r: bool)
        ensures
            r == !(path_str@.len() > 0 && path_str@[0] == '/'),
    {
        let chars = chars_of(path_str);
        !(chars.len() > 0 && chars[0] == '/')
    }

    fn convert(&self, path_str: &str) -> (r: String)
        ensures
            r@ == replace_char(path_str@, '/', '\\'),
    {
        replaced(path_str, '/', '\\')
    }
}

/// The kind of machine that writes a path.
#[derive(Copy, Clone, PartialEq, Eq, Debug, Structural)]
pub enum Platform {
    Windows,
    Unix,
}

/// One of the three converters.
pub enum Converter {
    Native(NativePathConverter),
    WindowsToUnix(WindowsToUnixPathConverter),
    UnixToWindows(UnixToWindowsPathConverter),
}

/// Whether a path is relative, by the converter: a path of Windows is relative unless it
/// begins with a drive, one of Unix unless it begins with a slash. Of a path of the machine
/// itself, the machine says.
pub open spec fn relative_by(converter: Converter, path: Seq<char>) -> bool {
    match converter {
        Converter::Native(_) => host_relative(path),
        Converter::WindowsToUnix(_) => !has_drive(path),
        Converter::UnixToWindows(_) => !(path.len() > 0 && path[0] == '/'),
    }
}

/// The path as the machine that reads it writes it: with the slashes of that machine.
pub open spec fn converted(converter: Converter, path: Seq<char>) -> Seq<char> {
    match converter {
        Converter::Native(_) => path,
        Converter::WindowsToUnix(_) => replace_char(path, '\\', '/'),
        Converter::UnixToWindows(_) => replace_char(path, '/', '\\'),
    }
}

impl PathConverter for Converter {
    fn is_relative(&self, path_str: &str) -> (r: bool)
        ensures
            r == relative_by(*self, path_str@),
    {
        match self {
            Converter::Native(c) => c.is_relative(path_str),
            Converter::WindowsToUnix(c) => c.is_relative(path_str),
            Converter::UnixToWindows(c) => c.is_relative(path_str),
        }
    }

    fn convert(&self, path_str: &str) -> (r: String)
        ensures
            r@ == converted(*self, path_str@),
    {
        match self {
            Converter::Native(c) => c.convert(path_str),
            Converter::WindowsToUnix(c) => c.convert(path_str),
            Converter::UnixToWindows(c) => c.convert(path_str),
        }
    }
}

/// The converter from the paths of `platform` to those of `host`: none is needed where they
/// are the same.
pub open spec fn converter_from(platform: Platform, host: Platform) -> Converter {
    if platform == host {
        Converter::Native(NativePathConverter)
    } else if platform == Platform::Windows {
        Converter::WindowsToUnix(WindowsToUnixPathConverter)
    } else {
        Converter::UnixToWindows(UnixToWindowsPathConverter)
    }
}

/// Returns a path converter that will convert from the given platform's path to the path of
/// the platform `host`, on which the program runs.
pub fn path_converter_from(platform: Platform, host: Platform) -> (r: Converter)
    ensures
        r == converter_from(platform, host),
{
    match platform {
        Platform::Windows => {
            if host == Platform::Windows {
                Converter::Native(NativePathConverter)
            } else {
                Converter::WindowsToUnix(WindowsToUnixPathConverter)
            }
        },
        Platform::Unix => {
            if host == Platform::Windows {
                Converter::UnixToWindows(UnixToWindowsPathConverter)
            } else {
                Converter::Native(NativePathConverter)
            }
        },
    }
}

} // verus!
