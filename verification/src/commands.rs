use crate::errors::CargoAsmError;
use crate::format::{addr_len, decimal_digits, hex_digits, off_len};
use crate::listing::larger;
use crate::matcher::{needle_matches, SymbolMatcher};
use crate::symbol::Symbol;
use crate::text::{push_str, same_text, texts};
use vstd::prelude::*;

verus! {

/// The character of the digit `d`, with upper case letters for the digits from ten on.
pub open spec fn digit_char(d: int) -> char {
    if d == 0 {
        '0'
    } else if d == 1 {
        '1'
    } else if d == 2 {
        '2'
    } else if d == 3 {
        '3'
    } else if d == 4 {
        '4'
    } else if d == 5 {
        '5'
    } else if d == 6 {
        '6'
    } else if d == 7 {
        '7'
    } else if d == 8 {
        '8'
    } else if d == 9 {
        '9'
    } else if d == 10 {
        'A'
    } else if d == 11 {
        'B'
    } else if d == 12 {
        'C'
    } else if d == 13 {
        'D'
    } else if d == 14 {
        'E'
    } else {
        'F'
    }
}

/// The digits of `n` to the base `base`; 0 has none.
pub open spec fn digits(n: nat, base: nat) -> Seq<char>
    decreases n,
{
    if n == 0 || base < 2 {
        Seq::empty()
    } else {
        proof {
            assert(n / base < n) by (nonlinear_arith)
                requires
                    n > 0,
                    base >= 2,
            ;
        }
        digits(n / base, base).push(digit_char((n % base) as int))
    }
}

/// `n` to the base `base`, with at least one digit, and with `fill` before it up to `width`
/// characters.
pub open spec fn number_text(n: nat, base: nat, width: int, fill: char) -> Seq<char> {
    let text = if n == 0 {
        seq!['0']
    } else {
        digits(n, base)
    };
    Seq::new(
        if width > text.len() {
            (width - text.len()) as nat
        } else {
            0
        },
        |i: int| fill,
    ) + text
}

fn digit_of(d: u64) -> (c: char)
    requires
        d < 16,
    ensures
        c == digit_char(d as int),
{
    if d == 0 {
        '0'
    } else if d == 1 {
        '1'
    } else if d == 2 {
        '2'
    } else if d == 3 {
        '3'
    } else if d == 4 {
        '4'
    } else if d == 5 {
        '5'
    } else if d == 6 {
        '6'
    } else if d == 7 {
        '7'
    } else if d == 8 {
        '8'
    } else if d == 9 {
        '9'
    } else if d == 10 {
        'A'
    } else if d == 11 {
        'B'
    } else if d == 12 {
        'C'
    } else if d == 13 {
        'D'
    } else if d == 14 {
        'E'
    } else {
        'F'
    }
}

/// Appends to `output` the number `n` to the base `base`, with `fill` before it up to `width`
/// characters.
pub fn write_number(output: &mut String, n: u64, base: u64, width: usize, fill: char)
    requires
        2 <= base <= 16,
    ensures
        final(output)@ == old(output)@ + number_text(n as nat, base as nat, width as int, fill),
{
    let ghost before = output@;
    let mut reversed: Vec<char> = Vec::new();
    let mut rest = n;
    proof {
        assert(reversed@.reverse() =~= Seq::<char>::empty());
        assert(digits(rest as nat, base as nat) + reversed@.reverse() =~= digits(
            n as nat,
            base as nat,
        ));
    }
    while rest > 0
        invariant
            2 <= base <= 16,
            digits(rest as nat, base as nat) + reversed@.reverse() == digits(
                n as nat,
                base as nat,
            ),
        decreases rest,
    {
        let digit = digit_of(rest % base);
        let ghost so_far = reversed@;
        reversed.push(digit);
        proof {
            assert(reversed@.reverse() =~= seq![digit] + so_far.reverse());
            assert(digits((rest / base) as nat, base as nat) + reversed@.reverse() =~= digits(
                (rest / base) as nat,
                base as nat,
            ).push(digit) + so_far.reverse());
        }
        rest = rest / base;
    }
    if n == 0 {
        reversed.push('0');
        proof {
            assert(reversed@.reverse() =~= seq!['0']);
        }
    }
    let ghost text = reversed@.reverse();
    proof {
        assert(digits(0, base as nat) + text =~= text);
    }
    let count = reversed.len();
    let mut written: usize = count;
    let ghost filled = |k: int| Seq::new(k as nat, |i: int| fill);
    proof {
        assert(output@ =~= before + filled(0));
    }
    while written < width
        invariant
            count <= written,
            written <= width || written == count,
            filled == |k: int| Seq::new(k as nat, |i: int| fill),
            output@ == before + filled(written - count),
        decreases width - written,
    {
        output.push(fill);
        written += 1;
        proof {
            assert(output@ =~= before + filled(written - count));
        }
    }
    let ghost padded = output@;
    let mut i: usize = count;
    while i > 0
        invariant
            i <= count,
            count == reversed@.len(),
            text == reversed@.reverse(),
            output@ == padded + text.take(count - i),
        decreases i,
    {
        i -= 1;
        output.push(reversed[i]);
        proof {
            assert(text[count - 1 - i] == reversed@[i as int]);
            assert(output@ =~= padded + text.take(count - i));
        }
    }
    proof {
        assert(text.take(count as int) =~= text);
        assert(output@ =~= before + number_text(n as nat, base as nat, width as int, fill));
    }
}

/// The first of the symbols whose demangled name answers to the needle.
pub fn find_symbol(symbols: &[Symbol], matcher: &SymbolMatcher) -> (r: Option<usize>)
    ensures
        match r {
            Some(i) => i < symbols@.len() && needle_matches(
                matcher.needle_text(),
                symbols@[i as int].demangled_name@,
            ) && forall|k: int|
                0 <= k < i ==> !needle_matches(
                    matcher.needle_text(),
                    (#[trigger] symbols@[k]).demangled_name@,
                ),
            None => forall|k: int|
                0 <= k < symbols@.len() ==> !needle_matches(
                    matcher.needle_text(),
                    (#[trigger] symbols@[k]).demangled_name@,
                ),
        },
{
    let mut i: usize = 0;
    while i < symbols.len()
        invariant
            i <= symbols@.len(),
            forall|k: int|
                0 <= k < i ==> !needle_matches(
                    matcher.needle_text(),
                    (#[trigger] symbols@[k]).demangled_name@,
                ),
        decreases symbols@.len() - i,
    {
        if matcher.matches(symbols[i].demangled_name.as_str()) {
            return Some(i);
        }
        i += 1;
    }
    None
}

/// Symbol `i` answers to the needle.
pub open spec fn answers(symbols: Seq<Symbol>, needle: Seq<char>, i: int) -> bool {
    needle_matches(needle, symbols[i].demangled_name@)
}

/// The places of the first `n` symbols that answer to the needle, in order.
pub open spec fn matching(symbols: Seq<Symbol>, needle: Seq<char>, n: int) -> Seq<usize>
    decreases n,
{
    if n <= 0 {
        Seq::empty()
    } else if answers(symbols, needle, n - 1) {
        matching(symbols, needle, n - 1).push((n - 1) as usize)
    } else {
        matching(symbols, needle, n - 1)
    }
}

/// The places of the symbols whose demangled name answers to the needle, in order.
pub fn matching_symbols(symbols: &[Symbol], matcher: &SymbolMatcher) -> (r: Vec<usize>)
    ensures
        r@ == matching(symbols@, matcher.needle_text(), symbols@.len() as int),
        forall|k: int| 0 <= k < r@.len() ==> (#[trigger] r@[k]) < symbols@.len(),
{
    let mut found: Vec<usize> = Vec::new();
    let mut i: usize = 0;
    while i < symbols.len()
        invariant
            i <= symbols@.len(),
            found@ == matching(symbols@, matcher.needle_text(), i as int),
            forall|k: int| 0 <= k < found@.len() ==> (#[trigger] found@[k]) < symbols@.len(),
        decreases symbols@.len() - i,
    {
        if matcher.matches(symbols[i].demangled_name.as_str()) {
            found.push(i);
        }
        i += 1;
    }
    found
}

/// The widths that the addresses and the sizes of the first `n` of the picked symbols need:
/// the hexadecimal digits of the longest address and the decimal digits of the longest size.
pub open spec fn list_widths(symbols: Seq<Symbol>, picked: Seq<usize>, n: int) -> (int, int)
    decreases n,
{
    if n <= 0 {
        (0, 0)
    } else {
        let before = list_widths(symbols, picked, n - 1);
        let symbol = symbols[picked[n - 1] as int];
        (
            larger(before.0, hex_digits(symbol.addr as nat) as int),
            larger(before.1, decimal_digits(symbol.size as nat) as int),
        )
    }
}

/// The line of a listing of symbols that shows `symbol`: its address in hexadecimal with
/// zeros up to `addr_width` digits, its size with spaces up to `size_width` digits, and its
/// demangled name.
pub open spec fn list_line(symbol: Symbol, addr_width: int, size_width: int) -> Seq<char> {
    "[address: 0x"@ + number_text(symbol.addr as nat, 16, addr_width, '0') + "] [size: "@
        + number_text(symbol.size as nat, 10, size_width, ' ') + " bytes] "@
        + symbol.demangled_name@
}

/// The line of a listing of symbols that shows `symbol`.
pub fn write_list_line(symbol: &Symbol, addr_width: usize, size_width: usize) -> (r: String)
    ensures
        r@ == list_line(*symbol, addr_width as int, size_width as int),
{
    let mut line = String::new();
    push_str(&mut line, "[address: 0x");
    write_number(&mut line, symbol.addr, 16, addr_width, '0');
    push_str(&mut line, "] [size: ");
    write_number(&mut line, symbol.size as u64, 10, size_width, ' ');
    push_str(&mut line, " bytes] ");
    push_str(&mut line, symbol.demangled_name.as_str());
    proof {
        assert(line@ =~= list_line(*symbol, addr_width as int, size_width as int));
    }
    line
}

/// The lines that the first `n` of the picked symbols make.
pub open spec fn list_lines(
    symbols: Seq<Symbol>,
    picked: Seq<usize>,
    addr_width: int,
    size_width: int,
    n: int,
) -> Seq<Seq<char>>
    decreases n,
{
    if n <= 0 {
        Seq::empty()
    } else {
        list_lines(symbols, picked, addr_width, size_width, n - 1).push(
            list_line(symbols[picked[n - 1] as int], addr_width, size_width),
        )
    }
}

/// The listing of the symbols whose demangled name answers to the needle: one line for each,
/// in order, the addresses and the sizes as wide as the widest. It is an error that no symbol
/// answers.
pub fn list_symbols(symbols: &[Symbol], matcher: &SymbolMatcher) -> (r: Result<
    Vec<String>,
    CargoAsmError,
>)
    ensures
        match r {
            Ok(lines) => {
                let picked = matching(symbols@, matcher.needle_text(), symbols@.len() as int);
                let w = list_widths(symbols@, picked, picked.len() as int);
                picked.len() > 0 && texts(lines@) == list_lines(
                    symbols@,
                    picked,
                    w.0,
                    w.1,
                    picked.len() as int,
                )
            },
            Err(error) => matching(symbols@, matcher.needle_text(), symbols@.len() as int).len()
                == 0 && match error {
                CargoAsmError::NoSymbolMatch(needle) => needle@ == matcher.needle_text(),
                _ => false,
            },
        },
{
    let picked = matching_symbols(symbols, matcher);
    if picked.len() == 0 {
        return Err(CargoAsmError::NoSymbolMatch(matcher.needle().to_owned()));
    }
    // First we do a measure step:
    let mut max_addr_len: usize = 0;
    let mut max_size_len: usize = 0;
    let mut i: usize = 0;
    while i < picked.len()
        invariant
            i <= picked@.len(),
            forall|k: int| 0 <= k < picked@.len() ==> (#[trigger] picked@[k]) < symbols@.len(),
            (max_addr_len as int, max_size_len as int) == list_widths(symbols@, picked@, i as int),
        decreases picked@.len() - i,
    {
        let symbol = &symbols[picked[i]];
        let addr_width = addr_len(symbol.addr);
        if addr_width > max_addr_len {
            max_addr_len = addr_width;
        }
        let size_width = off_len(symbol.size);
        if size_width > max_size_len {
            max_size_len = size_width;
        }
        i += 1;
    }
    // Then we output:
    let mut lines: Vec<String> = Vec::new();
    let mut k: usize = 0;
    proof {
        assert(texts(lines@) =~= list_lines(
            symbols@,
            picked@,
            max_addr_len as int,
            max_size_len as int,
            0,
        ));
    }
    while k < picked.len()
        invariant
            k <= picked@.len(),
            forall|j: int| 0 <= j < picked@.len() ==> (#[trigger] picked@[j]) < symbols@.len(),
            texts(lines@) == list_lines(
                symbols@,
                picked@,
                max_addr_len as int,
                max_size_len as int,
                k as int,
            ),
        decreases picked@.len() - k,
    {
        let ghost before = texts(lines@);
        let line = write_list_line(&symbols[picked[k]], max_addr_len, max_size_len);
        lines.push(line);
        proof {
            assert(texts(lines@) =~= before.push(line@));
        }
        k += 1;
    }
    Ok(lines)
}

/// The symbol that `disasm` lists: the first one whose demangled name answers to the needle.
/// It is an error that no symbol answers.
pub fn matched_symbol(symbols: &[Symbol], matcher: &SymbolMatcher) -> (r: Result<
    usize,
    CargoAsmError,
>)
    ensures
        match r {
            Ok(i) => i < symbols@.len() && needle_matches(
                matcher.needle_text(),
                symbols@[i as int].demangled_name@,
            ) && forall|k: int|
                0 <= k < i ==> !needle_matches(
                    matcher.needle_text(),
                    (#[trigger] symbols@[k]).demangled_name@,
                ),
            Err(error) => error matches CargoAsmError::NoSymbolMatch(needle) && needle@
                == matcher.needle_text() && forall|k: int|
                0 <= k < symbols@.len() ==> !needle_matches(
                    matcher.needle_text(),
                    (#[trigger] symbols@[k]).demangled_name@,
                ),
        },
{
    match find_symbol(symbols, matcher) {
        Some(i) => Ok(i),
        None => Err(CargoAsmError::NoSymbolMatch(matcher.needle().to_owned())),
    }
}

/// One thing that a package builds.
pub struct CargoTarget {
    pub name: String,
    /// The kinds of the target: `bin` for a program, `lib` for a library, and others.
    pub kinds: Vec<String>,
}

/// One package of a workspace.
pub struct CargoPackage {
    pub id: String,
    pub targets: Vec<CargoTarget>,
}

/// One of the first `n` kinds is `bin`.
pub open spec fn has_bin_kind(kinds: Seq<String>, n: int) -> bool {
    exists|k: int| 0 <= k < n && (#[trigger] kinds[k])@ == "bin"@
}

/// The target is a program.
pub open spec fn is_bin_target(target: CargoTarget) -> bool {
    has_bin_kind(target.kinds@, target.kinds@.len() as int)
}

/// The names of the programs among the first `n` targets, in order.
pub open spec fn bin_names(targets: Seq<CargoTarget>, n: int) -> Seq<Seq<char>>
    decreases n,
{
    if n <= 0 {
        Seq::empty()
    } else if is_bin_target(targets[n - 1]) {
        bin_names(targets, n - 1).push(targets[n - 1].name@)
    } else {
        bin_names(targets, n - 1)
    }
}

/// The place of the first package from `from` on whose id is `id`.
pub open spec fn package_with_id(packages: Seq<CargoPackage>, id: Seq<char>, from: int) -> Option<int>
    decreases packages.len() - from,
{
    if from < 0 || from >= packages.len() {
        None
    } else if packages[from].id@ == id {
        Some(from)
    } else {
        package_with_id(packages, id, from + 1)
    }
}

/// The names of the programs of the first `n` members of a workspace, member by member. A
/// member stands for the first package with its id; one without a package has no programs.
pub open spec fn workspace_bin_names(
    members: Seq<String>,
    packages: Seq<CargoPackage>,
    n: int,
) -> Seq<Seq<char>>
    decreases n,
{
    if n <= 0 {
        Seq::empty()
    } else {
        workspace_bin_names(members, packages, n - 1) + match package_with_id(
            packages,
            members[n - 1]@,
            0,
        ) {
            Some(p) => bin_names(packages[p].targets@, packages[p].targets@.len() as int),
            None => Seq::empty(),
        }
    }
}

/// Whether the target is a program.
pub fn target_is_bin(target: &CargoTarget) -> (r: bool)
    ensures
        r == is_bin_target(*target),
{
    let mut k: usize = 0;
    while k < target.kinds.len()
        invariant
            k <= target.kinds@.len(),
            !has_bin_kind(target.kinds@, k as int),
        decreases target.kinds@.len() - k,
    {
        if same_text(target.kinds[k].as_str(), "bin") {
            return true;
        }
        k += 1;
    }
    false
}

/// The first package whose id is `id`.
pub fn find_package(packages: &Vec<CargoPackage>, id: &str) -> (r: Option<usize>)
    ensures
        match r {
            Some(p) => package_with_id(packages@, id@, 0) == Some(p as int) && p < packages@.len(),
            None => package_with_id(packages@, id@, 0) is None,
        },
{
    let n = packages.len();
    let mut p: usize = 0;
    while p < n
        invariant
            p <= n,
            n == packages@.len(),
            package_with_id(packages@, id@, 0) == package_with_id(packages@, id@, p as int),
        decreases n - p,
    {
        if same_text(packages[p].id.as_str(), id) {
            return Some(p);
        }
        p += 1;
    }
    None
}

/// The names of the programs that the members of a workspace build, in the order of the
/// members and of their targets.
pub fn bin_target_names(workspace_members: &Vec<String>, packages: &Vec<CargoPackage>) -> (r: Vec<
    String,
>)
    ensures
        texts(r@) == workspace_bin_names(
            workspace_members@,
            packages@,
            workspace_members@.len() as int,
        ),
{
    let mut names: Vec<String> = Vec::new();
    let count = workspace_members.len();
    let mut m: usize = 0;
    while m < count
        invariant
            m <= count,
            count == workspace_members@.len(),
            texts(names@) == workspace_bin_names(workspace_members@, packages@, m as int),
        decreases count - m,
    {
        let ghost before = texts(names@);
        match find_package(packages, workspace_members[m].as_str()) {
            Some(p) => {
                let targets = &packages[p].targets;
                let len = targets.len();
                let mut t: usize = 0;
                while t < len
                    invariant
                        t <= len,
                        len == targets@.len(),
                        texts(names@) == before + bin_names(targets@, t as int),
                    decreases len - t,
                {
                    if target_is_bin(&targets[t]) {
                        let ghost had = texts(names@);
                        names.push(targets[t].name.clone());
                        proof {
                            assert(texts(names@) =~= had.push(targets@[t as int].name@));
                        }
                    }
                    t += 1;
                    proof {
                        assert(texts(names@) =~= before + bin_names(targets@, t as int));
                    }
                }
            },
            None => {
                proof {
                    assert(before + Seq::<Seq<char>>::empty() =~= before);
                }
            },
        }
        m += 1;
    }
    names
}

/// The profile of a build where none is named.
pub open spec fn default_profile() -> Seq<char> {
    seq!['d', 'e', 'b', 'u', 'g']
}

/// The program that the build of a package makes, as the names of the directory and of the
/// file that lead to it from the directory of the build: the profile, `debug` where none is
/// named, and the name of the first of the programs. It is an error that there is none.
pub fn cargo_binary_path(bin_targets: &Vec<String>, profile: Option<&str>) -> (r: Result<
    (String, String),
    CargoAsmError,
>)
    ensures
        match r {
            Ok((directory, name)) => bin_targets@.len() > 0 && name@ == bin_targets@[0]@
                && directory@ == match profile {
                Some(p) => p@,
                None => default_profile(),
            },
            Err(error) => bin_targets@.len() == 0 && error is NoCargoBinary,
        },
{
    if bin_targets.len() == 0 {
        return Err(CargoAsmError::NoCargoBinary);
    }
    let directory = match profile {
        Some(p) => p.to_owned(),
        None => {
            proof {
                reveal_strlit("debug");
                assert("debug"@ =~= default_profile());
            }
            "debug".to_owned()
        },
    };
    Ok((directory, bin_targets[0].clone()))
}

/// Whether the build of a package makes more than one program, so that the one that is
/// picked is worth a warning.
pub fn several_binaries(bin_targets: &Vec<String>) -> (r: bool)
    ensures
        r == (bin_targets@.len() > 1),
{
    bin_targets.len() > 1
}

} // verus!
