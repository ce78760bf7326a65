//! The arguments with which the C compiler builds the freestanding
//! WebAssembly module of the runtime.

use vstd::prelude::*;
use crate::cli::format::{chars_to_string, str_chars};
use crate::cli::lines::{lines_model, split_lines, text_lines, trim, trimmed, Trim};
use crate::grammars::strings_model;
use crate::text::{push_chars, push_text};

verus! {

/// The argument that exports the symbol on `line`: the line without the
/// double quotes around it, behind the option of the linker.
pub open spec fn export_flag(line: Seq<char>) -> Seq<char> {
    "-Wl,--export="@ + trimmed(Trim::Quotes, line)
}

/// The arguments that export the symbols on the first `k` of `lines`.
pub open spec fn export_flags_upto(lines: Seq<Seq<char>>, k: int) -> Seq<Seq<char>>
    decreases k,
{
    if k <= 0 {
        Seq::empty()
    } else {
        export_flags_upto(lines, k - 1).push(export_flag(lines[k - 1]))
    }
}

/// The arguments that export the symbols that `text` lists, one on a line.
pub open spec fn export_flags_of(text: Seq<char>) -> Seq<Seq<char>> {
    let lines = text_lines(text);
    export_flags_upto(lines, lines.len() as int)
}

/// The arguments that export the symbols that `exports` lists.
pub fn export_flags(exports: &str) -> (flags: Vec<String>)
    ensures
        strings_model(flags@) == export_flags_of(exports@),
{
    let lines = split_lines(&str_chars(exports));
    let mut flags: Vec<String> = Vec::new();
    let mut k: usize = 0;
    assert(strings_model(flags@) =~= Seq::<Seq<char>>::empty());
    while k < lines.len()
        invariant
            k <= lines@.len(),
            lines_model(lines@) == text_lines(exports@),
            strings_model(flags@) == export_flags_upto(lines_model(lines@), k as int),
        decreases lines@.len() - k,
    {
        let ghost before = strings_model(flags@);
        assert(lines_model(lines@)[k as int] == lines@[k as int]@);
        let name = trim(Trim::Quotes, &lines[k]);
        let mut flag = String::new();
        push_text(&mut flag, "-Wl,--export=");
        push_chars(&mut flag, &name);
        assert(flag@ =~= export_flag(lines@[k as int]@));
        flags.push(flag);
        assert(strings_model(flags@) =~= before.push(export_flag(lines@[k as int]@)));
        k += 1;
    }
    flags
}

/// The arguments that do not depend on how the module is built: the target
/// without any library, what is included, what the linker imports and
/// exports, the output and the sources.
pub open spec fn fixed_flags() -> Seq<Seq<char>> {
    seq![
        "--target=wasm32-unknown-unknown"@,
        "--no-standard-libraries"@,
        "-nostdlib"@,
        "-fno-builtin"@,
        "-ffreestanding"@,
        "-fvisibility=hidden"@,
        "-fno-zero-initialized-in-bss"@,
        "-fno-common"@,
        "-D_POSIX_C_SOURCE=200112L"@,
        "-D_DEFAULT_SOURCE="@,
        "-DNDEBUG="@,
        "-Ilib/src"@,
        "-Ilib/include"@,
        "-Icrates/language/wasm/include"@,
        "-Wl,--no-entry"@,
        "-Wl,--import-memory"@,
        "-Wl,--import-table"@,
        "-Wl,--export-all"@,
        "-Wl,--allow-undefined"@,
        "-fuse-ld=lld"@,
        "-v"@,
        "-o"@,
        "lib/binding_web/web-tree-sitter.wasm"@,
        "lib/src/lib.c"@,
        "crates/language/wasm/src/stdlib.c"@,
        "crates/language/wasm/src/stdio.c"@,
        "crates/language/wasm/src/string.c"@,
    ]
}

/// The arguments that depend on how the module is built: without
/// optimisation and with debug information for a debug build, and else
/// optimised at compile and at link time, without debug information.
pub open spec fn mode_flags(debug: bool) -> Seq<Seq<char>> {
    if debug {
        seq!["-O0"@, "-g"@]
    } else {
        seq!["-O3"@, "-flto"@, "-Wl,--lto-O3"@, "-Wl,--strip-debug"@]
    }
}

/// Appends `flag` to `flags`.
fn push_flag(flags: &mut Vec<String>, flag: &str)
    ensures
        strings_model(final(flags)@) == strings_model(old(flags)@).push(flag@),
{
    flags.push(flag.to_owned());
    assert(strings_model(flags@) =~= strings_model(old(flags)@).push(flag@));
}

/// The arguments that do not depend on how the module is built.
fn fixed_compiler_flags() -> (flags: Vec<String>)
    ensures
        strings_model(flags@) == fixed_flags(),
{
    let mut flags: Vec<String> = Vec::new();
    assert(strings_model(flags@) =~= Seq::<Seq<char>>::empty());
    push_flag(&mut flags, "--target=wasm32-unknown-unknown");
    push_flag(&mut flags, "--no-standard-libraries");
    push_flag(&mut flags, "-nostdlib");
    push_flag(&mut flags, "-fno-builtin");
    push_flag(&mut flags, "-ffreestanding");
    push_flag(&mut flags, "-fvisibility=hidden");
    push_flag(&mut flags, "-fno-zero-initialized-in-bss");
    push_flag(&mut flags, "-fno-common");
    push_flag(&mut flags, "-D_POSIX_C_SOURCE=200112L");
    push_flag(&mut flags, "-D_DEFAULT_SOURCE=");
    push_flag(&mut flags, "-DNDEBUG=");
    push_flag(&mut flags, "-Ilib/src");
    push_flag(&mut flags, "-Ilib/include");
    push_flag(&mut flags, "-Icrates/language/wasm/include");
    push_flag(&mut flags, "-Wl,--no-entry");
    push_flag(&mut flags, "-Wl,--import-memory");
    push_flag(&mut flags, "-Wl,--import-table");
    push_flag(&mut flags, "-Wl,--export-all");
    push_flag(&mut flags, "-Wl,--allow-undefined");
    push_flag(&mut flags, "-fuse-ld=lld");
    push_flag(&mut flags, "-v");
    push_flag(&mut flags, "-o");
    push_flag(&mut flags, "lib/binding_web/web-tree-sitter.wasm");
    push_flag(&mut flags, "lib/src/lib.c");
    push_flag(&mut flags, "crates/language/wasm/src/stdlib.c");
    push_flag(&mut flags, "crates/language/wasm/src/stdio.c");
    push_flag(&mut flags, "crates/language/wasm/src/string.c");
    assert(strings_model(flags@) =~= fixed_flags());
    flags
}

/// The arguments of the compiler for a debug build or for a release build.
pub fn compiler_flags(debug: bool) -> (flags: Vec<String>)
    ensures
        strings_model(flags@) == fixed_flags() + mode_flags(debug),
{
    let mut flags = fixed_compiler_flags();
    if debug {
        push_flag(&mut flags, "-O0");
        push_flag(&mut flags, "-g");
    } else {
        push_flag(&mut flags, "-O3");
        push_flag(&mut flags, "-flto");
        push_flag(&mut flags, "-Wl,--lto-O3");
        push_flag(&mut flags, "-Wl,--strip-debug");
    }
    assert(strings_model(flags@) =~= fixed_flags() + mode_flags(debug));
    flags
}

/// The files of an earlier build, which are removed before the module is
/// built.
pub fn stale_files() -> (files: Vec<String>)
    ensures
        strings_model(files@) == seq![
            "web-tree-sitter.wasm"@,
            "web-tree-sitter.wasm.map"@,
            "web-tree-sitter.js"@,
            "web-tree-sitter.mjs"@,
        ],
{
    let mut files: Vec<String> = Vec::new();
    assert(strings_model(files@) =~= Seq::<Seq<char>>::empty());
    push_flag(&mut files, "web-tree-sitter.wasm");
    push_flag(&mut files, "web-tree-sitter.wasm.map");
    push_flag(&mut files, "web-tree-sitter.js");
    push_flag(&mut files, "web-tree-sitter.mjs");
    assert(strings_model(files@) =~= seq![
        "web-tree-sitter.wasm"@,
        "web-tree-sitter.wasm.map"@,
        "web-tree-sitter.js"@,
        "web-tree-sitter.mjs"@,
    ]);
    files
}

} // verus!
