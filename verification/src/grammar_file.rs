//! What is decided around the loading of a grammar file: which kind of file
//! it is, how the script runtime is called, and what its output holds.

use vstd::prelude::*;
use crate::cli::edit::{find_separator, separator_at};
use crate::cli::format::{begins_with_word, chars_to_string, slice_chars, spells, starts_with, str_chars};
use crate::grammars::strings_model;
use crate::rules::string_option_model;
use crate::text::{decimal, decimal_digits, push_chars, push_text};

verus! {

/// Why a grammar file could not be loaded.
#[derive(Debug, PartialEq, Eq)]
pub enum LoadError {
    /// The path names a directory.
    IsDirectory,
    /// The file is neither a script nor a JSON file.
    UnknownExtension,
    /// The version of this package is no version.
    InvalidVersion,
    /// The script runtime ended with this status.
    RuntimeFailed(i32),
    /// What the script wrote is no JSON.
    InvalidJson,
}

/// The kind of a grammar file.
#[derive(Clone, Copy, Debug, PartialEq, Eq, Structural)]
pub enum GrammarFileKind {
    /// A script that writes the grammar.
    Js,
    /// The grammar itself.
    Json,
}

/// The kind of the grammar file with the extension `extension`, if the path
/// names a file of a known kind.
pub open spec fn file_kind_of(is_dir: bool, extension: Option<Seq<char>>) -> Result<
    GrammarFileKind,
    LoadError,
> {
    if is_dir {
        Err(LoadError::IsDirectory)
    } else if extension == Some("js"@) {
        Ok(GrammarFileKind::Js)
    } else if extension == Some("json"@) {
        Ok(GrammarFileKind::Json)
    } else {
        Err(LoadError::UnknownExtension)
    }
}

/// The kind of a grammar file, from whether its path names a directory and
/// from its extension.
pub fn grammar_file_kind(is_dir: bool, extension: Option<&str>) -> (r: Result<
    GrammarFileKind,
    LoadError,
>)
    ensures
        r == file_kind_of(is_dir, crate::cli::s_expression::option_text(extension)),
{
    if is_dir {
        return Err(LoadError::IsDirectory);
    }
    match extension {
        Some(text) => {
            let chars = str_chars(text);
            if spells(&chars, "js") {
                Ok(GrammarFileKind::Js)
            } else if spells(&chars, "json") {
                Ok(GrammarFileKind::Json)
            } else {
                Err(LoadError::UnknownExtension)
            }
        },
        None => Err(LoadError::UnknownExtension),
    }
}

/// The runtime that runs the script where none is named.
pub open spec fn runtime_of(js_runtime: Option<Seq<char>>) -> Seq<char> {
    match js_runtime {
        Some(name) => name,
        None => "node"@,
    }
}

/// The name of the runtime that runs the script.
pub fn runtime_name(js_runtime: Option<&str>) -> (name: String)
    ensures
        name@ == runtime_of(crate::cli::s_expression::option_text(js_runtime)),
{
    match js_runtime {
        Some(name) => name.to_owned(),
        None => "node".to_owned(),
    }
}

/// The arguments with which a runtime reads the script from its input.
pub open spec fn runtime_arguments_of(runtime: Seq<char>) -> Seq<Seq<char>> {
    if runtime == "node"@ {
        seq!["--experimental-fetch"@, "--input-type=module"@, "-"@]
    } else if runtime == "bun"@ {
        seq!["-"@]
    } else if runtime == "deno"@ {
        seq!["run"@, "--allow-all"@, "-"@]
    } else {
        Seq::empty()
    }
}

/// The arguments with which the runtime `runtime` reads the script from its
/// input; none for a runtime that is not known.
pub fn runtime_arguments(runtime: &str) -> (arguments: Vec<String>)
    ensures
        strings_model(arguments@) == runtime_arguments_of(runtime@),
{
    let chars = str_chars(runtime);
    let mut arguments: Vec<String> = Vec::new();
    if spells(&chars, "node") {
        arguments.push("--experimental-fetch".to_owned());
        arguments.push("--input-type=module".to_owned());
        arguments.push("-".to_owned());
    } else if spells(&chars, "bun") {
        arguments.push("-".to_owned());
    } else if spells(&chars, "deno") {
        arguments.push("run".to_owned());
        arguments.push("--allow-all".to_owned());
        arguments.push("-".to_owned());
    }
    assert(strings_model(arguments@) =~= runtime_arguments_of(runtime@));
    arguments
}

/// The three numbers of the version that the text writes, as the crate
/// `semver` reads it; nothing where it reads no version.
pub uninterp spec fn semver_numbers(text: Seq<char>) -> Option<(u64, u64, u64)>;

/// Asks `semver` to read a version (`Version::parse`), and hands out its
/// major, minor and patch numbers. Nothing is claimed of which texts are
/// versions: the result is what `semver` reads, and for one text always the
/// same.
#[verifier::external_body]
fn version_numbers(text: &str) -> (r: Option<(u64, u64, u64)>)
    ensures
        r == semver_numbers(text@),
{
    match semver::Version::parse(text) {
        Ok(version) => Some((version.major, version.minor, version.patch)),
        Err(_) => None,
    }
}

/// The statement that tells a script one number of the version.
pub open spec fn version_global_text(part: Seq<char>, number: nat) -> Seq<char> {
    "globalThis.TREE_SITTER_CLI_VERSION_"@ + part + " = "@ + decimal(number) + ";"@
}

/// The statements that tell a script the version of the tool, one on a line.
pub open spec fn version_globals_text(major: nat, minor: nat, patch: nat) -> Seq<char> {
    version_global_text("MAJOR"@, major) + "\n         "@ + version_global_text("MINOR"@, minor)
        + "\n         "@ + version_global_text("PATCH"@, patch)
}

/// Appends the statement for one number of the version.
fn push_version_global(out: &mut String, part: &str, number: u64)
    ensures
        final(out)@ == old(out)@ + version_global_text(part@, number as nat),
{
    push_text(out, "globalThis.TREE_SITTER_CLI_VERSION_");
    push_text(out, part);
    push_text(out, " = ");
    let digits = decimal_digits(number);
    push_chars(out, &digits);
    push_text(out, ";");
    assert(out@ =~= old(out)@ + version_global_text(part@, number as nat));
}

/// The statements that tell a script the version with these numbers.
pub fn version_globals(major: u64, minor: u64, patch: u64) -> (text: String)
    ensures
        text@ == version_globals_text(major as nat, minor as nat, patch as nat),
{
    let mut out = String::new();
    push_version_global(&mut out, "MAJOR", major);
    push_text(&mut out, "\n         ");
    push_version_global(&mut out, "MINOR", minor);
    let ghost first = out@;
    assert(first =~= version_global_text("MAJOR"@, major as nat) + "\n         "@
        + version_global_text("MINOR"@, minor as nat));
    push_text(&mut out, "\n         ");
    push_version_global(&mut out, "PATCH", patch);
    assert(out@ =~= first + "\n         "@ + version_global_text("PATCH"@, patch as nat));
    out
}

/// The statements that tell a script the version `version` of the tool.
pub fn version_preamble(version: &str) -> (r: Result<String, LoadError>)
    ensures
        match semver_numbers(version@) {
            Some((major, minor, patch)) => r matches Ok(text) && text@ == version_globals_text(
                major as nat,
                minor as nat,
                patch as nat,
            ),
            None => r == Err::<String, LoadError>(LoadError::InvalidVersion),
        },
{
    match version_numbers(version) {
        Some((major, minor, patch)) => Ok(version_globals(major, minor, patch)),
        None => Err(LoadError::InvalidVersion),
    }
}

/// The place of the last line feed among the first `k` characters of
/// `text`, if there is one.
pub open spec fn last_line_feed(text: Seq<char>, k: int) -> Option<int>
    decreases k,
{
    if k <= 0 {
        None
    } else if text[k - 1] == '\n' {
        Some(k - 1)
    } else {
        last_line_feed(text, k - 1)
    }
}

/// What a script said before its last line, and its last line: the output
/// is split at its last line feed; without one the script said nothing, and
/// all of the output is its last line.
pub open spec fn split_at_last_line(text: Seq<char>) -> (Option<Seq<char>>, Seq<char>) {
    match last_line_feed(text, text.len() as int) {
        Some(at) => (Some(text.take(at)), text.skip(at + 1)),
        None => (None, text),
    }
}

/// Splits the output of a script into what it said and its last line,
/// which holds the grammar.
pub fn split_output(stdout: &str) -> (r: (Option<String>, String))
    ensures
        string_option_model(r.0) == split_at_last_line(stdout@).0,
        r.1@ == split_at_last_line(stdout@).1,
{
    let chars = str_chars(stdout);
    let mut k = chars.len();
    while k > 0 && chars[k - 1] != '\n'
        invariant
            k <= chars@.len(),
            last_line_feed(chars@, chars@.len() as int) == last_line_feed(chars@, k as int),
        decreases k,
    {
        k -= 1;
    }
    if k == 0 {
        (None, stdout.to_owned())
    } else {
        let said = chars_to_string(&slice_chars(&chars, 0, k - 1));
        let last = chars_to_string(&slice_chars(&chars, k, chars.len()));
        (Some(said), last)
    }
}

/// The JSON text `text` as `serde_json` writes it out again, indented;
/// nothing where `text` is no JSON.
pub uninterp spec fn pretty_json(text: Seq<char>) -> Option<Seq<char>>;

/// Asks `serde_json` to read a text as a JSON value (`from_str`) and to write
/// the value out indented (`to_string_pretty`). Nothing is claimed of the
/// layout: the result is what `serde_json` writes, and for one text always
/// the same.
#[verifier::external_body]
fn reformat_json(text: &str) -> (r: Option<String>)
    ensures
        string_option_model(r) == pretty_json(text@),
{
    match serde_json::from_str::<serde_json::Value>(text) {
        Ok(value) => serde_json::to_string_pretty(&value).ok(),
        Err(_) => None,
    }
}

/// The text of the grammar, given the grammar written out again: it ends in
/// a line feed.
pub fn finish_grammar_json(pretty: Option<String>) -> (r: Result<String, LoadError>)
    ensures
        match pretty {
            Some(text) => r matches Ok(json) && json@ == text@ + "\n"@,
            None => r == Err::<String, LoadError>(LoadError::InvalidJson),
        },
{
    match pretty {
        Some(text) => {
            let mut json = text;
            push_text(&mut json, "\n");
            Ok(json)
        },
        None => Err(LoadError::InvalidJson),
    }
}

/// What a script said, and the grammar that its last line holds, written
/// out again.
pub fn grammar_from_output(stdout: &str) -> (r: Result<(Option<String>, String), LoadError>)
    ensures
        match pretty_json(split_at_last_line(stdout@).1) {
            Some(text) => r matches Ok(pair) && string_option_model(pair.0) == split_at_last_line(
                stdout@,
            ).0 && pair.1@ == text + "\n"@,
            None => r == Err::<(Option<String>, String), LoadError>(LoadError::InvalidJson),
        },
{
    let (said, last) = split_output(stdout);
    match finish_grammar_json(reformat_json(last.as_str())) {
        Ok(json) => Ok((said, json)),
        Err(fault) => Err(fault),
    }
}

/// What the status with which a runtime ended means: nothing is wrong with
/// zero, and every other status is a failure.
pub fn runtime_fault(status: i32) -> (fault: Option<LoadError>)
    ensures
        fault == if status == 0 {
            None
        } else {
            Some(LoadError::RuntimeFailed(status))
        },
{
    if status == 0 {
        None
    } else {
        Some(LoadError::RuntimeFailed(status))
    }
}

/// The name of a grammar whose directory has the name `file_name`: what
/// follows `tree-sitter-` in it, and a word to be replaced where the name
/// does not begin so.
pub open spec fn grammar_name_of(file_name: Option<Seq<char>>) -> Seq<char> {
    match file_name {
        Some(name) => if starts_with(name, "tree-sitter-"@) {
            name.skip("tree-sitter-"@.len() as int)
        } else {
            "YOUR_LANGUAGE_NAME"@
        },
        None => "YOUR_LANGUAGE_NAME"@,
    }
}

/// The name of a grammar from the name of its directory.
pub fn grammar_name(file_name: Option<&str>) -> (name: String)
    ensures
        name@ == grammar_name_of(crate::cli::s_expression::option_text(file_name)),
{
    match file_name {
        Some(text) => {
            let chars = str_chars(text);
            if begins_with_word(&chars, "tree-sitter-") {
                let prefix = str_chars("tree-sitter-");
                let rest = slice_chars(&chars, prefix.len(), chars.len());
                assert(rest@ =~= chars@.skip("tree-sitter-"@.len() as int));
                chars_to_string(&rest)
            } else {
                "YOUR_LANGUAGE_NAME".to_owned()
            }
        },
        None => "YOUR_LANGUAGE_NAME".to_owned(),
    }
}

/// Those among the first `k` of `dirs` that are empty, where `empty` is
/// set, and those that are not, where it is not, in their order.
pub open spec fn dirs_kept(dirs: Seq<Seq<char>>, empty: bool, k: int) -> Seq<Seq<char>>
    decreases k,
{
    if k <= 0 {
        Seq::empty()
    } else if (dirs[k - 1].len() == 0) == empty {
        dirs_kept(dirs, empty, k - 1).push(dirs[k - 1])
    } else {
        dirs_kept(dirs, empty, k - 1)
    }
}

/// The directories in which modules are looked for, once a module was found
/// in `dir`: unchanged where `dir` is among them, and else with `dir` added
/// and the empty directory, which stands for the current one, moved behind
/// all others.
pub open spec fn dirs_with(dirs: Seq<Seq<char>>, dir: Seq<char>) -> Seq<Seq<char>> {
    if dirs.contains(dir) {
        dirs
    } else {
        let all = dirs.push(dir);
        dirs_kept(all, false, all.len() as int) + dirs_kept(all, true, all.len() as int)
    }
}

/// Copies those of `dirs` that are empty, or those that are not, to the
/// end of `out`.
fn push_dirs_kept(out: &mut Vec<String>, dirs: &Vec<String>, empty: bool)
    ensures
        strings_model(final(out)@) == strings_model(old(out)@) + dirs_kept(
            strings_model(dirs@),
            empty,
            dirs@.len() as int,
        ),
{
    let mut k: usize = 0;
    assert(strings_model(out@) =~= strings_model(old(out)@) + dirs_kept(
        strings_model(dirs@),
        empty,
        0,
    ));
    while k < dirs.len()
        invariant
            k <= dirs@.len(),
            strings_model(out@) == strings_model(old(out)@) + dirs_kept(
                strings_model(dirs@),
                empty,
                k as int,
            ),
        decreases dirs@.len() - k,
    {
        let ghost before = strings_model(out@);
        assert(strings_model(dirs@)[k as int] == dirs@[k as int]@);
        if (dirs[k].as_str().unicode_len() == 0) == empty {
            out.push(dirs[k].clone());
            assert(strings_model(out@) =~= before.push(dirs@[k as int]@));
        }
        assert(strings_model(out@) =~= strings_model(old(out)@) + dirs_kept(
            strings_model(dirs@),
            empty,
            k + 1,
        ));
        k += 1;
    }
}

/// The directories in which modules are looked for, once a module was found
/// in `dir`.
pub fn searchable_dirs_with(dirs: &Vec<String>, dir: &str) -> (out: Vec<String>)
    ensures
        strings_model(out@) == dirs_with(strings_model(dirs@), dir@),
{
    let wanted = str_chars(dir);
    let mut all = crate::grammars::clone_strings(dirs);
    let mut k: usize = 0;
    while k < dirs.len()
        invariant
            k <= dirs@.len(),
            wanted@ == dir@,
            strings_model(all@) == strings_model(dirs@),
            forall|j: int| 0 <= j < k ==> strings_model(dirs@)[j] != dir@,
        decreases dirs@.len() - k,
    {
        assert(strings_model(dirs@)[k as int] == dirs@[k as int]@);
        if spells(&wanted, dirs[k].as_str()) {
            assert(strings_model(dirs@).contains(dir@));
            return all;
        }
        k += 1;
    }
    assert(!strings_model(dirs@).contains(dir@));
    all.push(dir.to_owned());
    assert(strings_model(all@) =~= strings_model(dirs@).push(dir@));
    let mut out: Vec<String> = Vec::new();
    push_dirs_kept(&mut out, &all, false);
    push_dirs_kept(&mut out, &all, true);
    assert(strings_model(out@) =~= dirs_with(strings_model(dirs@), dir@));
    out
}

} // verus!
