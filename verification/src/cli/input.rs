//! What the tool is asked to parse: files, named by their paths, and snippets
//! of source text.
use vstd::prelude::*;
use crate::cli::error::{CliError, CliErrorModel};
use crate::cli::format::{chars_to_string, slice_chars, str_chars};

verus! {

/// One thing to parse: the file at a path, or a snippet of source text.
#[derive(Debug, PartialEq, Eq)]
pub enum Input {
    File(String),
    Snippet(String),
}

pub enum InputModel {
    File(Seq<char>),
    Snippet(Seq<char>),
}

impl View for Input {
    type V = InputModel;

    open spec fn view(&self) -> InputModel {
        match self {
            Input::File(p) => InputModel::File(p@),
            Input::Snippet(s) => InputModel::Snippet(s@),
        }
    }
}

/// The things to parse, in order.
#[derive(Debug, PartialEq, Eq)]
pub struct Inputs(pub Vec<Input>);

pub open spec fn inputs_model(inputs: Seq<Input>) -> Seq<InputModel> {
    Seq::new(inputs.len(), |i: int| inputs[i]@)
}

impl View for Inputs {
    type V = Seq<InputModel>;

    open spec fn view(&self) -> Seq<InputModel> {
        inputs_model(self.0@)
    }
}

/// The place of the first file with the path `path` among the first `k`
/// inputs.
pub open spec fn file_index(inputs: Seq<InputModel>, path: Seq<char>, k: int) -> Option<int>
    decreases k,
{
    if k <= 0 {
        None
    } else {
        match file_index(inputs, path, k - 1) {
            Some(i) => Some(i),
            None => if inputs[k - 1] == InputModel::File(path) {
                Some(k - 1)
            } else {
                None
            },
        }
    }
}

/// The inputs with the path `path` taken in: added at the end where it is
/// wanted; otherwise the first file with that path is taken out.
pub open spec fn with_path(inputs: Seq<InputModel>, path: Seq<char>, positive: bool) -> Seq<
    InputModel,
> {
    if positive {
        inputs.push(InputModel::File(path))
    } else {
        match file_index(inputs, path, inputs.len() as int) {
            Some(i) => inputs.remove(i),
            None => inputs,
        }
    }
}

/// How many `!` stand at the start of `text`, counted from `from`.
pub open spec fn marks_from(text: Seq<char>, from: int) -> int
    decreases text.len() - from,
{
    if from < 0 || from >= text.len() || text[from] != '!' {
        from
    } else {
        marks_from(text, from + 1)
    }
}

/// Whether the path is wanted, and the path itself: a path that begins with
/// `!` is not wanted, and is what follows the marks.
pub open spec fn negation_split(text: Seq<char>) -> (bool, Seq<char>) {
    if text.len() > 0 && text[0] == '!' {
        (false, text.skip(marks_from(text, 0)))
    } else {
        (true, text)
    }
}

/// The length, in characters, of the longest path among the first `k`
/// inputs.
pub open spec fn longest_path(inputs: Seq<InputModel>, k: int) -> int
    decreases k,
{
    if k <= 0 {
        0
    } else {
        let known = longest_path(inputs, k - 1);
        match inputs[k - 1] {
            InputModel::File(p) => if p.len() > known {
                p.len() as int
            } else {
                known
            },
            InputModel::Snippet(_) => known,
        }
    }
}

/// The paths of the first `k` inputs, if all of them are files.
pub open spec fn paths_of(inputs: Seq<InputModel>, k: int) -> Option<Seq<Seq<char>>>
    decreases k,
{
    if k <= 0 {
        Some(Seq::empty())
    } else {
        match paths_of(inputs, k - 1) {
            None => None,
            Some(paths) => match inputs[k - 1] {
                InputModel::File(p) => Some(paths.push(p)),
                InputModel::Snippet(_) => None,
            },
        }
    }
}

pub proof fn lemma_file_index_stays(inputs: Seq<InputModel>, path: Seq<char>, k: int, m: int)
    requires
        0 <= k <= m,
        file_index(inputs, path, k) is Some,
    ensures
        file_index(inputs, path, m) == file_index(inputs, path, k),
    decreases m - k,
{
    if k < m {
        lemma_file_index_stays(inputs, path, k, m - 1);
    }
}

pub proof fn lemma_paths_failure_stays(inputs: Seq<InputModel>, k: int, m: int)
    requires
        0 <= k <= m,
        paths_of(inputs, k) is None,
    ensures
        paths_of(inputs, m) is None,
    decreases m - k,
{
    if k < m {
        lemma_paths_failure_stays(inputs, k, m - 1);
    }
}

/// Whether the path is wanted, and the path itself.
pub fn split_negation(path: &str) -> (r: (bool, String))
    ensures
        (r.0, r.1@) == negation_split(path@),
{
    let chars = str_chars(path);
    if chars.len() > 0 && chars[0] == '!' {
        let mut from: usize = 0;
        while from < chars.len() && chars[from] == '!'
            invariant
                from <= chars@.len(),
                marks_from(chars@, 0) == marks_from(chars@, from as int),
            decreases chars@.len() - from,
        {
            from += 1;
        }
        let rest = slice_chars(&chars, from, chars.len());
        assert(rest@ =~= chars@.skip(from as int));
        (false, chars_to_string(&rest))
    } else {
        (true, path.to_owned())
    }
}

impl Inputs {
    /// No inputs yet.
    pub fn new() -> (inputs: Inputs)
        ensures
            inputs@ == Seq::<InputModel>::empty(),
    {
        let inputs = Inputs(Vec::new());
        assert(inputs@ =~= Seq::empty());
        inputs
    }

    /// Takes the path `path` in: it is added where it is wanted; otherwise
    /// the first file with that path is taken out.
    pub fn incorporate_path(&mut self, path: &str, positive: bool)
        ensures
            final(self)@ == with_path(old(self)@, path@, positive),
    {
        let ghost before = self@;
        if positive {
            let input = Input::File(path.to_owned());
            self.0.push(input);
            assert(self@ =~= before.push(input@));
        } else {
            let wanted = path.to_owned();
            let mut i: usize = 0;
            while i < self.0.len()
                invariant
                    i <= self.0@.len(),
                    self@ == before,
                    before == old(self)@,
                    wanted@ == path@,
                    !positive,
                    file_index(before, path@, i as int) is None,
                decreases self.0@.len() - i,
            {
                assert(before[i as int] == self.0@[i as int]@);
                let hit = match &self.0[i] {
                    Input::File(p) => *p == wanted,
                    Input::Snippet(_) => false,
                };
                if hit {
                    proof {
                        assert(file_index(before, path@, i + 1) == Some(i as int));
                        lemma_file_index_stays(before, path@, i + 1, before.len() as int);
                    }
                    let ghost known = self.0@;
                    self.0.remove(i);
                    assert(self@ =~= before.remove(i as int));
                    return ;
                }
                i += 1;
            }
        }
    }

    /// Adds the snippet `text`.
    pub fn push_snippet(&mut self, text: String)
        ensures
            final(self)@ == old(self)@.push(InputModel::Snippet(text@)),
    {
        let ghost before = self@;
        let input = Input::Snippet(text);
        self.0.push(input);
        assert(self@ =~= before.push(input@));
    }

    /// The inputs, if there is one at least.
    pub fn collect(self) -> (r: Result<Inputs, CliError>)
        ensures
            if self@.len() == 0 {
                r matches Err(e) && e@ == CliErrorModel::NoInputs
            } else {
                r matches Ok(inputs) && inputs@ == self@
            },
    {
        if self.0.len() == 0 {
            assert(self@.len() == 0);
            Err(CliError::NoInputs)
        } else {
            assert(self@.len() == self.0@.len());
            Ok(self)
        }
    }

    /// The length, in characters, of the longest path of a file among the
    /// inputs; zero where there is no file.
    pub fn max_path_length(&self) -> (n: usize)
        ensures
            n as int == longest_path(self@, self@.len() as int),
    {
        let ghost all = self@;
        let mut longest: usize = 0;
        let mut k: usize = 0;
        while k < self.0.len()
            invariant
                k <= self.0@.len(),
                all == self@,
                longest as int == longest_path(all, k as int),
            decreases self.0@.len() - k,
        {
            assert(all[k as int] == self.0@[k as int]@);
            match &self.0[k] {
                Input::File(p) => {
                    let n = p.as_str().unicode_len();
                    if n > longest {
                        longest = n;
                    }
                },
                Input::Snippet(_) => {},
            }
            k += 1;
        }
        assert(all.len() == self.0@.len());
        longest
    }
}

/// The paths of the inputs. Fails with `SnippetsUnsupported` where an input
/// is a snippet.
pub fn collect_paths(inputs: Inputs) -> (r: Result<Vec<String>, CliError>)
    ensures
        match paths_of(inputs@, inputs@.len() as int) {
            Some(paths) => r matches Ok(v) && crate::grammars::strings_model(v@) == paths,
            None => r matches Err(e) && e@ == CliErrorModel::SnippetsUnsupported,
        },
{
    let ghost all = inputs@;
    let mut paths: Vec<String> = Vec::new();
    assert(crate::grammars::strings_model(paths@) =~= Seq::empty());
    let mut k: usize = 0;
    while k < inputs.0.len()
        invariant
            k <= inputs.0@.len(),
            all == inputs@,
            paths_of(all, k as int) == Some(crate::grammars::strings_model(paths@)),
        decreases inputs.0@.len() - k,
    {
        assert(all[k as int] == inputs.0@[k as int]@);
        match &inputs.0[k] {
            Input::File(p) => {
                let ghost before = paths@;
                paths.push(p.clone());
                assert(crate::grammars::strings_model(paths@)
                    =~= crate::grammars::strings_model(before).push(p@));
            },
            Input::Snippet(_) => {
                proof {
                    assert(paths_of(all, k + 1) is None);
                    lemma_paths_failure_stays(all, k + 1, all.len() as int);
                }
                return Err(CliError::SnippetsUnsupported);
            },
        }
        k += 1;
    }
    assert(all.len() == inputs.0@.len());
    Ok(paths)
}

/// An argument that names input: a path or a pattern of paths, or the text
/// of a snippet.
#[derive(Debug, PartialEq, Eq)]
pub enum Argument {
    Path(String),
    Snippet(String),
}

pub enum ArgumentModel {
    Path(Seq<char>),
    Snippet(Seq<char>),
}

impl View for Argument {
    type V = ArgumentModel;

    open spec fn view(&self) -> ArgumentModel {
        match self {
            Argument::Path(text) => ArgumentModel::Path(text@),
            Argument::Snippet(text) => ArgumentModel::Snippet(text@),
        }
    }
}

/// The arguments of `arguments`.
pub open spec fn arguments_model(arguments: Seq<Argument>) -> Seq<ArgumentModel> {
    Seq::new(arguments.len(), |i: int| arguments[i]@)
}

/// What the first `k` of `words` name, and whether the next word is the
/// text of a snippet: a dash says that a snippet follows, the word behind a
/// dash is that snippet, and every other word is a path.
pub open spec fn classified(words: Seq<Seq<char>>, k: int) -> (Seq<ArgumentModel>, bool)
    decreases k,
{
    if k <= 0 {
        (Seq::empty(), false)
    } else {
        let (before, snippet_follows) = classified(words, k - 1);
        if snippet_follows {
            (before.push(ArgumentModel::Snippet(words[k - 1])), false)
        } else if words[k - 1] == "-"@ {
            (before, true)
        } else {
            (before.push(ArgumentModel::Path(words[k - 1])), false)
        }
    }
}

/// What the words of the command line name, in their order, and whether a
/// dash stands at their end, so that a snippet is to be read from the
/// standard input.
pub fn classify_arguments(words: &Vec<String>) -> (r: (Vec<Argument>, bool))
    ensures
        (arguments_model(r.0@), r.1) == classified(
            crate::grammars::strings_model(words@),
            words@.len() as int,
        ),
{
    let mut out: Vec<Argument> = Vec::new();
    let mut snippet_follows = false;
    let mut k: usize = 0;
    assert(arguments_model(out@) =~= Seq::<ArgumentModel>::empty());
    while k < words.len()
        invariant
            k <= words@.len(),
            (arguments_model(out@), snippet_follows) == classified(
                crate::grammars::strings_model(words@),
                k as int,
            ),
        decreases words@.len() - k,
    {
        let ghost before = arguments_model(out@);
        assert(crate::grammars::strings_model(words@)[k as int] == words@[k as int]@);
        if snippet_follows {
            out.push(Argument::Snippet(words[k].clone()));
            snippet_follows = false;
            assert(arguments_model(out@) =~= before.push(ArgumentModel::Snippet(words@[k as int]@)));
        } else if crate::cli::format::spells(&crate::cli::format::str_chars(words[k].as_str()), "-") {
            snippet_follows = true;
        } else {
            out.push(Argument::Path(words[k].clone()));
            assert(arguments_model(out@) =~= before.push(ArgumentModel::Path(words@[k as int]@)));
        }
        k += 1;
    }
    (out, snippet_follows)
}

/// The paths among the first `k` of `lines`: each line without the white
/// space around it, unless nothing is left of it.
pub open spec fn paths_in(lines: Seq<Seq<char>>, k: int) -> Seq<Seq<char>>
    decreases k,
{
    if k <= 0 {
        Seq::empty()
    } else {
        let path = crate::cli::lines::trimmed(crate::cli::lines::Trim::Blanks, lines[k - 1]);
        if path.len() > 0 {
            paths_in(lines, k - 1).push(path)
        } else {
            paths_in(lines, k - 1)
        }
    }
}

/// The paths that a file of paths holds, one on a line.
pub open spec fn listed_paths(text: Seq<char>) -> Seq<Seq<char>> {
    let lines = crate::cli::lines::text_lines(text);
    paths_in(lines, lines.len() as int)
}

/// The paths that the text of a file of paths holds.
pub fn path_lines(text: &str) -> (paths: Vec<String>)
    ensures
        crate::grammars::strings_model(paths@) == listed_paths(text@),
{
    let lines = crate::cli::lines::split_lines(&crate::cli::format::str_chars(text));
    let mut paths: Vec<String> = Vec::new();
    let mut k: usize = 0;
    assert(crate::grammars::strings_model(paths@) =~= Seq::<Seq<char>>::empty());
    while k < lines.len()
        invariant
            k <= lines@.len(),
            crate::cli::lines::lines_model(lines@) == crate::cli::lines::text_lines(text@),
            crate::grammars::strings_model(paths@) == paths_in(
                crate::cli::lines::lines_model(lines@),
                k as int,
            ),
        decreases lines@.len() - k,
    {
        let ghost before = crate::grammars::strings_model(paths@);
        assert(crate::cli::lines::lines_model(lines@)[k as int] == lines@[k as int]@);
        let path = crate::cli::lines::trim(crate::cli::lines::Trim::Blanks, &lines[k]);
        if path.len() > 0 {
            paths.push(crate::cli::format::chars_to_string(&path));
            assert(crate::grammars::strings_model(paths@) =~= before.push(path@));
        }
        k += 1;
    }
    paths
}

} // verus!
