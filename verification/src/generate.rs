//! The compiler as a whole: from a grammar document to the source text of a
//! parser and the description of its nodes.
use vstd::prelude::*;
use crate::build_tables::{build_tables, built_tables};
use crate::error::{CompileError, CompileErrorModel};
use crate::grammars::{
    clone_strings, name_groups_model, orderings_model, pruned, strings_model, variables_model,
    InputGrammar, InputGrammarModel, PrecedenceEntry, PrecedenceEntryModel, Variable,
    VariableModel,
};
use crate::node_types::{generate_node_types, node_types};
use crate::prepare_grammar::intern_symbols::{clone_orderings, kind_for_name, kind_of_name};
use crate::prepare_grammar::{prepare_grammar, prepared};
use crate::render::{node_types_json, render_c_code, render_node_types, source_text};
use crate::rules::{
    clone_rules, clone_string_option, rule_models, string_option_model, Rule, RuleModel,
};

verus! {

/// The version of the table format that the generated source text declares.
pub const LANGUAGE_VERSION: usize = 14;

/// A grammar document, decoded: the name of the language, the rules by name
/// in the order in which they are written, and the lists that go with them.
/// The first rule is the start rule.
#[derive(Debug, PartialEq, Eq)]
pub struct GrammarDocument {
    pub name: String,
    pub rules: Vec<(String, Rule)>,
    pub extras: Vec<Rule>,
    pub conflicts: Vec<Vec<String>>,
    pub precedences: Vec<Vec<PrecedenceEntry>>,
    pub externals: Vec<Rule>,
    pub inline: Vec<String>,
    pub supertypes: Vec<String>,
    pub word: Option<String>,
}

pub struct GrammarDocumentModel {
    pub name: Seq<char>,
    pub rules: Seq<(Seq<char>, RuleModel)>,
    pub extras: Seq<RuleModel>,
    pub conflicts: Seq<Seq<Seq<char>>>,
    pub precedences: Seq<Seq<PrecedenceEntryModel>>,
    pub externals: Seq<RuleModel>,
    pub inline: Seq<Seq<char>>,
    pub supertypes: Seq<Seq<char>>,
    pub word: Option<Seq<char>>,
}

pub open spec fn named_rules_model(rules: Seq<(String, Rule)>) -> Seq<(Seq<char>, RuleModel)> {
    Seq::new(rules.len(), |i: int| (rules[i].0@, rules[i].1@))
}

impl View for GrammarDocument {
    type V = GrammarDocumentModel;

    open spec fn view(&self) -> GrammarDocumentModel {
        GrammarDocumentModel {
            name: self.name@,
            rules: named_rules_model(self.rules@),
            extras: rule_models(self.extras@),
            conflicts: name_groups_model(self.conflicts@),
            precedences: orderings_model(self.precedences@),
            externals: rule_models(self.externals@),
            inline: strings_model(self.inline@),
            supertypes: strings_model(self.supertypes@),
            word: string_option_model(self.word),
        }
    }
}

/// The source text of a parser and the description of its nodes.
#[derive(Debug, PartialEq, Eq)]
pub struct GeneratedParser {
    pub c_code: String,
    pub node_types_json: String,
}

pub struct GeneratedParserModel {
    pub c_code: Seq<char>,
    pub node_types_json: Seq<char>,
}

impl View for GeneratedParser {
    type V = GeneratedParserModel;

    open spec fn view(&self) -> GeneratedParserModel {
        GeneratedParserModel { c_code: self.c_code@, node_types_json: self.node_types_json@ }
    }
}

/// The grammar that the document declares, with every rule as the document
/// has it: a rule whose name begins with an underscore is hidden, any other
/// is named.
pub open spec fn declared_grammar(doc: GrammarDocumentModel) -> InputGrammarModel {
    InputGrammarModel {
        name: doc.name,
        variables: Seq::new(
            doc.rules.len(),
            |i: int|
                VariableModel {
                    name: doc.rules[i].0,
                    kind: kind_of_name(doc.rules[i].0),
                    rule: doc.rules[i].1,
                },
        ),
        extra_symbols: doc.extras,
        expected_conflicts: doc.conflicts,
        precedence_orderings: doc.precedences,
        external_tokens: doc.externals,
        variables_to_inline: doc.inline,
        supertype_symbols: doc.supertypes,
        word_token: doc.word,
    }
}

/// The grammar of the document without the rules that its start rule does
/// not reach; a document without rules is an error.
pub open spec fn loaded_grammar(doc: GrammarDocumentModel) -> Result<
    InputGrammarModel,
    CompileErrorModel,
> {
    if doc.rules.len() == 0 {
        Err(CompileErrorModel::EmptyGrammar)
    } else {
        Ok(pruned(declared_grammar(doc)))
    }
}

/// What the grammar `g` compiles to for the table format `abi_version`: the
/// grammar is prepared, the shapes of its nodes are described, its tables are
/// built, and both are written out.
pub open spec fn generated(g: InputGrammarModel, abi_version: nat) -> Result<
    GeneratedParserModel,
    CompileErrorModel,
> {
    match prepared(g) {
        Err(e) => Err(e),
        Ok(p) => match built_tables(p.syntax, p.states, p.tokens, p.inlines) {
            Err(e) => Err(e),
            Ok(tables) => Ok(
                GeneratedParserModel {
                    c_code: source_text(g.name, abi_version, tables, p.syntax, p.tokens, p.aliases),
                    node_types_json: node_types_json(node_types(p.syntax, p.tokens, p.aliases)),
                },
            ),
        },
    }
}

/// What the document compiles to.
pub open spec fn compiled(doc: GrammarDocumentModel) -> Result<
    GeneratedParserModel,
    CompileErrorModel,
> {
    match loaded_grammar(doc) {
        Err(e) => Err(e),
        Ok(g) => generated(g, LANGUAGE_VERSION as nat),
    }
}

/// Turns the document into a grammar and removes the rules that the start
/// rule does not reach. Fails with `EmptyGrammar` where the document has no
/// rule.
pub fn parse_grammar(doc: &GrammarDocument) -> (r: Result<InputGrammar, CompileError>)
    ensures
        match loaded_grammar(doc@) {
            Ok(g) => r matches Ok(x) && x@ == g,
            Err(e) => r matches Err(x) && x@ == e,
        },
{
    if doc.rules.len() == 0 {
        assert(doc@.rules.len() == 0);
        return Err(CompileError::EmptyGrammar);
    }
    let mut variables: Vec<Variable> = Vec::new();
    let mut i: usize = 0;
    while i < doc.rules.len()
        invariant
            i <= doc.rules@.len(),
            variables@.len() == i,
            forall|k: int|
                0 <= k < i ==> (#[trigger] variables@[k])@ == (VariableModel {
                    name: doc.rules@[k].0@,
                    kind: kind_of_name(doc.rules@[k].0@),
                    rule: doc.rules@[k].1@,
                }),
        decreases doc.rules@.len() - i,
    {
        variables.push(
            Variable {
                name: doc.rules[i].0.clone(),
                kind: kind_for_name(&doc.rules[i].0),
                rule: doc.rules[i].1.clone(),
            },
        );
        i += 1;
    }
    let mut grammar = InputGrammar {
        name: doc.name.clone(),
        variables,
        extra_symbols: clone_rules(&doc.extras),
        expected_conflicts: clone_name_groups(&doc.conflicts),
        precedence_orderings: clone_orderings(&doc.precedences),
        external_tokens: clone_rules(&doc.externals),
        variables_to_inline: clone_strings(&doc.inline),
        supertype_symbols: clone_strings(&doc.supertypes),
        word_token: clone_string_option(&doc.word),
    };
    assert(grammar@.variables =~= declared_grammar(doc@).variables);
    assert(grammar@ == declared_grammar(doc@));
    grammar.remove_unused_rules();
    Ok(grammar)
}

/// Copies groups of names.
pub fn clone_name_groups(groups: &Vec<Vec<String>>) -> (out: Vec<Vec<String>>)
    ensures
        name_groups_model(out@) == name_groups_model(groups@),
{
    let mut out: Vec<Vec<String>> = Vec::new();
    let mut i: usize = 0;
    while i < groups.len()
        invariant
            i <= groups@.len(),
            out@.len() == i,
            forall|k: int|
                0 <= k < i ==> strings_model((#[trigger] out@[k])@) == strings_model(groups@[k]@),
        decreases groups@.len() - i,
    {
        out.push(clone_strings(&groups[i]));
        i += 1;
    }
    assert(name_groups_model(out@) =~= name_groups_model(groups@));
    out
}

/// Compiles the grammar for the table format `abi_version`. The errors are
/// those of preparation and of table building; the first stage that fails
/// gives the error, and nothing is produced then.
pub fn generate_parser_for_grammar_with_opts(input_grammar: &InputGrammar, abi_version: usize)
    -> (r: Result<GeneratedParser, CompileError>)
    ensures
        match generated(input_grammar@, abi_version as nat) {
            Ok(wanted) => r matches Ok(x) && x@ == wanted,
            Err(e) => r matches Err(x) && x@ == e,
        },
{
    let (syntax_grammar, lexical_grammar, inlines, simple_aliases) = prepare_grammar(
        input_grammar,
    )?;
    let node_types = generate_node_types(
        &syntax_grammar,
        &lexical_grammar.variables,
        &simple_aliases,
    );
    let tables = build_tables(&syntax_grammar, &lexical_grammar, &inlines)?;
    let c_code = render_c_code(
        &input_grammar.name,
        &tables,
        &syntax_grammar,
        &lexical_grammar.variables,
        &simple_aliases,
        abi_version,
    );
    Ok(GeneratedParser { c_code, node_types_json: render_node_types(&node_types) })
}

/// Whether `r` is what compiling `doc` returns: the texts that the document
/// compiles to, or the error on which compiling it fails.
pub open spec fn is_compilation(
    doc: GrammarDocumentModel,
    r: Result<GeneratedParser, CompileError>,
) -> bool {
    match compiled(doc) {
        Ok(wanted) => r matches Ok(x) && x@ == wanted,
        Err(e) => r matches Err(x) && x@ == e,
    }
}

/// Compiles the document: the result is the source text of the parser and
/// the description of its nodes, and a function of the document alone.
pub fn compile(doc: &GrammarDocument) -> (r: Result<GeneratedParser, CompileError>)
    ensures
        is_compilation(doc@, r),
{
    let input_grammar = parse_grammar(doc)?;
    generate_parser_for_grammar_with_opts(&input_grammar, LANGUAGE_VERSION)
}

/// Compiling one document twice yields the same texts, character for
/// character, or fails twice on the same error.
pub proof fn compiling_twice_gives_the_same(
    doc: GrammarDocumentModel,
    first: Result<GeneratedParser, CompileError>,
    second: Result<GeneratedParser, CompileError>,
)
    requires
        is_compilation(doc, first),
        is_compilation(doc, second),
    ensures
        match (first, second) {
            (Ok(a), Ok(b)) => a.c_code@ == b.c_code@ && a.node_types_json@ == b.node_types_json@,
            (Err(a), Err(b)) => a@ == b@,
            _ => false,
        },
{
}

/// Compiles the document and returns the name of the language with the
/// source text of its parser.
pub fn generate_parser_for_grammar(doc: &GrammarDocument) -> (r: Result<
    (String, String),
    CompileError,
>)
    ensures
        match compiled(doc@) {
            Ok(wanted) => r matches Ok(x) && x.0@ == doc@.name && x.1@ == wanted.c_code,
            Err(e) => r matches Err(x) && x@ == e,
        },
{
    let input_grammar = parse_grammar(doc)?;
    let parser = generate_parser_for_grammar_with_opts(&input_grammar, LANGUAGE_VERSION)?;
    Ok((input_grammar.name, parser.c_code))
}

/// What `regex` makes of `text` when every match of `pattern`, compiled in
/// multi-line mode, is replaced by `replacement`; nothing where `regex`
/// refuses the pattern.
pub uninterp spec fn multi_line_replaced(
    pattern: Seq<char>,
    text: Seq<char>,
    replacement: Seq<char>,
) -> Option<Seq<char>>;

/// Compiles `pattern` with `regex::RegexBuilder` in multi-line mode and
/// replaces every match in `text` with `Regex::replace_all`. The contract
/// only names the result: it is what `regex` computes from the three texts.
#[verifier::external_body]
fn replace_in_lines(pattern: &str, text: &str, replacement: &str) -> (r: Option<String>)
    ensures
        match multi_line_replaced(pattern@, text@, replacement@) {
            Some(t) => r matches Some(s) && s@ == t,
            None => r is None,
        },
{
    regex::RegexBuilder::new(pattern).multi_line(true).build().ok().map(
        |re| re.replace_all(text, replacement).into_owned(),
    )
}

/// The pattern of a comment line: from the start of a line, blanks, two
/// slashes, and the rest of the line.
pub open spec fn comment_pattern() -> Seq<char> {
    "^\\s*//.*"@
}

/// The text of a grammar document with a line feed in place of each comment
/// line, so that what is left can be decoded as JSON.
pub fn strip_json_comments(grammar_json: &str) -> (text: String)
    ensures
        text@ == match multi_line_replaced(comment_pattern(), grammar_json@, "\n"@) {
            Some(t) => t,
            None => grammar_json@,
        },
{
    match replace_in_lines("^\\s*//.*", grammar_json, "\n") {
        Some(text) => text,
        None => grammar_json.to_owned(),
    }
}

} // verus!
