//! From the grammar as declared to the grammars of the parser and the lexer.
pub mod expand_repeats;
pub mod expand_tokens;
pub mod extract_aliases;
pub mod extract_tokens;
pub mod flatten_grammar;
pub mod intern_symbols;
pub mod process_inlines;

use vstd::prelude::*;
use crate::error::{CompileError, CompileErrorModel};
use crate::grammars::{
    InlinedProductionMap, InlinedProductionMapModel, InputGrammar, InputGrammarModel,
    LexicalGrammar, LexicalVariableModel, SyntaxGrammar, SyntaxGrammarModel,
};
use crate::nfa::NfaStateModel;
use crate::prepare_grammar::expand_repeats::{expand_repeats, expanded_variables};
use crate::prepare_grammar::expand_tokens::{
    expand_tokens, lexical_variables_model, token_automaton,
};
use crate::prepare_grammar::extract_aliases::{
    alias_map, extract_aliases, AliasEntryModel, AliasMap,
};
use crate::prepare_grammar::extract_tokens::{extract_tokens, extracted_grammar};
use crate::prepare_grammar::flatten_grammar::{flatten_grammar, flattened};
use crate::prepare_grammar::intern_symbols::{intern_symbols, interned_grammar};
use crate::prepare_grammar::process_inlines::{inlined_map, process_inlines};

verus! {

/// What preparation gives: the parser's grammar, the lexer's automaton and
/// tokens, the productions made by inlining, and the aliases.
pub struct PreparedModel {
    pub syntax: SyntaxGrammarModel,
    pub states: Seq<NfaStateModel>,
    pub tokens: Seq<LexicalVariableModel>,
    pub inlines: InlinedProductionMapModel,
    pub aliases: Seq<AliasEntryModel>,
}

/// The grammar prepared, stage by stage: names are resolved; tokens are
/// taken out; repetitions become auxiliary rules; rules are flattened into
/// productions; the automaton of the tokens is built; aliases are collected;
/// inlined steps are replaced. The first stage that fails gives the error.
pub open spec fn prepared(g: InputGrammarModel) -> Result<PreparedModel, CompileErrorModel> {
    match interned_grammar(g) {
        Err(n) => Err(CompileErrorModel::UndefinedSymbol(n)),
        Ok(interned) => match extracted_grammar(interned) {
            Err(n) => Err(CompileErrorModel::MixedTerminalRule(n)),
            Ok((extracted, lexical)) => {
                let syntax = SyntaxGrammarModel {
                    variables: flattened(
                        expanded_variables(extracted.variables, extracted.variables.len() as int),
                    ),
                    extra_symbols: extracted.extra_symbols,
                    expected_conflicts: extracted.expected_conflicts,
                    external_tokens: extracted.external_tokens,
                    supertype_symbols: extracted.supertype_symbols,
                    variables_to_inline: extracted.variables_to_inline,
                    word_token: extracted.word_token,
                    precedence_orderings: extracted.precedence_orderings,
                };
                match token_automaton(lexical, lexical.len() as int) {
                    None => Err(CompileErrorModel::TooManyStates),
                    Some((states, tokens)) => match alias_map(syntax) {
                        Err(c) => Err(
                            CompileErrorModel::ConflictingAlias {
                                symbol: c.symbol,
                                first: c.first,
                                second: c.second,
                            },
                        ),
                        Ok(aliases) => match inlined_map(syntax) {
                            Err(s) => Err(CompileErrorModel::CyclicInlining(s)),
                            Ok(inlines) => Ok(
                                PreparedModel { syntax, states, tokens, inlines, aliases },
                            ),
                        },
                    },
                }
            },
        },
    }
}

/// Whether the grammars returned are the prepared grammar `wanted`.
pub open spec fn is_prepared(
    r: (SyntaxGrammar, LexicalGrammar, InlinedProductionMap, AliasMap),
    wanted: PreparedModel,
) -> bool {
    &&& r.0@ == wanted.syntax
    &&& r.1.nfa@ == wanted.states
    &&& lexical_variables_model(r.1.variables@) == wanted.tokens
    &&& r.2@ == wanted.inlines
    &&& r.3@ == wanted.aliases
}

/// Prepares the grammar for the builders of the tables. On success the
/// lexer's automaton is well formed and its tokens are ordered by their start
/// states, and every replacement named by the map of inlined steps is one of
/// its productions.
pub fn prepare_grammar(grammar: &InputGrammar) -> (r: Result<
    (SyntaxGrammar, LexicalGrammar, InlinedProductionMap, AliasMap),
    CompileError,
>)
    ensures
        match prepared(grammar@) {
            Ok(wanted) => r matches Ok(parts) && is_prepared(parts, wanted) && parts.1.ordered()
                && crate::nfa::states_well_formed(parts.1.nfa@) && parts.2.well_formed(),
            Err(wanted) => r matches Err(e) && e@ == wanted,
        },
{
    let interned = intern_symbols(grammar)?;
    let (extracted, lexical) = extract_tokens(&interned)?;
    let expanded = expand_repeats(&extracted.variables);
    let syntax = SyntaxGrammar {
        variables: flatten_grammar(&expanded),
        extra_symbols: extracted.extra_symbols,
        expected_conflicts: extracted.expected_conflicts,
        external_tokens: extracted.external_tokens,
        supertype_symbols: extracted.supertype_symbols,
        variables_to_inline: extracted.variables_to_inline,
        word_token: extracted.word_token,
        precedence_orderings: extracted.precedence_orderings,
    };
    let lexical_grammar = expand_tokens(&lexical.variables)?;
    let aliases = extract_aliases(&syntax)?;
    let inlines = process_inlines(&syntax)?;
    Ok((syntax, lexical_grammar, inlines, aliases))
}

} // verus!
