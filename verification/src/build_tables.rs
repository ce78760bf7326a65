//! From the prepared grammars to the tables of the parser.
pub mod conflicts;
pub mod item_sets;
pub mod lex_table;
pub mod parse_states;
pub mod parse_table;
pub mod precedence;

use vstd::prelude::*;
use crate::build_tables::item_sets::{
    all_productions, arena_model, collect_productions, compute_first_sets, first_sets,
};
use crate::build_tables::lex_table::{
    build_lex_table, close_states, lex_table, state_set, targets_on,
};
use crate::build_tables::parse_states::{
    discover_states, parse_states, BuildContext, BuildContextModel,
};
use crate::build_tables::parse_table::{build_parse_table, table_states};
use crate::build_tables::precedence::{is_cyclic, orderings_are_cyclic};
use crate::error::{CompileError, CompileErrorModel};
use crate::grammars::{
    InlinedProductionMap, InlinedProductionMapModel, LexicalGrammar, LexicalVariable,
    LexicalVariableModel, SyntaxGrammar, SyntaxGrammarModel, VariableType,
};
use crate::nfa::{states_model, NfaState, NfaStateModel};
use crate::prepare_grammar::expand_tokens::lexical_variables_model;
use crate::rules::{Symbol, SymbolType};
use crate::tables::{LexStateModel, LexTable, ParseStateModel, ParseTable};
use crate::text::string_chars;

verus! {

/// The tables of a grammar: the table of the parser, the table of the lexer,
/// and, where the grammar has a word token, the table that tells the
/// keywords apart, with the word token.
#[derive(Debug, PartialEq, Eq)]
pub struct Tables {
    pub parse_table: ParseTable,
    pub main_lex_table: LexTable,
    pub keyword_lex_table: Option<LexTable>,
    pub keyword_capture_token: Option<Symbol>,
}

pub struct TablesModel {
    pub parse_table: Seq<ParseStateModel>,
    pub main_lex_table: Seq<LexStateModel>,
    pub keyword_lex_table: Option<Seq<LexStateModel>>,
    pub keyword_capture_token: Option<Symbol>,
}

impl View for Tables {
    type V = TablesModel;

    open spec fn view(&self) -> TablesModel {
        TablesModel {
            parse_table: self.parse_table@,
            main_lex_table: self.main_lex_table@,
            keyword_lex_table: match self.keyword_lex_table {
                Some(t) => Some(t@),
                None => None,
            },
            keyword_capture_token: self.keyword_capture_token,
        }
    }
}

/// Whether `state` accepts the token `token`.
pub open spec fn accepts(state: NfaStateModel, token: int) -> bool {
    match state {
        NfaStateModel::Accept { variable_index, .. } => variable_index == token,
        _ => false,
    }
}

/// Whether one of the first `k` states of `set` accepts the token `token`.
pub open spec fn accepts_token(nfa: Seq<NfaStateModel>, set: Seq<u32>, token: int, k: int) -> bool
    decreases k,
{
    if k <= 0 {
        false
    } else {
        accepts_token(nfa, set, token, k - 1) || (set[k - 1] < nfa.len() && accepts(
            nfa[set[k - 1] as int],
            token,
        ))
    }
}

/// The set of states in which the lexer is after reading the first `k`
/// characters of `text` from the set `set`.
pub open spec fn after_reading(nfa: Seq<NfaStateModel>, set: Seq<u32>, text: Seq<char>, k: int)
    -> Seq<u32>
    decreases k,
{
    if k <= 0 {
        set
    } else {
        let before = after_reading(nfa, set, text, k - 1);
        state_set(nfa, targets_on(nfa, before, text[k - 1] as u32, before.len() as int))
    }
}

/// Whether the token `word` matches all of `text`.
pub open spec fn matches_word(
    nfa: Seq<NfaStateModel>,
    tokens: Seq<LexicalVariableModel>,
    word: int,
    text: Seq<char>,
) -> bool {
    let start = state_set(nfa, seq![tokens[word].start_state as u32]);
    let end = after_reading(nfa, start, text, text.len() as int);
    accepts_token(nfa, end, word, end.len() as int)
}

/// The word token, where the grammar names a token as its word token.
pub open spec fn word_of(g: SyntaxGrammarModel, tokens: Seq<LexicalVariableModel>) -> Option<int> {
    match g.word_token {
        Some(s) => if s.kind == SymbolType::Terminal && s.index < tokens.len() {
            Some(s.index as int)
        } else {
            None
        },
        None => None,
    }
}

/// Whether the token `i` is a keyword: an anonymous token, other than the
/// word token, whose name the word token matches.
pub open spec fn is_keyword(
    nfa: Seq<NfaStateModel>,
    tokens: Seq<LexicalVariableModel>,
    word: Option<int>,
    i: int,
) -> bool {
    match word {
        Some(w) => i != w && tokens[i].kind == VariableType::Anonymous && matches_word(
            nfa,
            tokens,
            w,
            tokens[i].name,
        ),
        None => false,
    }
}

/// The start states of the first `k` tokens that are keywords, where
/// `keywords` is set, or that are not, where it is not.
pub open spec fn starts_of(
    nfa: Seq<NfaStateModel>,
    tokens: Seq<LexicalVariableModel>,
    word: Option<int>,
    keywords: bool,
    k: int,
) -> Seq<u32>
    decreases k,
{
    if k <= 0 {
        Seq::empty()
    } else {
        let known = starts_of(nfa, tokens, word, keywords, k - 1);
        if is_keyword(nfa, tokens, word, k - 1) == keywords {
            known.push(tokens[k - 1].start_state as u32)
        } else {
            known
        }
    }
}

/// The tables of the grammar. A grammar without rules, orderings of
/// precedence that go in a circle, sets that cannot be counted and a choice
/// that nothing settles are errors, looked for in that order.
pub open spec fn built_tables(
    g: SyntaxGrammarModel,
    nfa: Seq<NfaStateModel>,
    tokens: Seq<LexicalVariableModel>,
    inlines: InlinedProductionMapModel,
) -> Result<TablesModel, CompileErrorModel> {
    if g.variables.len() == 0 {
        Err(CompileErrorModel::EmptyGrammar)
    } else if is_cyclic(g.precedence_orderings) {
        Err(CompileErrorModel::CyclicPrecedenceOrdering)
    } else if g.variables.len() >= usize::MAX {
        Err(CompileErrorModel::TooManyStates)
    } else {
        let arena = all_productions(g, inlines);
        match first_sets(arena, g.variables.len() as int + 1) {
            None => Err(CompileErrorModel::TooManyStates),
            Some((firsts, nullable)) => {
                let ctx = BuildContextModel { arena, firsts, nullable };
                match parse_states(ctx) {
                    None => Err(CompileErrorModel::TooManyStates),
                    Some(automaton) => match table_states(
                        arena,
                        g.expected_conflicts,
                        g.extra_symbols,
                        automaton,
                        automaton.items.len() as int,
                    ) {
                        Err((state, unsettled)) => Err(
                            CompileErrorModel::UnresolvedConflict {
                                state,
                                symbol: unsettled.symbol,
                                candidates: unsettled.sources,
                            },
                        ),
                        Ok(parse_table) => {
                            let word = word_of(g, tokens);
                            Ok(
                                TablesModel {
                                    parse_table,
                                    main_lex_table: lex_table(
                                        nfa,
                                        tokens,
                                        starts_of(nfa, tokens, word, false, tokens.len() as int),
                                    ),
                                    keyword_lex_table: match word {
                                        Some(_) => Some(
                                            lex_table(
                                                nfa,
                                                tokens,
                                                starts_of(
                                                    nfa,
                                                    tokens,
                                                    word,
                                                    true,
                                                    tokens.len() as int,
                                                ),
                                            ),
                                        ),
                                        None => None,
                                    },
                                    keyword_capture_token: match word {
                                        Some(_) => g.word_token,
                                        None => None,
                                    },
                                },
                            )
                        },
                    },
                }
            },
        }
    }
}

pub proof fn lemma_accepts_stays(nfa: Seq<NfaStateModel>, set: Seq<u32>, token: int, k: int, m: int)
    requires
        0 <= k <= m,
        accepts_token(nfa, set, token, k),
    ensures
        accepts_token(nfa, set, token, m),
    decreases m - k,
{
    if k < m {
        lemma_accepts_stays(nfa, set, token, k, m - 1);
    }
}

/// Whether the token `word` matches all of `text`.
fn word_matches(nfa: &Vec<NfaState>, tokens: &Vec<LexicalVariable>, word: usize, text: &String)
    -> (r: bool)
    requires
        word < tokens@.len(),
    ensures
        r == matches_word(
            states_model(nfa@),
            lexical_variables_model(tokens@),
            word as int,
            text@,
        ),
{
    let ghost n = states_model(nfa@);
    let ghost tk = lexical_variables_model(tokens@);
    assert(tk[word as int] == tokens@[word as int]@);
    let chars = string_chars(text);
    let mut first: Vec<u32> = Vec::new();
    first.push(tokens[word].start_state);
    assert(first@ =~= seq![tk[word as int].start_state as u32]);
    let mut set = close_states(nfa, first);
    let ghost start = set@;
    let mut k: usize = 0;
    while k < chars.len()
        invariant
            k <= chars@.len(),
            chars@ == text@,
            n == states_model(nfa@),
            set@ == after_reading(n, start, text@, k as int),
        decreases chars@.len() - k,
    {
        let c: char = chars[k];
        let code = code_point(c);
        let targets = crate::build_tables::lex_table::collect_targets(nfa, &set, code);
        set = close_states(nfa, targets);
        k += 1;
    }
    let mut i: usize = 0;
    while i < set.len()
        invariant
            i <= set@.len(),
            n == states_model(nfa@),
            tk == lexical_variables_model(tokens@),
            start == state_set(n, seq![tk[word as int].start_state as u32]),
            set@ == after_reading(n, start, text@, text@.len() as int),
            !accepts_token(n, set@, word as int, i as int),
        decreases set@.len() - i,
    {
        let id = set[i];
        if (id as usize) < nfa.len() {
            assert(n[id as int] == nfa@[id as int]@);
            let hit = match &nfa[id as usize] {
                NfaState::Accept { variable_index, .. } => *variable_index == word,
                _ => false,
            };
            if hit {
                proof {
                    assert(accepts_token(n, set@, word as int, i + 1));
                    lemma_accepts_stays(n, set@, word as int, i + 1, set@.len() as int);
                }
                return true;
            }
        }
        i += 1;
    }
    false
}

/// The code point of `c`.
pub fn code_point(c: char) -> (code: u32)
    ensures
        code == c as u32,
{
    c as u32
}

/// The word token, where the grammar names a token as its word token.
fn find_word(grammar: &SyntaxGrammar, tokens: &Vec<LexicalVariable>) -> (r: Option<usize>)
    ensures
        match word_of(grammar@, lexical_variables_model(tokens@)) {
            Some(w) => r == Some(w as usize) && 0 <= w < tokens@.len(),
            None => r is None,
        },
{
    match grammar.word_token {
        Some(s) => if s.kind == SymbolType::Terminal && s.index < tokens.len() {
            Some(s.index)
        } else {
            None
        },
        None => None,
    }
}

/// The start states of the tokens that are keywords, where `keywords` is set,
/// or that are not, where it is not.
fn collect_starts(
    nfa: &Vec<NfaState>,
    tokens: &Vec<LexicalVariable>,
    word: Option<usize>,
    keywords: bool,
) -> (starts: Vec<u32>)
    requires
        word matches Some(w) ==> w < tokens@.len(),
    ensures
        starts@ == starts_of(
            states_model(nfa@),
            lexical_variables_model(tokens@),
            match word {
                Some(w) => Some(w as int),
                None => None,
            },
            keywords,
            tokens@.len() as int,
        ),
{
    let ghost n = states_model(nfa@);
    let ghost tk = lexical_variables_model(tokens@);
    let ghost w = match word {
        Some(w) => Some(w as int),
        None => None::<int>,
    };
    let mut starts: Vec<u32> = Vec::new();
    let mut k: usize = 0;
    while k < tokens.len()
        invariant
            k <= tokens@.len(),
            n == states_model(nfa@),
            tk == lexical_variables_model(tokens@),
            w == match word {
                Some(w) => Some(w as int),
                None => None::<int>,
            },
            word matches Some(w) ==> w < tokens@.len(),
            starts@ == starts_of(n, tk, w, keywords, k as int),
        decreases tokens@.len() - k,
    {
        assert(tk[k as int] == tokens@[k as int]@);
        let keyword = match word {
            Some(w) => k != w && tokens[k].kind == VariableType::Anonymous && word_matches(
                nfa,
                tokens,
                w,
                &tokens[k].name,
            ),
            None => false,
        };
        assert(keyword == is_keyword(n, tk, w, k as int));
        if keyword == keywords {
            starts.push(tokens[k].start_state);
        }
        k += 1;
    }
    starts
}

/// Builds the tables of the grammar: the states of the parser with their
/// actions, and the tables of the lexer. Fails with `EmptyGrammar` where the
/// grammar has no rule, with `CyclicPrecedenceOrdering` where the orderings
/// of precedence go in a circle, with `TooManyStates` where the sets can no
/// longer be counted, and with `UnresolvedConflict` where nothing settles a
/// choice between actions; that error names the first state in which this
/// happens, the lookahead symbol, and the productions that take part.
pub fn build_tables(
    grammar: &SyntaxGrammar,
    lexical: &LexicalGrammar,
    inlines: &InlinedProductionMap,
) -> (r: Result<Tables, CompileError>)
    requires
        inlines.well_formed(),
    ensures
        match built_tables(
            grammar@,
            lexical.nfa@,
            lexical_variables_model(lexical.variables@),
            inlines@,
        ) {
            Ok(wanted) => r matches Ok(tables) && tables@ == wanted,
            Err(wanted) => r matches Err(e) && e@ == wanted,
        },
{
    let variable_count = grammar.variables.len();
    assert(grammar@.variables.len() == variable_count);
    if variable_count == 0 {
        return Err(CompileError::EmptyGrammar);
    }
    if orderings_are_cyclic(&grammar.precedence_orderings) {
        return Err(CompileError::CyclicPrecedenceOrdering);
    }
    if variable_count == usize::MAX {
        return Err(CompileError::TooManyStates);
    }
    let arena = collect_productions(grammar, inlines);
    let (firsts, nullable) = match compute_first_sets(&arena, variable_count + 1) {
        Some(sets) => sets,
        None => {
            return Err(CompileError::TooManyStates);
        },
    };
    let ctx = BuildContext { arena, firsts, nullable };
    assert(ctx@.arena == all_productions(grammar@, inlines@));
    assert(ctx.arena@.len() == ctx@.arena.len());
    let automaton = match discover_states(&ctx) {
        Some(automaton) => automaton,
        None => {
            return Err(CompileError::TooManyStates);
        },
    };
    let parse_table = match build_parse_table(
        &ctx.arena,
        &grammar.expected_conflicts,
        &grammar.extra_symbols,
        &automaton,
    ) {
        Ok(table) => table,
        Err((state, symbol, candidates)) => {
            return Err(CompileError::UnresolvedConflict { state, symbol, candidates });
        },
    };
    let word = find_word(grammar, &lexical.variables);
    let main_starts = collect_starts(&lexical.nfa.states, &lexical.variables, word, false);
    let main_lex_table = build_lex_table(&lexical.nfa.states, &lexical.variables, main_starts);
    let keyword_lex_table = match word {
        Some(_) => {
            let keyword_starts = collect_starts(&lexical.nfa.states, &lexical.variables, word, true);
            Some(build_lex_table(&lexical.nfa.states, &lexical.variables, keyword_starts))
        },
        None => None,
    };
    let keyword_capture_token = match word {
        Some(_) => grammar.word_token,
        None => None,
    };
    Ok(Tables { parse_table, main_lex_table, keyword_lex_table, keyword_capture_token })
}

/// Whether `a` and `b` are one grammar but for what they ask to inline.
pub open spec fn same_but_inline_requests(a: SyntaxGrammarModel, b: SyntaxGrammarModel) -> bool {
    &&& a.variables == b.variables
    &&& a.extra_symbols == b.extra_symbols
    &&& a.expected_conflicts == b.expected_conflicts
    &&& a.external_tokens == b.external_tokens
    &&& a.supertype_symbols == b.supertype_symbols
    &&& a.word_token == b.word_token
    &&& a.precedence_orderings == b.precedence_orderings
}

proof fn lemma_same_parse_production(
    a: SyntaxGrammarModel,
    b: SyntaxGrammarModel,
    v: int,
    p: crate::grammars::ProductionModel,
    source: crate::grammars::ProductionId,
)
    requires
        same_but_inline_requests(a, b),
    ensures
        crate::build_tables::item_sets::parse_production(a, v, p, source)
            == crate::build_tables::item_sets::parse_production(b, v, p, source),
{
    let x = crate::build_tables::item_sets::parse_production(a, v, p, source);
    let y = crate::build_tables::item_sets::parse_production(b, v, p, source);
    assert(x.places =~= y.places);
    assert(x.symbols =~= y.symbols);
    assert(x.associativities =~= y.associativities);
}

proof fn lemma_same_replacements(
    a: SyntaxGrammarModel,
    b: SyntaxGrammarModel,
    inlines: crate::grammars::InlinedProductionMapModel,
    arena: Seq<crate::build_tables::item_sets::ParseProductionModel>,
    v: int,
    source: crate::grammars::ProductionId,
    replacements: Seq<usize>,
    k: int,
)
    requires
        same_but_inline_requests(a, b),
    ensures
        crate::build_tables::item_sets::with_replacements(
            a,
            inlines,
            arena,
            v,
            source,
            replacements,
            k,
        ) == crate::build_tables::item_sets::with_replacements(
            b,
            inlines,
            arena,
            v,
            source,
            replacements,
            k,
        ),
    decreases k,
{
    if k > 0 {
        lemma_same_replacements(a, b, inlines, arena, v, source, replacements, k - 1);
        lemma_same_parse_production(
            a,
            b,
            v,
            inlines.productions[replacements[k - 1] as int],
            source,
        );
    }
}

proof fn lemma_same_variable_productions(
    a: SyntaxGrammarModel,
    b: SyntaxGrammarModel,
    inlines: crate::grammars::InlinedProductionMapModel,
    arena: Seq<crate::build_tables::item_sets::ParseProductionModel>,
    v: int,
    k: int,
)
    requires
        same_but_inline_requests(a, b),
    ensures
        crate::build_tables::item_sets::with_variable_productions(a, inlines, arena, v, k)
            == crate::build_tables::item_sets::with_variable_productions(b, inlines, arena, v, k),
    decreases k,
{
    if k > 0 {
        lemma_same_variable_productions(a, b, inlines, arena, v, k - 1);
        let before = crate::build_tables::item_sets::with_variable_productions(
            a,
            inlines,
            arena,
            v,
            k - 1,
        );
        let id = crate::grammars::ProductionId {
            variable: Some(v as usize),
            production: (k - 1) as usize,
        };
        match crate::build_tables::item_sets::replaced_at(
            inlines,
            id,
            inlines.production_map.len() as int,
        ) {
            Some(e) => {
                lemma_same_replacements(
                    a,
                    b,
                    inlines,
                    before,
                    v,
                    id,
                    inlines.production_map[e].replacements,
                    inlines.production_map[e].replacements.len() as int,
                );
            },
            None => {
                lemma_same_parse_production(a, b, v, a.variables[v].productions[k - 1], id);
            },
        }
    }
}

proof fn lemma_same_grammar_productions(
    a: SyntaxGrammarModel,
    b: SyntaxGrammarModel,
    inlines: crate::grammars::InlinedProductionMapModel,
    k: int,
)
    requires
        same_but_inline_requests(a, b),
    ensures
        crate::build_tables::item_sets::grammar_productions(a, inlines, k)
            == crate::build_tables::item_sets::grammar_productions(b, inlines, k),
    decreases k,
{
    if k > 0 {
        lemma_same_grammar_productions(a, b, inlines, k - 1);
        lemma_same_variable_productions(
            a,
            b,
            inlines,
            crate::build_tables::item_sets::grammar_productions(a, inlines, k - 1),
            k - 1,
            a.variables[k - 1].productions.len() as int,
        );
    }
}

/// What a grammar asks to inline reaches the tables through the inlined
/// productions alone: two grammars that differ in nothing else give the
/// same tables from the same inlined productions.
pub proof fn tables_read_inlining_from_the_map(
    a: SyntaxGrammarModel,
    b: SyntaxGrammarModel,
    nfa: Seq<NfaStateModel>,
    tokens: Seq<LexicalVariableModel>,
    inlines: crate::grammars::InlinedProductionMapModel,
)
    requires
        same_but_inline_requests(a, b),
    ensures
        built_tables(a, nfa, tokens, inlines) == built_tables(b, nfa, tokens, inlines),
{
    lemma_same_grammar_productions(a, b, inlines, a.variables.len() as int);
    assert(crate::build_tables::item_sets::start_production(a)
        == crate::build_tables::item_sets::start_production(b));
    assert(all_productions(a, inlines) == all_productions(b, inlines));
    assert(word_of(a, tokens) == word_of(b, tokens));
}

/// Asking for the inlining of a symbol that appears in no production leaves
/// the tables as they are: with the request and without it, inlining gives
/// the same productions or fails on the same symbol, and the tables built
/// from them are the same.
pub proof fn unused_inline_request_keeps_the_tables(
    g: SyntaxGrammarModel,
    nfa: Seq<NfaStateModel>,
    tokens: Seq<LexicalVariableModel>,
    extra: Symbol,
)
    requires
        crate::prepare_grammar::process_inlines::grammar_avoids(g, extra),
    ensures
        ({
            let asked = crate::prepare_grammar::process_inlines::with_inline_request(g, extra);
            match (
                crate::prepare_grammar::process_inlines::inlined_map(asked),
                crate::prepare_grammar::process_inlines::inlined_map(g),
            ) {
                (Ok(with), Ok(without)) => built_tables(asked, nfa, tokens, with) == built_tables(
                    g,
                    nfa,
                    tokens,
                    without,
                ),
                (Err(with), Err(without)) => with == without,
                _ => false,
            }
        }),
{
    let asked = crate::prepare_grammar::process_inlines::with_inline_request(g, extra);
    crate::prepare_grammar::process_inlines::unused_inline_request_changes_nothing(g, extra);
    match crate::prepare_grammar::process_inlines::inlined_map(g) {
        Ok(map) => {
            tables_read_inlining_from_the_map(asked, g, nfa, tokens, map);
        },
        Err(_) => {},
    }
}

} // verus!
