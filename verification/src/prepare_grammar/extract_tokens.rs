//! Splits the grammar in two: the rules that are tokens, with the literals
//! and patterns that stand inside other rules, go to the lexer; the rest goes
//! to the parser, with a terminal symbol in place of each token.
use vstd::prelude::*;
use crate::error::{CompileError, CompileErrorModel};
use crate::grammars::{
    external_tokens_model, orderings_model, symbol_groups_model, variables_model, ExternalToken,
    ExternalTokenModel, PrecedenceEntry, PrecedenceEntryModel, Variable, VariableModel,
    VariableType,
};
use crate::prepare_grammar::intern_symbols::{
    clone_orderings, InternedGrammar, InternedGrammarModel,
};
use crate::rules::{rule_models, Rule, RuleModel, Symbol, SymbolType};
use crate::seq_util::{first_index_where, lemma_first_index_where};

verus! {

/// The parser's part of the grammar, before its rules are flattened.
#[derive(Debug, PartialEq, Eq)]
pub struct ExtractedSyntaxGrammar {
    pub variables: Vec<Variable>,
    pub extra_symbols: Vec<Symbol>,
    pub expected_conflicts: Vec<Vec<Symbol>>,
    pub external_tokens: Vec<ExternalToken>,
    pub supertype_symbols: Vec<Symbol>,
    pub variables_to_inline: Vec<Symbol>,
    pub word_token: Option<Symbol>,
    pub precedence_orderings: Vec<Vec<PrecedenceEntry>>,
}

pub struct ExtractedSyntaxGrammarModel {
    pub variables: Seq<VariableModel>,
    pub extra_symbols: Seq<Symbol>,
    pub expected_conflicts: Seq<Seq<Symbol>>,
    pub external_tokens: Seq<ExternalTokenModel>,
    pub supertype_symbols: Seq<Symbol>,
    pub variables_to_inline: Seq<Symbol>,
    pub word_token: Option<Symbol>,
    pub precedence_orderings: Seq<Seq<PrecedenceEntryModel>>,
}

impl View for ExtractedSyntaxGrammar {
    type V = ExtractedSyntaxGrammarModel;

    open spec fn view(&self) -> ExtractedSyntaxGrammarModel {
        ExtractedSyntaxGrammarModel {
            variables: variables_model(self.variables@),
            extra_symbols: self.extra_symbols@,
            expected_conflicts: symbol_groups_model(self.expected_conflicts@),
            external_tokens: external_tokens_model(self.external_tokens@),
            supertype_symbols: self.supertype_symbols@,
            variables_to_inline: self.variables_to_inline@,
            word_token: self.word_token,
            precedence_orderings: orderings_model(self.precedence_orderings@),
        }
    }
}

/// The lexer's part of the grammar: each token with the rule that describes
/// its text.
#[derive(Debug, PartialEq, Eq)]
pub struct ExtractedLexicalGrammar {
    pub variables: Vec<Variable>,
}

/// Whether `rule` holds a reference to a rule or to an external token.
pub open spec fn contains_symbol(rule: RuleModel) -> bool
    decreases rule, 0nat,
{
    match rule {
        RuleModel::NamedSymbol(_) => true,
        RuleModel::Symbol(_) => true,
        RuleModel::Choice(rs) => any_contains_symbol(rs),
        RuleModel::Sequence(rs) => any_contains_symbol(rs),
        RuleModel::Repeat(r) => contains_symbol(*r),
        RuleModel::Metadata { rule, .. } => contains_symbol(*rule),
        _ => false,
    }
}

/// Whether one of `rules` holds a reference.
pub open spec fn any_contains_symbol(rules: Seq<RuleModel>) -> bool
    decreases rules, 1nat,
{
    if rules.len() == 0 {
        false
    } else {
        any_contains_symbol(rules.drop_last()) || contains_symbol(rules.last())
    }
}

/// Whether `rule` is a token by its form: a literal or a pattern, bare or
/// wrapped in metadata, or anything marked as a token.
pub open spec fn is_token_rule(rule: RuleModel) -> bool
    decreases rule,
{
    match rule {
        RuleModel::String(_) => true,
        RuleModel::Pattern(_, _) => true,
        RuleModel::Metadata { params, rule } => params.is_token || is_token_rule(*rule),
        _ => false,
    }
}

/// Whether the rule at index `i` goes to the lexer: it is not the start rule,
/// it is a token by its form, and it holds no reference.
pub open spec fn is_lexical(vars: Seq<VariableModel>, i: int) -> bool {
    0 < i < vars.len() && is_token_rule(vars[i].rule) && !contains_symbol(vars[i].rule)
}

/// How many of the first `i` rules go to the lexer.
pub open spec fn lexical_count(vars: Seq<VariableModel>, i: int) -> int
    decreases i,
{
    if i <= 0 {
        0
    } else {
        lexical_count(vars, i - 1) + if is_lexical(vars, i - 1) {
            1int
        } else {
            0int
        }
    }
}

/// The first `i` rules that go to the lexer, in order.
pub open spec fn lexical_variables(vars: Seq<VariableModel>, i: int) -> Seq<VariableModel>
    decreases i,
{
    if i <= 0 {
        Seq::empty()
    } else if is_lexical(vars, i - 1) {
        lexical_variables(vars, i - 1).push(vars[i - 1])
    } else {
        lexical_variables(vars, i - 1)
    }
}

/// The symbol of a rule after the split: a rule that goes to the lexer is the
/// terminal numbered by its place among such rules; another keeps its place
/// among the rules that stay. Other symbols are unchanged.
pub open spec fn moved_symbol(vars: Seq<VariableModel>, s: Symbol) -> Symbol {
    if s.kind == SymbolType::NonTerminal && s.index < vars.len() {
        if is_lexical(vars, s.index as int) {
            Symbol { kind: SymbolType::Terminal, index: lexical_count(vars, s.index as int) as usize }
        } else {
            Symbol {
                kind: SymbolType::NonTerminal,
                index: (s.index - lexical_count(vars, s.index as int)) as usize,
            }
        }
    } else {
        s
    }
}

/// The symbols of `symbols` after the split.
pub open spec fn moved_symbols(vars: Seq<VariableModel>, symbols: Seq<Symbol>) -> Seq<Symbol> {
    Seq::new(symbols.len(), |i: int| moved_symbol(vars, symbols[i]))
}

/// Holds of the tokens of kind `kind` whose text is described by `rule`.
pub open spec fn is_token_for(rule: RuleModel, kind: VariableType) -> spec_fn(VariableModel) -> bool {
    |v: VariableModel| v.rule == rule && v.kind == kind
}

/// The terminal for the token `candidate` and the tokens known after asking
/// for it: a known token of the same kind and rule is used again; otherwise
/// the candidate is added at the end.
pub open spec fn token_symbol(tokens: Seq<VariableModel>, candidate: VariableModel) -> (
    Symbol,
    Seq<VariableModel>,
) {
    match first_index_where(tokens, is_token_for(candidate.rule, candidate.kind)) {
        Some(i) => (Symbol { kind: SymbolType::Terminal, index: i as usize }, tokens),
        None => (
            Symbol { kind: SymbolType::Terminal, index: tokens.len() as usize },
            tokens.push(candidate),
        ),
    }
}

/// The name given to a token that is marked as one inside the rule `owner`.
pub open spec fn marked_token_name(owner: Seq<char>) -> Seq<char> {
    owner + seq!['_', 't', 'o', 'k', 'e', 'n']
}

/// `rule`, which stands in the rule called `owner`, with a terminal in place
/// of each token, and the tokens known afterwards. A literal becomes an
/// anonymous token named by its text, a pattern an auxiliary token named by
/// its text, a marked token an auxiliary token named after `owner`.
/// References to rules are renumbered. A marked token that holds a reference
/// is an error, which names `owner`.
pub open spec fn extracted(
    vars: Seq<VariableModel>,
    owner: Seq<char>,
    rule: RuleModel,
    tokens: Seq<VariableModel>,
) -> Result<(RuleModel, Seq<VariableModel>), Seq<char>>
    decreases rule, 0nat,
{
    match rule {
        RuleModel::String(s) => {
            let (symbol, known) = token_symbol(
                tokens,
                VariableModel { name: s, kind: VariableType::Anonymous, rule },
            );
            Ok((RuleModel::Symbol(symbol), known))
        },
        RuleModel::Pattern(p, _) => {
            let (symbol, known) = token_symbol(
                tokens,
                VariableModel { name: p, kind: VariableType::Auxiliary, rule },
            );
            Ok((RuleModel::Symbol(symbol), known))
        },
        RuleModel::Metadata { params, rule: inner } => {
            if params.is_token {
                if contains_symbol(*inner) {
                    Err(owner)
                } else {
                    let (symbol, known) = token_symbol(
                        tokens,
                        VariableModel {
                            name: marked_token_name(owner),
                            kind: VariableType::Auxiliary,
                            rule,
                        },
                    );
                    Ok((RuleModel::Symbol(symbol), known))
                }
            } else {
                match extracted(vars, owner, *inner, tokens) {
                    Ok((r, known)) => Ok((RuleModel::Metadata { params, rule: Box::new(r) }, known)),
                    Err(n) => Err(n),
                }
            }
        },
        RuleModel::Symbol(s) => Ok((RuleModel::Symbol(moved_symbol(vars, s)), tokens)),
        RuleModel::Choice(rs) => match extracted_all(vars, owner, rs, tokens) {
            Ok((v, known)) => Ok((RuleModel::Choice(v), known)),
            Err(n) => Err(n),
        },
        RuleModel::Sequence(rs) => match extracted_all(vars, owner, rs, tokens) {
            Ok((v, known)) => Ok((RuleModel::Sequence(v), known)),
            Err(n) => Err(n),
        },
        RuleModel::Repeat(inner) => match extracted(vars, owner, *inner, tokens) {
            Ok((r, known)) => Ok((RuleModel::Repeat(Box::new(r)), known)),
            Err(n) => Err(n),
        },
        other => Ok((other, tokens)),
    }
}

/// The same for a list of rules, from first to last.
pub open spec fn extracted_all(
    vars: Seq<VariableModel>,
    owner: Seq<char>,
    rules: Seq<RuleModel>,
    tokens: Seq<VariableModel>,
) -> Result<(Seq<RuleModel>, Seq<VariableModel>), Seq<char>>
    decreases rules, 1nat,
{
    if rules.len() == 0 {
        Ok((Seq::empty(), tokens))
    } else {
        match extracted_all(vars, owner, rules.drop_last(), tokens) {
            Err(n) => Err(n),
            Ok((v, known)) => match extracted(vars, owner, rules.last(), known) {
                Ok((r, after)) => Ok((v.push(r), after)),
                Err(n) => Err(n),
            },
        }
    }
}

/// The first `k` rules split: the rules that stay with the parser, each with
/// its tokens taken out, and the tokens known afterwards, which begin with
/// the rules that go to the lexer.
pub open spec fn extracted_variables(vars: Seq<VariableModel>, k: int) -> Result<
    (Seq<VariableModel>, Seq<VariableModel>),
    Seq<char>,
>
    decreases k,
{
    if k <= 0 {
        Ok((Seq::empty(), lexical_variables(vars, vars.len() as int)))
    } else {
        match extracted_variables(vars, k - 1) {
            Err(n) => Err(n),
            Ok((kept, tokens)) => if is_lexical(vars, k - 1) {
                Ok((kept, tokens))
            } else {
                match extracted(vars, vars[k - 1].name, vars[k - 1].rule, tokens) {
                    Ok((r, known)) => Ok((kept.push(VariableModel { rule: r, ..vars[k - 1] }), known)),
                    Err(n) => Err(n),
                }
            },
        }
    }
}

/// The name under which the extras are reported.
pub open spec fn extras_owner() -> Seq<char> {
    seq!['e', 'x', 't', 'r', 'a', 's']
}

/// The symbol of one extra and the tokens known afterwards: a reference is
/// renumbered; anything else is a token of its own, and an error if it holds
/// a reference.
pub open spec fn extracted_extra(
    vars: Seq<VariableModel>,
    rule: RuleModel,
    tokens: Seq<VariableModel>,
) -> Result<(Symbol, Seq<VariableModel>), Seq<char>> {
    match rule {
        RuleModel::Symbol(s) => Ok((moved_symbol(vars, s), tokens)),
        RuleModel::String(s) => Ok(
            token_symbol(tokens, VariableModel { name: s, kind: VariableType::Anonymous, rule }),
        ),
        _ => if contains_symbol(rule) {
            Err(extras_owner())
        } else {
            Ok(
                token_symbol(
                    tokens,
                    VariableModel {
                        name: marked_token_name(extras_owner()),
                        kind: VariableType::Auxiliary,
                        rule,
                    },
                ),
            )
        },
    }
}

/// The same for the first `k` extras.
pub open spec fn extracted_extras(
    vars: Seq<VariableModel>,
    extras: Seq<RuleModel>,
    k: int,
    tokens: Seq<VariableModel>,
) -> Result<(Seq<Symbol>, Seq<VariableModel>), Seq<char>>
    decreases k,
{
    if k <= 0 {
        Ok((Seq::empty(), tokens))
    } else {
        match extracted_extras(vars, extras, k - 1, tokens) {
            Err(n) => Err(n),
            Ok((symbols, known)) => match extracted_extra(vars, extras[k - 1], known) {
                Ok((s, after)) => Ok((symbols.push(s), after)),
                Err(n) => Err(n),
            },
        }
    }
}

/// Holds of the rules called `name`.
pub open spec fn has_name(name: Seq<char>) -> spec_fn(VariableModel) -> bool {
    |v: VariableModel| v.name == name
}

/// An external token after the split: it corresponds to the token of the same
/// name, if a rule of that name went to the lexer.
pub open spec fn external_token(vars: Seq<VariableModel>, token: VariableModel)
    -> ExternalTokenModel {
    ExternalTokenModel {
        name: token.name,
        kind: token.kind,
        corresponding_internal_token: match first_index_where(vars, has_name(token.name)) {
            Some(i) => if is_lexical(vars, i) {
                Some(Symbol { kind: SymbolType::Terminal, index: lexical_count(vars, i) as usize })
            } else {
                None
            },
            None => None,
        },
    }
}

/// The symbol of a renumbered optional symbol.
pub open spec fn moved_option(vars: Seq<VariableModel>, s: Option<Symbol>) -> Option<Symbol> {
    match s {
        Some(s) => Some(moved_symbol(vars, s)),
        None => None,
    }
}

/// The grammar split in two, or the name of the rule in which a marked token
/// holds a reference.
pub open spec fn extracted_grammar(g: InternedGrammarModel) -> Result<
    (ExtractedSyntaxGrammarModel, Seq<VariableModel>),
    Seq<char>,
> {
    match extracted_variables(g.variables, g.variables.len() as int) {
        Err(n) => Err(n),
        Ok((kept, tokens)) => match extracted_extras(
            g.variables,
            g.extra_symbols,
            g.extra_symbols.len() as int,
            tokens,
        ) {
            Err(n) => Err(n),
            Ok((extras, known)) => Ok(
                (
                    ExtractedSyntaxGrammarModel {
                        variables: kept,
                        extra_symbols: extras,
                        expected_conflicts: Seq::new(
                            g.expected_conflicts.len(),
                            |i: int| moved_symbols(g.variables, g.expected_conflicts[i]),
                        ),
                        external_tokens: Seq::new(
                            g.external_tokens.len(),
                            |i: int| external_token(g.variables, g.external_tokens[i]),
                        ),
                        supertype_symbols: moved_symbols(g.variables, g.supertype_symbols),
                        variables_to_inline: moved_symbols(g.variables, g.variables_to_inline),
                        word_token: moved_option(g.variables, g.word_token),
                        precedence_orderings: g.precedence_orderings,
                    },
                    known,
                ),
            ),
        },
    }
}

/// Whether one of `rules` holds a reference.
pub fn rules_contain_symbol(rules: &Vec<Rule>) -> (b: bool)
    ensures
        b == any_contains_symbol(rule_models(rules@)),
    decreases *rules, 1nat,
{
    let ghost src = rule_models(rules@);
    let mut i: usize = 0;
    assert(src.take(0) =~= Seq::empty());
    while i < rules.len()
        invariant
            i <= rules@.len(),
            src == rule_models(rules@),
            !any_contains_symbol(src.take(i as int)),
        decreases rules@.len() - i,
    {
        assert(src.take(i + 1).drop_last() =~= src.take(i as int));
        if rule_contains_symbol(&rules[i]) {
            proof {
                lemma_any_contains_symbol_stays(src, i + 1);
            }
            return true;
        }
        i += 1;
    }
    assert(src.take(rules@.len() as int) =~= src);
    false
}

/// A reference among the first rules is a reference in the list.
pub proof fn lemma_any_contains_symbol_stays(rules: Seq<RuleModel>, k: int)
    requires
        0 <= k <= rules.len(),
        any_contains_symbol(rules.take(k)),
    ensures
        any_contains_symbol(rules),
    decreases rules.len() - k,
{
    if k < rules.len() {
        assert(rules.take(k + 1).drop_last() =~= rules.take(k));
        lemma_any_contains_symbol_stays(rules, k + 1);
    } else {
        assert(rules.take(k) =~= rules);
    }
}

/// Whether `rule` holds a reference to a rule or to an external token.
pub fn rule_contains_symbol(rule: &Rule) -> (b: bool)
    ensures
        b == contains_symbol(rule@),
    decreases *rule, 0nat,
{
    match rule {
        Rule::NamedSymbol(_) => true,
        Rule::Symbol(_) => true,
        Rule::Choice(rs) => rules_contain_symbol(rs),
        Rule::Sequence(rs) => rules_contain_symbol(rs),
        Rule::Repeat(r) => rule_contains_symbol(&**r),
        Rule::Metadata { rule, .. } => rule_contains_symbol(&**rule),
        _ => false,
    }
}

/// Whether `rule` is a token by its form.
pub fn rule_is_token(rule: &Rule) -> (b: bool)
    ensures
        b == is_token_rule(rule@),
    decreases *rule,
{
    match rule {
        Rule::String(_) => true,
        Rule::Pattern(_, _) => true,
        Rule::Metadata { params, rule } => params.is_token || rule_is_token(&**rule),
        _ => false,
    }
}

/// For each rule, its symbol after the split.
fn moved_variable_symbols(variables: &Vec<Variable>) -> (moved: Vec<Symbol>)
    ensures
        moved@.len() == variables@.len(),
        forall|i: int|
            0 <= i < variables@.len() ==> #[trigger] moved@[i] == moved_symbol(
                variables_model(variables@),
                Symbol { kind: SymbolType::NonTerminal, index: i as usize },
            ),
{
    let ghost vars = variables_model(variables@);
    let mut moved: Vec<Symbol> = Vec::new();
    let mut count: usize = 0;
    let mut i: usize = 0;
    while i < variables.len()
        invariant
            i <= variables@.len(),
            vars == variables_model(variables@),
            moved@.len() == i,
            count as int == lexical_count(vars, i as int),
            count <= i,
            forall|k: int|
                0 <= k < i ==> #[trigger] moved@[k] == moved_symbol(
                    vars,
                    Symbol { kind: SymbolType::NonTerminal, index: k as usize },
                ),
        decreases variables@.len() - i,
    {
        let lexical = i > 0 && rule_is_token(&variables[i].rule) && !rule_contains_symbol(
            &variables[i].rule,
        );
        assert(lexical == is_lexical(vars, i as int));
        if lexical {
            moved.push(Symbol::terminal(count));
            count += 1;
        } else {
            moved.push(Symbol::non_terminal(i - count));
        }
        i += 1;
    }
    moved
}

/// The symbol `s` after the split.
fn move_symbol(variables: &Vec<Variable>, moved: &Vec<Symbol>, s: Symbol) -> (r: Symbol)
    requires
        moved@.len() == variables@.len(),
        forall|i: int|
            0 <= i < variables@.len() ==> #[trigger] moved@[i] == moved_symbol(
                variables_model(variables@),
                Symbol { kind: SymbolType::NonTerminal, index: i as usize },
            ),
    ensures
        r == moved_symbol(variables_model(variables@), s),
{
    if s.kind == SymbolType::NonTerminal && s.index < moved.len() {
        let r = moved[s.index];
        assert(s == Symbol { kind: SymbolType::NonTerminal, index: s.index as int as usize });
        r
    } else {
        s
    }
}

/// The symbols of `symbols` after the split.
fn move_symbols(variables: &Vec<Variable>, moved: &Vec<Symbol>, symbols: &Vec<Symbol>) -> (out:
    Vec<Symbol>)
    requires
        moved@.len() == variables@.len(),
        forall|i: int|
            0 <= i < variables@.len() ==> #[trigger] moved@[i] == moved_symbol(
                variables_model(variables@),
                Symbol { kind: SymbolType::NonTerminal, index: i as usize },
            ),
    ensures
        out@ == moved_symbols(variables_model(variables@), symbols@),
{
    let ghost vars = variables_model(variables@);
    let mut out: Vec<Symbol> = Vec::new();
    let mut i: usize = 0;
    while i < symbols.len()
        invariant
            i <= symbols@.len(),
            vars == variables_model(variables@),
            moved@.len() == variables@.len(),
            forall|k: int|
                0 <= k < variables@.len() ==> #[trigger] moved@[k] == moved_symbol(
                    vars,
                    Symbol { kind: SymbolType::NonTerminal, index: k as usize },
                ),
            out@.len() == i,
            forall|k: int| 0 <= k < i ==> #[trigger] out@[k] == moved_symbol(vars, symbols@[k]),
        decreases symbols@.len() - i,
    {
        out.push(move_symbol(variables, moved, symbols[i]));
        i += 1;
    }
    assert(out@ =~= moved_symbols(vars, symbols@));
    out
}

/// The terminal for the token `candidate`; the token is added to `tokens`
/// unless a token of the same kind and rule is there already.
fn intern_token(tokens: &mut Vec<Variable>, candidate: Variable) -> (symbol: Symbol)
    ensures
        (symbol, variables_model(final(tokens)@)) == token_symbol(
            variables_model(old(tokens)@),
            candidate@,
        ),
{
    let ghost known = variables_model(tokens@);
    let ghost wanted = is_token_for(candidate@.rule, candidate@.kind);
    proof {
        lemma_first_index_where(known, wanted);
    }
    let mut i: usize = 0;
    while i < tokens.len()
        invariant
            i <= tokens@.len(),
            tokens@ == old(tokens)@,
            known == variables_model(tokens@),
            wanted == is_token_for(candidate@.rule, candidate@.kind),
            forall|k: int| 0 <= k < i ==> !wanted(#[trigger] known[k]),
        decreases tokens@.len() - i,
    {
        if tokens[i].kind == candidate.kind && tokens[i].rule.same(&candidate.rule) {
            assert(wanted(known[i as int]));
            proof {
                lemma_first_index_where(known, wanted);
            }
            return Symbol::terminal(i);
        }
        i += 1;
    }
    proof {
        lemma_first_index_where(known, wanted);
    }
    let index = tokens.len();
    tokens.push(candidate);
    assert(variables_model(tokens@) =~= known.push(candidate@));
    Symbol::terminal(index)
}

/// What a call returns for a wanted outcome: the value whose model is wanted
/// with the tokens wanted, or the error that names the rule at fault.
pub open spec fn gives<T: View>(
    r: Result<T, CompileError>,
    tokens: Seq<VariableModel>,
    wanted: Result<(T::V, Seq<VariableModel>), Seq<char>>,
) -> bool {
    match wanted {
        Ok((m, known)) => r matches Ok(x) && x@ == m && tokens == known,
        Err(n) => r matches Err(e) && e@ == CompileErrorModel::MixedTerminalRule(n),
    }
}

/// An error among the first rules is what the whole list gives.
pub proof fn lemma_extracted_error_stays(
    vars: Seq<VariableModel>,
    owner: Seq<char>,
    rules: Seq<RuleModel>,
    tokens: Seq<VariableModel>,
    k: int,
)
    requires
        0 <= k <= rules.len(),
        extracted_all(vars, owner, rules.take(k), tokens) is Err,
    ensures
        extracted_all(vars, owner, rules, tokens) == extracted_all(
            vars,
            owner,
            rules.take(k),
            tokens,
        ),
    decreases rules.len() - k,
{
    if k < rules.len() {
        assert(rules.take(k + 1).drop_last() =~= rules.take(k));
        lemma_extracted_error_stays(vars, owner, rules, tokens, k + 1);
    } else {
        assert(rules.take(k) =~= rules);
    }
}

/// The name `owner` followed by `_token`.
fn name_for_marked_token(owner: &String) -> (name: String)
    ensures
        name@ == marked_token_name(owner@),
{
    proof {
        reveal_strlit("_token");
    }
    let mut name = owner.clone();
    name.append("_token");
    assert(name@ =~= marked_token_name(owner@));
    name
}

/// Takes the tokens out of each of `rules`.
fn extract_from_rules(
    variables: &Vec<Variable>,
    moved: &Vec<Symbol>,
    owner: &String,
    rules: &Vec<Rule>,
    tokens: &mut Vec<Variable>,
) -> (r: Result<Vec<Rule>, CompileError>)
    requires
        moved@.len() == variables@.len(),
        forall|i: int|
            0 <= i < variables@.len() ==> #[trigger] moved@[i] == moved_symbol(
                variables_model(variables@),
                Symbol { kind: SymbolType::NonTerminal, index: i as usize },
            ),
    ensures
        match extracted_all(
            variables_model(variables@),
            owner@,
            rule_models(rules@),
            variables_model(old(tokens)@),
        ) {
            Ok((m, known)) => r matches Ok(x) && rule_models(x@) == m && variables_model(
                final(tokens)@,
            ) == known,
            Err(n) => r matches Err(e) && e@ == CompileErrorModel::MixedTerminalRule(n),
        },
    decreases *rules, 1nat,
{
    let ghost vars = variables_model(variables@);
    let ghost src = rule_models(rules@);
    let ghost start = variables_model(tokens@);
    let mut out: Vec<Rule> = Vec::new();
    let mut i: usize = 0;
    assert(src.take(0) =~= Seq::empty());
    assert(rule_models(out@) =~= Seq::empty());
    while i < rules.len()
        invariant
            i <= rules@.len(),
            vars == variables_model(variables@),
            src == rule_models(rules@),
            start == variables_model(old(tokens)@),
            moved@.len() == variables@.len(),
            forall|k: int|
                0 <= k < variables@.len() ==> #[trigger] moved@[k] == moved_symbol(
                    vars,
                    Symbol { kind: SymbolType::NonTerminal, index: k as usize },
                ),
            extracted_all(vars, owner@, src.take(i as int), start) == Ok::<
                (Seq<RuleModel>, Seq<VariableModel>),
                Seq<char>,
            >((rule_models(out@), variables_model(tokens@))),
        decreases rules@.len() - i,
    {
        assert(src.take(i + 1).drop_last() =~= src.take(i as int));
        assert(src.take(i + 1).last() == rules@[i as int]@);
        let ghost known = variables_model(tokens@);
        let ghost done = rule_models(out@);
        match extract_from_rule(variables, moved, owner, &rules[i], tokens) {
            Ok(rule) => {
                let ghost before = out@;
                out.push(rule);
                assert(rule_models(out@) =~= rule_models(before).push(rule@));
            },
            Err(e) => {
                proof {
                    assert(extracted_all(vars, owner@, src.take(i as int), start) == Ok::<
                        (Seq<RuleModel>, Seq<VariableModel>),
                        Seq<char>,
                    >((done, known)));
                    let failure = extracted(vars, owner@, src.take(i + 1).last(), known);
                    assert(failure is Err);
                    assert(e@ == CompileErrorModel::MixedTerminalRule(failure->Err_0));
                    assert(extracted_all(vars, owner@, src.take(i + 1), start) == Err::<
                        (Seq<RuleModel>, Seq<VariableModel>),
                        Seq<char>,
                    >(failure->Err_0));
                    lemma_extracted_error_stays(vars, owner@, src, start, i + 1);
                }
                return Err(e);
            },
        }
        i += 1;
    }
    assert(src.take(rules@.len() as int) =~= src);
    Ok(out)
}

/// Takes the tokens out of `rule`, which stands in the rule called `owner`.
fn extract_from_rule(
    variables: &Vec<Variable>,
    moved: &Vec<Symbol>,
    owner: &String,
    rule: &Rule,
    tokens: &mut Vec<Variable>,
) -> (r: Result<Rule, CompileError>)
    requires
        moved@.len() == variables@.len(),
        forall|i: int|
            0 <= i < variables@.len() ==> #[trigger] moved@[i] == moved_symbol(
                variables_model(variables@),
                Symbol { kind: SymbolType::NonTerminal, index: i as usize },
            ),
    ensures
        gives(
            r,
            variables_model(final(tokens)@),
            extracted(variables_model(variables@), owner@, rule@, variables_model(old(tokens)@)),
        ),
    decreases *rule, 0nat,
{
    match rule {
        Rule::String(s) => {
            let candidate = Variable {
                name: s.clone(),
                kind: VariableType::Anonymous,
                rule: rule.clone(),
            };
            Ok(Rule::Symbol(intern_token(tokens, candidate)))
        },
        Rule::Pattern(p, _) => {
            let candidate = Variable {
                name: p.clone(),
                kind: VariableType::Auxiliary,
                rule: rule.clone(),
            };
            Ok(Rule::Symbol(intern_token(tokens, candidate)))
        },
        Rule::Metadata { params, rule: inner } => {
            if params.is_token {
                if rule_contains_symbol(&**inner) {
                    Err(CompileError::MixedTerminalRule(owner.clone()))
                } else {
                    let candidate = Variable {
                        name: name_for_marked_token(owner),
                        kind: VariableType::Auxiliary,
                        rule: rule.clone(),
                    };
                    Ok(Rule::Symbol(intern_token(tokens, candidate)))
                }
            } else {
                match extract_from_rule(variables, moved, owner, &**inner, tokens) {
                    Ok(r) => Ok(Rule::Metadata { params: params.clone(), rule: Box::new(r) }),
                    Err(e) => Err(e),
                }
            }
        },
        Rule::Symbol(s) => Ok(Rule::Symbol(move_symbol(variables, moved, *s))),
        Rule::Choice(rs) => {
            assert(rule@->Choice_0 == rule_models(rs@));
            match extract_from_rules(variables, moved, owner, rs, tokens) {
                Ok(v) => Ok(Rule::Choice(v)),
                Err(e) => Err(e),
            }
        },
        Rule::Sequence(rs) => {
            assert(rule@->Sequence_0 == rule_models(rs@));
            match extract_from_rules(variables, moved, owner, rs, tokens) {
                Ok(v) => Ok(Rule::Sequence(v)),
                Err(e) => Err(e),
            }
        },
        Rule::Repeat(inner) => match extract_from_rule(variables, moved, owner, &**inner, tokens) {
            Ok(r) => Ok(Rule::Repeat(Box::new(r))),
            Err(e) => Err(e),
        },
        Rule::Blank => Ok(Rule::Blank),
        Rule::NamedSymbol(n) => Ok(Rule::NamedSymbol(n.clone())),
    }
}

/// An error among the first rules is what all the rules give.
pub proof fn lemma_extracted_variables_error_stays(vars: Seq<VariableModel>, k: int, m: int)
    requires
        0 <= k <= m,
        extracted_variables(vars, k) is Err,
    ensures
        extracted_variables(vars, m) == extracted_variables(vars, k),
    decreases m - k,
{
    if k < m {
        lemma_extracted_variables_error_stays(vars, k, m - 1);
    }
}

/// An error among the first extras is what all the extras give.
pub proof fn lemma_extracted_extras_error_stays(
    vars: Seq<VariableModel>,
    extras: Seq<RuleModel>,
    tokens: Seq<VariableModel>,
    k: int,
    m: int,
)
    requires
        0 <= k <= m,
        extracted_extras(vars, extras, k, tokens) is Err,
    ensures
        extracted_extras(vars, extras, m, tokens) == extracted_extras(vars, extras, k, tokens),
    decreases m - k,
{
    if k < m {
        lemma_extracted_extras_error_stays(vars, extras, tokens, k, m - 1);
    }
}

/// The rules that go to the lexer, in order.
fn lexical_rules(variables: &Vec<Variable>) -> (tokens: Vec<Variable>)
    ensures
        variables_model(tokens@) == lexical_variables(
            variables_model(variables@),
            variables@.len() as int,
        ),
{
    let ghost vars = variables_model(variables@);
    let mut tokens: Vec<Variable> = Vec::new();
    let mut i: usize = 0;
    assert(variables_model(tokens@) =~= Seq::empty());
    while i < variables.len()
        invariant
            i <= variables@.len(),
            vars == variables_model(variables@),
            variables_model(tokens@) == lexical_variables(vars, i as int),
        decreases variables@.len() - i,
    {
        let lexical = i > 0 && rule_is_token(&variables[i].rule) && !rule_contains_symbol(
            &variables[i].rule,
        );
        assert(lexical == is_lexical(vars, i as int));
        if lexical {
            let ghost before = tokens@;
            tokens.push(variables[i].clone());
            assert(variables_model(tokens@) =~= variables_model(before).push(vars[i as int]));
        }
        i += 1;
    }
    tokens
}

/// The symbol of one extra; its token, if it is one, joins `tokens`.
fn extract_extra(
    variables: &Vec<Variable>,
    moved: &Vec<Symbol>,
    rule: &Rule,
    tokens: &mut Vec<Variable>,
) -> (r: Result<Symbol, CompileError>)
    requires
        moved@.len() == variables@.len(),
        forall|i: int|
            0 <= i < variables@.len() ==> #[trigger] moved@[i] == moved_symbol(
                variables_model(variables@),
                Symbol { kind: SymbolType::NonTerminal, index: i as usize },
            ),
    ensures
        match extracted_extra(variables_model(variables@), rule@, variables_model(old(tokens)@)) {
            Ok((s, known)) => r == Ok::<Symbol, CompileError>(s) && variables_model(
                final(tokens)@,
            ) == known,
            Err(n) => r matches Err(e) && e@ == CompileErrorModel::MixedTerminalRule(n),
        },
{
    proof {
        reveal_strlit("extras");
    }
    match rule {
        Rule::Symbol(s) => Ok(move_symbol(variables, moved, *s)),
        Rule::String(s) => {
            let candidate = Variable {
                name: s.clone(),
                kind: VariableType::Anonymous,
                rule: rule.clone(),
            };
            Ok(intern_token(tokens, candidate))
        },
        _ => {
            let owner = "extras".to_owned();
            assert(owner@ =~= extras_owner());
            if rule_contains_symbol(rule) {
                Err(CompileError::MixedTerminalRule(owner))
            } else {
                let candidate = Variable {
                    name: name_for_marked_token(&owner),
                    kind: VariableType::Auxiliary,
                    rule: rule.clone(),
                };
                Ok(intern_token(tokens, candidate))
            }
        },
    }
}

/// An external token after the split.
fn external_token_for(variables: &Vec<Variable>, moved: &Vec<Symbol>, token: &Variable) -> (r:
    ExternalToken)
    requires
        moved@.len() == variables@.len(),
        forall|i: int|
            0 <= i < variables@.len() ==> #[trigger] moved@[i] == moved_symbol(
                variables_model(variables@),
                Symbol { kind: SymbolType::NonTerminal, index: i as usize },
            ),
    ensures
        r@ == external_token(variables_model(variables@), token@),
{
    let ghost vars = variables_model(variables@);
    let ghost wanted = has_name(token@.name);
    let mut found: Option<Symbol> = None;
    let mut i: usize = 0;
    while i < variables.len()
        invariant
            i <= variables@.len(),
            vars == variables_model(variables@),
            wanted == has_name(token@.name),
            forall|k: int| 0 <= k < i ==> !wanted(#[trigger] vars[k]),
            found is None,
            moved@.len() == variables@.len(),
            forall|k: int|
                0 <= k < variables@.len() ==> #[trigger] moved@[k] == moved_symbol(
                    vars,
                    Symbol { kind: SymbolType::NonTerminal, index: k as usize },
                ),
        decreases variables@.len() - i,
    {
        if variables[i].name == token.name {
            assert(wanted(vars[i as int]));
            proof {
                lemma_first_index_where(vars, wanted);
            }
            let symbol = moved[i];
            let corresponding = if symbol.kind == SymbolType::Terminal {
                Some(symbol)
            } else {
                None
            };
            return ExternalToken {
                name: token.name.clone(),
                kind: token.kind,
                corresponding_internal_token: corresponding,
            };
        }
        i += 1;
    }
    proof {
        lemma_first_index_where(vars, wanted);
    }
    ExternalToken { name: token.name.clone(), kind: token.kind, corresponding_internal_token: None }
}

/// Splits the grammar in two. Fails with `MixedTerminalRule` where a marked
/// token holds a reference to a rule; the error names the rule in which the
/// token stands, and the first such rule if there are several.
pub fn extract_tokens(grammar: &InternedGrammar) -> (r: Result<
    (ExtractedSyntaxGrammar, ExtractedLexicalGrammar),
    CompileError,
>)
    ensures
        match extracted_grammar(grammar@) {
            Ok((syntax, tokens)) => r matches Ok((s, l)) && s@ == syntax && variables_model(
                l.variables@,
            ) == tokens,
            Err(n) => r matches Err(e) && e@ == CompileErrorModel::MixedTerminalRule(n),
        },
{
    let ghost vars = variables_model(grammar.variables@);
    let variables = &grammar.variables;
    let moved = moved_variable_symbols(variables);
    let mut tokens = lexical_rules(variables);
    let mut kept: Vec<Variable> = Vec::new();
    let mut i: usize = 0;
    assert(variables_model(kept@) =~= Seq::empty());
    while i < variables.len()
        invariant
            i <= variables@.len(),
            variables == &grammar.variables,
            vars == variables_model(variables@),
            moved@.len() == variables@.len(),
            forall|k: int|
                0 <= k < variables@.len() ==> #[trigger] moved@[k] == moved_symbol(
                    vars,
                    Symbol { kind: SymbolType::NonTerminal, index: k as usize },
                ),
            extracted_variables(vars, i as int) == Ok::<
                (Seq<VariableModel>, Seq<VariableModel>),
                Seq<char>,
            >((variables_model(kept@), variables_model(tokens@))),
        decreases variables@.len() - i,
    {
        let variable = &variables[i];
        let lexical = i > 0 && rule_is_token(&variable.rule) && !rule_contains_symbol(
            &variable.rule,
        );
        assert(lexical == is_lexical(vars, i as int));
        if !lexical {
            let ghost known = variables_model(tokens@);
            let ghost done = variables_model(kept@);
            match extract_from_rule(variables, &moved, &variable.name, &variable.rule, &mut tokens) {
                Ok(rule) => {
                    let ghost before = kept@;
                    let extracted_variable = Variable {
                        name: variable.name.clone(),
                        kind: variable.kind,
                        rule,
                    };
                    kept.push(extracted_variable);
                    assert(variables_model(kept@) =~= variables_model(before).push(
                        extracted_variable@,
                    ));
                },
                Err(e) => {
                    proof {
                        let failure = extracted(vars, vars[i as int].name, vars[i as int].rule, known);
                        assert(failure is Err);
                        assert(extracted_variables(vars, i + 1) == Err::<
                            (Seq<VariableModel>, Seq<VariableModel>),
                            Seq<char>,
                        >(failure->Err_0));
                        lemma_extracted_variables_error_stays(vars, i + 1, vars.len() as int);
                    }
                    return Err(e);
                },
            }
        }
        i += 1;
    }
    let ghost after_variables = variables_model(tokens@);
    let ghost kept_variables = variables_model(kept@);
    let ghost extras = rule_models(grammar.extra_symbols@);
    let mut extra_symbols: Vec<Symbol> = Vec::new();
    let mut j: usize = 0;
    while j < grammar.extra_symbols.len()
        invariant
            j <= grammar.extra_symbols@.len(),
            variables == &grammar.variables,
            vars == variables_model(variables@),
            extras == rule_models(grammar.extra_symbols@),
            extras == grammar@.extra_symbols,
            vars == grammar@.variables,
            extracted_variables(vars, vars.len() as int) == Ok::<
                (Seq<VariableModel>, Seq<VariableModel>),
                Seq<char>,
            >((kept_variables, after_variables)),
            moved@.len() == variables@.len(),
            forall|k: int|
                0 <= k < variables@.len() ==> #[trigger] moved@[k] == moved_symbol(
                    vars,
                    Symbol { kind: SymbolType::NonTerminal, index: k as usize },
                ),
            extracted_extras(vars, extras, j as int, after_variables) == Ok::<
                (Seq<Symbol>, Seq<VariableModel>),
                Seq<char>,
            >((extra_symbols@, variables_model(tokens@))),
        decreases grammar.extra_symbols@.len() - j,
    {
        let ghost known = variables_model(tokens@);
        assert(extras[j as int] == grammar.extra_symbols@[j as int]@);
        match extract_extra(variables, &moved, &grammar.extra_symbols[j], &mut tokens) {
            Ok(symbol) => {
                extra_symbols.push(symbol);
            },
            Err(e) => {
                proof {
                    let failure = extracted_extra(vars, extras[j as int], known);
                    assert(failure is Err);
                    assert(e@ == CompileErrorModel::MixedTerminalRule(failure->Err_0));
                    assert(extracted_extras(vars, extras, j + 1, after_variables) == Err::<
                        (Seq<Symbol>, Seq<VariableModel>),
                        Seq<char>,
                    >(failure->Err_0));
                    lemma_extracted_extras_error_stays(
                        vars,
                        extras,
                        after_variables,
                        j + 1,
                        extras.len() as int,
                    );
                }
                return Err(e);
            },
        }
        j += 1;
    }
    let mut expected_conflicts: Vec<Vec<Symbol>> = Vec::new();
    let mut c: usize = 0;
    while c < grammar.expected_conflicts.len()
        invariant
            c <= grammar.expected_conflicts@.len(),
            variables == &grammar.variables,
            vars == variables_model(variables@),
            moved@.len() == variables@.len(),
            forall|k: int|
                0 <= k < variables@.len() ==> #[trigger] moved@[k] == moved_symbol(
                    vars,
                    Symbol { kind: SymbolType::NonTerminal, index: k as usize },
                ),
            expected_conflicts@.len() == c,
            forall|k: int|
                0 <= k < c ==> (#[trigger] expected_conflicts@[k])@ == moved_symbols(
                    vars,
                    grammar.expected_conflicts@[k]@,
                ),
        decreases grammar.expected_conflicts@.len() - c,
    {
        expected_conflicts.push(move_symbols(variables, &moved, &grammar.expected_conflicts[c]));
        c += 1;
    }
    let mut external_tokens: Vec<ExternalToken> = Vec::new();
    let mut x: usize = 0;
    while x < grammar.external_tokens.len()
        invariant
            x <= grammar.external_tokens@.len(),
            variables == &grammar.variables,
            vars == variables_model(variables@),
            moved@.len() == variables@.len(),
            forall|k: int|
                0 <= k < variables@.len() ==> #[trigger] moved@[k] == moved_symbol(
                    vars,
                    Symbol { kind: SymbolType::NonTerminal, index: k as usize },
                ),
            external_tokens@.len() == x,
            forall|k: int|
                0 <= k < x ==> (#[trigger] external_tokens@[k])@ == external_token(
                    vars,
                    grammar.external_tokens@[k]@,
                ),
        decreases grammar.external_tokens@.len() - x,
    {
        external_tokens.push(external_token_for(variables, &moved, &grammar.external_tokens[x]));
        x += 1;
    }
    let word_token = match grammar.word_token {
        Some(s) => Some(move_symbol(variables, &moved, s)),
        None => None,
    };
    let syntax = ExtractedSyntaxGrammar {
        variables: kept,
        extra_symbols,
        expected_conflicts,
        external_tokens,
        supertype_symbols: move_symbols(variables, &moved, &grammar.supertype_symbols),
        variables_to_inline: move_symbols(variables, &moved, &grammar.variables_to_inline),
        word_token,
        precedence_orderings: clone_orderings(&grammar.precedence_orderings),
    };
    proof {
        let wanted = extracted_grammar(grammar@);
        assert(wanted is Ok);
        assert(syntax@.expected_conflicts =~= wanted->Ok_0.0.expected_conflicts);
        assert(syntax@.external_tokens =~= wanted->Ok_0.0.external_tokens);
    }
    Ok((syntax, ExtractedLexicalGrammar { variables: tokens }))
}

} // verus!
