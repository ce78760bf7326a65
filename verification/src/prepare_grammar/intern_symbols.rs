//! Replaces every reference by name with the symbol it resolves to.
use vstd::prelude::*;
use crate::error::{CompileError, CompileErrorModel};
use crate::grammars::{
    clone_strings, entries_model, orderings_model, strings_model, variables_model, InputGrammar,
    InputGrammarModel, PrecedenceEntry, PrecedenceEntryModel, Variable, VariableModel,
    VariableType,
};
use crate::rules::{rule_models, MetadataModel, Rule, RuleModel, Symbol, SymbolType};
use crate::seq_util::{first_index_where, lemma_first_index_where};

verus! {

/// The grammar with every name resolved. The rules hold `Symbol`s in place of
/// names; external tokens are rules of their own.
#[derive(Debug, PartialEq, Eq)]
pub struct InternedGrammar {
    pub variables: Vec<Variable>,
    pub extra_symbols: Vec<Rule>,
    pub expected_conflicts: Vec<Vec<Symbol>>,
    pub precedence_orderings: Vec<Vec<PrecedenceEntry>>,
    pub external_tokens: Vec<Variable>,
    pub variables_to_inline: Vec<Symbol>,
    pub supertype_symbols: Vec<Symbol>,
    pub word_token: Option<Symbol>,
}

pub struct InternedGrammarModel {
    pub variables: Seq<VariableModel>,
    pub extra_symbols: Seq<RuleModel>,
    pub expected_conflicts: Seq<Seq<Symbol>>,
    pub precedence_orderings: Seq<Seq<PrecedenceEntryModel>>,
    pub external_tokens: Seq<VariableModel>,
    pub variables_to_inline: Seq<Symbol>,
    pub supertype_symbols: Seq<Symbol>,
    pub word_token: Option<Symbol>,
}

impl View for InternedGrammar {
    type V = InternedGrammarModel;

    open spec fn view(&self) -> InternedGrammarModel {
        InternedGrammarModel {
            variables: variables_model(self.variables@),
            extra_symbols: rule_models(self.extra_symbols@),
            expected_conflicts: crate::grammars::symbol_groups_model(self.expected_conflicts@),
            precedence_orderings: orderings_model(self.precedence_orderings@),
            external_tokens: variables_model(self.external_tokens@),
            variables_to_inline: self.variables_to_inline@,
            supertype_symbols: self.supertype_symbols@,
            word_token: self.word_token,
        }
    }
}

/// Holds of the rules called `name`.
pub open spec fn is_called(name: Seq<char>) -> spec_fn(VariableModel) -> bool {
    |v: VariableModel| v.name == name
}

/// Holds of the rules that are a reference to `name`.
pub open spec fn is_reference_to(name: Seq<char>) -> spec_fn(RuleModel) -> bool {
    |r: RuleModel| r == RuleModel::NamedSymbol(name)
}

/// The symbol that `name` stands for: the first rule of that name, else the
/// first external token declared as a reference to that name.
pub open spec fn resolve(g: InputGrammarModel, name: Seq<char>) -> Option<Symbol> {
    match first_index_where(g.variables, is_called(name)) {
        Some(i) => Some(Symbol { kind: SymbolType::NonTerminal, index: i as usize }),
        None => match first_index_where(g.external_tokens, is_reference_to(name)) {
            Some(i) => Some(Symbol { kind: SymbolType::External, index: i as usize }),
            None => None,
        },
    }
}

/// `rule` with every reference by name resolved, or the first name, in the
/// order of the text, that stands for nothing.
pub open spec fn interned(g: InputGrammarModel, rule: RuleModel) -> Result<RuleModel, Seq<char>>
    decreases rule, 0nat,
{
    match rule {
        RuleModel::NamedSymbol(n) => match resolve(g, n) {
            Some(s) => Ok(RuleModel::Symbol(s)),
            None => Err(n),
        },
        RuleModel::Choice(rs) => match interned_all(g, rs) {
            Ok(v) => Ok(RuleModel::Choice(v)),
            Err(n) => Err(n),
        },
        RuleModel::Sequence(rs) => match interned_all(g, rs) {
            Ok(v) => Ok(RuleModel::Sequence(v)),
            Err(n) => Err(n),
        },
        RuleModel::Repeat(r) => match interned(g, *r) {
            Ok(v) => Ok(RuleModel::Repeat(Box::new(v))),
            Err(n) => Err(n),
        },
        RuleModel::Metadata { params, rule } => match interned(g, *rule) {
            Ok(v) => Ok(RuleModel::Metadata { params, rule: Box::new(v) }),
            Err(n) => Err(n),
        },
        other => Ok(other),
    }
}

/// The rules of `rules` with every reference resolved, or the first name that
/// stands for nothing.
pub open spec fn interned_all(g: InputGrammarModel, rules: Seq<RuleModel>) -> Result<
    Seq<RuleModel>,
    Seq<char>,
>
    decreases rules, 1nat,
{
    if rules.len() == 0 {
        Ok(Seq::empty())
    } else {
        match interned_all(g, rules.drop_last()) {
            Err(n) => Err(n),
            Ok(v) => match interned(g, rules.last()) {
                Ok(r) => Ok(v.push(r)),
                Err(n) => Err(n),
            },
        }
    }
}

/// The rules of `vars`, each with its references resolved.
pub open spec fn interned_variables(g: InputGrammarModel, vars: Seq<VariableModel>) -> Result<
    Seq<VariableModel>,
    Seq<char>,
>
    decreases vars.len(),
{
    if vars.len() == 0 {
        Ok(Seq::empty())
    } else {
        match interned_variables(g, vars.drop_last()) {
            Err(n) => Err(n),
            Ok(v) => match interned(g, vars.last().rule) {
                Ok(r) => Ok(v.push(VariableModel { rule: r, ..vars.last() })),
                Err(n) => Err(n),
            },
        }
    }
}

/// How the name of a rule decides its kind: hidden when it begins with an
/// underscore, named otherwise.
pub open spec fn kind_of_name(name: Seq<char>) -> VariableType {
    if name.len() > 0 && name[0] == '_' {
        VariableType::Hidden
    } else {
        VariableType::Named
    }
}

/// The rule that stands for an external token: a token declared by name has
/// that name and the kind its name gives; one declared by a literal or a
/// pattern is anonymous and has the text as its name; any other has no name.
pub open spec fn external_variable(rule: RuleModel) -> VariableModel {
    match rule {
        RuleModel::NamedSymbol(n) => VariableModel {
            name: n,
            kind: kind_of_name(n),
            rule: RuleModel::Blank,
        },
        RuleModel::String(s) => VariableModel {
            name: s,
            kind: VariableType::Anonymous,
            rule: RuleModel::Blank,
        },
        RuleModel::Pattern(p, _) => VariableModel {
            name: p,
            kind: VariableType::Anonymous,
            rule: RuleModel::Blank,
        },
        _ => VariableModel { name: Seq::empty(), kind: VariableType::Hidden, rule: RuleModel::Blank },
    }
}

/// The symbols that `names` stand for, or the first name that stands for
/// nothing.
pub open spec fn resolved_all(g: InputGrammarModel, names: Seq<Seq<char>>) -> Result<
    Seq<Symbol>,
    Seq<char>,
>
    decreases names.len(),
{
    if names.len() == 0 {
        Ok(Seq::empty())
    } else {
        match resolved_all(g, names.drop_last()) {
            Err(n) => Err(n),
            Ok(v) => match resolve(g, names.last()) {
                Some(s) => Ok(v.push(s)),
                None => Err(names.last()),
            },
        }
    }
}

/// The same for groups of names.
pub open spec fn resolved_groups(g: InputGrammarModel, groups: Seq<Seq<Seq<char>>>) -> Result<
    Seq<Seq<Symbol>>,
    Seq<char>,
>
    decreases groups.len(),
{
    if groups.len() == 0 {
        Ok(Seq::empty())
    } else {
        match resolved_groups(g, groups.drop_last()) {
            Err(n) => Err(n),
            Ok(v) => match resolved_all(g, groups.last()) {
                Ok(s) => Ok(v.push(s)),
                Err(n) => Err(n),
            },
        }
    }
}

/// The grammar with every name resolved: the rules first, then the extras,
/// the expected conflicts, the supertypes, the inlining requests and the word
/// token. The first name, in that order, that stands for nothing is the error.
pub open spec fn interned_grammar(g: InputGrammarModel) -> Result<InternedGrammarModel, Seq<char>> {
    match interned_variables(g, g.variables) {
        Err(n) => Err(n),
        Ok(variables) => match interned_all(g, g.extra_symbols) {
            Err(n) => Err(n),
            Ok(extra_symbols) => match resolved_groups(g, g.expected_conflicts) {
                Err(n) => Err(n),
                Ok(expected_conflicts) => match resolved_all(g, g.supertype_symbols) {
                    Err(n) => Err(n),
                    Ok(supertype_symbols) => match resolved_all(g, g.variables_to_inline) {
                        Err(n) => Err(n),
                        Ok(variables_to_inline) => {
                            let word = match g.word_token {
                                Some(w) => match resolve(g, w) {
                                    Some(s) => Ok(Some(s)),
                                    None => Err(w),
                                },
                                None => Ok(None),
                            };
                            match word {
                                Err(n) => Err(n),
                                Ok(word_token) => Ok(
                                    InternedGrammarModel {
                                        variables,
                                        extra_symbols,
                                        expected_conflicts,
                                        precedence_orderings: g.precedence_orderings,
                                        external_tokens: g.external_tokens.map_values(
                                            |r: RuleModel| external_variable(r),
                                        ),
                                        variables_to_inline,
                                        supertype_symbols,
                                        word_token,
                                    },
                                ),
                            }
                        },
                    },
                },
            },
        },
    }
}

/// What a call returns for a wanted outcome: the value whose model is wanted,
/// or the error that names the undefined name.
pub open spec fn yields<T: View>(r: Result<T, CompileError>, wanted: Result<T::V, Seq<char>>)
    -> bool {
    match wanted {
        Ok(m) => r matches Ok(x) && x@ == m,
        Err(n) => r matches Err(e) && e@ == CompileErrorModel::UndefinedSymbol(n),
    }
}

/// The symbol that `name` stands for in `grammar`, if it stands for one.
pub fn resolve_name(grammar: &InputGrammar, name: &String) -> (found: Option<Symbol>)
    ensures
        found == resolve(grammar@, name@),
{
    let ghost g = grammar@;
    let mut i: usize = 0;
    while i < grammar.variables.len()
        invariant
            i <= grammar.variables@.len(),
            g == grammar@,
            forall|k: int| 0 <= k < i ==> !is_called(name@)(#[trigger] g.variables[k]),
        decreases grammar.variables@.len() - i,
    {
        if grammar.variables[i].name == *name {
            assert(is_called(name@)(g.variables[i as int]));
            proof {
                lemma_first_index_where(g.variables, is_called(name@));
            }
            return Some(Symbol::non_terminal(i));
        }
        i += 1;
    }
    proof {
        lemma_first_index_where(g.variables, is_called(name@));
    }
    let mut j: usize = 0;
    while j < grammar.external_tokens.len()
        invariant
            j <= grammar.external_tokens@.len(),
            g == grammar@,
            first_index_where(g.variables, is_called(name@)) is None,
            forall|k: int| 0 <= k < j ==> !is_reference_to(name@)(#[trigger] g.external_tokens[k]),
        decreases grammar.external_tokens@.len() - j,
    {
        let hit = match &grammar.external_tokens[j] {
            Rule::NamedSymbol(n) => *n == *name,
            _ => false,
        };
        if hit {
            assert(is_reference_to(name@)(g.external_tokens[j as int]));
            proof {
                lemma_first_index_where(g.external_tokens, is_reference_to(name@));
            }
            return Some(Symbol::external(j));
        }
        j += 1;
    }
    proof {
        lemma_first_index_where(g.external_tokens, is_reference_to(name@));
    }
    None
}

/// The rules of `rules` with every reference by name resolved.
pub fn intern_rules(grammar: &InputGrammar, rules: &Vec<Rule>) -> (r: Result<
    Vec<Rule>,
    CompileError,
>)
    ensures
        match interned_all(grammar@, rule_models(rules@)) {
            Ok(m) => r matches Ok(x) && rule_models(x@) == m,
            Err(n) => r matches Err(e) && e@ == CompileErrorModel::UndefinedSymbol(n),
        },
    decreases *rules, 1nat,
{
    let ghost src = rule_models(rules@);
    let mut out: Vec<Rule> = Vec::new();
    let mut i: usize = 0;
    assert(src.take(0) =~= Seq::empty());
    assert(rule_models(out@) =~= Seq::empty());
    while i < rules.len()
        invariant
            i <= rules@.len(),
            src == rule_models(rules@),
            interned_all(grammar@, src.take(i as int)) == Ok::<Seq<RuleModel>, Seq<char>>(
                rule_models(out@),
            ),
        decreases rules@.len() - i,
    {
        assert(src.take(i + 1).drop_last() =~= src.take(i as int));
        assert(src.take(i + 1).last() == rules@[i as int]@);
        match intern_rule(grammar, &rules[i]) {
            Ok(rule) => {
                let ghost before = out@;
                out.push(rule);
                assert(rule_models(out@) =~= rule_models(before).push(rule@));
            },
            Err(e) => {
                proof {
                    lemma_interned_error_stays(grammar@, src, i + 1);
                }
                return Err(e);
            },
        }
        i += 1;
    }
    assert(src.take(rules@.len() as int) =~= src);
    Ok(out)
}

/// An undefined name found among the first rules is what the whole list gives.
pub proof fn lemma_interned_error_stays(g: InputGrammarModel, rules: Seq<RuleModel>, k: int)
    requires
        0 <= k <= rules.len(),
        interned_all(g, rules.take(k)) is Err,
    ensures
        interned_all(g, rules) == interned_all(g, rules.take(k)),
    decreases rules.len() - k,
{
    if k < rules.len() {
        assert(rules.take(k + 1).drop_last() =~= rules.take(k));
        lemma_interned_error_stays(g, rules, k + 1);
    } else {
        assert(rules.take(k) =~= rules);
    }
}

/// `rule` with every reference by name resolved.
pub fn intern_rule(grammar: &InputGrammar, rule: &Rule) -> (r: Result<Rule, CompileError>)
    ensures
        yields(r, interned(grammar@, rule@)),
    decreases *rule, 0nat,
{
    match rule {
        Rule::NamedSymbol(name) => match resolve_name(grammar, name) {
            Some(symbol) => Ok(Rule::Symbol(symbol)),
            None => Err(CompileError::UndefinedSymbol(name.clone())),
        },
        Rule::Choice(rules) => {
            assert(rule@->Choice_0 == rule_models(rules@));
            match intern_rules(grammar, rules) {
                Ok(v) => Ok(Rule::Choice(v)),
                Err(e) => Err(e),
            }
        },
        Rule::Sequence(rules) => {
            assert(rule@->Sequence_0 == rule_models(rules@));
            match intern_rules(grammar, rules) {
                Ok(v) => Ok(Rule::Sequence(v)),
                Err(e) => Err(e),
            }
        },
        Rule::Repeat(inner) => match intern_rule(grammar, &**inner) {
            Ok(v) => Ok(Rule::Repeat(Box::new(v))),
            Err(e) => Err(e),
        },
        Rule::Metadata { params, rule: inner } => match intern_rule(grammar, &**inner) {
            Ok(v) => Ok(Rule::Metadata { params: params.clone(), rule: Box::new(v) }),
            Err(e) => Err(e),
        },
        Rule::Blank => Ok(Rule::Blank),
        Rule::String(s) => Ok(Rule::String(s.clone())),
        Rule::Pattern(p, f) => Ok(Rule::Pattern(p.clone(), f.clone())),
        Rule::Symbol(s) => Ok(Rule::Symbol(*s)),
    }
}

/// An undefined name found among the first rules is what the whole list gives.
pub proof fn lemma_interned_variables_error_stays(
    g: InputGrammarModel,
    vars: Seq<VariableModel>,
    k: int,
)
    requires
        0 <= k <= vars.len(),
        interned_variables(g, vars.take(k)) is Err,
    ensures
        interned_variables(g, vars) == interned_variables(g, vars.take(k)),
    decreases vars.len() - k,
{
    if k < vars.len() {
        assert(vars.take(k + 1).drop_last() =~= vars.take(k));
        lemma_interned_variables_error_stays(g, vars, k + 1);
    } else {
        assert(vars.take(k) =~= vars);
    }
}

/// An undefined name found among the first names is what the whole list gives.
pub proof fn lemma_resolved_error_stays(g: InputGrammarModel, names: Seq<Seq<char>>, k: int)
    requires
        0 <= k <= names.len(),
        resolved_all(g, names.take(k)) is Err,
    ensures
        resolved_all(g, names) == resolved_all(g, names.take(k)),
    decreases names.len() - k,
{
    if k < names.len() {
        assert(names.take(k + 1).drop_last() =~= names.take(k));
        lemma_resolved_error_stays(g, names, k + 1);
    } else {
        assert(names.take(k) =~= names);
    }
}

/// An undefined name found among the first groups is what the whole list gives.
pub proof fn lemma_resolved_groups_error_stays(
    g: InputGrammarModel,
    groups: Seq<Seq<Seq<char>>>,
    k: int,
)
    requires
        0 <= k <= groups.len(),
        resolved_groups(g, groups.take(k)) is Err,
    ensures
        resolved_groups(g, groups) == resolved_groups(g, groups.take(k)),
    decreases groups.len() - k,
{
    if k < groups.len() {
        assert(groups.take(k + 1).drop_last() =~= groups.take(k));
        lemma_resolved_groups_error_stays(g, groups, k + 1);
    } else {
        assert(groups.take(k) =~= groups);
    }
}

/// The rules of the grammar, each with its references resolved.
fn intern_variables(grammar: &InputGrammar) -> (r: Result<Vec<Variable>, CompileError>)
    ensures
        match interned_variables(grammar@, grammar@.variables) {
            Ok(m) => r matches Ok(x) && variables_model(x@) == m,
            Err(n) => r matches Err(e) && e@ == CompileErrorModel::UndefinedSymbol(n),
        },
{
    let ghost src = grammar@.variables;
    let mut out: Vec<Variable> = Vec::new();
    let mut i: usize = 0;
    assert(src.take(0) =~= Seq::empty());
    assert(variables_model(out@) =~= Seq::empty());
    while i < grammar.variables.len()
        invariant
            i <= grammar.variables@.len(),
            src == grammar@.variables,
            interned_variables(grammar@, src.take(i as int)) == Ok::<
                Seq<VariableModel>,
                Seq<char>,
            >(variables_model(out@)),
        decreases grammar.variables@.len() - i,
    {
        assert(src.take(i + 1).drop_last() =~= src.take(i as int));
        assert(src.take(i + 1).last() == grammar.variables@[i as int]@);
        let variable = &grammar.variables[i];
        match intern_rule(grammar, &variable.rule) {
            Ok(rule) => {
                let ghost before = out@;
                let interned_variable = Variable {
                    name: variable.name.clone(),
                    kind: variable.kind,
                    rule,
                };
                out.push(interned_variable);
                assert(variables_model(out@) =~= variables_model(before).push(
                    interned_variable@,
                ));
            },
            Err(e) => {
                proof {
                    lemma_interned_variables_error_stays(grammar@, src, i + 1);
                }
                return Err(e);
            },
        }
        i += 1;
    }
    assert(src.take(grammar.variables@.len() as int) =~= src);
    Ok(out)
}

/// The symbols that `names` stand for.
pub fn resolve_names(grammar: &InputGrammar, names: &Vec<String>) -> (r: Result<
    Vec<Symbol>,
    CompileError,
>)
    ensures
        match resolved_all(grammar@, strings_model(names@)) {
            Ok(m) => r matches Ok(x) && x@ == m,
            Err(n) => r matches Err(e) && e@ == CompileErrorModel::UndefinedSymbol(n),
        },
{
    let ghost src = strings_model(names@);
    let mut out: Vec<Symbol> = Vec::new();
    let mut i: usize = 0;
    assert(src.take(0) =~= Seq::empty());
    while i < names.len()
        invariant
            i <= names@.len(),
            src == strings_model(names@),
            resolved_all(grammar@, src.take(i as int)) == Ok::<Seq<Symbol>, Seq<char>>(out@),
        decreases names@.len() - i,
    {
        assert(src.take(i + 1).drop_last() =~= src.take(i as int));
        assert(src.take(i + 1).last() == names@[i as int]@);
        match resolve_name(grammar, &names[i]) {
            Some(symbol) => {
                out.push(symbol);
            },
            None => {
                proof {
                    lemma_resolved_error_stays(grammar@, src, i + 1);
                }
                return Err(CompileError::UndefinedSymbol(names[i].clone()));
            },
        }
        i += 1;
    }
    assert(src.take(names@.len() as int) =~= src);
    Ok(out)
}

/// The symbols that the names of each group stand for.
fn resolve_groups(grammar: &InputGrammar, groups: &Vec<Vec<String>>) -> (r: Result<
    Vec<Vec<Symbol>>,
    CompileError,
>)
    ensures
        match resolved_groups(grammar@, crate::grammars::name_groups_model(groups@)) {
            Ok(m) => r matches Ok(x) && crate::grammars::symbol_groups_model(x@) == m,
            Err(n) => r matches Err(e) && e@ == CompileErrorModel::UndefinedSymbol(n),
        },
{
    let ghost src = crate::grammars::name_groups_model(groups@);
    let mut out: Vec<Vec<Symbol>> = Vec::new();
    let mut i: usize = 0;
    assert(src.take(0) =~= Seq::empty());
    assert(crate::grammars::symbol_groups_model(out@) =~= Seq::empty());
    while i < groups.len()
        invariant
            i <= groups@.len(),
            src == crate::grammars::name_groups_model(groups@),
            resolved_groups(grammar@, src.take(i as int)) == Ok::<Seq<Seq<Symbol>>, Seq<char>>(
                crate::grammars::symbol_groups_model(out@),
            ),
        decreases groups@.len() - i,
    {
        assert(src.take(i + 1).drop_last() =~= src.take(i as int));
        assert(src.take(i + 1).last() == strings_model(groups@[i as int]@));
        match resolve_names(grammar, &groups[i]) {
            Ok(symbols) => {
                let ghost before = out@;
                out.push(symbols);
                assert(crate::grammars::symbol_groups_model(out@)
                    =~= crate::grammars::symbol_groups_model(before).push(symbols@));
            },
            Err(e) => {
                proof {
                    lemma_resolved_groups_error_stays(grammar@, src, i + 1);
                }
                return Err(e);
            },
        }
        i += 1;
    }
    assert(src.take(groups@.len() as int) =~= src);
    Ok(out)
}

/// The kind that a rule's name gives it.
pub fn kind_for_name(name: &String) -> (kind: VariableType)
    ensures
        kind == kind_of_name(name@),
{
    let text = name.as_str();
    if text.unicode_len() > 0 && text.get_char(0) == '_' {
        VariableType::Hidden
    } else {
        VariableType::Named
    }
}

/// The rule that stands for an external token.
fn external_token_variable(rule: &Rule) -> (v: Variable)
    ensures
        v@ == external_variable(rule@),
{
    match rule {
        Rule::NamedSymbol(n) => Variable {
            name: n.clone(),
            kind: kind_for_name(n),
            rule: Rule::Blank,
        },
        Rule::String(s) => Variable {
            name: s.clone(),
            kind: VariableType::Anonymous,
            rule: Rule::Blank,
        },
        Rule::Pattern(p, _) => Variable {
            name: p.clone(),
            kind: VariableType::Anonymous,
            rule: Rule::Blank,
        },
        _ => Variable { name: String::new(), kind: VariableType::Hidden, rule: Rule::Blank },
    }
}

/// Copies the precedence orderings.
pub fn clone_orderings(orderings: &Vec<Vec<PrecedenceEntry>>) -> (out: Vec<Vec<PrecedenceEntry>>)
    ensures
        orderings_model(out@) == orderings_model(orderings@),
{
    let mut out: Vec<Vec<PrecedenceEntry>> = Vec::new();
    let mut i: usize = 0;
    while i < orderings.len()
        invariant
            i <= orderings@.len(),
            out@.len() == i,
            forall|k: int| 0 <= k < i ==> entries_model((#[trigger] out@[k])@) == entries_model(orderings@[k]@),
        decreases orderings@.len() - i,
    {
        let mut row: Vec<PrecedenceEntry> = Vec::new();
        let mut j: usize = 0;
        while j < orderings[i].len()
            invariant
                i < orderings@.len(),
                j <= orderings@[i as int]@.len(),
                row@.len() == j,
                forall|k: int| 0 <= k < j ==> (#[trigger] row@[k])@ == orderings@[i as int]@[k]@,
            decreases orderings@[i as int]@.len() - j,
        {
            row.push(orderings[i][j].clone());
            j += 1;
        }
        assert(entries_model(row@) =~= entries_model(orderings@[i as int]@));
        out.push(row);
        i += 1;
    }
    assert(orderings_model(out@) =~= orderings_model(orderings@));
    out
}

/// Resolves every name of the grammar. Fails with `UndefinedSymbol` on the
/// first name, in the order rules, extras, expected conflicts, supertypes,
/// inlining requests, word token, that is neither a rule nor an external
/// token.
pub fn intern_symbols(grammar: &InputGrammar) -> (r: Result<InternedGrammar, CompileError>)
    ensures
        yields(r, interned_grammar(grammar@)),
{
    let variables = intern_variables(grammar)?;
    let extra_symbols = intern_rules(grammar, &grammar.extra_symbols)?;
    let expected_conflicts = resolve_groups(grammar, &grammar.expected_conflicts)?;
    let supertype_symbols = resolve_names(grammar, &grammar.supertype_symbols)?;
    let variables_to_inline = resolve_names(grammar, &grammar.variables_to_inline)?;
    let word_token = match &grammar.word_token {
        Some(word) => match resolve_name(grammar, word) {
            Some(symbol) => Some(symbol),
            None => {
                return Err(CompileError::UndefinedSymbol(word.clone()));
            },
        },
        None => None,
    };
    let mut external_tokens: Vec<Variable> = Vec::new();
    let mut i: usize = 0;
    while i < grammar.external_tokens.len()
        invariant
            i <= grammar.external_tokens@.len(),
            external_tokens@.len() == i,
            forall|k: int|
                0 <= k < i ==> (#[trigger] external_tokens@[k])@ == external_variable(
                    grammar.external_tokens@[k]@,
                ),
        decreases grammar.external_tokens@.len() - i,
    {
        external_tokens.push(external_token_variable(&grammar.external_tokens[i]));
        i += 1;
    }
    let interned = InternedGrammar {
        variables,
        extra_symbols,
        expected_conflicts,
        precedence_orderings: clone_orderings(&grammar.precedence_orderings),
        external_tokens,
        variables_to_inline,
        supertype_symbols,
        word_token,
    };
    proof {
        let wanted = interned_grammar(grammar@);
        assert(wanted is Ok);
        assert(interned@.external_tokens =~= wanted->Ok_0.external_tokens);
    }
    Ok(interned)
}

} // verus!
