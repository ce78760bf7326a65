//! Replaces every repetition by a reference to an auxiliary rule that
//! repeats by referring to itself.
use vstd::prelude::*;
use crate::grammars::{variables_model, Variable, VariableModel, VariableType};
use crate::rules::{rule_models, Rule, RuleModel, Symbol, SymbolType};

verus! {

/// The rule of the auxiliary rule `symbol` that repeats `inner`: itself
/// followed by `inner`, or `inner` alone.
pub open spec fn repeat_rule(symbol: Symbol, inner: RuleModel) -> RuleModel {
    RuleModel::Choice(
        seq![RuleModel::Sequence(seq![RuleModel::Symbol(symbol), inner]), inner],
    )
}

/// What stands in place of a repetition: the auxiliary rule or nothing.
pub open spec fn optional_symbol(symbol: Symbol) -> RuleModel {
    RuleModel::Choice(seq![RuleModel::Symbol(symbol), RuleModel::Blank])
}

/// The non-terminal numbered `i`.
pub open spec fn non_terminal(i: int) -> Symbol {
    Symbol { kind: SymbolType::NonTerminal, index: i as usize }
}

/// The name of an auxiliary rule made for a repetition in the rule `owner`.
pub open spec fn repeat_name(owner: Seq<char>) -> Seq<char> {
    owner + seq!['_', 'r', 'e', 'p', 'e', 'a', 't']
}

/// The first rule among the first `k` that is the auxiliary rule repeating
/// `inner`, if there is one.
pub open spec fn repeat_index(all: Seq<VariableModel>, inner: RuleModel, k: int) -> Option<int>
    decreases k,
{
    if k <= 0 {
        None
    } else {
        match repeat_index(all, inner, k - 1) {
            Some(i) => Some(i),
            None => if all[k - 1].kind == VariableType::Auxiliary && all[k - 1].rule == repeat_rule(
                non_terminal(k - 1),
                inner,
            ) {
                Some(k - 1)
            } else {
                None
            },
        }
    }
}

/// `rule`, which stands in the rule called `owner`, without repetitions, and
/// the rules known afterwards. A repetition of a rule that an auxiliary rule
/// repeats already refers to that rule; otherwise a new auxiliary rule is
/// added at the end.
pub open spec fn expanded(owner: Seq<char>, rule: RuleModel, all: Seq<VariableModel>) -> (
    RuleModel,
    Seq<VariableModel>,
)
    decreases rule, 0nat,
{
    match rule {
        RuleModel::Repeat(inner) => {
            let (r, known) = expanded(owner, *inner, all);
            match repeat_index(known, r, known.len() as int) {
                Some(i) => (optional_symbol(non_terminal(i)), known),
                None => (
                    optional_symbol(non_terminal(known.len() as int)),
                    known.push(
                        VariableModel {
                            name: repeat_name(owner),
                            kind: VariableType::Auxiliary,
                            rule: repeat_rule(non_terminal(known.len() as int), r),
                        },
                    ),
                ),
            }
        },
        RuleModel::Choice(rs) => {
            let (v, known) = expanded_all(owner, rs, all);
            (RuleModel::Choice(v), known)
        },
        RuleModel::Sequence(rs) => {
            let (v, known) = expanded_all(owner, rs, all);
            (RuleModel::Sequence(v), known)
        },
        RuleModel::Metadata { params, rule: inner } => {
            let (r, known) = expanded(owner, *inner, all);
            (RuleModel::Metadata { params, rule: Box::new(r) }, known)
        },
        other => (other, all),
    }
}

/// The same for a list of rules, from first to last.
pub open spec fn expanded_all(owner: Seq<char>, rules: Seq<RuleModel>, all: Seq<VariableModel>)
    -> (Seq<RuleModel>, Seq<VariableModel>)
    decreases rules, 1nat,
{
    if rules.len() == 0 {
        (Seq::empty(), all)
    } else {
        let (v, known) = expanded_all(owner, rules.drop_last(), all);
        let (r, after) = expanded(owner, rules.last(), known);
        (v.push(r), after)
    }
}

/// The rules after the repetitions of the first `k` of them are replaced.
/// The auxiliary rules follow the rules of the grammar.
pub open spec fn expanded_variables(vars: Seq<VariableModel>, k: int) -> Seq<VariableModel>
    decreases k,
{
    if k <= 0 {
        vars
    } else {
        let all = expanded_variables(vars, k - 1);
        let (r, known) = expanded(all[k - 1].name, all[k - 1].rule, all);
        known.update(k - 1, VariableModel { rule: r, ..all[k - 1] })
    }
}

/// A found auxiliary rule stays found.
pub proof fn lemma_repeat_index_stays(all: Seq<VariableModel>, inner: RuleModel, k: int, m: int)
    requires
        0 <= k <= m,
        repeat_index(all, inner, k) is Some,
    ensures
        repeat_index(all, inner, m) == repeat_index(all, inner, k),
    decreases m - k,
{
    if k < m {
        lemma_repeat_index_stays(all, inner, k, m - 1);
    }
}

/// The rule of the auxiliary rule `symbol` that repeats `inner`.
fn make_repeat_rule(symbol: Symbol, inner: Rule) -> (r: Rule)
    ensures
        r@ == repeat_rule(symbol, inner@),
{
    let mut parts: Vec<Rule> = Vec::new();
    parts.push(Rule::Symbol(symbol));
    parts.push(inner.clone());
    let mut alternatives: Vec<Rule> = Vec::new();
    alternatives.push(Rule::Sequence(parts));
    alternatives.push(inner);
    let r = Rule::Choice(alternatives);
    assert(rule_models(parts@) =~= seq![RuleModel::Symbol(symbol), inner@]);
    assert(rule_models(alternatives@) =~= seq![
        RuleModel::Sequence(seq![RuleModel::Symbol(symbol), inner@]),
        inner@,
    ]);
    r
}

/// What stands in place of a repetition.
fn make_optional(symbol: Symbol) -> (r: Rule)
    ensures
        r@ == optional_symbol(symbol),
{
    let mut alternatives: Vec<Rule> = Vec::new();
    alternatives.push(Rule::Symbol(symbol));
    alternatives.push(Rule::Blank);
    assert(rule_models(alternatives@) =~= seq![RuleModel::Symbol(symbol), RuleModel::Blank]);
    Rule::Choice(alternatives)
}

/// The symbol of the auxiliary rule that repeats `inner`; the rule is added
/// to `all` unless it is there already.
fn repeat_symbol(owner: &String, inner: Rule, all: &mut Vec<Variable>) -> (symbol: Symbol)
    ensures
        match repeat_index(variables_model(old(all)@), inner@, old(all)@.len() as int) {
            Some(i) => symbol == non_terminal(i) && variables_model(final(all)@)
                == variables_model(old(all)@),
            None => symbol == non_terminal(old(all)@.len() as int) && variables_model(
                final(all)@,
            ) == variables_model(old(all)@).push(
                VariableModel {
                    name: repeat_name(owner@),
                    kind: VariableType::Auxiliary,
                    rule: repeat_rule(non_terminal(old(all)@.len() as int), inner@),
                },
            ),
        },
        final(all)@.len() >= old(all)@.len(),
{
    let ghost known = variables_model(all@);
    let mut i: usize = 0;
    while i < all.len()
        invariant
            i <= all@.len(),
            all@ == old(all)@,
            known == variables_model(all@),
            repeat_index(known, inner@, i as int) is None,
        decreases all@.len() - i,
    {
        if all[i].kind == VariableType::Auxiliary {
            let candidate = make_repeat_rule(Symbol::non_terminal(i), inner.clone());
            if all[i].rule.same(&candidate) {
                proof {
                    assert(repeat_index(known, inner@, i + 1) == Some(i as int));
                    lemma_repeat_index_stays(known, inner@, i + 1, known.len() as int);
                }
                return Symbol::non_terminal(i);
            }
        }
        i += 1;
    }
    proof {
        reveal_strlit("_repeat");
    }
    let index = all.len();
    let symbol = Symbol::non_terminal(index);
    let mut name = owner.clone();
    name.append("_repeat");
    assert(name@ =~= repeat_name(owner@));
    let variable = Variable { name, kind: VariableType::Auxiliary, rule: make_repeat_rule(symbol, inner) };
    all.push(variable);
    assert(variables_model(all@) =~= known.push(variable@));
    symbol
}

/// Replaces the repetitions in each of `rules`.
fn expand_rules(owner: &String, rules: &Vec<Rule>, all: &mut Vec<Variable>) -> (out: Vec<Rule>)
    ensures
        (rule_models(out@), variables_model(final(all)@)) == expanded_all(
            owner@,
            rule_models(rules@),
            variables_model(old(all)@),
        ),
        final(all)@.len() >= old(all)@.len(),
    decreases *rules, 1nat,
{
    let ghost src = rule_models(rules@);
    let ghost start = variables_model(all@);
    let mut out: Vec<Rule> = Vec::new();
    let mut i: usize = 0;
    assert(src.take(0) =~= Seq::empty());
    assert(rule_models(out@) =~= Seq::empty());
    while i < rules.len()
        invariant
            i <= rules@.len(),
            src == rule_models(rules@),
            start == variables_model(old(all)@),
            all@.len() >= old(all)@.len(),
            (rule_models(out@), variables_model(all@)) == expanded_all(
                owner@,
                src.take(i as int),
                start,
            ),
        decreases rules@.len() - i,
    {
        assert(src.take(i + 1).drop_last() =~= src.take(i as int));
        assert(src.take(i + 1).last() == rules@[i as int]@);
        let ghost before = out@;
        let rule = expand_rule(owner, &rules[i], all);
        out.push(rule);
        assert(rule_models(out@) =~= rule_models(before).push(rule@));
        i += 1;
    }
    assert(src.take(rules@.len() as int) =~= src);
    out
}

/// Replaces the repetitions in `rule`, which stands in the rule `owner`.
fn expand_rule(owner: &String, rule: &Rule, all: &mut Vec<Variable>) -> (r: Rule)
    ensures
        (r@, variables_model(final(all)@)) == expanded(
            owner@,
            rule@,
            variables_model(old(all)@),
        ),
        final(all)@.len() >= old(all)@.len(),
    decreases *rule, 0nat,
{
    match rule {
        Rule::Repeat(inner) => {
            let r = expand_rule(owner, &**inner, all);
            let symbol = repeat_symbol(owner, r, all);
            make_optional(symbol)
        },
        Rule::Choice(rs) => {
            assert(rule@->Choice_0 == rule_models(rs@));
            Rule::Choice(expand_rules(owner, rs, all))
        },
        Rule::Sequence(rs) => {
            assert(rule@->Sequence_0 == rule_models(rs@));
            Rule::Sequence(expand_rules(owner, rs, all))
        },
        Rule::Metadata { params, rule: inner } => {
            let r = expand_rule(owner, &**inner, all);
            Rule::Metadata { params: params.clone(), rule: Box::new(r) }
        },
        Rule::Blank => Rule::Blank,
        Rule::String(s) => Rule::String(s.clone()),
        Rule::Pattern(p, f) => Rule::Pattern(p.clone(), f.clone()),
        Rule::NamedSymbol(n) => Rule::NamedSymbol(n.clone()),
        Rule::Symbol(s) => Rule::Symbol(*s),
    }
}

/// Replaces every repetition in the rules by a reference to an auxiliary
/// rule. The auxiliary rules are added behind the rules given.
pub fn expand_repeats(variables: &Vec<Variable>) -> (all: Vec<Variable>)
    ensures
        variables_model(all@) == expanded_variables(
            variables_model(variables@),
            variables@.len() as int,
        ),
        all@.len() >= variables@.len(),
{
    let ghost vars = variables_model(variables@);
    let mut all: Vec<Variable> = Vec::new();
    let mut c: usize = 0;
    while c < variables.len()
        invariant
            c <= variables@.len(),
            all@.len() == c,
            forall|k: int| 0 <= k < c ==> (#[trigger] all@[k])@ == variables@[k]@,
        decreases variables@.len() - c,
    {
        all.push(variables[c].clone());
        c += 1;
    }
    assert(variables_model(all@) =~= vars);
    let mut i: usize = 0;
    while i < variables.len()
        invariant
            i <= variables@.len(),
            vars == variables_model(variables@),
            all@.len() >= variables@.len(),
            variables_model(all@) == expanded_variables(vars, i as int),
        decreases variables@.len() - i,
    {
        let owner = all[i].name.clone();
        let kind = all[i].kind;
        let rule = all[i].rule.clone();
        let ghost before = variables_model(all@);
        assert(before[i as int] == all@[i as int]@);
        let expanded_rule = expand_rule(&owner, &rule, &mut all);
        let ghost known = variables_model(all@);
        let replacement = Variable { name: owner, kind, rule: expanded_rule };
        all.set(i, replacement);
        assert(variables_model(all@) =~= known.update(i as int, replacement@));
        i += 1;
    }
    all
}

} // verus!
