//! The grammar at its three stages: as declared (`InputGrammar`), and split
//! into the part the parser handles (`SyntaxGrammar`) and the part the lexer
//! handles (`LexicalGrammar`).
use vstd::prelude::*;
use crate::nfa::Nfa;
use crate::rules::{
    alias_option_model, clone_alias_option, clone_string_option, string_option_model, Alias,
    AliasModel, Associativity, Precedence, PrecedenceModel, Rule, RuleModel, Symbol,
};

verus! {

/// How a variable shows in the produced syntax tree.
#[derive(Clone, Copy, Debug, PartialEq, Eq, Structural, Hash)]
pub enum VariableType {
    Hidden,
    Auxiliary,
    Anonymous,
    Named,
}

impl VariableType {
    /// A variable is visible when it is named or anonymous.
    pub fn is_visible(self) -> (b: bool)
        ensures
            b == (self == VariableType::Named || self == VariableType::Anonymous),
    {
        self == VariableType::Named || self == VariableType::Anonymous
    }
}

/// The models of a list of strings.
pub open spec fn strings_model(names: Seq<String>) -> Seq<Seq<char>> {
    Seq::new(names.len(), |i: int| names[i]@)
}

/// Copies a list of strings.
pub fn clone_strings(names: &Vec<String>) -> (out: Vec<String>)
    ensures
        strings_model(out@) == strings_model(names@),
{
    let mut out: Vec<String> = Vec::new();
    let mut i: usize = 0;
    while i < names.len()
        invariant
            i <= names.len(),
            out@.len() == i,
            forall|j: int| 0 <= j < i ==> (#[trigger] out@[j])@ == names@[j]@,
        decreases names.len() - i,
    {
        out.push(names[i].clone());
        i += 1;
    }
    assert(strings_model(out@) =~= strings_model(names@));
    out
}

// Input grammar

/// A named rule of the grammar as declared.
#[derive(Debug, PartialEq, Eq)]
pub struct Variable {
    pub name: String,
    pub kind: VariableType,
    pub rule: Rule,
}

pub struct VariableModel {
    pub name: Seq<char>,
    pub kind: VariableType,
    pub rule: RuleModel,
}

impl View for Variable {
    type V = VariableModel;

    open spec fn view(&self) -> VariableModel {
        VariableModel { name: self.name@, kind: self.kind, rule: self.rule@ }
    }
}

impl Clone for Variable {
    fn clone(&self) -> (r: Variable)
        ensures
            r@ == self@,
    {
        Variable { name: self.name.clone(), kind: self.kind, rule: self.rule.clone() }
    }
}

impl Variable {
    pub fn named(name: &str, rule: Rule) -> (v: Variable)
        ensures
            v@ == (VariableModel { name: name@, kind: VariableType::Named, rule: rule@ }),
    {
        Variable { name: name.to_owned(), kind: VariableType::Named, rule }
    }

    pub fn auxiliary(name: &str, rule: Rule) -> (v: Variable)
        ensures
            v@ == (VariableModel { name: name@, kind: VariableType::Auxiliary, rule: rule@ }),
    {
        Variable { name: name.to_owned(), kind: VariableType::Auxiliary, rule }
    }

    pub fn hidden(name: &str, rule: Rule) -> (v: Variable)
        ensures
            v@ == (VariableModel { name: name@, kind: VariableType::Hidden, rule: rule@ }),
    {
        Variable { name: name.to_owned(), kind: VariableType::Hidden, rule }
    }

    pub fn anonymous(name: &str, rule: Rule) -> (v: Variable)
        ensures
            v@ == (VariableModel { name: name@, kind: VariableType::Anonymous, rule: rule@ }),
    {
        Variable { name: name.to_owned(), kind: VariableType::Anonymous, rule }
    }
}

pub open spec fn variables_model(vars: Seq<Variable>) -> Seq<VariableModel> {
    Seq::new(vars.len(), |i: int| vars[i]@)
}

/// One entry of a precedence ordering: a precedence name, or the name of a rule.
#[derive(Debug, PartialEq, Eq, Hash)]
pub enum PrecedenceEntry {
    Name(String),
    Symbol(String),
}

pub enum PrecedenceEntryModel {
    Name(Seq<char>),
    Symbol(Seq<char>),
}

impl View for PrecedenceEntry {
    type V = PrecedenceEntryModel;

    open spec fn view(&self) -> PrecedenceEntryModel {
        match self {
            PrecedenceEntry::Name(n) => PrecedenceEntryModel::Name(n@),
            PrecedenceEntry::Symbol(n) => PrecedenceEntryModel::Symbol(n@),
        }
    }
}

impl Clone for PrecedenceEntry {
    fn clone(&self) -> (r: PrecedenceEntry)
        ensures
            r@ == self@,
    {
        match self {
            PrecedenceEntry::Name(n) => PrecedenceEntry::Name(n.clone()),
            PrecedenceEntry::Symbol(n) => PrecedenceEntry::Symbol(n.clone()),
        }
    }
}

/// How an entry reads in a message: a precedence name between single quotes,
/// a rule name behind `$.`.
pub open spec fn precedence_entry_text(entry: PrecedenceEntryModel) -> Seq<char> {
    match entry {
        PrecedenceEntryModel::Name(n) => seq!['\''] + n + seq!['\''],
        PrecedenceEntryModel::Symbol(s) => seq!['$', '.'] + s,
    }
}

impl PrecedenceEntry {
    pub fn same(&self, other: &PrecedenceEntry) -> (b: bool)
        ensures
            b == (self@ == other@),
    {
        match (self, other) {
            (PrecedenceEntry::Name(a), PrecedenceEntry::Name(b)) => {
                let r = *a == *b;
                r
            },
            (PrecedenceEntry::Symbol(a), PrecedenceEntry::Symbol(b)) => {
                let r = *a == *b;
                r
            },
            _ => false,
        }
    }

    /// The entry as it reads in a message.
    pub fn to_text(&self) -> (s: String)
        ensures
            s@ == precedence_entry_text(self@),
    {
        proof {
            reveal_strlit("'");
            reveal_strlit("$.");
        }
        match self {
            PrecedenceEntry::Name(n) => {
                let mut s = "'".to_owned();
                s.append(n.as_str());
                s.append("'");
                assert(s@ =~= precedence_entry_text(self@));
                s
            },
            PrecedenceEntry::Symbol(n) => {
                let mut s = "$.".to_owned();
                s.append(n.as_str());
                assert(s@ =~= precedence_entry_text(self@));
                s
            },
        }
    }
}

pub open spec fn entries_model(entries: Seq<PrecedenceEntry>) -> Seq<PrecedenceEntryModel> {
    Seq::new(entries.len(), |i: int| entries[i]@)
}

pub open spec fn orderings_model(orderings: Seq<Vec<PrecedenceEntry>>) -> Seq<
    Seq<PrecedenceEntryModel>,
> {
    Seq::new(orderings.len(), |i: int| entries_model(orderings[i]@))
}

pub open spec fn name_groups_model(groups: Seq<Vec<String>>) -> Seq<Seq<Seq<char>>> {
    Seq::new(groups.len(), |i: int| strings_model(groups[i]@))
}

/// The grammar as declared: rules refer to each other by name.
#[derive(Debug, PartialEq, Eq)]
pub struct InputGrammar {
    pub name: String,
    pub variables: Vec<Variable>,
    pub extra_symbols: Vec<Rule>,
    pub expected_conflicts: Vec<Vec<String>>,
    pub precedence_orderings: Vec<Vec<PrecedenceEntry>>,
    pub external_tokens: Vec<Rule>,
    pub variables_to_inline: Vec<String>,
    pub supertype_symbols: Vec<String>,
    pub word_token: Option<String>,
}

pub struct InputGrammarModel {
    pub name: Seq<char>,
    pub variables: Seq<VariableModel>,
    pub extra_symbols: Seq<RuleModel>,
    pub expected_conflicts: Seq<Seq<Seq<char>>>,
    pub precedence_orderings: Seq<Seq<PrecedenceEntryModel>>,
    pub external_tokens: Seq<RuleModel>,
    pub variables_to_inline: Seq<Seq<char>>,
    pub supertype_symbols: Seq<Seq<char>>,
    pub word_token: Option<Seq<char>>,
}

impl View for InputGrammar {
    type V = InputGrammarModel;

    open spec fn view(&self) -> InputGrammarModel {
        InputGrammarModel {
            name: self.name@,
            variables: variables_model(self.variables@),
            extra_symbols: crate::rules::rule_models(self.extra_symbols@),
            expected_conflicts: name_groups_model(self.expected_conflicts@),
            precedence_orderings: orderings_model(self.precedence_orderings@),
            external_tokens: crate::rules::rule_models(self.external_tokens@),
            variables_to_inline: strings_model(self.variables_to_inline@),
            supertype_symbols: strings_model(self.supertype_symbols@),
            word_token: string_option_model(self.word_token),
        }
    }
}

/// Whether `rule` contains a reference to the rule called `name`. A choice or
/// a sequence contains what its members contain; a repetition or a metadata
/// node contains what the rule inside it contains; the other rules contain no
/// reference but themselves.
pub open spec fn rule_mentions(rule: RuleModel, name: Seq<char>) -> bool
    decreases rule,
{
    match rule {
        RuleModel::NamedSymbol(n) => n == name,
        RuleModel::Choice(rs) => exists|i: int|
            0 <= i < rs.len() && rule_mentions(#[trigger] rs[i], name),
        RuleModel::Sequence(rs) => exists|i: int|
            0 <= i < rs.len() && rule_mentions(#[trigger] rs[i], name),
        RuleModel::Repeat(r) => rule_mentions(*r, name),
        RuleModel::Metadata { rule, .. } => rule_mentions(*rule, name),
        _ => false,
    }
}

/// Whether some rule of `vars` is called `name`.
pub open spec fn declares(vars: Seq<VariableModel>, name: Seq<char>) -> bool {
    exists|i: int| 0 <= i < vars.len() && (#[trigger] vars[i]).name == name
}

/// Whether `rule` contains a reference to one of the rules of `vars`.
pub open spec fn mentions_some(rule: RuleModel, vars: Seq<VariableModel>) -> bool {
    exists|i: int| 0 <= i < vars.len() && rule_mentions(rule, (#[trigger] vars[i]).name)
}

/// Whether the rule at index `i` contains a reference to the rule at index `j`.
pub open spec fn refers(vars: Seq<VariableModel>, i: int, j: int) -> bool {
    rule_mentions(vars[i].rule, vars[j].name)
}

/// Whether the rule at index `j` is reached from the start rule (the first
/// one, and any rule of the same name) by following at most `steps` references.
pub open spec fn reached_within(vars: Seq<VariableModel>, j: int, steps: nat) -> bool
    decreases steps,
{
    if !(0 <= j < vars.len()) {
        false
    } else if steps == 0 {
        vars[j].name == vars[0].name
    } else {
        reached_within(vars, j, (steps - 1) as nat) || exists|i: int|
            #![trigger refers(vars, i, j)]
            0 <= i < vars.len() && reached_within(vars, i, (steps - 1) as nat) && refers(
                vars,
                i,
                j,
            )
    }
}

/// Whether the rule at index `j` is reached from the start rule by following
/// references from rule to rule.
pub open spec fn reachable(vars: Seq<VariableModel>, j: int) -> bool {
    exists|steps: nat| reached_within(vars, j, steps)
}

/// Whether `name` is the name of a rule that the start rule does not reach.
pub open spec fn is_dead_name(vars: Seq<VariableModel>, name: Seq<char>) -> bool {
    exists|j: int| 0 <= j < vars.len() && !reachable(vars, j) && (#[trigger] vars[j]).name == name
}

/// Whether a top-level rule names a rule that the start rule does not reach:
/// a reference or a literal whose text is the name of such a rule.
pub open spec fn names_dead_rule(vars: Seq<VariableModel>, rule: RuleModel) -> bool {
    match rule {
        RuleModel::NamedSymbol(n) => is_dead_name(vars, n),
        RuleModel::String(n) => is_dead_name(vars, n),
        _ => false,
    }
}

/// Keeps the rules whose name is not that of an unreached rule.
pub open spec fn keeps_variable(vars: Seq<VariableModel>) -> spec_fn(VariableModel) -> bool {
    |v: VariableModel| !is_dead_name(vars, v.name)
}

/// Keeps the names that are not those of an unreached rule.
pub open spec fn keeps_name(vars: Seq<VariableModel>) -> spec_fn(Seq<char>) -> bool {
    |n: Seq<char>| !is_dead_name(vars, n)
}

/// Keeps the top-level rules that do not name an unreached rule.
pub open spec fn keeps_rule(vars: Seq<VariableModel>) -> spec_fn(RuleModel) -> bool {
    |r: RuleModel| !names_dead_rule(vars, r)
}

/// The grammar without the rules that the start rule does not reach, and
/// without the extras, external tokens, inlining requests and supertypes that
/// name such a rule. Order is kept.
pub open spec fn pruned(g: InputGrammarModel) -> InputGrammarModel {
    InputGrammarModel {
        variables: g.variables.filter(keeps_variable(g.variables)),
        extra_symbols: g.extra_symbols.filter(keeps_rule(g.variables)),
        external_tokens: g.external_tokens.filter(keeps_rule(g.variables)),
        variables_to_inline: g.variables_to_inline.filter(keeps_name(g.variables)),
        supertype_symbols: g.supertype_symbols.filter(keeps_name(g.variables)),
        ..g
    }
}

/// A rule a step further is still reached.
pub proof fn lemma_reached_monotone(vars: Seq<VariableModel>, j: int, a: nat, b: nat)
    requires
        reached_within(vars, j, a),
        a <= b,
    ensures
        reached_within(vars, j, b),
    decreases b,
{
    if a < b {
        lemma_reached_monotone(vars, j, a, (b - 1) as nat);
    }
}

/// Rules of one name are reached together.
pub proof fn lemma_reached_by_name(vars: Seq<VariableModel>, j: int, k: int, steps: nat)
    requires
        reached_within(vars, j, steps),
        0 <= k < vars.len(),
        vars[k].name == vars[j].name,
    ensures
        reached_within(vars, k, steps),
    decreases steps,
{
    if steps > 0 {
        if reached_within(vars, j, (steps - 1) as nat) {
            lemma_reached_by_name(vars, j, k, (steps - 1) as nat);
        } else {
            let i = choose|i: int|
                #![trigger refers(vars, i, j)]
                0 <= i < vars.len() && reached_within(vars, i, (steps - 1) as nat) && refers(
                    vars,
                    i,
                    j,
                );
            assert(refers(vars, i, k));
        }
    }
}

/// A rule that a reached rule refers to is reached.
pub proof fn lemma_reachable_step(vars: Seq<VariableModel>, i: int, j: int)
    requires
        reachable(vars, i),
        0 <= j < vars.len(),
        refers(vars, i, j),
    ensures
        reachable(vars, j),
{
    let steps = choose|steps: nat| reached_within(vars, i, steps);
    assert(refers(vars, i, j));
    assert(reached_within(vars, j, steps + 1));
}

/// A set of rules that holds the start rule and every rule that a member
/// refers to holds every reached rule.
pub proof fn lemma_closed_set_holds_reached(
    vars: Seq<VariableModel>,
    live: Seq<bool>,
    j: int,
    steps: nat,
)
    requires
        live.len() == vars.len(),
        forall|k: int| 0 <= k < vars.len() && vars[k].name == vars[0].name ==> live[k],
        forall|i: int, k: int|
            0 <= i < vars.len() && 0 <= k < vars.len() && live[i] && #[trigger] refers(vars, i, k)
                ==> live[k],
        reached_within(vars, j, steps),
    ensures
        live[j],
    decreases steps,
{
    if steps > 0 {
        if reached_within(vars, j, (steps - 1) as nat) {
            lemma_closed_set_holds_reached(vars, live, j, (steps - 1) as nat);
        } else {
            let i = choose|i: int|
                #![trigger refers(vars, i, j)]
                0 <= i < vars.len() && reached_within(vars, i, (steps - 1) as nat) && refers(
                    vars,
                    i,
                    j,
                );
            lemma_closed_set_holds_reached(vars, live, i, (steps - 1) as nat);
        }
    }
}

/// Whether `rules` contains, at any depth, a reference to the rule `name`.
pub fn rules_mention(rules: &Vec<Rule>, name: &String) -> (b: bool)
    ensures
        b == exists|i: int|
            0 <= i < rules@.len() && rule_mentions(#[trigger] crate::rules::rule_models(rules@)[i], name@),
    decreases *rules, 1nat,
{
    let mut i: usize = 0;
    while i < rules.len()
        invariant
            i <= rules.len(),
            forall|j: int|
                0 <= j < i ==> !rule_mentions(#[trigger] crate::rules::rule_models(rules@)[j], name@),
        decreases rules.len() - i,
    {
        if rule_refers_to(&rules[i], name) {
            assert(rule_mentions(crate::rules::rule_models(rules@)[i as int], name@));
            return true;
        }
        i += 1;
    }
    false
}

/// Whether `rule` contains, at any depth, a reference to the rule `name`.
pub fn rule_refers_to(rule: &Rule, name: &String) -> (b: bool)
    ensures
        b == rule_mentions(rule@, name@),
    decreases *rule, 0nat,
{
    match rule {
        Rule::NamedSymbol(n) => {
            let r = *n == *name;
            r
        },
        Rule::Choice(rs) => {
            let r = rules_mention(rs, name);
            assert(rule@->Choice_0 == crate::rules::rule_models(rs@));
            r
        },
        Rule::Sequence(rs) => {
            let r = rules_mention(rs, name);
            assert(rule@->Sequence_0 == crate::rules::rule_models(rs@));
            r
        },
        Rule::Repeat(inner) => rule_refers_to(&**inner, name),
        Rule::Metadata { rule: inner, .. } => rule_refers_to(&**inner, name),
        _ => false,
    }
}

/// Every rule that survives pruning is reached from the start rule of the
/// pruned grammar by following references from rule to rule.
pub proof fn pruned_rules_are_reachable(g: InputGrammarModel, j: int)
    requires
        0 <= j < pruned(g).variables.len(),
    ensures
        reachable(pruned(g).variables, j),
{
    let v = g.variables;
    let w = pruned(g).variables;
    crate::seq_util::lemma_filter_members(v, keeps_variable(v));
    assert(v.contains(w[j]));
    let a = choose|a: int| 0 <= a < v.len() && v[a] == w[j];
    assert(!is_dead_name(v, v[a].name));
    assert(reachable(v, a));
    let steps = choose|steps: nat| reached_within(v, a, steps);
    lemma_reached_survives(g, a, j, steps);
}

/// A rule reached in the grammar is reached in the pruned grammar.
proof fn lemma_reached_survives(g: InputGrammarModel, a: int, b: int, steps: nat)
    requires
        reached_within(g.variables, a, steps),
        0 <= b < pruned(g).variables.len(),
        pruned(g).variables[b] == g.variables[a],
    ensures
        reachable(pruned(g).variables, b),
    decreases steps,
{
    let v = g.variables;
    let w = pruned(g).variables;
    crate::seq_util::lemma_filter_members(v, keeps_variable(v));
    assert(reached_within(v, 0, 0));
    assert(reachable(v, 0));
    assert(!is_dead_name(v, v[0].name)) by {
        if is_dead_name(v, v[0].name) {
            let k = choose|k: int| 0 <= k < v.len() && !reachable(v, k) && (#[trigger] v[k]).name == v[0].name;
            lemma_reached_by_name(v, 0, k, 0);
        }
    }
    crate::seq_util::lemma_filter_keeps_first(v, keeps_variable(v));
    if steps == 0 {
        assert(reached_within(w, b, 0));
    } else if reached_within(v, a, (steps - 1) as nat) {
        lemma_reached_survives(g, a, b, (steps - 1) as nat);
    } else {
        let i = choose|i: int|
            #![trigger refers(v, i, a)]
            0 <= i < v.len() && reached_within(v, i, (steps - 1) as nat) && refers(v, i, a);
        assert(reachable(v, i));
        assert(!is_dead_name(v, v[i].name)) by {
            if is_dead_name(v, v[i].name) {
                let k = choose|k: int| 0 <= k < v.len() && !reachable(v, k) && (#[trigger] v[k]).name == v[i].name;
                lemma_reached_by_name(v, i, k, (steps - 1) as nat);
            }
        }
        assert(w.contains(v[i]));
        let c = choose|c: int| 0 <= c < w.len() && w[c] == v[i];
        lemma_reached_survives(g, i, c, (steps - 1) as nat);
        assert(refers(w, c, b));
        lemma_reachable_step(w, c, b);
    }
}

/// Which rules the start rule reaches: the flag at each index says whether
/// the rule at that index is reached.
fn live_rules(variables: &Vec<Variable>) -> (live: Vec<bool>)
    ensures
        live@.len() == variables@.len(),
        forall|j: int|
            0 <= j < variables@.len() ==> live@[j] == reachable(variables_model(variables@), j),
{
    let n = variables.len();
    let ghost vars = variables_model(variables@);
    let mut live: Vec<bool> = Vec::new();
    let mut stack: Vec<usize> = Vec::new();
    let ghost mut dead: Set<int> = vstd::set_lib::set_int_range(0, n as int);
    proof {
        vstd::set_lib::lemma_int_range(0, n as int);
    }
    let mut j: usize = 0;
    while j < n
        invariant
            j <= n,
            n == variables@.len(),
            vars == variables_model(variables@),
            live@.len() == j,
            forall|k: int| 0 <= k < j ==> live@[k] == (vars[k].name == vars[0].name),
            forall|s: int| 0 <= s < stack@.len() ==> stack@[s] < j && live@[stack@[s] as int],
            forall|k: int| 0 <= k < j && live@[k] ==> stack@.contains(k as usize),
            dead.finite(),
            forall|k: int| dead.contains(k) <==> 0 <= k < n && (k >= j || !live@[k]),
        decreases n - j,
    {
        let is_start = variables[j].name == variables[0].name;
        live.push(is_start);
        if is_start {
            let ghost before = stack@;
            stack.push(j);
            proof {
                dead = dead.remove(j as int);
                assert(stack@[before.len() as int] == j);
                assert forall|k: int| 0 <= k < j + 1 && live@[k] implies stack@.contains(
                    k as usize,
                ) by {
                    if k < j {
                        let s = choose|s: int| 0 <= s < before.len() && before[s] == k as usize;
                        assert(stack@[s] == k as usize);
                    }
                }
            }
        }
        j += 1;
    }
    proof {
        assert forall|k: int| 0 <= k < n && live@[k] implies reachable(vars, k) by {
            assert(reached_within(vars, k, 0));
        }
    }
    while stack.len() > 0
        invariant
            n == variables@.len(),
            vars == variables_model(variables@),
            live@.len() == n,
            forall|s: int| 0 <= s < stack@.len() ==> stack@[s] < n && live@[stack@[s] as int],
            forall|k: int| 0 <= k < n && live@[k] ==> reachable(vars, k),
            forall|k: int| 0 <= k < n && vars[k].name == vars[0].name ==> live@[k],
            forall|i: int, k: int|
                0 <= i < n && 0 <= k < n && live@[i] && #[trigger] refers(vars, i, k) && !live@[k]
                    ==> stack@.contains(i as usize),
            dead.finite(),
            forall|k: int| dead.contains(k) <==> 0 <= k < n && !live@[k],
        decreases dead.len(), stack@.len(),
    {
        let ghost dead_before = dead.len();
        let ghost stack_before = stack@;
        let i = stack.pop().unwrap();
        assert(stack@ == stack_before.drop_last());
        proof {
            assert forall|a: int, m: int|
                0 <= a < n && 0 <= m < n && live@[a] && #[trigger] refers(vars, a, m)
                    && !live@[m] implies stack@.contains(a as usize) || a == i by {
                let s = choose|s: int| 0 <= s < stack_before.len() && stack_before[s] == a as usize;
                if s < stack_before.len() - 1 {
                    assert(stack@[s] == a as usize);
                }
            }
        }
        let mut k: usize = 0;
        while k < n
            invariant
                k <= n,
                i < n,
                live@[i as int],
                n == variables@.len(),
                vars == variables_model(variables@),
                live@.len() == n,
                forall|s: int| 0 <= s < stack@.len() ==> stack@[s] < n && live@[stack@[s] as int],
                forall|m: int| 0 <= m < n && live@[m] ==> reachable(vars, m),
                forall|m: int| 0 <= m < n && vars[m].name == vars[0].name ==> live@[m],
                forall|a: int, m: int|
                    0 <= a < n && 0 <= m < n && live@[a] && #[trigger] refers(vars, a, m)
                        && !live@[m] ==> stack@.contains(a as usize) || a == i,
                forall|m: int| 0 <= m < k && refers(vars, i as int, m) ==> live@[m],
                dead.finite(),
                forall|m: int| dead.contains(m) <==> 0 <= m < n && !live@[m],
                dead.len() < dead_before || (dead.len() == dead_before && stack@.len() + 1
                    == stack_before.len()),
            decreases n - k,
        {
            if !live[k] && rule_refers_to(&variables[i].rule, &variables[k].name) {
                let ghost before = stack@;
                let ghost live_before = live@;
                live.set(k, true);
                stack.push(k);
                proof {
                    assert(dead.contains(k as int));
                    dead = dead.remove(k as int);
                    assert(refers(vars, i as int, k as int));
                    lemma_reachable_step(vars, i as int, k as int);
                    assert(stack@[before.len() as int] == k);
                    assert forall|a: int, m: int|
                        0 <= a < n && 0 <= m < n && live@[a] && #[trigger] refers(vars, a, m)
                            && !live@[m] implies stack@.contains(a as usize) || a == i by {
                        if a == k as int {
                        } else {
                            assert(live_before[a]);
                            assert(!live_before[m]);
                            if a != i {
                                let s = choose|s: int|
                                    0 <= s < before.len() && before[s] == a as usize;
                                assert(stack@[s] == a as usize);
                            }
                        }
                    }
                }
            }
            k += 1;
        }
        proof {
            assert forall|a: int, m: int|
                0 <= a < n && 0 <= m < n && live@[a] && #[trigger] refers(vars, a, m)
                    && !live@[m] implies stack@.contains(a as usize) by {
                if a == i as int {
                    assert(live@[m]);
                }
            }
        }
    }
    proof {
        assert forall|j: int| 0 <= j < n implies live@[j] == reachable(vars, j) by {
            if reachable(vars, j) {
                let steps = choose|steps: nat| reached_within(vars, j, steps);
                assert forall|i: int, k: int|
                    0 <= i < vars.len() && 0 <= k < vars.len() && live@[i] && #[trigger] refers(
                        vars,
                        i,
                        k,
                    ) implies live@[k] by {
                    if !live@[k] {
                        assert(stack@.contains(i as usize));
                    }
                }
                lemma_closed_set_holds_reached(vars, live@, j, steps);
            }
        }
    }
    live
}

/// Whether `name` is the name of a rule that the start rule does not reach.
fn names_dead_variable(variables: &Vec<Variable>, live: &Vec<bool>, name: &String) -> (b: bool)
    requires
        live@.len() == variables@.len(),
        forall|j: int|
            0 <= j < variables@.len() ==> live@[j] == reachable(variables_model(variables@), j),
    ensures
        b == is_dead_name(variables_model(variables@), name@),
{
    let ghost vars = variables_model(variables@);
    let mut j: usize = 0;
    while j < variables.len()
        invariant
            j <= variables@.len(),
            live@.len() == variables@.len(),
            vars == variables_model(variables@),
            forall|k: int| 0 <= k < variables@.len() ==> live@[k] == reachable(vars, k),
            forall|k: int| 0 <= k < j ==> !(!reachable(vars, k) && (#[trigger] vars[k]).name == name@),
        decreases variables@.len() - j,
    {
        if !live[j] && variables[j].name == *name {
            assert(!reachable(vars, j as int) && vars[j as int].name == name@);
            return true;
        }
        j += 1;
    }
    false
}

/// Whether a top-level rule names a rule that the start rule does not reach.
fn rule_names_dead_variable(variables: &Vec<Variable>, live: &Vec<bool>, rule: &Rule) -> (b: bool)
    requires
        live@.len() == variables@.len(),
        forall|j: int|
            0 <= j < variables@.len() ==> live@[j] == reachable(variables_model(variables@), j),
    ensures
        b == names_dead_rule(variables_model(variables@), rule@),
{
    match rule {
        Rule::NamedSymbol(name) => names_dead_variable(variables, live, name),
        Rule::String(name) => names_dead_variable(variables, live, name),
        _ => false,
    }
}

/// The rules of `rules` that do not name an unreached rule, in order.
fn retain_live_rules(variables: &Vec<Variable>, live: &Vec<bool>, rules: &Vec<Rule>) -> (out: Vec<
    Rule,
>)
    requires
        live@.len() == variables@.len(),
        forall|j: int|
            0 <= j < variables@.len() ==> live@[j] == reachable(variables_model(variables@), j),
    ensures
        crate::rules::rule_models(out@) == crate::rules::rule_models(rules@).filter(
            keeps_rule(variables_model(variables@)),
        ),
{
    let ghost vars = variables_model(variables@);
    let ghost src = crate::rules::rule_models(rules@);
    let mut out: Vec<Rule> = Vec::new();
    let mut i: usize = 0;
    proof {
        crate::seq_util::lemma_filter_take_none(src, keeps_rule(vars));
        assert(crate::rules::rule_models(out@) =~= Seq::<RuleModel>::empty());
    }
    while i < rules.len()
        invariant
            i <= rules@.len(),
            live@.len() == variables@.len(),
            vars == variables_model(variables@),
            src == crate::rules::rule_models(rules@),
            forall|k: int| 0 <= k < variables@.len() ==> live@[k] == reachable(vars, k),
            crate::rules::rule_models(out@) == src.take(i as int).filter(keeps_rule(vars)),
        decreases rules@.len() - i,
    {
        proof {
            crate::seq_util::lemma_filter_take_step(src, keeps_rule(vars), i as int);
        }
        if !rule_names_dead_variable(variables, live, &rules[i]) {
            let ghost before = out@;
            out.push(rules[i].clone());
            assert(crate::rules::rule_models(out@) =~= crate::rules::rule_models(before).push(
                src[i as int],
            ));
        }
        i += 1;
    }
    assert(src.take(rules@.len() as int) =~= src);
    out
}

/// The names of `names` that are not those of an unreached rule, in order.
fn retain_live_names(variables: &Vec<Variable>, live: &Vec<bool>, names: &Vec<String>) -> (out:
    Vec<String>)
    requires
        live@.len() == variables@.len(),
        forall|j: int|
            0 <= j < variables@.len() ==> live@[j] == reachable(variables_model(variables@), j),
    ensures
        strings_model(out@) == strings_model(names@).filter(
            keeps_name(variables_model(variables@)),
        ),
{
    let ghost vars = variables_model(variables@);
    let ghost src = strings_model(names@);
    let mut out: Vec<String> = Vec::new();
    let mut i: usize = 0;
    proof {
        crate::seq_util::lemma_filter_take_none(src, keeps_name(vars));
        assert(strings_model(out@) =~= Seq::<Seq<char>>::empty());
    }
    while i < names.len()
        invariant
            i <= names@.len(),
            live@.len() == variables@.len(),
            vars == variables_model(variables@),
            src == strings_model(names@),
            forall|k: int| 0 <= k < variables@.len() ==> live@[k] == reachable(vars, k),
            strings_model(out@) == src.take(i as int).filter(keeps_name(vars)),
        decreases names@.len() - i,
    {
        proof {
            crate::seq_util::lemma_filter_take_step(src, keeps_name(vars), i as int);
        }
        if !names_dead_variable(variables, live, &names[i]) {
            let ghost before = out@;
            out.push(names[i].clone());
            assert(strings_model(out@) =~= strings_model(before).push(src[i as int]));
        }
        i += 1;
    }
    assert(src.take(names@.len() as int) =~= src);
    out
}

/// The rules that the start rule reaches, in order.
fn retain_live_variables(variables: &Vec<Variable>, live: &Vec<bool>) -> (out: Vec<Variable>)
    requires
        live@.len() == variables@.len(),
        forall|j: int|
            0 <= j < variables@.len() ==> live@[j] == reachable(variables_model(variables@), j),
    ensures
        variables_model(out@) == variables_model(variables@).filter(
            keeps_variable(variables_model(variables@)),
        ),
{
    let ghost vars = variables_model(variables@);
    let mut out: Vec<Variable> = Vec::new();
    let mut i: usize = 0;
    proof {
        crate::seq_util::lemma_filter_take_none(vars, keeps_variable(vars));
        assert(variables_model(out@) =~= Seq::<VariableModel>::empty());
    }
    while i < variables.len()
        invariant
            i <= variables@.len(),
            live@.len() == variables@.len(),
            vars == variables_model(variables@),
            forall|k: int| 0 <= k < variables@.len() ==> live@[k] == reachable(vars, k),
            variables_model(out@) == vars.take(i as int).filter(keeps_variable(vars)),
        decreases variables@.len() - i,
    {
        proof {
            crate::seq_util::lemma_filter_take_step(vars, keeps_variable(vars), i as int);
            assert(live@[i as int] == reachable(vars, i as int));
            if live@[i as int] {
                if is_dead_name(vars, vars[i as int].name) {
                    let k = choose|k: int|
                        0 <= k < vars.len() && !reachable(vars, k) && (#[trigger] vars[k]).name
                            == vars[i as int].name;
                    let steps = choose|steps: nat| reached_within(vars, i as int, steps);
                    lemma_reached_by_name(vars, i as int, k, steps);
                }
            } else {
                assert(!reachable(vars, i as int) && vars[i as int].name == vars[i as int].name);
            }
        }
        if live[i] {
            let ghost before = out@;
            out.push(variables[i].clone());
            assert(variables_model(out@) =~= variables_model(before).push(vars[i as int]));
        }
        i += 1;
    }
    assert(vars.take(variables@.len() as int) =~= vars);
    out
}

impl InputGrammar {
    /// Whether `rule` contains a reference to one of the grammar's rules.
    pub fn rule_is_used(&self, rule: &Rule) -> (b: bool)
        ensures
            b == mentions_some(rule@, self@.variables),
    {
        let ghost vars = variables_model(self.variables@);
        let mut i: usize = 0;
        while i < self.variables.len()
            invariant
                i <= self.variables@.len(),
                vars == variables_model(self.variables@),
                forall|k: int| 0 <= k < i ==> !rule_mentions(rule@, (#[trigger] vars[k]).name),
            decreases self.variables@.len() - i,
        {
            if rule_refers_to(rule, &self.variables[i].name) {
                assert(rule_mentions(rule@, vars[i as int].name));
                return true;
            }
            i += 1;
        }
        false
    }

    /// Removes the rules that the start rule does not reach, and with them
    /// the extras, external tokens, inlining requests and supertypes that name
    /// a removed rule. What stays keeps its order.
    pub fn remove_unused_rules(&mut self)
        ensures
            final(self)@ == pruned(old(self)@),
    {
        let live = live_rules(&self.variables);
        let variables = retain_live_variables(&self.variables, &live);
        let extra_symbols = retain_live_rules(&self.variables, &live, &self.extra_symbols);
        let external_tokens = retain_live_rules(&self.variables, &live, &self.external_tokens);
        let variables_to_inline = retain_live_names(&self.variables, &live, &self.variables_to_inline);
        let supertype_symbols = retain_live_names(&self.variables, &live, &self.supertype_symbols);
        self.variables = variables;
        self.extra_symbols = extra_symbols;
        self.external_tokens = external_tokens;
        self.variables_to_inline = variables_to_inline;
        self.supertype_symbols = supertype_symbols;
    }
}

// Extracted lexical grammar

/// A token: its name, how it shows in the tree, its rank among tokens that
/// match the same text, and the state at which the automaton starts on it.
#[derive(Debug, PartialEq, Eq)]
pub struct LexicalVariable {
    pub name: String,
    pub kind: VariableType,
    pub implicit_precedence: i32,
    pub start_state: u32,
}

pub struct LexicalVariableModel {
    pub name: Seq<char>,
    pub kind: VariableType,
    pub implicit_precedence: int,
    pub start_state: int,
}

impl View for LexicalVariable {
    type V = LexicalVariableModel;

    open spec fn view(&self) -> LexicalVariableModel {
        LexicalVariableModel {
            name: self.name@,
            kind: self.kind,
            implicit_precedence: self.implicit_precedence as int,
            start_state: self.start_state as int,
        }
    }
}

/// The tokens of a grammar and the automaton that recognises them.
#[derive(Debug, PartialEq, Eq)]
pub struct LexicalGrammar {
    pub nfa: Nfa,
    pub variables: Vec<LexicalVariable>,
}

/// The start states of the tokens, in the order of the tokens.
pub open spec fn start_states(variables: Seq<LexicalVariable>) -> Seq<int> {
    Seq::new(variables.len(), |i: int| variables[i].start_state as int)
}

/// Whether some token starts at `state` or above.
pub open spec fn has_owner(starts: Seq<int>, state: int) -> bool {
    exists|i: int| 0 <= i < starts.len() && #[trigger] starts[i] >= state
}

/// The first token whose start state is `state` or above: the token that
/// owns `state` when start states grow with the token's index.
pub open spec fn owner_of(starts: Seq<int>, state: int) -> int
    decreases starts.len(),
{
    if starts.len() == 0 {
        0
    } else if starts[0] >= state {
        0
    } else {
        1 + owner_of(starts.drop_first(), state)
    }
}

/// `owner_of` is the least index whose start state is `state` or above.
pub proof fn lemma_owner_is_first(starts: Seq<int>, state: int)
    requires
        has_owner(starts, state),
    ensures
        0 <= owner_of(starts, state) < starts.len(),
        starts[owner_of(starts, state)] >= state,
        forall|k: int| 0 <= k < owner_of(starts, state) ==> #[trigger] starts[k] < state,
    decreases starts.len(),
{
    let i = choose|i: int| 0 <= i < starts.len() && #[trigger] starts[i] >= state;
    if starts[0] >= state {
    } else {
        let rest = starts.drop_first();
        assert(rest[i - 1] >= state);
        lemma_owner_is_first(rest, state);
        let o = owner_of(rest, state);
        assert(starts[o + 1] == rest[o]);
        assert forall|k: int| 0 <= k < 1 + o implies #[trigger] starts[k] < state by {
            if k > 0 {
                assert(rest[k - 1] < state);
            }
        }
    }
}

/// A list without the items that repeat the item just before them.
pub open spec fn without_repeats(items: Seq<int>) -> Seq<int>
    decreases items.len(),
{
    if items.len() == 0 {
        items
    } else if items.len() >= 2 && items[items.len() - 2] == items.last() {
        without_repeats(items.drop_last())
    } else {
        without_repeats(items.drop_last()).push(items.last())
    }
}

impl LexicalGrammar {
    /// Start states grow strictly with the token's index.
    pub open spec fn ordered(&self) -> bool {
        forall|i: int, j: int|
            0 <= i < j < self.variables@.len() ==> (#[trigger] self.variables@[i]).start_state < (
            #[trigger] self.variables@[j]).start_state
    }

    /// The index of the token that owns the automaton state `state_id`: the
    /// first token whose start state is `state_id` or above.
    pub fn variable_index_for_nfa_state(&self, state_id: u32) -> (index: usize)
        requires
            has_owner(start_states(self.variables@), state_id as int),
        ensures
            index as int == owner_of(start_states(self.variables@), state_id as int),
            index < self.variables@.len(),
            self.variables@[index as int].start_state >= state_id,
            forall|k: int| 0 <= k < index ==> (#[trigger] self.variables@[k]).start_state < state_id,
    {
        let ghost starts = start_states(self.variables@);
        proof {
            lemma_owner_is_first(starts, state_id as int);
        }
        let mut i: usize = 0;
        while i < self.variables.len()
            invariant
                i <= self.variables@.len(),
                starts == start_states(self.variables@),
                i <= owner_of(starts, state_id as int) < starts.len(),
                starts[owner_of(starts, state_id as int)] >= state_id,
                forall|k: int|
                    0 <= k < owner_of(starts, state_id as int) ==> #[trigger] starts[k] < state_id,
            decreases self.variables@.len() - i,
        {
            if self.variables[i].start_state >= state_id {
                assert(starts[i as int] >= state_id);
                assert forall|k: int| 0 <= k < i implies (#[trigger] self.variables@[k]).start_state
                    < state_id by {
                    assert(starts[k] < state_id);
                }
                return i;
            }
            assert(starts[i as int] < state_id);
            i += 1;
        }
        proof {
            assert(false);
        }
        0
    }

    /// The tokens that own the states of `state_ids`, in order, without the
    /// indices that repeat the index just before them.
    pub fn variable_indices_for_nfa_states(&self, state_ids: &Vec<u32>) -> (indices: Vec<usize>)
        requires
            forall|k: int|
                0 <= k < state_ids@.len() ==> has_owner(
                    start_states(self.variables@),
                    #[trigger] state_ids@[k] as int,
                ),
        ensures
            indices@.map_values(|i: usize| i as int) == without_repeats(
                state_ids@.map_values(
                    |s: u32| owner_of(start_states(self.variables@), s as int),
                ),
            ),
    {
        let ghost starts = start_states(self.variables@);
        let ghost owners = state_ids@.map_values(|s: u32| owner_of(starts, s as int));
        let mut indices: Vec<usize> = Vec::new();
        let mut prev: Option<usize> = None;
        let mut k: usize = 0;
        assert(indices@.map_values(|i: usize| i as int) =~= without_repeats(owners.take(0)));
        while k < state_ids.len()
            invariant
                k <= state_ids@.len(),
                starts == start_states(self.variables@),
                owners == state_ids@.map_values(|s: u32| owner_of(starts, s as int)),
                forall|m: int| 0 <= m < state_ids@.len() ==> has_owner(starts, #[trigger] state_ids@[m] as int),
                indices@.map_values(|i: usize| i as int) == without_repeats(owners.take(k as int)),
                k == 0 ==> prev is None,
                k > 0 ==> prev == Some(owners[k - 1] as usize) && 0 <= owners[k - 1] <= usize::MAX,
            decreases state_ids@.len() - k,
        {
            let variable_id = self.variable_index_for_nfa_state(state_ids[k]);
            assert(owners[k as int] == variable_id as int);
            let ghost before = indices@;
            proof {
                let t = owners.take(k + 1);
                assert(t.drop_last() =~= owners.take(k as int));
                assert(t.last() == owners[k as int]);
                if k > 0 {
                    assert(t[t.len() - 2] == owners[k - 1]);
                }
            }
            let repeated = match prev {
                Some(p) => p == variable_id,
                None => false,
            };
            if !repeated {
                indices.push(variable_id);
                assert(indices@.map_values(|i: usize| i as int) =~= before.map_values(
                    |i: usize| i as int,
                ).push(variable_id as int));
            }
            prev = Some(variable_id);
            k += 1;
        }
        assert(owners.take(state_ids@.len() as int) =~= owners);
        indices
    }
}

// Extracted syntax grammar

/// One position of a production: the symbol expected there, and what the
/// grammar says of it.
#[derive(Debug, PartialEq, Eq, Hash)]
pub struct ProductionStep {
    pub symbol: Symbol,
    pub precedence: Precedence,
    pub associativity: Option<Associativity>,
    pub alias: Option<Alias>,
    pub field_name: Option<String>,
}

pub struct ProductionStepModel {
    pub symbol: Symbol,
    pub precedence: PrecedenceModel,
    pub associativity: Option<Associativity>,
    pub alias: Option<AliasModel>,
    pub field_name: Option<Seq<char>>,
}

impl View for ProductionStep {
    type V = ProductionStepModel;

    open spec fn view(&self) -> ProductionStepModel {
        ProductionStepModel {
            symbol: self.symbol,
            precedence: self.precedence@,
            associativity: self.associativity,
            alias: alias_option_model(self.alias),
            field_name: string_option_model(self.field_name),
        }
    }
}

impl Clone for ProductionStep {
    fn clone(&self) -> (r: ProductionStep)
        ensures
            r@ == self@,
    {
        ProductionStep {
            symbol: self.symbol,
            precedence: self.precedence.clone(),
            associativity: self.associativity,
            alias: clone_alias_option(&self.alias),
            field_name: clone_string_option(&self.field_name),
        }
    }
}

impl ProductionStep {
    /// A step for `symbol` with nothing said of it.
    pub fn new(symbol: Symbol) -> (step: ProductionStep)
        ensures
            step@ == (ProductionStepModel {
                symbol,
                precedence: PrecedenceModel::Absent,
                associativity: None,
                alias: None,
                field_name: None,
            }),
    {
        ProductionStep {
            symbol,
            precedence: Precedence::Absent,
            associativity: None,
            alias: None,
            field_name: None,
        }
    }

    /// The step with its precedence and associativity replaced.
    pub fn with_prec(self, precedence: Precedence, associativity: Option<Associativity>) -> (step:
        ProductionStep)
        ensures
            step@ == (ProductionStepModel { precedence: precedence@, associativity, ..self@ }),
    {
        ProductionStep {
            symbol: self.symbol,
            precedence,
            associativity,
            alias: self.alias,
            field_name: self.field_name,
        }
    }

    /// The step shown under the name `value`.
    pub fn with_alias(self, value: &str, is_named: bool) -> (step: ProductionStep)
        ensures
            step@ == (ProductionStepModel {
                alias: Some(AliasModel { value: value@, is_named }),
                ..self@
            }),
    {
        ProductionStep {
            symbol: self.symbol,
            precedence: self.precedence,
            associativity: self.associativity,
            alias: Some(Alias { value: value.to_owned(), is_named }),
            field_name: self.field_name,
        }
    }

    /// The step as the field `name` of its parent.
    pub fn with_field_name(self, name: &str) -> (step: ProductionStep)
        ensures
            step@ == (ProductionStepModel { field_name: Some(name@), ..self@ }),
    {
        ProductionStep {
            symbol: self.symbol,
            precedence: self.precedence,
            associativity: self.associativity,
            alias: self.alias,
            field_name: Some(name.to_owned()),
        }
    }

    /// Whether two steps denote the same step.
    pub fn same(&self, other: &ProductionStep) -> (b: bool)
        ensures
            b == (self@ == other@),
    {
        self.symbol == other.symbol && self.precedence.same(&other.precedence)
            && self.associativity == other.associativity && crate::rules::same_alias_option(
            &self.alias,
            &other.alias,
        ) && crate::rules::same_string_option(&self.field_name, &other.field_name)
    }
}

pub open spec fn steps_model(steps: Seq<ProductionStep>) -> Seq<ProductionStepModel> {
    Seq::new(steps.len(), |i: int| steps[i]@)
}

/// One alternative of a rule: the steps in the order in which they are
/// parsed, and the weight that settles ties between alternatives.
#[derive(Debug, PartialEq, Eq)]
pub struct Production {
    pub steps: Vec<ProductionStep>,
    pub dynamic_precedence: i32,
}

pub struct ProductionModel {
    pub steps: Seq<ProductionStepModel>,
    pub dynamic_precedence: int,
}

impl View for Production {
    type V = ProductionModel;

    open spec fn view(&self) -> ProductionModel {
        ProductionModel {
            steps: steps_model(self.steps@),
            dynamic_precedence: self.dynamic_precedence as int,
        }
    }
}

/// Copies a list of steps.
pub fn clone_steps(steps: &Vec<ProductionStep>) -> (out: Vec<ProductionStep>)
    ensures
        steps_model(out@) == steps_model(steps@),
{
    let mut out: Vec<ProductionStep> = Vec::new();
    let mut i: usize = 0;
    while i < steps.len()
        invariant
            i <= steps@.len(),
            out@.len() == i,
            forall|j: int| 0 <= j < i ==> (#[trigger] out@[j])@ == steps@[j]@,
        decreases steps@.len() - i,
    {
        out.push(steps[i].clone());
        i += 1;
    }
    assert(steps_model(out@) =~= steps_model(steps@));
    out
}

impl Clone for Production {
    fn clone(&self) -> (r: Production)
        ensures
            r@ == self@,
    {
        Production { steps: clone_steps(&self.steps), dynamic_precedence: self.dynamic_precedence }
    }
}

impl Production {
    /// The production without steps.
    pub fn empty() -> (p: Production)
        ensures
            p@ == (ProductionModel { steps: Seq::empty(), dynamic_precedence: 0 }),
    {
        let p = Production { steps: Vec::new(), dynamic_precedence: 0 };
        assert(p@.steps =~= Seq::empty());
        p
    }

    /// The symbol of the first step, if there is a step.
    pub fn first_symbol(&self) -> (s: Option<Symbol>)
        ensures
            s == if self@.steps.len() > 0 {
                Some(self@.steps[0].symbol)
            } else {
                None
            },
    {
        if self.steps.len() > 0 {
            Some(self.steps[0].symbol)
        } else {
            None
        }
    }

    /// Whether two productions denote the same production.
    pub fn same(&self, other: &Production) -> (b: bool)
        ensures
            b == (self@ == other@),
    {
        if self.dynamic_precedence != other.dynamic_precedence {
            return false;
        }
        if self.steps.len() != other.steps.len() {
            assert(self@.steps.len() != other@.steps.len());
            return false;
        }
        let mut i: usize = 0;
        while i < self.steps.len()
            invariant
                i <= self.steps@.len(),
                self.steps@.len() == other.steps@.len(),
                forall|j: int| 0 <= j < i ==> (#[trigger] self.steps@[j])@ == other.steps@[j]@,
            decreases self.steps@.len() - i,
        {
            if !self.steps[i].same(&other.steps[i]) {
                assert(self@.steps[i as int] != other@.steps[i as int]);
                return false;
            }
            i += 1;
        }
        assert(self@.steps =~= other@.steps);
        true
    }
}

pub open spec fn productions_model(productions: Seq<Production>) -> Seq<ProductionModel> {
    Seq::new(productions.len(), |i: int| productions[i]@)
}

/// Copies a list of productions.
pub fn clone_productions(productions: &Vec<Production>) -> (out: Vec<Production>)
    ensures
        productions_model(out@) == productions_model(productions@),
{
    let mut out: Vec<Production> = Vec::new();
    let mut i: usize = 0;
    while i < productions.len()
        invariant
            i <= productions@.len(),
            out@.len() == i,
            forall|j: int| 0 <= j < i ==> (#[trigger] out@[j])@ == productions@[j]@,
        decreases productions@.len() - i,
    {
        out.push(productions[i].clone());
        i += 1;
    }
    assert(productions_model(out@) =~= productions_model(productions@));
    out
}

/// Names a production: one of a rule of the grammar (`variable` is the rule's
/// index), or one made by inlining (`variable` is absent); `production` is its
/// index in the rule's list, or in the list of the productions made.
#[derive(Clone, Copy, Debug, PartialEq, Eq, Structural, Hash)]
pub struct ProductionId {
    pub variable: Option<usize>,
    pub production: usize,
}

/// What takes the place of one step of one production: the productions, by
/// their index among the productions made by inlining, that result from
/// replacing that step by each alternative of the inlined rule.
#[derive(Debug, PartialEq, Eq)]
pub struct InlinedStep {
    pub production: ProductionId,
    pub step_index: usize,
    pub replacements: Vec<usize>,
}

/// The productions made by inlining, and for each inlined step the
/// productions that replace the production it stands in.
#[derive(Debug, PartialEq, Eq)]
pub struct InlinedProductionMap {
    pub productions: Vec<Production>,
    pub production_map: Vec<InlinedStep>,
}

pub struct InlinedStepModel {
    pub production: ProductionId,
    pub step_index: int,
    pub replacements: Seq<usize>,
}

impl View for InlinedStep {
    type V = InlinedStepModel;

    open spec fn view(&self) -> InlinedStepModel {
        InlinedStepModel {
            production: self.production,
            step_index: self.step_index as int,
            replacements: self.replacements@,
        }
    }
}

pub open spec fn inlined_steps_model(entries: Seq<InlinedStep>) -> Seq<InlinedStepModel> {
    Seq::new(entries.len(), |i: int| entries[i]@)
}

pub struct InlinedProductionMapModel {
    pub productions: Seq<ProductionModel>,
    pub production_map: Seq<InlinedStepModel>,
}

impl View for InlinedProductionMap {
    type V = InlinedProductionMapModel;

    open spec fn view(&self) -> InlinedProductionMapModel {
        InlinedProductionMapModel {
            productions: productions_model(self.productions@),
            production_map: inlined_steps_model(self.production_map@),
        }
    }
}

/// The index in `entries` of the first entry for the given step, if any.
pub open spec fn entry_for(entries: Seq<InlinedStep>, production: ProductionId, step_index: u32)
    -> Option<int>
    decreases entries.len(),
{
    if entries.len() == 0 {
        None
    } else if entries[0].production == production && entries[0].step_index == step_index as usize {
        Some(0)
    } else {
        match entry_for(entries.drop_first(), production, step_index) {
            Some(i) => Some(i + 1),
            None => None,
        }
    }
}

/// `entry_for` finds an entry exactly when there is one, and then the first.
pub proof fn lemma_entry_for(entries: Seq<InlinedStep>, production: ProductionId, step_index: u32)
    ensures
        match entry_for(entries, production, step_index) {
            Some(i) => 0 <= i < entries.len() && entries[i].production == production
                && entries[i].step_index == step_index as usize && forall|k: int|
                0 <= k < i ==> !((#[trigger] entries[k]).production == production
                    && entries[k].step_index == step_index as usize),
            None => forall|k: int|
                0 <= k < entries.len() ==> !((#[trigger] entries[k]).production == production
                    && entries[k].step_index == step_index as usize),
        },
    decreases entries.len(),
{
    if entries.len() > 0 && !(entries[0].production == production && entries[0].step_index
        == step_index as usize) {
        let rest = entries.drop_first();
        lemma_entry_for(rest, production, step_index);
        match entry_for(rest, production, step_index) {
            Some(i) => {
                assert(entries[i + 1] == rest[i]);
                assert forall|k: int| 0 <= k < i + 1 implies !((#[trigger] entries[k]).production
                    == production && entries[k].step_index == step_index as usize) by {
                    if k > 0 {
                        assert(entries[k] == rest[k - 1]);
                    }
                }
            },
            None => {
                assert forall|k: int| 0 <= k < entries.len() implies !((
                #[trigger] entries[k]).production == production && entries[k].step_index
                    == step_index as usize) by {
                    if k > 0 {
                        assert(entries[k] == rest[k - 1]);
                    }
                }
            },
        }
    }
}

impl InlinedProductionMap {
    /// The map without entries.
    pub fn new() -> (map: InlinedProductionMap)
        ensures
            map.productions@.len() == 0,
            map.production_map@.len() == 0,
            map.well_formed(),
    {
        InlinedProductionMap { productions: Vec::new(), production_map: Vec::new() }
    }

    /// Every replacement named in an entry is one of the productions made.
    pub open spec fn well_formed(&self) -> bool {
        forall|e: int, r: int|
            0 <= e < self.production_map@.len() && 0 <= r
                < self.production_map@[e].replacements@.len() ==> (
            #[trigger] self.production_map@[e].replacements@[r]) < self.productions@.len()
    }

    /// The productions that replace `production` where its step `step_index`
    /// is inlined, in order; nothing where that step is not inlined.
    pub fn inlined_productions<'a>(&'a self, production: ProductionId, step_index: u32) -> (found:
        Option<Vec<&'a Production>>)
        requires
            self.well_formed(),
        ensures
            match entry_for(self.production_map@, production, step_index) {
                Some(e) => found matches Some(list) && list@.len()
                    == self.production_map@[e].replacements@.len() && forall|r: int|
                    0 <= r < list@.len() ==> *(#[trigger] list@[r])
                        == self.productions@[self.production_map@[e].replacements@[r] as int],
                None => found is None,
            },
    {
        let mut e: usize = 0;
        while e < self.production_map.len()
            invariant
                e <= self.production_map@.len(),
                self.well_formed(),
                forall|k: int|
                    0 <= k < e ==> !((#[trigger] self.production_map@[k]).production == production
                        && self.production_map@[k].step_index == step_index as usize),
            decreases self.production_map@.len() - e,
        {
            let entry = &self.production_map[e];
            if entry.production == production && entry.step_index == step_index as usize {
                let mut list: Vec<&'a Production> = Vec::new();
                let mut r: usize = 0;
                while r < entry.replacements.len()
                    invariant
                        r <= entry.replacements@.len(),
                        e < self.production_map@.len(),
                        entry == &self.production_map@[e as int],
                        self.well_formed(),
                        list@.len() == r,
                        forall|k: int|
                            0 <= k < r ==> *(#[trigger] list@[k])
                                == self.productions@[entry.replacements@[k] as int],
                    decreases entry.replacements@.len() - r,
                {
                    let index = entry.replacements[r];
                    assert(self.production_map@[e as int].replacements@[r as int]
                        < self.productions@.len());
                    list.push(&self.productions[index]);
                    r += 1;
                }
                proof {
                    lemma_entry_for(self.production_map@, production, step_index);
                    assert(self.production_map@[e as int].production == production);
                }
                return Some(list);
            }
            e += 1;
        }
        proof {
            lemma_entry_for(self.production_map@, production, step_index);
        }
        None
    }
}

/// A rule of the parser's grammar: a name and its alternatives.
#[derive(Debug, PartialEq, Eq)]
pub struct SyntaxVariable {
    pub name: String,
    pub kind: VariableType,
    pub productions: Vec<Production>,
}

pub struct SyntaxVariableModel {
    pub name: Seq<char>,
    pub kind: VariableType,
    pub productions: Seq<ProductionModel>,
}

impl View for SyntaxVariable {
    type V = SyntaxVariableModel;

    open spec fn view(&self) -> SyntaxVariableModel {
        SyntaxVariableModel {
            name: self.name@,
            kind: self.kind,
            productions: productions_model(self.productions@),
        }
    }
}

impl SyntaxVariable {
    pub fn is_auxiliary(&self) -> (b: bool)
        ensures
            b == (self.kind == VariableType::Auxiliary),
    {
        self.kind == VariableType::Auxiliary
    }

    pub fn is_hidden(&self) -> (b: bool)
        ensures
            b == (self.kind == VariableType::Hidden || self.kind == VariableType::Auxiliary),
    {
        self.kind == VariableType::Hidden || self.kind == VariableType::Auxiliary
    }
}

pub open spec fn syntax_variables_model(variables: Seq<SyntaxVariable>) -> Seq<
    SyntaxVariableModel,
> {
    Seq::new(variables.len(), |i: int| variables[i]@)
}

/// A token that the caller's own scanner recognises.
#[derive(Debug, PartialEq, Eq)]
pub struct ExternalToken {
    pub name: String,
    pub kind: VariableType,
    pub corresponding_internal_token: Option<Symbol>,
}

pub struct ExternalTokenModel {
    pub name: Seq<char>,
    pub kind: VariableType,
    pub corresponding_internal_token: Option<Symbol>,
}

impl View for ExternalToken {
    type V = ExternalTokenModel;

    open spec fn view(&self) -> ExternalTokenModel {
        ExternalTokenModel {
            name: self.name@,
            kind: self.kind,
            corresponding_internal_token: self.corresponding_internal_token,
        }
    }
}

pub open spec fn external_tokens_model(tokens: Seq<ExternalToken>) -> Seq<ExternalTokenModel> {
    Seq::new(tokens.len(), |i: int| tokens[i]@)
}

pub open spec fn symbol_groups_model(groups: Seq<Vec<Symbol>>) -> Seq<Seq<Symbol>> {
    Seq::new(groups.len(), |i: int| groups[i]@)
}

/// The parser's grammar: every rule is a list of flat productions over
/// resolved symbols.
#[derive(Debug, PartialEq, Eq)]
pub struct SyntaxGrammar {
    pub variables: Vec<SyntaxVariable>,
    pub extra_symbols: Vec<Symbol>,
    pub expected_conflicts: Vec<Vec<Symbol>>,
    pub external_tokens: Vec<ExternalToken>,
    pub supertype_symbols: Vec<Symbol>,
    pub variables_to_inline: Vec<Symbol>,
    pub word_token: Option<Symbol>,
    pub precedence_orderings: Vec<Vec<PrecedenceEntry>>,
}

pub struct SyntaxGrammarModel {
    pub variables: Seq<SyntaxVariableModel>,
    pub extra_symbols: Seq<Symbol>,
    pub expected_conflicts: Seq<Seq<Symbol>>,
    pub external_tokens: Seq<ExternalTokenModel>,
    pub supertype_symbols: Seq<Symbol>,
    pub variables_to_inline: Seq<Symbol>,
    pub word_token: Option<Symbol>,
    pub precedence_orderings: Seq<Seq<PrecedenceEntryModel>>,
}

impl View for SyntaxGrammar {
    type V = SyntaxGrammarModel;

    open spec fn view(&self) -> SyntaxGrammarModel {
        SyntaxGrammarModel {
            variables: syntax_variables_model(self.variables@),
            extra_symbols: self.extra_symbols@,
            expected_conflicts: symbol_groups_model(self.expected_conflicts@),
            external_tokens: external_tokens_model(self.external_tokens@),
            supertype_symbols: self.supertype_symbols@,
            variables_to_inline: self.variables_to_inline@,
            word_token: self.word_token,
            precedence_orderings: orderings_model(self.precedence_orderings@),
        }
    }
}

} // verus!
