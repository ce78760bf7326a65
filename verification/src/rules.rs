//! Grammar expressions: the recursive `Rule` tree, resolved `Symbol`s, and the
//! annotations (precedence, associativity, alias, field name) a rule can carry.
//!
//! Every executable type has a mathematical model (strings become `Seq<char>`,
//! vectors become `Seq`), reached through `@`. Contracts speak of the models.
use vstd::prelude::*;

verus! {

/// The role a resolved symbol plays in the grammar.
#[derive(Clone, Copy, Debug, PartialEq, Eq, Structural, Hash)]
pub enum SymbolType {
    External,
    End,
    Terminal,
    NonTerminal,
}

/// A resolved reference to a grammar symbol: a kind and an index.
#[derive(Clone, Copy, Debug, PartialEq, Eq, Structural, Hash)]
pub struct Symbol {
    pub kind: SymbolType,
    pub index: usize,
}

/// Position of a symbol kind in the order of symbols.
pub open spec fn kind_rank(kind: SymbolType) -> int {
    match kind {
        SymbolType::External => 0,
        SymbolType::End => 1,
        SymbolType::Terminal => 2,
        SymbolType::NonTerminal => 3,
    }
}

/// Strict order of symbols: by kind first, then by index.
pub open spec fn symbol_lt(a: Symbol, b: Symbol) -> bool {
    kind_rank(a.kind) < kind_rank(b.kind) || (a.kind == b.kind && a.index < b.index)
}

impl SymbolType {
    pub fn rank(self) -> (r: u8)
        ensures
            r as int == kind_rank(self),
    {
        match self {
            SymbolType::External => 0,
            SymbolType::End => 1,
            SymbolType::Terminal => 2,
            SymbolType::NonTerminal => 3,
        }
    }
}

impl Symbol {
    pub fn terminal(index: usize) -> (s: Symbol)
        ensures
            s == (Symbol { kind: SymbolType::Terminal, index }),
    {
        Symbol { kind: SymbolType::Terminal, index }
    }

    pub fn non_terminal(index: usize) -> (s: Symbol)
        ensures
            s == (Symbol { kind: SymbolType::NonTerminal, index }),
    {
        Symbol { kind: SymbolType::NonTerminal, index }
    }

    pub fn external(index: usize) -> (s: Symbol)
        ensures
            s == (Symbol { kind: SymbolType::External, index }),
    {
        Symbol { kind: SymbolType::External, index }
    }

    pub fn end() -> (s: Symbol)
        ensures
            s == (Symbol { kind: SymbolType::End, index: 0 }),
    {
        Symbol { kind: SymbolType::End, index: 0 }
    }

    pub fn is_terminal(&self) -> (b: bool)
        ensures
            b == (self.kind == SymbolType::Terminal),
    {
        self.kind == SymbolType::Terminal
    }

    pub fn is_non_terminal(&self) -> (b: bool)
        ensures
            b == (self.kind == SymbolType::NonTerminal),
    {
        self.kind == SymbolType::NonTerminal
    }

    pub fn is_external(&self) -> (b: bool)
        ensures
            b == (self.kind == SymbolType::External),
    {
        self.kind == SymbolType::External
    }

    pub fn is_eof(&self) -> (b: bool)
        ensures
            b == (self.kind == SymbolType::End),
    {
        self.kind == SymbolType::End
    }

    /// Whether `self` comes strictly before `other` in the order of symbols.
    pub fn precedes(&self, other: &Symbol) -> (b: bool)
        ensures
            b == symbol_lt(*self, *other),
    {
        let a = self.kind.rank();
        let c = other.kind.rank();
        a < c || (a == c && self.index < other.index)
    }
}

/// The order of symbols is a strict total order.
pub proof fn symbol_order_is_strict_total(a: Symbol, b: Symbol, c: Symbol)
    ensures
        !symbol_lt(a, a),
        symbol_lt(a, b) && symbol_lt(b, c) ==> symbol_lt(a, c),
        symbol_lt(a, b) || symbol_lt(b, a) || a == b,
        !(symbol_lt(a, b) && symbol_lt(b, a)),
{
}

#[derive(Clone, Copy, Debug, PartialEq, Eq, Structural, Hash)]
pub enum Associativity {
    Left,
    Right,
}

/// Static precedence of a rule: absent, a number, or a name whose rank is
/// given by the grammar's precedence orderings.
#[derive(Debug, PartialEq, Eq, Hash)]
pub enum Precedence {
    Absent,
    Integer(i32),
    Name(String),
}

pub enum PrecedenceModel {
    Absent,
    Integer(int),
    Name(Seq<char>),
}

impl View for Precedence {
    type V = PrecedenceModel;

    open spec fn view(&self) -> PrecedenceModel {
        match self {
            Precedence::Absent => PrecedenceModel::Absent,
            Precedence::Integer(i) => PrecedenceModel::Integer(*i as int),
            Precedence::Name(n) => PrecedenceModel::Name(n@),
        }
    }
}

impl Clone for Precedence {
    fn clone(&self) -> (r: Precedence)
        ensures
            r@ == self@,
    {
        match self {
            Precedence::Absent => Precedence::Absent,
            Precedence::Integer(i) => Precedence::Integer(*i),
            Precedence::Name(n) => Precedence::Name(n.clone()),
        }
    }
}

impl Precedence {
    pub fn is_absent(&self) -> (b: bool)
        ensures
            b == (self@ is Absent),
    {
        match self {
            Precedence::Absent => true,
            _ => false,
        }
    }

    /// Whether two precedences denote the same value.
    pub fn same(&self, other: &Precedence) -> (b: bool)
        ensures
            b == (self@ == other@),
    {
        match (self, other) {
            (Precedence::Absent, Precedence::Absent) => true,
            (Precedence::Integer(a), Precedence::Integer(b)) => *a == *b,
            (Precedence::Name(a), Precedence::Name(b)) => {
                let r = *a == *b;
                r
            },
            _ => false,
        }
    }
}

/// A display name that replaces a symbol's own name in the produced tree.
#[derive(Debug, PartialEq, Eq, Hash)]
pub struct Alias {
    pub value: String,
    pub is_named: bool,
}

pub struct AliasModel {
    pub value: Seq<char>,
    pub is_named: bool,
}

impl View for Alias {
    type V = AliasModel;

    open spec fn view(&self) -> AliasModel {
        AliasModel { value: self.value@, is_named: self.is_named }
    }
}

impl Clone for Alias {
    fn clone(&self) -> (r: Alias)
        ensures
            r@ == self@,
    {
        Alias { value: self.value.clone(), is_named: self.is_named }
    }
}

impl Alias {
    pub fn same(&self, other: &Alias) -> (b: bool)
        ensures
            b == (self@ == other@),
    {
        let r = self.value == other.value;
        r && self.is_named == other.is_named
    }
}

pub open spec fn alias_option_model(a: Option<Alias>) -> Option<AliasModel> {
    match a {
        Some(a) => Some(a@),
        None => None,
    }
}

pub open spec fn string_option_model(s: Option<String>) -> Option<Seq<char>> {
    match s {
        Some(s) => Some(s@),
        None => None,
    }
}

pub fn clone_alias_option(a: &Option<Alias>) -> (r: Option<Alias>)
    ensures
        alias_option_model(r) == alias_option_model(*a),
{
    match a {
        Some(a) => Some(a.clone()),
        None => None,
    }
}

pub fn clone_string_option(s: &Option<String>) -> (r: Option<String>)
    ensures
        string_option_model(r) == string_option_model(*s),
{
    match s {
        Some(s) => Some(s.clone()),
        None => None,
    }
}

pub fn same_alias_option(a: &Option<Alias>, b: &Option<Alias>) -> (r: bool)
    ensures
        r == (alias_option_model(*a) == alias_option_model(*b)),
{
    match (a, b) {
        (Some(x), Some(y)) => x.same(y),
        (None, None) => true,
        _ => false,
    }
}

pub fn same_string_option(a: &Option<String>, b: &Option<String>) -> (r: bool)
    ensures
        r == (string_option_model(*a) == string_option_model(*b)),
{
    match (a, b) {
        (Some(x), Some(y)) => {
            let r = *x == *y;
            r
        },
        (None, None) => true,
        _ => false,
    }
}

/// The annotations that a `Rule::Metadata` node attaches to the rule it wraps.
#[derive(Debug, PartialEq, Eq, Hash)]
pub struct MetadataParams {
    pub precedence: Precedence,
    pub dynamic_precedence: i32,
    pub associativity: Option<Associativity>,
    pub is_token: bool,
    pub is_string: bool,
    pub alias: Option<Alias>,
    pub field_name: Option<String>,
}

pub struct MetadataModel {
    pub precedence: PrecedenceModel,
    pub dynamic_precedence: int,
    pub associativity: Option<Associativity>,
    pub is_token: bool,
    pub is_string: bool,
    pub alias: Option<AliasModel>,
    pub field_name: Option<Seq<char>>,
}

/// The annotations of a metadata node that adds nothing.
pub open spec fn plain_metadata() -> MetadataModel {
    MetadataModel {
        precedence: PrecedenceModel::Absent,
        dynamic_precedence: 0,
        associativity: None,
        is_token: false,
        is_string: false,
        alias: None,
        field_name: None,
    }
}

impl View for MetadataParams {
    type V = MetadataModel;

    open spec fn view(&self) -> MetadataModel {
        MetadataModel {
            precedence: self.precedence@,
            dynamic_precedence: self.dynamic_precedence as int,
            associativity: self.associativity,
            is_token: self.is_token,
            is_string: self.is_string,
            alias: alias_option_model(self.alias),
            field_name: string_option_model(self.field_name),
        }
    }
}

impl Clone for MetadataParams {
    fn clone(&self) -> (r: MetadataParams)
        ensures
            r@ == self@,
    {
        MetadataParams {
            precedence: self.precedence.clone(),
            dynamic_precedence: self.dynamic_precedence,
            associativity: self.associativity,
            is_token: self.is_token,
            is_string: self.is_string,
            alias: clone_alias_option(&self.alias),
            field_name: clone_string_option(&self.field_name),
        }
    }
}

impl MetadataParams {
    /// Annotations that add nothing.
    pub fn plain() -> (r: MetadataParams)
        ensures
            r@ == plain_metadata(),
    {
        MetadataParams {
            precedence: Precedence::Absent,
            dynamic_precedence: 0,
            associativity: None,
            is_token: false,
            is_string: false,
            alias: None,
            field_name: None,
        }
    }

    pub fn same(&self, other: &MetadataParams) -> (b: bool)
        ensures
            b == (self@ == other@),
    {
        self.precedence.same(&other.precedence)
            && self.dynamic_precedence == other.dynamic_precedence
            && self.associativity == other.associativity
            && self.is_token == other.is_token
            && self.is_string == other.is_string
            && same_alias_option(&self.alias, &other.alias)
            && same_string_option(&self.field_name, &other.field_name)
    }
}

/// A grammar expression. `NamedSymbol` refers to a rule by name and occurs
/// only before names are resolved; `Symbol` is a resolved reference. A rule is
/// a tree: every node owns its children.
#[derive(Debug, PartialEq, Eq, Hash)]
pub enum Rule {
    Blank,
    String(String),
    Pattern(String, String),
    NamedSymbol(String),
    Symbol(Symbol),
    Choice(Vec<Rule>),
    Sequence(Vec<Rule>),
    Repeat(Box<Rule>),
    Metadata { params: MetadataParams, rule: Box<Rule> },
}

pub enum RuleModel {
    Blank,
    String(Seq<char>),
    Pattern(Seq<char>, Seq<char>),
    NamedSymbol(Seq<char>),
    Symbol(Symbol),
    Choice(Seq<RuleModel>),
    Sequence(Seq<RuleModel>),
    Repeat(Box<RuleModel>),
    Metadata { params: MetadataModel, rule: Box<RuleModel> },
}

pub open spec fn rule_model(rule: Rule) -> RuleModel
    decreases rule, 0nat,
{
    match rule {
        Rule::Blank => RuleModel::Blank,
        Rule::String(s) => RuleModel::String(s@),
        Rule::Pattern(p, f) => RuleModel::Pattern(p@, f@),
        Rule::NamedSymbol(s) => RuleModel::NamedSymbol(s@),
        Rule::Symbol(s) => RuleModel::Symbol(s),
        Rule::Choice(rs) => RuleModel::Choice(rule_models(rs@)),
        Rule::Sequence(rs) => RuleModel::Sequence(rule_models(rs@)),
        Rule::Repeat(r) => RuleModel::Repeat(Box::new(rule_model(*r))),
        Rule::Metadata { params, rule } => RuleModel::Metadata {
            params: params@,
            rule: Box::new(rule_model(*rule)),
        },
    }
}

pub open spec fn rule_models(rules: Seq<Rule>) -> Seq<RuleModel>
    decreases rules, 1nat,
{
    Seq::new(
        rules.len(),
        |i: int|
            if 0 <= i < rules.len() {
                rule_model(rules[i])
            } else {
                RuleModel::Blank
            },
    )
}

impl View for Rule {
    type V = RuleModel;

    open spec fn view(&self) -> RuleModel {
        rule_model(*self)
    }
}

/// Copies a list of rules.
pub fn clone_rules(rules: &Vec<Rule>) -> (out: Vec<Rule>)
    ensures
        rule_models(out@) == rule_models(rules@),
    decreases *rules, 1nat,
{
    let mut out: Vec<Rule> = Vec::new();
    let mut i: usize = 0;
    while i < rules.len()
        invariant
            i <= rules.len(),
            out@.len() == i,
            forall|j: int| 0 <= j < i ==> (#[trigger] out@[j])@ == rules@[j]@,
        decreases rules.len() - i,
    {
        out.push(rules[i].clone());
        i += 1;
    }
    assert(rule_models(out@) =~= rule_models(rules@));
    out
}

impl Clone for Rule {
    fn clone(&self) -> (r: Rule)
        ensures
            r@ == self@,
        decreases *self, 0nat,
    {
        match self {
            Rule::Blank => Rule::Blank,
            Rule::String(s) => Rule::String(s.clone()),
            Rule::Pattern(p, f) => Rule::Pattern(p.clone(), f.clone()),
            Rule::NamedSymbol(s) => Rule::NamedSymbol(s.clone()),
            Rule::Symbol(s) => Rule::Symbol(*s),
            Rule::Choice(rs) => Rule::Choice(clone_rules(rs)),
            Rule::Sequence(rs) => Rule::Sequence(clone_rules(rs)),
            Rule::Repeat(r) => Rule::Repeat(Box::new((**r).clone())),
            Rule::Metadata { params, rule } => Rule::Metadata {
                params: params.clone(),
                rule: Box::new((**rule).clone()),
            },
        }
    }
}

/// Whether two lists of rules denote the same list of expressions.
pub fn same_rules(a: &Vec<Rule>, b: &Vec<Rule>) -> (r: bool)
    ensures
        r == (rule_models(a@) == rule_models(b@)),
    decreases *a, 1nat,
{
    if a.len() != b.len() {
        assert(rule_models(a@).len() != rule_models(b@).len());
        return false;
    }
    let mut i: usize = 0;
    while i < a.len()
        invariant
            i <= a.len(),
            a.len() == b.len(),
            forall|j: int| 0 <= j < i ==> (#[trigger] a@[j])@ == b@[j]@,
        decreases a.len() - i,
    {
        if !a[i].same(&b[i]) {
            assert(rule_models(a@)[i as int] != rule_models(b@)[i as int]);
            return false;
        }
        i += 1;
    }
    assert(rule_models(a@) =~= rule_models(b@));
    true
}

impl Rule {
    /// Whether two rules denote the same expression.
    pub fn same(&self, other: &Rule) -> (r: bool)
        ensures
            r == (self@ == other@),
        decreases *self, 0nat,
    {
        match (self, other) {
            (Rule::Blank, Rule::Blank) => true,
            (Rule::String(a), Rule::String(b)) => {
                let r = *a == *b;
                r
            },
            (Rule::Pattern(a, f), Rule::Pattern(b, g)) => {
                let r = *a == *b;
                let q = *f == *g;
                r && q
            },
            (Rule::NamedSymbol(a), Rule::NamedSymbol(b)) => {
                let r = *a == *b;
                r
            },
            (Rule::Symbol(a), Rule::Symbol(b)) => *a == *b,
            (Rule::Choice(a), Rule::Choice(b)) => same_rules(a, b),
            (Rule::Sequence(a), Rule::Sequence(b)) => same_rules(a, b),
            (Rule::Repeat(a), Rule::Repeat(b)) => (**a).same(&**b),
            (Rule::Metadata { params: p, rule: a }, Rule::Metadata { params: q, rule: b }) => {
                p.same(q) && (**a).same(&**b)
            },
            _ => false,
        }
    }

    /// A reference to the rule called `name`.
    pub fn named(name: &str) -> (r: Rule)
        ensures
            r@ == RuleModel::NamedSymbol(name@),
    {
        Rule::NamedSymbol(name.to_owned())
    }

    /// The literal `value`.
    pub fn string(value: &str) -> (r: Rule)
        ensures
            r@ == RuleModel::String(value@),
    {
        Rule::String(value.to_owned())
    }

    /// The pattern `value` with the given flags.
    pub fn pattern(value: &str, flags: &str) -> (r: Rule)
        ensures
            r@ == RuleModel::Pattern(value@, flags@),
    {
        Rule::Pattern(value.to_owned(), flags.to_owned())
    }

    /// One of `rules`, in order of preference.
    pub fn choice(rules: Vec<Rule>) -> (r: Rule)
        ensures
            r@ == RuleModel::Choice(rule_models(rules@)),
    {
        Rule::Choice(rules)
    }

    /// All of `rules`, one after the other.
    pub fn seq(rules: Vec<Rule>) -> (r: Rule)
        ensures
            r@ == RuleModel::Sequence(rule_models(rules@)),
    {
        Rule::Sequence(rules)
    }

    /// `rule`, any number of times.
    pub fn repeat(rule: Rule) -> (r: Rule)
        ensures
            r@ == RuleModel::Repeat(Box::new(rule@)),
    {
        Rule::Repeat(Box::new(rule))
    }

    /// `rule` wrapped in the given annotations.
    pub fn with_metadata(params: MetadataParams, rule: Rule) -> (r: Rule)
        ensures
            r@ == (RuleModel::Metadata { params: params@, rule: Box::new(rule@) }),
    {
        Rule::Metadata { params, rule: Box::new(rule) }
    }

    /// `rule` with static precedence `value` and no associativity.
    pub fn prec(value: Precedence, rule: Rule) -> (r: Rule)
        ensures
            r@ == (RuleModel::Metadata {
                params: MetadataModel { precedence: value@, ..plain_metadata() },
                rule: Box::new(rule@),
            }),
    {
        let mut params = MetadataParams::plain();
        params.precedence = value;
        Rule::Metadata { params, rule: Box::new(rule) }
    }

    /// `rule` with static precedence `value`, associating to the left.
    pub fn prec_left(value: Precedence, rule: Rule) -> (r: Rule)
        ensures
            r@ == (RuleModel::Metadata {
                params: MetadataModel {
                    precedence: value@,
                    associativity: Some(Associativity::Left),
                    ..plain_metadata()
                },
                rule: Box::new(rule@),
            }),
    {
        let mut params = MetadataParams::plain();
        params.precedence = value;
        params.associativity = Some(Associativity::Left);
        Rule::Metadata { params, rule: Box::new(rule) }
    }

    /// `rule` with static precedence `value`, associating to the right.
    pub fn prec_right(value: Precedence, rule: Rule) -> (r: Rule)
        ensures
            r@ == (RuleModel::Metadata {
                params: MetadataModel {
                    precedence: value@,
                    associativity: Some(Associativity::Right),
                    ..plain_metadata()
                },
                rule: Box::new(rule@),
            }),
    {
        let mut params = MetadataParams::plain();
        params.precedence = value;
        params.associativity = Some(Associativity::Right);
        Rule::Metadata { params, rule: Box::new(rule) }
    }

    /// `rule` with dynamic precedence `value`.
    pub fn prec_dynamic(value: i32, rule: Rule) -> (r: Rule)
        ensures
            r@ == (RuleModel::Metadata {
                params: MetadataModel { dynamic_precedence: value as int, ..plain_metadata() },
                rule: Box::new(rule@),
            }),
    {
        let mut params = MetadataParams::plain();
        params.dynamic_precedence = value;
        Rule::Metadata { params, rule: Box::new(rule) }
    }

    /// `rule` shown under the name `value`.
    pub fn alias(rule: Rule, value: &str, is_named: bool) -> (r: Rule)
        ensures
            r@ == (RuleModel::Metadata {
                params: MetadataModel {
                    alias: Some(AliasModel { value: value@, is_named }),
                    ..plain_metadata()
                },
                rule: Box::new(rule@),
            }),
    {
        let mut params = MetadataParams::plain();
        params.alias = Some(Alias { value: value.to_owned(), is_named });
        Rule::Metadata { params, rule: Box::new(rule) }
    }

    /// `rule` as the field `name` of its parent.
    pub fn field(name: &str, rule: Rule) -> (r: Rule)
        ensures
            r@ == (RuleModel::Metadata {
                params: MetadataModel { field_name: Some(name@), ..plain_metadata() },
                rule: Box::new(rule@),
            }),
    {
        let mut params = MetadataParams::plain();
        params.field_name = Some(name.to_owned());
        Rule::Metadata { params, rule: Box::new(rule) }
    }

    /// `rule` as a single token.
    pub fn token(rule: Rule) -> (r: Rule)
        ensures
            r@ == (RuleModel::Metadata {
                params: MetadataModel { is_token: true, ..plain_metadata() },
                rule: Box::new(rule@),
            }),
    {
        let mut params = MetadataParams::plain();
        params.is_token = true;
        Rule::Metadata { params, rule: Box::new(rule) }
    }

    /// `rule` any number of times, or not at all.
    pub fn zero_or_more(rule: Rule) -> (r: Rule)
        ensures
            r@ == RuleModel::Choice(seq![RuleModel::Repeat(Box::new(rule@)), RuleModel::Blank]),
    {
        let mut members: Vec<Rule> = Vec::new();
        members.push(Rule::Repeat(Box::new(rule)));
        members.push(Rule::Blank);
        assert(rule_models(members@) =~= seq![RuleModel::Repeat(Box::new(rule@)), RuleModel::Blank])
            by {
            reveal_with_fuel(rule_models, 3);
        }
        Rule::Choice(members)
    }
}

/// The flags of a pattern that are known among the first `k` of `flags`:
/// the letter `i`, which asks that case be ignored.
pub open spec fn known_flags(flags: Seq<char>, k: int) -> Seq<char>
    decreases k,
{
    if k <= 0 {
        Seq::empty()
    } else if flags[k - 1] == 'i' {
        known_flags(flags, k - 1).push('i')
    } else {
        known_flags(flags, k - 1)
    }
}

/// The flags of `flags` that a pattern can carry; the others are dropped.
pub fn supported_flags(flags: &str) -> (kept: String)
    ensures
        kept@ == known_flags(flags@, flags@.len() as int),
{
    let count = flags.unicode_len();
    let mut kept = String::new();
    let mut k: usize = 0;
    assert(kept@ =~= known_flags(flags@, 0));
    while k < count
        invariant
            k <= count,
            count == flags@.len(),
            kept@ == known_flags(flags@, k as int),
        decreases count - k,
    {
        if flags.get_char(k) == 'i' {
            kept.append("i");
            proof {
                reveal_strlit("i");
            }
            assert(kept@ =~= known_flags(flags@, k + 1));
        }
        k += 1;
    }
    kept
}

} // verus!
