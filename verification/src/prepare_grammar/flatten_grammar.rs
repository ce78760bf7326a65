//! Turns the tree of each rule into the list of its productions: a choice
//! gives the productions of each member, a sequence gives every way of taking
//! one production of each member in turn.
use vstd::prelude::*;
use crate::grammars::{
    clone_steps, productions_model, steps_model, syntax_variables_model, Production,
    ProductionModel, ProductionStep, ProductionStepModel, SyntaxVariable, SyntaxVariableModel,
    Variable, VariableModel, variables_model,
};
use crate::rules::{
    alias_option_model, clone_alias_option, clone_string_option, rule_models,
    string_option_model, Alias, AliasModel, Associativity, MetadataModel, MetadataParams,
    Precedence, PrecedenceModel, Rule, RuleModel, Symbol,
};

verus! {

/// What the metadata around a place in a rule says of the steps made there.
#[derive(Debug)]
pub struct FlattenContext {
    pub precedence: Precedence,
    pub associativity: Option<Associativity>,
    pub alias: Option<Alias>,
    pub field_name: Option<String>,
    pub dynamic_precedence: i32,
}

pub struct FlattenContextModel {
    pub precedence: PrecedenceModel,
    pub associativity: Option<Associativity>,
    pub alias: Option<AliasModel>,
    pub field_name: Option<Seq<char>>,
    pub dynamic_precedence: int,
}

impl View for FlattenContext {
    type V = FlattenContextModel;

    open spec fn view(&self) -> FlattenContextModel {
        FlattenContextModel {
            precedence: self.precedence@,
            associativity: self.associativity,
            alias: alias_option_model(self.alias),
            field_name: string_option_model(self.field_name),
            dynamic_precedence: self.dynamic_precedence as int,
        }
    }
}

/// The context outside any metadata.
pub open spec fn outermost() -> FlattenContextModel {
    FlattenContextModel {
        precedence: PrecedenceModel::Absent,
        associativity: None,
        alias: None,
        field_name: None,
        dynamic_precedence: 0,
    }
}

/// The context inside a metadata node: what the node states replaces what
/// was stated further out. Precedence and associativity are stated together,
/// by a node that states either; an alias, a field name and a dynamic
/// precedence other than zero are each stated on their own.
pub open spec fn context_within(ctx: FlattenContextModel, params: MetadataModel)
    -> FlattenContextModel {
    let states_precedence = !(params.precedence is Absent) || params.associativity is Some;
    FlattenContextModel {
        precedence: if states_precedence {
            params.precedence
        } else {
            ctx.precedence
        },
        associativity: if states_precedence {
            params.associativity
        } else {
            ctx.associativity
        },
        alias: if params.alias is Some {
            params.alias
        } else {
            ctx.alias
        },
        field_name: if params.field_name is Some {
            params.field_name
        } else {
            ctx.field_name
        },
        dynamic_precedence: if params.dynamic_precedence != 0 {
            params.dynamic_precedence
        } else {
            ctx.dynamic_precedence
        },
    }
}

/// The step made for `symbol` in the context `ctx`.
pub open spec fn step_in(ctx: FlattenContextModel, symbol: Symbol) -> ProductionStepModel {
    ProductionStepModel {
        symbol,
        precedence: ctx.precedence,
        associativity: ctx.associativity,
        alias: ctx.alias,
        field_name: ctx.field_name,
    }
}

/// The production without steps made in the context `ctx`.
pub open spec fn empty_in(ctx: FlattenContextModel) -> ProductionModel {
    ProductionModel { steps: Seq::empty(), dynamic_precedence: ctx.dynamic_precedence }
}

pub open spec fn magnitude(x: int) -> int {
    if x < 0 {
        -x
    } else {
        x
    }
}

/// Of two dynamic precedences, the one further from zero; the first on a tie.
pub open spec fn heavier(a: int, b: int) -> int {
    if magnitude(b) > magnitude(a) {
        b
    } else {
        a
    }
}

/// The production that takes the steps of `a`, then those of `b`.
pub open spec fn combined(a: ProductionModel, b: ProductionModel) -> ProductionModel {
    ProductionModel {
        steps: a.steps + b.steps,
        dynamic_precedence: heavier(a.dynamic_precedence, b.dynamic_precedence),
    }
}

/// `a` followed by each of `bs`.
pub open spec fn combined_with_each(a: ProductionModel, bs: Seq<ProductionModel>) -> Seq<
    ProductionModel,
> {
    Seq::new(bs.len(), |j: int| combined(a, bs[j]))
}

/// Each of `firsts` followed by each of `seconds`: all that begin with the
/// first of `firsts` come first.
pub open spec fn joined(firsts: Seq<ProductionModel>, seconds: Seq<ProductionModel>) -> Seq<
    ProductionModel,
>
    decreases firsts.len(),
{
    if firsts.len() == 0 {
        Seq::empty()
    } else {
        joined(firsts.drop_last(), seconds) + combined_with_each(firsts.last(), seconds)
    }
}

/// The productions of `rule` in the context `ctx`. A symbol gives one
/// production of one step; a rule that is neither a symbol nor made of rules
/// gives the production without steps.
pub open spec fn flat(rule: RuleModel, ctx: FlattenContextModel) -> Seq<ProductionModel>
    decreases rule, 0nat,
{
    match rule {
        RuleModel::Symbol(s) => seq![
            ProductionModel {
                steps: seq![step_in(ctx, s)],
                dynamic_precedence: ctx.dynamic_precedence,
            },
        ],
        RuleModel::Sequence(rs) => flat_sequence(rs, ctx),
        RuleModel::Choice(rs) => flat_choice(rs, ctx),
        RuleModel::Metadata { params, rule } => flat(*rule, context_within(ctx, params)),
        RuleModel::Repeat(r) => flat(*r, ctx),
        _ => seq![empty_in(ctx)],
    }
}

/// The productions of the sequence of `rules`.
pub open spec fn flat_sequence(rules: Seq<RuleModel>, ctx: FlattenContextModel) -> Seq<
    ProductionModel,
>
    decreases rules, 1nat,
{
    if rules.len() == 0 {
        seq![empty_in(ctx)]
    } else {
        joined(flat_sequence(rules.drop_last(), ctx), flat(rules.last(), ctx))
    }
}

/// The productions of the choice between `rules`.
pub open spec fn flat_choice(rules: Seq<RuleModel>, ctx: FlattenContextModel) -> Seq<
    ProductionModel,
>
    decreases rules, 1nat,
{
    if rules.len() == 0 {
        Seq::empty()
    } else {
        flat_choice(rules.drop_last(), ctx) + flat(rules.last(), ctx)
    }
}

/// `productions` without the productions that occur earlier in the list.
pub open spec fn deduped(productions: Seq<ProductionModel>) -> Seq<ProductionModel>
    decreases productions.len(),
{
    if productions.len() == 0 {
        Seq::empty()
    } else {
        let before = deduped(productions.drop_last());
        if before.contains(productions.last()) {
            before
        } else {
            before.push(productions.last())
        }
    }
}

/// The rule `v` with its productions in place of its tree.
pub open spec fn flattened_variable(v: VariableModel) -> SyntaxVariableModel {
    SyntaxVariableModel {
        name: v.name,
        kind: v.kind,
        productions: deduped(flat(v.rule, outermost())),
    }
}

/// The rules, each with its productions in place of its tree.
pub open spec fn flattened(vars: Seq<VariableModel>) -> Seq<SyntaxVariableModel> {
    Seq::new(vars.len(), |i: int| flattened_variable(vars[i]))
}

impl Clone for FlattenContext {
    fn clone(&self) -> (r: FlattenContext)
        ensures
            r@ == self@,
    {
        FlattenContext {
            precedence: self.precedence.clone(),
            associativity: self.associativity,
            alias: clone_alias_option(&self.alias),
            field_name: clone_string_option(&self.field_name),
            dynamic_precedence: self.dynamic_precedence,
        }
    }
}

impl FlattenContext {
    /// The context outside any metadata.
    pub fn outermost() -> (ctx: FlattenContext)
        ensures
            ctx@ == outermost(),
    {
        FlattenContext {
            precedence: Precedence::Absent,
            associativity: None,
            alias: None,
            field_name: None,
            dynamic_precedence: 0,
        }
    }

    /// The context inside a metadata node with the annotations `params`.
    pub fn within(&self, params: &MetadataParams) -> (ctx: FlattenContext)
        ensures
            ctx@ == context_within(self@, params@),
    {
        let states_precedence = !params.precedence.is_absent() || params.associativity.is_some();
        FlattenContext {
            precedence: if states_precedence {
                params.precedence.clone()
            } else {
                self.precedence.clone()
            },
            associativity: if states_precedence {
                params.associativity
            } else {
                self.associativity
            },
            alias: if params.alias.is_some() {
                clone_alias_option(&params.alias)
            } else {
                clone_alias_option(&self.alias)
            },
            field_name: if params.field_name.is_some() {
                clone_string_option(&params.field_name)
            } else {
                clone_string_option(&self.field_name)
            },
            dynamic_precedence: if params.dynamic_precedence != 0 {
                params.dynamic_precedence
            } else {
                self.dynamic_precedence
            },
        }
    }

    /// The step made for `symbol` in this context.
    pub fn step(&self, symbol: Symbol) -> (step: ProductionStep)
        ensures
            step@ == step_in(self@, symbol),
    {
        ProductionStep {
            symbol,
            precedence: self.precedence.clone(),
            associativity: self.associativity,
            alias: clone_alias_option(&self.alias),
            field_name: clone_string_option(&self.field_name),
        }
    }
}

/// Of two dynamic precedences, the one further from zero; the first on a tie.
pub fn heavier_precedence(a: i32, b: i32) -> (r: i32)
    ensures
        r as int == heavier(a as int, b as int),
{
    let wide_a: i64 = a as i64;
    let wide_b: i64 = b as i64;
    let size_a: i64 = if wide_a < 0 {
        -wide_a
    } else {
        wide_a
    };
    let size_b: i64 = if wide_b < 0 {
        -wide_b
    } else {
        wide_b
    };
    if size_b > size_a {
        b
    } else {
        a
    }
}

/// The production that takes the steps of `a`, then those of `b`.
pub fn combine(a: &Production, b: &Production) -> (r: Production)
    ensures
        r@ == combined(a@, b@),
{
    let mut steps = clone_steps(&a.steps);
    let ghost first = steps_model(steps@);
    let mut j: usize = 0;
    while j < b.steps.len()
        invariant
            j <= b.steps@.len(),
            first == steps_model(a.steps@),
            steps_model(steps@) == first + steps_model(b.steps@).take(j as int),
        decreases b.steps@.len() - j,
    {
        let ghost before = steps@;
        steps.push(b.steps[j].clone());
        assert(steps_model(steps@) =~= steps_model(before).push(b.steps@[j as int]@));
        assert(steps_model(steps@) =~= first + steps_model(b.steps@).take(j + 1));
        j += 1;
    }
    assert(steps_model(b.steps@).take(b.steps@.len() as int) =~= steps_model(b.steps@));
    Production {
        steps,
        dynamic_precedence: heavier_precedence(a.dynamic_precedence, b.dynamic_precedence),
    }
}

/// Each of `firsts` followed by each of `seconds`.
pub fn join(firsts: &Vec<Production>, seconds: &Vec<Production>) -> (out: Vec<Production>)
    ensures
        productions_model(out@) == joined(productions_model(firsts@), productions_model(seconds@)),
{
    let ghost a = productions_model(firsts@);
    let ghost b = productions_model(seconds@);
    let mut out: Vec<Production> = Vec::new();
    let mut i: usize = 0;
    assert(a.take(0) =~= Seq::empty());
    assert(productions_model(out@) =~= Seq::empty());
    while i < firsts.len()
        invariant
            i <= firsts@.len(),
            a == productions_model(firsts@),
            b == productions_model(seconds@),
            productions_model(out@) == joined(a.take(i as int), b),
        decreases firsts@.len() - i,
    {
        let ghost done = productions_model(out@);
        assert(a.take(i + 1).drop_last() =~= a.take(i as int));
        assert(a.take(i + 1).last() == firsts@[i as int]@);
        let mut j: usize = 0;
        assert(productions_model(out@) =~= done + combined_with_each(a[i as int], b).take(0));
        while j < seconds.len()
            invariant
                j <= seconds@.len(),
                i < firsts@.len(),
                a == productions_model(firsts@),
                b == productions_model(seconds@),
                productions_model(out@) == done + combined_with_each(a[i as int], b).take(
                    j as int,
                ),
            decreases seconds@.len() - j,
        {
            let ghost before = out@;
            let both = combine(&firsts[i], &seconds[j]);
            out.push(both);
            assert(productions_model(out@) =~= productions_model(before).push(both@));
            assert(productions_model(out@) =~= done + combined_with_each(a[i as int], b).take(
                j + 1,
            ));
            j += 1;
        }
        assert(combined_with_each(a[i as int], b).take(seconds@.len() as int)
            =~= combined_with_each(a[i as int], b));
        i += 1;
    }
    assert(a.take(firsts@.len() as int) =~= a);
    out
}

/// Adds copies of the productions of `more` behind those of `out`.
pub fn append_productions(out: &mut Vec<Production>, more: &Vec<Production>)
    ensures
        productions_model(final(out)@) == productions_model(old(out)@) + productions_model(more@),
{
    let ghost start = productions_model(out@);
    let ghost added = productions_model(more@);
    let mut j: usize = 0;
    assert(productions_model(out@) =~= start + added.take(0));
    while j < more.len()
        invariant
            j <= more@.len(),
            start == productions_model(old(out)@),
            added == productions_model(more@),
            productions_model(out@) == start + added.take(j as int),
        decreases more@.len() - j,
    {
        let ghost before = out@;
        out.push(more[j].clone());
        assert(productions_model(out@) =~= productions_model(before).push(more@[j as int]@));
        assert(productions_model(out@) =~= start + added.take(j + 1));
        j += 1;
    }
    assert(added.take(more@.len() as int) =~= added);
}

/// The production without steps made in the context `ctx`.
fn empty_production(ctx: &FlattenContext) -> (out: Vec<Production>)
    ensures
        productions_model(out@) == seq![empty_in(ctx@)],
{
    let mut out: Vec<Production> = Vec::new();
    let p = Production { steps: Vec::new(), dynamic_precedence: ctx.dynamic_precedence };
    assert(p@.steps =~= Seq::empty());
    out.push(p);
    assert(productions_model(out@) =~= seq![empty_in(ctx@)]);
    out
}

/// The productions of the sequence of `rules`.
fn flatten_sequence(rules: &Vec<Rule>, ctx: &FlattenContext) -> (out: Vec<Production>)
    ensures
        productions_model(out@) == flat_sequence(rule_models(rules@), ctx@),
    decreases *rules, 1nat,
{
    let ghost src = rule_models(rules@);
    let mut out = empty_production(ctx);
    let mut i: usize = 0;
    assert(src.take(0) =~= Seq::empty());
    while i < rules.len()
        invariant
            i <= rules@.len(),
            src == rule_models(rules@),
            productions_model(out@) == flat_sequence(src.take(i as int), ctx@),
        decreases rules@.len() - i,
    {
        assert(src.take(i + 1).drop_last() =~= src.take(i as int));
        assert(src.take(i + 1).last() == rules@[i as int]@);
        let next = flatten_rule(&rules[i], ctx);
        out = join(&out, &next);
        i += 1;
    }
    assert(src.take(rules@.len() as int) =~= src);
    out
}

/// The productions of the choice between `rules`.
fn flatten_choice(rules: &Vec<Rule>, ctx: &FlattenContext) -> (out: Vec<Production>)
    ensures
        productions_model(out@) == flat_choice(rule_models(rules@), ctx@),
    decreases *rules, 1nat,
{
    let ghost src = rule_models(rules@);
    let mut out: Vec<Production> = Vec::new();
    let mut i: usize = 0;
    assert(src.take(0) =~= Seq::empty());
    assert(productions_model(out@) =~= Seq::empty());
    while i < rules.len()
        invariant
            i <= rules@.len(),
            src == rule_models(rules@),
            productions_model(out@) == flat_choice(src.take(i as int), ctx@),
        decreases rules@.len() - i,
    {
        assert(src.take(i + 1).drop_last() =~= src.take(i as int));
        assert(src.take(i + 1).last() == rules@[i as int]@);
        let next = flatten_rule(&rules[i], ctx);
        append_productions(&mut out, &next);
        i += 1;
    }
    assert(src.take(rules@.len() as int) =~= src);
    out
}

/// The productions of `rule` in the context `ctx`.
pub fn flatten_rule(rule: &Rule, ctx: &FlattenContext) -> (out: Vec<Production>)
    ensures
        productions_model(out@) == flat(rule@, ctx@),
    decreases *rule, 0nat,
{
    match rule {
        Rule::Symbol(s) => {
            let mut steps: Vec<ProductionStep> = Vec::new();
            let step = ctx.step(*s);
            steps.push(step);
            let p = Production { steps, dynamic_precedence: ctx.dynamic_precedence };
            assert(p@.steps =~= seq![step_in(ctx@, *s)]);
            let mut out: Vec<Production> = Vec::new();
            out.push(p);
            assert(productions_model(out@) =~= seq![p@]);
            out
        },
        Rule::Sequence(rs) => {
            assert(rule@->Sequence_0 == rule_models(rs@));
            flatten_sequence(rs, ctx)
        },
        Rule::Choice(rs) => {
            assert(rule@->Choice_0 == rule_models(rs@));
            flatten_choice(rs, ctx)
        },
        Rule::Metadata { params, rule: inner } => {
            let inside = ctx.within(params);
            flatten_rule(&**inner, &inside)
        },
        Rule::Repeat(inner) => flatten_rule(&**inner, ctx),
        _ => empty_production(ctx),
    }
}

/// `productions` without the productions that occur earlier in the list.
pub fn dedup_productions(productions: &Vec<Production>) -> (out: Vec<Production>)
    ensures
        productions_model(out@) == deduped(productions_model(productions@)),
{
    let ghost src = productions_model(productions@);
    let mut out: Vec<Production> = Vec::new();
    let mut i: usize = 0;
    assert(src.take(0) =~= Seq::empty());
    assert(productions_model(out@) =~= Seq::empty());
    while i < productions.len()
        invariant
            i <= productions@.len(),
            src == productions_model(productions@),
            productions_model(out@) == deduped(src.take(i as int)),
        decreases productions@.len() - i,
    {
        assert(src.take(i + 1).drop_last() =~= src.take(i as int));
        assert(src.take(i + 1).last() == productions@[i as int]@);
        let ghost kept = productions_model(out@);
        let mut seen = false;
        let mut k: usize = 0;
        while k < out.len() && !seen
            invariant
                k <= out@.len(),
                i < productions@.len(),
                kept == productions_model(out@),
                seen ==> kept.contains(productions@[i as int]@),
                !seen ==> forall|m: int| 0 <= m < k ==> #[trigger] kept[m] != productions@[i as int]@,
            decreases out@.len() - k,
        {
            if out[k].same(&productions[i]) {
                seen = true;
                assert(kept[k as int] == productions@[i as int]@);
            }
            k += 1;
        }
        assert(seen == kept.contains(productions@[i as int]@));
        if !seen {
            let ghost before = out@;
            out.push(productions[i].clone());
            assert(productions_model(out@) =~= productions_model(before).push(
                productions@[i as int]@,
            ));
        }
        i += 1;
    }
    assert(src.take(productions@.len() as int) =~= src);
    out
}

/// Gives each rule the list of its productions.
pub fn flatten_grammar(variables: &Vec<Variable>) -> (out: Vec<SyntaxVariable>)
    ensures
        syntax_variables_model(out@) == flattened(variables_model(variables@)),
{
    let mut out: Vec<SyntaxVariable> = Vec::new();
    let mut i: usize = 0;
    while i < variables.len()
        invariant
            i <= variables@.len(),
            out@.len() == i,
            forall|k: int|
                0 <= k < i ==> (#[trigger] out@[k])@ == flattened_variable(variables@[k]@),
        decreases variables@.len() - i,
    {
        let ctx = FlattenContext::outermost();
        let all = flatten_rule(&variables[i].rule, &ctx);
        let productions = dedup_productions(&all);
        out.push(
            SyntaxVariable {
                name: variables[i].name.clone(),
                kind: variables[i].kind,
                productions,
            },
        );
        i += 1;
    }
    assert(syntax_variables_model(out@) =~= flattened(variables_model(variables@)));
    out
}

} // verus!
