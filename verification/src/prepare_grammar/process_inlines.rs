//! Inlining: a step that refers to a rule marked for inlining is replaced by
//! the steps of each production of that rule, in every production where it
//! occurs.
use vstd::prelude::*;
use crate::error::{CompileError, CompileErrorModel};
use crate::grammars::{
    clone_productions, clone_steps, inlined_steps_model, productions_model, steps_model,
    InlinedProductionMap, InlinedProductionMapModel, InlinedStep, InlinedStepModel, Production,
    ProductionId, ProductionModel, ProductionStep, ProductionStepModel, SyntaxGrammar,
    SyntaxGrammarModel,
};
use crate::prepare_grammar::flatten_grammar::{append_productions, join, joined};
use crate::rules::{clone_alias_option, clone_string_option, Symbol, SymbolType};
use crate::seq_util::{first_index_where, lemma_first_index_where};

verus! {

/// Whether steps for `symbol` are inlined: the symbol is a rule of the
/// grammar, and the grammar asks for its inlining.
pub open spec fn is_inlinable(g: SyntaxGrammarModel, symbol: Symbol) -> bool {
    symbol.kind == SymbolType::NonTerminal && symbol.index < g.variables.len()
        && g.variables_to_inline.contains(symbol)
}

/// Holds of the steps that are inlined.
pub open spec fn is_inlined_step(g: SyntaxGrammarModel) -> spec_fn(ProductionStepModel) -> bool {
    |step: ProductionStepModel| is_inlinable(g, step.symbol)
}

/// A step put in the place of `removed`: it takes the alias and the field
/// name of `removed` where `removed` has one; the last one also takes its
/// precedence and its associativity where it has none of its own.
pub open spec fn adapted_step(removed: ProductionStepModel, step: ProductionStepModel, last: bool)
    -> ProductionStepModel {
    ProductionStepModel {
        symbol: step.symbol,
        precedence: if last && step.precedence is Absent {
            removed.precedence
        } else {
            step.precedence
        },
        associativity: if last && step.associativity is None {
            removed.associativity
        } else {
            step.associativity
        },
        alias: if removed.alias is Some {
            removed.alias
        } else {
            step.alias
        },
        field_name: if removed.field_name is Some {
            removed.field_name
        } else {
            step.field_name
        },
    }
}

/// The production `p` as it is put in the place of the step `removed`.
pub open spec fn adapted(removed: ProductionStepModel, p: ProductionModel) -> ProductionModel {
    ProductionModel {
        steps: Seq::new(
            p.steps.len(),
            |i: int| adapted_step(removed, p.steps[i], i == p.steps.len() - 1),
        ),
        dynamic_precedence: p.dynamic_precedence,
    }
}

/// Each of `ps` as it is put in the place of the step `removed`.
pub open spec fn adapted_each(removed: ProductionStepModel, ps: Seq<ProductionModel>) -> Seq<
    ProductionModel,
> {
    Seq::new(ps.len(), |i: int| adapted(removed, ps[i]))
}

/// The production of the one step `step`.
pub open spec fn single(step: ProductionStepModel) -> ProductionModel {
    ProductionModel { steps: seq![step], dynamic_precedence: 0 }
}

/// The productions that `steps` give once every inlined step in them is
/// replaced, in every way, by the steps of a production of its rule, those
/// steps themselves treated in the same way. `depth` bounds how deep one
/// replacement may stand in another; nothing is given where that bound is
/// passed.
pub open spec fn full_steps(
    g: SyntaxGrammarModel,
    steps: Seq<ProductionStepModel>,
    dynamic_precedence: int,
    depth: nat,
) -> Option<Seq<ProductionModel>>
    decreases depth, 1nat, steps.len(),
{
    if steps.len() == 0 {
        Some(seq![ProductionModel { steps: Seq::empty(), dynamic_precedence }])
    } else {
        match full_steps(g, steps.drop_last(), dynamic_precedence, depth) {
            None => None,
            Some(firsts) => {
                let step = steps.last();
                if is_inlinable(g, step.symbol) {
                    match expansions(g, step.symbol, depth) {
                        None => None,
                        Some(alternatives) => Some(joined(firsts, adapted_each(step, alternatives))),
                    }
                } else {
                    Some(joined(firsts, seq![single(step)]))
                }
            },
        }
    }
}

/// The productions of the rule `symbol` with every inlined step replaced.
pub open spec fn expansions(g: SyntaxGrammarModel, symbol: Symbol, depth: nat) -> Option<
    Seq<ProductionModel>,
>
    decreases depth, 0nat, 0nat,
{
    if depth == 0 || symbol.index >= g.variables.len() {
        None
    } else {
        all_full(g, g.variables[symbol.index as int].productions, (depth - 1) as nat)
    }
}

/// The productions that `ps` give, one after the other.
pub open spec fn all_full(g: SyntaxGrammarModel, ps: Seq<ProductionModel>, depth: nat) -> Option<
    Seq<ProductionModel>,
>
    decreases depth, 2nat, ps.len(),
{
    if ps.len() == 0 {
        Some(Seq::empty())
    } else {
        match all_full(g, ps.drop_last(), depth) {
            None => None,
            Some(firsts) => match full_steps(
                g,
                ps.last().steps,
                ps.last().dynamic_precedence,
                depth,
            ) {
                None => None,
                Some(more) => Some(firsts + more),
            },
        }
    }
}

/// The indices from `from` up to, but not including, `from + count`.
pub open spec fn index_range(from: int, count: int) -> Seq<usize> {
    Seq::new(count as nat, |i: int| (from + i) as usize)
}

/// The map after the production `p`, numbered `id`, is looked at. A
/// production without inlined steps changes nothing. Otherwise the
/// productions it gives are added to the productions made, and an entry for
/// its first inlined step names them. Where the bound on depth is passed, the
/// symbol of that step is the error.
pub open spec fn with_production(
    g: SyntaxGrammarModel,
    map: InlinedProductionMapModel,
    id: ProductionId,
    p: ProductionModel,
) -> Result<InlinedProductionMapModel, Symbol> {
    match first_index_where(p.steps, is_inlined_step(g)) {
        None => Ok(map),
        Some(s) => match full_steps(g, p.steps, p.dynamic_precedence, g.variables.len()) {
            None => Err(p.steps[s].symbol),
            Some(made) => Ok(
                InlinedProductionMapModel {
                    productions: map.productions + made,
                    production_map: map.production_map.push(
                        InlinedStepModel {
                            production: id,
                            step_index: s,
                            replacements: index_range(
                                map.productions.len() as int,
                                made.len() as int,
                            ),
                        },
                    ),
                },
            ),
        },
    }
}

/// The map after the first `k` productions of the rule `v` are looked at.
pub open spec fn with_productions(
    g: SyntaxGrammarModel,
    map: InlinedProductionMapModel,
    v: int,
    k: int,
) -> Result<InlinedProductionMapModel, Symbol>
    decreases k,
{
    if k <= 0 {
        Ok(map)
    } else {
        match with_productions(g, map, v, k - 1) {
            Err(s) => Err(s),
            Ok(m) => with_production(
                g,
                m,
                ProductionId { variable: Some(v as usize), production: (k - 1) as usize },
                g.variables[v].productions[k - 1],
            ),
        }
    }
}

/// The map after the first `k` rules are looked at.
pub open spec fn with_variables(g: SyntaxGrammarModel, k: int) -> Result<
    InlinedProductionMapModel,
    Symbol,
>
    decreases k,
{
    if k <= 0 {
        Ok(InlinedProductionMapModel { productions: Seq::empty(), production_map: Seq::empty() })
    } else {
        match with_variables(g, k - 1) {
            Err(s) => Err(s),
            Ok(m) => with_productions(
                g,
                m,
                k - 1,
                g.variables[k - 1].productions.len() as int,
            ),
        }
    }
}

/// The map of the grammar: every production of every rule is looked at, rule
/// by rule. The depth of replacement is bounded by the number of rules.
pub open spec fn inlined_map(g: SyntaxGrammarModel) -> Result<InlinedProductionMapModel, Symbol> {
    with_variables(g, g.variables.len() as int)
}

/// Whether steps for `symbol` are inlined.
pub fn symbol_is_inlined(grammar: &SyntaxGrammar, symbol: Symbol) -> (b: bool)
    ensures
        b == is_inlinable(grammar@, symbol),
{
    if symbol.kind != SymbolType::NonTerminal || symbol.index >= grammar.variables.len() {
        return false;
    }
    let mut i: usize = 0;
    while i < grammar.variables_to_inline.len()
        invariant
            i <= grammar.variables_to_inline@.len(),
            symbol.kind == SymbolType::NonTerminal,
            symbol.index < grammar.variables@.len(),
            forall|k: int| 0 <= k < i ==> grammar.variables_to_inline@[k] != symbol,
        decreases grammar.variables_to_inline@.len() - i,
    {
        if grammar.variables_to_inline[i] == symbol {
            assert(grammar@.variables_to_inline[i as int] == symbol);
            assert(grammar@.variables_to_inline.contains(symbol));
            assert(grammar@.variables.len() == grammar.variables@.len());
            return true;
        }
        i += 1;
    }
    false
}

/// A step put in the place of `removed`.
fn adapt_step(removed: &ProductionStep, step: &ProductionStep, last: bool) -> (r: ProductionStep)
    ensures
        r@ == adapted_step(removed@, step@, last),
{
    ProductionStep {
        symbol: step.symbol,
        precedence: if last && step.precedence.is_absent() {
            removed.precedence.clone()
        } else {
            step.precedence.clone()
        },
        associativity: if last && step.associativity.is_none() {
            removed.associativity
        } else {
            step.associativity
        },
        alias: if removed.alias.is_some() {
            clone_alias_option(&removed.alias)
        } else {
            clone_alias_option(&step.alias)
        },
        field_name: if removed.field_name.is_some() {
            clone_string_option(&removed.field_name)
        } else {
            clone_string_option(&step.field_name)
        },
    }
}

/// Each of `ps` as it is put in the place of the step `removed`.
fn adapt_each(removed: &ProductionStep, ps: &Vec<Production>) -> (out: Vec<Production>)
    ensures
        productions_model(out@) == adapted_each(removed@, productions_model(ps@)),
{
    let mut out: Vec<Production> = Vec::new();
    let mut i: usize = 0;
    while i < ps.len()
        invariant
            i <= ps@.len(),
            out@.len() == i,
            forall|k: int| 0 <= k < i ==> (#[trigger] out@[k])@ == adapted(removed@, ps@[k]@),
        decreases ps@.len() - i,
    {
        let p = &ps[i];
        let mut steps: Vec<ProductionStep> = Vec::new();
        let mut j: usize = 0;
        while j < p.steps.len()
            invariant
                j <= p.steps@.len(),
                steps@.len() == j,
                forall|k: int|
                    0 <= k < j ==> (#[trigger] steps@[k])@ == adapted_step(
                        removed@,
                        p.steps@[k]@,
                        k == p.steps@.len() - 1,
                    ),
            decreases p.steps@.len() - j,
        {
            steps.push(adapt_step(removed, &p.steps[j], j == p.steps.len() - 1));
            j += 1;
        }
        let q = Production { steps, dynamic_precedence: p.dynamic_precedence };
        assert(q@.steps =~= adapted(removed@, p@).steps);
        out.push(q);
        i += 1;
    }
    assert(productions_model(out@) =~= adapted_each(removed@, productions_model(ps@)));
    out
}

/// The productions that `steps` give once every inlined step is replaced.
fn inline_steps(
    grammar: &SyntaxGrammar,
    steps: &Vec<ProductionStep>,
    dynamic_precedence: i32,
    depth: usize,
) -> (r: Option<Vec<Production>>)
    ensures
        match full_steps(grammar@, steps_model(steps@), dynamic_precedence as int, depth as nat) {
            Some(m) => r matches Some(x) && productions_model(x@) == m,
            None => r is None,
        },
    decreases depth, 1nat, steps@.len(),
{
    let ghost g = grammar@;
    let ghost src = steps_model(steps@);
    let mut out: Vec<Production> = Vec::new();
    let first = Production { steps: Vec::new(), dynamic_precedence };
    assert(first@.steps =~= Seq::empty());
    out.push(first);
    assert(productions_model(out@) =~= seq![first@]);
    assert(src.take(0) =~= Seq::empty());
    let mut i: usize = 0;
    while i < steps.len()
        invariant
            i <= steps@.len(),
            g == grammar@,
            src == steps_model(steps@),
            full_steps(g, src.take(i as int), dynamic_precedence as int, depth as nat) == Some(
                productions_model(out@),
            ),
        decreases steps@.len() - i,
    {
        assert(src.take(i + 1).drop_last() =~= src.take(i as int));
        assert(src.take(i + 1).last() == steps@[i as int]@);
        let step = &steps[i];
        if symbol_is_inlined(grammar, step.symbol) {
            match inline_variable(grammar, step.symbol, depth) {
                None => {
                    proof {
                        assert(expansions(g, src.take(i + 1).last().symbol, depth as nat) is None);
                        assert(full_steps(g, src.take(i + 1), dynamic_precedence as int, depth as nat) is None);
                        lemma_full_steps_failure_stays(
                            g,
                            src,
                            dynamic_precedence as int,
                            depth as nat,
                            i + 1,
                        );
                    }
                    return None;
                },
                Some(alternatives) => {
                    let adapted_alternatives = adapt_each(step, &alternatives);
                    out = join(&out, &adapted_alternatives);
                },
            }
        } else {
            let mut only: Vec<ProductionStep> = Vec::new();
            only.push(step.clone());
            let one = Production { steps: only, dynamic_precedence: 0 };
            assert(one@.steps =~= seq![step@]);
            let mut seconds: Vec<Production> = Vec::new();
            seconds.push(one);
            assert(productions_model(seconds@) =~= seq![single(step@)]);
            out = join(&out, &seconds);
        }
        i += 1;
    }
    assert(src.take(steps@.len() as int) =~= src);
    Some(out)
}

/// A bound passed among the first steps is passed for all the steps.
pub proof fn lemma_full_steps_failure_stays(
    g: SyntaxGrammarModel,
    steps: Seq<ProductionStepModel>,
    dynamic_precedence: int,
    depth: nat,
    k: int,
)
    requires
        0 <= k <= steps.len(),
        full_steps(g, steps.take(k), dynamic_precedence, depth) is None,
    ensures
        full_steps(g, steps, dynamic_precedence, depth) is None,
    decreases steps.len() - k,
{
    if k < steps.len() {
        assert(steps.take(k + 1).drop_last() =~= steps.take(k));
        lemma_full_steps_failure_stays(g, steps, dynamic_precedence, depth, k + 1);
    } else {
        assert(steps.take(k) =~= steps);
    }
}

/// A bound passed among the first productions is passed for all of them.
pub proof fn lemma_all_full_failure_stays(
    g: SyntaxGrammarModel,
    ps: Seq<ProductionModel>,
    depth: nat,
    k: int,
)
    requires
        0 <= k <= ps.len(),
        all_full(g, ps.take(k), depth) is None,
    ensures
        all_full(g, ps, depth) is None,
    decreases ps.len() - k,
{
    if k < ps.len() {
        assert(ps.take(k + 1).drop_last() =~= ps.take(k));
        lemma_all_full_failure_stays(g, ps, depth, k + 1);
    } else {
        assert(ps.take(k) =~= ps);
    }
}

/// The productions of the rule `symbol` with every inlined step replaced.
fn inline_variable(grammar: &SyntaxGrammar, symbol: Symbol, depth: usize) -> (r: Option<
    Vec<Production>,
>)
    ensures
        match expansions(grammar@, symbol, depth as nat) {
            Some(m) => r matches Some(x) && productions_model(x@) == m,
            None => r is None,
        },
    decreases depth, 0nat, 0nat,
{
    if depth == 0 || symbol.index >= grammar.variables.len() {
        return None;
    }
    let productions = &grammar.variables[symbol.index].productions;
    let ghost g = grammar@;
    let ghost src = productions_model(productions@);
    assert(src == g.variables[symbol.index as int].productions);
    let mut out: Vec<Production> = Vec::new();
    assert(src.take(0) =~= Seq::empty());
    assert(productions_model(out@) =~= Seq::empty());
    let mut i: usize = 0;
    while i < productions.len()
        invariant
            i <= productions@.len(),
            depth > 0,
            g == grammar@,
            symbol.index < g.variables.len(),
            src == g.variables[symbol.index as int].productions,
            src == productions_model(productions@),
            all_full(g, src.take(i as int), (depth - 1) as nat) == Some(productions_model(out@)),
        decreases productions@.len() - i,
    {
        assert(src.take(i + 1).drop_last() =~= src.take(i as int));
        assert(src.take(i + 1).last() == productions@[i as int]@);
        match inline_steps(
            grammar,
            &productions[i].steps,
            productions[i].dynamic_precedence,
            depth - 1,
        ) {
            None => {
                proof {
                    assert(full_steps(
                        g,
                        src.take(i + 1).last().steps,
                        src.take(i + 1).last().dynamic_precedence,
                        (depth - 1) as nat,
                    ) is None);
                    assert(all_full(g, src.take(i + 1), (depth - 1) as nat) is None);
                    lemma_all_full_failure_stays(g, src, (depth - 1) as nat, i + 1);
                }
                return None;
            },
            Some(more) => {
                append_productions(&mut out, &more);
            },
        }
        i += 1;
    }
    assert(src.take(productions@.len() as int) =~= src);
    Some(out)
}

/// The index of the first inlined step of `steps`, if there is one.
fn first_inlined_step(grammar: &SyntaxGrammar, steps: &Vec<ProductionStep>) -> (r: Option<usize>)
    ensures
        match first_index_where(steps_model(steps@), is_inlined_step(grammar@)) {
            Some(s) => r == Some(s as usize) && 0 <= s < steps@.len(),
            None => r is None,
        },
{
    let ghost src = steps_model(steps@);
    let ghost wanted = is_inlined_step(grammar@);
    let mut i: usize = 0;
    while i < steps.len()
        invariant
            i <= steps@.len(),
            src == steps_model(steps@),
            wanted == is_inlined_step(grammar@),
            forall|k: int| 0 <= k < i ==> !wanted(#[trigger] src[k]),
        decreases steps@.len() - i,
    {
        if symbol_is_inlined(grammar, steps[i].symbol) {
            assert(wanted(src[i as int]));
            proof {
                lemma_first_index_where(src, wanted);
            }
            return Some(i);
        }
        i += 1;
    }
    proof {
        lemma_first_index_where(src, wanted);
    }
    None
}

/// Looks at one production: where it has an inlined step, the productions it
/// gives are added to the map.
fn add_production(
    grammar: &SyntaxGrammar,
    map: &mut InlinedProductionMap,
    id: ProductionId,
    production: &Production,
) -> (r: Result<(), CompileError>)
    requires
        old(map).well_formed(),
    ensures
        match with_production(grammar@, old(map)@, id, production@) {
            Ok(m) => r is Ok && final(map)@ == m && final(map).well_formed(),
            Err(s) => r matches Err(e) && e@ == CompileErrorModel::CyclicInlining(s),
        },
        final(map).production_map@.len() <= old(map).production_map@.len() + 1,
{
    let ghost first = first_index_where(production@.steps, is_inlined_step(grammar@));
    let step_count = production.steps.len();
    assert(production@.steps.len() == step_count);
    match first_inlined_step(grammar, &production.steps) {
        None => Ok(()),
        Some(s) => {
            assert(first == Some(s as int));
            assert(s < production.steps@.len());
            assert(production@.steps[s as int].symbol == production.steps@[s as int].symbol);
            match inline_steps(
                grammar,
                &production.steps,
                production.dynamic_precedence,
                grammar.variables.len(),
            ) {
                None => Err(CompileError::CyclicInlining(production.steps[s].symbol)),
                Some(made) => {
                    let ghost before = map@;
                    let ghost entries_before = map.production_map@;
                    let ghost productions_before = map.productions@;
                    let from = map.productions.len();
                    append_productions(&mut map.productions, &made);
                    assert(productions_model(map.productions@).len() == productions_model(
                        productions_before,
                    ).len() + productions_model(made@).len());
                    let total = map.productions.len();
                    let mut replacements: Vec<usize> = Vec::new();
                    let mut k: usize = 0;
                    while k < made.len()
                        invariant
                            k <= made@.len(),
                            from + made@.len() == total,
                            replacements@.len() == k,
                            forall|m: int| 0 <= m < k ==> #[trigger] replacements@[m] == from + m,
                        decreases made@.len() - k,
                    {
                        replacements.push(from + k);
                        k += 1;
                    }
                    assert(replacements@ =~= index_range(from as int, made@.len() as int));
                    let entry = InlinedStep { production: id, step_index: s, replacements };
                    map.production_map.push(entry);
                    assert(map@.production_map =~= before.production_map.push(entry@));
                    assert forall|e: int, r: int|
                        0 <= e < map.production_map@.len() && 0 <= r
                            < map.production_map@[e].replacements@.len() implies (
                    #[trigger] map.production_map@[e].replacements@[r])
                        < map.productions@.len() by {
                        if e < entries_before.len() {
                            assert(map.production_map@[e] == entries_before[e]);
                            assert(entries_before[e].replacements@[r] < productions_before.len());
                        }
                    }
                    Ok(())
                },
            }
        },
    }
}

/// An error among the first productions of a rule is what all of them give.
pub proof fn lemma_with_productions_error_stays(
    g: SyntaxGrammarModel,
    map: InlinedProductionMapModel,
    v: int,
    k: int,
    m: int,
)
    requires
        0 <= k <= m,
        with_productions(g, map, v, k) is Err,
    ensures
        with_productions(g, map, v, m) == with_productions(g, map, v, k),
    decreases m - k,
{
    if k < m {
        lemma_with_productions_error_stays(g, map, v, k, m - 1);
    }
}

/// An error among the first rules is what all of them give.
pub proof fn lemma_with_variables_error_stays(g: SyntaxGrammarModel, k: int, m: int)
    requires
        0 <= k <= m,
        with_variables(g, k) is Err,
    ensures
        with_variables(g, m) == with_variables(g, k),
    decreases m - k,
{
    if k < m {
        lemma_with_variables_error_stays(g, k, m - 1);
    }
}

/// Replaces, in every production of the grammar, the steps that refer to a
/// rule marked for inlining. Fails with `CyclicInlining` where replacements
/// stand in one another deeper than the grammar has rules, as they do when a
/// rule marked for inlining leads back to itself; the error names the symbol
/// of the first inlined step of the production at which this shows.
pub fn process_inlines(grammar: &SyntaxGrammar) -> (r: Result<InlinedProductionMap, CompileError>)
    ensures
        match inlined_map(grammar@) {
            Ok(m) => r matches Ok(x) && x@ == m && x.well_formed(),
            Err(s) => r matches Err(e) && e@ == CompileErrorModel::CyclicInlining(s),
        },
{
    let ghost g = grammar@;
    let mut map = InlinedProductionMap::new();
    assert(map@.productions =~= Seq::empty());
    assert(map@.production_map =~= Seq::empty());
    let mut v: usize = 0;
    while v < grammar.variables.len()
        invariant
            v <= grammar.variables@.len(),
            g == grammar@,
            map.well_formed(),
            with_variables(g, v as int) == Ok::<InlinedProductionMapModel, Symbol>(map@),
        decreases grammar.variables@.len() - v,
    {
        let ghost start = map@;
        let productions = &grammar.variables[v].productions;
        assert(g.variables[v as int].productions == productions_model(productions@));
        let mut p: usize = 0;
        while p < productions.len()
            invariant
                p <= productions@.len(),
                v < grammar.variables@.len(),
                g == grammar@,
                productions == &grammar.variables@[v as int].productions,
                g.variables[v as int].productions == productions_model(productions@),
                map.well_formed(),
                with_variables(g, v as int) == Ok::<InlinedProductionMapModel, Symbol>(start),
                with_productions(g, start, v as int, p as int) == Ok::<
                    InlinedProductionMapModel,
                    Symbol,
                >(map@),
            decreases productions@.len() - p,
        {
            let id = ProductionId { variable: Some(v), production: p };
            let ghost before = map@;
            assert(g.variables[v as int].productions[p as int] == productions@[p as int]@);
            match add_production(grammar, &mut map, id, &productions[p]) {
                Ok(()) => {},
                Err(e) => {
                    proof {
                        let failure = with_production(g, before, id, productions@[p as int]@);
                        assert(failure is Err);
                        assert(with_productions(g, start, v as int, p + 1) == failure);
                        lemma_with_productions_error_stays(
                            g,
                            start,
                            v as int,
                            p + 1,
                            productions@.len() as int,
                        );
                        assert(with_variables(g, v + 1) == failure);
                        lemma_with_variables_error_stays(g, v + 1, g.variables.len() as int);
                    }
                    return Err(e);
                },
            }
            p += 1;
        }
        v += 1;
    }
    Ok(map)
}

/// Whether no step of `steps` is for `symbol`.
pub open spec fn steps_avoid(steps: Seq<ProductionStepModel>, symbol: Symbol) -> bool {
    forall|s: int| 0 <= s < steps.len() ==> (#[trigger] steps[s]).symbol != symbol
}

/// Whether no step of any of `ps` is for `symbol`.
pub open spec fn productions_avoid(ps: Seq<ProductionModel>, symbol: Symbol) -> bool {
    forall|p: int| 0 <= p < ps.len() ==> steps_avoid((#[trigger] ps[p]).steps, symbol)
}

/// Whether `symbol` appears in no production of the grammar.
pub open spec fn grammar_avoids(g: SyntaxGrammarModel, symbol: Symbol) -> bool {
    forall|v: int|
        0 <= v < g.variables.len() ==> productions_avoid(
            (#[trigger] g.variables[v]).productions,
            symbol,
        )
}

/// The grammar with one more request for inlining.
pub open spec fn with_inline_request(g: SyntaxGrammarModel, symbol: Symbol) -> SyntaxGrammarModel {
    SyntaxGrammarModel { variables_to_inline: g.variables_to_inline.push(symbol), ..g }
}

proof fn lemma_same_inlinable(g: SyntaxGrammarModel, extra: Symbol, symbol: Symbol)
    requires
        symbol != extra,
    ensures
        is_inlinable(with_inline_request(g, extra), symbol) == is_inlinable(g, symbol),
{
    let more = g.variables_to_inline.push(extra);
    if g.variables_to_inline.contains(symbol) {
        let i = choose|i: int| 0 <= i < g.variables_to_inline.len() && g.variables_to_inline[i] == symbol;
        assert(more[i] == symbol);
    }
    if more.contains(symbol) {
        let i = choose|i: int| 0 <= i < more.len() && more[i] == symbol;
        assert(g.variables_to_inline[i] == symbol);
    }
}

proof fn lemma_same_full_steps(
    g: SyntaxGrammarModel,
    extra: Symbol,
    steps: Seq<ProductionStepModel>,
    dynamic_precedence: int,
    depth: nat,
)
    requires
        grammar_avoids(g, extra),
        steps_avoid(steps, extra),
    ensures
        full_steps(with_inline_request(g, extra), steps, dynamic_precedence, depth) == full_steps(
            g,
            steps,
            dynamic_precedence,
            depth,
        ),
    decreases depth, 1nat, steps.len(),
{
    if steps.len() > 0 {
        let step = steps.last();
        assert(steps[steps.len() - 1].symbol != extra);
        assert(steps_avoid(steps.drop_last(), extra)) by {
            assert forall|s: int| 0 <= s < steps.drop_last().len() implies (
            #[trigger] steps.drop_last()[s]).symbol != extra by {
                assert(steps.drop_last()[s] == steps[s]);
            }
        }
        lemma_same_full_steps(g, extra, steps.drop_last(), dynamic_precedence, depth);
        lemma_same_inlinable(g, extra, step.symbol);
        lemma_same_expansions(g, extra, step.symbol, depth);
    }
}

proof fn lemma_same_expansions(g: SyntaxGrammarModel, extra: Symbol, symbol: Symbol, depth: nat)
    requires
        grammar_avoids(g, extra),
    ensures
        expansions(with_inline_request(g, extra), symbol, depth) == expansions(g, symbol, depth),
    decreases depth, 0nat, 0nat,
{
    if !(depth == 0 || symbol.index >= g.variables.len()) {
        assert(productions_avoid(g.variables[symbol.index as int].productions, extra));
        lemma_same_all_full(
            g,
            extra,
            g.variables[symbol.index as int].productions,
            (depth - 1) as nat,
        );
    }
}

proof fn lemma_same_all_full(
    g: SyntaxGrammarModel,
    extra: Symbol,
    ps: Seq<ProductionModel>,
    depth: nat,
)
    requires
        grammar_avoids(g, extra),
        productions_avoid(ps, extra),
    ensures
        all_full(with_inline_request(g, extra), ps, depth) == all_full(g, ps, depth),
    decreases depth, 2nat, ps.len(),
{
    if ps.len() > 0 {
        assert(productions_avoid(ps.drop_last(), extra)) by {
            assert forall|p: int| 0 <= p < ps.drop_last().len() implies steps_avoid(
                (#[trigger] ps.drop_last()[p]).steps,
                extra,
            ) by {
                assert(ps.drop_last()[p] == ps[p]);
            }
        }
        lemma_same_all_full(g, extra, ps.drop_last(), depth);
        assert(steps_avoid(ps[ps.len() - 1].steps, extra));
        lemma_same_full_steps(g, extra, ps.last().steps, ps.last().dynamic_precedence, depth);
    }
}

proof fn lemma_same_first_inlined(
    g: SyntaxGrammarModel,
    extra: Symbol,
    steps: Seq<ProductionStepModel>,
)
    requires
        steps_avoid(steps, extra),
    ensures
        first_index_where(steps, is_inlined_step(with_inline_request(g, extra)))
            == first_index_where(steps, is_inlined_step(g)),
    decreases steps.len(),
{
    if steps.len() > 0 {
        assert(steps[0].symbol != extra);
        lemma_same_inlinable(g, extra, steps[0].symbol);
        assert(steps_avoid(steps.drop_first(), extra)) by {
            assert forall|s: int| 0 <= s < steps.drop_first().len() implies (
            #[trigger] steps.drop_first()[s]).symbol != extra by {
                assert(steps.drop_first()[s] == steps[s + 1]);
            }
        }
        lemma_same_first_inlined(g, extra, steps.drop_first());
    }
}

proof fn lemma_same_with_productions(
    g: SyntaxGrammarModel,
    extra: Symbol,
    map: InlinedProductionMapModel,
    v: int,
    k: int,
)
    requires
        grammar_avoids(g, extra),
        0 <= v < g.variables.len(),
        0 <= k <= g.variables[v].productions.len(),
    ensures
        with_productions(with_inline_request(g, extra), map, v, k) == with_productions(
            g,
            map,
            v,
            k,
        ),
    decreases k,
{
    if k > 0 {
        lemma_same_with_productions(g, extra, map, v, k - 1);
        let p = g.variables[v].productions[k - 1];
        assert(productions_avoid(g.variables[v].productions, extra));
        assert(steps_avoid(p.steps, extra));
        lemma_same_first_inlined(g, extra, p.steps);
        lemma_same_full_steps(g, extra, p.steps, p.dynamic_precedence, g.variables.len());
    }
}

proof fn lemma_same_with_variables(g: SyntaxGrammarModel, extra: Symbol, k: int)
    requires
        grammar_avoids(g, extra),
        0 <= k <= g.variables.len(),
    ensures
        with_variables(with_inline_request(g, extra), k) == with_variables(g, k),
    decreases k,
{
    if k > 0 {
        lemma_same_with_variables(g, extra, k - 1);
        match with_variables(g, k - 1) {
            Ok(m) => {
                lemma_same_with_productions(
                    g,
                    extra,
                    m,
                    k - 1,
                    g.variables[k - 1].productions.len() as int,
                );
            },
            Err(_) => {},
        }
    }
}

/// Asking for the inlining of a symbol that appears in no production changes
/// nothing: the map of the grammar with the request is the map of the grammar
/// without it.
pub proof fn unused_inline_request_changes_nothing(g: SyntaxGrammarModel, extra: Symbol)
    requires
        grammar_avoids(g, extra),
    ensures
        inlined_map(with_inline_request(g, extra)) == inlined_map(g),
{
    lemma_same_with_variables(g, extra, g.variables.len() as int);
}

} // verus!
