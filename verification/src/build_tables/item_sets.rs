//! Productions as the table builder sees them, the symbols with which the
//! text of a rule can begin, and sets of items: a production, a place in it,
//! and the symbol expected behind it.
use vstd::prelude::*;
use crate::build_tables::precedence::{place_of, precedence_place};
use crate::grammars::{
    orderings_model, InlinedProductionMap, InlinedProductionMapModel, PrecedenceEntry,
    PrecedenceEntryModel, Production, ProductionId, ProductionModel, ProductionStepModel,
    SyntaxGrammar, SyntaxGrammarModel,
};
use crate::rules::{symbol_lt, Associativity, Symbol, SymbolType};

verus! {

/// A production in the form the builder works on: the rule it belongs to,
/// the symbols of its steps, for each step its place in the order of
/// precedences and its associativity, and the production of the grammar that
/// it stands for (itself, or the one from which inlining made it).
#[derive(Debug, PartialEq, Eq)]
pub struct ParseProduction {
    pub variable: usize,
    pub symbols: Vec<Symbol>,
    pub places: Vec<(i32, usize)>,
    pub associativities: Vec<Option<Associativity>>,
    pub dynamic_precedence: i32,
    pub source: ProductionId,
}

pub struct ParseProductionModel {
    pub variable: int,
    pub symbols: Seq<Symbol>,
    pub places: Seq<(i32, usize)>,
    pub associativities: Seq<Option<Associativity>>,
    pub dynamic_precedence: int,
    pub source: ProductionId,
}

impl View for ParseProduction {
    type V = ParseProductionModel;

    open spec fn view(&self) -> ParseProductionModel {
        ParseProductionModel {
            variable: self.variable as int,
            symbols: self.symbols@,
            places: self.places@,
            associativities: self.associativities@,
            dynamic_precedence: self.dynamic_precedence as int,
            source: self.source,
        }
    }
}

pub open spec fn arena_model(arena: Seq<ParseProduction>) -> Seq<ParseProductionModel> {
    Seq::new(arena.len(), |i: int| arena[i]@)
}

/// The production `p` of the rule numbered `v`, standing for `source`.
pub open spec fn parse_production(
    g: SyntaxGrammarModel,
    v: int,
    p: ProductionModel,
    source: ProductionId,
) -> ParseProductionModel {
    ParseProductionModel {
        variable: v,
        symbols: Seq::new(p.steps.len(), |i: int| p.steps[i].symbol),
        places: Seq::new(
            p.steps.len(),
            |i: int|
                {
                    let place = precedence_place(
                        g.precedence_orderings,
                        p.steps[i].precedence,
                        g.variables[v].name,
                    );
                    (place.0 as i32, place.1 as usize)
                },
        ),
        associativities: Seq::new(p.steps.len(), |i: int| p.steps[i].associativity),
        dynamic_precedence: p.dynamic_precedence,
        source,
    }
}

/// The index, among the first `k` entries of the map, of the first entry for
/// the production `id`, if there is one.
pub open spec fn replaced_at(inlines: InlinedProductionMapModel, id: ProductionId, k: int)
    -> Option<int>
    decreases k,
{
    if k <= 0 {
        None
    } else {
        match replaced_at(inlines, id, k - 1) {
            Some(e) => Some(e),
            None => if inlines.production_map[k - 1].production == id {
                Some(k - 1)
            } else {
                None
            },
        }
    }
}

/// The productions with the first `k` of the productions named in
/// `replacements` added, each for the rule `v` and standing for `source`.
pub open spec fn with_replacements(
    g: SyntaxGrammarModel,
    inlines: InlinedProductionMapModel,
    arena: Seq<ParseProductionModel>,
    v: int,
    source: ProductionId,
    replacements: Seq<usize>,
    k: int,
) -> Seq<ParseProductionModel>
    decreases k,
{
    if k <= 0 {
        arena
    } else {
        with_replacements(g, inlines, arena, v, source, replacements, k - 1).push(
            parse_production(g, v, inlines.productions[replacements[k - 1] as int], source),
        )
    }
}

/// The productions with the production `pi` of the rule `v` added: the
/// productions that inlining made of it, where it made any, or itself.
pub open spec fn with_grammar_production(
    g: SyntaxGrammarModel,
    inlines: InlinedProductionMapModel,
    arena: Seq<ParseProductionModel>,
    v: int,
    pi: int,
) -> Seq<ParseProductionModel> {
    let id = ProductionId { variable: Some(v as usize), production: pi as usize };
    match replaced_at(inlines, id, inlines.production_map.len() as int) {
        Some(e) => with_replacements(
            g,
            inlines,
            arena,
            v,
            id,
            inlines.production_map[e].replacements,
            inlines.production_map[e].replacements.len() as int,
        ),
        None => arena.push(parse_production(g, v, g.variables[v].productions[pi], id)),
    }
}

/// The productions with the first `k` productions of the rule `v` added.
pub open spec fn with_variable_productions(
    g: SyntaxGrammarModel,
    inlines: InlinedProductionMapModel,
    arena: Seq<ParseProductionModel>,
    v: int,
    k: int,
) -> Seq<ParseProductionModel>
    decreases k,
{
    if k <= 0 {
        arena
    } else {
        with_grammar_production(
            g,
            inlines,
            with_variable_productions(g, inlines, arena, v, k - 1),
            v,
            k - 1,
        )
    }
}

/// The productions of the first `k` rules.
pub open spec fn grammar_productions(
    g: SyntaxGrammarModel,
    inlines: InlinedProductionMapModel,
    k: int,
) -> Seq<ParseProductionModel>
    decreases k,
{
    if k <= 0 {
        Seq::empty()
    } else {
        with_variable_productions(
            g,
            inlines,
            grammar_productions(g, inlines, k - 1),
            k - 1,
            g.variables[k - 1].productions.len() as int,
        )
    }
}

/// The production that starts the parse: a rule of its own, numbered behind
/// the rules of the grammar, whose one step is the first rule.
pub open spec fn start_production(g: SyntaxGrammarModel) -> ParseProductionModel {
    ParseProductionModel {
        variable: g.variables.len() as int,
        symbols: seq![Symbol { kind: SymbolType::NonTerminal, index: 0 }],
        places: seq![(0i32, 0usize)],
        associativities: seq![None],
        dynamic_precedence: 0,
        source: ProductionId { variable: None, production: 0 },
    }
}

/// All the productions the builder works on: those of the rules, rule by
/// rule, then the production that starts the parse.
pub open spec fn all_productions(g: SyntaxGrammarModel, inlines: InlinedProductionMapModel) -> Seq<
    ParseProductionModel,
> {
    grammar_productions(g, inlines, g.variables.len() as int).push(start_production(g))
}

pub proof fn lemma_replaced_at_stays(
    inlines: InlinedProductionMapModel,
    id: ProductionId,
    k: int,
    m: int,
)
    requires
        0 <= k <= m,
        replaced_at(inlines, id, k) is Some,
    ensures
        replaced_at(inlines, id, m) == replaced_at(inlines, id, k),
    decreases m - k,
{
    if k < m {
        lemma_replaced_at_stays(inlines, id, k, m - 1);
    }
}

/// The production `p` of the rule numbered `v`, standing for `source`.
fn make_parse_production(grammar: &SyntaxGrammar, v: usize, p: &Production, source: ProductionId)
    -> (r: ParseProduction)
    requires
        v < grammar.variables@.len(),
    ensures
        r@ == parse_production(grammar@, v as int, p@, source),
{
    let mut symbols: Vec<Symbol> = Vec::new();
    let mut places: Vec<(i32, usize)> = Vec::new();
    let mut associativities: Vec<Option<Associativity>> = Vec::new();
    let ghost wanted = parse_production(grammar@, v as int, p@, source);
    let mut i: usize = 0;
    while i < p.steps.len()
        invariant
            i <= p.steps@.len(),
            v < grammar.variables@.len(),
            wanted == parse_production(grammar@, v as int, p@, source),
            symbols@ == wanted.symbols.take(i as int),
            places@ == wanted.places.take(i as int),
            associativities@ == wanted.associativities.take(i as int),
        decreases p.steps@.len() - i,
    {
        let step = &p.steps[i];
        assert(p@.steps[i as int] == step@);
        assert(grammar@.variables[v as int].name == grammar.variables@[v as int].name@);
        symbols.push(step.symbol);
        places.push(
            place_of(&grammar.precedence_orderings, &step.precedence, &grammar.variables[v].name),
        );
        associativities.push(step.associativity);
        assert(symbols@ =~= wanted.symbols.take(i + 1));
        assert(places@ =~= wanted.places.take(i + 1));
        assert(associativities@ =~= wanted.associativities.take(i + 1));
        i += 1;
    }
    assert(symbols@ =~= wanted.symbols);
    assert(places@ =~= wanted.places);
    assert(associativities@ =~= wanted.associativities);
    ParseProduction {
        variable: v,
        symbols,
        places,
        associativities,
        dynamic_precedence: p.dynamic_precedence,
        source,
    }
}

/// The entry of the map for the production `id`, if there is one.
fn find_replacements(inlines: &InlinedProductionMap, id: ProductionId) -> (r: Option<usize>)
    ensures
        match replaced_at(inlines@, id, inlines.production_map@.len() as int) {
            Some(e) => r == Some(e as usize) && 0 <= e < inlines.production_map@.len(),
            None => r is None,
        },
{
    let ghost m = inlines@;
    let mut e: usize = 0;
    while e < inlines.production_map.len()
        invariant
            e <= inlines.production_map@.len(),
            m == inlines@,
            replaced_at(m, id, e as int) is None,
        decreases inlines.production_map@.len() - e,
    {
        assert(m.production_map[e as int] == inlines.production_map@[e as int]@);
        if inlines.production_map[e].production == id {
            proof {
                assert(replaced_at(m, id, e + 1) == Some(e as int));
                lemma_replaced_at_stays(m, id, e + 1, m.production_map.len() as int);
            }
            return Some(e);
        }
        e += 1;
    }
    None
}

/// All the productions the builder works on.
pub fn collect_productions(grammar: &SyntaxGrammar, inlines: &InlinedProductionMap) -> (arena: Vec<
    ParseProduction,
>)
    requires
        inlines.well_formed(),
    ensures
        arena_model(arena@) == all_productions(grammar@, inlines@),
{
    let ghost g = grammar@;
    let ghost m = inlines@;
    let mut arena: Vec<ParseProduction> = Vec::new();
    assert(arena_model(arena@) =~= Seq::empty());
    let mut v: usize = 0;
    while v < grammar.variables.len()
        invariant
            v <= grammar.variables@.len(),
            g == grammar@,
            m == inlines@,
            inlines.well_formed(),
            arena_model(arena@) == grammar_productions(g, m, v as int),
        decreases grammar.variables@.len() - v,
    {
        let productions = &grammar.variables[v].productions;
        let ghost start = arena_model(arena@);
        assert(g.variables[v as int].productions == crate::grammars::productions_model(
            productions@,
        ));
        let mut p: usize = 0;
        while p < productions.len()
            invariant
                p <= productions@.len(),
                v < grammar.variables@.len(),
                g == grammar@,
                m == inlines@,
                inlines.well_formed(),
                productions == &grammar.variables@[v as int].productions,
                g.variables[v as int].productions == crate::grammars::productions_model(
                    productions@,
                ),
                arena_model(arena@) == with_variable_productions(g, m, start, v as int, p as int),
            decreases productions@.len() - p,
        {
            let id = ProductionId { variable: Some(v), production: p };
            let ghost before = arena_model(arena@);
            match find_replacements(inlines, id) {
                Some(e) => {
                    let entry = &inlines.production_map[e];
                    assert(m.production_map[e as int] == entry@);
                    let map_len = inlines.production_map.len();
                    assert(replaced_at(m, id, m.production_map.len() as int) == Some(e as int));
                    let mut r: usize = 0;
                    while r < entry.replacements.len()
                        invariant
                            r <= entry.replacements@.len(),
                            v < grammar.variables@.len(),
                            e < inlines.production_map@.len(),
                            entry == &inlines.production_map@[e as int],
                            g == grammar@,
                            m == inlines@,
                            inlines.well_formed(),
                            replaced_at(m, id, m.production_map.len() as int) == Some(e as int),
                            arena_model(arena@) == with_replacements(
                                g,
                                m,
                                before,
                                v as int,
                                id,
                                entry.replacements@,
                                r as int,
                            ),
                        decreases entry.replacements@.len() - r,
                    {
                        let index = entry.replacements[r];
                        assert(inlines.production_map@[e as int].replacements@[r as int]
                            < inlines.productions@.len());
                        assert(m.productions[index as int] == inlines.productions@[index as int]@);
                        let ghost known = arena@;
                        let made = make_parse_production(grammar, v, &inlines.productions[index], id);
                        arena.push(made);
                        assert(arena_model(arena@) =~= arena_model(known).push(made@));
                        r += 1;
                    }
                    assert(m.production_map[e as int].replacements == entry.replacements@);
                    assert(replaced_at(m, id, m.production_map.len() as int) == Some(e as int));
                    assert(arena_model(arena@) == with_grammar_production(
                        g,
                        m,
                        before,
                        v as int,
                        p as int,
                    ));
                },
                None => {
                    assert(g.variables[v as int].productions[p as int] == productions@[p as int]@);
                    let ghost known = arena@;
                    let made = make_parse_production(grammar, v, &productions[p], id);
                    arena.push(made);
                    assert(arena_model(arena@) =~= arena_model(known).push(made@));
                    assert(arena_model(arena@) == with_grammar_production(
                        g,
                        m,
                        before,
                        v as int,
                        p as int,
                    ));
                },
            }
            p += 1;
        }
        v += 1;
    }
    let mut symbols: Vec<Symbol> = Vec::new();
    symbols.push(Symbol::non_terminal(0));
    let mut places: Vec<(i32, usize)> = Vec::new();
    places.push((0, 0));
    let mut associativities: Vec<Option<Associativity>> = Vec::new();
    associativities.push(None);
    let start = ParseProduction {
        variable: grammar.variables.len(),
        symbols,
        places,
        associativities,
        dynamic_precedence: 0,
        source: ProductionId { variable: None, production: 0 },
    };
    assert(start@.symbols =~= start_production(g).symbols);
    assert(start@.places =~= start_production(g).places);
    assert(start@.associativities =~= start_production(g).associativities);
    let ghost known = arena@;
    arena.push(start);
    assert(arena_model(arena@) =~= arena_model(known).push(start@));
    arena
}

/// `set` with `s`, added at the end unless it is there.
pub open spec fn set_with(set: Seq<Symbol>, s: Symbol) -> Seq<Symbol> {
    if set.contains(s) {
        set
    } else {
        set.push(s)
    }
}

/// `set` with the first `k` symbols of `more`.
pub open spec fn set_with_all(set: Seq<Symbol>, more: Seq<Symbol>, k: int) -> Seq<Symbol>
    decreases k,
{
    if k <= 0 {
        set
    } else {
        set_with(set_with_all(set, more, k - 1), more[k - 1])
    }
}

/// Adds `s` to `set` unless it is there.
pub fn add_symbol(set: &mut Vec<Symbol>, s: Symbol)
    ensures
        final(set)@ == set_with(old(set)@, s),
        final(set)@.len() >= old(set)@.len(),
{
    let mut i: usize = 0;
    while i < set.len()
        invariant
            i <= set@.len(),
            set@ == old(set)@,
            forall|k: int| 0 <= k < i ==> set@[k] != s,
        decreases set@.len() - i,
    {
        if set[i] == s {
            assert(set@.contains(s));
            return ;
        }
        i += 1;
    }
    assert(!set@.contains(s));
    set.push(s);
}

/// Adds the symbols of `more` to `set`.
pub fn add_symbols(set: &mut Vec<Symbol>, more: &Vec<Symbol>)
    ensures
        final(set)@ == set_with_all(old(set)@, more@, more@.len() as int),
        final(set)@.len() >= old(set)@.len(),
{
    let mut k: usize = 0;
    while k < more.len()
        invariant
            k <= more@.len(),
            set@ == set_with_all(old(set)@, more@, k as int),
            set@.len() >= old(set)@.len(),
        decreases more@.len() - k,
    {
        add_symbol(set, more[k]);
        k += 1;
    }
}

/// The symbols with which the text of `symbols`, from the place `from` on,
/// can begin, added to `acc`, and whether that text can be empty. `firsts`
/// and `nullable` say the same of each rule.
pub open spec fn first_of_symbols(
    symbols: Seq<Symbol>,
    from: int,
    firsts: Seq<Seq<Symbol>>,
    nullable: Seq<bool>,
    acc: Seq<Symbol>,
) -> (Seq<Symbol>, bool)
    decreases symbols.len() - from,
{
    if from < 0 || from >= symbols.len() {
        (acc, true)
    } else {
        let s = symbols[from];
        if s.kind == SymbolType::NonTerminal {
            if s.index < firsts.len() && s.index < nullable.len() {
                let more = set_with_all(
                    acc,
                    firsts[s.index as int],
                    firsts[s.index as int].len() as int,
                );
                if nullable[s.index as int] {
                    first_of_symbols(symbols, from + 1, firsts, nullable, more)
                } else {
                    (more, false)
                }
            } else {
                (acc, false)
            }
        } else {
            (set_with(acc, s), false)
        }
    }
}

pub open spec fn symbol_sets_model(sets: Seq<Vec<Symbol>>) -> Seq<Seq<Symbol>> {
    Seq::new(sets.len(), |i: int| sets[i]@)
}

/// Adds to `acc` the symbols with which the text of `symbols`, from `from`
/// on, can begin; returns whether that text can be empty.
pub fn add_first_of_symbols(
    symbols: &Vec<Symbol>,
    from: usize,
    firsts: &Vec<Vec<Symbol>>,
    nullable: &Vec<bool>,
    acc: &mut Vec<Symbol>,
) -> (all: bool)
    ensures
        (final(acc)@, all) == first_of_symbols(
            symbols@,
            from as int,
            symbol_sets_model(firsts@),
            nullable@,
            old(acc)@,
        ),
        final(acc)@.len() >= old(acc)@.len(),
{
    let ghost f = symbol_sets_model(firsts@);
    let ghost wanted = first_of_symbols(symbols@, from as int, f, nullable@, acc@);
    let n = symbols.len();
    let mut i = from;
    let mut stopped = false;
    while i < n && !stopped
        invariant
            n == symbols@.len(),
            f == symbol_sets_model(firsts@),
            acc@.len() >= old(acc)@.len(),
            !stopped ==> wanted == first_of_symbols(symbols@, i as int, f, nullable@, acc@),
            stopped ==> wanted == (acc@, false),
        decreases n - i, if stopped { 0int } else { 1int },
    {
        let s = symbols[i];
        if s.kind == SymbolType::NonTerminal {
            if s.index < firsts.len() && s.index < nullable.len() {
                assert(f[s.index as int] == firsts@[s.index as int]@);
                add_symbols(acc, &firsts[s.index]);
                if nullable[s.index] {
                    i += 1;
                } else {
                    stopped = true;
                }
            } else {
                stopped = true;
            }
        } else {
            add_symbol(acc, s);
            stopped = true;
        }
    }
    !stopped
}

/// The sets after one production is looked at: what its text can begin with
/// is added to the set of its rule, and its rule can be empty where its text
/// can. `changed` says whether anything was added so far.
pub open spec fn first_round_production(
    production: ParseProductionModel,
    firsts: Seq<Seq<Symbol>>,
    nullable: Seq<bool>,
    changed: bool,
) -> (Seq<Seq<Symbol>>, Seq<bool>, bool) {
    let v = production.variable;
    if 0 <= v < firsts.len() && v < nullable.len() {
        let (set, all) = first_of_symbols(production.symbols, 0, firsts, nullable, firsts[v]);
        (
            firsts.update(v, set),
            nullable.update(v, nullable[v] || all),
            changed || set.len() != firsts[v].len() || (all && !nullable[v]),
        )
    } else {
        (firsts, nullable, changed)
    }
}

/// The sets after the first `k` productions are looked at once.
pub open spec fn first_round(
    arena: Seq<ParseProductionModel>,
    k: int,
    firsts: Seq<Seq<Symbol>>,
    nullable: Seq<bool>,
) -> (Seq<Seq<Symbol>>, Seq<bool>, bool)
    decreases k,
{
    if k <= 0 {
        (firsts, nullable, false)
    } else {
        let (f, n, changed) = first_round(arena, k - 1, firsts, nullable);
        first_round_production(arena[k - 1], f, n, changed)
    }
}

/// The sets once a round adds nothing, within `fuel` rounds.
pub open spec fn first_fix(
    arena: Seq<ParseProductionModel>,
    firsts: Seq<Seq<Symbol>>,
    nullable: Seq<bool>,
    fuel: nat,
) -> Option<(Seq<Seq<Symbol>>, Seq<bool>)>
    decreases fuel,
{
    if fuel == 0 {
        None
    } else {
        let (f, n, changed) = first_round(arena, arena.len() as int, firsts, nullable);
        if changed {
            first_fix(arena, f, n, (fuel - 1) as nat)
        } else {
            Some((f, n))
        }
    }
}

/// For each of `count` rules, the symbols with which its text can begin and
/// whether its text can be empty: the least sets that every production
/// agrees with, found by looking at all productions until nothing is added.
pub open spec fn first_sets(arena: Seq<ParseProductionModel>, count: int) -> Option<
    (Seq<Seq<Symbol>>, Seq<bool>),
> {
    first_fix(
        arena,
        Seq::new(count as nat, |i: int| Seq::<Symbol>::empty()),
        Seq::new(count as nat, |i: int| false),
        usize::MAX as nat,
    )
}

/// Copies a list of symbols.
pub fn clone_symbols(symbols: &Vec<Symbol>) -> (out: Vec<Symbol>)
    ensures
        out@ == symbols@,
{
    let mut out: Vec<Symbol> = Vec::new();
    let mut i: usize = 0;
    while i < symbols.len()
        invariant
            i <= symbols@.len(),
            out@ == symbols@.take(i as int),
        decreases symbols@.len() - i,
    {
        out.push(symbols[i]);
        assert(out@ =~= symbols@.take(i + 1));
        i += 1;
    }
    assert(symbols@.take(symbols@.len() as int) =~= symbols@);
    out
}

/// Computes, for each of `count` rules, the symbols with which its text can
/// begin and whether its text can be empty. Nothing is returned where the
/// sets still grow after as many rounds as can be counted.
pub fn compute_first_sets(arena: &Vec<ParseProduction>, count: usize) -> (r: Option<
    (Vec<Vec<Symbol>>, Vec<bool>),
>)
    ensures
        match first_sets(arena_model(arena@), count as int) {
            Some((f, n)) => r matches Some(x) && symbol_sets_model(x.0@) == f && x.1@ == n,
            None => r is None,
        },
{
    let ghost a = arena_model(arena@);
    let mut firsts: Vec<Vec<Symbol>> = Vec::new();
    let mut nullable: Vec<bool> = Vec::new();
    let mut c: usize = 0;
    while c < count
        invariant
            c <= count,
            firsts@.len() == c,
            nullable@.len() == c,
            forall|i: int| 0 <= i < c ==> (#[trigger] firsts@[i])@ == Seq::<Symbol>::empty(),
            forall|i: int| 0 <= i < c ==> #[trigger] nullable@[i] == false,
        decreases count - c,
    {
        firsts.push(Vec::new());
        nullable.push(false);
        c += 1;
    }
    assert(symbol_sets_model(firsts@) =~= Seq::new(count as nat, |i: int| Seq::<Symbol>::empty()));
    assert(nullable@ =~= Seq::new(count as nat, |i: int| false));
    let ghost wanted = first_sets(a, count as int);
    let mut fuel: usize = usize::MAX;
    while fuel > 0
        invariant
            a == arena_model(arena@),
            wanted == first_sets(a, count as int),
            wanted == first_fix(a, symbol_sets_model(firsts@), nullable@, fuel as nat),
        decreases fuel,
    {
        let ghost f0 = symbol_sets_model(firsts@);
        let ghost n0 = nullable@;
        let mut changed = false;
        let mut k: usize = 0;
        while k < arena.len()
            invariant
                k <= arena@.len(),
                a == arena_model(arena@),
                fuel > 0,
                wanted == first_fix(a, f0, n0, fuel as nat),
                (symbol_sets_model(firsts@), nullable@, changed) == first_round(
                    a,
                    k as int,
                    f0,
                    n0,
                ),
            decreases arena@.len() - k,
        {
            let production = &arena[k];
            assert(a[k as int] == production@);
            let v = production.variable;
            if v < firsts.len() && v < nullable.len() {
                let ghost f = symbol_sets_model(firsts@);
                assert(f[v as int] == firsts@[v as int]@);
                let mut set = clone_symbols(&firsts[v]);
                let before = set.len();
                let all = add_first_of_symbols(&production.symbols, 0, &firsts, &nullable, &mut set);
                if set.len() != before || (all && !nullable[v]) {
                    changed = true;
                }
                let was = nullable[v];
                let ghost set_model = set@;
                firsts.set(v, set);
                nullable.set(v, was || all);
                assert(symbol_sets_model(firsts@) =~= f.update(v as int, set_model));
            }
            k += 1;
        }
        if !changed {
            return Some((firsts, nullable));
        }
        fuel -= 1;
    }
    None
}

/// A production, a place in it, and the symbol expected behind it.
#[derive(Clone, Copy, Debug, PartialEq, Eq, Structural)]
pub struct Item {
    pub production: usize,
    pub step: usize,
    pub lookahead: Symbol,
}

/// The symbol behind the place of `item`, if the place is not the end.
pub open spec fn symbol_after_dot(arena: Seq<ParseProductionModel>, item: Item) -> Option<Symbol> {
    if item.production < arena.len() && item.step < arena[item.production as int].symbols.len() {
        Some(arena[item.production as int].symbols[item.step as int])
    } else {
        None
    }
}

/// The symbols that can follow the symbol behind the place of `item`: what
/// the rest of the production can begin with, and the lookahead of the item
/// where that rest can be empty.
pub open spec fn lookaheads_after(
    arena: Seq<ParseProductionModel>,
    firsts: Seq<Seq<Symbol>>,
    nullable: Seq<bool>,
    item: Item,
) -> Seq<Symbol> {
    let (set, all) = first_of_symbols(
        arena[item.production as int].symbols,
        item.step + 1,
        firsts,
        nullable,
        Seq::empty(),
    );
    if all {
        set_with(set, item.lookahead)
    } else {
        set
    }
}

/// `items` with `item`, added at the end unless it is there.
pub open spec fn items_with(items: Seq<Item>, item: Item) -> Seq<Item> {
    if items.contains(item) {
        items
    } else {
        items.push(item)
    }
}

/// `items` with the start of the production `p` before each of the first `k`
/// of `lookaheads`.
pub open spec fn with_start_items(items: Seq<Item>, p: int, lookaheads: Seq<Symbol>, k: int)
    -> Seq<Item>
    decreases k,
{
    if k <= 0 {
        items
    } else {
        items_with(
            with_start_items(items, p, lookaheads, k - 1),
            Item { production: p as usize, step: 0, lookahead: lookaheads[k - 1] },
        )
    }
}

/// `items` with the start of each of the first `k` productions that belongs
/// to the rule `w`, before each of `lookaheads`.
pub open spec fn with_variable_items(
    arena: Seq<ParseProductionModel>,
    items: Seq<Item>,
    w: int,
    lookaheads: Seq<Symbol>,
    k: int,
) -> Seq<Item>
    decreases k,
{
    if k <= 0 {
        items
    } else {
        let known = with_variable_items(arena, items, w, lookaheads, k - 1);
        if arena[k - 1].variable == w {
            with_start_items(known, k - 1, lookaheads, lookaheads.len() as int)
        } else {
            known
        }
    }
}

/// `items` with what the item at `i` asks for: where a rule stands behind its
/// place, the start of each production of that rule, before each symbol that
/// can follow the rule there.
pub open spec fn expanded_item(
    arena: Seq<ParseProductionModel>,
    firsts: Seq<Seq<Symbol>>,
    nullable: Seq<bool>,
    items: Seq<Item>,
    i: int,
) -> Seq<Item> {
    match symbol_after_dot(arena, items[i]) {
        Some(s) => if s.kind == SymbolType::NonTerminal {
            with_variable_items(
                arena,
                items,
                s.index as int,
                lookaheads_after(arena, firsts, nullable, items[i]),
                arena.len() as int,
            )
        } else {
            items
        },
        None => items,
    }
}

/// The items that `items` ask for, directly or through other items: the
/// items from `i` on are expanded one after the other, the ones they add
/// included. Nothing is given where the items can no longer be counted.
pub open spec fn closure_from(
    arena: Seq<ParseProductionModel>,
    firsts: Seq<Seq<Symbol>>,
    nullable: Seq<bool>,
    items: Seq<Item>,
    i: int,
) -> Option<Seq<Item>>
    decreases usize::MAX - items.len(), items.len() - i,
{
    if items.len() > usize::MAX {
        None
    } else if i < 0 || i >= items.len() {
        Some(items)
    } else {
        let next = expanded_item(arena, firsts, nullable, items, i);
        if next.len() < items.len() || next.len() > usize::MAX {
            None
        } else {
            closure_from(arena, firsts, nullable, next, i + 1)
        }
    }
}

/// Whether `a` comes before `b`: by production, then by place, then by
/// lookahead.
pub open spec fn item_lt(a: Item, b: Item) -> bool {
    a.production < b.production || (a.production == b.production && (a.step < b.step || (a.step
        == b.step && symbol_lt(a.lookahead, b.lookahead))))
}

/// The first place at or behind `j` whose item does not come before `item`.
pub open spec fn insert_position(items: Seq<Item>, item: Item, j: int) -> int
    decreases items.len() - j,
{
    if j < 0 || j >= items.len() {
        items.len() as int
    } else if item_lt(items[j], item) {
        insert_position(items, item, j + 1)
    } else {
        j
    }
}

/// The ordered list `items` with `item` at its place, unless it is there.
pub open spec fn sorted_with(items: Seq<Item>, item: Item) -> Seq<Item> {
    let pos = insert_position(items, item, 0);
    if pos < items.len() && items[pos] == item {
        items
    } else {
        items.insert(pos, item)
    }
}

/// The first `k` of `items` in order, each once.
pub open spec fn sorted_items(items: Seq<Item>, k: int) -> Seq<Item>
    decreases k,
{
    if k <= 0 {
        Seq::empty()
    } else {
        sorted_with(sorted_items(items, k - 1), items[k - 1])
    }
}

/// The items, in order, that the first `k` of `items` give once the parser
/// has passed the symbol `x`: each item with `x` behind its place, its place
/// moved behind `x`.
pub open spec fn kernel_for(arena: Seq<ParseProductionModel>, items: Seq<Item>, x: Symbol, k: int)
    -> Seq<Item>
    decreases k,
{
    if k <= 0 {
        Seq::empty()
    } else {
        let known = kernel_for(arena, items, x, k - 1);
        if symbol_after_dot(arena, items[k - 1]) == Some(x) {
            sorted_with(known, Item { step: (items[k - 1].step + 1) as usize, ..items[k - 1] })
        } else {
            known
        }
    }
}

pub proof fn lemma_insert_position_bounds(items: Seq<Item>, item: Item, j: int)
    requires
        0 <= j <= items.len(),
    ensures
        j <= insert_position(items, item, j) <= items.len(),
    decreases items.len() - j,
{
    if j < items.len() && item_lt(items[j], item) {
        lemma_insert_position_bounds(items, item, j + 1);
    }
}

/// The symbol behind the place of `item`, if the place is not the end.
pub fn next_symbol(arena: &Vec<ParseProduction>, item: &Item) -> (r: Option<Symbol>)
    ensures
        r == symbol_after_dot(arena_model(arena@), *item),
{
    if item.production < arena.len() {
        let production = &arena[item.production];
        assert(arena_model(arena@)[item.production as int] == production@);
        if item.step < production.symbols.len() {
            return Some(production.symbols[item.step]);
        }
    }
    None
}

/// Whether `a` comes before `b`.
pub fn item_precedes(a: &Item, b: &Item) -> (r: bool)
    ensures
        r == item_lt(*a, *b),
{
    a.production < b.production || (a.production == b.production && (a.step < b.step || (a.step
        == b.step && a.lookahead.precedes(&b.lookahead))))
}

/// Puts `item` at its place in the ordered list `items`, unless it is there.
pub fn insert_sorted(items: &mut Vec<Item>, item: Item)
    ensures
        final(items)@ == sorted_with(old(items)@, item),
{
    let ghost wanted = insert_position(items@, item, 0);
    let mut j: usize = 0;
    while j < items.len() && item_precedes(&items[j], &item)
        invariant
            j <= items@.len(),
            items@ == old(items)@,
            wanted == insert_position(items@, item, j as int),
        decreases items@.len() - j,
    {
        j += 1;
    }
    if j < items.len() && items[j] == item {
        return ;
    }
    items.insert(j, item);
}

/// Adds `item` behind `items` unless it is there.
pub fn add_item(items: &mut Vec<Item>, item: Item)
    ensures
        final(items)@ == items_with(old(items)@, item),
        final(items)@.len() >= old(items)@.len(),
{
    let mut i: usize = 0;
    while i < items.len()
        invariant
            i <= items@.len(),
            items@ == old(items)@,
            forall|k: int| 0 <= k < i ==> items@[k] != item,
        decreases items@.len() - i,
    {
        if items[i] == item {
            assert(items@.contains(item));
            return ;
        }
        i += 1;
    }
    assert(!items@.contains(item));
    items.push(item);
}

/// Adds to `items` what the item at `i` asks for.
fn expand_item(
    arena: &Vec<ParseProduction>,
    firsts: &Vec<Vec<Symbol>>,
    nullable: &Vec<bool>,
    items: &mut Vec<Item>,
    i: usize,
)
    requires
        i < old(items)@.len(),
    ensures
        final(items)@ == expanded_item(
            arena_model(arena@),
            symbol_sets_model(firsts@),
            nullable@,
            old(items)@,
            i as int,
        ),
        final(items)@.len() >= old(items)@.len(),
{
    let ghost a = arena_model(arena@);
    let item = items[i];
    match next_symbol(arena, &item) {
        Some(s) => {
            if s.kind == SymbolType::NonTerminal {
                let production = &arena[item.production];
                assert(a[item.production as int] == production@);
                let step_count = production.symbols.len();
                assert(item.step < step_count);
                let mut lookaheads: Vec<Symbol> = Vec::new();
                let all = add_first_of_symbols(
                    &production.symbols,
                    item.step + 1,
                    firsts,
                    nullable,
                    &mut lookaheads,
                );
                if all {
                    add_symbol(&mut lookaheads, item.lookahead);
                }
                assert(lookaheads@ == lookaheads_after(
                    a,
                    symbol_sets_model(firsts@),
                    nullable@,
                    item,
                ));
                let mut q: usize = 0;
                while q < arena.len()
                    invariant
                        q <= arena@.len(),
                        a == arena_model(arena@),
                        items@.len() >= old(items)@.len(),
                        items@ == with_variable_items(
                            a,
                            old(items)@,
                            s.index as int,
                            lookaheads@,
                            q as int,
                        ),
                    decreases arena@.len() - q,
                {
                    assert(a[q as int] == arena@[q as int]@);
                    if arena[q].variable == s.index {
                        let ghost known = items@;
                        let mut k: usize = 0;
                        while k < lookaheads.len()
                            invariant
                                k <= lookaheads@.len(),
                                items@.len() >= old(items)@.len(),
                                items@ == with_start_items(known, q as int, lookaheads@, k as int),
                            decreases lookaheads@.len() - k,
                        {
                            add_item(items, Item { production: q, step: 0, lookahead: lookaheads[k] });
                            k += 1;
                        }
                    }
                    q += 1;
                }
            }
        },
        None => {},
    }
}

/// Completes `items` with the items they ask for, directly or through other
/// items.
pub fn close_items(
    arena: &Vec<ParseProduction>,
    firsts: &Vec<Vec<Symbol>>,
    nullable: &Vec<bool>,
    items: &mut Vec<Item>,
) -> (ok: bool)
    ensures
        match closure_from(
            arena_model(arena@),
            symbol_sets_model(firsts@),
            nullable@,
            old(items)@,
            0,
        ) {
            Some(closed) => ok && final(items)@ == closed,
            None => !ok,
        },
{
    let ghost a = arena_model(arena@);
    let ghost f = symbol_sets_model(firsts@);
    let ghost wanted = closure_from(a, f, nullable@, items@, 0);
    let mut i: usize = 0;
    while i < items.len()
        invariant
            a == arena_model(arena@),
            f == symbol_sets_model(firsts@),
            wanted == closure_from(a, f, nullable@, old(items)@, 0),
            wanted == closure_from(a, f, nullable@, items@, i as int),
        decreases usize::MAX - items@.len(), items@.len() - i,
    {
        expand_item(arena, firsts, nullable, items, i);
        let n = items.len();
        i += 1;
    }
    let n = items.len();
    true
}

/// The items of `items` in order, each once.
pub fn sort_items(items: &Vec<Item>) -> (out: Vec<Item>)
    ensures
        out@ == sorted_items(items@, items@.len() as int),
{
    let mut out: Vec<Item> = Vec::new();
    let mut k: usize = 0;
    while k < items.len()
        invariant
            k <= items@.len(),
            out@ == sorted_items(items@, k as int),
        decreases items@.len() - k,
    {
        insert_sorted(&mut out, items[k]);
        k += 1;
    }
    out
}

/// The items, in order, that `items` give once the parser has passed `x`.
pub fn kernel_after(arena: &Vec<ParseProduction>, items: &Vec<Item>, x: Symbol) -> (kernel: Vec<
    Item,
>)
    ensures
        kernel@ == kernel_for(arena_model(arena@), items@, x, items@.len() as int),
{
    let ghost a = arena_model(arena@);
    let mut kernel: Vec<Item> = Vec::new();
    let mut k: usize = 0;
    while k < items.len()
        invariant
            k <= items@.len(),
            a == arena_model(arena@),
            kernel@ == kernel_for(a, items@, x, k as int),
        decreases items@.len() - k,
    {
        let item = items[k];
        match next_symbol(arena, &item) {
            Some(s) => {
                if s == x {
                    let production = &arena[item.production];
                    assert(a[item.production as int] == production@);
                    let step_count = production.symbols.len();
                    assert(item.step < step_count);
                    insert_sorted(
                        &mut kernel,
                        Item {
                            production: item.production,
                            step: item.step + 1,
                            lookahead: item.lookahead,
                        },
                    );
                }
            },
            None => {},
        }
        k += 1;
    }
    kernel
}

} // verus!
