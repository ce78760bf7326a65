//! The actions of each state: what the parser does on each lookahead symbol,
//! with every choice between actions settled.
use vstd::prelude::*;
use crate::build_tables::conflicts::{decide, decided, Candidate, Decision};
use crate::build_tables::item_sets::{
    arena_model, next_symbol, symbol_after_dot, Item, ParseProduction, ParseProductionModel,
};
use crate::grammars::ProductionId;
use crate::rules::{Associativity, Symbol, SymbolType};
use crate::build_tables::parse_states::{
    item_lists_model, transition_lists_model, Automaton, AutomatonModel,
};
use crate::tables::{
    entries_model, parse_states_model, ParseAction, ParseState, ParseStateModel, ParseTable,
    ParseTableEntry, ParseTableEntryModel,
};

verus! {

/// Whether the place `a` is above the place `b` in the order of precedences.
pub open spec fn place_above(a: (i32, usize), b: (i32, usize)) -> bool {
    a.0 > b.0 || (a.0 == b.0 && a.1 > b.1)
}

/// The candidate for shifting `x`, as far as the first `k` items say: its
/// place is the highest place of the step for `x` in an item with `x` behind
/// its place, its dynamic precedence the highest of the productions of those
/// items.
pub open spec fn shift_candidate(
    arena: Seq<ParseProductionModel>,
    items: Seq<Item>,
    x: Symbol,
    k: int,
) -> Candidate
    decreases k,
{
    if k <= 0 {
        Candidate {
            production: None,
            major: i32::MIN,
            minor: 0,
            dynamic: i32::MIN,
            associativity: None,
        }
    } else {
        let known = shift_candidate(arena, items, x, k - 1);
        let item = items[k - 1];
        if symbol_after_dot(arena, item) == Some(x) && item.step
            < arena[item.production as int].places.len() {
            let production = arena[item.production as int];
            let place = production.places[item.step as int];
            let higher = place_above(place, (known.major, known.minor));
            Candidate {
                production: None,
                major: if higher {
                    place.0
                } else {
                    known.major
                },
                minor: if higher {
                    place.1
                } else {
                    known.minor
                },
                dynamic: if production.dynamic_precedence > known.dynamic {
                    production.dynamic_precedence as i32
                } else {
                    known.dynamic
                },
                associativity: None,
            }
        } else {
            known
        }
    }
}

/// Whether `item` stands at the end of its production, before `x`.
pub open spec fn reduces_on(arena: Seq<ParseProductionModel>, item: Item, x: Symbol) -> bool {
    item.production < arena.len() && item.step == arena[item.production as int].symbols.len()
        && item.lookahead == x
}

/// The candidate for reducing by the production numbered `p`: its place and
/// its associativity are those of its last step.
pub open spec fn reduce_candidate(arena: Seq<ParseProductionModel>, p: int) -> Candidate {
    let production = arena[p];
    let n = production.symbols.len() as int;
    let stated = n > 0 && n == production.places.len() && n == production.associativities.len();
    Candidate {
        production: Some(p as usize),
        major: if stated {
            production.places[n - 1].0
        } else {
            0
        },
        minor: if stated {
            production.places[n - 1].1
        } else {
            0
        },
        dynamic: production.dynamic_precedence as i32,
        associativity: if stated {
            production.associativities[n - 1]
        } else {
            None
        },
    }
}

/// The candidates for reducing before `x` among the first `k` items, added
/// to `acc`.
pub open spec fn with_reduce_candidates(
    arena: Seq<ParseProductionModel>,
    items: Seq<Item>,
    x: Symbol,
    k: int,
    acc: Seq<Candidate>,
) -> Seq<Candidate>
    decreases k,
{
    if k <= 0 {
        acc
    } else {
        let known = with_reduce_candidates(arena, items, x, k - 1, acc);
        if reduces_on(arena, items[k - 1], x) {
            known.push(reduce_candidate(arena, items[k - 1].production as int))
        } else {
            known
        }
    }
}

/// The candidates for the lookahead symbol `x`: the shift, where `x` can be
/// shifted, then the reductions, in the order of the items.
pub open spec fn candidates_for(
    arena: Seq<ParseProductionModel>,
    items: Seq<Item>,
    x: Symbol,
    shifts: bool,
) -> Seq<Candidate> {
    with_reduce_candidates(
        arena,
        items,
        x,
        items.len() as int,
        if shifts {
            seq![shift_candidate(arena, items, x, items.len() as int)]
        } else {
            Seq::empty()
        },
    )
}

/// Whether `item` takes part in the choice on `x`: `x` stands behind its
/// place, or it stands at its end before `x`.
pub open spec fn takes_part(arena: Seq<ParseProductionModel>, item: Item, x: Symbol) -> bool {
    symbol_after_dot(arena, item) == Some(x) || reduces_on(arena, item, x)
}

/// Whether the rule of each of the first `k` items that take part in the
/// choice on `x` is in `group`.
pub open spec fn all_in_group(
    arena: Seq<ParseProductionModel>,
    items: Seq<Item>,
    x: Symbol,
    group: Seq<Symbol>,
    k: int,
) -> bool
    decreases k,
{
    if k <= 0 {
        true
    } else {
        all_in_group(arena, items, x, group, k - 1) && (takes_part(arena, items[k - 1], x)
            ==> group.contains(
            Symbol {
                kind: SymbolType::NonTerminal,
                index: arena[items[k - 1].production as int].variable as usize,
            },
        ))
    }
}

/// Whether one of the first `c` groups of expected conflicts holds the rules
/// of all the items that take part in the choice on `x`.
pub open spec fn is_expected(
    arena: Seq<ParseProductionModel>,
    conflicts: Seq<Seq<Symbol>>,
    items: Seq<Item>,
    x: Symbol,
    c: int,
) -> bool
    decreases c,
{
    if c <= 0 {
        false
    } else {
        is_expected(arena, conflicts, items, x, c - 1) || all_in_group(
            arena,
            items,
            x,
            conflicts[c - 1],
            items.len() as int,
        )
    }
}

/// `sources` with `id`, added at the end unless it is there.
pub open spec fn sources_with(sources: Seq<ProductionId>, id: ProductionId) -> Seq<ProductionId> {
    if sources.contains(id) {
        sources
    } else {
        sources.push(id)
    }
}

/// The productions of the grammar that take part in the choice on `x` among
/// the first `k` items, each once, in the order of the items.
pub open spec fn conflict_sources(
    arena: Seq<ParseProductionModel>,
    items: Seq<Item>,
    x: Symbol,
    k: int,
) -> Seq<ProductionId>
    decreases k,
{
    if k <= 0 {
        Seq::empty()
    } else {
        let known = conflict_sources(arena, items, x, k - 1);
        if takes_part(arena, items[k - 1], x) {
            sources_with(known, arena[items[k - 1].production as int].source)
        } else {
            known
        }
    }
}

/// The action of a candidate: the shift to `target`, or the reduction by the
/// candidate's production; reducing by the production that starts the parse,
/// which is the last, is accepting.
pub open spec fn action_of(arena: Seq<ParseProductionModel>, candidate: Candidate, target: usize)
    -> ParseAction {
    match candidate.production {
        None => ParseAction::Shift(target),
        Some(p) => if p == arena.len() - 1 {
            ParseAction::Accept
        } else {
            ParseAction::Reduce {
                symbol: arena[p as int].variable as usize,
                child_count: arena[p as int].symbols.len() as usize,
                dynamic_precedence: arena[p as int].dynamic_precedence as i32,
                production: arena[p as int].source,
            }
        },
    }
}

/// The actions of all `candidates`, in order.
pub open spec fn actions_of(
    arena: Seq<ParseProductionModel>,
    candidates: Seq<Candidate>,
    target: usize,
) -> Seq<ParseAction> {
    Seq::new(candidates.len(), |i: int| action_of(arena, candidates[i], target))
}

/// The actions on the lookahead symbol `x` in a state with the items `items`,
/// where `target` is the state that follows the shift of `x`, if `x` can be
/// shifted. Where nothing settles the choice, the productions that take part
/// in it are the error.
pub open spec fn actions_on(
    arena: Seq<ParseProductionModel>,
    conflicts: Seq<Seq<Symbol>>,
    items: Seq<Item>,
    x: Symbol,
    target: Option<usize>,
) -> Result<Seq<ParseAction>, Seq<ProductionId>> {
    let candidates = candidates_for(arena, items, x, target is Some);
    let to = match target {
        Some(t) => t,
        None => 0,
    };
    let expected = is_expected(arena, conflicts, items, x, conflicts.len() as int);
    match decided(candidates, expected) {
        Decision::Take(i) => Ok(seq![action_of(arena, candidates[i as int], to)]),
        Decision::KeepAll => Ok(actions_of(arena, candidates, to)),
        Decision::Unresolved => Err(conflict_sources(arena, items, x, items.len() as int)),
    }
}

/// The candidate for shifting `x`.
fn make_shift_candidate(arena: &Vec<ParseProduction>, items: &Vec<Item>, x: Symbol) -> (c: Candidate)
    ensures
        c == shift_candidate(arena_model(arena@), items@, x, items@.len() as int),
{
    let ghost a = arena_model(arena@);
    let mut c = Candidate {
        production: None,
        major: i32::MIN,
        minor: 0,
        dynamic: i32::MIN,
        associativity: None,
    };
    let mut k: usize = 0;
    while k < items.len()
        invariant
            k <= items@.len(),
            a == arena_model(arena@),
            c == shift_candidate(a, items@, x, k as int),
        decreases items@.len() - k,
    {
        let item = items[k];
        match next_symbol(arena, &item) {
            Some(s) => {
                if s == x {
                    let production = &arena[item.production];
                    assert(a[item.production as int] == production@);
                    if item.step < production.places.len() {
                        let place = production.places[item.step];
                        let higher = place.0 > c.major || (place.0 == c.major && place.1 > c.minor);
                        c = Candidate {
                            production: None,
                            major: if higher {
                                place.0
                            } else {
                                c.major
                            },
                            minor: if higher {
                                place.1
                            } else {
                                c.minor
                            },
                            dynamic: if production.dynamic_precedence > c.dynamic {
                                production.dynamic_precedence
                            } else {
                                c.dynamic
                            },
                            associativity: None,
                        };
                    }
                }
            },
            None => {},
        }
        k += 1;
    }
    c
}

/// Whether `item` stands at the end of its production, before `x`.
fn item_reduces_on(arena: &Vec<ParseProduction>, item: &Item, x: Symbol) -> (r: bool)
    ensures
        r == reduces_on(arena_model(arena@), *item, x),
{
    if item.production < arena.len() {
        assert(arena_model(arena@)[item.production as int] == arena@[item.production as int]@);
        item.step == arena[item.production].symbols.len() && item.lookahead == x
    } else {
        false
    }
}

/// The candidate for reducing by the production numbered `p`.
fn make_reduce_candidate(arena: &Vec<ParseProduction>, p: usize) -> (c: Candidate)
    requires
        p < arena@.len(),
    ensures
        c == reduce_candidate(arena_model(arena@), p as int),
{
    let production = &arena[p];
    assert(arena_model(arena@)[p as int] == production@);
    let n = production.symbols.len();
    let stated = n > 0 && n == production.places.len() && n == production.associativities.len();
    Candidate {
        production: Some(p),
        major: if stated {
            production.places[n - 1].0
        } else {
            0
        },
        minor: if stated {
            production.places[n - 1].1
        } else {
            0
        },
        dynamic: production.dynamic_precedence,
        associativity: if stated {
            production.associativities[n - 1]
        } else {
            None
        },
    }
}

/// The candidates for the lookahead symbol `x`.
fn collect_candidates(arena: &Vec<ParseProduction>, items: &Vec<Item>, x: Symbol, shifts: bool)
    -> (candidates: Vec<Candidate>)
    ensures
        candidates@ == candidates_for(arena_model(arena@), items@, x, shifts),
{
    let ghost a = arena_model(arena@);
    let mut candidates: Vec<Candidate> = Vec::new();
    if shifts {
        candidates.push(make_shift_candidate(arena, items, x));
    }
    let ghost start = candidates@;
    assert(start =~= if shifts {
        seq![shift_candidate(a, items@, x, items@.len() as int)]
    } else {
        Seq::empty()
    });
    let mut k: usize = 0;
    while k < items.len()
        invariant
            k <= items@.len(),
            a == arena_model(arena@),
            candidates@ == with_reduce_candidates(a, items@, x, k as int, start),
        decreases items@.len() - k,
    {
        if item_reduces_on(arena, &items[k], x) {
            candidates.push(make_reduce_candidate(arena, items[k].production));
        }
        k += 1;
    }
    candidates
}

/// Whether `item` takes part in the choice on `x`.
fn item_takes_part(arena: &Vec<ParseProduction>, item: &Item, x: Symbol) -> (r: bool)
    ensures
        r == takes_part(arena_model(arena@), *item, x),
        r ==> item.production < arena@.len(),
{
    match next_symbol(arena, item) {
        Some(s) => s == x,
        None => item_reduces_on(arena, item, x),
    }
}

/// Whether `group` holds `symbol`.
fn group_contains(group: &Vec<Symbol>, symbol: Symbol) -> (r: bool)
    ensures
        r == group@.contains(symbol),
{
    let mut i: usize = 0;
    while i < group.len()
        invariant
            i <= group@.len(),
            forall|k: int| 0 <= k < i ==> group@[k] != symbol,
        decreases group@.len() - i,
    {
        if group[i] == symbol {
            return true;
        }
        i += 1;
    }
    false
}

pub proof fn lemma_not_in_group_stays(
    arena: Seq<ParseProductionModel>,
    items: Seq<Item>,
    x: Symbol,
    group: Seq<Symbol>,
    k: int,
    m: int,
)
    requires
        0 <= k <= m,
        !all_in_group(arena, items, x, group, k),
    ensures
        !all_in_group(arena, items, x, group, m),
    decreases m - k,
{
    if k < m {
        lemma_not_in_group_stays(arena, items, x, group, k, m - 1);
    }
}

pub proof fn lemma_expected_stays(
    arena: Seq<ParseProductionModel>,
    conflicts: Seq<Seq<Symbol>>,
    items: Seq<Item>,
    x: Symbol,
    c: int,
    m: int,
)
    requires
        0 <= c <= m,
        is_expected(arena, conflicts, items, x, c),
    ensures
        is_expected(arena, conflicts, items, x, m),
    decreases m - c,
{
    if c < m {
        lemma_expected_stays(arena, conflicts, items, x, c, m - 1);
    }
}

/// Whether the grammar expects the choice on `x`.
fn conflict_is_expected(
    arena: &Vec<ParseProduction>,
    conflicts: &Vec<Vec<Symbol>>,
    items: &Vec<Item>,
    x: Symbol,
) -> (r: bool)
    ensures
        r == is_expected(
            arena_model(arena@),
            crate::grammars::symbol_groups_model(conflicts@),
            items@,
            x,
            conflicts@.len() as int,
        ),
{
    let ghost a = arena_model(arena@);
    let ghost groups = crate::grammars::symbol_groups_model(conflicts@);
    let mut c: usize = 0;
    while c < conflicts.len()
        invariant
            c <= conflicts@.len(),
            a == arena_model(arena@),
            groups == crate::grammars::symbol_groups_model(conflicts@),
            !is_expected(a, groups, items@, x, c as int),
        decreases conflicts@.len() - c,
    {
        let group = &conflicts[c];
        assert(groups[c as int] == group@);
        let mut all = true;
        let mut k: usize = 0;
        while k < items.len() && all
            invariant
                k <= items@.len(),
                a == arena_model(arena@),
                all ==> all_in_group(a, items@, x, group@, k as int),
                !all ==> !all_in_group(a, items@, x, group@, items@.len() as int),
            decreases items@.len() - k, if all { 1int } else { 0int },
        {
            if item_takes_part(arena, &items[k], x) {
                let production = &arena[items[k].production];
                assert(a[items@[k as int].production as int] == production@);
                if !group_contains(group, Symbol::non_terminal(production.variable)) {
                    all = false;
                    proof {
                        assert(!all_in_group(a, items@, x, group@, k + 1));
                        lemma_not_in_group_stays(a, items@, x, group@, k + 1, items@.len() as int);
                    }
                }
            }
            k += 1;
        }
        if all {
            proof {
                assert(is_expected(a, groups, items@, x, c + 1));
                lemma_expected_stays(a, groups, items@, x, c + 1, groups.len() as int);
            }
            return true;
        }
        c += 1;
    }
    false
}

/// The productions of the grammar that take part in the choice on `x`.
fn collect_conflict_sources(arena: &Vec<ParseProduction>, items: &Vec<Item>, x: Symbol) -> (sources:
    Vec<ProductionId>)
    ensures
        sources@ == conflict_sources(arena_model(arena@), items@, x, items@.len() as int),
{
    let ghost a = arena_model(arena@);
    let mut sources: Vec<ProductionId> = Vec::new();
    let mut k: usize = 0;
    while k < items.len()
        invariant
            k <= items@.len(),
            a == arena_model(arena@),
            sources@ == conflict_sources(a, items@, x, k as int),
        decreases items@.len() - k,
    {
        if item_takes_part(arena, &items[k], x) {
            let production = &arena[items[k].production];
            assert(a[items@[k as int].production as int] == production@);
            let id = production.source;
            let mut seen = false;
            let mut i: usize = 0;
            while i < sources.len() && !seen
                invariant
                    i <= sources@.len(),
                    seen ==> sources@.contains(id),
                    !seen ==> forall|m: int| 0 <= m < i ==> sources@[m] != id,
                decreases sources@.len() - i,
            {
                if sources[i] == id {
                    seen = true;
                }
                i += 1;
            }
            if !seen {
                sources.push(id);
            }
        }
        k += 1;
    }
    sources
}

/// The action of a candidate.
fn make_action(arena: &Vec<ParseProduction>, candidate: &Candidate, target: usize) -> (action:
    ParseAction)
    requires
        candidate.production matches Some(p) ==> p < arena@.len(),
    ensures
        action == action_of(arena_model(arena@), *candidate, target),
{
    match candidate.production {
        None => ParseAction::Shift(target),
        Some(p) => {
            let production = &arena[p];
            assert(arena_model(arena@)[p as int] == production@);
            if p == arena.len() - 1 {
                ParseAction::Accept
            } else {
                ParseAction::Reduce {
                    symbol: production.variable,
                    child_count: production.symbols.len(),
                    dynamic_precedence: production.dynamic_precedence,
                    production: production.source,
                }
            }
        },
    }
}

/// The candidate for a shift names no production.
pub proof fn lemma_shift_candidate_shifts(
    arena: Seq<ParseProductionModel>,
    items: Seq<Item>,
    x: Symbol,
    k: int,
)
    ensures
        shift_candidate(arena, items, x, k).production is None,
    decreases k,
{
    if k > 0 {
        lemma_shift_candidate_shifts(arena, items, x, k - 1);
    }
}

/// Every reduction among the first `k` candidates names one of the
/// productions.
pub proof fn lemma_candidates_name_productions(
    arena: Seq<ParseProductionModel>,
    items: Seq<Item>,
    x: Symbol,
    k: int,
    acc: Seq<Candidate>,
)
    requires
        0 <= k <= items.len(),
        forall|i: int|
            0 <= i < acc.len() ==> ((#[trigger] acc[i]).production matches Some(p) ==> p
                < arena.len()),
    ensures
        forall|i: int|
            0 <= i < with_reduce_candidates(arena, items, x, k, acc).len() ==> ((
            #[trigger] with_reduce_candidates(arena, items, x, k, acc)[i]).production matches Some(
                p,
            ) ==> p < arena.len()),
    decreases k,
{
    if k > 0 {
        lemma_candidates_name_productions(arena, items, x, k - 1, acc);
    }
}

/// Settles the choice between the actions on the lookahead symbol `x`.
pub fn settle_actions(
    arena: &Vec<ParseProduction>,
    conflicts: &Vec<Vec<Symbol>>,
    items: &Vec<Item>,
    x: Symbol,
    target: Option<usize>,
) -> (r: Result<Vec<ParseAction>, Vec<ProductionId>>)
    ensures
        match actions_on(
            arena_model(arena@),
            crate::grammars::symbol_groups_model(conflicts@),
            items@,
            x,
            target,
        ) {
            Ok(actions) => r matches Ok(v) && v@ == actions,
            Err(sources) => r matches Err(v) && v@ == sources,
        },
{
    let ghost a = arena_model(arena@);
    let candidates = collect_candidates(arena, items, x, target.is_some());
    let to = match target {
        Some(t) => t,
        None => 0,
    };
    let expected = conflict_is_expected(arena, conflicts, items, x);
    proof {
        let start = if target is Some {
            seq![shift_candidate(a, items@, x, items@.len() as int)]
        } else {
            Seq::empty()
        };
        lemma_shift_candidate_shifts(a, items@, x, items@.len() as int);
        lemma_candidates_name_productions(a, items@, x, items@.len() as int, start);
    }
    proof {
        lemma_taken_is_a_candidate(candidates@, expected);
    }
    match decide(&candidates, expected) {
        Decision::Take(i) => {
            let mut actions: Vec<ParseAction> = Vec::new();
            actions.push(make_action(arena, &candidates[i], to));
            assert(actions@ =~= seq![action_of(a, candidates@[i as int], to)]);
            Ok(actions)
        },
        Decision::KeepAll => {
            let mut actions: Vec<ParseAction> = Vec::new();
            let mut i: usize = 0;
            while i < candidates.len()
                invariant
                    i <= candidates@.len(),
                    a == arena_model(arena@),
                    forall|k: int|
                        0 <= k < candidates@.len() ==> ((
                        #[trigger] candidates@[k]).production matches Some(p) ==> p < arena@.len()),
                    actions@.len() == i,
                    forall|k: int|
                        0 <= k < i ==> #[trigger] actions@[k] == action_of(a, candidates@[k], to),
                decreases candidates@.len() - i,
            {
                actions.push(make_action(arena, &candidates[i], to));
                i += 1;
            }
            assert(actions@ =~= actions_of(a, candidates@, to));
            Ok(actions)
        },
        Decision::Unresolved => Err(collect_conflict_sources(arena, items, x)),
    }
}

/// The candidate that is taken is one of the candidates.
pub proof fn lemma_taken_is_a_candidate(candidates: Seq<Candidate>, expected: bool)
    requires
        candidates.len() <= usize::MAX,
    ensures
        decided(candidates, expected) matches Decision::Take(i) ==> i < candidates.len(),
{
    let n = candidates.len() as int;
    if n >= 2 && !expected {
        crate::build_tables::conflicts::lemma_best_index(candidates, n);
        crate::build_tables::conflicts::lemma_two_ties(
            candidates,
            crate::build_tables::conflicts::best_index(candidates, n),
            n,
        );
    }
}

/// The state that follows `x` according to the first `k` transitions.
pub open spec fn target_of(transitions: Seq<(Symbol, usize)>, x: Symbol, k: int) -> Option<usize>
    decreases k,
{
    if k <= 0 {
        None
    } else {
        match target_of(transitions, x, k - 1) {
            Some(t) => Some(t),
            None => if transitions[k - 1].0 == x {
                Some(transitions[k - 1].1)
            } else {
                None
            },
        }
    }
}

/// For each rule that can be passed according to the first `k` transitions,
/// the state that follows.
pub open spec fn state_gotos(transitions: Seq<(Symbol, usize)>, k: int) -> Seq<(usize, usize)>
    decreases k,
{
    if k <= 0 {
        Seq::empty()
    } else {
        let known = state_gotos(transitions, k - 1);
        if transitions[k - 1].0.kind == SymbolType::NonTerminal {
            known.push((transitions[k - 1].0.index, transitions[k - 1].1))
        } else {
            known
        }
    }
}

/// Whether one of the first `k` entries is for the symbol `x`.
pub open spec fn entry_known(entries: Seq<ParseTableEntryModel>, x: Symbol, k: int) -> bool
    decreases k,
{
    if k <= 0 {
        false
    } else {
        entry_known(entries, x, k - 1) || entries[k - 1].symbol == x
    }
}

/// What is wrong where a choice stays unresolved: the lookahead symbol and
/// the productions that take part.
pub struct Unsettled {
    pub symbol: Symbol,
    pub sources: Seq<ProductionId>,
}

/// The entries with the entry for the lookahead symbol `x`, unless `x` is a
/// rule or has an entry.
pub open spec fn with_entry(
    arena: Seq<ParseProductionModel>,
    conflicts: Seq<Seq<Symbol>>,
    items: Seq<Item>,
    transitions: Seq<(Symbol, usize)>,
    entries: Seq<ParseTableEntryModel>,
    x: Symbol,
) -> Result<Seq<ParseTableEntryModel>, Unsettled> {
    if x.kind == SymbolType::NonTerminal || entry_known(entries, x, entries.len() as int) {
        Ok(entries)
    } else {
        match actions_on(
            arena,
            conflicts,
            items,
            x,
            target_of(transitions, x, transitions.len() as int),
        ) {
            Ok(actions) => Ok(entries.push(ParseTableEntryModel { symbol: x, actions })),
            Err(sources) => Err(Unsettled { symbol: x, sources }),
        }
    }
}

/// The entries for the symbols of the first `k` transitions.
pub open spec fn shift_entries(
    arena: Seq<ParseProductionModel>,
    conflicts: Seq<Seq<Symbol>>,
    items: Seq<Item>,
    transitions: Seq<(Symbol, usize)>,
    k: int,
) -> Result<Seq<ParseTableEntryModel>, Unsettled>
    decreases k,
{
    if k <= 0 {
        Ok(Seq::empty())
    } else {
        match shift_entries(arena, conflicts, items, transitions, k - 1) {
            Err(u) => Err(u),
            Ok(entries) => with_entry(
                arena,
                conflicts,
                items,
                transitions,
                entries,
                transitions[k - 1].0,
            ),
        }
    }
}

/// The entries with those for the lookahead symbols of the first `k` items
/// that stand at the end of their production.
pub open spec fn with_reduce_entries(
    arena: Seq<ParseProductionModel>,
    conflicts: Seq<Seq<Symbol>>,
    items: Seq<Item>,
    transitions: Seq<(Symbol, usize)>,
    entries: Seq<ParseTableEntryModel>,
    k: int,
) -> Result<Seq<ParseTableEntryModel>, Unsettled>
    decreases k,
{
    if k <= 0 {
        Ok(entries)
    } else {
        match with_reduce_entries(arena, conflicts, items, transitions, entries, k - 1) {
            Err(u) => Err(u),
            Ok(known) => if reduces_on(arena, items[k - 1], items[k - 1].lookahead) {
                with_entry(arena, conflicts, items, transitions, known, items[k - 1].lookahead)
            } else {
                Ok(known)
            },
        }
    }
}

/// The entries with an entry that shifts as an extra each of the first `k`
/// extras that is a token without an entry.
pub open spec fn with_extra_entries(
    extras: Seq<Symbol>,
    entries: Seq<ParseTableEntryModel>,
    k: int,
) -> Seq<ParseTableEntryModel>
    decreases k,
{
    if k <= 0 {
        entries
    } else {
        let known = with_extra_entries(extras, entries, k - 1);
        let x = extras[k - 1];
        if x.kind == SymbolType::NonTerminal || entry_known(known, x, known.len() as int) {
            known
        } else {
            known.push(ParseTableEntryModel { symbol: x, actions: seq![ParseAction::ShiftExtra] })
        }
    }
}

/// The state of the table for a state with the items `items` and the
/// transitions `transitions`: the entries for the symbols that can be
/// shifted, in the order of the transitions, then those for the symbols
/// before which a production ends, in the order of the items, then those for
/// the extras.
pub open spec fn table_state(
    arena: Seq<ParseProductionModel>,
    conflicts: Seq<Seq<Symbol>>,
    extras: Seq<Symbol>,
    items: Seq<Item>,
    transitions: Seq<(Symbol, usize)>,
) -> Result<ParseStateModel, Unsettled> {
    match shift_entries(arena, conflicts, items, transitions, transitions.len() as int) {
        Err(u) => Err(u),
        Ok(shifts) => match with_reduce_entries(
            arena,
            conflicts,
            items,
            transitions,
            shifts,
            items.len() as int,
        ) {
            Err(u) => Err(u),
            Ok(entries) => Ok(
                ParseStateModel {
                    entries: with_extra_entries(extras, entries, extras.len() as int),
                    gotos: state_gotos(transitions, transitions.len() as int),
                },
            ),
        },
    }
}

/// The first `k` states of the table, or the first state in which a choice
/// stays unresolved, with the symbol and the productions of that choice.
pub open spec fn table_states(
    arena: Seq<ParseProductionModel>,
    conflicts: Seq<Seq<Symbol>>,
    extras: Seq<Symbol>,
    automaton: AutomatonModel,
    k: int,
) -> Result<Seq<ParseStateModel>, (int, Unsettled)>
    decreases k,
{
    if k <= 0 {
        Ok(Seq::empty())
    } else {
        match table_states(arena, conflicts, extras, automaton, k - 1) {
            Err(e) => Err(e),
            Ok(states) => match table_state(
                arena,
                conflicts,
                extras,
                automaton.items[k - 1],
                automaton.transitions[k - 1],
            ) {
                Ok(state) => Ok(states.push(state)),
                Err(u) => Err((k - 1, u)),
            },
        }
    }
}

pub proof fn lemma_target_stays(transitions: Seq<(Symbol, usize)>, x: Symbol, k: int, m: int)
    requires
        0 <= k <= m,
        target_of(transitions, x, k) is Some,
    ensures
        target_of(transitions, x, m) == target_of(transitions, x, k),
    decreases m - k,
{
    if k < m {
        lemma_target_stays(transitions, x, k, m - 1);
    }
}

pub proof fn lemma_entry_known_stays(entries: Seq<ParseTableEntryModel>, x: Symbol, k: int, m: int)
    requires
        0 <= k <= m,
        entry_known(entries, x, k),
    ensures
        entry_known(entries, x, m),
    decreases m - k,
{
    if k < m {
        lemma_entry_known_stays(entries, x, k, m - 1);
    }
}

pub proof fn lemma_shift_entries_error_stays(
    arena: Seq<ParseProductionModel>,
    conflicts: Seq<Seq<Symbol>>,
    items: Seq<Item>,
    transitions: Seq<(Symbol, usize)>,
    k: int,
    m: int,
)
    requires
        0 <= k <= m,
        shift_entries(arena, conflicts, items, transitions, k) is Err,
    ensures
        shift_entries(arena, conflicts, items, transitions, m) == shift_entries(
            arena,
            conflicts,
            items,
            transitions,
            k,
        ),
    decreases m - k,
{
    if k < m {
        lemma_shift_entries_error_stays(arena, conflicts, items, transitions, k, m - 1);
    }
}

pub proof fn lemma_reduce_entries_error_stays(
    arena: Seq<ParseProductionModel>,
    conflicts: Seq<Seq<Symbol>>,
    items: Seq<Item>,
    transitions: Seq<(Symbol, usize)>,
    entries: Seq<ParseTableEntryModel>,
    k: int,
    m: int,
)
    requires
        0 <= k <= m,
        with_reduce_entries(arena, conflicts, items, transitions, entries, k) is Err,
    ensures
        with_reduce_entries(arena, conflicts, items, transitions, entries, m)
            == with_reduce_entries(arena, conflicts, items, transitions, entries, k),
    decreases m - k,
{
    if k < m {
        lemma_reduce_entries_error_stays(arena, conflicts, items, transitions, entries, k, m - 1);
    }
}

pub proof fn lemma_table_states_error_stays(
    arena: Seq<ParseProductionModel>,
    conflicts: Seq<Seq<Symbol>>,
    extras: Seq<Symbol>,
    automaton: AutomatonModel,
    k: int,
    m: int,
)
    requires
        0 <= k <= m,
        table_states(arena, conflicts, extras, automaton, k) is Err,
    ensures
        table_states(arena, conflicts, extras, automaton, m) == table_states(
            arena,
            conflicts,
            extras,
            automaton,
            k,
        ),
    decreases m - k,
{
    if k < m {
        lemma_table_states_error_stays(arena, conflicts, extras, automaton, k, m - 1);
    }
}

/// The state that follows `x`, if `x` can be shifted.
fn find_target(transitions: &Vec<(Symbol, usize)>, x: Symbol) -> (r: Option<usize>)
    ensures
        r == target_of(transitions@, x, transitions@.len() as int),
{
    let mut i: usize = 0;
    while i < transitions.len()
        invariant
            i <= transitions@.len(),
            target_of(transitions@, x, i as int) is None,
        decreases transitions@.len() - i,
    {
        if transitions[i].0 == x {
            proof {
                assert(target_of(transitions@, x, i + 1) == Some(transitions@[i as int].1));
                lemma_target_stays(transitions@, x, i + 1, transitions@.len() as int);
            }
            return Some(transitions[i].1);
        }
        i += 1;
    }
    None
}

/// Whether one of `entries` is for the symbol `x`.
fn has_entry(entries: &Vec<ParseTableEntry>, x: Symbol) -> (r: bool)
    ensures
        r == entry_known(entries_model(entries@), x, entries@.len() as int),
{
    let ghost e = entries_model(entries@);
    let mut i: usize = 0;
    while i < entries.len()
        invariant
            i <= entries@.len(),
            e == entries_model(entries@),
            !entry_known(e, x, i as int),
        decreases entries@.len() - i,
    {
        assert(e[i as int] == entries@[i as int]@);
        if entries[i].symbol == x {
            proof {
                assert(entry_known(e, x, i + 1));
                lemma_entry_known_stays(e, x, i + 1, e.len() as int);
            }
            return true;
        }
        i += 1;
    }
    false
}

/// Adds the entry for the lookahead symbol `x`, unless `x` is a rule or has
/// an entry.
fn add_entry(
    arena: &Vec<ParseProduction>,
    conflicts: &Vec<Vec<Symbol>>,
    items: &Vec<Item>,
    transitions: &Vec<(Symbol, usize)>,
    entries: &mut Vec<ParseTableEntry>,
    x: Symbol,
) -> (r: Result<(), (Symbol, Vec<ProductionId>)>)
    ensures
        match with_entry(
            arena_model(arena@),
            crate::grammars::symbol_groups_model(conflicts@),
            items@,
            transitions@,
            entries_model(old(entries)@),
            x,
        ) {
            Ok(wanted) => r is Ok && entries_model(final(entries)@) == wanted,
            Err(u) => r matches Err(e) && e.0 == u.symbol && e.1@ == u.sources,
        },
{
    if x.kind == SymbolType::NonTerminal || has_entry(entries, x) {
        return Ok(());
    }
    match settle_actions(arena, conflicts, items, x, find_target(transitions, x)) {
        Ok(actions) => {
            let ghost before = entries@;
            let entry = ParseTableEntry { symbol: x, actions };
            entries.push(entry);
            assert(entries_model(entries@) =~= entries_model(before).push(entry@));
            Ok(())
        },
        Err(sources) => Err((x, sources)),
    }
}

/// The state of the table for a state with the items `items` and the
/// transitions `transitions`.
fn build_state(
    arena: &Vec<ParseProduction>,
    conflicts: &Vec<Vec<Symbol>>,
    extras: &Vec<Symbol>,
    items: &Vec<Item>,
    transitions: &Vec<(Symbol, usize)>,
) -> (r: Result<ParseState, (Symbol, Vec<ProductionId>)>)
    ensures
        match table_state(
            arena_model(arena@),
            crate::grammars::symbol_groups_model(conflicts@),
            extras@,
            items@,
            transitions@,
        ) {
            Ok(wanted) => r matches Ok(state) && state@ == wanted,
            Err(u) => r matches Err(e) && e.0 == u.symbol && e.1@ == u.sources,
        },
{
    let ghost a = arena_model(arena@);
    let ghost groups = crate::grammars::symbol_groups_model(conflicts@);
    let mut entries: Vec<ParseTableEntry> = Vec::new();
    assert(entries_model(entries@) =~= Seq::empty());
    let mut k: usize = 0;
    while k < transitions.len()
        invariant
            k <= transitions@.len(),
            a == arena_model(arena@),
            groups == crate::grammars::symbol_groups_model(conflicts@),
            shift_entries(a, groups, items@, transitions@, k as int) == Ok::<
                Seq<ParseTableEntryModel>,
                Unsettled,
            >(entries_model(entries@)),
        decreases transitions@.len() - k,
    {
        let ghost before = entries_model(entries@);
        match add_entry(arena, conflicts, items, transitions, &mut entries, transitions[k].0) {
            Ok(()) => {},
            Err(e) => {
                proof {
                    let failure = with_entry(
                        a,
                        groups,
                        items@,
                        transitions@,
                        before,
                        transitions@[k as int].0,
                    );
                    assert(failure is Err);
                    assert(shift_entries(a, groups, items@, transitions@, k + 1) == failure);
                    lemma_shift_entries_error_stays(
                        a,
                        groups,
                        items@,
                        transitions@,
                        k + 1,
                        transitions@.len() as int,
                    );
                }
                return Err(e);
            },
        }
        k += 1;
    }
    let ghost shifts = entries_model(entries@);
    let mut j: usize = 0;
    while j < items.len()
        invariant
            j <= items@.len(),
            a == arena_model(arena@),
            groups == crate::grammars::symbol_groups_model(conflicts@),
            shift_entries(a, groups, items@, transitions@, transitions@.len() as int) == Ok::<
                Seq<ParseTableEntryModel>,
                Unsettled,
            >(shifts),
            with_reduce_entries(a, groups, items@, transitions@, shifts, j as int) == Ok::<
                Seq<ParseTableEntryModel>,
                Unsettled,
            >(entries_model(entries@)),
        decreases items@.len() - j,
    {
        let item = items[j];
        if item_reduces_on(arena, &item, item.lookahead) {
            let ghost before = entries_model(entries@);
            match add_entry(arena, conflicts, items, transitions, &mut entries, item.lookahead) {
                Ok(()) => {},
                Err(e) => {
                    proof {
                        let failure = with_entry(
                            a,
                            groups,
                            items@,
                            transitions@,
                            before,
                            item.lookahead,
                        );
                        assert(failure is Err);
                        assert(with_reduce_entries(a, groups, items@, transitions@, shifts, j + 1)
                            == failure);
                        lemma_reduce_entries_error_stays(
                            a,
                            groups,
                            items@,
                            transitions@,
                            shifts,
                            j + 1,
                            items@.len() as int,
                        );
                    }
                    return Err(e);
                },
            }
        }
        j += 1;
    }
    let ghost settled_entries = entries_model(entries@);
    let mut e: usize = 0;
    while e < extras.len()
        invariant
            e <= extras@.len(),
            entries_model(entries@) == with_extra_entries(extras@, settled_entries, e as int),
        decreases extras@.len() - e,
    {
        let x = extras[e];
        if !(x.kind == SymbolType::NonTerminal || has_entry(&entries, x)) {
            let ghost before = entries@;
            let mut actions: Vec<ParseAction> = Vec::new();
            actions.push(ParseAction::ShiftExtra);
            let entry = ParseTableEntry { symbol: x, actions };
            assert(entry@.actions =~= seq![ParseAction::ShiftExtra]);
            entries.push(entry);
            assert(entries_model(entries@) =~= entries_model(before).push(entry@));
        }
        e += 1;
    }
    let mut gotos: Vec<(usize, usize)> = Vec::new();
    let mut t: usize = 0;
    while t < transitions.len()
        invariant
            t <= transitions@.len(),
            gotos@ == state_gotos(transitions@, t as int),
        decreases transitions@.len() - t,
    {
        if transitions[t].0.kind == SymbolType::NonTerminal {
            gotos.push((transitions[t].0.index, transitions[t].1));
        }
        t += 1;
    }
    Ok(ParseState { entries, gotos })
}

/// The table for the states of `automaton`. Where a choice between actions
/// stays unresolved, the first state in which one does is returned with the
/// lookahead symbol and the productions of the grammar that take part.
pub fn build_parse_table(
    arena: &Vec<ParseProduction>,
    conflicts: &Vec<Vec<Symbol>>,
    extras: &Vec<Symbol>,
    automaton: &Automaton,
) -> (r: Result<ParseTable, (usize, Symbol, Vec<ProductionId>)>)
    requires
        automaton.kernels@.len() == automaton.items@.len(),
        automaton.transitions@.len() == automaton.items@.len(),
    ensures
        match table_states(
            arena_model(arena@),
            crate::grammars::symbol_groups_model(conflicts@),
            extras@,
            automaton@,
            automaton.items@.len() as int,
        ) {
            Ok(wanted) => r matches Ok(table) && table@ == wanted,
            Err((state, u)) => r matches Err(e) && e.0 == state && e.1 == u.symbol && e.2@
                == u.sources,
        },
{
    let ghost a = arena_model(arena@);
    let ghost groups = crate::grammars::symbol_groups_model(conflicts@);
    let ghost au = automaton@;
    let mut states: Vec<ParseState> = Vec::new();
    assert(parse_states_model(states@) =~= Seq::empty());
    let mut s: usize = 0;
    while s < automaton.items.len()
        invariant
            s <= automaton.items@.len(),
            automaton.transitions@.len() == automaton.items@.len(),
            a == arena_model(arena@),
            groups == crate::grammars::symbol_groups_model(conflicts@),
            au == automaton@,
            table_states(a, groups, extras@, au, s as int) == Ok::<
                Seq<ParseStateModel>,
                (int, Unsettled),
            >(parse_states_model(states@)),
        decreases automaton.items@.len() - s,
    {
        assert(au.items[s as int] == automaton.items@[s as int]@);
        assert(au.transitions[s as int] == automaton.transitions@[s as int]@);
        match build_state(arena, conflicts, extras, &automaton.items[s], &automaton.transitions[s]) {
            Ok(state) => {
                let ghost before = states@;
                states.push(state);
                assert(parse_states_model(states@) =~= parse_states_model(before).push(state@));
            },
            Err(e) => {
                proof {
                    let failure = table_state(
                        a,
                        groups,
                        extras@,
                        au.items[s as int],
                        au.transitions[s as int],
                    );
                    assert(failure is Err);
                    assert(table_states(a, groups, extras@, au, s + 1) == Err::<
                        Seq<ParseStateModel>,
                        (int, Unsettled),
                    >((s as int, failure->Err_0)));
                    lemma_table_states_error_stays(
                        a,
                        groups,
                        extras@,
                        au,
                        s + 1,
                        au.items.len() as int,
                    );
                }
                return Err((s, e.0, e.1));
            },
        }
        s += 1;
    }
    Ok(ParseTable { states })
}

} // verus!
