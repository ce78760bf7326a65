//! The states of the parser: the sets of items that the parser can be in,
//! found by following every symbol from the start.
use vstd::prelude::*;
use crate::build_tables::item_sets::{
    arena_model, close_items, closure_from, kernel_after, kernel_for, next_symbol, sort_items,
    sorted_items, symbol_after_dot, symbol_sets_model, Item, ParseProduction,
    ParseProductionModel,
};
use crate::rules::{Symbol, SymbolType};

verus! {

/// What the states are built from: the productions, and for each rule the
/// symbols with which its text can begin and whether its text can be empty.
pub struct BuildContext {
    pub arena: Vec<ParseProduction>,
    pub firsts: Vec<Vec<Symbol>>,
    pub nullable: Vec<bool>,
}

pub struct BuildContextModel {
    pub arena: Seq<ParseProductionModel>,
    pub firsts: Seq<Seq<Symbol>>,
    pub nullable: Seq<bool>,
}

impl View for BuildContext {
    type V = BuildContextModel;

    open spec fn view(&self) -> BuildContextModel {
        BuildContextModel {
            arena: arena_model(self.arena@),
            firsts: symbol_sets_model(self.firsts@),
            nullable: self.nullable@,
        }
    }
}

/// The states found so far. The state numbered `i` has the kernel
/// `kernels[i]` and the items `items[i]`, both in order; `transitions[i]`
/// lists, for each symbol that can be passed in it, the state that follows.
/// The transitions are known of the states that have been looked at, which
/// are the first ones.
pub struct Automaton {
    pub kernels: Vec<Vec<Item>>,
    pub items: Vec<Vec<Item>>,
    pub transitions: Vec<Vec<(Symbol, usize)>>,
}

pub struct AutomatonModel {
    pub kernels: Seq<Seq<Item>>,
    pub items: Seq<Seq<Item>>,
    pub transitions: Seq<Seq<(Symbol, usize)>>,
}

pub open spec fn item_lists_model(lists: Seq<Vec<Item>>) -> Seq<Seq<Item>> {
    Seq::new(lists.len(), |i: int| lists[i]@)
}

pub open spec fn transition_lists_model(lists: Seq<Vec<(Symbol, usize)>>) -> Seq<
    Seq<(Symbol, usize)>,
> {
    Seq::new(lists.len(), |i: int| lists[i]@)
}

impl View for Automaton {
    type V = AutomatonModel;

    open spec fn view(&self) -> AutomatonModel {
        AutomatonModel {
            kernels: item_lists_model(self.kernels@),
            items: item_lists_model(self.items@),
            transitions: transition_lists_model(self.transitions@),
        }
    }
}

/// The first among the first `k` states whose kernel is `kernel`.
pub open spec fn state_with_kernel(kernels: Seq<Seq<Item>>, kernel: Seq<Item>, k: int) -> Option<
    int,
>
    decreases k,
{
    if k <= 0 {
        None
    } else {
        match state_with_kernel(kernels, kernel, k - 1) {
            Some(i) => Some(i),
            None => if kernels[k - 1] == kernel {
                Some(k - 1)
            } else {
                None
            },
        }
    }
}

/// Whether one of the first `k` transitions is for the symbol `x`.
pub open spec fn has_transition(transitions: Seq<(Symbol, usize)>, x: Symbol, k: int) -> bool
    decreases k,
{
    if k <= 0 {
        false
    } else {
        has_transition(transitions, x, k - 1) || transitions[k - 1].0 == x
    }
}

/// The states and the transitions of the state `s` after the symbol `x` is
/// followed from `s`: the state whose kernel holds the items of `s` moved
/// past `x` is looked up, and added where it is new; the transition to it is
/// added.
pub open spec fn followed(
    ctx: BuildContextModel,
    kernels: Seq<Seq<Item>>,
    items: Seq<Seq<Item>>,
    transitions: Seq<(Symbol, usize)>,
    s: int,
    x: Symbol,
) -> Option<(Seq<Seq<Item>>, Seq<Seq<Item>>, Seq<(Symbol, usize)>)> {
    let kernel = kernel_for(ctx.arena, items[s], x, items[s].len() as int);
    match state_with_kernel(kernels, kernel, kernels.len() as int) {
        Some(t) => Some((kernels, items, transitions.push((x, t as usize)))),
        None => match closure_from(ctx.arena, ctx.firsts, ctx.nullable, kernel, 0) {
            None => None,
            Some(closed) => Some(
                (
                    kernels.push(kernel),
                    items.push(sorted_items(closed, closed.len() as int)),
                    transitions.push((x, kernels.len() as usize)),
                ),
            ),
        },
    }
}

/// The states and the transitions of the state `s` after the symbols behind
/// the places of its first `j` items are followed, each symbol once.
pub open spec fn looked_at(
    ctx: BuildContextModel,
    kernels: Seq<Seq<Item>>,
    items: Seq<Seq<Item>>,
    s: int,
    j: int,
) -> Option<(Seq<Seq<Item>>, Seq<Seq<Item>>, Seq<(Symbol, usize)>)>
    decreases j,
{
    if j <= 0 {
        Some((kernels, items, Seq::empty()))
    } else {
        match looked_at(ctx, kernels, items, s, j - 1) {
            None => None,
            Some((k1, i1, t1)) => match symbol_after_dot(ctx.arena, items[s][j - 1]) {
                None => Some((k1, i1, t1)),
                Some(x) => if has_transition(t1, x, t1.len() as int) {
                    Some((k1, i1, t1))
                } else if i1.len() != k1.len() || s >= i1.len() || i1[s] != items[s] {
                    None
                } else {
                    followed(ctx, k1, i1, t1, s, x)
                },
            },
        }
    }
}

/// All the states: the states from `s` on are looked at one after the other,
/// the ones they add included. Nothing is given where the states can no
/// longer be counted.
pub open spec fn discovered(ctx: BuildContextModel, automaton: AutomatonModel) -> Option<
    AutomatonModel,
>
    decreases usize::MAX - automaton.kernels.len(), automaton.kernels.len()
        - automaton.transitions.len(),
{
    let s = automaton.transitions.len() as int;
    if automaton.kernels.len() > usize::MAX || automaton.items.len() != automaton.kernels.len() {
        None
    } else if s >= automaton.kernels.len() {
        Some(automaton)
    } else {
        match looked_at(
            ctx,
            automaton.kernels,
            automaton.items,
            s,
            automaton.items[s].len() as int,
        ) {
            None => None,
            Some((kernels, items, t)) => if kernels.len() < automaton.kernels.len() || kernels.len()
                > usize::MAX {
                None
            } else {
                discovered(
                    ctx,
                    AutomatonModel {
                        kernels,
                        items,
                        transitions: automaton.transitions.push(t),
                    },
                )
            },
        }
    }
}

/// The item at the start of the production that starts the parse, which is
/// the last production, before the end of the input.
pub open spec fn start_item(ctx: BuildContextModel) -> Item {
    Item {
        production: (ctx.arena.len() - 1) as usize,
        step: 0,
        lookahead: Symbol { kind: SymbolType::End, index: 0 },
    }
}

/// The states of the parser: the first state holds the start item and what it
/// asks for; every other state is reached from an earlier one by a symbol.
pub open spec fn parse_states(ctx: BuildContextModel) -> Option<AutomatonModel> {
    let kernel = seq![start_item(ctx)];
    match closure_from(ctx.arena, ctx.firsts, ctx.nullable, kernel, 0) {
        None => None,
        Some(closed) => discovered(
            ctx,
            AutomatonModel {
                kernels: seq![kernel],
                items: seq![sorted_items(closed, closed.len() as int)],
                transitions: Seq::empty(),
            },
        ),
    }
}

pub proof fn lemma_state_with_kernel_stays(
    kernels: Seq<Seq<Item>>,
    kernel: Seq<Item>,
    k: int,
    m: int,
)
    requires
        0 <= k <= m,
        state_with_kernel(kernels, kernel, k) is Some,
    ensures
        state_with_kernel(kernels, kernel, m) == state_with_kernel(kernels, kernel, k),
    decreases m - k,
{
    if k < m {
        lemma_state_with_kernel_stays(kernels, kernel, k, m - 1);
    }
}

pub proof fn lemma_has_transition_stays(transitions: Seq<(Symbol, usize)>, x: Symbol, k: int, m: int)
    requires
        0 <= k <= m,
        has_transition(transitions, x, k),
    ensures
        has_transition(transitions, x, m),
    decreases m - k,
{
    if k < m {
        lemma_has_transition_stays(transitions, x, k, m - 1);
    }
}

/// Copies a list of items.
pub fn clone_items(items: &Vec<Item>) -> (out: Vec<Item>)
    ensures
        out@ == items@,
{
    let mut out: Vec<Item> = Vec::new();
    let mut i: usize = 0;
    while i < items.len()
        invariant
            i <= items@.len(),
            out@ == items@.take(i as int),
        decreases items@.len() - i,
    {
        out.push(items[i]);
        assert(out@ =~= items@.take(i + 1));
        i += 1;
    }
    assert(items@.take(items@.len() as int) =~= items@);
    out
}

/// Whether two lists of items are the same list.
pub fn same_items(a: &Vec<Item>, b: &Vec<Item>) -> (r: bool)
    ensures
        r == (a@ == b@),
{
    if a.len() != b.len() {
        return false;
    }
    let mut i: usize = 0;
    while i < a.len()
        invariant
            i <= a@.len(),
            a@.len() == b@.len(),
            forall|k: int| 0 <= k < i ==> a@[k] == b@[k],
        decreases a@.len() - i,
    {
        if a[i] != b[i] {
            return false;
        }
        i += 1;
    }
    assert(a@ =~= b@);
    true
}

/// The first state whose kernel is `kernel`.
fn find_state(kernels: &Vec<Vec<Item>>, kernel: &Vec<Item>) -> (r: Option<usize>)
    ensures
        match state_with_kernel(item_lists_model(kernels@), kernel@, kernels@.len() as int) {
            Some(t) => r == Some(t as usize) && 0 <= t < kernels@.len(),
            None => r is None,
        },
{
    let ghost ks = item_lists_model(kernels@);
    let mut i: usize = 0;
    while i < kernels.len()
        invariant
            i <= kernels@.len(),
            ks == item_lists_model(kernels@),
            state_with_kernel(ks, kernel@, i as int) is None,
        decreases kernels@.len() - i,
    {
        assert(ks[i as int] == kernels@[i as int]@);
        if same_items(&kernels[i], kernel) {
            proof {
                assert(state_with_kernel(ks, kernel@, i + 1) == Some(i as int));
                lemma_state_with_kernel_stays(ks, kernel@, i + 1, ks.len() as int);
            }
            return Some(i);
        }
        i += 1;
    }
    None
}

/// Whether one of `transitions` is for the symbol `x`.
fn transition_exists(transitions: &Vec<(Symbol, usize)>, x: Symbol) -> (r: bool)
    ensures
        r == has_transition(transitions@, x, transitions@.len() as int),
{
    let mut i: usize = 0;
    while i < transitions.len()
        invariant
            i <= transitions@.len(),
            !has_transition(transitions@, x, i as int),
        decreases transitions@.len() - i,
    {
        if transitions[i].0 == x {
            proof {
                assert(has_transition(transitions@, x, i + 1));
                lemma_has_transition_stays(transitions@, x, i + 1, transitions@.len() as int);
            }
            return true;
        }
        i += 1;
    }
    false
}

/// Finds all the states of the parser.
pub fn discover_states(ctx: &BuildContext) -> (r: Option<Automaton>)
    requires
        ctx.arena@.len() > 0,
    ensures
        match parse_states(ctx@) {
            Some(wanted) => r matches Some(automaton) && automaton@ == wanted
                && automaton.kernels@.len() == automaton.items@.len()
                && automaton.transitions@.len() == automaton.kernels@.len(),
            None => r is None,
        },
{
    let ghost c = ctx@;
    let start = Item { production: ctx.arena.len() - 1, step: 0, lookahead: Symbol::end() };
    let mut kernel: Vec<Item> = Vec::new();
    kernel.push(start);
    assert(kernel@ =~= seq![start_item(c)]);
    let mut closed = clone_items(&kernel);
    if !close_items(&ctx.arena, &ctx.firsts, &ctx.nullable, &mut closed) {
        return None;
    }
    let mut automaton = Automaton {
        kernels: Vec::new(),
        items: Vec::new(),
        transitions: Vec::new(),
    };
    automaton.kernels.push(kernel);
    automaton.items.push(sort_items(&closed));
    assert(automaton@.kernels =~= seq![seq![start_item(c)]]);
    assert(automaton@.items =~= seq![sorted_items(closed@, closed@.len() as int)]);
    assert(automaton@.transitions =~= Seq::empty());
    let ghost wanted = parse_states(c);
    let mut s: usize = 0;
    while s < automaton.kernels.len()
        invariant
            c == ctx@,
            s == automaton.transitions@.len(),
            s <= automaton.kernels@.len(),
            automaton.kernels@.len() == automaton.items@.len(),
            wanted == parse_states(c),
            wanted == discovered(c, automaton@),
        decreases usize::MAX - automaton.kernels@.len(), automaton.kernels@.len() - s,
    {
        let ghost before = automaton@;
        let state_count = automaton.kernels.len();
        let items = clone_items(&automaton.items[s]);
        assert(before.items[s as int] == items@);
        let mut transitions: Vec<(Symbol, usize)> = Vec::new();
        let mut j: usize = 0;
        while j < items.len()
            invariant
                j <= items@.len(),
                c == ctx@,
                s < before.kernels.len(),
                before.items.len() == before.kernels.len(),
                before.items[s as int] == items@,
                automaton.kernels@.len() == automaton.items@.len(),
                automaton.kernels@.len() >= before.kernels.len(),
                automaton@.items[s as int] == items@,
                automaton@.transitions == before.transitions,
                s == before.transitions.len(),
                before.kernels.len() <= usize::MAX,
                wanted == discovered(c, before),
                wanted == parse_states(c),
                looked_at(c, before.kernels, before.items, s as int, j as int) == Some(
                    (automaton@.kernels, automaton@.items, transitions@),
                ),
            decreases items@.len() - j,
        {
            match next_symbol(&ctx.arena, &items[j]) {
                None => {},
                Some(x) => {
                    if !transition_exists(&transitions, x) {
                        let kernel = kernel_after(&ctx.arena, &items, x);
                        let ghost k1 = automaton@.kernels;
                        let ghost i1 = automaton@.items;
                        let ghost t1 = transitions@;
                        match find_state(&automaton.kernels, &kernel) {
                            Some(t) => {
                                transitions.push((x, t));
                            },
                            None => {
                                let mut closed = clone_items(&kernel);
                                if !close_items(&ctx.arena, &ctx.firsts, &ctx.nullable, &mut closed) {
                                    proof {
                                        assert(followed(c, k1, i1, t1, s as int, x) is None);
                                        lemma_looked_at_failure_stays(
                                            c,
                                            before.kernels,
                                            before.items,
                                            s as int,
                                            j + 1,
                                            items@.len() as int,
                                        );
                                    }
                                    return None;
                                }
                                let t = automaton.kernels.len();
                                let sorted = sort_items(&closed);
                                let ghost known_kernels = automaton.kernels@;
                                let ghost known_items = automaton.items@;
                                automaton.kernels.push(kernel);
                                automaton.items.push(sorted);
                                transitions.push((x, t));
                                assert(item_lists_model(automaton.kernels@) =~= k1.push(kernel@));
                                assert(item_lists_model(automaton.items@) =~= i1.push(sorted@));
                            },
                        }
                    }
                },
            }
            j += 1;
        }
        let ghost known = automaton.transitions@;
        let ghost t = transitions@;
        automaton.transitions.push(transitions);
        assert(automaton@.transitions =~= before.transitions.push(t));
        let n = automaton.kernels.len();
        s += 1;
    }
    Some(automaton)
}

pub proof fn lemma_looked_at_failure_stays(
    ctx: BuildContextModel,
    kernels: Seq<Seq<Item>>,
    items: Seq<Seq<Item>>,
    s: int,
    j: int,
    m: int,
)
    requires
        0 <= j <= m,
        looked_at(ctx, kernels, items, s, j) is None,
    ensures
        looked_at(ctx, kernels, items, s, m) is None,
    decreases m - j,
{
    if j < m {
        lemma_looked_at_failure_stays(ctx, kernels, items, s, j, m - 1);
    }
}

} // verus!
