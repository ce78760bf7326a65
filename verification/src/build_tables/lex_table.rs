//! The table of the lexer: a deterministic automaton whose states are sets
//! of states of the tokens' automaton.
use vstd::prelude::*;
use crate::grammars::{LexicalVariable, LexicalVariableModel};
use crate::nfa::{
    holds, range_lists_model, states_model, CharRange, CharacterSet, CharacterSetModel, NfaState,
    NfaStateModel,
};
use crate::prepare_grammar::expand_tokens::lexical_variables_model;
use crate::tables::{lex_states_model, LexState, LexStateModel, LexTable};

verus! {

/// `ids` with `id`, added at the end unless it is there.
pub open spec fn ids_with(ids: Seq<u32>, id: u32) -> Seq<u32> {
    if ids.contains(id) {
        ids
    } else {
        ids.push(id)
    }
}

/// `ids` with the states that the state at `i` leads to without reading.
pub open spec fn expanded_state(nfa: Seq<NfaStateModel>, ids: Seq<u32>, i: int) -> Seq<u32> {
    if ids[i] < nfa.len() {
        match nfa[ids[i] as int] {
            NfaStateModel::Split { left_state, right_state } => ids_with(
                ids_with(ids, left_state as u32),
                right_state as u32,
            ),
            _ => ids,
        }
    } else {
        ids
    }
}

/// `ids` with every state that is reached from one of them without reading:
/// the states from `i` on are expanded one after the other, the ones they add
/// included.
pub open spec fn reached_without_reading(nfa: Seq<NfaStateModel>, ids: Seq<u32>, i: int) -> Seq<
    u32,
>
    decreases usize::MAX - ids.len(), ids.len() - i,
{
    if ids.len() > usize::MAX || i < 0 || i >= ids.len() {
        ids
    } else {
        let next = expanded_state(nfa, ids, i);
        if next.len() < ids.len() || next.len() > usize::MAX {
            ids
        } else {
            reached_without_reading(nfa, next, i + 1)
        }
    }
}

/// The first place at or behind `j` whose number is not below `id`.
pub open spec fn id_position(ids: Seq<u32>, id: u32, j: int) -> int
    decreases ids.len() - j,
{
    if j < 0 || j >= ids.len() {
        ids.len() as int
    } else if ids[j] < id {
        id_position(ids, id, j + 1)
    } else {
        j
    }
}

/// The ordered list `ids` with `id` at its place, unless it is there.
pub open spec fn sorted_id_with(ids: Seq<u32>, id: u32) -> Seq<u32> {
    let pos = id_position(ids, id, 0);
    if pos < ids.len() && ids[pos] == id {
        ids
    } else {
        ids.insert(pos, id)
    }
}

/// The first `k` of `ids` in order, each once.
pub open spec fn sorted_ids(ids: Seq<u32>, k: int) -> Seq<u32>
    decreases k,
{
    if k <= 0 {
        Seq::empty()
    } else {
        sorted_id_with(sorted_ids(ids, k - 1), ids[k - 1])
    }
}

/// The set of states, in order, in which the lexer is once it is in one of
/// `ids`.
pub open spec fn state_set(nfa: Seq<NfaStateModel>, ids: Seq<u32>) -> Seq<u32> {
    let all = reached_without_reading(nfa, ids, 0);
    sorted_ids(all, all.len() as int)
}

/// Whether accepting the token `a` with the precedence `pa` is preferred to
/// accepting `b` with `pb`: by the precedence of acceptance, then by the rank
/// of the token, then by the order of the tokens.
pub open spec fn preferred(
    tokens: Seq<LexicalVariableModel>,
    a: usize,
    pa: int,
    b: usize,
    pb: int,
) -> bool {
    let rank_a = if a < tokens.len() {
        tokens[a as int].implicit_precedence
    } else {
        0
    };
    let rank_b = if b < tokens.len() {
        tokens[b as int].implicit_precedence
    } else {
        0
    };
    pa > pb || (pa == pb && (rank_a > rank_b || (rank_a == rank_b && a < b)))
}

/// The token accepted in the first `k` states of `set`, with the precedence
/// of its acceptance, if one is accepted.
pub open spec fn accepted(
    nfa: Seq<NfaStateModel>,
    tokens: Seq<LexicalVariableModel>,
    set: Seq<u32>,
    k: int,
) -> Option<(usize, int)>
    decreases k,
{
    if k <= 0 {
        None
    } else {
        let known = accepted(nfa, tokens, set, k - 1);
        if set[k - 1] < nfa.len() {
            match nfa[set[k - 1] as int] {
                NfaStateModel::Accept { variable_index, precedence } => match known {
                    None => Some((variable_index as usize, precedence)),
                    Some((b, pb)) => if preferred(
                        tokens,
                        variable_index as usize,
                        precedence,
                        b,
                        pb,
                    ) {
                        Some((variable_index as usize, precedence))
                    } else {
                        known
                    },
                },
                _ => known,
            }
        } else {
            known
        }
    }
}

/// `acc` with the ends of the first `k` of `ranges`.
pub open spec fn with_range_bounds(ranges: Seq<CharRange>, k: int, acc: Seq<u32>) -> Seq<u32>
    decreases k,
{
    if k <= 0 {
        acc
    } else {
        sorted_id_with(
            sorted_id_with(with_range_bounds(ranges, k - 1, acc), ranges[k - 1].start),
            ranges[k - 1].end,
        )
    }
}

/// `acc` with the ends of the ranges of the first `k` of `lists`.
pub open spec fn with_list_bounds(lists: Seq<Seq<CharRange>>, k: int, acc: Seq<u32>) -> Seq<u32>
    decreases k,
{
    if k <= 0 {
        acc
    } else {
        with_range_bounds(
            lists[k - 1],
            lists[k - 1].len() as int,
            with_list_bounds(lists, k - 1, acc),
        )
    }
}

/// The code points at which membership in a set read in one of the first `k`
/// states of `set` can change, in order, with the first and the one behind
/// the last code point.
pub open spec fn bounds(nfa: Seq<NfaStateModel>, set: Seq<u32>, k: int) -> Seq<u32>
    decreases k,
{
    if k <= 0 {
        seq![0u32, 0x110000u32]
    } else {
        let known = bounds(nfa, set, k - 1);
        if set[k - 1] < nfa.len() {
            match nfa[set[k - 1] as int] {
                NfaStateModel::Advance { chars, .. } => with_list_bounds(
                    chars.complements,
                    chars.complements.len() as int,
                    with_range_bounds(chars.ranges, chars.ranges.len() as int, known),
                ),
                _ => known,
            }
        } else {
            known
        }
    }
}

/// The states to which the first `k` states of `set` lead on reading the
/// code point `c`.
pub open spec fn targets_on(nfa: Seq<NfaStateModel>, set: Seq<u32>, c: u32, k: int) -> Seq<u32>
    decreases k,
{
    if k <= 0 {
        Seq::empty()
    } else {
        let known = targets_on(nfa, set, c, k - 1);
        if set[k - 1] < nfa.len() {
            match nfa[set[k - 1] as int] {
                NfaStateModel::Advance { chars, state_id, .. } => if holds(chars, c as int) {
                    ids_with(known, state_id as u32)
                } else {
                    known
                },
                _ => known,
            }
        } else {
            known
        }
    }
}

/// The first among the first `k` sets that is `set`.
pub open spec fn set_index(sets: Seq<Seq<u32>>, set: Seq<u32>, k: int) -> Option<int>
    decreases k,
{
    if k <= 0 {
        None
    } else {
        match set_index(sets, set, k - 1) {
            Some(i) => Some(i),
            None => if sets[k - 1] == set {
                Some(k - 1)
            } else {
                None
            },
        }
    }
}

/// The transitions with one for `range` to the state `t`; where the last
/// transition leads to `t` and ends where `range` begins, it is made longer
/// instead.
pub open spec fn with_transition(transitions: Seq<(CharRange, usize)>, range: CharRange, t: usize)
    -> Seq<(CharRange, usize)> {
    if transitions.len() > 0 && transitions.last().1 == t && transitions.last().0.end
        == range.start {
        transitions.update(
            transitions.len() - 1,
            (CharRange { start: transitions.last().0.start, end: range.end }, t),
        )
    } else {
        transitions.push((range, t))
    }
}

/// The sets and the transitions of the set `set` after the code points of
/// `range` are followed: the set of the states they lead to is looked up, and
/// added where it is new.
pub open spec fn read(
    nfa: Seq<NfaStateModel>,
    sets: Seq<Seq<u32>>,
    transitions: Seq<(CharRange, usize)>,
    set: Seq<u32>,
    range: CharRange,
) -> (Seq<Seq<u32>>, Seq<(CharRange, usize)>) {
    let targets = targets_on(nfa, set, range.start, set.len() as int);
    if targets.len() == 0 {
        (sets, transitions)
    } else {
        let next = state_set(nfa, targets);
        match set_index(sets, next, sets.len() as int) {
            Some(t) => (sets, with_transition(transitions, range, t as usize)),
            None => (sets.push(next), with_transition(transitions, range, sets.len() as usize)),
        }
    }
}

/// The sets and the transitions of `set` after the first `j` spans between
/// the code points of `points` are followed.
pub open spec fn read_spans(
    nfa: Seq<NfaStateModel>,
    sets: Seq<Seq<u32>>,
    set: Seq<u32>,
    points: Seq<u32>,
    j: int,
) -> (Seq<Seq<u32>>, Seq<(CharRange, usize)>)
    decreases j,
{
    if j <= 0 {
        (sets, Seq::empty())
    } else {
        let (s1, t1) = read_spans(nfa, sets, set, points, j - 1);
        read(nfa, s1, t1, set, CharRange { start: points[j - 1], end: points[j] })
    }
}

/// All the sets with their transitions: the sets whose transitions are not
/// known yet are looked at one after the other, the ones they add included.
pub open spec fn all_sets(
    nfa: Seq<NfaStateModel>,
    sets: Seq<Seq<u32>>,
    transitions: Seq<Seq<(CharRange, usize)>>,
) -> (Seq<Seq<u32>>, Seq<Seq<(CharRange, usize)>>)
    decreases usize::MAX - sets.len(), sets.len() - transitions.len(),
{
    let s = transitions.len() as int;
    if sets.len() > usize::MAX || s >= sets.len() {
        (sets, transitions)
    } else {
        let points = bounds(nfa, sets[s], sets[s].len() as int);
        let (next, t) = read_spans(nfa, sets, sets[s], points, points.len() - 1);
        if next.len() < sets.len() || next.len() > usize::MAX {
            (sets, transitions)
        } else {
            all_sets(nfa, next, transitions.push(t))
        }
    }
}

/// The state of the table for the set `set` with the transitions
/// `transitions`.
pub open spec fn lex_state(
    nfa: Seq<NfaStateModel>,
    tokens: Seq<LexicalVariableModel>,
    set: Seq<u32>,
    transitions: Seq<(CharRange, usize)>,
) -> LexStateModel {
    LexStateModel {
        accept: match accepted(nfa, tokens, set, set.len() as int) {
            Some((token, _)) => Some(token),
            None => None,
        },
        transitions,
    }
}

/// The table of a lexer that starts in the states `starts`: its first state
/// is the set of the states in which the lexer is at the start; every other
/// state is the set of states reached from an earlier one by reading a
/// character. A state accepts the token that is preferred among the tokens
/// accepted in its set.
pub open spec fn lex_table(
    nfa: Seq<NfaStateModel>,
    tokens: Seq<LexicalVariableModel>,
    starts: Seq<u32>,
) -> Seq<LexStateModel> {
    let (sets, transitions) = all_sets(nfa, seq![state_set(nfa, starts)], Seq::empty());
    Seq::new(
        sets.len(),
        |i: int|
            lex_state(
                nfa,
                tokens,
                sets[i],
                if i < transitions.len() {
                    transitions[i]
                } else {
                    Seq::empty()
                },
            ),
    )
}

/// Adds `id` behind `ids` unless it is there.
pub fn add_id(ids: &mut Vec<u32>, id: u32)
    ensures
        final(ids)@ == ids_with(old(ids)@, id),
        final(ids)@.len() >= old(ids)@.len(),
{
    let mut i: usize = 0;
    while i < ids.len()
        invariant
            i <= ids@.len(),
            ids@ == old(ids)@,
            forall|k: int| 0 <= k < i ==> ids@[k] != id,
        decreases ids@.len() - i,
    {
        if ids[i] == id {
            assert(ids@.contains(id));
            return ;
        }
        i += 1;
    }
    assert(!ids@.contains(id));
    ids.push(id);
}

/// Puts `id` at its place in the ordered list `ids`, unless it is there.
pub fn insert_id(ids: &mut Vec<u32>, id: u32)
    ensures
        final(ids)@ == sorted_id_with(old(ids)@, id),
{
    let ghost wanted = id_position(ids@, id, 0);
    let mut j: usize = 0;
    while j < ids.len() && ids[j] < id
        invariant
            j <= ids@.len(),
            ids@ == old(ids)@,
            wanted == id_position(ids@, id, j as int),
        decreases ids@.len() - j,
    {
        j += 1;
    }
    if j < ids.len() && ids[j] == id {
        return ;
    }
    ids.insert(j, id);
}

/// The set of states, in order, in which the lexer is once it is in one of
/// `ids`.
pub fn close_states(nfa: &Vec<NfaState>, ids: Vec<u32>) -> (set: Vec<u32>)
    ensures
        set@ == state_set(states_model(nfa@), ids@),
{
    let ghost n = states_model(nfa@);
    let ghost wanted = reached_without_reading(n, ids@, 0);
    let mut all = ids;
    let mut i: usize = 0;
    while i < all.len()
        invariant
            n == states_model(nfa@),
            wanted == reached_without_reading(n, all@, i as int),
        decreases usize::MAX - all@.len(), all@.len() - i,
    {
        let id = all[i];
        if (id as usize) < nfa.len() {
            assert(n[id as int] == nfa@[id as int]@);
            match &nfa[id as usize] {
                NfaState::Split { left_state, right_state } => {
                    add_id(&mut all, *left_state);
                    add_id(&mut all, *right_state);
                },
                _ => {},
            }
        }
        let count = all.len();
        i += 1;
    }
    let count = all.len();
    let mut set: Vec<u32> = Vec::new();
    let mut k: usize = 0;
    while k < all.len()
        invariant
            k <= all@.len(),
            set@ == sorted_ids(all@, k as int),
        decreases all@.len() - k,
    {
        insert_id(&mut set, all[k]);
        k += 1;
    }
    set
}

/// The token accepted in the states of `set`, if one is.
fn accepted_token(nfa: &Vec<NfaState>, tokens: &Vec<LexicalVariable>, set: &Vec<u32>) -> (r:
    Option<usize>)
    ensures
        r == match accepted(
            states_model(nfa@),
            lexical_variables_model(tokens@),
            set@,
            set@.len() as int,
        ) {
            Some((token, _)) => Some(token),
            None => None,
        },
{
    let ghost n = states_model(nfa@);
    let ghost t = lexical_variables_model(tokens@);
    let mut best: Option<(usize, i32)> = None;
    let mut k: usize = 0;
    while k < set.len()
        invariant
            k <= set@.len(),
            n == states_model(nfa@),
            t == lexical_variables_model(tokens@),
            match accepted(n, t, set@, k as int) {
                Some((token, p)) => best == Some((token, p as i32)) && i32::MIN <= p <= i32::MAX,
                None => best is None,
            },
        decreases set@.len() - k,
    {
        let id = set[k];
        if (id as usize) < nfa.len() {
            assert(n[id as int] == nfa@[id as int]@);
            match &nfa[id as usize] {
                NfaState::Accept { variable_index, precedence } => {
                    match best {
                        None => {
                            best = Some((*variable_index, *precedence));
                        },
                        Some((b, pb)) => {
                            let rank_a = if *variable_index < tokens.len() {
                                assert(t[*variable_index as int] == tokens@[*variable_index as int]@);
                                tokens[*variable_index].implicit_precedence
                            } else {
                                0
                            };
                            let rank_b = if b < tokens.len() {
                                assert(t[b as int] == tokens@[b as int]@);
                                tokens[b].implicit_precedence
                            } else {
                                0
                            };
                            if *precedence > pb || (*precedence == pb && (rank_a > rank_b || (rank_a
                                == rank_b && *variable_index < b))) {
                                best = Some((*variable_index, *precedence));
                            }
                        },
                    }
                },
                _ => {},
            }
        }
        k += 1;
    }
    match best {
        Some((token, _)) => Some(token),
        None => None,
    }
}

/// Adds the ends of `ranges` to the ordered list `points`.
fn add_range_bounds(ranges: &Vec<CharRange>, points: &mut Vec<u32>)
    ensures
        final(points)@ == with_range_bounds(ranges@, ranges@.len() as int, old(points)@),
{
    let mut k: usize = 0;
    while k < ranges.len()
        invariant
            k <= ranges@.len(),
            points@ == with_range_bounds(ranges@, k as int, old(points)@),
        decreases ranges@.len() - k,
    {
        insert_id(points, ranges[k].start);
        insert_id(points, ranges[k].end);
        k += 1;
    }
}

/// The code points at which membership in a set read in `set` can change.
fn collect_bounds(nfa: &Vec<NfaState>, set: &Vec<u32>) -> (points: Vec<u32>)
    ensures
        points@ == bounds(states_model(nfa@), set@, set@.len() as int),
{
    let ghost n = states_model(nfa@);
    let mut points: Vec<u32> = Vec::new();
    points.push(0);
    points.push(0x110000);
    assert(points@ =~= seq![0u32, 0x110000u32]);
    let mut k: usize = 0;
    while k < set.len()
        invariant
            k <= set@.len(),
            n == states_model(nfa@),
            points@ == bounds(n, set@, k as int),
        decreases set@.len() - k,
    {
        let id = set[k];
        if (id as usize) < nfa.len() {
            assert(n[id as int] == nfa@[id as int]@);
            match &nfa[id as usize] {
                NfaState::Advance { chars, .. } => {
                    add_range_bounds(&chars.ranges, &mut points);
                    let ghost lists = chars@.complements;
                    let ghost start = points@;
                    let mut c: usize = 0;
                    while c < chars.complements.len()
                        invariant
                            c <= chars.complements@.len(),
                            lists == range_lists_model(chars.complements@),
                            points@ == with_list_bounds(lists, c as int, start),
                        decreases chars.complements@.len() - c,
                    {
                        assert(lists[c as int] == chars.complements@[c as int]@);
                        add_range_bounds(&chars.complements[c], &mut points);
                        c += 1;
                    }
                },
                _ => {},
            }
        }
        k += 1;
    }
    points
}

/// The states to which the states of `set` lead on reading the code point
/// `c`.
pub fn collect_targets(nfa: &Vec<NfaState>, set: &Vec<u32>, c: u32) -> (targets: Vec<u32>)
    ensures
        targets@ == targets_on(states_model(nfa@), set@, c, set@.len() as int),
{
    let ghost n = states_model(nfa@);
    let mut targets: Vec<u32> = Vec::new();
    let mut k: usize = 0;
    while k < set.len()
        invariant
            k <= set@.len(),
            n == states_model(nfa@),
            targets@ == targets_on(n, set@, c, k as int),
        decreases set@.len() - k,
    {
        let id = set[k];
        if (id as usize) < nfa.len() {
            assert(n[id as int] == nfa@[id as int]@);
            match &nfa[id as usize] {
                NfaState::Advance { chars, state_id, .. } => {
                    if chars.contains_code(c) {
                        add_id(&mut targets, *state_id);
                    }
                },
                _ => {},
            }
        }
        k += 1;
    }
    targets
}

pub open spec fn id_lists_model(lists: Seq<Vec<u32>>) -> Seq<Seq<u32>> {
    Seq::new(lists.len(), |i: int| lists[i]@)
}

pub open spec fn transition_lists_model(lists: Seq<Vec<(CharRange, usize)>>) -> Seq<
    Seq<(CharRange, usize)>,
> {
    Seq::new(lists.len(), |i: int| lists[i]@)
}

pub proof fn lemma_set_index_stays(sets: Seq<Seq<u32>>, set: Seq<u32>, k: int, m: int)
    requires
        0 <= k <= m,
        set_index(sets, set, k) is Some,
    ensures
        set_index(sets, set, m) == set_index(sets, set, k),
    decreases m - k,
{
    if k < m {
        lemma_set_index_stays(sets, set, k, m - 1);
    }
}

/// Whether two lists of numbers are the same list.
fn same_ids(a: &Vec<u32>, b: &Vec<u32>) -> (r: bool)
    ensures
        r == (a@ == b@),
{
    if a.len() != b.len() {
        return false;
    }
    let mut i: usize = 0;
    while i < a.len()
        invariant
            i <= a@.len(),
            a@.len() == b@.len(),
            forall|k: int| 0 <= k < i ==> a@[k] == b@[k],
        decreases a@.len() - i,
    {
        if a[i] != b[i] {
            return false;
        }
        i += 1;
    }
    assert(a@ =~= b@);
    true
}

/// The first set that is `set`.
fn find_set(sets: &Vec<Vec<u32>>, set: &Vec<u32>) -> (r: Option<usize>)
    ensures
        match set_index(id_lists_model(sets@), set@, sets@.len() as int) {
            Some(t) => r == Some(t as usize) && 0 <= t < sets@.len(),
            None => r is None,
        },
{
    let ghost all = id_lists_model(sets@);
    let mut i: usize = 0;
    while i < sets.len()
        invariant
            i <= sets@.len(),
            all == id_lists_model(sets@),
            set_index(all, set@, i as int) is None,
        decreases sets@.len() - i,
    {
        assert(all[i as int] == sets@[i as int]@);
        if same_ids(&sets[i], set) {
            proof {
                assert(set_index(all, set@, i + 1) == Some(i as int));
                lemma_set_index_stays(all, set@, i + 1, all.len() as int);
            }
            return Some(i);
        }
        i += 1;
    }
    None
}

/// Adds a transition for `range` to the state `t`.
fn add_transition(transitions: &mut Vec<(CharRange, usize)>, range: CharRange, t: usize)
    ensures
        final(transitions)@ == with_transition(old(transitions)@, range, t),
{
    let n = transitions.len();
    if n > 0 && transitions[n - 1].1 == t && transitions[n - 1].0.end == range.start {
        let start = transitions[n - 1].0.start;
        transitions.set(n - 1, (CharRange { start, end: range.end }, t));
    } else {
        transitions.push((range, t));
    }
}

/// Copies a list of numbers.
fn clone_ids(ids: &Vec<u32>) -> (out: Vec<u32>)
    ensures
        out@ == ids@,
{
    let mut out: Vec<u32> = Vec::new();
    let mut i: usize = 0;
    while i < ids.len()
        invariant
            i <= ids@.len(),
            out@ == ids@.take(i as int),
        decreases ids@.len() - i,
    {
        out.push(ids[i]);
        assert(out@ =~= ids@.take(i + 1));
        i += 1;
    }
    assert(ids@.take(ids@.len() as int) =~= ids@);
    out
}

/// Builds the table of a lexer that starts in the states `starts`.
pub fn build_lex_table(nfa: &Vec<NfaState>, tokens: &Vec<LexicalVariable>, starts: Vec<u32>) -> (table:
    LexTable)
    ensures
        table@ == lex_table(states_model(nfa@), lexical_variables_model(tokens@), starts@),
{
    let ghost n = states_model(nfa@);
    let ghost tk = lexical_variables_model(tokens@);
    let ghost wanted = all_sets(n, seq![state_set(n, starts@)], Seq::empty());
    let mut sets: Vec<Vec<u32>> = Vec::new();
    sets.push(close_states(nfa, starts));
    let mut transitions: Vec<Vec<(CharRange, usize)>> = Vec::new();
    assert(id_lists_model(sets@) =~= seq![state_set(n, starts@)]);
    assert(transition_lists_model(transitions@) =~= Seq::empty());
    let mut s: usize = 0;
    while s < sets.len()
        invariant
            n == states_model(nfa@),
            s == transitions@.len(),
            s <= sets@.len(),
            wanted == all_sets(n, id_lists_model(sets@), transition_lists_model(transitions@)),
        decreases usize::MAX - sets@.len(), sets@.len() - s,
    {
        let ghost before = id_lists_model(sets@);
        let ghost known = transition_lists_model(transitions@);
        let count = sets.len();
        let set = clone_ids(&sets[s]);
        assert(before[s as int] == set@);
        let points = collect_bounds(nfa, &set);
        let mut found: Vec<(CharRange, usize)> = Vec::new();
        let mut j: usize = 1;
        if points.len() > 0 {
            while j < points.len()
                invariant
                    1 <= j <= points@.len(),
                    n == states_model(nfa@),
                    sets@.len() >= before.len(),
                    (id_lists_model(sets@), found@) == read_spans(n, before, set@, points@, j - 1),
                decreases points@.len() - j,
            {
                let range = CharRange { start: points[j - 1], end: points[j] };
                let targets = collect_targets(nfa, &set, range.start);
                if targets.len() > 0 {
                    let next = close_states(nfa, targets);
                    match find_set(&sets, &next) {
                        Some(t) => {
                            add_transition(&mut found, range, t);
                        },
                        None => {
                            let t = sets.len();
                            let ghost sets_before = sets@;
                            sets.push(next);
                            assert(id_lists_model(sets@) =~= id_lists_model(sets_before).push(next@));
                            add_transition(&mut found, range, t);
                        },
                    }
                }
                j += 1;
            }
        }
        let ghost t = found@;
        let ghost old_transitions = transitions@;
        transitions.push(found);
        assert(transition_lists_model(transitions@) =~= known.push(t));
        let total = sets.len();
        proof {
            if points@.len() == 0 {
                assert(read_spans(n, before, set@, points@, points@.len() - 1) == (
                    before,
                    Seq::<(CharRange, usize)>::empty(),
                ));
            }
        }
        s += 1;
    }
    let total = sets.len();
    let mut states: Vec<LexState> = Vec::new();
    let mut i: usize = 0;
    while i < sets.len()
        invariant
            i <= sets@.len(),
            transitions@.len() == sets@.len(),
            n == states_model(nfa@),
            tk == lexical_variables_model(tokens@),
            states@.len() == i,
            forall|k: int|
                0 <= k < i ==> (#[trigger] states@[k])@ == lex_state(
                    n,
                    tk,
                    sets@[k]@,
                    transitions@[k]@,
                ),
        decreases sets@.len() - i,
    {
        let mut copy: Vec<(CharRange, usize)> = Vec::new();
        let mut c: usize = 0;
        while c < transitions[i].len()
            invariant
                i < transitions@.len(),
                c <= transitions@[i as int]@.len(),
                copy@ == transitions@[i as int]@.take(c as int),
            decreases transitions@[i as int]@.len() - c,
        {
            copy.push(transitions[i][c]);
            assert(copy@ =~= transitions@[i as int]@.take(c + 1));
            c += 1;
        }
        assert(transitions@[i as int]@.take(transitions@[i as int]@.len() as int)
            =~= transitions@[i as int]@);
        states.push(LexState { accept: accepted_token(nfa, tokens, &sets[i]), transitions: copy });
        i += 1;
    }
    let table = LexTable { states };
    assert(table@ =~= lex_table(n, tk, starts@));
    table
}

} // verus!
