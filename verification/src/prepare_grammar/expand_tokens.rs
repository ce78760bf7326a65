//! Builds the lexer's automaton: each token's rule becomes a chain of states
//! that ends in the token's accept state.
//!
//! The automaton is built from the back: a pattern is given the state that
//! follows it and yields the state at which it is entered. The states of one
//! token stand together, and the token starts at the last of them.
use vstd::prelude::*;
use crate::error::{CompileError, CompileErrorModel};
use crate::grammars::{
    has_owner, start_states, variables_model, LexicalGrammar, LexicalVariable,
    LexicalVariableModel, Variable, VariableModel,
};
use crate::nfa::{
    states_model, states_well_formed, state_targets_below, CharacterSet, CharacterSetModel, Nfa,
    NfaState, NfaStateModel,
};
use crate::pattern::{
    letter_set, parse_pattern, parsed, pattern_models, set_for_letter, Pattern, PatternModel,
};
use crate::rules::{rule_models, Precedence, PrecedenceModel, Rule, RuleModel};
use crate::text::string_chars;

verus! {

/// The characters of a literal, each as the set of that one character.
pub open spec fn literal_items(s: Seq<char>) -> Seq<PatternModel> {
    Seq::new(s.len(), |i: int| PatternModel::Chars(letter_set(s[i], false)))
}

/// The pattern of a token's rule. A literal is the sequence of its
/// characters; a written pattern is read, ignoring case where its flags hold
/// an `i`; metadata with a numeric precedence ranks what it wraps; what
/// cannot stand in a token matches the empty text.
pub open spec fn token_pattern(rule: RuleModel) -> PatternModel
    decreases rule, 0nat,
{
    match rule {
        RuleModel::String(s) => PatternModel::Concat(literal_items(s)),
        RuleModel::Pattern(p, flags) => parsed(p, flags.contains('i')),
        RuleModel::Choice(rs) => PatternModel::Alternation(token_patterns(rs)),
        RuleModel::Sequence(rs) => PatternModel::Concat(token_patterns(rs)),
        RuleModel::Repeat(inner) => PatternModel::Star(Box::new(token_pattern(*inner))),
        RuleModel::Metadata { params, rule } => match params.precedence {
            PrecedenceModel::Integer(n) => PatternModel::Ranked(n, Box::new(token_pattern(*rule))),
            _ => token_pattern(*rule),
        },
        _ => PatternModel::Empty,
    }
}

pub open spec fn token_patterns(rules: Seq<RuleModel>) -> Seq<PatternModel>
    decreases rules, 1nat,
{
    Seq::new(
        rules.len(),
        |i: int|
            if 0 <= i < rules.len() {
                token_pattern(rules[i])
            } else {
                PatternModel::Empty
            },
    )
}

/// The rank of a token among tokens that match the same text: a literal
/// ranks above a pattern.
pub open spec fn implicit_precedence(rule: RuleModel) -> int
    decreases rule,
{
    match rule {
        RuleModel::String(_) => 2,
        RuleModel::Metadata { rule, .. } => implicit_precedence(*rule),
        _ => 0,
    }
}

/// The precedence with which a token is accepted: the numeric precedence
/// that its rule states at the top, or zero.
pub open spec fn completion_precedence(rule: RuleModel) -> int {
    match rule {
        RuleModel::Metadata { params, .. } => match params.precedence {
            PrecedenceModel::Integer(n) => n,
            _ => 0,
        },
        _ => 0,
    }
}

/// `states` with one state more; nothing where the states could no longer be
/// numbered.
pub open spec fn pushed(states: Seq<NfaStateModel>, state: NfaStateModel) -> Option<
    Seq<NfaStateModel>,
> {
    if states.len() < u32::MAX {
        Some(states.push(state))
    } else {
        None
    }
}

/// A state that is overwritten once what follows it is known.
pub open spec fn placeholder() -> NfaStateModel {
    NfaStateModel::Accept { variable_index: 0, precedence: 0 }
}

/// The states after `p` is built in front of the state `next`, and the state
/// at which `p` is entered.
pub open spec fn built(p: PatternModel, next: int, precedence: int, states: Seq<NfaStateModel>)
    -> Option<(Seq<NfaStateModel>, int)>
    decreases p, 0nat, 0nat,
{
    match p {
        PatternModel::Empty => Some((states, next)),
        PatternModel::Chars(chars) => match pushed(
            states,
            NfaStateModel::Advance { chars, state_id: next, is_sep: false, precedence },
        ) {
            Some(s) => Some((s, s.len() - 1)),
            None => None,
        },
        PatternModel::Concat(items) => built_sequence(
            items,
            items.len() as int,
            next,
            precedence,
            states,
        ),
        PatternModel::Alternation(items) => built_choice(
            items,
            items.len() as int,
            next,
            precedence,
            states,
            None,
        ),
        PatternModel::Star(inner) => match pushed(states, placeholder()) {
            None => None,
            Some(s1) => {
                let split = s1.len() - 1;
                match built(*inner, split, precedence, s1) {
                    None => None,
                    Some((s2, entry)) => Some(
                        (
                            s2.update(
                                split,
                                NfaStateModel::Split { left_state: entry, right_state: next },
                            ),
                            split,
                        ),
                    ),
                }
            },
        },
        PatternModel::Plus(inner) => match pushed(states, placeholder()) {
            None => None,
            Some(s1) => {
                let split = s1.len() - 1;
                match built(*inner, split, precedence, s1) {
                    None => None,
                    Some((s2, entry)) => Some(
                        (
                            s2.update(
                                split,
                                NfaStateModel::Split { left_state: entry, right_state: next },
                            ),
                            entry,
                        ),
                    ),
                }
            },
        },
        PatternModel::Optional(inner) => match built(*inner, next, precedence, states) {
            None => None,
            Some((s1, entry)) => match pushed(
                s1,
                NfaStateModel::Split { left_state: entry, right_state: next },
            ) {
                Some(s2) => Some((s2, s2.len() - 1)),
                None => None,
            },
        },
        PatternModel::Ranked(n, inner) => built(*inner, next, n, states),
    }
}

/// The states after the first `k` of `items` are built, last first, each in
/// front of the one built before it.
pub open spec fn built_sequence(
    items: Seq<PatternModel>,
    k: int,
    next: int,
    precedence: int,
    states: Seq<NfaStateModel>,
) -> Option<(Seq<NfaStateModel>, int)>
    decreases items, 1nat, k,
{
    if k <= 0 || k > items.len() {
        Some((states, next))
    } else {
        match built(items[k - 1], next, precedence, states) {
            None => None,
            Some((s1, entry)) => built_sequence(items, k - 1, entry, precedence, s1),
        }
    }
}

/// The states after the first `k` of `items` are built, last first, each in
/// front of `next`, and joined by states that split between them. `entry` is
/// the state at which the alternatives built so far are entered.
pub open spec fn built_choice(
    items: Seq<PatternModel>,
    k: int,
    next: int,
    precedence: int,
    states: Seq<NfaStateModel>,
    entry: Option<int>,
) -> Option<(Seq<NfaStateModel>, int)>
    decreases items, 1nat, k,
{
    if k <= 0 || k > items.len() {
        Some(
            (
                states,
                match entry {
                    Some(e) => e,
                    None => next,
                },
            ),
        )
    } else {
        match built(items[k - 1], next, precedence, states) {
            None => None,
            Some((s1, first)) => match entry {
                None => built_choice(items, k - 1, next, precedence, s1, Some(first)),
                Some(other) => match pushed(
                    s1,
                    NfaStateModel::Split { left_state: first, right_state: other },
                ) {
                    None => None,
                    Some(s2) => built_choice(
                        items,
                        k - 1,
                        next,
                        precedence,
                        s2,
                        Some(s2.len() - 1),
                    ),
                },
            },
        }
    }
}

/// The automaton and the tokens after the token `v`, numbered `index`, is
/// added: its accept state, then the states of its pattern, then, where the
/// pattern is not entered at the state built last, a state that leads there.
pub open spec fn with_token(
    states: Seq<NfaStateModel>,
    tokens: Seq<LexicalVariableModel>,
    v: VariableModel,
    index: int,
) -> Option<(Seq<NfaStateModel>, Seq<LexicalVariableModel>)> {
    match pushed(
        states,
        NfaStateModel::Accept {
            variable_index: index,
            precedence: completion_precedence(v.rule),
        },
    ) {
        None => None,
        Some(s1) => match built(token_pattern(v.rule), s1.len() - 1, 0, s1) {
            None => None,
            Some((s2, entry)) => {
                let s3 = if entry == s2.len() - 1 {
                    Some(s2)
                } else {
                    pushed(s2, NfaStateModel::Split { left_state: entry, right_state: entry })
                };
                match s3 {
                    None => None,
                    Some(s3) => Some(
                        (
                            s3,
                            tokens.push(
                                LexicalVariableModel {
                                    name: v.name,
                                    kind: v.kind,
                                    implicit_precedence: implicit_precedence(v.rule),
                                    start_state: s3.len() - 1,
                                },
                            ),
                        ),
                    ),
                }
            },
        },
    }
}

/// The automaton and the tokens after the first `k` tokens are added.
pub open spec fn token_automaton(vars: Seq<VariableModel>, k: int) -> Option<
    (Seq<NfaStateModel>, Seq<LexicalVariableModel>),
>
    decreases k,
{
    if k <= 0 {
        Some((Seq::empty(), Seq::empty()))
    } else {
        match token_automaton(vars, k - 1) {
            None => None,
            Some((states, tokens)) => with_token(states, tokens, vars[k - 1], k - 1),
        }
    }
}

pub open spec fn lexical_variables_model(tokens: Seq<LexicalVariable>) -> Seq<
    LexicalVariableModel,
> {
    Seq::new(tokens.len(), |i: int| tokens[i]@)
}

/// The patterns of `rules`.
fn rules_to_patterns(rules: &Vec<Rule>) -> (out: Vec<Pattern>)
    ensures
        pattern_models(out@) == token_patterns(rule_models(rules@)),
    decreases *rules, 1nat,
{
    let mut out: Vec<Pattern> = Vec::new();
    let mut i: usize = 0;
    while i < rules.len()
        invariant
            i <= rules@.len(),
            out@.len() == i,
            forall|k: int| 0 <= k < i ==> (#[trigger] out@[k])@ == token_pattern(rules@[k]@),
        decreases rules@.len() - i,
    {
        out.push(rule_to_pattern(&rules[i]));
        i += 1;
    }
    assert(pattern_models(out@) =~= token_patterns(rule_models(rules@)));
    out
}

/// Whether `flags` holds an `i`.
fn flags_ignore_case(flags: &String) -> (b: bool)
    ensures
        b == flags@.contains('i'),
{
    let chars = string_chars(flags);
    let mut i: usize = 0;
    while i < chars.len()
        invariant
            i <= chars@.len(),
            chars@ == flags@,
            forall|k: int| 0 <= k < i ==> chars@[k] != 'i',
        decreases chars@.len() - i,
    {
        if chars[i] == 'i' {
            assert(flags@[i as int] == 'i');
            return true;
        }
        i += 1;
    }
    false
}

/// The pattern of a token's rule.
pub fn rule_to_pattern(rule: &Rule) -> (p: Pattern)
    ensures
        p@ == token_pattern(rule@),
    decreases *rule, 0nat,
{
    match rule {
        Rule::String(s) => {
            let chars = string_chars(s);
            let mut items: Vec<Pattern> = Vec::new();
            let mut i: usize = 0;
            while i < chars.len()
                invariant
                    i <= chars@.len(),
                    chars@ == s@,
                    items@.len() == i,
                    forall|k: int|
                        0 <= k < i ==> (#[trigger] items@[k])@ == PatternModel::Chars(
                            letter_set(s@[k], false),
                        ),
                decreases chars@.len() - i,
            {
                items.push(Pattern::Chars(set_for_letter(chars[i], false)));
                i += 1;
            }
            assert(pattern_models(items@) =~= literal_items(s@));
            Pattern::Concat(items)
        },
        Rule::Pattern(p, flags) => {
            let chars = string_chars(p);
            parse_pattern(&chars, flags_ignore_case(flags))
        },
        Rule::Choice(rs) => {
            assert(rule@->Choice_0 == rule_models(rs@));
            Pattern::Alternation(rules_to_patterns(rs))
        },
        Rule::Sequence(rs) => {
            assert(rule@->Sequence_0 == rule_models(rs@));
            Pattern::Concat(rules_to_patterns(rs))
        },
        Rule::Repeat(inner) => Pattern::Star(Box::new(rule_to_pattern(&**inner))),
        Rule::Metadata { params, rule: inner } => {
            let inside = rule_to_pattern(&**inner);
            match &params.precedence {
                Precedence::Integer(n) => Pattern::Ranked(*n, Box::new(inside)),
                _ => inside,
            }
        },
        _ => Pattern::Empty,
    }
}

/// The rank of a token among tokens that match the same text.
pub fn implicit_precedence_of(rule: &Rule) -> (n: i32)
    ensures
        n as int == implicit_precedence(rule@),
    decreases *rule,
{
    match rule {
        Rule::String(_) => 2,
        Rule::Metadata { rule, .. } => implicit_precedence_of(&**rule),
        _ => 0,
    }
}

/// The precedence with which a token is accepted.
pub fn completion_precedence_of(rule: &Rule) -> (n: i32)
    ensures
        n as int == completion_precedence(rule@),
{
    match rule {
        Rule::Metadata { params, .. } => match &params.precedence {
            Precedence::Integer(n) => *n,
            _ => 0,
        },
        _ => 0,
    }
}

/// Adds `state` behind the states; the number of the new state is returned.
fn push_state(states: &mut Vec<NfaState>, state: NfaState) -> (r: Option<u32>)
    requires
        old(states)@.len() <= u32::MAX,
        states_well_formed(states_model(old(states)@)),
        state_targets_below(state@, old(states)@.len() as int),
    ensures
        match pushed(states_model(old(states)@), state@) {
            Some(s) => r == Some((s.len() - 1) as u32) && states_model(final(states)@) == s
                && final(states)@.len() == old(states)@.len() + 1 && final(states)@.len()
                <= u32::MAX && states_well_formed(s),
            None => r is None,
        },
{
    let n = states.len();
    if n < u32::MAX as usize {
        let ghost before = states_model(states@);
        states.push(state);
        assert(states_model(states@) =~= before.push(state@));
        Some(n as u32)
    } else {
        None
    }
}

/// What holds of the states where a build succeeds: the states wanted, with
/// the entry wanted among them, no fewer than before, all numbered and with
/// successors among the states.
pub open spec fn build_succeeds(
    wanted: Option<(Seq<NfaStateModel>, int)>,
    r: Option<u32>,
    before: Seq<NfaState>,
    after: Seq<NfaState>,
) -> bool {
    match wanted {
        Some((s, entry)) => r == Some(entry as u32) && 0 <= entry < s.len() && states_model(after)
            == s && after.len() >= before.len() && after.len() <= u32::MAX && states_well_formed(
            s,
        ),
        None => r is None,
    }
}

/// Builds the first `k` of `items`, last first, each in front of the one
/// built before it.
fn build_sequence(items: &Vec<Pattern>, next: u32, precedence: i32, states: &mut Vec<NfaState>)
    -> (r: Option<u32>)
    requires
        next < old(states)@.len(),
        old(states)@.len() <= u32::MAX,
        states_well_formed(states_model(old(states)@)),
    ensures
        build_succeeds(
            built_sequence(
                pattern_models(items@),
                items@.len() as int,
                next as int,
                precedence as int,
                states_model(old(states)@),
            ),
            r,
            old(states)@,
            final(states)@,
        ),
    decreases *items, 1nat, 0nat,
{
    let ghost src = pattern_models(items@);
    let ghost wanted = built_sequence(
        src,
        items@.len() as int,
        next as int,
        precedence as int,
        states_model(states@),
    );
    let mut entry = next;
    let mut k = items.len();
    while k > 0
        invariant
            k <= items@.len(),
            src == pattern_models(items@),
            entry < states@.len(),
            states@.len() <= u32::MAX,
            states@.len() >= old(states)@.len(),
            states_well_formed(states_model(states@)),
            wanted == built_sequence(
                src,
                items@.len() as int,
                next as int,
                precedence as int,
                states_model(old(states)@),
            ),
            wanted == built_sequence(
                src,
                k as int,
                entry as int,
                precedence as int,
                states_model(states@),
            ),
        decreases k,
    {
        assert(src[k - 1] == items@[k - 1]@);
        let ghost known = states_model(states@);
        match build_pattern(&items[k - 1], entry, precedence, states) {
            None => {
                assert(built(src[k - 1], entry as int, precedence as int, known) is None);
                assert(wanted is None);
                return None;
            },
            Some(e) => {
                entry = e;
            },
        }
        k -= 1;
    }
    Some(entry)
}

/// Builds `items`, last first, each in front of `next`, and joins them.
fn build_choice(items: &Vec<Pattern>, next: u32, precedence: i32, states: &mut Vec<NfaState>)
    -> (r: Option<u32>)
    requires
        next < old(states)@.len(),
        old(states)@.len() <= u32::MAX,
        states_well_formed(states_model(old(states)@)),
    ensures
        build_succeeds(
            built_choice(
                pattern_models(items@),
                items@.len() as int,
                next as int,
                precedence as int,
                states_model(old(states)@),
                None,
            ),
            r,
            old(states)@,
            final(states)@,
        ),
    decreases *items, 1nat, 0nat,
{
    let ghost src = pattern_models(items@);
    let ghost wanted = built_choice(
        src,
        items@.len() as int,
        next as int,
        precedence as int,
        states_model(states@),
        None,
    );
    let mut entry: Option<u32> = None;
    let mut k = items.len();
    while k > 0
        invariant
            k <= items@.len(),
            src == pattern_models(items@),
            next < states@.len(),
            entry matches Some(e) ==> e < states@.len(),
            states@.len() <= u32::MAX,
            states@.len() >= old(states)@.len(),
            states_well_formed(states_model(states@)),
            wanted == built_choice(
                src,
                items@.len() as int,
                next as int,
                precedence as int,
                states_model(old(states)@),
                None,
            ),
            wanted == built_choice(
                src,
                k as int,
                next as int,
                precedence as int,
                states_model(states@),
                match entry {
                    Some(e) => Some(e as int),
                    None => None,
                },
            ),
        decreases k,
    {
        assert(src[k - 1] == items@[k - 1]@);
        let ghost known = states_model(states@);
        match build_pattern(&items[k - 1], next, precedence, states) {
            None => {
                assert(built(src[k - 1], next as int, precedence as int, known) is None);
                assert(wanted is None);
                return None;
            },
            Some(first) => {
                match entry {
                    None => {
                        entry = Some(first);
                    },
                    Some(other) => {
                        let ghost built_one = states_model(states@);
                        match push_state(
                            states,
                            NfaState::Split { left_state: first, right_state: other },
                        ) {
                            None => {
                                assert(built(src[k - 1], next as int, precedence as int, known)
                                    == Some((built_one, first as int)));
                                assert(wanted is None);
                                return None;
                            },
                            Some(id) => {
                                entry = Some(id);
                            },
                        }
                    },
                }
            },
        }
        k -= 1;
    }
    match entry {
        Some(e) => Some(e),
        None => Some(next),
    }
}

/// Builds the states of `p` in front of the state `next`. The state at which
/// `p` is entered is returned; nothing where the states could no longer be
/// numbered.
pub fn build_pattern(p: &Pattern, next: u32, precedence: i32, states: &mut Vec<NfaState>) -> (r:
    Option<u32>)
    requires
        next < old(states)@.len(),
        old(states)@.len() <= u32::MAX,
        states_well_formed(states_model(old(states)@)),
    ensures
        build_succeeds(
            built(p@, next as int, precedence as int, states_model(old(states)@)),
            r,
            old(states)@,
            final(states)@,
        ),
    decreases *p, 0nat, 0nat,
{
    match p {
        Pattern::Empty => Some(next),
        Pattern::Chars(chars) => push_state(
            states,
            NfaState::Advance { chars: chars.clone(), state_id: next, is_sep: false, precedence },
        ),
        Pattern::Concat(items) => {
            assert(p@->Concat_0 == pattern_models(items@));
            build_sequence(items, next, precedence, states)
        },
        Pattern::Alternation(items) => {
            assert(p@->Alternation_0 == pattern_models(items@));
            build_choice(items, next, precedence, states)
        },
        Pattern::Star(inner) => {
            match push_state(states, NfaState::Accept { variable_index: 0, precedence: 0 }) {
                None => None,
                Some(split) => {
                    match build_pattern(&**inner, split, precedence, states) {
                        None => None,
                        Some(entry) => {
                            let ghost known = states_model(states@);
                            let state = NfaState::Split { left_state: entry, right_state: next };
                            states.set(split as usize, state);
                            assert(states_model(states@) =~= known.update(split as int, state@));
                            Some(split)
                        },
                    }
                },
            }
        },
        Pattern::Plus(inner) => {
            match push_state(states, NfaState::Accept { variable_index: 0, precedence: 0 }) {
                None => None,
                Some(split) => {
                    match build_pattern(&**inner, split, precedence, states) {
                        None => None,
                        Some(entry) => {
                            let ghost known = states_model(states@);
                            let state = NfaState::Split { left_state: entry, right_state: next };
                            states.set(split as usize, state);
                            assert(states_model(states@) =~= known.update(split as int, state@));
                            Some(entry)
                        },
                    }
                },
            }
        },
        Pattern::Optional(inner) => {
            match build_pattern(&**inner, next, precedence, states) {
                None => None,
                Some(entry) => push_state(
                    states,
                    NfaState::Split { left_state: entry, right_state: next },
                ),
            }
        },
        Pattern::Ranked(n, inner) => build_pattern(&**inner, next, *n, states),
    }
}

/// A failure among the first tokens is what all the tokens give.
pub proof fn lemma_token_automaton_failure_stays(vars: Seq<VariableModel>, k: int, m: int)
    requires
        0 <= k <= m,
        token_automaton(vars, k) is None,
    ensures
        token_automaton(vars, m) is None,
    decreases m - k,
{
    if k < m {
        lemma_token_automaton_failure_stays(vars, k, m - 1);
    }
}

/// Builds the automaton of the tokens `variables`, token by token. In the
/// grammar returned, every successor of a state is a state, the start states
/// grow with the index of the token, and every state is owned by a token.
/// Fails with `TooManyStates` where the states can no longer be numbered.
pub fn expand_tokens(variables: &Vec<Variable>) -> (r: Result<LexicalGrammar, CompileError>)
    ensures
        match token_automaton(variables_model(variables@), variables@.len() as int) {
            Some((states, tokens)) => r matches Ok(g) && g.nfa@ == states
                && lexical_variables_model(g.variables@) == tokens && g.ordered()
                && states_well_formed(g.nfa@) && forall|id: int|
                0 <= id < states.len() ==> has_owner(start_states(g.variables@), id),
            None => r matches Err(e) && e@ == CompileErrorModel::TooManyStates,
        },
{
    let ghost vars = variables_model(variables@);
    let mut states: Vec<NfaState> = Vec::new();
    let mut tokens: Vec<LexicalVariable> = Vec::new();
    assert(states_model(states@) =~= Seq::empty());
    assert(lexical_variables_model(tokens@) =~= Seq::empty());
    let mut i: usize = 0;
    while i < variables.len()
        invariant
            i <= variables@.len(),
            vars == variables_model(variables@),
            states@.len() <= u32::MAX,
            states_well_formed(states_model(states@)),
            token_automaton(vars, i as int) == Some(
                (states_model(states@), lexical_variables_model(tokens@)),
            ),
            forall|a: int, b: int|
                0 <= a < b < tokens@.len() ==> (#[trigger] tokens@[a]).start_state < (
                #[trigger] tokens@[b]).start_state,
            forall|a: int| 0 <= a < tokens@.len() ==> (#[trigger] tokens@[a]).start_state < states@.len(),
            tokens@.len() > 0 ==> tokens@[tokens@.len() - 1].start_state == states@.len() - 1,
            tokens@.len() == 0 ==> states@.len() == 0,
        decreases variables@.len() - i,
    {
        let variable = &variables[i];
        assert(vars[i as int] == variable@);
        let ghost before = states_model(states@);
        let ghost known = lexical_variables_model(tokens@);
        let accept = NfaState::Accept {
            variable_index: i,
            precedence: completion_precedence_of(&variable.rule),
        };
        let accept_id = match push_state(&mut states, accept) {
            Some(id) => id,
            None => {
                proof {
                    assert(with_token(before, known, vars[i as int], i as int) is None);
                    lemma_token_automaton_failure_stays(vars, i + 1, vars.len() as int);
                }
                return Err(CompileError::TooManyStates);
            },
        };
        let ghost s1 = states_model(states@);
        let pattern = rule_to_pattern(&variable.rule);
        let entry = match build_pattern(&pattern, accept_id, 0, &mut states) {
            Some(entry) => entry,
            None => {
                proof {
                    assert(built(token_pattern(vars[i as int].rule), s1.len() - 1, 0, s1) is None);
                    assert(with_token(before, known, vars[i as int], i as int) is None);
                    lemma_token_automaton_failure_stays(vars, i + 1, vars.len() as int);
                }
                return Err(CompileError::TooManyStates);
            },
        };
        let ghost s2 = states_model(states@);
        if entry as usize != states.len() - 1 {
            match push_state(&mut states, NfaState::Split { left_state: entry, right_state: entry }) {
                Some(_) => {},
                None => {
                    proof {
                        assert(built(token_pattern(vars[i as int].rule), s1.len() - 1, 0, s1)
                            == Some((s2, entry as int)));
                        assert(with_token(before, known, vars[i as int], i as int) is None);
                        lemma_token_automaton_failure_stays(vars, i + 1, vars.len() as int);
                    }
                    return Err(CompileError::TooManyStates);
                },
            }
        }
        let start_state = (states.len() - 1) as u32;
        let token = LexicalVariable {
            name: variable.name.clone(),
            kind: variable.kind,
            implicit_precedence: implicit_precedence_of(&variable.rule),
            start_state,
        };
        let ghost tokens_before = tokens@;
        tokens.push(token);
        assert(lexical_variables_model(tokens@) =~= known.push(token@));
        proof {
            assert(built(token_pattern(vars[i as int].rule), s1.len() - 1, 0, s1) == Some(
                (s2, entry as int),
            ));
            assert forall|a: int, b: int| 0 <= a < b < tokens@.len() implies (
            #[trigger] tokens@[a]).start_state < (#[trigger] tokens@[b]).start_state by {
                if b == tokens@.len() - 1 {
                    assert(tokens@[a] == tokens_before[a]);
                } else {
                    assert(tokens@[a] == tokens_before[a]);
                    assert(tokens@[b] == tokens_before[b]);
                }
            }
            assert forall|a: int| 0 <= a < tokens@.len() implies (#[trigger] tokens@[a]).start_state
                < states@.len() by {
                if a < tokens@.len() - 1 {
                    assert(tokens@[a] == tokens_before[a]);
                }
            }
        }
        i += 1;
    }
    let grammar = LexicalGrammar { nfa: Nfa { states }, variables: tokens };
    proof {
        assert forall|id: int| 0 <= id < grammar.nfa@.len() implies has_owner(
            start_states(grammar.variables@),
            id,
        ) by {
            let last = grammar.variables@.len() - 1;
            assert(start_states(grammar.variables@)[last] >= id);
        }
    }
    Ok(grammar)
}

} // verus!
