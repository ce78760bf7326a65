//! The lexer's automaton: numbered states joined by transitions on sets of
//! characters, shared by all the tokens of a grammar.
use vstd::prelude::*;

verus! {

/// The characters from `start` up to, but not including, `end`, by code point.
#[derive(Clone, Copy, Debug, PartialEq, Eq, Structural, Hash)]
pub struct CharRange {
    pub start: u32,
    pub end: u32,
}

/// A set of characters. A character is in the set when one of `ranges` holds
/// it or one of the lists of `complements` holds it in none of its ranges;
/// where `negated` is set, the set is all the other characters.
#[derive(Debug, PartialEq, Eq, Hash)]
pub struct CharacterSet {
    pub ranges: Vec<CharRange>,
    pub complements: Vec<Vec<CharRange>>,
    pub negated: bool,
}

pub struct CharacterSetModel {
    pub ranges: Seq<CharRange>,
    pub complements: Seq<Seq<CharRange>>,
    pub negated: bool,
}

/// Whether one of `ranges` holds the code point `c`.
pub open spec fn ranges_contain(ranges: Seq<CharRange>, c: int) -> bool {
    exists|i: int| 0 <= i < ranges.len() && (#[trigger] ranges[i]).start <= c < ranges[i].end
}

/// Whether one of the lists of `complements` holds `c` in none of its ranges.
pub open spec fn complements_contain(complements: Seq<Seq<CharRange>>, c: int) -> bool {
    exists|i: int| 0 <= i < complements.len() && !ranges_contain(#[trigger] complements[i], c)
}

/// Whether the code point `c` is in the set.
pub open spec fn holds(set: CharacterSetModel, c: int) -> bool {
    set.negated != (ranges_contain(set.ranges, c) || complements_contain(set.complements, c))
}

pub open spec fn range_lists_model(lists: Seq<Vec<CharRange>>) -> Seq<Seq<CharRange>> {
    Seq::new(lists.len(), |i: int| lists[i]@)
}

impl View for CharacterSet {
    type V = CharacterSetModel;

    open spec fn view(&self) -> CharacterSetModel {
        CharacterSetModel {
            ranges: self.ranges@,
            complements: range_lists_model(self.complements@),
            negated: self.negated,
        }
    }
}

/// The set of the characters of `ranges`.
pub open spec fn set_of_ranges(ranges: Seq<CharRange>) -> CharacterSetModel {
    CharacterSetModel { ranges, complements: Seq::empty(), negated: false }
}

/// The set of the characters that are in none of `ranges`.
pub open spec fn set_without_ranges(ranges: Seq<CharRange>) -> CharacterSetModel {
    CharacterSetModel { ranges: Seq::empty(), complements: seq![ranges], negated: false }
}

/// The set of the characters of `a` and of `b`, neither of which is negated.
pub open spec fn united(a: CharacterSetModel, b: CharacterSetModel) -> CharacterSetModel {
    CharacterSetModel {
        ranges: a.ranges + b.ranges,
        complements: a.complements + b.complements,
        negated: false,
    }
}

/// A united set holds what either set holds.
pub proof fn lemma_united_holds(a: CharacterSetModel, b: CharacterSetModel, c: int)
    requires
        !a.negated,
        !b.negated,
    ensures
        holds(united(a, b), c) == (holds(a, c) || holds(b, c)),
{
    let u = united(a, b);
    if ranges_contain(a.ranges, c) {
        let i = choose|i: int| 0 <= i < a.ranges.len() && (#[trigger] a.ranges[i]).start <= c < a.ranges[i].end;
        assert(u.ranges[i] == a.ranges[i]);
    }
    if ranges_contain(b.ranges, c) {
        let i = choose|i: int| 0 <= i < b.ranges.len() && (#[trigger] b.ranges[i]).start <= c < b.ranges[i].end;
        assert(u.ranges[i + a.ranges.len()] == b.ranges[i]);
    }
    if ranges_contain(u.ranges, c) {
        let i = choose|i: int| 0 <= i < u.ranges.len() && (#[trigger] u.ranges[i]).start <= c < u.ranges[i].end;
        if i < a.ranges.len() {
            assert(a.ranges[i] == u.ranges[i]);
        } else {
            assert(b.ranges[i - a.ranges.len()] == u.ranges[i]);
        }
    }
    if complements_contain(a.complements, c) {
        let i = choose|i: int| 0 <= i < a.complements.len() && !ranges_contain(#[trigger] a.complements[i], c);
        assert(u.complements[i] == a.complements[i]);
    }
    if complements_contain(b.complements, c) {
        let i = choose|i: int| 0 <= i < b.complements.len() && !ranges_contain(#[trigger] b.complements[i], c);
        assert(u.complements[i + a.complements.len()] == b.complements[i]);
    }
    if complements_contain(u.complements, c) {
        let i = choose|i: int| 0 <= i < u.complements.len() && !ranges_contain(#[trigger] u.complements[i], c);
        if i < a.complements.len() {
            assert(a.complements[i] == u.complements[i]);
        } else {
            assert(b.complements[i - a.complements.len()] == u.complements[i]);
        }
    }
}

/// Copies a list of ranges.
pub fn clone_ranges(ranges: &Vec<CharRange>) -> (out: Vec<CharRange>)
    ensures
        out@ == ranges@,
{
    let mut out: Vec<CharRange> = Vec::new();
    let mut i: usize = 0;
    while i < ranges.len()
        invariant
            i <= ranges@.len(),
            out@ == ranges@.take(i as int),
        decreases ranges@.len() - i,
    {
        out.push(ranges[i]);
        assert(out@ =~= ranges@.take(i + 1));
        i += 1;
    }
    assert(ranges@.take(ranges@.len() as int) =~= ranges@);
    out
}

/// Whether one of `ranges` holds the code point `code`.
pub fn ranges_hold(ranges: &Vec<CharRange>, code: u32) -> (b: bool)
    ensures
        b == ranges_contain(ranges@, code as int),
{
    let mut i: usize = 0;
    while i < ranges.len()
        invariant
            i <= ranges@.len(),
            forall|k: int| 0 <= k < i ==> !((#[trigger] ranges@[k]).start <= code < ranges@[k].end),
        decreases ranges@.len() - i,
    {
        if ranges[i].start <= code && code < ranges[i].end {
            return true;
        }
        i += 1;
    }
    false
}

impl Clone for CharacterSet {
    fn clone(&self) -> (r: CharacterSet)
        ensures
            r@ == self@,
    {
        let mut complements: Vec<Vec<CharRange>> = Vec::new();
        let mut i: usize = 0;
        while i < self.complements.len()
            invariant
                i <= self.complements@.len(),
                complements@.len() == i,
                forall|k: int| 0 <= k < i ==> (#[trigger] complements@[k])@ == self.complements@[k]@,
            decreases self.complements@.len() - i,
        {
            complements.push(clone_ranges(&self.complements[i]));
            i += 1;
        }
        let r = CharacterSet {
            ranges: clone_ranges(&self.ranges),
            complements,
            negated: self.negated,
        };
        assert(r@.complements =~= self@.complements);
        r
    }
}

impl CharacterSet {
    /// The set without characters.
    pub fn empty() -> (s: CharacterSet)
        ensures
            s@ == set_of_ranges(Seq::empty()),
            forall|c: int| !#[trigger] holds(s@, c),
    {
        let s = CharacterSet { ranges: Vec::new(), complements: Vec::new(), negated: false };
        assert(s@.complements =~= Seq::empty());
        s
    }

    /// The set of the characters of `ranges`.
    pub fn from_ranges(ranges: Vec<CharRange>) -> (s: CharacterSet)
        ensures
            s@ == set_of_ranges(ranges@),
    {
        let s = CharacterSet { ranges, complements: Vec::new(), negated: false };
        assert(s@.complements =~= Seq::empty());
        s
    }

    /// The set of the characters that are in none of `ranges`.
    pub fn without_ranges(ranges: Vec<CharRange>) -> (s: CharacterSet)
        ensures
            s@ == set_without_ranges(ranges@),
    {
        let mut complements: Vec<Vec<CharRange>> = Vec::new();
        complements.push(ranges);
        let s = CharacterSet { ranges: Vec::new(), complements, negated: false };
        assert(s@.complements =~= seq![ranges@]);
        s
    }

    /// The set of the one character `c`.
    pub fn from_char(c: char) -> (s: CharacterSet)
        ensures
            s@ == set_of_ranges(seq![CharRange { start: c as u32, end: (c as u32 + 1) as u32 }]),
            forall|x: int| #[trigger] holds(s@, x) == (x == c as int),
    {
        let code = c as u32;
        let mut ranges: Vec<CharRange> = Vec::new();
        ranges.push(CharRange { start: code, end: code + 1 });
        let s = CharacterSet::from_ranges(ranges);
        assert(s@.ranges =~= seq![CharRange { start: c as u32, end: (c as u32 + 1) as u32 }]);
        assert forall|x: int| #[trigger] holds(s@, x) == (x == c as int) by {
            if x == c as int {
                assert(s@.ranges[0].start <= x < s@.ranges[0].end);
            }
        }
        s
    }

    /// Whether the set holds `c`.
    pub fn contains(&self, c: char) -> (b: bool)
        ensures
            b == holds(self@, c as int),
    {
        self.contains_code(c as u32)
    }

    /// Whether the set holds the code point `code`.
    pub fn contains_code(&self, code: u32) -> (b: bool)
        ensures
            b == holds(self@, code as int),
    {
        let mut found = ranges_hold(&self.ranges, code);
        let mut i: usize = 0;
        while i < self.complements.len() && !found
            invariant
                i <= self.complements@.len(),
                found ==> (ranges_contain(self@.ranges, code as int) || complements_contain(
                    self@.complements,
                    code as int,
                )),
                !found ==> !ranges_contain(self@.ranges, code as int) && forall|k: int|
                    0 <= k < i ==> ranges_contain(#[trigger] self@.complements[k], code as int),
            decreases self.complements@.len() - i,
        {
            assert(self@.complements[i as int] == self.complements@[i as int]@);
            if !ranges_hold(&self.complements[i], code) {
                found = true;
            }
            i += 1;
        }
        self.negated != found
    }

    /// Adds the characters of `other` to the set. Neither set is negated.
    pub fn add(&mut self, other: &CharacterSet)
        requires
            !old(self).negated,
            !other.negated,
        ensures
            final(self)@ == united(old(self)@, other@),
            forall|c: int| #[trigger] holds(final(self)@, c) == (holds(old(self)@, c) || holds(other@, c)),
    {
        let ghost before = self@;
        let mut i: usize = 0;
        while i < other.ranges.len()
            invariant
                i <= other.ranges@.len(),
                self.ranges@ == before.ranges + other.ranges@.take(i as int),
                self.complements@ == old(self).complements@,
                self.negated == old(self).negated,
            decreases other.ranges@.len() - i,
        {
            self.ranges.push(other.ranges[i]);
            assert(self.ranges@ =~= before.ranges + other.ranges@.take(i + 1));
            i += 1;
        }
        assert(other.ranges@.take(other.ranges@.len() as int) =~= other.ranges@);
        let mut j: usize = 0;
        while j < other.complements.len()
            invariant
                j <= other.complements@.len(),
                self.ranges@ == before.ranges + other.ranges@,
                self.negated == old(self).negated,
                before == old(self)@,
                range_lists_model(self.complements@) == before.complements
                    + other@.complements.take(j as int),
            decreases other.complements@.len() - j,
        {
            let ghost known = self.complements@;
            self.complements.push(clone_ranges(&other.complements[j]));
            assert(range_lists_model(self.complements@) =~= range_lists_model(known).push(
                other.complements@[j as int]@,
            ));
            assert(range_lists_model(self.complements@) =~= before.complements
                + other@.complements.take(j + 1));
            j += 1;
        }
        assert(other@.complements.take(other.complements@.len() as int) =~= other@.complements);
        assert(self@ == united(old(self)@, other@));
        assert forall|c: int| #[trigger] holds(self@, c) == (holds(old(self)@, c) || holds(other@, c)) by {
            lemma_united_holds(old(self)@, other@, c);
        }
    }

    /// The set of all the characters that are not in the set.
    pub fn negate(self) -> (s: CharacterSet)
        ensures
            s@ == (CharacterSetModel { negated: !self@.negated, ..self@ }),
            forall|c: int| #[trigger] holds(s@, c) == !holds(self@, c),
    {
        CharacterSet { ranges: self.ranges, complements: self.complements, negated: !self.negated }
    }
}

/// One state of the automaton. A branch state either advances over one
/// character of a set to a successor, or splits, without reading anything,
/// towards two successors. An accept state marks the end of a token.
#[derive(Debug, PartialEq, Eq)]
pub enum NfaState {
    Advance { chars: CharacterSet, state_id: u32, is_sep: bool, precedence: i32 },
    Split { left_state: u32, right_state: u32 },
    Accept { variable_index: usize, precedence: i32 },
}

pub enum NfaStateModel {
    Advance { chars: CharacterSetModel, state_id: int, is_sep: bool, precedence: int },
    Split { left_state: int, right_state: int },
    Accept { variable_index: int, precedence: int },
}

impl View for NfaState {
    type V = NfaStateModel;

    open spec fn view(&self) -> NfaStateModel {
        match self {
            NfaState::Advance { chars, state_id, is_sep, precedence } => NfaStateModel::Advance {
                chars: chars@,
                state_id: *state_id as int,
                is_sep: *is_sep,
                precedence: *precedence as int,
            },
            NfaState::Split { left_state, right_state } => NfaStateModel::Split {
                left_state: *left_state as int,
                right_state: *right_state as int,
            },
            NfaState::Accept { variable_index, precedence } => NfaStateModel::Accept {
                variable_index: *variable_index as int,
                precedence: *precedence as int,
            },
        }
    }
}

/// The automaton: states are numbered by their place in `states`.
#[derive(Debug, PartialEq, Eq)]
pub struct Nfa {
    pub states: Vec<NfaState>,
}

pub open spec fn states_model(states: Seq<NfaState>) -> Seq<NfaStateModel> {
    Seq::new(states.len(), |i: int| states[i]@)
}

impl View for Nfa {
    type V = Seq<NfaStateModel>;

    open spec fn view(&self) -> Seq<NfaStateModel> {
        states_model(self.states@)
    }
}

/// Whether every successor named in `state` is below `bound`.
pub open spec fn state_targets_below(state: NfaStateModel, bound: int) -> bool {
    match state {
        NfaStateModel::Advance { state_id, .. } => 0 <= state_id < bound,
        NfaStateModel::Split { left_state, right_state } => 0 <= left_state < bound && 0
            <= right_state < bound,
        NfaStateModel::Accept { .. } => true,
    }
}

/// Every successor of every state is a state of the automaton.
pub open spec fn states_well_formed(states: Seq<NfaStateModel>) -> bool {
    forall|i: int| 0 <= i < states.len() ==> state_targets_below(#[trigger] states[i], states.len() as int)
}

impl Nfa {
    /// The automaton without states.
    pub fn new() -> (nfa: Nfa)
        ensures
            nfa@ == Seq::<NfaStateModel>::empty(),
    {
        let nfa = Nfa { states: Vec::new() };
        assert(nfa@ =~= Seq::empty());
        nfa
    }
}

} // verus!
