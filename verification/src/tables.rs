//! The tables that the compiler produces.
use vstd::prelude::*;
use crate::grammars::ProductionId;
use crate::nfa::CharRange;
use crate::rules::Symbol;

verus! {

/// What the parser does on a lookahead symbol: it shifts the symbol and goes
/// to a state, shifts it as an extra and stays, reduces by a production, or
/// accepts the input. A reduction names the rule that the production belongs
/// to, the number of children it takes, its dynamic precedence, and the
/// production of the grammar that it stands for.
#[derive(Clone, Copy, Debug, PartialEq, Eq, Structural)]
pub enum ParseAction {
    Shift(usize),
    ShiftExtra,
    Reduce { symbol: usize, child_count: usize, dynamic_precedence: i32, production: ProductionId },
    Accept,
}

/// The actions for one lookahead symbol. More than one action stands only
/// where the grammar expects the conflict.
#[derive(Debug, PartialEq, Eq)]
pub struct ParseTableEntry {
    pub symbol: Symbol,
    pub actions: Vec<ParseAction>,
}

pub struct ParseTableEntryModel {
    pub symbol: Symbol,
    pub actions: Seq<ParseAction>,
}

impl View for ParseTableEntry {
    type V = ParseTableEntryModel;

    open spec fn view(&self) -> ParseTableEntryModel {
        ParseTableEntryModel { symbol: self.symbol, actions: self.actions@ }
    }
}

pub open spec fn entries_model(entries: Seq<ParseTableEntry>) -> Seq<ParseTableEntryModel> {
    Seq::new(entries.len(), |i: int| entries[i]@)
}

/// One state of the parser: the actions for each lookahead symbol, and for
/// each rule the state that follows once the rule is reduced.
#[derive(Debug, PartialEq, Eq)]
pub struct ParseState {
    pub entries: Vec<ParseTableEntry>,
    pub gotos: Vec<(usize, usize)>,
}

pub struct ParseStateModel {
    pub entries: Seq<ParseTableEntryModel>,
    pub gotos: Seq<(usize, usize)>,
}

impl View for ParseState {
    type V = ParseStateModel;

    open spec fn view(&self) -> ParseStateModel {
        ParseStateModel { entries: entries_model(self.entries@), gotos: self.gotos@ }
    }
}

/// The states of the parser. The parse starts in the first.
#[derive(Debug, PartialEq, Eq)]
pub struct ParseTable {
    pub states: Vec<ParseState>,
}

pub open spec fn parse_states_model(states: Seq<ParseState>) -> Seq<ParseStateModel> {
    Seq::new(states.len(), |i: int| states[i]@)
}

impl View for ParseTable {
    type V = Seq<ParseStateModel>;

    open spec fn view(&self) -> Seq<ParseStateModel> {
        parse_states_model(self.states@)
    }
}

/// One state of the lexer: the token it accepts, if it accepts one, and for
/// each range of characters the state that follows.
#[derive(Debug, PartialEq, Eq)]
pub struct LexState {
    pub accept: Option<usize>,
    pub transitions: Vec<(CharRange, usize)>,
}

pub struct LexStateModel {
    pub accept: Option<usize>,
    pub transitions: Seq<(CharRange, usize)>,
}

impl View for LexState {
    type V = LexStateModel;

    open spec fn view(&self) -> LexStateModel {
        LexStateModel { accept: self.accept, transitions: self.transitions@ }
    }
}

/// The states of a lexer. Lexing starts in the first.
#[derive(Debug, PartialEq, Eq)]
pub struct LexTable {
    pub states: Vec<LexState>,
}

pub open spec fn lex_states_model(states: Seq<LexState>) -> Seq<LexStateModel> {
    Seq::new(states.len(), |i: int| states[i]@)
}

impl View for LexTable {
    type V = Seq<LexStateModel>;

    open spec fn view(&self) -> Seq<LexStateModel> {
        lex_states_model(self.states@)
    }
}

} // verus!
