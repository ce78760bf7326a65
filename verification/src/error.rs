//! What can be wrong with a grammar.
use vstd::prelude::*;
use crate::grammars::ProductionId;
use crate::rules::Symbol;

verus! {

/// Why a grammar cannot be compiled. Every value says which rule, symbol or
/// production is at fault; none carries a message.
#[derive(Debug, PartialEq, Eq)]
pub enum CompileError {
    /// The grammar has no rule.
    EmptyGrammar,
    /// A rule refers to a name that nothing declares.
    UndefinedSymbol(String),
    /// The rule of this name holds, inside a token, a reference to a rule.
    MixedTerminalRule(String),
    /// Inlining the rule behind this symbol leads back to an inlined rule
    /// without end.
    CyclicInlining(Symbol),
    /// This symbol is shown under two different names in one context.
    ConflictingAlias { symbol: Symbol, first: String, second: String },
    /// The precedence orderings put a precedence both above and below another.
    CyclicPrecedenceOrdering,
    /// In the parse state `state`, on seeing `symbol`, nothing tells which of
    /// the productions `candidates` to follow.
    UnresolvedConflict { state: usize, symbol: Symbol, candidates: Vec<ProductionId> },
    /// The tables would need more states than a state number can name.
    TooManyStates,
}

pub enum CompileErrorModel {
    EmptyGrammar,
    UndefinedSymbol(Seq<char>),
    MixedTerminalRule(Seq<char>),
    CyclicInlining(Symbol),
    ConflictingAlias { symbol: Symbol, first: Seq<char>, second: Seq<char> },
    CyclicPrecedenceOrdering,
    UnresolvedConflict { state: int, symbol: Symbol, candidates: Seq<ProductionId> },
    TooManyStates,
}

impl View for CompileError {
    type V = CompileErrorModel;

    open spec fn view(&self) -> CompileErrorModel {
        match self {
            CompileError::EmptyGrammar => CompileErrorModel::EmptyGrammar,
            CompileError::UndefinedSymbol(n) => CompileErrorModel::UndefinedSymbol(n@),
            CompileError::MixedTerminalRule(n) => CompileErrorModel::MixedTerminalRule(n@),
            CompileError::CyclicInlining(s) => CompileErrorModel::CyclicInlining(*s),
            CompileError::ConflictingAlias { symbol, first, second } => {
                CompileErrorModel::ConflictingAlias {
                    symbol: *symbol,
                    first: first@,
                    second: second@,
                }
            },
            CompileError::CyclicPrecedenceOrdering => CompileErrorModel::CyclicPrecedenceOrdering,
            CompileError::UnresolvedConflict { state, symbol, candidates } => {
                CompileErrorModel::UnresolvedConflict {
                    state: *state as int,
                    symbol: *symbol,
                    candidates: candidates@,
                }
            },
            CompileError::TooManyStates => CompileErrorModel::TooManyStates,
        }
    }
}

} // verus!
