//! Collects the names under which symbols are shown: the aliases that the
//! productions state, and the names of the supertypes.
use vstd::prelude::*;
use crate::error::{CompileError, CompileErrorModel};
use crate::grammars::{
    ProductionModel, ProductionStep, ProductionStepModel, SyntaxGrammar, SyntaxGrammarModel,
};
use crate::rules::{
    clone_string_option, same_string_option, string_option_model, Alias, AliasModel, Symbol,
    SymbolType,
};

verus! {

/// The name under which a symbol is shown in one context: as the field
/// `field_name` of its parent, or, where that is absent, outside any field.
#[derive(Debug, PartialEq, Eq)]
pub struct AliasEntry {
    pub symbol: Symbol,
    pub field_name: Option<String>,
    pub alias: Alias,
}

pub struct AliasEntryModel {
    pub symbol: Symbol,
    pub field_name: Option<Seq<char>>,
    pub alias: AliasModel,
}

impl View for AliasEntry {
    type V = AliasEntryModel;

    open spec fn view(&self) -> AliasEntryModel {
        AliasEntryModel {
            symbol: self.symbol,
            field_name: string_option_model(self.field_name),
            alias: self.alias@,
        }
    }
}

/// For each symbol and context, the one name under which the symbol is shown
/// there. No two entries have the same symbol and context.
#[derive(Debug, PartialEq, Eq)]
pub struct AliasMap {
    pub entries: Vec<AliasEntry>,
}

pub open spec fn alias_entries_model(entries: Seq<AliasEntry>) -> Seq<AliasEntryModel> {
    Seq::new(entries.len(), |i: int| entries[i]@)
}

impl View for AliasMap {
    type V = Seq<AliasEntryModel>;

    open spec fn view(&self) -> Seq<AliasEntryModel> {
        alias_entries_model(self.entries@)
    }
}

/// The alias for `symbol` in the context `field_name` among the first `k`
/// entries, if one of them is for that symbol and context; the first such.
pub open spec fn alias_among(
    entries: Seq<AliasEntryModel>,
    symbol: Symbol,
    field_name: Option<Seq<char>>,
    k: int,
) -> Option<AliasModel>
    decreases k,
{
    if k <= 0 {
        None
    } else {
        match alias_among(entries, symbol, field_name, k - 1) {
            Some(a) => Some(a),
            None => if entries[k - 1].symbol == symbol && entries[k - 1].field_name == field_name {
                Some(entries[k - 1].alias)
            } else {
                None
            },
        }
    }
}

/// The alias for `symbol` in the context `field_name`, if the map has one.
pub open spec fn alias_for(
    entries: Seq<AliasEntryModel>,
    symbol: Symbol,
    field_name: Option<Seq<char>>,
) -> Option<AliasModel> {
    alias_among(entries, symbol, field_name, entries.len() as int)
}

/// What is wrong when one symbol has two names in one context.
pub struct AliasConflict {
    pub symbol: Symbol,
    pub first: Seq<char>,
    pub second: Seq<char>,
}

/// The entries with `alias` for `symbol` in the context `field_name`: a new
/// entry where there is none for them, no change where the entry says the
/// same, an error where it says otherwise.
pub open spec fn with_alias(
    entries: Seq<AliasEntryModel>,
    symbol: Symbol,
    field_name: Option<Seq<char>>,
    alias: AliasModel,
) -> Result<Seq<AliasEntryModel>, AliasConflict> {
    match alias_for(entries, symbol, field_name) {
        None => Ok(entries.push(AliasEntryModel { symbol, field_name, alias })),
        Some(known) => if known == alias {
            Ok(entries)
        } else {
            Err(AliasConflict { symbol, first: known.value, second: alias.value })
        },
    }
}

/// The entries with the aliases of the first `k` of `steps`.
pub open spec fn with_step_aliases(
    entries: Seq<AliasEntryModel>,
    steps: Seq<ProductionStepModel>,
    k: int,
) -> Result<Seq<AliasEntryModel>, AliasConflict>
    decreases k,
{
    if k <= 0 {
        Ok(entries)
    } else {
        match with_step_aliases(entries, steps, k - 1) {
            Err(c) => Err(c),
            Ok(known) => match steps[k - 1].alias {
                None => Ok(known),
                Some(alias) => with_alias(
                    known,
                    steps[k - 1].symbol,
                    steps[k - 1].field_name,
                    alias,
                ),
            },
        }
    }
}

/// The entries with the aliases of the first `k` of `productions`.
pub open spec fn with_production_aliases(
    entries: Seq<AliasEntryModel>,
    productions: Seq<ProductionModel>,
    k: int,
) -> Result<Seq<AliasEntryModel>, AliasConflict>
    decreases k,
{
    if k <= 0 {
        Ok(entries)
    } else {
        match with_production_aliases(entries, productions, k - 1) {
            Err(c) => Err(c),
            Ok(known) => with_step_aliases(
                known,
                productions[k - 1].steps,
                productions[k - 1].steps.len() as int,
            ),
        }
    }
}

/// The entries for the aliases stated in the first `k` rules.
pub open spec fn with_variable_aliases(g: SyntaxGrammarModel, k: int) -> Result<
    Seq<AliasEntryModel>,
    AliasConflict,
>
    decreases k,
{
    if k <= 0 {
        Ok(Seq::empty())
    } else {
        match with_variable_aliases(g, k - 1) {
            Err(c) => Err(c),
            Ok(known) => with_production_aliases(
                known,
                g.variables[k - 1].productions,
                g.variables[k - 1].productions.len() as int,
            ),
        }
    }
}

/// The entries with the names of the first `k` supertypes: a supertype that
/// is a rule of the grammar is shown, outside any field, under its own name,
/// as a named node.
pub open spec fn with_supertype_aliases(
    g: SyntaxGrammarModel,
    entries: Seq<AliasEntryModel>,
    k: int,
) -> Result<Seq<AliasEntryModel>, AliasConflict>
    decreases k,
{
    if k <= 0 {
        Ok(entries)
    } else {
        match with_supertype_aliases(g, entries, k - 1) {
            Err(c) => Err(c),
            Ok(known) => {
                let symbol = g.supertype_symbols[k - 1];
                if symbol.kind == SymbolType::NonTerminal && symbol.index < g.variables.len() {
                    with_alias(
                        known,
                        symbol,
                        None,
                        AliasModel { value: g.variables[symbol.index as int].name, is_named: true },
                    )
                } else {
                    Ok(known)
                }
            },
        }
    }
}

/// The alias map of the grammar: the aliases stated in the productions, rule
/// by rule, then the names of the supertypes. The first symbol, in that
/// order, that gets a second name in one context is the error.
pub open spec fn alias_map(g: SyntaxGrammarModel) -> Result<Seq<AliasEntryModel>, AliasConflict> {
    match with_variable_aliases(g, g.variables.len() as int) {
        Err(c) => Err(c),
        Ok(known) => with_supertype_aliases(g, known, g.supertype_symbols.len() as int),
    }
}

/// What a call returns for a wanted outcome.
pub open spec fn agrees(r: Result<(), CompileError>, map: Seq<AliasEntryModel>, wanted: Result<
    Seq<AliasEntryModel>,
    AliasConflict,
>) -> bool {
    match wanted {
        Ok(m) => r is Ok && map == m,
        Err(c) => r matches Err(e) && e@ == (CompileErrorModel::ConflictingAlias {
            symbol: c.symbol,
            first: c.first,
            second: c.second,
        }),
    }
}

pub proof fn lemma_alias_among_stays(
    entries: Seq<AliasEntryModel>,
    symbol: Symbol,
    field_name: Option<Seq<char>>,
    k: int,
    m: int,
)
    requires
        0 <= k <= m,
        alias_among(entries, symbol, field_name, k) is Some,
    ensures
        alias_among(entries, symbol, field_name, m) == alias_among(entries, symbol, field_name, k),
    decreases m - k,
{
    if k < m {
        lemma_alias_among_stays(entries, symbol, field_name, k, m - 1);
    }
}

pub proof fn lemma_step_aliases_error_stays(
    entries: Seq<AliasEntryModel>,
    steps: Seq<ProductionStepModel>,
    k: int,
    m: int,
)
    requires
        0 <= k <= m,
        with_step_aliases(entries, steps, k) is Err,
    ensures
        with_step_aliases(entries, steps, m) == with_step_aliases(entries, steps, k),
    decreases m - k,
{
    if k < m {
        lemma_step_aliases_error_stays(entries, steps, k, m - 1);
    }
}

pub proof fn lemma_production_aliases_error_stays(
    entries: Seq<AliasEntryModel>,
    productions: Seq<ProductionModel>,
    k: int,
    m: int,
)
    requires
        0 <= k <= m,
        with_production_aliases(entries, productions, k) is Err,
    ensures
        with_production_aliases(entries, productions, m) == with_production_aliases(
            entries,
            productions,
            k,
        ),
    decreases m - k,
{
    if k < m {
        lemma_production_aliases_error_stays(entries, productions, k, m - 1);
    }
}

pub proof fn lemma_variable_aliases_error_stays(g: SyntaxGrammarModel, k: int, m: int)
    requires
        0 <= k <= m,
        with_variable_aliases(g, k) is Err,
    ensures
        with_variable_aliases(g, m) == with_variable_aliases(g, k),
    decreases m - k,
{
    if k < m {
        lemma_variable_aliases_error_stays(g, k, m - 1);
    }
}

pub proof fn lemma_supertype_aliases_error_stays(
    g: SyntaxGrammarModel,
    entries: Seq<AliasEntryModel>,
    k: int,
    m: int,
)
    requires
        0 <= k <= m,
        with_supertype_aliases(g, entries, k) is Err,
    ensures
        with_supertype_aliases(g, entries, m) == with_supertype_aliases(g, entries, k),
    decreases m - k,
{
    if k < m {
        lemma_supertype_aliases_error_stays(g, entries, k, m - 1);
    }
}

impl AliasMap {
    /// The map without entries.
    pub fn new() -> (map: AliasMap)
        ensures
            map@ == Seq::<AliasEntryModel>::empty(),
    {
        let map = AliasMap { entries: Vec::new() };
        assert(map@ =~= Seq::empty());
        map
    }

    /// The alias under which `symbol` is shown in the context `field_name`,
    /// if the map has one.
    pub fn get<'a>(&'a self, symbol: Symbol, field_name: &Option<String>) -> (found: Option<
        &'a Alias,
    >)
        ensures
            match alias_for(self@, symbol, string_option_model(*field_name)) {
                Some(a) => found matches Some(x) && x@ == a,
                None => found is None,
            },
    {
        let ghost entries = self@;
        let ghost field = string_option_model(*field_name);
        let mut i: usize = 0;
        while i < self.entries.len()
            invariant
                i <= self.entries@.len(),
                entries == self@,
                field == string_option_model(*field_name),
                alias_among(entries, symbol, field, i as int) is None,
            decreases self.entries@.len() - i,
        {
            let entry = &self.entries[i];
            assert(entries[i as int] == entry@);
            if entry.symbol == symbol && same_string_option(&entry.field_name, field_name) {
                proof {
                    assert(alias_among(entries, symbol, field, i + 1) == Some(entry@.alias));
                    lemma_alias_among_stays(entries, symbol, field, i + 1, entries.len() as int);
                }
                return Some(&entry.alias);
            }
            i += 1;
        }
        None
    }

    /// Records `alias` for `symbol` in the context `field_name`.
    pub fn insert(&mut self, symbol: Symbol, field_name: &Option<String>, alias: &Alias) -> (r:
        Result<(), CompileError>)
        ensures
            agrees(
                r,
                final(self)@,
                with_alias(old(self)@, symbol, string_option_model(*field_name), alias@),
            ),
    {
        let conflict = match self.get(symbol, field_name) {
            None => None,
            Some(known) => if known.same(alias) {
                return Ok(());
            } else {
                Some(known.value.clone())
            },
        };
        match conflict {
            Some(first) => Err(
                CompileError::ConflictingAlias { symbol, first, second: alias.value.clone() },
            ),
            None => {
                let ghost before = self@;
                let entry = AliasEntry {
                    symbol,
                    field_name: clone_string_option(field_name),
                    alias: alias.clone(),
                };
                self.entries.push(entry);
                assert(self@ =~= before.push(entry@));
                Ok(())
            },
        }
    }
}

/// Records the aliases that `steps` state.
fn add_step_aliases(map: &mut AliasMap, steps: &Vec<ProductionStep>) -> (r: Result<
    (),
    CompileError,
>)
    ensures
        agrees(
            r,
            final(map)@,
            with_step_aliases(
                old(map)@,
                crate::grammars::steps_model(steps@),
                steps@.len() as int,
            ),
        ),
{
    let ghost start = map@;
    let ghost src = crate::grammars::steps_model(steps@);
    let mut i: usize = 0;
    while i < steps.len()
        invariant
            i <= steps@.len(),
            start == old(map)@,
            src == crate::grammars::steps_model(steps@),
            with_step_aliases(start, src, i as int) == Ok::<Seq<AliasEntryModel>, AliasConflict>(
                map@,
            ),
        decreases steps@.len() - i,
    {
        let step = &steps[i];
        assert(src[i as int] == step@);
        match &step.alias {
            None => {},
            Some(alias) => {
                let ghost before = map@;
                match map.insert(step.symbol, &step.field_name, alias) {
                    Ok(()) => {},
                    Err(e) => {
                        proof {
                            let failure = with_alias(
                                before,
                                step@.symbol,
                                step@.field_name,
                                alias@,
                            );
                            assert(failure is Err);
                            assert(with_step_aliases(start, src, i + 1) == failure);
                            lemma_step_aliases_error_stays(start, src, i + 1, src.len() as int);
                        }
                        return Err(e);
                    },
                }
            },
        }
        i += 1;
    }
    Ok(())
}

/// Collects the names under which the symbols of the grammar are shown.
/// Fails with `ConflictingAlias` where one symbol gets two different names in
/// one context; the error names the symbol and both names.
pub fn extract_aliases(grammar: &SyntaxGrammar) -> (r: Result<AliasMap, CompileError>)
    ensures
        match alias_map(grammar@) {
            Ok(m) => r matches Ok(x) && x@ == m,
            Err(c) => r matches Err(e) && e@ == (CompileErrorModel::ConflictingAlias {
                symbol: c.symbol,
                first: c.first,
                second: c.second,
            }),
        },
{
    let ghost g = grammar@;
    let mut map = AliasMap::new();
    let mut v: usize = 0;
    while v < grammar.variables.len()
        invariant
            v <= grammar.variables@.len(),
            g == grammar@,
            with_variable_aliases(g, v as int) == Ok::<Seq<AliasEntryModel>, AliasConflict>(map@),
        decreases grammar.variables@.len() - v,
    {
        let ghost start = map@;
        let productions = &grammar.variables[v].productions;
        let ghost ps = crate::grammars::productions_model(productions@);
        assert(g.variables[v as int].productions == ps);
        let mut p: usize = 0;
        while p < productions.len()
            invariant
                p <= productions@.len(),
                v < grammar.variables@.len(),
                g == grammar@,
                ps == crate::grammars::productions_model(productions@),
                g.variables[v as int].productions == ps,
                with_variable_aliases(g, v as int) == Ok::<Seq<AliasEntryModel>, AliasConflict>(
                    start,
                ),
                with_production_aliases(start, ps, p as int) == Ok::<
                    Seq<AliasEntryModel>,
                    AliasConflict,
                >(map@),
            decreases productions@.len() - p,
        {
            let ghost before = map@;
            assert(ps[p as int] == productions@[p as int]@);
            match add_step_aliases(&mut map, &productions[p].steps) {
                Ok(()) => {},
                Err(e) => {
                    proof {
                        let failure = with_step_aliases(
                            before,
                            ps[p as int].steps,
                            ps[p as int].steps.len() as int,
                        );
                        assert(failure is Err);
                        assert(with_production_aliases(start, ps, p + 1) == failure);
                        lemma_production_aliases_error_stays(start, ps, p + 1, ps.len() as int);
                        assert(with_variable_aliases(g, v + 1) == failure);
                        lemma_variable_aliases_error_stays(g, v + 1, g.variables.len() as int);
                    }
                    return Err(e);
                },
            }
            p += 1;
        }
        v += 1;
    }
    let ghost stated = map@;
    let mut s: usize = 0;
    while s < grammar.supertype_symbols.len()
        invariant
            s <= grammar.supertype_symbols@.len(),
            g == grammar@,
            with_variable_aliases(g, g.variables.len() as int) == Ok::<
                Seq<AliasEntryModel>,
                AliasConflict,
            >(stated),
            with_supertype_aliases(g, stated, s as int) == Ok::<
                Seq<AliasEntryModel>,
                AliasConflict,
            >(map@),
        decreases grammar.supertype_symbols@.len() - s,
    {
        let symbol = grammar.supertype_symbols[s];
        if symbol.kind == SymbolType::NonTerminal && symbol.index < grammar.variables.len() {
            let ghost before = map@;
            let alias = Alias {
                value: grammar.variables[symbol.index].name.clone(),
                is_named: true,
            };
            assert(alias@.value == g.variables[symbol.index as int].name);
            match map.insert(symbol, &None, &alias) {
                Ok(()) => {},
                Err(e) => {
                    proof {
                        let failure = with_alias(before, symbol, None, alias@);
                        assert(failure is Err);
                        assert(with_supertype_aliases(g, stated, s + 1) == failure);
                        lemma_supertype_aliases_error_stays(
                            g,
                            stated,
                            s + 1,
                            g.supertype_symbols.len() as int,
                        );
                    }
                    return Err(e);
                },
            }
        }
        s += 1;
    }
    Ok(map)
}

} // verus!
