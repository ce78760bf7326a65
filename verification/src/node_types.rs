//! The shapes of the nodes that a parser for the grammar produces: for each
//! symbol that shows in the tree, the kinds of its children, outside fields
//! and in each field.
use vstd::prelude::*;
use crate::grammars::{
    LexicalVariable, LexicalVariableModel, ProductionModel, ProductionStep, ProductionStepModel,
    SyntaxGrammar, SyntaxGrammarModel, VariableType,
};
use crate::prepare_grammar::expand_tokens::lexical_variables_model;
use crate::prepare_grammar::extract_aliases::{alias_for, AliasEntryModel, AliasMap};
use crate::rules::{
    clone_string_option, same_string_option, string_option_model, Alias, AliasModel, Symbol,
    SymbolType,
};

verus! {

/// One kind of child: the symbol, and the name and namedness under which it
/// shows.
#[derive(Debug, PartialEq, Eq)]
pub struct ChildType {
    pub symbol: Symbol,
    pub name: String,
    pub named: bool,
}

pub struct ChildTypeModel {
    pub symbol: Symbol,
    pub name: Seq<char>,
    pub named: bool,
}

impl View for ChildType {
    type V = ChildTypeModel;

    open spec fn view(&self) -> ChildTypeModel {
        ChildTypeModel { symbol: self.symbol, name: self.name@, named: self.named }
    }
}

pub open spec fn child_types_model(types: Seq<ChildType>) -> Seq<ChildTypeModel> {
    Seq::new(types.len(), |i: int| types[i]@)
}

/// The children in one place of a node (outside fields, or in one field):
/// whether there can be more than one, whether there is always one, and
/// their kinds.
#[derive(Debug, PartialEq, Eq)]
pub struct ChildInfo {
    pub multiple: bool,
    pub required: bool,
    pub types: Vec<ChildType>,
}

pub struct ChildInfoModel {
    pub multiple: bool,
    pub required: bool,
    pub types: Seq<ChildTypeModel>,
}

impl View for ChildInfo {
    type V = ChildInfoModel;

    open spec fn view(&self) -> ChildInfoModel {
        ChildInfoModel {
            multiple: self.multiple,
            required: self.required,
            types: child_types_model(self.types@),
        }
    }
}

/// A field of a node: its name and its children.
#[derive(Debug, PartialEq, Eq)]
pub struct FieldInfo {
    pub name: String,
    pub info: ChildInfo,
}

pub struct FieldInfoModel {
    pub name: Seq<char>,
    pub info: ChildInfoModel,
}

impl View for FieldInfo {
    type V = FieldInfoModel;

    open spec fn view(&self) -> FieldInfoModel {
        FieldInfoModel { name: self.name@, info: self.info@ }
    }
}

pub open spec fn fields_model(fields: Seq<FieldInfo>) -> Seq<FieldInfoModel> {
    Seq::new(fields.len(), |i: int| fields[i]@)
}

/// The shape of the nodes of one symbol.
#[derive(Debug, PartialEq, Eq)]
pub struct NodeType {
    pub symbol: Symbol,
    pub name: String,
    pub named: bool,
    pub children: ChildInfo,
    pub fields: Vec<FieldInfo>,
}

pub struct NodeTypeModel {
    pub symbol: Symbol,
    pub name: Seq<char>,
    pub named: bool,
    pub children: ChildInfoModel,
    pub fields: Seq<FieldInfoModel>,
}

impl View for NodeType {
    type V = NodeTypeModel;

    open spec fn view(&self) -> NodeTypeModel {
        NodeTypeModel {
            symbol: self.symbol,
            name: self.name@,
            named: self.named,
            children: self.children@,
            fields: fields_model(self.fields@),
        }
    }
}

pub open spec fn node_types_model(types: Seq<NodeType>) -> Seq<NodeTypeModel> {
    Seq::new(types.len(), |i: int| types[i]@)
}

/// Whether nodes of the kind `kind` show in the tree.
pub open spec fn shows(kind: VariableType) -> bool {
    kind == VariableType::Named || kind == VariableType::Anonymous
}

/// Whether `symbol` is a symbol of the grammar that shows in the tree: a
/// rule, a token or an external token that is named or anonymous.
pub open spec fn is_visible(
    g: SyntaxGrammarModel,
    tokens: Seq<LexicalVariableModel>,
    symbol: Symbol,
) -> bool {
    match symbol.kind {
        SymbolType::NonTerminal => symbol.index < g.variables.len() && shows(
            g.variables[symbol.index as int].kind,
        ),
        SymbolType::Terminal => symbol.index < tokens.len() && shows(
            tokens[symbol.index as int].kind,
        ),
        SymbolType::External => symbol.index < g.external_tokens.len() && shows(
            g.external_tokens[symbol.index as int].kind,
        ),
        SymbolType::End => false,
    }
}

/// The name of a symbol of the grammar, and whether it is named.
pub open spec fn own_name(
    g: SyntaxGrammarModel,
    tokens: Seq<LexicalVariableModel>,
    symbol: Symbol,
) -> (Seq<char>, bool) {
    match symbol.kind {
        SymbolType::NonTerminal => (
            g.variables[symbol.index as int].name,
            g.variables[symbol.index as int].kind == VariableType::Named,
        ),
        SymbolType::Terminal => (
            tokens[symbol.index as int].name,
            tokens[symbol.index as int].kind == VariableType::Named,
        ),
        SymbolType::External => (
            g.external_tokens[symbol.index as int].name,
            g.external_tokens[symbol.index as int].kind == VariableType::Named,
        ),
        SymbolType::End => (Seq::empty(), false),
    }
}

/// The name under which a visible symbol shows outside any field: the alias
/// that the map has for it there, or its own name.
pub open spec fn shown_name(
    g: SyntaxGrammarModel,
    tokens: Seq<LexicalVariableModel>,
    aliases: Seq<AliasEntryModel>,
    symbol: Symbol,
) -> (Seq<char>, bool) {
    match alias_for(aliases, symbol, None) {
        Some(alias) => (alias.value, alias.is_named),
        None => own_name(g, tokens, symbol),
    }
}

/// The kind of child that the step `step` gives: the symbol under the alias
/// of the step, where it has one, or under the name it shows outside fields.
pub open spec fn child_of_step(
    g: SyntaxGrammarModel,
    tokens: Seq<LexicalVariableModel>,
    aliases: Seq<AliasEntryModel>,
    step: ProductionStepModel,
) -> ChildTypeModel {
    match step.alias {
        Some(alias) => ChildTypeModel {
            symbol: step.symbol,
            name: alias.value,
            named: alias.is_named,
        },
        None => {
            let (name, named) = shown_name(g, tokens, aliases, step.symbol);
            ChildTypeModel { symbol: step.symbol, name, named }
        },
    }
}

/// Whether the step gives a child in the place `slot`: its symbol shows, and
/// its field is `slot`.
pub open spec fn fills(
    g: SyntaxGrammarModel,
    tokens: Seq<LexicalVariableModel>,
    step: ProductionStepModel,
    slot: Option<Seq<char>>,
) -> bool {
    is_visible(g, tokens, step.symbol) && step.field_name == slot
}

/// `types` with `t`, added at the end unless it is there.
pub open spec fn types_with(types: Seq<ChildTypeModel>, t: ChildTypeModel) -> Seq<ChildTypeModel> {
    if types.contains(t) {
        types
    } else {
        types.push(t)
    }
}

/// The kinds of children that the first `k` of `steps` give in `slot`, added
/// to `acc`.
pub open spec fn step_types(
    g: SyntaxGrammarModel,
    tokens: Seq<LexicalVariableModel>,
    aliases: Seq<AliasEntryModel>,
    steps: Seq<ProductionStepModel>,
    slot: Option<Seq<char>>,
    k: int,
    acc: Seq<ChildTypeModel>,
) -> Seq<ChildTypeModel>
    decreases k,
{
    if k <= 0 {
        acc
    } else {
        let known = step_types(g, tokens, aliases, steps, slot, k - 1, acc);
        if fills(g, tokens, steps[k - 1], slot) {
            types_with(known, child_of_step(g, tokens, aliases, steps[k - 1]))
        } else {
            known
        }
    }
}

/// How many of the first `k` of `steps` give a child in `slot`.
pub open spec fn fill_count(
    g: SyntaxGrammarModel,
    tokens: Seq<LexicalVariableModel>,
    steps: Seq<ProductionStepModel>,
    slot: Option<Seq<char>>,
    k: int,
) -> int
    decreases k,
{
    if k <= 0 {
        0
    } else {
        fill_count(g, tokens, steps, slot, k - 1) + if fills(g, tokens, steps[k - 1], slot) {
            1int
        } else {
            0int
        }
    }
}

/// The children in `slot` according to the first `k` of `productions`,
/// starting from `acc`: more than one where a production gives more than one,
/// always one where every production gives one.
pub open spec fn slot_info(
    g: SyntaxGrammarModel,
    tokens: Seq<LexicalVariableModel>,
    aliases: Seq<AliasEntryModel>,
    productions: Seq<ProductionModel>,
    slot: Option<Seq<char>>,
    k: int,
) -> ChildInfoModel
    decreases k,
{
    if k <= 0 {
        ChildInfoModel { multiple: false, required: productions.len() > 0, types: Seq::empty() }
    } else {
        let known = slot_info(g, tokens, aliases, productions, slot, k - 1);
        let steps = productions[k - 1].steps;
        let count = fill_count(g, tokens, steps, slot, steps.len() as int);
        ChildInfoModel {
            multiple: known.multiple || count >= 2,
            required: known.required && count >= 1,
            types: step_types(g, tokens, aliases, steps, slot, steps.len() as int, known.types),
        }
    }
}

/// `names` with `name`, added at the end unless it is there.
pub open spec fn names_with(names: Seq<Seq<char>>, name: Seq<char>) -> Seq<Seq<char>> {
    if names.contains(name) {
        names
    } else {
        names.push(name)
    }
}

/// The names of the fields in which the first `k` of `steps` give a child,
/// added to `acc`.
pub open spec fn step_fields(
    g: SyntaxGrammarModel,
    tokens: Seq<LexicalVariableModel>,
    steps: Seq<ProductionStepModel>,
    k: int,
    acc: Seq<Seq<char>>,
) -> Seq<Seq<char>>
    decreases k,
{
    if k <= 0 {
        acc
    } else {
        let known = step_fields(g, tokens, steps, k - 1, acc);
        match steps[k - 1].field_name {
            Some(name) => if is_visible(g, tokens, steps[k - 1].symbol) {
                names_with(known, name)
            } else {
                known
            },
            None => known,
        }
    }
}

/// The names of the fields of the first `k` of `productions`, in the order
/// in which they first occur.
pub open spec fn field_names(
    g: SyntaxGrammarModel,
    tokens: Seq<LexicalVariableModel>,
    productions: Seq<ProductionModel>,
    k: int,
) -> Seq<Seq<char>>
    decreases k,
{
    if k <= 0 {
        Seq::empty()
    } else {
        step_fields(
            g,
            tokens,
            productions[k - 1].steps,
            productions[k - 1].steps.len() as int,
            field_names(g, tokens, productions, k - 1),
        )
    }
}

/// The fields named by the first `k` of `names`, each with its children.
pub open spec fn field_infos(
    g: SyntaxGrammarModel,
    tokens: Seq<LexicalVariableModel>,
    aliases: Seq<AliasEntryModel>,
    productions: Seq<ProductionModel>,
    names: Seq<Seq<char>>,
    k: int,
) -> Seq<FieldInfoModel>
    decreases k,
{
    if k <= 0 {
        Seq::empty()
    } else {
        field_infos(g, tokens, aliases, productions, names, k - 1).push(
            FieldInfoModel {
                name: names[k - 1],
                info: slot_info(
                    g,
                    tokens,
                    aliases,
                    productions,
                    Some(names[k - 1]),
                    productions.len() as int,
                ),
            },
        )
    }
}

/// A place without children.
pub open spec fn no_children() -> ChildInfoModel {
    ChildInfoModel { multiple: false, required: false, types: Seq::empty() }
}

/// The shape of the nodes of the rule numbered `v`.
pub open spec fn rule_node_type(
    g: SyntaxGrammarModel,
    tokens: Seq<LexicalVariableModel>,
    aliases: Seq<AliasEntryModel>,
    v: int,
) -> NodeTypeModel {
    let symbol = Symbol { kind: SymbolType::NonTerminal, index: v as usize };
    let (name, named) = shown_name(g, tokens, aliases, symbol);
    let productions = g.variables[v].productions;
    let names = field_names(g, tokens, productions, productions.len() as int);
    NodeTypeModel {
        symbol,
        name,
        named,
        children: slot_info(g, tokens, aliases, productions, None, productions.len() as int),
        fields: field_infos(g, tokens, aliases, productions, names, names.len() as int),
    }
}

/// The shape of the nodes of a symbol without children.
pub open spec fn leaf_node_type(
    g: SyntaxGrammarModel,
    tokens: Seq<LexicalVariableModel>,
    aliases: Seq<AliasEntryModel>,
    symbol: Symbol,
) -> NodeTypeModel {
    let (name, named) = shown_name(g, tokens, aliases, symbol);
    NodeTypeModel { symbol, name, named, children: no_children(), fields: Seq::empty() }
}

/// The shapes of the visible rules among the first `k`.
pub open spec fn rule_node_types(
    g: SyntaxGrammarModel,
    tokens: Seq<LexicalVariableModel>,
    aliases: Seq<AliasEntryModel>,
    k: int,
) -> Seq<NodeTypeModel>
    decreases k,
{
    if k <= 0 {
        Seq::empty()
    } else {
        let known = rule_node_types(g, tokens, aliases, k - 1);
        if shows(g.variables[k - 1].kind) {
            known.push(rule_node_type(g, tokens, aliases, k - 1))
        } else {
            known
        }
    }
}

/// `acc` with the shapes of the visible tokens among the first `k`.
pub open spec fn with_token_node_types(
    g: SyntaxGrammarModel,
    tokens: Seq<LexicalVariableModel>,
    aliases: Seq<AliasEntryModel>,
    k: int,
    acc: Seq<NodeTypeModel>,
) -> Seq<NodeTypeModel>
    decreases k,
{
    if k <= 0 {
        acc
    } else {
        let known = with_token_node_types(g, tokens, aliases, k - 1, acc);
        if shows(tokens[k - 1].kind) {
            known.push(
                leaf_node_type(
                    g,
                    tokens,
                    aliases,
                    Symbol { kind: SymbolType::Terminal, index: (k - 1) as usize },
                ),
            )
        } else {
            known
        }
    }
}

/// `acc` with the shapes of the visible external tokens among the first `k`.
pub open spec fn with_external_node_types(
    g: SyntaxGrammarModel,
    tokens: Seq<LexicalVariableModel>,
    aliases: Seq<AliasEntryModel>,
    k: int,
    acc: Seq<NodeTypeModel>,
) -> Seq<NodeTypeModel>
    decreases k,
{
    if k <= 0 {
        acc
    } else {
        let known = with_external_node_types(g, tokens, aliases, k - 1, acc);
        if shows(g.external_tokens[k - 1].kind) {
            known.push(
                leaf_node_type(
                    g,
                    tokens,
                    aliases,
                    Symbol { kind: SymbolType::External, index: (k - 1) as usize },
                ),
            )
        } else {
            known
        }
    }
}

/// The shapes of the nodes of the grammar: one for each visible symbol, the
/// rules first, then the tokens, then the external tokens.
pub open spec fn node_types(
    g: SyntaxGrammarModel,
    tokens: Seq<LexicalVariableModel>,
    aliases: Seq<AliasEntryModel>,
) -> Seq<NodeTypeModel> {
    with_external_node_types(
        g,
        tokens,
        aliases,
        g.external_tokens.len() as int,
        with_token_node_types(
            g,
            tokens,
            aliases,
            tokens.len() as int,
            rule_node_types(g, tokens, aliases, g.variables.len() as int),
        ),
    )
}

/// Whether nodes of the kind `kind` show in the tree.
pub fn kind_shows(kind: VariableType) -> (b: bool)
    ensures
        b == shows(kind),
{
    kind == VariableType::Named || kind == VariableType::Anonymous
}

/// Whether `symbol` is a symbol of the grammar that shows in the tree.
pub fn symbol_is_visible(grammar: &SyntaxGrammar, tokens: &Vec<LexicalVariable>, symbol: Symbol)
    -> (b: bool)
    ensures
        b == is_visible(grammar@, lexical_variables_model(tokens@), symbol),
{
    match symbol.kind {
        SymbolType::NonTerminal => {
            if symbol.index < grammar.variables.len() {
                assert(grammar@.variables[symbol.index as int]
                    == grammar.variables@[symbol.index as int]@);
                kind_shows(grammar.variables[symbol.index].kind)
            } else {
                false
            }
        },
        SymbolType::Terminal => {
            if symbol.index < tokens.len() {
                assert(lexical_variables_model(tokens@)[symbol.index as int]
                    == tokens@[symbol.index as int]@);
                kind_shows(tokens[symbol.index].kind)
            } else {
                false
            }
        },
        SymbolType::External => {
            if symbol.index < grammar.external_tokens.len() {
                assert(grammar@.external_tokens[symbol.index as int]
                    == grammar.external_tokens@[symbol.index as int]@);
                kind_shows(grammar.external_tokens[symbol.index].kind)
            } else {
                false
            }
        },
        SymbolType::End => false,
    }
}

/// The name under which a visible symbol shows outside any field.
fn name_shown(
    grammar: &SyntaxGrammar,
    tokens: &Vec<LexicalVariable>,
    aliases: &AliasMap,
    symbol: Symbol,
) -> (r: (String, bool))
    requires
        is_visible(grammar@, lexical_variables_model(tokens@), symbol),
    ensures
        (r.0@, r.1) == shown_name(grammar@, lexical_variables_model(tokens@), aliases@, symbol),
{
    match aliases.get(symbol, &None) {
        Some(alias) => (alias.value.clone(), alias.is_named),
        None => match symbol.kind {
            SymbolType::NonTerminal => {
                assert(grammar@.variables[symbol.index as int]
                    == grammar.variables@[symbol.index as int]@);
                (
                    grammar.variables[symbol.index].name.clone(),
                    grammar.variables[symbol.index].kind == VariableType::Named,
                )
            },
            SymbolType::Terminal => {
                assert(lexical_variables_model(tokens@)[symbol.index as int]
                    == tokens@[symbol.index as int]@);
                (
                    tokens[symbol.index].name.clone(),
                    tokens[symbol.index].kind == VariableType::Named,
                )
            },
            SymbolType::External => {
                assert(grammar@.external_tokens[symbol.index as int]
                    == grammar.external_tokens@[symbol.index as int]@);
                (
                    grammar.external_tokens[symbol.index].name.clone(),
                    grammar.external_tokens[symbol.index].kind == VariableType::Named,
                )
            },
            SymbolType::End => (String::new(), false),
        },
    }
}

/// Adds to `types` the kinds of children that `steps` give in `slot`;
/// returns how many steps give one.
fn add_step_types(
    grammar: &SyntaxGrammar,
    tokens: &Vec<LexicalVariable>,
    aliases: &AliasMap,
    steps: &Vec<ProductionStep>,
    slot: &Option<String>,
    types: &mut Vec<ChildType>,
) -> (count: usize)
    ensures
        child_types_model(final(types)@) == step_types(
            grammar@,
            lexical_variables_model(tokens@),
            aliases@,
            crate::grammars::steps_model(steps@),
            string_option_model(*slot),
            steps@.len() as int,
            child_types_model(old(types)@),
        ),
        count as int == fill_count(
            grammar@,
            lexical_variables_model(tokens@),
            crate::grammars::steps_model(steps@),
            string_option_model(*slot),
            steps@.len() as int,
        ),
{
    let ghost g = grammar@;
    let ghost tk = lexical_variables_model(tokens@);
    let ghost src = crate::grammars::steps_model(steps@);
    let ghost place = string_option_model(*slot);
    let ghost start = child_types_model(types@);
    let mut count: usize = 0;
    let mut k: usize = 0;
    while k < steps.len()
        invariant
            k <= steps@.len(),
            g == grammar@,
            tk == lexical_variables_model(tokens@),
            src == crate::grammars::steps_model(steps@),
            place == string_option_model(*slot),
            count <= k,
            count as int == fill_count(g, tk, src, place, k as int),
            child_types_model(types@) == step_types(g, tk, aliases@, src, place, k as int, start),
        decreases steps@.len() - k,
    {
        let step = &steps[k];
        assert(src[k as int] == step@);
        if symbol_is_visible(grammar, tokens, step.symbol) && same_string_option(
            &step.field_name,
            slot,
        ) {
            count += 1;
            let (name, named) = match &step.alias {
                Some(alias) => (alias.value.clone(), alias.is_named),
                None => name_shown(grammar, tokens, aliases, step.symbol),
            };
            let child = ChildType { symbol: step.symbol, name, named };
            assert(child@ == child_of_step(g, tk, aliases@, step@));
            let ghost known = child_types_model(types@);
            let mut seen = false;
            let mut i: usize = 0;
            while i < types.len() && !seen
                invariant
                    i <= types@.len(),
                    known == child_types_model(types@),
                    seen ==> known.contains(child@),
                    !seen ==> forall|m: int| 0 <= m < i ==> #[trigger] known[m] != child@,
                decreases types@.len() - i,
            {
                assert(known[i as int] == types@[i as int]@);
                let r = types[i].name == child.name;
                if types[i].symbol == child.symbol && r && types[i].named == child.named {
                    seen = true;
                    assert(known[i as int] == child@);
                }
                i += 1;
            }
            if !seen {
                let ghost before = types@;
                types.push(child);
                assert(child_types_model(types@) =~= child_types_model(before).push(child@));
            }
        }
        k += 1;
    }
    count
}

/// The children in `slot` of the nodes whose productions are `productions`.
fn collect_slot(
    grammar: &SyntaxGrammar,
    tokens: &Vec<LexicalVariable>,
    aliases: &AliasMap,
    productions: &Vec<crate::grammars::Production>,
    slot: &Option<String>,
) -> (info: ChildInfo)
    ensures
        info@ == slot_info(
            grammar@,
            lexical_variables_model(tokens@),
            aliases@,
            crate::grammars::productions_model(productions@),
            string_option_model(*slot),
            productions@.len() as int,
        ),
{
    let ghost g = grammar@;
    let ghost tk = lexical_variables_model(tokens@);
    let ghost ps = crate::grammars::productions_model(productions@);
    let ghost place = string_option_model(*slot);
    let mut info = ChildInfo { multiple: false, required: productions.len() > 0, types: Vec::new() };
    assert(info@.types =~= Seq::empty());
    let mut k: usize = 0;
    while k < productions.len()
        invariant
            k <= productions@.len(),
            g == grammar@,
            tk == lexical_variables_model(tokens@),
            ps == crate::grammars::productions_model(productions@),
            place == string_option_model(*slot),
            info@ == slot_info(g, tk, aliases@, ps, place, k as int),
        decreases productions@.len() - k,
    {
        assert(ps[k as int] == productions@[k as int]@);
        let count = add_step_types(
            grammar,
            tokens,
            aliases,
            &productions[k].steps,
            slot,
            &mut info.types,
        );
        if count >= 2 {
            info.multiple = true;
        }
        if count < 1 {
            info.required = false;
        }
        k += 1;
    }
    info
}

/// The names of the fields of `productions`.
fn collect_field_names(
    grammar: &SyntaxGrammar,
    tokens: &Vec<LexicalVariable>,
    productions: &Vec<crate::grammars::Production>,
) -> (names: Vec<String>)
    ensures
        crate::grammars::strings_model(names@) == field_names(
            grammar@,
            lexical_variables_model(tokens@),
            crate::grammars::productions_model(productions@),
            productions@.len() as int,
        ),
{
    let ghost g = grammar@;
    let ghost tk = lexical_variables_model(tokens@);
    let ghost ps = crate::grammars::productions_model(productions@);
    let mut names: Vec<String> = Vec::new();
    assert(crate::grammars::strings_model(names@) =~= Seq::empty());
    let mut k: usize = 0;
    while k < productions.len()
        invariant
            k <= productions@.len(),
            g == grammar@,
            tk == lexical_variables_model(tokens@),
            ps == crate::grammars::productions_model(productions@),
            crate::grammars::strings_model(names@) == field_names(g, tk, ps, k as int),
        decreases productions@.len() - k,
    {
        assert(ps[k as int] == productions@[k as int]@);
        let steps = &productions[k].steps;
        let ghost src = crate::grammars::steps_model(steps@);
        let ghost start = crate::grammars::strings_model(names@);
        let mut j: usize = 0;
        while j < steps.len()
            invariant
                j <= steps@.len(),
                g == grammar@,
                tk == lexical_variables_model(tokens@),
                src == crate::grammars::steps_model(steps@),
                crate::grammars::strings_model(names@) == step_fields(g, tk, src, j as int, start),
            decreases steps@.len() - j,
        {
            let step = &steps[j];
            assert(src[j as int] == step@);
            match &step.field_name {
                Some(name) => {
                    if symbol_is_visible(grammar, tokens, step.symbol) {
                        let ghost known = crate::grammars::strings_model(names@);
                        let mut seen = false;
                        let mut i: usize = 0;
                        while i < names.len() && !seen
                            invariant
                                i <= names@.len(),
                                known == crate::grammars::strings_model(names@),
                                seen ==> known.contains(name@),
                                !seen ==> forall|m: int| 0 <= m < i ==> #[trigger] known[m] != name@,
                            decreases names@.len() - i,
                        {
                            assert(known[i as int] == names@[i as int]@);
                            let r = names[i] == *name;
                            if r {
                                seen = true;
                                assert(known[i as int] == name@);
                            }
                            i += 1;
                        }
                        if !seen {
                            let ghost before = names@;
                            names.push(name.clone());
                            assert(crate::grammars::strings_model(names@)
                                =~= crate::grammars::strings_model(before).push(name@));
                        }
                    }
                },
                None => {},
            }
            j += 1;
        }
        k += 1;
    }
    names
}

/// The shape of the nodes of the rule numbered `v`.
fn make_rule_node_type(
    grammar: &SyntaxGrammar,
    tokens: &Vec<LexicalVariable>,
    aliases: &AliasMap,
    v: usize,
) -> (r: NodeType)
    requires
        v < grammar.variables@.len(),
        shows(grammar.variables@[v as int].kind),
    ensures
        r@ == rule_node_type(grammar@, lexical_variables_model(tokens@), aliases@, v as int),
{
    let ghost g = grammar@;
    let ghost tk = lexical_variables_model(tokens@);
    let symbol = Symbol::non_terminal(v);
    assert(g.variables[v as int] == grammar.variables@[v as int]@);
    let (name, named) = name_shown(grammar, tokens, aliases, symbol);
    let productions = &grammar.variables[v].productions;
    let ghost ps = crate::grammars::productions_model(productions@);
    assert(g.variables[v as int].productions == ps);
    let names = collect_field_names(grammar, tokens, productions);
    let ghost wanted_names = crate::grammars::strings_model(names@);
    let mut fields: Vec<FieldInfo> = Vec::new();
    assert(fields_model(fields@) =~= Seq::empty());
    let mut k: usize = 0;
    while k < names.len()
        invariant
            k <= names@.len(),
            g == grammar@,
            tk == lexical_variables_model(tokens@),
            ps == crate::grammars::productions_model(productions@),
            wanted_names == crate::grammars::strings_model(names@),
            fields_model(fields@) == field_infos(g, tk, aliases@, ps, wanted_names, k as int),
        decreases names@.len() - k,
    {
        assert(wanted_names[k as int] == names@[k as int]@);
        let slot = Some(names[k].clone());
        let info = collect_slot(grammar, tokens, aliases, productions, &slot);
        let ghost before = fields@;
        let field = FieldInfo { name: names[k].clone(), info };
        fields.push(field);
        assert(fields_model(fields@) =~= fields_model(before).push(field@));
        k += 1;
    }
    NodeType {
        symbol,
        name,
        named,
        children: collect_slot(grammar, tokens, aliases, productions, &None),
        fields,
    }
}

/// The shape of the nodes of a symbol without children.
fn make_leaf_node_type(
    grammar: &SyntaxGrammar,
    tokens: &Vec<LexicalVariable>,
    aliases: &AliasMap,
    symbol: Symbol,
) -> (r: NodeType)
    requires
        is_visible(grammar@, lexical_variables_model(tokens@), symbol),
    ensures
        r@ == leaf_node_type(grammar@, lexical_variables_model(tokens@), aliases@, symbol),
{
    let (name, named) = name_shown(grammar, tokens, aliases, symbol);
    let children = ChildInfo { multiple: false, required: false, types: Vec::new() };
    assert(children@.types =~= Seq::empty());
    let r = NodeType { symbol, name, named, children, fields: Vec::new() };
    assert(r@.fields =~= Seq::empty());
    r
}

/// The shapes of the nodes of the grammar: one for each symbol that shows in
/// the tree.
pub fn generate_node_types(
    grammar: &SyntaxGrammar,
    tokens: &Vec<LexicalVariable>,
    aliases: &AliasMap,
) -> (types: Vec<NodeType>)
    ensures
        node_types_model(types@) == node_types(
            grammar@,
            lexical_variables_model(tokens@),
            aliases@,
        ),
{
    let ghost g = grammar@;
    let ghost tk = lexical_variables_model(tokens@);
    let mut types: Vec<NodeType> = Vec::new();
    assert(node_types_model(types@) =~= Seq::empty());
    let mut v: usize = 0;
    while v < grammar.variables.len()
        invariant
            v <= grammar.variables@.len(),
            g == grammar@,
            tk == lexical_variables_model(tokens@),
            node_types_model(types@) == rule_node_types(g, tk, aliases@, v as int),
        decreases grammar.variables@.len() - v,
    {
        assert(g.variables[v as int] == grammar.variables@[v as int]@);
        if kind_shows(grammar.variables[v].kind) {
            let ghost before = types@;
            let made = make_rule_node_type(grammar, tokens, aliases, v);
            types.push(made);
            assert(node_types_model(types@) =~= node_types_model(before).push(made@));
        }
        v += 1;
    }
    let ghost rules = node_types_model(types@);
    let mut t: usize = 0;
    while t < tokens.len()
        invariant
            t <= tokens@.len(),
            g == grammar@,
            tk == lexical_variables_model(tokens@),
            node_types_model(types@) == with_token_node_types(g, tk, aliases@, t as int, rules),
        decreases tokens@.len() - t,
    {
        assert(tk[t as int] == tokens@[t as int]@);
        if kind_shows(tokens[t].kind) {
            let ghost before = types@;
            let made = make_leaf_node_type(grammar, tokens, aliases, Symbol::terminal(t));
            types.push(made);
            assert(node_types_model(types@) =~= node_types_model(before).push(made@));
        }
        t += 1;
    }
    let ghost with_tokens = node_types_model(types@);
    let mut x: usize = 0;
    while x < grammar.external_tokens.len()
        invariant
            x <= grammar.external_tokens@.len(),
            g == grammar@,
            tk == lexical_variables_model(tokens@),
            node_types_model(types@) == with_external_node_types(
                g,
                tk,
                aliases@,
                x as int,
                with_tokens,
            ),
        decreases grammar.external_tokens@.len() - x,
    {
        assert(g.external_tokens[x as int] == grammar.external_tokens@[x as int]@);
        if kind_shows(grammar.external_tokens[x].kind) {
            let ghost before = types@;
            let made = make_leaf_node_type(grammar, tokens, aliases, Symbol::external(x));
            types.push(made);
            assert(node_types_model(types@) =~= node_types_model(before).push(made@));
        }
        x += 1;
    }
    types
}

/// Whether every kind of child in `types` is of a visible symbol.
pub open spec fn all_visible(
    g: SyntaxGrammarModel,
    tokens: Seq<LexicalVariableModel>,
    types: Seq<ChildTypeModel>,
) -> bool {
    forall|i: int| 0 <= i < types.len() ==> is_visible(g, tokens, (#[trigger] types[i]).symbol)
}

/// Whether the node type is of a visible symbol and names only visible
/// symbols as its children.
pub open spec fn names_visible_symbols(
    g: SyntaxGrammarModel,
    tokens: Seq<LexicalVariableModel>,
    t: NodeTypeModel,
) -> bool {
    &&& is_visible(g, tokens, t.symbol)
    &&& all_visible(g, tokens, t.children.types)
    &&& forall|f: int|
        0 <= f < t.fields.len() ==> all_visible(g, tokens, (#[trigger] t.fields[f]).info.types)
}

/// Whether `symbol` is named in `types`: as the symbol of a node type, or as
/// the symbol of a child of one, outside fields or in a field.
pub open spec fn is_referenced(types: Seq<NodeTypeModel>, symbol: Symbol) -> bool {
    exists|i: int|
        0 <= i < types.len() && ((#[trigger] types[i]).symbol == symbol || (exists|j: int|
            0 <= j < types[i].children.types.len() && (
            #[trigger] types[i].children.types[j]).symbol == symbol) || (exists|f: int, j: int|
            0 <= f < types[i].fields.len() && 0 <= j < types[i].fields[f].info.types.len() && (
            #[trigger] types[i].fields[f].info.types[j]).symbol == symbol))
}

proof fn lemma_step_types_visible(
    g: SyntaxGrammarModel,
    tokens: Seq<LexicalVariableModel>,
    aliases: Seq<AliasEntryModel>,
    steps: Seq<ProductionStepModel>,
    slot: Option<Seq<char>>,
    k: int,
    acc: Seq<ChildTypeModel>,
)
    requires
        all_visible(g, tokens, acc),
    ensures
        all_visible(g, tokens, step_types(g, tokens, aliases, steps, slot, k, acc)),
    decreases k,
{
    if k > 0 {
        lemma_step_types_visible(g, tokens, aliases, steps, slot, k - 1, acc);
    }
}

proof fn lemma_slot_info_visible(
    g: SyntaxGrammarModel,
    tokens: Seq<LexicalVariableModel>,
    aliases: Seq<AliasEntryModel>,
    productions: Seq<ProductionModel>,
    slot: Option<Seq<char>>,
    k: int,
)
    ensures
        all_visible(g, tokens, slot_info(g, tokens, aliases, productions, slot, k).types),
    decreases k,
{
    if k > 0 {
        lemma_slot_info_visible(g, tokens, aliases, productions, slot, k - 1);
        lemma_step_types_visible(
            g,
            tokens,
            aliases,
            productions[k - 1].steps,
            slot,
            productions[k - 1].steps.len() as int,
            slot_info(g, tokens, aliases, productions, slot, k - 1).types,
        );
    }
}

proof fn lemma_field_infos_visible(
    g: SyntaxGrammarModel,
    tokens: Seq<LexicalVariableModel>,
    aliases: Seq<AliasEntryModel>,
    productions: Seq<ProductionModel>,
    names: Seq<Seq<char>>,
    k: int,
)
    ensures
        forall|f: int|
            0 <= f < field_infos(g, tokens, aliases, productions, names, k).len()
                ==> all_visible(
                g,
                tokens,
                (#[trigger] field_infos(g, tokens, aliases, productions, names, k)[f]).info.types,
            ),
    decreases k,
{
    if k > 0 {
        lemma_field_infos_visible(g, tokens, aliases, productions, names, k - 1);
        lemma_slot_info_visible(
            g,
            tokens,
            aliases,
            productions,
            Some(names[k - 1]),
            productions.len() as int,
        );
        let before = field_infos(g, tokens, aliases, productions, names, k - 1);
        let after = field_infos(g, tokens, aliases, productions, names, k);
        assert forall|f: int| 0 <= f < after.len() implies all_visible(
            g,
            tokens,
            (#[trigger] after[f]).info.types,
        ) by {
            if f < before.len() {
                assert(after[f] == before[f]);
            }
        }
    }
}

/// What holds of the node types of the first rules, tokens and external
/// tokens: each names only visible symbols, and each visible symbol among
/// those looked at has a node type.
spec fn covers(
    g: SyntaxGrammarModel,
    tokens: Seq<LexicalVariableModel>,
    types: Seq<NodeTypeModel>,
    rules: int,
    seen_tokens: int,
    externals: int,
) -> bool {
    &&& forall|i: int| 0 <= i < types.len() ==> names_visible_symbols(g, tokens, #[trigger] types[i])
    &&& forall|s: Symbol|
        #![trigger is_visible(g, tokens, s)]
        is_visible(g, tokens, s) && ((s.kind == SymbolType::NonTerminal && s.index < rules) || (
        s.kind == SymbolType::Terminal && s.index < seen_tokens) || (s.kind
            == SymbolType::External && s.index < externals)) ==> exists|i: int|
            0 <= i < types.len() && (#[trigger] types[i]).symbol == s
}

proof fn lemma_rule_node_types_cover(
    g: SyntaxGrammarModel,
    tokens: Seq<LexicalVariableModel>,
    aliases: Seq<AliasEntryModel>,
    k: int,
)
    requires
        0 <= k <= g.variables.len() <= usize::MAX,
    ensures
        covers(g, tokens, rule_node_types(g, tokens, aliases, k), k, 0, 0),
    decreases k,
{
    if k > 0 {
        lemma_rule_node_types_cover(g, tokens, aliases, k - 1);
        let before = rule_node_types(g, tokens, aliases, k - 1);
        let after = rule_node_types(g, tokens, aliases, k);
        let symbol = Symbol { kind: SymbolType::NonTerminal, index: (k - 1) as usize };
        if shows(g.variables[k - 1].kind) {
            let made = rule_node_type(g, tokens, aliases, k - 1);
            let productions = g.variables[k - 1].productions;
            let names = field_names(g, tokens, productions, productions.len() as int);
            lemma_slot_info_visible(g, tokens, aliases, productions, None, productions.len() as int);
            lemma_field_infos_visible(g, tokens, aliases, productions, names, names.len() as int);
            assert(names_visible_symbols(g, tokens, made));
            assert forall|i: int| 0 <= i < after.len() implies names_visible_symbols(
                g,
                tokens,
                #[trigger] after[i],
            ) by {
                if i < before.len() {
                    assert(after[i] == before[i]);
                }
            }
        }
        assert forall|s: Symbol|
            #![trigger is_visible(g, tokens, s)]
            is_visible(g, tokens, s) && s.kind == SymbolType::NonTerminal && s.index
                < k implies exists|i: int| 0 <= i < after.len() && (#[trigger] after[i]).symbol == s by {
            if s.index < k - 1 {
                let i = choose|i: int| 0 <= i < before.len() && (#[trigger] before[i]).symbol == s;
                assert(after[i] == before[i]);
            } else {
                assert(s == symbol);
                assert(after[after.len() - 1].symbol == s);
            }
        }
    }
}

proof fn lemma_token_node_types_cover(
    g: SyntaxGrammarModel,
    tokens: Seq<LexicalVariableModel>,
    aliases: Seq<AliasEntryModel>,
    k: int,
    acc: Seq<NodeTypeModel>,
    rules: int,
)
    requires
        0 <= k <= tokens.len() <= usize::MAX,
        covers(g, tokens, acc, rules, 0, 0),
    ensures
        covers(g, tokens, with_token_node_types(g, tokens, aliases, k, acc), rules, k, 0),
    decreases k,
{
    if k > 0 {
        lemma_token_node_types_cover(g, tokens, aliases, k - 1, acc, rules);
        let before = with_token_node_types(g, tokens, aliases, k - 1, acc);
        let after = with_token_node_types(g, tokens, aliases, k, acc);
        let symbol = Symbol { kind: SymbolType::Terminal, index: (k - 1) as usize };
        if shows(tokens[k - 1].kind) {
            let made = leaf_node_type(g, tokens, aliases, symbol);
            assert(names_visible_symbols(g, tokens, made));
            assert forall|i: int| 0 <= i < after.len() implies names_visible_symbols(
                g,
                tokens,
                #[trigger] after[i],
            ) by {
                if i < before.len() {
                    assert(after[i] == before[i]);
                }
            }
        }
        assert forall|s: Symbol|
            #![trigger is_visible(g, tokens, s)]
            is_visible(g, tokens, s) && ((s.kind == SymbolType::NonTerminal && s.index < rules)
                || (s.kind == SymbolType::Terminal && s.index < k)) implies exists|i: int|
            0 <= i < after.len() && (#[trigger] after[i]).symbol == s by {
            if s.kind == SymbolType::Terminal && s.index == k - 1 {
                assert(s == symbol);
                assert(after[after.len() - 1].symbol == s);
            } else {
                let i = choose|i: int| 0 <= i < before.len() && (#[trigger] before[i]).symbol == s;
                assert(after[i] == before[i]);
            }
        }
    }
}

proof fn lemma_external_node_types_cover(
    g: SyntaxGrammarModel,
    tokens: Seq<LexicalVariableModel>,
    aliases: Seq<AliasEntryModel>,
    k: int,
    acc: Seq<NodeTypeModel>,
    rules: int,
    seen_tokens: int,
)
    requires
        0 <= k <= g.external_tokens.len() <= usize::MAX,
        covers(g, tokens, acc, rules, seen_tokens, 0),
    ensures
        covers(
            g,
            tokens,
            with_external_node_types(g, tokens, aliases, k, acc),
            rules,
            seen_tokens,
            k,
        ),
    decreases k,
{
    if k > 0 {
        lemma_external_node_types_cover(g, tokens, aliases, k - 1, acc, rules, seen_tokens);
        let before = with_external_node_types(g, tokens, aliases, k - 1, acc);
        let after = with_external_node_types(g, tokens, aliases, k, acc);
        let symbol = Symbol { kind: SymbolType::External, index: (k - 1) as usize };
        if shows(g.external_tokens[k - 1].kind) {
            let made = leaf_node_type(g, tokens, aliases, symbol);
            assert(names_visible_symbols(g, tokens, made));
            assert forall|i: int| 0 <= i < after.len() implies names_visible_symbols(
                g,
                tokens,
                #[trigger] after[i],
            ) by {
                if i < before.len() {
                    assert(after[i] == before[i]);
                }
            }
        }
        assert forall|s: Symbol|
            #![trigger is_visible(g, tokens, s)]
            is_visible(g, tokens, s) && ((s.kind == SymbolType::NonTerminal && s.index < rules)
                || (s.kind == SymbolType::Terminal && s.index < seen_tokens) || (s.kind
                == SymbolType::External && s.index < k)) implies exists|i: int|
            0 <= i < after.len() && (#[trigger] after[i]).symbol == s by {
            if s.kind == SymbolType::External && s.index == k - 1 {
                assert(s == symbol);
                assert(after[after.len() - 1].symbol == s);
            } else {
                let i = choose|i: int| 0 <= i < before.len() && (#[trigger] before[i]).symbol == s;
                assert(after[i] == before[i]);
            }
        }
    }
}

/// The symbols that the node types name are exactly the visible symbols of
/// the grammar: every visible rule, token and external token has a node type,
/// and every symbol named, as a node type or as a child, is visible.
pub proof fn node_types_name_exactly_the_visible_symbols(
    g: SyntaxGrammarModel,
    tokens: Seq<LexicalVariableModel>,
    aliases: Seq<AliasEntryModel>,
    symbol: Symbol,
)
    requires
        g.variables.len() <= usize::MAX,
        tokens.len() <= usize::MAX,
        g.external_tokens.len() <= usize::MAX,
    ensures
        is_referenced(node_types(g, tokens, aliases), symbol) == is_visible(g, tokens, symbol),
{
    let rules = rule_node_types(g, tokens, aliases, g.variables.len() as int);
    lemma_rule_node_types_cover(g, tokens, aliases, g.variables.len() as int);
    let with_tokens = with_token_node_types(g, tokens, aliases, tokens.len() as int, rules);
    lemma_token_node_types_cover(
        g,
        tokens,
        aliases,
        tokens.len() as int,
        rules,
        g.variables.len() as int,
    );
    lemma_external_node_types_cover(
        g,
        tokens,
        aliases,
        g.external_tokens.len() as int,
        with_tokens,
        g.variables.len() as int,
        tokens.len() as int,
    );
    let types = node_types(g, tokens, aliases);
    if is_visible(g, tokens, symbol) {
        let i = choose|i: int| 0 <= i < types.len() && (#[trigger] types[i]).symbol == symbol;
        assert(is_referenced(types, symbol));
    }
    if is_referenced(types, symbol) {
        let i = choose|i: int|
            0 <= i < types.len() && ((#[trigger] types[i]).symbol == symbol || (exists|j: int|
                0 <= j < types[i].children.types.len() && (
                #[trigger] types[i].children.types[j]).symbol == symbol) || (exists|
                f: int,
                j: int,
            |
                0 <= f < types[i].fields.len() && 0 <= j < types[i].fields[f].info.types.len() && (
                #[trigger] types[i].fields[f].info.types[j]).symbol == symbol));
        assert(names_visible_symbols(g, tokens, types[i]));
        if types[i].symbol == symbol {
        } else if exists|j: int|
            0 <= j < types[i].children.types.len() && (
            #[trigger] types[i].children.types[j]).symbol == symbol {
            let j = choose|j: int|
                0 <= j < types[i].children.types.len() && (
                #[trigger] types[i].children.types[j]).symbol == symbol;
            assert(is_visible(g, tokens, types[i].children.types[j].symbol));
        } else {
            let (f, j) = choose|f: int, j: int|
                0 <= f < types[i].fields.len() && 0 <= j < types[i].fields[f].info.types.len() && (
                #[trigger] types[i].fields[f].info.types[j]).symbol == symbol;
            assert(all_visible(g, tokens, types[i].fields[f].info.types));
            assert(is_visible(g, tokens, types[i].fields[f].info.types[j].symbol));
        }
    }
}

} // verus!
