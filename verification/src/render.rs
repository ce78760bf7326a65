//! Writes out what was built: the tables as source text for a table-driven
//! parser, and the shapes of the nodes as a JSON document. Nothing is decided
//! here; every text is a function of the tables and the grammars.
use vstd::prelude::*;
use crate::build_tables::{Tables, TablesModel};
use crate::grammars::{
    LexicalVariable, LexicalVariableModel, ProductionId, SyntaxGrammar, SyntaxGrammarModel,
};
use crate::nfa::CharRange;
use crate::node_types::{
    child_types_model, fields_model, node_types_model, own_name, shown_name, ChildInfo,
    ChildInfoModel, ChildType, ChildTypeModel, FieldInfo, FieldInfoModel, NodeType,
    NodeTypeModel,
};
use crate::prepare_grammar::extract_aliases::{AliasEntryModel, AliasMap};
use crate::prepare_grammar::expand_tokens::lexical_variables_model;
use crate::rules::{kind_rank, Symbol, SymbolType};
use crate::tables::{
    entries_model, lex_states_model, parse_states_model, LexState, LexStateModel, ParseAction,
    ParseState, ParseStateModel, ParseTableEntry, ParseTableEntryModel,
};
use crate::text::{
    decimal, push_chars, push_decimal, push_signed_decimal, push_text, signed_decimal,
    string_chars,
};

verus! {

/// How the character `c` is written inside a quoted string: a quote and a
/// backslash behind a backslash, a line feed, a carriage return and a tab by
/// their letter behind a backslash, any other character as it is.
pub open spec fn quoted_char(c: char) -> Seq<char> {
    if c == '"' {
        seq!['\\', '"']
    } else if c == '\\' {
        seq!['\\', '\\']
    } else if c == '\n' {
        seq!['\\', 'n']
    } else if c == '\r' {
        seq!['\\', 'r']
    } else if c == '\t' {
        seq!['\\', 't']
    } else {
        seq![c]
    }
}

/// The first `k` characters of `s` as they are written inside a quoted
/// string.
pub open spec fn quoted_chars(s: Seq<char>, k: int) -> Seq<char>
    decreases k,
{
    if k <= 0 {
        Seq::empty()
    } else {
        quoted_chars(s, k - 1) + quoted_char(s[k - 1])
    }
}

/// `s` as a quoted string.
pub open spec fn quoted(s: Seq<char>) -> Seq<char> {
    seq!['"'] + quoted_chars(s, s.len() as int) + seq!['"']
}

/// `true` or `false`.
pub open spec fn truth(b: bool) -> Seq<char> {
    if b {
        "true"@
    } else {
        "false"@
    }
}

/// Appends `s` as a quoted string.
pub fn push_quoted(out: &mut String, s: &String)
    ensures
        final(out)@ == old(out)@ + quoted(s@),
{
    proof {
        reveal_strlit("\"");
    }
    let chars = string_chars(s);
    push_text(out, "\"");
    let ghost start = out@;
    assert(start =~= old(out)@ + seq!['"']);
    let mut k: usize = 0;
    assert(out@ =~= start + quoted_chars(s@, 0));
    while k < chars.len()
        invariant
            k <= chars@.len(),
            chars@ == s@,
            out@ == start + quoted_chars(s@, k as int),
        decreases chars@.len() - k,
    {
        let c: char = chars[k];
        let ghost before = out@;
        proof {
            reveal_strlit("\\\"");
            reveal_strlit("\\\\");
            reveal_strlit("\\n");
            reveal_strlit("\\r");
            reveal_strlit("\\t");
        }
        if c == '"' {
            push_text(out, "\\\"");
        } else if c == '\\' {
            push_text(out, "\\\\");
        } else if c == '\n' {
            push_text(out, "\\n");
        } else if c == '\r' {
            push_text(out, "\\r");
        } else if c == '\t' {
            push_text(out, "\\t");
        } else {
            let mut one: Vec<char> = Vec::new();
            one.push(c);
            push_chars(out, &one);
        }
        assert(out@ =~= before + quoted_char(c));
        assert(out@ =~= start + quoted_chars(s@, k + 1));
        k += 1;
    }
    push_text(out, "\"");
    assert(out@ =~= old(out)@ + quoted(s@));
}

/// Appends `true` or `false`.
pub fn push_truth(out: &mut String, b: bool)
    ensures
        final(out)@ == old(out)@ + truth(b),
{
    if b {
        push_text(out, "true");
    } else {
        push_text(out, "false");
    }
}

// The shapes of the nodes

/// One kind of child, as an object on lines of its own.
pub open spec fn child_type_text(t: ChildTypeModel) -> Seq<char> {
    "          {\n            \"type\": "@ + quoted(t.name) + ",\n            \"named\": "@ + truth(
        t.named,
    ) + "\n          }"@
}

/// The first `k` kinds of children, separated by commas.
pub open spec fn child_types_text(types: Seq<ChildTypeModel>, k: int) -> Seq<char>
    decreases k,
{
    if k <= 0 {
        Seq::empty()
    } else if k == 1 {
        child_type_text(types[0])
    } else {
        child_types_text(types, k - 1) + ",\n"@ + child_type_text(types[k - 1])
    }
}

/// The children in one place, as the inside of an object.
pub open spec fn child_info_text(info: ChildInfoModel) -> Seq<char> {
    "        \"multiple\": "@ + truth(info.multiple) + ",\n        \"required\": "@ + truth(
        info.required,
    ) + ",\n        \"types\": [\n"@ + child_types_text(info.types, info.types.len() as int)
        + "\n        ]\n"@
}

/// One field, as a member of the object of fields.
pub open spec fn field_text(field: FieldInfoModel) -> Seq<char> {
    "      "@ + quoted(field.name) + ": {\n"@ + child_info_text(field.info) + "      }"@
}

/// The first `k` fields, separated by commas.
pub open spec fn fields_text(fields: Seq<FieldInfoModel>, k: int) -> Seq<char>
    decreases k,
{
    if k <= 0 {
        Seq::empty()
    } else if k == 1 {
        field_text(fields[0])
    } else {
        fields_text(fields, k - 1) + ",\n"@ + field_text(fields[k - 1])
    }
}

/// The fields of a node type, as a member of its object; nothing where it
/// has no field.
pub open spec fn fields_part_text(fields: Seq<FieldInfoModel>) -> Seq<char> {
    if fields.len() > 0 {
        ",\n    \"fields\": {\n"@ + fields_text(fields, fields.len() as int) + "\n    }"@
    } else {
        Seq::empty()
    }
}

/// The children of a node type outside fields, as a member of its object;
/// nothing where it has none.
pub open spec fn children_part_text(children: ChildInfoModel) -> Seq<char> {
    if children.types.len() > 0 {
        ",\n    \"children\": {\n"@ + child_info_text(children) + "    }"@
    } else {
        Seq::empty()
    }
}

/// The shape of the nodes of one symbol, as an object: its name, whether it
/// is named, its fields where it has any, and its children outside fields
/// where it has any.
pub open spec fn node_type_text(t: NodeTypeModel) -> Seq<char> {
    "  {\n    \"type\": "@ + quoted(t.name) + ",\n    \"named\": "@ + truth(t.named)
        + fields_part_text(t.fields) + children_part_text(t.children) + "\n  }"@
}

/// The first `k` node types, separated by commas.
pub open spec fn node_types_text(types: Seq<NodeTypeModel>, k: int) -> Seq<char>
    decreases k,
{
    if k <= 0 {
        Seq::empty()
    } else if k == 1 {
        node_type_text(types[0])
    } else {
        node_types_text(types, k - 1) + ",\n"@ + node_type_text(types[k - 1])
    }
}

/// The node types as a JSON document: an array of objects.
pub open spec fn node_types_json(types: Seq<NodeTypeModel>) -> Seq<char> {
    if types.len() == 0 {
        "[]\n"@
    } else {
        "[\n"@ + node_types_text(types, types.len() as int) + "\n]\n"@
    }
}

fn push_child_type(out: &mut String, t: &ChildType)
    ensures
        final(out)@ == old(out)@ + child_type_text(t@),
{
    push_text(out, "          {\n            \"type\": ");
    push_quoted(out, &t.name);
    push_text(out, ",\n            \"named\": ");
    push_truth(out, t.named);
    push_text(out, "\n          }");
    assert(out@ =~= old(out)@ + child_type_text(t@));
}

fn push_child_info(out: &mut String, info: &ChildInfo)
    ensures
        final(out)@ == old(out)@ + child_info_text(info@),
{
    push_text(out, "        \"multiple\": ");
    push_truth(out, info.multiple);
    push_text(out, ",\n        \"required\": ");
    push_truth(out, info.required);
    push_text(out, ",\n        \"types\": [\n");
    let ghost start = out@;
    let ghost types = child_types_model(info.types@);
    let mut k: usize = 0;
    assert(out@ =~= start + child_types_text(types, 0));
    while k < info.types.len()
        invariant
            k <= info.types@.len(),
            types == child_types_model(info.types@),
            out@ == start + child_types_text(types, k as int),
        decreases info.types@.len() - k,
    {
        assert(types[k as int] == info.types@[k as int]@);
        let ghost before = out@;
        if k > 0 {
            push_text(out, ",\n");
        }
        push_child_type(out, &info.types[k]);
        assert(out@ =~= start + child_types_text(types, k + 1));
        k += 1;
    }
    push_text(out, "\n        ]\n");
    assert(out@ =~= old(out)@ + child_info_text(info@));
}

fn push_field(out: &mut String, field: &FieldInfo)
    ensures
        final(out)@ == old(out)@ + field_text(field@),
{
    push_text(out, "      ");
    push_quoted(out, &field.name);
    push_text(out, ": {\n");
    push_child_info(out, &field.info);
    push_text(out, "      }");
    assert(out@ =~= old(out)@ + field_text(field@));
}

fn push_fields_part(out: &mut String, fields: &Vec<FieldInfo>)
    ensures
        final(out)@ == old(out)@ + fields_part_text(fields_model(fields@)),
{
    let ghost all = fields_model(fields@);
    if fields.len() > 0 {
        push_text(out, ",\n    \"fields\": {\n");
        let ghost start = out@;
        let mut k: usize = 0;
        assert(out@ =~= start + fields_text(all, 0));
        while k < fields.len()
            invariant
                k <= fields@.len(),
                all == fields_model(fields@),
                out@ == start + fields_text(all, k as int),
            decreases fields@.len() - k,
        {
            assert(all[k as int] == fields@[k as int]@);
            if k > 0 {
                push_text(out, ",\n");
            }
            push_field(out, &fields[k]);
            assert(out@ =~= start + fields_text(all, k + 1));
            k += 1;
        }
        push_text(out, "\n    }");
        assert(out@ =~= old(out)@ + fields_part_text(all));
    } else {
        assert(out@ =~= old(out)@ + fields_part_text(all));
    }
}

fn push_children_part(out: &mut String, children: &ChildInfo)
    ensures
        final(out)@ == old(out)@ + children_part_text(children@),
{
    if children.types.len() > 0 {
        push_text(out, ",\n    \"children\": {\n");
        push_child_info(out, children);
        push_text(out, "    }");
        assert(out@ =~= old(out)@ + children_part_text(children@));
    } else {
        assert(out@ =~= old(out)@ + children_part_text(children@));
    }
}

fn push_node_type(out: &mut String, t: &NodeType)
    ensures
        final(out)@ == old(out)@ + node_type_text(t@),
{
    push_text(out, "  {\n    \"type\": ");
    push_quoted(out, &t.name);
    push_text(out, ",\n    \"named\": ");
    push_truth(out, t.named);
    push_fields_part(out, &t.fields);
    push_children_part(out, &t.children);
    push_text(out, "\n  }");
    assert(out@ =~= old(out)@ + node_type_text(t@));
}

/// The node types as a JSON document.
pub fn render_node_types(types: &Vec<NodeType>) -> (text: String)
    ensures
        text@ == node_types_json(node_types_model(types@)),
{
    let mut out = String::new();
    let ghost all = node_types_model(types@);
    if types.len() == 0 {
        push_text(&mut out, "[]\n");
        assert(out@ =~= node_types_json(all));
        return out;
    }
    push_text(&mut out, "[\n");
    let ghost start = out@;
    let mut k: usize = 0;
    assert(out@ =~= start + node_types_text(all, 0));
    while k < types.len()
        invariant
            k <= types@.len(),
            all == node_types_model(types@),
            out@ == start + node_types_text(all, k as int),
        decreases types@.len() - k,
    {
        assert(all[k as int] == types@[k as int]@);
        if k > 0 {
            push_text(&mut out, ",\n");
        }
        push_node_type(&mut out, &types[k]);
        assert(out@ =~= start + node_types_text(all, k + 1));
        k += 1;
    }
    push_text(&mut out, "\n]\n");
    assert(out@ =~= node_types_json(all));
    out
}

// The tables

/// A line that defines the constant `name` as the number `value`.
pub open spec fn define_text(name: Seq<char>, value: nat) -> Seq<char> {
    "#define "@ + name + " "@ + decimal(value) + "\n"@
}

/// The first `k` of `names`, each as a quoted string on a line of its own.
pub open spec fn name_lines(names: Seq<Seq<char>>, k: int) -> Seq<char>
    decreases k,
{
    if k <= 0 {
        Seq::empty()
    } else {
        name_lines(names, k - 1) + "  "@ + quoted(names[k - 1]) + ",\n"@
    }
}

/// An array of names called `title`.
pub open spec fn names_array_text(title: Seq<char>, names: Seq<Seq<char>>) -> Seq<char> {
    "static const char * const "@ + title + "[] = {\n"@ + name_lines(names, names.len() as int)
        + "};\n\n"@
}

/// The numbers of a row, between braces, on a line of its own.
pub open spec fn row_text(numbers: Seq<int>, k: int) -> Seq<char>
    decreases k,
{
    if k <= 0 {
        "  {"@
    } else if k == 1 {
        row_text(numbers, 0) + signed_decimal(numbers[0])
    } else {
        row_text(numbers, k - 1) + ", "@ + signed_decimal(numbers[k - 1])
    }
}

pub open spec fn row_line(numbers: Seq<int>) -> Seq<char> {
    row_text(numbers, numbers.len() as int) + "},\n"@
}

/// The numbers that stand for an action: its kind (0 to shift, 1 to shift an
/// extra, 2 to reduce, 3 to accept), then for a shift the state that
/// follows, for a reduction the rule, the number of children, the dynamic
/// precedence and the number of the production among those of its rule.
pub open spec fn action_numbers(action: ParseAction) -> Seq<int> {
    match action {
        ParseAction::Shift(state) => seq![0int, state as int, 0int, 0int, 0int],
        ParseAction::ShiftExtra => seq![1int, 0int, 0int, 0int, 0int],
        ParseAction::Reduce { symbol, child_count, dynamic_precedence, production } => seq![
            2int,
            symbol as int,
            child_count as int,
            dynamic_precedence as int,
            production.production as int,
        ],
        ParseAction::Accept => seq![3int, 0int, 0int, 0int, 0int],
    }
}

/// The line for one action of the state `state` on the symbol `symbol`: the
/// state, the kind of the symbol and its number, then the action.
pub open spec fn action_line(state: int, symbol: Symbol, action: ParseAction) -> Seq<char> {
    row_line(seq![state, kind_rank(symbol.kind), symbol.index as int] + action_numbers(action))
}

/// The lines for the first `k` of the actions on one symbol.
pub open spec fn entry_lines(state: int, entry: ParseTableEntryModel, k: int) -> Seq<char>
    decreases k,
{
    if k <= 0 {
        Seq::empty()
    } else {
        entry_lines(state, entry, k - 1) + action_line(state, entry.symbol, entry.actions[k - 1])
    }
}

/// The lines for the actions of the first `k` entries of a state.
pub open spec fn state_action_lines(state: int, entries: Seq<ParseTableEntryModel>, k: int) -> Seq<
    char,
>
    decreases k,
{
    if k <= 0 {
        Seq::empty()
    } else {
        state_action_lines(state, entries, k - 1) + entry_lines(
            state,
            entries[k - 1],
            entries[k - 1].actions.len() as int,
        )
    }
}

/// The lines for the actions of the first `k` states.
pub open spec fn action_lines(states: Seq<ParseStateModel>, k: int) -> Seq<char>
    decreases k,
{
    if k <= 0 {
        Seq::empty()
    } else {
        action_lines(states, k - 1) + state_action_lines(
            k - 1,
            states[k - 1].entries,
            states[k - 1].entries.len() as int,
        )
    }
}

/// The lines for the first `k` of the states that follow a rule in one
/// state: the state, the rule, the state that follows.
pub open spec fn state_goto_lines(state: int, gotos: Seq<(usize, usize)>, k: int) -> Seq<char>
    decreases k,
{
    if k <= 0 {
        Seq::empty()
    } else {
        state_goto_lines(state, gotos, k - 1) + row_line(
            seq![state, gotos[k - 1].0 as int, gotos[k - 1].1 as int],
        )
    }
}

pub open spec fn goto_lines(states: Seq<ParseStateModel>, k: int) -> Seq<char>
    decreases k,
{
    if k <= 0 {
        Seq::empty()
    } else {
        goto_lines(states, k - 1) + state_goto_lines(
            k - 1,
            states[k - 1].gotos,
            states[k - 1].gotos.len() as int,
        )
    }
}

/// The table of the parser: its actions, then the states that follow rules.
pub open spec fn parse_table_text(states: Seq<ParseStateModel>) -> Seq<char> {
    "static const TSParseAction ts_parse_actions[] = {\n"@ + action_lines(
        states,
        states.len() as int,
    ) + "};\n\nstatic const TSGoto ts_gotos[] = {\n"@ + goto_lines(states, states.len() as int)
        + "};\n\n"@
}

/// The number that stands for what a state of the lexer accepts: the number
/// of the token, or minus one where it accepts none.
pub open spec fn accept_number(accept: Option<usize>) -> int {
    match accept {
        Some(token) => token as int,
        None => -1,
    }
}

/// The lines that say what each of the first `k` states of a lexer accepts.
pub open spec fn lex_accept_lines(states: Seq<LexStateModel>, k: int) -> Seq<char>
    decreases k,
{
    if k <= 0 {
        Seq::empty()
    } else {
        lex_accept_lines(states, k - 1) + row_line(
            seq![k - 1, accept_number(states[k - 1].accept)],
        )
    }
}

/// The lines for the first `k` transitions of one state of a lexer: the
/// state, the first code point, the code point behind the last, the state
/// that follows.
pub open spec fn state_transition_lines(state: int, transitions: Seq<(CharRange, usize)>, k: int)
    -> Seq<char>
    decreases k,
{
    if k <= 0 {
        Seq::empty()
    } else {
        state_transition_lines(state, transitions, k - 1) + row_line(
            seq![
                state,
                transitions[k - 1].0.start as int,
                transitions[k - 1].0.end as int,
                transitions[k - 1].1 as int,
            ],
        )
    }
}

pub open spec fn lex_transition_lines(states: Seq<LexStateModel>, k: int) -> Seq<char>
    decreases k,
{
    if k <= 0 {
        Seq::empty()
    } else {
        lex_transition_lines(states, k - 1) + state_transition_lines(
            k - 1,
            states[k - 1].transitions,
            states[k - 1].transitions.len() as int,
        )
    }
}

/// The table of a lexer whose arrays are called `name` followed by `_states`
/// and by `_transitions`.
pub open spec fn lex_table_text(name: Seq<char>, states: Seq<LexStateModel>) -> Seq<char> {
    "static const TSLexState "@ + name + "_states[] = {\n"@ + lex_accept_lines(
        states,
        states.len() as int,
    ) + "};\n\nstatic const TSLexTransition "@ + name + "_transitions[] = {\n"@
        + lex_transition_lines(states, states.len() as int) + "};\n\n"@
}

/// Appends a line that defines the constant `name` as `value`.
fn push_define(out: &mut String, name: &str, value: usize)
    ensures
        final(out)@ == old(out)@ + define_text(name@, value as nat),
{
    push_text(out, "#define ");
    push_text(out, name);
    push_text(out, " ");
    push_decimal(out, value);
    push_text(out, "\n");
    assert(out@ =~= old(out)@ + define_text(name@, value as nat));
}

/// Appends an array of names called `title`.
fn push_names_array(out: &mut String, title: &str, names: &Vec<String>)
    ensures
        final(out)@ == old(out)@ + names_array_text(title@, crate::grammars::strings_model(names@)),
{
    let ghost all = crate::grammars::strings_model(names@);
    push_text(out, "static const char * const ");
    push_text(out, title);
    push_text(out, "[] = {\n");
    let ghost start = out@;
    let mut k: usize = 0;
    assert(out@ =~= start + name_lines(all, 0));
    while k < names.len()
        invariant
            k <= names@.len(),
            all == crate::grammars::strings_model(names@),
            out@ == start + name_lines(all, k as int),
        decreases names@.len() - k,
    {
        assert(all[k as int] == names@[k as int]@);
        push_text(out, "  ");
        push_quoted(out, &names[k]);
        push_text(out, ",\n");
        assert(out@ =~= start + name_lines(all, k + 1));
        k += 1;
    }
    push_text(out, "};\n\n");
    assert(out@ =~= old(out)@ + names_array_text(title@, all));
}

pub open spec fn numbers_model(numbers: Seq<i128>) -> Seq<int> {
    Seq::new(numbers.len(), |i: int| numbers[i] as int)
}

/// Appends `n`, written in base ten with its sign.
fn push_number(out: &mut String, n: i128)
    requires
        i64::MIN < n <= u64::MAX,
    ensures
        final(out)@ == old(out)@ + signed_decimal(n as int),
{
    if n < 0 {
        let size: u64 = (-n) as u64;
        let digits = crate::text::decimal_digits(size);
        push_text(out, "-");
        push_chars(out, &digits);
        proof {
            reveal_strlit("-");
        }
        assert(out@ =~= old(out)@ + signed_decimal(n as int));
    } else {
        let digits = crate::text::decimal_digits(n as u64);
        push_chars(out, &digits);
    }
}

/// Appends the numbers of a row, between braces, on a line of its own.
fn push_row(out: &mut String, numbers: &Vec<i128>)
    requires
        forall|i: int| 0 <= i < numbers@.len() ==> i64::MIN < #[trigger] numbers@[i] <= u64::MAX,
    ensures
        final(out)@ == old(out)@ + row_line(numbers_model(numbers@)),
{
    let ghost all = numbers_model(numbers@);
    push_text(out, "  {");
    let mut k: usize = 0;
    assert(out@ =~= old(out)@ + row_text(all, 0));
    while k < numbers.len()
        invariant
            k <= numbers@.len(),
            all == numbers_model(numbers@),
            forall|i: int| 0 <= i < numbers@.len() ==> i64::MIN < #[trigger] numbers@[i] <= u64::MAX,
            out@ == old(out)@ + row_text(all, k as int),
        decreases numbers@.len() - k,
    {
        assert(all[k as int] == numbers@[k as int] as int);
        if k > 0 {
            push_text(out, ", ");
        }
        push_number(out, numbers[k]);
        assert(out@ =~= old(out)@ + row_text(all, k + 1));
        k += 1;
    }
    push_text(out, "},\n");
    assert(out@ =~= old(out)@ + row_line(all));
}

/// The numbers that stand for an action.
fn numbers_of_action(action: &ParseAction) -> (numbers: Vec<i128>)
    ensures
        numbers_model(numbers@) == action_numbers(*action),
        forall|i: int| 0 <= i < numbers@.len() ==> i64::MIN < #[trigger] numbers@[i] <= u64::MAX,
{
    let mut numbers: Vec<i128> = Vec::new();
    match action {
        ParseAction::Shift(state) => {
            numbers.push(0);
            numbers.push(*state as i128);
            numbers.push(0);
            numbers.push(0);
            numbers.push(0);
        },
        ParseAction::ShiftExtra => {
            numbers.push(1);
            numbers.push(0);
            numbers.push(0);
            numbers.push(0);
            numbers.push(0);
        },
        ParseAction::Reduce { symbol, child_count, dynamic_precedence, production } => {
            numbers.push(2);
            numbers.push(*symbol as i128);
            numbers.push(*child_count as i128);
            numbers.push(*dynamic_precedence as i128);
            numbers.push(production.production as i128);
        },
        ParseAction::Accept => {
            numbers.push(3);
            numbers.push(0);
            numbers.push(0);
            numbers.push(0);
            numbers.push(0);
        },
    }
    assert(numbers_model(numbers@) =~= action_numbers(*action));
    numbers
}

/// Appends the line for one action of the state `state` on `symbol`.
fn push_action_line(out: &mut String, state: usize, symbol: Symbol, action: &ParseAction)
    ensures
        final(out)@ == old(out)@ + action_line(state as int, symbol, *action),
{
    let mut numbers: Vec<i128> = Vec::new();
    numbers.push(state as i128);
    numbers.push(symbol.kind.rank() as i128);
    numbers.push(symbol.index as i128);
    let more = numbers_of_action(action);
    let mut k: usize = 0;
    while k < more.len()
        invariant
            k <= more@.len(),
            numbers@.len() == 3 + k,
            forall|i: int| 0 <= i < more@.len() ==> i64::MIN < #[trigger] more@[i] <= u64::MAX,
            forall|i: int| 0 <= i < numbers@.len() ==> i64::MIN < #[trigger] numbers@[i] <= u64::MAX,
            numbers_model(numbers@) == seq![
                state as int,
                kind_rank(symbol.kind),
                symbol.index as int,
            ] + numbers_model(more@).take(k as int),
        decreases more@.len() - k,
    {
        let ghost before = numbers@;
        numbers.push(more[k]);
        assert(numbers_model(numbers@) =~= numbers_model(before).push(more@[k as int] as int));
        assert(numbers_model(more@).take(k + 1) =~= numbers_model(more@).take(k as int).push(
            more@[k as int] as int,
        ));
        assert(numbers_model(numbers@) =~= seq![
            state as int,
            kind_rank(symbol.kind),
            symbol.index as int,
        ] + numbers_model(more@).take(k + 1));
        k += 1;
    }
    assert(numbers_model(more@).take(more@.len() as int) =~= numbers_model(more@));
    push_row(out, &numbers);
}

/// Appends the table of the parser.
fn push_parse_table(out: &mut String, states: &Vec<ParseState>)
    ensures
        final(out)@ == old(out)@ + parse_table_text(parse_states_model(states@)),
{
    let ghost all = parse_states_model(states@);
    push_text(out, "static const TSParseAction ts_parse_actions[] = {\n");
    let ghost start = out@;
    let mut s: usize = 0;
    assert(out@ =~= start + action_lines(all, 0));
    while s < states.len()
        invariant
            s <= states@.len(),
            all == parse_states_model(states@),
            out@ == start + action_lines(all, s as int),
        decreases states@.len() - s,
    {
        assert(all[s as int] == states@[s as int]@);
        let entries = &states[s].entries;
        let ghost es = entries_model(entries@);
        let ghost before = out@;
        let mut e: usize = 0;
        assert(out@ =~= before + state_action_lines(s as int, es, 0));
        while e < entries.len()
            invariant
                e <= entries@.len(),
                es == entries_model(entries@),
                out@ == before + state_action_lines(s as int, es, e as int),
            decreases entries@.len() - e,
        {
            assert(es[e as int] == entries@[e as int]@);
            let entry = &entries[e];
            let ghost known = out@;
            let mut a: usize = 0;
            assert(out@ =~= known + entry_lines(s as int, entry@, 0));
            while a < entry.actions.len()
                invariant
                    a <= entry.actions@.len(),
                    out@ == known + entry_lines(s as int, entry@, a as int),
                decreases entry.actions@.len() - a,
            {
                push_action_line(out, s, entry.symbol, &entry.actions[a]);
                assert(out@ =~= known + entry_lines(s as int, entry@, a + 1));
                a += 1;
            }
            assert(out@ =~= before + state_action_lines(s as int, es, e + 1));
            e += 1;
        }
        assert(out@ =~= start + action_lines(all, s + 1));
        s += 1;
    }
    push_text(out, "};\n\nstatic const TSGoto ts_gotos[] = {\n");
    let ghost middle = out@;
    let mut t: usize = 0;
    assert(out@ =~= middle + goto_lines(all, 0));
    while t < states.len()
        invariant
            t <= states@.len(),
            all == parse_states_model(states@),
            out@ == middle + goto_lines(all, t as int),
        decreases states@.len() - t,
    {
        assert(all[t as int] == states@[t as int]@);
        let gotos = &states[t].gotos;
        let ghost before = out@;
        let mut g: usize = 0;
        assert(out@ =~= before + state_goto_lines(t as int, gotos@, 0));
        while g < gotos.len()
            invariant
                g <= gotos@.len(),
                out@ == before + state_goto_lines(t as int, gotos@, g as int),
            decreases gotos@.len() - g,
        {
            let mut numbers: Vec<i128> = Vec::new();
            numbers.push(t as i128);
            numbers.push(gotos[g].0 as i128);
            numbers.push(gotos[g].1 as i128);
            assert(numbers_model(numbers@) =~= seq![
                t as int,
                gotos@[g as int].0 as int,
                gotos@[g as int].1 as int,
            ]);
            push_row(out, &numbers);
            assert(out@ =~= before + state_goto_lines(t as int, gotos@, g + 1));
            g += 1;
        }
        assert(out@ =~= middle + goto_lines(all, t + 1));
        t += 1;
    }
    push_text(out, "};\n\n");
    assert(out@ =~= old(out)@ + parse_table_text(all));
}

/// Appends the table of a lexer whose arrays are called after `name`.
fn push_lex_table(out: &mut String, name: &str, states: &Vec<LexState>)
    ensures
        final(out)@ == old(out)@ + lex_table_text(name@, lex_states_model(states@)),
{
    let ghost all = lex_states_model(states@);
    push_text(out, "static const TSLexState ");
    push_text(out, name);
    push_text(out, "_states[] = {\n");
    let ghost start = out@;
    let mut s: usize = 0;
    assert(out@ =~= start + lex_accept_lines(all, 0));
    while s < states.len()
        invariant
            s <= states@.len(),
            all == lex_states_model(states@),
            out@ == start + lex_accept_lines(all, s as int),
        decreases states@.len() - s,
    {
        assert(all[s as int] == states@[s as int]@);
        let mut numbers: Vec<i128> = Vec::new();
        numbers.push(s as i128);
        numbers.push(
            match states[s].accept {
                Some(token) => token as i128,
                None => -1,
            },
        );
        assert(numbers_model(numbers@) =~= seq![s as int, accept_number(all[s as int].accept)]);
        push_row(out, &numbers);
        assert(out@ =~= start + lex_accept_lines(all, s + 1));
        s += 1;
    }
    push_text(out, "};\n\nstatic const TSLexTransition ");
    push_text(out, name);
    push_text(out, "_transitions[] = {\n");
    let ghost middle = out@;
    let mut t: usize = 0;
    assert(out@ =~= middle + lex_transition_lines(all, 0));
    while t < states.len()
        invariant
            t <= states@.len(),
            all == lex_states_model(states@),
            out@ == middle + lex_transition_lines(all, t as int),
        decreases states@.len() - t,
    {
        assert(all[t as int] == states@[t as int]@);
        let transitions = &states[t].transitions;
        let ghost before = out@;
        let mut g: usize = 0;
        assert(out@ =~= before + state_transition_lines(t as int, transitions@, 0));
        while g < transitions.len()
            invariant
                g <= transitions@.len(),
                out@ == before + state_transition_lines(t as int, transitions@, g as int),
            decreases transitions@.len() - g,
        {
            let mut numbers: Vec<i128> = Vec::new();
            numbers.push(t as i128);
            numbers.push(transitions[g].0.start as i128);
            numbers.push(transitions[g].0.end as i128);
            numbers.push(transitions[g].1 as i128);
            assert(numbers_model(numbers@) =~= seq![
                t as int,
                transitions@[g as int].0.start as int,
                transitions@[g as int].0.end as int,
                transitions@[g as int].1 as int,
            ]);
            push_row(out, &numbers);
            assert(out@ =~= before + state_transition_lines(t as int, transitions@, g + 1));
            g += 1;
        }
        assert(out@ =~= middle + lex_transition_lines(all, t + 1));
        t += 1;
    }
    push_text(out, "};\n\n");
    assert(out@ =~= old(out)@ + lex_table_text(name@, all));
}

/// The names under which the first `count` symbols of the kind `kind` show
/// outside fields.
pub open spec fn shown_names(
    g: SyntaxGrammarModel,
    tokens: Seq<LexicalVariableModel>,
    aliases: Seq<AliasEntryModel>,
    kind: SymbolType,
    count: int,
) -> Seq<Seq<char>> {
    Seq::new(
        count as nat,
        |i: int| shown_name(g, tokens, aliases, Symbol { kind, index: i as usize }).0,
    )
}

/// The line that names the word token, where the tables have one.
pub open spec fn keyword_define_text(token: Option<Symbol>) -> Seq<char> {
    match token {
        Some(s) => define_text("KEYWORD_CAPTURE_TOKEN"@, s.index as nat),
        None => Seq::empty(),
    }
}

/// The table that tells the keywords apart, where the tables have one.
pub open spec fn keyword_table_text(table: Option<Seq<LexStateModel>>) -> Seq<char> {
    match table {
        Some(states) => lex_table_text("ts_keyword_lex"@, states),
        None => Seq::empty(),
    }
}

/// The head of the source text: the language and the sizes of the tables.
pub open spec fn head_text(
    name: Seq<char>,
    abi_version: nat,
    tables: TablesModel,
    g: SyntaxGrammarModel,
    tokens: Seq<LexicalVariableModel>,
) -> Seq<char> {
    "#include \"tree_sitter/parser.h\"\n\n#define LANGUAGE_NAME "@ + quoted(name) + "\n"@
        + define_text("LANGUAGE_VERSION"@, abi_version) + define_text(
        "STATE_COUNT"@,
        tables.parse_table.len(),
    ) + define_text("TOKEN_COUNT"@, tokens.len()) + define_text(
        "EXTERNAL_TOKEN_COUNT"@,
        g.external_tokens.len(),
    ) + define_text("RULE_COUNT"@, g.variables.len()) + define_text(
        "LEX_STATE_COUNT"@,
        tables.main_lex_table.len(),
    ) + keyword_define_text(tables.keyword_capture_token) + "\n"@
}

/// The names of the symbols, as three arrays.
pub open spec fn names_text(
    g: SyntaxGrammarModel,
    tokens: Seq<LexicalVariableModel>,
    aliases: Seq<AliasEntryModel>,
) -> Seq<char> {
    names_array_text(
        "ts_token_names"@,
        shown_names(g, tokens, aliases, SymbolType::Terminal, tokens.len() as int),
    ) + names_array_text(
        "ts_external_token_names"@,
        shown_names(g, tokens, aliases, SymbolType::External, g.external_tokens.len() as int),
    ) + names_array_text(
        "ts_rule_names"@,
        shown_names(g, tokens, aliases, SymbolType::NonTerminal, g.variables.len() as int),
    )
}

/// The source text of the parser for the language `name`: the head, the
/// names of the symbols, the table of the parser, the table of the lexer and,
/// where there is one, the table that tells the keywords apart.
pub open spec fn source_text(
    name: Seq<char>,
    abi_version: nat,
    tables: TablesModel,
    g: SyntaxGrammarModel,
    tokens: Seq<LexicalVariableModel>,
    aliases: Seq<AliasEntryModel>,
) -> Seq<char> {
    head_text(name, abi_version, tables, g, tokens) + names_text(g, tokens, aliases)
        + parse_table_text(tables.parse_table) + lex_table_text(
        "ts_lex"@,
        tables.main_lex_table,
    ) + keyword_table_text(tables.keyword_lex_table)
}

/// The names under which the symbols of the kind `kind` show.
fn collect_shown_names(
    grammar: &SyntaxGrammar,
    tokens: &Vec<LexicalVariable>,
    aliases: &AliasMap,
    kind: SymbolType,
) -> (names: Vec<String>)
    requires
        kind != SymbolType::End,
    ensures
        crate::grammars::strings_model(names@) == shown_names(
            grammar@,
            lexical_variables_model(tokens@),
            aliases@,
            kind,
            match kind {
                SymbolType::NonTerminal => grammar.variables@.len() as int,
                SymbolType::Terminal => tokens@.len() as int,
                _ => grammar.external_tokens@.len() as int,
            },
        ),
{
    let ghost g = grammar@;
    let ghost tk = lexical_variables_model(tokens@);
    let count = match kind {
        SymbolType::NonTerminal => grammar.variables.len(),
        SymbolType::Terminal => tokens.len(),
        _ => grammar.external_tokens.len(),
    };
    let mut names: Vec<String> = Vec::new();
    let mut i: usize = 0;
    while i < count
        invariant
            i <= count,
            kind != SymbolType::End,
            g == grammar@,
            tk == lexical_variables_model(tokens@),
            count == match kind {
                SymbolType::NonTerminal => grammar.variables@.len(),
                SymbolType::Terminal => tokens@.len(),
                _ => grammar.external_tokens@.len(),
            },
            names@.len() == i,
            forall|k: int|
                0 <= k < i ==> (#[trigger] names@[k])@ == shown_name(
                    g,
                    tk,
                    aliases@,
                    Symbol { kind, index: k as usize },
                ).0,
        decreases count - i,
    {
        let symbol = Symbol { kind, index: i };
        let name = match aliases.get(symbol, &None) {
            Some(alias) => alias.value.clone(),
            None => match kind {
                SymbolType::NonTerminal => {
                    assert(g.variables[i as int] == grammar.variables@[i as int]@);
                    grammar.variables[i].name.clone()
                },
                SymbolType::Terminal => {
                    assert(tk[i as int] == tokens@[i as int]@);
                    tokens[i].name.clone()
                },
                _ => {
                    assert(g.external_tokens[i as int] == grammar.external_tokens@[i as int]@);
                    grammar.external_tokens[i].name.clone()
                },
            },
        };
        names.push(name);
        i += 1;
    }
    assert(crate::grammars::strings_model(names@) =~= shown_names(
        g,
        tk,
        aliases@,
        kind,
        count as int,
    ));
    names
}

/// Appends the head of the source text.
fn push_head(
    out: &mut String,
    name: &String,
    abi_version: usize,
    tables: &Tables,
    grammar: &SyntaxGrammar,
    tokens: &Vec<LexicalVariable>,
)
    ensures
        final(out)@ == old(out)@ + head_text(
            name@,
            abi_version as nat,
            tables@,
            grammar@,
            lexical_variables_model(tokens@),
        ),
{
    push_text(out, "#include \"tree_sitter/parser.h\"\n\n#define LANGUAGE_NAME ");
    push_quoted(out, name);
    push_text(out, "\n");
    push_define(out, "LANGUAGE_VERSION", abi_version);
    push_define(out, "STATE_COUNT", tables.parse_table.states.len());
    push_define(out, "TOKEN_COUNT", tokens.len());
    push_define(out, "EXTERNAL_TOKEN_COUNT", grammar.external_tokens.len());
    push_define(out, "RULE_COUNT", grammar.variables.len());
    push_define(out, "LEX_STATE_COUNT", tables.main_lex_table.states.len());
    let ghost before = out@;
    match tables.keyword_capture_token {
        Some(s) => {
            push_define(out, "KEYWORD_CAPTURE_TOKEN", s.index);
        },
        None => {},
    }
    assert(out@ =~= before + keyword_define_text(tables@.keyword_capture_token));
    push_text(out, "\n");
    assert(out@ =~= old(out)@ + head_text(
        name@,
        abi_version as nat,
        tables@,
        grammar@,
        lexical_variables_model(tokens@),
    ));
}

/// Appends the names of the symbols.
fn push_names(
    out: &mut String,
    grammar: &SyntaxGrammar,
    tokens: &Vec<LexicalVariable>,
    aliases: &AliasMap,
)
    ensures
        final(out)@ == old(out)@ + names_text(
            grammar@,
            lexical_variables_model(tokens@),
            aliases@,
        ),
{
    let token_names = collect_shown_names(grammar, tokens, aliases, SymbolType::Terminal);
    push_names_array(out, "ts_token_names", &token_names);
    let external_names = collect_shown_names(grammar, tokens, aliases, SymbolType::External);
    push_names_array(out, "ts_external_token_names", &external_names);
    let rule_names = collect_shown_names(grammar, tokens, aliases, SymbolType::NonTerminal);
    push_names_array(out, "ts_rule_names", &rule_names);
    assert(grammar@.variables.len() == grammar.variables@.len());
    assert(grammar@.external_tokens.len() == grammar.external_tokens@.len());
    assert(out@ =~= old(out)@ + names_text(
        grammar@,
        lexical_variables_model(tokens@),
        aliases@,
    ));
}

/// Writes the tables out as the source text of a parser for the language
/// `name`. The aliases give the names under which the symbols show.
pub fn render_c_code(
    name: &String,
    tables: &Tables,
    grammar: &SyntaxGrammar,
    tokens: &Vec<LexicalVariable>,
    aliases: &AliasMap,
    abi_version: usize,
) -> (text: String)
    ensures
        text@ == source_text(
            name@,
            abi_version as nat,
            tables@,
            grammar@,
            lexical_variables_model(tokens@),
            aliases@,
        ),
{
    let mut out = String::new();
    push_head(&mut out, name, abi_version, tables, grammar, tokens);
    push_names(&mut out, grammar, tokens, aliases);
    push_parse_table(&mut out, &tables.parse_table.states);
    push_lex_table(&mut out, "ts_lex", &tables.main_lex_table.states);
    let ghost before = out@;
    match &tables.keyword_lex_table {
        Some(table) => {
            push_lex_table(&mut out, "ts_keyword_lex", &table.states);
        },
        None => {},
    }
    assert(out@ =~= before + keyword_table_text(tables@.keyword_lex_table));
    assert(out@ =~= source_text(
        name@,
        abi_version as nat,
        tables@,
        grammar@,
        lexical_variables_model(tokens@),
        aliases@,
    ));
    out
}

} // verus!
