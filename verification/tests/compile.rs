use tree_sitter_generate::error::CompileError;
use tree_sitter_generate::generate::{
    compile, generate_parser_for_grammar, parse_grammar, GrammarDocument,
};
use tree_sitter_generate::grammars::PrecedenceEntry::Name;
use tree_sitter_generate::grammars::VariableType;
use tree_sitter_generate::rules::{Precedence, Rule};

fn document(rules: Vec<(&str, Rule)>) -> GrammarDocument {
    GrammarDocument {
        name: "test".to_string(),
        rules: rules.into_iter().map(|(n, r)| (n.to_string(), r)).collect(),
        extras: vec![],
        conflicts: vec![],
        precedences: vec![],
        externals: vec![],
        inline: vec![],
        supertypes: vec![],
        word: None,
    }
}

fn define(source: &str, name: &str) -> usize {
    let prefix = format!("#define {name} ");
    source
        .lines()
        .find_map(|l| l.strip_prefix(prefix.as_str()))
        .unwrap_or_else(|| panic!("no {name}"))
        .parse()
        .unwrap()
}

fn statements() -> GrammarDocument {
    document(vec![
        ("source_file", Rule::repeat(Rule::named("stmt"))),
        ("stmt", Rule::choice(vec![Rule::string("a"), Rule::string("b")])),
    ])
}

#[test]
fn repeated_statements_compile() {
    let parser = compile(&statements()).unwrap();
    // the lexer knows the two literals
    assert!(parser.c_code.contains("static const char * const ts_token_names[] = {\n  \"a\",\n  \"b\",\n};"));
    assert_eq!(define(&parser.c_code, "TOKEN_COUNT"), 2);
    // the parser has at least two states and accepts
    assert!(define(&parser.c_code, "STATE_COUNT") >= 2);
    // state 0 accepts the empty input: reduce on end, and the start rule leads to accept
    assert!(parser.c_code.contains(", 3, 0, 0, 0, 0},"));
    // node types: source_file with children of type stmt, stmt with children "a" and "b"
    let types = &parser.node_types_json;
    assert!(types.contains("\"type\": \"source_file\""));
    assert!(types.contains("\"type\": \"stmt\""));
    assert!(types.contains("\"type\": \"a\""));
    assert!(types.contains("\"type\": \"b\""));
}

#[test]
fn compiling_twice_gives_the_same_text() {
    let first = compile(&statements()).unwrap();
    let second = compile(&statements()).unwrap();
    assert_eq!(first, second);
    assert_eq!(first.c_code.as_bytes(), second.c_code.as_bytes());
}

fn prefix_if(conflicts: Vec<Vec<String>>) -> GrammarDocument {
    let mut doc = document(vec![(
        "stmt",
        Rule::choice(vec![
            Rule::seq(vec![Rule::string("if"), Rule::named("stmt")]),
            Rule::string("x"),
        ]),
    )]);
    doc.conflicts = conflicts;
    doc
}

fn dangling_else(conflicts: Vec<Vec<String>>) -> GrammarDocument {
    let mut doc = document(vec![(
        "stmt",
        Rule::choice(vec![
            Rule::seq(vec![Rule::string("if"), Rule::named("stmt")]),
            Rule::seq(vec![
                Rule::string("if"),
                Rule::named("stmt"),
                Rule::string("else"),
                Rule::named("stmt"),
            ]),
            Rule::string("x"),
        ]),
    )]);
    doc.conflicts = conflicts;
    doc
}

#[test]
fn declared_conflict_compiles() {
    assert!(compile(&prefix_if(vec![vec!["stmt".to_string()]])).is_ok());
    assert!(compile(&dangling_else(vec![vec!["stmt".to_string()]])).is_ok());
}

#[test]
fn undeclared_conflict_is_unresolved() {
    // The prefix form alone is not ambiguous: nothing conflicts in it.
    assert!(compile(&prefix_if(vec![])).is_ok());
    // With an optional `else` the choice between shifting `else` and reducing
    // the shorter statement is not settled by anything.
    match compile(&dangling_else(vec![])) {
        Err(CompileError::UnresolvedConflict { symbol, candidates, .. }) => {
            assert_eq!(symbol, tree_sitter_generate::rules::Symbol::terminal(1));
            assert_eq!(candidates.len(), 2);
        }
        other => panic!("expected an unresolved conflict, got {other:?}"),
    }
}

#[test]
fn kept_conflicts_hold_all_actions() {
    let parser = compile(&dangling_else(vec![vec!["stmt".to_string()]])).unwrap();
    // some state has both a shift and a reduction on `else` (terminal 1)
    let rows: Vec<Vec<i64>> = parser
        .c_code
        .split("ts_parse_actions[] = {\n")
        .nth(1)
        .unwrap()
        .split("};")
        .next()
        .unwrap()
        .lines()
        .map(|l| {
            l.trim()
                .trim_start_matches('{')
                .trim_end_matches("},")
                .split(", ")
                .map(|n| n.parse().unwrap())
                .collect()
        })
        .collect();
    let on_else = |state: i64, action: i64| {
        rows.iter().any(|r| r[0] == state && r[1] == 2 && r[2] == 1 && r[3] == action)
    };
    assert!(rows.iter().any(|r| on_else(r[0], 0) && on_else(r[0], 2)));
}

#[test]
fn precedence_and_associativity_settle_conflicts() {
    let binary = |assoc_left: bool| {
        let body = Rule::seq(vec![Rule::named("e"), Rule::string("+"), Rule::named("e")]);
        document(vec![(
            "e",
            Rule::choice(vec![
                if assoc_left {
                    Rule::prec_left(Precedence::Integer(1), body)
                } else {
                    Rule::prec_right(Precedence::Integer(1), body)
                },
                Rule::string("n"),
            ]),
        )])
    };
    assert!(compile(&binary(true)).is_ok());
    assert!(compile(&binary(false)).is_ok());
    let plain = document(vec![(
        "e",
        Rule::choice(vec![
            Rule::seq(vec![Rule::named("e"), Rule::string("+"), Rule::named("e")]),
            Rule::string("n"),
        ]),
    )]);
    assert!(matches!(compile(&plain), Err(CompileError::UnresolvedConflict { .. })));
    let no_assoc = document(vec![(
        "e",
        Rule::choice(vec![
            Rule::prec(
                Precedence::Integer(1),
                Rule::seq(vec![Rule::named("e"), Rule::string("+"), Rule::named("e")]),
            ),
            Rule::string("n"),
        ]),
    )]);
    assert!(matches!(compile(&no_assoc), Err(CompileError::UnresolvedConflict { .. })));
}

#[test]
fn undefined_rule_is_reported() {
    let doc = document(vec![("source_file", Rule::named("undefined_rule"))]);
    assert_eq!(
        compile(&doc).unwrap_err(),
        CompileError::UndefinedSymbol("undefined_rule".to_string())
    );
}

#[test]
fn compiling_a_self_inlining_rule_fails() {
    let mut doc = document(vec![
        ("source_file", Rule::named("helper")),
        ("helper", Rule::seq(vec![Rule::named("helper"), Rule::string("x")])),
    ]);
    doc.inline = vec!["helper".to_string()];
    assert!(matches!(compile(&doc), Err(CompileError::CyclicInlining(_))));
}

#[test]
fn empty_document_is_an_empty_grammar() {
    assert_eq!(compile(&document(vec![])).unwrap_err(), CompileError::EmptyGrammar);
    assert_eq!(parse_grammar(&document(vec![])).unwrap_err(), CompileError::EmptyGrammar);
}

#[test]
fn cyclic_precedence_ordering_is_an_error() {
    let mut doc = statements();
    doc.precedences = vec![
        vec![Name("a".to_string()), Name("b".to_string())],
        vec![Name("b".to_string()), Name("c".to_string()), Name("a".to_string())],
    ];
    assert_eq!(compile(&doc).unwrap_err(), CompileError::CyclicPrecedenceOrdering);
    doc.precedences = vec![
        vec![Name("a".to_string()), Name("b".to_string())],
        vec![Name("b".to_string()), Name("c".to_string())],
        vec![Name("a".to_string()), Name("c".to_string())],
    ];
    assert!(compile(&doc).is_ok());
}

#[test]
fn named_precedences_follow_the_orderings() {
    let op = |name: &str, text: &str| {
        Rule::prec_left(
            Precedence::Name(name.to_string()),
            Rule::seq(vec![Rule::named("e"), Rule::string(text), Rule::named("e")]),
        )
    };
    let mut doc = document(vec![(
        "e",
        Rule::choice(vec![op("mul", "*"), op("add", "+"), Rule::string("n")]),
    )]);
    doc.precedences = vec![vec![Name("mul".to_string()), Name("add".to_string())]];
    assert!(compile(&doc).is_ok());
}

#[test]
fn loading_prunes_and_sets_kinds() {
    let doc = document(vec![
        ("s", Rule::named("_hidden")),
        ("unused", Rule::string("u")),
        ("_hidden", Rule::string("h")),
    ]);
    let g = parse_grammar(&doc).unwrap();
    let got: Vec<(&str, VariableType)> =
        g.variables.iter().map(|v| (v.name.as_str(), v.kind)).collect();
    assert_eq!(got, vec![("s", VariableType::Named), ("_hidden", VariableType::Hidden)]);
    assert_eq!(g.name, "test");
}

#[test]
fn name_and_source_are_returned_together() {
    let (name, source) = generate_parser_for_grammar(&statements()).unwrap();
    assert_eq!(name, "test");
    assert_eq!(source, compile(&statements()).unwrap().c_code);
    assert!(source.starts_with("#include \"tree_sitter/parser.h\"\n\n#define LANGUAGE_NAME \"test\"\n#define LANGUAGE_VERSION 14\n"));
}

#[test]
fn word_token_gives_a_keyword_table() {
    let mut doc = document(vec![
        (
            "s",
            Rule::choice(vec![
                Rule::seq(vec![Rule::string("if"), Rule::named("id")]),
                Rule::seq(vec![Rule::string("+"), Rule::named("id")]),
            ]),
        ),
        ("id", Rule::pattern("[a-z]+", "")),
    ]);
    doc.word = Some("id".to_string());
    let parser = compile(&doc).unwrap();
    // tokens: id 0, "if" 1, "+" 2
    assert_eq!(define(&parser.c_code, "KEYWORD_CAPTURE_TOKEN"), 0);
    let keyword = parser.c_code.split("ts_keyword_lex_states[] = {\n").nth(1).unwrap();
    let accepts: Vec<&str> = keyword.split("};").next().unwrap().lines().collect();
    // start state, after `i`, after `if` (accepting token 1)
    assert_eq!(accepts, vec!["  {0, -1},", "  {1, -1},", "  {2, 1},"]);
    let main = parser.c_code.split("ts_lex_states[] = {\n").nth(1).unwrap();
    let main_accepts: Vec<&str> = main.split("};").next().unwrap().lines().collect();
    // the main lexer accepts the word and `+`, never the keyword itself
    assert!(main_accepts.iter().any(|l| l.ends_with(", 0},")));
    assert!(main_accepts.iter().any(|l| l.ends_with(", 2},")));
    assert!(!main_accepts.iter().any(|l| l.ends_with(", 1},")));
}

#[test]
fn node_types_json_is_valid_and_names_the_visible_symbols() {
    let mut doc = document(vec![
        (
            "s",
            Rule::seq(vec![
                Rule::field("left", Rule::named("item")),
                Rule::string("="),
                Rule::field("right", Rule::choice(vec![Rule::named("item"), Rule::named("_h")])),
                Rule::repeat(Rule::named("item")),
            ]),
        ),
        ("item", Rule::pattern("\\w+", "")),
        ("_h", Rule::seq(vec![Rule::string("("), Rule::string(")")])),
    ]);
    doc.name = "quote\"d".to_string();
    let parser = compile(&doc).unwrap();
    let value: serde_json::Value = serde_json::from_str(&parser.node_types_json).unwrap();
    let entries = value.as_array().unwrap();
    let names: Vec<(&str, bool)> = entries
        .iter()
        .map(|e| (e["type"].as_str().unwrap(), e["named"].as_bool().unwrap()))
        .collect();
    assert_eq!(
        names,
        vec![("s", true), ("item", true), ("=", false), ("(", false), (")", false)]
    );
    let s = &entries[0];
    assert_eq!(s["fields"]["left"]["required"], true);
    assert_eq!(s["fields"]["left"]["multiple"], false);
    assert_eq!(s["fields"]["left"]["types"][0]["type"], "item");
    // `right` is filled by the visible `item` in one alternative only
    assert_eq!(s["fields"]["right"]["required"], false);
    assert_eq!(s["children"]["types"][0]["type"], "=");
    assert_eq!(s["children"]["multiple"], false);
    assert!(entries[1].get("children").is_none());
    assert!(entries[1].get("fields").is_none());
    assert!(parser.c_code.contains("#define LANGUAGE_NAME \"quote\\\"d\"\n"));
}

#[test]
fn comment_lines_are_blanked() {
    use_strip(
        "{\n  // the name\n  \"name\": \"x\" // kept\n}\n",
        "{\n\n\n  \"name\": \"x\" // kept\n}\n",
    );
    use_strip("// only\n", "\n\n");
    use_strip("{}", "{}");
}

fn use_strip(text: &str, wanted: &str) {
    assert_eq!(tree_sitter_generate::generate::strip_json_comments(text), wanted);
}
