use tree_sitter_generate::error::CompileError;
use tree_sitter_generate::grammars::{InputGrammar, Variable, VariableType};
use tree_sitter_generate::nfa::NfaState;
use tree_sitter_generate::prepare_grammar::prepare_grammar;
use tree_sitter_generate::rules::{Precedence, Rule, Symbol};

fn input(variables: Vec<Variable>) -> InputGrammar {
    InputGrammar {
        name: "test".to_string(),
        variables,
        extra_symbols: vec![],
        expected_conflicts: vec![],
        precedence_orderings: vec![],
        external_tokens: vec![],
        variables_to_inline: vec![],
        supertype_symbols: vec![],
        word_token: None,
    }
}

#[test]
fn undefined_symbol_is_reported_by_name() {
    let g = input(vec![Variable::named(
        "source_file",
        Rule::seq(vec![Rule::string("a"), Rule::named("undefined_rule")]),
    )]);
    assert_eq!(
        prepare_grammar(&g).unwrap_err(),
        CompileError::UndefinedSymbol("undefined_rule".to_string())
    );
}

#[test]
fn first_undefined_symbol_in_order_is_reported() {
    let mut g = input(vec![
        Variable::named("a", Rule::named("b")),
        Variable::named("b", Rule::choice(vec![Rule::named("x1"), Rule::named("x2")])),
    ]);
    g.variables_to_inline = vec!["x0".to_string()];
    assert_eq!(prepare_grammar(&g).unwrap_err(), CompileError::UndefinedSymbol("x1".to_string()));
}

#[test]
fn self_referential_inline_rule_is_cyclic() {
    let mut g = input(vec![
        Variable::named("source_file", Rule::named("helper")),
        Variable::named("helper", Rule::seq(vec![Rule::named("helper"), Rule::string("x")])),
    ]);
    g.variables_to_inline = vec!["helper".to_string()];
    assert!(matches!(prepare_grammar(&g), Err(CompileError::CyclicInlining(_))));
}

#[test]
fn mutually_recursive_inline_rules_are_cyclic() {
    let mut g = input(vec![
        Variable::named("s", Rule::named("a")),
        Variable::named("a", Rule::seq(vec![Rule::string("x"), Rule::named("b")])),
        Variable::named("b", Rule::seq(vec![Rule::string("y"), Rule::named("a")])),
    ]);
    g.variables_to_inline = vec!["a".to_string(), "b".to_string()];
    assert!(matches!(prepare_grammar(&g), Err(CompileError::CyclicInlining(_))));
}

#[test]
fn marked_token_with_a_reference_is_mixed() {
    let mut params = tree_sitter_generate::rules::MetadataParams::plain();
    params.is_token = true;
    let g = input(vec![
        Variable::named("s", Rule::named("t")),
        Variable::named(
            "t",
            Rule::seq(vec![
                Rule::named("s"),
                Rule::with_metadata(params, Rule::seq(vec![Rule::string("a"), Rule::named("s")])),
            ]),
        ),
    ]);
    assert_eq!(prepare_grammar(&g).unwrap_err(), CompileError::MixedTerminalRule("t".to_string()));
}

#[test]
fn conflicting_aliases_are_reported() {
    let g = input(vec![
        Variable::named(
            "s",
            Rule::seq(vec![
                Rule::alias(Rule::named("t"), "one", true),
                Rule::alias(Rule::named("t"), "two", true),
            ]),
        ),
        Variable::named("t", Rule::seq(vec![Rule::string("a"), Rule::string("b")])),
    ]);
    assert_eq!(
        prepare_grammar(&g).unwrap_err(),
        CompileError::ConflictingAlias {
            symbol: Symbol::non_terminal(1),
            first: "one".to_string(),
            second: "two".to_string()
        }
    );
}

#[test]
fn tokens_and_rules_are_split() {
    let g = input(vec![
        Variable::named("source_file", Rule::repeat(Rule::named("stmt"))),
        Variable::named("stmt", Rule::choice(vec![Rule::string("a"), Rule::string("b")])),
        Variable::named("number", Rule::pattern("\\d+", "")),
        Variable::named("unused", Rule::seq(vec![Rule::named("number"), Rule::string("a")])),
    ]);
    let (syntax, lexical, inlines, aliases) = prepare_grammar(&g).unwrap();
    let names: Vec<&str> = syntax.variables.iter().map(|v| v.name.as_str()).collect();
    assert_eq!(names, vec!["source_file", "stmt", "unused", "source_file_repeat"]);
    let tokens: Vec<(&str, VariableType)> =
        lexical.variables.iter().map(|v| (v.name.as_str(), v.kind)).collect();
    assert_eq!(
        tokens,
        vec![
            ("number", VariableType::Named),
            ("a", VariableType::Anonymous),
            ("b", VariableType::Anonymous)
        ]
    );
    // source_file -> source_file_repeat | (nothing)
    assert_eq!(syntax.variables[0].productions.len(), 2);
    assert_eq!(
        syntax.variables[0].productions[0].first_symbol(),
        Some(Symbol::non_terminal(3))
    );
    assert_eq!(syntax.variables[0].productions[1].first_symbol(), None);
    // stmt -> "a" | "b"
    assert_eq!(syntax.variables[1].productions.len(), 2);
    assert_eq!(syntax.variables[1].productions[0].first_symbol(), Some(Symbol::terminal(1)));
    assert_eq!(syntax.variables[1].productions[1].first_symbol(), Some(Symbol::terminal(2)));
    // unused -> number "a"
    assert_eq!(syntax.variables[2].productions[0].steps[0].symbol, Symbol::terminal(0));
    assert_eq!(syntax.variables[2].productions[0].steps[1].symbol, Symbol::terminal(1));
    // source_file_repeat -> source_file_repeat stmt | stmt
    assert_eq!(syntax.variables[3].kind, VariableType::Auxiliary);
    assert_eq!(syntax.variables[3].productions.len(), 2);
    assert_eq!(syntax.variables[3].productions[0].steps.len(), 2);
    assert_eq!(syntax.variables[3].productions[0].steps[0].symbol, Symbol::non_terminal(3));
    assert_eq!(syntax.variables[3].productions[0].steps[1].symbol, Symbol::non_terminal(1));
    assert_eq!(syntax.variables[3].productions[1].steps.len(), 1);
    assert!(inlines.productions.is_empty());
    assert!(inlines.production_map.is_empty());
    assert!(aliases.entries.is_empty());
    // start states grow with the token, and each token ends in its own accept state
    let starts: Vec<u32> = lexical.variables.iter().map(|v| v.start_state).collect();
    assert!(starts.windows(2).all(|w| w[0] < w[1]));
    assert_eq!(*starts.last().unwrap() as usize, lexical.nfa.states.len() - 1);
    for (i, _) in lexical.variables.iter().enumerate() {
        let first = if i == 0 { 0 } else { starts[i - 1] as usize + 1 };
        assert_eq!(
            lexical.nfa.states[first],
            NfaState::Accept { variable_index: i, precedence: 0 }
        );
        assert_eq!(lexical.variable_index_for_nfa_state(first as u32), i);
        assert_eq!(lexical.variable_index_for_nfa_state(starts[i]), i);
    }
    assert_eq!(lexical.variables[0].implicit_precedence, 0);
    assert_eq!(lexical.variables[1].implicit_precedence, 2);
}

#[test]
fn steps_take_the_innermost_precedence() {
    let g = input(vec![Variable::named(
        "e",
        Rule::prec_left(
            Precedence::Integer(1),
            Rule::seq(vec![
                Rule::named("e"),
                Rule::prec(Precedence::Integer(7), Rule::string("+")),
                Rule::prec_dynamic(-3, Rule::named("e")),
            ]),
        ),
    )]);
    let (syntax, _, _, _) = prepare_grammar(&g).unwrap();
    let p = &syntax.variables[0].productions[0];
    assert_eq!(p.dynamic_precedence, -3);
    assert_eq!(p.steps[0].precedence, Precedence::Integer(1));
    assert_eq!(p.steps[1].precedence, Precedence::Integer(7));
    assert_eq!(p.steps[1].associativity, None);
    assert_eq!(p.steps[2].precedence, Precedence::Integer(1));
    assert_eq!(
        p.steps[2].associativity,
        Some(tree_sitter_generate::rules::Associativity::Left)
    );
}

#[test]
fn inlined_steps_are_replaced_by_every_alternative() {
    let mut g = input(vec![
        Variable::named(
            "s",
            Rule::seq(vec![Rule::string("("), Rule::named("item"), Rule::string(")")]),
        ),
        Variable::named(
            "item",
            Rule::choice(vec![
                Rule::seq(vec![Rule::string("x"), Rule::string("y")]),
                Rule::named("leaf"),
            ]),
        ),
        Variable::named("leaf", Rule::choice(vec![Rule::string("1"), Rule::Blank])),
    ]);
    g.variables_to_inline = vec!["item".to_string(), "leaf".to_string()];
    let (syntax, _, inlines, _) = prepare_grammar(&g).unwrap();
    let symbols = |p: &tree_sitter_generate::grammars::Production| -> Vec<Symbol> {
        p.steps.iter().map(|s| s.symbol).collect()
    };
    let id = tree_sitter_generate::grammars::ProductionId { variable: Some(0), production: 0 };
    let found = inlines.inlined_productions(id, 1).unwrap();
    let t = Symbol::terminal;
    // tokens: "(" 0, ")" 1, "x" 2, "y" 3, "1" 4
    assert_eq!(
        found.iter().map(|p| symbols(p)).collect::<Vec<_>>(),
        vec![vec![t(0), t(2), t(3), t(1)], vec![t(0), t(4), t(1)], vec![t(0), t(1)]]
    );
    assert!(inlines.inlined_productions(id, 0).is_none());
    assert_eq!(symbols(&syntax.variables[0].productions[0]).len(), 3);
    // the rule `item` refers to the inlined rule `leaf`
    let item = tree_sitter_generate::grammars::ProductionId { variable: Some(1), production: 1 };
    let found = inlines.inlined_productions(item, 0).unwrap();
    assert_eq!(
        found.iter().map(|p| symbols(p)).collect::<Vec<_>>(),
        vec![vec![t(4)], vec![]]
    );
}

#[test]
fn unused_inline_request_changes_nothing() {
    let build = |inline: Vec<String>| {
        let mut g = input(vec![
            Variable::named("s", Rule::seq(vec![Rule::named("a"), Rule::named("b")])),
            Variable::named("a", Rule::seq(vec![Rule::string("x"), Rule::string("y")])),
            Variable::named("b", Rule::seq(vec![Rule::string("y"), Rule::string("x")])),
        ]);
        g.variables_to_inline = inline;
        prepare_grammar(&g).unwrap()
    };
    let (_, _, with_request, _) = build(vec!["a".to_string(), "s".to_string()]);
    let (_, _, without, _) = build(vec!["a".to_string()]);
    assert_eq!(with_request, without);
    assert_eq!(without.production_map.len(), 1);
}
