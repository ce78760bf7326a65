use tree_sitter_generate::grammars::{
    InlinedProductionMap, InlinedStep, InputGrammar, LexicalGrammar, LexicalVariable,
    PrecedenceEntry, Production, ProductionId, ProductionStep, SyntaxVariable, Variable,
    VariableType,
};
use tree_sitter_generate::nfa::Nfa;
use tree_sitter_generate::rules::{Alias, Associativity, Precedence, Rule, Symbol};

fn grammar(variables: Vec<Variable>) -> InputGrammar {
    InputGrammar {
        name: "test".to_string(),
        variables,
        extra_symbols: vec![],
        expected_conflicts: vec![],
        precedence_orderings: vec![],
        external_tokens: vec![],
        variables_to_inline: vec![],
        supertype_symbols: vec![],
        word_token: None,
    }
}

fn names(g: &InputGrammar) -> Vec<String> {
    g.variables.iter().map(|v| v.name.clone()).collect()
}

#[test]
fn unused_rules_are_removed() {
    let mut g = grammar(vec![
        Variable::named("a", Rule::seq(vec![Rule::named("b"), Rule::string("x")])),
        Variable::named("b", Rule::repeat(Rule::named("c"))),
        Variable::named("c", Rule::string("c")),
        Variable::named("dead", Rule::named("a")),
        Variable::named("dead2", Rule::named("dead")),
    ]);
    g.remove_unused_rules();
    assert_eq!(names(&g), vec!["a", "b", "c"]);
}

#[test]
fn start_rule_survives_without_being_referenced() {
    let mut g = grammar(vec![Variable::named("only", Rule::string("x"))]);
    g.remove_unused_rules();
    assert_eq!(names(&g), vec!["only"]);
}

#[test]
fn removal_on_empty_grammar_keeps_it_empty() {
    let mut g = grammar(vec![]);
    g.remove_unused_rules();
    assert!(g.variables.is_empty());
}

#[test]
fn references_are_followed_through_metadata_and_choice() {
    let mut g = grammar(vec![
        Variable::named(
            "start",
            Rule::choice(vec![
                Rule::prec_left(Precedence::Integer(1), Rule::named("x")),
                Rule::field("f", Rule::alias(Rule::named("y"), "z", true)),
            ]),
        ),
        Variable::named("unused", Rule::Blank),
        Variable::named("x", Rule::pattern("a+", "")),
        Variable::named("y", Rule::Symbol(Symbol::terminal(0))),
    ]);
    g.remove_unused_rules();
    assert_eq!(names(&g), vec!["start", "x", "y"]);
}

#[test]
fn removal_filters_the_lists_that_name_removed_rules() {
    let mut g = grammar(vec![
        Variable::named("start", Rule::named("live")),
        Variable::named("live", Rule::string("l")),
        Variable::named("gone", Rule::string("g")),
    ]);
    g.extra_symbols = vec![
        Rule::named("gone"),
        Rule::named("live"),
        Rule::string("gone"),
        Rule::pattern("\\s", ""),
        Rule::seq(vec![Rule::named("gone")]),
    ];
    g.external_tokens = vec![Rule::named("gone"), Rule::named("outside")];
    g.variables_to_inline = vec!["gone".to_string(), "live".to_string()];
    g.supertype_symbols = vec!["live".to_string(), "gone".to_string(), "other".to_string()];
    g.expected_conflicts = vec![vec!["gone".to_string()]];
    g.word_token = Some("gone".to_string());
    g.remove_unused_rules();
    assert_eq!(names(&g), vec!["start", "live"]);
    assert_eq!(
        g.extra_symbols,
        vec![
            Rule::named("live"),
            Rule::pattern("\\s", ""),
            Rule::seq(vec![Rule::named("gone")])
        ]
    );
    assert_eq!(g.external_tokens, vec![Rule::named("outside")]);
    assert_eq!(g.variables_to_inline, vec!["live".to_string()]);
    assert_eq!(g.supertype_symbols, vec!["live".to_string(), "other".to_string()]);
    assert_eq!(g.expected_conflicts, vec![vec!["gone".to_string()]]);
    assert_eq!(g.word_token, Some("gone".to_string()));
}

#[test]
fn every_survivor_is_reached_from_the_start_rule() {
    let mut g = grammar(vec![
        Variable::named("s", Rule::named("t")),
        Variable::named("island_a", Rule::named("island_b")),
        Variable::named("island_b", Rule::named("island_a")),
        Variable::named("t", Rule::named("s")),
    ]);
    g.remove_unused_rules();
    assert_eq!(names(&g), vec!["s", "t"]);
    let again = names(&g);
    g.remove_unused_rules();
    assert_eq!(names(&g), again);
}

#[test]
fn rule_is_used_looks_for_declared_names() {
    let g = grammar(vec![Variable::named("a", Rule::Blank), Variable::hidden("_b", Rule::Blank)]);
    assert!(g.rule_is_used(&Rule::named("a")));
    assert!(g.rule_is_used(&Rule::seq(vec![Rule::string("a"), Rule::repeat(Rule::named("_b"))])));
    assert!(!g.rule_is_used(&Rule::named("c")));
    assert!(!g.rule_is_used(&Rule::string("a")));
    assert!(!g.rule_is_used(&Rule::Blank));
    assert!(!grammar(vec![]).rule_is_used(&Rule::named("a")));
}

#[test]
fn variable_kinds() {
    assert_eq!(Variable::named("n", Rule::Blank).kind, VariableType::Named);
    assert_eq!(Variable::hidden("n", Rule::Blank).kind, VariableType::Hidden);
    assert_eq!(Variable::auxiliary("n", Rule::Blank).kind, VariableType::Auxiliary);
    assert_eq!(Variable::anonymous("n", Rule::Blank).kind, VariableType::Anonymous);
    assert_eq!(Variable::named("n", Rule::string("x")).name, "n");
    assert_eq!(Variable::named("n", Rule::string("x")).rule, Rule::String("x".to_string()));
    assert!(VariableType::Named.is_visible());
    assert!(VariableType::Anonymous.is_visible());
    assert!(!VariableType::Hidden.is_visible());
    assert!(!VariableType::Auxiliary.is_visible());
}

#[test]
fn production_step_builders() {
    let step = ProductionStep::new(Symbol::terminal(3));
    assert_eq!(step.symbol, Symbol::terminal(3));
    assert_eq!(step.precedence, Precedence::Absent);
    assert_eq!(step.associativity, None);
    assert_eq!(step.alias, None);
    assert_eq!(step.field_name, None);
    let step = step
        .with_prec(Precedence::Integer(5), Some(Associativity::Right))
        .with_alias("shown", true)
        .with_field_name("left");
    assert_eq!(step.symbol, Symbol::terminal(3));
    assert_eq!(step.precedence, Precedence::Integer(5));
    assert_eq!(step.associativity, Some(Associativity::Right));
    assert_eq!(step.alias, Some(Alias { value: "shown".to_string(), is_named: true }));
    assert_eq!(step.field_name, Some("left".to_string()));
}

#[test]
fn first_symbol_of_a_production() {
    let empty = Production { steps: vec![], dynamic_precedence: 0 };
    assert_eq!(empty.first_symbol(), None);
    let p = Production {
        steps: vec![
            ProductionStep::new(Symbol::non_terminal(7)),
            ProductionStep::new(Symbol::terminal(1)),
        ],
        dynamic_precedence: 2,
    };
    assert_eq!(p.first_symbol(), Some(Symbol::non_terminal(7)));
}

#[test]
fn syntax_variable_kinds() {
    let v = |kind| SyntaxVariable { name: "v".to_string(), kind, productions: vec![] };
    assert!(v(VariableType::Auxiliary).is_auxiliary());
    assert!(!v(VariableType::Hidden).is_auxiliary());
    assert!(v(VariableType::Auxiliary).is_hidden());
    assert!(v(VariableType::Hidden).is_hidden());
    assert!(!v(VariableType::Named).is_hidden());
    assert!(!v(VariableType::Anonymous).is_hidden());
}

fn lexical(starts: &[u32]) -> LexicalGrammar {
    LexicalGrammar {
        nfa: Nfa::new(),
        variables: starts
            .iter()
            .enumerate()
            .map(|(i, s)| LexicalVariable {
                name: format!("t{i}"),
                kind: VariableType::Named,
                implicit_precedence: 0,
                start_state: *s,
            })
            .collect(),
    }
}

#[test]
fn nfa_states_map_back_to_their_token() {
    let g = lexical(&[2, 5, 9]);
    assert_eq!(g.variable_index_for_nfa_state(0), 0);
    assert_eq!(g.variable_index_for_nfa_state(2), 0);
    assert_eq!(g.variable_index_for_nfa_state(3), 1);
    assert_eq!(g.variable_index_for_nfa_state(5), 1);
    assert_eq!(g.variable_index_for_nfa_state(6), 2);
    assert_eq!(g.variable_index_for_nfa_state(9), 2);
}

#[test]
fn token_indices_drop_immediate_repeats_only() {
    let g = lexical(&[2, 5, 9]);
    assert_eq!(g.variable_indices_for_nfa_states(&vec![]), Vec::<usize>::new());
    assert_eq!(g.variable_indices_for_nfa_states(&vec![0, 1, 2, 3, 9, 8, 1]), vec![0, 1, 2, 0]);
    assert_eq!(g.variable_indices_for_nfa_states(&vec![4, 0, 4]), vec![1, 0, 1]);
}

#[test]
fn inlined_productions_are_found_by_production_and_step() {
    let p = |n: usize| Production {
        steps: vec![ProductionStep::new(Symbol::terminal(n))],
        dynamic_precedence: 0,
    };
    let id = ProductionId { variable: Some(1), production: 0 };
    let map = InlinedProductionMap {
        productions: vec![p(10), p(11), p(12)],
        production_map: vec![
            InlinedStep { production: id, step_index: 2, replacements: vec![2, 0] },
            InlinedStep {
                production: ProductionId { variable: None, production: 0 },
                step_index: 2,
                replacements: vec![1],
            },
        ],
    };
    let found = map.inlined_productions(id, 2).unwrap();
    assert_eq!(found, vec![&p(12), &p(10)]);
    assert!(map.inlined_productions(id, 1).is_none());
    assert!(map.inlined_productions(ProductionId { variable: Some(0), production: 0 }, 2).is_none());
    let found = map.inlined_productions(ProductionId { variable: None, production: 0 }, 2).unwrap();
    assert_eq!(found, vec![&p(11)]);
    assert!(InlinedProductionMap::new().inlined_productions(id, 2).is_none());
}

#[test]
fn precedence_entries_read_as_in_the_grammar() {
    assert_eq!(PrecedenceEntry::Name("mul".to_string()).to_text(), "'mul'");
    assert_eq!(PrecedenceEntry::Symbol("expr".to_string()).to_text(), "$.expr");
}
