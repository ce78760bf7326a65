use tree_sitter_generate::build_wasm::{compiler_flags, export_flags, stale_files};
use tree_sitter_generate::cli::cst::NodeInfo;
use tree_sitter_generate::cli::edit::{Point, Stats};
use tree_sitter_generate::cli::error::CliError;
use tree_sitter_generate::cli::format::{OutputFormat, SExpressionFlags};
use tree_sitter_generate::cli::input::{classify_arguments, path_lines, Argument};
use tree_sitter_generate::cli::lines::{split_lines, trim, Trim};
use tree_sitter_generate::cli::options::{
    check_single_input, duration_ms, file_names_left, file_names_to_show, parse_byte_range,
    row_offset, select_abi_version, text_options, DEFAULT_GENERATE_ABI_VERSION,
};
use tree_sitter_generate::cli::query::{
    count_line_feeds, first_line_of, match_layout, max_capture_name_len, ordered_layout, pos_align,
    push_capture_row, Capture, HiddenMatches,
};
use tree_sitter_generate::cli::report::{
    input_heading, parse_summary, push_padded_left, shows_summary, snippet_origin, timed_out_summary,
};
use tree_sitter_generate::cli::style::Colors;
use tree_sitter_generate::cli::scope_range::{NodeRangeCheck, ScopeRange};
use tree_sitter_generate::cli::walk::{
    after_move, error_search_step, first_move, seek_climbs, seek_step, Event, Move, SearchStep,
    SeekStep, Step,
};
use tree_sitter_generate::generate::LANGUAGE_VERSION;
use tree_sitter_generate::rules::{supported_flags, Rule};
use tree_sitter_generate::grammar_file::{
    finish_grammar_json, grammar_file_kind, grammar_from_output, grammar_name, runtime_arguments,
    runtime_fault, runtime_name, searchable_dirs_with, split_output, version_globals,
    version_preamble, GrammarFileKind, LoadError,
};

fn chars(text: &str) -> Vec<char> {
    text.chars().collect()
}

fn strings(texts: &[&str]) -> Vec<String> {
    texts.iter().map(|t| t.to_string()).collect()
}

fn on(red: u8, green: u8, blue: u8) -> String {
    format!("\x1b[38;2;{red};{green};{blue}m")
}

#[test]
fn abi_version_is_the_default_the_newest_or_a_number() {
    assert_eq!(DEFAULT_GENERATE_ABI_VERSION, 14);
    assert_eq!(select_abi_version(None), Some(14));
    assert_eq!(select_abi_version(Some("latest")), Some(LANGUAGE_VERSION));
    assert_eq!(select_abi_version(Some("13")), Some(13));
    assert_eq!(select_abi_version(Some("+15")), Some(15));
    assert_eq!(select_abi_version(Some("newest")), None);
    assert_eq!(select_abi_version(Some("")), None);
    assert_eq!(select_abi_version(Some("99999999999999999999999")), None);
}

#[test]
fn byte_ranges_are_two_numbers_and_a_colon() {
    assert_eq!(parse_byte_range("10:20"), Some((10, 20)));
    assert_eq!(parse_byte_range("1:2:3"), Some((1, 2)));
    assert_eq!(parse_byte_range("10"), None);
    assert_eq!(parse_byte_range("a:1"), None);
    assert_eq!(parse_byte_range("1:"), None);
    assert_eq!(parse_byte_range(":1"), None);
}

#[test]
fn ranges_and_edits_need_a_single_input() {
    assert_eq!(check_single_input(2, true, true), Err(CliError::RangesWithManyInputs));
    assert_eq!(check_single_input(2, false, true), Err(CliError::EditsWithManyInputs));
    assert_eq!(check_single_input(2, false, false), Ok(()));
    assert_eq!(check_single_input(1, true, true), Ok(()));
    assert_eq!(check_single_input(0, true, false), Ok(()));
}

#[test]
fn file_names_are_shown_for_several_inputs() {
    assert_eq!(file_names_to_show(0), 0);
    assert_eq!(file_names_to_show(1), 0);
    assert_eq!(file_names_to_show(3), 3);
    assert_eq!(file_names_left(3), 2);
    assert_eq!(file_names_left(0), 0);
}

#[test]
fn text_options_come_from_the_format() {
    assert_eq!(text_options(None), (false, false));
    assert_eq!(text_options(Some(&OutputFormat::Xml)), (false, false));
    let mut flags = SExpressionFlags::default();
    flags.text.show = true;
    assert_eq!(text_options(Some(&OutputFormat::SExpression(flags))), (false, true));
    let parsed = OutputFormat::parse("cst:1t").unwrap();
    assert_eq!(text_options(Some(&parsed)), (true, true));
    assert_eq!(row_offset(true), 1);
    assert_eq!(row_offset(false), 0);
}

#[test]
fn parses_are_counted() {
    let mut stats = Stats::default();
    stats.record(false);
    stats.record(true);
    stats.record(false);
    assert_eq!(stats.total_parses, 3);
    assert_eq!(stats.successful_parses, 2);
    assert_eq!(stats.failed_parses(), 1);
}

#[test]
fn durations_are_given_in_milliseconds() {
    assert_eq!(duration_ms(2, 345_678_901), Some(2345));
    assert_eq!(duration_ms(0, 999_999), Some(0));
    assert_eq!(duration_ms(u64::MAX / 1000, 0), Some(u64::MAX / 1000 * 1000));
    assert_eq!(duration_ms(u64::MAX / 1000 + 1, 0), None);
}

#[test]
fn walk_moves_follow_the_outcome_of_the_last() {
    assert_eq!(first_move(false), Move::FirstChild);
    assert_eq!(first_move(true), Move::NextSibling);
    assert_eq!(after_move(Move::FirstChild, true), Step::Emit(Event::Child, false));
    assert_eq!(after_move(Move::FirstChild, false), Step::Emit(Event::Leaf, true));
    assert_eq!(after_move(Move::NextSibling, true), Step::Emit(Event::Sibling, false));
    assert_eq!(after_move(Move::NextSibling, false), Step::Try(Move::Parent));
    assert_eq!(after_move(Move::Parent, true), Step::Emit(Event::Parent, true));
    assert_eq!(after_move(Move::Parent, false), Step::End);
}

#[test]
fn walk_visits_every_node_on_the_way_down_and_back() {
    // The tree: 0 has the children 1 and 3, and 1 has the child 2.
    let parent: [Option<usize>; 4] = [None, Some(0), Some(1), Some(0)];
    let first_child: [Option<usize>; 4] = [Some(1), Some(2), None, None];
    let next_sibling: [Option<usize>; 4] = [None, Some(3), None, None];
    let mut at = 0;
    let mut traversed = false;
    let mut seen = Vec::new();
    'walk: loop {
        let mut tried = first_move(traversed);
        loop {
            let target = match tried {
                Move::FirstChild => first_child[at],
                Move::NextSibling => next_sibling[at],
                Move::Parent => parent[at],
            };
            if let Some(next) = target {
                at = next;
            }
            match after_move(tried, target.is_some()) {
                Step::Try(next) => tried = next,
                Step::Emit(event, walked) => {
                    traversed = walked;
                    seen.push((event, at, walked));
                    break;
                }
                Step::End => break 'walk,
            }
        }
    }
    assert_eq!(
        seen,
        vec![
            (Event::Child, 1, false),
            (Event::Child, 2, false),
            (Event::Leaf, 2, true),
            (Event::Parent, 1, true),
            (Event::Sibling, 3, false),
            (Event::Leaf, 3, true),
            (Event::Parent, 0, true),
        ]
    );
}

#[test]
fn first_error_is_searched_downwards() {
    assert_eq!(error_search_step(true, true, false), SearchStep::Found);
    assert_eq!(error_search_step(true, false, true), SearchStep::Found);
    assert_eq!(error_search_step(true, false, false), SearchStep::Descend);
    assert_eq!(error_search_step(false, false, false), SearchStep::Advance);
    assert_eq!(error_search_step(false, true, true), SearchStep::Advance);
}

fn error_node(kind: &str, named: bool, missing: bool) -> NodeInfo {
    NodeInfo {
        kind: kind.to_string(),
        is_named: named,
        is_error: !missing,
        is_extra: false,
        is_missing: missing,
        has_error: true,
        has_changes: false,
        is_new: false,
        child_count: 0,
        start_byte: 0,
        end_byte: 0,
        start: Point { row: 1, column: 2 },
        end: Point { row: 3, column: 14 },
        field_name: None,
        text: None,
    }
}

#[test]
fn parse_summaries_name_the_first_error() {
    assert_eq!(parse_summary("a.txt", 12, 8, None), "a.txt   \t12 ms\n");
    assert_eq!(parse_summary("long/path.txt", 0, 3, None), "long/path.txt\t0 ms\n");
    assert_eq!(
        parse_summary("a", 5, 0, Some(&error_node("ERROR", true, false))),
        "a\t5 ms\t(ERROR [1, 2] - [3, 14])\n"
    );
    assert_eq!(
        parse_summary("a", 5, 2, Some(&error_node("identifier", true, true))),
        "a \t5 ms\t(MISSING identifier [1, 2] - [3, 14])\n"
    );
    assert_eq!(
        parse_summary("a", 5, 1, Some(&error_node("\n", false, true))),
        "a\t5 ms\t(MISSING \"\\n\" [1, 2] - [3, 14])\n"
    );
    assert_eq!(timed_out_summary("b.rs", 1000, 6), "b.rs  \t1000 ms (timed out)\n");
    assert_eq!(snippet_origin(3), "Snippet #3");
    assert_eq!(input_heading("a/b.rs"), "\x1b[38;2;38;166;154ma/b.rs\x1b[0m\n");
    assert!(shows_summary(true, false, false));
    assert!(shows_summary(false, true, false));
    assert!(!shows_summary(false, false, false));
    assert!(!shows_summary(true, true, true));
}

#[test]
fn padding_counts_characters() {
    let mut out = String::from(">");
    push_padded_left(&mut out, "äb", 4);
    assert_eq!(out, ">äb  ");
    push_padded_left(&mut out, "abc", 2);
    assert_eq!(out, ">äb  abc");
}

#[test]
fn capture_rows_are_laid_out_in_columns() {
    let colors = Colors::new();
    assert_eq!(count_line_feeds(b""), 0);
    assert_eq!(count_line_feeds(b"a\nb\n\nc"), 3);
    assert_eq!(count_line_feeds(b"\r\r"), 0);
    assert_eq!(pos_align(0), 13);
    assert_eq!(pos_align(12), 15);
    assert_eq!(pos_align(1000), 19);
    let names = strings(&["name", "definition.ä", "x"]);
    assert_eq!(max_capture_name_len(&names), 13);
    assert_eq!(max_capture_name_len(&Vec::new()), 0);

    let capture = Capture {
        pattern_index: 7,
        capture_index: 2,
        name: "name".to_string(),
        start: Point { row: 0, column: 4 },
        end: Point { row: 0, column: 7 },
        text: "foo".to_string(),
    };
    let mut out = String::new();
    let mut last_row = usize::MAX;
    push_capture_row(&mut out, &colors, &ordered_layout(&colors, 15, 6), &capture, &mut last_row);
    let expected = format!(
        "{fresh}0:4   - 0:7     {f} 7{t}:{n}2   {b}name   {k}`{t}foo{k}`\x1b[0m\n",
        fresh = on(188, 218, 120),
        f = on(177, 220, 253),
        t = on(118, 118, 118),
        n = on(117, 187, 253),
        b = on(175, 122, 197),
        k = on(101, 192, 67),
    );
    assert_eq!(out, expected);
    assert_eq!(last_row, 0);

    let long = Capture {
        pattern_index: 7,
        capture_index: 10,
        name: "body".to_string(),
        start: Point { row: 0, column: 8 },
        end: Point { row: 2, column: 1 },
        text: "{\r\n  x\n}".to_string(),
    };
    let mut out = String::new();
    push_capture_row(
        &mut out,
        &colors,
        &match_layout(&colors, 15, 6, false),
        &long,
        &mut last_row,
    );
    let expected = format!(
        "{same}0:8   - 2:1     {same}  7{t}:{n}10  {b} body   {k}`{t}{{{k}`\x1b[0m...\n",
        same = on(92, 108, 115),
        t = on(118, 118, 118),
        n = on(117, 187, 253),
        b = on(175, 122, 197),
        k = on(101, 192, 67),
    );
    assert_eq!(out, expected);
    assert_eq!(match_layout(&colors, 15, 6, true).pattern_paint, colors.field);
    assert!(!match_layout(&colors, 15, 6, true).name_pad);
}

#[test]
fn first_lines_end_before_the_line_feed() {
    assert_eq!(first_line_of(&chars("ab\ncd")), chars("ab"));
    assert_eq!(first_line_of(&chars("ab\r\ncd")), chars("ab"));
    assert_eq!(first_line_of(&chars("ab\r")), chars("ab\r"));
    assert_eq!(first_line_of(&chars("\nab")), chars(""));
    assert_eq!(first_line_of(&chars("ab")), chars("ab"));
}

#[test]
fn hidden_matches_are_spoken_of_once() {
    let mut hidden = HiddenMatches::new();
    assert_eq!(
        hidden.note(4),
        Some(
            "Hidden match with id: 4\nYou need to specify al least one capture to have an output for it\n"
                .to_string()
        )
    );
    assert_eq!(hidden.note(4), None);
    assert!(hidden.note(5).is_some());
    assert_eq!(hidden.note(5), None);
    assert_eq!(hidden.seen, vec![4, 5]);
}

#[test]
fn grammar_files_are_scripts_or_json() {
    assert_eq!(grammar_file_kind(false, Some("js")), Ok(GrammarFileKind::Js));
    assert_eq!(grammar_file_kind(false, Some("json")), Ok(GrammarFileKind::Json));
    assert_eq!(grammar_file_kind(true, Some("json")), Err(LoadError::IsDirectory));
    assert_eq!(grammar_file_kind(false, Some("ts")), Err(LoadError::UnknownExtension));
    assert_eq!(grammar_file_kind(false, None), Err(LoadError::UnknownExtension));
}

#[test]
fn runtimes_read_the_script_from_their_input() {
    assert_eq!(runtime_name(None), "node");
    assert_eq!(runtime_name(Some("bun")), "bun");
    assert_eq!(
        runtime_arguments("node"),
        strings(&["--experimental-fetch", "--input-type=module", "-"])
    );
    assert_eq!(runtime_arguments("bun"), strings(&["-"]));
    assert_eq!(runtime_arguments("deno"), strings(&["run", "--allow-all", "-"]));
    assert_eq!(runtime_arguments("qjs"), Vec::<String>::new());
    assert_eq!(runtime_fault(0), None);
    assert_eq!(runtime_fault(3), Some(LoadError::RuntimeFailed(3)));
    assert_eq!(runtime_fault(-1), Some(LoadError::RuntimeFailed(-1)));
}

#[test]
fn scripts_are_told_the_version() {
    let expected = "globalThis.TREE_SITTER_CLI_VERSION_MAJOR = 0;\n         globalThis.TREE_SITTER_CLI_VERSION_MINOR = 20;\n         globalThis.TREE_SITTER_CLI_VERSION_PATCH = 9;";
    assert_eq!(version_globals(0, 20, 9), expected);
    assert_eq!(version_preamble("0.20.9"), Ok(expected.to_string()));
    assert_eq!(version_preamble("0.20.9-beta.1+build"), Ok(expected.to_string()));
    assert_eq!(version_preamble("0.20"), Err(LoadError::InvalidVersion));
    assert_eq!(version_preamble("latest"), Err(LoadError::InvalidVersion));
}

#[test]
fn script_output_ends_in_the_grammar() {
    assert_eq!(split_output("{}"), (None, "{}".to_string()));
    assert_eq!(
        split_output("warning\nmore\n{}"),
        (Some("warning\nmore".to_string()), "{}".to_string())
    );
    assert_eq!(split_output("said\n"), (Some("said".to_string()), String::new()));
    assert_eq!(
        grammar_from_output("hello\n{\"name\":\"x\",\"rules\":{}}"),
        Ok((
            Some("hello".to_string()),
            "{\n  \"name\": \"x\",\n  \"rules\": {}\n}\n".to_string()
        ))
    );
    assert_eq!(grammar_from_output("[1,2]"), Ok((None, "[\n  1,\n  2\n]\n".to_string())));
    assert_eq!(
        grammar_from_output("{\"b\":1,\"a\":2}"),
        Ok((None, "{\n  \"b\": 1,\n  \"a\": 2\n}\n".to_string()))
    );
    assert_eq!(grammar_from_output("{\"name\":"), Err(LoadError::InvalidJson));
    assert_eq!(grammar_from_output("{}\n"), Err(LoadError::InvalidJson));
    assert_eq!(finish_grammar_json(Some("{}".to_string())), Ok("{}\n".to_string()));
    assert_eq!(finish_grammar_json(None), Err(LoadError::InvalidJson));
}

#[test]
fn grammar_names_come_from_the_directory() {
    assert_eq!(grammar_name(Some("tree-sitter-rust")), "rust");
    assert_eq!(grammar_name(Some("tree-sitter-")), "");
    assert_eq!(grammar_name(Some("rust")), "YOUR_LANGUAGE_NAME");
    assert_eq!(grammar_name(None), "YOUR_LANGUAGE_NAME");
}

#[test]
fn the_current_directory_is_searched_last() {
    let dirs = strings(&["lib", "", "vendor"]);
    assert_eq!(searchable_dirs_with(&dirs, "lib"), dirs);
    assert_eq!(searchable_dirs_with(&dirs, ""), dirs);
    assert_eq!(searchable_dirs_with(&dirs, "src"), strings(&["lib", "vendor", "src", ""]));
    assert_eq!(searchable_dirs_with(&Vec::new(), "a"), strings(&["a"]));
}

#[test]
fn texts_split_into_lines() {
    let lines = |text: &str| -> Vec<String> {
        split_lines(&chars(text)).iter().map(|l| l.iter().collect()).collect()
    };
    assert_eq!(lines(""), Vec::<String>::new());
    assert_eq!(lines("a"), strings(&["a"]));
    assert_eq!(lines("a\n"), strings(&["a"]));
    assert_eq!(lines("a\n\n"), strings(&["a", ""]));
    assert_eq!(lines("a\r\nb\r"), strings(&["a", "b\r"]));
    assert_eq!(lines("\n"), strings(&[""]));
    assert_eq!(trim(Trim::Blanks, &chars(" \t a b\u{a0}\n")), chars("a b"));
    assert_eq!(trim(Trim::Blanks, &chars(" \t ")), chars(""));
    assert_eq!(trim(Trim::Quotes, &chars("\"\"a\"b\"")), chars("a\"b"));
    assert_eq!(trim(Trim::Quotes, &chars(" \"a\"")), chars(" \"a"));
}

#[test]
fn path_files_hold_a_path_on_a_line() {
    assert_eq!(path_lines("  a.txt \r\n\n\t\n b c \nlast"), strings(&["a.txt", "b c", "last"]));
    assert_eq!(path_lines(""), Vec::<String>::new());
}

#[test]
fn a_dash_announces_a_snippet() {
    let (arguments, from_input) = classify_arguments(&strings(&["a", "-", "snip", "b", "-"]));
    assert_eq!(
        arguments,
        vec![
            Argument::Path("a".to_string()),
            Argument::Snippet("snip".to_string()),
            Argument::Path("b".to_string()),
        ]
    );
    assert!(from_input);
    let (arguments, from_input) = classify_arguments(&strings(&["-", "-"]));
    assert_eq!(arguments, vec![Argument::Snippet("-".to_string())]);
    assert!(!from_input);
}

#[test]
fn compiler_arguments_depend_on_the_build() {
    let debug = compiler_flags(true);
    assert_eq!(debug.len(), 29);
    assert_eq!(debug[0], "--target=wasm32-unknown-unknown");
    assert_eq!(debug[21], "-o");
    assert_eq!(debug[22], "lib/binding_web/web-tree-sitter.wasm");
    assert_eq!(debug[27..], strings(&["-O0", "-g"])[..]);
    let release = compiler_flags(false);
    assert_eq!(release.len(), 31);
    assert_eq!(release[..27], debug[..27]);
    assert_eq!(
        release[27..],
        strings(&["-O3", "-flto", "-Wl,--lto-O3", "-Wl,--strip-debug"])[..]
    );
    assert_eq!(
        export_flags("\"_malloc\"\n\"_free\"\nts_init\n"),
        strings(&["-Wl,--export=_malloc", "-Wl,--export=_free", "-Wl,--export=ts_init"])
    );
    assert_eq!(stale_files().len(), 4);
}

#[test]
fn tokens_and_repetitions_are_built_from_rules() {
    let token = Rule::token(Rule::string("a"));
    match token {
        Rule::Metadata { params, rule } => {
            assert!(params.is_token);
            assert!(!params.is_string);
            assert_eq!(params.dynamic_precedence, 0);
            assert_eq!(*rule, Rule::String("a".to_string()));
        }
        other => panic!("no metadata: {other:?}"),
    }
    assert_eq!(
        Rule::zero_or_more(Rule::named("x")),
        Rule::Choice(vec![
            Rule::Repeat(Box::new(
                Rule::NamedSymbol("x".to_string())
            )),
            Rule::Blank,
        ])
    );
    assert_eq!(supported_flags("gimi"), "ii");
    assert_eq!(supported_flags(""), "");
    assert_eq!(supported_flags("su"), "");
}

#[test]
fn the_node_at_a_point_is_sought_step_by_step() {
    let p = |row, column| Point { row, column };
    assert!(seek_climbs(p(2, 0), p(2, 0)));
    assert!(seek_climbs(p(2, 1), p(2, 0)));
    assert!(!seek_climbs(p(1, 9), p(2, 0)));
    assert_eq!(seek_step(p(2, 0), p(2, 0), None), SeekStep::Take);
    assert_eq!(seek_step(p(2, 0), p(3, 0), Some(p(4, 0))), SeekStep::Take);
    assert_eq!(
        seek_step(p(2, 0), p(1, 0), Some(p(2, 5))),
        SeekStep::DownOrSibling
    );
    assert_eq!(
        seek_step(p(2, 0), p(1, 0), Some(p(2, 0))),
        SeekStep::Along
    );
    assert_eq!(
        seek_step(p(2, 0), p(1, 0), Some(p(1, 5))),
        SeekStep::Along
    );
    assert_eq!(seek_step(p(2, 0), p(1, 0), None), SeekStep::DownOrTake);
}

#[test]
fn an_open_range_settles_on_the_node_that_was_found() {
    let p = |row, column| Point { row, column };
    let node = ScopeRange::Node { start: p(3, 0) };
    let range = ScopeRange::Range {
        start: p(9, 0),
        end: p(9, 9),
    };
    let check = NodeRangeCheck::check_parent_scoped;
    let open = NodeRangeCheck::open_node_point;

    assert_eq!(open(&None), None);
    assert_eq!(open(&Some(vec![])), None);
    assert_eq!(open(&Some(vec![node, range])), None);
    assert_eq!(open(&Some(vec![range, node])), Some(p(3, 0)));

    let mut ranges = Some(vec![range, node]);
    let seen = check(&mut ranges, Some((p(2, 4), p(5, 0))), p(3, 1), p(3, 2));
    assert!(!seen.hide_row && !seen.draw_extra_lf);
    assert_eq!(
        ranges,
        Some(vec![
            range,
            ScopeRange::Range { start: p(2, 4), end: p(5, 0) }
        ])
    );

    let mut ranges = Some(vec![range, node]);
    let seen = check(&mut ranges, None, p(1, 0), p(1, 2));
    assert!(seen.hide_row && !seen.draw_extra_lf);
    assert_eq!(ranges, Some(vec![range, node]));

    let mut ranges = Some(vec![node, range]);
    let seen = check(&mut ranges, Some((p(0, 0), p(1, 0))), p(9, 1), p(9, 2));
    assert!(!seen.hide_row);
    assert_eq!(ranges, Some(vec![node, range]));
}
