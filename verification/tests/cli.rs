use tree_sitter_generate::cli::edit::{
    create_edit, offset_for_position, perform_edit, position_for_offset, unescape_lf, Edit, Point,
};
use tree_sitter_generate::cli::encoding::Encoding;
use tree_sitter_generate::cli::error::CliError;
use tree_sitter_generate::cli::escape::{
    escape_char, escape_chars, escape_invisible, escape_invisible_symbols, translate_symbols,
};
use tree_sitter_generate::cli::format::{
    CstFlags, ExtraFlags, OutputFormat, SExpressionFlags, TextFlags,
};
use tree_sitter_generate::cli::input::{collect_paths, split_negation, Input, Inputs};
use tree_sitter_generate::cli::s_expression::SExpressionRenderer;
use tree_sitter_generate::cli::scope_range::{NodeRangeCheck, ScopeRange};

#[test]
fn default_flags() {
    assert_eq!(ExtraFlags::default(), ExtraFlags { render_timing: false, line_flush: true });
    assert_eq!(TextFlags::default(), TextFlags { show: false, lines_count_from_one: false });
    let s = SExpressionFlags::default();
    assert!(s.show_positions && !s.one_line);
    let c = CstFlags::default();
    assert!(c.show_positions);
    assert!(!c.show_byte_positions && !c.unquoted_anonymous && !c.always_show_full_error_captures);
}

#[test]
fn flags_are_set_letter_by_letter() {
    let f = SExpressionFlags::parse(Some("oP1t/L")).unwrap();
    assert!(f.one_line && !f.show_positions);
    assert!(f.text.lines_count_from_one && f.text.show);
    assert!(f.extra.render_timing && !f.extra.line_flush);
    assert_eq!(SExpressionFlags::parse(None).unwrap(), SExpressionFlags::default());
    assert_eq!(SExpressionFlags::parse(Some("")).unwrap(), SExpressionFlags::default());
    assert_eq!(SExpressionFlags::parse(Some("oOpP")).unwrap().one_line, false);
    assert_eq!(
        SExpressionFlags::parse(Some("ob")).unwrap_err(),
        CliError::UnknownSExpressionFlag('b')
    );
    let c = CstFlags::parse(Some("eubP0Tl")).unwrap();
    assert!(c.always_show_full_error_captures && c.unquoted_anonymous && c.show_byte_positions);
    assert!(!c.show_positions && !c.text.show && c.extra.line_flush);
    assert_eq!(CstFlags::parse(Some("eo")).unwrap_err(), CliError::UnknownCstFlag('o'));
}

#[test]
fn match_flag_reports_unknown_letters() {
    let mut e = ExtraFlags::default();
    assert!(e.match_flag('/'));
    assert!(e.render_timing);
    assert!(!e.match_flag('x'));
    let mut t = TextFlags::default();
    assert!(t.match_flag('1') && t.match_flag('t'));
    assert!(t.lines_count_from_one && t.show);
    assert!(!t.match_flag('/'));
    let mut s = SExpressionFlags::default();
    assert!(s.match_flag('o') && !s.match_flag('t'));
    let mut c = CstFlags::default();
    assert!(c.match_flag('b') && !c.match_flag('o'));
}

#[test]
fn output_formats() {
    assert_eq!(OutputFormat::parse("s").unwrap(), OutputFormat::SExpression(SExpressionFlags::default()));
    assert_eq!(
        OutputFormat::parse("s-expression:o").unwrap(),
        OutputFormat::SExpression(SExpressionFlags::parse(Some("o")).unwrap())
    );
    assert_eq!(OutputFormat::parse("cst").unwrap(), OutputFormat::Cst(CstFlags::default()));
    assert_eq!(
        OutputFormat::parse("c:b").unwrap(),
        OutputFormat::Cst(CstFlags::parse(Some("b")).unwrap())
    );
    // the colon may be left out behind the letter
    assert_eq!(
        OutputFormat::parse("cbP").unwrap(),
        OutputFormat::Cst(CstFlags::parse(Some("bP")).unwrap())
    );
    assert_eq!(OutputFormat::parse("x").unwrap(), OutputFormat::Xml);
    assert_eq!(OutputFormat::parse("xml").unwrap(), OutputFormat::Xml);
    assert_eq!(OutputFormat::parse("xml:").unwrap_err(), CliError::XmlFlags);
    assert_eq!(OutputFormat::parse("xy").unwrap_err(), CliError::XmlFlags);
    assert_eq!(OutputFormat::parse("cstb").unwrap_err(), CliError::FlagsWithoutColon);
    assert_eq!(OutputFormat::parse("s-expressiono").unwrap_err(), CliError::FlagsWithoutColon);
    assert_eq!(OutputFormat::parse("q").unwrap_err(), CliError::UnknownOutputFormat("q".to_string()));
    assert_eq!(OutputFormat::parse("").unwrap_err(), CliError::UnknownOutputFormat(String::new()));
    assert_eq!(OutputFormat::parse("qs").unwrap_err(), CliError::UnknownOutputFormat("q".to_string()));
    assert_eq!(OutputFormat::parse("s:x").unwrap_err(), CliError::UnknownSExpressionFlag('x'));
    // what follows the colon is dropped when the name is split
    assert_eq!(
        OutputFormat::parse("so:zzz").unwrap(),
        OutputFormat::SExpression(SExpressionFlags::parse(Some("o")).unwrap())
    );
}

#[test]
fn escaping() {
    assert_eq!(escape_char('"'), Some("\\\""));
    assert_eq!(escape_char('\\'), Some("\\\\"));
    assert_eq!(escape_char('\n'), Some("\\n"));
    assert_eq!(escape_char('a'), None);
    assert_eq!(escape_invisible('"'), None);
    assert_eq!(escape_invisible('\x0b'), Some("\\v"));
    assert_eq!(escape_invisible('\x0c'), Some("\\f"));
    assert_eq!(escape_invisible('\0'), Some("\\0"));
    assert_eq!(escape_invisible('\r'), Some("\\r"));
    assert_eq!(escape_invisible('\t'), Some("\\t"));
    assert_eq!(escape_chars("a\"b\\c\nd"), "a\\\"b\\\\c\\nd");
    assert_eq!(escape_invisible_symbols("a\"b\tc\u{e9}"), "a\"b\\tc\u{e9}");
    assert_eq!(escape_chars(""), "");
    assert_eq!(translate_symbols("abc", |c| if c == 'b' { Some("<B>") } else { None }), "a<B>c");
}

#[test]
fn byte_order_marks() {
    assert_eq!(Encoding::UTF8.bom(), vec![0xEF, 0xBB, 0xBF]);
    assert_eq!(Encoding::UTF16LE.bom(), vec![0xFF, 0xFE]);
    assert_eq!(Encoding::UTF16BE.bom(), vec![0xFE, 0xFF]);
    assert_eq!(Encoding::test_bytes(&[0xEF, 0xBB, 0xBF, b'a']), Some(Encoding::UTF8));
    assert_eq!(Encoding::test_bytes(&[0xFF, 0xFE]), Some(Encoding::UTF16LE));
    assert_eq!(Encoding::test_bytes(&[0xFE, 0xFF, 0, b'a']), Some(Encoding::UTF16BE));
    assert_eq!(Encoding::test_bytes(&[0xEF, 0xBB]), None);
    assert_eq!(Encoding::test_bytes(b"plain"), None);
    assert_eq!(Encoding::test_bytes(&[]), None);
}

#[test]
fn unescaping_line_feeds() {
    assert_eq!(unescape_lf(b"a\\nb"), b"a\nb");
    assert_eq!(unescape_lf(b"a\\tb"), b"a\\tb");
    assert_eq!(unescape_lf(b"\\\\n"), b"\\\\n");
    assert_eq!(unescape_lf(b"end\\"), b"end\\");
    assert_eq!(unescape_lf(b""), b"");
    assert_eq!(unescape_lf(b"\\n\\n"), b"\n\n");
}

#[test]
fn positions_and_offsets() {
    let text = b"ab\ncd\n\nxyz".to_vec();
    assert_eq!(position_for_offset(&text, 0), Point::new(0, 0));
    assert_eq!(position_for_offset(&text, 2), Point::new(0, 2));
    assert_eq!(position_for_offset(&text, 3), Point::new(1, 0));
    assert_eq!(position_for_offset(&text, 7), Point::new(3, 0));
    assert_eq!(position_for_offset(&text, 10), Point::new(3, 3));
    assert_eq!(offset_for_position(&text, Point::new(0, 0)), 0);
    assert_eq!(offset_for_position(&text, Point::new(0, 1)), 1);
    assert_eq!(offset_for_position(&text, Point::new(1, 0)), 3);
    assert_eq!(offset_for_position(&text, Point::new(3, 2)), 9);
    assert_eq!(offset_for_position(&text, Point::new(9, 0)), 10);
    assert_eq!(offset_for_position(&vec![], Point::new(0, 0)), 0);
}

#[test]
fn edits_are_read_from_three_texts() {
    let text = b"ab\ncd".to_vec();
    let edit = |p: &str, d: &str, t: &str| create_edit(&text, p, d, t);
    assert_eq!(
        edit("1", "2", "x\\ny").unwrap(),
        Edit { position: 1, deleted_length: 2, inserted_text: b"x\ny".to_vec() }
    );
    assert_eq!(edit("$", "0", "").unwrap().position, 5);
    assert_eq!(edit("1,0", "+1", "").unwrap().position, 3);
    assert_eq!(edit("1:1", "1", "").unwrap().position, 4);
    assert_eq!(edit("0,1,9", "0", "").unwrap().position, 1);
    let invalid = |p: &str, d: &str| CliError::InvalidEdit {
        position: p.to_string(),
        deleted_length: d.to_string(),
        inserted_text: "t".to_string(),
    };
    assert_eq!(create_edit(&text, "x", "0", "t").unwrap_err(), invalid("x", "0"));
    assert_eq!(create_edit(&text, "1", "-1", "t").unwrap_err(), invalid("1", "-1"));
    assert_eq!(create_edit(&text, "1,", "0", "t").unwrap_err(), invalid("1,", "0"));
    assert_eq!(create_edit(&text, "", "0", "t").unwrap_err(), invalid("", "0"));
    assert_eq!(
        create_edit(&text, "99999999999999999999999", "0", "t").unwrap_err(),
        invalid("99999999999999999999999", "0")
    );
}

#[test]
fn edits_change_the_text_and_report_positions() {
    let mut text = b"ab\ncd".to_vec();
    let edit = Edit { position: 1, deleted_length: 3, inserted_text: b"X\nYZ".to_vec() };
    let positions = perform_edit(&mut text, &edit);
    assert_eq!(text, b"aX\nYZd");
    assert_eq!(positions.start_byte, 1);
    assert_eq!(positions.old_end_byte, 4);
    assert_eq!(positions.new_end_byte, 5);
    assert_eq!(positions.start_position, Point::new(0, 1));
    assert_eq!(positions.old_end_position, Point::new(1, 1));
    assert_eq!(positions.new_end_position, Point::new(1, 2));
}

fn ranges(inputs: &[&[&str]]) -> Result<Vec<ScopeRange>, CliError> {
    let inputs: Vec<Vec<String>> =
        inputs.iter().map(|i| i.iter().map(|s| s.to_string()).collect()).collect();
    ScopeRange::parse_inputs(&inputs)
}

#[test]
fn scope_ranges_are_read_and_ordered() {
    let far = Point::new(usize::MAX, usize::MAX);
    let p = Point::new;
    assert_eq!(ranges(&[&["error"]]).unwrap(), vec![ScopeRange::Error]);
    assert_eq!(ranges(&[&["error-path"]]).unwrap(), vec![ScopeRange::ErrorPath]);
    assert_eq!(ranges(&[&["error"], &["1"]]).unwrap_err(), CliError::ErrorRangeNotAlone);
    assert_eq!(ranges(&[&["error", "1"]]).unwrap_err(), CliError::ErrorRangeNotAlone);
    assert_eq!(ranges(&[&["1"], &["error-path"]]).unwrap_err(), CliError::ErrorPathRangeNotAlone);
    assert_eq!(ranges(&[&["3:4-"]]).unwrap(), vec![ScopeRange::Range { start: p(3, 4), end: far }]);
    assert_eq!(ranges(&[&["3-"]]).unwrap(), vec![ScopeRange::Range { start: p(3, 0), end: far }]);
    assert_eq!(ranges(&[&["7:2"]]).unwrap(), vec![ScopeRange::Range { start: p(0, 0), end: p(7, 2) }]);
    assert_eq!(ranges(&[&["7"]]).unwrap(), vec![ScopeRange::Range { start: p(0, 0), end: p(7, 0) }]);
    assert_eq!(ranges(&[&["5:1@"]]).unwrap(), vec![ScopeRange::Node { start: p(5, 1) }]);
    assert_eq!(ranges(&[&["5@"]]).unwrap(), vec![ScopeRange::Node { start: p(5, 0) }]);
    assert_eq!(ranges(&[&["5@-"]]).unwrap_err(), CliError::DashWithAt("5@".to_string()));
    assert_eq!(ranges(&[&["5-@"]]).unwrap_err(), CliError::DashWithAt("5-".to_string()));
    assert_eq!(
        ranges(&[&["1", "2:3"]]).unwrap(),
        vec![ScopeRange::Range { start: p(1, 0), end: p(2, 3) }]
    );
    assert_eq!(
        ranges(&[&["1:9", "2"]]).unwrap(),
        vec![ScopeRange::Range { start: p(1, 9), end: p(2, 0) }]
    );
    assert_eq!(ranges(&[&["a"]]).unwrap_err(), CliError::InvalidNumber("a".to_string()));
    assert_eq!(ranges(&[&["1:b"]]).unwrap_err(), CliError::InvalidNumber("b".to_string()));
    assert_eq!(ranges(&[&["1", "2:3:4"]]).unwrap_err(), CliError::InvalidNumber("3:4".to_string()));
    assert_eq!(ranges(&[]).unwrap(), vec![]);
    // the latest start comes first; equal starts keep their order
    assert_eq!(
        ranges(&[&["2", "3"], &["9@"], &["2", "8"], &["4-"]]).unwrap(),
        vec![
            ScopeRange::Node { start: p(9, 0) },
            ScopeRange::Range { start: p(4, 0), end: far },
            ScopeRange::Range { start: p(2, 0), end: p(3, 0) },
            ScopeRange::Range { start: p(2, 0), end: p(8, 0) },
        ]
    );
}

#[test]
fn nodes_are_tested_against_the_open_range() {
    let p = Point::new;
    let shown = NodeRangeCheck { hide_row: false, draw_extra_lf: false };
    let hidden = NodeRangeCheck { hide_row: true, draw_extra_lf: false };
    let mut none = None;
    assert_eq!(NodeRangeCheck::check(&mut none, p(1, 0), p(2, 0)), shown);
    assert_eq!(none, None);
    let mut empty = Some(vec![]);
    assert_eq!(NodeRangeCheck::check(&mut empty, p(1, 0), p(2, 0)), hidden);
    // ranges are held latest first, so the last is the open one
    let mut list = Some(vec![
        ScopeRange::Range { start: p(10, 0), end: p(12, 0) },
        ScopeRange::Range { start: p(2, 0), end: p(4, 0) },
    ]);
    assert_eq!(NodeRangeCheck::check(&mut list, p(1, 0), p(1, 5)), hidden);
    assert_eq!(NodeRangeCheck::check(&mut list, p(2, 0), p(2, 5)), shown);
    assert_eq!(NodeRangeCheck::check(&mut list, p(3, 9), p(3, 9)), shown);
    assert_eq!(list.as_ref().unwrap().len(), 2);
    // passing the end drops the range; the node lies before the next one
    assert_eq!(
        NodeRangeCheck::check(&mut list, p(4, 0), p(4, 1)),
        NodeRangeCheck { hide_row: true, draw_extra_lf: true }
    );
    assert_eq!(list, Some(vec![ScopeRange::Range { start: p(10, 0), end: p(12, 0) }]));
    assert_eq!(NodeRangeCheck::check(&mut list, p(11, 0), p(11, 1)), shown);
    assert_eq!(NodeRangeCheck::check(&mut list, p(12, 0), p(12, 1)), hidden);
    assert_eq!(list, Some(vec![]));
    // a node named by its start becomes the range of the first node found there
    let mut node = Some(vec![ScopeRange::Node { start: p(5, 0) }]);
    assert_eq!(NodeRangeCheck::check(&mut node, p(4, 0), p(9, 0)), hidden);
    assert_eq!(node, Some(vec![ScopeRange::Node { start: p(5, 0) }]));
    assert_eq!(NodeRangeCheck::check(&mut node, p(5, 2), p(7, 0)), shown);
    assert_eq!(node, Some(vec![ScopeRange::Range { start: p(5, 0), end: p(7, 0) }]));
}

#[test]
fn inputs_take_paths_in_and_out() {
    let mut inputs = Inputs::new();
    inputs.incorporate_path("a.rs", true);
    inputs.incorporate_path("b.rs", true);
    inputs.incorporate_path("a.rs", true);
    inputs.push_snippet("x + y".to_string());
    inputs.incorporate_path("a.rs", false);
    inputs.incorporate_path("missing.rs", false);
    assert_eq!(
        inputs.0,
        vec![
            Input::File("b.rs".to_string()),
            Input::File("a.rs".to_string()),
            Input::Snippet("x + y".to_string())
        ]
    );
    assert_eq!(inputs.max_path_length(), 4);
    assert_eq!(collect_paths(inputs).unwrap_err(), CliError::SnippetsUnsupported);
    assert_eq!(Inputs::new().collect().unwrap_err(), CliError::NoInputs);
    let mut files = Inputs::new();
    files.incorporate_path("dir/\u{e9}t\u{e9}.c", true);
    files.incorporate_path("z", true);
    assert_eq!(files.max_path_length(), 9);
    let files = files.collect().unwrap();
    assert_eq!(collect_paths(files).unwrap(), vec!["dir/\u{e9}t\u{e9}.c".to_string(), "z".to_string()]);
    assert_eq!(Inputs::new().max_path_length(), 0);
}

#[test]
fn negated_paths() {
    assert_eq!(split_negation("a/b"), (true, "a/b".to_string()));
    assert_eq!(split_negation("!a/b"), (false, "a/b".to_string()));
    assert_eq!(split_negation("!!!x!"), (false, "x!".to_string()));
    assert_eq!(split_negation("!"), (false, String::new()));
    assert_eq!(split_negation(""), (true, String::new()));
}

#[test]
fn s_expression_output() {
    let p = Point::new;
    let mut r = SExpressionRenderer::new(SExpressionFlags::default());
    r.node("source_file", None, p(0, 0), p(2, 0));
    r.on_child();
    r.on_visit(true, false, "stmt", Some("body"), p(0, 0), p(0, 12));
    r.on_child();
    r.on_visit(false, false, "a", None, p(0, 0), p(0, 1));
    r.on_visit(false, true, "a", None, p(0, 0), p(0, 1));
    r.on_parent();
    r.on_visit(true, true, "stmt", Some("body"), p(0, 0), p(0, 12));
    r.on_parent();
    r.on_visit(true, true, "source_file", None, p(0, 0), p(2, 0));
    r.on_end();
    assert_eq!(
        r.out,
        "(source_file [0, 0] - [2, 0]\n  body: (stmt [0, 0] - [0, 12]))\n"
    );
    assert!(!r.show_all());
    let mut one = SExpressionRenderer::new(SExpressionFlags::parse(Some("oP")).unwrap());
    one.node("a", None, p(0, 0), p(0, 1));
    one.on_child();
    one.on_child();
    one.on_visit(true, false, "b", None, p(0, 0), p(0, 1));
    one.close_brace();
    assert!(!one.lf());
    one.close_brace();
    assert_eq!(one.out, "(a (b))");
    let mut flushed = SExpressionRenderer::new(SExpressionFlags::default());
    assert!(flushed.lf());
    flushed.indent_level = 3;
    flushed.indent();
    assert_eq!(flushed.out, "\n      ");
}
