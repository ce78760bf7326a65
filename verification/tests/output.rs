use tree_sitter_generate::cli::cst::{CstRenderer, NodeInfo};
use tree_sitter_generate::cli::edit::Point;
use tree_sitter_generate::cli::format::CstFlags;
use tree_sitter_generate::cli::layout::{
    format_pos, render_changed_ranges, ChangedRange, XmlRenderer,
};
use tree_sitter_generate::cli::scope_range::ScopeRange;
use tree_sitter_generate::cli::source_text::render_text;
use tree_sitter_generate::cli::style::{push_painted, push_prefix, push_suffix, Colors, Paint};

const OFF: &str = "\x1b[0m";

fn on(red: u8, green: u8, blue: u8) -> String {
    format!("\x1b[38;2;{red};{green};{blue}m")
}

fn bold_on(red: u8, green: u8, blue: u8) -> String {
    format!("\x1b[1;38;2;{red};{green};{blue}m")
}

fn pos1() -> String {
    on(188, 218, 120)
}

fn pos2() -> String {
    on(92, 108, 115)
}

fn rule() -> String {
    on(117, 187, 253)
}

fn token() -> String {
    on(219, 219, 173)
}

fn tick() -> String {
    on(101, 192, 67)
}

fn grey() -> String {
    on(118, 118, 118)
}

fn node(kind: &str, named: bool, start: (usize, usize), end: (usize, usize)) -> NodeInfo {
    NodeInfo {
        kind: kind.to_string(),
        is_named: named,
        is_error: false,
        is_extra: false,
        is_missing: false,
        has_error: false,
        has_changes: false,
        is_new: false,
        child_count: 0,
        start_byte: 0,
        end_byte: 0,
        start: Point { row: start.0, column: start.1 },
        end: Point { row: end.0, column: end.1 },
        field_name: None,
        text: None,
    }
}

#[test]
fn paints_are_escape_sequences() {
    let mut out = String::new();
    push_prefix(&mut out, &Paint { red: 1, green: 20, blue: 255, bold: false });
    assert_eq!(out, "\x1b[38;2;1;20;255m");
    let mut out = String::new();
    push_prefix(&mut out, &Paint { red: 0, green: 0, blue: 0, bold: true });
    assert_eq!(out, "\x1b[1;38;2;0;0;0m");
    let mut out = String::new();
    push_suffix(&mut out, &Paint { red: 0, green: 0, blue: 0, bold: true });
    assert_eq!(out, "\x1b[0m");
    let mut out = String::from("a");
    push_painted(&mut out, &Paint { red: 7, green: 8, blue: 9, bold: false }, "text");
    assert_eq!(out, "a\x1b[38;2;7;8;9mtext\x1b[0m");
}

#[test]
fn the_colours_are_the_standard_ones() {
    let c = Colors::new();
    assert_eq!(c.lf, Paint { red: 166, green: 172, blue: 181, bold: false });
    assert_eq!(c.pos1, Paint { red: 188, green: 218, blue: 120, bold: false });
    assert_eq!(c.missing, Paint { red: 255, green: 153, blue: 51, bold: true });
    assert_eq!(c.error, Paint { red: 255, green: 51, blue: 51, bold: true });
}

#[test]
fn changed_ranges_stand_one_on_a_line() {
    assert_eq!(render_changed_ranges(&Vec::new()), "\n");
    let ranges = vec![
        ChangedRange {
            start_byte: 5,
            end_byte: 12,
            start_point: Point { row: 1, column: 2 },
            end_point: Point { row: 3, column: 14 },
        },
        ChangedRange {
            start_byte: 1000,
            end_byte: 1001,
            start_point: Point { row: 10, column: 100 },
            end_point: Point { row: 10, column: 1 },
        },
    ];
    let expected = format!(
        "\n{t}1:2  - 3:14 {b}  5:12{OFF}\n{t}10:100 - 10:1  {b}1000:1001{OFF}\n",
        t = token(),
        b = on(175, 122, 197),
    );
    assert_eq!(render_changed_ranges(&ranges), expected);
}

#[test]
fn capture_positions_change_paint_with_the_row() {
    let colors = Colors::new();
    let mut last_row = usize::MAX;
    let (text, paint, spans) = format_pos(
        Point { row: 2, column: 3 },
        Point { row: 2, column: 10 },
        &mut last_row,
        &colors,
    );
    assert_eq!(text, "2:3   - 2:10");
    assert_eq!(paint, colors.pos1);
    assert!(!spans);
    assert_eq!(last_row, 2);
    let (text, paint, spans) = format_pos(
        Point { row: 2, column: 12 },
        Point { row: 4, column: 0 },
        &mut last_row,
        &colors,
    );
    assert_eq!(text, "2:12  - 4:0");
    assert_eq!(paint, colors.pos2);
    assert!(spans);
    assert_eq!(last_row, 2);
}

#[test]
fn xml_output_nests_tags_and_escapes_text() {
    let mut xml = XmlRenderer::new();
    xml.enter(true, "program", None);
    xml.descend();
    xml.enter(true, "number", Some("left"));
    xml.leaf_text("a<b&c>\"d\"");
    xml.leave(true);
    xml.enter(false, "+", None);
    xml.leaf_text("+");
    xml.leave(false);
    xml.ascend();
    xml.leave(true);
    assert_eq!(
        xml.out,
        "<program>\n  <number type=\"left\">a&lt;b&amp;c&gt;\"d\"</number>\n+</program>\n"
    );
    assert!(xml.tags.is_empty());
    assert!(xml.needs_newline);
    assert_eq!(xml.indent_level, 0);
}

#[test]
fn source_lines_are_numbered() {
    assert_eq!(render_text(0, b""), b"\n".to_vec());
    assert_eq!(
        render_text(3, b"ab\ncd"),
        b"\n\x1b[34m3 \x1b[0m ab\n\x1b[34m4 \x1b[0m cd\n".to_vec()
    );
    assert_eq!(render_text(9, b"ab\n"), b"\n\x1b[34m9 \x1b[0m ab\n".to_vec());
    assert_eq!(
        render_text(99, b"\n\nx"),
        b"\n\x1b[34m99\x1b[0m \n\x1b[34m100\x1b[0m \n\x1b[34m101\x1b[0m x\n".to_vec()
    );
}

#[test]
fn tree_lines_hold_position_indentation_and_kind() {
    let mut r = CstRenderer::new(CstFlags::default());
    let mut root = node("program", true, (0, 0), (1, 0));
    root.child_count = 1;
    root.end_byte = 4;
    r.on_root(&root);
    let first = format!("{}0:0  - 1:0 {OFF}    {}program{OFF}\n", pos1(), rule());
    assert_eq!(r.out, first);
    assert_eq!(r.last_line_no, 0);
    r.on_visit(&root, true);
    assert_eq!(r.out, first);

    r.on_child();
    let mut leaf = node("number", true, (0, 0), (0, 3));
    leaf.end_byte = 3;
    leaf.field_name = Some("value".to_string());
    leaf.text = Some("123".to_string());
    r.on_visit(&leaf, false);
    let second = format!(
        "{}0:0  - 0:3 {OFF}      {}value{OFF}: {}number{OFF} {}`{}123{OFF}{}`{OFF}\n",
        pos2(),
        on(177, 220, 253),
        rule(),
        tick(),
        grey(),
        tick(),
    );
    assert_eq!(r.out, format!("{first}{second}"));

    let mut plus = node("+", false, (0, 3), (0, 4));
    plus.start_byte = 3;
    plus.end_byte = 4;
    r.on_visit(&plus, false);
    let third = format!("{}0:3  - 0:4 {OFF}      {}\"+\"{OFF}\n", pos2(), token());
    assert_eq!(r.out, format!("{first}{second}{third}"));
    r.on_parent();
    assert_eq!(r.indent_level, 0);
}

#[test]
fn tree_marks_take_their_place_from_the_indentation() {
    let mut flags = CstFlags::default();
    flags.show_positions = false;
    flags.unquoted_anonymous = true;
    let mut r = CstRenderer::new(flags);
    let mut root = node("program", true, (0, 0), (0, 2));
    root.child_count = 2;
    root.has_error = true;
    root.end_byte = 2;
    r.on_root(&root);
    assert_eq!(r.indent_shift, 1);
    let first = format!(
        "{}{}•{OFF}{}program{OFF}\n",
        " ".repeat(15),
        bold_on(255, 51, 51),
        rule()
    );
    assert_eq!(r.out, first);

    r.on_child();
    let mut missing = node(";", false, (0, 2), (0, 2));
    missing.is_missing = true;
    missing.is_new = true;
    r.on_visit(&missing, false);
    let second = format!(
        "{}{}•{OFF}{}MISSING: {OFF}{};{OFF}\n",
        " ".repeat(16),
        on(0, 255, 0),
        bold_on(255, 153, 51),
        token()
    );
    assert_eq!(r.out, format!("{first}{second}"));

    let mut error = node("ERROR", false, (0, 0), (0, 1));
    error.is_error = true;
    error.has_changes = true;
    r.on_visit(&error, false);
    let third = format!(
        "{}{e}•{OFF}{}•{OFF}{e}ERROR: {OFF}{e}ERROR{OFF}\n",
        " ".repeat(16),
        on(255, 255, 102),
        e = bold_on(255, 51, 51),
    );
    assert_eq!(r.out, format!("{first}{second}{third}"));
}

#[test]
fn tree_text_of_several_lines_stands_on_lines_of_its_own() {
    let mut r = CstRenderer::new(CstFlags::default());
    let mut leaf = node("comment", true, (4, 2), (5, 1));
    leaf.is_extra = true;
    leaf.start_byte = 10;
    leaf.end_byte = 13;
    leaf.text = Some("a\nb".to_string());
    r.on_root(&leaf);
    let expected = format!(
        "{fresh}4:2  - 5:1 {OFF}    {x}comment{OFF}\n{same}4:2  - 4:2{OFF}       {t}`{g}a{OFF}{lf}\\n{t}`{OFF}\n{fresh}5:0  - 5:1{OFF}       {t}`{g}b{OFF}{t}`{OFF}\n",
        fresh = pos1(),
        same = pos2(),
        x = on(153, 153, 255),
        t = tick(),
        g = grey(),
        lf = on(166, 172, 181),
    );
    assert_eq!(r.out, expected);
    assert_eq!(r.last_line_no, 4);
}

#[test]
fn tree_byte_positions_widen_the_column() {
    let mut flags = CstFlags::default();
    flags.show_byte_positions = true;
    let mut r = CstRenderer::new(flags);
    let mut leaf = node("id", true, (0, 0), (0, 2));
    leaf.start_byte = 7;
    leaf.end_byte = 9;
    r.on_root(&leaf);
    let expected = format!(
        "{}0:0  - 0:2 {OFF}{}   7:9 {OFF}  {}id{OFF}\n",
        pos1(),
        on(175, 122, 197),
        rule()
    );
    assert_eq!(r.out, expected);
}

#[test]
fn tree_rows_outside_the_ranges_are_hidden() {
    let ranges = vec![ScopeRange::Range {
        start: Point { row: 1, column: 0 },
        end: Point { row: 1, column: 5 },
    }];
    let mut r = CstRenderer::new(CstFlags::default()).limit_ranges(Some(ranges));
    let outside = node("a", true, (0, 0), (0, 1));
    r.on_visit(&outside, false);
    assert_eq!(r.out, "");
    let inside = node("b", true, (1, 1), (1, 2));
    r.on_visit(&inside, false);
    assert_eq!(r.out, format!("{}1:1  - 1:2 {OFF}    {}b{OFF}\n", pos1(), rule()));
}
