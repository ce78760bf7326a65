//! The colours of the output, as the escape sequences that a terminal reads.
use vstd::prelude::*;
use crate::text::decimal;

verus! {

/// A way of painting text: a colour given by its red, green and blue parts,
/// in bold or not.
#[derive(Clone, Copy, Debug, PartialEq, Eq, Structural)]
pub struct Paint {
    pub red: u8,
    pub green: u8,
    pub blue: u8,
    pub bold: bool,
}

/// What switches the paint on: the escape character and a bracket, `1` for
/// bold, the code of a colour given by its parts, and `m`.
pub open spec fn prefix_text(paint: Paint) -> Seq<char> {
    "\x1B["@ + (if paint.bold {
        "1;"@
    } else {
        Seq::empty()
    }) + "38;2;"@ + decimal(paint.red as nat) + ";"@ + decimal(paint.green as nat) + ";"@
        + decimal(paint.blue as nat) + "m"@
}

/// What switches any paint off.
pub open spec fn suffix_text() -> Seq<char> {
    "\x1B[0m"@
}

/// `text` between what switches the paint on and what switches it off.
pub open spec fn painted_text(paint: Paint, text: Seq<char>) -> Seq<char> {
    prefix_text(paint) + text + suffix_text()
}

/// What switches on the plain blue of line numbers.
pub open spec fn blue_prefix_text() -> Seq<char> {
    "\x1B[34m"@
}

/// Asks `ansi_term` for the prefix of the style with the colour and the
/// boldness of `paint` and nothing else (`Style::prefix`). As its source has
/// it, that is the escape character and a bracket, `1` where the style is
/// bold, the foreground code `38;2;` with the three parts of the colour, and
/// `m`, with semicolons between them.
#[verifier::external_body]
pub(crate) fn prefix_of(paint: &Paint) -> (s: String)
    ensures
        s@ == prefix_text(*paint),
{
    let style = ansi_term::Style {
        foreground: Some(ansi_term::Color::RGB(paint.red, paint.green, paint.blue)),
        is_bold: paint.bold,
        ..ansi_term::Style::default()
    };
    format!("{}", style.prefix())
}

/// Asks `ansi_term` for the suffix of the style of `paint` (`Style::suffix`):
/// for a style that is not plain, the sequence that resets the terminal.
#[verifier::external_body]
pub(crate) fn suffix_of(paint: &Paint) -> (s: String)
    ensures
        s@ == suffix_text(),
{
    let style = ansi_term::Style {
        foreground: Some(ansi_term::Color::RGB(paint.red, paint.green, paint.blue)),
        is_bold: paint.bold,
        ..ansi_term::Style::default()
    };
    format!("{}", style.suffix())
}

/// Has `ansi_term` paint `text` in the style of `paint` (`Style::paint`): the
/// text between the prefix and the suffix of the style.
#[verifier::external_body]
pub(crate) fn paint_text(paint: &Paint, text: &str) -> (s: String)
    ensures
        s@ == painted_text(*paint, text@),
{
    let style = ansi_term::Style {
        foreground: Some(ansi_term::Color::RGB(paint.red, paint.green, paint.blue)),
        is_bold: paint.bold,
        ..ansi_term::Style::default()
    };
    style.paint(text).to_string()
}

/// Asks `ansi_term` for the prefix of plain blue (`Colour::Blue`,
/// `Style::prefix`): the foreground code `34` between the bracket and `m`.
#[verifier::external_body]
pub(crate) fn blue_prefix() -> (s: String)
    ensures
        s@ == blue_prefix_text(),
{
    format!("{}", ansi_term::Color::Blue.normal().prefix())
}

/// Asks `ansi_term` for the suffix of plain blue (`Style::suffix`).
#[verifier::external_body]
pub(crate) fn blue_suffix() -> (s: String)
    ensures
        s@ == suffix_text(),
{
    format!("{}", ansi_term::Color::Blue.normal().suffix())
}

/// The colours of the tree output.
#[derive(Clone, Copy, Debug, PartialEq, Eq, Structural)]
pub struct Colors {
    pub lf: Paint,
    pub pos1: Paint,
    pub pos2: Paint,
    pub bytes: Paint,
    pub term: Paint,
    pub field: Paint,
    pub nonterm: Paint,
    pub extra: Paint,
    pub text: Paint,
    pub edit: Paint,
    pub renewed: Paint,
    pub backtick: Paint,
    pub missing: Paint,
    pub error: Paint,
}

/// The paint of the colour with the given parts, not bold.
pub open spec fn normal(red: u8, green: u8, blue: u8) -> Paint {
    Paint { red, green, blue, bold: false }
}

/// The paint of the colour with the given parts, in bold.
pub open spec fn bold(red: u8, green: u8, blue: u8) -> Paint {
    Paint { red, green, blue, bold: true }
}

/// The colours as they are.
pub open spec fn standard_colors() -> Colors {
    Colors {
        lf: normal(166, 172, 181),
        pos1: normal(188, 218, 120),
        pos2: normal(92, 108, 115),
        bytes: normal(175, 122, 197),
        term: normal(219, 219, 173),
        field: normal(177, 220, 253),
        nonterm: normal(117, 187, 253),
        extra: normal(153, 153, 255),
        text: normal(118, 118, 118),
        edit: normal(255, 255, 102),
        renewed: normal(0, 255, 0),
        backtick: normal(101, 192, 67),
        missing: bold(255, 153, 51),
        error: bold(255, 51, 51),
    }
}

impl Colors {
    pub fn new() -> (c: Colors)
        ensures
            c == standard_colors(),
    {
        Colors {
            lf: Paint { red: 166, green: 172, blue: 181, bold: false },
            pos1: Paint { red: 188, green: 218, blue: 120, bold: false },
            pos2: Paint { red: 92, green: 108, blue: 115, bold: false },
            bytes: Paint { red: 175, green: 122, blue: 197, bold: false },
            term: Paint { red: 219, green: 219, blue: 173, bold: false },
            field: Paint { red: 177, green: 220, blue: 253, bold: false },
            nonterm: Paint { red: 117, green: 187, blue: 253, bold: false },
            extra: Paint { red: 153, green: 153, blue: 255, bold: false },
            text: Paint { red: 118, green: 118, blue: 118, bold: false },
            edit: Paint { red: 255, green: 255, blue: 102, bold: false },
            renewed: Paint { red: 0, green: 255, blue: 0, bold: false },
            backtick: Paint { red: 101, green: 192, blue: 67, bold: false },
            missing: Paint { red: 255, green: 153, blue: 51, bold: true },
            error: Paint { red: 255, green: 51, blue: 51, bold: true },
        }
    }
}

/// Appends what switches `paint` on.
pub fn push_prefix(out: &mut String, paint: &Paint)
    ensures
        final(out)@ == old(out)@ + prefix_text(*paint),
{
    let s = prefix_of(paint);
    out.append(s.as_str());
}

/// Appends what switches `paint` off.
pub fn push_suffix(out: &mut String, paint: &Paint)
    ensures
        final(out)@ == old(out)@ + suffix_text(),
{
    let s = suffix_of(paint);
    out.append(s.as_str());
}

/// Appends `text` painted with `paint`.
pub fn push_painted(out: &mut String, paint: &Paint, text: &str)
    ensures
        final(out)@ == old(out)@ + painted_text(*paint, text@),
{
    let s = paint_text(paint, text);
    out.append(s.as_str());
}

} // verus!
