//! What the command line tool decides from its options before it works.

use vstd::prelude::*;
use crate::cli::edit::{find_separator, number_of, parse_number, separator_at, Stats};
use crate::cli::error::CliError;
use crate::cli::format::{slice_chars, spells, str_chars, OutputFormat};
use crate::generate::LANGUAGE_VERSION;

verus! {

/// The version of the parser interface that is generated where none is
/// asked for.
pub const DEFAULT_GENERATE_ABI_VERSION: usize = 14;

/// The version of the parser interface that an option asks for: the default
/// where there is no option, the newest for `latest`, and else the number
/// that the option writes, if it writes one.
pub open spec fn abi_version_of(option: Option<Seq<char>>) -> Option<int> {
    match option {
        None => Some(DEFAULT_GENERATE_ABI_VERSION as int),
        Some(text) => if text == "latest"@ {
            Some(LANGUAGE_VERSION as int)
        } else {
            number_of(text)
        },
    }
}

/// The version of the parser interface that `option` asks for; nothing where
/// the option is neither `latest` nor a number.
pub fn select_abi_version(option: Option<&str>) -> (version: Option<usize>)
    ensures
        match abi_version_of(crate::cli::s_expression::option_text(option)) {
            Some(n) => version == Some(n as usize) && 0 <= n <= usize::MAX,
            None => version is None,
        },
{
    match option {
        None => Some(DEFAULT_GENERATE_ABI_VERSION),
        Some(text) => {
            let chars = str_chars(text);
            if spells(&chars, "latest") {
                Some(LANGUAGE_VERSION)
            } else {
                parse_number(&chars)
            }
        },
    }
}

/// The two numbers of a range of bytes written as `start:end`: the text
/// before the first colon, and the text behind it up to the next colon.
/// Nothing where there is no colon or where one of the two is no number.
pub open spec fn byte_range_of(text: Seq<char>) -> Option<(int, int)> {
    let first = separator_at(text, ':', 0);
    if first >= text.len() {
        None
    } else {
        let second = separator_at(text, ':', first + 1);
        match (number_of(text.subrange(0, first)), number_of(text.subrange(first + 1, second))) {
            (Some(start), Some(end)) => Some((start, end)),
            _ => None,
        }
    }
}

/// The range of bytes that `text` writes.
pub fn parse_byte_range(text: &str) -> (range: Option<(usize, usize)>)
    ensures
        match byte_range_of(text@) {
            Some((start, end)) => range == Some((start as usize, end as usize)) && 0 <= start
                <= usize::MAX && 0 <= end <= usize::MAX,
            None => range is None,
        },
{
    let chars = str_chars(text);
    let first = find_separator(&chars, ':', 0);
    if first >= chars.len() {
        return None;
    }
    let second = find_separator(&chars, ':', first + 1);
    let start = parse_number(&slice_chars(&chars, 0, first));
    let end = parse_number(&slice_chars(&chars, first + 1, second));
    match (start, end) {
        (Some(start), Some(end)) => Some((start, end)),
        _ => None,
    }
}

/// Whether options that work on one input only can be used: ranges and edits
/// need a single input, and the ranges are looked at first.
pub open spec fn single_input_fault(count: int, has_ranges: bool, has_edits: bool) -> Option<
    CliError,
> {
    if count > 1 && has_ranges {
        Some(CliError::RangesWithManyInputs)
    } else if count > 1 && has_edits {
        Some(CliError::EditsWithManyInputs)
    } else {
        None
    }
}

/// Tests that ranges and edits are given for a single input only.
pub fn check_single_input(count: usize, has_ranges: bool, has_edits: bool) -> (r: Result<
    (),
    CliError,
>)
    ensures
        match single_input_fault(count as int, has_ranges, has_edits) {
            Some(fault) => r == Err::<(), CliError>(fault),
            None => r is Ok,
        },
{
    if count > 1 && has_ranges {
        Err(CliError::RangesWithManyInputs)
    } else if count > 1 && has_edits {
        Err(CliError::EditsWithManyInputs)
    } else {
        Ok(())
    }
}

/// For how many inputs the name is still to be shown, before the first of
/// `count` inputs: for all of them, but not for a single one.
pub fn file_names_to_show(count: usize) -> (shown: usize)
    ensures
        shown == if count == 1 {
            0
        } else {
            count
        },
{
    if count == 1 {
        0
    } else {
        count
    }
}

/// For how many inputs the name is still to be shown after one more input.
pub fn file_names_left(shown: usize) -> (left: usize)
    ensures
        left == if shown > 0 {
            shown - 1
        } else {
            0
        },
{
    if shown > 0 {
        shown - 1
    } else {
        0
    }
}

/// Whether the lines are counted from one, and whether the source text is
/// shown: as the flags of the output format say; neither for XML or where no
/// format is given.
pub fn text_options(output: Option<&OutputFormat>) -> (r: (bool, bool))
    ensures
        r == match output {
            Some(OutputFormat::SExpression(flags)) => (
                flags.text.lines_count_from_one,
                flags.text.show,
            ),
            Some(OutputFormat::Cst(flags)) => (flags.text.lines_count_from_one, flags.text.show),
            _ => (false, false),
        },
{
    match output {
        Some(OutputFormat::SExpression(flags)) => (
            flags.text.lines_count_from_one,
            flags.text.show,
        ),
        Some(OutputFormat::Cst(flags)) => (flags.text.lines_count_from_one, flags.text.show),
        _ => (false, false),
    }
}

/// The number of the first line.
pub fn row_offset(lines_count_from_one: bool) -> (row: usize)
    ensures
        row == if lines_count_from_one {
            1usize
        } else {
            0usize
        },
{
    if lines_count_from_one {
        1
    } else {
        0
    }
}

impl Stats {
    /// Counts one more parse, and whether it went well.
    pub fn record(&mut self, errored: bool)
        requires
            old(self).successful_parses <= old(self).total_parses < usize::MAX,
        ensures
            final(self).total_parses == old(self).total_parses + 1,
            final(self).successful_parses == old(self).successful_parses + if errored {
                0int
            } else {
                1int
            },
            final(self).successful_parses <= final(self).total_parses,
    {
        self.total_parses += 1;
        if !errored {
            self.successful_parses += 1;
        }
    }

    /// How many parses failed.
    pub fn failed_parses(&self) -> (failed: usize)
        requires
            self.successful_parses <= self.total_parses,
        ensures
            failed == self.total_parses - self.successful_parses,
    {
        self.total_parses - self.successful_parses
    }
}

/// The milliseconds in a time given as whole seconds and the nanoseconds
/// above them, if they fit.
pub fn duration_ms(seconds: u64, nanoseconds: u32) -> (ms: Option<u64>)
    ensures
        match ms {
            Some(ms) => ms == seconds * 1000 + nanoseconds / 1_000_000,
            None => seconds * 1000 + nanoseconds / 1_000_000 > u64::MAX,
        },
{
    let above: u64 = (nanoseconds / 1_000_000) as u64;
    if seconds <= (u64::MAX - above) / 1000 {
        assert(seconds * 1000 + above <= u64::MAX) by (nonlinear_arith)
            requires
                seconds <= (u64::MAX - above) / 1000,
        ;
        Some(seconds * 1000 + above)
    } else {
        assert(seconds * 1000 + above > u64::MAX) by (nonlinear_arith)
            requires
                seconds > (u64::MAX - above) / 1000,
        ;
        None
    }
}

} // verus!
