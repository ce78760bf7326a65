//! The output formats of the parse command and their flags. A format is
//! written as its name, or its first letter, followed by a colon and flags;
//! behind the first letter the colon may be left out.
use vstd::prelude::*;
use crate::cli::error::{CliError, CliErrorModel};
use crate::seq_util::{first_index_where, lemma_first_index_where};
use crate::text::push_chars;

verus! {

/// Flags that every text output has: `/` asks for the time that rendering
/// takes; `l` has each line flushed as it is written, `L` does not.
#[derive(Clone, Copy, Debug, PartialEq, Eq, Structural)]
pub struct ExtraFlags {
    pub render_timing: bool,
    pub line_flush: bool,
}

/// Flags for the source text shown with the output: `t` shows it, `T` does
/// not; `1` counts lines from one, `0` from zero.
#[derive(Clone, Copy, Debug, PartialEq, Eq, Structural)]
pub struct TextFlags {
    pub show: bool,
    pub lines_count_from_one: bool,
}

/// Flags of the S-expression output: `o` writes everything on one line, `O`
/// does not; `p` shows positions, `P` does not.
#[derive(Clone, Copy, Debug, PartialEq, Eq, Structural)]
pub struct SExpressionFlags {
    pub text: TextFlags,
    pub extra: ExtraFlags,
    pub show_positions: bool,
    pub one_line: bool,
}

/// Flags of the tree output: `e` always shows the text of errors in full,
/// `u` writes anonymous nodes without quotes, `b` shows byte positions, `p`
/// shows positions; the upper-case letters switch these off.
#[derive(Clone, Copy, Debug, PartialEq, Eq, Structural)]
pub struct CstFlags {
    pub text: TextFlags,
    pub extra: ExtraFlags,
    pub show_positions: bool,
    pub show_byte_positions: bool,
    pub unquoted_anonymous: bool,
    pub always_show_full_error_captures: bool,
}

/// An output format with its flags.
#[derive(Clone, Copy, Debug, PartialEq, Eq, Structural)]
pub enum OutputFormat {
    SExpression(SExpressionFlags),
    Cst(CstFlags),
    Xml,
}

pub open spec fn default_extra() -> ExtraFlags {
    ExtraFlags { render_timing: false, line_flush: true }
}

pub open spec fn default_text() -> TextFlags {
    TextFlags { show: false, lines_count_from_one: false }
}

pub open spec fn default_s_expression() -> SExpressionFlags {
    SExpressionFlags {
        text: default_text(),
        extra: default_extra(),
        show_positions: true,
        one_line: false,
    }
}

pub open spec fn default_cst() -> CstFlags {
    CstFlags {
        text: default_text(),
        extra: default_extra(),
        show_positions: true,
        show_byte_positions: false,
        unquoted_anonymous: false,
        always_show_full_error_captures: false,
    }
}

/// The flags with the flag `flag` set, if it is one of these flags.
pub open spec fn extra_with(f: ExtraFlags, flag: char) -> Option<ExtraFlags> {
    if flag == '/' {
        Some(ExtraFlags { render_timing: true, ..f })
    } else if flag == 'L' {
        Some(ExtraFlags { line_flush: false, ..f })
    } else if flag == 'l' {
        Some(ExtraFlags { line_flush: true, ..f })
    } else {
        None
    }
}

pub open spec fn text_with(f: TextFlags, flag: char) -> Option<TextFlags> {
    if flag == '0' {
        Some(TextFlags { lines_count_from_one: false, ..f })
    } else if flag == '1' {
        Some(TextFlags { lines_count_from_one: true, ..f })
    } else if flag == 'T' {
        Some(TextFlags { show: false, ..f })
    } else if flag == 't' {
        Some(TextFlags { show: true, ..f })
    } else {
        None
    }
}

/// The flags with `flag` set: a flag of the S-expression output itself, else
/// one for the text, else one of the flags that every output has.
pub open spec fn s_expression_with(f: SExpressionFlags, flag: char) -> Option<SExpressionFlags> {
    if flag == 'O' {
        Some(SExpressionFlags { one_line: false, ..f })
    } else if flag == 'o' {
        Some(SExpressionFlags { one_line: true, ..f })
    } else if flag == 'P' {
        Some(SExpressionFlags { show_positions: false, ..f })
    } else if flag == 'p' {
        Some(SExpressionFlags { show_positions: true, ..f })
    } else {
        match text_with(f.text, flag) {
            Some(text) => Some(SExpressionFlags { text, ..f }),
            None => match extra_with(f.extra, flag) {
                Some(extra) => Some(SExpressionFlags { extra, ..f }),
                None => None,
            },
        }
    }
}

pub open spec fn cst_with(f: CstFlags, flag: char) -> Option<CstFlags> {
    if flag == 'E' {
        Some(CstFlags { always_show_full_error_captures: false, ..f })
    } else if flag == 'e' {
        Some(CstFlags { always_show_full_error_captures: true, ..f })
    } else if flag == 'U' {
        Some(CstFlags { unquoted_anonymous: false, ..f })
    } else if flag == 'u' {
        Some(CstFlags { unquoted_anonymous: true, ..f })
    } else if flag == 'B' {
        Some(CstFlags { show_byte_positions: false, ..f })
    } else if flag == 'b' {
        Some(CstFlags { show_byte_positions: true, ..f })
    } else if flag == 'P' {
        Some(CstFlags { show_positions: false, ..f })
    } else if flag == 'p' {
        Some(CstFlags { show_positions: true, ..f })
    } else {
        match text_with(f.text, flag) {
            Some(text) => Some(CstFlags { text, ..f }),
            None => match extra_with(f.extra, flag) {
                Some(extra) => Some(CstFlags { extra, ..f }),
                None => None,
            },
        }
    }
}

/// The default flags with the first `k` of `flags` set one after the other,
/// or the first character that is no flag.
pub open spec fn s_expression_flags(flags: Seq<char>, k: int) -> Result<SExpressionFlags, char>
    decreases k,
{
    if k <= 0 {
        Ok(default_s_expression())
    } else {
        match s_expression_flags(flags, k - 1) {
            Err(c) => Err(c),
            Ok(f) => match s_expression_with(f, flags[k - 1]) {
                Some(g) => Ok(g),
                None => Err(flags[k - 1]),
            },
        }
    }
}

pub open spec fn cst_flags(flags: Seq<char>, k: int) -> Result<CstFlags, char>
    decreases k,
{
    if k <= 0 {
        Ok(default_cst())
    } else {
        match cst_flags(flags, k - 1) {
            Err(c) => Err(c),
            Ok(f) => match cst_with(f, flags[k - 1]) {
                Some(g) => Ok(g),
                None => Err(flags[k - 1]),
            },
        }
    }
}

pub open spec fn option_chars(flags: Option<Seq<char>>) -> Seq<char> {
    match flags {
        Some(f) => f,
        None => Seq::empty(),
    }
}

/// The format called `name` with the flags `flags`, if `name` is the name of
/// a format or its first letter.
pub open spec fn format_named(name: Seq<char>, flags: Option<Seq<char>>) -> Option<
    Result<OutputFormat, CliErrorModel>,
> {
    if name == "s"@ || name == "s-expression"@ {
        Some(
            match s_expression_flags(option_chars(flags), option_chars(flags).len() as int) {
                Ok(f) => Ok(OutputFormat::SExpression(f)),
                Err(c) => Err(CliErrorModel::UnknownSExpressionFlag(c)),
            },
        )
    } else if name == "c"@ || name == "cst"@ {
        Some(
            match cst_flags(option_chars(flags), option_chars(flags).len() as int) {
                Ok(f) => Ok(OutputFormat::Cst(f)),
                Err(c) => Err(CliErrorModel::UnknownCstFlag(c)),
            },
        )
    } else if name == "x"@ || name == "xml"@ {
        Some(
            if flags is Some {
                Err(CliErrorModel::XmlFlags)
            } else {
                Ok(OutputFormat::Xml)
            },
        )
    } else {
        None
    }
}

pub open spec fn is_colon() -> spec_fn(char) -> bool {
    |c: char| c == ':'
}

/// Whether `s` begins with `prefix`.
pub open spec fn starts_with(s: Seq<char>, prefix: Seq<char>) -> bool {
    s.len() >= prefix.len() && s.take(prefix.len() as int) == prefix
}

/// The format that `s` writes. What stands before the first colon is the
/// name, what stands behind it the flags. A name that is none, of more than
/// one character, is read as its first character with the rest as flags,
/// unless it begins with the full name of a format.
pub open spec fn parsed_format(s: Seq<char>) -> Result<OutputFormat, CliErrorModel> {
    let (name, flags) = match first_index_where(s, is_colon()) {
        Some(i) => (s.take(i), Some(s.skip(i + 1))),
        None => (s, None),
    };
    match format_named(name, flags) {
        Some(r) => r,
        None => if name.len() > 1 {
            if starts_with(name, "s-expression"@) || starts_with(name, "cst"@) || starts_with(
                name,
                "xml"@,
            ) {
                Err(CliErrorModel::FlagsWithoutColon)
            } else {
                match format_named(name.take(1), Some(name.skip(1))) {
                    Some(r) => r,
                    None => Err(CliErrorModel::UnknownOutputFormat(name.take(1))),
                }
            }
        } else {
            Err(CliErrorModel::UnknownOutputFormat(name))
        },
    }
}

impl Default for ExtraFlags {
    fn default() -> (f: ExtraFlags)
        ensures
            f == default_extra(),
    {
        ExtraFlags { render_timing: false, line_flush: true }
    }
}

impl Default for TextFlags {
    fn default() -> (f: TextFlags)
        ensures
            f == default_text(),
    {
        TextFlags { show: false, lines_count_from_one: false }
    }
}

impl Default for SExpressionFlags {
    fn default() -> (f: SExpressionFlags)
        ensures
            f == default_s_expression(),
    {
        SExpressionFlags {
            text: TextFlags { show: false, lines_count_from_one: false },
            extra: ExtraFlags { render_timing: false, line_flush: true },
            show_positions: true,
            one_line: false,
        }
    }
}

impl Default for CstFlags {
    fn default() -> (f: CstFlags)
        ensures
            f == default_cst(),
    {
        CstFlags {
            text: TextFlags { show: false, lines_count_from_one: false },
            extra: ExtraFlags { render_timing: false, line_flush: true },
            show_positions: true,
            show_byte_positions: false,
            unquoted_anonymous: false,
            always_show_full_error_captures: false,
        }
    }
}

impl ExtraFlags {
    /// Sets the flag `flag`; returns whether it is one of these flags.
    pub fn match_flag(&mut self, flag: char) -> (known: bool)
        ensures
            match extra_with(*old(self), flag) {
                Some(f) => known && *final(self) == f,
                None => !known && *final(self) == *old(self),
            },
    {
        if flag == '/' {
            self.render_timing = true;
        } else if flag == 'L' {
            self.line_flush = false;
        } else if flag == 'l' {
            self.line_flush = true;
        } else {
            return false;
        }
        true
    }
}

impl TextFlags {
    /// Sets the flag `flag`; returns whether it is one of these flags.
    pub fn match_flag(&mut self, flag: char) -> (known: bool)
        ensures
            match text_with(*old(self), flag) {
                Some(f) => known && *final(self) == f,
                None => !known && *final(self) == *old(self),
            },
    {
        if flag == '0' {
            self.lines_count_from_one = false;
        } else if flag == '1' {
            self.lines_count_from_one = true;
        } else if flag == 'T' {
            self.show = false;
        } else if flag == 't' {
            self.show = true;
        } else {
            return false;
        }
        true
    }
}

pub proof fn lemma_s_expression_flags_error_stays(flags: Seq<char>, k: int, m: int)
    requires
        0 <= k <= m,
        s_expression_flags(flags, k) is Err,
    ensures
        s_expression_flags(flags, m) == s_expression_flags(flags, k),
    decreases m - k,
{
    if k < m {
        lemma_s_expression_flags_error_stays(flags, k, m - 1);
    }
}

pub proof fn lemma_cst_flags_error_stays(flags: Seq<char>, k: int, m: int)
    requires
        0 <= k <= m,
        cst_flags(flags, k) is Err,
    ensures
        cst_flags(flags, m) == cst_flags(flags, k),
    decreases m - k,
{
    if k < m {
        lemma_cst_flags_error_stays(flags, k, m - 1);
    }
}

impl SExpressionFlags {
    /// Sets the flag `flag`, where it is a flag of this output itself;
    /// returns whether it is.
    pub fn match_flag(&mut self, flag: char) -> (known: bool)
        ensures
            known == (flag == 'O' || flag == 'o' || flag == 'P' || flag == 'p'),
            known ==> Some(*final(self)) == s_expression_with(*old(self), flag),
            !known ==> *final(self) == *old(self),
    {
        if flag == 'O' {
            self.one_line = false;
        } else if flag == 'o' {
            self.one_line = true;
        } else if flag == 'P' {
            self.show_positions = false;
        } else if flag == 'p' {
            self.show_positions = true;
        } else {
            return false;
        }
        true
    }

    /// Sets the flag `flag`, whichever group it belongs to.
    fn set_flag(&mut self, flag: char) -> (known: bool)
        ensures
            match s_expression_with(*old(self), flag) {
                Some(f) => known && *final(self) == f,
                None => !known && *final(self) == *old(self),
            },
    {
        if self.match_flag(flag) {
            return true;
        }
        let mut text = self.text;
        if text.match_flag(flag) {
            self.text = text;
            return true;
        }
        let mut extra = self.extra;
        if extra.match_flag(flag) {
            self.extra = extra;
            return true;
        }
        false
    }

    /// The default flags with each of `flags` set, if flags are given.
    pub fn parse(flags: Option<&str>) -> (r: Result<SExpressionFlags, CliError>)
        ensures
            match s_expression_flags(
                option_chars(crate::cli::format::option_view(flags)),
                option_chars(crate::cli::format::option_view(flags)).len() as int,
            ) {
                Ok(f) => r == Ok::<SExpressionFlags, CliError>(f),
                Err(c) => r matches Err(e) && e@ == CliErrorModel::UnknownSExpressionFlag(c),
            },
    {
        let mut f = SExpressionFlags::default();
        match flags {
            Some(given) => {
                let chars = crate::cli::format::str_chars(given);
                let mut k: usize = 0;
                while k < chars.len()
                    invariant
                        k <= chars@.len(),
                        chars@ == given@,
                        flags == Some(given),
                        s_expression_flags(chars@, k as int) == Ok::<SExpressionFlags, char>(f),
                    decreases chars@.len() - k,
                {
                    let c: char = chars[k];
                    if !f.set_flag(c) {
                        proof {
                            assert(s_expression_flags(chars@, k + 1) == Err::<
                                SExpressionFlags,
                                char,
                            >(c));
                            lemma_s_expression_flags_error_stays(
                                chars@,
                                k + 1,
                                chars@.len() as int,
                            );
                        }
                        return Err(CliError::UnknownSExpressionFlag(c));
                    }
                    k += 1;
                }
            },
            None => {},
        }
        Ok(f)
    }
}

impl CstFlags {
    /// Sets the flag `flag`, where it is a flag of this output itself;
    /// returns whether it is.
    pub fn match_flag(&mut self, flag: char) -> (known: bool)
        ensures
            known == (flag == 'E' || flag == 'e' || flag == 'U' || flag == 'u' || flag == 'B'
                || flag == 'b' || flag == 'P' || flag == 'p'),
            known ==> Some(*final(self)) == cst_with(*old(self), flag),
            !known ==> *final(self) == *old(self),
    {
        if flag == 'E' {
            self.always_show_full_error_captures = false;
        } else if flag == 'e' {
            self.always_show_full_error_captures = true;
        } else if flag == 'U' {
            self.unquoted_anonymous = false;
        } else if flag == 'u' {
            self.unquoted_anonymous = true;
        } else if flag == 'B' {
            self.show_byte_positions = false;
        } else if flag == 'b' {
            self.show_byte_positions = true;
        } else if flag == 'P' {
            self.show_positions = false;
        } else if flag == 'p' {
            self.show_positions = true;
        } else {
            return false;
        }
        true
    }

    /// Sets the flag `flag`, whichever group it belongs to.
    fn set_flag(&mut self, flag: char) -> (known: bool)
        ensures
            match cst_with(*old(self), flag) {
                Some(f) => known && *final(self) == f,
                None => !known && *final(self) == *old(self),
            },
    {
        if self.match_flag(flag) {
            return true;
        }
        let mut text = self.text;
        if text.match_flag(flag) {
            self.text = text;
            return true;
        }
        let mut extra = self.extra;
        if extra.match_flag(flag) {
            self.extra = extra;
            return true;
        }
        false
    }

    /// The default flags with each of `flags` set, if flags are given.
    pub fn parse(flags: Option<&str>) -> (r: Result<CstFlags, CliError>)
        ensures
            match cst_flags(
                option_chars(crate::cli::format::option_view(flags)),
                option_chars(crate::cli::format::option_view(flags)).len() as int,
            ) {
                Ok(f) => r == Ok::<CstFlags, CliError>(f),
                Err(c) => r matches Err(e) && e@ == CliErrorModel::UnknownCstFlag(c),
            },
    {
        let mut f = CstFlags::default();
        match flags {
            Some(given) => {
                let chars = crate::cli::format::str_chars(given);
                let mut k: usize = 0;
                while k < chars.len()
                    invariant
                        k <= chars@.len(),
                        chars@ == given@,
                        flags == Some(given),
                        cst_flags(chars@, k as int) == Ok::<CstFlags, char>(f),
                    decreases chars@.len() - k,
                {
                    let c: char = chars[k];
                    if !f.set_flag(c) {
                        proof {
                            assert(cst_flags(chars@, k + 1) == Err::<CstFlags, char>(c));
                            lemma_cst_flags_error_stays(chars@, k + 1, chars@.len() as int);
                        }
                        return Err(CliError::UnknownCstFlag(c));
                    }
                    k += 1;
                }
            },
            None => {},
        }
        Ok(f)
    }
}

pub open spec fn option_view(flags: Option<&str>) -> Option<Seq<char>> {
    match flags {
        Some(f) => Some(f@),
        None => None,
    }
}

/// The characters of `s`, in order.
pub fn str_chars(s: &str) -> (chars: Vec<char>)
    ensures
        chars@ == s@,
{
    let n = s.unicode_len();
    let mut chars: Vec<char> = Vec::new();
    let mut i: usize = 0;
    while i < n
        invariant
            i <= n,
            n == s@.len(),
            chars@ == s@.take(i as int),
        decreases n - i,
    {
        chars.push(s.get_char(i));
        assert(chars@ =~= s@.take(i + 1));
        i += 1;
    }
    assert(s@.take(n as int) =~= s@);
    chars
}

/// The text of the characters `chars`.
pub fn chars_to_string(chars: &Vec<char>) -> (s: String)
    ensures
        s@ == chars@,
{
    let mut s = String::new();
    push_chars(&mut s, chars);
    assert(s@ =~= chars@);
    s
}

/// Whether the characters `chars` spell `word`.
pub fn spells(chars: &Vec<char>, word: &str) -> (b: bool)
    ensures
        b == (chars@ == word@),
{
    let letters = str_chars(word);
    if chars.len() != letters.len() {
        return false;
    }
    let mut i: usize = 0;
    while i < chars.len()
        invariant
            i <= chars@.len(),
            chars@.len() == letters@.len(),
            letters@ == word@,
            forall|k: int| 0 <= k < i ==> chars@[k] == letters@[k],
        decreases chars@.len() - i,
    {
        if chars[i] != letters[i] {
            return false;
        }
        i += 1;
    }
    assert(chars@ =~= word@);
    true
}

/// Whether the characters `chars` begin with `word`.
pub fn begins_with_word(chars: &Vec<char>, word: &str) -> (b: bool)
    ensures
        b == starts_with(chars@, word@),
{
    let letters = str_chars(word);
    if chars.len() < letters.len() {
        return false;
    }
    let mut i: usize = 0;
    while i < letters.len()
        invariant
            i <= letters@.len(),
            letters@.len() <= chars@.len(),
            letters@ == word@,
            forall|k: int| 0 <= k < i ==> chars@[k] == letters@[k],
        decreases letters@.len() - i,
    {
        if chars[i] != letters[i] {
            assert(chars@.take(word@.len() as int)[i as int] != word@[i as int]);
            return false;
        }
        i += 1;
    }
    assert(chars@.take(word@.len() as int) =~= word@);
    true
}

/// The characters of `chars` from `from` up to, but not including, `to`.
pub fn slice_chars(chars: &Vec<char>, from: usize, to: usize) -> (out: Vec<char>)
    requires
        from <= to <= chars@.len(),
    ensures
        out@ == chars@.subrange(from as int, to as int),
{
    let mut out: Vec<char> = Vec::new();
    let mut i = from;
    while i < to
        invariant
            from <= i <= to <= chars@.len(),
            out@ == chars@.subrange(from as int, i as int),
        decreases to - i,
    {
        out.push(chars[i]);
        assert(out@ =~= chars@.subrange(from as int, i + 1));
        i += 1;
    }
    out
}

/// The format called `name` with the flags `flags`, if `name` is the name of
/// a format or its first letter.
fn named_format(name: &Vec<char>, flags: Option<&String>) -> (r: Option<
    Result<OutputFormat, CliError>,
>)
    ensures
        match format_named(
            name@,
            match flags {
                Some(f) => Some(f@),
                None => None,
            },
        ) {
            Some(Ok(f)) => r == Some(Ok::<OutputFormat, CliError>(f)),
            Some(Err(e)) => r matches Some(Err(x)) && x@ == e,
            None => r is None,
        },
{
    let as_text: Option<&str> = match flags {
        Some(f) => Some(f.as_str()),
        None => None,
    };
    if spells(name, "s") || spells(name, "s-expression") {
        Some(
            match SExpressionFlags::parse(as_text) {
                Ok(f) => Ok(OutputFormat::SExpression(f)),
                Err(e) => Err(e),
            },
        )
    } else if spells(name, "c") || spells(name, "cst") {
        Some(
            match CstFlags::parse(as_text) {
                Ok(f) => Ok(OutputFormat::Cst(f)),
                Err(e) => Err(e),
            },
        )
    } else if spells(name, "x") || spells(name, "xml") {
        Some(
            if flags.is_some() {
                Err(CliError::XmlFlags)
            } else {
                Ok(OutputFormat::Xml)
            },
        )
    } else {
        None
    }
}

impl OutputFormat {
    /// The format that `format` writes.
    pub fn parse(format: &str) -> (r: Result<OutputFormat, CliError>)
        ensures
            match parsed_format(format@) {
                Ok(f) => r == Ok::<OutputFormat, CliError>(f),
                Err(e) => r matches Err(x) && x@ == e,
            },
    {
        let chars = str_chars(format);
        let ghost wanted = is_colon();
        let mut colon: Option<usize> = None;
        let mut i: usize = 0;
        while i < chars.len() && colon.is_none()
            invariant
                i <= chars@.len(),
                chars@ == format@,
                wanted == is_colon(),
                colon is None ==> forall|k: int| 0 <= k < i ==> !wanted(#[trigger] chars@[k]),
                colon matches Some(c) ==> c < chars@.len() && wanted(chars@[c as int]) && forall|
                    k: int,
                | 0 <= k < c ==> !wanted(#[trigger] chars@[k]),
            decreases chars@.len() - i, if colon is None { 1int } else { 0int },
        {
            if chars[i] == ':' {
                colon = Some(i);
            } else {
                i += 1;
            }
        }
        proof {
            lemma_first_index_where(chars@, wanted);
        }
        let (name, flags) = match colon {
            Some(c) => {
                let name = slice_chars(&chars, 0, c);
                let flags = chars_to_string(&slice_chars(&chars, c + 1, chars.len()));
                assert(name@ =~= format@.take(c as int));
                assert(flags@ =~= format@.skip(c + 1));
                (name, Some(flags))
            },
            None => (chars, None),
        };
        match named_format(&name, flags.as_ref()) {
            Some(r) => r,
            None => {
                if name.len() > 1 {
                    if begins_with_word(&name, "s-expression") || begins_with_word(&name, "cst")
                        || begins_with_word(&name, "xml") {
                        Err(CliError::FlagsWithoutColon)
                    } else {
                        let first = slice_chars(&name, 0, 1);
                        let rest = chars_to_string(&slice_chars(&name, 1, name.len()));
                        assert(first@ =~= name@.take(1));
                        assert(rest@ =~= name@.skip(1));
                        match named_format(&first, Some(&rest)) {
                            Some(r) => r,
                            None => Err(CliError::UnknownOutputFormat(chars_to_string(&first))),
                        }
                    }
                } else {
                    Err(CliError::UnknownOutputFormat(chars_to_string(&name)))
                }
            },
        }
    }
}

} // verus!
