//! The patterns that describe the text of tokens, read from their written
//! form. Every text is a pattern: what cannot be an operator is a literal.
//!
//! The written form: `a|b` is either of two patterns, `ab` one after the
//! other, `a*`, `a+` and `a?` are repetition and option, `(a)` and `(?:a)`
//! group, `[a-z_]` is a set of characters and `[^a-z]` the characters outside
//! a set, `.` is any character but the line feed, and a backslash takes the
//! next character literally, or as a class (`\d`, `\w`, `\s`, and their
//! upper-case complements) or a control character (`\n`, `\t`, `\r`, `\f`,
//! `\v`, `\0`).
use vstd::prelude::*;
use crate::nfa::{
    set_of_ranges, set_without_ranges, united, CharRange, CharacterSet, CharacterSetModel,
};

verus! {

/// A pattern, as a tree.
#[derive(Debug, PartialEq, Eq)]
pub enum Pattern {
    Empty,
    Chars(CharacterSet),
    Concat(Vec<Pattern>),
    Alternation(Vec<Pattern>),
    Star(Box<Pattern>),
    Plus(Box<Pattern>),
    Optional(Box<Pattern>),
    /// A pattern inside which tokens have the given precedence.
    Ranked(i32, Box<Pattern>),
}

pub enum PatternModel {
    Empty,
    Chars(CharacterSetModel),
    Concat(Seq<PatternModel>),
    Alternation(Seq<PatternModel>),
    Star(Box<PatternModel>),
    Plus(Box<PatternModel>),
    Optional(Box<PatternModel>),
    Ranked(int, Box<PatternModel>),
}

pub open spec fn pattern_model(pattern: Pattern) -> PatternModel
    decreases pattern, 0nat,
{
    match pattern {
        Pattern::Empty => PatternModel::Empty,
        Pattern::Chars(set) => PatternModel::Chars(set@),
        Pattern::Concat(items) => PatternModel::Concat(pattern_models(items@)),
        Pattern::Alternation(items) => PatternModel::Alternation(pattern_models(items@)),
        Pattern::Star(inner) => PatternModel::Star(Box::new(pattern_model(*inner))),
        Pattern::Plus(inner) => PatternModel::Plus(Box::new(pattern_model(*inner))),
        Pattern::Optional(inner) => PatternModel::Optional(Box::new(pattern_model(*inner))),
        Pattern::Ranked(precedence, inner) => PatternModel::Ranked(
            precedence as int,
            Box::new(pattern_model(*inner)),
        ),
    }
}

pub open spec fn pattern_models(patterns: Seq<Pattern>) -> Seq<PatternModel>
    decreases patterns, 1nat,
{
    Seq::new(
        patterns.len(),
        |i: int|
            if 0 <= i < patterns.len() {
                pattern_model(patterns[i])
            } else {
                PatternModel::Empty
            },
    )
}

impl View for Pattern {
    type V = PatternModel;

    open spec fn view(&self) -> PatternModel {
        pattern_model(*self)
    }
}

pub open spec fn one_range(start: int, end: int) -> Seq<CharRange> {
    seq![CharRange { start: start as u32, end: end as u32 }]
}

/// The digits.
pub open spec fn digit_ranges() -> Seq<CharRange> {
    seq![CharRange { start: 48, end: 58 }]
}

/// The letters, the digits and the underscore.
pub open spec fn word_ranges() -> Seq<CharRange> {
    seq![
        CharRange { start: 48, end: 58 },
        CharRange { start: 65, end: 91 },
        CharRange { start: 95, end: 96 },
        CharRange { start: 97, end: 123 },
    ]
}

/// The blank characters: tab, line feed, vertical tab, form feed, carriage
/// return and space.
pub open spec fn space_ranges() -> Seq<CharRange> {
    seq![CharRange { start: 9, end: 14 }, CharRange { start: 32, end: 33 }]
}

/// The set that the character `c` stands for behind a backslash.
pub open spec fn escape_set(c: char) -> CharacterSetModel {
    if c == 'd' {
        set_of_ranges(digit_ranges())
    } else if c == 'D' {
        set_without_ranges(digit_ranges())
    } else if c == 'w' {
        set_of_ranges(word_ranges())
    } else if c == 'W' {
        set_without_ranges(word_ranges())
    } else if c == 's' {
        set_of_ranges(space_ranges())
    } else if c == 'S' {
        set_without_ranges(space_ranges())
    } else if c == 'n' {
        set_of_ranges(one_range(10, 11))
    } else if c == 't' {
        set_of_ranges(one_range(9, 10))
    } else if c == 'r' {
        set_of_ranges(one_range(13, 14))
    } else if c == 'f' {
        set_of_ranges(one_range(12, 13))
    } else if c == 'v' {
        set_of_ranges(one_range(11, 12))
    } else if c == '0' {
        set_of_ranges(one_range(0, 1))
    } else {
        set_of_ranges(one_range(c as int, c as int + 1))
    }
}

/// The set that the character `c` stands for on its own: itself, and, where
/// case is ignored and `c` is a letter of the alphabet, its other case.
pub open spec fn letter_set(c: char, ignore_case: bool) -> CharacterSetModel {
    if ignore_case && 97 <= c as int <= 122 {
        set_of_ranges(
            seq![
                CharRange { start: c as u32, end: (c as int + 1) as u32 },
                CharRange { start: (c as int - 32) as u32, end: (c as int - 31) as u32 },
            ],
        )
    } else if ignore_case && 65 <= c as int <= 90 {
        set_of_ranges(
            seq![
                CharRange { start: c as u32, end: (c as int + 1) as u32 },
                CharRange { start: (c as int + 32) as u32, end: (c as int + 33) as u32 },
            ],
        )
    } else {
        set_of_ranges(one_range(c as int, c as int + 1))
    }
}

/// Any character but the line feed.
pub open spec fn any_but_line_feed() -> CharacterSetModel {
    set_without_ranges(one_range(10, 11))
}

/// One item of a bracketed set, which begins at `p`, and the place behind it.
pub open spec fn class_item(s: Seq<char>, p: int, ignore_case: bool) -> (CharacterSetModel, int) {
    if s[p] == '\\' && p + 1 < s.len() {
        (escape_set(s[p + 1]), p + 2)
    } else if p + 2 < s.len() && s[p + 1] == '-' && s[p + 2] != ']' {
        (set_of_ranges(one_range(s[p] as int, s[p + 2] as int + 1)), p + 3)
    } else {
        (letter_set(s[p], ignore_case), p + 1)
    }
}

/// The items of a bracketed set from `p` on, added to `acc`, and the place
/// behind the closing bracket, or the end of the text where none closes.
pub open spec fn class_items(s: Seq<char>, p: int, ignore_case: bool, acc: CharacterSetModel) -> (
    CharacterSetModel,
    int,
)
    decreases s.len() - p,
{
    if p < 0 || p >= s.len() {
        (acc, s.len() as int)
    } else if s[p] == ']' {
        (acc, p + 1)
    } else {
        let (item, next) = class_item(s, p, ignore_case);
        class_items(s, next, ignore_case, united(acc, item))
    }
}

/// The bracketed set whose opening bracket stands just before `pos`.
pub open spec fn class_at(s: Seq<char>, pos: int, ignore_case: bool) -> (CharacterSetModel, int) {
    let negated = pos < s.len() && s[pos] == '^';
    let start = if negated {
        pos + 1
    } else {
        pos
    };
    let (set, next) = class_items(s, start, ignore_case, set_of_ranges(Seq::empty()));
    (CharacterSetModel { negated, ..set }, next)
}

/// Whether a sequence ends at `pos`: at the end of the text, at a bar, or,
/// inside a group, at a closing parenthesis.
pub open spec fn is_stop(s: Seq<char>, pos: int, in_group: bool) -> bool {
    pos >= s.len() || s[pos] == '|' || (in_group && s[pos] == ')')
}

/// `items` as one pattern.
pub open spec fn sequence_of(items: Seq<PatternModel>) -> PatternModel {
    if items.len() == 0 {
        PatternModel::Empty
    } else if items.len() == 1 {
        items[0]
    } else {
        PatternModel::Concat(items)
    }
}

/// `alternatives` as one pattern.
pub open spec fn choice_of(alternatives: Seq<PatternModel>) -> PatternModel {
    if alternatives.len() == 1 {
        alternatives[0]
    } else {
        PatternModel::Alternation(alternatives)
    }
}

/// The atom that begins at `pos`, and the place behind it.
pub open spec fn atom_at(s: Seq<char>, pos: int, ignore_case: bool) -> (PatternModel, int)
    decreases s.len() - pos, 0nat,
{
    if pos < 0 || pos >= s.len() {
        (PatternModel::Empty, s.len() as int)
    } else if s[pos] == '(' {
        let start = if pos + 2 < s.len() && s[pos + 1] == '?' && s[pos + 2] == ':' {
            pos + 3
        } else {
            pos + 1
        };
        let (inner, next) = alternation_at(s, start, true, ignore_case);
        if start <= next < s.len() && s[next] == ')' {
            (inner, next + 1)
        } else {
            (inner, s.len() as int)
        }
    } else if s[pos] == '[' {
        let (set, next) = class_at(s, pos + 1, ignore_case);
        (PatternModel::Chars(set), next)
    } else if s[pos] == '\\' && pos + 1 < s.len() {
        (PatternModel::Chars(escape_set(s[pos + 1])), pos + 2)
    } else if s[pos] == '.' {
        (PatternModel::Chars(any_but_line_feed()), pos + 1)
    } else {
        (PatternModel::Chars(letter_set(s[pos], ignore_case)), pos + 1)
    }
}

/// `atom` with the repetition marks that stand at `pos`.
pub open spec fn postfix_at(s: Seq<char>, atom: PatternModel, pos: int) -> (PatternModel, int)
    decreases s.len() - pos,
{
    if pos < 0 || pos >= s.len() {
        (atom, pos)
    } else if s[pos] == '*' {
        postfix_at(s, PatternModel::Star(Box::new(atom)), pos + 1)
    } else if s[pos] == '+' {
        postfix_at(s, PatternModel::Plus(Box::new(atom)), pos + 1)
    } else if s[pos] == '?' {
        postfix_at(s, PatternModel::Optional(Box::new(atom)), pos + 1)
    } else {
        (atom, pos)
    }
}

/// The items of the sequence from `pos` on, added to `acc`, and the place
/// where the sequence stops.
pub open spec fn concat_at(
    s: Seq<char>,
    pos: int,
    in_group: bool,
    ignore_case: bool,
    acc: Seq<PatternModel>,
) -> (Seq<PatternModel>, int)
    decreases s.len() - pos, 1nat,
{
    if pos < 0 || is_stop(s, pos, in_group) {
        (acc, pos)
    } else {
        let (atom, behind) = atom_at(s, pos, ignore_case);
        let (item, next) = postfix_at(s, atom, behind);
        if pos < next <= s.len() {
            concat_at(s, next, in_group, ignore_case, acc.push(item))
        } else {
            (acc.push(item), s.len() as int)
        }
    }
}

/// The alternatives from `pos` on, each behind a bar, added to `acc`.
pub open spec fn alternatives_at(
    s: Seq<char>,
    pos: int,
    in_group: bool,
    ignore_case: bool,
    acc: Seq<PatternModel>,
) -> (PatternModel, int)
    decreases s.len() - pos, 2nat,
{
    if 0 <= pos < s.len() && s[pos] == '|' {
        let (items, next) = concat_at(s, pos + 1, in_group, ignore_case, Seq::empty());
        if pos < next <= s.len() {
            alternatives_at(s, next, in_group, ignore_case, acc.push(sequence_of(items)))
        } else {
            (choice_of(acc.push(sequence_of(items))), s.len() as int)
        }
    } else {
        (choice_of(acc), pos)
    }
}

/// The pattern that begins at `pos`, and the place where it stops.
pub open spec fn alternation_at(s: Seq<char>, pos: int, in_group: bool, ignore_case: bool) -> (
    PatternModel,
    int,
)
    decreases s.len() - pos, 3nat,
{
    if pos < 0 || pos > s.len() {
        (PatternModel::Empty, s.len() as int)
    } else {
        let (items, next) = concat_at(s, pos, in_group, ignore_case, Seq::empty());
        if pos <= next <= s.len() {
            alternatives_at(s, next, in_group, ignore_case, seq![sequence_of(items)])
        } else {
            (sequence_of(items), s.len() as int)
        }
    }
}

/// The pattern that the text `s` writes.
pub open spec fn parsed(s: Seq<char>, ignore_case: bool) -> PatternModel {
    rest_at(s, 0, ignore_case, Seq::empty())
}

/// The patterns from `pos` to the end of the text, added to `acc`. A closing
/// parenthesis that closes nothing is a literal.
pub open spec fn rest_at(s: Seq<char>, pos: int, ignore_case: bool, acc: Seq<PatternModel>)
    -> PatternModel
    decreases s.len() - pos,
{
    if pos < 0 || pos >= s.len() {
        sequence_of(acc)
    } else {
        let (part, next) = alternation_at(s, pos, false, ignore_case);
        if pos < next <= s.len() {
            rest_at(s, next, ignore_case, acc.push(part))
        } else if next == pos && s[pos] == ')' {
            rest_at(
                s,
                pos + 1,
                ignore_case,
                acc.push(part).push(PatternModel::Chars(letter_set(')', ignore_case))),
            )
        } else {
            sequence_of(acc.push(part))
        }
    }
}

/// The code point of `c`.
fn code_of(c: char) -> (code: u32)
    ensures
        code == c as u32,
        code as int == c as int,
        code <= 0x10FFFF,
{
    c as u32
}

fn make_ranges2(a: CharRange, b: CharRange) -> (v: Vec<CharRange>)
    ensures
        v@ == seq![a, b],
{
    let mut v: Vec<CharRange> = Vec::new();
    v.push(a);
    v.push(b);
    assert(v@ =~= seq![a, b]);
    v
}

fn make_range(start: u32, end: u32) -> (v: Vec<CharRange>)
    ensures
        v@ == one_range(start as int, end as int),
{
    let mut v: Vec<CharRange> = Vec::new();
    v.push(CharRange { start, end });
    assert(v@ =~= one_range(start as int, end as int));
    v
}

fn make_digit_ranges() -> (v: Vec<CharRange>)
    ensures
        v@ == digit_ranges(),
{
    let mut v: Vec<CharRange> = Vec::new();
    v.push(CharRange { start: 48, end: 58 });
    assert(v@ =~= digit_ranges());
    v
}

fn make_word_ranges() -> (v: Vec<CharRange>)
    ensures
        v@ == word_ranges(),
{
    let mut v: Vec<CharRange> = Vec::new();
    v.push(CharRange { start: 48, end: 58 });
    v.push(CharRange { start: 65, end: 91 });
    v.push(CharRange { start: 95, end: 96 });
    v.push(CharRange { start: 97, end: 123 });
    assert(v@ =~= word_ranges());
    v
}

fn make_space_ranges() -> (v: Vec<CharRange>)
    ensures
        v@ == space_ranges(),
{
    let mut v: Vec<CharRange> = Vec::new();
    v.push(CharRange { start: 9, end: 14 });
    v.push(CharRange { start: 32, end: 33 });
    assert(v@ =~= space_ranges());
    v
}

/// The set that the character `c` stands for behind a backslash.
pub fn set_for_escape(c: char) -> (set: CharacterSet)
    ensures
        set@ == escape_set(c),
        !set.negated,
{
    if c == 'd' {
        CharacterSet::from_ranges(make_digit_ranges())
    } else if c == 'D' {
        CharacterSet::without_ranges(make_digit_ranges())
    } else if c == 'w' {
        CharacterSet::from_ranges(make_word_ranges())
    } else if c == 'W' {
        CharacterSet::without_ranges(make_word_ranges())
    } else if c == 's' {
        CharacterSet::from_ranges(make_space_ranges())
    } else if c == 'S' {
        CharacterSet::without_ranges(make_space_ranges())
    } else if c == 'n' {
        CharacterSet::from_ranges(make_range(10, 11))
    } else if c == 't' {
        CharacterSet::from_ranges(make_range(9, 10))
    } else if c == 'r' {
        CharacterSet::from_ranges(make_range(13, 14))
    } else if c == 'f' {
        CharacterSet::from_ranges(make_range(12, 13))
    } else if c == 'v' {
        CharacterSet::from_ranges(make_range(11, 12))
    } else if c == '0' {
        CharacterSet::from_ranges(make_range(0, 1))
    } else {
        let code = c as u32;
        CharacterSet::from_ranges(make_range(code, code + 1))
    }
}

/// The set that the character `c` stands for on its own.
pub fn set_for_letter(c: char, ignore_case: bool) -> (set: CharacterSet)
    ensures
        set@ == letter_set(c, ignore_case),
        !set.negated,
{
    let code = c as u32;
    if ignore_case && 97 <= code && code <= 122 {
        CharacterSet::from_ranges(
            make_ranges2(
                CharRange { start: code, end: code + 1 },
                CharRange { start: code - 32, end: code - 31 },
            ),
        )
    } else if ignore_case && 65 <= code && code <= 90 {
        CharacterSet::from_ranges(
            make_ranges2(
                CharRange { start: code, end: code + 1 },
                CharRange { start: code + 32, end: code + 33 },
            ),
        )
    } else {
        CharacterSet::from_ranges(make_range(code, code + 1))
    }
}

/// Reads the bracketed set whose opening bracket stands just before `pos`.
fn parse_class(s: &Vec<char>, pos: usize, ignore_case: bool) -> (r: (CharacterSet, usize))
    requires
        pos <= s@.len(),
    ensures
        (r.0@, r.1 as int) == class_at(s@, pos as int, ignore_case),
        pos <= r.1 <= s@.len(),
{
    let n = s.len();
    let negated = pos < n && s[pos] == '^';
    let start = if negated {
        pos + 1
    } else {
        pos
    };
    let mut set = CharacterSet::empty();
    let mut p: usize = start;
    let ghost wanted = class_items(s@, start as int, ignore_case, set_of_ranges(Seq::empty()));
    let mut closed = false;
    while p < n && !closed
        invariant
            start <= p <= s@.len(),
            n == s@.len(),
            !set.negated,
            !closed ==> wanted == class_items(s@, p as int, ignore_case, set@),
            closed ==> wanted == (set@, p as int),
        decreases s@.len() - p, if closed { 0int } else { 1int },
    {
        let ghost before = set@;
        let ghost at = p as int;
        if s[p] == ']' {
            closed = true;
            p += 1;
        } else if s[p] == '\\' && n - p > 1 {
            let item = set_for_escape(s[p + 1]);
            set.add(&item);
            p += 2;
            assert(class_item(s@, at, ignore_case) == (item@, p as int));
            assert(wanted == class_items(s@, p as int, ignore_case, united(before, item@)));
        } else if n - p > 2 && s[p + 1] == '-' && s[p + 2] != ']' {
            let low: char = s[p];
            let high: char = s[p + 2];
            let first = code_of(low);
            let last = code_of(high);
            let item = CharacterSet::from_ranges(make_range(first, last + 1));
            set.add(&item);
            p += 3;
            assert(class_item(s@, at, ignore_case) == (item@, p as int));
            assert(wanted == class_items(s@, p as int, ignore_case, united(before, item@)));
        } else {
            let item = set_for_letter(s[p], ignore_case);
            set.add(&item);
            p += 1;
            assert(class_item(s@, at, ignore_case) == (item@, p as int));
            assert(wanted == class_items(s@, p as int, ignore_case, united(before, item@)));
        }
    }
    let set = if negated {
        set.negate()
    } else {
        set
    };
    (set, p)
}

/// `atom` with the repetition marks that stand at `pos`.
fn parse_postfix(s: &Vec<char>, atom: Pattern, pos: usize) -> (r: (Pattern, usize))
    requires
        pos <= s@.len(),
    ensures
        (r.0@, r.1 as int) == postfix_at(s@, atom@, pos as int),
        pos <= r.1 <= s@.len(),
{
    let ghost wanted = postfix_at(s@, atom@, pos as int);
    let n = s.len();
    let mut item = atom;
    let mut p = pos;
    let mut done = false;
    while p < n && !done
        invariant
            pos <= p <= s@.len(),
            n == s@.len(),
            !done ==> wanted == postfix_at(s@, item@, p as int),
            done ==> wanted == (item@, p as int),
        decreases s@.len() - p, if done { 0int } else { 1int },
    {
        if s[p] == '*' {
            item = Pattern::Star(Box::new(item));
            p += 1;
        } else if s[p] == '+' {
            item = Pattern::Plus(Box::new(item));
            p += 1;
        } else if s[p] == '?' {
            item = Pattern::Optional(Box::new(item));
            p += 1;
        } else {
            done = true;
        }
    }
    (item, p)
}

/// `items` as one pattern.
fn make_sequence(mut items: Vec<Pattern>) -> (r: Pattern)
    ensures
        r@ == sequence_of(pattern_models(items@)),
{
    if items.len() == 0 {
        Pattern::Empty
    } else if items.len() == 1 {
        let ghost before = items@;
        let only = items.pop().unwrap();
        assert(only == before[0]);
        assert(pattern_models(before)[0] == pattern_model(before[0]));
        only
    } else {
        Pattern::Concat(items)
    }
}

/// `alternatives` as one pattern.
fn make_choice(mut alternatives: Vec<Pattern>) -> (r: Pattern)
    ensures
        r@ == choice_of(pattern_models(alternatives@)),
{
    if alternatives.len() == 1 {
        let ghost before = alternatives@;
        let only = alternatives.pop().unwrap();
        assert(only == before[0]);
        assert(pattern_models(before)[0] == pattern_model(before[0]));
        only
    } else {
        Pattern::Alternation(alternatives)
    }
}

/// Reads the atom that begins at `pos`.
fn parse_atom(s: &Vec<char>, pos: usize, ignore_case: bool) -> (r: (Pattern, usize))
    requires
        pos < s@.len(),
    ensures
        (r.0@, r.1 as int) == atom_at(s@, pos as int, ignore_case),
        pos < r.1 <= s@.len(),
    decreases s@.len() - pos, 0nat,
{
    let n = s.len();
    let c = s[pos];
    if c == '(' {
        let start = if n - pos > 2 && s[pos + 1] == '?' && s[pos + 2] == ':' {
            pos + 3
        } else {
            pos + 1
        };
        let (inner, next) = parse_alternation(s, start, true, ignore_case);
        if next < n && s[next] == ')' {
            (inner, next + 1)
        } else {
            (inner, n)
        }
    } else if c == '[' {
        let (set, next) = parse_class(s, pos + 1, ignore_case);
        (Pattern::Chars(set), next)
    } else if c == '\\' && n - pos > 1 {
        (Pattern::Chars(set_for_escape(s[pos + 1])), pos + 2)
    } else if c == '.' {
        (Pattern::Chars(CharacterSet::without_ranges(make_range(10, 11))), pos + 1)
    } else {
        (Pattern::Chars(set_for_letter(c, ignore_case)), pos + 1)
    }
}

/// Reads the items of the sequence that begins at `pos`.
fn parse_concat(s: &Vec<char>, pos: usize, in_group: bool, ignore_case: bool) -> (r: (
    Vec<Pattern>,
    usize,
))
    requires
        pos <= s@.len(),
    ensures
        (pattern_models(r.0@), r.1 as int) == concat_at(
            s@,
            pos as int,
            in_group,
            ignore_case,
            Seq::empty(),
        ),
        pos <= r.1 <= s@.len(),
    decreases s@.len() - pos, 1nat,
{
    let ghost wanted = concat_at(s@, pos as int, in_group, ignore_case, Seq::empty());
    let n = s.len();
    let mut items: Vec<Pattern> = Vec::new();
    let mut p = pos;
    assert(pattern_models(items@) =~= Seq::empty());
    while p < n && s[p] != '|' && !(in_group && s[p] == ')')
        invariant
            pos <= p <= s@.len(),
            n == s@.len(),
            wanted == concat_at(s@, p as int, in_group, ignore_case, pattern_models(items@)),
        decreases s@.len() - p,
    {
        let (atom, behind) = parse_atom(s, p, ignore_case);
        let (item, next) = parse_postfix(s, atom, behind);
        let ghost before = items@;
        items.push(item);
        assert(pattern_models(items@) =~= pattern_models(before).push(item@));
        p = next;
    }
    (items, p)
}

/// Reads the pattern that begins at `pos`.
fn parse_alternation(s: &Vec<char>, pos: usize, in_group: bool, ignore_case: bool) -> (r: (
    Pattern,
    usize,
))
    requires
        pos <= s@.len(),
    ensures
        (r.0@, r.1 as int) == alternation_at(s@, pos as int, in_group, ignore_case),
        pos <= r.1 <= s@.len(),
    decreases s@.len() - pos, 3nat,
{
    let (items, next) = parse_concat(s, pos, in_group, ignore_case);
    let ghost wanted = alternation_at(s@, pos as int, in_group, ignore_case);
    let first = make_sequence(items);
    let mut alternatives: Vec<Pattern> = Vec::new();
    alternatives.push(first);
    assert(pattern_models(alternatives@) =~= seq![first@]);
    let n = s.len();
    let mut p = next;
    while p < n && s[p] == '|'
        invariant
            pos <= p <= s@.len(),
            n == s@.len(),
            wanted == alternatives_at(
                s@,
                p as int,
                in_group,
                ignore_case,
                pattern_models(alternatives@),
            ),
        decreases s@.len() - p,
    {
        let (more, behind) = parse_concat(s, p + 1, in_group, ignore_case);
        let alternative = make_sequence(more);
        let ghost before = alternatives@;
        alternatives.push(alternative);
        assert(pattern_models(alternatives@) =~= pattern_models(before).push(alternative@));
        p = behind;
    }
    (make_choice(alternatives), p)
}

/// Reads the pattern that `s` writes. Where `ignore_case` is set, a letter of
/// the alphabet stands for both of its cases.
pub fn parse_pattern(s: &Vec<char>, ignore_case: bool) -> (r: Pattern)
    ensures
        r@ == parsed(s@, ignore_case),
{
    let ghost wanted = parsed(s@, ignore_case);
    let n = s.len();
    let mut parts: Vec<Pattern> = Vec::new();
    let mut p: usize = 0;
    assert(pattern_models(parts@) =~= Seq::empty());
    while p < n
        invariant
            p <= s@.len(),
            n == s@.len(),
            wanted == rest_at(s@, p as int, ignore_case, pattern_models(parts@)),
        decreases s@.len() - p,
    {
        let (part, next) = parse_alternation(s, p, false, ignore_case);
        let ghost before = parts@;
        parts.push(part);
        assert(pattern_models(parts@) =~= pattern_models(before).push(part@));
        if next > p {
            p = next;
        } else {
            let ghost known = parts@;
            let literal = Pattern::Chars(set_for_letter(')', ignore_case));
            parts.push(literal);
            assert(pattern_models(parts@) =~= pattern_models(known).push(literal@));
            proof {
                lemma_stops_at_parenthesis(s@, p as int, ignore_case);
            }
            p += 1;
        }
    }
    make_sequence(parts)
}

/// A pattern outside any group that stops where it begins, before the end of
/// the text, stops at a closing parenthesis.
pub proof fn lemma_stops_at_parenthesis(s: Seq<char>, pos: int, ignore_case: bool)
    requires
        0 <= pos < s.len(),
        alternation_at(s, pos, false, ignore_case).1 == pos,
    ensures
        s[pos] == ')',
{
    // Outside a group a sequence stops only at the end or at a bar, and a bar
    // is read as the start of an alternative, so the pattern cannot stop
    // where it begins: the premise holds of no text.
    let (items, next) = concat_at(s, pos, false, ignore_case, Seq::empty());
    lemma_concat_advances(s, pos, false, ignore_case, Seq::empty());
    if pos <= next <= s.len() {
        lemma_alternatives_advance(s, next, false, ignore_case, seq![sequence_of(items)]);
    }
}

/// A sequence stops at or behind the place where it begins; where it stops
/// before the end of the text, it stops at a stop.
pub proof fn lemma_concat_advances(
    s: Seq<char>,
    pos: int,
    in_group: bool,
    ignore_case: bool,
    acc: Seq<PatternModel>,
)
    requires
        0 <= pos <= s.len(),
    ensures
        pos <= concat_at(s, pos, in_group, ignore_case, acc).1 <= s.len(),
        is_stop(s, concat_at(s, pos, in_group, ignore_case, acc).1, in_group),
    decreases s.len() - pos,
{
    if !is_stop(s, pos, in_group) {
        let (atom, behind) = atom_at(s, pos, ignore_case);
        let (item, next) = postfix_at(s, atom, behind);
        if pos < next <= s.len() {
            lemma_concat_advances(s, next, in_group, ignore_case, acc.push(item));
        }
    }
}

/// The alternatives stop at or behind the place where they begin; outside a
/// group they stop only at the end of the text.
pub proof fn lemma_alternatives_advance(
    s: Seq<char>,
    pos: int,
    in_group: bool,
    ignore_case: bool,
    acc: Seq<PatternModel>,
)
    requires
        0 <= pos <= s.len(),
        is_stop(s, pos, in_group),
    ensures
        pos <= alternatives_at(s, pos, in_group, ignore_case, acc).1 <= s.len(),
        !in_group ==> alternatives_at(s, pos, in_group, ignore_case, acc).1 == s.len(),
    decreases s.len() - pos,
{
    if pos < s.len() && s[pos] == '|' {
        let (items, next) = concat_at(s, pos + 1, in_group, ignore_case, Seq::empty());
        lemma_concat_advances(s, pos + 1, in_group, ignore_case, Seq::empty());
        if pos < next <= s.len() {
            lemma_alternatives_advance(s, next, in_group, ignore_case, acc.push(sequence_of(items)));
        }
    }
}

} // verus!
