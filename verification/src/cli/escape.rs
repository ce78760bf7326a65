//! Text with its special characters written out.
use vstd::prelude::*;
use crate::text::{push_chars, string_chars};

verus! {

/// How an invisible character is written: line feed, carriage return, tab,
/// the null character, the backslash, vertical tab and form feed each by a
/// letter behind a backslash. Other characters are not written otherwise.
pub open spec fn invisible_escape(c: char) -> Option<Seq<char>> {
    if c == '\n' {
        Some("\\n"@)
    } else if c == '\r' {
        Some("\\r"@)
    } else if c == '\t' {
        Some("\\t"@)
    } else if c == '\0' {
        Some("\\0"@)
    } else if c == '\\' {
        Some("\\\\"@)
    } else if c == '\x0b' {
        Some("\\v"@)
    } else if c == '\x0c' {
        Some("\\f"@)
    } else {
        None
    }
}

/// How a character is written inside a quoted name: the quote behind a
/// backslash, and the invisible characters as above.
pub open spec fn char_escape(c: char) -> Option<Seq<char>> {
    if c == '\\' {
        Some("\\\\"@)
    } else if c == '"' {
        Some("\\\""@)
    } else {
        invisible_escape(c)
    }
}

/// The character `c` as `escape` writes it, or itself.
pub open spec fn written(escape: spec_fn(char) -> Option<Seq<char>>, c: char) -> Seq<char> {
    match escape(c) {
        Some(s) => s,
        None => seq![c],
    }
}

/// The first `k` characters of `s` as `escape` writes them.
pub open spec fn translated(escape: spec_fn(char) -> Option<Seq<char>>, s: Seq<char>, k: int)
    -> Seq<char>
    decreases k,
{
    if k <= 0 {
        Seq::empty()
    } else {
        translated(escape, s, k - 1) + written(escape, s[k - 1])
    }
}

pub open spec fn option_text(r: Option<&'static str>) -> Option<Seq<char>> {
    match r {
        Some(s) => Some(s@),
        None => None,
    }
}

/// How an invisible character is written, if it is one.
pub fn escape_invisible(c: char) -> (r: Option<&'static str>)
    ensures
        option_text(r) == invisible_escape(c),
{
    if c == '\n' {
        Some("\\n")
    } else if c == '\r' {
        Some("\\r")
    } else if c == '\t' {
        Some("\\t")
    } else if c == '\0' {
        Some("\\0")
    } else if c == '\\' {
        Some("\\\\")
    } else if c == '\x0b' {
        Some("\\v")
    } else if c == '\x0c' {
        Some("\\f")
    } else {
        None
    }
}

/// How a character is written inside a quoted name, if it is not written as
/// it is.
pub fn escape_char(c: char) -> (r: Option<&'static str>)
    ensures
        option_text(r) == char_escape(c),
{
    if c == '\\' {
        Some("\\\\")
    } else if c == '"' {
        Some("\\\"")
    } else {
        escape_invisible(c)
    }
}

/// Whether `escape` says what `escape_fn` gives for every character.
pub open spec fn describes<F: Fn(char) -> Option<&'static str>>(
    escape_fn: F,
    escape: spec_fn(char) -> Option<Seq<char>>,
) -> bool {
    forall|c: char, r: Option<&'static str>|
        #[trigger] call_ensures(escape_fn, (c,), r) ==> option_text(r) == escape(c)
}

/// Whether `escape_fn` can give, for `c`, the text `out`.
pub open spec fn gives<F: Fn(char) -> Option<&'static str>>(
    escape_fn: F,
    c: char,
    out: Option<Seq<char>>,
) -> bool {
    exists|r: Option<&'static str>|
        #[trigger] call_ensures(escape_fn, (c,), r) && option_text(r) == out
}

/// The first `k` characters of `s`, each as the text recorded for it in
/// `outs`, or as it is where none is recorded.
pub open spec fn assembled(s: Seq<char>, outs: Seq<Option<Seq<char>>>, k: int) -> Seq<char>
    decreases k,
{
    if k <= 0 {
        Seq::empty()
    } else {
        assembled(s, outs, k - 1) + match outs[k - 1] {
            Some(t) => t,
            None => seq![s[k - 1]],
        }
    }
}

pub proof fn lemma_assembled_is_translated(
    escape: spec_fn(char) -> Option<Seq<char>>,
    s: Seq<char>,
    outs: Seq<Option<Seq<char>>>,
    k: int,
)
    requires
        0 <= k <= s.len(),
        k <= outs.len(),
        forall|i: int| 0 <= i < k ==> #[trigger] outs[i] == escape(s[i]),
    ensures
        assembled(s, outs, k) == translated(escape, s, k),
    decreases k,
{
    if k > 0 {
        lemma_assembled_is_translated(escape, s, outs, k - 1);
    }
}

/// `s` with each character written by `escape_fn`, where that gives a text
/// for it, or as it is: whatever function says what `escape_fn` gives, the
/// result is the translation of `s` by that function.
pub fn translate_symbols<F: Fn(char) -> Option<&'static str>>(s: &str, escape_fn: F) -> (text:
    String)
    requires
        forall|c: char| call_requires(escape_fn, (c,)),
    ensures
        forall|escape: spec_fn(char) -> Option<Seq<char>>|
            describes(escape_fn, escape) ==> text@ == #[trigger] translated(
                escape,
                s@,
                s@.len() as int,
            ),
{
    let owned = s.to_owned();
    let chars = string_chars(&owned);
    let mut text = String::new();
    let ghost mut outs: Seq<Option<Seq<char>>> = Seq::empty();
    let mut k: usize = 0;
    assert(text@ =~= assembled(s@, outs, 0));
    while k < chars.len()
        invariant
            k <= chars@.len(),
            chars@ == s@,
            outs.len() == k,
            forall|c: char| call_requires(escape_fn, (c,)),
            forall|i: int| 0 <= i < k ==> gives(escape_fn, s@[i], #[trigger] outs[i]),
            text@ == assembled(s@, outs, k as int),
        decreases chars@.len() - k,
    {
        let c: char = chars[k];
        let ghost before = text@;
        let ghost known = outs;
        let r = escape_fn(c);
        proof {
            outs = outs.push(option_text(r));
            assert forall|i: int| 0 <= i < k + 1 implies gives(
                escape_fn,
                s@[i],
                #[trigger] outs[i],
            ) by {
                if i < k {
                    assert(outs[i] == known[i]);
                } else {
                    assert(call_ensures(escape_fn, (s@[i],), r) && option_text(r) == outs[i]);
                }
            }
            lemma_assembled_same_prefix(s@, known, outs, k as int);
        }
        match r {
            Some(sub) => {
                text.append(sub);
            },
            None => {
                let mut one: Vec<char> = Vec::new();
                one.push(c);
                push_chars(&mut text, &one);
            },
        }
        assert(text@ =~= assembled(s@, outs, k + 1));
        k += 1;
    }
    proof {
        assert forall|escape: spec_fn(char) -> Option<Seq<char>>|
            describes(escape_fn, escape) implies text@ == #[trigger] translated(
            escape,
            s@,
            s@.len() as int,
        ) by {
            assert forall|i: int| 0 <= i < s@.len() implies #[trigger] outs[i] == escape(
                s@[i],
            ) by {
                assert(gives(escape_fn, s@[i], outs[i]));
                let x = choose|x: Option<&'static str>|
                    #[trigger] call_ensures(escape_fn, (s@[i],), x) && option_text(x) == outs[i];
                assert(option_text(x) == escape(s@[i]));
            }
            lemma_assembled_is_translated(escape, s@, outs, s@.len() as int);
        }
    }
    text
}

pub proof fn lemma_assembled_same_prefix(
    s: Seq<char>,
    a: Seq<Option<Seq<char>>>,
    b: Seq<Option<Seq<char>>>,
    k: int,
)
    requires
        0 <= k <= a.len(),
        k <= b.len(),
        forall|i: int| 0 <= i < k ==> a[i] == b[i],
    ensures
        assembled(s, a, k) == assembled(s, b, k),
    decreases k,
{
    if k > 0 {
        lemma_assembled_same_prefix(s, a, b, k - 1);
    }
}

/// What says how a character is written inside a quoted name.
pub open spec fn char_escapes() -> spec_fn(char) -> Option<Seq<char>> {
    |c: char| char_escape(c)
}

/// What says how an invisible character is written.
pub open spec fn invisible_escapes() -> spec_fn(char) -> Option<Seq<char>> {
    |c: char| invisible_escape(c)
}

/// `s` as it is written inside a quoted name: with the quote, the backslash
/// and the invisible characters written out.
pub fn escape_chars(s: &str) -> (text: String)
    ensures
        text@ == translated(char_escapes(), s@, s@.len() as int),
{
    let text = translate_symbols(s, escape_char);
    assert(describes(escape_char, char_escapes()));
    text
}

/// `s` with its invisible characters written out.
pub fn escape_invisible_symbols(s: &str) -> (text: String)
    ensures
        text@ == translated(invisible_escapes(), s@, s@.len() as int),
{
    let text = translate_symbols(s, escape_invisible);
    assert(describes(escape_invisible, invisible_escapes()));
    text
}

} // verus!
