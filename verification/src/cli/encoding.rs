//! The encodings of source text, told apart by the byte order mark.
use vstd::prelude::*;

verus! {

/// An encoding of source text.
#[derive(Clone, Copy, Debug, PartialEq, Eq, Structural)]
pub enum Encoding {
    UTF8,
    UTF16LE,
    UTF16BE,
}

/// The byte order mark of an encoding.
pub open spec fn bom_of(encoding: Encoding) -> Seq<u8> {
    match encoding {
        Encoding::UTF8 => seq![0xEFu8, 0xBBu8, 0xBFu8],
        Encoding::UTF16LE => seq![0xFFu8, 0xFEu8],
        Encoding::UTF16BE => seq![0xFEu8, 0xFFu8],
    }
}

/// Whether `input` begins with `mark`.
pub open spec fn begins_with(input: Seq<u8>, mark: Seq<u8>) -> bool {
    input.len() >= mark.len() && input.take(mark.len() as int) == mark
}

/// The encoding whose byte order mark `input` begins with: the first of
/// UTF-8, UTF-16 little endian and UTF-16 big endian whose mark is there.
pub open spec fn marked_encoding(input: Seq<u8>) -> Option<Encoding> {
    if begins_with(input, bom_of(Encoding::UTF8)) {
        Some(Encoding::UTF8)
    } else if begins_with(input, bom_of(Encoding::UTF16LE)) {
        Some(Encoding::UTF16LE)
    } else if begins_with(input, bom_of(Encoding::UTF16BE)) {
        Some(Encoding::UTF16BE)
    } else {
        None
    }
}

/// Whether `input` begins with the bytes of `mark`.
fn has_mark(input: &[u8], mark: &Vec<u8>) -> (b: bool)
    ensures
        b == begins_with(input@, mark@),
{
    if input.len() < mark.len() {
        return false;
    }
    let mut i: usize = 0;
    while i < mark.len()
        invariant
            i <= mark@.len(),
            mark@.len() <= input@.len(),
            forall|k: int| 0 <= k < i ==> input@[k] == mark@[k],
        decreases mark@.len() - i,
    {
        if input[i] != mark[i] {
            assert(input@.take(mark@.len() as int)[i as int] != mark@[i as int]);
            return false;
        }
        i += 1;
    }
    assert(input@.take(mark@.len() as int) =~= mark@);
    true
}

impl Encoding {
    /// The byte order mark of the encoding.
    pub fn bom(&self) -> (mark: Vec<u8>)
        ensures
            mark@ == bom_of(*self),
    {
        let mut mark: Vec<u8> = Vec::new();
        match self {
            Encoding::UTF8 => {
                mark.push(0xEF);
                mark.push(0xBB);
                mark.push(0xBF);
            },
            Encoding::UTF16LE => {
                mark.push(0xFF);
                mark.push(0xFE);
            },
            Encoding::UTF16BE => {
                mark.push(0xFE);
                mark.push(0xFF);
            },
        }
        assert(mark@ =~= bom_of(*self));
        mark
    }

    /// The encoding whose byte order mark `input` begins with, if it begins
    /// with one.
    pub fn test_bytes(input: &[u8]) -> (found: Option<Encoding>)
        ensures
            found == marked_encoding(input@),
    {
        if has_mark(input, &Encoding::UTF8.bom()) {
            Some(Encoding::UTF8)
        } else if has_mark(input, &Encoding::UTF16LE.bom()) {
            Some(Encoding::UTF16LE)
        } else if has_mark(input, &Encoding::UTF16BE.bom()) {
            Some(Encoding::UTF16BE)
        } else {
            None
        }
    }
}

} // verus!
