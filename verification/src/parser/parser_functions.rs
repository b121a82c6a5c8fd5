//! Cutting a line into its first word and the rest.

use vstd::prelude::*;
use vstd::slice::slice_subrange;
use crate::tsplib_parser::scan::{in_class, run_end, skip_run, ByteClass};

verus! {

/// The end of the word that begins at `pos`: the first place from `pos` on
/// that holds white space, or the end of the line.
pub open spec fn word_end(line: Seq<u8>, pos: int) -> int
    decreases line.len() - pos,
{
    if 0 <= pos < line.len() && !in_class(ByteClass::Space, line[pos]) {
        word_end(line, pos + 1)
    } else {
        pos
    }
}

/// The line without the white space at its start.
pub open spec fn without_leading_space(line: Seq<u8>) -> Seq<u8> {
    line.subrange(run_end(line, 0, ByteClass::Space), line.len() as int)
}

/// The first word of a line and what follows it: the word is what stands
/// between the white space at the start of the line and the next white
/// space.
pub open spec fn first_word(line: Seq<u8>) -> (Seq<u8>, Seq<u8>) {
    let rest = without_leading_space(line);
    (rest.subrange(0, word_end(rest, 0)), rest.subrange(word_end(rest, 0), rest.len() as int))
}

/// The line without the white space at its start.
pub fn skip_whitespaces(line: &[u8]) -> (rest: &[u8])
    ensures
        rest@ == without_leading_space(line@),
{
    let start = skip_run(line, 0, ByteClass::Space);
    slice_subrange(line, start, line.len())
}

/// The first word of a line, and what follows the word.
pub fn get_token(line: &[u8]) -> (parts: (&[u8], &[u8]))
    ensures
        (parts.0@, parts.1@) == first_word(line@),
{
    let rest = skip_whitespaces(line);
    let mut end: usize = 0;
    while end < rest.len() && !(rest[end] == 32 || rest[end] == 9 || rest[end] == 13 || rest[end]
        == 10)
        invariant
            end <= rest@.len(),
            word_end(rest@, 0) == word_end(rest@, end as int),
        decreases rest@.len() - end,
    {
        end += 1;
    }
    (slice_subrange(rest, 0, end), slice_subrange(rest, end, rest.len()))
}

} // verus!
