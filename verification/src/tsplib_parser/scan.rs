//! Reading the bytes of an instance: runs of blanks, of white space, of
//! digits and of the text of a line, and words at a place.

use vstd::prelude::*;
use vstd::slice::slice_subrange;

verus! {

/// A class of bytes.
#[derive(Clone, Copy, Debug, PartialEq, Eq, Structural)]
pub enum ByteClass {
    /// A space or a tab.
    Blank,
    /// A space, a tab, a carriage return or a line feed.
    Space,
    /// A decimal digit.
    Digit,
    /// Anything but a carriage return and a line feed.
    LineText,
}

/// The byte is a space or a tab.
pub open spec fn is_blank(b: u8) -> bool {
    b == 32 || b == 9
}

/// The byte is a carriage return or a line feed.
pub open spec fn is_line_break(b: u8) -> bool {
    b == 13 || b == 10
}

/// The byte is a decimal digit.
pub open spec fn is_digit(b: u8) -> bool {
    48 <= b <= 57
}

/// The byte belongs to the class.
pub open spec fn in_class(class: ByteClass, b: u8) -> bool {
    match class {
        ByteClass::Blank => is_blank(b),
        ByteClass::Space => is_blank(b) || is_line_break(b),
        ByteClass::Digit => is_digit(b),
        ByteClass::LineText => !is_line_break(b),
    }
}

/// The end of the run of bytes of the class that begins at `pos`: the first
/// place from `pos` on that holds a byte of another class, or the end of the
/// text.
pub open spec fn run_end(s: Seq<u8>, pos: int, class: ByteClass) -> int
    decreases s.len() - pos,
{
    if 0 <= pos < s.len() && in_class(class, s[pos]) {
        run_end(s, pos + 1, class)
    } else {
        pos
    }
}

/// The word stands at `pos`.
pub open spec fn has_word_at(s: Seq<u8>, pos: int, word: Seq<u8>) -> bool {
    &&& 0 <= pos
    &&& pos + word.len() <= s.len()
    &&& s.subrange(pos, pos + word.len()) == word
}

/// The run ends within the text, holds bytes of the class only, and cannot
/// be made longer.
pub proof fn lemma_run_end(s: Seq<u8>, pos: int, class: ByteClass)
    requires
        0 <= pos <= s.len(),
    ensures
        pos <= run_end(s, pos, class) <= s.len(),
        forall|k: int| pos <= k < run_end(s, pos, class) ==> in_class(class, #[trigger] s[k]),
        run_end(s, pos, class) < s.len() ==> !in_class(class, s[run_end(s, pos, class)]),
    decreases s.len() - pos,
{
    if pos < s.len() && in_class(class, s[pos]) {
        lemma_run_end(s, pos + 1, class);
    }
}

/// A run that is entered in its middle ends where the whole run ends.
pub proof fn lemma_run_end_from_inside(s: Seq<u8>, pos: int, mid: int, class: ByteClass)
    requires
        0 <= pos <= mid <= s.len(),
        forall|k: int| pos <= k < mid ==> in_class(class, #[trigger] s[k]),
    ensures
        run_end(s, pos, class) == run_end(s, mid, class),
    decreases mid - pos,
{
    if pos < mid {
        assert(in_class(class, s[pos]));
        lemma_run_end_from_inside(s, pos + 1, mid, class);
    }
}

/// Whether the byte belongs to the class.
pub fn byte_in_class(class: ByteClass, b: u8) -> (r: bool)
    ensures
        r == in_class(class, b),
{
    match class {
        ByteClass::Blank => b == 32 || b == 9,
        ByteClass::Space => b == 32 || b == 9 || b == 13 || b == 10,
        ByteClass::Digit => 48 <= b && b <= 57,
        ByteClass::LineText => !(b == 13 || b == 10),
    }
}

/// The end of the run of bytes of the class that begins at `pos`.
pub fn skip_run(bytes: &[u8], pos: usize, class: ByteClass) -> (end: usize)
    requires
        pos <= bytes@.len(),
    ensures
        end == run_end(bytes@, pos as int, class),
        pos <= end <= bytes@.len(),
{
    let mut end = pos;
    while end < bytes.len() && byte_in_class(class, bytes[end])
        invariant
            pos <= end <= bytes@.len(),
            forall|k: int| pos <= k < end ==> in_class(class, #[trigger] bytes@[k]),
        decreases bytes@.len() - end,
    {
        end += 1;
    }
    proof {
        lemma_run_end_from_inside(bytes@, pos as int, end as int, class);
    }
    end
}

/// Whether the two texts are the same.
pub fn bytes_equal(a: &[u8], b: &[u8]) -> (same: bool)
    ensures
        same == (a@ == b@),
{
    if a.len() != b.len() {
        return false;
    }
    let mut k: usize = 0;
    while k < a.len()
        invariant
            k <= a.len(),
            a@.len() == b@.len(),
            forall|q: int| 0 <= q < k ==> a@[q] == b@[q],
        decreases a.len() - k,
    {
        if a[k] != b[k] {
            return false;
        }
        k += 1;
    }
    assert(a@ =~= b@);
    true
}

/// Whether the word stands at `pos`.
pub fn word_at(bytes: &[u8], pos: usize, word: &[u8]) -> (found: bool)
    requires
        pos <= bytes@.len(),
    ensures
        found == has_word_at(bytes@, pos as int, word@),
{
    if word.len() > bytes.len() - pos {
        return false;
    }
    bytes_equal(slice_subrange(bytes, pos, pos + word.len()), word)
}

} // verus!
