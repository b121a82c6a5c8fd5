//! The lines of the header: a key, a colon, and the value up to the end of
//! the line.

use vstd::prelude::*;
use vstd::string::StringSliceAdditionalSpecFns;
use vstd::utf8::{
    encode_utf8_valid_utf8, is_char_boundary, is_char_boundary_iff_not_is_continuation_byte,
    is_char_boundary_start_end_of_seq, pop_first_scalar, valid_utf8, valid_utf8_split,
};
use crate::tsplib_parser::keywords::{HeaderKey, ParseError, KEY_COUNT};
use crate::tsplib_parser::scan::{
    has_word_at, in_class, lemma_run_end, run_end, skip_run, word_at, ByteClass,
};

verus! {

/// The end of the text from `from` to `to` without the spaces at its end.
pub open spec fn trimmed_end(s: Seq<u8>, from: int, to: int) -> int
    decreases to - from,
{
    if from < to && 0 < to <= s.len() && s[to - 1] == 32 {
        trimmed_end(s, from, to - 1)
    } else {
        to
    }
}

/// The line of a key that begins behind the white space at `pos`: the value
/// from behind the colon and its blanks up to the end of the line, without
/// the spaces at its end, and the place where the line ends. There is none
/// where the key does not stand there with a colon behind it.
pub open spec fn key_value_at(s: Seq<u8>, pos: int, key: Seq<u8>) -> Option<(Seq<u8>, int)> {
    let p = run_end(s, pos, ByteClass::Space);
    let colon = run_end(s, p + key.len(), ByteClass::Blank);
    let from = run_end(s, colon + 1, ByteClass::Blank);
    let to = run_end(s, from, ByteClass::LineText);
    if has_word_at(s, p, key) && 0 <= colon < s.len() && s[colon] == 58 {
        Some((s.subrange(from, trimmed_end(s, from, to)), to))
    } else {
        None
    }
}

/// The first of the keys from place `k` on whose line begins behind the
/// white space at `pos`: the place of the key among the keys, the value,
/// and the place where the line ends.
pub open spec fn first_key_at(s: Seq<u8>, pos: int, k: int) -> Option<(int, Seq<u8>, int)>
    decreases KEY_COUNT - k,
{
    if k < 0 || k >= KEY_COUNT {
        None
    } else {
        match key_value_at(s, pos, HeaderKey::at(k).text()) {
            Some((value, end)) => Some((k, value, end)),
            None => first_key_at(s, pos, k + 1),
        }
    }
}

/// What a header was found to hold: the value of each key, by the place of
/// the key, and the comments.
pub struct HeaderModel {
    /// The value of each key that the header holds.
    pub values: Seq<Option<Seq<u8>>>,
    /// The comments, in the order of the text.
    pub comments: Seq<Seq<u8>>,
}

/// A header that holds nothing.
pub open spec fn empty_header() -> HeaderModel {
    HeaderModel { values: Seq::new(KEY_COUNT as nat, |k: int| None), comments: Seq::empty() }
}

/// The lines of the header from `pos` on, added to what was found before,
/// and the place where the header ends: at the first place where no line of
/// a key begins. A key other than the comment must not come twice.
pub open spec fn header_from(s: Seq<u8>, pos: int, found: HeaderModel) -> Result<
    (HeaderModel, int),
    ParseError,
>
    decreases s.len() - pos,
{
    match first_key_at(s, pos, 0) {
        None => Ok((found, pos)),
        Some((k, value, end)) => if !(0 <= pos < end <= s.len()) {
            Ok((found, pos))
        } else if HeaderKey::at(k) == HeaderKey::Comment {
            header_from(
                s,
                end,
                HeaderModel { values: found.values, comments: found.comments.push(value) },
            )
        } else if found.values[k] is Some {
            Err(ParseError::DuplicateKey(HeaderKey::at(k)))
        } else {
            header_from(
                s,
                end,
                HeaderModel {
                    values: found.values.update(k, Some(value)),
                    comments: found.comments,
                },
            )
        },
    }
}

/// A piece of a text in UTF-8 begins and ends between characters, and is a
/// text in UTF-8 itself, where it is empty, or where it begins at the start
/// or behind a byte of ASCII, and ends at the end or before a byte of ASCII.
pub proof fn lemma_piece_is_text(s: Seq<u8>, from: int, to: int)
    requires
        valid_utf8(s),
        0 <= from <= to <= s.len(),
        from == to || from == 0 || s[from - 1] < 128,
        to == s.len() || s[to] < 128,
    ensures
        valid_utf8(s.subrange(from, to)),
        is_char_boundary(s, to),
        valid_utf8(s.subrange(0, to)),
        is_char_boundary(s.subrange(0, to), from),
{
    // the end of the piece
    if to == s.len() {
        is_char_boundary_start_end_of_seq(s);
    } else {
        is_char_boundary_iff_not_is_continuation_byte(s, to);
    }
    valid_utf8_split(s, to);
    let head = s.subrange(0, to);
    // the start of the piece
    if from == to {
        is_char_boundary_start_end_of_seq(head);
        assert(s.subrange(from, to).len() == 0);
    } else {
        let rest = head.subrange(from, to);
        if from == 0 {
            assert(rest =~= head);
        } else {
            // the byte before the piece is a character of its own
            assert(head[from - 1] == s[from - 1]);
            is_char_boundary_iff_not_is_continuation_byte(head, from - 1);
            valid_utf8_split(head, from - 1);
            let tail = head.subrange(from - 1, to);
            assert(tail[0] == head[from - 1]);
            assert(pop_first_scalar(tail) =~= rest);
        }
        // the piece is not empty, and begins with the first byte of a character
        assert(valid_utf8(rest));
        assert(rest[0] == head[from]);
        is_char_boundary_iff_not_is_continuation_byte(head, from);
        assert(rest =~= s.subrange(from, to));
    }
}

/// The end of a trimmed text lies within the text, and where it is not the
/// end of the text that was trimmed, a space stands there.
pub proof fn lemma_trimmed_end(s: Seq<u8>, from: int, to: int)
    requires
        0 <= from <= to <= s.len(),
    ensures
        from <= trimmed_end(s, from, to) <= to,
        trimmed_end(s, from, to) < to ==> s[trimmed_end(s, from, to)] == 32,
    decreases to - from,
{
    if from < to && s[to - 1] == 32 {
        lemma_trimmed_end(s, from, to - 1);
    }
}

/// The piece of the text from `from` to `to`.
pub fn text_piece<'a>(text: &'a str, from: usize, to: usize) -> (piece: &'a str)
    requires
        from <= to <= text.spec_bytes().len(),
        from == to || from == 0 || text.spec_bytes()[from - 1] < 128,
        to == text.spec_bytes().len() || text.spec_bytes()[to as int] < 128,
    ensures
        piece.spec_bytes() == text.spec_bytes().subrange(from as int, to as int),
{
    proof {
        encode_utf8_valid_utf8(text@);
        lemma_piece_is_text(text.spec_bytes(), from as int, to as int);
    }
    let (head, _) = text.split_at(to);
    let (_, piece) = head.split_at(from);
    proof {
        assert(head.spec_bytes().subrange(from as int, to as int) =~= text.spec_bytes().subrange(
            from as int,
            to as int,
        ));
    }
    piece
}

/// Reads the line of a key that begins behind the white space at `pos`.
pub fn parse_key_value<'a>(text: &'a str, pos: usize, key: &str) -> (read: Option<
    (&'a str, usize),
>)
    requires
        pos <= text.spec_bytes().len(),
    ensures
        match read {
            Some((value, end)) => key_value_at(text.spec_bytes(), pos as int, key.spec_bytes())
                == Some((value.spec_bytes(), end as int)) && pos < end <= text.spec_bytes().len(),
            None => key_value_at(text.spec_bytes(), pos as int, key.spec_bytes()) is None,
        },
{
    let bytes = text.as_bytes();
    let n = bytes.len();
    let p = skip_run(bytes, pos, ByteClass::Space);
    let word = key.as_bytes();
    if !word_at(bytes, p, word) {
        return None;
    }
    assert(p + word@.len() <= n);
    let colon = skip_run(bytes, p + word.len(), ByteClass::Blank);
    if !(colon < n && bytes[colon] == 58) {
        return None;
    }
    let from = skip_run(bytes, colon + 1, ByteClass::Blank);
    let to = skip_run(bytes, from, ByteClass::LineText);
    let mut end = to;
    while from < end && bytes[end - 1] == 32
        invariant
            from <= end <= to <= bytes@.len(),
            trimmed_end(bytes@, from as int, end as int) == trimmed_end(
                bytes@,
                from as int,
                to as int,
            ),
        decreases end - from,
    {
        end -= 1;
    }
    proof {
        lemma_run_end(bytes@, colon + 1, ByteClass::Blank);
        lemma_run_end(bytes@, from as int, ByteClass::LineText);
        lemma_trimmed_end(bytes@, from as int, to as int);
        if from > colon + 1 {
            assert(in_class(ByteClass::Blank, bytes@[from - 1]));
        }
    }
    Some((text_piece(text, from, end), to))
}

/// What a header was found to hold.
pub struct Header<'a> {
    /// The value of each key that the header holds, by the place of the key.
    pub values: Vec<Option<&'a str>>,
    /// The comments, in the order of the text.
    pub comments: Vec<&'a str>,
}

impl<'a> View for Header<'a> {
    type V = HeaderModel;

    open spec fn view(&self) -> HeaderModel {
        HeaderModel {
            values: Seq::new(
                self.values@.len(),
                |k: int|
                    match self.values@[k] {
                        Some(value) => Some(value.spec_bytes()),
                        None => None,
                    },
            ),
            comments: Seq::new(self.comments@.len(), |k: int| self.comments@[k].spec_bytes()),
        }
    }
}

/// Reads the first of the keys whose line begins behind the white space at
/// `pos`.
pub fn read_key_line<'a>(text: &'a str, pos: usize) -> (read: Option<(usize, &'a str, usize)>)
    requires
        pos <= text.spec_bytes().len(),
    ensures
        match read {
            Some((k, value, end)) => first_key_at(text.spec_bytes(), pos as int, 0) == Some(
                (k as int, value.spec_bytes(), end as int),
            ) && k < KEY_COUNT && pos < end <= text.spec_bytes().len(),
            None => first_key_at(text.spec_bytes(), pos as int, 0) is None,
        },
{
    let mut k: usize = 0;
    while k < KEY_COUNT
        invariant
            k <= KEY_COUNT,
            pos <= text.spec_bytes().len(),
            first_key_at(text.spec_bytes(), pos as int, 0) == first_key_at(
                text.spec_bytes(),
                pos as int,
                k as int,
            ),
        decreases KEY_COUNT - k,
    {
        let key = HeaderKey::from_position(k);
        match parse_key_value(text, pos, key.word()) {
            Some((value, end)) => {
                return Some((k, value, end));
            },
            None => {},
        }
        k += 1;
    }
    None
}

/// Reads the header that begins at `pos`: what it holds, and the place
/// where it ends.
pub fn read_header<'a>(text: &'a str, pos: usize) -> (read: Result<(Header<'a>, usize), ParseError>)
    requires
        pos <= text.spec_bytes().len(),
    ensures
        match read {
            Ok((header, end)) => header_from(text.spec_bytes(), pos as int, empty_header()) == Ok::<
                (HeaderModel, int),
                ParseError,
            >((header@, end as int)) && pos <= end <= text.spec_bytes().len()
                && header.values@.len() == KEY_COUNT,
            Err(e) => header_from(text.spec_bytes(), pos as int, empty_header()) == Err::<
                (HeaderModel, int),
                ParseError,
            >(e),
        },
{
    let ghost s = text.spec_bytes();
    let mut values: Vec<Option<&'a str>> = Vec::new();
    let mut k: usize = 0;
    while k < KEY_COUNT
        invariant
            k <= KEY_COUNT,
            values@.len() == k,
            forall|q: int| 0 <= q < k ==> #[trigger] values@[q] is None,
        decreases KEY_COUNT - k,
    {
        values.push(None);
        k += 1;
    }
    let mut header = Header { values, comments: Vec::new() };
    proof {
        assert(header@.values =~= empty_header().values);
        assert(header@.comments =~= empty_header().comments);
    }
    let mut end: usize = pos;
    loop
        invariant_except_break
            header_from(s, end as int, header@) == header_from(s, pos as int, empty_header()),
        invariant
            s == text.spec_bytes(),
            pos <= end <= s.len(),
            header.values@.len() == KEY_COUNT,
        ensures
            pos <= end <= s.len(),
            header.values@.len() == KEY_COUNT,
            header_from(s, pos as int, empty_header()) == Ok::<(HeaderModel, int), ParseError>(
                (header@, end as int),
            ),
        decreases s.len() - end,
    {
        match read_key_line(text, end) {
            None => {
                break;
            },
            Some((k, value, next)) => {
                let ghost before = header@;
                if k == 2 {
                    header.comments.push(value);
                    proof {
                        assert(header@.values =~= before.values);
                        assert(header@.comments =~= before.comments.push(value.spec_bytes()));
                    }
                } else {
                    if header.values[k].is_some() {
                        proof {
                            assert(before.values[k as int] is Some);
                        }
                        return Err(ParseError::DuplicateKey(HeaderKey::from_position(k)));
                    }
                    header.values[k] = Some(value);
                    proof {
                        assert(before.values[k as int] is None);
                        assert(header@.values =~= before.values.update(
                            k as int,
                            Some(value.spec_bytes()),
                        ));
                        assert(header@.comments =~= before.comments);
                    }
                }
                end = next;
            },
        }
    }
    Ok((header, end))
}

} // verus!
