//! Facts about UTF-8 text that the resolution layer stands on, and the two slicing operations it
//! needs from `str`.

use vstd::prelude::*;
use vstd::utf8::*;
use vstd::string::StringSliceAdditionalSpecFns;

verus! {

broadcast use {vstd::utf8::group_utf8_lib, vstd::string::group_string_axioms};

/// The bytes of any `str` are well-formed UTF-8.
pub proof fn lemma_valid(text: &str)
    ensures
        valid_utf8(text.spec_bytes()),
        is_char_boundary(text.spec_bytes(), 0),
        is_char_boundary(text.spec_bytes(), text.spec_bytes().len() as int),
{
    encode_utf8_valid_utf8(text@);
    is_char_boundary_start_end_of_seq(text.spec_bytes());
}

/// A text has no more characters than bytes.
pub proof fn lemma_char_count_bound(text: Seq<char>)
    ensures
        text.len() <= encode_utf8(text).len(),
    decreases text.len(),
{
    if text.len() > 0 {
        lemma_char_count_bound(text.drop_first());
        assert(encode_scalar(text[0] as u32).len() >= 1);
    }
}

/// Inside the bytes, a boundary is exactly an index whose byte does not continue a character.
pub proof fn lemma_boundary_inside(bytes: Seq<u8>, index: int)
    requires
        valid_utf8(bytes),
        0 <= index < bytes.len(),
    ensures
        is_char_boundary(bytes, index) <==> !is_continuation_byte(bytes[index]),
{
    is_char_boundary_iff_not_is_continuation_byte(bytes, index);
}

/// An ASCII byte is a character of its own: a boundary is on either side of it.
pub proof fn lemma_ascii_is_an_atom(bytes: Seq<u8>, index: int)
    requires
        valid_utf8(bytes),
        0 <= index < bytes.len(),
        bytes[index] < 0x80u8,
    ensures
        is_char_boundary(bytes, index),
        is_char_boundary(bytes, index + 1),
{
    is_char_boundary_start_end_of_seq(bytes);
    is_char_boundary_iff_not_is_continuation_byte(bytes, index);
    if index + 1 < bytes.len() {
        valid_utf8_split(bytes, index);
        let rest = bytes.subrange(index, bytes.len() as int);
        assert(valid_utf8(rest));
        assert(rest[0] == bytes[index]);
        reveal_with_fuel(valid_utf8, 2);
        assert(valid_first_scalar(rest));
        assert(length_of_first_scalar(rest) == 1);
        let after = pop_first_scalar(rest);
        assert(after =~= bytes.subrange(index + 1, bytes.len() as int));
        assert(valid_utf8(after));
        assert(valid_first_scalar(after));
        assert(after[0] == bytes[index + 1]);
        assert(!is_continuation_byte(bytes[index + 1]));
        is_char_boundary_iff_not_is_continuation_byte(bytes, index + 1);
    }
}

/// A boundary of a suffix is a boundary of the whole, shifted.
pub proof fn lemma_boundary_of_suffix(bytes: Seq<u8>, from: int, index: int)
    requires
        valid_utf8(bytes),
        0 <= from <= bytes.len(),
        is_char_boundary(bytes, from),
        0 <= index <= bytes.len() - from,
        is_char_boundary(bytes, from + index),
    ensures
        valid_utf8(bytes.subrange(from, bytes.len() as int)),
        is_char_boundary(bytes.subrange(from, bytes.len() as int), index),
{
    let rest = bytes.subrange(from, bytes.len() as int);
    valid_utf8_split(bytes, from);
    is_char_boundary_start_end_of_seq(rest);
    if index < rest.len() {
        is_char_boundary_iff_not_is_continuation_byte(bytes, from + index);
        is_char_boundary_iff_not_is_continuation_byte(rest, index);
    }
}

/// The text between two boundaries.
pub fn slice(text: &str, start: usize, end: usize) -> (piece: &str)
    requires
        start <= end <= text.spec_bytes().len(),
        is_char_boundary(text.spec_bytes(), start as int),
        is_char_boundary(text.spec_bytes(), end as int),
    ensures
        piece.spec_bytes() == text.spec_bytes().subrange(start as int, end as int),
{
    proof {
        lemma_valid(text);
        lemma_boundary_of_suffix(text.spec_bytes(), start as int, (end - start) as int);
    }
    let (_, tail) = text.split_at(start);
    let (piece, _) = tail.split_at(end - start);
    proof {
        assert(piece.spec_bytes() =~= text.spec_bytes().subrange(start as int, end as int));
    }
    piece
}

/// The text from a boundary to the end.
pub fn suffix(text: &str, start: usize) -> (piece: &str)
    requires
        start <= text.spec_bytes().len(),
        is_char_boundary(text.spec_bytes(), start as int),
    ensures
        piece.spec_bytes() == text.spec_bytes().subrange(
            start as int,
            text.spec_bytes().len() as int,
        ),
{
    let (_, tail) = text.split_at(start);
    tail
}

/// Appends one character to `out`.
///
/// `String::push`: the string afterwards is the string before with `character` at its end.
#[verifier::external_body]
pub(crate) fn push_char(out: &mut String, character: char)
    ensures
        final(out)@ == old(out)@.push(character),
{
    out.push(character);
}

/// Appends the characters of `piece` one by one.
pub(crate) fn push_chars(out: &mut String, piece: &str)
    ensures
        final(out)@ == old(out)@ + piece@,
{
    let ghost start = out@;
    for character in it: piece.chars()
        invariant
            it.seq() == piece@,
            out@ == start + it.seq().take(it.index() as int),
    {
        proof {
            assert(it.seq().take(it.index() + 1) == it.seq().take(it.index() as int).push(
                character,
            ));
        }
        push_char(out, character);
    }
    proof {
        assert(piece@.take(piece@.len() as int) == piece@);
    }
}

} // verus!

verus! {

/// A boundary of the whole that falls inside a stretch between two boundaries is a boundary of
/// that stretch, shifted.
pub proof fn lemma_boundary_of_subrange(bytes: Seq<u8>, from: int, to: int, index: int)
    requires
        valid_utf8(bytes),
        0 <= from <= to <= bytes.len(),
        is_char_boundary(bytes, from),
        is_char_boundary(bytes, to),
        from <= index <= to,
        is_char_boundary(bytes, index),
    ensures
        valid_utf8(bytes.subrange(from, to)),
        is_char_boundary(bytes.subrange(from, to), index - from),
{
    let rest = bytes.subrange(from, bytes.len() as int);
    lemma_boundary_of_suffix(bytes, from, to - from);
    valid_utf8_split(rest, to - from);
    assert(rest.subrange(0, to - from) =~= bytes.subrange(from, to));
    let piece = bytes.subrange(from, to);
    is_char_boundary_start_end_of_seq(piece);
    if index < to {
        is_char_boundary_iff_not_is_continuation_byte(bytes, index);
        is_char_boundary_iff_not_is_continuation_byte(piece, index - from);
    }
}

} // verus!

verus! {

/// The character for one decimal digit.
pub open spec fn digit(value: nat) -> char {
    if value == 0 {
        '0'
    } else if value == 1 {
        '1'
    } else if value == 2 {
        '2'
    } else if value == 3 {
        '3'
    } else if value == 4 {
        '4'
    } else if value == 5 {
        '5'
    } else if value == 6 {
        '6'
    } else if value == 7 {
        '7'
    } else if value == 8 {
        '8'
    } else {
        '9'
    }
}

/// `value` written in decimal, with no leading zeros.
pub open spec fn decimal(value: nat) -> Seq<char>
    decreases value,
{
    if value < 10 {
        seq![digit(value)]
    } else {
        decimal(value / 10).push(digit(value % 10))
    }
}

/// Appends `value` in decimal.
pub(crate) fn push_decimal(out: &mut String, value: u64)
    ensures
        final(out)@ == old(out)@ + decimal(value as nat),
    decreases value,
{
    if value >= 10 {
        push_decimal(out, value / 10);
    }
    let last = value % 10;
    let character = if last == 0 {
        '0'
    } else if last == 1 {
        '1'
    } else if last == 2 {
        '2'
    } else if last == 3 {
        '3'
    } else if last == 4 {
        '4'
    } else if last == 5 {
        '5'
    } else if last == 6 {
        '6'
    } else if last == 7 {
        '7'
    } else if last == 8 {
        '8'
    } else {
        '9'
    };
    push_char(out, character);
    proof {
        if value < 10 {
            assert(old(out)@.push(character) =~= old(out)@ + decimal(value as nat));
        } else {
            assert(old(out)@ + decimal(value as nat) =~= (old(out)@ + decimal(
                (value / 10) as nat,
            )).push(character));
        }
    }
}

} // verus!
