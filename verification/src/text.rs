//! Text as characters and as UTF-8 bytes: taking a piece of a line by byte
//! offsets, dropping the line terminators at its end, and writing a number in
//! decimal.

use vstd::prelude::*;
use vstd::string::*;
use vstd::utf8::*;

verus! {

/// `start..end` is a range of byte offsets into the UTF-8 encoding of `text`
/// that begins and ends between two characters.
pub open spec fn is_text_range(text: Seq<char>, start: int, end: int) -> bool {
    let bytes = encode_utf8(text);
    &&& 0 <= start <= end <= bytes.len()
    &&& is_char_boundary(bytes, start)
    &&& is_char_boundary(bytes, end)
}

/// The characters of `text` whose UTF-8 encoding occupies the bytes
/// `start..end`.
pub open spec fn text_in_range(text: Seq<char>, start: int, end: int) -> Seq<char> {
    decode_utf8(encode_utf8(text).subrange(start, end))
}

/// A position between two characters of a text is also one in every prefix
/// that reaches at least as far.
proof fn lemma_boundary_in_prefix(bytes: Seq<u8>, start: int, end: int)
    requires
        valid_utf8(bytes),
        0 <= start <= end <= bytes.len(),
        is_char_boundary(bytes, start),
        is_char_boundary(bytes, end),
    ensures
        valid_utf8(bytes.subrange(0, end)),
        is_char_boundary(bytes.subrange(0, end), start),
{
    let prefix = bytes.subrange(0, end);
    valid_utf8_split(bytes, end);
    if start == end {
        is_char_boundary_start_end_of_seq(prefix);
    } else {
        is_char_boundary_iff_not_is_continuation_byte(bytes, start);
        is_char_boundary_iff_not_is_continuation_byte(prefix, start);
    }
}

/// In a text of ASCII characters every character is one byte: each range of
/// positions is a range of byte offsets, and the text in it is the characters
/// at those positions.
pub proof fn lemma_ascii_text_in_range(text: Seq<char>, start: int, end: int)
    requires
        is_ascii_chars(text),
        0 <= start <= end <= text.len(),
    ensures
        is_text_range(text, start, end),
        text_in_range(text, start, end) == text.subrange(start, end),
{
    let bytes = encode_utf8(text);
    let piece = text.subrange(start, end);
    is_ascii_chars_encode_utf8(text);
    is_ascii_chars_encode_utf8(piece);
    encode_utf8_valid_utf8(text);
    is_char_boundary_start_end_of_seq(bytes);
    if start < bytes.len() {
        is_char_boundary_iff_not_is_continuation_byte(bytes, start);
        assert(bytes[start] == text[start] as u8);
    }
    if end < bytes.len() {
        is_char_boundary_iff_not_is_continuation_byte(bytes, end);
        assert(bytes[end] == text[end] as u8);
    }
    assert(encode_utf8(piece) =~= bytes.subrange(start, end)) by {
        assert forall|i: int| 0 <= i < piece.len() implies encode_utf8(piece)[i] == bytes.subrange(
            start,
            end,
        )[i] by {
            assert(piece[i] == text[start + i]);
        }
    }
    encode_utf8_decode_utf8(piece);
}

/// The piece of `text` between the byte offsets `start` and `end`.
pub fn slice_text<'a>(text: &'a str, start: usize, end: usize) -> (piece: &'a str)
    requires
        is_text_range(text@, start as int, end as int),
    ensures
        piece@ == text_in_range(text@, start as int, end as int),
{
    proof {
        encode_utf8_valid_utf8(text@);
        lemma_boundary_in_prefix(encode_utf8(text@), start as int, end as int);
    }
    let (head, _) = text.split_at(end);
    let (_, piece) = head.split_at(start);
    proof {
        let bytes = encode_utf8(text@);
        assert(head.spec_bytes().subrange(start as int, head.spec_bytes().len() as int)
            =~= bytes.subrange(start as int, end as int));
        encode_utf8_decode_utf8(piece@);
    }
    piece
}

/// The encoding of two texts one after the other is the encoding of the
/// first followed by that of the second.
pub proof fn lemma_encode_concat(first: Seq<char>, second: Seq<char>)
    ensures
        encode_utf8(first + second) == encode_utf8(first) + encode_utf8(second),
    decreases first.len(),
{
    let whole = first + second;
    if first.len() == 0 {
        assert(whole =~= second);
        assert(encode_utf8(first) + encode_utf8(second) =~= encode_utf8(second));
    } else {
        assert(whole.drop_first() =~= first.drop_first() + second);
        lemma_encode_concat(first.drop_first(), second);
        assert(encode_utf8(whole) =~= encode_utf8(first) + encode_utf8(second));
    }
}

/// Encoding a text with one more character at its end appends the bytes of
/// that character.
proof fn lemma_encode_push(text: Seq<char>, c: char)
    ensures
        encode_utf8(text.push(c)) == encode_utf8(text) + encode_scalar(c as u32),
{
    let last = seq![c];
    assert(text.push(c) =~= text + last);
    lemma_encode_concat(text, last);
    assert(last.drop_first() =~= Seq::<char>::empty());
    assert(encode_utf8(last.drop_first()) =~= Seq::<u8>::empty());
    assert(encode_utf8(last) =~= encode_scalar(c as u32));
}

/// The encoding of the first `n` characters of a text ends between two
/// characters of the encoding of the whole text.
proof fn lemma_prefix_ends_at_boundary(text: Seq<char>, n: int)
    requires
        0 <= n <= text.len(),
    ensures
        encode_utf8(text.take(n)).len() <= encode_utf8(text).len(),
        is_char_boundary(encode_utf8(text), encode_utf8(text.take(n)).len() as int),
    decreases n,
{
    let bytes = encode_utf8(text);
    encode_utf8_valid_utf8(text);
    if n == 0 {
        assert(text.take(0) =~= Seq::<char>::empty());
    } else {
        let rest = text.drop_first();
        encode_utf8_first_scalar(text);
        assert(pop_first_scalar(bytes) =~= encode_utf8(rest));
        assert(text.take(n).drop_first() =~= rest.take(n - 1));
        assert(text.take(n)[0] == text[0]);
        lemma_prefix_ends_at_boundary(rest, n - 1);
        encode_utf8_valid_utf8(rest);
    }
}

/// The byte offset at which the character at position `n` of a text begins:
/// the length of the encoding of the `n` characters in front of it.
pub open spec fn byte_offset(text: Seq<char>, n: int) -> int {
    encode_utf8(text.take(n)).len() as int
}

/// What a text range is in terms of characters: the byte offsets of two
/// positions of a text enclose a range of the text, and the text in that
/// range is the characters between the two positions.
pub proof fn lemma_text_between_positions(text: Seq<char>, from: int, to: int)
    requires
        0 <= from <= to <= text.len(),
    ensures
        is_text_range(text, byte_offset(text, from), byte_offset(text, to)),
        text_in_range(text, byte_offset(text, from), byte_offset(text, to)) == text.subrange(
            from,
            to,
        ),
{
    let bytes = encode_utf8(text);
    let front = text.take(from);
    let piece = text.subrange(from, to);
    let back = text.skip(to);
    lemma_prefix_ends_at_boundary(text, from);
    lemma_prefix_ends_at_boundary(text, to);
    assert(text.take(to) =~= front + piece);
    assert(text =~= text.take(to) + back);
    lemma_encode_concat(front, piece);
    lemma_encode_concat(text.take(to), back);
    assert(bytes.subrange(byte_offset(text, from), byte_offset(text, to)) =~= encode_utf8(piece));
    encode_utf8_decode_utf8(piece);
}

/// A character that ends a line.
pub open spec fn is_line_terminator(c: char) -> bool {
    c == '\n' || c == '\r'
}

/// `text` without the line terminators at its end. Nothing else is removed:
/// blanks stay, and so does every terminator that another character follows.
pub open spec fn without_line_end(text: Seq<char>) -> Seq<char>
    decreases text.len(),
{
    if text.len() > 0 && is_line_terminator(text.last()) {
        without_line_end(text.drop_last())
    } else {
        text
    }
}

/// What `without_line_end` keeps is the text up to some position; all that
/// it drops are line terminators; and what it keeps does not end in one.
pub proof fn lemma_without_line_end(text: Seq<char>)
    ensures
        without_line_end(text).len() <= text.len(),
        without_line_end(text) == text.take(without_line_end(text).len() as int),
        forall|i: int|
            without_line_end(text).len() <= i < text.len() ==> is_line_terminator(
                #[trigger] text[i],
            ),
        without_line_end(text).len() > 0 ==> !is_line_terminator(without_line_end(text).last()),
    decreases text.len(),
{
    if text.len() > 0 && is_line_terminator(text.last()) {
        let shorter = text.drop_last();
        lemma_without_line_end(shorter);
        let kept = without_line_end(shorter);
        assert(shorter.take(kept.len() as int) =~= text.take(kept.len() as int));
        assert forall|i: int| kept.len() <= i < text.len() implies is_line_terminator(
            #[trigger] text[i],
        ) by {
            if i < shorter.len() {
                assert(shorter[i] == text[i]);
            }
        }
    } else {
        assert(text.take(text.len() as int) =~= text);
    }
}

/// The encoding of a character ends in the byte 10 or 13 only if the
/// character is a line terminator, and is then that one byte.
proof fn lemma_line_terminator_bytes(c: char)
    ensures
        encode_scalar(c as u32).len() >= 1,
        is_line_terminator(c) <==> (encode_scalar(c as u32).last() == 10
            || encode_scalar(c as u32).last() == 13),
        is_line_terminator(c) ==> encode_scalar(c as u32).len() == 1,
{
    let v = c as u32;
    char_is_scalar(c);
    if has_width_1_encoding(v) {
        assert(v <= 0x7F ==> (((v & 0x7F) as u8 == 10) <==> v == 10) && (((v & 0x7F) as u8 == 13)
            <==> v == 13)) by (bit_vector);
    } else {
        assert((0x80u8 | (v & 0x3F) as u8) >= 0x80) by (bit_vector);
    }
}

/// The line without the line terminators at its end.
pub fn trim_line_end<'a>(line: &'a str) -> (trimmed: &'a str)
    ensures
        trimmed@ == without_line_end(line@),
{
    let bytes = line.as_bytes();
    // `end` bytes are kept so far; they encode the first `n` characters.
    let mut end: usize = bytes.len();
    let ghost mut n: int = line@.len() as int;
    proof {
        assert(line@.take(n) =~= line@);
        assert(encode_utf8(line@).subrange(0, end as int) =~= encode_utf8(line@));
    }
    while end > 0 && (bytes[end - 1] == 10 || bytes[end - 1] == 13)
        invariant
            bytes@ == encode_utf8(line@),
            0 <= n <= line@.len(),
            end <= bytes@.len(),
            encode_utf8(line@.take(n)) == bytes@.subrange(0, end as int),
            without_line_end(line@) == without_line_end(line@.take(n)),
        decreases end,
    {
        proof {
            // The last byte kept is 10 or 13, so the last character kept is
            // a line terminator of one byte.
            let kept = line@.take(n);
            if n == 0 {
                assert(kept =~= Seq::<char>::empty());
            }
            let c = line@[n - 1];
            assert(kept =~= line@.take(n - 1).push(c));
            lemma_encode_push(line@.take(n - 1), c);
            lemma_line_terminator_bytes(c);
            assert(encode_utf8(kept).last() == encode_scalar(c as u32).last());
            assert(kept.drop_last() =~= line@.take(n - 1));
            assert(encode_utf8(line@.take(n - 1)) =~= bytes@.subrange(0, end - 1));
            n = n - 1;
        }
        end = end - 1;
    }
    proof {
        // What is kept ends between two characters, and not in a line
        // terminator: nothing more is to be dropped.
        let kept = line@.take(n);
        lemma_prefix_ends_at_boundary(line@, n);
        if n == 0 {
            assert(kept =~= Seq::<char>::empty());
        } else {
            let c = line@[n - 1];
            assert(kept =~= line@.take(n - 1).push(c));
            lemma_encode_push(line@.take(n - 1), c);
            lemma_line_terminator_bytes(c);
            assert(encode_utf8(kept).last() == encode_scalar(c as u32).last());
        }
    }
    let (trimmed, _) = line.split_at(end);
    proof {
        encode_utf8_decode_utf8(trimmed@);
        encode_utf8_decode_utf8(line@.take(n));
    }
    trimmed
}

/// The character that stands for the digit `d`.
pub open spec fn digit_char(d: nat) -> char {
    if d == 0 {
        '0'
    } else if d == 1 {
        '1'
    } else if d == 2 {
        '2'
    } else if d == 3 {
        '3'
    } else if d == 4 {
        '4'
    } else if d == 5 {
        '5'
    } else if d == 6 {
        '6'
    } else if d == 7 {
        '7'
    } else if d == 8 {
        '8'
    } else {
        '9'
    }
}

/// The number `n` in decimal, without leading zeros.
pub open spec fn decimal(n: nat) -> Seq<char>
    decreases n,
{
    if n < 10 {
        seq![digit_char(n)]
    } else {
        decimal(n / 10).push(digit_char(n % 10))
    }
}

/// The digit `d` as a text of one character.
fn digit_text(d: usize) -> (text: &'static str)
    requires
        d < 10,
    ensures
        text@ == seq![digit_char(d as nat)],
{
    proof {
        reveal_strlit("0");
        reveal_strlit("1");
        reveal_strlit("2");
        reveal_strlit("3");
        reveal_strlit("4");
        reveal_strlit("5");
        reveal_strlit("6");
        reveal_strlit("7");
        reveal_strlit("8");
        reveal_strlit("9");
    }
    let text = if d == 0 {
        "0"
    } else if d == 1 {
        "1"
    } else if d == 2 {
        "2"
    } else if d == 3 {
        "3"
    } else if d == 4 {
        "4"
    } else if d == 5 {
        "5"
    } else if d == 6 {
        "6"
    } else if d == 7 {
        "7"
    } else if d == 8 {
        "8"
    } else {
        "9"
    };
    assert(text@ =~= seq![digit_char(d as nat)]);
    text
}

/// Appends the number `n` in decimal to `out`.
pub fn push_decimal(out: &mut String, n: usize)
    ensures
        final(out)@ == old(out)@ + decimal(n as nat),
    decreases n,
{
    if n >= 10 {
        push_decimal(out, n / 10);
    }
    out.append(digit_text(n % 10));
    assert(out@ =~= old(out)@ + decimal(n as nat));
}

} // verus!
