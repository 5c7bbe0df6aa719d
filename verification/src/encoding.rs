//! How many bytes a text may take in a URL.

use crate::text::{chars_of, last_segment, trimmed, trimmed_end, trimmed_start, white_space};
use vstd::prelude::*;

verus! {

/// Whether `c` stands in a URL as it is, wherever it stands: ASCII letters and digits, `-`, `.`
/// and `_`.
pub open spec fn unreserved(c: char) -> bool {
    ||| 'a' <= c <= 'z'
    ||| 'A' <= c <= 'Z'
    ||| '0' <= c <= '9'
    ||| c == '-' || c == '.' || c == '_'
}

/// How many bytes `c` takes at most: one where it stands as it is, else three for each byte of
/// its UTF-8 form.
pub open spec fn encoded_char(c: char) -> nat {
    let code = c as int;
    if unreserved(c) {
        1
    } else if code < 0x80 {
        3
    } else if code < 0x800 {
        6
    } else if code < 0x10000 {
        9
    } else {
        12
    }
}

/// How many bytes `text` takes at most.
pub open spec fn encoded_size(text: Seq<char>) -> nat
    decreases text.len(),
{
    if text.len() == 0 {
        0
    } else {
        encoded_size(text.drop_last()) + encoded_char(text.last())
    }
}

/// The size of two texts in a row is the sum of their sizes.
pub proof fn lemma_encoded_size_add(a: Seq<char>, b: Seq<char>)
    ensures
        encoded_size(a + b) == encoded_size(a) + encoded_size(b),
    decreases b.len(),
{
    if b.len() == 0 {
        assert(a + b =~= a);
    } else {
        lemma_encoded_size_add(a, b.drop_last());
        assert((a + b).drop_last() =~= a + b.drop_last());
    }
}

/// No character takes more than twelve bytes.
pub proof fn lemma_encoded_size_bound(text: Seq<char>)
    ensures
        encoded_size(text) <= 12 * text.len(),
    decreases text.len(),
{
    if text.len() > 0 {
        lemma_encoded_size_bound(text.drop_last());
    }
}

/// Trimming makes no text larger.
pub proof fn lemma_trimmed_encoded_size(text: Seq<char>)
    ensures
        encoded_size(trimmed(text)) <= encoded_size(text),
{
    lemma_trimmed_start_encoded_size(text);
    lemma_trimmed_end_encoded_size(trimmed_start(text));
}

proof fn lemma_trimmed_start_encoded_size(text: Seq<char>)
    ensures
        encoded_size(trimmed_start(text)) <= encoded_size(text),
    decreases text.len(),
{
    if text.len() > 0 && white_space(text[0]) {
        lemma_trimmed_start_encoded_size(text.drop_first());
        lemma_encoded_size_add(seq![text[0]], text.drop_first());
        assert(seq![text[0]] + text.drop_first() =~= text);
    }
}

proof fn lemma_trimmed_end_encoded_size(text: Seq<char>)
    ensures
        encoded_size(trimmed_end(text)) <= encoded_size(text),
    decreases text.len(),
{
    if text.len() > 0 && white_space(text.last()) {
        lemma_trimmed_end_encoded_size(text.drop_last());
    }
}

/// A text is no smaller than its last segment.
pub proof fn lemma_last_segment_encoded_size(text: Seq<char>)
    ensures
        encoded_size(last_segment(text)) <= encoded_size(text),
    decreases text.len(),
{
    if text.len() > 0 && text.last() != '/' {
        lemma_last_segment_encoded_size(text.drop_last());
        let head = last_segment(text.drop_last());
        assert(head.push(text.last()).drop_last() =~= head);
    }
}

/// How many bytes `c` takes at most.
fn size_of_char(c: char) -> (res: u64)
    ensures
        res == encoded_char(c),
{
    let code: u32 = c as u32;
    if ('a' <= c && c <= 'z') || ('A' <= c && c <= 'Z') || ('0' <= c && c <= '9') || c == '-' || c
        == '.' || c == '_' {
        1
    } else if code < 0x80 {
        3
    } else if code < 0x800 {
        6
    } else if code < 0x10000 {
        9
    } else {
        12
    }
}

/// How many bytes `text` takes at most, if it is no more than `limit`.
pub fn size_up_to(text: &str, limit: u32) -> (res: Option<u32>)
    ensures
        res is Some <==> encoded_size(text@) <= limit,
        res matches Some(size) ==> size == encoded_size(text@),
{
    let chars: Vec<char> = chars_of(text);
    let mut size: u64 = 0;
    let mut i: usize = 0;
    while i < chars.len()
        invariant
            i <= chars@.len(),
            chars@ == text@,
            size == encoded_size(text@.take(i as int)),
            size <= limit,
        decreases chars@.len() - i,
    {
        size = size + size_of_char(chars[i]);
        proof {
            assert(text@.take(i + 1).drop_last() =~= text@.take(i as int));
            lemma_encoded_size_add(text@.take(i + 1), text@.skip(i + 1));
            assert(text@.take(i + 1) + text@.skip(i + 1) =~= text@);
        }
        if size > limit as u64 {
            return None;
        }
        i = i + 1;
    }
    assert(text@.take(i as int) =~= text@);
    Some(size as u32)
}

/// A text takes one byte for each ASCII letter or digit, `-`, `.` and `_`, and three for each byte of
/// the UTF-8 form of any other character.
pub proof fn characters_are_counted_as_they_are_encoded(text: Seq<char>, c: char)
    ensures
        encoded_size(Seq::empty()) == 0,
        encoded_size(text.push(c)) == encoded_size(text) + if 'a' <= c <= 'z' || 'A' <= c <= 'Z'
            || '0' <= c <= '9' || c == '-' || c == '.' || c == '_' {
            1int
        } else if (c as int) < 0x80 {
            3int
        } else if (c as int) < 0x800 {
            6int
        } else if (c as int) < 0x10000 {
            9int
        } else {
            12int
        },
{
    assert(text.push(c).drop_last() =~= text);
}

} // verus!
