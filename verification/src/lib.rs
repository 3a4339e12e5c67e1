//! Small, independently usable building blocks: value-type helpers, string
//! utilities, grouping of key/value pairs and an in-memory product catalog.
//! Every executable function carries a contract that Verus proves.

use vstd::prelude::*;
use vstd::utf8::{encode_utf8, is_ascii_chars, is_char_boundary};

pub mod borrow;
pub mod enums;
pub mod hashmaps;
pub mod mem_mgmt;
pub mod mutability;
pub mod option_enum;
pub mod ownership;
pub mod structs;
pub mod text;
pub mod vectors;

verus! {

/// The number of characters before the first space of `sentence`; zero where
/// it has no space.
pub open spec fn first_space(sentence: Seq<char>) -> int {
    match sentence.index_of_first(' ') {
        Some(at) => at,
        None => 0,
    }
}

/// The number of characters before the first space of `sentence`; zero where
/// it has no space.
pub fn first_space_index(sentence: &str) -> (at: usize)
    ensures
        at == first_space(sentence@),
        at <= sentence@.len(),
{
    proof {
        sentence@.index_of_first_ensures(' ');
    }
    match text::find_char(sentence, ' ') {
        Some(at) => at,
        None => 0,
    }
}

/// In text of ASCII characters every position is the start of a character,
/// so that such a sentence can always be cut at its first space.
pub proof fn lemma_ascii_cut_is_char_boundary(sentence: Seq<char>)
    requires
        is_ascii_chars(sentence),
    ensures
        is_char_boundary(encode_utf8(sentence), first_space(sentence)),
{
    let bytes = encode_utf8(sentence);
    let at = first_space(sentence);
    sentence.index_of_first_ensures(' ');
    vstd::utf8::is_ascii_chars_encode_utf8(sentence);
    vstd::utf8::encode_utf8_valid_utf8(sentence);
    if at == 0 {
    } else {
        let byte = bytes[at];
        assert(byte == sentence[at] as u8);
        assert(byte < 128);
        assert(!vstd::utf8::is_continuation_byte(byte)) by (bit_vector)
            requires
                byte < 128,
        ;
        vstd::utf8::is_char_boundary_iff_not_is_continuation_byte(bytes, at);
    }
}

/// The first word of `sentence`.
///
/// The sentence is cut after as many bytes as it has characters before its
/// first space. For a sentence of ASCII characters that is the text before
/// the first space. A sentence without a space gives the empty string. The
/// caller guarantees that the cut does not fall inside a character.
pub fn first_word(sentence: String) -> (word: String)
    requires
        is_char_boundary(encode_utf8(sentence@), first_space(sentence@)),
    ensures
        encode_utf8(word@) == encode_utf8(sentence@).subrange(0, first_space(sentence@)),
        is_ascii_chars(sentence@) ==> word@ == sentence@.take(first_space(sentence@)),
{
    let end_index = first_space_index(sentence.as_str());
    let (head, _) = sentence.as_str().split_at(end_index);
    let word = String::from_str(head);
    proof {
        if is_ascii_chars(sentence@) {
            let cut = sentence@.take(end_index as int);
            vstd::utf8::is_ascii_chars_encode_utf8(sentence@);
            vstd::utf8::is_ascii_chars_encode_utf8(cut);
            assert(encode_utf8(cut) =~= encode_utf8(sentence@).subrange(0, end_index as int));
            vstd::utf8::encode_utf8_decode_utf8(cut);
            vstd::utf8::encode_utf8_decode_utf8(word@);
        }
    }
    word
}

/// The characters of `word` in reverse order.
pub fn reverse_string(word: String) -> (reversed: String)
    ensures
        reversed@ == word@.reverse(),
{
    let mut chars: Vec<char> = Vec::new();
    for c in it: word.as_str().chars()
        invariant
            it.seq() == word@,
            chars@ == word@.take(it.index()),
    {
        proof {
            assert(word@.take(it.index() + 1) =~= word@.take(it.index()).push(c));
        }
        chars.push(c);
    }
    proof {
        assert(word@.take(word@.len() as int) =~= word@);
    }
    let mut reversed = String::new();
    let mut left: usize = chars.len();
    while left > 0
        invariant
            left <= chars.len(),
            chars@ == word@,
            reversed@ == word@.reverse().take(chars.len() - left),
        decreases left,
    {
        left -= 1;
        let ghost before = reversed@;
        reversed.push(chars[left]);
        proof {
            let turned = word@.reverse();
            assert(turned[chars.len() - left - 1] == word@[left as int]);
            assert(turned.take(chars.len() - left) =~= before.push(chars@[left as int]));
        }
    }
    proof {
        assert(word@.reverse().take(chars.len() as int) =~= word@.reverse());
    }
    reversed
}

} // verus!
