//! The operator's answer to a yes-or-no question.

use crate::text::{chars_of, views, words, words_of};
use vstd::prelude::*;

verus! {

/// Whether `c` is the small letter `small` or its capital.
pub open spec fn same_letter(c: char, small: char) -> bool {
    c == small || (0x41 <= c as u32 <= 0x5a && c as u32 + 0x20 == small as u32)
}

/// Whether `word` is `small`, a word of small letters, in any mix of small
/// and capital letters.
pub open spec fn is_word(word: Seq<char>, small: Seq<char>) -> bool {
    &&& word.len() == small.len()
    &&& forall|i: int| 0 <= i < word.len() ==> same_letter(#[trigger] word[i], small[i])
}

/// Whether `response` says yes: it holds one word, with any whitespace
/// around it, and the word is `y` or `yes` in any mix of small and capital
/// letters. Any other response says no.
pub open spec fn affirmative(response: Seq<char>) -> bool {
    let w = words(response);
    w.len() == 1 && (is_word(w[0], "y"@) || is_word(w[0], "yes"@))
}

/// Whether `word` is `small` in any mix of small and capital letters.
pub fn word_is(word: &[char], small: &str) -> (b: bool)
    ensures
        b == is_word(word@, small@),
{
    let mut i: usize = 0;
    for s in it: small.chars()
        invariant
            it.seq() == small@,
            i == it.index(),
            i <= word.len(),
            forall|j: int| 0 <= j < i ==> same_letter(#[trigger] word@[j], small@[j]),
    {
        if i >= word.len() {
            return false;
        }
        let c: char = word[i];
        let n: u32 = c as u32;
        if !(c == s || (0x41 <= n && n <= 0x5a && n + 0x20 == s as u32)) {
            assert(!same_letter(word@[i as int], small@[i as int]));
            return false;
        }
        i += 1;
    }
    i == word.len()
}

/// Whether the operator's response says yes.
pub fn is_affirmative(response: &str) -> (b: bool)
    ensures
        b == affirmative(response@),
{
    let chars = chars_of(response);
    let w = words_of(chars.as_slice());
    if w.len() != 1 {
        return false;
    }
    assert(views(w@)[0] == w@[0]@);
    word_is(w[0], "y") || word_is(w[0], "yes")
}

} // verus!
