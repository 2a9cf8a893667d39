//! Random candidate codes over a fixed alphanumeric alphabet.

use rand::Rng;
use vstd::prelude::*;

verus! {

/// Length of the shortest code handed out.
pub const KEY_LEN: usize = 4;

/// Number of characters in the code alphabet.
pub const ALPHABET_LEN: usize = 62;

/// The `i`-th character of the alphabet: lowercase, then uppercase, then digits.
pub open spec fn alphabet_char(i: int) -> char {
    if i < 26 {
        ('a' as u32 + i) as char
    } else if i < 52 {
        ('A' as u32 + (i - 26)) as char
    } else {
        ('0' as u32 + (i - 52)) as char
    }
}

/// A character that may appear in a code.
pub open spec fn is_code_char(c: char) -> bool {
    ('a' <= c && c <= 'z') || ('A' <= c && c <= 'Z') || ('0' <= c && c <= '9')
}

/// Executable form of `alphabet_char`.
pub fn code_char(i: usize) -> (c: char)
    requires
        i < ALPHABET_LEN,
    ensures
        c == alphabet_char(i as int),
        is_code_char(c),
{
    let k: u8 = i as u8;
    if k < 26 {
        (97u8 + k) as char
    } else if k < 52 {
        (65u8 + (k - 26)) as char
    } else {
        (48u8 + (k - 52)) as char
    }
}

/// A string made only of alphabet characters.
pub open spec fn is_code(s: Seq<char>) -> bool {
    forall|i: int| 0 <= i < s.len() ==> #[trigger] is_code_char(s[i])
}

/// Relies on rand's `thread_rng` and `Rng::gen_range`, which draws uniformly
/// from the half-open range and panics only when the range is empty.
#[verifier::external_body]
fn draw_index(bound: usize) -> (r: usize)
    requires
        0 < bound,
    ensures
        r < bound,
{
    rand::thread_rng().gen_range(0..bound)
}

/// Relies on `String::push`: appends one character at the end.
#[verifier::external_body]
fn push_char(s: &mut String, c: char)
    ensures
        final(s)@ == old(s)@.push(c),
{
    s.push(c)
}

/// Draws a fresh candidate code of `KEY_LEN + extra_len` characters, each
/// picked independently and uniformly from the alphabet.
pub fn gen_key(extra_len: usize) -> (r: String)
    requires
        extra_len <= usize::MAX - KEY_LEN,
    ensures
        r@.len() == KEY_LEN + extra_len,
        is_code(r@),
{
    let total_len: usize = KEY_LEN + extra_len;
    let mut key = String::new();
    let mut n: usize = 0;
    while n < total_len
        invariant
            n <= total_len,
            key@.len() == n,
            is_code(key@),
        decreases total_len - n,
    {
        let c = code_char(draw_index(ALPHABET_LEN));
        push_char(&mut key, c);
        n = n + 1;
    }
    key
}

} // verus!
