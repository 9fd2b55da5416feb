//! Strings: comparison, and letter case.
use vstd::prelude::*;
use vstd::utf8::{decode_utf8, encode_utf8, encode_utf8_decode_utf8};

verus! {

/// The lower-case form of an ASCII capital letter, and any other character
/// itself.
pub open spec fn ascii_lower_char(c: char) -> char {
    if 'A' <= c <= 'Z' {
        ((c as u32 + 32) as u32) as char
    } else {
        c
    }
}

/// `text` with its ASCII capital letters in lower case.
pub open spec fn ascii_lowercase(text: Seq<char>) -> Seq<char> {
    text.map_values(|c: char| ascii_lower_char(c))
}

/// `str::to_ascii_lowercase` of the standard library: a copy of the string in
/// which ASCII letters "A" to "Z" are mapped to "a" to "z", and all other
/// characters are unchanged.
pub assume_specification[ str::to_ascii_lowercase ](s: &str) -> (lower: String)
    ensures
        lower@ == ascii_lowercase(s@),
;

/// Lower case changes capital letters alone, each to the letter 32 code points
/// further on, and keeps every character in its place.
pub proof fn law_ascii_lowercase(text: Seq<char>, i: int)
    ensures
        ascii_lowercase(text).len() == text.len(),
        0 <= i < text.len() && 'A' <= text[i] <= 'Z' ==> ascii_lowercase(text)[i] as int
            == text[i] as int + 32,
        0 <= i < text.len() && !('A' <= text[i] <= 'Z') ==> ascii_lowercase(text)[i] == text[i],
{
}

/// Whether two strings are the same.
pub fn str_eq(a: &str, b: &str) -> (same: bool)
    ensures
        same == (a@ == b@),
{
    let x: &[u8] = a.as_bytes();
    let y: &[u8] = b.as_bytes();
    proof {
        encode_utf8_decode_utf8(a@);
        encode_utf8_decode_utf8(b@);
    }
    if x.len() != y.len() {
        return false;
    }
    let mut i: usize = 0;
    while i < x.len()
        invariant
            i <= x@.len(),
            x@.len() == y@.len(),
            x@ == encode_utf8(a@),
            y@ == encode_utf8(b@),
            forall|j: int| 0 <= j < i ==> x@[j] == y@[j],
        decreases x@.len() - i,
    {
        if x[i] != y[i] {
            return false;
        }
        i = i + 1;
    }
    assert(x@ =~= y@);
    assert(decode_utf8(x@) == a@ && decode_utf8(y@) == b@);
    true
}

} // verus!
