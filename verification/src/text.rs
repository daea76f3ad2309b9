//! Text in the blob: names are UTF-8, and compared character by character.

use core::str::Utf8Error;
use vstd::prelude::*;
use vstd::string::{StrSliceExecFns, StringSliceAdditionalSpecFns};
use vstd::utf8::*;

verus! {

/// `core::str::Utf8Error`: why bytes are no UTF-8.
#[verifier::external_type_specification]
#[verifier::external_body]
pub struct ExUtf8Error(Utf8Error);

/// What `core::str::from_utf8` reports of bytes that are not UTF-8: where the
/// valid part ends and how long the offending sequence is.
pub uninterp spec fn utf8_failure(bytes: Seq<u8>) -> Utf8Error;

/// `core::str::from_utf8`: the bytes as text where they are valid UTF-8, the
/// same bytes seen as a string; else the error that names the first offending
/// place.
#[verifier::external_body]
pub(crate) fn str_from_utf8<'a>(bytes: &'a [u8]) -> (r: Result<&'a str, Utf8Error>)
    ensures
        match r {
            Ok(s) => valid_utf8(bytes@) && s.spec_bytes() == bytes@,
            Err(e) => !valid_utf8(bytes@) && e == utf8_failure(bytes@),
        },
{
    core::str::from_utf8(bytes)
}

/// The bytes as text: the characters they encode, where they are valid UTF-8.
pub fn decode<'a>(bytes: &'a [u8]) -> (r: Result<&'a str, Utf8Error>)
    ensures
        match r {
            Ok(s) => valid_utf8(bytes@) && s@ == decode_utf8(bytes@),
            Err(e) => !valid_utf8(bytes@) && e == utf8_failure(bytes@),
        },
{
    let r = str_from_utf8(bytes);
    proof {
        if let Ok(s) = r {
            encode_utf8_decode_utf8(s@);
        }
    }
    r
}

/// The index of the first `c` of `s` at or after `from`, or the length of `s`
/// where there is none.
pub open spec fn first_of(s: Seq<char>, c: char, from: int) -> int
    decreases s.len() - from,
{
    if from < 0 || from >= s.len() {
        s.len() as int
    } else if s[from] == c {
        from
    } else {
        first_of(s, c, from + 1)
    }
}

/// Finds the first `c` of `s` at or after `from`.
pub fn index_of(s: &str, c: char, from: usize) -> (r: usize)
    requires
        from <= s@.len(),
    ensures
        r == first_of(s@, c, from as int),
        from <= r <= s@.len(),
{
    let n: usize = s.unicode_len();
    let mut i: usize = from;
    while i < n
        invariant
            from <= i <= n,
            n == s@.len(),
            first_of(s@, c, from as int) == first_of(s@, c, i as int),
        decreases n - i,
    {
        if s.get_char(i) == c {
            return i;
        }
        i = i + 1;
    }
    i
}

/// Whether two strings hold the same characters.
pub fn same_text(a: &str, b: &str) -> (r: bool)
    ensures
        r == (a@ == b@),
{
    let x = a.as_bytes();
    let y = b.as_bytes();
    if x.len() != y.len() {
        return false;
    }
    let mut i: usize = 0;
    while i < x.len()
        invariant
            i <= x.len(),
            x.len() == y.len(),
            x@ == encode_utf8(a@),
            y@ == encode_utf8(b@),
            forall|j: int| 0 <= j < i ==> x@[j] == y@[j],
        decreases x.len() - i,
    {
        if x[i] != y[i] {
            return false;
        }
        i = i + 1;
    }
    proof {
        assert(x@ =~= y@);
        encode_utf8_decode_utf8(a@);
        encode_utf8_decode_utf8(b@);
    }
    true
}

} // verus!
