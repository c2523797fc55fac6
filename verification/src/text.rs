//! Text matching: the predicate that decides whether a filter string matches a
//! field of a commit.

use vstd::prelude::*;
use vstd::string::StringSliceAdditionalSpecFns;
use vstd::utf8::{decode_utf8, encode_utf8, valid_utf8};

verus! {

broadcast use vstd::utf8::encode_utf8_decode_utf8;

/// `needle` occurs in `hay` as a contiguous run of characters.
pub open spec fn is_substring(hay: Seq<char>, needle: Seq<char>) -> bool {
    exists|i: int|
        0 <= i && i + needle.len() <= hay.len() && #[trigger] hay.subrange(i, i + needle.len())
            == needle
}

/// The lowercase form of a text, as `str::to_lowercase` computes it.
pub uninterp spec fn lowercase(s: Seq<char>) -> Seq<char>;

/// The matching predicate over the two texts and their lowercase forms.
pub open spec fn matches_folded(
    hay: Seq<char>,
    needle: Seq<char>,
    hay_lower: Seq<char>,
    needle_lower: Seq<char>,
) -> bool {
    hay == needle || is_substring(hay, needle) || hay_lower == needle_lower
}

/// The matching predicate: equal, or contained, or equal without regard to case.
pub open spec fn text_matches(hay: Seq<char>, needle: Seq<char>) -> bool {
    matches_folded(hay, needle, lowercase(hay), lowercase(needle))
}

/// Every text contains the empty text, so an empty filter matches everything.
pub proof fn lemma_empty_needle_matches(hay: Seq<char>)
    ensures
        is_substring(hay, Seq::empty()),
        text_matches(hay, Seq::empty()),
{
    let needle = Seq::<char>::empty();
    assert(hay.subrange(0int, 0int + needle.len()) == needle);
}

/// A text that contains the needle at some position matches it.
pub proof fn lemma_substring_matches(hay: Seq<char>, needle: Seq<char>, at: int)
    requires
        0 <= at,
        at + needle.len() <= hay.len(),
        hay.subrange(at, at + needle.len()) == needle,
    ensures
        text_matches(hay, needle),
{
}

/// Calls `str::contains` with a string pattern. The standard library documents
/// that it returns true exactly when the pattern matches a sub-slice of the
/// string; for a string pattern that is a contiguous run of equal characters.
#[verifier::external_body]
fn str_contains(hay: &str, needle: &str) -> (found: bool)
    ensures
        found == is_substring(hay@, needle@),
{
    hay.contains(needle)
}

/// Calls `str::to_lowercase`. Its result depends on the text alone; the
/// contract only gives that result its name.
#[verifier::external_body]
fn str_to_lowercase(s: &str) -> (lower: String)
    ensures
        lower@ == lowercase(s@),
{
    s.to_lowercase()
}

/// Calls `std::str::from_utf8`, which the standard library documents as
/// succeeding exactly on well-formed UTF-8 and as looking at the same bytes as
/// a string slice, without copying or changing them.
#[verifier::external_body]
fn str_from_utf8(bytes: &[u8]) -> (text: Option<&str>)
    ensures
        text is Some <==> valid_utf8(bytes@),
        text matches Some(s) ==> s.spec_bytes() == bytes@,
{
    std::str::from_utf8(bytes).ok()
}

/// Reads bytes as text: the decoded characters where the bytes are well-formed
/// UTF-8, nothing otherwise.
pub fn decode_text(bytes: &[u8]) -> (text: Option<String>)
    ensures
        text is Some <==> valid_utf8(bytes@),
        text matches Some(s) ==> s@ == decode_utf8(bytes@) && encode_utf8(s@) == bytes@,
{
    match str_from_utf8(bytes) {
        Some(s) => Some(s.to_owned()),
        None => None,
    }
}

/// Decides the match from the two texts and their lowercase forms.
pub fn match_folded(s1: &str, s2: &str, lower1: &str, lower2: &str) -> (matched: bool)
    ensures
        matched == matches_folded(s1@, s2@, lower1@, lower2@),
{
    str_eq(s1, s2) || str_contains(s1, s2) || str_eq(lower1, lower2)
}

/// Equality of two string slices, decided on their bytes.
pub fn str_eq(a: &str, b: &str) -> (equal: bool)
    ensures
        equal == (a@ == b@),
{
    let x = a.as_bytes();
    let y = b.as_bytes();
    if x.len() != y.len() {
        return false;
    }
    let mut i: usize = 0;
    while i < x.len()
        invariant
            i <= x.len(),
            x.len() == y.len(),
            x@ == encode_utf8(a@),
            y@ == encode_utf8(b@),
            forall|j: int| 0 <= j < i ==> x@[j] == y@[j],
        decreases x.len() - i,
    {
        if x[i] != y[i] {
            return false;
        }
        i += 1;
    }
    assert(x@ =~= y@);
    assert(decode_utf8(encode_utf8(a@)) == decode_utf8(encode_utf8(b@)));
    true
}

/// True when `s2` equals `s1`, occurs in `s1`, or equals `s1` without regard
/// to case.
pub fn match_str(s1: &str, s2: &str) -> (matched: bool)
    ensures
        matched == text_matches(s1@, s2@),
{
    let lower1 = str_to_lowercase(s1);
    let lower2 = str_to_lowercase(s2);
    match_folded(s1, s2, lower1.as_str(), lower2.as_str())
}

} // verus!
