//! Small operations on text.
use vstd::prelude::*;
use vstd::string::*;
use vstd::utf8::{decode_utf8, valid_utf8};

verus! {

/// A text that may be missing, read.
pub open spec fn optional_text(text: Option<String>) -> Option<Seq<char>> {
    match text {
        Some(text) => Some(text@),
        None => None,
    }
}

/// A text, or a reason why there is none, read.
pub open spec fn text_or_reason(result: Result<String, String>) -> Result<Seq<char>, Seq<char>> {
    match result {
        Ok(text) => Ok(text@),
        Err(reason) => Err(reason@),
    }
}

/// The two texts, one after the other.
pub fn join(left: &str, right: &str) -> (text: String)
    ensures
        text@ == left@ + right@,
{
    let mut text: String = left.to_owned();
    text.append(right);
    text
}

/// Whether two texts are the same.
pub fn same_text(left: &str, right: &str) -> (same: bool)
    ensures
        same == (left@ == right@),
{
    left.to_owned() == right.to_owned()
}

/// `std::str::from_utf8`: the text that the bytes encode, if they are valid UTF-8.
#[verifier::external_body]
pub(crate) fn from_utf8(bytes: &[u8]) -> (text: Option<String>)
    ensures
        text is Some <==> valid_utf8(bytes@),
        text matches Some(text) ==> text@ == decode_utf8(bytes@),
{
    std::str::from_utf8(bytes).ok().map(|text| text.to_owned())
}

/// What is read of a text that may be missing is the text.
pub proof fn texts_are_read_as_they_are(text: String, reason: String)
    ensures
        optional_text(Some(text)) == Some(text@),
        optional_text(None) is None,
        text_or_reason(Ok(text)) == Ok::<Seq<char>, Seq<char>>(text@),
        text_or_reason(Err(reason)) == Err::<Seq<char>, Seq<char>>(reason@),
{
}

} // verus!
