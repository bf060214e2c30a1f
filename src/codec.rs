use vstd::prelude::*;
use crate::entity::strs_view;
use crate::store::StoreError;

verus! {

#[verifier::external_type_specification]
#[verifier::external_body]
pub struct ExJsonError(serde_json::Error);

/// The JSON text serde_json writes for a list of strings.
pub uninterp spec fn json_text_of(items: Seq<Seq<char>>) -> Seq<char>;

/// The list of strings serde_json reads from a text, if it reads one.
pub uninterp spec fn json_strings_in(text: Seq<char>) -> Option<Seq<Seq<char>>>;

/// Relies on serde_json::to_string: the text written for a list of strings
/// depends on the strings alone, and writing one cannot fail (serde_json
/// fails only where a `Serialize` impl fails or a map has non-string keys).
#[verifier::external_body]
fn to_json(v: &Vec<String>) -> (r: Result<String, serde_json::Error>)
    ensures
        r is Ok,
        r matches Ok(t) ==> t@ == json_text_of(strs_view(v@)),
{
    serde_json::to_string(v)
}

/// Relies on serde_json::from_str: whether a text reads as a list of
/// strings, and which, depends on the text alone.
#[verifier::external_body]
fn from_json(text: &str) -> (r: Result<Vec<String>, serde_json::Error>)
    ensures
        match r {
            Ok(v) => json_strings_in(text@) == Some(strs_view(v@)),
            Err(_) => json_strings_in(text@) is None,
        },
{
    serde_json::from_str(text)
}

/// The text a list of strings (tags, authors) is stored as.
pub fn encode_tags(tags: &Vec<String>) -> (r: String)
    ensures
        r@ == json_text_of(strs_view(tags@)),
{
    match to_json(tags) {
        Ok(t) => t,
        Err(_) => String::new(),
    }
}

/// The list of strings a stored text holds; a text that is not such a list
/// is corrupt and refused.
pub fn decode_tags(text: &str) -> (r: Result<Vec<String>, StoreError>)
    ensures
        match r {
            Ok(v) => json_strings_in(text@) == Some(strs_view(v@)),
            Err(e) => e == StoreError::SerializationError && json_strings_in(text@) is None,
        },
{
    match from_json(text) {
        Ok(v) => Ok(v),
        Err(_) => Err(StoreError::SerializationError),
    }
}

} // verus!
