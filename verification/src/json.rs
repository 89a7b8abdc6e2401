//! What this crate takes on trust about the JSON reader.

use vstd::prelude::*;

verus! {

/// `serde_json::Error`: why a text is no JSON. It is carried to the
/// caller as it is.
#[verifier::external_type_specification]
#[verifier::external_body]
pub struct ExJsonError(serde_json::Error);

/// A member of a JSON object, as the reader hands it out.
#[derive(Debug)]
pub struct Member {
    /// The member as JSON text. A string has its quotes and escapes here.
    pub json: String,
    /// What the member holds where it is a string; nothing where it is of
    /// another kind.
    pub string: Option<String>,
}

/// What reading `text` as JSON, looking up `key` in it and printing the
/// member found gives: nothing where `text` is not JSON; where it is,
/// the JSON text of the member called `key`, if the value read is an
/// object that has one.
pub uninterp spec fn json_member(text: Seq<char>, key: Seq<char>) -> Option<Option<Seq<char>>>;

/// What reading `text` as JSON, looking up `key` in it and taking the
/// member found as a string gives: nothing where `text` is not JSON; where
/// it is, what the member called `key` holds, if there is one and it is a
/// string.
pub uninterp spec fn json_member_string(text: Seq<char>, key: Seq<char>) -> Option<
    Option<Seq<char>>,
>;

/// The string that `member` holds, if it holds one.
pub open spec fn string_of(member: Member) -> Option<Seq<char>> {
    match member.string {
        Some(string) => Some(string@),
        None => None,
    }
}

/// `serde_json::from_str` into a `serde_json::Value`, then `Value::get`
/// with `key`; the member found is handed out twice over, as
/// `Value::to_string` prints it and as `Value::as_str` reads it.
///
/// A `serde_json::Value` cannot be held by verified code, so the calls
/// stand together. They work on nothing but `text` and `key`, and what
/// each of the last two gives is stated by a name of its own. Nothing is
/// chosen here: which of the two a caller goes by is the caller's to say.
#[verifier::external_body]
pub(crate) fn member(text: &str, key: &str) -> (r: Result<Option<Member>, serde_json::Error>)
    ensures
        match r {
            Ok(Some(found)) => {
                &&& json_member(text@, key@) == Some(Some(found.json@))
                &&& json_member_string(text@, key@) == Some(string_of(found))
            },
            Ok(None) => {
                &&& json_member(text@, key@) == Some(None::<Seq<char>>)
                &&& json_member_string(text@, key@) == Some(None::<Seq<char>>)
            },
            Err(_) => json_member(text@, key@) is None && json_member_string(text@, key@) is None,
        },
{
    let value = serde_json::from_str::<serde_json::Value>(text)?;
    Ok(value.get(key).map(|found| Member {
        json: found.to_string(),
        string: found.as_str().map(str::to_owned),
    }))
}

} // verus!
