//! The JSON text of flags, as it goes on the bus and into query responses.
//!
//! A batch is an array of objects with the fields `name`, `serviceName`,
//! `rawValue` and `value`, in that order and without white space. String
//! literals are written by `serde_json`; the framing around them is written
//! here.

use crate::storage::{models, Flag, FlagModel};
use vstd::prelude::*;

verus! {

/// The JSON string literal that `serde_json` writes for a text: the text in
/// double quotes, with the escapes that JSON asks for.
pub uninterp spec fn json_string(text: Seq<char>) -> Seq<char>;

#[verifier::external_type_specification]
#[verifier::external_body]
pub struct ExJsonError(serde_json::Error);

/// Calls `serde_json::to_string` on a string slice. The call succeeds, and its
/// result is the JSON string literal of the text. `to_string` fails only where
/// the value's `Serialize` impl fails or a map has a key that is no string: a
/// string slice has neither, and the text goes into a `Vec<u8>`, which takes
/// every write.
#[verifier::external_body]
fn quote(text: &str) -> (quoted: Result<String, serde_json::Error>)
    ensures
        quoted is Ok,
        quoted matches Ok(literal) ==> literal@ == json_string(text@),
{
    serde_json::to_string(text)
}

/// Calls `to_string` on a `serde_json::Error`, which gives its message.
#[verifier::external_body]
fn describe(error: &serde_json::Error) -> String {
    error.to_string()
}

/// A text could not be written as JSON.
#[derive(Debug)]
pub struct EncodeError {
    detail: String,
}

impl EncodeError {
    /// The text that came with the failure.
    pub closed spec fn detail(self) -> Seq<char> {
        self.detail@
    }

    /// The text that came with the failure.
    pub fn message(&self) -> (text: &String)
        ensures
            text@ == self.detail(),
    {
        &self.detail
    }

    /// The text that came with the failure, handed over.
    pub fn into_message(self) -> (text: String)
        ensures
            text@ == self.detail(),
    {
        self.detail
    }
}

/// The JSON text of a boolean.
pub open spec fn bool_text(value: bool) -> Seq<char> {
    if value {
        "true"@
    } else {
        "false"@
    }
}

/// The JSON object of a flag whose three texts are already string literals.
pub open spec fn object_text(
    name: Seq<char>,
    service_name: Seq<char>,
    raw_value: Seq<char>,
    value: bool,
) -> Seq<char> {
    "{\"name\":"@ + name + ",\"serviceName\":"@ + service_name + ",\"rawValue\":"@ + raw_value
        + ",\"value\":"@ + bool_text(value) + "}"@
}

/// The JSON object of a flag.
pub open spec fn flag_text(flag: FlagModel) -> Seq<char> {
    object_text(
        json_string(flag.name),
        json_string(flag.service_name),
        json_string(flag.raw_value),
        flag.value,
    )
}

/// The items with a comma between each two.
pub open spec fn joined(items: Seq<Seq<char>>) -> Seq<char>
    decreases items.len(),
{
    if items.len() == 0 {
        Seq::empty()
    } else if items.len() == 1 {
        items[0]
    } else {
        joined(items.drop_last()) + ","@ + items.last()
    }
}

/// The JSON array of items that are already JSON texts.
pub open spec fn array_text(items: Seq<Seq<char>>) -> Seq<char> {
    "["@ + joined(items) + "]"@
}

/// The JSON array of a batch of flags.
pub open spec fn batch_text(flags: Seq<FlagModel>) -> Seq<char> {
    array_text(flags.map_values(|f: FlagModel| flag_text(f)))
}

/// The texts of a run of strings, in order.
pub open spec fn texts(items: Seq<String>) -> Seq<Seq<char>> {
    items.map_values(|s: String| s@)
}

/// Writes a text as a JSON string literal. Every text can be written.
pub fn encode_text(text: &str) -> (encoded: Result<String, EncodeError>)
    ensures
        encoded matches Ok(literal) && literal@ == json_string(text@),
{
    match quote(text) {
        Ok(literal) => Ok(literal),
        Err(error) => Err(EncodeError { detail: describe(&error) }),
    }
}

/// Writes the JSON object of a flag from its three string literals and its
/// value.
pub fn frame_flag(name: &str, service_name: &str, raw_value: &str, value: bool) -> (text: String)
    ensures
        text@ == object_text(name@, service_name@, raw_value@, value),
{
    let mut text = String::from_str("{\"name\":");
    text.append(name);
    text.append(",\"serviceName\":");
    text.append(service_name);
    text.append(",\"rawValue\":");
    text.append(raw_value);
    text.append(",\"value\":");
    if value {
        text.append("true");
    } else {
        text.append("false");
    }
    text.append("}");
    text
}

/// Writes the JSON array of items that are already JSON texts.
pub fn frame_batch(items: &Vec<String>) -> (text: String)
    ensures
        text@ == array_text(texts(items@)),
{
    let ghost all = texts(items@);
    let mut text = String::from_str("[");
    assert(all.take(0) =~= Seq::<Seq<char>>::empty());
    assert("["@ + joined(all.take(0)) =~= "["@);
    let mut i: usize = 0;
    while i < items.len()
        invariant
            i <= items.len(),
            all == texts(items@),
            text@ == "["@ + joined(all.take(i as int)),
        decreases items.len() - i,
    {
        proof {
            assert(all.take(i + 1).drop_last() =~= all.take(i as int));
            assert(all.take(i + 1).last() == items[i as int]@);
            assert(all.take(1)[0] == all[0]);
        }
        if i > 0 {
            text.append(",");
            text.append(items[i].as_str());
            assert(text@ =~= "["@ + (joined(all.take(i as int)) + ","@ + items[i as int]@));
        } else {
            text.append(items[i].as_str());
            assert(text@ =~= "["@ + items[i as int]@);
        }
        i += 1;
    }
    assert(all.take(i as int) =~= all);
    text.append("]");
    text
}

/// Writes a flag as a JSON object. Every flag can be written.
pub fn encode_flag(flag: &Flag) -> (encoded: Result<String, EncodeError>)
    ensures
        encoded matches Ok(text) && text@ == flag_text(flag@),
{
    let name = match encode_text(flag.name().as_str()) {
        Ok(literal) => literal,
        Err(error) => {
            return Err(error);
        },
    };
    let service_name = match encode_text(flag.service_name().as_str()) {
        Ok(literal) => literal,
        Err(error) => {
            return Err(error);
        },
    };
    let raw_value = match encode_text(flag.raw_value().as_str()) {
        Ok(literal) => literal,
        Err(error) => {
            return Err(error);
        },
    };
    Ok(frame_flag(name.as_str(), service_name.as_str(), raw_value.as_str(), flag.value()))
}

/// Writes a batch of flags as one JSON array, in the order of the batch.
/// Every batch can be written, the empty one as `[]`.
pub fn encode_batch(flags: &Vec<Flag>) -> (encoded: Result<String, EncodeError>)
    ensures
        encoded matches Ok(text) && text@ == batch_text(models(flags@)),
{
    let ghost wanted = models(flags@).map_values(|f: FlagModel| flag_text(f));
    let mut items: Vec<String> = Vec::with_capacity(flags.len());
    let mut i: usize = 0;
    while i < flags.len()
        invariant
            i <= flags.len(),
            wanted == models(flags@).map_values(|f: FlagModel| flag_text(f)),
            items.len() == i,
            forall|j: int| 0 <= j < i ==> (#[trigger] items[j])@ == wanted[j],
        decreases flags.len() - i,
    {
        match encode_flag(&flags[i]) {
            Ok(text) => {
                items.push(text);
            },
            Err(error) => {
                return Err(error);
            },
        }
        i += 1;
    }
    assert(texts(items@) =~= wanted);
    Ok(frame_batch(&items))
}

} // verus!
