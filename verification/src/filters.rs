//! The read query: from the request's options to the response's body.

use crate::storage::{lists, models, scope_of, Flag, StorageError, Store};
use crate::wire::{batch_text, encode_batch, encode_text, json_string, EncodeError};
use vstd::prelude::*;

verus! {

/// The options of a flag listing request.
#[derive(Debug)]
pub struct ListOptions {
    /// The service whose flags are asked for, if the request names one.
    pub service_name: Option<String>,
}

impl ListOptions {
    /// The scope that the request asks for. A request that names no service,
    /// or names the empty one, asks for every flag.
    pub open spec fn scope(self) -> Option<Seq<char>> {
        scope_of(self.service_name)
    }

    /// The service name to read the store with: the one that the request
    /// names, unless it is empty.
    pub fn into_service_name(self) -> (service_name: Option<String>)
        ensures
            scope_of(service_name) == self.scope(),
            service_name matches Some(service) ==> self.service_name == Some(service),
    {
        match self.service_name {
            Some(service) => {
                if service.as_str().is_empty() {
                    None
                } else {
                    Some(service)
                }
            },
            None => None,
        }
    }
}

/// The text of a response body for what a store's read gave.
pub open spec fn body_text(read: Result<Vec<Flag>, StorageError>) -> Seq<char> {
    match read {
        Ok(flags) => batch_text(models(flags@)),
        Err(why) => json_string(why.detail()),
    }
}

/// Writes the response body for what a store's read gave: the flags as a JSON
/// array, or the failure's text as a JSON string. There is a body for every
/// read, failed or not.
pub fn render(read: &Result<Vec<Flag>, StorageError>) -> (body: Result<String, EncodeError>)
    ensures
        body matches Ok(text) && text@ == body_text(*read),
{
    match read {
        Ok(flags) => encode_batch(flags),
        Err(why) => encode_text(why.message().as_str()),
    }
}

/// Answers a listing request: reads the flags that the request's scope can
/// see and writes them, or the store's failure, as the response body. There is
/// a body for every request: the one for what the store gave to the read.
pub fn list_flags<S: Store>(store: &S, options: ListOptions) -> (body: Result<String, EncodeError>)
    ensures
        body matches Ok(text) && exists|read: Result<Vec<Flag>, StorageError>|
            {
                &&& #[trigger] store.reads(options.scope(), read)
                &&& read matches Ok(flags) ==> lists(
                    models(flags@),
                    store.model(),
                    options.scope(),
                )
                &&& text@ == body_text(read)
            },
{
    let read = store.get_flags(options.into_service_name());
    let body = render(&read);
    proof {
        assert(store.reads(options.scope(), read));
    }
    body
}

} // verus!
