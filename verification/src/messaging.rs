//! Announcing written flags to a message bus.
//!
//! A batch goes out as one message on one fixed subject. Notifying comes after
//! the write and never undoes it.

use crate::storage::{
    clone_flags, models, write_batch, Flag, FlagModel, StorageError, Store, WritePolicy,
};
use crate::wire::{batch_text, encode_batch, EncodeError};
use vstd::prelude::*;

verus! {

/// Which notifier announces the writes.
#[derive(Clone, Copy, Debug, PartialEq, Eq, Structural)]
pub enum Type {
    /// The inert notifier.
    Noop,
    /// The notifier that publishes to a NATS server.
    NATS,
}

impl Type {
    /// The notifier that a name selects, if it selects one.
    pub open spec fn named(name: Seq<char>) -> Option<Type> {
        if name == "noop"@ {
            Some(Type::Noop)
        } else if name == "nats"@ {
            Some(Type::NATS)
        } else {
            None
        }
    }

    /// Reads a notifier's name: `noop` or `nats`, and nothing else.
    pub fn parse(name: &str) -> (parsed: Result<Type, &'static str>)
        ensures
            match parsed {
                Ok(kind) => Type::named(name@) == Some(kind),
                Err(why) => Type::named(name@) is None && why@ == "Error parsing messaging type"@,
            },
    {
        let given = name.to_owned();
        if given == "noop".to_owned() {
            Ok(Type::Noop)
        } else if given == "nats".to_owned() {
            Ok(Type::NATS)
        } else {
            Err("Error parsing messaging type")
        }
    }
}

impl std::str::FromStr for Type {
    type Err = &'static str;

    fn from_str(s: &str) -> (parsed: Result<Type, &'static str>)
        ensures
            match parsed {
                Ok(kind) => Type::named(s@) == Some(kind),
                Err(why) => Type::named(s@) is None && why@ == "Error parsing messaging type"@,
            },
    {
        Type::parse(s)
    }
}

/// Why a batch could not be announced.
#[derive(Debug)]
pub enum NotifyError {
    /// The bus could not be reached, or refused the message.
    Unreachable(String),
    /// The batch could not be written as a message.
    Serialization(String),
    /// The subject to publish on is not one that the bus accepts.
    InvalidSubject(String),
}

impl NotifyError {
    /// The text that came with the failure.
    pub open spec fn detail(self) -> Seq<char> {
        match self {
            NotifyError::Unreachable(text) => text@,
            NotifyError::Serialization(text) => text@,
            NotifyError::InvalidSubject(text) => text@,
        }
    }

    /// The text that came with the failure.
    pub fn message(&self) -> (text: &String)
        ensures
            text@ == self.detail(),
    {
        match self {
            NotifyError::Unreachable(text) => text,
            NotifyError::Serialization(text) => text,
            NotifyError::InvalidSubject(text) => text,
        }
    }
}

/// Something that announces written flags.
pub trait Messaging {
    /// Whether `sent` is an answer that this notifier may give to the batch.
    /// A notifier that says nothing of itself may give any.
    open spec fn answers(&self, flags: Seq<FlagModel>, sent: Result<(), NotifyError>) -> bool {
        true
    }

    /// Sends the batch as one message, once; a failure is reported and not
    /// retried.
    fn send(&self, flags: Vec<Flag>) -> (sent: Result<(), NotifyError>)
        ensures
            self.answers(models(flags@), sent),
    ;
}

/// The inert notifier: for when nobody listens.
#[derive(Clone, Copy, Debug)]
pub struct Noop {}

impl Messaging for Noop {
    /// The inert notifier takes every batch.
    open spec fn answers(&self, flags: Seq<FlagModel>, sent: Result<(), NotifyError>) -> bool {
        sent is Ok
    }

    fn send(&self, flags: Vec<Flag>) -> (sent: Result<(), NotifyError>)
        ensures
            sent is Ok,
    {
        Ok(())
    }
}

impl Noop {
    /// The inert notifier.
    pub fn new() -> Noop {
        Noop {  }
    }
}

/// Whether the character at `at` begins a token of the subject.
pub open spec fn starts_token(text: Seq<char>, at: int) -> bool {
    at == 0 || text[at - 1] == '.'
}

/// Whether the character at `at` ends a token of the subject.
pub open spec fn ends_token(text: Seq<char>, at: int) -> bool {
    at == text.len() - 1 || text[at + 1] == '.'
}

/// Whether the character at `at` may stand where it stands in a subject: a dot
/// only between two tokens, no blank or tab, `*` only as a whole token, `>`
/// only as the whole last token.
pub open spec fn subject_char_fits(text: Seq<char>, at: int) -> bool {
    let c = text[at];
    if c == '.' {
        0 < at < text.len() - 1 && text[at - 1] != '.'
    } else if c == ' ' || c == '\t' {
        false
    } else if c == '*' {
        starts_token(text, at) && ends_token(text, at)
    } else if c == '>' {
        starts_token(text, at) && at == text.len() - 1
    } else {
        true
    }
}

/// Whether the text is a NATS subject: one or more tokens with dots between
/// them, none of them empty.
pub open spec fn accepted_subject(text: Seq<char>) -> bool {
    &&& text.len() > 0
    &&& forall|at: int| 0 <= at < text.len() ==> subject_char_fits(text, at)
}

/// Whether the text is a NATS subject, decided without the bus client.
pub fn accepts_subject(text: &str) -> (accepted: bool)
    ensures
        accepted == accepted_subject(text@),
{
    let n = text.unicode_len();
    if n == 0 {
        return false;
    }
    let mut i: usize = 0;
    while i < n
        invariant
            n == text@.len(),
            i <= n,
            forall|at: int| 0 <= at < i ==> subject_char_fits(text@, at),
        decreases n - i,
    {
        let c = text.get_char(i);
        let starts = i == 0 || text.get_char(i - 1) == '.';
        let fits = if c == '.' {
            0 < i && i < n - 1 && text.get_char(i - 1) != '.'
        } else if c == ' ' || c == '\t' {
            false
        } else if c == '*' {
            starts && (i == n - 1 || text.get_char(i + 1) == '.')
        } else if c == '>' {
            starts && i == n - 1
        } else {
            true
        };
        if !fits {
            assert(!subject_char_fits(text@, i as int));
            return false;
        }
        i += 1;
    }
    true
}

/// Asks `rants::Subject`'s `FromStr` whether it takes the text. That parser
/// wants the whole text to be tokens separated by dots; a token is `*` or a run
/// of one or more characters other than blank, tab, `.`, `*` and `>`, and the
/// last token may be `>`. The contract says that exactly those texts are taken.
#[verifier::external_body]
fn parses_as_subject(text: &str) -> (taken: bool)
    ensures
        taken == accepted_subject(text@),
{
    text.parse::<rants::Subject>().is_ok()
}

/// The one subject on which batches are published.
pub fn subject_name() -> (name: &'static str)
    ensures
        name@ == "feature-toggles"@,
        accepted_subject(name@),
{
    let name = "feature-toggles";
    proof {
        reveal_strlit("feature-toggles");
        assert forall|at: int| 0 <= at < name@.len() implies subject_char_fits(name@, at) by {
            assert(name@[at] != '.' && name@[at] != ' ' && name@[at] != '\t' && name@[at] != '*'
                && name@[at] != '>');
        }
    }
    name
}

/// One message for the bus: the subject that it goes to and what it says,
/// both as text.
#[derive(Debug)]
pub struct Publication {
    subject: String,
    payload: String,
}

impl Publication {
    /// The subject that the message goes to.
    pub closed spec fn topic(self) -> Seq<char> {
        self.subject@
    }

    /// The message's text.
    pub closed spec fn payload(self) -> Seq<char> {
        self.payload@
    }

    /// The subject that the message goes to.
    pub fn subject(&self) -> (subject: &String)
        ensures
            subject@ == self.topic(),
    {
        &self.subject
    }

    /// The message's text.
    pub fn payload_text(&self) -> (text: &String)
        ensures
            text@ == self.payload(),
    {
        &self.payload
    }

    /// Puts a message together from the written batch and the subject, given
    /// whether the bus takes the subject. A batch that could not be written is
    /// reported first, then a subject that the bus does not take.
    pub fn assemble(topic: &str, taken: bool, payload: Result<String, EncodeError>) -> (made: Result<
        Publication,
        NotifyError,
    >)
        ensures
            match made {
                Ok(p) => payload matches Ok(text) && taken && p.payload() == text@ && p.topic()
                    == topic@,
                Err(NotifyError::Serialization(why)) => payload matches Err(e) && why@
                    == e.detail(),
                Err(NotifyError::InvalidSubject(which)) => payload is Ok && !taken && which@
                    == topic@,
                Err(NotifyError::Unreachable(_)) => false,
            },
    {
        match payload {
            Err(error) => Err(NotifyError::Serialization(error.into_message())),
            Ok(text) => {
                if taken {
                    Ok(Publication { subject: topic.to_owned(), payload: text })
                } else {
                    Err(NotifyError::InvalidSubject(topic.to_owned()))
                }
            },
        }
    }
}

/// The message that announces a batch: the batch as a JSON array, to the one
/// fixed subject, which the bus takes. There is a message for every batch.
pub fn publication(flags: &Vec<Flag>) -> (made: Result<Publication, NotifyError>)
    ensures
        made matches Ok(p) && p.topic() == "feature-toggles"@ && p.payload() == batch_text(
            models(flags@),
        ),
        made matches Ok(p) ==> accepted_subject(p.topic()),
{
    let topic = subject_name();
    Publication::assemble(topic, parses_as_subject(topic), encode_batch(flags))
}

/// How a write with its announcement ended.
#[derive(Debug)]
pub enum WriteOutcome {
    /// The store failed; nothing was announced.
    Refused(StorageError),
    /// The batch was written and announced.
    Announced,
    /// The batch was written; announcing it failed.
    Unannounced(NotifyError),
}

/// Writes the batch to the store and then hands the same batch to the
/// notifier. The two are not one transaction: once the store has taken the
/// batch it stays written, whether or not the notifier fails. A batch that the
/// store refused is not announced. The outcome carries what the notifier
/// answered to the batch.
pub fn write_and_notify<S: Store, M: Messaging>(
    store: &mut S,
    bus: &M,
    flags: Vec<Flag>,
    initial: bool,
) -> (outcome: WriteOutcome)
    ensures
        !(outcome is Refused) ==> final(store).model() == write_batch(
            old(store).model(),
            models(flags@),
            WritePolicy::of_initial(initial),
        ),
        outcome is Refused ==> exists|n: int|
            0 <= n <= flags.len() && final(store).model() == #[trigger] write_batch(
                old(store).model(),
                models(flags@).take(n),
                WritePolicy::of_initial(initial),
            ),
        outcome is Refused ==> old(store).writes(
            models(flags@),
            initial,
            Err(outcome->Refused_0),
        ),
        !(outcome is Refused) ==> old(store).writes(models(flags@), initial, Ok(())),
        outcome is Announced ==> bus.answers(models(flags@), Ok(())),
        outcome is Unannounced ==> bus.answers(models(flags@), Err(outcome->Unannounced_0)),
{
    let announced = clone_flags(&flags);
    assert(models(announced@) =~= models(flags@));
    let stored = store.store(flags, initial);
    let ghost written = stored;
    match stored {
        Err(error) => WriteOutcome::Refused(error),
        Ok(done) => {
            assert(written == Ok::<(), StorageError>(done));
            let sent = bus.send(announced);
            let ghost answer = sent;
            match sent {
                Ok(done) => {
                    assert(answer == Ok::<(), NotifyError>(done));
                    WriteOutcome::Announced
                },
                Err(error) => WriteOutcome::Unannounced(error),
            }
        },
    }
}

} // verus!
