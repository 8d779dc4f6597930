//! The durable backend: what to ask of the database, and what to make of its
//! answers.
//!
//! The database itself is driven from outside. This module decides: which
//! flags a read selects, how fetched records become a result, and, for a write,
//! which command comes next after each reply.

use crate::storage::{
    models, scope_of, visible, write_batch, Flag, FlagModel, KeyModel, StorageError, StoreModel,
    WritePolicy,
};
use vstd::prelude::*;

verus! {

/// Which stored flags a read asks the database for.
#[derive(Debug)]
pub enum Selection {
    /// Every flag.
    Everything,
    /// The flags of one service, and the global ones.
    ServiceOrGlobal(String),
}

impl Selection {
    /// Whether the selection takes the flag.
    pub open spec fn admits(self, flag: FlagModel) -> bool {
        match self {
            Selection::Everything => true,
            Selection::ServiceOrGlobal(service) => flag.service_name == service@
                || flag.is_global(),
        }
    }

    /// The selection for a read with or without a service name: it takes
    /// exactly the flags that the read shows. No service name and an empty one
    /// both select every flag.
    pub fn for_scope(service_name: Option<String>) -> (selection: Selection)
        ensures
            forall|flag: FlagModel|
                #[trigger] selection.admits(flag) == visible(flag, scope_of(service_name)),
            selection == match service_name {
                None => Selection::Everything,
                Some(service) => if service@.len() == 0 {
                    Selection::Everything
                } else {
                    Selection::ServiceOrGlobal(service)
                },
            },
    {
        match service_name {
            None => Selection::Everything,
            Some(service) => {
                if service.as_str().is_empty() {
                    Selection::Everything
                } else {
                    Selection::ServiceOrGlobal(service)
                }
            },
        }
    }

    /// Whether the selection takes the flag.
    pub fn matches(&self, flag: &Flag) -> (taken: bool)
        ensures
            taken == self.admits(flag@),
    {
        match self {
            Selection::Everything => true,
            Selection::ServiceOrGlobal(service) => {
                let same = *flag.service_name() == *service;
                same || flag.is_global()
            },
        }
    }
}

/// One item that a read got back from the database.
#[derive(Debug)]
pub enum Fetched {
    /// A record that decoded into a flag.
    Record(Flag),
    /// The database failed while the records were fetched.
    Lost(String),
    /// A record that could not be decoded.
    Malformed(String),
}

impl Fetched {
    /// The failure that the item stands for, if it is not a record.
    pub open spec fn failure(self) -> Option<StorageError> {
        match self {
            Fetched::Record(_) => None,
            Fetched::Lost(why) => Some(StorageError::Unreachable(why)),
            Fetched::Malformed(why) => Some(StorageError::Decode(why)),
        }
    }
}

/// Whether the first `upto` items are all records.
pub open spec fn all_records(fetched: Seq<Fetched>, upto: int) -> bool {
    forall|i: int| 0 <= i < upto ==> (#[trigger] fetched[i]) is Record
}

/// The flags of the fetched records, in order. A record that does not decode
/// and a failure of the database are not skipped: the first of them is the
/// result.
pub fn gather(fetched: Vec<Fetched>) -> (read: Result<Vec<Flag>, StorageError>)
    ensures
        read is Ok <==> all_records(fetched@, fetched.len() as int),
        match read {
            Ok(flags) => all_records(fetched@, fetched.len() as int) && flags.len()
                == fetched.len() && forall|i: int|
                0 <= i < flags.len() ==> (#[trigger] flags[i])@ == fetched[i]->Record_0@,
            Err(why) => exists|at: int|
                0 <= at < fetched.len() && all_records(fetched@, at) && (
                #[trigger] fetched[at]).failure() == Some(why),
        },
{
    let mut flags: Vec<Flag> = Vec::with_capacity(fetched.len());
    let mut i: usize = 0;
    while i < fetched.len()
        invariant
            i <= fetched.len(),
            flags.len() == i,
            all_records(fetched@, i as int),
            forall|j: int| 0 <= j < i ==> (#[trigger] flags[j])@ == fetched[j]->Record_0@,
        decreases fetched.len() - i,
    {
        match &fetched[i] {
            Fetched::Record(flag) => {
                flags.push(flag.clone());
            },
            Fetched::Lost(why) => {
                return Err(StorageError::Unreachable(why.clone()));
            },
            Fetched::Malformed(why) => {
                return Err(StorageError::Decode(why.clone()));
            },
        }
        i += 1;
    }
    Ok(flags)
}

/// What a write asks of the database next.
pub enum CommandModel {
    Probe(KeyModel),
    Upsert(FlagModel),
    Done,
    Failed(StorageError),
}

/// What a write asks of the database next.
#[derive(Debug)]
pub enum Command {
    /// Say whether a record with this name and service name exists.
    Probe { name: String, service_name: String },
    /// Insert the flag, or replace the record that has its key.
    Upsert(Flag),
    /// Nothing more: every flag of the batch has been dealt with.
    Done,
    /// Nothing more: the write has failed.
    Failed(StorageError),
}

impl View for Command {
    type V = CommandModel;

    open spec fn view(&self) -> CommandModel {
        match self {
            Command::Probe { name, service_name } => CommandModel::Probe((name@, service_name@)),
            Command::Upsert(flag) => CommandModel::Upsert(flag@),
            Command::Done => CommandModel::Done,
            Command::Failed(why) => CommandModel::Failed(*why),
        }
    }
}

/// What the database answered to a command.
#[derive(Debug)]
pub enum Reply {
    /// To a probe: such a record exists.
    Present,
    /// To a probe: there is no such record.
    Absent,
    /// To an upsert: the record is stored.
    Written,
    /// To either: the database failed.
    Failure(StorageError),
}

/// A write in progress, as mathematical values.
pub struct SessionModel {
    /// The batch.
    pub flags: Seq<FlagModel>,
    /// Whether the batch replaces or only fills.
    pub policy: WritePolicy,
    /// How many flags of the batch have been dealt with.
    pub next: nat,
    /// Whether a probe has found the key of the next flag to be free.
    pub cleared: bool,
    /// The failure that ended the write, if one did.
    pub failure: Option<StorageError>,
}

impl SessionModel {
    /// A write of the batch that has not asked anything yet.
    pub open spec fn start(flags: Seq<FlagModel>, policy: WritePolicy) -> SessionModel {
        SessionModel { flags, policy, next: 0, cleared: false, failure: None }
    }

    /// The command that the write is waiting on. An overwriting write upserts
    /// each flag. A seeding write first probes for the flag's key and upserts
    /// only where the probe found none.
    pub open spec fn pending(self) -> CommandModel {
        if self.failure is Some {
            CommandModel::Failed(self.failure->0)
        } else if self.next >= self.flags.len() {
            CommandModel::Done
        } else if self.policy == WritePolicy::KeepExisting && !self.cleared {
            CommandModel::Probe(self.flags[self.next as int].key())
        } else {
            CommandModel::Upsert(self.flags[self.next as int])
        }
    }

    /// Whether the write has ended, well or not.
    pub open spec fn settled(self) -> bool {
        self.failure is Some || self.next >= self.flags.len()
    }

    /// The write with the next flag of the batch in turn.
    pub open spec fn advanced(self) -> SessionModel {
        SessionModel { next: self.next + 1, cleared: false, ..self }
    }

    /// The write after a reply to its pending command. A failure ends the
    /// write. A probe that found the key skips the flag; one that found none
    /// clears it for its upsert. A stored upsert moves on to the next flag. A
    /// reply that does not answer the pending command changes nothing, nor does
    /// any reply once the write has ended.
    pub open spec fn after(self, reply: Reply) -> SessionModel {
        match (self.pending(), reply) {
            (CommandModel::Done, _) => self,
            (CommandModel::Failed(_), _) => self,
            (_, Reply::Failure(why)) => SessionModel { failure: Some(why), ..self },
            (CommandModel::Probe(_), Reply::Present) => self.advanced(),
            (CommandModel::Probe(_), Reply::Absent) => SessionModel { cleared: true, ..self },
            (CommandModel::Upsert(_), Reply::Written) => self.advanced(),
            _ => self,
        }
    }

    /// An upper bound on the commands that the write may still issue.
    pub open spec fn remaining(self) -> int {
        if self.settled() {
            0
        } else if self.cleared {
            2 * (self.flags.len() - self.next) - 1
        } else {
            2 * (self.flags.len() - self.next)
        }
    }
}

/// What a database that works answers to a command, given what it holds.
pub open spec fn honest_reply(db: StoreModel, command: CommandModel) -> Reply {
    match command {
        CommandModel::Probe(key) => if db.contains_key(key) {
            Reply::Present
        } else {
            Reply::Absent
        },
        _ => Reply::Written,
    }
}

/// What a database that works holds after a command.
pub open spec fn honest_effect(db: StoreModel, command: CommandModel) -> StoreModel {
    match command {
        CommandModel::Upsert(flag) => db.insert(flag.key(), flag),
        _ => db,
    }
}

/// The write and the database after the write has run to its end against a
/// database that works.
pub open spec fn run(session: SessionModel, db: StoreModel) -> (SessionModel, StoreModel)
    decreases session.remaining(),
{
    if session.settled() {
        (session, db)
    } else {
        run(
            session.after(honest_reply(db, session.pending())),
            honest_effect(db, session.pending()),
        )
    }
}

/// A write that stands after `next` flags, against a database that holds what
/// those flags made of `origin`, ends with the whole batch written.
proof fn lemma_run_completes(session: SessionModel, origin: StoreModel, db: StoreModel)
    requires
        session.failure is None,
        session.next <= session.flags.len(),
        db == write_batch(origin, session.flags.take(session.next as int), session.policy),
        session.cleared ==> session.next < session.flags.len() && session.policy
            == WritePolicy::KeepExisting && !db.contains_key(
            session.flags[session.next as int].key(),
        ),
    ensures
        run(session, db).1 == write_batch(origin, session.flags, session.policy),
        run(session, db).0.pending() is Done,
    decreases session.remaining(),
{
    let flags = session.flags;
    if session.next >= flags.len() {
        assert(flags.take(session.next as int) =~= flags);
    } else {
        let at = session.next as int;
        let command = session.pending();
        let then = session.after(honest_reply(db, command));
        let held = honest_effect(db, command);
        assert(flags.take(at + 1).drop_last() =~= flags.take(at));
        assert(flags.take(at + 1).last() == flags[at]);
        lemma_run_completes(then, origin, held);
    }
}

/// The durable write does what every store's write does: run against a
/// database that works, it ends without failure, and the database then holds
/// what `write_batch` makes of what it held, under either policy.
pub proof fn law_session_writes_batch(flags: Seq<FlagModel>, policy: WritePolicy, db: StoreModel)
    ensures
        run(SessionModel::start(flags, policy), db).1 == write_batch(db, flags, policy),
        run(SessionModel::start(flags, policy), db).0.pending() is Done,
{
    assert(flags.take(0) =~= Seq::<FlagModel>::empty());
    lemma_run_completes(SessionModel::start(flags, policy), db, db);
}

/// A failure of the database ends the write at once: the failure becomes the
/// pending command, the count of flags dealt with stays, and no later reply
/// changes anything.
pub proof fn law_failure_ends_session(session: SessionModel, why: StorageError, later: Reply)
    requires
        !session.settled(),
    ensures
        session.after(Reply::Failure(why)).pending() == CommandModel::Failed(why),
        session.after(Reply::Failure(why)).next == session.next,
        session.after(Reply::Failure(why)).after(later) == session.after(Reply::Failure(why)),
{
}

/// A write to the durable backend, between commands.
#[derive(Debug)]
pub struct WriteSession {
    flags: Vec<Flag>,
    policy: WritePolicy,
    next: usize,
    cleared: bool,
    failure: Option<StorageError>,
}

impl View for WriteSession {
    type V = SessionModel;

    closed spec fn view(&self) -> SessionModel {
        SessionModel {
            flags: models(self.flags@),
            policy: self.policy,
            next: self.next as nat,
            cleared: self.cleared,
            failure: self.failure,
        }
    }
}

impl WriteSession {
    #[verifier::type_invariant]
    spec fn within_batch(&self) -> bool {
        self.next <= self.flags.len()
    }

    /// Begins the write of a batch, seeding (`initial`) or overwriting.
    pub fn begin(flags: Vec<Flag>, initial: bool) -> (session: WriteSession)
        ensures
            session@ == SessionModel::start(models(flags@), WritePolicy::of_initial(initial)),
    {
        WriteSession {
            flags,
            policy: WritePolicy::from_initial(initial),
            next: 0,
            cleared: false,
            failure: None,
        }
    }

    /// The command that the write is waiting on.
    pub fn command(&self) -> (command: Command)
        ensures
            command@ == self@.pending(),
    {
        proof {
            use_type_invariant(self);
        }
        match &self.failure {
            Some(why) => Command::Failed(why.clone()),
            None => {
                if self.next >= self.flags.len() {
                    Command::Done
                } else {
                    let flag = &self.flags[self.next];
                    match self.policy {
                        WritePolicy::KeepExisting => {
                            if self.cleared {
                                Command::Upsert(flag.clone())
                            } else {
                                Command::Probe {
                                    name: flag.name().clone(),
                                    service_name: flag.service_name().clone(),
                                }
                            }
                        },
                        WritePolicy::Overwrite => Command::Upsert(flag.clone()),
                    }
                }
            },
        }
    }

    /// Takes the database's reply to the pending command.
    pub fn reply(&mut self, reply: Reply)
        ensures
            final(self)@ == old(self)@.after(reply),
    {
        proof {
            use_type_invariant(&*self);
        }
        if self.failure.is_some() || self.next >= self.flags.len() {
            return ;
        }
        let probing = match self.policy {
            WritePolicy::KeepExisting => !self.cleared,
            WritePolicy::Overwrite => false,
        };
        match reply {
            Reply::Failure(why) => {
                self.failure = Some(why);
            },
            Reply::Present => {
                if probing {
                    self.next = self.next + 1;
                    self.cleared = false;
                }
            },
            Reply::Absent => {
                if probing {
                    self.cleared = true;
                }
            },
            Reply::Written => {
                if !probing {
                    self.next = self.next + 1;
                    self.cleared = false;
                }
            },
        }
    }

    /// How the write ended, once it has: well, or with the failure that ended
    /// it. `None` while a command is pending.
    pub fn outcome(&self) -> (ended: Option<Result<(), StorageError>>)
        ensures
            match ended {
                None => !self@.settled(),
                Some(Ok(())) => self@.pending() is Done,
                Some(Err(why)) => self@.pending() == CommandModel::Failed(why),
            },
    {
        proof {
            use_type_invariant(self);
        }
        match &self.failure {
            Some(why) => Some(Err(why.clone())),
            None => {
                if self.next >= self.flags.len() {
                    Some(Ok(()))
                } else {
                    None
                }
            },
        }
    }
}


/// The collection that holds the flag records.
pub const FLAGS_COLLECTION: &'static str = "flags";

/// The database that is used where the connection names none.
pub const DEFAULT_DATABASE: &'static str = "featureToggles";

/// The record field that holds a flag's name.
pub const NAME_FIELD: &'static str = "name";

/// The record field that holds a flag's service name.
pub const SERVICE_NAME_FIELD: &'static str = "serviceName";

/// The record field that holds a flag's unevaluated value.
pub const RAW_VALUE_FIELD: &'static str = "rawValue";

/// The record field that holds a flag's resolved value.
pub const VALUE_FIELD: &'static str = "value";

/// The code with which the database refuses a record whose unique fields
/// are taken.
pub const DUPLICATE_KEY_CODE: i32 = 11000;

/// What a failed database command means for the store. A record refused for
/// its unique fields is a broken constraint; any other failure counts as the
/// backend being out of reach.
pub fn write_failure(code: Option<i32>, message: String) -> (why: StorageError)
    ensures
        why == if code == Some(DUPLICATE_KEY_CODE) {
            StorageError::Constraint(message)
        } else {
            StorageError::Unreachable(message)
        },
{
    match code {
        Some(given) => {
            if given == DUPLICATE_KEY_CODE {
                StorageError::Constraint(message)
            } else {
                StorageError::Unreachable(message)
            }
        },
        None => StorageError::Unreachable(message),
    }
}

/// What it means for the store that a flag could not be put into the form of
/// a record: it counts with the records that cannot be read.
pub fn encoding_failure(message: String) -> (why: StorageError)
    ensures
        why == StorageError::Decode(message),
{
    StorageError::Decode(message)
}

/// The durable backend's side of the library: where the records live, and how
/// reads and writes are put to the database.
#[derive(Debug)]
pub struct MongoStore {
    db: String,
}

impl MongoStore {
    /// The name of the database that holds the flags.
    pub closed spec fn database(self) -> Seq<char> {
        self.db@
    }

    /// The backend for the database that the connection's credentials name,
    /// or for the default database where they name none.
    pub fn new(source: Option<String>) -> (store: MongoStore)
        ensures
            store.database() == match source {
                Some(name) => name@,
                None => DEFAULT_DATABASE@,
            },
    {
        match source {
            Some(name) => MongoStore { db: name },
            None => MongoStore { db: DEFAULT_DATABASE.to_owned() },
        }
    }

    /// The name of the database that holds the flags.
    pub fn database_name(&self) -> (name: &String)
        ensures
            name@ == self.database(),
    {
        &self.db
    }

    /// The fields that together must be unique over the records: a flag's
    /// name and its service name, in that order.
    pub fn unique_index() -> (fields: Vec<&'static str>)
        ensures
            fields.len() == 2,
            fields[0]@ == NAME_FIELD@,
            fields[1]@ == SERVICE_NAME_FIELD@,
    {
        let mut fields: Vec<&'static str> = Vec::with_capacity(2);
        fields.push(NAME_FIELD);
        fields.push(SERVICE_NAME_FIELD);
        fields
    }

    /// What a read with or without a service name asks the database for. No
    /// service name and an empty one both ask for every flag.
    pub fn select(&self, service_name: Option<String>) -> (selection: Selection)
        ensures
            forall|flag: FlagModel|
                #[trigger] selection.admits(flag) == visible(flag, scope_of(service_name)),
            selection == match service_name {
                None => Selection::Everything,
                Some(service) => if service@.len() == 0 {
                    Selection::Everything
                } else {
                    Selection::ServiceOrGlobal(service)
                },
            },
    {
        Selection::for_scope(service_name)
    }

    /// Begins the write of a batch, seeding (`initial`) or overwriting.
    pub fn begin_store(&self, flags: Vec<Flag>, initial: bool) -> (session: WriteSession)
        ensures
            session@ == SessionModel::start(models(flags@), WritePolicy::of_initial(initial)),
    {
        WriteSession::begin(flags, initial)
    }
}

} // verus!
