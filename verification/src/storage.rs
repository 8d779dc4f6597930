//! The flag entity and the store that owns the canonical flag set.
//!
//! A store is modelled as a map from identity keys to flags. Writing is defined
//! on that map, one flag at a time; reading is defined as a listing of the
//! entries that a service scope can see.

use vstd::prelude::*;

verus! {

/// The identity of a flag in specifications: its name and its service scope.
pub type KeyModel = (Seq<char>, Seq<char>);

/// What a flag holds, as mathematical values.
pub struct FlagModel {
    pub name: Seq<char>,
    pub service_name: Seq<char>,
    pub raw_value: Seq<char>,
    pub value: bool,
}

impl FlagModel {
    /// The pair that identifies the flag within a store.
    pub open spec fn key(self) -> KeyModel {
        (self.name, self.service_name)
    }

    /// A flag with an empty service scope applies to every service.
    pub open spec fn is_global(self) -> bool {
        self.service_name.len() == 0
    }
}

/// The canonical flag set: every flag filed under its own identity key.
pub type StoreModel = Map<KeyModel, FlagModel>;

/// Whether a write replaces what is stored or only fills what is missing.
#[derive(Clone, Copy, Debug, PartialEq, Eq, Structural)]
pub enum WritePolicy {
    /// Insert the flag, replacing an entry with the same key.
    Overwrite,
    /// Insert the flag only where no entry has its key.
    KeepExisting,
}

impl WritePolicy {
    /// A seeding write keeps what is stored; any other write replaces it.
    pub open spec fn of_initial(initial: bool) -> WritePolicy {
        if initial {
            WritePolicy::KeepExisting
        } else {
            WritePolicy::Overwrite
        }
    }

    /// The policy that a write marked `initial` or not follows.
    pub fn from_initial(initial: bool) -> (policy: WritePolicy)
        ensures
            policy == WritePolicy::of_initial(initial),
    {
        if initial {
            WritePolicy::KeepExisting
        } else {
            WritePolicy::Overwrite
        }
    }
}

/// The store after one flag is written to it.
pub open spec fn write_one(store: StoreModel, flag: FlagModel, policy: WritePolicy) -> StoreModel {
    if policy == WritePolicy::KeepExisting && store.contains_key(flag.key()) {
        store
    } else {
        store.insert(flag.key(), flag)
    }
}

/// The store after a batch is written to it, flag by flag, first to last.
pub open spec fn write_batch(
    store: StoreModel,
    flags: Seq<FlagModel>,
    policy: WritePolicy,
) -> StoreModel
    decreases flags.len(),
{
    if flags.len() == 0 {
        store
    } else {
        write_one(write_batch(store, flags.drop_last(), policy), flags.last(), policy)
    }
}

/// Every entry is filed under the key that it carries.
pub open spec fn keyed(store: StoreModel) -> bool {
    forall|k: KeyModel| #[trigger] store.contains_key(k) ==> store[k].key() == k
}

/// Whether a read for `scope` shows the flag. Without a service name, or with
/// an empty one, every flag is shown; with any other, the flags of that service
/// and the global ones.
pub open spec fn visible(flag: FlagModel, scope: Option<Seq<char>>) -> bool {
    match scope {
        None => true,
        Some(service) => service.len() == 0 || flag.service_name == service || flag.is_global(),
    }
}

/// No two entries of the listing share an identity key.
pub open spec fn distinct(entries: Seq<FlagModel>) -> bool {
    forall|i: int, j: int|
        0 <= i < j < entries.len() ==> (#[trigger] entries[i]).key() != (#[trigger] entries[j]).key()
}

/// The listing is a read of `store` for `scope`: each visible entry once, in
/// some order, and nothing else.
pub open spec fn lists(listing: Seq<FlagModel>, store: StoreModel, scope: Option<Seq<char>>) -> bool {
    &&& distinct(listing)
    &&& forall|i: int|
        0 <= i < listing.len() ==> {
            let f = #[trigger] listing[i];
            store.contains_key(f.key()) && store[f.key()] == f && visible(f, scope)
        }
    &&& forall|k: KeyModel| #[trigger]
        store.contains_key(k) && visible(store[k], scope) ==> listing.contains(store[k])
}

/// The models of a run of flags, in order.
pub open spec fn models(flags: Seq<Flag>) -> Seq<FlagModel> {
    flags.map_values(|f: Flag| f@)
}

/// The scope that an optional service name asks for: that of the service, or
/// none where the name is absent or empty.
pub open spec fn scope_of(service_name: Option<String>) -> Option<Seq<char>> {
    match service_name {
        None => None,
        Some(s) => if s@.len() == 0 {
            None
        } else {
            Some(s@)
        },
    }
}

/// One toggle: a named boolean, optionally scoped to a service.
#[derive(Debug)]
pub struct Flag {
    name: String,
    service_name: String,
    raw_value: String,
    value: bool,
}

impl View for Flag {
    type V = FlagModel;

    closed spec fn view(&self) -> FlagModel {
        FlagModel {
            name: self.name@,
            service_name: self.service_name@,
            raw_value: self.raw_value@,
            value: self.value,
        }
    }
}

impl Clone for Flag {
    fn clone(&self) -> (copy: Flag)
        ensures
            copy@ == self@,
    {
        Flag {
            name: self.name.clone(),
            service_name: self.service_name.clone(),
            raw_value: self.raw_value.clone(),
            value: self.value,
        }
    }
}

impl Flag {
    /// Builds a flag from its four parts.
    pub fn new(name: String, service_name: String, raw_value: String, value: bool) -> (flag: Flag)
        ensures
            flag@ == (FlagModel {
                name: name@,
                service_name: service_name@,
                raw_value: raw_value@,
                value,
            }),
    {
        Flag { name, service_name, raw_value, value }
    }

    /// The flag's identifier, unique within its service scope.
    pub fn name(&self) -> (name: &String)
        ensures
            name@ == self@.name,
    {
        &self.name
    }

    /// The service that the flag is scoped to; empty for a global flag.
    pub fn service_name(&self) -> (service_name: &String)
        ensures
            service_name@ == self@.service_name,
    {
        &self.service_name
    }

    /// The unevaluated source of the flag's value.
    pub fn raw_value(&self) -> (raw_value: &String)
        ensures
            raw_value@ == self@.raw_value,
    {
        &self.raw_value
    }

    /// The currently resolved value.
    pub fn value(&self) -> (value: bool)
        ensures
            value == self@.value,
    {
        self.value
    }

    /// Whether the flag applies to every service.
    pub fn is_global(&self) -> (global: bool)
        ensures
            global == self@.is_global(),
    {
        self.service_name.as_str().is_empty()
    }

    /// Whether the two flags have the same identity key.
    pub fn same_key(&self, other: &Flag) -> (same: bool)
        ensures
            same == (self@.key() == other@.key()),
    {
        self.name == other.name && self.service_name == other.service_name
    }

    /// Whether a read for `service_name` shows the flag.
    pub fn visible_to(&self, service_name: &Option<String>) -> (shown: bool)
        ensures
            shown == visible(self@, scope_of(*service_name)),
    {
        match service_name {
            None => true,
            Some(service) => service.as_str().is_empty() || self.service_name == *service
                || self.is_global(),
        }
    }
}

/// A copy of the batch, flag by flag.
pub fn clone_flags(flags: &Vec<Flag>) -> (copy: Vec<Flag>)
    ensures
        models(copy@) == models(flags@),
{
    let mut copy: Vec<Flag> = Vec::with_capacity(flags.len());
    let mut i: usize = 0;
    while i < flags.len()
        invariant
            i <= flags.len(),
            copy.len() == i,
            forall|j: int| 0 <= j < i ==> (#[trigger] copy[j])@ == flags[j]@,
        decreases flags.len() - i,
    {
        copy.push(flags[i].clone());
        i += 1;
    }
    assert(models(copy@) =~= models(flags@));
    copy
}


/// Why a store could not read or write.
#[derive(Debug)]
pub enum StorageError {
    /// The backend could not be reached.
    Unreachable(String),
    /// A stored record could not be decoded into a flag.
    Decode(String),
    /// The backend refused a write that would break one of its constraints.
    Constraint(String),
}

impl StorageError {
    /// The text that came with the failure.
    pub open spec fn detail(self) -> Seq<char> {
        match self {
            StorageError::Unreachable(text) => text@,
            StorageError::Decode(text) => text@,
            StorageError::Constraint(text) => text@,
        }
    }

    /// The text that came with the failure.
    pub fn message(&self) -> (text: &String)
        ensures
            text@ == self.detail(),
    {
        match self {
            StorageError::Unreachable(text) => text,
            StorageError::Decode(text) => text,
            StorageError::Constraint(text) => text,
        }
    }
}

impl Clone for StorageError {
    fn clone(&self) -> (copy: StorageError)
        ensures
            copy == *self,
    {
        match self {
            StorageError::Unreachable(text) => StorageError::Unreachable(text.clone()),
            StorageError::Decode(text) => StorageError::Decode(text.clone()),
            StorageError::Constraint(text) => StorageError::Constraint(text.clone()),
        }
    }
}

/// Whether some entry of the listing has the key.
pub open spec fn holds(entries: Seq<FlagModel>, key: KeyModel) -> bool {
    exists|i: int| 0 <= i < entries.len() && (#[trigger] entries[i]).key() == key
}

/// Where in the listing an entry with the key stands.
pub open spec fn position(entries: Seq<FlagModel>, key: KeyModel) -> int {
    choose|i: int| 0 <= i < entries.len() && (#[trigger] entries[i]).key() == key
}

/// The listing as a store: each entry filed under its key.
pub open spec fn indexed(entries: Seq<FlagModel>) -> StoreModel {
    Map::new(|k: KeyModel| holds(entries, k), |k: KeyModel| entries[position(entries, k)])
}

/// In a listing without repeated keys, the index files each entry under its
/// own key.
pub proof fn lemma_indexed_entry(entries: Seq<FlagModel>, i: int)
    requires
        distinct(entries),
        0 <= i < entries.len(),
    ensures
        indexed(entries).contains_key(entries[i].key()),
        indexed(entries)[entries[i].key()] == entries[i],
{
    let k = entries[i].key();
    assert(holds(entries, k));
    let p = position(entries, k);
    assert(entries[p].key() == entries[i].key());
    if p < i {
        assert(entries[p].key() != entries[i].key());
    } else if i < p {
        assert(entries[i].key() != entries[p].key());
    }
}

/// An index files every entry under the key that the entry carries.
pub proof fn lemma_indexed_keyed(entries: Seq<FlagModel>)
    ensures
        keyed(indexed(entries)),
{
    assert forall|k: KeyModel| #[trigger] indexed(entries).contains_key(k) implies indexed(
        entries,
    )[k].key() == k by {
        assert(holds(entries, k));
    }
}

/// Appending a flag whose key is new inserts it into the index.
proof fn lemma_indexed_push(entries: Seq<FlagModel>, flag: FlagModel)
    requires
        distinct(entries),
        !holds(entries, flag.key()),
    ensures
        distinct(entries.push(flag)),
        indexed(entries.push(flag)) == indexed(entries).insert(flag.key(), flag),
{
    let after = entries.push(flag);
    assert forall|i: int, j: int| 0 <= i < j < after.len() implies (#[trigger] after[i]).key() != (
    #[trigger] after[j]).key() by {
        if j == entries.len() {
            assert(after[i] == entries[i]);
            if entries[i].key() == flag.key() {
                assert(holds(entries, flag.key()));
            }
        } else {
            assert(after[i] == entries[i] && after[j] == entries[j]);
        }
    }
    let left = indexed(after);
    let right = indexed(entries).insert(flag.key(), flag);
    assert forall|k: KeyModel| left.contains_key(k) <==> right.contains_key(k) by {
        if holds(after, k) {
            let i = position(after, k);
            if i < entries.len() {
                assert(entries[i].key() == k);
            }
        }
        if holds(entries, k) {
            let i = position(entries, k);
            assert(after[i].key() == k);
        }
        if k == flag.key() {
            assert(after[entries.len() as int].key() == k);
        }
    }
    assert forall|k: KeyModel| #[trigger] left.contains_key(k) implies left[k] == right[k] by {
        let i = position(after, k);
        lemma_indexed_entry(after, i);
        if i < entries.len() {
            assert(after[i] == entries[i]);
            lemma_indexed_entry(entries, i);
        }
    }
    assert(left =~= right);
}

/// Replacing an entry by a flag with the same key overwrites it in the index.
proof fn lemma_indexed_update(entries: Seq<FlagModel>, at: int, flag: FlagModel)
    requires
        distinct(entries),
        0 <= at < entries.len(),
        entries[at].key() == flag.key(),
    ensures
        distinct(entries.update(at, flag)),
        indexed(entries.update(at, flag)) == indexed(entries).insert(flag.key(), flag),
{
    let after = entries.update(at, flag);
    assert forall|i: int, j: int| 0 <= i < j < after.len() implies (#[trigger] after[i]).key() != (
    #[trigger] after[j]).key() by {
        assert(after[i].key() == entries[i].key());
        assert(after[j].key() == entries[j].key());
    }
    let left = indexed(after);
    let right = indexed(entries).insert(flag.key(), flag);
    assert forall|k: KeyModel| left.contains_key(k) <==> right.contains_key(k) by {
        if holds(after, k) {
            let i = position(after, k);
            assert(entries[i].key() == k);
        }
        if holds(entries, k) {
            let i = position(entries, k);
            assert(after[i].key() == k);
        }
        if k == flag.key() {
            assert(after[at].key() == k);
        }
    }
    assert forall|k: KeyModel| #[trigger] left.contains_key(k) implies left[k] == right[k] by {
        let i = position(after, k);
        lemma_indexed_entry(after, i);
        if i != at {
            assert(after[i] == entries[i]);
            lemma_indexed_entry(entries, i);
        }
    }
    assert(left =~= right);
}

/// The entries that a read for `scope` shows, in the order in which they stand.
pub open spec fn shown(entries: Seq<FlagModel>, scope: Option<Seq<char>>) -> Seq<FlagModel>
    decreases entries.len(),
{
    if entries.len() == 0 {
        Seq::empty()
    } else if visible(entries.last(), scope) {
        shown(entries.drop_last(), scope).push(entries.last())
    } else {
        shown(entries.drop_last(), scope)
    }
}

/// What is shown comes from the listing, is visible, and misses nothing visible.
proof fn lemma_shown_members(entries: Seq<FlagModel>, scope: Option<Seq<char>>)
    ensures
        forall|i: int|
            0 <= i < shown(entries, scope).len() ==> {
                let f = #[trigger] shown(entries, scope)[i];
                visible(f, scope) && entries.contains(f)
            },
        forall|i: int|
            0 <= i < entries.len() && visible(#[trigger] entries[i], scope) ==> shown(
                entries,
                scope,
            ).contains(entries[i]),
    decreases entries.len(),
{
    if entries.len() > 0 {
        let front = entries.drop_last();
        let last = entries.last();
        lemma_shown_members(front, scope);
        let sub = shown(front, scope);
        let all = shown(entries, scope);
        assert forall|i: int| 0 <= i < all.len() implies ({
            let f = #[trigger] all[i];
            visible(f, scope) && entries.contains(f)
        }) by {
            if i < sub.len() {
                let f = sub[i];
                assert(all[i] == f);
                assert(front.contains(f));
                let w = choose|w: int| 0 <= w < front.len() && front[w] == f;
                assert(entries[w] == f);
            } else {
                assert(all[i] == last);
                assert(entries[entries.len() - 1] == last);
            }
        }
        assert forall|i: int| 0 <= i < entries.len() && visible(
            #[trigger] entries[i],
            scope,
        ) implies all.contains(entries[i]) by {
            if i < front.len() {
                assert(front[i] == entries[i]);
                assert(sub.contains(front[i]));
                let w = choose|w: int| 0 <= w < sub.len() && sub[w] == front[i];
                assert(all[w] == entries[i]);
            } else {
                assert(all[all.len() - 1] == entries[i]);
            }
        }
    }
}

/// What is shown of a listing without repeated keys has no repeated keys.
proof fn lemma_shown_distinct(entries: Seq<FlagModel>, scope: Option<Seq<char>>)
    requires
        distinct(entries),
    ensures
        distinct(shown(entries, scope)),
    decreases entries.len(),
{
    if entries.len() > 0 {
        let front = entries.drop_last();
        let last = entries.last();
        assert forall|i: int, j: int| 0 <= i < j < front.len() implies (#[trigger] front[i]).key()
            != (#[trigger] front[j]).key() by {
            assert(front[i] == entries[i] && front[j] == entries[j]);
        }
        lemma_shown_distinct(front, scope);
        lemma_shown_members(front, scope);
        let sub = shown(front, scope);
        let all = shown(entries, scope);
        assert forall|i: int, j: int| 0 <= i < j < all.len() implies (#[trigger] all[i]).key() != (
        #[trigger] all[j]).key() by {
            if j < sub.len() {
                assert(all[i] == sub[i] && all[j] == sub[j]);
            } else {
                assert(all[j] == last);
                assert(all[i] == sub[i]);
                assert(front.contains(sub[i]));
                let w = choose|w: int| 0 <= w < front.len() && front[w] == sub[i];
                assert(entries[w] == sub[i]);
                assert(entries[entries.len() - 1] == last);
            }
        }
    }
}

/// What is shown of a listing without repeated keys is a read of its index.
pub proof fn lemma_shown_lists(entries: Seq<FlagModel>, scope: Option<Seq<char>>)
    requires
        distinct(entries),
    ensures
        lists(shown(entries, scope), indexed(entries), scope),
{
    let listing = shown(entries, scope);
    let store = indexed(entries);
    lemma_shown_distinct(entries, scope);
    lemma_shown_members(entries, scope);
    assert forall|i: int| 0 <= i < listing.len() implies ({
        let f = #[trigger] listing[i];
        store.contains_key(f.key()) && store[f.key()] == f && visible(f, scope)
    }) by {
        let f = listing[i];
        assert(entries.contains(f));
        let w = choose|w: int| 0 <= w < entries.len() && entries[w] == f;
        lemma_indexed_entry(entries, w);
    }
    assert forall|k: KeyModel| #[trigger]
        store.contains_key(k) && visible(store[k], scope) implies listing.contains(store[k]) by {
        assert(holds(entries, k));
        let p = position(entries, k);
        assert(store[k] == entries[p]);
    }
}


/// A place that owns the canonical flag set.
///
/// Every backend reads and writes by the same rules, stated over `model`. A
/// store is one state: whoever shares it shares a handle to it, and the store
/// itself is not copied.
pub trait Store: Sync {
    /// The flag set that the store holds. A store that says nothing of itself
    /// holds some flag set.
    open spec fn model(&self) -> StoreModel {
        arbitrary()
    }

    /// Whether `found` is a result that this store may give to a read for
    /// `scope`. A store that says nothing of itself may give any.
    open spec fn reads(
        &self,
        scope: Option<Seq<char>>,
        found: Result<Vec<Flag>, StorageError>,
    ) -> bool {
        true
    }

    /// Whether `done` is a result that this store may give to a write of the
    /// batch. A store that says nothing of itself may give any.
    open spec fn writes(
        &self,
        flags: Seq<FlagModel>,
        initial: bool,
        done: Result<(), StorageError>,
    ) -> bool {
        true
    }

    /// Reads the flags that `service_name` can see: all of them without a
    /// service name or with an empty one, else those of that service and the
    /// global ones. Each comes once, in no particular order; an empty store
    /// gives an empty list.
    fn get_flags(&self, service_name: Option<String>) -> (found: Result<Vec<Flag>, StorageError>)
        ensures
            found matches Ok(flags) ==> lists(models(flags@), self.model(), scope_of(service_name)),
            self.reads(scope_of(service_name), found),
    ;

    /// Writes the batch flag by flag, first to last. A seeding write
    /// (`initial`) leaves existing entries as they are; any other write
    /// replaces them. On failure a leading part of the batch has been written
    /// and the rest has not.
    fn store(&mut self, flags: Vec<Flag>, initial: bool) -> (done: Result<(), StorageError>)
        ensures
            done is Ok ==> final(self).model() == write_batch(
                old(self).model(),
                models(flags@),
                WritePolicy::of_initial(initial),
            ),
            done is Err ==> exists|n: int|
                0 <= n <= flags.len() && final(self).model() == #[trigger] write_batch(
                    old(self).model(),
                    models(flags@).take(n),
                    WritePolicy::of_initial(initial),
                ),
            old(self).writes(models(flags@), initial, done),
    ;
}

/// The volatile backend: the whole flag set in memory, gone at restart. It is
/// the one owner of its flags; to share it, share a handle to it.
#[derive(Debug)]
pub struct MemStore {
    data: Vec<Flag>,
}

impl View for MemStore {
    type V = StoreModel;

    closed spec fn view(&self) -> StoreModel {
        indexed(models(self.data@))
    }
}

impl MemStore {
    #[verifier::type_invariant]
    spec fn no_key_twice(&self) -> bool {
        distinct(models(self.data@))
    }

    /// The stored flags in the order in which their keys first came.
    pub closed spec fn entries(&self) -> Seq<FlagModel> {
        models(self.data@)
    }

    /// An empty store.
    pub fn new() -> (store: MemStore)
        ensures
            store@ == Map::<KeyModel, FlagModel>::empty(),
            store.entries() == Seq::<FlagModel>::empty(),
    {
        let store = MemStore { data: Vec::new() };
        assert(store.entries() =~= Seq::<FlagModel>::empty());
        assert(store@ =~= Map::<KeyModel, FlagModel>::empty());
        store
    }

    /// How many flags the store holds.
    pub fn len(&self) -> (count: usize)
        ensures
            count == self.entries().len(),
            count == self@.dom().len(),
            self@.dom().finite(),
    {
        proof {
            use_type_invariant(self);
            lemma_indexed_count(self.entries());
        }
        self.data.len()
    }

    /// Where the entry with the key of `flag` stands, if there is one.
    fn find(&self, flag: &Flag) -> (at: Option<usize>)
        ensures
            match at {
                Some(i) => i < self.data.len() && self.data[i as int]@.key() == flag@.key(),
                None => !holds(models(self.data@), flag@.key()),
            },
    {
        let mut i: usize = 0;
        while i < self.data.len()
            invariant
                i <= self.data.len(),
                forall|j: int| 0 <= j < i ==> (#[trigger] self.data[j])@.key() != flag@.key(),
            decreases self.data.len() - i,
        {
            if self.data[i].same_key(flag) {
                return Some(i);
            }
            i += 1;
        }
        assert(!holds(models(self.data@), flag@.key())) by {
            if holds(models(self.data@), flag@.key()) {
                let w = position(models(self.data@), flag@.key());
                assert(self.data[w]@.key() == flag@.key());
            }
        }
        None
    }

    /// Writes one flag: inserts it where its key is new; where the key is
    /// taken, replaces the entry under `Overwrite` and leaves it under
    /// `KeepExisting`.
    pub fn write(&mut self, flag: Flag, policy: WritePolicy)
        ensures
            final(self)@ == write_one(old(self)@, flag@, policy),
            distinct(final(self).entries()),
            final(self)@ == indexed(final(self).entries()),
            keyed(final(self)@),
    {
        proof {
            use_type_invariant(&*self);
        }
        let ghost before = models(self.data@);
        proof {
            lemma_indexed_keyed(before);
        }
        let at = self.find(&flag);
        // The entries are taken out while they change and put back whole, so
        // that what the store holds has no key twice at every moment.
        let mut data: Vec<Flag> = Vec::new();
        assert(models(data@) =~= Seq::<FlagModel>::empty());
        std::mem::swap(&mut self.data, &mut data);
        match at {
            Some(i) => {
                proof {
                    lemma_indexed_entry(before, i as int);
                }
                match policy {
                    WritePolicy::Overwrite => {
                        proof {
                            lemma_indexed_update(before, i as int, flag@);
                            assert(models(data@.update(i as int, flag)) =~= before.update(
                                i as int,
                                flag@,
                            ));
                        }
                        data.set(i, flag);
                    },
                    WritePolicy::KeepExisting => {},
                }
            },
            None => {
                proof {
                    lemma_indexed_push(before, flag@);
                    assert(models(data@.push(flag)) =~= before.push(flag@));
                }
                data.push(flag);
            },
        }
        self.data = data;
    }
}

/// An index holds as many entries as a listing without repeated keys.
pub proof fn lemma_indexed_count(entries: Seq<FlagModel>)
    requires
        distinct(entries),
    ensures
        indexed(entries).dom().finite(),
        indexed(entries).dom().len() == entries.len(),
    decreases entries.len(),
{
    if entries.len() == 0 {
        assert(indexed(entries).dom() =~= Set::<KeyModel>::empty()) by {
            assert forall|k: KeyModel| !indexed(entries).dom().contains(k) by {
                assert(!holds(entries, k));
            }
        }
    } else {
        let front = entries.drop_last();
        let last = entries.last();
        assert forall|i: int, j: int| 0 <= i < j < front.len() implies (#[trigger] front[i]).key()
            != (#[trigger] front[j]).key() by {
            assert(front[i] == entries[i] && front[j] == entries[j]);
        }
        assert(!holds(front, last.key())) by {
            if holds(front, last.key()) {
                let w = position(front, last.key());
                assert(entries[w].key() == front[w].key());
                assert(entries[entries.len() - 1] == last);
            }
        }
        lemma_indexed_count(front);
        lemma_indexed_push(front, last);
        assert(front.push(last) =~= entries);
        assert(!indexed(front).dom().contains(last.key()));
    }
}

impl Store for MemStore {
    open spec fn model(&self) -> StoreModel {
        self@
    }

    /// A read of the volatile store succeeds, and gives what is shown of its
    /// entries in the order in which they stand.
    open spec fn reads(
        &self,
        scope: Option<Seq<char>>,
        found: Result<Vec<Flag>, StorageError>,
    ) -> bool {
        found matches Ok(flags) && models(flags@) == shown(self.entries(), scope)
    }

    /// A write to the volatile store succeeds.
    open spec fn writes(
        &self,
        flags: Seq<FlagModel>,
        initial: bool,
        done: Result<(), StorageError>,
    ) -> bool {
        done is Ok
    }

    fn get_flags(&self, service_name: Option<String>) -> (found: Result<Vec<Flag>, StorageError>)
        ensures
            found is Ok,
            found matches Ok(flags) ==> models(flags@) == shown(
                self.entries(),
                scope_of(service_name),
            ),
    {
        proof {
            use_type_invariant(self);
        }
        let ghost scope = scope_of(service_name);
        let ghost entries = models(self.data@);
        let mut values: Vec<Flag> = Vec::with_capacity(self.data.len());
        let mut i: usize = 0;
        while i < self.data.len()
            invariant
                i <= self.data.len(),
                entries == models(self.data@),
                scope == scope_of(service_name),
                models(values@) == shown(entries.take(i as int), scope),
            decreases self.data.len() - i,
        {
            let ghost sofar = models(values@);
            proof {
                assert(entries.take(i + 1).drop_last() =~= entries.take(i as int));
                assert(entries.take(i + 1).last() == self.data[i as int]@);
            }
            if self.data[i].visible_to(&service_name) {
                values.push(self.data[i].clone());
                assert(models(values@) =~= sofar.push(self.data[i as int]@));
            }
            i += 1;
        }
        proof {
            assert(entries.take(i as int) =~= entries);
            lemma_shown_lists(entries, scope);
        }
        Ok(values)
    }

    fn store(&mut self, flags: Vec<Flag>, initial: bool) -> (done: Result<(), StorageError>)
        ensures
            done is Ok,
            distinct(final(self).entries()),
            final(self)@ == indexed(final(self).entries()),
            keyed(final(self)@),
    {
        proof {
            use_type_invariant(&*self);
            lemma_indexed_keyed(self.entries());
        }
        let policy = WritePolicy::from_initial(initial);
        let ghost before = self@;
        let ghost batch = models(flags@);
        assert(batch.take(0) =~= Seq::<FlagModel>::empty());
        let mut i: usize = 0;
        while i < flags.len()
            invariant
                i <= flags.len(),
                batch == models(flags@),
                self@ == write_batch(before, batch.take(i as int), policy),
                distinct(self.entries()),
                self@ == indexed(self.entries()),
                keyed(self@),
            decreases flags.len() - i,
        {
            proof {
                assert(batch.take(i + 1).drop_last() =~= batch.take(i as int));
                assert(batch.take(i + 1).last() == flags[i as int]@);
            }
            self.write(flags[i].clone(), policy);
            i += 1;
        }
        assert(batch.take(i as int) =~= batch);
        Ok(())
    }
}


/// Which backend keeps the flags.
#[derive(Clone, Copy, Debug, PartialEq, Eq, Structural)]
pub enum Type {
    /// The volatile backend.
    Mem,
    /// The durable, database-backed backend.
    Mongo,
}

impl Type {
    /// The backend that a name selects, if it selects one.
    pub open spec fn named(name: Seq<char>) -> Option<Type> {
        if name == "mem"@ {
            Some(Type::Mem)
        } else if name == "mongo"@ {
            Some(Type::Mongo)
        } else {
            None
        }
    }

    /// Reads a backend's name: `mem` or `mongo`, and nothing else.
    pub fn parse(name: &str) -> (parsed: Result<Type, &'static str>)
        ensures
            match parsed {
                Ok(kind) => Type::named(name@) == Some(kind),
                Err(why) => Type::named(name@) is None && why@ == "Error parsing storage type"@,
            },
    {
        let given = name.to_owned();
        if given == "mem".to_owned() {
            Ok(Type::Mem)
        } else if given == "mongo".to_owned() {
            Ok(Type::Mongo)
        } else {
            Err("Error parsing storage type")
        }
    }
}

impl std::str::FromStr for Type {
    type Err = &'static str;

    fn from_str(s: &str) -> (parsed: Result<Type, &'static str>)
        ensures
            match parsed {
                Ok(kind) => Type::named(s@) == Some(kind),
                Err(why) => Type::named(s@) is None && why@ == "Error parsing storage type"@,
            },
    {
        Type::parse(s)
    }
}

} // verus!
