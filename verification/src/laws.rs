//! What holds of every store, whatever is written to it.
//!
//! The statements are over the store model, so they hold of each backend that
//! writes by `write_batch`.

use crate::storage::{
    keyed, lists, visible, write_batch, write_one, FlagModel, KeyModel, StoreModel,
    WritePolicy,
};
use vstd::prelude::*;

verus! {

/// One call of a store's write: a batch and whether it seeds.
pub struct WriteModel {
    pub flags: Seq<FlagModel>,
    pub initial: bool,
}

/// The store after a series of writes, first to last.
pub open spec fn write_series(store: StoreModel, writes: Seq<WriteModel>) -> StoreModel
    decreases writes.len(),
{
    if writes.len() == 0 {
        store
    } else {
        write_batch(
            write_series(store, writes.drop_last()),
            writes.last().flags,
            WritePolicy::of_initial(writes.last().initial),
        )
    }
}

/// No two entries of the store carry the same name and service scope.
pub open spec fn no_key_twice(store: StoreModel) -> bool {
    forall|a: KeyModel, b: KeyModel|
        store.contains_key(a) && store.contains_key(b) && a != b ==> (#[trigger] store[a]).key() != (
        #[trigger] store[b]).key()
}

/// A store that files each entry under its own key holds no key twice.
pub proof fn lemma_keyed_no_key_twice(store: StoreModel)
    requires
        keyed(store),
    ensures
        no_key_twice(store),
{
}

/// Writing one flag keeps every entry under its own key.
pub proof fn lemma_write_one_keyed(store: StoreModel, flag: FlagModel, policy: WritePolicy)
    requires
        keyed(store),
    ensures
        keyed(write_one(store, flag, policy)),
{
}

/// Writing a batch keeps every entry under its own key.
pub proof fn lemma_write_batch_keyed(store: StoreModel, flags: Seq<FlagModel>, policy: WritePolicy)
    requires
        keyed(store),
    ensures
        keyed(write_batch(store, flags, policy)),
    decreases flags.len(),
{
    if flags.len() > 0 {
        lemma_write_batch_keyed(store, flags.drop_last(), policy);
        lemma_write_one_keyed(write_batch(store, flags.drop_last(), policy), flags.last(), policy);
    }
}

/// Uniqueness: after any series of writes to an empty store, seeding or not,
/// no two entries have the same name and service scope, and each entry is
/// found under its own key.
pub proof fn law_uniqueness(writes: Seq<WriteModel>)
    ensures
        keyed(write_series(Map::empty(), writes)),
        no_key_twice(write_series(Map::empty(), writes)),
    decreases writes.len(),
{
    if writes.len() > 0 {
        law_uniqueness(writes.drop_last());
        lemma_write_batch_keyed(
            write_series(Map::empty(), writes.drop_last()),
            writes.last().flags,
            WritePolicy::of_initial(writes.last().initial),
        );
    }
    lemma_keyed_no_key_twice(write_series(Map::empty(), writes));
}

/// Uniqueness is kept by a further series of writes to any store that has it.
pub proof fn law_uniqueness_kept(store: StoreModel, writes: Seq<WriteModel>)
    requires
        keyed(store),
    ensures
        keyed(write_series(store, writes)),
        no_key_twice(write_series(store, writes)),
    decreases writes.len(),
{
    if writes.len() > 0 {
        law_uniqueness_kept(store, writes.drop_last());
        lemma_write_batch_keyed(
            write_series(store, writes.drop_last()),
            writes.last().flags,
            WritePolicy::of_initial(writes.last().initial),
        );
    }
    lemma_keyed_no_key_twice(write_series(store, writes));
}

/// The store after the batch `[flag]` is the store after `flag`.
pub proof fn lemma_write_single(store: StoreModel, flag: FlagModel, policy: WritePolicy)
    ensures
        write_batch(store, seq![flag], policy) == write_one(store, flag, policy),
{
    let one = seq![flag];
    assert(one.drop_last() =~= Seq::<FlagModel>::empty());
    assert(one.last() == flag);
    assert(write_batch(store, one.drop_last(), policy) == store);
}

/// A seeding batch leaves every entry that the store already has as it is,
/// and never removes one.
pub proof fn law_seed_keeps_existing(store: StoreModel, flags: Seq<FlagModel>, key: KeyModel)
    requires
        store.contains_key(key),
    ensures
        write_batch(store, flags, WritePolicy::KeepExisting).contains_key(key),
        write_batch(store, flags, WritePolicy::KeepExisting)[key] == store[key],
    decreases flags.len(),
{
    if flags.len() > 0 {
        law_seed_keeps_existing(store, flags.drop_last(), key);
    }
}

/// Seed idempotence: of two seeding writes with the same key the first wins.
/// After both, the store is what it was after the first, whatever value the
/// second carried; and where the key was new, the entry is the first flag.
pub proof fn law_seed_idempotence(store: StoreModel, first: FlagModel, second: FlagModel)
    requires
        first.key() == second.key(),
    ensures
        write_batch(
            write_batch(store, seq![first], WritePolicy::KeepExisting),
            seq![second],
            WritePolicy::KeepExisting,
        ) == write_batch(store, seq![first], WritePolicy::KeepExisting),
        write_batch(store, seq![first, second], WritePolicy::KeepExisting) == write_batch(
            store,
            seq![first],
            WritePolicy::KeepExisting,
        ),
        !store.contains_key(first.key()) ==> write_batch(
            store,
            seq![first, second],
            WritePolicy::KeepExisting,
        )[first.key()] == first,
        store.contains_key(first.key()) ==> write_batch(
            store,
            seq![first, second],
            WritePolicy::KeepExisting,
        )[first.key()] == store[first.key()],
{
    let keep = WritePolicy::KeepExisting;
    let once = write_batch(store, seq![first], keep);
    lemma_write_single(store, first, keep);
    lemma_write_single(once, second, keep);
    let both = seq![first, second];
    assert(both.drop_last() =~= seq![first]);
    assert(both.last() == second);
}

/// Seeding the same batch a second time changes nothing.
pub proof fn law_seed_twice(store: StoreModel, flags: Seq<FlagModel>)
    ensures
        write_batch(
            write_batch(store, flags, WritePolicy::KeepExisting),
            flags,
            WritePolicy::KeepExisting,
        ) == write_batch(store, flags, WritePolicy::KeepExisting),
{
    let keep = WritePolicy::KeepExisting;
    let once = write_batch(store, flags, keep);
    assert forall|i: int| 0 <= i < flags.len() implies once.contains_key(
        (#[trigger] flags[i]).key(),
    ) by {
        lemma_written_key_present(store, flags, keep, i);
    }
    lemma_seed_present_is_noop(once, flags);
}

/// After a batch is written, under either policy, the key of each of its
/// flags has an entry.
pub proof fn lemma_written_key_present(
    store: StoreModel,
    flags: Seq<FlagModel>,
    policy: WritePolicy,
    i: int,
)
    requires
        0 <= i < flags.len(),
    ensures
        write_batch(store, flags, policy).contains_key(flags[i].key()),
    decreases flags.len(),
{
    if i < flags.len() - 1 {
        lemma_written_key_present(store, flags.drop_last(), policy, i);
    }
}

/// Seeding flags whose keys all have entries changes nothing.
pub proof fn lemma_seed_present_is_noop(store: StoreModel, flags: Seq<FlagModel>)
    requires
        forall|i: int| 0 <= i < flags.len() ==> store.contains_key((#[trigger] flags[i]).key()),
    ensures
        write_batch(store, flags, WritePolicy::KeepExisting) == store,
    decreases flags.len(),
{
    if flags.len() > 0 {
        let front = flags.drop_last();
        assert forall|i: int| 0 <= i < front.len() implies store.contains_key(
            (#[trigger] front[i]).key(),
        ) by {
            assert(front[i] == flags[i]);
        }
        lemma_seed_present_is_noop(store, front);
        assert(store.contains_key(flags[flags.len() - 1].key()));
    }
}

/// Overwrite: after a flag is written without seeding, the entry under its key
/// is that flag, whether or not the key had an entry before.
pub proof fn law_overwrite(store: StoreModel, flag: FlagModel)
    ensures
        write_batch(store, seq![flag], WritePolicy::Overwrite).contains_key(flag.key()),
        write_batch(store, seq![flag], WritePolicy::Overwrite)[flag.key()] == flag,
        forall|k: KeyModel|
            k != flag.key() ==> (write_batch(store, seq![flag], WritePolicy::Overwrite).contains_key(
                k,
            ) <==> store.contains_key(k)),
        forall|k: KeyModel|
            k != flag.key() && store.contains_key(k) ==> write_batch(
                store,
                seq![flag],
                WritePolicy::Overwrite,
            )[k] == store[k],
{
    lemma_write_single(store, flag, WritePolicy::Overwrite);
}

/// Overwrite within a batch: the entry under a key is the last flag of the
/// batch that has that key.
pub proof fn law_overwrite_latest(store: StoreModel, flags: Seq<FlagModel>, i: int)
    requires
        0 <= i < flags.len(),
        forall|j: int| i < j < flags.len() ==> (#[trigger] flags[j]).key() != flags[i].key(),
    ensures
        write_batch(store, flags, WritePolicy::Overwrite).contains_key(flags[i].key()),
        write_batch(store, flags, WritePolicy::Overwrite)[flags[i].key()] == flags[i],
    decreases flags.len(),
{
    if i < flags.len() - 1 {
        let front = flags.drop_last();
        assert forall|j: int| i < j < front.len() implies (#[trigger] front[j]).key()
            != front[i].key() by {
            assert(front[j] == flags[j]);
        }
        law_overwrite_latest(store, front, i);
        assert(flags[flags.len() - 1].key() != flags[i].key());
    }
}

/// Seeding within a batch: where the key is new to the store, the entry is the
/// first flag of the batch that has that key.
pub proof fn law_seed_earliest(store: StoreModel, flags: Seq<FlagModel>, i: int)
    requires
        0 <= i < flags.len(),
        !store.contains_key(flags[i].key()),
        forall|j: int| 0 <= j < i ==> (#[trigger] flags[j]).key() != flags[i].key(),
    ensures
        write_batch(store, flags, WritePolicy::KeepExisting).contains_key(flags[i].key()),
        write_batch(store, flags, WritePolicy::KeepExisting)[flags[i].key()] == flags[i],
    decreases flags.len(),
{
    let keep = WritePolicy::KeepExisting;
    let front = flags.drop_last();
    if i < flags.len() - 1 {
        assert forall|j: int| 0 <= j < i implies (#[trigger] front[j]).key() != front[i].key() by {
            assert(front[j] == flags[j]);
        }
        law_seed_earliest(store, front, i);
    } else {
        assert forall|j: int| 0 <= j < front.len() implies (#[trigger] front[j]).key()
            != flags[i].key() by {
            assert(front[j] == flags[j]);
        }
        lemma_unwritten_key_absent(store, front, keep, flags[i].key());
    }
}

/// A key that the store lacks and no flag of the batch has is still absent
/// after the batch.
pub proof fn lemma_unwritten_key_absent(
    store: StoreModel,
    flags: Seq<FlagModel>,
    policy: WritePolicy,
    key: KeyModel,
)
    requires
        !store.contains_key(key),
        forall|j: int| 0 <= j < flags.len() ==> (#[trigger] flags[j]).key() != key,
    ensures
        !write_batch(store, flags, policy).contains_key(key),
    decreases flags.len(),
{
    if flags.len() > 0 {
        let front = flags.drop_last();
        assert forall|j: int| 0 <= j < front.len() implies (#[trigger] front[j]).key() != key by {
            assert(front[j] == flags[j]);
        }
        lemma_unwritten_key_absent(store, front, policy, key);
        assert(flags[flags.len() - 1].key() != key);
    }
}

/// Writing two batches one after the other is writing them joined.
pub proof fn law_batches_join(
    store: StoreModel,
    first: Seq<FlagModel>,
    second: Seq<FlagModel>,
    policy: WritePolicy,
)
    ensures
        write_batch(write_batch(store, first, policy), second, policy) == write_batch(
            store,
            first + second,
            policy,
        ),
    decreases second.len(),
{
    if second.len() == 0 {
        assert(first + second =~= first);
    } else {
        law_batches_join(store, first, second.drop_last(), policy);
        assert((first + second).drop_last() =~= first + second.drop_last());
        assert((first + second).last() == second.last());
    }
}


/// Whole flags: a batch is written flag by flag, and whatever part of it has
/// been written, each entry of the store is, in all its fields at once, either
/// the entry that the store had before the batch or one flag of the part
/// written. No state between two flags holds a blend of an old and a new flag.
pub proof fn law_entries_are_whole(
    store: StoreModel,
    flags: Seq<FlagModel>,
    policy: WritePolicy,
    written: int,
    key: KeyModel,
)
    requires
        0 <= written <= flags.len(),
        write_batch(store, flags.take(written), policy).contains_key(key),
    ensures
        ({
            let seen = write_batch(store, flags.take(written), policy)[key];
            ||| store.contains_key(key) && seen == store[key]
            ||| exists|i: int| 0 <= i < written && #[trigger] flags[i] == seen && seen.key() == key
        }),
    decreases written,
{
    if written > 0 {
        let part = flags.take(written);
        let last = flags[written - 1];
        assert(part.drop_last() =~= flags.take(written - 1));
        assert(part.last() == last);
        let before = write_batch(store, flags.take(written - 1), policy);
        let seen = write_batch(store, part, policy)[key];
        if before.contains_key(key) && seen == before[key] {
            law_entries_are_whole(store, flags, policy, written - 1, key);
        } else {
            assert(seen == last && last.key() == key);
        }
    }
}

/// A batch written in part is a batch written: the store after the first
/// `written` flags, with the rest written to it, is the store after the whole
/// batch.
pub proof fn law_rest_completes(
    store: StoreModel,
    flags: Seq<FlagModel>,
    policy: WritePolicy,
    written: int,
)
    requires
        0 <= written <= flags.len(),
    ensures
        write_batch(
            write_batch(store, flags.take(written), policy),
            flags.skip(written),
            policy,
        ) == write_batch(store, flags, policy),
{
    law_batches_join(store, flags.take(written), flags.skip(written), policy);
    assert(flags.take(written) + flags.skip(written) =~= flags);
}


/// An empty service name is no filter: a read for it shows every flag, and
/// what lists the store for it is what lists the store for no name at all.
pub proof fn law_empty_name_is_no_filter(listing: Seq<FlagModel>, store: StoreModel)
    ensures
        forall|flag: FlagModel| #[trigger] visible(flag, Some(Seq::<char>::empty())),
        lists(listing, store, Some(Seq::<char>::empty())) <==> lists(listing, store, None),
{
    let unnamed = Some(Seq::<char>::empty());
    assert forall|flag: FlagModel| visible(flag, unnamed) == visible(flag, None) by {}
}

/// The keys of the entries that a read for `scope` shows.
pub open spec fn shown_keys(store: StoreModel, scope: Option<Seq<char>>) -> Set<KeyModel> {
    Set::new(|k: KeyModel| store.contains_key(k) && visible(store[k], scope))
}

/// A read gives as many flags as the store holds entries that the scope can
/// see: none is left out and none comes twice.
pub proof fn law_read_count(listing: Seq<FlagModel>, store: StoreModel, scope: Option<Seq<char>>)
    requires
        keyed(store),
        lists(listing, store, scope),
    ensures
        shown_keys(store, scope).finite(),
        listing.len() == shown_keys(store, scope).len(),
{
    let keys = listing.map_values(|f: FlagModel| f.key());
    assert(keys.no_duplicates()) by {
        assert forall|i: int, j: int| 0 <= i < keys.len() && 0 <= j < keys.len() && i != j implies keys[i]
            != keys[j] by {
            if i < j {
                assert(listing[i].key() != listing[j].key());
            } else {
                assert(listing[j].key() != listing[i].key());
            }
        }
    }
    assert(keys.to_set() =~= shown_keys(store, scope)) by {
        assert forall|k: KeyModel| keys.to_set().contains(k) <==> shown_keys(store, scope).contains(
            k,
        ) by {
            if keys.to_set().contains(k) {
                let i = choose|i: int| 0 <= i < keys.len() && keys[i] == k;
                assert(listing[i].key() == k);
            }
            if shown_keys(store, scope).contains(k) {
                assert(store.contains_key(k) && visible(store[k], scope));
                assert(listing.contains(store[k]));
                let i = choose|i: int| 0 <= i < listing.len() && listing[i] == store[k];
                assert(keys[i] == k);
            }
        }
    }
    keys.unique_seq_to_set();
}

/// A read without a service name, or with an empty one, gives as many flags
/// as the store holds.
pub proof fn law_unscoped_read_count(
    listing: Seq<FlagModel>,
    store: StoreModel,
    scope: Option<Seq<char>>,
)
    requires
        keyed(store),
        lists(listing, store, scope),
        scope matches Some(service) ==> service.len() == 0,
    ensures
        store.dom().finite(),
        listing.len() == store.dom().len(),
{
    law_read_count(listing, store, scope);
    assert(shown_keys(store, scope) =~= store.dom());
}

} // verus!
