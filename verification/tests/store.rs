use feature_toggles::storage::{Flag, MemStore, StorageError, Store, Type, WritePolicy};

fn flag(name: &str, service: &str, raw: &str, value: bool) -> Flag {
    Flag::new(name.to_string(), service.to_string(), raw.to_string(), value)
}

fn names(flags: &[Flag]) -> Vec<String> {
    let mut out: Vec<String> = flags.iter().map(|f| f.name().clone()).collect();
    out.sort();
    out
}

#[test]
fn empty_store_reads_empty() {
    let store = MemStore::new();
    assert_eq!(store.len(), 0);
    assert_eq!(store.get_flags(None).unwrap().len(), 0);
    assert_eq!(store.get_flags(Some("x".to_string())).unwrap().len(), 0);
}

#[test]
fn scoping_filter() {
    let mut store = MemStore::new();
    store
        .store(vec![flag("a", "x", "true", true), flag("b", "", "false", false)], false)
        .unwrap();

    let for_x = store.get_flags(Some("x".to_string())).unwrap();
    assert_eq!(names(&for_x), vec!["a".to_string(), "b".to_string()]);

    let for_y = store.get_flags(Some("y".to_string())).unwrap();
    assert_eq!(for_y.len(), 1);
    assert_eq!(for_y[0].name(), "b");
    assert_eq!(for_y[0].service_name(), "");
    assert_eq!(for_y[0].value(), false);

    let all = store.get_flags(None).unwrap();
    assert_eq!(names(&all), vec!["a".to_string(), "b".to_string()]);
}

#[test]
fn end_to_end_global_flag() {
    let mut store = MemStore::new();
    store.store(vec![flag("beta", "", "true", true)], false).unwrap();

    let all = store.get_flags(None).unwrap();
    assert_eq!(all.len(), 1);
    assert_eq!(all[0].name(), "beta");
    assert_eq!(all[0].service_name(), "");
    assert_eq!(all[0].raw_value(), "true");
    assert_eq!(all[0].value(), true);

    let checkout = store.get_flags(Some("checkout".to_string())).unwrap();
    assert_eq!(checkout.len(), 1);
    assert_eq!(checkout[0].name(), "beta");
    assert_eq!(checkout[0].service_name(), "");
    assert_eq!(checkout[0].raw_value(), "true");
    assert_eq!(checkout[0].value(), true);
}

#[test]
fn empty_service_name_reads_every_flag() {
    let mut store = MemStore::new();
    store
        .store(vec![flag("a", "x", "1", true), flag("b", "", "0", false)], false)
        .unwrap();
    let unnamed = store.get_flags(Some(String::new())).unwrap();
    assert_eq!(unnamed.len(), 2);
    assert_eq!(names(&unnamed), vec!["a".to_string(), "b".to_string()]);
    let unscoped = store.get_flags(None).unwrap();
    assert_eq!(names(&unnamed), names(&unscoped));
    let a = unnamed.iter().find(|f| f.name() == "a").unwrap();
    assert_eq!(a.service_name(), "x");
    assert_eq!(a.raw_value(), "1");
    assert_eq!(a.value(), true);
}

#[test]
fn a_key_is_held_once() {
    let mut store = MemStore::new();
    store.store(vec![flag("a", "x", "1", true)], false).unwrap();
    store.store(vec![flag("a", "x", "2", false)], false).unwrap();
    store.store(vec![flag("a", "x", "3", true)], true).unwrap();
    store
        .store(vec![flag("a", "x", "4", true), flag("a", "x", "5", false)], false)
        .unwrap();
    assert_eq!(store.len(), 1);
    assert_eq!(store.get_flags(None).unwrap().len(), 1);
    assert_eq!(store.get_flags(Some("x".to_string())).unwrap().len(), 1);
}

#[test]
fn same_name_in_two_services_is_two_flags() {
    let mut store = MemStore::new();
    store
        .store(
            vec![flag("a", "x", "1", true), flag("a", "y", "2", false), flag("a", "", "3", true)],
            false,
        )
        .unwrap();
    assert_eq!(store.len(), 3);
    let for_x = store.get_flags(Some("x".to_string())).unwrap();
    let mut raws: Vec<String> = for_x.iter().map(|f| f.raw_value().clone()).collect();
    raws.sort();
    assert_eq!(raws, vec!["1".to_string(), "3".to_string()]);
}

#[test]
fn seeding_twice_keeps_the_first_value() {
    let mut store = MemStore::new();
    store.store(vec![flag("a", "x", "first", true)], true).unwrap();
    store.store(vec![flag("a", "x", "second", false)], true).unwrap();
    let found = store.get_flags(None).unwrap();
    assert_eq!(found.len(), 1);
    assert_eq!(found[0].raw_value(), "first");
    assert_eq!(found[0].value(), true);
}

#[test]
fn seeding_keeps_a_flag_that_was_overwritten_at_run_time() {
    let mut store = MemStore::new();
    store.store(vec![flag("a", "", "seed", false)], true).unwrap();
    store.store(vec![flag("a", "", "runtime", true)], false).unwrap();
    store
        .store(vec![flag("a", "", "seed", false), flag("b", "", "new", true)], true)
        .unwrap();
    let found = store.get_flags(None).unwrap();
    assert_eq!(found.len(), 2);
    let a = found.iter().find(|f| f.name() == "a").unwrap();
    assert_eq!(a.raw_value(), "runtime");
    assert_eq!(a.value(), true);
    let b = found.iter().find(|f| f.name() == "b").unwrap();
    assert_eq!(b.raw_value(), "new");
}

#[test]
fn seeding_within_a_batch_keeps_the_first() {
    let mut store = MemStore::new();
    store
        .store(vec![flag("a", "x", "one", true), flag("a", "x", "two", false)], true)
        .unwrap();
    let found = store.get_flags(None).unwrap();
    assert_eq!(found.len(), 1);
    assert_eq!(found[0].raw_value(), "one");
}

#[test]
fn overwriting_gives_the_latest_value() {
    let mut store = MemStore::new();
    store.store(vec![flag("a", "x", "first", true)], false).unwrap();
    store.store(vec![flag("a", "x", "second", false)], false).unwrap();
    let found = store.get_flags(None).unwrap();
    assert_eq!(found.len(), 1);
    assert_eq!(found[0].raw_value(), "second");
    assert_eq!(found[0].value(), false);
}

#[test]
fn overwriting_within_a_batch_keeps_the_last() {
    let mut store = MemStore::new();
    store
        .store(vec![flag("a", "x", "one", true), flag("a", "x", "two", false)], false)
        .unwrap();
    let found = store.get_flags(None).unwrap();
    assert_eq!(found.len(), 1);
    assert_eq!(found[0].raw_value(), "two");
    assert_eq!(found[0].value(), false);
}

#[test]
fn overwriting_a_seeded_flag_replaces_it() {
    let mut store = MemStore::new();
    store.store(vec![flag("a", "x", "seed", true)], true).unwrap();
    store.store(vec![flag("a", "x", "later", false)], false).unwrap();
    let found = store.get_flags(Some("x".to_string())).unwrap();
    assert_eq!(found.len(), 1);
    assert_eq!(found[0].raw_value(), "later");
}

#[test]
fn write_one_flag_by_policy() {
    let mut store = MemStore::new();
    store.write(flag("a", "x", "1", true), WritePolicy::KeepExisting);
    store.write(flag("a", "x", "2", false), WritePolicy::KeepExisting);
    assert_eq!(store.get_flags(None).unwrap()[0].raw_value(), "1");
    store.write(flag("a", "x", "3", false), WritePolicy::Overwrite);
    assert_eq!(store.get_flags(None).unwrap()[0].raw_value(), "3");
    assert_eq!(store.len(), 1);
}

#[test]
fn policy_of_a_write() {
    assert_eq!(WritePolicy::from_initial(true), WritePolicy::KeepExisting);
    assert_eq!(WritePolicy::from_initial(false), WritePolicy::Overwrite);
}

#[test]
fn reads_hand_out_copies() {
    let mut store = MemStore::new();
    store.store(vec![flag("a", "x", "1", true)], false).unwrap();
    let first = store.get_flags(None).unwrap();
    store.store(vec![flag("a", "x", "2", false)], false).unwrap();
    assert_eq!(first[0].raw_value(), "1");
    assert_eq!(store.get_flags(None).unwrap()[0].raw_value(), "2");
}

#[test]
fn flag_parts() {
    let f = flag("beta", "checkout", "50%", true);
    assert_eq!(f.name(), "beta");
    assert_eq!(f.service_name(), "checkout");
    assert_eq!(f.raw_value(), "50%");
    assert_eq!(f.value(), true);
    assert!(!f.is_global());
    assert!(flag("beta", "", "x", false).is_global());
    assert!(f.same_key(&flag("beta", "checkout", "other", false)));
    assert!(!f.same_key(&flag("beta", "", "50%", true)));
    assert!(!f.same_key(&flag("alpha", "checkout", "50%", true)));
    assert!(f.visible_to(&None));
    assert!(f.visible_to(&Some("checkout".to_string())));
    assert!(!f.visible_to(&Some("billing".to_string())));
    assert!(flag("g", "", "x", true).visible_to(&Some("billing".to_string())));
    assert!(f.visible_to(&Some(String::new())));
    assert!(flag("g", "", "x", true).visible_to(&Some(String::new())));
    let copy = f.clone();
    assert_eq!(copy.name(), "beta");
    assert_eq!(copy.service_name(), "checkout");
    assert_eq!(copy.raw_value(), "50%");
    assert_eq!(copy.value(), true);
}

#[test]
fn storage_type_names() {
    assert_eq!(Type::parse("mem"), Ok(Type::Mem));
    assert_eq!(Type::parse("mongo"), Ok(Type::Mongo));
    assert_eq!(Type::parse("Mem"), Err("Error parsing storage type"));
    assert_eq!(Type::parse(""), Err("Error parsing storage type"));
    assert_eq!(Type::parse("noop"), Err("Error parsing storage type"));
    assert_eq!("mem".parse::<Type>(), Ok(Type::Mem));
    assert_eq!("mongo".parse::<Type>(), Ok(Type::Mongo));
    assert_eq!("redis".parse::<Type>(), Err("Error parsing storage type"));
}

#[test]
fn storage_error_messages() {
    assert_eq!(StorageError::Unreachable("down".to_string()).message(), "down");
    assert_eq!(StorageError::Decode("bad record".to_string()).message(), "bad record");
    assert_eq!(StorageError::Constraint("duplicate".to_string()).message(), "duplicate");
    let copy = StorageError::Decode("bad record".to_string()).clone();
    assert!(matches!(copy, StorageError::Decode(ref text) if text == "bad record"));
}

#[test]
fn every_state_of_a_batch_holds_whole_flags() {
    let batch = vec![
        flag("a", "x", "new-a", true),
        flag("b", "", "new-b", false),
        flag("a", "x", "newer-a", false),
    ];
    let mut store = MemStore::new();
    store.store(vec![flag("a", "x", "old-a", false), flag("c", "y", "old-c", true)], false).unwrap();
    let whole: Vec<(String, String, String, bool)> = vec![
        ("a".to_string(), "x".to_string(), "old-a".to_string(), false),
        ("c".to_string(), "y".to_string(), "old-c".to_string(), true),
        ("a".to_string(), "x".to_string(), "new-a".to_string(), true),
        ("b".to_string(), "".to_string(), "new-b".to_string(), false),
        ("a".to_string(), "x".to_string(), "newer-a".to_string(), false),
    ];
    for next in batch {
        store.write(next, WritePolicy::Overwrite);
        for seen in store.get_flags(None).unwrap() {
            let parts = (
                seen.name().clone(),
                seen.service_name().clone(),
                seen.raw_value().clone(),
                seen.value(),
            );
            assert!(whole.contains(&parts), "{:?}", parts);
        }
    }
    let a = store.get_flags(Some("x".to_string())).unwrap();
    let a = a.iter().find(|f| f.name() == "a").unwrap();
    assert_eq!(a.raw_value(), "newer-a");
    assert_eq!(store.len(), 3);
}

#[test]
fn a_batch_in_two_parts_is_the_batch() {
    let mut whole = MemStore::new();
    let mut parts = MemStore::new();
    for initial in [true, false] {
        whole
            .store(
                vec![flag("a", "x", "1", true), flag("b", "", "2", false), flag("a", "x", "3", false)],
                initial,
            )
            .unwrap();
        parts.store(vec![flag("a", "x", "1", true)], initial).unwrap();
        parts.store(vec![flag("b", "", "2", false), flag("a", "x", "3", false)], initial).unwrap();
        let mut left: Vec<(String, String, bool)> = whole
            .get_flags(None)
            .unwrap()
            .iter()
            .map(|f| (f.name().clone(), f.raw_value().clone(), f.value()))
            .collect();
        let mut right: Vec<(String, String, bool)> = parts
            .get_flags(None)
            .unwrap()
            .iter()
            .map(|f| (f.name().clone(), f.raw_value().clone(), f.value()))
            .collect();
        left.sort();
        right.sort();
        assert_eq!(left, right);
    }
}

#[test]
fn unscoped_read_gives_every_flag_once() {
    let mut store = MemStore::new();
    store
        .store(
            vec![
                flag("a", "x", "1", true),
                flag("b", "", "2", false),
                flag("c", "y", "3", true),
                flag("a", "y", "4", false),
                flag("a", "x", "5", false),
            ],
            false,
        )
        .unwrap();
    assert_eq!(store.len(), 4);
    assert_eq!(store.get_flags(None).unwrap().len(), store.len());
    assert_eq!(store.get_flags(Some(String::new())).unwrap().len(), store.len());
    assert_eq!(store.get_flags(Some("y".to_string())).unwrap().len(), 3);
    assert_eq!(store.get_flags(Some("z".to_string())).unwrap().len(), 1);
}
