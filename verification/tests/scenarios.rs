use k2hash_rust::K2hError;
use k2hash_rust::K2hash;
use k2hash_rust::K2hashKey;
use k2hash_rust::KeyQueue;
use k2hash_rust::Queue;
use k2hash_rust::QueueBuilder;

// An in-memory namespace: set one key, read it back.
#[test]
fn scenario_memory_set_get() {
    let mut db = K2hash::open_mem().expect("open_mem failed");
    assert!(db.set("hello", "world").is_ok());
    assert_eq!(db.get("hello"), Ok(Some("world".to_string())));
}

// A FIFO value queue with no prefix delivers in arrival order and then
// runs dry.
#[test]
fn scenario_fifo_two_values() {
    let mut db = K2hash::open_mem().expect("open_mem failed");
    let q = Queue::new(db.handle(), true, None, None, None).expect("Queue creation failed");
    assert!(q.put(&mut db, "a").is_ok());
    assert!(q.put(&mut db, "b").is_ok());
    assert_eq!(q.get(&mut db), Some("a".to_string()));
    assert_eq!(q.get(&mut db), Some("b".to_string()));
    assert_eq!(q.get(&mut db), None);
}

// A key-value queue delivers the pair and counts down.
#[test]
fn scenario_keyqueue_pair() {
    let mut db = K2hash::open_mem().expect("open_mem failed");
    let q =
        KeyQueue::new(db.handle(), true, None, None, None).expect("KeyQueue creation failed");
    assert!(q.put(&mut db, "k1", "v1").is_ok());
    assert_eq!(q.qsize(&db), 1);
    assert_eq!(q.get(&mut db), Some(("k1".to_string(), "v1".to_string())));
    assert_eq!(q.qsize(&db), 0);
}

// One attribute attached to a key reads back as the whole attribute set.
#[test]
fn scenario_single_attribute() {
    let mut db = K2hash::open_mem().expect("open_mem failed");
    assert!(db.set("hello", "world").is_ok());
    assert!(db.set_attribute("hello", "color", "red").is_ok());
    assert_eq!(
        db.get_attributes("hello"),
        Ok(Some(vec![("color".to_string(), "red".to_string())]))
    );
}

// Iterating a namespace that holds exactly one key yields that key, then
// nothing, and stays exhausted.
#[test]
fn scenario_iterate_single_key() {
    let mut db = K2hash::open_mem().expect("open_mem failed");
    assert!(db.set("hello", "world").is_ok());
    let mut it = K2hashKey::new(&db, None).expect("K2hashKey creation failed");
    assert_eq!(it.next(), Some("hello".to_string()));
    assert_eq!(it.next(), None);
    assert_eq!(it.next(), None);
}

// Two queues bound to one namespace and prefix observe one shared
// sequence: a push through either is seen and popped through the other.
#[test]
fn queues_share_one_partition() {
    let mut db = K2hash::open_mem().expect("open_mem failed");
    let q1 = Queue::new(db.handle(), true, None, None, None).expect("Queue creation failed");
    let q2 = Queue::new(db.handle(), true, None, None, None).expect("Queue creation failed");
    assert_eq!(q2.qsize(&db), 0);
    assert!(q1.put(&mut db, "v").is_ok());
    assert_eq!(q2.qsize(&db), 1);
    assert_eq!(q2.element(&db, 0), Some("v".to_string()));
    assert!(q2.put(&mut db, "w").is_ok());
    assert_eq!(q1.qsize(&db), 2);
    assert_eq!(q2.get(&mut db), Some("v".to_string()));
    assert_eq!(q1.get(&mut db), Some("w".to_string()));
    assert_eq!(q1.qsize(&db), 0);
}

// Key-value queues of one prefix share their partition too, and the two
// engines keep separate partitions even under one prefix.
#[test]
fn keyqueues_share_one_partition() {
    let mut db = K2hash::open_mem().expect("open_mem failed");
    let p = Some("part".to_string());
    let k1 = KeyQueue::new(db.handle(), true, p.clone(), None, None)
        .expect("KeyQueue creation failed");
    let k2 = KeyQueue::new(db.handle(), true, p.clone(), None, None)
        .expect("KeyQueue creation failed");
    let v = Queue::new(db.handle(), true, p.clone(), None, None)
        .expect("Queue creation failed");
    assert!(k1.put(&mut db, "k", "w").is_ok());
    assert_eq!(k2.qsize(&db), 1);
    assert_eq!(v.qsize(&db), 0, "the two engines keep separate partitions");
    assert_eq!(k2.get(&mut db), Some(("k".to_string(), "w".to_string())));
    assert_eq!(k1.qsize(&db), 0);
}

// Closing a queue releases only the handle: the stored elements persist
// in the namespace, and a queue later bound to the same prefix sees them.
#[test]
fn elements_persist_after_close() {
    let mut db = K2hash::open_mem().expect("open_mem failed");
    let p = Some("jobs".to_string());
    let mut q = Queue::new(db.handle(), true, p.clone(), None, None)
        .expect("Queue creation failed");
    assert!(q.put(&mut db, "pending").is_ok());
    assert!(q.close());
    let later = Queue::new(db.handle(), true, p.clone(), None, None)
        .expect("Queue creation failed");
    assert_eq!(later.qsize(&db), 1, "binding is idempotent over stored elements");
    assert_eq!(later.get(&mut db), Some("pending".to_string()));

    let mut kq = KeyQueue::new(db.handle(), false, p.clone(), None, None)
        .expect("KeyQueue creation failed");
    assert!(kq.put(&mut db, "k", "v").is_ok());
    assert!(kq.close());
    let klater = KeyQueue::new(db.handle(), false, p.clone(), None, None)
        .expect("KeyQueue creation failed");
    assert_eq!(klater.get(&mut db), Some(("k".to_string(), "v".to_string())));
}

// Partitions of different prefixes are independent.
#[test]
fn prefixes_partition_the_namespace() {
    let mut db = K2hash::open_mem().expect("open_mem failed");
    let qa = Queue::new(db.handle(), true, Some("a".to_string()), None, None)
        .expect("Queue creation failed");
    let qb = Queue::new(db.handle(), true, Some("b".to_string()), None, None)
        .expect("Queue creation failed");
    let qd = Queue::new(db.handle(), true, None, None, None)
        .expect("Queue creation failed");
    assert!(qa.put(&mut db, "x").is_ok());
    assert_eq!(qb.qsize(&db), 0);
    assert_eq!(qd.qsize(&db), 0);
    assert!(qd.put(&mut db, "y").is_ok());
    assert_eq!(qa.qsize(&db), 1);
    assert_eq!(qb.qsize(&db), 0);
}

// A LIFO queue delivers the later push first.
#[test]
fn lifo_two_values() {
    let mut db = K2hash::open_mem().expect("open_mem failed");
    let q = Queue::new(db.handle(), false, None, None, None).expect("Queue creation failed");
    assert!(q.put(&mut db, "v1").is_ok());
    assert!(q.put(&mut db, "v2").is_ok());
    assert_eq!(q.get(&mut db), Some("v2".to_string()));
    assert_eq!(q.get(&mut db), Some("v1".to_string()));
    assert_eq!(q.get(&mut db), None);
}

// The count after n pushes and m pops is n - m, in both directions, also
// when a FIFO and a LIFO queue drain one shared partition.
#[test]
fn count_after_pushes_and_pops() {
    let mut db = K2hash::open_mem().expect("open_mem failed");
    let q = Queue::new(db.handle(), true, None, None, None).expect("Queue creation failed");
    assert!(q.put(&mut db, "e1").is_ok());
    assert!(q.put(&mut db, "e2").is_ok());
    assert!(q.put(&mut db, "e3").is_ok());
    assert!(q.put(&mut db, "e4").is_ok());
    assert_eq!(q.qsize(&db), 4);
    assert!(q.get(&mut db).is_some());
    assert!(q.get(&mut db).is_some());
    assert_eq!(q.qsize(&db), 2);

    let l = Queue::new(db.handle(), false, None, None, None).expect("Queue creation failed");
    assert_eq!(l.qsize(&db), 2);
    assert!(l.get(&mut db).is_some());
    assert_eq!(l.qsize(&db), 1);
    assert_eq!(q.qsize(&db), 1);
}

// element(i) reads what the pop after i earlier pops would yield, without
// changing the count, in both directions.
#[test]
fn element_matches_pop_order() {
    let mut db = K2hash::open_mem().expect("open_mem failed");
    let q = Queue::new(db.handle(), true, None, None, None).expect("Queue creation failed");
    assert!(q.put(&mut db, "a").is_ok());
    assert!(q.put(&mut db, "b").is_ok());
    assert!(q.put(&mut db, "c").is_ok());
    assert_eq!(q.element(&db, 0), Some("a".to_string()));
    assert_eq!(q.element(&db, 1), Some("b".to_string()));
    assert_eq!(q.element(&db, 2), Some("c".to_string()));
    assert_eq!(q.element(&db, 3), None);
    assert_eq!(q.qsize(&db), 3);

    let l = Queue::new(db.handle(), false, None, None, None).expect("Queue creation failed");
    assert_eq!(l.element(&db, 0), Some("c".to_string()));
    assert_eq!(l.element(&db, 1), Some("b".to_string()));
    assert_eq!(l.element(&db, 2), Some("a".to_string()));
    assert_eq!(l.qsize(&db), 3);

    assert_eq!(q.get(&mut db), Some("a".to_string()));
    assert_eq!(l.get(&mut db), Some("c".to_string()));
    assert_eq!(q.get(&mut db), Some("b".to_string()));
    assert_eq!(q.get(&mut db), None);
}

// clear leaves the count at zero, and clearing again still succeeds.
#[test]
fn clear_is_idempotent() {
    let mut db = K2hash::open_mem().expect("open_mem failed");
    let q = Queue::new(db.handle(), true, None, None, None).expect("Queue creation failed");
    assert!(q.clear(&mut db), "clearing an empty queue must succeed");
    assert_eq!(q.qsize(&db), 0);
    assert!(q.put(&mut db, "x").is_ok());
    assert!(q.put(&mut db, "y").is_ok());
    assert!(q.clear(&mut db));
    assert_eq!(q.qsize(&db), 0);
    assert!(q.clear(&mut db));
    assert_eq!(q.qsize(&db), 0);
    assert_eq!(q.get(&mut db), None);
}

// The subkey round trip: an added subkey shows in the list; removing one
// of two leaves the other; removing the last yields the no-subkeys error.
#[test]
fn subkey_round_trip() {
    let mut db = K2hash::open_mem().expect("open_mem failed");
    assert!(db.set("parent", "value").is_ok());
    assert!(db.add_subkey("parent", "sub1", "v1").is_ok());
    assert!(db.add_subkey("parent", "sub2", "v2").is_ok());
    let subkeys = db.get_subkeys("parent").expect("subkeys expected");
    let names = subkeys.expect("a non-empty list expected");
    assert!(names.contains(&"sub1".to_string()));
    assert!(names.contains(&"sub2".to_string()));
    assert!(db.remove_subkeys("parent", vec!["sub1"]).is_ok());
    let names = db
        .get_subkeys("parent")
        .expect("subkeys expected")
        .expect("a non-empty list expected");
    assert!(!names.contains(&"sub1".to_string()));
    assert!(names.contains(&"sub2".to_string()));
    assert_eq!(db.get("sub1"), Ok(None), "the subkey's own entry goes too");
    assert!(db.remove_subkeys("parent", vec!["sub2"]).is_ok());
    assert_eq!(db.get_subkeys("parent"), Err(K2hError::NoSubkeys));
}

// A direct removal of a subkey's own key leaves the name dangling in the
// parent's list: the plain removal does not unlink from parents.
#[test]
fn direct_remove_leaves_dangling_name() {
    let mut db = K2hash::open_mem().expect("open_mem failed");
    assert!(db.set("parent", "value").is_ok());
    assert!(db.add_subkey("parent", "sub", "v").is_ok());
    assert!(db.remove("sub").is_ok());
    assert_eq!(db.get("sub"), Ok(None));
    assert_eq!(db.get_subkeys("parent"), Ok(Some(vec!["sub".to_string()])));
}

// Overwriting a key keeps its attributes and subkeys.
#[test]
fn overwrite_keeps_relations() {
    let mut db = K2hash::open_mem().expect("open_mem failed");
    assert!(db.set("k", "v1").is_ok());
    assert!(db.set_attribute("k", "a", "1").is_ok());
    assert!(db.add_subkey("k", "s", "sv").is_ok());
    assert!(db.set("k", "v2").is_ok());
    assert_eq!(db.get("k"), Ok(Some("v2".to_string())));
    assert_eq!(
        db.get_attributes("k"),
        Ok(Some(vec![("a".to_string(), "1".to_string())]))
    );
    assert_eq!(db.get_subkeys("k"), Ok(Some(vec!["s".to_string()])));
}

// Overwriting an attribute replaces its value in place.
#[test]
fn overwrite_attribute_value() {
    let mut db = K2hash::open_mem().expect("open_mem failed");
    assert!(db.set("k", "v").is_ok());
    assert!(db.set_attribute("k", "a", "1").is_ok());
    assert!(db.set_attribute("k", "b", "2").is_ok());
    assert!(db.set_attribute("k", "a", "3").is_ok());
    assert_eq!(
        db.get_attributes("k"),
        Ok(Some(vec![
            ("a".to_string(), "3".to_string()),
            ("b".to_string(), "2".to_string()),
        ]))
    );
}

// A read with the wrong password, or without any, sees an encrypted entry
// as absent; the right password and a registered one both open it.
#[test]
fn encrypted_reads() {
    let mut db = K2hash::open_mem().expect("open_mem failed");
    assert!(db
        .set_with_options("k", "v", Some("right"), None)
        .is_ok());
    assert_eq!(db.get("k"), Ok(None));
    assert_eq!(db.get_with_options("k", Some("wrong")), Ok(None));
    assert_eq!(
        db.get_with_options("k", Some("right")),
        Ok(Some("v".to_string()))
    );
    assert!(db.add_decryption_password("right").is_ok());
    assert_eq!(db.get("k"), Ok(Some("v".to_string())));
}

// Removing with all subkeys takes the subkeys' own entries along; the
// plain removal leaves them.
#[test]
fn remove_with_and_without_subkeys() {
    let mut db = K2hash::open_mem().expect("open_mem failed");
    assert!(db.set("p1", "v").is_ok());
    assert!(db.add_subkey("p1", "c1", "w1").is_ok());
    assert!(db.remove_with_options("p1", true).is_ok());
    assert_eq!(db.get("p1"), Ok(None));
    assert_eq!(db.get("c1"), Ok(None));

    assert!(db.set("p2", "v").is_ok());
    assert!(db.add_subkey("p2", "c2", "w2").is_ok());
    assert!(db.remove("p2").is_ok());
    assert_eq!(db.get("p2"), Ok(None));
    assert_eq!(db.get("c2"), Ok(Some("w2".to_string())));
}

// Renaming moves the entry with its relations and overwrites a taken name.
#[test]
fn rename_moves_and_overwrites() {
    let mut db = K2hash::open_mem().expect("open_mem failed");
    assert!(db.set("a", "va").is_ok());
    assert!(db.set("b", "vb").is_ok());
    assert!(db.set_attribute("a", "n", "w").is_ok());
    assert!(db.rename("a", "b").is_ok());
    assert_eq!(db.get("a"), Ok(None));
    assert_eq!(db.get("b"), Ok(Some("va".to_string())));
    assert_eq!(
        db.get_attributes("b"),
        Ok(Some(vec![("n".to_string(), "w".to_string())]))
    );
}

// Batch subkey writes stop at the first bad pair, keeping earlier writes.
#[test]
fn set_subkeys_stops_at_first_bad_pair() {
    let mut db = K2hash::open_mem().expect("open_mem failed");
    assert!(db.set("p", "v").is_ok());
    let r = db.set_subkeys("p", vec![("s1", "w1"), ("", "w2"), ("s3", "w3")]);
    assert_eq!(r, Err(K2hError::EmptyField));
    assert_eq!(db.get_subkeys("p"), Ok(Some(vec!["s1".to_string()])));
    assert_eq!(db.get("s3"), Ok(None));
}

// Batch subkey removals stop at the first name not attached, keeping
// earlier removals.
#[test]
fn remove_subkeys_stops_at_first_missing() {
    let mut db = K2hash::open_mem().expect("open_mem failed");
    assert!(db.set("p", "v").is_ok());
    assert!(db
        .set_subkeys("p", vec![("s1", "w1"), ("s2", "w2")])
        .is_ok());
    let r = db.remove_subkeys("p", vec!["s1", "absent", "s2"]);
    assert_eq!(r, Err(K2hError::RemoveFailed));
    assert_eq!(db.get_subkeys("p"), Ok(Some(vec!["s2".to_string()])));
}

// A closed queue takes nothing, yields nothing and counts zero, while the
// stored elements stay in the namespace; closing again reports failure
// without harm.
#[test]
fn closed_queue_behaviour() {
    let mut db = K2hash::open_mem().expect("open_mem failed");
    let mut q = Queue::new(db.handle(), true, None, None, None).expect("Queue creation failed");
    assert!(q.put(&mut db, "x").is_ok());
    assert!(q.close());
    assert_eq!(q.put(&mut db, "y"), Err(K2hError::PushFailed));
    assert_eq!(q.get(&mut db), None);
    assert_eq!(q.qsize(&db), 0);
    assert_eq!(q.element(&db, 0), None);
    assert!(q.empty(&db));
    assert!(!q.close());
    let other = Queue::new(db.handle(), true, None, None, None)
        .expect("Queue creation failed");
    assert_eq!(other.qsize(&db), 1, "the closed handle hid the elements, not removed them");
}

// remove(n) pops at most what is there, in pop order, and never errs.
#[test]
fn bulk_remove_drains_in_order() {
    let mut db = K2hash::open_mem().expect("open_mem failed");
    let q = Queue::new(db.handle(), true, None, None, None).expect("Queue creation failed");
    assert!(q.put(&mut db, "a").is_ok());
    assert!(q.put(&mut db, "b").is_ok());
    assert!(q.put(&mut db, "c").is_ok());
    assert_eq!(q.remove(&mut db, 0), Ok(vec![]));
    assert_eq!(
        q.remove(&mut db, 2),
        Ok(vec!["a".to_string(), "b".to_string()])
    );
    assert_eq!(q.remove(&mut db, 5), Ok(vec!["c".to_string()]));
    assert_eq!(q.remove(&mut db, 1), Ok(vec![]));

    let kq =
        KeyQueue::new(db.handle(), false, None, None, None).expect("KeyQueue creation failed");
    assert!(kq.put(&mut db, "k1", "v1").is_ok());
    assert!(kq.put(&mut db, "k2", "v2").is_ok());
    assert_eq!(
        kq.remove(&mut db, 3),
        Ok(vec![
            ("k2".to_string(), "v2".to_string()),
            ("k1".to_string(), "v1".to_string()),
        ])
    );
}

// An unset builder yields a FIFO queue.
#[test]
fn builder_defaults_to_fifo() {
    let mut db = K2hash::open_mem().expect("open_mem failed");
    let q = QueueBuilder::new(db.handle())
        .build()
        .expect("Queue creation failed");
    assert!(q.put(&mut db, "first").is_ok());
    assert!(q.put(&mut db, "second").is_ok());
    assert_eq!(q.get(&mut db), Some("first".to_string()));
}

// An iterator over a key's subkeys walks exactly the attached names.
#[test]
fn iterate_subkeys_of_key() {
    let mut db = K2hash::open_mem().expect("open_mem failed");
    assert!(db.set("p", "v").is_ok());
    assert!(db.add_subkey("p", "s1", "w1").is_ok());
    assert!(db.add_subkey("p", "s2", "w2").is_ok());
    let mut it = K2hashKey::new(&db, Some("p".to_string())).expect("iterator expected");
    assert_eq!(it.next(), Some("s1".to_string()));
    assert_eq!(it.next(), Some("s2".to_string()));
    assert_eq!(it.next(), None);
}

// Every validation and failure comes back as its own error value.
#[test]
fn error_values() {
    let mut db = K2hash::open_mem().expect("open_mem failed");
    assert_eq!(K2hash::open("").err(), Some(K2hError::OpenFailed));
    assert_eq!(K2hash::create("").err(), Some(K2hError::OpenFailed));
    assert_eq!(db.set("", "v"), Err(K2hError::EmptyKey));
    assert_eq!(db.set("k", ""), Err(K2hError::EmptyValue));
    assert_eq!(db.get(""), Err(K2hError::EmptyKey));
    assert_eq!(db.remove(""), Err(K2hError::EmptyKey));
    assert_eq!(db.remove("absent"), Err(K2hError::RemoveFailed));
    assert_eq!(db.rename("", "n"), Err(K2hError::EmptyKey));
    assert_eq!(db.rename("absent", "n"), Err(K2hError::RenameFailed));
    assert_eq!(db.set_attribute("k", "", "v"), Err(K2hError::EmptyField));
    assert_eq!(
        db.set_attribute("absent", "n", "v"),
        Err(K2hError::AttrWriteFailed)
    );
    assert_eq!(db.get_attributes(""), Err(K2hError::EmptyKey));
    assert_eq!(
        db.add_subkey("k", "", "v"),
        Err(K2hError::EmptyField)
    );
    assert_eq!(
        db.add_subkey("absent", "s", "v"),
        Err(K2hError::SubkeyWriteFailed)
    );
    assert_eq!(
        db.set_subkeys("absent", vec![("s", "v")]),
        Err(K2hError::SubkeyWriteFailed)
    );
    assert_eq!(db.get_subkeys(""), Err(K2hError::EmptyKey));
    assert_eq!(db.add_decryption_password(""), Err(K2hError::EmptyField));
    assert_eq!(
        db.set_default_encryption_password(""),
        Err(K2hError::EmptyField)
    );
    assert_eq!(db.begin_tx(""), Err(K2hError::TxFailed));
    assert_eq!(db.get_tx_file_fd(), Err(K2hError::TxFailed));
    assert_eq!(db.dump_to_file(""), Err(K2hError::EmptyField));
    assert_eq!(db.load_from_file("", None), Err(K2hError::EmptyField));
    assert!(db.set("k", "v").is_ok());
    assert_eq!(db.get_subkeys("k"), Err(K2hError::NoSubkeys));
    assert_eq!(db.get_attributes("k"), Err(K2hError::NoAttributes));
    assert_eq!(
        Queue::new(0, true, None, None, None).err(),
        Some(K2hError::QueueCreateFailed)
    );
    assert_eq!(
        KeyQueue::new(0, true, None, None, None).err(),
        Some(K2hError::QueueCreateFailed)
    );
    let q = Queue::new(db.handle(), true, None, None, None).expect("Queue creation failed");
    assert_eq!(q.put(&mut db, ""), Err(K2hError::EmptyField));
    let kq =
        KeyQueue::new(db.handle(), true, None, None, None).expect("KeyQueue creation failed");
    assert_eq!(kq.put(&mut db, "", "v"), Err(K2hError::EmptyField));
    assert_eq!(kq.put(&mut db, "k", ""), Err(K2hError::EmptyField));
    let empty = K2hash::open_mem().expect("open_mem failed");
    assert_eq!(
        K2hashKey::new(&empty, None).err(),
        Some(K2hError::NoMatch)
    );
    assert_eq!(
        K2hashKey::new(&db, Some("k".to_string())).err(),
        Some(K2hError::NoMatch)
    );
}

// A key may be linked as its own subkey: the write lands on the key's own
// entry, and removing the subkey removes the key with it.
#[test]
fn key_as_its_own_subkey() {
    let mut db = K2hash::open_mem().expect("open_mem failed");
    assert!(db.set("k", "v1").is_ok());
    assert!(db.add_subkey("k", "k", "v2").is_ok());
    assert_eq!(db.get("k"), Ok(Some("v2".to_string())));
    assert_eq!(db.get_subkeys("k"), Ok(Some(vec!["k".to_string()])));
    assert!(db.remove_subkeys("k", vec!["k"]).is_ok());
    assert_eq!(db.get("k"), Ok(None));
}

// The transaction journal lifecycle: no descriptor without a transaction,
// one while it runs, none after it stops.
#[test]
fn transaction_lifecycle() {
    let mut db = K2hash::open_mem().expect("open_mem failed");
    assert_eq!(db.get_tx_file_fd(), Err(K2hError::TxFailed));
    assert!(db.begin_tx("journal.log").is_ok());
    let fd = db.get_tx_file_fd().expect("descriptor expected");
    assert!(fd >= 0);
    assert!(db.stop_tx().is_ok());
    assert_eq!(db.get_tx_file_fd(), Err(K2hError::TxFailed));
    assert!(db.stop_tx().is_ok(), "stopping twice stays a success");
}
