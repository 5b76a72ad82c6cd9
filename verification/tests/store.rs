use tenebrae::error::StoreError;
use tenebrae::signature::Signature;
use tenebrae::store::SignatureStore;

fn eicar() -> Signature {
    Signature::new(7, "EICAR", "44d88612fea8a8f36de82e1278abb02f", "eicar.com", "abc123")
}

fn strings(values: &[&str]) -> Vec<String> {
    values.iter().map(|v| v.to_string()).collect()
}

#[test]
fn new_record_is_not_stored_yet() {
    let sig = eicar();
    assert_eq!(sig.id, 0);
    assert_eq!(sig.index, 0);
    assert_eq!(sig.owner, 7);
    assert_eq!(sig.name, "EICAR");
    assert_eq!(sig.signature, "44d88612fea8a8f36de82e1278abb02f");
    assert_eq!(sig.filename, "eicar.com");
    assert_eq!(sig.filehash, "abc123");
}

#[test]
fn count_of_empty_store_is_zero() {
    let store = SignatureStore::new();
    assert_eq!(Signature::count(&store), Ok(0));
}

#[test]
fn count_after_three_distinct_signatures_is_three() {
    let mut store = SignatureStore::new();
    let batch = vec![
        Signature::new(1, "a", "s1", "f", "h"),
        Signature::new(1, "b", "s2", "f", "h"),
        Signature::new(1, "c", "s3", "f", "h"),
    ];
    assert_eq!(Signature::persist_data(&batch, &mut store), Ok(3));
    assert_eq!(Signature::count(&store), Ok(3));
}

#[test]
fn first_submission_inserts_and_second_tallies() {
    let mut store = SignatureStore::new();
    let before = Signature::count(&store).unwrap();
    assert_eq!(Signature::persist_data(&[eicar()], &mut store), Ok(1));
    assert_eq!(Signature::count(&store).unwrap(), before + 1);
    let row = Signature::fetch(1, &store).unwrap();
    assert_eq!(row.index, 0);
    assert_eq!(row.id, 1);

    assert_eq!(Signature::persist_data(&[eicar()], &mut store), Ok(1));
    assert_eq!(Signature::count(&store).unwrap(), before + 1);
    let row = Signature::fetch(1, &store).unwrap();
    assert_eq!(row.index, 1);
    assert_eq!(row.id, 1);
}

#[test]
fn every_resubmission_adds_one_to_the_tally() {
    let mut store = SignatureStore::new();
    let batch = vec![
        Signature::new(1, "a", "s1", "f", "h"),
        Signature::new(1, "b", "s2", "f", "h"),
    ];
    Signature::persist_data(&batch, &mut store).unwrap();
    Signature::persist_data(&[Signature::new(1, "c", "s3", "f", "h")], &mut store).unwrap();
    for round in 1..=4 {
        assert_eq!(Signature::persist_data(&batch, &mut store), Ok(2));
        assert_eq!(Signature::count(&store), Ok(3));
        assert_eq!(Signature::fetch(1, &store).unwrap().index, round);
        assert_eq!(Signature::fetch(2, &store).unwrap().index, round);
        assert_eq!(Signature::fetch(3, &store).unwrap().index, 0);
    }
}

#[test]
fn collision_keeps_what_was_first_recorded() {
    let mut store = SignatureStore::new();
    Signature::persist_data(&[eicar()], &mut store).unwrap();
    let again = Signature::new(9, "renamed", "44d88612fea8a8f36de82e1278abb02f", "eicar.com", "abc123");
    Signature::persist_data(&[again], &mut store).unwrap();
    let row = Signature::fetch(1, &store).unwrap();
    assert_eq!(row.name, "EICAR");
    assert_eq!(row.owner, 7);
    assert_eq!(row.index, 1);
    assert_eq!(Signature::count(&store), Ok(1));
}

#[test]
fn a_fact_differs_when_any_of_its_three_parts_differs() {
    let mut store = SignatureStore::new();
    let batch = vec![
        Signature::new(1, "n", "s", "f", "h"),
        Signature::new(1, "n", "s2", "f", "h"),
        Signature::new(1, "n", "s", "f2", "h"),
        Signature::new(1, "n", "s", "f", "h2"),
    ];
    assert_eq!(Signature::persist_data(&batch, &mut store), Ok(4));
    assert_eq!(Signature::count(&store), Ok(4));
    assert!(Signature::new(1, "n", "s", "f", "h").collides(&Signature::new(2, "m", "s", "f", "h")));
    assert!(!Signature::new(1, "n", "s", "f", "h").collides(&Signature::new(1, "n", "s", "f", "h2")));
}

#[test]
fn a_fact_repeated_within_a_batch_is_stored_once_and_tallied() {
    let mut store = SignatureStore::new();
    let batch = vec![eicar(), Signature::new(1, "x", "other", "f", "h"), eicar()];
    assert_eq!(Signature::persist_data(&batch, &mut store), Ok(3));
    assert_eq!(Signature::count(&store), Ok(2));
    assert_eq!(Signature::fetch(1, &store).unwrap().index, 1);
    assert_eq!(Signature::fetch(2, &store).unwrap().index, 0);
}

#[test]
fn ids_follow_the_order_of_first_insertion() {
    let mut store = SignatureStore::new();
    Signature::persist_data(&[Signature::new(1, "a", "s1", "f", "h")], &mut store).unwrap();
    Signature::persist_data(
        &[Signature::new(1, "a", "s1", "f", "h"), Signature::new(2, "b", "s2", "f", "h")],
        &mut store,
    )
    .unwrap();
    assert_eq!(Signature::fetch(1, &store).unwrap().signature, "s1");
    assert_eq!(Signature::fetch(2, &store).unwrap().signature, "s2");
    assert_eq!(Signature::fetch(2, &store).unwrap().owner, 2);
}

#[test]
fn empty_batch_changes_nothing() {
    let mut store = SignatureStore::new();
    Signature::persist_data(&[eicar()], &mut store).unwrap();
    assert_eq!(Signature::persist_data(&[], &mut store), Ok(0));
    assert_eq!(Signature::count(&store), Ok(1));
    assert_eq!(Signature::fetch(1, &store).unwrap().index, 0);
}

#[test]
fn fetch_of_absent_id_is_not_found() {
    let mut store = SignatureStore::new();
    assert_eq!(Signature::fetch(1, &store).err(), Some(StoreError::NotFound));
    Signature::persist_data(&[eicar()], &mut store).unwrap();
    assert_eq!(Signature::fetch(0, &store).err(), Some(StoreError::NotFound));
    assert_eq!(Signature::fetch(2, &store).err(), Some(StoreError::NotFound));
    assert_eq!(Signature::fetch(-1, &store).err(), Some(StoreError::NotFound));
    assert!(Signature::fetch(1, &store).is_ok());
}

#[test]
fn search_for_nothing_finds_nothing() {
    let mut store = SignatureStore::new();
    assert_eq!(Signature::search(&[], &store).unwrap().len(), 0);
    Signature::persist_data(&[eicar()], &mut store).unwrap();
    assert_eq!(Signature::search(&[], &store).unwrap().len(), 0);
}

#[test]
fn search_finds_exactly_the_rows_with_a_wanted_fingerprint() {
    let mut store = SignatureStore::new();
    let batch = vec![
        Signature::new(1, "a", "s1", "f1", "h1"),
        Signature::new(1, "b", "s2", "f1", "h1"),
        Signature::new(1, "c", "s1", "f2", "h2"),
        Signature::new(1, "d", "s3", "f2", "h2"),
    ];
    Signature::persist_data(&batch, &mut store).unwrap();
    let found = Signature::search(&strings(&["s1", "s3", "nope"]), &store).unwrap();
    let ids: Vec<i32> = found.iter().map(|r| r.id).collect();
    assert_eq!(ids, vec![1, 3, 4]);
    let names: Vec<&str> = found.iter().map(|r| r.name.as_str()).collect();
    assert_eq!(names, vec!["a", "c", "d"]);
    assert_eq!(Signature::search(&strings(&["S1"]), &store).unwrap().len(), 0);
    assert_eq!(Signature::search(&strings(&["s"]), &store).unwrap().len(), 0);
}

#[test]
fn search_ignores_order_and_repetition_of_the_wanted_values() {
    let mut store = SignatureStore::new();
    let batch = vec![
        Signature::new(1, "a", "s1", "f1", "h1"),
        Signature::new(1, "b", "s2", "f1", "h1"),
    ];
    Signature::persist_data(&batch, &mut store).unwrap();
    let one = Signature::search(&strings(&["s2", "s1"]), &store).unwrap();
    let two = Signature::search(&strings(&["s1", "s2", "s1", "s1", "s2"]), &store).unwrap();
    let ids_one: Vec<i32> = one.iter().map(|r| r.id).collect();
    let ids_two: Vec<i32> = two.iter().map(|r| r.id).collect();
    assert_eq!(ids_one, vec![1, 2]);
    assert_eq!(ids_two, vec![1, 2]);
}

#[test]
fn by_hash_finds_the_rows_of_one_file() {
    let mut store = SignatureStore::new();
    let batch = vec![
        Signature::new(1, "a", "s1", "f1", "h1"),
        Signature::new(1, "b", "s2", "f2", "h2"),
        Signature::new(1, "c", "s3", "f1", "h1"),
    ];
    Signature::persist_data(&batch, &mut store).unwrap();
    let found = Signature::by_hash("h1", &store).unwrap();
    let ids: Vec<i32> = found.iter().map(|r| r.id).collect();
    assert_eq!(ids, vec![1, 3]);
    assert_eq!(Signature::by_hash("h3", &store).unwrap().len(), 0);
}
