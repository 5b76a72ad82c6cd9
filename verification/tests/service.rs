use tenebrae::error::{
    access_denied, envelope, illformed_request, not_found, service_unavailable, version, ErrorKind,
    Status, StoreError, TenebraeError,
};
use tenebrae::gate::AuthGate;
use tenebrae::key::{ApiKey, ApiKeyState, KeyStore};
use tenebrae::service::{
    add_signature, batch_of, fetch, index, prepare, search, submit, TenebraeAdd, TenebraeEntry,
    TenebraeResult, TenebraeSearch,
};
use tenebrae::signature::Signature;
use tenebrae::store::SignatureStore;

fn request(entries: &[(&str, &str)], filename: &str, filehash: &str) -> TenebraeAdd {
    TenebraeAdd {
        signatures: entries
            .iter()
            .map(|(name, signature)| TenebraeEntry {
                name: name.to_string(),
                signature: signature.to_string(),
            })
            .collect(),
        filename: filename.to_string(),
        filehash: filehash.to_string(),
    }
}

fn owner(id: i32) -> ApiKey {
    let mut keys = KeyStore::new();
    for _ in 0..id {
        ApiKey::with_token("k", ApiKeyState::Enabled, None, 1).persist(&mut keys).unwrap();
    }
    let mut last = ApiKey::get_api_key("1", &keys).unwrap();
    last.id = id;
    last
}

#[test]
fn envelope_carries_version_and_message() {
    let e = TenebraeError::new("boom");
    assert_eq!(e.version, "0.1.0");
    assert_eq!(e.errors, vec!["boom".to_string()]);
    assert_eq!(version(), "0.1.0");
}

#[test]
fn each_failure_has_its_message() {
    assert_eq!(illformed_request().errors, vec!["Malformed request!".to_string()]);
    assert_eq!(service_unavailable().errors, vec!["Service currently unavailable!".to_string()]);
    assert_eq!(access_denied().errors, vec!["Access denied!".to_string()]);
    assert_eq!(not_found().errors, vec!["The requested resource was not found!".to_string()]);
    assert_eq!(envelope(ErrorKind::Malformed).errors, illformed_request().errors);
    assert_eq!(envelope(ErrorKind::StorageError).errors, service_unavailable().errors);
    assert_eq!(envelope(ErrorKind::Forbidden).errors, access_denied().errors);
    assert_eq!(envelope(ErrorKind::NotFound).errors, not_found().errors);
}

#[test]
fn each_failure_has_its_own_status() {
    assert_eq!(ErrorKind::NotFound.status(), Status::NotFound);
    assert_eq!(ErrorKind::Forbidden.status(), Status::Forbidden);
    assert_eq!(ErrorKind::Malformed.status(), Status::BadRequest);
    assert_eq!(ErrorKind::StorageError.status(), Status::ServiceUnavailable);
    assert_eq!(Status::Success.code(), 200);
    assert_eq!(Status::BadRequest.code(), 400);
    assert_eq!(Status::Forbidden.code(), 403);
    assert_eq!(Status::NotFound.code(), 404);
    assert_eq!(Status::ServiceUnavailable.code(), 503);
    assert_eq!(ErrorKind::of_store(StoreError::NotFound), ErrorKind::NotFound);
    assert_eq!(ErrorKind::of_store(StoreError::StorageError), ErrorKind::StorageError);
}

#[test]
fn batch_of_a_submission_shares_file_and_owner() {
    let batch = batch_of(&request(&[("n1", "s1"), ("n2", "s2")], "file", "hash"), 5);
    assert_eq!(batch.len(), 2);
    assert_eq!(batch[0].name, "n1");
    assert_eq!(batch[0].signature, "s1");
    assert_eq!(batch[1].name, "n2");
    assert_eq!(batch[1].signature, "s2");
    for sig in &batch {
        assert_eq!(sig.id, 0);
        assert_eq!(sig.index, 0);
        assert_eq!(sig.owner, 5);
        assert_eq!(sig.filename, "file");
        assert_eq!(sig.filehash, "hash");
    }
}

#[test]
fn add_stores_under_the_key_that_submitted() {
    let mut store = SignatureStore::new();
    let key = owner(3);
    let req = request(&[("EICAR", "44d8")], "eicar.com", "abc123");
    assert_eq!(add_signature(&req, &mut store, &key), Ok(1));
    let row = fetch(1, &store).unwrap();
    assert_eq!(row.owner, 3);
    assert_eq!(row.name, "EICAR");
    assert_eq!(row.index, 0);
    assert_eq!(add_signature(&req, &mut store, &key), Ok(1));
    assert_eq!(fetch(1, &store).unwrap().index, 1);
    assert_eq!(index(&store).unwrap().entries, 1);
}

#[test]
fn empty_submission_is_malformed() {
    let mut store = SignatureStore::new();
    let key = owner(1);
    assert_eq!(add_signature(&request(&[], "f", "h"), &mut store, &key), Err(ErrorKind::Malformed));
    assert_eq!(index(&store).unwrap().entries, 0);
}

#[test]
fn fetch_of_absent_row_is_not_found() {
    let store = SignatureStore::new();
    assert_eq!(fetch(1, &store).err(), Some(ErrorKind::NotFound));
}

#[test]
fn index_reports_count_and_version() {
    let mut store = SignatureStore::new();
    let status = index(&store).unwrap();
    assert_eq!(status.entries, 0);
    assert_eq!(status.version, "0.1.0");
    assert_eq!(status.motd, None);
    assert!(status.errors.is_empty());
    let req = request(&[("a", "s1"), ("b", "s2"), ("c", "s3")], "f", "h");
    add_signature(&req, &mut store, &owner(1)).unwrap();
    assert_eq!(index(&store).unwrap().entries, 3);
}

#[test]
fn search_shows_the_four_public_fields() {
    let mut store = SignatureStore::new();
    add_signature(&request(&[("a", "s1"), ("b", "s2")], "f1", "h1"), &mut store, &owner(1)).unwrap();
    add_signature(&request(&[("c", "s1")], "f2", "h2"), &mut store, &owner(2)).unwrap();
    let query = TenebraeSearch { signatures: vec!["s1".to_string(), "s1".to_string()] };
    let found = search(&query, &store).unwrap().signatures;
    assert_eq!(found.len(), 2);
    assert_eq!(found[0].name, "a");
    assert_eq!(found[0].signature, "s1");
    assert_eq!(found[0].filename, "f1");
    assert_eq!(found[0].filehash, "h1");
    assert_eq!(found[1].name, "c");
    assert_eq!(found[1].filename, "f2");
    assert_eq!(found[1].filehash, "h2");
    let none = search(&TenebraeSearch { signatures: vec![] }, &store).unwrap();
    assert!(none.signatures.is_empty());
}

#[test]
fn result_is_taken_from_the_record() {
    let shown = TenebraeResult::from(&Signature::new(1, "n", "s", "f", "h"));
    assert_eq!(shown.name, "n");
    assert_eq!(shown.signature, "s");
    assert_eq!(shown.filename, "f");
    assert_eq!(shown.filehash, "h");
}

#[test]
fn write_request_passes_the_gate_first() {
    let mut keys = KeyStore::new();
    ApiKey::with_token("user", ApiKeyState::Enabled, None, 0xa1).persist(&mut keys).unwrap();
    ApiKey::with_token("root", ApiKeyState::Admin, None, 0xc3).persist(&mut keys).unwrap();
    let mut store = SignatureStore::new();
    let req = request(&[("EICAR", "44d8")], "eicar.com", "abc123");

    let open = AuthGate::new(None);
    assert_eq!(submit(&open, None, &keys, &req, &mut store), Err(ErrorKind::Forbidden));
    assert_eq!(submit(&open, Some("zz"), &keys, &req, &mut store), Err(ErrorKind::Forbidden));
    assert_eq!(index(&store).unwrap().entries, 0);
    assert_eq!(submit(&open, Some("c3"), &keys, &req, &mut store), Ok(1));
    assert_eq!(fetch(1, &store).unwrap().owner, 2);

    let demo = AuthGate::new(Some("a1".to_string()));
    assert_eq!(submit(&demo, Some("c3"), &keys, &req, &mut store), Err(ErrorKind::Forbidden));
    assert_eq!(fetch(1, &store).unwrap().index, 0);
    assert_eq!(submit(&demo, Some("a1"), &keys, &req, &mut store), Ok(1));
    assert_eq!(fetch(1, &store).unwrap().index, 1);
    assert_eq!(fetch(1, &store).unwrap().owner, 2);
    assert_eq!(
        submit(&demo, Some("a1"), &keys, &request(&[], "f", "h"), &mut store),
        Err(ErrorKind::Malformed)
    );
}

#[test]
fn prepare_refuses_an_empty_submission() {
    assert_eq!(prepare(&request(&[], "f", "h"), 1).err(), Some(ErrorKind::Malformed));
    let batch = prepare(&request(&[("n", "s")], "f", "h"), 4).unwrap();
    assert_eq!(batch.len(), 1);
    assert_eq!(batch[0].owner, 4);
    assert_eq!(batch[0].signature, "s");
}
