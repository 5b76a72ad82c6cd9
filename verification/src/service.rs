use vstd::prelude::*;
use crate::error::{version, ErrorKind};
use crate::gate::{outcome, text_of, AuthGate, Rejection};
use crate::key::{ApiKey, ApiKeyView, KeyStore};
use crate::signature::{views, Signature, SignatureView};
use crate::store::{carries, fits, texts, upsert_all, SignatureStore, StoreView};

verus! {

/// What the registry reports of itself.
#[derive(Debug)]
pub struct ServerStatus {
    pub motd: Option<String>,
    pub entries: i64,
    pub version: String,
    pub errors: Vec<String>,
}

/// One fingerprint of a submission, with its label.
#[derive(Debug)]
pub struct TenebraeEntry {
    pub name: String,
    pub signature: String,
}

/// A submission: the fingerprints taken from one file.
#[derive(Debug)]
pub struct TenebraeAdd {
    pub signatures: Vec<TenebraeEntry>,
    pub filename: String,
    pub filehash: String,
}

/// A search: the fingerprints to look for.
#[derive(Debug)]
pub struct TenebraeSearch {
    pub signatures: Vec<String>,
}

/// What a search shows of a row.
#[derive(Debug)]
pub struct TenebraeResult {
    pub name: String,
    pub signature: String,
    pub filename: String,
    pub filehash: String,
}

/// The rows that a search found.
#[derive(Debug)]
pub struct TenebraeSearchResult {
    pub signatures: Vec<TenebraeResult>,
}

/// Whether `shown` carries label, fingerprint, file name and file hash of
/// `row`.
pub open spec fn shows(shown: TenebraeResult, row: SignatureView) -> bool {
    &&& shown.name@ == row.name
    &&& shown.signature@ == row.signature
    &&& shown.filename@ == row.filename
    &&& shown.filehash@ == row.filehash
}

/// The records that a submission stands for, all owned by `owner`, none of
/// them stored yet.
pub open spec fn submitted(request: TenebraeAdd, owner: int) -> Seq<SignatureView> {
    Seq::new(
        request.signatures@.len(),
        |i: int|
            SignatureView {
                id: 0,
                owner,
                signature: request.signatures@[i].signature@,
                filehash: request.filehash@,
                filename: request.filename@,
                name: request.signatures@[i].name@,
                index: 0,
            },
    )
}

impl TenebraeResult {
    /// What a search shows of `sig`.
    pub fn from(sig: &Signature) -> (res: TenebraeResult)
        ensures
            shows(res, sig@),
    {
        TenebraeResult {
            name: sig.name.clone(),
            signature: sig.signature.clone(),
            filename: sig.filename.clone(),
            filehash: sig.filehash.clone(),
        }
    }
}

/// The records of a submission, in its order.
pub fn batch_of(request: &TenebraeAdd, owner: i32) -> (res: Vec<Signature>)
    ensures
        views(res@) == submitted(*request, owner as int),
{
    let mut batch: Vec<Signature> = Vec::new();
    let mut i: usize = 0;
    while i < request.signatures.len()
        invariant
            i <= request.signatures@.len(),
            batch@.len() == i,
            forall|k: int|
                0 <= k < i ==> (#[trigger] batch@[k])@ == submitted(*request, owner as int)[k],
        decreases request.signatures@.len() - i,
    {
        let entry = &request.signatures[i];
        batch.push(
            Signature::new(
                owner,
                entry.name.as_str(),
                entry.signature.as_str(),
                request.filename.as_str(),
                request.filehash.as_str(),
            ),
        );
        i += 1;
    }
    assert(views(batch@) =~= submitted(*request, owner as int));
    batch
}

/// The records of a submission, ready for the store. A submission without
/// fingerprints is malformed.
pub fn prepare(request: &TenebraeAdd, owner: i32) -> (res: Result<Vec<Signature>, ErrorKind>)
    ensures
        match res {
            Ok(batch) => request.signatures@.len() > 0 && views(batch@) == submitted(
                *request,
                owner as int,
            ),
            Err(kind) => request.signatures@.len() == 0 && kind == ErrorKind::Malformed,
        },
{
    if request.signatures.len() == 0 {
        return Err(ErrorKind::Malformed);
    }
    Ok(batch_of(request, owner))
}

/// Looks the given fingerprints up and shows the rows that carry one of
/// them, once each.
pub fn search(query: &TenebraeSearch, store: &SignatureStore) -> (res: Result<
    TenebraeSearchResult,
    ErrorKind,
>)
    requires
        store.wf(),
    ensures
        res is Ok,
        res->Ok_0.signatures@.len() == store@.rows.filter(
            carries(texts(query.signatures@)),
        ).len(),
        forall|i: int|
            0 <= i < res->Ok_0.signatures@.len() ==> shows(
                #[trigger] res->Ok_0.signatures@[i],
                store@.rows.filter(carries(texts(query.signatures@)))[i],
            ),
        query.signatures@.len() == 0 ==> res->Ok_0.signatures@.len() == 0,
{
    match Signature::search(query.signatures.as_slice(), store) {
        Err(e) => Err(ErrorKind::of_store(e)),
        Ok(found) => {
            let ghost rows = store@.rows.filter(carries(texts(query.signatures@)));
            let mut shown: Vec<TenebraeResult> = Vec::new();
            let mut i: usize = 0;
            while i < found.len()
                invariant
                    i <= found@.len(),
                    shown@.len() == i,
                    views(found@) == rows,
                    forall|k: int| 0 <= k < i ==> shows(#[trigger] shown@[k], rows[k]),
                decreases found@.len() - i,
            {
                assert(views(found@)[i as int] == found@[i as int]@);
                shown.push(TenebraeResult::from(&found[i]));
                i += 1;
            }
            assert(views(found@).len() == found@.len());
            Ok(TenebraeSearchResult { signatures: shown })
        },
    }
}

/// Stores a submission under the id of the key that made it. An empty
/// submission is malformed and changes nothing; otherwise the records are
/// submitted in one step, and a store that cannot take them reports a fault
/// and stays as it was.
pub fn add_signature(request: &TenebraeAdd, store: &mut SignatureStore, key: &ApiKey) -> (res:
    Result<usize, ErrorKind>)
    requires
        old(store).wf(),
    ensures
        final(store).wf(),
        res == added(old(store)@, *request, key.id as int),
        final(store)@ == match res {
            Ok(_) => upsert_all(old(store)@, submitted(*request, key.id as int)),
            Err(_) => old(store)@,
        },
{
    match prepare(request, key.id) {
        Err(kind) => Err(kind),
        Ok(batch) => match Signature::persist_data(batch.as_slice(), store) {
            Ok(n) => Ok(n),
            Err(e) => Err(ErrorKind::of_store(e)),
        },
    }
}

/// What `add_signature` answers on a table `s`.
pub open spec fn added(s: StoreView, request: TenebraeAdd, owner: int) -> Result<
    usize,
    ErrorKind,
> {
    if request.signatures@.len() == 0 {
        Err(ErrorKind::Malformed)
    } else if fits(upsert_all(s, submitted(request, owner))) {
        Ok(request.signatures@.len() as usize)
    } else {
        Err(ErrorKind::StorageError)
    }
}

/// The row stored under `id`; an absent row is reported as such.
pub fn fetch(id: i32, store: &SignatureStore) -> (res: Result<Signature, ErrorKind>)
    requires
        store.wf(),
    ensures
        match res {
            Ok(row) => exists|i: int|
                0 <= i < store@.rows.len() && (#[trigger] store@.rows[i]).id == id && row@
                    == store@.rows[i],
            Err(e) => {
                &&& e == ErrorKind::NotFound
                &&& forall|i: int|
                    0 <= i < store@.rows.len() ==> (#[trigger] store@.rows[i]).id != id
            },
        },
{
    match Signature::fetch(id, store) {
        Ok(row) => Ok(row),
        Err(e) => Err(ErrorKind::of_store(e)),
    }
}

/// The registry's report of itself: the number of rows and the version.
pub fn index(store: &SignatureStore) -> (res: Result<ServerStatus, ErrorKind>)
    requires
        store.wf(),
    ensures
        res is Ok,
        res->Ok_0.motd is None,
        res->Ok_0.entries == store@.rows.len(),
        res->Ok_0.version@ == "0.1.0"@,
        res->Ok_0.errors@.len() == 0,
{
    match Signature::count(store) {
        Ok(entries) => Ok(
            ServerStatus { motd: None, entries, version: version(), errors: Vec::new() },
        ),
        Err(e) => Err(ErrorKind::of_store(e)),
    }
}

/// What a write request is answered with.
pub open spec fn write_answer(
    master: Option<Seq<char>>,
    credential: Option<Seq<char>>,
    keys: Seq<ApiKeyView>,
    s: StoreView,
    request: TenebraeAdd,
) -> Result<usize, ErrorKind> {
    match outcome(master, credential, keys) {
        Err(_) => Err(ErrorKind::Forbidden),
        Ok(key) => added(s, request, key.id),
    }
}

/// A write request from end to end: the guard decides on the credential, and
/// only an accepted request reaches the store, owned by the resolved key.
pub fn submit(
    gate: &AuthGate,
    credential: Option<&str>,
    keys: &KeyStore,
    request: &TenebraeAdd,
    store: &mut SignatureStore,
) -> (res: Result<usize, ErrorKind>)
    requires
        keys.wf(),
        old(store).wf(),
    ensures
        final(store).wf(),
        res == write_answer(gate@, text_of(credential), keys@.rows, old(store)@, *request),
        final(store)@ == match (res, outcome(gate@, text_of(credential), keys@.rows)) {
            (Ok(_), Ok(key)) => upsert_all(old(store)@, submitted(*request, key.id)),
            _ => old(store)@,
        },
{
    match gate.authorize(credential, keys) {
        Err(Rejection::Forbidden) => Err(ErrorKind::Forbidden),
        Err(Rejection::ServiceUnavailable) => Err(ErrorKind::StorageError),
        Ok(key) => add_signature(request, store, &key),
    }
}

} // verus!
