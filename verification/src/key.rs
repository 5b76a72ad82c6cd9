use vstd::prelude::*;
use crate::error::StoreError;
use crate::hex::{hex_text, to_hex};

verus! {

/// The privilege tier of an API key.
#[derive(Clone, Copy, Debug, PartialEq, Eq, Structural)]
pub enum ApiKeyState {
    Enabled,
    Disabled,
    Admin,
    Moderator,
}

/// Mathematical value of an API key record.
pub struct ApiKeyView {
    pub id: int,
    pub name: Seq<char>,
    pub key: Seq<char>,
    pub state: ApiKeyState,
    pub message: Option<Seq<char>>,
}

/// An API key: who holds it, the secret itself, its tier, and a note.
#[derive(Clone, Debug)]
pub struct ApiKey {
    /// Assigned by the key store on persistence; `0` until then.
    pub id: i32,
    pub name: String,
    /// The secret: 128 random bits in hexadecimal.
    pub key: String,
    pub state: ApiKeyState,
    /// A note on the key, such as why it was suspended.
    pub message: Option<String>,
}

/// The text of an optional string.
pub open spec fn note_text(note: Option<String>) -> Option<Seq<char>> {
    match note {
        Some(text) => Some(text@),
        None => None,
    }
}

impl View for ApiKey {
    type V = ApiKeyView;

    open spec fn view(&self) -> ApiKeyView {
        ApiKeyView {
            id: self.id as int,
            name: self.name@,
            key: self.key@,
            state: self.state,
            message: note_text(self.message),
        }
    }
}

/// The values of a sequence of keys, position by position.
pub open spec fn key_views(keys: Seq<ApiKey>) -> Seq<ApiKeyView> {
    Seq::new(keys.len(), |i: int| keys[i]@)
}

/// Mathematical value of the key table: its rows in order of insertion and
/// the id that the next row will get.
pub struct KeyStoreView {
    pub rows: Seq<ApiKeyView>,
    pub next_id: int,
}

/// The table of API keys.
pub struct KeyStore {
    keys: Vec<ApiKey>,
    next_id: i32,
}

impl View for KeyStore {
    type V = KeyStoreView;

    closed spec fn view(&self) -> KeyStoreView {
        KeyStoreView { rows: key_views(self.keys@), next_id: self.next_id as int }
    }
}

/// The key table's invariant: ids are positive, grow with the position and
/// lie below `next_id`.
pub open spec fn keys_well_formed(s: KeyStoreView) -> bool {
    &&& 1 <= s.next_id
    &&& s.rows.len() < s.next_id
    &&& forall|i: int| 0 <= i < s.rows.len() ==> 1 <= (#[trigger] s.rows[i]).id < s.next_id
    &&& forall|i: int, j: int|
        0 <= i < j < s.rows.len() ==> (#[trigger] s.rows[i]).id < (#[trigger] s.rows[j]).id
}

/// Whether some row carries the secret `raw`.
pub open spec fn holds_key(rows: Seq<ApiKeyView>, raw: Seq<char>) -> bool {
    exists|i: int| 0 <= i < rows.len() && (#[trigger] rows[i]).key == raw
}

/// Whether row `i` is the first that carries the secret `raw`.
pub open spec fn is_holder(rows: Seq<ApiKeyView>, raw: Seq<char>, i: int) -> bool {
    &&& 0 <= i < rows.len()
    &&& rows[i].key == raw
    &&& forall|j: int| 0 <= j < i ==> (#[trigger] rows[j]).key != raw
}

/// The first row that carries the secret `raw`, if there is one.
pub open spec fn lookup(rows: Seq<ApiKeyView>, raw: Seq<char>) -> Option<ApiKeyView> {
    if holds_key(rows, raw) {
        Some(rows[choose|i: int| is_holder(rows, raw, i)])
    } else {
        None
    }
}

/// Whether a key is of the highest tier.
pub open spec fn is_admin() -> spec_fn(ApiKeyView) -> bool {
    |row: ApiKeyView| row.state == ApiKeyState::Admin
}

/// The first holder of a secret is the row that `lookup` gives.
pub proof fn lemma_lookup_holder(rows: Seq<ApiKeyView>, raw: Seq<char>, i: int)
    requires
        is_holder(rows, raw, i),
    ensures
        lookup(rows, raw) == Some(rows[i]),
{
    assert(holds_key(rows, raw));
    let c = choose|c: int| is_holder(rows, raw, c);
    assert(is_holder(rows, raw, c));
    if c < i {
        assert(rows[c].key != raw);
    }
    if i < c {
        assert(rows[i].key != raw);
    }
}

/// Draws 128 bits from `rand::thread_rng()` through `rand::Rng::gen`. The
/// value depends on the system's entropy source, so nothing is claimed of it.
/// `thread_rng` panics where that source cannot seed the generator; no
/// argument decides this, so no precondition can rule it out.
#[verifier::external_body]
fn fresh_token() -> (token: u128) {
    rand::Rng::gen::<u128>(&mut rand::thread_rng())
}

impl KeyStore {
    /// Whether the table meets its invariant. Every table that this module
    /// hands out does.
    pub open spec fn wf(&self) -> bool {
        keys_well_formed(self@)
    }

    /// An empty table; the first row will get id `1`.
    pub fn new() -> (res: KeyStore)
        ensures
            res.wf(),
            res@ == (KeyStoreView { rows: Seq::empty(), next_id: 1 }),
    {
        let res = KeyStore { keys: Vec::new(), next_id: 1 };
        assert(key_views(res.keys@) =~= Seq::empty());
        res
    }

    /// A copy of the rows, in the table's order.
    pub fn rows(&self) -> (res: Vec<ApiKey>)
        ensures
            key_views(res@) == self@.rows,
    {
        let mut res: Vec<ApiKey> = Vec::new();
        let mut i: usize = 0;
        while i < self.keys.len()
            invariant
                i <= self.keys@.len(),
                res@.len() == i,
                forall|k: int| 0 <= k < i ==> (#[trigger] res@[k])@ == self.keys@[k]@,
            decreases self.keys@.len() - i,
        {
            res.push(self.keys[i].stored_as(self.keys[i].id));
            i += 1;
        }
        assert(key_views(res@) =~= key_views(self.keys@));
        res
    }

    /// The id that the next row will get.
    pub fn next_id(&self) -> (res: i32)
        ensures
            res == self@.next_id,
    {
        self.next_id
    }

    /// The table with the given rows and next id, if they meet the
    /// invariant.
    pub fn restore(keys: Vec<ApiKey>, next_id: i32) -> (res: Option<KeyStore>)
        ensures
            match res {
                Some(store) => store.wf() && store@ == (KeyStoreView {
                    rows: key_views(keys@),
                    next_id: next_id as int,
                }),
                None => !keys_well_formed(
                    KeyStoreView { rows: key_views(keys@), next_id: next_id as int },
                ),
            },
    {
        let ghost s = KeyStoreView { rows: key_views(keys@), next_id: next_id as int };
        if next_id < 1 || keys.len() >= next_id as usize {
            return None;
        }
        let mut i: usize = 0;
        while i < keys.len()
            invariant
                i <= keys@.len(),
                s == (KeyStoreView { rows: key_views(keys@), next_id: next_id as int }),
                forall|k: int| 0 <= k < i ==> 1 <= (#[trigger] s.rows[k]).id < next_id,
                forall|a: int, b: int|
                    0 <= a < b < i ==> (#[trigger] s.rows[a]).id < (#[trigger] s.rows[b]).id,
            decreases keys@.len() - i,
        {
            let id = keys[i].id;
            assert(s.rows[i as int] == keys@[i as int]@);
            if id < 1 || id >= next_id {
                return None;
            }
            if i > 0 {
                assert(s.rows[i as int - 1] == keys@[i as int - 1]@);
                if keys[i - 1].id >= id {
                    assert(!(s.rows[i as int - 1].id < s.rows[i as int].id));
                    return None;
                }
                assert forall|a: int| 0 <= a < i implies (#[trigger] s.rows[a]).id < id by {
                    if a < i - 1 {
                        assert(s.rows[a].id < s.rows[i as int - 1].id);
                    }
                }
            }
            i += 1;
        }
        Some(KeyStore { keys, next_id })
    }
}

impl ApiKey {
    /// A key that has not been stored yet, with a secret drawn at random.
    pub fn new(name: &str, state: ApiKeyState, message: Option<String>) -> (res: Self)
        ensures
            res.id == 0,
            res.name@ == name@,
            res.state == state,
            res.message == message,
            exists|token: u128| res.key@ == hex_text(token as nat),
    {
        let token = fresh_token();
        Self::with_token(name, state, message, token)
    }

    /// A key that has not been stored yet, whose secret is `token` in
    /// hexadecimal.
    pub fn with_token(name: &str, state: ApiKeyState, message: Option<String>, token: u128) -> (res:
        Self)
        ensures
            res.id == 0,
            res.name@ == name@,
            res.key@ == hex_text(token as nat),
            res.state == state,
            res.message == message,
    {
        ApiKey { id: 0, name: name.to_owned(), key: to_hex(token), state, message }
    }

    /// A copy of the key under another id.
    pub fn stored_as(&self, id: i32) -> (res: ApiKey)
        ensures
            res@ == (ApiKeyView { id: id as int, ..self@ }),
    {
        let message = match &self.message {
            Some(text) => Some(text.clone()),
            None => None,
        };
        ApiKey { id, name: self.name.clone(), key: self.key.clone(), state: self.state, message }
    }

    /// The first stored key whose secret is `rawkey`.
    pub fn get_api_key(rawkey: &str, store: &KeyStore) -> (res: Result<Self, StoreError>)
        requires
            store.wf(),
        ensures
            match res {
                Ok(key) => lookup(store@.rows, rawkey@) == Some(key@),
                Err(e) => e == StoreError::NotFound && lookup(store@.rows, rawkey@) is None,
            },
    {
        let raw = rawkey.to_owned();
        let mut i: usize = 0;
        while i < store.keys.len()
            invariant
                i <= store.keys@.len(),
                raw@ == rawkey@,
                forall|j: int| 0 <= j < i ==> (#[trigger] store@.rows[j]).key != rawkey@,
            decreases store.keys@.len() - i,
        {
            if store.keys[i].key == raw {
                proof {
                    lemma_lookup_holder(store@.rows, rawkey@, i as int);
                }
                return Ok(store.keys[i].stored_as(store.keys[i].id));
            }
            i += 1;
        }
        Err(StoreError::NotFound)
    }

    /// The number of stored keys of the highest tier.
    pub fn count_master_keys(store: &KeyStore) -> (res: Result<i64, StoreError>)
        requires
            store.wf(),
        ensures
            res == Ok::<i64, StoreError>(store@.rows.filter(is_admin()).len() as i64),
            store@.rows.filter(is_admin()).len() <= i64::MAX,
    {
        let mut n: i64 = 0;
        let mut i: usize = 0;
        proof {
            assert(store@.rows.take(0) =~= Seq::<ApiKeyView>::empty());
            Seq::<ApiKeyView>::empty().lemma_filter_len(is_admin());
        }
        while i < store.keys.len()
            invariant
                i <= store.keys@.len(),
                store.keys@.len() < i32::MAX,
                n == store@.rows.take(i as int).filter(is_admin()).len(),
                n <= i,
            decreases store.keys@.len() - i,
        {
            proof {
                let row = store@.rows[i as int];
                assert(store@.rows.take(i as int + 1) =~= store@.rows.take(i as int).push(row));
                store@.rows.take(i as int).lemma_filter_push(row, is_admin());
            }
            match store.keys[i].state {
                ApiKeyState::Admin => {
                    n = n + 1;
                },
                _ => {},
            }
            i += 1;
        }
        assert(store@.rows.take(i as int) =~= store@.rows);
        Ok(n)
    }

    /// Stores the key as a new row under the next id and returns the number
    /// of rows written, which is one. Fails, and leaves the table as it was,
    /// when the ids are used up.
    pub fn persist(&self, store: &mut KeyStore) -> (res: Result<usize, StoreError>)
        requires
            old(store).wf(),
        ensures
            final(store).wf(),
            match res {
                Ok(n) => {
                    &&& n == 1
                    &&& old(store)@.next_id < i32::MAX
                    &&& final(store)@ == (KeyStoreView {
                        rows: old(store)@.rows.push(
                            ApiKeyView { id: old(store)@.next_id, ..self@ },
                        ),
                        next_id: old(store)@.next_id + 1,
                    })
                },
                Err(e) => {
                    &&& e == StoreError::StorageError
                    &&& old(store)@.next_id == i32::MAX
                    &&& final(store)@ == old(store)@
                },
            },
    {
        if store.next_id == i32::MAX {
            return Err(StoreError::StorageError);
        }
        let row = self.stored_as(store.next_id);
        store.keys.push(row);
        store.next_id = store.next_id + 1;
        proof {
            assert(key_views(store.keys@) =~= old(store)@.rows.push(
                ApiKeyView { id: old(store)@.next_id, ..self@ },
            ));
        }
        Ok(1)
    }
}

} // verus!
