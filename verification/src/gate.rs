use vstd::prelude::*;
use crate::error::StoreError;
use crate::key::{
    holds_key, is_holder, lookup, note_text, ApiKey, ApiKeyState, ApiKeyView, KeyStore,
};

verus! {

/// Why the guard turned a request away.
#[derive(Clone, Copy, Debug, PartialEq, Eq, Structural)]
pub enum Rejection {
    /// No credential, an unknown one, or one that the policy does not admit.
    Forbidden,
    /// The key store could not answer, so nothing is known of the credential.
    ServiceUnavailable,
}

/// The guard in front of the write path. It is made once, with the master key
/// of the deployment if there is one, and never changes.
///
/// Policy: with a master key, exactly the stored key whose secret equals it
/// may write, whatever its tier. Without one, every stored key may write
/// unless its tier is `Disabled`.
pub struct AuthGate {
    master: Option<String>,
}

impl View for AuthGate {
    type V = Option<Seq<char>>;

    closed spec fn view(&self) -> Option<Seq<char>> {
        match self.master {
            Some(text) => Some(text@),
            None => None,
        }
    }
}

/// Whether the policy lets a resolved key write.
pub open spec fn admitted(master: Option<Seq<char>>, key: ApiKeyView) -> bool {
    match master {
        Some(secret) => key.key == secret,
        None => key.state != ApiKeyState::Disabled,
    }
}

/// The guard's answer to what the key store said of a credential.
pub open spec fn verdict(master: Option<Seq<char>>, resolved: Result<ApiKey, StoreError>) -> Result<
    ApiKey,
    Rejection,
> {
    match resolved {
        Ok(key) => if admitted(master, key@) {
            Ok(key)
        } else {
            Err(Rejection::Forbidden)
        },
        Err(StoreError::NotFound) => Err(Rejection::Forbidden),
        Err(StoreError::StorageError) => Err(Rejection::ServiceUnavailable),
    }
}

/// The guard's answer to a request, given the rows of the key table.
pub open spec fn outcome(
    master: Option<Seq<char>>,
    credential: Option<Seq<char>>,
    rows: Seq<ApiKeyView>,
) -> Result<ApiKeyView, Rejection> {
    match credential {
        None => Err(Rejection::Forbidden),
        Some(raw) => match lookup(rows, raw) {
            None => Err(Rejection::Forbidden),
            Some(key) => if admitted(master, key) {
                Ok(key)
            } else {
                Err(Rejection::Forbidden)
            },
        },
    }
}

impl AuthGate {
    /// A gate with the given master key, or with none.
    pub fn new(master: Option<String>) -> (res: AuthGate)
        ensures
            res@ == note_text(master),
    {
        AuthGate { master }
    }

    /// The first step: a request without a credential is turned away.
    pub fn extract<'a>(credential: Option<&'a str>) -> (res: Result<&'a str, Rejection>)
        ensures
            res == match credential {
                Some(raw) => Ok::<&str, Rejection>(raw),
                None => Err::<&str, Rejection>(Rejection::Forbidden),
            },
    {
        match credential {
            Some(raw) => Ok(raw),
            None => Err(Rejection::Forbidden),
        }
    }

    /// The steps after the key store has answered: an absent key and one that
    /// the policy does not admit are forbidden, a fault of the store is
    /// reported as such, and an admitted key is handed on.
    pub fn decide(&self, resolved: Result<ApiKey, StoreError>) -> (res: Result<ApiKey, Rejection>)
        ensures
            res == verdict(self@, resolved),
    {
        match resolved {
            Ok(key) => {
                let pass = match &self.master {
                    Some(secret) => key.key == *secret,
                    None => match key.state {
                        ApiKeyState::Disabled => false,
                        _ => true,
                    },
                };
                if pass {
                    Ok(key)
                } else {
                    Err(Rejection::Forbidden)
                }
            },
            Err(StoreError::NotFound) => Err(Rejection::Forbidden),
            Err(StoreError::StorageError) => Err(Rejection::ServiceUnavailable),
        }
    }

    /// Decides a request against a key table: extract, resolve, check the
    /// policy, and hand the resolved key on.
    pub fn authorize(&self, credential: Option<&str>, keys: &KeyStore) -> (res: Result<
        ApiKey,
        Rejection,
    >)
        requires
            keys.wf(),
        ensures
            match res {
                Ok(key) => outcome(self@, text_of(credential), keys@.rows) == Ok::<
                    ApiKeyView,
                    Rejection,
                >(key@),
                Err(r) => outcome(self@, text_of(credential), keys@.rows) == Err::<
                    ApiKeyView,
                    Rejection,
                >(r),
            },
    {
        match Self::extract(credential) {
            Err(r) => Err(r),
            Ok(raw) => self.decide(ApiKey::get_api_key(raw, keys)),
        }
    }
}

/// The text of an optional credential.
pub open spec fn text_of(credential: Option<&str>) -> Option<Seq<char>> {
    match credential {
        Some(raw) => Some(raw@),
        None => None,
    }
}

/// The guard turns away a request without a credential, one whose credential
/// no stored key carries, and, under a master key, one whose credential
/// differs from it. Under a master key it accepts the stored key whose secret
/// equals it, whatever that key's tier.
pub proof fn lemma_gate_policy(
    master: Option<Seq<char>>,
    credential: Option<Seq<char>>,
    rows: Seq<ApiKeyView>,
)
    ensures
        credential is None ==> outcome(master, credential, rows) == Err::<ApiKeyView, Rejection>(
            Rejection::Forbidden,
        ),
        credential is Some && !holds_key(rows, credential->Some_0) ==> outcome(
            master,
            credential,
            rows,
        ) == Err::<ApiKeyView, Rejection>(Rejection::Forbidden),
        master is Some && credential != master ==> outcome(master, credential, rows) == Err::<
            ApiKeyView,
            Rejection,
        >(Rejection::Forbidden),
        master is Some && credential == master && holds_key(rows, master->Some_0) ==> outcome(
            master,
            credential,
            rows,
        ) == Ok::<ApiKeyView, Rejection>(lookup(rows, master->Some_0)->Some_0),
        master is None && credential is Some && holds_key(rows, credential->Some_0) ==> (outcome(
            master,
            credential,
            rows,
        ) is Ok <==> lookup(rows, credential->Some_0)->Some_0.state != ApiKeyState::Disabled),
{
    if credential is Some && holds_key(rows, credential->Some_0) {
        let raw = credential->Some_0;
        let i = choose|i: int| is_holder(rows, raw, i);
        lemma_first_holder_exists(rows, raw);
        assert(is_holder(rows, raw, i));
        assert(lookup(rows, raw) == Some(rows[i]));
    }
}

/// Where some row carries a secret, one of them is the first.
pub proof fn lemma_first_holder_exists(rows: Seq<ApiKeyView>, raw: Seq<char>)
    requires
        holds_key(rows, raw),
    ensures
        exists|i: int| is_holder(rows, raw, i),
    decreases rows.len(),
{
    let k = choose|k: int| 0 <= k < rows.len() && (#[trigger] rows[k]).key == raw;
    let front = rows.take(k);
    if holds_key(front, raw) {
        lemma_first_holder_exists(front, raw);
        let i = choose|i: int| is_holder(front, raw, i);
        assert(rows[i] == front[i]);
        assert forall|j: int| 0 <= j < i implies (#[trigger] rows[j]).key != raw by {
            assert(front[j].key != raw);
        }
        assert(is_holder(rows, raw, i));
    } else {
        assert forall|j: int| 0 <= j < k implies (#[trigger] rows[j]).key != raw by {
            assert(front[j] == rows[j]);
        }
        assert(is_holder(rows, raw, k));
    }
}

} // verus!
