//! The relay route's secret in the system credential store: 32 bytes, kept as unpadded standard
//! base64 text under the relay's service name, read back through the earlier names too. Every
//! copy of the secret's text is wiped once it is no longer needed.
use vstd::prelude::*;

use base64::Engine;
use zeroize::Zeroize;

use crate::keychain::{asked_in_turn, brought_across, delete, deletion_outcome, first_answer, password, password_calls,
    removals, wipe, CredentialError, CredentialStore, ServiceNames, StoreCall, SystemCredentials};

verus! {

#[verifier::external_type_specification]
#[verifier::external_body]
pub struct ExDecodeError(base64::DecodeError);

/// The relay's service name now, and the one an earlier version used.
pub const RELAY_SECRET_SERVICE: &'static str = "com.millionrust.multiplex.controller.relay";
pub const RELAY_SECRET_LEGACY_SERVICE: &'static str = "com.termirust.controller.relay";

/// `names` are the relay's: its current name, then the one an earlier version used.
pub open spec fn relay_names(names: ServiceNames) -> bool {
    &&& names.current@ == RELAY_SECRET_SERVICE@
    &&& names.legacy@.len() == 1
    &&& names.legacy@[0]@ == RELAY_SECRET_LEGACY_SERVICE@
}

/// The names the relay's secret is stored under, the current one first.
pub fn relay_secret_service() -> (r: ServiceNames)
    ensures
        relay_names(r),
{
    ServiceNames::new(RELAY_SECRET_SERVICE, &[RELAY_SECRET_LEGACY_SERVICE])
}

/// Unpadded standard base64 text of `bytes`, as `base64`'s `STANDARD_NO_PAD` engine writes it.
pub uninterp spec fn base64_no_pad_of(bytes: Seq<u8>) -> Seq<char>;

/// `Engine::encode` with `STANDARD_NO_PAD`: the text named `base64_no_pad_of(bytes)`. No two
/// byte strings are written as the same text.
#[verifier::external_body]
fn base64_encode(bytes: &[u8]) -> (r: String)
    ensures
        r@ == base64_no_pad_of(bytes@),
        forall|other: Seq<u8>| base64_no_pad_of(other) == r@ ==> other == bytes@,
{
    base64::engine::general_purpose::STANDARD_NO_PAD.encode(bytes)
}

/// `Engine::decode` with `STANDARD_NO_PAD`: the bytes whose unpadded text `text` is, and an error
/// for any text that is not such a text (padding, stray symbols or bits, a cut-off length).
#[verifier::external_body]
fn base64_decode(text: &str) -> (r: Result<Vec<u8>, base64::DecodeError>)
    ensures
        r is Ok ==> base64_no_pad_of(r->Ok_0@) == text@,
        forall|bytes: Seq<u8>| base64_no_pad_of(bytes) == text@ ==> r is Ok && r->Ok_0@ == bytes,
{
    base64::engine::general_purpose::STANDARD_NO_PAD.decode(text.as_bytes())
}

/// `Zeroize::zeroize` on a string: overwrites its bytes with zero and empties it.
#[verifier::external_body]
fn wipe_text(text: &mut String)
    ensures
        final(text)@.len() == 0,
{
    text.zeroize();
}

/// Why the relay's secret could not be stored, read or removed.
#[derive(Clone, Copy, Debug, PartialEq, Eq, Structural)]
pub enum RelaySecretStoreError {
    /// None is stored.
    Missing,
    /// The store is locked or refuses this program.
    PermissionDenied,
    /// What is stored is not a relay secret.
    Invalid,
    /// The store failed.
    Unavailable,
}

/// The bytes `text` is the unpadded base64 of, when it is one.
pub open spec fn decoded(text: Seq<char>) -> Option<Seq<u8>> {
    if exists|bytes: Seq<u8>| base64_no_pad_of(bytes) == text {
        Some(choose|bytes: Seq<u8>| base64_no_pad_of(bytes) == text)
    } else {
        None
    }
}

/// A store failure as the relay reports it.
pub open spec fn relay_error_spec(error: CredentialError) -> RelaySecretStoreError {
    match error {
        CredentialError::NoEntry => RelaySecretStoreError::Missing,
        CredentialError::NoStorageAccess(_) => RelaySecretStoreError::PermissionDenied,
        CredentialError::BadEncoding(_) => RelaySecretStoreError::Invalid,
        _ => RelaySecretStoreError::Unavailable,
    }
}

/// A store failure as the relay reports it.
pub fn relay_error(error: CredentialError) -> (r: RelaySecretStoreError)
    ensures
        r == relay_error_spec(error),
{
    match error {
        CredentialError::NoEntry => RelaySecretStoreError::Missing,
        CredentialError::NoStorageAccess(_) => RelaySecretStoreError::PermissionDenied,
        CredentialError::BadEncoding(mut bytes) => {
            wipe(&mut bytes);
            RelaySecretStoreError::Invalid
        },
        _ => RelaySecretStoreError::Unavailable,
    }
}

/// The text a secret is stored as. It reads back as the same secret.
pub fn secret_text(secret: &[u8; 32]) -> (r: String)
    ensures
        r@ == base64_no_pad_of(secret@),
        decoded(r@) == Some(secret@),
{
    let r = base64_encode(secret);
    proof {
        assert(base64_no_pad_of(secret@) == r@);
    }
    r
}

/// The relay secret stored text holds: exactly 32 bytes of unpadded base64, else `Invalid`.
pub open spec fn secret_from_text_spec(text: Seq<char>) -> Result<Seq<u8>, RelaySecretStoreError> {
    match decoded(text) {
        Some(bytes) => if bytes.len() == 32 {
            Ok(bytes)
        } else {
            Err(RelaySecretStoreError::Invalid)
        },
        None => Err(RelaySecretStoreError::Invalid),
    }
}

/// The relay secret stored text holds. The decoded bytes are wiped once copied.
pub fn secret_from_text(text: &str) -> (r: Result<[u8; 32], RelaySecretStoreError>)
    ensures
        match r {
            Ok(bytes) => secret_from_text_spec(text@) == Ok::<Seq<u8>, RelaySecretStoreError>(bytes@),
            Err(e) => secret_from_text_spec(text@) == Err::<Seq<u8>, RelaySecretStoreError>(e),
        },
{
    let mut found = match base64_decode(text) {
        Ok(found) => found,
        Err(_) => {
            return Err(RelaySecretStoreError::Invalid);
        },
    };
    proof {
        assert(base64_no_pad_of(found@) == text@);
        let chosen = choose|bytes: Seq<u8>| base64_no_pad_of(bytes) == text@;
        assert(decoded(text@) == Some(chosen));
    }
    let ghost chosen = choose|bytes: Seq<u8>| base64_no_pad_of(bytes) == text@;
    assert(found@ == chosen);
    if found.len() != 32 {
        wipe(&mut found);
        return Err(RelaySecretStoreError::Invalid);
    }
    let mut bytes = [0u8; 32];
    let mut i: usize = 0;
    while i < 32
        invariant
            i <= 32,
            found@.len() == 32,
            forall|k: int| 0 <= k < i ==> bytes@[k] == found@[k],
        decreases 32 - i,
    {
        bytes.set(i, found[i]);
        i = i + 1;
    }
    assert(bytes@ =~= found@);
    wipe(&mut found);
    Ok(bytes)
}

/// What reading the secret comes to, given what the store answered: a stored text's secret,
/// `Missing` when nothing is stored, or the store's failure as the relay reports it.
pub open spec fn lookup_outcome(found: Result<Option<String>, CredentialError>) -> Result<Seq<u8>, RelaySecretStoreError> {
    match found {
        Ok(Some(text)) => secret_from_text_spec(text@),
        Ok(None) => Err(RelaySecretStoreError::Missing),
        Err(error) => Err(relay_error_spec(error)),
    }
}

/// What reading the secret comes to, given what the store answered. The text is wiped once read.
pub fn secret_from_lookup(found: Result<Option<String>, CredentialError>) -> (r: Result<[u8; 32], RelaySecretStoreError>)
    ensures
        match r {
            Ok(bytes) => lookup_outcome(found) == Ok::<Seq<u8>, RelaySecretStoreError>(bytes@),
            Err(e) => lookup_outcome(found) == Err::<Seq<u8>, RelaySecretStoreError>(e),
        },
{
    match found {
        Ok(Some(text)) => {
            let mut text = text;
            let r = secret_from_text(text.as_str());
            wipe_text(&mut text);
            r
        },
        Ok(None) => Err(RelaySecretStoreError::Missing),
        Err(error) => Err(relay_error(error)),
    }
}

/// What storing the secret comes to, from the store's answer to the write.
pub open spec fn put_outcome(written: Result<(), CredentialError>) -> Result<(), RelaySecretStoreError> {
    match written {
        Ok(()) => Ok(()),
        Err(error) => Err(relay_error_spec(error)),
    }
}

/// The write that stores `secret` under the relay's current name, with the store's answer.
pub open spec fn put_call(reference: Seq<char>, secret: Seq<u8>, written: Result<(), CredentialError>) -> StoreCall {
    StoreCall::WritePassword(RELAY_SECRET_SERVICE@, reference, base64_no_pad_of(secret), written)
}

/// Stores the secret's text under the relay's current name, then wipes the text: one write, of the
/// unpadded base64 of the secret under the current name, whose answer is the result.
pub fn put_secret<S: CredentialStore>(store: &mut S, reference: &str, secret: &[u8; 32]) -> (r: Result<(), RelaySecretStoreError>)
    ensures
        exists|written: Result<(), CredentialError>| #![trigger put_outcome(written)]
            final(store).calls() == old(store).calls().push(put_call(reference@, secret@, written)) && r == put_outcome(written),
{
    let mut encoded = secret_text(secret);
    let result = store.set_password(RELAY_SECRET_SERVICE, reference, encoded.as_str());
    let ghost answer = result;
    wipe_text(&mut encoded);
    let r = match result {
        Ok(()) => Ok(()),
        Err(error) => Err(relay_error(error)),
    };
    assert(r == put_outcome(answer));
    r
}

/// What a read of the secret comes to, as the relay reports it, from the store's lookup.
pub open spec fn read_back(r: Result<[u8; 32], RelaySecretStoreError>, found: Result<Option<String>, CredentialError>) -> bool {
    match r {
        Ok(bytes) => lookup_outcome(found) == Ok::<Seq<u8>, RelaySecretStoreError>(bytes@),
        Err(e) => lookup_outcome(found) == Err::<Seq<u8>, RelaySecretStoreError>(e),
    }
}

/// Reads the secret, from an earlier name if that is where it still is, as `keychain::password`
/// looks it up under the relay's names: what the first name whose answer is not "nothing there"
/// holds.
pub fn get_secret<S: CredentialStore>(store: &mut S, reference: &str) -> (r: Result<[u8; 32], RelaySecretStoreError>)
    ensures
        exists|names: ServiceNames, answers: Seq<Result<Option<String>, CredentialError>>,
            copied: Option<Result<(), CredentialError>>, gone: Option<Result<bool, CredentialError>>|
            #![trigger relay_names(names), password_calls(names, reference@, answers, copied, gone)]
            {
                &&& relay_names(names)
                &&& asked_in_turn(answers, 2)
                &&& brought_across(answers, copied, gone)
                &&& final(store).calls() == old(store).calls() + password_calls(names, reference@, answers, copied, gone)
                &&& read_back(r, first_answer(answers))
            },
{
    let names = relay_secret_service();
    let found = password(store, names, reference);
    secret_from_lookup(found)
}

/// What removing the secret under every name comes to, as the relay reports it.
pub open spec fn deletion_answer(outcome: Result<bool, CredentialError>) -> Result<bool, RelaySecretStoreError> {
    match outcome {
        Ok(found) => Ok(found),
        Err(error) => Err(relay_error_spec(error)),
    }
}

/// Removes the secret under every name; `true` when any held one.
pub fn delete_secret<S: CredentialStore>(store: &mut S, reference: &str) -> (r: Result<bool, RelaySecretStoreError>)
    ensures
        exists|names: ServiceNames, answers: Seq<Result<bool, CredentialError>>|
            #![trigger relay_names(names), removals(names, reference@, answers)]
            {
                &&& relay_names(names)
                &&& answers.len() == 2
                &&& final(store).calls() == old(store).calls() + removals(names, reference@, answers)
                &&& r == deletion_answer(deletion_outcome(answers))
            },
{
    match delete(store, relay_secret_service(), reference) {
        Ok(found) => Ok(found),
        Err(error) => Err(relay_error(error)),
    }
}

/// What `put_secret` stores, reading gives back: the text it stores decodes to the secret (as
/// `secret_text` ensures), and wherever a read finds that text first, it reads as the secret.
pub proof fn a_stored_secret_reads_back(secret: Seq<u8>, text: String)
    requires
        secret.len() == 32,
        decoded(text@) == Some(secret),
    ensures
        lookup_outcome(Ok(Some(text))) == Ok::<Seq<u8>, RelaySecretStoreError>(secret),
        forall|answers: Seq<Result<Option<String>, CredentialError>>|
            first_answer(answers) == Ok::<Option<String>, CredentialError>(Some(text))
                ==> #[trigger] lookup_outcome(first_answer(answers)) == Ok::<Seq<u8>, RelaySecretStoreError>(secret),
{
}

/// The relay's secrets in the system credential store.
#[derive(Clone, Copy, Debug, Default)]
pub struct OsRelaySecretStore;

impl OsRelaySecretStore {
    /// Stores the secret as `put_secret` does, through a new handle on the system credential store:
    /// the handle's record afterwards holds that one write.
    pub fn put(&self, reference: &str, secret: &[u8; 32]) -> (r: Result<(), RelaySecretStoreError>)
        ensures
            exists|store: SystemCredentials, written: Result<(), CredentialError>|
                #![trigger store.calls(), put_outcome(written)]
                store.calls() == seq![put_call(reference@, secret@, written)] && r == put_outcome(written),
    {
        let mut store = SystemCredentials::new();
        let r = put_secret(&mut store, reference, secret);
        proof {
            lemma_empty_record();
        }
        r
    }

    /// Reads the secret as `get_secret` does, through a new handle on the system credential store:
    /// the handle's record afterwards holds exactly the calls of that lookup.
    pub fn get(&self, reference: &str) -> (r: Result<[u8; 32], RelaySecretStoreError>)
        ensures
            exists|store: SystemCredentials, names: ServiceNames, answers: Seq<Result<Option<String>, CredentialError>>,
                copied: Option<Result<(), CredentialError>>, gone: Option<Result<bool, CredentialError>>|
                #![trigger store.calls(), relay_names(names), password_calls(names, reference@, answers, copied, gone)]
                {
                    &&& relay_names(names)
                    &&& asked_in_turn(answers, 2)
                    &&& brought_across(answers, copied, gone)
                    &&& store.calls() == password_calls(names, reference@, answers, copied, gone)
                    &&& read_back(r, first_answer(answers))
                },
    {
        let mut store = SystemCredentials::new();
        let r = get_secret(&mut store, reference);
        proof {
            lemma_empty_record();
        }
        r
    }

    /// Removes the secret under every name as `delete_secret` does, through a new handle on the
    /// system credential store: the handle's record afterwards holds exactly those removals.
    pub fn delete(&self, reference: &str) -> (r: Result<bool, RelaySecretStoreError>)
        ensures
            exists|store: SystemCredentials, names: ServiceNames, answers: Seq<Result<bool, CredentialError>>|
                #![trigger store.calls(), relay_names(names), removals(names, reference@, answers)]
                {
                    &&& relay_names(names)
                    &&& answers.len() == 2
                    &&& store.calls() == removals(names, reference@, answers)
                    &&& r == deletion_answer(deletion_outcome(answers))
                },
    {
        let mut store = SystemCredentials::new();
        let r = delete_secret(&mut store, reference);
        proof {
            lemma_empty_record();
        }
        r
    }
}

proof fn lemma_empty_record()
    ensures
        forall|added: Seq<StoreCall>| #[trigger] (Seq::<StoreCall>::empty() + added) == added,
        forall|call: StoreCall| #[trigger] Seq::<StoreCall>::empty().push(call) == seq![call],
{
    assert forall|added: Seq<StoreCall>| #[trigger] (Seq::<StoreCall>::empty() + added) == added by {
        assert(Seq::<StoreCall>::empty() + added =~= added);
    }
    assert forall|call: StoreCall| #[trigger] Seq::<StoreCall>::empty().push(call) == seq![call] by {
        assert(Seq::<StoreCall>::empty().push(call) =~= seq![call]);
    }
}

} // verus!
