//! Moving a stored secret from the service names earlier versions used to this one's.
//!
//! The system credential store is keyed by service name, so a secret saved under an old name is
//! invisible under the new one. Every read here looks under the current name first, then under
//! each name an earlier version used, and brings what it finds across. The new copy is written
//! before the old one is removed, so a failure in between leaves the secret readable under one
//! name rather than neither. Deleting removes every name.
use vstd::prelude::*;

use zeroize::Zeroize;

verus! {

#[verifier::external_type_specification]
#[verifier::external_body]
pub struct ExKeyringEntry(keyring::Entry);

#[verifier::external_type_specification]
#[verifier::external_body]
pub struct ExKeyringError(keyring::Error);

/// Why the credential store could not do what was asked.
#[derive(Debug)]
pub enum CredentialError {
    /// Nothing is stored under that service and account.
    NoEntry,
    /// The store could not be opened, such as a locked keychain; the platform's error is
    /// attached.
    NoStorageAccess(keyring::Error),
    /// What is stored is not text; the bytes are attached.
    BadEncoding(Vec<u8>),
    /// An attribute was longer than the platform allows: its name and the limit.
    TooLong(String, u32),
    /// An attribute was refused: its name and the reason.
    Invalid(String, String),
    /// The platform's store failed, or matched more than one item.
    Platform(keyring::Error),
}

/// `keyring`'s error as this library's: the variants the library tells apart keep their
/// fields; the platform failures are carried as they are.
#[verifier::external_body]
fn from_keyring(error: keyring::Error) -> (r: CredentialError) {
    match error {
        keyring::Error::NoEntry => CredentialError::NoEntry,
        locked @ keyring::Error::NoStorageAccess(_) => CredentialError::NoStorageAccess(locked),
        keyring::Error::BadEncoding(bytes) => CredentialError::BadEncoding(bytes),
        keyring::Error::TooLong(name, limit) => CredentialError::TooLong(name, limit),
        keyring::Error::Invalid(name, reason) => CredentialError::Invalid(name, reason),
        other => CredentialError::Platform(other),
    }
}

/// `keyring::Entry::new`: the store's item for a service and account. Whether the platform
/// accepts them is the platform's to say.
#[verifier::external_body]
fn entry_for(service: &str, account: &str) -> (r: Result<keyring::Entry, keyring::Error>) {
    keyring::Entry::new(service, account)
}

/// `keyring::Entry::get_password`: the text stored in the item, as the platform has it now.
#[verifier::external_body]
fn entry_password(entry: &keyring::Entry) -> (r: Result<String, keyring::Error>) {
    entry.get_password()
}

/// `keyring::Entry::set_password`: stores text in the item.
#[verifier::external_body]
fn entry_set_password(entry: &keyring::Entry, value: &str) -> (r: Result<(), keyring::Error>) {
    entry.set_password(value)
}

/// `keyring::Entry::get_secret`: the bytes stored in the item, as the platform has them now.
#[verifier::external_body]
fn entry_secret(entry: &keyring::Entry) -> (r: Result<Vec<u8>, keyring::Error>) {
    entry.get_secret()
}

/// `keyring::Entry::set_secret`: stores bytes in the item.
#[verifier::external_body]
fn entry_set_secret(entry: &keyring::Entry, value: &[u8]) -> (r: Result<(), keyring::Error>) {
    entry.set_secret(value)
}

/// `keyring::Entry::delete_credential`: removes the item.
#[verifier::external_body]
fn entry_delete(entry: &keyring::Entry) -> (r: Result<(), keyring::Error>) {
    entry.delete_credential()
}

/// `Zeroize::zeroize` on a byte vector: overwrites every byte with zero and empties it.
#[verifier::external_body]
pub(crate) fn wipe(bytes: &mut Vec<u8>)
    ensures
        final(bytes)@.len() == 0,
{
    bytes.zeroize();
}

/// The service name a secret is stored under now, and the names earlier versions used, newest
/// first.
#[derive(Clone, Copy, Debug, PartialEq, Eq)]
pub struct ServiceNames {
    pub current: &'static str,
    pub legacy: &'static [&'static str],
}

impl ServiceNames {
    pub fn new(current: &'static str, legacy: &'static [&'static str]) -> (r: ServiceNames)
        ensures
            r.current == current,
            r.legacy == legacy,
    {
        ServiceNames { current, legacy }
    }

    /// Every name, the current one first.
    pub fn all(&self) -> (r: Vec<&'static str>)
        ensures
            r@ == seq![self.current] + self.legacy@,
    {
        let mut out: Vec<&'static str> = Vec::new();
        out.push(self.current);
        let mut i: usize = 0;
        while i < self.legacy.len()
            invariant
                i <= self.legacy@.len(),
                out@ == seq![self.current] + self.legacy@.take(i as int),
            decreases self.legacy@.len() - i,
        {
            out.push(self.legacy[i]);
            proof {
                assert(self.legacy@.take(i + 1) =~= self.legacy@.take(i as int).push(self.legacy@[i as int]));
            }
            i = i + 1;
        }
        assert(self.legacy@.take(self.legacy@.len() as int) =~= self.legacy@);
        out
    }
}

/// One call made of a credential store: the call, its arguments and the store's answer.
pub ghost enum StoreCall {
    /// Reading the text under a service and account.
    ReadPassword(Seq<char>, Seq<char>, Result<Option<String>, CredentialError>),
    /// Writing text under a service and account.
    WritePassword(Seq<char>, Seq<char>, Seq<char>, Result<(), CredentialError>),
    /// Reading the bytes under a service and account.
    ReadSecret(Seq<char>, Seq<char>, Result<Option<Vec<u8>>, CredentialError>),
    /// Writing bytes under a service and account.
    WriteSecret(Seq<char>, Seq<char>, Seq<u8>, Result<(), CredentialError>),
    /// Removing what is under a service and account.
    Remove(Seq<char>, Seq<char>, Result<bool, CredentialError>),
}

/// The system credential store, as this library uses it; tests put secrets in memory instead.
///
/// A store keeps, as ghost state, the record of every call made of it, oldest first; each
/// method adds its own call and answer to the end. The functions below state exactly which calls
/// they add, in order, so what they ask of the store, and what they do not, is part of their
/// contracts. A store that keeps no record cannot meet the methods' contracts.
pub trait CredentialStore {
    /// The calls made of this store so far, oldest first.
    open spec fn calls(&self) -> Seq<StoreCall> {
        Seq::empty()
    }

    fn password(&mut self, service: &str, account: &str) -> (r: Result<Option<String>, CredentialError>)
        ensures
            final(self).calls() == old(self).calls().push(StoreCall::ReadPassword(service@, account@, r)),
    ;

    fn set_password(&mut self, service: &str, account: &str, value: &str) -> (r: Result<(), CredentialError>)
        ensures
            final(self).calls() == old(self).calls().push(StoreCall::WritePassword(service@, account@, value@, r)),
    ;

    fn secret(&mut self, service: &str, account: &str) -> (r: Result<Option<Vec<u8>>, CredentialError>)
        ensures
            final(self).calls() == old(self).calls().push(StoreCall::ReadSecret(service@, account@, r)),
    ;

    fn set_secret(&mut self, service: &str, account: &str, value: &[u8]) -> (r: Result<(), CredentialError>)
        ensures
            final(self).calls() == old(self).calls().push(StoreCall::WriteSecret(service@, account@, value@, r)),
    ;

    /// `true` when there was one to remove.
    fn delete(&mut self, service: &str, account: &str) -> (r: Result<bool, CredentialError>)
        ensures
            final(self).calls() == old(self).calls().push(StoreCall::Remove(service@, account@, r)),
    ;
}

/// The `i`th name asked, counting the current one as the first.
pub open spec fn name_at(names: ServiceNames, i: int) -> Seq<char> {
    if i == 0 {
        names.current@
    } else {
        names.legacy@[i - 1]@
    }
}

/// What looking under each name in turn comes to: the first answer other than "nothing
/// there", or nothing when every name held nothing.
pub open spec fn first_answer<T>(answers: Seq<Result<Option<T>, CredentialError>>) -> Result<Option<T>, CredentialError>
    decreases answers.len(),
{
    if answers.len() == 0 {
        Ok(None)
    } else if answers[0] is Ok && answers[0]->Ok_0 is None {
        first_answer(answers.drop_first())
    } else {
        answers[0]
    }
}

/// The answer says there is nothing there.
pub open spec fn nothing_there<T>(answer: Result<Option<T>, CredentialError>) -> bool {
    answer is Ok && answer->Ok_0 is None
}

/// The answers of a lookup that asks `names` names in order and stops at the first answer other
/// than "nothing there".
pub open spec fn asked_in_turn<T>(answers: Seq<Result<Option<T>, CredentialError>>, names: nat) -> bool {
    &&& answers.len() <= names
    &&& forall|i: int| 0 <= i < answers.len() - 1 ==> nothing_there(#[trigger] answers[i])
    &&& answers.len() < names ==> answers.len() > 0 && !nothing_there(answers.last())
}

proof fn lemma_first_answer<T>(answers: Seq<Result<Option<T>, CredentialError>>)
    requires
        forall|i: int| 0 <= i < answers.len() - 1 ==> nothing_there(#[trigger] answers[i]),
    ensures
        answers.len() == 0 ==> first_answer(answers) == Ok::<Option<T>, CredentialError>(None),
        answers.len() > 0 ==> first_answer(answers) == if nothing_there(answers.last()) {
            Ok::<Option<T>, CredentialError>(None)
        } else {
            answers.last()
        },
    decreases answers.len(),
{
    if answers.len() > 1 {
        let rest = answers.drop_first();
        assert forall|i: int| 0 <= i < rest.len() - 1 implies nothing_there(#[trigger] rest[i]) by {
            assert(rest[i] == answers[i + 1]);
        }
        assert(nothing_there(answers[0]));
        lemma_first_answer(rest);
        assert(rest.last() == answers.last());
        assert(first_answer(answers) == first_answer(rest));
    } else if answers.len() == 1 {
        assert(answers.drop_first().len() == 0);
        assert(first_answer(answers.drop_first()) == Ok::<Option<T>, CredentialError>(None));
        assert(answers.last() == answers[0]);
    }
}

/// The reads of text under the names in turn, the current one first, with the store's answers.
pub open spec fn password_reads(names: ServiceNames, account: Seq<char>, answers: Seq<Result<Option<String>, CredentialError>>) -> Seq<StoreCall> {
    Seq::new(answers.len(), |i: int| StoreCall::ReadPassword(name_at(names, i), account, answers[i]))
}

/// The reads of bytes under the names in turn, the current one first, with the store's answers.
pub open spec fn secret_reads(names: ServiceNames, account: Seq<char>, answers: Seq<Result<Option<Vec<u8>>, CredentialError>>) -> Seq<StoreCall> {
    Seq::new(answers.len(), |i: int| StoreCall::ReadSecret(name_at(names, i), account, answers[i]))
}

/// Whether a lookup wrote and removed as it should, given its answers: the copy under the
/// current name is made exactly when what decided was found under an earlier name, and the
/// earlier name is asked to remove its copy exactly when that write succeeded.
pub open spec fn brought_across<T>(
    answers: Seq<Result<Option<T>, CredentialError>>,
    copied: Option<Result<(), CredentialError>>,
    gone: Option<Result<bool, CredentialError>>,
) -> bool {
    &&& (copied is Some <==> (answers.len() > 1 && answers.last() is Ok && answers.last()->Ok_0 is Some))
    &&& (gone is Some <==> (copied is Some && copied->Some_0 is Ok))
}

/// The calls a text lookup makes: its reads, then the copy under the current name of what an
/// earlier name held, then the removal under that earlier name.
pub open spec fn password_calls(
    names: ServiceNames,
    account: Seq<char>,
    answers: Seq<Result<Option<String>, CredentialError>>,
    copied: Option<Result<(), CredentialError>>,
    gone: Option<Result<bool, CredentialError>>,
) -> Seq<StoreCall> {
    password_reads(names, account, answers) + match copied {
        Some(w) => seq![StoreCall::WritePassword(names.current@, account, answers.last()->Ok_0->Some_0@, w)],
        None => Seq::empty(),
    } + match gone {
        Some(d) => seq![StoreCall::Remove(name_at(names, answers.len() - 1), account, d)],
        None => Seq::empty(),
    }
}

/// The same for a lookup of bytes.
pub open spec fn secret_calls(
    names: ServiceNames,
    account: Seq<char>,
    answers: Seq<Result<Option<Vec<u8>>, CredentialError>>,
    copied: Option<Result<(), CredentialError>>,
    gone: Option<Result<bool, CredentialError>>,
) -> Seq<StoreCall> {
    secret_reads(names, account, answers) + match copied {
        Some(w) => seq![StoreCall::WriteSecret(names.current@, account, answers.last()->Ok_0->Some_0@, w)],
        None => Seq::empty(),
    } + match gone {
        Some(d) => seq![StoreCall::Remove(name_at(names, answers.len() - 1), account, d)],
        None => Seq::empty(),
    }
}

proof fn lemma_name_at(names: ServiceNames, i: int)
    requires
        0 <= i < names.legacy@.len(),
    ensures
        name_at(names, i + 1) == names.legacy@[i]@,
{
}

/// A text secret, brought across from an earlier name if that is where it still is. The names are
/// read in turn, the current one first, until one answers with something other than "nothing
/// there"; that answer is the result. Text found under an earlier name is written under the
/// current one, and the earlier name is asked to remove its copy only once that write succeeded;
/// no other call is made.
pub fn password<S: CredentialStore>(store: &mut S, names: ServiceNames, account: &str) -> (r: Result<Option<String>, CredentialError>)
    ensures
        exists|answers: Seq<Result<Option<String>, CredentialError>>, copied: Option<Result<(), CredentialError>>,
            gone: Option<Result<bool, CredentialError>>|
            #![trigger password_calls(names, account@, answers, copied, gone)]
            {
                &&& asked_in_turn(answers, 1 + names.legacy@.len())
                &&& brought_across(answers, copied, gone)
                &&& final(store).calls() == old(store).calls() + password_calls(names, account@, answers, copied, gone)
                &&& r == first_answer(answers)
            },
{
    let first = store.password(names.current, account);
    let ghost mut answers: Seq<Result<Option<String>, CredentialError>> = seq![first];
    proof {
        lemma_first_answer(answers);
        assert(password_reads(names, account@, answers) =~= seq![StoreCall::ReadPassword(names.current@, account@, first)]);
        assert(password_calls(names, account@, answers, None, None) =~= password_reads(names, account@, answers));
    }
    match first {
        Err(e) => return Err(e),
        Ok(Some(value)) => return Ok(Some(value)),
        Ok(None) => {},
    }
    let mut i: usize = 0;
    while i < names.legacy.len()
        invariant
            i <= names.legacy@.len(),
            answers.len() == i + 1,
            forall|k: int| 0 <= k < answers.len() ==> nothing_there(#[trigger] answers[k]),
            store.calls() == old(store).calls() + password_reads(names, account@, answers),
        decreases names.legacy@.len() - i,
    {
        let legacy = names.legacy[i];
        let answer = store.password(legacy, account);
        proof {
            lemma_name_at(names, i as int);
            let before = answers;
            answers = answers.push(answer);
            lemma_first_answer(answers);
            assert(answers[i + 1] == answer);
            assert(password_reads(names, account@, answers)
                =~= password_reads(names, account@, before).push(StoreCall::ReadPassword(legacy@, account@, answer)));
            assert(store.calls() =~= old(store).calls() + password_reads(names, account@, answers));
            assert(password_calls(names, account@, answers, None, None) =~= password_reads(names, account@, answers));
        }
        match answer {
            Err(e) => return Err(e),
            Ok(None) => {},
            Ok(Some(value)) => {
                let copied = store.set_password(names.current, account, value.as_str());
                let ghost w = copied;
                let written = match &copied {
                    Ok(()) => true,
                    Err(_) => false,
                };
                if written {
                    let gone = store.delete(legacy, account);
                    proof {
                        assert(store.calls() =~= old(store).calls() + password_calls(names, account@, answers, Some(w), Some(gone)));
                    }
                } else {
                    proof {
                        assert(store.calls() =~= old(store).calls() + password_calls(names, account@, answers, Some(w), None));
                    }
                }
                return Ok(Some(value));
            },
        }
        i = i + 1;
    }
    proof {
        lemma_first_answer(answers);
        assert(password_calls(names, account@, answers, None, None) =~= password_reads(names, account@, answers));
    }
    Ok(None)
}

/// The same for a secret held as bytes rather than text.
pub fn secret<S: CredentialStore>(store: &mut S, names: ServiceNames, account: &str) -> (r: Result<Option<Vec<u8>>, CredentialError>)
    ensures
        exists|answers: Seq<Result<Option<Vec<u8>>, CredentialError>>, copied: Option<Result<(), CredentialError>>,
            gone: Option<Result<bool, CredentialError>>|
            #![trigger secret_calls(names, account@, answers, copied, gone)]
            {
                &&& asked_in_turn(answers, 1 + names.legacy@.len())
                &&& brought_across(answers, copied, gone)
                &&& final(store).calls() == old(store).calls() + secret_calls(names, account@, answers, copied, gone)
                &&& r == first_answer(answers)
            },
{
    let first = store.secret(names.current, account);
    let ghost mut answers: Seq<Result<Option<Vec<u8>>, CredentialError>> = seq![first];
    proof {
        lemma_first_answer(answers);
        assert(secret_reads(names, account@, answers) =~= seq![StoreCall::ReadSecret(names.current@, account@, first)]);
        assert(secret_calls(names, account@, answers, None, None) =~= secret_reads(names, account@, answers));
    }
    match first {
        Err(e) => return Err(e),
        Ok(Some(value)) => return Ok(Some(value)),
        Ok(None) => {},
    }
    let mut i: usize = 0;
    while i < names.legacy.len()
        invariant
            i <= names.legacy@.len(),
            answers.len() == i + 1,
            forall|k: int| 0 <= k < answers.len() ==> nothing_there(#[trigger] answers[k]),
            store.calls() == old(store).calls() + secret_reads(names, account@, answers),
        decreases names.legacy@.len() - i,
    {
        let legacy = names.legacy[i];
        let answer = store.secret(legacy, account);
        proof {
            lemma_name_at(names, i as int);
            let before = answers;
            answers = answers.push(answer);
            lemma_first_answer(answers);
            assert(answers[i + 1] == answer);
            assert(secret_reads(names, account@, answers)
                =~= secret_reads(names, account@, before).push(StoreCall::ReadSecret(legacy@, account@, answer)));
            assert(store.calls() =~= old(store).calls() + secret_reads(names, account@, answers));
            assert(secret_calls(names, account@, answers, None, None) =~= secret_reads(names, account@, answers));
        }
        match answer {
            Err(e) => return Err(e),
            Ok(None) => {},
            Ok(Some(value)) => {
                let copied = store.set_secret(names.current, account, value.as_slice());
                let ghost w = copied;
                let written = match &copied {
                    Ok(()) => true,
                    Err(_) => false,
                };
                if written {
                    let gone = store.delete(legacy, account);
                    proof {
                        assert(store.calls() =~= old(store).calls() + secret_calls(names, account@, answers, Some(w), Some(gone)));
                    }
                } else {
                    proof {
                        assert(store.calls() =~= old(store).calls() + secret_calls(names, account@, answers, Some(w), None));
                    }
                }
                return Ok(Some(value));
            },
        }
        i = i + 1;
    }
    proof {
        lemma_first_answer(answers);
        assert(secret_calls(names, account@, answers, None, None) =~= secret_reads(names, account@, answers));
    }
    Ok(None)
}

proof fn lemma_all_names(names: ServiceNames, all: Seq<&'static str>)
    requires
        all == seq![names.current] + names.legacy@,
    ensures
        all.len() == 1 + names.legacy@.len(),
        forall|k: int| 0 <= k < all.len() ==> #[trigger] all[k]@ == name_at(names, k),
{
    assert forall|k: int| 0 <= k < all.len() implies #[trigger] all[k]@ == name_at(names, k) by {
        if k > 0 {
            assert(all[k] == names.legacy@[k - 1]);
        }
    }
}

/// Whether the first decisive answer shows a secret: one found, or bytes that are not text
/// (something is there all the same); any other failure is reported.
pub open spec fn exists_outcome(answers: Seq<Result<Option<Vec<u8>>, CredentialError>>) -> Result<bool, CredentialError> {
    match first_answer(answers) {
        Ok(None) => Ok(false),
        Ok(Some(_)) => Ok(true),
        Err(CredentialError::BadEncoding(_)) => Ok(true),
        Err(e) => Err(e),
    }
}

/// Whether a secret exists under any of the names, for a store that refuses to overwrite one.
/// Whatever was read is wiped before it is let go.
/// The names are read in turn, the current one first, until one answers with something other than
/// "nothing there"; nothing is written or removed.
pub fn secret_exists<S: CredentialStore>(store: &mut S, names: ServiceNames, account: &str) -> (r: Result<bool, CredentialError>)
    ensures
        exists|answers: Seq<Result<Option<Vec<u8>>, CredentialError>>| #![trigger exists_outcome(answers)]
            {
                &&& asked_in_turn(answers, 1 + names.legacy@.len())
                &&& final(store).calls() == old(store).calls() + secret_reads(names, account@, answers)
                &&& r == exists_outcome(answers)
            },
{
    let all = names.all();
    proof {
        lemma_all_names(names, all@);
    }
    let ghost mut answers: Seq<Result<Option<Vec<u8>>, CredentialError>> = Seq::empty();
    let mut i: usize = 0;
    while i < all.len()
        invariant
            all@.len() == 1 + names.legacy@.len(),
            i <= all@.len(),
            answers.len() == i,
            forall|k: int| 0 <= k < answers.len() ==> nothing_there(#[trigger] answers[k]),
            forall|k: int| 0 <= k < all@.len() ==> #[trigger] all@[k]@ == name_at(names, k),
            store.calls() == old(store).calls() + secret_reads(names, account@, answers),
        decreases all@.len() - i,
    {
        let answer = store.secret(all[i], account);
        proof {
            let before = answers;
            answers = answers.push(answer);
            assert(answers[i as int] == answer);
            lemma_first_answer(answers);
            assert(secret_reads(names, account@, answers)
                =~= secret_reads(names, account@, before).push(StoreCall::ReadSecret(all@[i as int]@, account@, answer)));
            assert(store.calls() =~= old(store).calls() + secret_reads(names, account@, answers));
        }
        match answer {
            Ok(Some(found)) => {
                assert(exists_outcome(answers) == Ok::<bool, CredentialError>(true));
                let mut found = found;
                wipe(&mut found);
                return Ok(true);
            },
            Ok(None) => {},
            Err(CredentialError::BadEncoding(bytes)) => {
                assert(exists_outcome(answers) == Ok::<bool, CredentialError>(true));
                let mut bytes = bytes;
                wipe(&mut bytes);
                return Ok(true);
            },
            Err(error) => {
                assert(exists_outcome(answers) == Err::<bool, CredentialError>(error));
                return Err(error);
            },
        }
        i = i + 1;
    }
    proof {
        lemma_first_answer(answers);
        assert(exists_outcome(answers) == Ok::<bool, CredentialError>(false));
    }
    Ok(false)
}

/// The last answer that was a failure, by its index.
pub open spec fn last_failure(answers: Seq<Result<bool, CredentialError>>) -> Option<int>
    decreases answers.len(),
{
    if answers.len() == 0 {
        None
    } else if answers.last() is Err {
        Some(answers.len() - 1)
    } else {
        last_failure(answers.drop_last())
    }
}

proof fn lemma_last_failure(answers: Seq<Result<bool, CredentialError>>)
    ensures
        last_failure(answers) matches Some(k) ==> 0 <= k < answers.len() && answers[k] is Err,
    decreases answers.len(),
{
    if answers.len() > 0 && !(answers.last() is Err) {
        lemma_last_failure(answers.drop_last());
        if let Some(k) = last_failure(answers.drop_last()) {
            assert(answers[k] == answers.drop_last()[k]);
        }
    }
}

/// Some answer found a secret to remove.
pub open spec fn any_removed(answers: Seq<Result<bool, CredentialError>>) -> bool {
    exists|i: int| 0 <= i < answers.len() && answers[i] == Ok::<bool, CredentialError>(true)
}

/// The answer to deleting under every name, from each name's answer in turn: the last failure,
/// or whether any name held one.
pub open spec fn deletion_outcome(answers: Seq<Result<bool, CredentialError>>) -> Result<bool, CredentialError> {
    match last_failure(answers) {
        Some(k) => answers[k],
        None => Ok(any_removed(answers)),
    }
}

/// The answer to deleting under every name, from each name's answer in turn: the last failure
/// when any removal failed (leaving one name behind would let a deleted secret come back),
/// otherwise whether any name held one.
pub fn deletion_result(answers: Vec<Result<bool, CredentialError>>) -> (r: Result<bool, CredentialError>)
    ensures
        r == deletion_outcome(answers@),
{
    let ghost all = answers@;
    let mut removed = false;
    let mut failure: Option<CredentialError> = None;
    let mut rest = answers;
    proof {
        assert(all.take(0) =~= Seq::<Result<bool, CredentialError>>::empty());
    }
    while rest.len() > 0
        invariant
            rest@.len() <= all.len(),
            rest@ == all.skip(all.len() - rest@.len()),
            ({
                let seen = all.take(all.len() - rest@.len());
                &&& match last_failure(seen) {
                    Some(k) => failure == Some(all[k]->Err_0),
                    None => failure is None,
                }
                &&& removed == any_removed(seen)
            }),
        decreases rest@.len(),
    {
        let ghost k = all.len() - rest@.len();
        let answer = rest.remove(0);
        proof {
            assert(answer == all[k]);
            assert(rest@ =~= all.skip(k + 1));
            let before = all.take(k);
            let after = all.take(k + 1);
            assert(after.drop_last() =~= before);
            assert(after.last() == answer);
            if any_removed(before) {
                let w = choose|w: int| 0 <= w < before.len() && before[w] == Ok::<bool, CredentialError>(true);
                assert(after[w] == before[w]);
            }
            if any_removed(after) && !any_removed(before) {
                let w = choose|w: int| 0 <= w < after.len() && after[w] == Ok::<bool, CredentialError>(true);
                if w < before.len() {
                    assert(before[w] == after[w]);
                }
            }
        }
        match answer {
            Ok(found) => {
                removed = removed || found;
            },
            Err(error) => {
                failure = Some(error);
            },
        }
    }
    proof {
        assert(all.take(all.len() as int) =~= all);
        lemma_last_failure(all);
    }
    match failure {
        Some(error) => Err(error),
        None => Ok(removed),
    }
}

/// The removals under the names in turn, the current one first, with the store's answers.
pub open spec fn removals(names: ServiceNames, account: Seq<char>, answers: Seq<Result<bool, CredentialError>>) -> Seq<StoreCall> {
    Seq::new(answers.len(), |i: int| StoreCall::Remove(name_at(names, i), account, answers[i]))
}

/// Removes the secret under every name, asking each one in turn, even after a removal failed;
/// nothing else is asked. `true` when any of them held one; the last failure when a removal
/// failed anywhere, even where another name gave way.
pub fn delete<S: CredentialStore>(store: &mut S, names: ServiceNames, account: &str) -> (r: Result<bool, CredentialError>)
    ensures
        exists|answers: Seq<Result<bool, CredentialError>>| #![trigger deletion_outcome(answers)]
            {
                &&& answers.len() == 1 + names.legacy@.len()
                &&& final(store).calls() == old(store).calls() + removals(names, account@, answers)
                &&& r == deletion_outcome(answers)
            },
{
    let all = names.all();
    proof {
        lemma_all_names(names, all@);
    }
    let mut answers: Vec<Result<bool, CredentialError>> = Vec::new();
    let mut i: usize = 0;
    while i < all.len()
        invariant
            all@.len() == 1 + names.legacy@.len(),
            i <= all@.len(),
            answers@.len() == i,
            forall|k: int| 0 <= k < all@.len() ==> #[trigger] all@[k]@ == name_at(names, k),
            store.calls() == old(store).calls() + removals(names, account@, answers@),
        decreases all@.len() - i,
    {
        let answer = store.delete(all[i], account);
        let ghost before = answers@;
        answers.push(answer);
        proof {
            assert(removals(names, account@, answers@)
                =~= removals(names, account@, before).push(StoreCall::Remove(all@[i as int]@, account@, answer)));
            assert(store.calls() =~= old(store).calls() + removals(names, account@, answers@));
        }
        i = i + 1;
    }
    let ghost asked = answers@;
    let r = deletion_result(answers);
    assert(r == deletion_outcome(asked));
    r
}

/// What a read comes to, from the platform's answer: what was found, nothing where the platform
/// has no entry, and any other failure as it is.
pub open spec fn read_outcome<T>(answer: Result<T, CredentialError>) -> Result<Option<T>, CredentialError> {
    match answer {
        Ok(value) => Ok(Some(value)),
        Err(CredentialError::NoEntry) => Ok(None),
        Err(error) => Err(error),
    }
}

/// A read's answer as a store gives it: "no entry" from the platform is nothing there.
pub fn read_answer<T>(answer: Result<T, CredentialError>) -> (r: Result<Option<T>, CredentialError>)
    ensures
        r == read_outcome(answer),
{
    match answer {
        Ok(value) => Ok(Some(value)),
        Err(CredentialError::NoEntry) => Ok(None),
        Err(error) => Err(error),
    }
}

/// What a removal comes to, from the platform's answer: `true` when one was removed, `false`
/// where the platform has no entry, and any other failure as it is.
pub open spec fn removal_outcome(answer: Result<(), CredentialError>) -> Result<bool, CredentialError> {
    match answer {
        Ok(()) => Ok(true),
        Err(CredentialError::NoEntry) => Ok(false),
        Err(error) => Err(error),
    }
}

/// A removal's answer as a store gives it.
pub fn removal_answer(answer: Result<(), CredentialError>) -> (r: Result<bool, CredentialError>)
    ensures
        r == removal_outcome(answer),
{
    match answer {
        Ok(()) => Ok(true),
        Err(CredentialError::NoEntry) => Ok(false),
        Err(error) => Err(error),
    }
}

/// The real credential store. It keeps, as ghost state, the record of the calls made through it;
/// what the platform answers is the platform's own, so the record says which calls were made and
/// what came back, and nothing of what will come back. The record is private: outside this module
/// a record holding a call can only come from making that call.
#[derive(Clone, Copy)]
pub struct SystemCredentials {
    record: Ghost<Seq<StoreCall>>,
}

impl SystemCredentials {
    /// A handle on the system store through which no call has been made yet.
    pub fn new() -> (r: SystemCredentials)
        ensures
            r.calls() == Seq::<StoreCall>::empty(),
    {
        SystemCredentials { record: Ghost(Seq::empty()) }
    }
}

impl Default for SystemCredentials {
    fn default() -> (r: SystemCredentials)
        ensures
            r.calls() == Seq::<StoreCall>::empty(),
    {
        SystemCredentials::new()
    }
}

impl CredentialStore for SystemCredentials {
    closed spec fn calls(&self) -> Seq<StoreCall> {
        self.record@
    }

    fn password(&mut self, service: &str, account: &str) -> (r: Result<Option<String>, CredentialError>) {
        let r = match entry_for(service, account) {
            Ok(entry) => read_answer(from_keyring_result(entry_password(&entry))),
            Err(error) => Err(from_keyring(error)),
        };
        self.record = Ghost(self.record@.push(StoreCall::ReadPassword(service@, account@, r)));
        r
    }

    fn set_password(&mut self, service: &str, account: &str, value: &str) -> (r: Result<(), CredentialError>) {
        let r = match entry_for(service, account) {
            Ok(entry) => from_keyring_result(entry_set_password(&entry, value)),
            Err(error) => Err(from_keyring(error)),
        };
        self.record = Ghost(self.record@.push(StoreCall::WritePassword(service@, account@, value@, r)));
        r
    }

    fn secret(&mut self, service: &str, account: &str) -> (r: Result<Option<Vec<u8>>, CredentialError>) {
        let r = match entry_for(service, account) {
            Ok(entry) => read_answer(from_keyring_result(entry_secret(&entry))),
            Err(error) => Err(from_keyring(error)),
        };
        self.record = Ghost(self.record@.push(StoreCall::ReadSecret(service@, account@, r)));
        r
    }

    fn set_secret(&mut self, service: &str, account: &str, value: &[u8]) -> (r: Result<(), CredentialError>) {
        let r = match entry_for(service, account) {
            Ok(entry) => from_keyring_result(entry_set_secret(&entry, value)),
            Err(error) => Err(from_keyring(error)),
        };
        self.record = Ghost(self.record@.push(StoreCall::WriteSecret(service@, account@, value@, r)));
        r
    }

    fn delete(&mut self, service: &str, account: &str) -> (r: Result<bool, CredentialError>) {
        let r = match entry_for(service, account) {
            Ok(entry) => removal_answer(from_keyring_result(entry_delete(&entry))),
            Err(error) => Err(from_keyring(error)),
        };
        self.record = Ghost(self.record@.push(StoreCall::Remove(service@, account@, r)));
        r
    }
}

/// A platform answer with its failure as this library's.
fn from_keyring_result<T>(answer: Result<T, keyring::Error>) -> (r: Result<T, CredentialError>)
    ensures
        answer is Ok <==> r is Ok,
        answer is Ok ==> r == Ok::<T, CredentialError>(answer->Ok_0),
{
    match answer {
        Ok(value) => Ok(value),
        Err(error) => Err(from_keyring(error)),
    }
}

} // verus!
