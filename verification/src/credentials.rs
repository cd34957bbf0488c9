//! The desktop app's saved passwords: how each is named in the system credential store, and how
//! one saved before the product was renamed is found and brought across.
//!
//! The store is keyed by service name, so a password saved under the old one is invisible under
//! the new. A read looks under this app's name, then under the old one; a password found there is
//! written under the new name before the old copy is removed.
use vstd::prelude::*;

use crate::keychain::{CredentialError, CredentialStore, StoreCall, SystemCredentials};
use crate::text::{chars_of, decimal_text, push_decimal, push_str, string_of};

verus! {

/// Where this app's passwords live in the system credential store.
pub const SERVICE_NAME: &'static str = "com.multiplex.password";
/// Where an installed copy put them before the rename.
pub const LEGACY_SERVICE_NAME: &'static str = "com.termirust.password";

/// Why a password could not be stored, read or forgotten.
#[derive(Debug)]
pub enum PasswordError {
    /// No stored password was found under either name.
    NotFound,
    /// The store could not be read.
    Read(CredentialError),
    /// The password could not be stored.
    Write(CredentialError),
    /// The password could not be removed.
    Delete(CredentialError),
}

/// The name of the system credential store on an operating system, as Rust names it.
pub open spec fn store_label(os: Seq<char>) -> Seq<char> {
    if os == "macos"@ {
        "macOS Keychain"@
    } else if os == "windows"@ {
        "Windows Credential Manager"@
    } else {
        "system credential store"@
    }
}

fn same_text(a: &str, b: &str) -> (r: bool)
    ensures
        r == (a@ == b@),
{
    crate::text::chars_equal(chars_of(a).as_slice(), chars_of(b).as_slice())
}

/// The name of the system credential store on `os` (`macos`, `windows`, `linux`, ...).
pub fn secure_store_label(os: &str) -> (r: &'static str)
    ensures
        r@ == store_label(os@),
{
    if same_text(os, "macos") {
        "macOS Keychain"
    } else if same_text(os, "windows") {
        "Windows Credential Manager"
    } else {
        "system credential store"
    }
}

/// `profile:` and the profile's identifier.
pub fn profile_password_credential_id(profile_id: &str) -> (r: String)
    ensures
        r@ == "profile:"@ + profile_id@,
{
    let mut out: Vec<char> = Vec::new();
    push_str(&mut out, "profile:");
    push_str(&mut out, profile_id);
    string_of(out.as_slice())
}

/// A character as it stands in a credential name: ASCII letters and digits lower-cased, `.`,
/// `-`, `_` and `@` kept, anything else `-`.
pub open spec fn normalized_char(c: char) -> char {
    if 'A' <= c && c <= 'Z' {
        ((c as u32) + 32) as char
    } else if ('a' <= c && c <= 'z') || ('0' <= c && c <= '9') || c == '.' || c == '-' || c == '_' || c == '@' {
        c
    } else {
        '-'
    }
}

pub open spec fn normalized(s: Seq<char>) -> Seq<char> {
    s.map_values(|c: char| normalized_char(c))
}

fn normalize_char(c: char) -> (r: char)
    ensures
        r == normalized_char(c),
{
    if 'A' <= c && c <= 'Z' {
        ((c as u32 + 32) as u8) as char
    } else if ('a' <= c && c <= 'z') || ('0' <= c && c <= '9') || c == '.' || c == '-' || c == '_' || c == '@' {
        c
    } else {
        '-'
    }
}

fn push_normalized(out: &mut Vec<char>, value: &str)
    ensures
        final(out)@ == old(out)@ + normalized(value@),
{
    let chars = chars_of(value);
    let mut i: usize = 0;
    while i < chars.len()
        invariant
            i <= chars@.len(),
            chars@ == value@,
            out@ == old(out)@ + normalized(chars@.take(i as int)),
        decreases chars@.len() - i,
    {
        out.push(normalize_char(chars[i]));
        proof {
            assert(normalized(chars@.take(i + 1)) =~= normalized(chars@.take(i as int)).push(normalized_char(chars@[i as int])));
        }
        i = i + 1;
    }
    assert(chars@.take(chars@.len() as int) =~= chars@);
}

/// `connection:user@host:port`, user and host normalized.
pub fn connection_password_credential_id(username: &str, host: &str, port: u16) -> (r: String)
    ensures
        r@ == "connection:"@ + normalized(username@) + "@"@ + normalized(host@) + ":"@ + decimal_text(port as nat),
{
    let mut out: Vec<char> = Vec::new();
    push_str(&mut out, "connection:");
    push_normalized(&mut out, username);
    push_str(&mut out, "@");
    push_normalized(&mut out, host);
    push_str(&mut out, ":");
    push_decimal(&mut out, port as u64);
    string_of(out.as_slice())
}

/// What reading a password comes to, from the store's answers in the order they are asked: under
/// this app's name; then, only when it held none, under the old name; then, only when the old
/// name held one, the answer to writing it under the new name. A failure to remove the old copy
/// afterwards is not worth refusing the password over, so that answer plays no part.
pub open spec fn load_outcome(
    current: Result<Option<String>, CredentialError>,
    legacy: Option<Result<Option<String>, CredentialError>>,
    copied: Option<Result<(), CredentialError>>,
) -> Result<String, PasswordError> {
    match current {
        Err(e) => Err(PasswordError::Read(e)),
        Ok(Some(password)) => Ok(password),
        Ok(None) => match legacy {
            Some(Err(e)) => Err(PasswordError::Read(e)),
            Some(Ok(None)) => Err(PasswordError::NotFound),
            Some(Ok(Some(password))) => match copied {
                Some(Err(e)) => Err(PasswordError::Write(e)),
                _ => Ok(password),
            },
            None => Err(PasswordError::NotFound),
        },
    }
}

/// Whether a read asked what it should, given the answers: the old name only when this app's
/// name held nothing, a write under this app's name only when the old name held a password, and a
/// removal under the old name only once that write succeeded.
pub open spec fn load_shape(
    current: Result<Option<String>, CredentialError>,
    legacy: Option<Result<Option<String>, CredentialError>>,
    copied: Option<Result<(), CredentialError>>,
    gone: Option<Result<bool, CredentialError>>,
) -> bool {
    &&& (legacy is Some <==> current == Ok::<Option<String>, CredentialError>(None))
    &&& (copied is Some <==> (legacy matches Some(Ok(Some(_)))))
    &&& (gone is Some <==> (copied is Some && copied->Some_0 is Ok))
}

/// The calls a read of `credential_id` makes of the store, in order, with its answers: the read
/// under this app's name, the read under the old name, the write under this app's name of what
/// the old name held, and the removal under the old name, each where it is made.
pub open spec fn load_calls(
    credential_id: Seq<char>,
    current: Result<Option<String>, CredentialError>,
    legacy: Option<Result<Option<String>, CredentialError>>,
    copied: Option<Result<(), CredentialError>>,
    gone: Option<Result<bool, CredentialError>>,
) -> Seq<StoreCall> {
    seq![StoreCall::ReadPassword(SERVICE_NAME@, credential_id, current)] + match legacy {
        Some(answer) => seq![StoreCall::ReadPassword(LEGACY_SERVICE_NAME@, credential_id, answer)],
        None => Seq::empty(),
    } + match copied {
        Some(answer) => seq![StoreCall::WritePassword(SERVICE_NAME@, credential_id, legacy->Some_0->Ok_0->Some_0@, answer)],
        None => Seq::empty(),
    } + match gone {
        Some(answer) => seq![StoreCall::Remove(LEGACY_SERVICE_NAME@, credential_id, answer)],
        None => Seq::empty(),
    }
}

/// What reading a password comes to, from the store's answers: the exact counterpart of
/// `load_outcome`.
pub fn load_result(
    current: Result<Option<String>, CredentialError>,
    legacy: Option<Result<Option<String>, CredentialError>>,
    copied: Option<Result<(), CredentialError>>,
) -> (r: Result<String, PasswordError>)
    ensures
        r == load_outcome(current, legacy, copied),
{
    match current {
        Err(e) => Err(PasswordError::Read(e)),
        Ok(Some(password)) => Ok(password),
        Ok(None) => match legacy {
            Some(Err(e)) => Err(PasswordError::Read(e)),
            Some(Ok(None)) => Err(PasswordError::NotFound),
            Some(Ok(Some(password))) => match copied {
                Some(Err(e)) => Err(PasswordError::Write(e)),
                _ => Ok(password),
            },
            None => Err(PasswordError::NotFound),
        },
    }
}

/// Reads a password, bringing one saved under the old service name across as it goes. The new copy
/// is written before the old one is removed, and the old one is removed only once the new copy is
/// written; nothing else is asked of the store.
pub fn load_from<S: CredentialStore>(store: &mut S, credential_id: &str) -> (r: Result<String, PasswordError>)
    ensures
        exists|current: Result<Option<String>, CredentialError>,
            legacy: Option<Result<Option<String>, CredentialError>>,
            copied: Option<Result<(), CredentialError>>,
            gone: Option<Result<bool, CredentialError>>|
            #![trigger load_calls(credential_id@, current, legacy, copied, gone)]
            {
                &&& load_shape(current, legacy, copied, gone)
                &&& final(store).calls() == old(store).calls() + load_calls(credential_id@, current, legacy, copied, gone)
                &&& r == load_outcome(current, legacy, copied)
            },
{
    let current = store.password(SERVICE_NAME, credential_id);
    let nothing_current = match &current {
        Ok(None) => true,
        _ => false,
    };
    let legacy = if nothing_current {
        Some(store.password(LEGACY_SERVICE_NAME, credential_id))
    } else {
        None
    };
    let copied = match &legacy {
        Some(Ok(Some(password))) => Some(store.set_password(SERVICE_NAME, credential_id, password.as_str())),
        _ => None,
    };
    let written = match &copied {
        Some(Ok(())) => true,
        _ => false,
    };
    let ghost mut gone: Option<Result<bool, CredentialError>> = None;
    if written {
        let answer = store.delete(LEGACY_SERVICE_NAME, credential_id);
        proof {
            gone = Some(answer);
        }
    }
    assert(legacy is Some <==> current == Ok::<Option<String>, CredentialError>(None));
    assert(copied is Some <==> (legacy matches Some(Ok(Some(_)))));
    assert(gone is Some <==> (copied is Some && copied->Some_0 is Ok));
    assert(load_shape(current, legacy, copied, gone));
    assert(store.calls() =~= old(store).calls() + load_calls(credential_id@, current, legacy, copied, gone));
    load_result(current, legacy, copied)
}

/// What forgetting a password comes to, from the answers to removing it under this app's name
/// and then, unless that failed, under the old one: `true` when either held one.
pub open spec fn forget_outcome(
    current: Result<bool, CredentialError>,
    legacy: Option<Result<bool, CredentialError>>,
) -> Result<bool, PasswordError> {
    match current {
        Err(e) => Err(PasswordError::Delete(e)),
        Ok(a) => match legacy {
            Some(Err(e)) => Err(PasswordError::Delete(e)),
            Some(Ok(b)) => Ok(a || b),
            None => Ok(a),
        },
    }
}

/// The calls forgetting `credential_id` makes of the store, in order, with its answers: the
/// removal under this app's name, then the one under the old name where it is made.
pub open spec fn forget_calls(
    credential_id: Seq<char>,
    current: Result<bool, CredentialError>,
    legacy: Option<Result<bool, CredentialError>>,
) -> Seq<StoreCall> {
    seq![StoreCall::Remove(SERVICE_NAME@, credential_id, current)] + match legacy {
        Some(answer) => seq![StoreCall::Remove(LEGACY_SERVICE_NAME@, credential_id, answer)],
        None => Seq::empty(),
    }
}

/// What forgetting a password comes to, from the store's answers: the exact counterpart of
/// `forget_outcome`.
pub fn forget_result(current: Result<bool, CredentialError>, legacy: Option<Result<bool, CredentialError>>)
    -> (r: Result<bool, PasswordError>)
    ensures
        r == forget_outcome(current, legacy),
{
    match current {
        Err(e) => Err(PasswordError::Delete(e)),
        Ok(a) => match legacy {
            Some(Err(e)) => Err(PasswordError::Delete(e)),
            Some(Ok(b)) => Ok(a || b),
            None => Ok(a),
        },
    }
}

/// Forgets a password under both names, so removing one does not leave the old copy behind: the
/// old name is asked only when removing under this app's name succeeded. `true` when either held
/// one.
pub fn delete_from<S: CredentialStore>(store: &mut S, credential_id: &str) -> (r: Result<bool, PasswordError>)
    ensures
        exists|current: Result<bool, CredentialError>, legacy: Option<Result<bool, CredentialError>>|
            #![trigger forget_calls(credential_id@, current, legacy)]
            {
                &&& (legacy is Some <==> current is Ok)
                &&& final(store).calls() == old(store).calls() + forget_calls(credential_id@, current, legacy)
                &&& r == forget_outcome(current, legacy)
            },
{
    let current = store.delete(SERVICE_NAME, credential_id);
    let legacy = if current.is_ok() {
        Some(store.delete(LEGACY_SERVICE_NAME, credential_id))
    } else {
        None
    };
    assert(store.calls() =~= old(store).calls() + forget_calls(credential_id@, current, legacy));
    forget_result(current, legacy)
}

/// What storing a password comes to, from the store's answer to the write.
pub open spec fn store_outcome(written: Result<(), CredentialError>) -> Result<(), PasswordError> {
    match written {
        Ok(()) => Ok(()),
        Err(e) => Err(PasswordError::Write(e)),
    }
}

/// Stores a password under this app's name: one write of the password under this app's name,
/// whose answer is the result. The old name is not touched.
pub fn store_to<S: CredentialStore>(store: &mut S, credential_id: &str, password: &str) -> (r: Result<(), PasswordError>)
    ensures
        exists|written: Result<(), CredentialError>| #![trigger store_outcome(written)]
            final(store).calls() == old(store).calls().push(StoreCall::WritePassword(SERVICE_NAME@, credential_id@, password@, written))
                && r == store_outcome(written),
{
    let written = store.set_password(SERVICE_NAME, credential_id, password);
    let ghost answer = written;
    let r = match written {
        Ok(()) => Ok(()),
        Err(e) => Err(PasswordError::Write(e)),
    };
    assert(r == store_outcome(answer));
    r
}

/// Stores a password in the system credential store, as `store_to` does, through a new handle on
/// it: the handle's record afterwards holds that one write.
pub fn store_password(credential_id: &str, password: &str) -> (r: Result<(), PasswordError>)
    ensures
        exists|store: SystemCredentials, written: Result<(), CredentialError>|
            #![trigger store.calls(), store_outcome(written)]
            store.calls() == seq![StoreCall::WritePassword(SERVICE_NAME@, credential_id@, password@, written)]
                && r == store_outcome(written),
{
    let mut store = SystemCredentials::new();
    let r = store_to(&mut store, credential_id, password);
    assert(store.calls() =~= Seq::<StoreCall>::empty() + store.calls());
    r
}

/// Reads a password from the system credential store, as `load_from` reads it, through a new
/// handle on it: the handle's record afterwards holds exactly the calls `load_from` made.
pub fn load_password(credential_id: &str) -> (r: Result<String, PasswordError>)
    ensures
        exists|store: SystemCredentials,
            current: Result<Option<String>, CredentialError>,
            legacy: Option<Result<Option<String>, CredentialError>>,
            copied: Option<Result<(), CredentialError>>,
            gone: Option<Result<bool, CredentialError>>|
            #![trigger store.calls(), load_calls(credential_id@, current, legacy, copied, gone)]
            {
                &&& load_shape(current, legacy, copied, gone)
                &&& store.calls() == load_calls(credential_id@, current, legacy, copied, gone)
                &&& r == load_outcome(current, legacy, copied)
            },
{
    let mut store = SystemCredentials::new();
    let r = load_from(&mut store, credential_id);
    proof {
        let empty = Seq::<StoreCall>::empty();
        assert forall|added: Seq<StoreCall>| empty + added == added by {
            assert(empty + added =~= added);
        }
    }
    r
}

/// Forgets a password in the system credential store, as `delete_from` does, through a new handle
/// on it: the handle's record afterwards holds exactly the calls `delete_from` made.
pub fn delete_password(credential_id: &str) -> (r: Result<bool, PasswordError>)
    ensures
        exists|store: SystemCredentials, current: Result<bool, CredentialError>, legacy: Option<Result<bool, CredentialError>>|
            #![trigger store.calls(), forget_calls(credential_id@, current, legacy)]
            {
                &&& (legacy is Some <==> current is Ok)
                &&& store.calls() == forget_calls(credential_id@, current, legacy)
                &&& r == forget_outcome(current, legacy)
            },
{
    let mut store = SystemCredentials::new();
    let r = delete_from(&mut store, credential_id);
    proof {
        let empty = Seq::<StoreCall>::empty();
        assert forall|added: Seq<StoreCall>| empty + added == added by {
            assert(empty + added =~= added);
        }
    }
    r
}

/// The text a failure is shown with, naming the store by `label`.
pub open spec fn message_text(error: PasswordError, label: Seq<char>) -> Seq<char> {
    match error {
        PasswordError::NotFound => "No stored password was found in "@ + label,
        PasswordError::Read(_) => "Unable to read a password from "@ + label,
        PasswordError::Write(_) => "Unable to store password in "@ + label,
        PasswordError::Delete(_) => "Unable to delete password from "@ + label,
    }
}

impl PasswordError {
    /// The text the failure is shown with on the operating system `os`, naming its credential
    /// store.
    pub fn message(&self, os: &str) -> (r: String)
        ensures
            r@ == message_text(*self, store_label(os@)),
    {
        let mut out: Vec<char> = Vec::new();
        match self {
            PasswordError::NotFound => push_str(&mut out, "No stored password was found in "),
            PasswordError::Read(_) => push_str(&mut out, "Unable to read a password from "),
            PasswordError::Write(_) => push_str(&mut out, "Unable to store password in "),
            PasswordError::Delete(_) => push_str(&mut out, "Unable to delete password from "),
        }
        push_str(&mut out, secure_store_label(os));
        string_of(out.as_slice())
    }
}

} // verus!
