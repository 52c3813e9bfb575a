//! API keys in the operating system's credential store, through `keyring`.
//!
//! What the store holds is outside state: the contracts of the functions that
//! reach it say what holds whatever the store answered, and the functions that
//! interpret an answer say exactly what comes of each.
use vstd::prelude::*;
use crate::settings::distinct_keys;
use crate::text::{
    chars_of, copy_string, is_blank, push_str, str_to_string, string_of, trim,
};

verus! {

/// Which key a credential holds.
#[derive(Debug, Clone, Copy, PartialEq, Eq, Structural)]
pub enum KeyType {
    /// Remote speech-to-text API key.
    RemoteStt,
    /// Post-processing LLM API key (per provider).
    PostProcess,
    /// AI Replace LLM API key (per provider).
    AiReplace,
}

/// The account-name prefix of a key type.
pub open spec fn key_prefix(k: KeyType) -> Seq<char> {
    match k {
        KeyType::RemoteStt => "remote_stt_api_key"@,
        KeyType::PostProcess => "post_process_api_key"@,
        KeyType::AiReplace => "ai_replace_api_key"@,
    }
}

/// The account name of a key: the prefix, then `_` and the provider id if any.
pub open spec fn credential_name_of(k: KeyType, provider_id: Option<Seq<char>>) -> Seq<char> {
    match provider_id {
        Some(id) => key_prefix(k) + "_"@ + id,
        None => key_prefix(k),
    }
}

impl KeyType {
    fn prefix(&self) -> (r: &'static str)
        ensures
            r@ == key_prefix(*self),
    {
        match self {
            KeyType::RemoteStt => "remote_stt_api_key",
            KeyType::PostProcess => "post_process_api_key",
            KeyType::AiReplace => "ai_replace_api_key",
        }
    }

    /// The credential's account name.
    pub fn credential_name(&self, provider_id: Option<&str>) -> (r: String)
        ensures
            r@ == credential_name_of(
                *self,
                match provider_id {
                    Some(p) => Some(p@),
                    None => None,
                },
            ),
    {
        match provider_id {
            Some(id) => {
                let mut v = chars_of(self.prefix());
                push_str(&mut v, "_");
                push_str(&mut v, id);
                string_of(v.as_slice())
            },
            None => str_to_string(self.prefix()),
        }
    }
}

/// A failure of the credential store.
#[derive(Debug)]
pub enum StoreError {
    /// No credential is stored under the name.
    NoEntry,
    /// Any other failure, with the store's message.
    Other(String),
}

/// The store's message for a failure (`keyring::Error`'s `Display`; its
/// source gives the text for a missing entry).
pub open spec fn store_error_text(e: StoreError) -> Seq<char> {
    match e {
        StoreError::NoEntry => "No matching entry found in secure storage"@,
        StoreError::Other(m) => m@,
    }
}

fn store_error_string(e: &StoreError) -> (r: String)
    ensures
        r@ == store_error_text(*e),
{
    match e {
        StoreError::NoEntry => str_to_string("No matching entry found in secure storage"),
        StoreError::Other(m) => copy_string(m),
    }
}

#[verifier::external_type_specification]
#[verifier::external_body]
pub struct ExEntry(keyring::Entry);

/// The store refused to open the credential of `account` under `service`,
/// with error `e`. A relation, not a function: it says that this answer
/// was given, and nothing of what other calls answer.
pub uninterp spec fn store_open_failed(service: Seq<char>, account: Seq<char>, e: StoreError) -> bool;

/// The store answered `outcome` to a read of the credential of `account`
/// under `service`.
pub uninterp spec fn store_read(service: Seq<char>, account: Seq<char>, outcome: Result<Seq<char>, StoreError>) -> bool;

/// The store answered `outcome` to writing `password` to the credential of
/// `account` under `service`.
pub uninterp spec fn store_written(
    service: Seq<char>,
    account: Seq<char>,
    password: Seq<char>,
    outcome: Result<(), StoreError>,
) -> bool;

/// The store answered `outcome` to deleting the credential of `account`
/// under `service`.
pub uninterp spec fn store_deleted(service: Seq<char>, account: Seq<char>, outcome: Result<(), StoreError>) -> bool;

/// Calls `keyring::Entry::new` for `service` and `user`. Whether it
/// succeeds depends on the platform store; a failure is the store's answer
/// for that service and account.
#[verifier::external_body]
fn open_entry(service: &str, user: &str) -> (r: Result<keyring::Entry, StoreError>)
    ensures
        r matches Err(e) ==> store_open_failed(service@, user@, e),
{
    match keyring::Entry::new(service, user) {
        Ok(e) => Ok(e),
        Err(keyring::Error::NoEntry) => Err(StoreError::NoEntry),
        Err(e) => Err(StoreError::Other(e.to_string())),
    }
}

/// Calls `Entry::set_password` on the credential: the answer is the
/// store's to a write of `password` to that credential.
#[verifier::external_body]
fn entry_set_password(entry: &CredentialEntry, password: &str) -> (r: Result<(), StoreError>)
    ensures
        store_written(entry.service(), entry.account(), password@, r),
{
    match entry.entry.set_password(password) {
        Ok(()) => Ok(()),
        Err(keyring::Error::NoEntry) => Err(StoreError::NoEntry),
        Err(e) => Err(StoreError::Other(e.to_string())),
    }
}

/// Calls `Entry::get_password` on the credential: the answer is the
/// store's to a read of that credential.
#[verifier::external_body]
fn entry_get_password(entry: &CredentialEntry) -> (r: Result<String, StoreError>)
    ensures
        store_read(entry.service(), entry.account(), outcome_view(r)),
{
    match entry.entry.get_password() {
        Ok(p) => Ok(p),
        Err(keyring::Error::NoEntry) => Err(StoreError::NoEntry),
        Err(e) => Err(StoreError::Other(e.to_string())),
    }
}

/// Calls `Entry::delete_credential` on the credential: the answer is the
/// store's to deleting that credential.
#[verifier::external_body]
fn entry_delete_credential(entry: &CredentialEntry) -> (r: Result<(), StoreError>)
    ensures
        store_deleted(entry.service(), entry.account(), r),
{
    match entry.entry.delete_credential() {
        Ok(()) => Ok(()),
        Err(keyring::Error::NoEntry) => Err(StoreError::NoEntry),
        Err(e) => Err(StoreError::Other(e.to_string())),
    }
}

/// `prefix` followed by the store's message.
fn with_store_message(prefix: &str, e: &StoreError) -> (r: String)
    ensures
        r@ == prefix@ + store_error_text(*e),
{
    let mut v = chars_of(prefix);
    let m = store_error_string(e);
    push_str(&mut v, m.as_str());
    string_of(v.as_slice())
}

/// The answer to a key read: a missing credential reads as the empty key.
pub open spec fn key_read_result(outcome: Result<Seq<char>, StoreError>) -> Result<Seq<char>, Seq<char>> {
    match outcome {
        Ok(k) => Ok(k),
        Err(StoreError::NoEntry) => Ok(Seq::empty()),
        Err(e) => Err("Failed to read API key: "@ + store_error_text(e)),
    }
}

/// Model of a string result.
pub open spec fn result_view(r: Result<String, String>) -> Result<Seq<char>, Seq<char>> {
    match r {
        Ok(s) => Ok(s@),
        Err(e) => Err(e@),
    }
}

/// Model of a store answer carrying a string.
pub open spec fn outcome_view(r: Result<String, StoreError>) -> Result<Seq<char>, StoreError> {
    match r {
        Ok(s) => Ok(s@),
        Err(e) => Err(e),
    }
}

/// Interprets the store's answer to a key read.
pub fn interpret_key_read(outcome: Result<String, StoreError>) -> (r: Result<String, String>)
    ensures
        result_view(r) == key_read_result(outcome_view(outcome)),
{
    match outcome {
        Ok(k) => Ok(k),
        Err(StoreError::NoEntry) => Ok(String::new()),
        Err(e) => Err(with_store_message("Failed to read API key: ", &e)),
    }
}

/// The answer to a key write or delete: `missing_ok` makes a missing
/// credential a success (deleting what is not there).
pub open spec fn key_write_result(outcome: Result<(), StoreError>, missing_ok: bool, prefix: Seq<char>) -> Result<(), Seq<char>> {
    match outcome {
        Ok(()) => Ok(()),
        Err(StoreError::NoEntry) => if missing_ok {
            Ok(())
        } else {
            Err(prefix + store_error_text(StoreError::NoEntry))
        },
        Err(e) => Err(prefix + store_error_text(e)),
    }
}

/// Model of a unit result with a message.
pub open spec fn unit_result_view(r: Result<(), String>) -> Result<(), Seq<char>> {
    match r {
        Ok(()) => Ok(()),
        Err(e) => Err(e@),
    }
}

/// Interprets the store's answer to a write or delete.
pub fn interpret_key_write(outcome: Result<(), StoreError>, missing_ok: bool, prefix: &str) -> (r:
    Result<(), String>)
    ensures
        unit_result_view(r) == key_write_result(outcome, missing_ok, prefix@),
{
    match outcome {
        Ok(()) => Ok(()),
        Err(StoreError::NoEntry) => {
            if missing_ok {
                Ok(())
            } else {
                Err(with_store_message(prefix, &StoreError::NoEntry))
            }
        },
        Err(e) => Err(with_store_message(prefix, &e)),
    }
}

/// A key counts as present when it reads and is not blank.
pub open spec fn key_present(read: Result<Seq<char>, Seq<char>>) -> bool {
    match read {
        Ok(k) => trim(k).len() > 0,
        Err(_) => false,
    }
}

/// Whether a key read shows a key.
pub fn key_is_present(read: &Result<String, String>) -> (r: bool)
    ensures
        r == key_present(result_view(*read)),
{
    match read {
        Ok(k) => {
            proof {
                crate::text::lemma_trim_empty_iff(k@);
            }
            !is_blank(k.as_str())
        },
        Err(_) => false,
    }
}

/// The message of a store failure, as an error string.
fn store_failure(e: StoreError) -> (r: String)
    ensures
        r@ == store_error_text(e),
{
    store_error_string(&e)
}

/// The service every credential is stored under.
pub open spec fn service_name() -> Seq<char> {
    "fi.maxits.aivorelay"@
}

/// An open credential of the store, with the service and the account it
/// was opened for.
pub struct CredentialEntry {
    entry: keyring::Entry,
    service: Ghost<Seq<char>>,
    account: Ghost<Seq<char>>,
}

impl CredentialEntry {
    /// The service the credential belongs to.
    pub closed spec fn service(&self) -> Seq<char> {
        self.service@
    }

    /// The account the credential belongs to.
    pub closed spec fn account(&self) -> Seq<char> {
        self.account@
    }
}

/// Opens the credential of `account` under the application's service.
pub fn open_credential(account: &str) -> (r: Result<CredentialEntry, StoreError>)
    ensures
        r matches Ok(e) ==> e.service() == service_name() && e.account() == account@,
        r matches Err(e) ==> store_open_failed(service_name(), account@, e),
{
    let service = "fi.maxits.aivorelay";
    proof {
        assert(service@ == service_name());
    }
    match open_entry(service, account) {
        Ok(entry) => Ok(CredentialEntry { entry, service: Ghost(service@), account: Ghost(account@) }),
        Err(e) => Err(e),
    }
}

/// Model of an optional provider id.
pub open spec fn provider_view(provider_id: Option<&str>) -> Option<Seq<char>> {
    match provider_id {
        Some(p) => Some(p@),
        None => None,
    }
}

/// Opens the credential of a key type and provider: the account is the
/// key's credential name.
pub fn key_credential(key_type: KeyType, provider_id: Option<&str>) -> (r: Result<CredentialEntry, StoreError>)
    ensures
        r matches Ok(e) ==> e.service() == service_name() && e.account() == credential_name_of(
            key_type,
            provider_view(provider_id),
        ),
        r matches Err(e) ==> store_open_failed(service_name(), credential_name_of(key_type, provider_view(provider_id)), e),
{
    let name = key_type.credential_name(provider_id);
    open_credential(name.as_str())
}

/// What a call that opens a credential and then acts on it answers: the
/// opening's failure, or the answer to the action.
pub open spec fn after_opening<T>(opened: Result<(), StoreError>, then: Result<T, Seq<char>>) -> Result<T, Seq<char>> {
    match opened {
        Err(e) => Err(store_error_text(e)),
        Ok(()) => then,
    }
}

/// The store gave these answers to opening `account` and then reading it.
pub open spec fn read_access(account: Seq<char>, opened: Result<(), StoreError>, outcome: Result<Seq<char>, StoreError>) -> bool {
    match opened {
        Err(e) => store_open_failed(service_name(), account, e),
        Ok(()) => store_read(service_name(), account, outcome),
    }
}

/// The store gave these answers to opening `account` and then writing
/// `key` to it.
pub open spec fn write_access(account: Seq<char>, key: Seq<char>, opened: Result<(), StoreError>, outcome: Result<(), StoreError>) -> bool {
    match opened {
        Err(e) => store_open_failed(service_name(), account, e),
        Ok(()) => store_written(service_name(), account, key, outcome),
    }
}

/// The store gave these answers to opening `account` and then deleting it.
pub open spec fn delete_access(account: Seq<char>, opened: Result<(), StoreError>, outcome: Result<(), StoreError>) -> bool {
    match opened {
        Err(e) => store_open_failed(service_name(), account, e),
        Ok(()) => store_deleted(service_name(), account, outcome),
    }
}

/// The store gave these answers to storing `key` in `account`: a blank key
/// deletes the credential, another is written.
pub open spec fn set_access(account: Seq<char>, key: Seq<char>, opened: Result<(), StoreError>, outcome: Result<(), StoreError>) -> bool {
    if trim(key).len() == 0 {
        delete_access(account, opened, outcome)
    } else {
        write_access(account, key, opened, outcome)
    }
}

/// The answer to storing `key`: a blank key deletes the credential (a
/// missing one is fine), another is written.
pub open spec fn set_key_result(key: Seq<char>, outcome: Result<(), StoreError>) -> Result<(), Seq<char>> {
    if trim(key).len() == 0 {
        key_write_result(outcome, true, "Failed to delete credential: "@)
    } else {
        key_write_result(outcome, false, "Failed to store API key: "@)
    }
}

/// The refusal where the platform has no credential store to use.
pub open spec fn no_store_message() -> Seq<char> {
    "Secure key storage is only available on Windows"@
}

/// Stores an API key in the credential of its key type and provider; a
/// blank key deletes the credential instead, and deleting one that is not
/// there succeeds. Only Windows has a store; on other platforms the call is
/// refused. The result is what comes of the store's answers for that
/// credential.
pub fn set_api_key(windows: bool, key_type: KeyType, provider_id: Option<&str>, key: &str) -> (r: Result<(), String>)
    ensures
        !windows ==> unit_result_view(r) == Err::<(), Seq<char>>(no_store_message()),
        windows ==> exists|opened: Result<(), StoreError>, outcome: Result<(), StoreError>|
            unit_result_view(r) == #[trigger] after_opening(opened, set_key_result(key@, outcome)) && set_access(
                credential_name_of(key_type, provider_view(provider_id)),
                key@,
                opened,
                outcome,
            ),
{
    if !windows {
        return Err(str_to_string("Secure key storage is only available on Windows"));
    }
    let ghost acct = credential_name_of(key_type, provider_view(provider_id));
    let entry = match key_credential(key_type, provider_id) {
        Ok(e) => e,
        Err(e) => {
            let r = store_failure(e);
            proof {
                assert(unit_result_view(Err(r)) == after_opening(Err(e), set_key_result(key@, Ok(()))));
                assert(set_access(acct, key@, Err(e), Ok(())));
            }
            return Err(r);
        },
    };
    proof {
        crate::text::lemma_trim_empty_iff(key@);
    }
    if is_blank(key) {
        let outcome = entry_delete_credential(&entry);
        let r = interpret_key_write(outcome, true, "Failed to delete credential: ");
        assert(unit_result_view(r) == after_opening(Ok(()), set_key_result(key@, outcome)));
        assert(set_access(acct, key@, Ok(()), outcome));
        r
    } else {
        let outcome = entry_set_password(&entry, key);
        let r = interpret_key_write(outcome, false, "Failed to store API key: ");
        assert(unit_result_view(r) == after_opening(Ok(()), set_key_result(key@, outcome)));
        assert(set_access(acct, key@, Ok(()), outcome));
        r
    }
}

/// Reads an API key from the credential of its key type and provider; a
/// missing credential reads as the empty key. Only Windows has a store;
/// elsewhere the read is refused. The result is what comes of the store's
/// answers for that credential.
pub fn get_api_key(windows: bool, key_type: KeyType, provider_id: Option<&str>) -> (r: Result<String, String>)
    ensures
        !windows ==> result_view(r) == Err::<Seq<char>, Seq<char>>(no_store_message()),
        windows ==> exists|opened: Result<(), StoreError>, outcome: Result<Seq<char>, StoreError>|
            result_view(r) == #[trigger] after_opening(opened, key_read_result(outcome)) && read_access(
                credential_name_of(key_type, provider_view(provider_id)),
                opened,
                outcome,
            ),
{
    if !windows {
        return Err(str_to_string("Secure key storage is only available on Windows"));
    }
    let ghost acct = credential_name_of(key_type, provider_view(provider_id));
    let entry = match key_credential(key_type, provider_id) {
        Ok(e) => e,
        Err(e) => {
            let r = store_failure(e);
            proof {
                let none: Result<Seq<char>, StoreError> = Err(StoreError::NoEntry);
                assert(result_view(Err(r)) == after_opening(Err(e), key_read_result(none)));
                assert(read_access(acct, Err(e), none));
            }
            return Err(r);
        },
    };
    let outcome = entry_get_password(&entry);
    let ghost o = outcome_view(outcome);
    let r = interpret_key_read(outcome);
    assert(result_view(r) == after_opening(Ok(()), key_read_result(o)));
    assert(read_access(acct, Ok(()), o));
    r
}

/// Deletes an API key's credential; deleting one that is not there
/// succeeds. Only Windows has a store; elsewhere the call is refused. The
/// result is what comes of the store's answers for that credential.
pub fn delete_api_key(windows: bool, key_type: KeyType, provider_id: Option<&str>) -> (r: Result<(), String>)
    ensures
        !windows ==> unit_result_view(r) == Err::<(), Seq<char>>(no_store_message()),
        windows ==> exists|opened: Result<(), StoreError>, outcome: Result<(), StoreError>|
            unit_result_view(r) == #[trigger] after_opening(
                opened,
                key_write_result(outcome, true, "Failed to delete API key: "@),
            ) && delete_access(credential_name_of(key_type, provider_view(provider_id)), opened, outcome),
{
    if !windows {
        return Err(str_to_string("Secure key storage is only available on Windows"));
    }
    let ghost acct = credential_name_of(key_type, provider_view(provider_id));
    let entry = match key_credential(key_type, provider_id) {
        Ok(e) => e,
        Err(e) => {
            let r = store_failure(e);
            proof {
                assert(unit_result_view(Err(r)) == after_opening(
                    Err(e),
                    key_write_result(Ok(()), true, "Failed to delete API key: "@),
                ));
                assert(delete_access(acct, Err(e), Ok(())));
            }
            return Err(r);
        },
    };
    let outcome = entry_delete_credential(&entry);
    let r = interpret_key_write(outcome, true, "Failed to delete API key: ");
    assert(unit_result_view(r) == after_opening(Ok(()), key_write_result(outcome, true, "Failed to delete API key: "@)));
    assert(delete_access(acct, Ok(()), outcome));
    r
}

/// `k` is what the store's answers for `account` read as a key (the empty
/// key where opening or reading failed).
pub open spec fn read_of(k: Seq<char>, account: Seq<char>) -> bool {
    exists|opened: Result<(), StoreError>, outcome: Result<Seq<char>, StoreError>|
        k == key_or_empty(#[trigger] after_opening(opened, key_read_result(outcome))) && read_access(
            account,
            opened,
            outcome,
        )
}

/// Whether a non-blank API key is stored: what `get_api_key` reads from the
/// credential of the key type and provider, judged by `key_present`; always
/// false without a store.
pub fn has_api_key(windows: bool, key_type: KeyType, provider_id: Option<&str>) -> (r: bool)
    ensures
        !windows ==> !r,
        windows ==> exists|opened: Result<(), StoreError>, outcome: Result<Seq<char>, StoreError>|
            r == key_present(#[trigger] after_opening(opened, key_read_result(outcome))) && read_access(
                credential_name_of(key_type, provider_view(provider_id)),
                opened,
                outcome,
            ),
{
    let read = get_api_key(windows, key_type, provider_id);
    let r = key_is_present(&read);
    proof {
        if windows {
            let (opened, outcome) = choose|opened: Result<(), StoreError>, outcome: Result<Seq<char>, StoreError>|
                result_view(read) == #[trigger] after_opening(opened, key_read_result(outcome)) && read_access(
                    credential_name_of(key_type, provider_view(provider_id)),
                    opened,
                    outcome,
                );
            assert(r == key_present(after_opening(opened, key_read_result(outcome))));
        }
    }
    r
}

/// A key read, or the empty key where it failed.
pub open spec fn key_or_empty(read: Result<Seq<char>, Seq<char>>) -> Seq<char> {
    match read {
        Ok(k) => k,
        Err(_) => Seq::empty(),
    }
}

/// The key of `key_type` for a provider, or the empty key where it cannot be
/// read.
fn provider_key(windows: bool, key_type: KeyType, provider_id: &str) -> (r: String)
    ensures
        !windows ==> r@ == Seq::<char>::empty(),
        windows ==> read_of(r@, credential_name_of(key_type, Some(provider_id@))),
{
    let read = get_api_key(windows, key_type, Some(provider_id));
    let ghost rv = result_view(read);
    let r = match read {
        Ok(k) => k,
        Err(_) => String::new(),
    };
    proof {
        assert(r@ == key_or_empty(rv));
        if windows {
            let acct = credential_name_of(key_type, Some(provider_id@));
            assert(provider_view(Some(provider_id)) == Some(provider_id@));
            let (opened, outcome) = choose|opened: Result<(), StoreError>, outcome: Result<Seq<char>, StoreError>|
                rv == #[trigger] after_opening(opened, key_read_result(outcome)) && read_access(acct, opened, outcome);
            assert(r@ == key_or_empty(after_opening(opened, key_read_result(outcome))));
        }
    }
    r
}

/// The post-processing API key of a provider, read from the credential
/// `post_process_api_key_<provider>`; empty when it cannot be read, and
/// always empty without a store.
pub fn get_post_process_api_key(windows: bool, provider_id: &str) -> (r: String)
    ensures
        !windows ==> r@ == Seq::<char>::empty(),
        windows ==> read_of(r@, credential_name_of(KeyType::PostProcess, Some(provider_id@))),
{
    provider_key(windows, KeyType::PostProcess, provider_id)
}

/// Stores the post-processing API key of a provider in the credential
/// `post_process_api_key_<provider>` (a blank key deletes it).
pub fn set_post_process_api_key(windows: bool, provider_id: &str, key: &str) -> (r: Result<(), String>)
    ensures
        !windows ==> unit_result_view(r) == Err::<(), Seq<char>>(no_store_message()),
        windows ==> exists|opened: Result<(), StoreError>, outcome: Result<(), StoreError>|
            unit_result_view(r) == #[trigger] after_opening(opened, set_key_result(key@, outcome)) && set_access(
                credential_name_of(KeyType::PostProcess, Some(provider_id@)),
                key@,
                opened,
                outcome,
            ),
{
    assert(provider_view(Some(provider_id)) == Some(provider_id@));
    set_api_key(windows, KeyType::PostProcess, Some(provider_id), key)
}

/// The AI Replace API key of a provider, read from the credential
/// `ai_replace_api_key_<provider>`; empty when it cannot be read, and
/// always empty without a store.
pub fn get_ai_replace_api_key(windows: bool, provider_id: &str) -> (r: String)
    ensures
        !windows ==> r@ == Seq::<char>::empty(),
        windows ==> read_of(r@, credential_name_of(KeyType::AiReplace, Some(provider_id@))),
{
    provider_key(windows, KeyType::AiReplace, provider_id)
}

/// Stores the AI Replace API key of a provider in the credential
/// `ai_replace_api_key_<provider>` (a blank key deletes it).
pub fn set_ai_replace_api_key(windows: bool, provider_id: &str, key: &str) -> (r: Result<(), String>)
    ensures
        !windows ==> unit_result_view(r) == Err::<(), Seq<char>>(no_store_message()),
        windows ==> exists|opened: Result<(), StoreError>, outcome: Result<(), StoreError>|
            unit_result_view(r) == #[trigger] after_opening(opened, set_key_result(key@, outcome)) && set_access(
                credential_name_of(KeyType::AiReplace, Some(provider_id@)),
                key@,
                opened,
                outcome,
            ),
{
    assert(provider_view(Some(provider_id)) == Some(provider_id@));
    set_api_key(windows, KeyType::AiReplace, Some(provider_id), key)
}

/// Model of a table of (provider id, key) pairs.
pub open spec fn pairs_view(m: Seq<(String, String)>) -> Seq<(Seq<char>, Seq<char>)> {
    m.map_values(|p: (String, String)| (p.0@, p.1@))
}

/// Model of a list of ids.
pub open spec fn id_list_view(v: Seq<String>) -> Seq<Seq<char>> {
    v.map_values(|s: String| s@)
}

/// The providers whose keys moved, in order, when the store accepted the
/// writes marked in `accepted`: a blank key is not written.
pub open spec fn moved_ids(keys: Seq<(Seq<char>, Seq<char>)>, accepted: Seq<bool>) -> Seq<Seq<char>>
    decreases keys.len(),
{
    if keys.len() == 0 {
        Seq::empty()
    } else {
        let rest = moved_ids(keys.drop_last(), accepted.take(keys.len() - 1));
        if trim(keys.last().1).len() > 0 && accepted[keys.len() - 1] {
            rest.push(keys.last().0)
        } else {
            rest
        }
    }
}

/// The store accepted writing key `entry.1` to the credential of provider
/// `entry.0` for `key_type`.
pub open spec fn key_stored(key_type: KeyType, entry: (Seq<char>, Seq<char>)) -> bool {
    store_written(service_name(), credential_name_of(key_type, Some(entry.0)), entry.1, Ok(()))
}

/// Some pattern of accepted writes, one per key, gives `ids`, and each
/// accepted write put its key in its provider's credential.
pub open spec fn moved_for_some_answers(ids: Seq<Seq<char>>, keys: Seq<(Seq<char>, Seq<char>)>, key_type: KeyType) -> bool {
    exists|accepted: Seq<bool>|
        accepted.len() == keys.len() && #[trigger] moved_ids(keys, accepted) == ids && forall|i: int|
            0 <= i < keys.len() && accepted[i] && trim(keys[i].1).len() > 0 ==> key_stored(
                key_type,
                #[trigger] keys[i],
            )
}

/// The providers that moved are providers of the table; with distinct ids
/// in the table, none is listed twice.
proof fn lemma_moved_ids_distinct(keys: Seq<(Seq<char>, Seq<char>)>, accepted: Seq<bool>)
    requires
        accepted.len() == keys.len(),
    ensures
        forall|i: int|
            0 <= i < moved_ids(keys, accepted).len() ==> exists|j: int|
                0 <= j < keys.len() && #[trigger] keys[j].0 == #[trigger] moved_ids(keys, accepted)[i],
        distinct_keys(keys) ==> moved_ids(keys, accepted).no_duplicates(),
    decreases keys.len(),
{
    if keys.len() > 0 {
        let init = keys.drop_last();
        let acc = accepted.take(keys.len() - 1);
        lemma_moved_ids_distinct(init, acc);
        let r = moved_ids(init, acc);
        let m = moved_ids(keys, accepted);
        assert forall|i: int| 0 <= i < m.len() implies exists|j: int|
            0 <= j < keys.len() && #[trigger] keys[j].0 == #[trigger] m[i] by {
            if i < r.len() {
                assert(m[i] == r[i]);
                let j = choose|j: int| 0 <= j < init.len() && #[trigger] init[j].0 == #[trigger] r[i];
                assert(keys[j] == init[j]);
            } else {
                assert(keys[keys.len() - 1].0 == m[i]);
            }
        }
        if distinct_keys(keys) {
            assert(distinct_keys(init)) by {
                assert forall|a: int, b: int| 0 <= a < b < init.len() implies #[trigger] init[a].0
                    != #[trigger] init[b].0 by {
                    assert(keys[a].0 != keys[b].0);
                }
            }
            if m.len() > r.len() {
                let last = keys.last().0;
                assert(m =~= r.push(last));
                assert forall|i: int| 0 <= i < r.len() implies r[i] != last by {
                    let j = choose|j: int| 0 <= j < init.len() && #[trigger] init[j].0 == #[trigger] r[i];
                    assert(keys[j].0 != keys[keys.len() - 1].0);
                }
            }
        }
    }
}

/// With every write refused, nothing moves.
proof fn lemma_nothing_moved(keys: Seq<(Seq<char>, Seq<char>)>, key_type: KeyType)
    ensures
        moved_for_some_answers(Seq::empty(), keys, key_type),
{
    let refused = Seq::new(keys.len(), |i: int| false);
    lemma_all_refused(keys, refused);
}

proof fn lemma_all_refused(keys: Seq<(Seq<char>, Seq<char>)>, refused: Seq<bool>)
    requires
        refused.len() == keys.len(),
        forall|i: int| 0 <= i < refused.len() ==> !refused[i],
    ensures
        moved_ids(keys, refused) == Seq::<Seq<char>>::empty(),
    decreases keys.len(),
{
    if keys.len() > 0 {
        lemma_all_refused(keys.drop_last(), refused.take(keys.len() - 1));
    }
}

fn migrate_table(keys: &Vec<(String, String)>, key_type: KeyType) -> (r: Vec<String>)
    ensures
        moved_for_some_answers(id_list_view(r@), pairs_view(keys@), key_type),
        distinct_keys(pairs_view(keys@)) ==> id_list_view(r@).no_duplicates(),
{
    let ghost kv = pairs_view(keys@);
    let ghost mut accepted: Seq<bool> = Seq::empty();
    let mut out: Vec<String> = Vec::new();
    let mut i: usize = 0;
    while i < keys.len()
        invariant
            0 <= i <= keys.len(),
            kv == pairs_view(keys@),
            accepted.len() == i,
            id_list_view(out@) == moved_ids(kv.take(i as int), accepted),
            forall|j: int| 0 <= j < i && accepted[j] && trim(kv[j].1).len() > 0 ==> key_stored(key_type, #[trigger] kv[j]),
        decreases keys.len() - i,
    {
        let provider_id = keys[i].0.as_str();
        let key = keys[i].1.as_str();
        let ghost before = id_list_view(out@);
        let ghost next = kv.take(i + 1);
        proof {
            crate::text::lemma_trim_empty_iff(key@);
            assert(next.drop_last() =~= kv.take(i as int));
            assert(next.last() == (keys@[i as int].0@, keys@[i as int].1@));
        }
        let mut ok = false;
        if !is_blank(key) {
            let stored = set_api_key(true, key_type, Some(provider_id), key);
            match stored {
                Ok(()) => {
                    proof {
                        let acct = credential_name_of(key_type, provider_view(Some(provider_id)));
                        assert(provider_view(Some(provider_id)) == Some(kv[i as int].0));
                        let (opened, outcome) = choose|opened: Result<(), StoreError>, outcome: Result<(), StoreError>|
                            unit_result_view(stored) == #[trigger] after_opening(opened, set_key_result(key@, outcome))
                                && set_access(acct, key@, opened, outcome);
                        assert(unit_result_view(stored) == Ok::<(), Seq<char>>(()));
                        assert(trim(key@).len() > 0);
                        assert(opened is Ok);
                        assert(set_key_result(key@, outcome) == key_write_result(outcome, false, "Failed to store API key: "@));
                        assert(outcome is Ok);
                        assert(outcome->Ok_0 == ());
                        assert(outcome == Ok::<(), StoreError>(()));
                        assert(kv[i as int].1 == key@);
                        assert(acct == credential_name_of(key_type, Some(kv[i as int].0)));
                        assert(write_access(acct, key@, opened, outcome));
                        assert(key_stored(key_type, kv[i as int]));
                    }
                    out.push(copy_string(&keys[i].0));
                    ok = true;
                },
                Err(_) => {},
            }
        }
        proof {
            let acc2 = accepted.push(ok);
            assert(acc2.take(i as int) =~= accepted);
            assert forall|j: int| 0 <= j < i + 1 && acc2[j] && trim(kv[j].1).len() > 0 implies key_stored(
                key_type,
                #[trigger] kv[j],
            ) by {
                if j < i {
                    assert(acc2[j] == accepted[j]);
                }
            }
            if ok {
                assert(id_list_view(out@) =~= before.push(kv[i as int].0));
            } else {
                assert(id_list_view(out@) =~= before);
            }
            accepted = acc2;
        }
        i = i + 1;
    }
    proof {
        assert(kv.take(keys.len() as int) =~= kv);
        assert(moved_ids(kv, accepted) == id_list_view(out@));
        lemma_moved_ids_distinct(kv, accepted);
        assert(moved_for_some_answers(id_list_view(out@), kv, key_type));
    }
    out
}

/// Moves the API keys kept in the settings into the credential store:
/// returns whether any moved, and the providers whose post-processing and
/// AI Replace keys moved, in the order of the tables. Blank keys are
/// skipped; each other key is written to its provider's credential, and a
/// key the store refuses is left out (which it refuses is the store's
/// answer, so the lists are those of some pattern of answers).
pub fn migrate_keys_from_settings(
    windows: bool,
    post_process_keys: &Vec<(String, String)>,
    ai_replace_keys: &Vec<(String, String)>,
) -> (r: (bool, Vec<String>, Vec<String>))
    ensures
        r.0 == (r.1@.len() > 0 || r.2@.len() > 0),
        !windows ==> r.1@.len() == 0 && r.2@.len() == 0,
        moved_for_some_answers(id_list_view(r.1@), pairs_view(post_process_keys@), KeyType::PostProcess),
        moved_for_some_answers(id_list_view(r.2@), pairs_view(ai_replace_keys@), KeyType::AiReplace),
        distinct_keys(pairs_view(post_process_keys@)) ==> id_list_view(r.1@).no_duplicates(),
        distinct_keys(pairs_view(ai_replace_keys@)) ==> id_list_view(r.2@).no_duplicates(),
{
    if !windows {
        let none: Vec<String> = Vec::new();
        let none2: Vec<String> = Vec::new();
        proof {
            lemma_nothing_moved(pairs_view(post_process_keys@), KeyType::PostProcess);
            lemma_nothing_moved(pairs_view(ai_replace_keys@), KeyType::AiReplace);
            assert(id_list_view(none@) =~= Seq::<Seq<char>>::empty());
            assert(id_list_view(none2@) =~= Seq::<Seq<char>>::empty());
        }
        return (false, none, none2);
    }
    let post = migrate_table(post_process_keys, KeyType::PostProcess);
    let ai = migrate_table(ai_replace_keys, KeyType::AiReplace);
    let migrated = post.len() > 0 || ai.len() > 0;
    (migrated, post, ai)
}

/// The answer to a read where a missing credential is an error.
pub open spec fn strict_read_result(outcome: Result<Seq<char>, StoreError>) -> Result<Seq<char>, Seq<char>> {
    match outcome {
        Ok(k) => Ok(k),
        Err(e) => Err("Failed to read API key: "@ + store_error_text(e)),
    }
}

/// Interprets the store's answer to a read where a missing credential is an
/// error.
pub fn interpret_strict_read(outcome: Result<String, StoreError>) -> (r: Result<String, String>)
    ensures
        result_view(r) == strict_read_result(outcome_view(outcome)),
{
    match outcome {
        Ok(k) => Ok(k),
        Err(e) => Err(with_store_message("Failed to read API key: ", &e)),
    }
}

/// The account of the remote transcription key.
pub open spec fn remote_account() -> Seq<char> {
    "remote_stt_api_key"@
}

/// Stores the remote transcription key in the credential
/// `remote_stt_api_key`; the result is what comes of the store's answers
/// for that credential.
pub(crate) fn store_remote_key(key: &str) -> (r: Result<(), String>)
    ensures
        exists|opened: Result<(), StoreError>, outcome: Result<(), StoreError>|
            unit_result_view(r) == #[trigger] after_opening(
                opened,
                key_write_result(outcome, false, "Failed to store API key: "@),
            ) && write_access(remote_account(), key@, opened, outcome),
{
    let account = "remote_stt_api_key";
    proof {
        assert(account@ == remote_account());
    }
    let entry = match open_credential(account) {
        Ok(e) => e,
        Err(e) => {
            let r = store_failure(e);
            assert(unit_result_view(Err(r)) == after_opening(
                Err(e),
                key_write_result(Ok(()), false, "Failed to store API key: "@),
            ));
            assert(write_access(remote_account(), key@, Err(e), Ok(())));
            return Err(r);
        },
    };
    let outcome = entry_set_password(&entry, key);
    let r = interpret_key_write(outcome, false, "Failed to store API key: ");
    assert(unit_result_view(r) == after_opening(Ok(()), key_write_result(outcome, false, "Failed to store API key: "@)));
    assert(write_access(remote_account(), key@, Ok(()), outcome));
    r
}

/// Reads the remote transcription key from the credential
/// `remote_stt_api_key`; a missing one is an error. The result is what
/// comes of the store's answers for that credential.
pub(crate) fn read_remote_key() -> (r: Result<String, String>)
    ensures
        exists|opened: Result<(), StoreError>, outcome: Result<Seq<char>, StoreError>|
            result_view(r) == #[trigger] after_opening(opened, strict_read_result(outcome)) && read_access(
                remote_account(),
                opened,
                outcome,
            ),
{
    let account = "remote_stt_api_key";
    proof {
        assert(account@ == remote_account());
    }
    let entry = match open_credential(account) {
        Ok(e) => e,
        Err(e) => {
            let r = store_failure(e);
            let ghost none: Result<Seq<char>, StoreError> = Err(StoreError::NoEntry);
            assert(result_view(Err(r)) == after_opening(Err(e), strict_read_result(none)));
            assert(read_access(remote_account(), Err(e), none));
            return Err(r);
        },
    };
    let outcome = entry_get_password(&entry);
    let ghost o = outcome_view(outcome);
    let r = interpret_strict_read(outcome);
    assert(result_view(r) == after_opening(Ok(()), strict_read_result(o)));
    assert(read_access(remote_account(), Ok(()), o));
    r
}

/// Deletes the credential `remote_stt_api_key`; a missing one is an error.
/// The result is what comes of the store's answers for that credential.
pub(crate) fn delete_remote_key() -> (r: Result<(), String>)
    ensures
        exists|opened: Result<(), StoreError>, outcome: Result<(), StoreError>|
            unit_result_view(r) == #[trigger] after_opening(
                opened,
                key_write_result(outcome, false, "Failed to delete API key: "@),
            ) && delete_access(remote_account(), opened, outcome),
{
    let account = "remote_stt_api_key";
    proof {
        assert(account@ == remote_account());
    }
    let entry = match open_credential(account) {
        Ok(e) => e,
        Err(e) => {
            let r = store_failure(e);
            assert(unit_result_view(Err(r)) == after_opening(
                Err(e),
                key_write_result(Ok(()), false, "Failed to delete API key: "@),
            ));
            assert(delete_access(remote_account(), Err(e), Ok(())));
            return Err(r);
        },
    };
    let outcome = entry_delete_credential(&entry);
    let r = interpret_key_write(outcome, false, "Failed to delete API key: ");
    assert(unit_result_view(r) == after_opening(Ok(()), key_write_result(outcome, false, "Failed to delete API key: "@)));
    assert(delete_access(remote_account(), Ok(()), outcome));
    r
}

} // verus!
