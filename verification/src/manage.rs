//! Administrative store management: which request a path names, which
//! permission it needs, and what the caller has to do next.

use vstd::prelude::*;
use vstd::utf8::encode_utf8;
use crate::namespace::{
    be_bytes_u32, push_be_u32, KV_ACME, KV_BAYES_MODEL_GLOBAL, KV_BAYES_MODEL_USER, KV_GREYLIST,
    KV_LOCK_EMAIL_TASK, KV_LOCK_HOUSEKEEPER, KV_LOCK_PURGE_ACCOUNT, KV_LOCK_QUEUE_MESSAGE,
    KV_LOCK_QUEUE_REPORT, KV_OAUTH, KV_RATE_LIMIT_AUTH, KV_RATE_LIMIT_CONTACT,
    KV_RATE_LIMIT_HASH, KV_RATE_LIMIT_HTTP_ANONYM, KV_RATE_LIMIT_IMAP, KV_RATE_LIMIT_JMAP,
    KV_RATE_LIMIT_JMAP_AUTH, KV_RATE_LIMIT_LOITER, KV_RATE_LIMIT_RCPT, KV_RATE_LIMIT_SCAN,
    KV_REPUTATION_ASN, KV_REPUTATION_DOMAIN, KV_REPUTATION_FROM, KV_REPUTATION_IP,
    KV_TRUSTED_REPLY,
};
use crate::text::{contains_name, names, same_text, segments};

verus! {

/// Request method, as far as the administrative routes tell methods apart.
#[derive(Clone, Copy, Debug, PartialEq, Eq, Structural)]
pub enum Method {
    Get,
    Post,
    Put,
    Patch,
    Delete,
    Other,
}

/// A right that an access token may grant.
#[derive(Clone, Copy, Debug, PartialEq, Eq, Structural)]
pub enum Permission {
    BlobFetch,
    PurgeBlobStore,
    PurgeDataStore,
    PurgeInMemoryStore,
    PurgeAccount,
    FtsReindex,
}

/// Why an administrative request was not carried out.
#[derive(Clone, Copy, Debug, PartialEq, Eq, Structural)]
pub enum ManageError {
    /// The access token lacks the permission.
    Unauthorized(Permission),
    /// A path element could not be decoded.
    BadParameters,
    /// No such route or store.
    ResourceNotFound,
    /// No such blob or account.
    ManageNotFound,
    /// The housekeeper's mailbox is closed.
    ThreadError,
}

/// The administrative routes.
#[derive(Clone, Copy, Debug, PartialEq, Eq, Structural)]
pub enum Route {
    Blob,
    PurgeBlob,
    PurgeData,
    PurgeInMemory,
    PurgeAccount,
    Reindex,
}

/// What an authenticated caller may do.
pub struct AccessToken {
    pub permissions: Vec<Permission>,
    pub tenant: Option<u32>,
}

impl AccessToken {
    pub open spec fn grants(&self, permission: Permission) -> bool {
        self.permissions@.contains(permission)
    }

    pub fn has_permission(&self, permission: Permission) -> (r: bool)
        ensures
            r == self.grants(permission),
    {
        let mut i: usize = 0;
        while i < self.permissions.len()
            invariant
                i <= self.permissions.len(),
                forall|j: int| 0 <= j < i ==> self.permissions@[j] != permission,
            decreases self.permissions.len() - i,
        {
            if self.permissions[i] == permission {
                return true;
            }
            i += 1;
        }
        false
    }

    pub fn assert_has_permission(&self, permission: Permission) -> (r: Result<(), ManageError>)
        ensures
            self.grants(permission) ==> r == Ok::<(), ManageError>(()),
            !self.grants(permission) ==> r == Err::<(), ManageError>(
                ManageError::Unauthorized(permission),
            ),
    {
        if self.has_permission(permission) {
            Ok(())
        } else {
            Err(ManageError::Unauthorized(permission))
        }
    }
}

/// The path element at position `i`, if the path is that long.
pub open spec fn segment(path: Seq<Seq<char>>, i: int) -> Option<Seq<char>> {
    if 0 <= i < path.len() {
        Some(path[i])
    } else {
        None
    }
}

/// The route that a path and a method name. The first element of the path is
/// the mount point and is not looked at.
pub open spec fn spec_route(path: Seq<Seq<char>>, method: Method) -> Option<Route> {
    let first = segment(path, 1);
    let second = segment(path, 2);
    if method != Method::Get {
        None
    } else if first == Some("blobs"@) && second is Some {
        Some(Route::Blob)
    } else if first == Some("purge"@) && second == Some("blob"@) {
        Some(Route::PurgeBlob)
    } else if first == Some("purge"@) && second == Some("data"@) {
        Some(Route::PurgeData)
    } else if first == Some("purge"@) && second == Some("in-memory"@) {
        Some(Route::PurgeInMemory)
    } else if first == Some("purge"@) && second == Some("account"@) {
        Some(Route::PurgeAccount)
    } else if first == Some("reindex"@) && segment(path, 3) is None {
        Some(Route::Reindex)
    } else {
        None
    }
}

/// The permission that a route asks of the access token.
pub open spec fn required_permission(route: Route) -> Permission {
    match route {
        Route::Blob => Permission::BlobFetch,
        Route::PurgeBlob => Permission::PurgeBlobStore,
        Route::PurgeData => Permission::PurgeDataStore,
        Route::PurgeInMemory => Permission::PurgeInMemoryStore,
        Route::PurgeAccount => Permission::PurgeAccount,
        Route::Reindex => Permission::FtsReindex,
    }
}

impl Route {
    pub fn permission(self) -> (r: Permission)
        ensures
            r == required_permission(self),
    {
        match self {
            Route::Blob => Permission::BlobFetch,
            Route::PurgeBlob => Permission::PurgeBlobStore,
            Route::PurgeData => Permission::PurgeDataStore,
            Route::PurgeInMemory => Permission::PurgeInMemoryStore,
            Route::PurgeAccount => Permission::PurgeAccount,
            Route::Reindex => Permission::FtsReindex,
        }
    }
}

/// The path element at position `i`, if the path is that long.
pub fn element<'a>(path: &Vec<&'a str>, i: usize) -> (r: Option<&'a str>)
    ensures
        r is Some == (i < path.len()),
        r matches Some(s) ==> s@ == path@[i as int]@,
        (match r { Some(s) => Some(s@), None => None }) == segment(segments(path@), i as int),
{
    if i < path.len() {
        Some(path[i])
    } else {
        None
    }
}

/// Finds the route of a request.
pub fn route(path: &Vec<&str>, method: Method) -> (r: Option<Route>)
    ensures
        r == spec_route(segments(path@), method),
{
    if method != Method::Get {
        return None;
    }
    proof {
        reveal_strlit("purge");
        reveal_strlit("reindex");
        assert("purge"@.len() != "reindex"@.len());
    }
    match element(path, 1) {
        None => None,
        Some(first) => {
            if same_text(first, "blobs") {
                if path.len() > 2 {
                    return Some(Route::Blob);
                }
            }
            if same_text(first, "purge") {
                match element(path, 2) {
                    None => None,
                    Some(second) => {
                        if same_text(second, "blob") {
                            Some(Route::PurgeBlob)
                        } else if same_text(second, "data") {
                            Some(Route::PurgeData)
                        } else if same_text(second, "in-memory") {
                            Some(Route::PurgeInMemory)
                        } else if same_text(second, "account") {
                            Some(Route::PurgeAccount)
                        } else {
                            None
                        }
                    },
                }
            } else if same_text(first, "reindex") {
                if path.len() > 3 {
                    None
                } else {
                    Some(Route::Reindex)
                }
            } else {
                None
            }
        },
    }
}


/// The namespace byte that a scope name of the in-memory store stands for.
pub open spec fn spec_scope_byte(name: Seq<char>) -> Option<u8> {
    if name == "acme"@ {
        Some(KV_ACME)
    } else if name == "oauth"@ {
        Some(KV_OAUTH)
    } else if name == "rate-rcpt"@ {
        Some(KV_RATE_LIMIT_RCPT)
    } else if name == "rate-scan"@ {
        Some(KV_RATE_LIMIT_SCAN)
    } else if name == "rate-loiter"@ {
        Some(KV_RATE_LIMIT_LOITER)
    } else if name == "rate-auth"@ {
        Some(KV_RATE_LIMIT_AUTH)
    } else if name == "rate-hash"@ {
        Some(KV_RATE_LIMIT_HASH)
    } else if name == "rate-contact"@ {
        Some(KV_RATE_LIMIT_CONTACT)
    } else if name == "rate-jmap"@ {
        Some(KV_RATE_LIMIT_JMAP)
    } else if name == "rate-jmap-auth"@ {
        Some(KV_RATE_LIMIT_JMAP_AUTH)
    } else if name == "rate-http-anonymous"@ {
        Some(KV_RATE_LIMIT_HTTP_ANONYM)
    } else if name == "rate-imap"@ {
        Some(KV_RATE_LIMIT_IMAP)
    } else if name == "reputation-ip"@ {
        Some(KV_REPUTATION_IP)
    } else if name == "reputation-from"@ {
        Some(KV_REPUTATION_FROM)
    } else if name == "reputation-domain"@ {
        Some(KV_REPUTATION_DOMAIN)
    } else if name == "reputation-asn"@ {
        Some(KV_REPUTATION_ASN)
    } else if name == "greylist"@ {
        Some(KV_GREYLIST)
    } else if name == "bayes-account"@ {
        Some(KV_BAYES_MODEL_USER)
    } else if name == "bayes-global"@ {
        Some(KV_BAYES_MODEL_GLOBAL)
    } else if name == "trusted-reply"@ {
        Some(KV_TRUSTED_REPLY)
    } else if name == "lock-purge-account"@ {
        Some(KV_LOCK_PURGE_ACCOUNT)
    } else if name == "lock-queue-message"@ {
        Some(KV_LOCK_QUEUE_MESSAGE)
    } else if name == "lock-queue-report"@ {
        Some(KV_LOCK_QUEUE_REPORT)
    } else if name == "lock-email-task"@ {
        Some(KV_LOCK_EMAIL_TASK)
    } else if name == "lock-housekeeper"@ {
        Some(KV_LOCK_HOUSEKEEPER)
    } else {
        None
    }
}

/// The namespace byte that a scope name of the in-memory store stands for, if
/// the name is known.
pub fn scope_byte(name: &str) -> (r: Option<u8>)
    ensures
        r == spec_scope_byte(name@),
{
    if same_text(name, "acme") {
        Some(KV_ACME)
    } else if same_text(name, "oauth") {
        Some(KV_OAUTH)
    } else if same_text(name, "rate-rcpt") {
        Some(KV_RATE_LIMIT_RCPT)
    } else if same_text(name, "rate-scan") {
        Some(KV_RATE_LIMIT_SCAN)
    } else if same_text(name, "rate-loiter") {
        Some(KV_RATE_LIMIT_LOITER)
    } else if same_text(name, "rate-auth") {
        Some(KV_RATE_LIMIT_AUTH)
    } else if same_text(name, "rate-hash") {
        Some(KV_RATE_LIMIT_HASH)
    } else if same_text(name, "rate-contact") {
        Some(KV_RATE_LIMIT_CONTACT)
    } else if same_text(name, "rate-jmap") {
        Some(KV_RATE_LIMIT_JMAP)
    } else if same_text(name, "rate-jmap-auth") {
        Some(KV_RATE_LIMIT_JMAP_AUTH)
    } else if same_text(name, "rate-http-anonymous") {
        Some(KV_RATE_LIMIT_HTTP_ANONYM)
    } else if same_text(name, "rate-imap") {
        Some(KV_RATE_LIMIT_IMAP)
    } else if same_text(name, "reputation-ip") {
        Some(KV_REPUTATION_IP)
    } else if same_text(name, "reputation-from") {
        Some(KV_REPUTATION_FROM)
    } else if same_text(name, "reputation-domain") {
        Some(KV_REPUTATION_DOMAIN)
    } else if same_text(name, "reputation-asn") {
        Some(KV_REPUTATION_ASN)
    } else if same_text(name, "greylist") {
        Some(KV_GREYLIST)
    } else if same_text(name, "bayes-account") {
        Some(KV_BAYES_MODEL_USER)
    } else if same_text(name, "bayes-global") {
        Some(KV_BAYES_MODEL_GLOBAL)
    } else if same_text(name, "trusted-reply") {
        Some(KV_TRUSTED_REPLY)
    } else if same_text(name, "lock-purge-account") {
        Some(KV_LOCK_PURGE_ACCOUNT)
    } else if same_text(name, "lock-queue-message") {
        Some(KV_LOCK_QUEUE_MESSAGE)
    } else if same_text(name, "lock-queue-report") {
        Some(KV_LOCK_QUEUE_REPORT)
    } else if same_text(name, "lock-email-task") {
        Some(KV_LOCK_EMAIL_TASK)
    } else if same_text(name, "lock-housekeeper") {
        Some(KV_LOCK_HOUSEKEEPER)
    } else {
        None
    }
}

/// No two scope names share a namespace byte.
pub proof fn lemma_scope_bytes_distinct(a: Seq<char>, b: Seq<char>)
    requires
        spec_scope_byte(a) is Some,
        spec_scope_byte(a) == spec_scope_byte(b),
    ensures
        a == b,
{
}

/// The key prefix that a purge of the in-memory store is limited to: the
/// scope's namespace byte, or nothing where the scope is absent or unknown.
pub open spec fn spec_scope_prefix(scope: Option<Seq<char>>) -> Option<Seq<u8>> {
    match scope {
        None => None,
        Some(name) => match spec_scope_byte(name) {
            None => None,
            Some(byte) => Some(seq![byte]),
        },
    }
}

/// The key prefix of one account's bayes model.
pub open spec fn account_prefix(account_id: u32) -> Seq<u8> {
    seq![KV_BAYES_MODEL_USER] + be_bytes_u32(account_id)
}

/// A store named by a request: the default one or a configured one.
#[derive(Debug, PartialEq, Eq)]
pub enum StoreRef {
    Default,
    Named(String),
}

pub enum StoreRefView {
    Default,
    Named(Seq<char>),
}

impl View for StoreRef {
    type V = StoreRefView;

    open spec fn view(&self) -> StoreRefView {
        match self {
            StoreRef::Default => StoreRefView::Default,
            StoreRef::Named(id) => StoreRefView::Named(id@),
        }
    }
}

/// What a purge removes.
#[derive(Debug, PartialEq, Eq)]
pub enum PurgeType {
    Data(StoreRef),
    Blobs,
    Lookup { store: StoreRef, prefix: Option<Vec<u8>> },
    Account(Option<u32>),
}

pub enum PurgeTypeView {
    Data(StoreRefView),
    Blobs,
    Lookup { store: StoreRefView, prefix: Option<Seq<u8>> },
    Account(Option<u32>),
}

impl View for PurgeType {
    type V = PurgeTypeView;

    open spec fn view(&self) -> PurgeTypeView {
        match self {
            PurgeType::Data(store) => PurgeTypeView::Data(store@),
            PurgeType::Blobs => PurgeTypeView::Blobs,
            PurgeType::Lookup { store, prefix } => PurgeTypeView::Lookup {
                store: store@,
                prefix: match prefix {
                    Some(p) => Some(p@),
                    None => None,
                },
            },
            PurgeType::Account(id) => PurgeTypeView::Account(*id),
        }
    }
}

/// A request to the housekeeper.
#[derive(Debug, PartialEq, Eq)]
pub enum HousekeeperEvent {
    Purge(PurgeType),
}

pub enum HousekeeperEventView {
    Purge(PurgeTypeView),
}

impl View for HousekeeperEvent {
    type V = HousekeeperEventView;

    open spec fn view(&self) -> HousekeeperEventView {
        match self {
            HousekeeperEvent::Purge(purge) => HousekeeperEventView::Purge(purge@),
        }
    }
}

/// What a request goes on with once the directory has answered.
#[derive(Debug, PartialEq, Eq)]
pub enum Pending {
    BayesAccount { store: StoreRef },
    PurgeAccount,
    Reindex { tenant: Option<u32> },
}

pub enum PendingView {
    BayesAccount { store: StoreRefView },
    PurgeAccount,
    Reindex { tenant: Option<u32> },
}

impl View for Pending {
    type V = PendingView;

    open spec fn view(&self) -> PendingView {
        match self {
            Pending::BayesAccount { store } => PendingView::BayesAccount { store: store@ },
            Pending::PurgeAccount => PendingView::PurgeAccount,
            Pending::Reindex { tenant } => PendingView::Reindex { tenant: *tenant },
        }
    }
}

/// What the caller has to do next for a request.
#[derive(Debug, PartialEq, Eq)]
pub enum Step {
    /// Read the blob with this hash and hand it to `blob_reply`.
    ReadBlob { hash: Vec<u8> },
    /// Look the account up and hand the answer to `principal_found`.
    FindPrincipal { name: String, then: Pending },
    /// Send the event and hand the channel's answer to `housekeeper_request`.
    Send(HousekeeperEvent),
    /// Start a reindex in the background and acknowledge.
    Reindex { account: Option<u32>, tenant: Option<u32> },
}

pub enum StepView {
    ReadBlob { hash: Seq<u8> },
    FindPrincipal { name: Seq<char>, then: PendingView },
    Send(HousekeeperEventView),
    Reindex { account: Option<u32>, tenant: Option<u32> },
}

impl View for Step {
    type V = StepView;

    open spec fn view(&self) -> StepView {
        match self {
            Step::ReadBlob { hash } => StepView::ReadBlob { hash: hash@ },
            Step::FindPrincipal { name, then } => StepView::FindPrincipal {
                name: name@,
                then: then@,
            },
            Step::Send(event) => StepView::Send(event@),
            Step::Reindex { account, tenant } => StepView::Reindex {
                account: *account,
                tenant: *tenant,
            },
        }
    }
}

/// An answer to an administrative request.
#[derive(Debug, PartialEq, Eq)]
pub enum Reply {
    Resource { content_type: String, contents: Vec<u8> },
    Json { body: String },
}

pub enum ReplyView {
    Resource { content_type: Seq<char>, contents: Seq<u8> },
    Json { body: Seq<char> },
}

impl View for Reply {
    type V = ReplyView;

    open spec fn view(&self) -> ReplyView {
        match self {
            Reply::Resource { content_type, contents } => ReplyView::Resource {
                content_type: content_type@,
                contents: contents@,
            },
            Reply::Json { body } => ReplyView::Json { body: body@ },
        }
    }
}

/// A result with its value seen through its view.
pub open spec fn viewed<T: View>(r: Result<T, ManageError>) -> Result<T::V, ManageError> {
    match r {
        Ok(value) => Ok(value@),
        Err(e) => Err(e),
    }
}

/// The store that an optional identifier names among the configured ones:
/// the default store where it is absent or `default`.
pub open spec fn spec_choose_store(id: Option<Seq<char>>, known: Seq<Seq<char>>) -> Result<
    StoreRefView,
    ManageError,
> {
    match id {
        None => Ok(StoreRefView::Default),
        Some(name) => if name == "default"@ {
            Ok(StoreRefView::Default)
        } else if known.contains(name) {
            Ok(StoreRefView::Named(name))
        } else {
            Err(ManageError::ResourceNotFound)
        },
    }
}

/// Picks the store that an optional identifier names.
pub fn choose_store(id: Option<&str>, known: &Vec<String>) -> (r: Result<StoreRef, ManageError>)
    ensures
        viewed(r) == spec_choose_store(
            match id {
                Some(s) => Some(s@),
                None => None,
            },
            names(known@),
        ),
{
    match id {
        None => Ok(StoreRef::Default),
        Some(name) => {
            if same_text(name, "default") {
                Ok(StoreRef::Default)
            } else if contains_name(known, name) {
                Ok(StoreRef::Named(name.to_owned()))
            } else {
                Err(ManageError::ResourceNotFound)
            }
        },
    }
}

#[verifier::external_type_specification]
#[verifier::external_body]
pub struct ExDecodeError(base64::DecodeError);

/// What `base64`'s URL-safe engine without padding decodes a text to, or
/// `None` where it rejects the text.
pub uninterp spec fn url_safe_no_pad_decoded(input: Seq<u8>) -> Option<Seq<u8>>;

/// Calls `base64::Engine::decode` on `base64::engine::general_purpose::URL_SAFE_NO_PAD`.
/// The contract only gives the outcome its name: the bytes on success, and
/// that the engine refused the input on failure.
#[verifier::external_body]
fn decode_url_safe_no_pad(input: &[u8]) -> (r: Result<Vec<u8>, base64::DecodeError>)
    ensures
        r matches Ok(bytes) ==> url_safe_no_pad_decoded(input@) == Some(bytes@),
        r is Err ==> url_safe_no_pad_decoded(input@) is None,
{
    base64::Engine::decode(&base64::engine::general_purpose::URL_SAFE_NO_PAD, input)
}

/// The step that follows the decoding of a blob hash.
pub open spec fn spec_blob_step(decoded: Option<Seq<u8>>) -> Result<StepView, ManageError> {
    match decoded {
        Some(hash) => Ok(StepView::ReadBlob { hash }),
        None => Err(ManageError::BadParameters),
    }
}

/// Turns a decoded blob hash into the step that reads the blob; a hash that
/// did not decode is a bad parameter.
pub fn blob_step(decoded: Result<Vec<u8>, base64::DecodeError>) -> (r: Result<Step, ManageError>)
    ensures
        viewed(r) == spec_blob_step(
            match decoded {
                Ok(hash) => Some(hash@),
                Err(_) => None,
            },
        ),
{
    match decoded {
        Ok(hash) => Ok(Step::ReadBlob { hash }),
        Err(_) => Err(ManageError::BadParameters),
    }
}

/// What a routed and authorised request asks the caller to do.
pub open spec fn spec_dispatch(
    route: Route,
    path: Seq<Seq<char>>,
    tenant: Option<u32>,
    data_stores: Seq<Seq<char>>,
    lookup_stores: Seq<Seq<char>>,
) -> Result<StepView, ManageError> {
    match route {
        Route::Blob => spec_blob_step(url_safe_no_pad_decoded(encode_utf8(path[2]))),
        Route::PurgeBlob => Ok(StepView::Send(HousekeeperEventView::Purge(PurgeTypeView::Blobs))),
        Route::PurgeData => match spec_choose_store(segment(path, 3), data_stores) {
            Ok(store) => Ok(
                StepView::Send(HousekeeperEventView::Purge(PurgeTypeView::Data(store))),
            ),
            Err(e) => Err(e),
        },
        Route::PurgeInMemory => match spec_choose_store(segment(path, 3), lookup_stores) {
            Ok(store) => if segment(path, 4) == Some("bayes-account"@) && segment(path, 5)
                is Some {
                Ok(
                    StepView::FindPrincipal {
                        name: path[5],
                        then: PendingView::BayesAccount { store },
                    },
                )
            } else {
                Ok(
                    StepView::Send(
                        HousekeeperEventView::Purge(
                            PurgeTypeView::Lookup {
                                store,
                                prefix: spec_scope_prefix(segment(path, 4)),
                            },
                        ),
                    ),
                )
            },
            Err(e) => Err(e),
        },
        Route::PurgeAccount => match segment(path, 3) {
            Some(name) => Ok(StepView::FindPrincipal { name, then: PendingView::PurgeAccount }),
            None => Ok(
                StepView::Send(HousekeeperEventView::Purge(PurgeTypeView::Account(None))),
            ),
        },
        Route::Reindex => match segment(path, 2) {
            Some(name) => Ok(
                StepView::FindPrincipal { name, then: PendingView::Reindex { tenant } },
            ),
            None => Ok(StepView::Reindex { account: None, tenant }),
        },
    }
}

/// What a request asks the caller to do: an unknown route is not found, a
/// route whose permission the token lacks is refused, and only then is the
/// rest of the path looked at.
pub open spec fn spec_handle(
    path: Seq<Seq<char>>,
    method: Method,
    token: AccessToken,
    data_stores: Seq<Seq<char>>,
    lookup_stores: Seq<Seq<char>>,
) -> Result<StepView, ManageError> {
    match spec_route(path, method) {
        None => Err(ManageError::ResourceNotFound),
        Some(route) => if !token.grants(required_permission(route)) {
            Err(ManageError::Unauthorized(required_permission(route)))
        } else {
            spec_dispatch(route, path, token.tenant, data_stores, lookup_stores)
        },
    }
}

/// What follows once the directory has answered: an unknown account ends the
/// request, a known one completes it.
pub open spec fn spec_principal_found(then: PendingView, principal: Option<u32>) -> Result<
    StepView,
    ManageError,
> {
    match principal {
        None => Err(ManageError::ManageNotFound),
        Some(id) => match then {
            PendingView::BayesAccount { store } => Ok(
                StepView::Send(
                    HousekeeperEventView::Purge(
                        PurgeTypeView::Lookup { store, prefix: Some(account_prefix(id)) },
                    ),
                ),
            ),
            PendingView::PurgeAccount => Ok(
                StepView::Send(HousekeeperEventView::Purge(PurgeTypeView::Account(Some(id)))),
            ),
            PendingView::Reindex { tenant } => Ok(StepView::Reindex { account: Some(id), tenant }),
        },
    }
}

/// Goes on with a request that waited for the directory's answer.
pub fn principal_found(then: Pending, principal: Option<u32>) -> (r: Result<Step, ManageError>)
    ensures
        viewed(r) == spec_principal_found(then@, principal),
{
    match principal {
        None => Err(ManageError::ManageNotFound),
        Some(id) => match then {
            Pending::BayesAccount { store } => {
                let mut key: Vec<u8> = Vec::with_capacity(5);
                key.push(KV_BAYES_MODEL_USER);
                push_be_u32(&mut key, id);
                assert(key@ =~= account_prefix(id));
                Ok(Step::Send(HousekeeperEvent::Purge(PurgeType::Lookup { store, prefix: Some(key) })))
            },
            Pending::PurgeAccount => Ok(
                Step::Send(HousekeeperEvent::Purge(PurgeType::Account(Some(id)))),
            ),
            Pending::Reindex { tenant } => Ok(Step::Reindex { account: Some(id), tenant }),
        },
    }
}

/// The part of a blob that a request with an offset and a limit asks for.
pub open spec fn blob_window(contents: Seq<u8>, offset: nat, limit: nat) -> Seq<u8> {
    if offset <= contents.len() {
        let end = if offset + limit < contents.len() {
            offset + limit
        } else {
            contents.len()
        };
        contents.subrange(offset as int, end as int)
    } else {
        Seq::empty()
    }
}

/// Cuts the requested part out of a blob.
pub fn window(contents: Vec<u8>, offset: usize, limit: usize) -> (r: Vec<u8>)
    ensures
        r@ == blob_window(contents@, offset as nat, limit as nat),
{
    let len: usize = contents.len();
    if offset > len {
        return Vec::new();
    }
    let end: usize = if limit < len - offset {
        offset + limit
    } else {
        len
    };
    if offset == 0 && end == len {
        assert(contents@ =~= contents@.subrange(0, len as int));
        return contents;
    }
    let mut out: Vec<u8> = Vec::new();
    let mut i: usize = offset;
    while i < end
        invariant
            offset <= i <= end <= contents.len(),
            out@ == contents@.subrange(offset as int, i as int),
        decreases end - i,
    {
        out.push(contents[i]);
        assert(out@ =~= contents@.subrange(offset as int, i + 1));
        i += 1;
    }
    out
}

/// The answer to a blob request: the requested part of the blob as an octet
/// stream, or not found where there is no such blob. A request without an
/// offset starts at the first byte; one without a limit runs to the end.
pub open spec fn spec_blob_reply(
    contents: Option<Seq<u8>>,
    offset: Option<usize>,
    limit: Option<usize>,
) -> Result<ReplyView, ManageError> {
    match contents {
        None => Err(ManageError::ManageNotFound),
        Some(bytes) => Ok(
            ReplyView::Resource {
                content_type: "application/octet-stream"@,
                contents: blob_window(
                    bytes,
                    match offset {
                        Some(o) => o as nat,
                        None => 0,
                    },
                    match limit {
                        Some(l) => l as nat,
                        None => usize::MAX as nat,
                    },
                ),
            },
        ),
    }
}

/// Answers a blob request with what the blob store returned.
pub fn blob_reply(contents: Option<Vec<u8>>, offset: Option<usize>, limit: Option<usize>) -> (r:
    Result<Reply, ManageError>)
    ensures
        viewed(r) == spec_blob_reply(
            match contents {
                Some(bytes) => Some(bytes@),
                None => None,
            },
            offset,
            limit,
        ),
{
    match contents {
        None => Err(ManageError::ManageNotFound),
        Some(bytes) => {
            let start: usize = match offset {
                Some(o) => o,
                None => 0,
            };
            let count: usize = match limit {
                Some(l) => l,
                None => usize::MAX,
            };
            Ok(
                Reply::Resource {
                    content_type: "application/octet-stream".to_owned(),
                    contents: window(bytes, start, count),
                },
            )
        },
    }
}

/// The acknowledgement of a request that was accepted.
pub open spec fn spec_acknowledgement() -> ReplyView {
    ReplyView::Json { body: "{\"data\":null}"@ }
}

/// The acknowledgement of a request that was accepted: it says that the
/// request was taken, not that the work is done.
pub fn acknowledgement() -> (r: Reply)
    ensures
        r@ == spec_acknowledgement(),
{
    Reply::Json { body: "{\"data\":null}".to_owned() }
}

/// The answer to a purge request: an acknowledgement once the housekeeper
/// has accepted the event, an error where its mailbox is closed.
pub open spec fn spec_housekeeper_reply(accepted: bool) -> Result<ReplyView, ManageError> {
    if accepted {
        Ok(spec_acknowledgement())
    } else {
        Err(ManageError::ThreadError)
    }
}

/// The server's configured stores, by identifier.
pub struct Server {
    pub data_stores: Vec<String>,
    pub lookup_stores: Vec<String>,
}

/// The administrative requests on stores.
pub trait ManageStore {
    spec fn data_store_names(&self) -> Seq<Seq<char>>;

    spec fn lookup_store_names(&self) -> Seq<Seq<char>>;

    /// Decides what a request asks for.
    fn handle_manage_store(&self, method: Method, path: Vec<&str>, access_token: &AccessToken) -> (r:
        Result<Step, ManageError>)
        ensures
            viewed(r) == spec_handle(
                segments(path@),
                method,
                *access_token,
                self.data_store_names(),
                self.lookup_store_names(),
            ),
    ;

    /// Answers a purge request, given whether the housekeeper accepted the event.
    fn housekeeper_request(&self, accepted: bool) -> (r: Result<Reply, ManageError>)
        ensures
            viewed(r) == spec_housekeeper_reply(accepted),
    ;
}

impl ManageStore for Server {
    open spec fn data_store_names(&self) -> Seq<Seq<char>> {
        names(self.data_stores@)
    }

    open spec fn lookup_store_names(&self) -> Seq<Seq<char>> {
        names(self.lookup_stores@)
    }

    fn handle_manage_store(&self, method: Method, path: Vec<&str>, access_token: &AccessToken) -> (r:
        Result<Step, ManageError>) {
        let found = match route(&path, method) {
            None => {
                return Err(ManageError::ResourceNotFound);
            },
            Some(found) => found,
        };
        if !access_token.has_permission(found.permission()) {
            return Err(ManageError::Unauthorized(found.permission()));
        }
        match found {
            Route::Blob => blob_step(decode_url_safe_no_pad(path[2].as_bytes())),
            Route::PurgeBlob => Ok(Step::Send(HousekeeperEvent::Purge(PurgeType::Blobs))),
            Route::PurgeData => match choose_store(element(&path, 3), &self.data_stores) {
                Ok(store) => Ok(Step::Send(HousekeeperEvent::Purge(PurgeType::Data(store)))),
                Err(e) => Err(e),
            },
            Route::PurgeInMemory => match choose_store(element(&path, 3), &self.lookup_stores) {
                Ok(store) => {
                    let scope = element(&path, 4);
                    let bayes_account = match scope {
                        Some(name) => same_text(name, "bayes-account"),
                        None => false,
                    };
                    if bayes_account && path.len() > 5 {
                        Ok(
                            Step::FindPrincipal {
                                name: path[5].to_owned(),
                                then: Pending::BayesAccount { store },
                            },
                        )
                    } else {
                        let prefix = match scope {
                            None => None,
                            Some(name) => match scope_byte(name) {
                                None => None,
                                Some(byte) => {
                                    let mut key: Vec<u8> = Vec::new();
                                    key.push(byte);
                                    assert(key@ =~= seq![byte]);
                                    Some(key)
                                },
                            },
                        };
                        Ok(Step::Send(HousekeeperEvent::Purge(PurgeType::Lookup { store, prefix })))
                    }
                },
                Err(e) => Err(e),
            },
            Route::PurgeAccount => match element(&path, 3) {
                Some(name) => Ok(
                    Step::FindPrincipal { name: name.to_owned(), then: Pending::PurgeAccount },
                ),
                None => Ok(Step::Send(HousekeeperEvent::Purge(PurgeType::Account(None)))),
            },
            Route::Reindex => match element(&path, 2) {
                Some(name) => Ok(
                    Step::FindPrincipal {
                        name: name.to_owned(),
                        then: Pending::Reindex { tenant: access_token.tenant },
                    },
                ),
                None => Ok(Step::Reindex { account: None, tenant: access_token.tenant }),
            },
        }
    }

    fn housekeeper_request(&self, accepted: bool) -> (r: Result<Reply, ManageError>) {
        if accepted {
            Ok(acknowledgement())
        } else {
            Err(ManageError::ThreadError)
        }
    }
}

} // verus!
