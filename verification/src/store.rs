//! Backend-agnostic storage façade. The engine talks to this enum, not to
//! any concrete client: the surface it needs is exactly `get` (with etag)
//! and conditional `put`, both provided by S3 and WebDAV alike.
use crate::error::AppError;
use vstd::prelude::*;

verus! {

/// When a write may happen.
#[derive(Debug, Clone, PartialEq, Eq)]
pub enum PutCondition {
    /// Create-only (`If-None-Match: *`).
    IfNoneMatch,
    /// Replace-only when unchanged (`If-Match: <etag>`).
    IfMatch(String),
}

/// What became of a conditional write.
#[derive(Debug, Clone, Copy, PartialEq, Eq, Structural)]
pub enum PutOutcome {
    Written,
    /// The conditional write lost a race (412): the caller decides how to retry.
    PreconditionFailed,
}

/// The kinds of storage.
#[derive(Debug, Clone, Copy, PartialEq, Eq, Structural)]
pub enum SyncBackendKind {
    S3,
    Webdav,
}

/// The kind of storage, and the settings of its client.
#[derive(Debug, Clone)]
pub struct SyncBackendConfig<C> {
    pub backend: SyncBackendKind,
    pub settings: C,
}

/// A client of one of the kinds of storage.
#[derive(Debug, Clone)]
pub enum SyncStore<S, W> {
    S3(S),
    Webdav(W),
}

/// How a client finds out that the root of a store is usable.
#[derive(Debug, Clone, PartialEq, Eq)]
pub enum RootRequest {
    /// List at most `limit` keys under `prefix`.
    List { prefix: String, limit: u32 },
    /// Make sure that the configured directory exists.
    EnsureRoot,
}

/// Fetch an object: `None` on 404, otherwise its body and etag.
#[derive(Debug, Clone, PartialEq, Eq)]
pub struct GetRequest {
    pub key: String,
}

/// Write an object under a condition.
#[derive(Debug, Clone, PartialEq, Eq)]
pub struct PutRequest {
    pub key: String,
    pub body: Vec<u8>,
    pub condition: PutCondition,
}

/// Find out whether conditional writes are enforced.
#[derive(Debug, Clone, Copy, PartialEq, Eq)]
pub struct ProbeRequest;

impl<S, W> SyncStore<S, W> {
    /// The store of the configured kind. Only the client of that kind is made; where it cannot
    /// be made, its error is the store's.
    pub fn new<C, F, G>(cfg: &SyncBackendConfig<C>, s3: F, webdav: G) -> (r: Result<
        SyncStore<S, W>,
        AppError,
    >) where
        F: FnOnce(&C) -> Result<S, AppError>,
        G: FnOnce(&C) -> Result<W, AppError>,

        requires
            cfg.backend is S3 ==> s3.requires((&cfg.settings,)),
            cfg.backend is Webdav ==> webdav.requires((&cfg.settings,)),
        ensures
            match (cfg.backend, r) {
                (SyncBackendKind::S3, Ok(store)) => store matches SyncStore::S3(client)
                    && s3.ensures((&cfg.settings,), Ok(client)),
                (SyncBackendKind::S3, Err(e)) => s3.ensures((&cfg.settings,), Err(e)),
                (SyncBackendKind::Webdav, Ok(store)) => store matches SyncStore::Webdav(client)
                    && webdav.ensures((&cfg.settings,), Ok(client)),
                (SyncBackendKind::Webdav, Err(e)) => webdav.ensures((&cfg.settings,), Err(e)),
            },
    {
        match cfg.backend {
            SyncBackendKind::S3 => match s3(&cfg.settings) {
                Ok(client) => Ok(SyncStore::S3(client)),
                Err(e) => Err(e),
            },
            SyncBackendKind::Webdav => match webdav(&cfg.settings) {
                Ok(client) => Ok(SyncStore::Webdav(client)),
                Err(e) => Err(e),
            },
        }
    }

    /// Verify credentials and that the store root is usable; WebDAV creates
    /// the configured directory when missing, S3 checks bucket listing.
    pub fn ensure_root(&self) -> (r: RootRequest)
        ensures
            match self {
                SyncStore::S3(_) => r matches RootRequest::List { prefix, limit } && prefix@.len()
                    == 0 && limit == 1,
                SyncStore::Webdav(_) => r is EnsureRoot,
            },
    {
        match self {
            SyncStore::S3(_) => RootRequest::List { prefix: String::new(), limit: 1 },
            SyncStore::Webdav(_) => RootRequest::EnsureRoot,
        }
    }

    /// GET an object.
    pub fn get(&self, key: &str) -> (r: GetRequest)
        ensures
            r.key@ == key@,
    {
        GetRequest { key: key.to_owned() }
    }

    /// PUT an object under a condition.
    pub fn put(&self, key: &str, body: Vec<u8>, condition: PutCondition) -> (r: PutRequest)
        ensures
            r.key@ == key@,
            r.body == body,
            r.condition == condition,
    {
        PutRequest { key: key.to_owned(), body, condition }
    }

    /// Connection-test probe: whether conditional PUTs actually enforce.
    pub fn probe_conditional_writes(&self) -> (r: ProbeRequest)
        ensures
            r == ProbeRequest,
    {
        ProbeRequest
    }
}

/// A root that could be listed is usable, whatever is in it.
pub fn root_outcome<T>(listing: Result<T, AppError>) -> (r: Result<(), AppError>)
    ensures
        match listing {
            Ok(_) => r is Ok,
            Err(e) => r == Err::<(), AppError>(e),
        },
{
    match listing {
        Ok(_) => Ok(()),
        Err(e) => Err(e),
    }
}

} // verus!
