//! What a warm-up, a store and a command do, said of what they are given.
use crate::error::{answer, ApiResult, AppError};
use crate::store::{
    root_outcome, GetRequest, PutCondition, PutRequest, RootRequest, SyncBackendConfig, SyncStore,
};
use crate::warm::{
    warm_cwd, WarmEmission, WarmEvent, WarmNotification, WarmPhase, WarmResult, Warmup,
    WARM_SETTLE_MILLIS,
};
use vstd::prelude::*;

verus! {

/// A warm-up that nothing keeps from it starts, initializes its agent, creates a session, applies the
/// preferences to it, and settles. Then it deletes that session, and no other, where the agent can
/// delete sessions, and is done.
pub proof fn law_warmup_runs<M>(
    agent_id: String,
    supports_delete: bool,
    session_id: String,
    reported: Option<M>,
    start: Warmup<M>,
    launched: Warmup<M>,
    initialized: Warmup<M>,
    created: Warmup<M>,
    applied: Warmup<M>,
    settled: Warmup<M>,
    answered: Warmup<M>,
)
    requires
        call_ensures(Warmup::<M>::new, (agent_id,), start),
        call_ensures(Warmup::<M>::after, (start, WarmEvent::Launched), launched),
        call_ensures(
            Warmup::<M>::after,
            (launched, WarmEvent::Initialized { supports_delete }),
            initialized,
        ),
        call_ensures(
            Warmup::<M>::after,
            (initialized, WarmEvent::SessionCreated { session_id }),
            created,
        ),
        call_ensures(
            Warmup::<M>::after,
            (created, WarmEvent::PreferencesApplied { models: reported }),
            applied,
        ),
        call_ensures(Warmup::<M>::after, (applied, WarmEvent::Settled), settled),
        call_ensures(Warmup::<M>::after, (settled, WarmEvent::DeleteAnswered), answered),
    ensures
        start.phase is Launch,
        launched.phase is Initialize,
        initialized.phase matches WarmPhase::CreateSession { supports_delete: can }
            && can == supports_delete,
        created.phase matches WarmPhase::ApplyPreferences { supports_delete: can, session_id: id }
            && can == supports_delete && id@ == session_id@,
        applied.phase matches WarmPhase::Settle { supports_delete: can, session_id: id }
            && can == supports_delete && id@ == session_id@,
        supports_delete ==> (settled.phase matches WarmPhase::Delete { session_id: id } && id@
            == session_id@),
        !supports_delete ==> settled.phase is Done,
        answered.phase is Done,
        answered.models == reported,
        answered.agent_id == agent_id,
        answered.session_id == start.session_id,
        answered.usage is None,
{
    assert(start.phase@ is Launch);
    assert(launched.phase@ is Initialize);
    assert(initialized.phase@ is CreateSession);
    assert(created.phase@ is ApplyPreferences);
    assert(applied.phase@ is Settle);
    assert(supports_delete ==> settled.phase@ is Delete);
    assert(!supports_delete ==> settled.phase@ is Done);
    assert(answered.phase@ is Done);
}

/// A failure ends a warm-up in whatever phase it is, with the text of the failure, and the first one
/// stays. Nothing else that is known of the warm-up changes.
pub proof fn law_first_failure_stays<M>(w: Warmup<M>, event: WarmEvent<M>, r: Warmup<M>)
    requires
        call_ensures(Warmup::<M>::after, (w, event), r),
    ensures
        w.phase matches WarmPhase::Failed { error } ==> (r.phase matches WarmPhase::Failed {
            error: kept,
        } && kept@ == error@),
        !(w.phase is Failed) && event is Failed ==> (r.phase matches WarmPhase::Failed {
            error: kept,
        } && kept@ == event->Failed_error@),
        r.phase is Failed ==> w.phase is Failed || event is Failed,
        r.agent_id == w.agent_id,
        r.session_id == w.session_id,
        r.usage == w.usage,
{
    assert(r.phase is Failed == r.phase@ is Failed);
    assert(w.phase is Failed == w.phase@ is Failed);
}

/// Models that are reported with the preferences take the place of those that were known. Without
/// such a report, and in any other phase, the models stay.
pub proof fn law_models_are_the_last_reported<M>(w: Warmup<M>, event: WarmEvent<M>, r: Warmup<M>)
    requires
        call_ensures(Warmup::<M>::after, (w, event), r),
    ensures
        w.phase is ApplyPreferences && event is PreferencesApplied
            && event->PreferencesApplied_models is Some ==> r.models
            == event->PreferencesApplied_models,
        !(w.phase is ApplyPreferences) || !(event is PreferencesApplied)
            || event->PreferencesApplied_models is None ==> r.models == w.models,
{
}

/// An event that a phase does not wait for changes nothing.
pub proof fn law_other_events_change_nothing<M>(w: Warmup<M>, event: WarmEvent<M>, r: Warmup<M>)
    requires
        call_ensures(Warmup::<M>::after, (w, event), r),
        !(event is Failed),
        !(w.phase is Launch && event is Launched),
        !(w.phase is Initialize && event is Initialized),
        !(w.phase is CreateSession && event is SessionCreated),
        !(w.phase is ApplyPreferences && event is PreferencesApplied),
        !(w.phase is Settle && event is Settled),
        !(w.phase is Delete && event is DeleteAnswered),
    ensures
        r.phase@ == w.phase@,
        r.models == w.models,
{
}

/// An event that a phase waits for takes a warm-up one phase on, with what the phase knew.
pub proof fn law_phases_follow_each_other<M>(w: Warmup<M>, event: WarmEvent<M>, r: Warmup<M>)
    requires
        call_ensures(Warmup::<M>::after, (w, event), r),
    ensures
        w.phase is Launch && event is Launched ==> r.phase is Initialize,
        w.phase is Initialize && event is Initialized ==> (r.phase matches WarmPhase::CreateSession {
            supports_delete,
        } && supports_delete == event->supports_delete),
        w.phase matches WarmPhase::CreateSession { supports_delete } ==> event is SessionCreated ==> (
        r.phase matches WarmPhase::ApplyPreferences { supports_delete: can, session_id }
            && can == supports_delete && session_id@ == event->session_id@),
        w.phase matches WarmPhase::ApplyPreferences { supports_delete, session_id } ==> event is
            PreferencesApplied ==> (r.phase matches WarmPhase::Settle {
            supports_delete: can,
            session_id: id,
        } && can == supports_delete && id@ == session_id@),
        w.phase matches WarmPhase::Settle { supports_delete, session_id } ==> event is Settled ==> {
            &&& supports_delete ==> (r.phase matches WarmPhase::Delete { session_id: id } && id@
                == session_id@)
            &&& !supports_delete ==> r.phase is Done
        },
        w.phase is Delete && event is DeleteAnswered ==> r.phase is Done,
{
    assert(w.phase is Launch && event is Launched ==> r.phase@ is Initialize);
    assert(w.phase is Initialize && event is Initialized ==> r.phase@ is CreateSession);
    assert(w.phase is CreateSession && event is SessionCreated ==> r.phase@ is ApplyPreferences);
    assert(w.phase is ApplyPreferences && event is PreferencesApplied ==> r.phase@ is Settle);
    if w.phase is Settle && event is Settled {
        assert(r.phase@ is Delete || r.phase@ is Done);
    }
    assert(w.phase is Delete && event is DeleteAnswered ==> r.phase@ is Done);
}

/// The usage that an agent reports is passed on, and the last one is kept. New commands and new
/// options are passed on, and nothing else is.
pub proof fn law_reports_are_passed_on<M>(notification: WarmNotification)
    ensures
        forall|w: &mut Warmup<M>, r: WarmEmission| #[trigger]
            call_ensures(Warmup::<M>::notified, (w, notification), r) ==> {
                &&& final(w).phase == w.phase
                &&& final(w).models == w.models
                &&& final(w).agent_id == w.agent_id
                &&& final(w).session_id == w.session_id
                &&& match notification {
                    WarmNotification::Usage { used, size } => r == (WarmEmission::Usage {
                        used,
                        size,
                    }) && final(w).usage == Some((used, size)),
                    WarmNotification::AvailableCommands => r is SessionUpdate && final(w).usage
                        == w.usage,
                    WarmNotification::ConfigOptions => r is ConfigOptions && final(w).usage
                        == w.usage,
                    WarmNotification::Other => r is Nothing && final(w).usage == w.usage,
                }
            },
{
}

/// A warm-up has a result exactly once it is done or has failed. One that is done tells what is known
/// of the models and of the usage. One that failed tells the failure alone.
pub proof fn law_warmup_result<M>(w: Warmup<M>, r: Option<WarmResult<M>>)
    requires
        call_ensures(Warmup::<M>::result, (w,), r),
    ensures
        r is Some <==> w.phase is Done || w.phase is Failed,
        r matches Some(result) ==> {
            &&& result.agent_id == w.agent_id
            &&& result.ok <==> w.phase is Done
            &&& result.ok ==> result.models == w.models && result.error is None
            &&& result.ok && w.usage is Some ==> result.usage_used == Some(w.usage->Some_0.0)
                && result.usage_size == Some(w.usage->Some_0.1)
            &&& !result.ok || w.usage is None ==> result.usage_used is None && result.usage_size
                is None
            &&& !result.ok ==> result.models is None && result.error is Some
                && result.error->Some_0@ == w.phase->Failed_error@
        },
{
    assert(w.phase is Done == w.phase@ is Done);
    assert(w.phase is Failed == w.phase@ is Failed);
}

/// An agent settles for four tenths of a second.
pub proof fn law_settling_time()
    ensures
        WARM_SETTLE_MILLIS == 400,
{
}

/// An agent starts in the directory of the remote host if there is one, else in the vault if that is
/// a directory, else in the scratch directory.
pub proof fn law_working_directory(
    remote: Option<String>,
    vault: Option<String>,
    vault_is_dir: bool,
    scratch: String,
    r: String,
)
    requires
        call_ensures(warm_cwd, (remote, vault, vault_is_dir, scratch), r),
    ensures
        remote is Some ==> r == remote->Some_0,
        remote is None && vault is Some && vault_is_dir ==> r == vault->Some_0,
        remote is None && (vault is None || !vault_is_dir) ==> r == scratch,
{
}

/// The store is of the kind that is configured, with the client that was made for it, or fails with
/// the error of making it.
pub proof fn law_store_kind<S, W, C, F, G>(
    cfg: SyncBackendConfig<C>,
    s3: F,
    webdav: G,
    r: Result<SyncStore<S, W>, AppError>,
) where F: FnOnce(&C) -> Result<S, AppError>, G: FnOnce(&C) -> Result<W, AppError>
    requires
        call_ensures(SyncStore::<S, W>::new::<C, F, G>, (&cfg, s3, webdav), r),
    ensures
        cfg.backend is S3 ==> match r {
            Ok(store) => store is S3 && s3.ensures((&cfg.settings,), Ok(store->S3_0)),
            Err(e) => s3.ensures((&cfg.settings,), Err(e)),
        },
        cfg.backend is Webdav ==> match r {
            Ok(store) => store is Webdav && webdav.ensures((&cfg.settings,), Ok(store->Webdav_0)),
            Err(e) => webdav.ensures((&cfg.settings,), Err(e)),
        },
{
}

/// A request carries the key, the body and the condition that it was made of, as they stand. The root
/// of one kind of storage is found by listing one key at most, that of the other is made sure of.
pub proof fn law_store_requests<S, W>(
    store: SyncStore<S, W>,
    key: &str,
    body: Vec<u8>,
    condition: PutCondition,
    got: GetRequest,
    put: PutRequest,
    root: RootRequest,
)
    requires
        call_ensures(SyncStore::<S, W>::get, (&store, key), got),
        call_ensures(SyncStore::<S, W>::put, (&store, key, body, condition), put),
        call_ensures(SyncStore::<S, W>::ensure_root, (&store,), root),
    ensures
        got.key@ == key@,
        put.key@ == key@,
        put.body == body,
        put.condition == condition,
        store is S3 ==> (root matches RootRequest::List { prefix, limit } && prefix@.len() == 0
            && limit == 1),
        store is Webdav ==> root is EnsureRoot,
{
}

/// A root is usable exactly if it could be listed, and otherwise the error is that of the listing.
pub proof fn law_root<T>(listing: Result<T, AppError>, r: Result<(), AppError>)
    requires
        call_ensures(root_outcome::<T>, (listing,), r),
    ensures
        r is Ok <==> listing is Ok,
        r is Err ==> r->Err_0 == listing->Err_0,
{
}

/// An error says the text that it was made of.
pub proof fn law_error_text(text: &str, r: AppError)
    requires
        call_ensures(AppError::message, (text,), r),
    ensures
        r@ == text@,
        r.message@ == text@,
{
}

/// A command answers with its value where it succeeded, and with its error where it failed.
pub proof fn law_answers<T>(
    value: T,
    error: AppError,
    outcome: Result<T, AppError>,
    success: ApiResult<T>,
    failure: ApiResult<T>,
    r: ApiResult<T>,
)
    requires
        call_ensures(ApiResult::<T>::ok, (value,), success),
        call_ensures(ApiResult::<T>::err, (error,), failure),
        call_ensures(answer::<T>, (outcome,), r),
    ensures
        success matches ApiResult::Success(v) && v == value,
        failure matches ApiResult::Failure(e) && e == error,
        outcome is Ok ==> (r matches ApiResult::Success(v) && v == outcome->Ok_0),
        outcome is Err ==> (r matches ApiResult::Failure(e) && e == outcome->Err_0),
{
}

} // verus!
