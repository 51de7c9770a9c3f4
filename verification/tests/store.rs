use agentero::error::{answer, ApiResult, AppError};
use agentero::store::{
    root_outcome, GetRequest, ProbeRequest, PutCondition, PutRequest, RootRequest,
    SyncBackendConfig, SyncBackendKind, SyncStore,
};

type Store = SyncStore<String, u8>;

fn store(backend: SyncBackendKind) -> Result<Store, AppError> {
    SyncStore::new(
        &SyncBackendConfig { backend, settings: "bucket".to_string() },
        |settings: &String| Ok(settings.clone()),
        |_: &String| Err(AppError::message("no url")),
    )
}

#[test]
fn only_the_configured_client_is_made() {
    assert!(matches!(store(SyncBackendKind::S3), Ok(SyncStore::S3(bucket)) if bucket == "bucket"));
    assert_eq!(store(SyncBackendKind::Webdav).err().unwrap().message, "no url");
}

#[test]
fn requests_name_what_is_asked_for() {
    let s3 = store(SyncBackendKind::S3).ok().unwrap();
    let webdav: Store = SyncStore::Webdav(1);
    assert_eq!(s3.ensure_root(), RootRequest::List { prefix: String::new(), limit: 1 });
    assert_eq!(webdav.ensure_root(), RootRequest::EnsureRoot);
    assert_eq!(s3.get("k"), GetRequest { key: "k".to_string() });
    assert_eq!(
        webdav.put("k", vec![1, 2], PutCondition::IfMatch("e".to_string())),
        PutRequest {
            key: "k".to_string(),
            body: vec![1, 2],
            condition: PutCondition::IfMatch("e".to_string()),
        }
    );
    assert_eq!(s3.probe_conditional_writes(), ProbeRequest);
    assert_eq!(root_outcome(Ok(vec!["x"])), Ok(()));
    assert_eq!(root_outcome::<u8>(Err(AppError::message("e"))), Err(AppError::message("e")));
}

#[test]
fn commands_answer_with_their_outcome() {
    assert_eq!(answer(Ok(3)), ApiResult::Success(3));
    assert_eq!(
        answer::<u8>(Err(AppError::message("no host"))),
        ApiResult::Failure(AppError::message("no host"))
    );
}
