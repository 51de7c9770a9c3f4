use agentero::warm::{
    warm_cwd, WarmEmission, WarmEvent, WarmNotification, WarmPhase, Warmup, WARM_SETTLE_MILLIS,
};

fn settled(supports_delete: bool) -> Warmup<u8> {
    Warmup::new("codex".to_string())
        .after(WarmEvent::Launched)
        .after(WarmEvent::Initialized { supports_delete })
        .after(WarmEvent::SessionCreated { session_id: "s1".to_string() })
        .after(WarmEvent::PreferencesApplied { models: Some(7) })
        .after(WarmEvent::Settled)
}

#[test]
fn warm_session_is_deleted_where_the_agent_can() {
    let warmup = settled(true);
    assert_eq!(warmup.phase, WarmPhase::Delete { session_id: "s1".to_string() });
    let result = warmup.after(WarmEvent::DeleteAnswered).result().unwrap();
    assert!(result.ok);
    assert_eq!(result.models, Some(7));
    assert_eq!(result.error, None);
}

#[test]
fn warm_session_is_left_where_the_agent_cannot_delete() {
    let mut warmup = settled(false);
    assert_eq!(warmup.phase, WarmPhase::Done);
    assert_eq!(
        warmup.notified(WarmNotification::Usage { used: 1, size: 9 }),
        WarmEmission::Usage { used: 1, size: 9 }
    );
    assert_eq!(
        warmup.notified(WarmNotification::Usage { used: 2, size: 8 }),
        WarmEmission::Usage { used: 2, size: 8 }
    );
    let result = warmup.result().unwrap();
    assert_eq!(result.agent_id, "codex");
    assert_eq!(result.usage_used, Some(2));
    assert_eq!(result.usage_size, Some(8));
}

#[test]
fn phases_follow_one_another() {
    let warmup: Warmup<u8> = Warmup::new("a".to_string());
    assert_eq!(warmup.phase, WarmPhase::Launch);
    assert!(warmup.clone().result().is_none());
    let warmup = warmup.after(WarmEvent::Launched);
    assert_eq!(warmup.phase, WarmPhase::Initialize);
    let warmup = warmup.after(WarmEvent::Settled);
    assert_eq!(warmup.phase, WarmPhase::Initialize);
    let warmup = warmup.after(WarmEvent::Initialized { supports_delete: true });
    assert_eq!(warmup.phase, WarmPhase::CreateSession { supports_delete: true });
    let warmup = warmup.after(WarmEvent::SessionCreated { session_id: "s".to_string() });
    assert_eq!(
        warmup.phase,
        WarmPhase::ApplyPreferences { supports_delete: true, session_id: "s".to_string() }
    );
    let warmup = warmup.after(WarmEvent::PreferencesApplied { models: None });
    assert_eq!(
        warmup.phase,
        WarmPhase::Settle { supports_delete: true, session_id: "s".to_string() }
    );
    assert_eq!(warmup.models, None);
    assert_eq!(WARM_SETTLE_MILLIS, 400);
}

#[test]
fn failed_warmup_reports_its_error_alone() {
    let mut warmup = settled(true);
    warmup.notified(WarmNotification::Usage { used: 1, size: 2 });
    let warmup = warmup
        .after(WarmEvent::Failed { error: "gone".to_string() })
        .after(WarmEvent::DeleteAnswered)
        .after(WarmEvent::Failed { error: "again".to_string() });
    let result = warmup.result().unwrap();
    assert!(!result.ok);
    assert_eq!(result.models, None);
    assert_eq!(result.usage_used, None);
    assert_eq!(result.usage_size, None);
    assert_eq!(result.error.as_deref(), Some("gone"));
}

#[test]
fn reports_are_passed_on_by_kind() {
    let mut warmup = settled(false);
    assert_eq!(
        warmup.notified(WarmNotification::AvailableCommands),
        WarmEmission::SessionUpdate
    );
    assert_eq!(warmup.notified(WarmNotification::ConfigOptions), WarmEmission::ConfigOptions);
    assert_eq!(warmup.notified(WarmNotification::Other), WarmEmission::Nothing);
    assert_eq!(warmup.usage, None);
}

#[test]
fn agents_start_in_the_vault_or_the_scratch_directory() {
    let some = |s: &str| Some(s.to_string());
    let scratch = || "/data/agentero/agent-cwd".to_string();
    assert_eq!(warm_cwd(some("/remote"), some("/vault"), true, scratch()), "/remote");
    assert_eq!(warm_cwd(None, some("/vault"), true, scratch()), "/vault");
    assert_eq!(warm_cwd(None, some("/vault"), false, scratch()), scratch());
    assert_eq!(warm_cwd(None, None, false, scratch()), scratch());
}

#[test]
fn warmups_have_ids_of_their_own() {
    let first: Warmup<u8> = Warmup::new("a".to_string());
    let id = first.session_id.clone();
    assert_eq!(id.len(), 36);
    assert_eq!(id.as_bytes()[14], b'4');
    assert_eq!(first.after(WarmEvent::Launched).session_id, id);
    let second: Warmup<u8> = Warmup::new("a".to_string());
    assert_ne!(second.session_id, id);
}
