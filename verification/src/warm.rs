//! Agent warm-up: start the agent, initialize it and create a session, without a prompt, so that
//! the model selector and the context meter are ready before the first message.
//!
//! When the agent can delete sessions, the warm session is deleted before the connection ends,
//! so that empty sessions do not pile up in the agent's history.
use crate::outside::{draw_uuid, random_uuid};
use crate::text::content;
use vstd::prelude::*;

verus! {

/// How long an agent may push usage and configuration after its session was created.
pub const WARM_SETTLE_MILLIS: u64 = 400;

/// What is done next in a warm-up.
#[derive(Debug, Clone, PartialEq, Eq)]
pub enum WarmPhase {
    /// Start the agent.
    Launch,
    /// Initialize the connection.
    Initialize,
    /// Create a session.
    CreateSession { supports_delete: bool },
    /// Apply the preferred model and collaboration mode to the session.
    ApplyPreferences { supports_delete: bool, session_id: String },
    /// Wait for `WARM_SETTLE_MILLIS`.
    Settle { supports_delete: bool, session_id: String },
    /// Delete the session.
    Delete { session_id: String },
    /// Nothing is left to do.
    Done,
    /// The warm-up failed.
    Failed { error: String },
}

/// `WarmPhase` over sequences of characters.
pub enum WarmStage {
    Launch,
    Initialize,
    CreateSession { supports_delete: bool },
    ApplyPreferences { supports_delete: bool, session_id: Seq<char> },
    Settle { supports_delete: bool, session_id: Seq<char> },
    Delete { session_id: Seq<char> },
    Done,
    Failed { error: Seq<char> },
}

impl View for WarmPhase {
    type V = WarmStage;

    open spec fn view(&self) -> WarmStage {
        match self {
            WarmPhase::Launch => WarmStage::Launch,
            WarmPhase::Initialize => WarmStage::Initialize,
            WarmPhase::CreateSession { supports_delete } => WarmStage::CreateSession {
                supports_delete: *supports_delete,
            },
            WarmPhase::ApplyPreferences {
                supports_delete,
                session_id,
            } => WarmStage::ApplyPreferences {
                supports_delete: *supports_delete,
                session_id: session_id@,
            },
            WarmPhase::Settle { supports_delete, session_id } => WarmStage::Settle {
                supports_delete: *supports_delete,
                session_id: session_id@,
            },
            WarmPhase::Delete { session_id } => WarmStage::Delete { session_id: session_id@ },
            WarmPhase::Done => WarmStage::Done,
            WarmPhase::Failed { error } => WarmStage::Failed { error: error@ },
        }
    }
}

/// What happened in a warm-up. `M` is what is known of the agent's models.
#[derive(Debug, Clone, PartialEq, Eq)]
pub enum WarmEvent<M> {
    Launched,
    Initialized { supports_delete: bool },
    SessionCreated { session_id: String },
    PreferencesApplied { models: Option<M> },
    Settled,
    /// The session was deleted, or the agent failed to delete it.
    DeleteAnswered,
    /// The agent could not be started, or the connection failed.
    Failed { error: String },
}

/// `WarmEvent` over sequences of characters.
pub enum WarmInput<M> {
    Launched,
    Initialized { supports_delete: bool },
    SessionCreated { session_id: Seq<char> },
    PreferencesApplied { models: Option<M> },
    Settled,
    DeleteAnswered,
    Failed { error: Seq<char> },
}

impl<M> View for WarmEvent<M> {
    type V = WarmInput<M>;

    open spec fn view(&self) -> WarmInput<M> {
        match self {
            WarmEvent::Launched => WarmInput::Launched,
            WarmEvent::Initialized { supports_delete } => WarmInput::Initialized {
                supports_delete: *supports_delete,
            },
            WarmEvent::SessionCreated { session_id } => WarmInput::SessionCreated {
                session_id: session_id@,
            },
            WarmEvent::PreferencesApplied { models } => WarmInput::PreferencesApplied {
                models: *models,
            },
            WarmEvent::Settled => WarmInput::Settled,
            WarmEvent::DeleteAnswered => WarmInput::DeleteAnswered,
            WarmEvent::Failed { error } => WarmInput::Failed { error: error@ },
        }
    }
}

/// The stage that an event leads to; none where the event cannot happen in that stage. A failure
/// can happen at any time, and the first one stays.
pub open spec fn next_stage<M>(stage: WarmStage, event: WarmInput<M>) -> Option<WarmStage> {
    match (stage, event) {
        (WarmStage::Failed { .. }, _) => None,
        (_, WarmInput::Failed { error }) => Some(WarmStage::Failed { error }),
        (WarmStage::Launch, WarmInput::Launched) => Some(WarmStage::Initialize),
        (WarmStage::Initialize, WarmInput::Initialized { supports_delete }) => Some(
            WarmStage::CreateSession { supports_delete },
        ),
        (
            WarmStage::CreateSession { supports_delete },
            WarmInput::SessionCreated { session_id },
        ) => Some(WarmStage::ApplyPreferences { supports_delete, session_id }),
        (
            WarmStage::ApplyPreferences { supports_delete, session_id },
            WarmInput::PreferencesApplied { .. },
        ) => Some(WarmStage::Settle { supports_delete, session_id }),
        (WarmStage::Settle { supports_delete, session_id }, WarmInput::Settled) => Some(
            if supports_delete {
                WarmStage::Delete { session_id }
            } else {
                WarmStage::Done
            },
        ),
        (WarmStage::Delete { .. }, WarmInput::DeleteAnswered) => Some(WarmStage::Done),
        _ => None,
    }
}

/// The models that are known after an event.
pub open spec fn next_models<M>(
    stage: WarmStage,
    models: Option<M>,
    event: WarmInput<M>,
) -> Option<M> {
    match (stage, event) {
        (WarmStage::ApplyPreferences { .. }, WarmInput::PreferencesApplied { models: Some(m) }) => Some(
            m,
        ),
        _ => models,
    }
}

/// What an agent reports in a warm-up.
#[derive(Debug, Clone, Copy, PartialEq, Eq)]
pub enum WarmNotification {
    /// How much of the context is used, and how large it is.
    Usage { used: u64, size: u64 },
    AvailableCommands,
    ConfigOptions,
    Other,
}

/// What is passed on of a report.
#[derive(Debug, Clone, Copy, PartialEq, Eq)]
pub enum WarmEmission {
    Usage { used: u64, size: u64 },
    SessionUpdate,
    ConfigOptions,
    Nothing,
}

/// What a warm-up came to.
#[derive(Debug, Clone, PartialEq, Eq)]
pub struct WarmResult<M> {
    pub agent_id: String,
    pub ok: bool,
    pub models: Option<M>,
    pub usage_used: Option<u64>,
    pub usage_size: Option<u64>,
    pub error: Option<String>,
}

/// A warm-up. `session_id` is the id under which the application is told of it, whatever the
/// agent calls its own session.
#[derive(Debug, Clone, PartialEq, Eq)]
pub struct Warmup<M> {
    pub agent_id: String,
    pub session_id: String,
    pub phase: WarmPhase,
    pub models: Option<M>,
    pub usage: Option<(u64, u64)>,
}

impl<M> Warmup<M> {
    /// A warm-up of an agent, before anything was done. Its id is drawn at random.
    pub fn new(agent_id: String) -> (r: Warmup<M>)
        ensures
            r.agent_id == agent_id,
            random_uuid(r.session_id@),
            r.phase@ == WarmStage::Launch,
            r.models is None,
            r.usage is None,
    {
        Warmup {
            agent_id,
            session_id: draw_uuid(),
            phase: WarmPhase::Launch,
            models: None,
            usage: None,
        }
    }

    /// The warm-up after an event. An event that cannot happen in its phase changes nothing.
    pub fn after(self, event: WarmEvent<M>) -> (r: Warmup<M>)
        ensures
            r.agent_id == self.agent_id,
            r.session_id == self.session_id,
            r.usage == self.usage,
            r.models == next_models(self.phase@, self.models, event@),
            r.phase@ == match next_stage(self.phase@, event@) {
                Some(stage) => stage,
                None => self.phase@,
            },
    {
        let Warmup { agent_id, session_id: own_id, phase, models, usage } = self;
        let mut models = models;
        let phase = match (phase, event) {
            (WarmPhase::Failed { error }, _) => WarmPhase::Failed { error },
            (_, WarmEvent::Failed { error }) => WarmPhase::Failed { error },
            (WarmPhase::Launch, WarmEvent::Launched) => WarmPhase::Initialize,
            (WarmPhase::Initialize, WarmEvent::Initialized { supports_delete }) => {
                WarmPhase::CreateSession { supports_delete }
            },
            (
                WarmPhase::CreateSession { supports_delete },
                WarmEvent::SessionCreated { session_id },
            ) => WarmPhase::ApplyPreferences { supports_delete, session_id },
            (
                WarmPhase::ApplyPreferences { supports_delete, session_id },
                WarmEvent::PreferencesApplied { models: reported },
            ) => {
                if reported.is_some() {
                    models = reported;
                }
                WarmPhase::Settle { supports_delete, session_id }
            },
            (WarmPhase::Settle { supports_delete, session_id }, WarmEvent::Settled) => {
                if supports_delete {
                    WarmPhase::Delete { session_id }
                } else {
                    WarmPhase::Done
                }
            },
            (WarmPhase::Delete { .. }, WarmEvent::DeleteAnswered) => WarmPhase::Done,
            (phase, _) => phase,
        };
        Warmup { agent_id, session_id: own_id, phase, models, usage }
    }

    /// Takes a report of the agent, and says what is passed on of it. The last usage stays.
    pub fn notified(&mut self, notification: WarmNotification) -> (r: WarmEmission)
        ensures
            final(self).agent_id == old(self).agent_id,
            final(self).session_id == old(self).session_id,
            final(self).phase == old(self).phase,
            final(self).models == old(self).models,
            match notification {
                WarmNotification::Usage { used, size } => {
                    &&& r == (WarmEmission::Usage { used, size })
                    &&& final(self).usage == Some((used, size))
                },
                WarmNotification::AvailableCommands => r == WarmEmission::SessionUpdate
                    && final(self).usage == old(self).usage,
                WarmNotification::ConfigOptions => r == WarmEmission::ConfigOptions
                    && final(self).usage == old(self).usage,
                WarmNotification::Other => r == WarmEmission::Nothing && final(self).usage == old(
                    self,
                ).usage,
            },
    {
        match notification {
            WarmNotification::Usage { used, size } => {
                self.usage = Some((used, size));
                WarmEmission::Usage { used, size }
            },
            WarmNotification::AvailableCommands => WarmEmission::SessionUpdate,
            WarmNotification::ConfigOptions => WarmEmission::ConfigOptions,
            WarmNotification::Other => WarmEmission::Nothing,
        }
    }

    /// What the warm-up came to, once it is done or has failed. A warm-up that failed reports
    /// nothing but its error.
    pub fn result(self) -> (r: Option<WarmResult<M>>)
        ensures
            match self.phase@ {
                WarmStage::Done => {
                    &&& r matches Some(result)
                    &&& result.ok
                    &&& result.agent_id == self.agent_id
                    &&& result.models == self.models
                    &&& result.usage_used == match self.usage {
                        Some((used, _)) => Some(used),
                        None => None,
                    }
                    &&& result.usage_size == match self.usage {
                        Some((_, size)) => Some(size),
                        None => None,
                    }
                    &&& result.error is None
                },
                WarmStage::Failed { error } => {
                    &&& r matches Some(result)
                    &&& !result.ok
                    &&& result.agent_id == self.agent_id
                    &&& result.models is None
                    &&& result.usage_used is None
                    &&& result.usage_size is None
                    &&& content(result.error) == Some(error)
                },
                _ => r is None,
            },
    {
        match self.phase {
            WarmPhase::Done => {
                let (usage_used, usage_size) = match self.usage {
                    Some((used, size)) => (Some(used), Some(size)),
                    None => (None, None),
                };
                Some(
                    WarmResult {
                        agent_id: self.agent_id,
                        ok: true,
                        models: self.models,
                        usage_used,
                        usage_size,
                        error: None,
                    },
                )
            },
            WarmPhase::Failed { error } => Some(
                WarmResult {
                    agent_id: self.agent_id,
                    ok: false,
                    models: None,
                    usage_used: None,
                    usage_size: None,
                    error: Some(error),
                },
            ),
            _ => None,
        }
    }
}

/// The directory that an agent is started in: that of the remote host, or the vault where it is
/// a directory, or else the scratch directory. It is never the directory of this process, which
/// an agent might scan from the root of the file system.
pub fn warm_cwd(
    remote_cwd: Option<String>,
    vault_path: Option<String>,
    vault_is_dir: bool,
    scratch_dir: String,
) -> (r: String)
    ensures
        r == match (remote_cwd, vault_path) {
            (Some(cwd), _) => cwd,
            (None, Some(vault)) if vault_is_dir => vault,
            _ => scratch_dir,
        },
{
    if let Some(cwd) = remote_cwd {
        return cwd;
    }
    match vault_path {
        Some(vault) if vault_is_dir => vault,
        _ => scratch_dir,
    }
}

/// The stage of a warm-up after `events`; none where one of them cannot happen.
pub open spec fn stage_after<M>(events: Seq<WarmInput<M>>) -> Option<WarmStage>
    decreases events.len(),
{
    if events.len() == 0 {
        Some(WarmStage::Launch)
    } else {
        match stage_after(events.drop_last()) {
            Some(stage) => next_stage(stage, events.last()),
            None => None,
        }
    }
}

/// The events are the first `count` of a warm-up whose agent reports `supports_delete`.
pub open spec fn in_order<M>(
    events: Seq<WarmInput<M>>,
    count: nat,
    supports_delete: bool,
) -> bool {
    &&& events.len() == count
    &&& count > 0 ==> events[0] is Launched
    &&& count > 1 ==> events[1] == (WarmInput::<M>::Initialized { supports_delete })
    &&& count > 2 ==> events[2] is SessionCreated
    &&& count > 3 ==> events[3] is PreferencesApplied
    &&& count > 4 ==> events[4] is Settled
    &&& count > 5 ==> events[5] is DeleteAnswered
}

/// The session that was created in a warm-up.
pub open spec fn created<M>(events: Seq<WarmInput<M>>, session_id: Seq<char>) -> bool {
    events[2] == (WarmInput::<M>::SessionCreated { session_id })
}

proof fn lemma_in_order<M>(events: Seq<WarmInput<M>>)
    ensures
        match stage_after(events) {
            None | Some(WarmStage::Failed { .. }) => true,
            Some(WarmStage::Launch) => events.len() == 0,
            Some(WarmStage::Initialize) => in_order(events, 1, true),
            Some(WarmStage::CreateSession { supports_delete }) => in_order(
                events,
                2,
                supports_delete,
            ),
            Some(WarmStage::ApplyPreferences { supports_delete, session_id }) => in_order(
                events,
                3,
                supports_delete,
            ) && created(events, session_id),
            Some(WarmStage::Settle { supports_delete, session_id }) => in_order(
                events,
                4,
                supports_delete,
            ) && created(events, session_id),
            Some(WarmStage::Delete { session_id }) => in_order(events, 5, true) && created(
                events,
                session_id,
            ),
            Some(WarmStage::Done) => in_order(events, 5, false) || in_order(events, 6, true),
        },
    decreases events.len(),
{
    if events.len() > 0 {
        lemma_in_order(events.drop_last());
        assert(events =~= events.drop_last().push(events.last()));
    }
}

/// A warm-up deletes a session only where its agent can delete sessions, after the settling
/// time, and the session is the one that it created.
pub proof fn law_only_the_warm_session_is_deleted<M>(
    events: Seq<WarmInput<M>>,
    session_id: Seq<char>,
)
    requires
        stage_after(events) == Some(WarmStage::Delete { session_id }),
    ensures
        in_order(events, 5, true),
        created(events, session_id),
{
    lemma_in_order(events);
}

/// A warm-up that is done took every step in order, and left no session behind with an agent
/// that can delete sessions: the deletion was answered.
pub proof fn law_finished_warmup_took_every_step<M>(events: Seq<WarmInput<M>>)
    requires
        stage_after(events) == Some(WarmStage::Done),
    ensures
        in_order(events, 5, false) || in_order(events, 6, true),
{
    lemma_in_order(events);
}

} // verus!
