//! Session activity rows: what the Host streams about a session's current
//! state (agent state, approval, timers) and the fields derived from it
//! for the sidebar (row sublabel, sort key, unread-approval flag).
use vstd::prelude::*;

verus! {

/// Agent state as the Host reports it for a session.
#[derive(Clone, Debug, Default, PartialEq, Eq)]
pub enum SessionAgentState {
    #[default]
    Idle,
    Running,
    Waiting,
    /// The approval banner's full text, when one is on screen.
    Approval { banner_text: String },
    /// Full title text the agent is generating (tool name for tool work,
    /// summary text for summaries).
    Generating { title: String, started_at: u64 },
}

/// Everything the Host streams about a session's current state.
#[derive(Clone, Debug, Default, PartialEq)]
pub struct SessionActivity {
    pub agent_state: SessionAgentState,
    pub provider_id: Option<String>,
    pub command: Option<String>,
    pub started_at: Option<u64>,
    pub elapsed_secs: Option<u64>,
    /// Live line count from the transcript; `None` when unknown.
    pub transcript_lines: Option<u64>,
    /// Extra presentation fields the Host attaches, kept opaque: each is a
    /// key and its value's JSON text.
    pub extra: Vec<(String, String)>,
}

/// A session row in the sidebar: identity, activity and filing.
#[derive(Clone, Debug, Default, PartialEq)]
pub struct SessionRowContext {
    pub session_id: String,
    pub display_name: String,
    pub project_id: Option<String>,
    pub effective_project_id: Option<String>,
    pub activity: SessionActivity,
    /// Notifications the launcher has not yet surfaced for this session.
    pub pending_notifications: Vec<String>,
}

impl SessionAgentState {
    /// An approval banner is on screen.
    pub fn is_approval(&self) -> (r: bool)
        ensures
            r == (*self is Approval),
    {
        match self {
            SessionAgentState::Approval { .. } => true,
            _ => false,
        }
    }

    /// The agent is generating.
    pub fn is_generating(&self) -> (r: bool)
        ensures
            r == (*self is Generating),
    {
        match self {
            SessionAgentState::Generating { .. } => true,
            _ => false,
        }
    }
}

/// The row sublabel: the approval text, else the generation title, else
/// the provider, else `idle`.
pub open spec fn sublabel_spec(c: SessionRowContext) -> Seq<char> {
    match c.activity.agent_state {
        SessionAgentState::Approval { banner_text } => banner_text@,
        SessionAgentState::Generating { title, .. } => title@,
        _ => match c.activity.provider_id {
            Some(p) => p@,
            None => "idle"@,
        },
    }
}

/// Rank of a state in the sidebar: approvals, then generating, then
/// running or waiting, then idle.
pub open spec fn priority_spec(s: SessionAgentState) -> u8 {
    match s {
        SessionAgentState::Approval { .. } => 0,
        SessionAgentState::Generating { .. } => 1,
        SessionAgentState::Running => 2,
        SessionAgentState::Waiting => 2,
        SessionAgentState::Idle => 3,
    }
}

/// The sort key: the rank, then the recency (later starts first; an
/// unknown start counts as 0).
pub open spec fn sort_key_spec(c: SessionRowContext) -> (u8, u64) {
    let recency: u64 = match c.activity.started_at {
        Some(t) => t,
        None => 0,
    };
    (priority_spec(c.activity.agent_state), (u64::MAX - recency) as u64)
}

/// `a` sorts strictly before `b` (tuples compare field by field).
pub open spec fn key_before(a: (u8, u64), b: (u8, u64)) -> bool {
    a.0 < b.0 || (a.0 == b.0 && a.1 < b.1)
}

impl SessionRowContext {
    /// The row sublabel: approval text, generation title, or the provider.
    pub fn sublabel(&self) -> (r: String)
        ensures
            r@ == sublabel_spec(*self),
    {
        match &self.activity.agent_state {
            SessionAgentState::Approval { banner_text } => banner_text.clone(),
            SessionAgentState::Generating { title, .. } => title.clone(),
            _ => match &self.activity.provider_id {
                Some(p) => p.clone(),
                None => crate::text::owned("idle"),
            },
        }
    }

    /// Sort key: approvals first, then generating, then by recency.
    pub fn sort_key(&self) -> (r: (u8, u64))
        ensures
            r == sort_key_spec(*self),
    {
        let priority: u8 = match &self.activity.agent_state {
            SessionAgentState::Approval { .. } => 0,
            SessionAgentState::Generating { .. } => 1,
            SessionAgentState::Running => 2,
            SessionAgentState::Waiting => 2,
            SessionAgentState::Idle => 3,
        };
        let recency: u64 = match self.activity.started_at {
            Some(t) => t,
            None => 0,
        };
        (priority, u64::MAX - recency)
    }

    /// An approval is on screen and the launcher has not surfaced its
    /// notifications yet.
    pub fn has_unread_approval(&self) -> (r: bool)
        ensures
            r == (self.activity.agent_state is Approval && self.pending_notifications@.len() > 0),
    {
        self.activity.agent_state.is_approval() && self.pending_notifications.len() > 0
    }
}

/// Approvals sort first: a row with an approval on screen sorts before
/// every row without one, whatever their start times.
pub proof fn lemma_approvals_sort_first(a: SessionRowContext, b: SessionRowContext)
    requires
        a.activity.agent_state is Approval,
        !(b.activity.agent_state is Approval),
    ensures
        key_before(sort_key_spec(a), sort_key_spec(b)),
{
}

/// Generating rows sort before running, waiting and idle ones.
pub proof fn lemma_generating_sorts_before_the_rest(a: SessionRowContext, b: SessionRowContext)
    requires
        a.activity.agent_state is Generating,
        !(b.activity.agent_state is Approval),
        !(b.activity.agent_state is Generating),
    ensures
        key_before(sort_key_spec(a), sort_key_spec(b)),
{
}

/// Among rows of the same rank, the one that started later sorts first.
pub proof fn lemma_recent_sorts_first(a: SessionRowContext, b: SessionRowContext, ta: u64, tb: u64)
    requires
        priority_spec(a.activity.agent_state) == priority_spec(b.activity.agent_state),
        a.activity.started_at == Some(ta),
        b.activity.started_at == Some(tb),
        tb < ta,
    ensures
        key_before(sort_key_spec(a), sort_key_spec(b)),
{
}

} // verus!
