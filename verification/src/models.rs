//! Agents and conversations.
use vstd::prelude::*;

use crate::clock::Stamp;
use crate::text::same_text;

verus! {

/// A coding agent.
#[derive(Clone, Copy, PartialEq, Eq, Structural, Debug)]
pub enum AgentType {
    ClaudeCode,
    Codex,
    OpenCode,
    Gemini,
    OpenClaw,
    Cline,
}

/// How far a conversation has come.
#[derive(Clone, Copy, PartialEq, Eq, Structural, Debug)]
pub enum ConversationStatus {
    InProgress,
    PendingReview,
    Completed,
    Cancelled,
}

impl ConversationStatus {
    /// The status as it is written.
    pub open spec fn name(self) -> Seq<char> {
        match self {
            ConversationStatus::InProgress => "in_progress"@,
            ConversationStatus::PendingReview => "pending_review"@,
            ConversationStatus::Completed => "completed"@,
            ConversationStatus::Cancelled => "cancelled"@,
        }
    }

    pub fn as_str(self) -> (r: &'static str)
        ensures
            r@ == self.name(),
    {
        match self {
            ConversationStatus::InProgress => "in_progress",
            ConversationStatus::PendingReview => "pending_review",
            ConversationStatus::Completed => "completed",
            ConversationStatus::Cancelled => "cancelled",
        }
    }

    /// Reads a status; `None` for a text that is none.
    pub fn parse(text: &str) -> (r: Option<ConversationStatus>)
        ensures
            match r {
                Some(status) => text@ == status.name(),
                None => forall|status: ConversationStatus| #[trigger] status.name() != text@,
            },
    {
        if same_text(text, "in_progress") {
            Some(ConversationStatus::InProgress)
        } else if same_text(text, "pending_review") {
            Some(ConversationStatus::PendingReview)
        } else if same_text(text, "completed") {
            Some(ConversationStatus::Completed)
        } else if same_text(text, "cancelled") {
            Some(ConversationStatus::Cancelled)
        } else {
            None
        }
    }
}

/// No two statuses are written alike.
pub proof fn law_status_names_differ(a: ConversationStatus, b: ConversationStatus)
    requires
        a.name() == b.name(),
    ensures
        a == b,
{
    reveal_strlit("in_progress");
    reveal_strlit("pending_review");
    reveal_strlit("completed");
    reveal_strlit("cancelled");
    assert("in_progress"@[0] == 'i');
    assert("pending_review"@[0] == 'p');
    assert("completed"@[1] == 'o');
    assert("cancelled"@[1] == 'a');
    assert(a.name()[0] == b.name()[0]);
    assert(a.name()[1] == b.name()[1]);
}

/// A conversation that an agent keeps a record of.
#[derive(Debug)]
pub struct ConversationSummary {
    pub agent_type: AgentType,
    pub id: String,
    pub title: Option<String>,
    pub folder_path: Option<String>,
    pub folder_name: Option<String>,
    pub git_branch: Option<String>,
    pub model: Option<String>,
    pub started_at: Stamp,
    pub message_count: u32,
}

/// A folder in which conversations took place.
#[derive(Debug)]
pub struct FolderInfo {
    pub path: String,
    pub name: String,
    pub agent_types: Vec<AgentType>,
    pub conversation_count: u32,
}

/// The number of conversations with an agent.
#[derive(Clone, Copy, PartialEq, Eq, Structural, Debug)]
pub struct AgentConversationCount {
    pub agent_type: AgentType,
    pub conversation_count: u32,
}

/// How many conversations there are, and with whom.
#[derive(Debug)]
pub struct AgentStats {
    pub total_conversations: u32,
    pub total_messages: u32,
    pub by_agent: Vec<AgentConversationCount>,
}

/// What the sidebar shows.
#[derive(Debug)]
pub struct SidebarData {
    pub folders: Vec<FolderInfo>,
    pub stats: AgentStats,
}

/// The statuses are written as the database and the clients know them.
pub proof fn law_status_names()
    ensures
        ConversationStatus::InProgress.name() == "in_progress"@,
        ConversationStatus::PendingReview.name() == "pending_review"@,
        ConversationStatus::Completed.name() == "completed"@,
        ConversationStatus::Cancelled.name() == "cancelled"@,
{
}


} // verus!
