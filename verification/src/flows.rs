//! What happens, step by step, when a prompt is sent, a turn cancelled or a session
//! forked.
//!
//! Each step is one request to the database, to the agent or to those who listen to
//! events. The caller carries a step out and reports what came of it.
use vstd::prelude::*;

use crate::clock::Stamp;
use crate::error::{AcpError, AcpErrorView};
use crate::models::{AgentType, ConversationStatus};
use crate::text::{
    chars_of, opt_view, starts_with, strip_front, trim_start_of, TrimSet,
};

verus! {

// ---------------------------------------------------------------------------
// Sending a prompt
// ---------------------------------------------------------------------------

/// A step of sending a prompt.
#[derive(Debug)]
pub enum PromptStep {
    /// See whether the session is linked to a conversation. This is the first step.
    ReadLink,
    /// Create a conversation in the folder.
    CreateRow { folder_id: i32 },
    /// Announce that the session is linked to the conversation.
    EmitLinked { conversation_id: i32, folder_id: i32 },
    /// See which conversation the session is linked to, and whether its own id is known.
    ReadIds,
    /// Note the session's id with the conversation.
    SaveExternalId { conversation_id: i32 },
    /// See which conversation's status the prompt changes.
    ReadTarget,
    /// Note that the conversation is in progress.
    MarkInProgress { conversation_id: i32 },
    /// Announce that the conversation is in progress.
    EmitInProgress { conversation_id: i32 },
    /// Hand the prompt to the agent.
    Send { target: Option<i32> },
    /// Note that the conversation is cancelled, since the prompt did not reach the agent.
    MarkCancelled { conversation_id: i32, error: AcpError },
    /// Announce that the conversation is cancelled.
    EmitCancelled { conversation_id: i32, error: AcpError },
    /// The prompt is sent, or why it is not.
    Finish(Result<(), AcpError>),
}

/// The model of a [`PromptStep`].
pub enum PromptView {
    ReadLink,
    CreateRow { folder_id: i32 },
    EmitLinked { conversation_id: i32, folder_id: i32 },
    ReadIds,
    SaveExternalId { conversation_id: i32 },
    ReadTarget,
    MarkInProgress { conversation_id: i32 },
    EmitInProgress { conversation_id: i32 },
    Send { target: Option<i32> },
    MarkCancelled { conversation_id: i32, error: AcpErrorView },
    EmitCancelled { conversation_id: i32, error: AcpErrorView },
    Finish(Result<(), AcpErrorView>),
}

impl View for PromptStep {
    type V = PromptView;

    open spec fn view(&self) -> PromptView {
        match self {
            PromptStep::ReadLink => PromptView::ReadLink,
            PromptStep::CreateRow { folder_id } => PromptView::CreateRow { folder_id: *folder_id },
            PromptStep::EmitLinked { conversation_id, folder_id } => PromptView::EmitLinked {
                conversation_id: *conversation_id,
                folder_id: *folder_id,
            },
            PromptStep::ReadIds => PromptView::ReadIds,
            PromptStep::SaveExternalId { conversation_id } => PromptView::SaveExternalId {
                conversation_id: *conversation_id,
            },
            PromptStep::ReadTarget => PromptView::ReadTarget,
            PromptStep::MarkInProgress { conversation_id } => PromptView::MarkInProgress {
                conversation_id: *conversation_id,
            },
            PromptStep::EmitInProgress { conversation_id } => PromptView::EmitInProgress {
                conversation_id: *conversation_id,
            },
            PromptStep::Send { target } => PromptView::Send { target: *target },
            PromptStep::MarkCancelled { conversation_id, error } => PromptView::MarkCancelled {
                conversation_id: *conversation_id,
                error: error@,
            },
            PromptStep::EmitCancelled { conversation_id, error } => PromptView::EmitCancelled {
                conversation_id: *conversation_id,
                error: error@,
            },
            PromptStep::Finish(Ok(_)) => PromptView::Finish(Ok(())),
            PromptStep::Finish(Err(e)) => PromptView::Finish(Err(e@)),
        }
    }
}

/// What came of a step.
#[derive(Debug)]
pub enum PromptEvent {
    /// The session is linked to a conversation, or not.
    Link(bool),
    /// The id of the conversation that was created, or why there is none.
    Created(Result<i32, String>),
    /// The conversation that the session is linked to, and whether the session's own id
    /// is known.
    Ids { conversation_id: Option<i32>, external_id_known: bool },
    /// The conversation whose status the prompt changes.
    Target(Option<i32>),
    /// The database took it, or why it did not.
    Saved(Result<(), String>),
    /// The event was announced.
    Emitted,
    /// The agent has the prompt, or why it has not.
    Sent(Result<(), AcpError>),
}

/// The model of a [`PromptEvent`].
pub enum PromptEventView {
    Link(bool),
    Created(Result<i32, Seq<char>>),
    Ids { conversation_id: Option<i32>, external_id_known: bool },
    Target(Option<i32>),
    Saved(Result<(), Seq<char>>),
    Emitted,
    Sent(Result<(), AcpErrorView>),
}

impl View for PromptEvent {
    type V = PromptEventView;

    open spec fn view(&self) -> PromptEventView {
        match self {
            PromptEvent::Link(linked) => PromptEventView::Link(*linked),
            PromptEvent::Created(Ok(id)) => PromptEventView::Created(Ok(*id)),
            PromptEvent::Created(Err(e)) => PromptEventView::Created(Err(e@)),
            PromptEvent::Ids { conversation_id, external_id_known } => PromptEventView::Ids {
                conversation_id: *conversation_id,
                external_id_known: *external_id_known,
            },
            PromptEvent::Target(target) => PromptEventView::Target(*target),
            PromptEvent::Saved(Ok(_)) => PromptEventView::Saved(Ok(())),
            PromptEvent::Saved(Err(e)) => PromptEventView::Saved(Err(e@)),
            PromptEvent::Emitted => PromptEventView::Emitted,
            PromptEvent::Sent(Ok(_)) => PromptEventView::Sent(Ok(())),
            PromptEvent::Sent(Err(e)) => PromptEventView::Sent(Err(e@)),
        }
    }
}

/// The event tells what came of the step.
pub open spec fn answers(step: PromptView, event: PromptEventView) -> bool {
    match step {
        PromptView::ReadLink => event is Link,
        PromptView::CreateRow { .. } => event is Created,
        PromptView::ReadIds => event is Ids,
        PromptView::ReadTarget => event is Target,
        PromptView::SaveExternalId { .. } => event is Saved,
        PromptView::MarkInProgress { .. } => event is Saved,
        PromptView::MarkCancelled { .. } => event is Saved,
        PromptView::EmitLinked { .. } => event is Emitted,
        PromptView::EmitInProgress { .. } => event is Emitted,
        PromptView::EmitCancelled { .. } => event is Emitted,
        PromptView::Send { .. } => event is Sent,
        PromptView::Finish(_) => false,
    }
}

/// What a prompt brings along: the folder and the conversation that it belongs to, as
/// far as the sender knows them.
#[derive(Clone, Copy, PartialEq, Eq, Structural, Debug)]
pub struct PromptTarget {
    pub folder_id: Option<i32>,
    pub conversation_id: Option<i32>,
}

/// What to do for a session that is not linked: the sender's conversation is adopted,
/// or one is created in the folder. Either way the folder has to be known.
pub open spec fn link_step(t: PromptTarget) -> PromptView {
    match (t.conversation_id, t.folder_id) {
        (Some(conversation_id), Some(folder_id)) => PromptView::EmitLinked {
            conversation_id,
            folder_id,
        },
        (Some(_), None) => PromptView::Finish(
            Err(AcpErrorView::Protocol("conversation_id provided without folder_id"@)),
        ),
        (None, Some(folder_id)) => PromptView::CreateRow { folder_id },
        (None, None) => PromptView::Finish(
            Err(AcpErrorView::Protocol("folder_id required for new conversation row"@)),
        ),
    }
}

/// The step after `step`, which `event` tells what came of.
pub open spec fn prompt_after(t: PromptTarget, step: PromptView, event: PromptEventView) -> PromptView {
    match (step, event) {
        (PromptView::ReadLink, PromptEventView::Link(linked)) => if linked {
            PromptView::ReadTarget
        } else {
            link_step(t)
        },
        (PromptView::CreateRow { folder_id }, PromptEventView::Created(Ok(id))) => {
            PromptView::EmitLinked { conversation_id: id, folder_id }
        },
        (PromptView::CreateRow { .. }, PromptEventView::Created(Err(e))) => PromptView::Finish(
            Err(AcpErrorView::Protocol(e)),
        ),
        (PromptView::EmitLinked { .. }, PromptEventView::Emitted) => PromptView::ReadIds,
        (
            PromptView::ReadIds,
            PromptEventView::Ids { conversation_id, external_id_known },
        ) => match conversation_id {
            Some(id) => if external_id_known {
                PromptView::SaveExternalId { conversation_id: id }
            } else {
                PromptView::ReadTarget
            },
            None => PromptView::ReadTarget,
        },
        (PromptView::SaveExternalId { .. }, PromptEventView::Saved(Ok(_))) => {
            PromptView::ReadTarget
        },
        (PromptView::SaveExternalId { .. }, PromptEventView::Saved(Err(e))) => PromptView::Finish(
            Err(AcpErrorView::Protocol(e)),
        ),
        (PromptView::ReadTarget, PromptEventView::Target(Some(id))) => PromptView::MarkInProgress {
            conversation_id: id,
        },
        (PromptView::ReadTarget, PromptEventView::Target(None)) => PromptView::Send {
            target: None,
        },
        (PromptView::MarkInProgress { conversation_id }, PromptEventView::Saved(Ok(_))) => {
            PromptView::EmitInProgress { conversation_id }
        },
        (PromptView::MarkInProgress { .. }, PromptEventView::Saved(Err(e))) => PromptView::Finish(
            Err(AcpErrorView::Protocol(e)),
        ),
        (PromptView::EmitInProgress { conversation_id }, PromptEventView::Emitted) => {
            PromptView::Send { target: Some(conversation_id) }
        },
        (PromptView::Send { .. }, PromptEventView::Sent(Ok(_))) => PromptView::Finish(Ok(())),
        (
            PromptView::Send { target: Some(conversation_id) },
            PromptEventView::Sent(Err(error)),
        ) => PromptView::MarkCancelled { conversation_id, error },
        (PromptView::Send { target: None }, PromptEventView::Sent(Err(error))) => {
            PromptView::Finish(Err(error))
        },
        (
            PromptView::MarkCancelled { conversation_id, error },
            PromptEventView::Saved(Ok(_)),
        ) => PromptView::EmitCancelled { conversation_id, error },
        (PromptView::MarkCancelled { error, .. }, PromptEventView::Saved(Err(_))) => {
            PromptView::Finish(Err(error))
        },
        (PromptView::EmitCancelled { error, .. }, PromptEventView::Emitted) => PromptView::Finish(
            Err(error),
        ),
        (other, _) => other,
    }
}

fn first_link_step(t: PromptTarget) -> (r: PromptStep)
    ensures
        r@ == link_step(t),
{
    match (t.conversation_id, t.folder_id) {
        (Some(conversation_id), Some(folder_id)) => PromptStep::EmitLinked {
            conversation_id,
            folder_id,
        },
        (Some(_), None) => PromptStep::Finish(
            Err(AcpError::protocol("conversation_id provided without folder_id")),
        ),
        (None, Some(folder_id)) => PromptStep::CreateRow { folder_id },
        (None, None) => PromptStep::Finish(
            Err(AcpError::protocol("folder_id required for new conversation row")),
        ),
    }
}

/// The step after `step`, which `event` tells what came of.
pub fn next_prompt(t: PromptTarget, step: PromptStep, event: PromptEvent) -> (r: PromptStep)
    requires
        answers(step@, event@),
    ensures
        r@ == prompt_after(t, step@, event@),
{
    match (step, event) {
        (PromptStep::ReadLink, PromptEvent::Link(linked)) => {
            if linked {
                PromptStep::ReadTarget
            } else {
                first_link_step(t)
            }
        },
        (PromptStep::CreateRow { folder_id }, PromptEvent::Created(outcome)) => match outcome {
            Ok(id) => PromptStep::EmitLinked { conversation_id: id, folder_id },
            Err(e) => PromptStep::Finish(Err(AcpError::Protocol(e))),
        },
        (PromptStep::EmitLinked { .. }, PromptEvent::Emitted) => PromptStep::ReadIds,
        (
            PromptStep::ReadIds,
            PromptEvent::Ids { conversation_id, external_id_known },
        ) => match conversation_id {
            Some(id) => {
                if external_id_known {
                    PromptStep::SaveExternalId { conversation_id: id }
                } else {
                    PromptStep::ReadTarget
                }
            },
            None => PromptStep::ReadTarget,
        },
        (PromptStep::SaveExternalId { .. }, PromptEvent::Saved(outcome)) => match outcome {
            Ok(_) => PromptStep::ReadTarget,
            Err(e) => PromptStep::Finish(Err(AcpError::Protocol(e))),
        },
        (PromptStep::ReadTarget, PromptEvent::Target(target)) => match target {
            Some(id) => PromptStep::MarkInProgress { conversation_id: id },
            None => PromptStep::Send { target: None },
        },
        (PromptStep::MarkInProgress { conversation_id }, PromptEvent::Saved(outcome)) => {
            match outcome {
                Ok(_) => PromptStep::EmitInProgress { conversation_id },
                Err(e) => PromptStep::Finish(Err(AcpError::Protocol(e))),
            }
        },
        (PromptStep::EmitInProgress { conversation_id }, PromptEvent::Emitted) => {
            PromptStep::Send { target: Some(conversation_id) }
        },
        (PromptStep::Send { target }, PromptEvent::Sent(outcome)) => match outcome {
            Ok(_) => PromptStep::Finish(Ok(())),
            Err(error) => match target {
                Some(conversation_id) => PromptStep::MarkCancelled { conversation_id, error },
                None => PromptStep::Finish(Err(error)),
            },
        },
        (PromptStep::MarkCancelled { conversation_id, error }, PromptEvent::Saved(outcome)) => {
            match outcome {
                Ok(_) => PromptStep::EmitCancelled { conversation_id, error },
                Err(_) => PromptStep::Finish(Err(error)),
            }
        },
        (PromptStep::EmitCancelled { error, .. }, PromptEvent::Emitted) => PromptStep::Finish(
            Err(error),
        ),
        (step, _) => step,
    }
}

/// What comes of each step while a prompt is sent.
pub struct PromptWorld {
    pub linked: bool,
    pub created: Result<i32, Seq<char>>,
    pub ids: (Option<i32>, bool),
    pub external_id_saved: Result<(), Seq<char>>,
    pub target: Option<i32>,
    pub in_progress_saved: Result<(), Seq<char>>,
    pub sent: Result<(), AcpErrorView>,
    pub cancelled_saved: Result<(), Seq<char>>,
}

/// What comes of a step.
pub open spec fn outcome(w: PromptWorld, step: PromptView) -> PromptEventView {
    match step {
        PromptView::ReadLink => PromptEventView::Link(w.linked),
        PromptView::CreateRow { .. } => PromptEventView::Created(w.created),
        PromptView::ReadIds => PromptEventView::Ids {
            conversation_id: w.ids.0,
            external_id_known: w.ids.1,
        },
        PromptView::SaveExternalId { .. } => PromptEventView::Saved(w.external_id_saved),
        PromptView::ReadTarget => PromptEventView::Target(w.target),
        PromptView::MarkInProgress { .. } => PromptEventView::Saved(w.in_progress_saved),
        PromptView::Send { .. } => PromptEventView::Sent(w.sent),
        PromptView::MarkCancelled { .. } => PromptEventView::Saved(w.cancelled_saved),
        _ => PromptEventView::Emitted,
    }
}

/// The number of steps that can still follow.
pub open spec fn prompt_rank(step: PromptView) -> nat {
    match step {
        PromptView::ReadLink => 11,
        PromptView::CreateRow { .. } => 10,
        PromptView::EmitLinked { .. } => 9,
        PromptView::ReadIds => 8,
        PromptView::SaveExternalId { .. } => 7,
        PromptView::ReadTarget => 6,
        PromptView::MarkInProgress { .. } => 5,
        PromptView::EmitInProgress { .. } => 4,
        PromptView::Send { .. } => 3,
        PromptView::MarkCancelled { .. } => 2,
        PromptView::EmitCancelled { .. } => 1,
        PromptView::Finish(_) => 0,
    }
}

/// The steps of sending a prompt, from `step` on.
pub open spec fn prompt_trace(t: PromptTarget, w: PromptWorld, step: PromptView) -> Seq<PromptView>
    decreases prompt_rank(step),
    via prompt_trace_ends
{
    if step is Finish {
        seq![step]
    } else {
        seq![step] + prompt_trace(t, w, prompt_after(t, step, outcome(w, step)))
    }
}

#[via_fn]
proof fn prompt_trace_ends(t: PromptTarget, w: PromptWorld, step: PromptView) {
    lemma_rank_falls(t, w, step);
}

proof fn lemma_rank_falls(t: PromptTarget, w: PromptWorld, step: PromptView)
    ensures
        answers(step, outcome(w, step)) || step is Finish,
        !(step is Finish) ==> prompt_rank(prompt_after(t, step, outcome(w, step))) < prompt_rank(
            step,
        ),
{
}

/// The steps of sending a prompt.
pub open spec fn prompt_steps(t: PromptTarget, w: PromptWorld) -> Seq<PromptView> {
    prompt_trace(t, w, PromptView::ReadLink)
}

/// The agent was handed the prompt in one of the steps.
pub open spec fn hands_over(steps: Seq<PromptView>) -> bool {
    exists|i: int| 0 <= i < steps.len() && #[trigger] steps[i] is Send
}

/// Sending a prompt always ends: with success if and only if the agent was handed the
/// prompt and took it.
pub proof fn law_prompt_ends(t: PromptTarget, w: PromptWorld)
    ensures
        prompt_steps(t, w).len() > 0,
        prompt_steps(t, w).last() is Finish,
        prompt_steps(t, w).last() == PromptView::Finish(Ok(())) <==> w.sent is Ok && hands_over(
            prompt_steps(t, w),
        ),
{
    lemma_trace_end(t, w, PromptView::ReadLink);
}

proof fn lemma_trace_end(t: PromptTarget, w: PromptWorld, step: PromptView)
    ensures
        prompt_trace(t, w, step).len() > 0,
        prompt_trace(t, w, step).last() is Finish,
        prompt_trace(t, w, step).last() == PromptView::Finish(Ok(())) <==> step
            == PromptView::Finish(Ok(())) || w.sent is Ok && hands_over(prompt_trace(t, w, step)),
    decreases prompt_rank(step),
{
    let all = prompt_trace(t, w, step);
    if !(step is Finish) {
        let next = prompt_after(t, step, outcome(w, step));
        lemma_rank_falls(t, w, step);
        lemma_trace_end(t, w, next);
        let rest = prompt_trace(t, w, next);
        assert(all.last() == rest.last());
        assert(all[0] == step);
        if hands_over(rest) {
            let k = choose|k: int| 0 <= k < rest.len() && #[trigger] rest[k] is Send;
            assert(all[k + 1] is Send);
        }
        if hands_over(all) && !(step is Send) {
            let k = choose|k: int| 0 <= k < all.len() && #[trigger] all[k] is Send;
            assert(rest[k - 1] is Send);
        }
    }
}

/// A session that is linked already stays with its conversation: none is created, and no
/// link is announced, whatever the sender names.
pub proof fn law_linked_session_is_not_linked_again(t: PromptTarget, w: PromptWorld)
    requires
        w.linked,
    ensures
        forall|i: int|
            0 <= i < prompt_steps(t, w).len() ==> {
                let step = #[trigger] prompt_steps(t, w)[i];
                !(step is CreateRow) && !(step is EmitLinked) && !(step is SaveExternalId)
            },
{
    lemma_steps_after_link(t, w, PromptView::ReadTarget);
    let rest = prompt_trace(t, w, PromptView::ReadTarget);
    assert forall|i: int| 0 <= i < prompt_steps(t, w).len() implies ({
        let step = #[trigger] prompt_steps(t, w)[i];
        !(step is CreateRow) && !(step is EmitLinked) && !(step is SaveExternalId)
    }) by {
        if i > 0 {
            assert(prompt_steps(t, w)[i] == rest[i - 1]);
        }
    }
}

proof fn lemma_steps_after_link(t: PromptTarget, w: PromptWorld, step: PromptView)
    requires
        prompt_rank(step) <= 6,
    ensures
        forall|i: int|
            0 <= i < prompt_trace(t, w, step).len() ==> prompt_rank(
                #[trigger] prompt_trace(t, w, step)[i],
            ) <= 6,
    decreases prompt_rank(step),
{
    if !(step is Finish) {
        let next = prompt_after(t, step, outcome(w, step));
        lemma_rank_falls(t, w, step);
        lemma_steps_after_link(t, w, next);
        let rest = prompt_trace(t, w, next);
        let all = prompt_trace(t, w, step);
        assert forall|i: int| 0 <= i < all.len() implies prompt_rank(#[trigger] all[i]) <= 6 by {
            if i > 0 {
                assert(all[i] == rest[i - 1]);
            }
        }
    }
}

/// A sender's conversation is adopted as it is: no other is created beside it.
pub proof fn law_given_conversation_is_adopted(t: PromptTarget, w: PromptWorld)
    requires
        !w.linked,
        t.conversation_id is Some,
        t.folder_id is Some,
    ensures
        prompt_steps(t, w).len() > 1,
        prompt_steps(t, w)[1] == (PromptView::EmitLinked {
            conversation_id: t.conversation_id->0,
            folder_id: t.folder_id->0,
        }),
        forall|i: int|
            0 <= i < prompt_steps(t, w).len() ==> !(#[trigger] prompt_steps(t, w)[i] is CreateRow),
{
    let link = link_step(t);
    lemma_ranks_fall(t, w, link);
    let rest = prompt_trace(t, w, link);
    let all = prompt_steps(t, w);
    assert(all[1] == rest[0]);
    assert forall|i: int| 0 <= i < all.len() implies !(#[trigger] all[i] is CreateRow) by {
        if i > 0 {
            assert(all[i] == rest[i - 1]);
        }
    }
}

proof fn lemma_ranks_fall(t: PromptTarget, w: PromptWorld, step: PromptView)
    ensures
        prompt_trace(t, w, step).len() > 0,
        prompt_trace(t, w, step)[0] == step,
        forall|i: int|
            0 <= i < prompt_trace(t, w, step).len() ==> prompt_rank(
                #[trigger] prompt_trace(t, w, step)[i],
            ) <= prompt_rank(step),
    decreases prompt_rank(step),
{
    if !(step is Finish) {
        let next = prompt_after(t, step, outcome(w, step));
        lemma_rank_falls(t, w, step);
        lemma_ranks_fall(t, w, next);
        let rest = prompt_trace(t, w, next);
        let all = prompt_trace(t, w, step);
        assert forall|i: int| 0 <= i < all.len() implies prompt_rank(#[trigger] all[i])
            <= prompt_rank(step) by {
            if i > 0 {
                assert(all[i] == rest[i - 1]);
            }
        }
    }
}

/// Whatever is announced stands in the database before: a status is announced right
/// after it was saved, and a conversation that was created is announced right after.
pub proof fn law_events_follow_the_database(t: PromptTarget, w: PromptWorld, i: int)
    requires
        0 <= i < prompt_steps(t, w).len(),
    ensures
        prompt_steps(t, w)[i] matches PromptView::EmitInProgress { conversation_id } ==> i > 0
            && prompt_steps(t, w)[i - 1] == (PromptView::MarkInProgress { conversation_id })
            && w.in_progress_saved is Ok,
        prompt_steps(t, w)[i] matches PromptView::EmitCancelled { conversation_id, error } ==> i > 0
            && prompt_steps(t, w)[i - 1] == (PromptView::MarkCancelled { conversation_id, error })
            && w.cancelled_saved is Ok,
        prompt_steps(t, w)[i] matches PromptView::Send { target: Some(conversation_id) } ==> i > 0
            && prompt_steps(t, w)[i - 1] == (PromptView::EmitInProgress { conversation_id }),
{
    lemma_neighbours(t, w, PromptView::ReadLink, i);
}

proof fn lemma_neighbours(t: PromptTarget, w: PromptWorld, step: PromptView, i: int)
    requires
        0 <= i < prompt_trace(t, w, step).len(),
    ensures
        i > 0 ==> prompt_trace(t, w, step)[i] == prompt_after(
            t,
            prompt_trace(t, w, step)[i - 1],
            outcome(w, prompt_trace(t, w, step)[i - 1]),
        ),
        i == 0 ==> prompt_trace(t, w, step)[i] == step,
    decreases prompt_rank(step),
{
    if !(step is Finish) && i > 0 {
        let next = prompt_after(t, step, outcome(w, step));
        lemma_rank_falls(t, w, step);
        let rest = prompt_trace(t, w, next);
        let all = prompt_trace(t, w, step);
        assert(all[i] == rest[i - 1]);
        lemma_neighbours(t, w, next, i - 1);
        if i > 1 {
            assert(all[i - 1] == rest[i - 2]);
        } else {
            assert(all[0] == step);
        }
    }
}

/// A prompt that does not reach the agent does not leave its conversation in progress:
/// right after the attempt the conversation is marked as cancelled, and the reason why
/// the prompt was not sent is what is reported.
pub proof fn law_failed_prompt_is_cancelled(t: PromptTarget, w: PromptWorld, i: int)
    requires
        0 <= i < prompt_steps(t, w).len(),
        prompt_steps(t, w)[i] is Send,
        w.sent is Err,
    ensures
        i + 1 < prompt_steps(t, w).len(),
        prompt_steps(t, w)[i] matches PromptView::Send { target: Some(conversation_id) }
            ==> prompt_steps(t, w)[i + 1] == (PromptView::MarkCancelled {
            conversation_id,
            error: w.sent->Err_0,
        }),
        prompt_steps(t, w).last() == PromptView::Finish(Err(w.sent->Err_0)),
{
    lemma_after_failed_send(t, w, PromptView::ReadLink, i);
}

proof fn lemma_after_failed_send(t: PromptTarget, w: PromptWorld, step: PromptView, i: int)
    requires
        0 <= i < prompt_trace(t, w, step).len(),
        prompt_trace(t, w, step)[i] is Send,
        w.sent is Err,
    ensures
        i + 1 < prompt_trace(t, w, step).len(),
        prompt_trace(t, w, step)[i] matches PromptView::Send { target: Some(conversation_id) }
            ==> prompt_trace(t, w, step)[i + 1] == (PromptView::MarkCancelled {
            conversation_id,
            error: w.sent->Err_0,
        }),
        prompt_trace(t, w, step).last() == PromptView::Finish(Err(w.sent->Err_0)),
    decreases prompt_rank(step),
{
    if !(step is Finish) {
        let next = prompt_after(t, step, outcome(w, step));
        lemma_rank_falls(t, w, step);
        let rest = prompt_trace(t, w, next);
        let all = prompt_trace(t, w, step);
        lemma_ranks_fall(t, w, next);
        if i > 0 {
            assert(all[i] == rest[i - 1]);
            lemma_after_failed_send(t, w, next, i - 1);
            assert(all[i + 1] == rest[i]);
            assert(all.last() == rest.last());
        } else {
            assert(all[0] == step);
            assert(all[1] == rest[0]);
            reveal_with_fuel(prompt_trace, 4);
            assert(all.last() == PromptView::Finish(Err(w.sent->Err_0)));
        }
    }
}

// ---------------------------------------------------------------------------
// Several prompts on one session
// ---------------------------------------------------------------------------

/// What the sender, the database and the agent make of a prompt.
pub struct PromptCall {
    pub target: PromptTarget,
    pub created: Result<i32, Seq<char>>,
    pub external_id_known: bool,
    pub external_id_saved: Result<(), Seq<char>>,
    pub in_progress_saved: Result<(), Seq<char>>,
    pub sent: Result<(), AcpErrorView>,
    pub cancelled_saved: Result<(), Seq<char>>,
}

/// A session and what prompts have left behind.
#[verifier::ext_equal]
pub struct PromptSession {
    /// The conversation that the session is linked to.
    pub link: Option<i32>,
    /// The conversations that were created, each with its folder.
    pub rows: Seq<(i32, i32)>,
    /// The conversations that a link to was announced.
    pub announced: Seq<i32>,
}

/// What comes of a step on the session.
pub open spec fn session_outcome(
    s: PromptSession,
    call: PromptCall,
    step: PromptView,
) -> PromptEventView {
    match step {
        PromptView::ReadLink => PromptEventView::Link(s.link is Some),
        PromptView::CreateRow { .. } => PromptEventView::Created(call.created),
        PromptView::ReadIds => PromptEventView::Ids {
            conversation_id: s.link,
            external_id_known: call.external_id_known,
        },
        PromptView::SaveExternalId { .. } => PromptEventView::Saved(call.external_id_saved),
        PromptView::ReadTarget => PromptEventView::Target(s.link),
        PromptView::MarkInProgress { .. } => PromptEventView::Saved(call.in_progress_saved),
        PromptView::Send { .. } => PromptEventView::Sent(call.sent),
        PromptView::MarkCancelled { .. } => PromptEventView::Saved(call.cancelled_saved),
        _ => PromptEventView::Emitted,
    }
}

/// The session after a step: a conversation that was created is there, and announcing a
/// link makes it.
pub open spec fn session_after(
    s: PromptSession,
    call: PromptCall,
    step: PromptView,
) -> PromptSession {
    match step {
        PromptView::CreateRow { folder_id } => match call.created {
            Ok(id) => PromptSession { rows: s.rows.push((id, folder_id)), ..s },
            Err(_) => s,
        },
        PromptView::EmitLinked { conversation_id, .. } => PromptSession {
            link: Some(conversation_id),
            announced: s.announced.push(conversation_id),
            ..s
        },
        _ => s,
    }
}

/// The steps of a prompt from `step` on, and the session that they leave behind.
pub open spec fn session_run(s: PromptSession, call: PromptCall, step: PromptView) -> (
    Seq<PromptView>,
    PromptSession,
)
    decreases prompt_rank(step),
    via session_run_ends
{
    if step is Finish {
        (seq![step], s)
    } else {
        let (rest, end) = session_run(
            session_after(s, call, step),
            call,
            prompt_after(call.target, step, session_outcome(s, call, step)),
        );
        (seq![step] + rest, end)
    }
}

#[via_fn]
proof fn session_run_ends(s: PromptSession, call: PromptCall, step: PromptView) {
    lemma_session_rank_falls(s, call, step);
}

proof fn lemma_session_rank_falls(s: PromptSession, call: PromptCall, step: PromptView)
    ensures
        answers(step, session_outcome(s, call, step)) || step is Finish,
        !(step is Finish) ==> prompt_rank(
            prompt_after(call.target, step, session_outcome(s, call, step)),
        ) < prompt_rank(step),
{
}

/// The steps of a prompt on the session.
pub open spec fn call_steps(s: PromptSession, call: PromptCall) -> Seq<PromptView> {
    session_run(s, call, PromptView::ReadLink).0
}

/// The session after several prompts. Each has the session to itself until it is over.
pub open spec fn after_calls(s: PromptSession, calls: Seq<PromptCall>) -> PromptSession
    decreases calls.len(),
{
    if calls.len() == 0 {
        s
    } else {
        session_run(after_calls(s, calls.drop_last()), calls.last(), PromptView::ReadLink).1
    }
}

/// A step after the link was settled leaves the session as it is.
proof fn lemma_tail_keeps_session(s: PromptSession, call: PromptCall, step: PromptView)
    requires
        prompt_rank(step) <= 8,
    ensures
        session_run(s, call, step).1 == s,
    decreases prompt_rank(step),
{
    if !(step is Finish) {
        lemma_session_rank_falls(s, call, step);
        lemma_tail_keeps_session(
            s,
            call,
            prompt_after(call.target, step, session_outcome(s, call, step)),
        );
    }
}

/// What a single prompt leaves behind.
proof fn lemma_call_effect(s: PromptSession, call: PromptCall)
    ensures
        ({
            let end = session_run(s, call, PromptView::ReadLink).1;
            if s.link is Some {
                end == s
            } else {
                match link_step(call.target) {
                    PromptView::EmitLinked { conversation_id, .. } => end == (PromptSession {
                        link: Some(conversation_id),
                        announced: s.announced.push(conversation_id),
                        ..s
                    }),
                    PromptView::CreateRow { folder_id } => match call.created {
                        Ok(id) => end == (PromptSession {
                            link: Some(id),
                            rows: s.rows.push((id, folder_id)),
                            announced: s.announced.push(id),
                        }),
                        Err(_) => end == s,
                    },
                    _ => end == s,
                }
            }
        }),
{
    reveal_with_fuel(session_run, 4);
    if s.link is Some {
        lemma_tail_keeps_session(s, call, PromptView::ReadTarget);
    } else {
        match link_step(call.target) {
            PromptView::EmitLinked { conversation_id, .. } => {
                let linked = PromptSession {
                    link: Some(conversation_id),
                    announced: s.announced.push(conversation_id),
                    ..s
                };
                lemma_tail_keeps_session(linked, call, PromptView::ReadIds);
            },
            PromptView::CreateRow { folder_id } => match call.created {
                Ok(id) => {
                    let linked = PromptSession {
                        link: Some(id),
                        rows: s.rows.push((id, folder_id)),
                        announced: s.announced.push(id),
                    };
                    lemma_tail_keeps_session(linked, call, PromptView::ReadIds);
                },
                Err(_) => {},
            },
            _ => {},
        }
    }
}

/// A session that is linked stays as it is, however many prompts follow and whatever
/// they name: it keeps its conversation, none is created and no link is announced.
pub proof fn law_link_never_changes(s: PromptSession, calls: Seq<PromptCall>)
    requires
        s.link is Some,
    ensures
        after_calls(s, calls) == s,
    decreases calls.len(),
{
    if calls.len() > 0 {
        law_link_never_changes(s, calls.drop_last());
        lemma_call_effect(s, calls.last());
    }
}

/// However many prompts are sent on a new session, and whatever becomes of them, at most
/// one conversation is created and at most one link announced. The session is linked to
/// the conversation that was announced and to no other, and one that was created is the
/// one that was announced.
pub proof fn law_session_is_linked_once(calls: Seq<PromptCall>)
    ensures
        ({
            let fresh = PromptSession { link: None, rows: Seq::empty(), announced: Seq::empty() };
            let end = after_calls(fresh, calls);
            &&& end.rows.len() <= end.announced.len() <= 1
            &&& end.link == if end.announced.len() == 1 {
                Some(end.announced[0])
            } else {
                None
            }
            &&& end.rows.len() == 1 ==> end.rows[0].0 == end.announced[0]
        }),
    decreases calls.len(),
{
    let fresh = PromptSession { link: None, rows: Seq::empty(), announced: Seq::empty() };
    if calls.len() > 0 {
        law_session_is_linked_once(calls.drop_last());
        lemma_call_effect(after_calls(fresh, calls.drop_last()), calls.last());
    }
}

/// The database takes whatever the prompt brings.
pub open spec fn database_is_up(call: PromptCall) -> bool {
    call.created is Ok && call.external_id_saved is Ok && call.in_progress_saved is Ok
}

/// The prompt marks the conversation as in progress, announces that and hands itself to
/// the agent, in this order and without anything in between.
pub open spec fn prompt_proceeds(steps: Seq<PromptView>, conversation_id: i32) -> bool {
    exists|i: int|
        2 <= i < steps.len() && #[trigger] steps[i] == (PromptView::Send {
            target: Some(conversation_id),
        }) && steps[i - 1] == (PromptView::EmitInProgress { conversation_id }) && steps[i - 2] == (
        PromptView::MarkInProgress { conversation_id })
}

proof fn lemma_tail_proceeds(s: PromptSession, call: PromptCall)
    requires
        s.link is Some,
        call.in_progress_saved is Ok,
    ensures
        session_run(s, call, PromptView::ReadTarget).0.len() > 3,
        session_run(s, call, PromptView::ReadTarget).0[1] == (PromptView::MarkInProgress {
            conversation_id: s.link->0,
        }),
        session_run(s, call, PromptView::ReadTarget).0[2] == (PromptView::EmitInProgress {
            conversation_id: s.link->0,
        }),
        session_run(s, call, PromptView::ReadTarget).0[3] == (PromptView::Send {
            target: s.link,
        }),
{
    let id = s.link->0;
    let mark = PromptView::MarkInProgress { conversation_id: id };
    let emit = PromptView::EmitInProgress { conversation_id: id };
    let send = PromptView::Send { target: s.link };
    let from_send = session_run(s, call, send).0;
    let after_send = prompt_after(call.target, send, session_outcome(s, call, send));
    assert(from_send == seq![send] + session_run(s, call, after_send).0);
    assert(session_run(s, call, emit).0 == seq![emit] + from_send);
    assert(session_run(s, call, mark).0 == seq![mark] + (seq![emit] + from_send));
    assert(session_run(s, call, PromptView::ReadTarget).0 == seq![PromptView::ReadTarget] + (seq![
        mark,
    ] + (seq![emit] + from_send)));
    assert(from_send[0] == send);
}

proof fn lemma_proceeds_later(head: Seq<PromptView>, tail: Seq<PromptView>, id: i32)
    requires
        prompt_proceeds(tail, id),
    ensures
        prompt_proceeds(head + tail, id),
{
    let i = choose|i: int|
        2 <= i < tail.len() && #[trigger] tail[i] == (PromptView::Send { target: Some(id) })
            && tail[i - 1] == (PromptView::EmitInProgress { conversation_id: id }) && tail[i - 2]
            == (PromptView::MarkInProgress { conversation_id: id });
    let all = head + tail;
    let k = head.len() + i;
    assert(all[k] == tail[i]);
    assert(all[k - 1] == tail[i - 1]);
    assert(all[k - 2] == tail[i - 2]);
}

proof fn lemma_linked_call_proceeds(s: PromptSession, call: PromptCall)
    requires
        s.link is Some,
        call.in_progress_saved is Ok,
    ensures
        prompt_proceeds(call_steps(s, call), s.link->0),
{
    lemma_tail_proceeds(s, call);
    let tail = session_run(s, call, PromptView::ReadTarget).0;
    assert(tail[3] == (PromptView::Send { target: Some(s.link->0) }));
    assert(prompt_proceeds(tail, s.link->0));
    lemma_proceeds_later(seq![PromptView::ReadLink], tail, s.link->0);
    assert(call_steps(s, call) == seq![PromptView::ReadLink] + tail);
}

proof fn lemma_first_call_proceeds(s: PromptSession, call: PromptCall)
    requires
        s.link is None,
        call.target.folder_id is Some,
        call.target.conversation_id is None,
        database_is_up(call),
    ensures
        prompt_proceeds(call_steps(s, call), call.created->Ok_0),
{
    let id = call.created->Ok_0;
    let folder_id = call.target.folder_id->0;
    let create = PromptView::CreateRow { folder_id };
    let link = PromptView::EmitLinked { conversation_id: id, folder_id };
    let made = session_after(s, call, create);
    let linked = session_after(made, call, link);
    lemma_tail_proceeds(linked, call);
    let tail = session_run(linked, call, PromptView::ReadTarget).0;
    assert(tail[3] == (PromptView::Send { target: Some(id) }));
    assert(prompt_proceeds(tail, id));
    let from_ids = session_run(linked, call, PromptView::ReadIds).0;
    if call.external_id_known {
        let save = PromptView::SaveExternalId { conversation_id: id };
        assert(session_run(linked, call, save).0 == seq![save] + tail);
        lemma_proceeds_later(seq![save], tail, id);
        assert(from_ids == seq![PromptView::ReadIds] + session_run(linked, call, save).0);
        lemma_proceeds_later(seq![PromptView::ReadIds], seq![save] + tail, id);
    } else {
        assert(from_ids == seq![PromptView::ReadIds] + tail);
        lemma_proceeds_later(seq![PromptView::ReadIds], tail, id);
    }
    let from_link = session_run(made, call, link).0;
    assert(from_link == seq![link] + from_ids);
    lemma_proceeds_later(seq![link], from_ids, id);
    let from_create = session_run(s, call, create).0;
    assert(from_create == seq![create] + from_link);
    lemma_proceeds_later(seq![create], from_link, id);
    assert(call_steps(s, call) == seq![PromptView::ReadLink] + from_create);
    lemma_proceeds_later(seq![PromptView::ReadLink], from_create, id);
}

/// Prompts that name a folder and no conversation share one conversation on a session
/// that is not linked yet, as long as the database is up: the first creates it in the
/// folder and has it linked, the session is linked to it from then on, and every one of
/// the prompts marks it as in progress and announces that right before it goes to the
/// agent.
pub proof fn law_prompts_share_one_conversation(
    s: PromptSession,
    calls: Seq<PromptCall>,
    folder_id: i32,
)
    requires
        s.link is None,
        calls.len() > 0,
        forall|i: int|
            0 <= i < calls.len() ==> (#[trigger] calls[i]).target == (PromptTarget {
                folder_id: Some(folder_id),
                conversation_id: None,
            }) && database_is_up(calls[i]),
    ensures
        ({
            let id = calls[0].created->Ok_0;
            after_calls(s, calls) == (PromptSession {
                link: Some(id),
                rows: s.rows.push((id, folder_id)),
                announced: s.announced.push(id),
            })
        }),
        forall|k: int|
            0 <= k < calls.len() ==> prompt_proceeds(
                call_steps(after_calls(s, #[trigger] calls.take(k)), calls[k]),
                calls[0].created->Ok_0,
            ),
    decreases calls.len(),
{
    let id = calls[0].created->Ok_0;
    let shorter = calls.drop_last();
    let last = calls.last();
    assert(calls[calls.len() - 1].target.folder_id is Some);
    if calls.len() == 1 {
        assert(shorter =~= Seq::<PromptCall>::empty());
        assert(calls.take(0) =~= shorter);
        lemma_call_effect(s, last);
        lemma_first_call_proceeds(s, last);
    } else {
        assert forall|i: int| 0 <= i < shorter.len() implies (#[trigger] shorter[i]).target == (
        PromptTarget { folder_id: Some(folder_id), conversation_id: None }) && database_is_up(
            shorter[i],
        ) by {
            assert(shorter[i] == calls[i]);
        }
        law_prompts_share_one_conversation(s, shorter, folder_id);
        let before = after_calls(s, shorter);
        lemma_call_effect(before, last);
        lemma_linked_call_proceeds(before, last);
    }
    assert forall|k: int| 0 <= k < calls.len() implies prompt_proceeds(
        call_steps(after_calls(s, #[trigger] calls.take(k)), calls[k]),
        id,
    ) by {
        if k < shorter.len() {
            assert(shorter.take(k) =~= calls.take(k));
            assert(shorter[k] == calls[k]);
        } else {
            assert(calls.take(k) =~= shorter);
        }
    }
}

// ---------------------------------------------------------------------------
// Cancelling a turn
// ---------------------------------------------------------------------------

/// A step of cancelling a turn.
#[derive(Debug)]
pub enum CancelStep {
    /// Note that the conversation is cancelled, but only if it is in progress.
    MarkIfInProgress { conversation_id: i32 },
    /// Announce that the conversation is cancelled.
    EmitCancelled { conversation_id: i32 },
    Finish(Result<(), AcpError>),
}

/// The model of a [`CancelStep`].
pub enum CancelView {
    MarkIfInProgress { conversation_id: i32 },
    EmitCancelled { conversation_id: i32 },
    Finish(Result<(), AcpErrorView>),
}

impl View for CancelStep {
    type V = CancelView;

    open spec fn view(&self) -> CancelView {
        match self {
            CancelStep::MarkIfInProgress { conversation_id } => CancelView::MarkIfInProgress {
                conversation_id: *conversation_id,
            },
            CancelStep::EmitCancelled { conversation_id } => CancelView::EmitCancelled {
                conversation_id: *conversation_id,
            },
            CancelStep::Finish(Ok(_)) => CancelView::Finish(Ok(())),
            CancelStep::Finish(Err(e)) => CancelView::Finish(Err(e@)),
        }
    }
}

/// What follows once the agent was told to cancel, or could not be told. A session that
/// is linked to no conversation leaves nothing to mark.
pub open spec fn cancel_after_told(told: bool, conversation_id: Option<i32>) -> CancelView {
    if !told {
        CancelView::Finish(Err(AcpErrorView::ProcessExited))
    } else {
        match conversation_id {
            Some(id) => CancelView::MarkIfInProgress { conversation_id: id },
            None => CancelView::Finish(Ok(())),
        }
    }
}

/// What follows the attempt to mark the conversation: only a change is announced.
pub open spec fn cancel_after_marked(conversation_id: i32, changed: Option<bool>) -> CancelView {
    if changed == Some(true) {
        CancelView::EmitCancelled { conversation_id }
    } else {
        CancelView::Finish(Ok(()))
    }
}

/// What follows once the agent was told to cancel. `conversation_id` is the conversation
/// that the session is linked to.
pub fn cancel_told(told: bool, conversation_id: Option<i32>) -> (r: CancelStep)
    ensures
        r@ == cancel_after_told(told, conversation_id),
{
    if !told {
        return CancelStep::Finish(Err(AcpError::ProcessExited));
    }
    match conversation_id {
        Some(id) => CancelStep::MarkIfInProgress { conversation_id: id },
        None => CancelStep::Finish(Ok(())),
    }
}

/// What follows the attempt to mark the conversation. `changed` tells whether it was in
/// progress; `None` where the database failed.
pub fn cancel_marked(conversation_id: i32, changed: Option<bool>) -> (r: CancelStep)
    ensures
        r@ == cancel_after_marked(conversation_id, changed),
{
    match changed {
        Some(true) => CancelStep::EmitCancelled { conversation_id },
        _ => CancelStep::Finish(Ok(())),
    }
}

/// The steps of cancelling a turn up to its end.
pub open spec fn cancel_steps(
    told: bool,
    conversation_id: Option<i32>,
    changed: Option<bool>,
) -> Seq<CancelView> {
    let first = cancel_after_told(told, conversation_id);
    match first {
        CancelView::MarkIfInProgress { conversation_id } => {
            let second = cancel_after_marked(conversation_id, changed);
            if second is EmitCancelled {
                seq![first, second, CancelView::Finish(Ok(()))]
            } else {
                seq![first, second]
            }
        },
        _ => seq![first],
    }
}

/// A cancelled turn is announced if and only if the agent was told and the database
/// changed a conversation that was in progress; one that has ended by itself is left as
/// it is. The request fails only where the agent could not be told.
pub proof fn law_cancel_announces_only_a_change(
    told: bool,
    conversation_id: Option<i32>,
    changed: Option<bool>,
)
    ensures
        ({
            let steps = cancel_steps(told, conversation_id, changed);
            &&& (exists|i: int| 0 <= i < steps.len() && #[trigger] steps[i] is EmitCancelled)
                <==> told && conversation_id is Some && changed == Some(true)
            &&& steps.last() == if told {
                CancelView::Finish(Ok(()))
            } else {
                CancelView::Finish(Err(AcpErrorView::ProcessExited))
            }
        }),
{
    let steps = cancel_steps(told, conversation_id, changed);
    if told && conversation_id is Some && changed == Some(true) {
        assert(steps[1] is EmitCancelled);
    }
}

// ---------------------------------------------------------------------------
// Forking a session
// ---------------------------------------------------------------------------

/// The mark before the title of a fork.
pub const FORK_PREFIX: &'static str = "[Fork]";

/// A title without the mark of a fork.
pub open spec fn clean_title(title: Seq<char>) -> Seq<char> {
    if FORK_PREFIX@.is_prefix_of(title) {
        strip_front(title.skip(FORK_PREFIX@.len() as int), TrimSet::Whitespace)
    } else {
        title
    }
}

/// The title of a fork of a conversation with the given title.
pub open spec fn fork_title(title: Seq<char>) -> Seq<char> {
    "[Fork] "@ + clean_title(title)
}

/// What a row of the conversation table holds, as far as a fork reads it.
#[derive(Debug)]
pub struct ForkSource {
    pub folder_id: i32,
    pub title: Option<String>,
    pub agent_type: AgentType,
    pub git_branch: Option<String>,
}

/// What a fork changes in the row of the conversation.
#[derive(Debug)]
pub struct ForkedRow {
    /// The new title; `None` leaves the title as it is.
    pub title: Option<String>,
    pub external_id: String,
    pub updated_at: Stamp,
}

/// The row that keeps the conversation as it was before the fork.
#[derive(Debug)]
pub struct SiblingRow {
    pub folder_id: i32,
    pub title: Option<String>,
    pub agent_type: AgentType,
    pub status: ConversationStatus,
    pub model: Option<String>,
    pub git_branch: Option<String>,
    pub external_id: String,
    /// The conversation that this one belongs to.
    pub parent_id: Option<i32>,
    pub message_count: u32,
    pub created_at: Stamp,
    pub updated_at: Stamp,
    pub deleted_at: Option<Stamp>,
}

/// What the agent answers to a fork.
#[derive(Debug)]
pub struct ForkReply {
    pub forked_session_id: String,
    pub original_session_id: String,
}

/// What a request to fork is answered with.
#[derive(Debug)]
pub struct ForkResultInfo {
    pub forked_session_id: String,
    pub original_session_id: String,
    pub sibling_conversation_id: i32,
}

fn without_fork_prefix(title: &str) -> (r: String)
    ensures
        r@ == clean_title(title@),
{
    if starts_with(title, FORK_PREFIX) {
        proof {
            reveal_strlit("[Fork]");
        }
        let chars: Vec<char> = chars_of(title);
        let rest: &str = title.substring_char(6, chars.len());
        assert(rest@ =~= title@.skip(6));
        trim_start_of(rest, TrimSet::Whitespace).to_owned()
    } else {
        title.to_owned()
    }
}

/// The conversation that a fork needs: the one that the session is linked to.
pub fn begin_fork(conversation_id: Option<i32>) -> (r: Result<i32, AcpError>)
    ensures
        match r {
            Ok(id) => conversation_id == Some(id),
            Err(e) => conversation_id is None && e@ == AcpErrorView::Protocol(
                "fork_session requires a linked conversation row"@,
            ),
        },
{
    match conversation_id {
        Some(id) => Ok(id),
        None => Err(AcpError::protocol("fork_session requires a linked conversation row")),
    }
}

/// The answer of the agent. `told` tells whether the request reached it; `reply` is
/// `None` where the agent went away without an answer.
pub fn fork_replied(told: bool, reply: Option<Result<ForkReply, AcpError>>) -> (r: Result<
    ForkReply,
    AcpError,
>)
    ensures
        match r {
            Ok(answer) => told && reply == Some(Ok::<ForkReply, AcpError>(answer)),
            Err(e) => {
                ||| !told && e@ == AcpErrorView::ProcessExited
                ||| told && reply is None && e@ == AcpErrorView::Protocol(
                    "Fork reply channel closed"@,
                )
                ||| told && reply == Some(Err::<ForkReply, AcpError>(e))
            },
        },
{
    if !told {
        return Err(AcpError::ProcessExited);
    }
    match reply {
        None => Err(AcpError::protocol("Fork reply channel closed")),
        Some(answer) => answer,
    }
}

/// The two rows after a fork: the conversation goes on with the new session under a
/// title that is marked, and another row keeps the session as it was, for review. The
/// other row names no model and belongs to no other conversation. `now` is the time of
/// the fork.
pub fn fork_rows(current: ForkSource, reply: &ForkReply, now: Stamp) -> (r: (
    ForkedRow,
    SiblingRow,
))
    ensures
        r.0.external_id@ == reply.forked_session_id@,
        r.0.updated_at == now,
        opt_view(r.0.title) == (match current.title {
            Some(title) => Some(fork_title(title@)),
            None => None,
        }),
        r.1.folder_id == current.folder_id,
        r.1.agent_type == current.agent_type,
        r.1.git_branch == current.git_branch,
        r.1.status == ConversationStatus::PendingReview,
        r.1.external_id@ == reply.original_session_id@,
        r.1.message_count == 0,
        r.1.model is None,
        r.1.parent_id is None,
        r.1.created_at == now,
        r.1.updated_at == now,
        r.1.deleted_at is None,
        opt_view(r.1.title) == (match current.title {
            Some(title) => Some(clean_title(title@)),
            None => None,
        }),
{
    let clean: Option<String> = match &current.title {
        Some(title) => Some(without_fork_prefix(title.as_str())),
        None => None,
    };
    let marked: Option<String> = match &clean {
        Some(title) => {
            let mut out: String = "[Fork] ".to_owned();
            out.append(title.as_str());
            Some(out)
        },
        None => None,
    };
    (
        ForkedRow {
            title: marked,
            external_id: reply.forked_session_id.clone(),
            updated_at: now,
        },
        SiblingRow {
            folder_id: current.folder_id,
            title: clean,
            agent_type: current.agent_type,
            status: ConversationStatus::PendingReview,
            model: None,
            git_branch: current.git_branch,
            external_id: reply.original_session_id.clone(),
            parent_id: None,
            message_count: 0,
            created_at: now,
            updated_at: now,
            deleted_at: None,
        },
    )
}

/// What a request to fork is answered with.
pub fn fork_result(reply: ForkReply, sibling_conversation_id: i32) -> (r: ForkResultInfo)
    ensures
        r.forked_session_id@ == reply.forked_session_id@,
        r.original_session_id@ == reply.original_session_id@,
        r.sibling_conversation_id == sibling_conversation_id,
{
    ForkResultInfo {
        forked_session_id: reply.forked_session_id,
        original_session_id: reply.original_session_id,
        sibling_conversation_id,
    }
}

/// Forking a fork does not stack the mark: the title of the second fork is that of the
/// first. A title that begins with whitespace and bears no mark is left out, since the
/// second fork trims what the first left in place.
pub proof fn law_fork_mark_does_not_stack(title: Seq<char>)
    requires
        FORK_PREFIX@.is_prefix_of(title) || title.len() == 0 || !crate::text::is_whitespace(
            title[0],
        ),
    ensures
        fork_title(fork_title(title)) == fork_title(title),
        clean_title(fork_title(title)) == clean_title(title),
{
    reveal_strlit("[Fork]");
    reveal_strlit("[Fork] ");
    let once = fork_title(title);
    let clean = clean_title(title);
    assert(FORK_PREFIX@ =~= once.take(6));
    let rest = once.skip(6);
    assert(rest[0] == ' ');
    assert(rest.drop_first() =~= clean);
    assert(strip_front(rest, TrimSet::Whitespace) == strip_front(clean, TrimSet::Whitespace));
    if FORK_PREFIX@.is_prefix_of(title) {
        crate::text::lemma_strip_front(title.skip(6), TrimSet::Whitespace);
    }
    assert(strip_front(clean, TrimSet::Whitespace) == clean);
}

/// From where the prompt's conversation is looked up, these are the steps. Without one, the
/// prompt is handed over and that is all. With one, it is first noted as in progress and
/// announced so; if the agent does not take the prompt, it is noted as cancelled, and
/// announced so if that was noted. A database that does not take the first note stops the
/// prompt.
pub proof fn law_steps_once_linked(t: PromptTarget, w: PromptWorld, id: i32)
    ensures
        ({
            let steps = prompt_trace(t, w, PromptView::ReadTarget);
            &&& w.target is None && w.sent is Ok ==> steps == seq![
                PromptView::ReadTarget,
                PromptView::Send { target: None },
                PromptView::Finish(Ok(())),
            ]
            &&& w.target is None && w.sent is Err ==> steps == seq![
                PromptView::ReadTarget,
                PromptView::Send { target: None },
                PromptView::Finish(Err(w.sent->Err_0)),
            ]
            &&& w.target == Some(id) ==> {
                &&& w.in_progress_saved matches Err(e) ==> steps == seq![
                    PromptView::ReadTarget,
                    PromptView::MarkInProgress { conversation_id: id },
                    PromptView::Finish(Err(AcpErrorView::Protocol(e))),
                ]
                &&& w.in_progress_saved is Ok && w.sent is Ok ==> steps == seq![
                    PromptView::ReadTarget,
                    PromptView::MarkInProgress { conversation_id: id },
                    PromptView::EmitInProgress { conversation_id: id },
                    PromptView::Send { target: Some(id) },
                    PromptView::Finish(Ok(())),
                ]
                &&& w.in_progress_saved is Ok && w.sent is Err && w.cancelled_saved is Ok ==> steps
                    == seq![
                    PromptView::ReadTarget,
                    PromptView::MarkInProgress { conversation_id: id },
                    PromptView::EmitInProgress { conversation_id: id },
                    PromptView::Send { target: Some(id) },
                    PromptView::MarkCancelled { conversation_id: id, error: w.sent->Err_0 },
                    PromptView::EmitCancelled { conversation_id: id, error: w.sent->Err_0 },
                    PromptView::Finish(Err(w.sent->Err_0)),
                ]
                &&& w.in_progress_saved is Ok && w.sent is Err && w.cancelled_saved is Err ==> steps
                    == seq![
                    PromptView::ReadTarget,
                    PromptView::MarkInProgress { conversation_id: id },
                    PromptView::EmitInProgress { conversation_id: id },
                    PromptView::Send { target: Some(id) },
                    PromptView::MarkCancelled { conversation_id: id, error: w.sent->Err_0 },
                    PromptView::Finish(Err(w.sent->Err_0)),
                ]
            }
        }),
{
    let steps = prompt_trace(t, w, PromptView::ReadTarget);
    if w.target is None {
        let sent = PromptView::Send { target: None };
        let end = if w.sent is Ok {
            PromptView::Finish(Ok(()))
        } else {
            PromptView::Finish(Err(w.sent->Err_0))
        };
        assert(prompt_trace(t, w, end) =~= seq![end]);
        assert(prompt_trace(t, w, sent) =~= seq![sent, end]);
        assert(steps =~= seq![PromptView::ReadTarget, sent, end]);
    } else if w.target == Some(id) {
        let mark = PromptView::MarkInProgress { conversation_id: id };
        let emit = PromptView::EmitInProgress { conversation_id: id };
        let sent = PromptView::Send { target: Some(id) };
        assert(steps =~= seq![PromptView::ReadTarget] + prompt_trace(t, w, mark));
        if w.in_progress_saved is Err {
            let end = PromptView::Finish(Err(AcpErrorView::Protocol(w.in_progress_saved->Err_0)));
            assert(prompt_trace(t, w, end) =~= seq![end]);
            assert(prompt_trace(t, w, mark) =~= seq![mark, end]);
            assert(steps =~= seq![PromptView::ReadTarget, mark, end]);
        } else {
            let tail = prompt_trace(t, w, sent);
            assert(prompt_trace(t, w, emit) =~= seq![emit] + tail);
            assert(prompt_trace(t, w, mark) =~= seq![mark, emit] + tail);
            assert(steps =~= seq![PromptView::ReadTarget, mark, emit] + tail);
            if w.sent is Ok {
                let end = PromptView::Finish(Ok(()));
                assert(prompt_trace(t, w, end) =~= seq![end]);
                assert(tail =~= seq![sent, end]);
                assert(steps =~= seq![PromptView::ReadTarget, mark, emit, sent, end]);
            } else {
                let error = w.sent->Err_0;
                let end = PromptView::Finish(Err(error));
                let undo = PromptView::MarkCancelled { conversation_id: id, error };
                let tell = PromptView::EmitCancelled { conversation_id: id, error };
                assert(prompt_trace(t, w, end) =~= seq![end]);
                assert(prompt_trace(t, w, tell) =~= seq![tell, end]);
                assert(tail =~= seq![sent] + prompt_trace(t, w, undo));
                if w.cancelled_saved is Ok {
                    assert(prompt_trace(t, w, undo) =~= seq![undo, tell, end]);
                    assert(steps =~= seq![
                        PromptView::ReadTarget,
                        mark,
                        emit,
                        sent,
                        undo,
                        tell,
                        end,
                    ]);
                } else {
                    assert(prompt_trace(t, w, undo) =~= seq![undo, end]);
                    assert(steps =~= seq![PromptView::ReadTarget, mark, emit, sent, undo, end]);
                }
            }
        }
    }
}

/// The steps before: a linked session goes on at once. One that is not linked gets the
/// conversation that was named with its folder, or a new one in the folder, and that is
/// announced; without a folder, or where none can be made, the prompt stops there.
pub proof fn law_steps_of_linking(t: PromptTarget, w: PromptWorld, c: i32, f: i32)
    ensures
        w.linked ==> prompt_steps(t, w) == seq![PromptView::ReadLink] + prompt_trace(
            t,
            w,
            PromptView::ReadTarget,
        ),
        !w.linked && t.conversation_id == Some(c) && t.folder_id == Some(f) ==> prompt_steps(t, w)
            == seq![
            PromptView::ReadLink,
            PromptView::EmitLinked { conversation_id: c, folder_id: f },
        ] + prompt_trace(t, w, PromptView::ReadIds),
        !w.linked && t.conversation_id is None && t.folder_id == Some(f) && w.created == Ok::<
            i32,
            Seq<char>,
        >(c) ==> prompt_steps(t, w) == seq![
            PromptView::ReadLink,
            PromptView::CreateRow { folder_id: f },
            PromptView::EmitLinked { conversation_id: c, folder_id: f },
        ] + prompt_trace(t, w, PromptView::ReadIds),
        !w.linked && t.conversation_id is None && t.folder_id == Some(f) ==> (w.created matches Err(
            e,
        ) ==> prompt_steps(t, w) == seq![
            PromptView::ReadLink,
            PromptView::CreateRow { folder_id: f },
            PromptView::Finish(Err(AcpErrorView::Protocol(e))),
        ]),
        !w.linked && t.conversation_id is Some && t.folder_id is None ==> prompt_steps(t, w)
            == seq![
            PromptView::ReadLink,
            PromptView::Finish(
                Err(AcpErrorView::Protocol("conversation_id provided without folder_id"@)),
            ),
        ],
        !w.linked && t.conversation_id is None && t.folder_id is None ==> prompt_steps(t, w)
            == seq![
            PromptView::ReadLink,
            PromptView::Finish(
                Err(AcpErrorView::Protocol("folder_id required for new conversation row"@)),
            ),
        ],
{
    reveal_with_fuel(prompt_trace, 4);
}

/// Between linking and the prompt, the session's own id is noted with its conversation
/// where both are known, and only then; a database that does not take it stops the prompt.
pub proof fn law_session_id_is_noted(t: PromptTarget, w: PromptWorld, id: i32)
    ensures
        ({
            let steps = prompt_trace(t, w, PromptView::ReadIds);
            &&& w.ids.0 is None || !w.ids.1 ==> steps == seq![PromptView::ReadIds] + prompt_trace(
                t,
                w,
                PromptView::ReadTarget,
            )
            &&& w.ids == (Some(id), true) && w.external_id_saved is Ok ==> steps == seq![
                PromptView::ReadIds,
                PromptView::SaveExternalId { conversation_id: id },
            ] + prompt_trace(t, w, PromptView::ReadTarget)
            &&& w.ids == (Some(id), true) ==> (w.external_id_saved matches Err(e) ==> steps
                == seq![
                PromptView::ReadIds,
                PromptView::SaveExternalId { conversation_id: id },
                PromptView::Finish(Err(AcpErrorView::Protocol(e))),
            ])
        }),
{
    reveal_with_fuel(prompt_trace, 3);
}

/// The steps of a cancellation: an agent that is gone is reported; otherwise the linked
/// conversation, if there is one, is noted as cancelled where it was in progress, and
/// announced so if that changed it.
pub proof fn law_steps_of_a_cancellation(id: i32, changed: Option<bool>)
    ensures
        cancel_steps(false, Some(id), changed) == seq![
            CancelView::Finish(Err(AcpErrorView::ProcessExited)),
        ],
        cancel_steps(true, None, changed) == seq![CancelView::Finish(Ok(()))],
        cancel_steps(true, Some(id), Some(true)) == seq![
            CancelView::MarkIfInProgress { conversation_id: id },
            CancelView::EmitCancelled { conversation_id: id },
            CancelView::Finish(Ok(())),
        ],
        changed != Some(true) ==> cancel_steps(true, Some(id), changed) == seq![
            CancelView::MarkIfInProgress { conversation_id: id },
            CancelView::Finish(Ok(())),
        ],
{
}

/// The title of a fork is the title with one mark before it, and the sibling's is the title
/// without: a mark that is there goes, with the whitespace behind it, and the rest stays.
pub proof fn law_fork_titles(blank: Seq<char>, title: Seq<char>)
    requires
        forall|i: int| 0 <= i < blank.len() ==> crate::text::is_whitespace(#[trigger] blank[i]),
        title.len() == 0 || !crate::text::is_whitespace(title[0]),
    ensures
        clean_title("[Fork]"@ + blank + title) == title,
        fork_title("[Fork]"@ + blank + title) == "[Fork] "@ + title,
        !"[Fork]"@.is_prefix_of(title) ==> clean_title(title) == title && fork_title(title)
            == "[Fork] "@ + title,
{
    reveal_strlit("[Fork]");
    let marked = "[Fork]"@ + blank + title;
    assert(marked.take(6) =~= "[Fork]"@);
    assert("[Fork]"@.is_prefix_of(marked));
    assert(marked.skip(6) =~= blank + title);
    crate::text::lemma_strip_front_skips(blank, title, TrimSet::Whitespace);
}

/// A title without the mark is kept as it is, whatever it begins with otherwise.
pub proof fn law_unmarked_title_is_kept(title: Seq<char>)
    requires
        !"[Fork]"@.is_prefix_of(title),
    ensures
        clean_title(title) == title,
        fork_title(title) == "[Fork] "@ + title,
{
}


} // verus!
