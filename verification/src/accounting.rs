//! Background tasks that an agent launched, and what became of them.
use vstd::prelude::*;

use crate::json::{opt_str, Json, JsonView};
use crate::ledger::{elapsed, elapsed_nanos};
use crate::text::{
    occurs_at, opt_view, same_text, starts_with, strip_front, trim_start_of, trimmed, TrimSet,
};
use crate::transcript::{
    block_is, capture_tag, captured, content_of, is_tagged, is_untagged, is_user,
    law_element_is_read, law_missing_element_is_not_read, lemma_tag_misses, lemma_tag_misses_plain,
    lemma_tagged, message_content, text_is, user_record_text, user_text,
};

verus! {

#[derive(Clone, Copy, PartialEq, Eq, Structural, Debug)]
pub enum TaskKind {
    /// A sub-agent that runs on its own.
    Agent,
    /// A shell command in the background.
    Shell,
}

/// What is known of a task that was launched and has not settled.
#[derive(Clone, Copy, PartialEq, Eq, Structural, Debug)]
pub struct TaskEntry {
    pub kind: TaskKind,
    /// When the task was registered, on the monotonic clock in nanoseconds.
    pub started_at: u64,
}

#[derive(Debug)]
struct Task {
    id: String,
    entry: TaskEntry,
}

/// The notice that a task has ended.
#[derive(Debug)]
pub struct BackgroundSettledInfo {
    pub task_id: String,
    pub status: String,
    pub summary: Option<String>,
}

/// The model of a [`BackgroundSettledInfo`].
pub struct Settlement {
    pub task_id: Seq<char>,
    pub status: Seq<char>,
    pub summary: Option<Seq<char>>,
}

impl View for BackgroundSettledInfo {
    type V = Settlement;

    open spec fn view(&self) -> Settlement {
        Settlement {
            task_id: self.task_id@,
            status: self.status@,
            summary: opt_view(self.summary),
        }
    }
}

/// The tasks that are outstanding, and the ids of those that have settled.
#[derive(Debug)]
pub struct Accounting {
    tasks: Vec<Task>,
    settled: Vec<String>,
}

/// The model of an [`Accounting`].
#[verifier::ext_equal]
pub struct AccountingView {
    pub tasks: Map<Seq<char>, TaskEntry>,
    pub settled: Set<Seq<char>>,
}

spec fn task_ids(tasks: Seq<Task>) -> Seq<Seq<char>> {
    tasks.map_values(|t: Task| t.id@)
}

spec fn settled_ids(settled: Seq<String>) -> Seq<Seq<char>> {
    settled.map_values(|s: String| s@)
}

spec fn task_map(tasks: Seq<Task>) -> Map<Seq<char>, TaskEntry> {
    Map::new(
        |id: Seq<char>| task_ids(tasks).contains(id),
        |id: Seq<char>| tasks[task_ids(tasks).index_of(id)].entry,
    )
}

impl View for Accounting {
    type V = AccountingView;

    closed spec fn view(&self) -> AccountingView {
        AccountingView {
            tasks: task_map(self.tasks@),
            settled: settled_ids(self.settled@).to_set(),
        }
    }
}

proof fn lemma_task_lookup(tasks: Seq<Task>, i: int)
    requires
        task_ids(tasks).no_duplicates(),
        0 <= i < tasks.len(),
    ensures
        task_ids(tasks)[i] == tasks[i].id@,
        task_ids(tasks).contains(tasks[i].id@),
        task_map(tasks).dom().contains(tasks[i].id@),
        task_map(tasks)[tasks[i].id@] == tasks[i].entry,
{
    let ids = task_ids(tasks);
    assert(ids[i] == tasks[i].id@);
    let k = ids.index_of(tasks[i].id@);
    assert(ids.contains(tasks[i].id@));
    assert(ids[k] == ids[i]);
    assert(k == i);
}

proof fn lemma_task_pushed(tasks: Seq<Task>, task: Task)
    requires
        task_ids(tasks).no_duplicates(),
        !task_ids(tasks).contains(task.id@),
    ensures
        task_ids(tasks.push(task)).no_duplicates(),
        task_map(tasks.push(task)) == task_map(tasks).insert(task.id@, task.entry),
{
    let after = tasks.push(task);
    let ids = task_ids(tasks);
    let new_ids = task_ids(after);
    assert(new_ids =~= ids.push(task.id@));
    assert forall|i: int, j: int| 0 <= i < new_ids.len() && 0 <= j < new_ids.len() && i
        != j implies new_ids[i] != new_ids[j] by {
        if i < ids.len() && j < ids.len() {
            assert(ids[i] != ids[j]);
        } else if i < ids.len() {
            assert(ids.contains(ids[i]));
        } else {
            assert(ids.contains(ids[j]));
        }
    }
    assert forall|id: Seq<char>| #[trigger]
        task_map(after).dom().contains(id) <==> task_map(tasks).insert(
            task.id@,
            task.entry,
        ).dom().contains(id) by {
        if new_ids.contains(id) {
            let i = choose|i: int| 0 <= i < new_ids.len() && new_ids[i] == id;
            if i < ids.len() {
                assert(ids[i] == id);
            }
        }
        if ids.contains(id) {
            let i = choose|i: int| 0 <= i < ids.len() && ids[i] == id;
            assert(new_ids[i] == id);
        }
        if id == task.id@ {
            assert(new_ids[ids.len() as int] == id);
        }
    }
    assert forall|id: Seq<char>| #[trigger] task_map(after).dom().contains(id) implies task_map(
        after,
    )[id] == task_map(tasks).insert(task.id@, task.entry)[id] by {
        let i = choose|i: int| 0 <= i < new_ids.len() && new_ids[i] == id;
        lemma_task_lookup(after, i);
        if i < ids.len() {
            lemma_task_lookup(tasks, i);
            assert(id != task.id@);
        }
    }
    assert(task_map(after) =~= task_map(tasks).insert(task.id@, task.entry));
}

proof fn lemma_task_removed(tasks: Seq<Task>, at: int)
    requires
        task_ids(tasks).no_duplicates(),
        0 <= at < tasks.len(),
    ensures
        task_ids(tasks.remove(at)).no_duplicates(),
        task_map(tasks.remove(at)) == task_map(tasks).remove(tasks[at].id@),
{
    let after = tasks.remove(at);
    let ids = task_ids(tasks);
    let new_ids = task_ids(after);
    let gone = tasks[at].id@;
    assert(new_ids =~= ids.remove(at));
    assert(ids[at] == gone);
    assert forall|i: int, j: int| 0 <= i < new_ids.len() && 0 <= j < new_ids.len() && i
        != j implies new_ids[i] != new_ids[j] by {
        let p = if i < at {
            i
        } else {
            i + 1
        };
        let q = if j < at {
            j
        } else {
            j + 1
        };
        assert(ids[p] != ids[q]);
    }
    assert forall|id: Seq<char>| #[trigger] task_map(after).dom().contains(id) <==> task_map(
        tasks,
    ).remove(gone).dom().contains(id) by {
        if new_ids.contains(id) {
            let i = choose|i: int| 0 <= i < new_ids.len() && new_ids[i] == id;
            let p = if i < at {
                i
            } else {
                i + 1
            };
            assert(ids[p] == id);
            assert(ids[p] != ids[at]);
        }
        if ids.contains(id) && id != gone {
            let p = choose|p: int| 0 <= p < ids.len() && ids[p] == id;
            let i = if p < at {
                p
            } else {
                p - 1
            };
            assert(new_ids[i] == id);
        }
    }
    assert forall|id: Seq<char>| #[trigger] task_map(after).dom().contains(id) implies task_map(
        after,
    )[id] == task_map(tasks).remove(gone)[id] by {
        let i = choose|i: int| 0 <= i < new_ids.len() && new_ids[i] == id;
        let p = if i < at {
            i
        } else {
            i + 1
        };
        lemma_task_lookup(after, i);
        lemma_task_lookup(tasks, p);
        assert(ids[p] != ids[at]);
    }
    assert(task_map(after) =~= task_map(tasks).remove(gone));
}

proof fn lemma_task_absent(tasks: Seq<Task>, id: Seq<char>)
    requires
        forall|k: int| 0 <= k < tasks.len() ==> (#[trigger] tasks[k]).id@ != id,
    ensures
        !task_ids(tasks).contains(id),
        !task_map(tasks).dom().contains(id),
        task_map(tasks).remove(id) == task_map(tasks),
{
    if task_ids(tasks).contains(id) {
        let i = choose|i: int| 0 <= i < task_ids(tasks).len() && task_ids(tasks)[i] == id;
        assert(tasks[i].id@ == id);
    }
    assert(task_map(tasks).remove(id) =~= task_map(tasks));
}

// ---------------------------------------------------------------------------
// What a record says of tasks
// ---------------------------------------------------------------------------

/// `text`, unless it is empty.
pub open spec fn not_empty(text: Option<Seq<char>>) -> Option<Seq<char>> {
    match text {
        Some(s) => if s.len() > 0 {
            Some(s)
        } else {
            None
        },
        None => None,
    }
}

/// The task that a user record reports as launched.
pub open spec fn launched(record: JsonView) -> Option<(Seq<char>, TaskKind)> {
    match record.member("toolUseResult"@) {
        None => None,
        Some(result) => if result.text_member("status"@) == Some("async_launched"@) {
            match not_empty(result.text_member("agentId"@)) {
                Some(id) => Some((id, TaskKind::Agent)),
                None => None,
            }
        } else {
            match not_empty(result.text_member("backgroundTaskId"@)) {
                Some(id) => Some((id, TaskKind::Shell)),
                None => None,
            }
        },
    }
}

/// The notice in a text that a task has ended. Without a status it counts as
/// completed.
pub open spec fn notice_in(text: Seq<char>) -> Option<Settlement> {
    let body = strip_front(text, TrimSet::Whitespace);
    if "<task-notification>"@.is_prefix_of(body) {
        match captured(body, "<task-id>"@, "</task-id>"@) {
            Some(task_id) => Some(
                Settlement {
                    task_id,
                    status: match captured(body, "<status>"@, "</status>"@) {
                        Some(status) => status,
                        None => "completed"@,
                    },
                    summary: captured(body, "<summary>"@, "</summary>"@),
                },
            ),
            None => None,
        }
    } else {
        None
    }
}

/// The notice in a record that a task has ended.
pub open spec fn settlement(record: JsonView) -> Option<Settlement> {
    match user_text(record) {
        Some(text) => notice_in(text),
        None => None,
    }
}

/// The sub-agent that a block of an assistant record sends a message to.
pub open spec fn messaged(block: JsonView) -> Option<Seq<char>> {
    if block_is(block, "tool_use"@) && block.text_member("name"@) == Some("SendMessage"@) {
        match block.member("input"@) {
            Some(input) => input.text_member("to"@),
            None => None,
        }
    } else {
        None
    }
}

impl AccountingView {
    /// No task, and none settled.
    pub open spec fn empty() -> AccountingView {
        AccountingView { tasks: Map::empty(), settled: Set::empty() }
    }

    /// After the task `id` was registered at `now`.
    pub open spec fn with_task(self, id: Seq<char>, kind: TaskKind, now: u64) -> AccountingView {
        AccountingView {
            tasks: self.tasks.insert(id, TaskEntry { kind, started_at: now }),
            settled: self.settled,
        }
    }

    /// After the task `id` has ended.
    pub open spec fn with_settled(self, id: Seq<char>) -> AccountingView {
        AccountingView { tasks: self.tasks.remove(id), settled: self.settled.insert(id) }
    }

    /// After a message to `id` at `now`: a settled sub-agent runs again.
    pub open spec fn with_message(self, id: Seq<char>, now: u64) -> AccountingView {
        if self.settled.contains(id) {
            AccountingView {
                tasks: self.tasks.insert(id, TaskEntry { kind: TaskKind::Agent, started_at: now }),
                settled: self.settled.remove(id),
            }
        } else {
            self
        }
    }

    /// After the messages in `blocks`.
    pub open spec fn with_messages(self, blocks: Seq<JsonView>, now: u64) -> AccountingView
        decreases blocks.len(),
    {
        if blocks.len() == 0 {
            self
        } else {
            let before = self.with_messages(blocks.drop_last(), now);
            match messaged(blocks.last()) {
                Some(id) => before.with_message(id, now),
                None => before,
            }
        }
    }

    /// After a transcript record.
    pub open spec fn after(self, record: JsonView, now: u64) -> AccountingView {
        if is_user(record) {
            let started = match launched(record) {
                Some((id, kind)) => self.with_task(id, kind, now),
                None => self,
            };
            match settlement(record) {
                Some(s) => started.with_settled(s.task_id),
                None => started,
            }
        } else if record.text_member("type"@) == Some("assistant"@) {
            match message_content(record) {
                Some(JsonView::Array(blocks)) => self.with_messages(blocks, now),
                _ => self,
            }
        } else {
            self
        }
    }

    /// The task is no older than `max_age` at `now`.
    pub open spec fn young(self, id: Seq<char>, now: u64, max_age: u64) -> bool {
        self.tasks.dom().contains(id) && elapsed(now, self.tasks[id].started_at) < max_age
    }

    /// Without the tasks that have reached `max_age` at `now`.
    pub open spec fn expired(self, now: u64, max_age: u64) -> AccountingView {
        AccountingView {
            tasks: self.tasks.restrict(
                Set::new(|id: Seq<char>| self.young(id, now, max_age)),
            ),
            settled: self.settled,
        }
    }
}

/// `settled` with the notice of `record`, if it holds one.
pub open spec fn with_notice(settled: Seq<Settlement>, record: JsonView) -> Seq<Settlement> {
    match settlement(record) {
        Some(s) => settled.push(s),
        None => settled,
    }
}

/// The model of a list of notices.
pub open spec fn settlements(list: Seq<BackgroundSettledInfo>) -> Seq<Settlement> {
    list.map_values(|s: BackgroundSettledInfo| s@)
}

fn non_empty_text<'a>(value: Option<&'a str>) -> (r: Option<&'a str>)
    ensures
        opt_str(r) == not_empty(opt_str(value)),
{
    match value {
        Some(s) => {
            if s.is_empty() {
                None
            } else {
                Some(s)
            }
        },
        None => None,
    }
}

/// The notice in a text that a task has ended.
pub fn settled_notice(text: &str) -> (r: Option<BackgroundSettledInfo>)
    ensures
        match r {
            Some(s) => notice_in(text@) == Some(s@),
            None => notice_in(text@) is None,
        },
{
    let body: &str = trim_start_of(text, TrimSet::Whitespace);
    if !starts_with(body, "<task-notification>") {
        return None;
    }
    match capture_tag(body, "<task-id>", "</task-id>") {
        Some(task_id) => {
            let status: String = match capture_tag(body, "<status>", "</status>") {
                Some(status) => status,
                None => "completed".to_owned(),
            };
            let summary: Option<String> = capture_tag(body, "<summary>", "</summary>");
            Some(BackgroundSettledInfo { task_id, status, summary })
        },
        None => None,
    }
}

/// The sub-agent that a block sends a message to.
fn message_target(block: &Json) -> (r: Option<&str>)
    ensures
        opt_str(r) == messaged(block@),
{
    if !text_is(block.get_str("type"), "tool_use") {
        return None;
    }
    if !text_is(block.get_str("name"), "SendMessage") {
        return None;
    }
    match block.get("input") {
        Some(input) => input.get_str("to"),
        None => None,
    }
}

impl Accounting {
    /// No id stands twice.
    pub closed spec fn wf(&self) -> bool {
        task_ids(self.tasks@).no_duplicates() && settled_ids(self.settled@).no_duplicates()
    }

    pub fn new() -> (r: Accounting)
        ensures
            r.wf(),
            r@ == AccountingView::empty(),
    {
        let r = Accounting { tasks: Vec::new(), settled: Vec::new() };
        assert(r@.tasks =~= Map::<Seq<char>, TaskEntry>::empty());
        assert(r@.settled =~= Set::<Seq<char>>::empty());
        r
    }

    /// The number of tasks that are outstanding.
    pub fn task_count(&self) -> (n: usize)
        requires
            self.wf(),
        ensures
            n == self@.tasks.dom().len(),
            self@.tasks.dom().finite(),
            n == 0 <==> self@.tasks == Map::<Seq<char>, TaskEntry>::empty(),
    {
        proof {
            let ids = task_ids(self.tasks@);
            ids.unique_seq_to_set();
            assert(self@.tasks.dom() =~= ids.to_set());
            vstd::seq_lib::seq_to_set_is_finite(ids);
            if self.tasks.len() == 0 {
                assert(self@.tasks =~= Map::<Seq<char>, TaskEntry>::empty());
            } else {
                assert(ids.contains(ids[0]));
                assert(self@.tasks.dom().contains(ids[0]));
            }
        }
        self.tasks.len()
    }

    fn find_task(&self, id: &str) -> (r: Option<usize>)
        requires
            self.wf(),
        ensures
            match r {
                Some(i) => i < self.tasks@.len() && self.tasks@[i as int].id@ == id@,
                None => forall|k: int|
                    0 <= k < self.tasks@.len() ==> (#[trigger] self.tasks@[k]).id@ != id@,
            },
    {
        let mut i: usize = 0;
        while i < self.tasks.len()
            invariant
                i <= self.tasks@.len(),
                forall|k: int| 0 <= k < i ==> (#[trigger] self.tasks@[k]).id@ != id@,
            decreases self.tasks.len() - i,
        {
            if same_text(self.tasks[i].id.as_str(), id) {
                return Some(i);
            }
            i = i + 1;
        }
        None
    }

    fn remove_task(&mut self, id: &str)
        requires
            old(self).wf(),
        ensures
            final(self).wf(),
            final(self)@.tasks == old(self)@.tasks.remove(id@),
            final(self)@.settled == old(self)@.settled,
    {
        match self.find_task(id) {
            Some(i) => {
                proof {
                    lemma_task_removed(self.tasks@, i as int);
                }
                self.tasks.remove(i);
            },
            None => {
                proof {
                    lemma_task_absent(self.tasks@, id@);
                }
            },
        }
    }

    fn insert_task(&mut self, id: &str, kind: TaskKind, now: u64)
        requires
            old(self).wf(),
        ensures
            final(self).wf(),
            final(self)@ == old(self)@.with_task(id@, kind, now),
    {
        let ghost before = self@.tasks;
        self.remove_task(id);
        let entry = TaskEntry { kind, started_at: now };
        let task = Task { id: id.to_owned(), entry };
        proof {
            assert(!self@.tasks.dom().contains(id@));
            assert(!task_ids(self.tasks@).contains(id@));
            lemma_task_pushed(self.tasks@, task);
            assert(before.remove(id@).insert(id@, entry) =~= before.insert(id@, entry));
        }
        self.tasks.push(task);
    }

    fn find_settled(&self, id: &str) -> (r: Option<usize>)
        requires
            self.wf(),
        ensures
            match r {
                Some(i) => i < self.settled@.len() && self.settled@[i as int]@ == id@
                    && self@.settled.contains(id@),
                None => !self@.settled.contains(id@),
            },
    {
        let ghost ids = settled_ids(self.settled@);
        let mut i: usize = 0;
        while i < self.settled.len()
            invariant
                i <= self.settled@.len(),
                ids == settled_ids(self.settled@),
                forall|k: int| 0 <= k < i ==> #[trigger] ids[k] != id@,
            decreases self.settled.len() - i,
        {
            assert(ids[i as int] == self.settled@[i as int]@);
            if same_text(self.settled[i].as_str(), id) {
                assert(ids.contains(id@));
                return Some(i);
            }
            i = i + 1;
        }
        None
    }

    fn insert_settled(&mut self, id: &str)
        requires
            old(self).wf(),
        ensures
            final(self).wf(),
            final(self)@.tasks == old(self)@.tasks,
            final(self)@.settled == old(self)@.settled.insert(id@),
    {
        match self.find_settled(id) {
            Some(_) => {
                assert(self@.settled.insert(id@) =~= self@.settled);
            },
            None => {
                let ghost ids = settled_ids(self.settled@);
                let entry: String = id.to_owned();
                self.settled.push(entry);
                proof {
                    let new_ids = settled_ids(self.settled@);
                    assert(new_ids =~= ids.push(id@));
                    assert(!ids.contains(id@));
                    assert forall|i: int, j: int|
                        0 <= i < new_ids.len() && 0 <= j < new_ids.len() && i
                            != j implies new_ids[i] != new_ids[j] by {
                        if i < ids.len() {
                            assert(ids.contains(ids[i]));
                        }
                        if j < ids.len() {
                            assert(ids.contains(ids[j]));
                        }
                    }
                    assert forall|x: Seq<char>| new_ids.contains(x) <==> ids.contains(x) || x
                        == id@ by {
                        if ids.contains(x) {
                            let k = choose|k: int| 0 <= k < ids.len() && ids[k] == x;
                            assert(new_ids[k] == x);
                        }
                        if x == id@ {
                            assert(new_ids[ids.len() as int] == x);
                        }
                    }
                    assert(self@.settled =~= old(self)@.settled.insert(id@));
                }
            },
        }
    }

    /// Takes `id` out of the settled ids; whether it was there.
    fn remove_settled(&mut self, id: &str) -> (r: bool)
        requires
            old(self).wf(),
        ensures
            final(self).wf(),
            r == old(self)@.settled.contains(id@),
            final(self)@.tasks == old(self)@.tasks,
            final(self)@.settled == old(self)@.settled.remove(id@),
    {
        match self.find_settled(id) {
            Some(at) => {
                let ghost ids = settled_ids(self.settled@);
                self.settled.remove(at);
                proof {
                    let new_ids = settled_ids(self.settled@);
                    assert(new_ids =~= ids.remove(at as int));
                    assert(ids[at as int] == id@);
                    assert forall|i: int, j: int|
                        0 <= i < new_ids.len() && 0 <= j < new_ids.len() && i
                            != j implies new_ids[i] != new_ids[j] by {
                        let p = if i < at {
                            i
                        } else {
                            i + 1
                        };
                        let q = if j < at {
                            j
                        } else {
                            j + 1
                        };
                        assert(ids[p] != ids[q]);
                    }
                    assert forall|x: Seq<char>| new_ids.contains(x) <==> ids.contains(x) && x
                        != id@ by {
                        if new_ids.contains(x) {
                            let i = choose|i: int| 0 <= i < new_ids.len() && new_ids[i] == x;
                            let p = if i < at {
                                i
                            } else {
                                i + 1
                            };
                            assert(ids[p] == x);
                            assert(ids[p] != ids[at as int]);
                        }
                        if ids.contains(x) && x != id@ {
                            let p = choose|p: int| 0 <= p < ids.len() && ids[p] == x;
                            let i = if p < at {
                                p
                            } else {
                                p - 1
                            };
                            assert(new_ids[i] == x);
                        }
                    }
                    assert(self@.settled =~= old(self)@.settled.remove(id@));
                }
                true
            },
            None => {
                assert(self@.settled.remove(id@) =~= self@.settled);
                false
            },
        }
    }

    /// Registers the task that a user record reports as launched.
    fn account_launch(&mut self, record: &Json, now: u64)
        requires
            old(self).wf(),
        ensures
            final(self).wf(),
            final(self)@ == (match launched(record@) {
                Some((id, kind)) => old(self)@.with_task(id, kind, now),
                None => old(self)@,
            }),
    {
        match record.get("toolUseResult") {
            Some(result) => {
                if text_is(result.get_str("status"), "async_launched") {
                    match non_empty_text(result.get_str("agentId")) {
                        Some(id) => {
                            self.insert_task(id, TaskKind::Agent, now);
                        },
                        None => {},
                    }
                } else {
                    match non_empty_text(result.get_str("backgroundTaskId")) {
                        Some(id) => {
                            self.insert_task(id, TaskKind::Shell, now);
                        },
                        None => {},
                    }
                }
            },
            None => {},
        }
    }

    /// Runs settled sub-agents again that a message is sent to.
    fn account_messages(&mut self, blocks: &Vec<Json>, now: u64)
        requires
            old(self).wf(),
        ensures
            final(self).wf(),
            final(self)@ == old(self)@.with_messages(blocks@.map_values(|j: Json| j@), now),
    {
        let ghost views = blocks@.map_values(|j: Json| j@);
        let mut i: usize = 0;
        while i < blocks.len()
            invariant
                i <= blocks@.len(),
                self.wf(),
                views == blocks@.map_values(|j: Json| j@),
                self@ == old(self)@.with_messages(views.take(i as int), now),
            decreases blocks.len() - i,
        {
            proof {
                assert(views.take(i + 1).drop_last() =~= views.take(i as int));
                assert(views.take(i + 1).last() == blocks@[i as int]@);
            }
            let ghost was = self@;
            match message_target(&blocks[i]) {
                Some(to) => {
                    if self.remove_settled(to) {
                        self.insert_task(to, TaskKind::Agent, now);
                    }
                    assert(self@ =~= was.with_message(to@, now));
                },
                None => {},
            }
            i = i + 1;
        }
        assert(views.take(i as int) =~= views);
    }

    /// Takes a transcript record into account: tasks that it reports as launched or
    /// ended, and messages that run a settled sub-agent again. The notice that a task
    /// has ended goes to the end of `settled`.
    pub fn account(
        &mut self,
        record: &Json,
        now: u64,
        settled: &mut Vec<BackgroundSettledInfo>,
    )
        requires
            old(self).wf(),
        ensures
            final(self).wf(),
            final(self)@ == old(self)@.after(record@, now),
            settlements(final(settled)@) == with_notice(settlements(old(settled)@), record@),
    {
        if text_is(record.get_str("type"), "user") {
            self.account_launch(record, now);
            match user_record_text(record) {
                Some(text) => {
                    match settled_notice(text.as_str()) {
                        Some(info) => {
                            self.remove_task(info.task_id.as_str());
                            self.insert_settled(info.task_id.as_str());
                            settled.push(info);
                            assert(settlements(settled@) =~= settlements(old(settled)@).push(info@));
                        },
                        None => {},
                    }
                },
                None => {},
            }
        } else if text_is(record.get_str("type"), "assistant") {
            match content_of(record) {
                Some(content) => {
                    match content.as_array() {
                        Some(blocks) => {
                            self.account_messages(blocks, now);
                        },
                        None => {},
                    }
                },
                None => {},
            }
        }
    }

    /// Drops the tasks that have reached `max_age`; whether there were any.
    pub fn expire(&mut self, now: u64, max_age: u64) -> (r: bool)
        requires
            old(self).wf(),
        ensures
            final(self).wf(),
            final(self)@ == old(self)@.expired(now, max_age),
            r == (final(self)@.tasks != old(self)@.tasks),
    {
        let ghost start = self@;
        let mut any = false;
        let mut i: usize = 0;
        while i < self.tasks.len()
            invariant
                i <= self.tasks@.len(),
                self.wf(),
                start == old(self)@,
                self@.settled == start.settled,
                forall|id: Seq<char>| #[trigger]
                    self@.tasks.dom().contains(id) ==> start.tasks.dom().contains(id)
                        && start.tasks[id] == self@.tasks[id],
                forall|id: Seq<char>|
                    #![trigger start.tasks.dom().contains(id)]
                    start.young(id, now, max_age) ==> self@.tasks.dom().contains(id),
                forall|k: int|
                    0 <= k < i ==> elapsed(
                        now,
                        (#[trigger] self.tasks@[k]).entry.started_at,
                    ) < max_age,
                any ==> exists|id: Seq<char>| #[trigger]
                    start.tasks.dom().contains(id) && !self@.tasks.dom().contains(id),
                !any ==> self@.tasks == start.tasks,
            decreases self.tasks.len() - i,
        {
            proof {
                lemma_task_lookup(self.tasks@, i as int);
            }
            if elapsed_nanos(now, self.tasks[i].entry.started_at) < max_age {
                i = i + 1;
            } else {
                let ghost gone = self.tasks@[i as int].id@;
                let ghost was = self@.tasks;
                proof {
                    lemma_task_removed(self.tasks@, i as int);
                    assert(start.tasks.dom().contains(gone));
                }
                self.tasks.remove(i);
                proof {
                    assert(self@.tasks == was.remove(gone));
                    assert(!self@.tasks.dom().contains(gone));
                    assert forall|id: Seq<char>|
                        #![trigger start.tasks.dom().contains(id)]
                        start.young(id, now, max_age) implies self@.tasks.dom().contains(id) by {
                        assert(was.dom().contains(id));
                        assert(id != gone);
                    }
                }
                any = true;
            }
        }
        proof {
            let end = start.expired(now, max_age);
            assert forall|id: Seq<char>| #[trigger] self@.tasks.dom().contains(id) implies
                start.young(id, now, max_age) by {
                let ids = task_ids(self.tasks@);
                let k = choose|k: int| 0 <= k < ids.len() && ids[k] == id;
                lemma_task_lookup(self.tasks@, k);
                assert(self.tasks@[k].id@ == id);
            }
            assert(self@.tasks =~= end.tasks);
            assert(self@ =~= end);
        }
        any
    }
}

/// A task that was launched is outstanding until its end is noticed, and then settled.
pub proof fn law_launched_task_settles(
    a: AccountingView,
    launch: JsonView,
    end: JsonView,
    id: Seq<char>,
    started: u64,
    ended: u64,
)
    requires
        is_user(launch),
        launched(launch) matches Some(t) && t.0 == id,
        settlement(launch) is None,
        settlement(end) matches Some(s) && s.task_id == id,
    ensures
        a.after(launch, started).tasks.dom().contains(id),
        !a.after(launch, started).after(end, ended).tasks.dom().contains(id),
        a.after(launch, started).after(end, ended).settled.contains(id),
{
}

/// A settled sub-agent that a message is sent to is outstanding again, as if launched
/// at that moment; a message to another changes nothing.
pub proof fn law_message_rearms_settled_task(a: AccountingView, id: Seq<char>, now: u64)
    ensures
        a.settled.contains(id) ==> a.with_message(id, now).tasks.dom().contains(id)
            && a.with_message(id, now).tasks[id].started_at == now && !a.with_message(
            id,
            now,
        ).settled.contains(id),
        !a.settled.contains(id) ==> a.with_message(id, now) == a,
{
}

/// A task whose end is never noticed does not stay outstanding for ever.
pub proof fn law_old_task_expires(a: AccountingView, id: Seq<char>, now: u64, max_age: u64)
    requires
        a.tasks.dom().contains(id),
        elapsed(now, a.tasks[id].started_at) >= max_age,
    ensures
        !a.expired(now, max_age).tasks.dom().contains(id),
{
}

proof fn lemma_tag_task_notification()
    ensures
        is_tagged("<task-notification>"@),
        "<task-notification>"@.len() == 19,
        "<task-notification>"@[1] == 't',
        "<task-notification>"@[2] == 'a',
        "<task-notification>"@[6] == 'n',
{
    reveal_strlit("<task-notification>");
    let tag = "<task-notification>"@;
    assert forall|i: int| 0 < i < tag.len() implies #[trigger] tag[i] != '<' by {
        assert(i == 1
            || i == 2
            || i == 3
            || i == 4
            || i == 5
            || i == 6
            || i == 7
            || i == 8
            || i == 9
            || i == 10
            || i == 11
            || i == 12
            || i == 13
            || i == 14
            || i == 15
            || i == 16
            || i == 17
            || i == 18);
    }
}

proof fn lemma_tag_end_task_notification()
    ensures
        is_tagged("</task-notification>"@),
        "</task-notification>"@.len() == 20,
        "</task-notification>"@[1] == '/',
        "</task-notification>"@[2] == 't',
        "</task-notification>"@[6] == '-',
{
    reveal_strlit("</task-notification>");
    let tag = "</task-notification>"@;
    assert forall|i: int| 0 < i < tag.len() implies #[trigger] tag[i] != '<' by {
        assert(i == 1
            || i == 2
            || i == 3
            || i == 4
            || i == 5
            || i == 6
            || i == 7
            || i == 8
            || i == 9
            || i == 10
            || i == 11
            || i == 12
            || i == 13
            || i == 14
            || i == 15
            || i == 16
            || i == 17
            || i == 18
            || i == 19);
    }
}

proof fn lemma_tag_task_id()
    ensures
        is_tagged("<task-id>"@),
        "<task-id>"@.len() == 9,
        "<task-id>"@[1] == 't',
        "<task-id>"@[2] == 'a',
        "<task-id>"@[6] == 'i',
{
    reveal_strlit("<task-id>");
    let tag = "<task-id>"@;
    assert forall|i: int| 0 < i < tag.len() implies #[trigger] tag[i] != '<' by {
        assert(i == 1
            || i == 2
            || i == 3
            || i == 4
            || i == 5
            || i == 6
            || i == 7
            || i == 8);
    }
}

proof fn lemma_tag_end_task_id()
    ensures
        is_tagged("</task-id>"@),
        "</task-id>"@.len() == 10,
        "</task-id>"@[1] == '/',
        "</task-id>"@[2] == 't',
        "</task-id>"@[6] == '-',
{
    reveal_strlit("</task-id>");
    let tag = "</task-id>"@;
    assert forall|i: int| 0 < i < tag.len() implies #[trigger] tag[i] != '<' by {
        assert(i == 1
            || i == 2
            || i == 3
            || i == 4
            || i == 5
            || i == 6
            || i == 7
            || i == 8
            || i == 9);
    }
}

proof fn lemma_tag_status()
    ensures
        is_tagged("<status>"@),
        "<status>"@.len() == 8,
        "<status>"@[1] == 's',
        "<status>"@[2] == 't',
        "<status>"@[6] == 's',
{
    reveal_strlit("<status>");
    let tag = "<status>"@;
    assert forall|i: int| 0 < i < tag.len() implies #[trigger] tag[i] != '<' by {
        assert(i == 1
            || i == 2
            || i == 3
            || i == 4
            || i == 5
            || i == 6
            || i == 7);
    }
}

proof fn lemma_tag_end_status()
    ensures
        is_tagged("</status>"@),
        "</status>"@.len() == 9,
        "</status>"@[1] == '/',
        "</status>"@[2] == 's',
        "</status>"@[6] == 'u',
{
    reveal_strlit("</status>");
    let tag = "</status>"@;
    assert forall|i: int| 0 < i < tag.len() implies #[trigger] tag[i] != '<' by {
        assert(i == 1
            || i == 2
            || i == 3
            || i == 4
            || i == 5
            || i == 6
            || i == 7
            || i == 8);
    }
}

proof fn lemma_tag_summary()
    ensures
        is_tagged("<summary>"@),
        "<summary>"@.len() == 9,
        "<summary>"@[1] == 's',
        "<summary>"@[2] == 'u',
        "<summary>"@[6] == 'r',
{
    reveal_strlit("<summary>");
    let tag = "<summary>"@;
    assert forall|i: int| 0 < i < tag.len() implies #[trigger] tag[i] != '<' by {
        assert(i == 1
            || i == 2
            || i == 3
            || i == 4
            || i == 5
            || i == 6
            || i == 7
            || i == 8);
    }
}

proof fn lemma_tag_end_summary()
    ensures
        is_tagged("</summary>"@),
        "</summary>"@.len() == 10,
        "</summary>"@[1] == '/',
        "</summary>"@[2] == 's',
        "</summary>"@[6] == 'a',
{
    reveal_strlit("</summary>");
    let tag = "</summary>"@;
    assert forall|i: int| 0 < i < tag.len() implies #[trigger] tag[i] != '<' by {
        assert(i == 1
            || i == 2
            || i == 3
            || i == 4
            || i == 5
            || i == 6
            || i == 7
            || i == 8
            || i == 9);
    }
}


/// A notification with an id and a status, and untagged text between its parts, names that
/// id and that status, without whitespace around them, and no summary. A blank status
/// counts as `completed`, and a blank id makes it none.
#[verifier::rlimit(40)]
#[verifier::spinoff_prover]
pub proof fn law_notice_names_its_task_and_status(
    lead: Seq<char>,
    w1: Seq<char>,
    id: Seq<char>,
    w2: Seq<char>,
    status: Seq<char>,
    w3: Seq<char>,
)
    requires
        forall|i: int| 0 <= i < lead.len() ==> crate::text::is_whitespace(#[trigger] lead[i]),
        is_untagged(w1),
        is_untagged(id),
        is_untagged(w2),
        is_untagged(status),
        is_untagged(w3),
    ensures
        ({
            let text = lead + ("<task-notification>"@ + w1) + ("<task-id>"@ + id) + ("</task-id>"@
                + w2) + ("<status>"@ + status) + ("</status>"@ + w3) + "</task-notification>"@;
            &&& trimmed(id).len() == 0 ==> notice_in(text) is None
            &&& trimmed(id).len() > 0 ==> notice_in(text) == Some(
                Settlement {
                    task_id: trimmed(id),
                    status: if trimmed(status).len() > 0 {
                        trimmed(status)
                    } else {
                        "completed"@
                    },
                    summary: None,
                },
            )
        }),
{
    lemma_tag_task_notification();
    lemma_tag_end_task_notification();
    lemma_tag_task_id();
    lemma_tag_end_task_id();
    lemma_tag_status();
    lemma_tag_end_status();
    lemma_tag_summary();
    let none = Seq::<char>::empty();
    let p1 = "<task-notification>"@ + w1;
    let p2 = "<task-id>"@ + id;
    let p3 = "</task-id>"@ + w2;
    let p4 = "<status>"@ + status;
    let p5 = "</status>"@ + w3;
    let p6 = "</task-notification>"@;
    lemma_tagged("<task-notification>"@, w1);
    lemma_tagged("<task-id>"@, id);
    lemma_tagged("</task-id>"@, w2);
    lemma_tagged("<status>"@, status);
    lemma_tagged("</status>"@, w3);
    let text = lead + p1 + p2 + p3 + p4 + p5 + p6;
    let body = p1 + p2 + p3 + p4 + p5 + p6;
    lemma_body_of_notice(lead, body, text);
    assert(body.take("<task-notification>"@.len() as int) =~= "<task-notification>"@);
    assert("<task-notification>"@.is_prefix_of(body));
    let head = p1 + p2 + p3;
    // The id.
    assert(captured(body, "<task-id>"@, "</task-id>"@) == if trimmed(id).len() > 0 {
        Some(trimmed(id))
    } else {
        None
    }) by {
        let t = "<task-id>"@;
        assert(none + p1 + (p2 + p3 + p4 + p5 + p6) =~= body);
        lemma_tag_misses(none, p1, p2 + p3 + p4 + p5 + p6, t, 6);
        assert((p1 + t) + id + (p3 + p4 + p5 + p6) =~= body);
        lemma_tag_misses_plain(p1 + t, id, p3 + p4 + p5 + p6, "</task-id>"@);
        let rest = w2 + p4 + p5 + p6;
        assert(p1 + t + id + "</task-id>"@ + rest =~= body);
        law_element_is_read(p1, t, id, "</task-id>"@, rest);
    }
    // The status.
    assert(captured(body, "<status>"@, "</status>"@) == if trimmed(status).len() > 0 {
        Some(trimmed(status))
    } else {
        None
    }) by {
        let t = "<status>"@;
        assert(none + p1 + (p2 + p3 + p4 + p5 + p6) =~= body);
        lemma_tag_misses(none, p1, p2 + p3 + p4 + p5 + p6, t, 1);
        assert(p1 + p2 + (p3 + p4 + p5 + p6) =~= body);
        lemma_tag_misses(p1, p2, p3 + p4 + p5 + p6, t, 1);
        assert((p1 + p2) + p3 + (p4 + p5 + p6) =~= body);
        lemma_tag_misses(p1 + p2, p3, p4 + p5 + p6, t, 1);
        assert(forall|k: int| 0 <= k < head.len() ==> !occurs_at(body, t, k));
        assert((head + t) + status + (p5 + p6) =~= body);
        lemma_tag_misses_plain(head + t, status, p5 + p6, "</status>"@);
        assert(head + t + status + "</status>"@ + (w3 + p6) =~= body);
        law_element_is_read(head, t, status, "</status>"@, w3 + p6);
    }
    // No summary.
    assert(captured(body, "<summary>"@, "</summary>"@) is None) by {
        let t = "<summary>"@;
        lemma_tag_misses(none, p1, p2 + p3 + p4 + p5 + p6, t, 1);
        lemma_tag_misses(p1, p2, p3 + p4 + p5 + p6, t, 1);
        lemma_tag_misses(p1 + p2, p3, p4 + p5 + p6, t, 1);
        assert(none + p1 + (p2 + p3 + p4 + p5 + p6) =~= body);
        assert(p1 + p2 + (p3 + p4 + p5 + p6) =~= body);
        assert((p1 + p2) + p3 + (p4 + p5 + p6) =~= body);
        assert(head + p4 + (p5 + p6) =~= body);
        lemma_tag_misses(head, p4, p5 + p6, t, 2);
        assert((head + p4) + p5 + p6 =~= body);
        lemma_tag_misses(head + p4, p5, p6, t, 1);
        assert((head + p4 + p5) + p6 + none =~= body);
        lemma_tag_misses(head + p4 + p5, p6, none, t, 1);
        assert forall|k: int| 0 <= k implies !occurs_at(body, t, k) by {
        }
        law_missing_element_is_not_read(body, t, "</summary>"@, 0);
    }
}

proof fn lemma_body_of_notice(lead: Seq<char>, body: Seq<char>, text: Seq<char>)
    requires
        forall|i: int| 0 <= i < lead.len() ==> crate::text::is_whitespace(#[trigger] lead[i]),
        body.len() > 0,
        body[0] == '<',
        text.len() == lead.len() + body.len(),
        forall|i: int| 0 <= i < lead.len() ==> #[trigger] text[i] == lead[i],
        forall|i: int|
            lead.len() <= i < text.len() ==> #[trigger] text[i] == body[i - lead.len()],
    ensures
        strip_front(text, TrimSet::Whitespace) == body,
{
    assert(text =~= lead + body);
    crate::text::lemma_strip_front_skips(lead, body, TrimSet::Whitespace);
}

/// The shortest notification: an id and a status, each without `<` and without whitespace
/// at its ends, are what the notice names.
pub proof fn law_plain_notice_is_read(id: Seq<char>, status: Seq<char>)
    requires
        id.len() > 0,
        is_untagged(id),
        !crate::text::is_whitespace(id[0]) && !crate::text::is_whitespace(id[id.len() - 1]),
        status.len() > 0,
        is_untagged(status),
        !crate::text::is_whitespace(status[0]) && !crate::text::is_whitespace(
            status[status.len() - 1],
        ),
    ensures
        notice_in(
            "<task-notification><task-id>"@ + id + "</task-id><status>"@ + status
                + "</status></task-notification>"@,
        ) matches Some(n) && n.task_id == id && n.status == status && n.summary is None,
{
    reveal_strlit("<task-notification><task-id>");
    reveal_strlit("<task-notification>");
    reveal_strlit("<task-id>");
    reveal_strlit("</task-id><status>");
    reveal_strlit("</task-id>");
    reveal_strlit("<status>");
    reveal_strlit("</status></task-notification>");
    reveal_strlit("</status>");
    reveal_strlit("</task-notification>");
    let none = Seq::<char>::empty();
    assert("<task-notification><task-id>"@ =~= "<task-notification>"@ + "<task-id>"@);
    assert("</task-id><status>"@ =~= "</task-id>"@ + "<status>"@);
    assert("</status></task-notification>"@ =~= "</status>"@ + "</task-notification>"@);
    let text = "<task-notification><task-id>"@ + id + "</task-id><status>"@ + status
        + "</status></task-notification>"@;
    let parts = none + ("<task-notification>"@ + none) + ("<task-id>"@ + id) + ("</task-id>"@
        + none) + ("<status>"@ + status) + ("</status>"@ + none) + "</task-notification>"@;
    assert(text =~= parts);
    law_notice_names_its_task_and_status(none, none, id, none, status, none);
    assert(none + id + none =~= id);
    assert(none + status + none =~= status);
    crate::text::law_trim_takes_off_the_set_alone(none, id, none, TrimSet::Whitespace);
    crate::text::law_trim_takes_off_the_set_alone(none, status, none, TrimSet::Whitespace);
}

/// A notification with a summary reports it, without whitespace around it; a blank one is
/// none.
#[verifier::rlimit(40)]
#[verifier::spinoff_prover]
pub proof fn law_notice_names_its_summary(
    lead: Seq<char>,
    w1: Seq<char>,
    id: Seq<char>,
    w2: Seq<char>,
    status: Seq<char>,
    w3: Seq<char>,
    summary: Seq<char>,
    w4: Seq<char>,
)
    requires
        forall|i: int| 0 <= i < lead.len() ==> crate::text::is_whitespace(#[trigger] lead[i]),
        is_untagged(w1),
        is_untagged(id),
        is_untagged(w2),
        is_untagged(status),
        is_untagged(w3),
        is_untagged(summary),
        is_untagged(w4),
        trimmed(id).len() > 0,
    ensures
        notice_in(
            lead + ("<task-notification>"@ + w1) + ("<task-id>"@ + id) + ("</task-id>"@ + w2) + (
            "<status>"@ + status) + ("</status>"@ + w3) + ("<summary>"@ + summary) + (
            "</summary>"@ + w4) + "</task-notification>"@,
        ) == Some(
            Settlement {
                task_id: trimmed(id),
                status: if trimmed(status).len() > 0 {
                    trimmed(status)
                } else {
                    "completed"@
                },
                summary: if trimmed(summary).len() > 0 {
                    Some(trimmed(summary))
                } else {
                    None
                },
            },
        ),
{
    lemma_tag_task_notification();
    lemma_tag_end_task_notification();
    lemma_tag_task_id();
    lemma_tag_end_task_id();
    lemma_tag_status();
    lemma_tag_end_status();
    lemma_tag_summary();
    lemma_tag_end_summary();
    let none = Seq::<char>::empty();
    let p1 = "<task-notification>"@ + w1;
    let p2 = "<task-id>"@ + id;
    let p3 = "</task-id>"@ + w2;
    let p4 = "<status>"@ + status;
    let p5 = "</status>"@ + w3;
    let p6 = "<summary>"@ + summary;
    let p7 = "</summary>"@ + w4 + "</task-notification>"@;
    lemma_tagged("<task-notification>"@, w1);
    lemma_tagged("<task-id>"@, id);
    lemma_tagged("</task-id>"@, w2);
    lemma_tagged("<status>"@, status);
    lemma_tagged("</status>"@, w3);
    let text = lead + p1 + p2 + p3 + p4 + p5 + p6 + ("</summary>"@ + w4)
        + "</task-notification>"@;
    let body = p1 + p2 + p3 + p4 + p5 + p6 + p7;
    lemma_body_of_notice(lead, body, text);
    assert(body.take("<task-notification>"@.len() as int) =~= "<task-notification>"@);
    assert("<task-notification>"@.is_prefix_of(body));
    let head = p1 + p2 + p3;
    // The id.
    assert(captured(body, "<task-id>"@, "</task-id>"@) == if trimmed(id).len() > 0 {
        Some(trimmed(id))
    } else {
        None
    }) by {
        let t = "<task-id>"@;
        assert(none + p1 + (p2 + p3 + p4 + p5 + p6 + p7) =~= body);
        lemma_tag_misses(none, p1, p2 + p3 + p4 + p5 + p6 + p7, t, 6);
        assert((p1 + t) + id + (p3 + p4 + p5 + p6 + p7) =~= body);
        lemma_tag_misses_plain(p1 + t, id, p3 + p4 + p5 + p6 + p7, "</task-id>"@);
        let rest = w2 + p4 + p5 + p6 + p7;
        assert(p1 + t + id + "</task-id>"@ + rest =~= body);
        law_element_is_read(p1, t, id, "</task-id>"@, rest);
    }
    // The status.
    assert(captured(body, "<status>"@, "</status>"@) == if trimmed(status).len() > 0 {
        Some(trimmed(status))
    } else {
        None
    }) by {
        let t = "<status>"@;
        assert(none + p1 + (p2 + p3 + p4 + p5 + p6 + p7) =~= body);
        lemma_tag_misses(none, p1, p2 + p3 + p4 + p5 + p6 + p7, t, 1);
        assert(p1 + p2 + (p3 + p4 + p5 + p6 + p7) =~= body);
        lemma_tag_misses(p1, p2, p3 + p4 + p5 + p6 + p7, t, 1);
        assert((p1 + p2) + p3 + (p4 + p5 + p6 + p7) =~= body);
        lemma_tag_misses(p1 + p2, p3, p4 + p5 + p6 + p7, t, 1);
        assert(forall|k: int| 0 <= k < head.len() ==> !occurs_at(body, t, k));
        assert((head + t) + status + (p5 + p6 + p7) =~= body);
        lemma_tag_misses_plain(head + t, status, p5 + p6 + p7, "</status>"@);
        assert(head + t + status + "</status>"@ + (w3 + p6 + p7) =~= body);
        law_element_is_read(head, t, status, "</status>"@, w3 + p6 + p7);
    }
    // The summary.
    assert(captured(body, "<summary>"@, "</summary>"@) == if trimmed(summary).len() > 0 {
        Some(trimmed(summary))
    } else {
        None
    }) by {
        let t = "<summary>"@;
        assert(none + p1 + (p2 + p3 + p4 + p5 + p6 + p7) =~= body);
        assert(p1 + p2 + (p3 + p4 + p5 + p6 + p7) =~= body);
        assert((p1 + p2) + p3 + (p4 + p5 + p6 + p7) =~= body);
        let longer = head + p4 + p5;
        lemma_tag_misses(none, p1, p2 + p3 + p4 + p5 + p6 + p7, t, 1);
        lemma_tag_misses(p1, p2, p3 + p4 + p5 + p6 + p7, t, 1);
        lemma_tag_misses(p1 + p2, p3, p4 + p5 + p6 + p7, t, 1);
        assert(head + p4 + (p5 + p6 + p7) =~= body);
        lemma_tag_misses(head, p4, p5 + p6 + p7, t, 2);
        assert((head + p4) + p5 + (p6 + p7) =~= body);
        lemma_tag_misses(head + p4, p5, p6 + p7, t, 1);
        assert(forall|k: int| 0 <= k < longer.len() ==> !occurs_at(body, t, k));
        assert((longer + t) + summary + p7 =~= body);
        lemma_tag_misses_plain(longer + t, summary, p7, "</summary>"@);
        let rest = w4 + "</task-notification>"@;
        assert(longer + t + summary + "</summary>"@ + rest =~= body);
        law_element_is_read(longer, t, summary, "</summary>"@, rest);
    }
}

/// What a notice reports of any text, by the first element of each kind. The text has to
/// begin with the tag of a notification, whitespace aside, and to have an id. Its status is
/// `completed` only where it has no status of its own, or that is what it is.
pub proof fn law_notice_reports_its_elements(lead: Seq<char>, rest: Seq<char>)
    requires
        forall|i: int| 0 <= i < lead.len() ==> crate::text::is_whitespace(#[trigger] lead[i]),
    ensures
        ({
            let body = "<task-notification>"@ + rest;
            let id = captured(body, "<task-id>"@, "</task-id>"@);
            let status = captured(body, "<status>"@, "</status>"@);
            let notice = notice_in(lead + body);
            &&& notice is Some <==> id is Some
            &&& notice matches Some(n) ==> {
                &&& Some(n.task_id) == id
                &&& status is Some ==> Some(n.status) == status
                &&& status is None ==> n.status == "completed"@
                &&& n.summary == captured(body, "<summary>"@, "</summary>"@)
            }
        }),
{
    lemma_tag_task_notification();
    let body = "<task-notification>"@ + rest;
    lemma_body_of_notice(lead, body, lead + body);
    assert(body.take("<task-notification>"@.len() as int) =~= "<task-notification>"@);
    assert("<task-notification>"@.is_prefix_of(body));
}

/// A text that begins with anything but whitespace and the tag of a notification is no
/// notice.
pub proof fn law_other_texts_are_no_notice(text: Seq<char>)
    requires
        !"<task-notification>"@.is_prefix_of(text),
        text.len() == 0 || !crate::text::is_whitespace(text[0]),
    ensures
        notice_in(text) is None,
{
}

/// A record that reports the launch of an agent or of a shell command registers that task,
/// under the id in the result and from now on, unless the same record ends it.
pub proof fn law_launch_registers_its_task(
    a: AccountingView,
    record: JsonView,
    result: JsonView,
    id: Seq<char>,
    now: u64,
)
    requires
        record.text_member("type"@) == Some("user"@),
        record.member("toolUseResult"@) == Some(result),
        settlement(record) matches Some(s) ==> s.task_id != id,
        id.len() > 0,
    ensures
        result.text_member("status"@) == Some("async_launched"@) && result.text_member("agentId"@)
            == Some(id) ==> a.after(record, now).tasks.dom().contains(id) && a.after(
            record,
            now,
        ).tasks[id] == (TaskEntry { kind: TaskKind::Agent, started_at: now }),
        result.text_member("status"@) != Some("async_launched"@) && result.text_member(
            "backgroundTaskId"@,
        ) == Some(id) ==> a.after(record, now).tasks.dom().contains(id) && a.after(
            record,
            now,
        ).tasks[id] == (TaskEntry { kind: TaskKind::Shell, started_at: now }),
{
}

/// A notice ends its task, whatever else the record holds, and is added to those reported.
pub proof fn law_notice_ends_its_task(
    a: AccountingView,
    record: JsonView,
    message: JsonView,
    text: Seq<char>,
    now: u64,
    reported: Seq<Settlement>,
)
    requires
        record.text_member("type"@) == Some("user"@),
        record.member("message"@) == Some(message),
        message.member("content"@) == Some(JsonView::Text(text)),
    ensures
        notice_in(text) matches Some(n) ==> !a.after(record, now).tasks.dom().contains(n.task_id)
            && a.after(record, now).settled.contains(n.task_id) && with_notice(reported, record)
            == reported.push(n),
        notice_in(text) is None ==> a.after(record, now).settled == a.settled && with_notice(
            reported,
            record,
        ) == reported,
{
}

/// A user's record touches no task but the one that it launches and the one that it ends.
pub proof fn law_user_record_leaves_other_tasks(
    a: AccountingView,
    record: JsonView,
    other: Seq<char>,
    now: u64,
)
    requires
        record.text_member("type"@) == Some("user"@),
        record.member("toolUseResult"@) matches Some(result) ==> result.text_member("agentId"@)
            != Some(other) && result.text_member("backgroundTaskId"@) != Some(other),
        settlement(record) matches Some(s) ==> s.task_id != other,
    ensures
        a.after(record, now).tasks.dom().contains(other) == a.tasks.dom().contains(other),
        a.tasks.dom().contains(other) ==> a.after(record, now).tasks[other] == a.tasks[other],
        a.after(record, now).settled.contains(other) == a.settled.contains(other),
{
}

/// A result without an id, or with an empty one, launches nothing; neither does a record
/// without a result.
pub proof fn law_no_launch_without_an_id(
    a: AccountingView,
    record: JsonView,
    result: JsonView,
    now: u64,
)
    requires
        record.text_member("type"@) == Some("user"@),
        settlement(record) is None,
        record.member("toolUseResult"@) is None || (record.member("toolUseResult"@) == Some(result)
            && match result.text_member(
            if result.text_member("status"@) == Some("async_launched"@) {
                "agentId"@
            } else {
                "backgroundTaskId"@
            },
        ) {
            Some(id) => id.len() == 0,
            None => true,
        }),
    ensures
        a.after(record, now) == a,
{
}

/// The block sends the agent `id` a message.
pub open spec fn sends_to(block: JsonView, id: Seq<char>) -> bool {
    &&& block.text_member("type"@) == Some("tool_use"@)
    &&& block.text_member("name"@) == Some("SendMessage"@)
    &&& block.member("input"@) matches Some(input) && input.text_member("to"@) == Some(id)
}

/// A message to an agent that has ended makes it outstanding again, from now on, wherever
/// in the assistant's record it stands. Nothing else in such a record changes anything: an
/// agent that gets no message, or has not ended, stays what it is.
pub proof fn law_assistant_record_rearms_whom_it_messages(
    a: AccountingView,
    record: JsonView,
    message: JsonView,
    blocks: Seq<JsonView>,
    id: Seq<char>,
    at: int,
    now: u64,
)
    requires
        record.text_member("type"@) == Some("assistant"@),
        record.member("message"@) == Some(message),
        message.member("content"@) == Some(JsonView::Array(blocks)),
    ensures
        a.settled.contains(id) && 0 <= at < blocks.len() && sends_to(blocks[at], id) ==> a.after(
            record,
            now,
        ).tasks.dom().contains(id) && a.after(record, now).tasks[id] == (TaskEntry {
            kind: TaskKind::Agent,
            started_at: now,
        }) && !a.after(record, now).settled.contains(id),
        !a.settled.contains(id) || (forall|k: int|
            0 <= k < blocks.len() ==> !sends_to(#[trigger] blocks[k], id)) ==> a.after(
            record,
            now,
        ).tasks.dom().contains(id) == a.tasks.dom().contains(id) && a.after(
            record,
            now,
        ).settled.contains(id) == a.settled.contains(id) && (a.tasks.dom().contains(id) ==> a.after(
            record,
            now,
        ).tasks[id] == a.tasks[id]),
{
    reveal_strlit("user");
    reveal_strlit("assistant");
    assert("user"@.len() != "assistant"@.len());
    lemma_messages_rearm(a, blocks, id, at, now);
}

proof fn lemma_messages_rearm(
    a: AccountingView,
    blocks: Seq<JsonView>,
    id: Seq<char>,
    at: int,
    now: u64,
)
    ensures
        ({
            let end = a.with_messages(blocks, now);
            &&& a.settled.contains(id) && 0 <= at < blocks.len() && sends_to(blocks[at], id)
                ==> end.tasks.dom().contains(id) && end.tasks[id] == (TaskEntry {
                kind: TaskKind::Agent,
                started_at: now,
            }) && !end.settled.contains(id)
            &&& !a.settled.contains(id) || (forall|k: int|
                0 <= k < blocks.len() ==> !sends_to(#[trigger] blocks[k], id))
                ==> end.tasks.dom().contains(id) == a.tasks.dom().contains(id)
                && end.settled.contains(id) == a.settled.contains(id) && (a.tasks.dom().contains(id)
                ==> end.tasks[id] == a.tasks[id])
        }),
    decreases blocks.len(),
{
    if blocks.len() > 0 {
        let shorter = blocks.drop_last();
        let before = a.with_messages(shorter, now);
        lemma_messages_rearm(a, shorter, id, at, now);
        if 0 <= at < shorter.len() {
            assert(shorter[at] == blocks[at]);
        }
        if at == blocks.len() - 1 && a.settled.contains(id) && sends_to(blocks[at], id) {
            if forall|k: int| 0 <= k < shorter.len() ==> !sends_to(#[trigger] shorter[k], id) {
                assert(before.settled.contains(id));
            } else {
                let k = choose|k: int| 0 <= k < shorter.len() && sends_to(#[trigger] shorter[k], id);
                lemma_messages_rearm(a, shorter, id, k, now);
            }
        }
        if forall|k: int| 0 <= k < blocks.len() ==> !sends_to(#[trigger] blocks[k], id) {
            assert forall|k: int| 0 <= k < shorter.len() implies !sends_to(
                #[trigger] shorter[k],
                id,
            ) by {
                assert(shorter[k] == blocks[k]);
            }
            assert(!sends_to(blocks[blocks.len() - 1], id));
        }
    }
}

/// Records of other kinds change nothing, and neither does an assistant's record without
/// blocks. Only a user's record can end a task.
pub proof fn law_other_records_change_nothing(a: AccountingView, record: JsonView, now: u64)
    ensures
        record.text_member("type"@) != Some("user"@) && record.text_member("type"@) != Some(
            "assistant"@,
        ) ==> a.after(record, now) == a,
        record.text_member("type"@) == Some("assistant"@) && record.member("message"@) is None
            ==> a.after(record, now) == a,
        record.text_member("type"@) != Some("user"@) ==> settlement(record) is None,
{
    reveal_strlit("user");
    reveal_strlit("assistant");
    assert("user"@.len() != "assistant"@.len());
}

/// A task is forgotten once as much time has passed since it was registered as a task may
/// take, and not before; what has ended stays ended.
pub proof fn law_tasks_are_forgotten_with_time(
    a: AccountingView,
    id: Seq<char>,
    now: u64,
    max_age: u64,
)
    requires
        a.tasks.dom().contains(id),
    ensures
        ({
            let started = a.tasks[id].started_at;
            let end = a.expired(now, max_age);
            &&& now - started >= max_age && now >= started ==> !end.tasks.dom().contains(id)
            &&& now - started < max_age && (now >= started || max_age > 0)
                ==> end.tasks.dom().contains(id) && end.tasks[id] == a.tasks[id]
            &&& end.settled == a.settled
        }),
{
}

/// No task comes into being by time passing, and an account begins without any.
pub proof fn law_time_registers_no_task(a: AccountingView, id: Seq<char>, now: u64, max_age: u64)
    requires
        !a.tasks.dom().contains(id),
    ensures
        !a.expired(now, max_age).tasks.dom().contains(id),
        !AccountingView::empty().tasks.dom().contains(id),
        !AccountingView::empty().settled.contains(id),
{
}


} // verus!
