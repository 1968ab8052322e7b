//! Watching a session's transcript for what happens outside the turns that the
//! application sent.
//!
//! The watch reads the transcript as it grows, keeps account of background tasks, and
//! sorts records into turns that the application sent (rendered elsewhere) and the
//! rest, which it gathers into episodes. Reading the file, assembling records into
//! turns and hashing those is done by the caller, who asks the watch at every step.
use vstd::prelude::*;

use crate::accounting::{
    settlements, with_notice, Accounting, AccountingView, BackgroundSettledInfo, Settlement,
};
use crate::bytes::{text_of_utf8, utf8_text};
use crate::clock::Stamp;
use crate::json::{json_of_text, parse_json, Json, JsonView};
use crate::ledger::{consumed, elapsed, elapsed_nanos, Fingerprint, PromptLedger};
use crate::models::AgentType;
use crate::number::{decimal, decimal_text};
use crate::text::{opt_view, same_text, texts};
use crate::transcript::{
    baseline_from, baseline_offset_since, initiator_text, turn_initiator_text,
};

verus! {

/// The time between two looks at the transcript while something is going on, in
/// nanoseconds.
pub const POLL_ACTIVE_NANOS: u64 = 1_000_000_000;

/// The time between two looks while nothing is going on, in nanoseconds.
pub const POLL_IDLE_NANOS: u64 = 3_000_000_000;

/// How long after the transcript grew something counts as going on, in nanoseconds.
pub const RECENT_ACTIVITY_NANOS: u64 = 30_000_000_000;

/// An episode with this many messages ends where the next turn begins.
pub const MAX_EPISODE_MESSAGES: usize = 512;

/// An episode with this many messages ends in the middle of a turn.
pub const FORCE_ROTATE_MESSAGES: usize = 1024;

// ---------------------------------------------------------------------------
// Lines
// ---------------------------------------------------------------------------

/// The complete lines of `bytes`, without their line breaks.
pub open spec fn lines_of(bytes: Seq<u8>) -> Seq<Seq<u8>>
    decreases bytes.len(),
{
    if bytes.len() == 0 {
        Seq::empty()
    } else if bytes.last() == 10 {
        lines_of(bytes.drop_last()).push(rest_of(bytes.drop_last()))
    } else {
        lines_of(bytes.drop_last())
    }
}

/// What follows the last line break of `bytes`.
pub open spec fn rest_of(bytes: Seq<u8>) -> Seq<u8>
    decreases bytes.len(),
{
    if bytes.len() == 0 || bytes.last() == 10 {
        Seq::empty()
    } else {
        rest_of(bytes.drop_last()).push(bytes.last())
    }
}

/// The lines that are text, in order.
pub open spec fn text_lines(lines: Seq<Seq<u8>>) -> Seq<Seq<char>>
    decreases lines.len(),
{
    if lines.len() == 0 {
        Seq::empty()
    } else {
        match utf8_text(lines.last()) {
            Some(text) => text_lines(lines.drop_last()).push(text),
            None => text_lines(lines.drop_last()),
        }
    }
}

/// No line break stands in `bytes`.
pub open spec fn unbroken(bytes: Seq<u8>) -> bool {
    forall|i: int| 0 <= i < bytes.len() ==> #[trigger] bytes[i] != 10
}

proof fn lemma_unbroken(bytes: Seq<u8>)
    requires
        unbroken(bytes),
    ensures
        lines_of(bytes) == Seq::<Seq<u8>>::empty(),
        rest_of(bytes) == bytes,
    decreases bytes.len(),
{
    if bytes.len() > 0 {
        let shorter = bytes.drop_last();
        assert(bytes[bytes.len() - 1] != 10);
        assert forall|i: int| 0 <= i < shorter.len() implies #[trigger] shorter[i] != 10 by {
            assert(bytes[i] != 10);
        }
        lemma_unbroken(shorter);
        assert(shorter.push(bytes.last()) =~= bytes);
    }
}

proof fn lemma_rest_unbroken(bytes: Seq<u8>)
    ensures
        unbroken(rest_of(bytes)),
        rest_of(bytes).len() <= bytes.len(),
    decreases bytes.len(),
{
    if bytes.len() > 0 && bytes.last() != 10 {
        lemma_rest_unbroken(bytes.drop_last());
        let rest = rest_of(bytes);
        let shorter = rest_of(bytes.drop_last());
        assert forall|i: int| 0 <= i < rest.len() implies #[trigger] rest[i] != 10 by {
            if i < shorter.len() {
                assert(rest[i] == shorter[i]);
            }
        }
    }
}

/// How a transcript reaches the watch does not matter: read in two pieces, the second
/// after what the first left over, it gives the same lines and leaves the same rest as
/// read in one.
pub proof fn law_reading_in_pieces(first: Seq<u8>, second: Seq<u8>)
    ensures
        lines_of(first + second) == lines_of(first) + lines_of(rest_of(first) + second),
        rest_of(first + second) == rest_of(rest_of(first) + second),
    decreases second.len(),
{
    let rest = rest_of(first);
    lemma_rest_unbroken(first);
    if second.len() == 0 {
        assert(first + second =~= first);
        assert(rest + second =~= rest);
        lemma_unbroken(rest);
        assert(lines_of(first) + Seq::<Seq<u8>>::empty() =~= lines_of(first));
    } else {
        let shorter = second.drop_last();
        law_reading_in_pieces(first, shorter);
        assert((first + second).drop_last() =~= first + shorter);
        assert((rest + second).drop_last() =~= rest + shorter);
        assert((first + second).last() == second.last());
        assert((rest + second).last() == second.last());
        if second.last() == 10 {
            assert(lines_of(first + second) =~= lines_of(first) + lines_of(rest + second));
        }
    }
}

// ---------------------------------------------------------------------------
// The state of a watch
// ---------------------------------------------------------------------------

/// What the file system says of the transcript.
#[derive(Clone, Copy, PartialEq, Eq, Structural, Debug)]
pub struct FileStat {
    pub modified: Option<Stamp>,
    pub len: u64,
}

/// Whose turn the latest records belong to.
#[derive(Clone, Copy, PartialEq, Eq, Structural, Debug)]
pub enum Mode {
    /// A turn that the application sent.
    Foreground,
    /// Something else, which is gathered into an episode.
    Background,
}

/// A run of records outside the turns that the application sent.
#[derive(Debug)]
struct Episode {
    base: u64,
    emitted: Vec<u64>,
}

/// The model of an episode: the number that its turns are named by, and for each turn
/// the hash under which it was last reported.
#[verifier::ext_equal]
pub struct EpisodeView {
    pub base: u64,
    pub emitted: Seq<u64>,
}

spec fn episode_view(e: Option<Episode>) -> Option<EpisodeView> {
    match e {
        Some(e) => Some(EpisodeView { base: e.base, emitted: e.emitted@ }),
        None => None,
    }
}

/// The state of a watch.
#[derive(Debug)]
pub struct WatchState {
    session_id: Option<String>,
    located: bool,
    committed: u64,
    carry: Vec<u8>,
    last_stat: Option<FileStat>,
    mode: Mode,
    episode: Option<Episode>,
    accounting: Accounting,
    last_activity: Option<u64>,
    last_outstanding: Option<u32>,
    last_base: u64,
    epoch: Option<Stamp>,
}

/// The model of a [`WatchState`].
#[verifier::ext_equal]
pub struct WatchView {
    pub session_id: Option<Seq<char>>,
    /// The transcript was found.
    pub located: bool,
    /// The number of bytes up to the end of the last complete line that was read.
    pub committed: u64,
    /// What was read after that.
    pub carry: Seq<u8>,
    pub last_stat: Option<FileStat>,
    pub mode: Mode,
    pub episode: Option<EpisodeView>,
    pub accounting: AccountingView,
    /// When the transcript last grew, on the monotonic clock in nanoseconds.
    pub last_activity: Option<u64>,
    /// The number of outstanding tasks that was last reported.
    pub last_outstanding: Option<u32>,
    /// The base of the latest episode.
    pub last_base: u64,
    /// From when on records belong to this watch.
    pub epoch: Option<Stamp>,
}

impl View for WatchState {
    type V = WatchView;

    closed spec fn view(&self) -> WatchView {
        WatchView {
            session_id: opt_view(self.session_id),
            located: self.located,
            committed: self.committed,
            carry: self.carry@,
            last_stat: self.last_stat,
            mode: self.mode,
            episode: episode_view(self.episode),
            accounting: self.accounting@,
            last_activity: self.last_activity,
            last_outstanding: self.last_outstanding,
            last_base: self.last_base,
            epoch: self.epoch,
        }
    }
}

/// What a look at the transcript found.
#[derive(Debug)]
pub struct Tick {
    expired: bool,
    turns: Vec<String>,
    settled: Vec<BackgroundSettledInfo>,
}

/// The model of a [`Tick`].
#[verifier::ext_equal]
pub struct TickView {
    /// Tasks were dropped for their age.
    pub expired: bool,
    /// The ids of the turns to report.
    pub turns: Seq<Seq<char>>,
    /// The tasks that have ended.
    pub settled: Seq<Settlement>,
}

impl View for Tick {
    type V = TickView;

    closed spec fn view(&self) -> TickView {
        TickView {
            expired: self.expired,
            turns: texts(self.turns@),
            settled: settlements(self.settled@),
        }
    }
}

/// What is reported of a look at the transcript.
#[derive(Debug)]
pub struct BackgroundActivity {
    pub session_id: String,
    /// The ids of the turns that are new or have changed.
    pub turns: Vec<String>,
    pub outstanding: u32,
    pub settled: Vec<BackgroundSettledInfo>,
    pub watermark: u64,
}

/// The model of a [`BackgroundActivity`].
#[verifier::ext_equal]
pub struct ActivityView {
    pub session_id: Seq<char>,
    pub turns: Seq<Seq<char>>,
    pub outstanding: u32,
    pub settled: Seq<Settlement>,
    pub watermark: u64,
}

impl View for BackgroundActivity {
    type V = ActivityView;

    open spec fn view(&self) -> ActivityView {
        ActivityView {
            session_id: self.session_id@,
            turns: texts(self.turns@),
            outstanding: self.outstanding,
            settled: settlements(self.settled@),
            watermark: self.watermark,
        }
    }
}

/// What becomes of the episode at a record.
#[derive(Clone, Copy, PartialEq, Eq, Structural, Debug)]
pub enum EpisodeChange {
    /// It goes on, or there is none.
    Keep,
    /// It ends.
    Close,
    /// It ends where there is one, and another begins.
    Open,
}

/// What to do with a record, in this order: collect what has changed, change the episode,
/// add the record.
#[derive(Clone, Copy, PartialEq, Eq, Structural, Debug)]
pub struct FeedPlan {
    /// Collect the turns of the episode at hand that have changed.
    pub flush: bool,
    pub change: EpisodeChange,
    /// Add the record to the episode.
    pub feed: bool,
}

/// What a look at the file tells to do.
#[derive(Clone, Copy, PartialEq, Eq, Structural, Debug)]
pub enum StatOutcome {
    /// The file is gone: look for it again.
    Lost,
    /// The file is shorter than what was read; the watch goes on from its end.
    Shrunk,
    /// There is nothing to read.
    Unchanged,
    /// Read from this offset on.
    ReadFrom(u64),
}

impl FeedPlan {
    pub open spec fn nothing() -> FeedPlan {
        FeedPlan { flush: false, change: EpisodeChange::Keep, feed: false }
    }
}

impl WatchView {
    /// The state of a watch that has not begun.
    pub open spec fn fresh() -> WatchView {
        WatchView {
            session_id: None,
            located: false,
            committed: 0,
            carry: Seq::empty(),
            last_stat: None,
            mode: Mode::Foreground,
            episode: None,
            accounting: AccountingView::empty(),
            last_activity: None,
            last_outstanding: Some(0),
            last_base: 0,
            epoch: None,
        }
    }

    /// After the session changed: everything begins anew but the account of tasks,
    /// which go on running.
    pub open spec fn rearmed(self, session_id: Seq<char>, epoch: Stamp) -> WatchView {
        WatchView {
            session_id: Some(session_id),
            accounting: self.accounting,
            epoch: Some(epoch),
            ..WatchView::fresh()
        }
    }

    /// Something is going on.
    pub open spec fn busy(self, now: u64) -> bool {
        self.accounting.tasks != Map::<Seq<char>, crate::accounting::TaskEntry>::empty() || (
        self.last_activity matches Some(at) && elapsed(now, at) < RECENT_ACTIVITY_NANOS)
    }

    /// After a transcript was found. `len` is its length where that could be read, and
    /// `content` its content where the file could be read.
    pub open spec fn adopted(self, len: Option<u64>, content: Option<Seq<u8>>) -> WatchView {
        WatchView {
            located: true,
            committed: match len {
                Some(n) => match (self.epoch, content) {
                    (Some(epoch), Some(bytes)) => baseline_from(bytes, 0, epoch) as u64,
                    _ => n,
                },
                None => self.committed,
            },
            ..self
        }
    }

    /// What a look at the file tells, and the state after it.
    pub open spec fn observed(self, stat: Option<FileStat>) -> (StatOutcome, WatchView) {
        match stat {
            None => (StatOutcome::Lost, WatchView { located: false, ..self }),
            Some(s) => {
                let seen = WatchView { last_stat: Some(s), ..self };
                if s.len < self.committed {
                    (
                        StatOutcome::Shrunk,
                        WatchView {
                            committed: s.len,
                            carry: Seq::empty(),
                            episode: None,
                            mode: Mode::Foreground,
                            ..seen
                        },
                    )
                } else if self.last_stat == Some(s) {
                    (StatOutcome::Unchanged, seen)
                } else {
                    (StatOutcome::ReadFrom((self.committed + self.carry.len()) as u64), seen)
                }
            },
        }
    }

    /// The complete lines after `fresh` was read, as far as they are text.
    pub open spec fn new_lines(self, fresh: Seq<u8>) -> Seq<Seq<char>> {
        text_lines(lines_of(self.carry + fresh))
    }

    /// After `fresh` was read.
    pub open spec fn ingested(self, fresh: Seq<u8>, now: u64) -> WatchView {
        let all = self.carry + fresh;
        WatchView {
            committed: (self.committed + all.len() - rest_of(all).len()) as u64,
            carry: rest_of(all),
            last_activity: if self.new_lines(fresh).len() > 0 {
                Some(now)
            } else {
                self.last_activity
            },
            ..self
        }
    }

    /// The number of outstanding tasks.
    pub open spec fn outstanding(self) -> u32 {
        self.accounting.tasks.dom().len() as u32
    }

    /// There is nothing to report of a look that found `tick`.
    pub open spec fn has_nothing_new(self, tick: TickView) -> bool {
        tick.turns.len() == 0 && tick.settled.len() == 0 && !tick.expired && self.last_outstanding
            == Some(self.outstanding())
    }

    /// The base of the next episode.
    pub open spec fn next_base(self) -> u64 {
        base_after(self.committed as nat, self.last_base as nat) as u64
    }

    /// After the episode changed.
    pub open spec fn changed(self, change: EpisodeChange) -> WatchView {
        match change {
            EpisodeChange::Keep => self,
            EpisodeChange::Close => WatchView {
                episode: None,
                mode: Mode::Foreground,
                ..self
            },
            EpisodeChange::Open => WatchView {
                episode: Some(EpisodeView { base: self.next_base(), emitted: Seq::empty() }),
                last_base: self.next_base(),
                mode: Mode::Background,
                ..self
            },
        }
    }
}

/// The base of an episode that begins where `committed` bytes were read and the latest
/// base is `last`: the number of bytes, or more where an earlier episode took that.
pub open spec fn base_after(committed: nat, last: nat) -> nat {
    if committed > last {
        committed
    } else {
        last + 1
    }
}

/// Where a record goes, where the ledger's entries are `entries` and the episode at hand
/// holds `open_messages` messages: what to do, and the ledger after it.
pub open spec fn classified(
    v: WatchView,
    entries: Seq<Fingerprint>,
    record: JsonView,
    now: u64,
    open_messages: int,
) -> (FeedPlan, Seq<Fingerprint>) {
    match initiator_text(record) {
        Some(text) => {
            let (left, sent) = consumed(entries, text, now);
            if sent {
                (
                    FeedPlan {
                        flush: v.episode is Some,
                        change: EpisodeChange::Close,
                        feed: false,
                    },
                    left,
                )
            } else {
                let full = v.episode is Some && open_messages >= MAX_EPISODE_MESSAGES;
                if v.mode is Foreground || v.episode is None || full {
                    (
                        FeedPlan {
                            flush: full,
                            change: EpisodeChange::Open,
                            feed: true,
                        },
                        left,
                    )
                } else {
                    (FeedPlan { flush: false, change: EpisodeChange::Keep, feed: true }, left)
                }
            }
        },
        None => if v.mode is Foreground || v.episode is None {
            (FeedPlan::nothing(), entries)
        } else if open_messages >= FORCE_ROTATE_MESSAGES {
            (
                FeedPlan {
                    flush: true,
                    change: EpisodeChange::Open,
                    feed: true,
                },
                entries,
            )
        } else {
            (FeedPlan { flush: false, change: EpisodeChange::Keep, feed: true }, entries)
        },
    }
}

/// The id of the turn at `index` of the episode with the given base.
pub open spec fn turn_id_of(base: nat, index: nat) -> Seq<char> {
    "bg-"@ + decimal(base) + "-"@ + decimal(index)
}

/// The turns below `upto` whose hash is another than the one that was last reported.
pub open spec fn changed_below(emitted: Seq<u64>, hashes: Seq<u64>, upto: int) -> Seq<int>
    decreases upto,
{
    if upto <= 0 {
        Seq::empty()
    } else if upto - 1 < emitted.len() && emitted[upto - 1] == hashes[upto - 1] {
        changed_below(emitted, hashes, upto - 1)
    } else {
        changed_below(emitted, hashes, upto - 1).push(upto - 1)
    }
}

/// The hashes that were last reported, after turns with the given hashes.
pub open spec fn reported(emitted: Seq<u64>, hashes: Seq<u64>) -> Seq<u64> {
    if emitted.len() > hashes.len() {
        hashes + emitted.skip(hashes.len() as int)
    } else {
        hashes
    }
}

/// The ids of the turns at the given positions.
pub open spec fn ids_of(base: nat, indices: Seq<int>) -> Seq<Seq<char>> {
    indices.map_values(|i: int| turn_id_of(base, i as nat))
}

/// Whether the agent writes a transcript that can be watched.
pub fn has_watch(agent: AgentType) -> (r: bool)
    ensures
        r == (agent == AgentType::ClaudeCode),
{
    agent == AgentType::ClaudeCode
}

/// The id of the turn at `index` of the episode with the given base.
pub fn turn_id(base: u64, index: usize) -> (r: String)
    ensures
        r@ == turn_id_of(base as nat, index as nat),
{
    let mut out: String = "bg-".to_owned();
    out.append(decimal_text(base).as_str());
    out.append("-");
    out.append(decimal_text(index as u64).as_str());
    out
}

impl WatchState {
    /// What is carried over holds no line break; records go to an episode if and only
    /// if there is one.
    pub closed spec fn wf(&self) -> bool {
        &&& self.accounting.wf()
        &&& unbroken(self.carry@)
        &&& (self.mode is Background) == (self.episode is Some)
    }

    pub fn new() -> (r: WatchState)
        ensures
            r.wf(),
            r@ == WatchView::fresh(),
    {
        let r = WatchState {
            session_id: None,
            located: false,
            committed: 0,
            carry: Vec::new(),
            last_stat: None,
            mode: Mode::Foreground,
            episode: None,
            accounting: Accounting::new(),
            last_activity: None,
            last_outstanding: Some(0),
            last_base: 0,
            epoch: None,
        };
        assert(r@ =~= WatchView::fresh());
        r
    }

    /// Begins anew with another session.
    pub fn rearm(&mut self, session_id: &str, epoch: Stamp)
        requires
            old(self).wf(),
        ensures
            final(self).wf(),
            final(self)@ == old(self)@.rearmed(session_id@, epoch),
    {
        self.session_id = Some(session_id.to_owned());
        self.located = false;
        self.committed = 0;
        self.carry = Vec::new();
        self.last_stat = None;
        self.mode = Mode::Foreground;
        self.episode = None;
        self.last_activity = None;
        self.last_outstanding = Some(0);
        self.last_base = 0;
        self.epoch = Some(epoch);
        assert(self@ =~= old(self)@.rearmed(session_id@, epoch));
    }

    /// How long to wait until the next look, in nanoseconds.
    pub fn poll_delay(&self, now: u64) -> (r: u64)
        requires
            self.wf(),
        ensures
            r == if self@.busy(now) {
                POLL_ACTIVE_NANOS
            } else {
                POLL_IDLE_NANOS
            },
    {
        let recent: bool = match self.last_activity {
            Some(at) => elapsed_nanos(now, at) < RECENT_ACTIVITY_NANOS,
            None => false,
        };
        if self.accounting.task_count() != 0 || recent {
            POLL_ACTIVE_NANOS
        } else {
            POLL_IDLE_NANOS
        }
    }

    /// Whether the watched session is `session_id`.
    pub fn watches(&self, session_id: &str) -> (r: bool)
        ensures
            r == (self@.session_id == Some(session_id@)),
    {
        match &self.session_id {
            Some(id) => same_text(id.as_str(), session_id),
            None => false,
        }
    }

    /// Whether the transcript was found.
    pub fn is_located(&self) -> (r: bool)
        ensures
            r == self@.located,
    {
        self.located
    }

    /// The base of the episode at hand.
    pub fn episode_base(&self) -> (r: Option<u64>)
        ensures
            r == (match self@.episode {
                Some(e) => Some(e.base),
                None => None,
            }),
    {
        match &self.episode {
            Some(e) => Some(e.base),
            None => None,
        }
    }

    /// The number of bytes up to the end of the last complete line that was read.
    pub fn watermark(&self) -> (r: u64)
        ensures
            r == self@.committed,
    {
        self.committed
    }

    /// The number of bytes that were read; `None` where it does not fit.
    pub fn read_offset(&self) -> (r: Option<u64>)
        ensures
            r == (if self@.committed + self@.carry.len() <= u64::MAX {
                Some((self@.committed + self@.carry.len()) as u64)
            } else {
                None
            }),
    {
        self.committed.checked_add(self.carry.len() as u64)
    }

    /// Whether there is a base left for another episode.
    pub fn has_base_left(&self) -> (r: bool)
        ensures
            r == (self@.last_base < u64::MAX),
    {
        self.last_base < u64::MAX
    }

    /// Begins a look at the transcript: tasks that have reached `max_age` are dropped.
    /// `None` where no session is watched.
    pub fn begin_tick(&mut self, now: u64, max_age: u64) -> (r: Option<Tick>)
        requires
            old(self).wf(),
        ensures
            final(self).wf(),
            match r {
                None => old(self)@.session_id is None && final(self)@ == old(self)@,
                Some(tick) => {
                    let after = old(self)@.accounting.expired(now, max_age);
                    &&& old(self)@.session_id is Some
                    &&& final(self)@ == (WatchView { accounting: after, ..old(self)@ })
                    &&& tick@ == (TickView {
                        expired: after.tasks != old(self)@.accounting.tasks,
                        turns: Seq::empty(),
                        settled: Seq::empty(),
                    })
                },
            },
    {
        if self.session_id.is_none() {
            return None;
        }
        let expired: bool = self.accounting.expire(now, max_age);
        let tick = Tick { expired, turns: Vec::new(), settled: Vec::new() };
        assert(tick@.turns =~= Seq::<Seq<char>>::empty());
        assert(tick@.settled =~= Seq::<Settlement>::empty());
        Some(tick)
    }

    /// Takes up a transcript that was found. What was written before the watch began is
    /// passed over.
    pub fn adopt_file(&mut self, len: Option<u64>, content: Option<&Vec<u8>>)
        requires
            old(self).wf(),
        ensures
            final(self).wf(),
            final(self)@ == old(self)@.adopted(
                len,
                match content {
                    Some(bytes) => Some(bytes@),
                    None => None,
                },
            ),
    {
        match len {
            Some(n) => {
                self.committed = match (self.epoch, content) {
                    (Some(epoch), Some(bytes)) => baseline_offset_since(bytes.as_slice(), epoch),
                    _ => n,
                };
            },
            None => {},
        }
        self.located = true;
    }

    /// Takes what the file system says of the transcript.
    pub fn observe_stat(&mut self, stat: Option<FileStat>) -> (r: StatOutcome)
        requires
            old(self).wf(),
            old(self)@.committed + old(self)@.carry.len() <= u64::MAX,
        ensures
            final(self).wf(),
            (r, final(self)@) == old(self)@.observed(stat),
    {
        match stat {
            None => {
                self.located = false;
                StatOutcome::Lost
            },
            Some(s) => {
                let unchanged: bool = match self.last_stat {
                    Some(last) => last == s,
                    None => false,
                };
                self.last_stat = Some(s);
                if s.len < self.committed {
                    self.committed = s.len;
                    self.carry = Vec::new();
                    self.episode = None;
                    self.mode = Mode::Foreground;
                    assert(self@ =~= old(self)@.observed(stat).1);
                    return StatOutcome::Shrunk;
                }
                if unchanged {
                    StatOutcome::Unchanged
                } else {
                    StatOutcome::ReadFrom(self.committed + self.carry.len() as u64)
                }
            },
        }
    }

    /// Takes bytes that were read from the transcript, and gives the lines that are now
    /// complete. A line that is not text is passed over; its bytes count all the same.
    pub fn read_new_lines(&mut self, fresh: &[u8], now: u64) -> (r: Vec<String>)
        requires
            old(self).wf(),
            old(self)@.committed + old(self)@.carry.len() + fresh@.len() <= u64::MAX,
        ensures
            final(self).wf(),
            texts(r@) == old(self)@.new_lines(fresh@),
            final(self)@ == old(self)@.ingested(fresh@, now),
    {
        let ghost start = self@;
        let mut lines: Vec<String> = Vec::new();
        let mut i: usize = 0;
        proof {
            lemma_unbroken(start.carry);
            assert(start.carry + fresh@.take(0) =~= start.carry);
            assert(texts(lines@) =~= text_lines(lines_of(start.carry + fresh@.take(0))));
        }
        while i < fresh.len()
            invariant
                i <= fresh@.len(),
                self.wf(),
                start == old(self)@,
                start.committed + start.carry.len() + fresh@.len() <= u64::MAX,
                self@.carry == rest_of(start.carry + fresh@.take(i as int)),
                self@.committed + self@.carry.len() == start.committed + start.carry.len() + i,
                self@ == (WatchView {
                    committed: self@.committed,
                    carry: self@.carry,
                    ..start
                }),
                texts(lines@) == text_lines(lines_of(start.carry + fresh@.take(i as int))),
            decreases fresh.len() - i,
        {
            let b: u8 = fresh[i];
            let ghost seen = start.carry + fresh@.take(i as int);
            let ghost next = start.carry + fresh@.take(i + 1);
            proof {
                assert(next.drop_last() =~= seen);
                assert(next.last() == b);
            }
            if b == 10 {
                let ghost line = self.carry@;
                let ghost before = lines@;
                self.committed = self.committed + self.carry.len() as u64 + 1;
                proof {
                    assert(lines_of(next).drop_last() =~= lines_of(seen));
                }
                match text_of_utf8(self.carry.as_slice()) {
                    Some(text) => {
                        lines.push(text);
                        assert(texts(lines@) =~= texts(before).push(text@));
                    },
                    None => {},
                }
                self.carry = Vec::new();
                assert(self.carry@ =~= rest_of(next));
            } else {
                let ghost was = self.carry@;
                self.carry.push(b);
                assert forall|k: int| 0 <= k < self.carry@.len() implies #[trigger] self.carry@[k]
                    != 10 by {
                    if k < was.len() {
                        assert(was[k] != 10);
                    }
                }
                assert(self.carry@ =~= rest_of(next));
            }
            i = i + 1;
        }
        assert(fresh@.take(i as int) =~= fresh@);
        if lines.len() > 0 {
            self.last_activity = Some(now);
        }
        assert(lines@.len() == texts(lines@).len());
        assert(self@ =~= start.ingested(fresh@, now));
        lines
    }

    /// Takes the base of a new episode.
    pub fn next_episode_base(&mut self) -> (base: u64)
        requires
            old(self).wf(),
            old(self)@.last_base < u64::MAX,
        ensures
            final(self).wf(),
            base == base_after(old(self)@.committed as nat, old(self)@.last_base as nat),
            final(self)@ == (WatchView { last_base: base, ..old(self)@ }),
    {
        self.last_base = if self.committed > self.last_base {
            self.committed
        } else {
            self.last_base + 1
        };
        self.last_base
    }

    /// Decides where a record goes. `open_messages` is the number of messages in the
    /// episode at hand. The episode itself changes with [`WatchState::change_episode`],
    /// once its turns are collected where the plan asks for that.
    pub fn classify_and_feed(
        &self,
        record: &Json,
        ledger: &mut PromptLedger,
        now: u64,
        open_messages: usize,
    ) -> (plan: FeedPlan)
        requires
            self.wf(),
        ensures
            (plan, final(ledger)@) == classified(
                self@,
                old(ledger)@,
                record@,
                now,
                open_messages as int,
            ),
    {
        match turn_initiator_text(record) {
            Some(text) => {
                if ledger.consume_matching(text.as_str(), now) {
                    let flush: bool = self.episode.is_some();
                    return FeedPlan { flush, change: EpisodeChange::Close, feed: false };
                }
                let full: bool = self.episode.is_some() && open_messages >= MAX_EPISODE_MESSAGES;
                if self.episode.is_none() || full {
                    return FeedPlan { flush: full, change: EpisodeChange::Open, feed: true };
                }
                FeedPlan { flush: false, change: EpisodeChange::Keep, feed: true }
            },
            None => {
                if self.episode.is_none() {
                    return FeedPlan { flush: false, change: EpisodeChange::Keep, feed: false };
                }
                if open_messages >= FORCE_ROTATE_MESSAGES {
                    return FeedPlan { flush: true, change: EpisodeChange::Open, feed: true };
                }
                FeedPlan { flush: false, change: EpisodeChange::Keep, feed: true }
            },
        }
    }

    /// Ends the episode at hand or begins another.
    pub fn change_episode(&mut self, change: EpisodeChange)
        requires
            old(self).wf(),
            change is Open ==> old(self)@.last_base < u64::MAX,
        ensures
            final(self).wf(),
            final(self)@ == old(self)@.changed(change),
    {
        match change {
            EpisodeChange::Keep => {},
            EpisodeChange::Close => {
                self.episode = None;
                self.mode = Mode::Foreground;
            },
            EpisodeChange::Open => {
                let base: u64 = self.next_episode_base();
                self.episode = Some(Episode { base, emitted: Vec::new() });
                self.mode = Mode::Background;
            },
        }
        assert(self@ =~= old(self)@.changed(change));
    }

    /// Takes a record of the transcript into the account of tasks, and decides where it
    /// goes.
    pub fn process_record(
        &mut self,
        record: &Json,
        ledger: &mut PromptLedger,
        now: u64,
        open_messages: usize,
        tick: &mut Tick,
    ) -> (plan: FeedPlan)
        requires
            old(self).wf(),
        ensures
            final(self).wf(),
            final(self)@ == (WatchView {
                accounting: old(self)@.accounting.after(record@, now),
                ..old(self)@
            }),
            (plan, final(ledger)@) == classified(
                final(self)@,
                old(ledger)@,
                record@,
                now,
                open_messages as int,
            ),
            final(tick)@ == (TickView {
                settled: with_notice(old(tick)@.settled, record@),
                ..old(tick)@
            }),
    {
        self.accounting.account(record, now, &mut tick.settled);
        self.classify_and_feed(record, ledger, now, open_messages)
    }

    /// Takes a line of the transcript. A line that is no record is passed over.
    pub fn process_line(
        &mut self,
        line: &str,
        ledger: &mut PromptLedger,
        now: u64,
        open_messages: usize,
        tick: &mut Tick,
    ) -> (plan: FeedPlan)
        requires
            old(self).wf(),
        ensures
            final(self).wf(),
            match json_of_text(line@) {
                None => plan == FeedPlan::nothing() && final(self)@ == old(self)@ && final(ledger)@
                    == old(ledger)@ && final(tick)@ == old(tick)@,
                Some(record) => final(self)@ == (WatchView {
                    accounting: old(self)@.accounting.after(record, now),
                    ..old(self)@
                }) && (plan, final(ledger)@) == classified(
                    final(self)@,
                    old(ledger)@,
                    record,
                    now,
                    open_messages as int,
                ) && final(tick)@ == (TickView {
                    settled: with_notice(old(tick)@.settled, record),
                    ..old(tick)@
                }),
            },
    {
        match parse_json(line) {
            Some(record) => self.process_record(&record, ledger, now, open_messages, tick),
            None => FeedPlan { flush: false, change: EpisodeChange::Keep, feed: false },
        }
    }

    /// Takes the hashes of the turns of the episode at hand, and gives the positions of
    /// those that are new or have changed since they were last reported.
    pub fn collect_changed_turns(&mut self, hashes: &Vec<u64>, tick: &mut Tick) -> (r: Vec<usize>)
        requires
            old(self).wf(),
        ensures
            final(self).wf(),
            match old(self)@.episode {
                None => r@.len() == 0 && final(self)@ == old(self)@ && final(tick)@ == old(tick)@,
                Some(e) => {
                    let changed = changed_below(e.emitted, hashes@, hashes@.len() as int);
                    &&& r@.map_values(|i: usize| i as int) == changed
                    &&& final(self)@ == (WatchView {
                        episode: Some(
                            EpisodeView { base: e.base, emitted: reported(e.emitted, hashes@) },
                        ),
                        ..old(self)@
                    })
                    &&& final(tick)@ == (TickView {
                        turns: old(tick)@.turns + ids_of(e.base as nat, changed),
                        ..old(tick)@
                    })
                },
            },
    {
        let mut out: Vec<usize> = Vec::new();
        let ghost start = self@;
        let ghost tick_start = tick@;
        match self.episode.take() {
            None => out,
            Some(episode) => {
                let base: u64 = episode.base;
                let mut emitted: Vec<u64> = episode.emitted;
                let ghost known = emitted@;
                let mut i: usize = 0;
                proof {
                    assert(known.take(0) =~= Seq::<u64>::empty());
                    assert(out@.map_values(|i: usize| i as int) =~= Seq::<int>::empty());
                    assert(tick_start.turns + ids_of(base as nat, Seq::empty())
                        =~= tick_start.turns);
                }
                while i < hashes.len()
                    invariant
                        i <= hashes@.len(),
                        emitted@.len() == if known.len() > i {
                            known.len() as int
                        } else {
                            i as int
                        },
                        forall|k: int| 0 <= k < i ==> emitted@[k] == hashes@[k],
                        forall|k: int| i <= k < known.len() ==> emitted@[k] == known[k],
                        out@.map_values(|i: usize| i as int) == changed_below(
                            known,
                            hashes@,
                            i as int,
                        ),
                        tick@ == (TickView {
                            turns: tick_start.turns + ids_of(
                                base as nat,
                                changed_below(known, hashes@, i as int),
                            ),
                            ..tick_start
                        }),
                    decreases hashes.len() - i,
                {
                    let same: bool = i < emitted.len() && emitted[i] == hashes[i];
                    let ghost before = changed_below(known, hashes@, i as int);
                    if !same {
                        if i < emitted.len() {
                            emitted.set(i, hashes[i]);
                        } else {
                            emitted.push(hashes[i]);
                        }
                        let ghost listed = out@;
                        out.push(i);
                        let id: String = turn_id(base, i);
                        let ghost ids = tick.turns@;
                        tick.turns.push(id);
                        proof {
                            assert(out@.map_values(|i: usize| i as int) =~= listed.map_values(
                                |i: usize| i as int,
                            ).push(i as int));
                            assert(texts(tick.turns@) =~= texts(ids).push(id@));
                            assert(tick_start.turns + ids_of(base as nat, before.push(i as int))
                                =~= (tick_start.turns + ids_of(base as nat, before)).push(id@));
                        }
                    }
                    i = i + 1;
                }
                assert(emitted@ =~= reported(known, hashes@));
                self.episode = Some(Episode { base, emitted });
                out
            },
        }
    }

    /// Ends a look at the transcript: what to report, if anything. There is something
    /// where turns are new or have changed, tasks have ended or were dropped, or the
    /// number of outstanding tasks is another than was last reported.
    pub fn finish_tick(&mut self, tick: Tick) -> (r: Option<BackgroundActivity>)
        requires
            old(self).wf(),
        ensures
            final(self).wf(),
            ({
                let v = old(self)@;
                let silent = v.has_nothing_new(tick@);
                match r {
                    None => (v.session_id is None || silent) && final(self)@ == v,
                    Some(activity) => v.session_id is Some && !silent && final(self)@
                        == (WatchView { last_outstanding: Some(v.outstanding()), ..v }) && activity@
                        == (ActivityView {
                        session_id: v.session_id->0,
                        turns: tick@.turns,
                        outstanding: v.outstanding(),
                        settled: tick@.settled,
                        watermark: v.committed,
                    }),
                }
            }),
    {
        match &self.session_id {
            None => None,
            Some(id) => {
                let outstanding: u32 = #[verifier::truncate]
                (self.accounting.task_count() as u32);
                let same: bool = match self.last_outstanding {
                    Some(n) => n == outstanding,
                    None => false,
                };
                assert(tick.turns@.len() == tick@.turns.len());
                assert(tick.settled@.len() == tick@.settled.len());
                if tick.turns.len() == 0 && tick.settled.len() == 0 && !tick.expired && same {
                    return None;
                }
                let session_id: String = id.clone();
                self.last_outstanding = Some(outstanding);
                Some(
                    BackgroundActivity {
                        session_id,
                        turns: tick.turns,
                        outstanding,
                        settled: tick.settled,
                        watermark: self.committed,
                    },
                )
            },
        }
    }
}

// ---------------------------------------------------------------------------
// A watch over the life of a connection
// ---------------------------------------------------------------------------

/// The watch of a connection: its state, and from when on records belong to it.
#[derive(Debug)]
pub struct Watcher {
    pub state: WatchState,
    /// When the connection was made.
    pub spawn_epoch: Stamp,
    /// A session was watched before.
    pub armed_before: bool,
}

impl Watcher {
    /// From when on the records of a session count that the watch turns to: the first
    /// time since the connection was made, later since the session changed.
    pub open spec fn epoch_for(self, changed_at: Option<Stamp>, now: Stamp) -> Stamp {
        if !self.armed_before {
            self.spawn_epoch
        } else {
            match changed_at {
                Some(at) => at,
                None => now,
            }
        }
    }

    pub fn new(spawn_epoch: Stamp) -> (r: Watcher)
        ensures
            r.state.wf(),
            r.state@ == WatchView::fresh(),
            r.spawn_epoch == spawn_epoch,
            !r.armed_before,
    {
        Watcher { state: WatchState::new(), spawn_epoch, armed_before: false }
    }

    /// Turns to the session at hand; whether there is one to look at.
    pub fn follow_session(
        &mut self,
        session_id: Option<&str>,
        changed_at: Option<Stamp>,
        now: Stamp,
    ) -> (r: bool)
        requires
            old(self).state.wf(),
        ensures
            final(self).state.wf(),
            final(self).spawn_epoch == old(self).spawn_epoch,
            match session_id {
                None => !r && *final(self) == *old(self),
                Some(id) => r && if old(self).state@.session_id == Some(id@) {
                    *final(self) == *old(self)
                } else {
                    final(self).armed_before && final(self).state@ == old(self).state@.rearmed(
                        id@,
                        old(self).epoch_for(changed_at, now),
                    )
                },
            },
    {
        match session_id {
            None => false,
            Some(id) => {
                if !self.state.watches(id) {
                    let epoch: Stamp = if self.armed_before {
                        match changed_at {
                            Some(at) => at,
                            None => now,
                        }
                    } else {
                        self.spawn_epoch
                    };
                    self.armed_before = true;
                    self.state.rearm(id, epoch);
                }
                true
            },
        }
    }

    /// Starts over after a look that went wrong.
    pub fn reset(&mut self)
        ensures
            final(self).state.wf(),
            final(self).state@ == WatchView::fresh(),
            final(self).spawn_epoch == old(self).spawn_epoch,
            final(self).armed_before == old(self).armed_before,
    {
        self.state = WatchState::new();
    }
}

// ---------------------------------------------------------------------------
// What holds of a watch as a whole
// ---------------------------------------------------------------------------

proof fn lemma_decimal_has_no_hyphen(n: nat)
    ensures
        decimal(n).len() > 0,
        forall|i: int| 0 <= i < decimal(n).len() ==> #[trigger] decimal(n)[i] != '-',
    decreases n,
{
    if n >= 10 {
        lemma_decimal_has_no_hyphen(n / 10);
        let shorter = decimal(n / 10);
        assert forall|i: int| 0 <= i < decimal(n).len() implies #[trigger] decimal(n)[i] != '-' by {
            if i < shorter.len() {
                assert(decimal(n)[i] == shorter[i]);
            }
        }
    }
}

/// A turn's id names its episode and its position: two turns with the same id are the
/// same turn.
pub proof fn law_turn_ids_are_unique(base1: nat, index1: nat, base2: nat, index2: nat)
    requires
        turn_id_of(base1, index1) == turn_id_of(base2, index2),
    ensures
        base1 == base2,
        index1 == index2,
{
    reveal_strlit("bg-");
    reveal_strlit("-");
    let (b1, b2) = (decimal(base1), decimal(base2));
    let (i1, i2) = (decimal(index1), decimal(index2));
    let (s1, s2) = (turn_id_of(base1, index1), turn_id_of(base2, index2));
    lemma_decimal_has_no_hyphen(base1);
    lemma_decimal_has_no_hyphen(base2);
    if b1.len() < b2.len() {
        assert(s1[3 + b1.len() as int] == '-');
        assert(s2[3 + b1.len() as int] == b2[b1.len() as int]);
    }
    if b2.len() < b1.len() {
        assert(s2[3 + b2.len() as int] == '-');
        assert(s1[3 + b2.len() as int] == b1[b2.len() as int]);
    }
    assert(b1 =~= b2) by {
        assert forall|k: int| 0 <= k < b1.len() implies b1[k] == b2[k] by {
            assert(s1[3 + k] == b1[k]);
            assert(s2[3 + k] == b2[k]);
        }
    }
    let skip = 4 + b1.len() as int;
    assert(s1.len() == skip + i1.len());
    assert(s2.len() == skip + i2.len());
    assert(i1 =~= i2) by {
        assert forall|k: int| 0 <= k < i1.len() implies i1[k] == i2[k] by {
            assert(s1[skip + k] == i1[k]);
            assert(s2[skip + k] == i2[k]);
        }
    }
    crate::number::law_decimal_injective(base1, base2);
    crate::number::law_decimal_injective(index1, index2);
}

/// The bases of episodes that begin one after the other, where `offsets` tells for each
/// how many bytes were read when it began and `last` is the base before.
pub open spec fn bases_after(offsets: Seq<nat>, last: nat) -> Seq<nat>
    decreases offsets.len(),
{
    if offsets.len() == 0 {
        Seq::empty()
    } else {
        let before = bases_after(offsets.drop_last(), last);
        let latest = if before.len() == 0 {
            last
        } else {
            before.last()
        };
        before.push(base_after(offsets.last(), latest))
    }
}

/// The bases of episodes strictly increase, also where nothing was read in between.
pub proof fn law_episode_bases_rise(offsets: Seq<nat>, last: nat)
    ensures
        bases_after(offsets, last).len() == offsets.len(),
        forall|i: int|
            0 <= i < offsets.len() ==> #[trigger] bases_after(offsets, last)[i] > last
                && bases_after(offsets, last)[i] >= offsets[i],
        forall|i: int, j: int|
            0 <= i < j < offsets.len() ==> #[trigger] bases_after(offsets, last)[i]
                < #[trigger] bases_after(offsets, last)[j],
    decreases offsets.len(),
{
    if offsets.len() > 0 {
        let before = bases_after(offsets.drop_last(), last);
        let all = bases_after(offsets, last);
        law_episode_bases_rise(offsets.drop_last(), last);
        assert forall|i: int| 0 <= i < offsets.len() implies #[trigger] all[i] > last && all[i]
            >= offsets[i] by {
            if i < before.len() {
                assert(all[i] == before[i]);
            } else if before.len() > 0 {
                assert(before[before.len() - 1] > last);
            }
        }
        assert forall|i: int, j: int| 0 <= i < j < offsets.len() implies #[trigger] all[i]
            < #[trigger] all[j] by {
            assert(all[i] == before[i]);
            if j < before.len() {
                assert(all[j] == before[j]);
            } else if i < before.len() - 1 {
                assert(before[i] < before[before.len() - 1]);
            }
        }
    }
}

/// No turn of a new episode has the id of a turn of an earlier one: the base of the new
/// episode is past every base before, and none is given out again.
pub proof fn law_new_episode_has_new_ids(
    v: WatchView,
    entries: Seq<Fingerprint>,
    record: JsonView,
    now: u64,
    open_messages: int,
    earlier: u64,
    index1: nat,
    index2: nat,
)
    requires
        v.last_base < u64::MAX,
        earlier <= v.last_base,
    ensures
        ({
            let plan = classified(v, entries, record, now, open_messages).0;
            let after = v.changed(plan.change);
            &&& after.last_base >= v.last_base
            &&& plan.change is Open ==> {
                &&& after.last_base > v.last_base
                &&& after.episode matches Some(e) && e.base == after.last_base
                &&& turn_id_of(earlier as nat, index1) != turn_id_of(after.last_base as nat, index2)
            }
        }),
{
    let base = v.next_base();
    if turn_id_of(earlier as nat, index1) == turn_id_of(base as nat, index2) {
        law_turn_ids_are_unique(earlier as nat, index1, base as nat, index2);
    }
}

/// An episode never grows past the point at which it is cut: a record is added to the
/// episode at hand only below that number of messages.
pub proof fn law_episode_is_bounded(
    v: WatchView,
    entries: Seq<Fingerprint>,
    record: JsonView,
    now: u64,
    open_messages: int,
)
    ensures
        ({
            let plan = classified(v, entries, record, now, open_messages).0;
            plan.feed && plan.change is Keep ==> open_messages < FORCE_ROTATE_MESSAGES
        }),
{
}

/// A turn that the application sent is not gathered: its first record ends the episode
/// at hand, and none of the records that continue it begins another.
pub proof fn law_sent_turn_is_not_gathered(
    v: WatchView,
    entries: Seq<Fingerprint>,
    first: JsonView,
    next: JsonView,
    now: u64,
    open_messages: int,
)
    requires
        initiator_text(first) matches Some(text) && consumed(entries, text, now).1,
        initiator_text(next) is None,
    ensures
        ({
            let (plan, left) = classified(v, entries, first, now, open_messages);
            let after = v.changed(plan.change);
            &&& !plan.feed && plan.change is Close && after.episode is None
            &&& classified(after, left, next, now, open_messages) == (FeedPlan::nothing(), left)
        }),
{
}

/// No episode ends unreported: what has changed in it is collected before it ends or
/// makes room for another.
pub proof fn law_episode_is_collected_before_it_ends(
    v: WatchView,
    entries: Seq<Fingerprint>,
    record: JsonView,
    now: u64,
    open_messages: int,
)
    requires
        (v.mode is Background) == (v.episode is Some),
    ensures
        ({
            let plan = classified(v, entries, record, now, open_messages).0;
            v.episode is Some && !(plan.change is Keep) ==> plan.flush
        }),
{
}

/// A turn that was reported is not reported again as long as it stays as it is.
pub proof fn law_unchanged_turns_are_not_repeated(emitted: Seq<u64>, hashes: Seq<u64>, upto: int)
    requires
        0 <= upto <= hashes.len(),
    ensures
        changed_below(reported(emitted, hashes), hashes, upto) == Seq::<int>::empty(),
    decreases upto,
{
    if upto > 0 {
        law_unchanged_turns_are_not_repeated(emitted, hashes, upto - 1);
    }
}

/// A turn whose hash is another than the one last reported is among those to report.
pub proof fn law_changed_turn_is_reported(
    emitted: Seq<u64>,
    hashes: Seq<u64>,
    upto: int,
    index: int,
)
    requires
        0 <= index < upto <= hashes.len(),
    ensures
        changed_below(emitted, hashes, upto).contains(index) <==> !(index < emitted.len()
            && emitted[index] == hashes[index]),
    decreases upto,
{
    let shorter = changed_below(emitted, hashes, upto - 1);
    lemma_changed_below_bound(emitted, hashes, upto - 1);
    if index < upto - 1 {
        law_changed_turn_is_reported(emitted, hashes, upto - 1, index);
        let all = changed_below(emitted, hashes, upto);
        if shorter.contains(index) {
            let k = choose|k: int| 0 <= k < shorter.len() && shorter[k] == index;
            assert(all[k] == index);
        }
        if all.contains(index) {
            let k = choose|k: int| 0 <= k < all.len() && all[k] == index;
            if k < shorter.len() {
                assert(shorter[k] == index);
            }
        }
    } else {
        let all = changed_below(emitted, hashes, upto);
        if !(index < emitted.len() && emitted[index] == hashes[index]) {
            assert(all[all.len() - 1] == index);
        } else if all.contains(index) {
            let k = choose|k: int| 0 <= k < all.len() && all[k] == index;
            assert(shorter[k] < upto - 1);
        }
    }
}

proof fn lemma_changed_below_bound(emitted: Seq<u64>, hashes: Seq<u64>, upto: int)
    ensures
        forall|k: int|
            0 <= k < changed_below(emitted, hashes, upto).len() ==> 0 <= #[trigger] changed_below(
                emitted,
                hashes,
                upto,
            )[k] < upto,
    decreases upto,
{
    if upto > 0 {
        lemma_changed_below_bound(emitted, hashes, upto - 1);
        let all = changed_below(emitted, hashes, upto);
        let shorter = changed_below(emitted, hashes, upto - 1);
        assert forall|k: int| 0 <= k < all.len() implies 0 <= #[trigger] all[k] < upto by {
            if k < shorter.len() {
                assert(all[k] == shorter[k]);
            }
        }
    }
}

/// The account of tasks survives a change of session: a sub-agent that settled before
/// it runs again when a message is sent to it after.
pub proof fn law_account_survives_rearm(
    v: WatchView,
    session_id: Seq<char>,
    epoch: Stamp,
    id: Seq<char>,
    now: u64,
)
    ensures
        v.rearmed(session_id, epoch).accounting == v.accounting,
        v.accounting.settled.contains(id) ==> v.rearmed(session_id, epoch).accounting.with_message(
            id,
            now,
        ).tasks.dom().contains(id),
{
}

/// The watermark counts every byte once: what is committed and what is carried over
/// together grow by what was read, and the watermark never goes back.
pub proof fn law_watermark_counts_every_byte(v: WatchView, fresh: Seq<u8>, now: u64)
    requires
        v.committed + v.carry.len() + fresh.len() <= u64::MAX,
        unbroken(v.carry),
    ensures
        v.ingested(fresh, now).committed + v.ingested(fresh, now).carry.len() == v.committed
            + v.carry.len() + fresh.len(),
        v.ingested(fresh, now).committed >= v.committed,
{
    lemma_rest_unbroken(v.carry + fresh);
}

/// A watch without outstanding tasks is silent from the start: a look that finds nothing
/// reports nothing, whichever session the watch turned to.
pub proof fn law_idle_watch_is_silent(
    v: WatchView,
    session_id: Seq<char>,
    epoch: Stamp,
    tick: TickView,
)
    requires
        v.accounting.tasks.dom().len() == 0,
        tick.turns.len() == 0,
        tick.settled.len() == 0,
        !tick.expired,
    ensures
        v.rearmed(session_id, epoch).has_nothing_new(tick),
{
}

/// What was reported is not reported again: a look that finds nothing after one that was
/// reported, with the same tasks outstanding, reports nothing.
pub proof fn law_report_is_not_repeated(v: WatchView, tick: TickView)
    requires
        tick.turns.len() == 0,
        tick.settled.len() == 0,
        !tick.expired,
    ensures
        (WatchView { last_outstanding: Some(v.outstanding()), ..v }).has_nothing_new(tick),
{
}

/// Lines, each with a line break behind it, and what stands behind the last.
pub open spec fn written_out(lines: Seq<Seq<u8>>, rest: Seq<u8>) -> Seq<u8>
    decreases lines.len(),
{
    if lines.len() == 0 {
        rest
    } else {
        written_out(lines.drop_last(), (lines.last() + seq![10u8]) + rest)
    }
}

proof fn lemma_written_out_push(lines: Seq<Seq<u8>>, rest: Seq<u8>, b: u8)
    ensures
        written_out(lines, rest).push(b) == written_out(lines, rest.push(b)),
    decreases lines.len(),
{
    if lines.len() > 0 {
        let longer = (lines.last() + seq![10u8]) + rest;
        lemma_written_out_push(lines.drop_last(), longer, b);
        assert(longer.push(b) =~= (lines.last() + seq![10u8]) + rest.push(b));
    }
}

/// Nothing that was read is lost, added or moved: the lines and what stands behind the last
/// of them, written out again, are the bytes that were read. A line break stands behind
/// each line and nowhere else.
pub proof fn law_lines_are_what_was_read(bytes: Seq<u8>)
    ensures
        written_out(lines_of(bytes), rest_of(bytes)) == bytes,
        forall|i: int, k: int|
            0 <= i < lines_of(bytes).len() && 0 <= k < lines_of(bytes)[i].len()
                ==> #[trigger] lines_of(bytes)[i][k] != 10,
        forall|k: int| 0 <= k < rest_of(bytes).len() ==> #[trigger] rest_of(bytes)[k] != 10,
    decreases bytes.len(),
{
    lemma_rest_unbroken(bytes);
    if bytes.len() > 0 {
        let shorter = bytes.drop_last();
        law_lines_are_what_was_read(shorter);
        lemma_rest_unbroken(shorter);
        let lines = lines_of(shorter);
        let rest = rest_of(shorter);
        lemma_written_out_push(lines, rest, bytes.last());
        assert(shorter.push(bytes.last()) =~= bytes);
        if bytes.last() == 10 {
            assert(lines.push(rest).drop_last() =~= lines);
            assert((rest + seq![10u8]) + Seq::<u8>::empty() =~= rest.push(10u8));
            assert forall|i: int, k: int|
                0 <= i < lines_of(bytes).len() && 0 <= k < lines_of(bytes)[i].len() implies
                #[trigger] lines_of(bytes)[i][k] != 10 by {
                if i < lines.len() {
                    assert(lines_of(bytes)[i] == lines[i]);
                    assert(lines[i][k] != 10);
                } else {
                    assert(lines_of(bytes)[i] == rest);
                }
            }
        }
    }
}

/// A line that is text is handed on, and one that is not is left out; the others stay as
/// they are.
pub proof fn law_lines_that_are_text_are_handed_on(lines: Seq<Seq<u8>>, line: Seq<u8>)
    ensures
        text_lines(Seq::empty()).len() == 0,
        utf8_text(line) matches Some(text) ==> text_lines(lines.push(line)) == text_lines(
            lines,
        ).push(text),
        utf8_text(line) is None ==> text_lines(lines.push(line)) == text_lines(lines),
{
    assert(lines.push(line).drop_last() =~= lines);
}

/// What a read leaves behind: the bytes behind the last line break are kept for the next,
/// those up to it are counted, and the read is noted as activity if it completed a line of
/// text. Nothing else changes.
pub proof fn law_read_keeps_the_rest(v: WatchView, fresh: Seq<u8>, now: u64)
    requires
        v.committed + v.carry.len() + fresh.len() <= u64::MAX,
    ensures
        ({
            let after = v.ingested(fresh, now);
            let all = v.carry + fresh;
            &&& v.new_lines(fresh) == text_lines(lines_of(all))
            &&& after.carry == rest_of(all)
            &&& after.committed == v.committed + (all.len() - rest_of(all).len())
            &&& v.new_lines(fresh).len() > 0 ==> after.last_activity == Some(now)
            &&& v.new_lines(fresh).len() == 0 ==> after.last_activity == v.last_activity
            &&& after.session_id == v.session_id && after.located == v.located
            &&& after.last_stat == v.last_stat && after.mode == v.mode
            &&& after.episode == v.episode && after.accounting == v.accounting
            &&& after.last_outstanding == v.last_outstanding && after.last_base == v.last_base
            &&& after.epoch == v.epoch
        }),
{
    lemma_rest_unbroken(v.carry + fresh);
}

/// A watch that is turned to a session knows that session and from when on its records
/// count; of what it knew before it keeps the account of tasks and nothing else.
pub proof fn law_rearmed_watch_starts_anew(v: WatchView, session_id: Seq<char>, epoch: Stamp)
    ensures
        ({
            let after = v.rearmed(session_id, epoch);
            &&& after.session_id == Some(session_id)
            &&& after.epoch == Some(epoch)
            &&& after.accounting == v.accounting
            &&& !after.located
            &&& after.committed == 0
            &&& after.carry.len() == 0
            &&& after.last_stat is None
            &&& after.mode is Foreground
            &&& after.episode is None
            &&& after.last_activity is None
            &&& after.last_outstanding == Some(0u32)
            &&& after.last_base == 0
        }),
        WatchView::fresh().session_id is None,
        WatchView::fresh().epoch is None,
        WatchView::fresh().accounting == AccountingView::empty(),
        !WatchView::fresh().located,
        WatchView::fresh().committed == 0,
        WatchView::fresh().last_base == 0,
        WatchView::fresh().episode is None,
{
}

/// A transcript that is found is read from the first line that belongs to the watch, where
/// that can be told, and from its end otherwise; one whose length cannot be told, from
/// where the watch stands.
pub proof fn law_found_transcript_is_read_from_its_baseline(
    v: WatchView,
    len: u64,
    bytes: Seq<u8>,
    epoch: Stamp,
    content: Option<Seq<u8>>,
)
    ensures
        v.epoch == Some(epoch) && baseline_from(bytes, 0, epoch) <= u64::MAX && baseline_from(
            bytes,
            0,
            epoch,
        ) >= 0 ==> v.adopted(Some(len), Some(bytes)).committed == baseline_from(bytes, 0, epoch),
        v.epoch is None ==> v.adopted(Some(len), content).committed == len,
        v.adopted(Some(len), None).committed == len,
        v.adopted(None, content).committed == v.committed,
        ({
            let after = v.adopted(Some(len), content);
            &&& after.located
            &&& after.session_id == v.session_id && after.carry == v.carry
            &&& after.last_stat == v.last_stat && after.mode == v.mode
            &&& after.episode == v.episode && after.accounting == v.accounting
            &&& after.last_activity == v.last_activity
            &&& after.last_outstanding == v.last_outstanding
            &&& after.last_base == v.last_base && after.epoch == v.epoch
        }),
        v.adopted(None, content).located,
{
}

/// What is done about the state of the transcript. One that is gone is looked for again.
/// One that is shorter than what was read is gone on with from its end, without the
/// episode. One that is as it was is not read, and any other is read from where the last
/// read ended.
pub proof fn law_what_the_state_of_the_transcript_means(v: WatchView, s: FileStat)
    requires
        v.committed + v.carry.len() <= u64::MAX,
    ensures
        v.observed(None).0 is Lost,
        !v.observed(None).1.located,
        v.observed(None).1.committed == v.committed && v.observed(None).1.carry == v.carry,
        v.observed(None).1.episode == v.episode && v.observed(None).1.last_stat == v.last_stat,
        v.observed(Some(s)).1.last_stat == Some(s),
        v.observed(Some(s)).1.located == v.located,
        v.observed(Some(s)).1.accounting == v.accounting,
        v.observed(Some(s)).1.session_id == v.session_id,
        v.observed(Some(s)).1.last_base == v.last_base,
        s.len < v.committed ==> v.observed(Some(s)).0 is Shrunk && v.observed(Some(s)).1.committed
            == s.len && v.observed(Some(s)).1.carry.len() == 0 && v.observed(Some(s)).1.episode
            is None && v.observed(Some(s)).1.mode is Foreground,
        s.len >= v.committed ==> v.observed(Some(s)).1.committed == v.committed && v.observed(
            Some(s),
        ).1.carry == v.carry && v.observed(Some(s)).1.episode == v.episode && v.observed(
            Some(s),
        ).1.mode == v.mode,
        s.len >= v.committed && v.last_stat == Some(s) ==> v.observed(Some(s)).0 is Unchanged,
        s.len >= v.committed && v.last_stat != Some(s) ==> v.observed(Some(s)).0
            == StatOutcome::ReadFrom((v.committed + v.carry.len()) as u64),
{
}

/// A watch polls every second while a task is outstanding or the transcript grew less than
/// half a minute ago, and every three seconds otherwise.
pub proof fn law_when_a_watch_is_busy(v: WatchView, id: Seq<char>, at: u64, now: u64)
    ensures
        v.accounting.tasks.dom().contains(id) ==> v.busy(now),
        v.last_activity == Some(at) && (now < at || now - at < 30_000_000_000) ==> v.busy(now),
        (forall|id: Seq<char>| !v.accounting.tasks.dom().contains(id)) && (v.last_activity is None
            || (v.last_activity == Some(at) && now >= at && now - at >= 30_000_000_000))
            ==> !v.busy(now),
        POLL_ACTIVE_NANOS == 1_000_000_000,
        POLL_IDLE_NANOS == 3_000_000_000,
{
    let none = Map::<Seq<char>, crate::accounting::TaskEntry>::empty();
    if v.accounting.tasks.dom().contains(id) {
        assert(!none.dom().contains(id));
    }
    if forall|id: Seq<char>| !v.accounting.tasks.dom().contains(id) {
        assert(v.accounting.tasks =~= none);
    }
}

/// There is something to report if and only if a turn changed, a task ended, a task was
/// forgotten, or the number of outstanding tasks is not the one reported last.
pub proof fn law_when_there_is_something_to_report(v: WatchView, tick: TickView)
    requires
        v.accounting.tasks.dom().len() <= u32::MAX,
    ensures
        !v.has_nothing_new(tick) <==> tick.turns.len() > 0 || tick.settled.len() > 0
            || tick.expired || v.last_outstanding is None || v.last_outstanding->0
            != v.accounting.tasks.dom().len(),
        v.outstanding() == v.accounting.tasks.dom().len(),
{
}

/// A record that opens a turn. One that was sent ends the episode at hand, which is
/// collected first, and is no part of any. One that was not sent belongs to an episode: the
/// one at hand, unless there is none or it holds 512 messages, and otherwise a new one.
pub proof fn law_record_that_opens_a_turn(
    v: WatchView,
    entries: Seq<Fingerprint>,
    record: JsonView,
    now: u64,
    open_messages: int,
    text: Seq<char>,
)
    requires
        (v.mode is Background) == (v.episode is Some),
        initiator_text(record) == Some(text),
    ensures
        ({
            let (plan, left) = classified(v, entries, record, now, open_messages);
            let sent = consumed(entries, text, now).1;
            &&& left == consumed(entries, text, now).0
            &&& sent ==> plan.change is Close && !plan.feed && plan.flush == (v.episode is Some)
            &&& !sent ==> plan.feed
            &&& !sent && v.episode is None ==> plan.change is Open && !plan.flush
            &&& !sent && v.episode is Some && open_messages >= 512 ==> plan.change is Open
                && plan.flush
            &&& !sent && v.episode is Some && open_messages < 512 ==> plan.change is Keep
                && !plan.flush
        }),
{
}

/// Any other record goes with what is at hand: it is added to the episode, or to a new one
/// once that holds 1024 messages, and passed over where there is none. No prompt is used up
/// by it.
pub proof fn law_record_that_goes_on(
    v: WatchView,
    entries: Seq<Fingerprint>,
    record: JsonView,
    now: u64,
    open_messages: int,
)
    requires
        (v.mode is Background) == (v.episode is Some),
        initiator_text(record) is None,
    ensures
        ({
            let (plan, left) = classified(v, entries, record, now, open_messages);
            &&& left == entries
            &&& v.episode is None ==> plan.change is Keep && !plan.feed && !plan.flush
            &&& v.episode is Some ==> plan.feed
            &&& v.episode is Some && open_messages >= 1024 ==> plan.change is Open && plan.flush
            &&& v.episode is Some && open_messages < 1024 ==> plan.change is Keep && !plan.flush
        }),
{
}

/// What a change of the episode leaves: none after its end, and a new one without turns
/// where one begins, at the offset of the read or, if that is not beyond the base of the
/// one before, right behind that base.
pub proof fn law_what_a_change_of_episode_leaves(v: WatchView)
    requires
        v.last_base < u64::MAX,
    ensures
        v.changed(EpisodeChange::Keep) == v,
        v.changed(EpisodeChange::Close).episode is None,
        v.changed(EpisodeChange::Close).mode is Foreground,
        v.changed(EpisodeChange::Close).last_base == v.last_base,
        v.changed(EpisodeChange::Close).accounting == v.accounting,
        v.changed(EpisodeChange::Close).committed == v.committed,
        v.changed(EpisodeChange::Open).mode is Background,
        v.changed(EpisodeChange::Open).episode matches Some(e) && e.emitted.len() == 0 && e.base
            == v.changed(EpisodeChange::Open).last_base,
        v.changed(EpisodeChange::Open).last_base == if v.committed > v.last_base {
            v.committed as int
        } else {
            v.last_base + 1
        },
        v.changed(EpisodeChange::Open).accounting == v.accounting,
        v.changed(EpisodeChange::Open).committed == v.committed,
        v.changed(EpisodeChange::Open).carry == v.carry,
{
}

/// The id of a turn names the base of its episode and its place in it.
pub proof fn law_turn_ids_name_base_and_place(base: nat, index: nat, indices: Seq<int>, k: int)
    ensures
        turn_id_of(base, index) == "bg-"@ + decimal(base) + "-"@ + decimal(index),
        ids_of(base, indices).len() == indices.len(),
        0 <= k < indices.len() ==> ids_of(base, indices)[k] == turn_id_of(base, indices[k] as nat),
{
}

/// Changed turns are reported in order, and each once.
pub proof fn law_changed_turns_are_in_order(
    emitted: Seq<u64>,
    hashes: Seq<u64>,
    upto: int,
    i: int,
    j: int,
)
    requires
        0 <= i < j < changed_below(emitted, hashes, upto).len(),
    ensures
        changed_below(emitted, hashes, upto)[i] < changed_below(emitted, hashes, upto)[j],
    decreases upto,
{
    if upto > 0 {
        let before = changed_below(emitted, hashes, upto - 1);
        lemma_changed_below_bound(emitted, hashes, upto - 1);
        if j < before.len() {
            law_changed_turns_are_in_order(emitted, hashes, upto - 1, i, j);
            assert(changed_below(emitted, hashes, upto)[i] == before[i]);
            assert(changed_below(emitted, hashes, upto)[j] == before[j]);
        } else {
            assert(changed_below(emitted, hashes, upto)[i] == before[i]);
        }
    }
}

/// What was reported is remembered turn by turn: as it is now for the turns that there are,
/// and as it was for any beyond.
pub proof fn law_reported_turns_are_remembered(emitted: Seq<u64>, hashes: Seq<u64>, i: int)
    ensures
        reported(emitted, hashes).len() == if emitted.len() > hashes.len() {
            emitted.len()
        } else {
            hashes.len()
        },
        0 <= i < hashes.len() ==> reported(emitted, hashes)[i] == hashes[i],
        hashes.len() <= i < emitted.len() ==> reported(emitted, hashes)[i] == emitted[i],
{
}

/// The records of the first session count from when the connection was made; those of any
/// later one from when the session changed, or from now where that is not known.
pub proof fn law_from_when_on_records_count(w: Watcher, at: Stamp, now: Stamp)
    ensures
        !w.armed_before ==> w.epoch_for(Some(at), now) == w.spawn_epoch && w.epoch_for(None, now)
            == w.spawn_epoch,
        w.armed_before ==> w.epoch_for(Some(at), now) == at && w.epoch_for(None, now) == now,
{
}


} // verus!
