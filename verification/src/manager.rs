//! The connections to running agents.
use vstd::prelude::*;

use crate::bytes::same_bytes;
use crate::clock::Stamp;
use crate::error::{AcpError, AcpErrorView};
use crate::models::AgentType;
use crate::number::{parse_u64, u64_of_text};
use crate::text::{opt_view, same_text, texts};

verus! {

/// How long to wait for a new agent to begin its session unless told otherwise, in
/// seconds.
pub const SPAWN_HANDSHAKE_TIMEOUT_SECS: u64 = 60;

/// The longest idle time that a sweep can be asked for, in nanoseconds.
pub const MAX_IDLE_NANOS: i128 = 9_223_372_036_854_775_807_000_000;

/// The state of a connection.
#[derive(Clone, Copy, PartialEq, Eq, Structural, Debug)]
pub enum ConnectionStatus {
    Connecting,
    Connected,
    Prompting,
    Disconnected,
    Error,
}

impl ConnectionStatus {
    /// The connection is over.
    pub open spec fn is_terminal(self) -> bool {
        self is Disconnected || self is Error
    }

    /// Whether the connection is over.
    pub fn is_over(self) -> (r: bool)
        ensures
            r == self.is_terminal(),
    {
        match self {
            ConnectionStatus::Disconnected => true,
            ConnectionStatus::Error => true,
            _ => false,
        }
    }
}

/// A directory, as the list of its components.
#[derive(Debug)]
pub struct WorkingDir {
    pub components: Vec<Vec<u8>>,
}

impl View for WorkingDir {
    type V = Seq<Seq<u8>>;

    open spec fn view(&self) -> Seq<Seq<u8>> {
        self.components@.map_values(|c: Vec<u8>| c@)
    }
}

/// The model of an optional directory.
pub open spec fn dir_view(dir: Option<WorkingDir>) -> Option<Seq<Seq<u8>>> {
    match dir {
        Some(d) => Some(d@),
        None => None,
    }
}

/// The model of an optional reference to a directory.
pub open spec fn dir_ref_view(dir: Option<&WorkingDir>) -> Option<Seq<Seq<u8>>> {
    match dir {
        Some(d) => Some(d@),
        None => None,
    }
}

/// What is known of a connection.
#[derive(Debug)]
pub struct Connection {
    pub id: String,
    pub agent_type: AgentType,
    pub owner_window_label: String,
    pub status: ConnectionStatus,
    pub working_dir: Option<WorkingDir>,
    /// The agent's id for the session, once it has begun.
    pub external_id: Option<String>,
    /// The conversation that the session is linked to.
    pub conversation_id: Option<i32>,
    pub last_activity_at: Stamp,
    /// The agent waits for a permission.
    pub pending_permission: bool,
}

/// The model of a [`Connection`].
#[verifier::ext_equal]
pub struct ConnectionView {
    pub id: Seq<char>,
    pub agent_type: AgentType,
    pub owner_window_label: Seq<char>,
    pub status: ConnectionStatus,
    pub working_dir: Option<Seq<Seq<u8>>>,
    pub external_id: Option<Seq<char>>,
    pub conversation_id: Option<i32>,
    pub last_activity_at: Stamp,
    pub pending_permission: bool,
}

impl View for Connection {
    type V = ConnectionView;

    open spec fn view(&self) -> ConnectionView {
        ConnectionView {
            id: self.id@,
            agent_type: self.agent_type,
            owner_window_label: self.owner_window_label@,
            status: self.status,
            working_dir: dir_view(self.working_dir),
            external_id: opt_view(self.external_id),
            conversation_id: self.conversation_id,
            last_activity_at: self.last_activity_at,
            pending_permission: self.pending_permission,
        }
    }
}

/// What is shown of a connection.
#[derive(Debug)]
pub struct ConnectionInfo {
    pub id: String,
    pub agent_type: AgentType,
    pub status: ConnectionStatus,
}

/// The model of a [`ConnectionInfo`].
#[verifier::ext_equal]
pub struct InfoView {
    pub id: Seq<char>,
    pub agent_type: AgentType,
    pub status: ConnectionStatus,
}

impl View for ConnectionInfo {
    type V = InfoView;

    open spec fn view(&self) -> InfoView {
        InfoView { id: self.id@, agent_type: self.agent_type, status: self.status }
    }
}

impl ConnectionView {
    pub open spec fn info(self) -> InfoView {
        InfoView { id: self.id, agent_type: self.agent_type, status: self.status }
    }

    /// The connection serves the given session of the given agent in the given
    /// directory, and is not over.
    pub open spec fn serves(
        self,
        agent_type: AgentType,
        working_dir: Option<Seq<Seq<u8>>>,
        session_id: Seq<char>,
    ) -> bool {
        self.agent_type == agent_type && self.external_id == Some(session_id) && self.working_dir
            == working_dir && !self.status.is_terminal()
    }

    /// The connection has been idle for `timeout` nanoseconds at `now`: no turn is
    /// under way and no permission is asked for.
    pub open spec fn idle(self, timeout: int, now: Stamp) -> bool {
        self.status is Connected && !self.pending_permission && now.nanos_since(
            self.last_activity_at,
        ) >= timeout
    }
}

/// Two agents, directories and sessions that name the same logical session.
#[derive(Debug)]
pub struct SpawnDedupKey {
    pub agent_type: AgentType,
    pub working_dir: Option<WorkingDir>,
    pub session_id: String,
}

/// The model of a [`SpawnDedupKey`].
#[verifier::ext_equal]
pub struct DedupView {
    pub agent_type: AgentType,
    pub working_dir: Option<Seq<Seq<u8>>>,
    pub session_id: Seq<char>,
}

impl View for SpawnDedupKey {
    type V = DedupView;

    open spec fn view(&self) -> DedupView {
        DedupView {
            agent_type: self.agent_type,
            working_dir: dir_view(self.working_dir),
            session_id: self.session_id@,
        }
    }
}

/// How the wait for a new agent's session ended.
#[derive(Clone, Copy, PartialEq, Eq, Structural, Debug)]
pub enum HandshakeWaitOutcome {
    Ready,
    Aborted,
    TimedOut,
}

impl HandshakeWaitOutcome {
    /// The outcome as it is logged.
    pub open spec fn name(self) -> Seq<char> {
        match self {
            HandshakeWaitOutcome::Ready => "ready"@,
            HandshakeWaitOutcome::Aborted => "aborted"@,
            HandshakeWaitOutcome::TimedOut => "timeout"@,
        }
    }

    pub fn as_str(self) -> (r: &'static str)
        ensures
            r@ == self.name(),
    {
        match self {
            HandshakeWaitOutcome::Ready => "ready",
            HandshakeWaitOutcome::Aborted => "aborted",
            HandshakeWaitOutcome::TimedOut => "timeout",
        }
    }

    /// The outcome of a wait: `None` where the time ran out, otherwise whether the
    /// session began.
    pub fn of_signal(signal: Option<bool>) -> (r: HandshakeWaitOutcome)
        ensures
            r == (match signal {
                None => HandshakeWaitOutcome::TimedOut,
                Some(true) => HandshakeWaitOutcome::Ready,
                Some(false) => HandshakeWaitOutcome::Aborted,
            }),
    {
        match signal {
            None => HandshakeWaitOutcome::TimedOut,
            Some(begun) => if begun {
                HandshakeWaitOutcome::Ready
            } else {
                HandshakeWaitOutcome::Aborted
            },
        }
    }
}

/// The timeout that a setting names, in seconds; the usual one where it names none.
pub open spec fn handshake_timeout(raw: Option<Seq<char>>) -> u64 {
    match raw {
        Some(text) => match u64_of_text(text) {
            Some(secs) => secs,
            None => SPAWN_HANDSHAKE_TIMEOUT_SECS,
        },
        None => SPAWN_HANDSHAKE_TIMEOUT_SECS,
    }
}

/// Reads the setting for the timeout, in seconds.
pub fn spawn_handshake_timeout(raw: Option<&str>) -> (r: u64)
    ensures
        r == handshake_timeout(crate::json::opt_str(raw)),
{
    match raw {
        Some(text) => match parse_u64(text) {
            Some(secs) => secs,
            None => SPAWN_HANDSHAKE_TIMEOUT_SECS,
        },
        None => SPAWN_HANDSHAKE_TIMEOUT_SECS,
    }
}

/// The text is an id for a connection: a random id in its usual form with hyphens.
pub open spec fn is_connection_id(s: Seq<char>) -> bool {
    &&& s.len() == 36
    &&& s[8] == '-' && s[13] == '-' && s[18] == '-' && s[23] == '-'
    &&& forall|i: int|
        0 <= i < s.len() && i != 8 && i != 13 && i != 18 && i != 23 ==> crate::upload::is_hex(
            #[trigger] s[i],
        )
    &&& s[14] == '4'
    &&& s[19] == '8' || s[19] == '9' || s[19] == 'a' || s[19] == 'b'
}

/// `uuid::Uuid::new_v4`, written with hyphens: groups of 8, 4, 4, 4 and 12 hexadecimal
/// digits in lower case, of version 4 in the standard variant. Which ones is left to
/// chance.
#[verifier::external_body]
fn random_connection_id() -> (r: String)
    ensures
        is_connection_id(r@),
{
    uuid::Uuid::new_v4().to_string()
}

/// What to do to get a connection.
#[derive(Debug)]
pub enum SpawnPlan {
    /// Use the connection with this id.
    Reuse(String),
    /// Start an agent under this id, and wait for its session to begin if `wait`.
    Spawn { id: String, wait: bool },
}

/// The connections to running agents. No two have the same id.
#[derive(Debug)]
pub struct ConnectionManager {
    connections: Vec<Connection>,
    spawn_keys: Vec<SpawnDedupKey>,
    spawn_handshake_timeout_secs: u64,
}

/// The model of a [`ConnectionManager`].
#[verifier::ext_equal]
pub struct ManagerView {
    pub connections: Seq<ConnectionView>,
    /// The logical sessions that have a lock, each under its position.
    pub spawn_keys: Seq<DedupView>,
    pub spawn_handshake_timeout_secs: u64,
}

spec fn connection_views(list: Seq<Connection>) -> Seq<ConnectionView> {
    list.map_values(|c: Connection| c@)
}

spec fn key_views(list: Seq<SpawnDedupKey>) -> Seq<DedupView> {
    list.map_values(|k: SpawnDedupKey| k@)
}

impl View for ConnectionManager {
    type V = ManagerView;

    closed spec fn view(&self) -> ManagerView {
        ManagerView {
            connections: connection_views(self.connections@),
            spawn_keys: key_views(self.spawn_keys@),
            spawn_handshake_timeout_secs: self.spawn_handshake_timeout_secs,
        }
    }
}

/// No two connections have the same id.
pub open spec fn distinct_ids(list: Seq<ConnectionView>) -> bool {
    forall|i: int, j: int|
        0 <= i < j < list.len() ==> (#[trigger] list[i]).id != (#[trigger] list[j]).id
}

/// There is a connection with this id.
pub open spec fn has_connection(list: Seq<ConnectionView>, id: Seq<char>) -> bool {
    exists|i: int| 0 <= i < list.len() && (#[trigger] list[i]).id == id
}

/// The connection with this id.
pub open spec fn connection_of(list: Seq<ConnectionView>, id: Seq<char>) -> ConnectionView {
    list[choose|i: int| 0 <= i < list.len() && (#[trigger] list[i]).id == id]
}

/// The connections that satisfy `p`, in order.
pub open spec fn those(
    list: Seq<ConnectionView>,
    p: spec_fn(ConnectionView) -> bool,
) -> Seq<ConnectionView>
    decreases list.len(),
{
    if list.len() == 0 {
        Seq::empty()
    } else if p(list.last()) {
        those(list.drop_last(), p).push(list.last())
    } else {
        those(list.drop_last(), p)
    }
}

/// The ids of connections.
pub open spec fn ids(list: Seq<ConnectionView>) -> Seq<Seq<char>> {
    list.map_values(|c: ConnectionView| c.id)
}

/// Which connections to look at.
#[derive(Clone, Copy, PartialEq, Eq, Structural, Debug)]
enum Pick {
    All,
    Owner,
    Idle,
}

/// The connection has been idle for `timeout` nanoseconds at `now`.
pub open spec fn is_idle(timeout: int, now: Stamp) -> spec_fn(ConnectionView) -> bool {
    |c: ConnectionView| c.idle(timeout, now)
}

/// The connection belongs to the window.
pub open spec fn is_owned_by(label: Seq<char>) -> spec_fn(ConnectionView) -> bool {
    |c: ConnectionView| c.owner_window_label == label
}

/// The connection is another than the one with this id.
pub open spec fn is_other_than(id: Seq<char>) -> spec_fn(ConnectionView) -> bool {
    |c: ConnectionView| c.id != id
}

/// The other connections.
pub open spec fn negated(p: spec_fn(ConnectionView) -> bool) -> spec_fn(ConnectionView) -> bool {
    |c: ConnectionView| !p(c)
}

/// Any connection.
pub open spec fn is_any() -> spec_fn(ConnectionView) -> bool {
    |c: ConnectionView| true
}

proof fn lemma_those_come_from(list: Seq<ConnectionView>, p: spec_fn(ConnectionView) -> bool)
    ensures
        forall|i: int|
            0 <= i < those(list, p).len() ==> list.contains(#[trigger] those(list, p)[i]) && p(
                those(list, p)[i],
            ),
    decreases list.len(),
{
    if list.len() > 0 {
        let before = list.drop_last();
        lemma_those_come_from(before, p);
        let rest = those(before, p);
        let now = those(list, p);
        assert forall|i: int| 0 <= i < now.len() implies list.contains(#[trigger] now[i]) && p(
            now[i],
        ) by {
            if i < rest.len() {
                assert(now[i] == rest[i]);
                let k = choose|k: int| 0 <= k < before.len() && before[k] == rest[i];
                assert(list[k] == now[i]);
            } else {
                assert(list[list.len() - 1] == now[i]);
            }
        }
    }
}

proof fn lemma_those_distinct(list: Seq<ConnectionView>, p: spec_fn(ConnectionView) -> bool)
    requires
        distinct_ids(list),
    ensures
        distinct_ids(those(list, p)),
    decreases list.len(),
{
    if list.len() > 0 {
        let before = list.drop_last();
        assert(distinct_ids(before)) by {
            assert forall|i: int, j: int| 0 <= i < j < before.len() implies (
            #[trigger] before[i]).id != (#[trigger] before[j]).id by {
                assert(list[i].id != list[j].id);
            }
        }
        lemma_those_distinct(before, p);
        lemma_those_come_from(before, p);
        let rest = those(before, p);
        let now = those(list, p);
        assert forall|i: int, j: int| 0 <= i < j < now.len() implies (#[trigger] now[i]).id != (
        #[trigger] now[j]).id by {
            if j < rest.len() {
                assert(rest[i].id != rest[j].id);
            } else {
                assert(now[i] == rest[i]);
                let k = choose|k: int| 0 <= k < before.len() && before[k] == rest[i];
                assert(list[k].id != list[list.len() - 1].id);
            }
        }
    }
}

fn same_dir(a: Option<&WorkingDir>, b: Option<&WorkingDir>) -> (r: bool)
    ensures
        r == (dir_ref_view(a) == dir_ref_view(b)),
{
    match (a, b) {
        (Some(x), Some(y)) => {
            if x.components.len() != y.components.len() {
                assert(x@.len() != y@.len());
                return false;
            }
            let mut i: usize = 0;
            while i < x.components.len()
                invariant
                    i <= x.components@.len(),
                    a == Some(x),
                    b == Some(y),
                    x.components@.len() == y.components@.len(),
                    forall|k: int| 0 <= k < i ==> x.components@[k]@ == y.components@[k]@,
                decreases x.components.len() - i,
            {
                if !same_bytes(x.components[i].as_slice(), y.components[i].as_slice()) {
                    assert(x@[i as int] != y@[i as int]);
                    return false;
                }
                i = i + 1;
            }
            assert(x@ =~= y@);
            true
        },
        (None, None) => true,
        _ => false,
    }
}

fn optional_is(value: &Option<String>, expected: &str) -> (r: bool)
    ensures
        r == (opt_view(*value) == Some(expected@)),
{
    match value {
        Some(s) => same_text(s.as_str(), expected),
        None => false,
    }
}

impl Connection {
    fn is_serving(
        &self,
        agent_type: AgentType,
        working_dir: Option<&WorkingDir>,
        session_id: &str,
    ) -> (r: bool)
        ensures
            r == self@.serves(agent_type, dir_ref_view(working_dir), session_id@),
    {
        self.agent_type == agent_type && optional_is(&self.external_id, session_id) && same_dir(
            self.working_dir.as_ref(),
            working_dir,
        ) && !self.status.is_over()
    }

    fn is_idle(&self, timeout: i128, now: Stamp) -> (r: bool)
        ensures
            r == self@.idle(timeout as int, now),
    {
        let connected: bool = self.status == ConnectionStatus::Connected;
        connected && !self.pending_permission && now.nanos_from(self.last_activity_at) >= timeout
    }
}

impl ConnectionManager {
    /// No two connections have the same id.
    pub closed spec fn wf(&self) -> bool {
        distinct_ids(self@.connections)
    }

    /// A manager without connections. `timeout_setting` is the setting for the time to
    /// wait for a new agent.
    pub fn new(timeout_setting: Option<&str>) -> (r: ConnectionManager)
        ensures
            r.wf(),
            r@ == (ManagerView {
                connections: Seq::empty(),
                spawn_keys: Seq::empty(),
                spawn_handshake_timeout_secs: handshake_timeout(
                    crate::json::opt_str(timeout_setting),
                ),
            }),
    {
        ConnectionManager::with_spawn_handshake_timeout(spawn_handshake_timeout(timeout_setting))
    }

    /// A manager without connections that waits the given number of seconds for a new
    /// agent.
    pub fn with_spawn_handshake_timeout(secs: u64) -> (r: ConnectionManager)
        ensures
            r.wf(),
            r@ == (ManagerView {
                connections: Seq::empty(),
                spawn_keys: Seq::empty(),
                spawn_handshake_timeout_secs: secs,
            }),
    {
        let r = ConnectionManager {
            connections: Vec::new(),
            spawn_keys: Vec::new(),
            spawn_handshake_timeout_secs: secs,
        };
        assert(r@.connections =~= Seq::<ConnectionView>::empty());
        assert(r@.spawn_keys =~= Seq::<DedupView>::empty());
        r
    }

    /// How long to wait for a new agent, in seconds.
    pub fn handshake_timeout_secs(&self) -> (r: u64)
        ensures
            r == self@.spawn_handshake_timeout_secs,
    {
        self.spawn_handshake_timeout_secs
    }

    fn position(&self, id: &str) -> (r: Option<usize>)
        ensures
            match r {
                Some(i) => i < self.connections@.len() && self.connections@[i as int].id@ == id@
                    && has_connection(self@.connections, id@),
                None => !has_connection(self@.connections, id@),
            },
    {
        let ghost all = self@.connections;
        let mut i: usize = 0;
        while i < self.connections.len()
            invariant
                i <= self.connections@.len(),
                all == connection_views(self.connections@),
                forall|k: int| 0 <= k < i ==> (#[trigger] all[k]).id != id@,
            decreases self.connections.len() - i,
        {
            assert(all[i as int] == self.connections@[i as int]@);
            if same_text(self.connections[i].id.as_str(), id) {
                assert(all[i as int].id == id@);
                return Some(i);
            }
            i = i + 1;
        }
        None
    }

    /// The connection with this id.
    pub fn get_state(&self, conn_id: &str) -> (r: Option<&Connection>)
        requires
            self.wf(),
        ensures
            match r {
                Some(c) => has_connection(self@.connections, conn_id@) && c@ == connection_of(
                    self@.connections,
                    conn_id@,
                ),
                None => !has_connection(self@.connections, conn_id@),
            },
    {
        match self.position(conn_id) {
            Some(i) => {
                proof {
                    lemma_unique(self@.connections, conn_id@, i as int);
                }
                Some(&self.connections[i])
            },
            None => None,
        }
    }

    /// The connection with this id, or the error that there is none.
    pub fn require_connection(&self, conn_id: &str) -> (r: Result<&Connection, AcpError>)
        requires
            self.wf(),
        ensures
            match r {
                Ok(c) => has_connection(self@.connections, conn_id@) && c@ == connection_of(
                    self@.connections,
                    conn_id@,
                ),
                Err(e) => !has_connection(self@.connections, conn_id@) && e@
                    == AcpErrorView::ConnectionNotFound(conn_id@),
            },
    {
        match self.get_state(conn_id) {
            Some(c) => Ok(c),
            None => Err(AcpError::connection_not_found(conn_id)),
        }
    }

    /// Adds a connection in place of the one with the same id, if there is one.
    pub fn insert_connection(&mut self, connection: Connection)
        requires
            old(self).wf(),
        ensures
            final(self).wf(),
            final(self)@ == (ManagerView {
                connections: those(old(self)@.connections, is_other_than(connection@.id)).push(
                    connection@,
                ),
                ..old(self)@
            }),
    {
        let ghost before = self@;
        let ghost p = is_other_than(connection@.id);
        match self.position(connection.id.as_str()) {
            Some(i) => {
                self.connections.remove(i);
                proof {
                    lemma_removed_one(before.connections, connection@.id, i as int);
                    assert(self@.connections =~= before.connections.remove(i as int));
                }
            },
            None => {
                proof {
                    lemma_none_removed(before.connections, connection@.id);
                }
            },
        }
        let ghost kept = self@.connections;
        proof {
            assert(kept == those(before.connections, p));
            lemma_those_distinct(before.connections, p);
            lemma_those_come_from(before.connections, p);
        }
        self.connections.push(connection);
        proof {
            assert(self@.connections =~= kept.push(connection@));
            assert forall|i: int, j: int| 0 <= i < j < self@.connections.len() implies (
            #[trigger] self@.connections[i]).id != (#[trigger] self@.connections[j]).id by {
                if j < kept.len() {
                    assert(kept[i].id != kept[j].id);
                } else {
                    assert(p(kept[i]));
                }
            }
        }
    }

    /// Notes that a connection is in use; whether there is one that is not over.
    pub fn touch(&mut self, conn_id: &str, now: Stamp) -> (r: bool)
        requires
            old(self).wf(),
        ensures
            final(self).wf(),
            r == (has_connection(old(self)@.connections, conn_id@) && !connection_of(
                old(self)@.connections,
                conn_id@,
            ).status.is_terminal()),
            !r ==> final(self)@ == old(self)@,
            r ==> final(self)@ == (ManagerView {
                connections: old(self)@.connections.map_values(
                    |c: ConnectionView|
                        if c.id == conn_id@ {
                            ConnectionView { last_activity_at: now, ..c }
                        } else {
                            c
                        },
                ),
                ..old(self)@
            }),
    {
        let ghost before = self@.connections;
        match self.position(conn_id) {
            Some(i) => {
                proof {
                    lemma_unique(before, conn_id@, i as int);
                }
                if self.connections[i].status.is_over() {
                    return false;
                }
                let connection: Connection = self.connections.remove(i);
                let touched = Connection { last_activity_at: now, ..connection };
                self.connections.insert(i, touched);
                proof {
                    let mapped = before.map_values(
                        |c: ConnectionView|
                            if c.id == conn_id@ {
                                ConnectionView { last_activity_at: now, ..c }
                            } else {
                                c
                            },
                    );
                    assert forall|k: int| 0 <= k < before.len() && k != i implies (
                    #[trigger] before[k]).id != conn_id@ by {
                        if k < i {
                            assert(before[k].id != before[i as int].id);
                        } else {
                            assert(before[i as int].id != before[k].id);
                        }
                    }
                    assert(touched@ =~= (ConnectionView {
                        last_activity_at: now,
                        ..before[i as int]
                    }));
                    assert(self@.connections =~= mapped);
                    assert forall|a: int, b: int| 0 <= a < b < mapped.len() implies (
                    #[trigger] mapped[a]).id != (#[trigger] mapped[b]).id by {
                        assert(before[a].id != before[b].id);
                    }
                }
                true
            },
            None => false,
        }
    }

    /// Takes connections out: all, those of the window `label`, or those that have been
    /// idle for `timeout` nanoseconds at `now`. Their ids, in order.
    fn take_out(&mut self, pick: Pick, label: &str, timeout: i128, now: Stamp) -> (r: Vec<String>)
        requires
            old(self).wf(),
        ensures
            final(self).wf(),
            ({
                let p = match pick {
                    Pick::All => is_any(),
                    Pick::Owner => is_owned_by(label@),
                    Pick::Idle => is_idle(timeout as int, now),
                };
                &&& texts(r@) == ids(those(old(self)@.connections, p))
                &&& final(self)@ == (ManagerView {
                    connections: those(old(self)@.connections, negated(p)),
                    ..old(self)@
                })
            }),
    {
        let ghost p = match pick {
            Pick::All => is_any(),
            Pick::Owner => is_owned_by(label@),
            Pick::Idle => is_idle(timeout as int, now),
        };
        let ghost q = negated(p);
        let ghost before = self@.connections;
        let mut all: Vec<Connection> = Vec::new();
        std::mem::swap(&mut all, &mut self.connections);
        let ghost list = all@;
        let mut gone: Vec<String> = Vec::new();
        let mut kept: Vec<Connection> = Vec::new();
        proof {
            assert(before == connection_views(list));
            assert(texts(gone@) =~= ids(those(before.take(0), p)));
            assert(connection_views(kept@) =~= those(before.take(0), q));
        }
        for c in it: all
            invariant
                it.seq() == list,
                before == connection_views(list),
                p == (match pick {
                    Pick::All => is_any(),
                    Pick::Owner => is_owned_by(label@),
                    Pick::Idle => is_idle(timeout as int, now),
                }),
                q == negated(p),
                texts(gone@) == ids(those(before.take(it.index()), p)),
                connection_views(kept@) == those(before.take(it.index()), q),
        {
            let ghost seen = before.take(it.index());
            let ghost next = before.take(it.index() + 1);
            proof {
                assert(next.drop_last() =~= seen);
                assert(next.last() == c@);
            }
            let chosen: bool = match pick {
                Pick::All => true,
                Pick::Owner => same_text(c.owner_window_label.as_str(), label),
                Pick::Idle => c.is_idle(timeout, now),
            };
            if chosen {
                let ghost listed = gone@;
                gone.push(c.id);
                assert(texts(gone@) =~= texts(listed).push(c.id@));
                assert(ids(those(next, p)) =~= ids(those(seen, p)).push(c@.id));
            } else {
                let ghost listed = kept@;
                kept.push(c);
                assert(connection_views(kept@) =~= connection_views(listed).push(c@));
            }
        }
        proof {
            assert(before.take(before.len() as int) =~= before);
            lemma_those_distinct(before, q);
        }
        self.connections = kept;
        gone
    }

    /// Takes out the connections that have been idle for `idle_timeout` nanoseconds. The
    /// ids of those to disconnect. A timeout that is too long to be counted takes out
    /// none.
    pub fn sweep_idle(&mut self, idle_timeout: i128, now: Stamp) -> (r: Vec<String>)
        requires
            old(self).wf(),
        ensures
            final(self).wf(),
            idle_timeout > MAX_IDLE_NANOS ==> r@.len() == 0 && final(self)@ == old(self)@,
            idle_timeout <= MAX_IDLE_NANOS ==> texts(r@) == ids(
                those(old(self)@.connections, is_idle(idle_timeout as int, now)),
            ) && final(self)@ == (ManagerView {
                connections: those(
                    old(self)@.connections,
                    negated(is_idle(idle_timeout as int, now)),
                ),
                ..old(self)@
            }),
    {
        if idle_timeout > MAX_IDLE_NANOS {
            return Vec::new();
        }
        self.take_out(Pick::Idle, "", idle_timeout, now)
    }

    /// Takes out a connection; it is to be told to disconnect.
    pub fn disconnect(&mut self, conn_id: &str) -> (r: Result<(), AcpError>)
        requires
            old(self).wf(),
        ensures
            final(self).wf(),
            match r {
                Ok(_) => has_connection(old(self)@.connections, conn_id@) && final(self)@
                    == (ManagerView {
                    connections: those(old(self)@.connections, is_other_than(conn_id@)),
                    ..old(self)@
                }),
                Err(e) => !has_connection(old(self)@.connections, conn_id@) && e@
                    == AcpErrorView::ConnectionNotFound(conn_id@) && final(self)@ == old(self)@,
            },
    {
        let ghost before = self@.connections;
        match self.position(conn_id) {
            Some(i) => {
                self.connections.remove(i);
                proof {
                    lemma_removed_one(before, conn_id@, i as int);
                    assert(self@.connections =~= before.remove(i as int));
                    lemma_those_distinct(before, is_other_than(conn_id@));
                }
                Ok(())
            },
            None => Err(AcpError::connection_not_found(conn_id)),
        }
    }

    /// Takes out the connections of a window. The ids of those to disconnect.
    pub fn disconnect_by_owner_window(&mut self, owner_window_label: &str) -> (r: Vec<String>)
        requires
            old(self).wf(),
        ensures
            final(self).wf(),
            texts(r@) == ids(those(old(self)@.connections, is_owned_by(owner_window_label@))),
            final(self)@ == (ManagerView {
                connections: those(
                    old(self)@.connections,
                    negated(is_owned_by(owner_window_label@)),
                ),
                ..old(self)@
            }),
    {
        self.take_out(Pick::Owner, owner_window_label, 0, Stamp { secs: 0, nanos: 0 })
    }

    /// Takes out all connections. The ids of those to disconnect.
    pub fn disconnect_all(&mut self) -> (r: Vec<String>)
        requires
            old(self).wf(),
        ensures
            final(self).wf(),
            texts(r@) == ids(old(self)@.connections),
            final(self)@ == (ManagerView { connections: Seq::empty(), ..old(self)@ }),
    {
        proof {
            lemma_all_or_none(self@.connections);
        }
        self.take_out(Pick::All, "", 0, Stamp { secs: 0, nanos: 0 })
    }

    /// What is shown of the connections.
    pub fn list_connections(&self) -> (r: Vec<ConnectionInfo>)
        ensures
            r@.map_values(|i: ConnectionInfo| i@) == self@.connections.map_values(
                |c: ConnectionView| c.info(),
            ),
    {
        let ghost all = self@.connections;
        let mut out: Vec<ConnectionInfo> = Vec::new();
        let mut i: usize = 0;
        while i < self.connections.len()
            invariant
                i <= self.connections@.len(),
                all == connection_views(self.connections@),
                out@.len() == i,
                forall|k: int| 0 <= k < i ==> (#[trigger] out@[k])@ == all[k].info(),
            decreases self.connections.len() - i,
        {
            let c: &Connection = &self.connections[i];
            out.push(
                ConnectionInfo { id: c.id.clone(), agent_type: c.agent_type, status: c.status },
            );
            i = i + 1;
        }
        assert(out@.map_values(|i: ConnectionInfo| i@) =~= all.map_values(
            |c: ConnectionView| c.info(),
        ));
        out
    }

    /// The id of a connection that serves the session already. Without a session to
    /// resume there is none.
    pub fn find_connection_for_reuse(
        &self,
        agent_type: AgentType,
        working_dir: Option<&WorkingDir>,
        session_id: Option<&str>,
    ) -> (r: Option<String>)
        ensures
            match r {
                Some(id) => session_id matches Some(session) && exists|i: int|
                    0 <= i < self@.connections.len() && (#[trigger] self@.connections[i]).id == id@
                        && self@.connections[i].serves(
                        agent_type,
                        dir_ref_view(working_dir),
                        session@,
                    ),
                None => session_id matches Some(session) ==> forall|i: int|
                    0 <= i < self@.connections.len() ==> !(#[trigger] self@.connections[i]).serves(
                        agent_type,
                        dir_ref_view(working_dir),
                        session@,
                    ),
            },
    {
        match session_id {
            None => None,
            Some(session) => {
                let ghost all = self@.connections;
                let mut i: usize = 0;
                while i < self.connections.len()
                    invariant
                        i <= self.connections@.len(),
                        all == connection_views(self.connections@),
                        session_id == Some(session),
                        forall|k: int|
                            0 <= k < i ==> !(#[trigger] all[k]).serves(
                                agent_type,
                                dir_ref_view(working_dir),
                                session@,
                            ),
                    decreases self.connections.len() - i,
                {
                    assert(all[i as int] == self.connections@[i as int]@);
                    if self.connections[i].is_serving(agent_type, working_dir, session) {
                        let found: String = self.connections[i].id.clone();
                        assert(self@.connections[i as int].id == found@);
                        assert(self@.connections[i as int].serves(
                            agent_type,
                            dir_ref_view(working_dir),
                            session@,
                        ));
                        return Some(found);
                    }
                    i = i + 1;
                }
                None
            },
        }
    }

    /// The id of a connection whose session is linked to the conversation.
    pub fn find_connection_by_conversation_id(&self, conversation_id: i32) -> (r: Option<String>)
        ensures
            match r {
                Some(id) => exists|i: int|
                    0 <= i < self@.connections.len() && (#[trigger] self@.connections[i]).id == id@
                        && self@.connections[i].conversation_id == Some(conversation_id),
                None => forall|i: int|
                    0 <= i < self@.connections.len() ==> (
                    #[trigger] self@.connections[i]).conversation_id != Some(conversation_id),
            },
    {
        let ghost all = self@.connections;
        let mut i: usize = 0;
        while i < self.connections.len()
            invariant
                i <= self.connections@.len(),
                all == connection_views(self.connections@),
                forall|k: int|
                    0 <= k < i ==> (#[trigger] all[k]).conversation_id != Some(conversation_id),
            decreases self.connections.len() - i,
        {
            assert(all[i as int] == self.connections@[i as int]@);
            let linked: bool = match self.connections[i].conversation_id {
                Some(id) => id == conversation_id,
                None => false,
            };
            if linked {
                assert(all[i as int].id == self.connections@[i as int].id@);
                return Some(self.connections[i].id.clone());
            }
            i = i + 1;
        }
        None
    }

    /// The number of the lock under which agents for a logical session are started, one
    /// at a time.
    pub fn spawn_lock(&mut self, key: SpawnDedupKey) -> (r: usize)
        requires
            old(self).wf(),
        ensures
            final(self).wf(),
            r < final(self)@.spawn_keys.len(),
            final(self)@.spawn_keys[r as int] == key@,
            forall|k: int| 0 <= k < r ==> (#[trigger] final(self)@.spawn_keys[k]) != key@,
            final(self)@ == (ManagerView {
                spawn_keys: if old(self)@.spawn_keys.contains(key@) {
                    old(self)@.spawn_keys
                } else {
                    old(self)@.spawn_keys.push(key@)
                },
                ..old(self)@
            }),
    {
        let ghost before = self@.spawn_keys;
        let mut i: usize = 0;
        while i < self.spawn_keys.len()
            invariant
                i <= self.spawn_keys@.len(),
                self.wf(),
                *self == *old(self),
                before == key_views(self.spawn_keys@),
                before == self@.spawn_keys,
                forall|k: int| 0 <= k < i ==> (#[trigger] before[k]) != key@,
            decreases self.spawn_keys.len() - i,
        {
            assert(before[i as int] == self.spawn_keys@[i as int]@);
            let known: &SpawnDedupKey = &self.spawn_keys[i];
            if known.agent_type == key.agent_type && same_dir(
                known.working_dir.as_ref(),
                key.working_dir.as_ref(),
            ) && same_text(known.session_id.as_str(), key.session_id.as_str()) {
                assert(before[i as int] == key@);
                return i;
            }
            assert(before[i as int] != key@);
            i = i + 1;
        }
        self.spawn_keys.push(key);
        assert(self@.spawn_keys =~= before.push(key@));
        assert(self@.connections =~= old(self)@.connections);
        i
    }

    /// Decides how to get a connection: one that serves the session already is used
    /// again; otherwise an agent is started, and where a session is to be resumed, it is
    /// waited for.
    pub fn plan_spawn(
        &self,
        agent_type: AgentType,
        working_dir: Option<&WorkingDir>,
        session_id: Option<&str>,
    ) -> (r: SpawnPlan)
        ensures
            match r {
                SpawnPlan::Reuse(id) => session_id matches Some(session) && exists|i: int|
                    0 <= i < self@.connections.len() && (#[trigger] self@.connections[i]).id == id@
                        && self@.connections[i].serves(
                        agent_type,
                        dir_ref_view(working_dir),
                        session@,
                    ),
                SpawnPlan::Spawn { id, wait } => is_connection_id(id@) && wait == (
                session_id is Some) && (session_id matches Some(session) ==> forall|i: int|
                    0 <= i < self@.connections.len() ==> !(#[trigger] self@.connections[i]).serves(
                        agent_type,
                        dir_ref_view(working_dir),
                        session@,
                    )),
            },
    {
        match self.find_connection_for_reuse(agent_type, working_dir, session_id) {
            Some(id) => SpawnPlan::Reuse(id),
            None => SpawnPlan::Spawn { id: random_connection_id(), wait: session_id.is_some() },
        }
    }
}

/// The result of handing a command to an agent: it fails where the agent's process is
/// gone.
pub fn delivery(sent: bool) -> (r: Result<(), AcpError>)
    ensures
        match r {
            Ok(_) => sent,
            Err(e) => !sent && e@ == AcpErrorView::ProcessExited,
        },
{
    if sent {
        Ok(())
    } else {
        Err(AcpError::ProcessExited)
    }
}

proof fn lemma_unique(list: Seq<ConnectionView>, id: Seq<char>, at: int)
    requires
        distinct_ids(list),
        0 <= at < list.len(),
        list[at].id == id,
    ensures
        has_connection(list, id),
        connection_of(list, id) == list[at],
{
    let k = choose|i: int| 0 <= i < list.len() && (#[trigger] list[i]).id == id;
    assert(list[k].id == id);
    if k < at {
        assert(list[k].id != list[at].id);
    } else if at < k {
        assert(list[at].id != list[k].id);
    }
}

proof fn lemma_none_removed(list: Seq<ConnectionView>, id: Seq<char>)
    requires
        !has_connection(list, id),
    ensures
        those(list, is_other_than(id)) == list,
    decreases list.len(),
{
    if list.len() > 0 {
        let before = list.drop_last();
        assert(!has_connection(before, id)) by {
            if has_connection(before, id) {
                let k = choose|k: int| 0 <= k < before.len() && (#[trigger] before[k]).id == id;
                assert(list[k].id == id);
            }
        }
        lemma_none_removed(before, id);
        assert(list[list.len() - 1].id != id);
        assert(before.push(list.last()) =~= list);
    }
}

proof fn lemma_removed_one(list: Seq<ConnectionView>, id: Seq<char>, at: int)
    requires
        distinct_ids(list),
        0 <= at < list.len(),
        list[at].id == id,
    ensures
        those(list, is_other_than(id)) == list.remove(at),
    decreases list.len(),
{
    let before = list.drop_last();
    assert(distinct_ids(before)) by {
        assert forall|i: int, j: int| 0 <= i < j < before.len() implies (#[trigger] before[i]).id
            != (#[trigger] before[j]).id by {
            assert(list[i].id != list[j].id);
        }
    }
    if at == list.len() - 1 {
        assert(!has_connection(before, id)) by {
            if has_connection(before, id) {
                let k = choose|k: int| 0 <= k < before.len() && (#[trigger] before[k]).id == id;
                assert(list[k].id != list[at].id);
            }
        }
        lemma_none_removed(before, id);
        assert(list.remove(at) =~= before);
    } else {
        lemma_removed_one(before, id, at);
        assert(list[at].id != list[list.len() - 1].id);
        assert(before.remove(at).push(list.last()) =~= list.remove(at));
    }
}

proof fn lemma_all_or_none(list: Seq<ConnectionView>)
    ensures
        those(list, is_any()) == list,
        those(list, negated(is_any())) == Seq::<ConnectionView>::empty(),
    decreases list.len(),
{
    if list.len() > 0 {
        lemma_all_or_none(list.drop_last());
        assert(list.drop_last().push(list.last()) =~= list);
    }
}

/// A sweep spares whatever is in use: a connection with a turn under way, one that waits
/// for a permission and one that was used within the timeout all stay.
pub proof fn law_sweep_spares_connections_in_use(
    list: Seq<ConnectionView>,
    timeout: int,
    now: Stamp,
    at: int,
)
    requires
        0 <= at < list.len(),
        !(list[at].status is Connected) || list[at].pending_permission || now.nanos_since(
            list[at].last_activity_at,
        ) < timeout,
    ensures
        those(list, negated(is_idle(timeout, now))).contains(list[at]),
{
    lemma_those_have(list, negated(is_idle(timeout, now)), at);
}

proof fn lemma_those_have(
    list: Seq<ConnectionView>,
    p: spec_fn(ConnectionView) -> bool,
    at: int,
)
    requires
        0 <= at < list.len(),
        p(list[at]),
    ensures
        those(list, p).contains(list[at]),
    decreases list.len(),
{
    let before = list.drop_last();
    let now = those(list, p);
    if at == list.len() - 1 {
        assert(now[now.len() - 1] == list[at]);
    } else {
        lemma_those_have(before, p, at);
        let rest = those(before, p);
        let k = choose|k: int| 0 <= k < rest.len() && rest[k] == before[at];
        assert(now[k] == list[at]);
    }
}

/// Taking connections out loses none: every one is either taken out or kept.
pub proof fn law_every_connection_is_taken_or_kept(
    list: Seq<ConnectionView>,
    p: spec_fn(ConnectionView) -> bool,
    at: int,
)
    requires
        0 <= at < list.len(),
    ensures
        those(list, p).contains(list[at]) || those(list, negated(p)).contains(list[at]),
        those(list, p).len() + those(list, negated(p)).len() == list.len(),
    decreases list.len(),
{
    if p(list[at]) {
        lemma_those_have(list, p, at);
    } else {
        lemma_those_have(list, negated(p), at);
    }
    lemma_split_len(list, p);
}

proof fn lemma_split_len(list: Seq<ConnectionView>, p: spec_fn(ConnectionView) -> bool)
    ensures
        those(list, p).len() + those(list, negated(p)).len() == list.len(),
    decreases list.len(),
{
    if list.len() > 0 {
        lemma_split_len(list.drop_last(), p);
    }
}

/// A session that is being resumed is never served twice: a connection that has begun it
/// is found again by the next request for it.
pub proof fn law_resumed_session_is_found(
    list: Seq<ConnectionView>,
    connection: ConnectionView,
    session: Seq<char>,
)
    requires
        connection.external_id == Some(session),
        !connection.status.is_terminal(),
    ensures
        ({
            let after = those(list, is_other_than(connection.id)).push(connection);
            exists|i: int|
                0 <= i < after.len() && (#[trigger] after[i]).serves(
                    connection.agent_type,
                    connection.working_dir,
                    session,
                )
        }),
{
    let after = those(list, is_other_than(connection.id)).push(connection);
    assert(after[after.len() - 1].serves(connection.agent_type, connection.working_dir, session));
}

/// A sweep takes whatever is idle: a connection that is up, waits for no permission and
/// has seen no activity for as long as the timeout is among those taken and among none of
/// those kept, whatever agent, window, directory, session or conversation it has.
pub proof fn law_sweep_takes_what_is_idle(
    list: Seq<ConnectionView>,
    timeout: int,
    now: Stamp,
    at: int,
)
    requires
        0 <= at < list.len(),
        list[at].status == ConnectionStatus::Connected,
        !list[at].pending_permission,
        now.nanos_since(list[at].last_activity_at) >= timeout,
    ensures
        those(list, is_idle(timeout, now)).contains(list[at]),
        ids(those(list, is_idle(timeout, now))).contains(list[at].id),
        !those(list, negated(is_idle(timeout, now))).contains(list[at]),
        distinct_ids(list) ==> !has_connection(
            those(list, negated(is_idle(timeout, now))),
            list[at].id,
        ),
{
    let idle = is_idle(timeout, now);
    lemma_those_have(list, idle, at);
    lemma_id_is_listed(those(list, idle), list[at]);
    lemma_those_come_from(list, negated(idle));
    let kept = those(list, negated(idle));
    if kept.contains(list[at]) {
        let k = choose|k: int| 0 <= k < kept.len() && kept[k] == list[at];
        assert(negated(idle)(kept[k]));
    }
    if distinct_ids(list) && has_connection(kept, list[at].id) {
        let k = choose|k: int| 0 <= k < kept.len() && (#[trigger] kept[k]).id == list[at].id;
        assert(negated(idle)(kept[k]));
        assert(list.contains(kept[k]));
        let j = choose|j: int| 0 <= j < list.len() && list[j] == kept[k];
        if j < at {
            assert(list[j].id != list[at].id);
        } else if at < j {
            assert(list[at].id != list[j].id);
        }
    }
}

proof fn lemma_id_is_listed(list: Seq<ConnectionView>, c: ConnectionView)
    requires
        list.contains(c),
    ensures
        ids(list).contains(c.id),
{
    let k = choose|k: int| 0 <= k < list.len() && list[k] == c;
    assert(ids(list)[k] == c.id);
}

/// Nothing else is taken by a sweep: whatever it takes stood in the list, was up, waited
/// for no permission and had been silent for the timeout.
pub proof fn law_sweep_takes_nothing_else(
    list: Seq<ConnectionView>,
    timeout: int,
    now: Stamp,
    i: int,
)
    requires
        0 <= i < those(list, is_idle(timeout, now)).len(),
    ensures
        ({
            let c = those(list, is_idle(timeout, now))[i];
            &&& list.contains(c)
            &&& c.status == ConnectionStatus::Connected
            &&& !c.pending_permission
            &&& now.nanos_since(c.last_activity_at) >= timeout
            &&& ids(those(list, is_idle(timeout, now)))[i] == c.id
        }),
{
    lemma_those_come_from(list, is_idle(timeout, now));
    assert(is_idle(timeout, now)(those(list, is_idle(timeout, now))[i]));
}

/// Those taken stand in the order of the list: one more connection at its end comes last,
/// or not at all.
pub proof fn law_those_keep_their_order(
    list: Seq<ConnectionView>,
    p: spec_fn(ConnectionView) -> bool,
    c: ConnectionView,
)
    ensures
        those(Seq::empty(), p).len() == 0,
        p(c) ==> those(list.push(c), p) == those(list, p).push(c),
        !p(c) ==> those(list.push(c), p) == those(list, p),
{
    assert(list.push(c).drop_last() =~= list);
}

/// When a window goes, its connections go with it and no others do.
pub proof fn law_window_takes_its_connections(
    list: Seq<ConnectionView>,
    label: Seq<char>,
    at: int,
)
    requires
        0 <= at < list.len(),
    ensures
        list[at].owner_window_label == label ==> {
            &&& those(list, is_owned_by(label)).contains(list[at])
            &&& ids(those(list, is_owned_by(label))).contains(list[at].id)
            &&& !those(list, negated(is_owned_by(label))).contains(list[at])
        },
        list[at].owner_window_label != label ==> {
            &&& those(list, negated(is_owned_by(label))).contains(list[at])
            &&& !those(list, is_owned_by(label)).contains(list[at])
        },
{
    let owned = is_owned_by(label);
    lemma_those_come_from(list, owned);
    lemma_those_come_from(list, negated(owned));
    if list[at].owner_window_label == label {
        lemma_those_have(list, owned, at);
        lemma_id_is_listed(those(list, owned), list[at]);
        let kept = those(list, negated(owned));
        if kept.contains(list[at]) {
            let k = choose|k: int| 0 <= k < kept.len() && kept[k] == list[at];
            assert(negated(owned)(kept[k]));
        }
    } else {
        lemma_those_have(list, negated(owned), at);
        let taken = those(list, owned);
        if taken.contains(list[at]) {
            let k = choose|k: int| 0 <= k < taken.len() && taken[k] == list[at];
            assert(owned(taken[k]));
        }
    }
}

/// Taking a connection out by its id takes that one out and leaves every other, in order;
/// putting one in replaces the one that had its id.
pub proof fn law_connection_is_replaced_by_its_id(
    list: Seq<ConnectionView>,
    at: int,
    connection: ConnectionView,
)
    requires
        distinct_ids(list),
        0 <= at < list.len(),
    ensures
        those(list, is_other_than(list[at].id)) == list.remove(at),
        connection.id == list[at].id ==> those(list, is_other_than(connection.id)).push(connection)
            == list.remove(at).push(connection),
        !has_connection(list, connection.id) ==> those(list, is_other_than(connection.id)).push(
            connection,
        ) == list.push(connection),
{
    lemma_removed_one(list, list[at].id, at);
    if !has_connection(list, connection.id) {
        lemma_none_removed(list, connection.id);
    }
}

/// A connection is found by its id where it stands, and by no id that none has.
pub proof fn law_connection_is_found_by_its_id(list: Seq<ConnectionView>, at: int)
    requires
        distinct_ids(list),
        0 <= at < list.len(),
    ensures
        has_connection(list, list[at].id),
        connection_of(list, list[at].id) == list[at],
{
    lemma_unique(list, list[at].id, at);
}

/// A connection can be used again for a session if its agent, its directory and its
/// session are the ones asked for and it is neither disconnected nor failed; nothing else
/// matters. Connecting, connected and prompting connections can.
pub proof fn law_what_can_be_used_again(
    c: ConnectionView,
    agent_type: AgentType,
    working_dir: Option<Seq<Seq<u8>>>,
    session: Seq<char>,
)
    ensures
        c.serves(agent_type, working_dir, session) <==> {
            &&& c.agent_type == agent_type
            &&& c.working_dir == working_dir
            &&& c.external_id == Some(session)
            &&& c.status == ConnectionStatus::Connecting || c.status
                == ConnectionStatus::Connected || c.status == ConnectionStatus::Prompting
        },
        c.status.is_terminal() <==> c.status == ConnectionStatus::Disconnected || c.status
            == ConnectionStatus::Error,
{
}

/// The wait for a session to begin lasts as many seconds as the setting says, and a minute
/// where there is no setting or it is no number.
pub proof fn law_handshake_timeout(secs: u64, raw: Seq<char>)
    ensures
        handshake_timeout(Some(crate::number::decimal(secs as nat))) == secs,
        u64_of_text(raw) is None ==> handshake_timeout(Some(raw)) == 60,
        handshake_timeout(None) == 60,
{
    crate::number::law_parse_of_decimal(secs);
}

/// What is told of a connection is its id, its agent and its status.
pub proof fn law_info_of_a_connection(c: ConnectionView)
    ensures
        c.info().id == c.id,
        c.info().agent_type == c.agent_type,
        c.info().status == c.status,
{
}

/// How the outcomes of the wait are written, and the longest idle timeout that a sweep
/// goes by, in nanoseconds: as many milliseconds as a signed 64-bit number holds.
pub proof fn law_handshake_names()
    ensures
        HandshakeWaitOutcome::Ready.name() == "ready"@,
        HandshakeWaitOutcome::Aborted.name() == "aborted"@,
        HandshakeWaitOutcome::TimedOut.name() == "timeout"@,
        MAX_IDLE_NANOS == 9_223_372_036_854_775_807 * 1_000_000,
{
}


} // verus!
