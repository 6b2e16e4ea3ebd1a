//! Folds a stream of hook events into one aggregate state for the crab to
//! animate.
//!
//! Every session is tracked on its own; the aggregate is the most urgent
//! state any session is in (`WaitingInput` over `Working` over `Idle`), and
//! the tool shown is the one of the working session that reported last.
//!
//! The tracker knows nothing about files or windows: reading the inbox and
//! turning payloads into `HookEvent`s happens around it, so the whole state
//! machine runs on plain values.

use std::path::PathBuf;

use vstd::prelude::*;

use crate::event::{indicates_error, response_indicates_error, HookEvent};
use crate::text::str_eq;

verus! {

/// std's `PathBuf`, declared so the tracker can hold the inbox directory.
/// It is opaque here: the tracker stores the path and hands it back, and
/// reads nothing of it.
#[verifier::external_type_specification]
#[verifier::external_body]
pub struct ExPathBuf(PathBuf);

/// At most this many files are drained per poll, oldest first.
pub const MAX_FILES_PER_POLL: usize = 200;

#[derive(Debug, Clone, Copy, PartialEq, Eq, Default, Structural)]
pub enum State {
    #[default]
    Idle,
    Working,
    WaitingInput,
}

/// A one-shot thing that happened while applying events.
#[derive(Debug, Clone, Copy, PartialEq, Eq, Structural)]
pub enum Reaction {
    /// A session reached Stop: play the celebration once.
    Finished,
    /// A tool reported failure: play the stumble once.
    Errored,
}

/// The hook events the tracker tells apart.
#[derive(Debug, Clone, Copy, PartialEq, Eq, Structural)]
pub enum EventKind {
    SessionStart,
    UserPromptSubmit,
    PreToolUse,
    PostToolUse,
    Notification,
    Stop,
    SessionEnd,
    /// Anything else, such as SubagentStop or PreCompact.
    Other,
}

pub open spec fn kind_of(name: Seq<char>) -> EventKind {
    if name == "SessionStart"@ {
        EventKind::SessionStart
    } else if name == "UserPromptSubmit"@ {
        EventKind::UserPromptSubmit
    } else if name == "PreToolUse"@ {
        EventKind::PreToolUse
    } else if name == "PostToolUse"@ {
        EventKind::PostToolUse
    } else if name == "Notification"@ {
        EventKind::Notification
    } else if name == "Stop"@ {
        EventKind::Stop
    } else if name == "SessionEnd"@ {
        EventKind::SessionEnd
    } else {
        EventKind::Other
    }
}

/// Which hook event a `hook_event_name` names.
pub fn classify(name: &str) -> (k: EventKind)
    ensures
        k == kind_of(name@),
{
    if str_eq(name, "SessionStart") {
        EventKind::SessionStart
    } else if str_eq(name, "UserPromptSubmit") {
        EventKind::UserPromptSubmit
    } else if str_eq(name, "PreToolUse") {
        EventKind::PreToolUse
    } else if str_eq(name, "PostToolUse") {
        EventKind::PostToolUse
    } else if str_eq(name, "Notification") {
        EventKind::Notification
    } else if str_eq(name, "Stop") {
        EventKind::Stop
    } else if str_eq(name, "SessionEnd") {
        EventKind::SessionEnd
    } else {
        EventKind::Other
    }
}

/// One session as the tracker sees it.
pub ghost struct SessionView {
    pub state: State,
    pub tool: Seq<char>,
    pub last_seen_ms: int,
    /// When the session last reported, as a position in the event stream.
    pub seq: int,
}

/// The tracker's state, as contracts speak of it.
pub ghost struct TrackerView {
    /// Every live session, by id.
    pub sessions: Map<Seq<char>, SessionView>,
    pub aggregate: State,
    pub tool: Seq<char>,
    pub dirty: bool,
    /// How many events (other than SessionEnd) have been applied.
    pub sequence: int,
    pub last_count: int,
    pub stale_timeout_ms: int,
    pub inbox_max_bytes: int,
    pub inbox_max_age_ms: int,
}

/// Some session waits for the user.
pub open spec fn some_waiting(m: Map<Seq<char>, SessionView>) -> bool {
    exists|k: Seq<char>| #[trigger] m.dom().contains(k) && m[k].state == State::WaitingInput
}

/// Some session is working.
pub open spec fn some_working(m: Map<Seq<char>, SessionView>) -> bool {
    exists|k: Seq<char>| #[trigger] m.dom().contains(k) && m[k].state == State::Working
}

/// The aggregate: `WaitingInput` over `Working` over `Idle`.
pub open spec fn aggregate_of(m: Map<Seq<char>, SessionView>) -> State {
    if some_waiting(m) {
        State::WaitingInput
    } else if some_working(m) {
        State::Working
    } else {
        State::Idle
    }
}

/// `k` is the working session that reported last.
pub open spec fn newest_working(m: Map<Seq<char>, SessionView>, k: Seq<char>) -> bool {
    &&& m.dom().contains(k)
    &&& m[k].state == State::Working
    &&& forall|k2: Seq<char>|
        #[trigger] m.dom().contains(k2) && m[k2].state == State::Working ==> m[k2].seq <= m[k].seq
}

/// The tool to show: that of the working session that reported last, and
/// none unless the aggregate is `Working`.
pub open spec fn tool_of(m: Map<Seq<char>, SessionView>) -> Seq<char> {
    if aggregate_of(m) == State::Working {
        m[choose|k: Seq<char>| newest_working(m, k)].tool
    } else {
        Seq::empty()
    }
}

/// `v` with its sessions replaced and the aggregate recomputed from them.
/// Anything that changes the aggregate, the tool or the session count
/// raises the dirty flag.
pub open spec fn recomputed(v: TrackerView, sessions: Map<Seq<char>, SessionView>) -> TrackerView {
    let aggregate = aggregate_of(sessions);
    let tool = tool_of(sessions);
    let count = sessions.dom().len() as int;
    TrackerView {
        sessions,
        aggregate,
        tool,
        last_count: count,
        dirty: v.dirty || aggregate != v.aggregate || tool != v.tool || count != v.last_count,
        ..v
    }
}

/// The session `id` once an event has reached it: registered as idle with no
/// tool if it was unknown, and marked as seen now.
pub open spec fn refreshed(v: TrackerView, id: Seq<char>, now_ms: int) -> SessionView {
    let s = if v.sessions.dom().contains(id) {
        v.sessions[id]
    } else {
        SessionView { state: State::Idle, tool: Seq::empty(), last_seen_ms: 0, seq: 0 }
    };
    SessionView { last_seen_ms: now_ms, seq: v.sequence + 1, ..s }
}

/// What an event does to its session.
pub open spec fn applied(s: SessionView, kind: EventKind, tool: Seq<char>) -> SessionView {
    match kind {
        EventKind::SessionStart => SessionView { state: State::Idle, tool: Seq::empty(), ..s },
        EventKind::UserPromptSubmit => SessionView { state: State::Working, tool: Seq::empty(), ..s },
        EventKind::PreToolUse => SessionView { state: State::Working, tool, ..s },
        EventKind::PostToolUse => SessionView { state: State::Working, tool: Seq::empty(), ..s },
        EventKind::Notification => SessionView {
            state: State::WaitingInput,
            tool: Seq::empty(),
            ..s
        },
        EventKind::Stop => SessionView { state: State::Idle, tool: Seq::empty(), ..s },
        _ => s,
    }
}

/// The tracker after one event. An event without a session id or name is
/// ignored. `SessionEnd` forgets the session. Any other event registers an
/// unknown session and refreshes its liveness; the events the tracker knows
/// then set its state and recompute the aggregate, while unknown ones do no
/// more than that.
pub open spec fn after_event(
    v: TrackerView,
    id: Seq<char>,
    name: Seq<char>,
    tool: Seq<char>,
    now_ms: int,
) -> TrackerView {
    let kind = kind_of(name);
    if id.len() == 0 || name.len() == 0 {
        v
    } else if kind == EventKind::SessionEnd {
        if v.sessions.dom().contains(id) {
            recomputed(v, v.sessions.remove(id))
        } else {
            v
        }
    } else {
        let sessions = v.sessions.insert(id, applied(refreshed(v, id, now_ms), kind, tool));
        let bumped = TrackerView { sequence: v.sequence + 1, ..v };
        if kind == EventKind::Other {
            TrackerView { sessions, ..bumped }
        } else {
            recomputed(bumped, sessions)
        }
    }
}

/// The reactions an event produces: `Errored` for a failed tool, `Finished`
/// for a session that stopped.
pub open spec fn reactions_for(id: Seq<char>, name: Seq<char>, errored: bool) -> Seq<Reaction> {
    if id.len() == 0 || name.len() == 0 {
        Seq::empty()
    } else {
        match kind_of(name) {
            EventKind::PostToolUse => if errored {
                seq![Reaction::Errored]
            } else {
                Seq::empty()
            },
            EventKind::Stop => seq![Reaction::Finished],
            _ => Seq::empty(),
        }
    }
}

/// The sessions that have reported at or after `cutoff`.
pub open spec fn live_sessions(m: Map<Seq<char>, SessionView>, cutoff: int) -> Map<
    Seq<char>,
    SessionView,
> {
    m.restrict(Set::new(|k: Seq<char>| m.dom().contains(k) && m[k].last_seen_ms >= cutoff))
}

/// The tracker after retiring every session silent since before `cutoff`.
/// When none is, nothing changes at all.
pub open spec fn swept(v: TrackerView, cutoff: int) -> TrackerView {
    if exists|k: Seq<char>| #[trigger] v.sessions.dom().contains(k) && v.sessions[k].last_seen_ms < cutoff {
        recomputed(v, live_sessions(v.sessions, cutoff))
    } else {
        v
    }
}

/// The aggregate and the tool agree with the sessions: the aggregate is
/// `aggregate_of` them, no tool shows unless the aggregate is `Working`, and
/// the tool shown then is that of some live working session. (Which one: the
/// newest working session as of the last event that changed a state. An
/// event the tracker does not know refreshes its session's position in the
/// stream without recomputing, so the tool need not be the newest one's.)
pub open spec fn consistent(v: TrackerView) -> bool {
    &&& v.aggregate == aggregate_of(v.sessions)
    &&& v.aggregate != State::Working ==> v.tool == Seq::<char>::empty()
    &&& v.aggregate == State::Working ==> exists|k: Seq<char>|
        #[trigger] v.sessions.dom().contains(k) && v.sessions[k].state == State::Working
            && v.sessions[k].tool == v.tool
}

/// An event the tracker does not know only refreshes its session (or
/// registers it idle), so the aggregate and the tool stay consistent.
proof fn lemma_refresh_keeps_consistent(v: TrackerView, id: Seq<char>, now_ms: int, tool: Seq<char>)
    requires
        consistent(v),
    ensures
        consistent(
            TrackerView {
                sessions: v.sessions.insert(id, applied(refreshed(v, id, now_ms), EventKind::Other, tool)),
                sequence: v.sequence + 1,
                ..v
            },
        ),
{
    let m = v.sessions;
    let s = applied(refreshed(v, id, now_ms), EventKind::Other, tool);
    let m2 = m.insert(id, s);
    assert(s.state == State::Idle || (m.dom().contains(id) && s.state == m[id].state && s.tool
        == m[id].tool));
    assert(some_waiting(m2) == some_waiting(m)) by {
        if some_waiting(m2) {
            let k = choose|k: Seq<char>| #[trigger] m2.dom().contains(k) && m2[k].state == State::WaitingInput;
            assert(m.dom().contains(k) && m[k].state == State::WaitingInput);
        }
        if some_waiting(m) {
            let k = choose|k: Seq<char>| #[trigger] m.dom().contains(k) && m[k].state == State::WaitingInput;
            assert(m2.dom().contains(k) && m2[k].state == State::WaitingInput);
        }
    }
    assert(some_working(m2) == some_working(m)) by {
        if some_working(m2) {
            let k = choose|k: Seq<char>| #[trigger] m2.dom().contains(k) && m2[k].state == State::Working;
            assert(m.dom().contains(k) && m[k].state == State::Working);
        }
        if some_working(m) {
            let k = choose|k: Seq<char>| #[trigger] m.dom().contains(k) && m[k].state == State::Working;
            assert(m2.dom().contains(k) && m2[k].state == State::Working);
        }
    }
    if v.aggregate == State::Working {
        let k = choose|k: Seq<char>|
            #[trigger] m.dom().contains(k) && m[k].state == State::Working && m[k].tool == v.tool;
        assert(m2.dom().contains(k) && m2[k].state == State::Working && m2[k].tool == v.tool);
    }
}

struct Session {
    id: String,
    state: State,
    tool: String,
    last_seen_ms: i64,
    seq: i64,
}

impl Session {
    spec fn view_spec(self) -> SessionView {
        SessionView {
            state: self.state,
            tool: self.tool@,
            last_seen_ms: self.last_seen_ms as int,
            seq: self.seq as int,
        }
    }

    fn duplicate(&self) -> (r: Session)
        ensures
            r.id@ == self.id@,
            r.view_spec() == self.view_spec(),
    {
        Session {
            id: self.id.clone(),
            state: self.state,
            tool: self.tool.clone(),
            last_seen_ms: self.last_seen_ms,
            seq: self.seq,
        }
    }
}

spec fn ids_unique(v: Seq<Session>) -> bool {
    forall|i: int, j: int| 0 <= i < j < v.len() ==> (#[trigger] v[i]).id@ != (#[trigger] v[j]).id@
}

spec fn has_id(v: Seq<Session>, k: Seq<char>) -> bool {
    exists|i: int| 0 <= i < v.len() && (#[trigger] v[i]).id@ == k
}

spec fn map_of(v: Seq<Session>) -> Map<Seq<char>, SessionView> {
    Map::new(
        |k: Seq<char>| has_id(v, k),
        |k: Seq<char>| v[choose|i: int| 0 <= i < v.len() && (#[trigger] v[i]).id@ == k].view_spec(),
    )
}

proof fn lemma_map_of_at(v: Seq<Session>, i: int)
    requires
        ids_unique(v),
        0 <= i < v.len(),
    ensures
        map_of(v).dom().contains(v[i].id@),
        map_of(v)[v[i].id@] == v[i].view_spec(),
{
    let k = v[i].id@;
    assert(has_id(v, k));
    let j = choose|j: int| 0 <= j < v.len() && (#[trigger] v[j]).id@ == k;
    if j != i {
        if j < i {
            assert(v[j].id@ != v[i].id@);
        } else {
            assert(v[i].id@ != v[j].id@);
        }
    }
}

proof fn lemma_map_of_key(v: Seq<Session>, k: Seq<char>) -> (i: int)
    requires
        ids_unique(v),
        map_of(v).dom().contains(k),
    ensures
        0 <= i < v.len(),
        v[i].id@ == k,
        map_of(v)[k] == v[i].view_spec(),
{
    let i = choose|i: int| 0 <= i < v.len() && (#[trigger] v[i]).id@ == k;
    lemma_map_of_at(v, i);
    i
}

proof fn lemma_map_of_len(v: Seq<Session>)
    requires
        ids_unique(v),
    ensures
        map_of(v).dom().finite(),
        map_of(v).dom().len() == v.len(),
{
    let ids = v.map_values(|s: Session| s.id@);
    assert(ids.no_duplicates()) by {
        assert forall|i: int, j: int|
            0 <= i < ids.len() && 0 <= j < ids.len() && i != j implies ids[i] != ids[j] by {
            if i < j {
                assert(v[i].id@ != v[j].id@);
            } else {
                assert(v[j].id@ != v[i].id@);
            }
        }
    }
    ids.unique_seq_to_set();
    assert(map_of(v).dom() =~= ids.to_set()) by {
        assert forall|k: Seq<char>| map_of(v).dom().contains(k) implies ids.to_set().contains(k) by {
            let i = lemma_map_of_key(v, k);
            assert(ids[i] == k);
        }
        assert forall|k: Seq<char>| ids.to_set().contains(k) implies map_of(v).dom().contains(k) by {
            let i = choose|i: int| 0 <= i < ids.len() && ids[i] == k;
            assert(v[i].id@ == k);
        }
    }
    vstd::seq_lib::seq_to_set_is_finite(ids);
}

proof fn lemma_map_of_update(v: Seq<Session>, i: int, s: Session)
    requires
        ids_unique(v),
        0 <= i < v.len(),
        s.id@ == v[i].id@,
    ensures
        ids_unique(v.update(i, s)),
        map_of(v.update(i, s)) == map_of(v).insert(s.id@, s.view_spec()),
{
    let w = v.update(i, s);
    assert(ids_unique(w)) by {
        assert forall|a: int, b: int| 0 <= a < b < w.len() implies (#[trigger] w[a]).id@ != (
        #[trigger] w[b]).id@ by {
            assert(v[a].id@ != v[b].id@);
        }
    }
    assert forall|k: Seq<char>| #[trigger] map_of(w).dom().contains(k) <==> map_of(v).insert(
        s.id@,
        s.view_spec(),
    ).dom().contains(k) by {
        if map_of(w).dom().contains(k) {
            let j = lemma_map_of_key(w, k);
            if j != i {
                lemma_map_of_at(v, j);
            }
        }
        if map_of(v).dom().contains(k) {
            let j = lemma_map_of_key(v, k);
            lemma_map_of_at(w, j);
        }
        if k == s.id@ {
            lemma_map_of_at(w, i);
        }
    }
    assert forall|k: Seq<char>| #[trigger] map_of(w).dom().contains(k) implies map_of(w)[k]
        == map_of(v).insert(s.id@, s.view_spec())[k] by {
        let j = lemma_map_of_key(w, k);
        if j != i {
            lemma_map_of_at(v, j);
        }
    }
    assert(map_of(w) =~= map_of(v).insert(s.id@, s.view_spec()));
}

proof fn lemma_map_of_push(v: Seq<Session>, s: Session)
    requires
        ids_unique(v),
        !map_of(v).dom().contains(s.id@),
    ensures
        ids_unique(v.push(s)),
        map_of(v.push(s)) == map_of(v).insert(s.id@, s.view_spec()),
{
    let w = v.push(s);
    assert(ids_unique(w)) by {
        assert forall|a: int, b: int| 0 <= a < b < w.len() implies (#[trigger] w[a]).id@ != (
        #[trigger] w[b]).id@ by {
            if b == v.len() {
                if v[a].id@ == s.id@ {
                    lemma_map_of_at(v, a);
                }
            } else {
                assert(v[a].id@ != v[b].id@);
            }
        }
    }
    assert forall|k: Seq<char>| #[trigger] map_of(w).dom().contains(k) <==> map_of(v).insert(
        s.id@,
        s.view_spec(),
    ).dom().contains(k) by {
        if map_of(w).dom().contains(k) {
            let j = lemma_map_of_key(w, k);
            if j < v.len() {
                lemma_map_of_at(v, j);
            }
        }
        if map_of(v).dom().contains(k) {
            let j = lemma_map_of_key(v, k);
            lemma_map_of_at(w, j);
        }
        if k == s.id@ {
            lemma_map_of_at(w, v.len() as int);
        }
    }
    assert forall|k: Seq<char>| #[trigger] map_of(w).dom().contains(k) implies map_of(w)[k]
        == map_of(v).insert(s.id@, s.view_spec())[k] by {
        let j = lemma_map_of_key(w, k);
        if j < v.len() {
            lemma_map_of_at(v, j);
        }
    }
    assert(map_of(w) =~= map_of(v).insert(s.id@, s.view_spec()));
}

proof fn lemma_map_of_remove(v: Seq<Session>, i: int)
    requires
        ids_unique(v),
        0 <= i < v.len(),
    ensures
        ids_unique(v.remove(i)),
        map_of(v.remove(i)) == map_of(v).remove(v[i].id@),
{
    let w = v.remove(i);
    let gone = v[i].id@;
    assert(ids_unique(w)) by {
        assert forall|a: int, b: int| 0 <= a < b < w.len() implies (#[trigger] w[a]).id@ != (
        #[trigger] w[b]).id@ by {
            let a2 = if a < i { a } else { a + 1 };
            let b2 = if b < i { b } else { b + 1 };
            assert(w[a] == v[a2]);
            assert(w[b] == v[b2]);
            assert(v[a2].id@ != v[b2].id@);
        }
    }
    assert forall|k: Seq<char>| #[trigger] map_of(w).dom().contains(k) <==> map_of(v).remove(
        gone,
    ).dom().contains(k) by {
        if map_of(w).dom().contains(k) {
            let j = lemma_map_of_key(w, k);
            let j2 = if j < i { j } else { j + 1 };
            assert(w[j] == v[j2]);
            lemma_map_of_at(v, j2);
            if j2 < i {
                assert(v[j2].id@ != v[i].id@);
            } else {
                assert(v[i].id@ != v[j2].id@);
            }
        }
        if map_of(v).dom().contains(k) && k != gone {
            let j = lemma_map_of_key(v, k);
            let j2 = if j < i { j } else { j - 1 };
            assert(w[j2] == v[j]);
            lemma_map_of_at(w, j2);
        }
    }
    assert forall|k: Seq<char>| #[trigger] map_of(w).dom().contains(k) implies map_of(w)[k]
        == map_of(v).remove(gone)[k] by {
        let j = lemma_map_of_key(w, k);
        let j2 = if j < i { j } else { j + 1 };
        assert(w[j] == v[j2]);
        lemma_map_of_at(v, j2);
    }
    assert(map_of(w) =~= map_of(v).remove(gone));
}

/// Turns hook payloads into one aggregate state for the crab.
pub struct SessionTracker {
    inbox_dir: PathBuf,
    sessions: Vec<Session>,
    aggregate: State,
    current_tool: String,
    stale_timeout_ms: i64,
    inbox_max_bytes: i64,
    inbox_max_age_ms: i64,
    sequence: i64,
    last_count: usize,
    /// Set by anything that changes the aggregate; drained by the caller.
    dirty: bool,
}

impl View for SessionTracker {
    type V = TrackerView;

    closed spec fn view(&self) -> TrackerView {
        TrackerView {
            sessions: map_of(self.sessions@),
            aggregate: self.aggregate,
            tool: self.current_tool@,
            dirty: self.dirty,
            sequence: self.sequence as int,
            last_count: self.last_count as int,
            stale_timeout_ms: self.stale_timeout_ms as int,
            inbox_max_bytes: self.inbox_max_bytes as int,
            inbox_max_age_ms: self.inbox_max_age_ms as int,
        }
    }
}

impl SessionTracker {
    /// Session ids are unique, and every session carries a distinct position
    /// in the event stream, no later than the latest.
    spec fn sessions_wf(&self) -> bool {
        let v = self.sessions@;
        &&& ids_unique(v)
        &&& forall|i: int, j: int| 0 <= i < j < v.len() ==> (#[trigger] v[i]).seq != (#[trigger] v[j]).seq
        &&& forall|i: int| 0 <= i < v.len() ==> 0 <= (#[trigger] v[i]).seq <= self.sequence
        &&& self.sequence >= 0
    }

    /// The sessions are well formed, and the aggregate and the tool agree
    /// with them (see `consistent`).
    pub closed spec fn wf(&self) -> bool {
        &&& self.sessions_wf()
        &&& consistent(self@)
    }

    /// Every tracker the library hands out is consistent: its aggregate is
    /// the most urgent state of its live sessions, it shows no tool unless
    /// working, and while working it shows the tool of a live working
    /// session.
    pub proof fn law_aggregate_follows_sessions(&self)
        requires
            self.wf(),
        ensures
            consistent(self@),
            self@.aggregate == aggregate_of(self@.sessions),
    {
    }

    /// Distinct sessions reported at distinct positions of the stream, none
    /// later than the latest.
    pub proof fn lemma_positions_distinct(&self, a: Seq<char>, b: Seq<char>)
        requires
            self.wf(),
            self@.sessions.dom().contains(a),
        ensures
            0 <= self@.sessions[a].seq <= self@.sequence,
            self@.sessions.dom().contains(b) && a != b ==> self@.sessions[a].seq
                != self@.sessions[b].seq,
    {
        let v = self.sessions@;
        let i = lemma_map_of_key(v, a);
        if self@.sessions.dom().contains(b) && a != b {
            let j = lemma_map_of_key(v, b);
            if i < j {
                assert(v[i].seq != v[j].seq);
            } else {
                assert(v[j].seq != v[i].seq);
            }
        }
    }

    /// The directory the hooks write events into.
    pub closed spec fn inbox_spec(&self) -> PathBuf {
        self.inbox_dir
    }

    pub fn new(inbox_dir: PathBuf) -> (t: SessionTracker)
        ensures
            t.wf(),
            t.inbox_spec() == inbox_dir,
            t@.sessions == Map::<Seq<char>, SessionView>::empty(),
            t@.aggregate == State::Idle,
            t@.tool == Seq::<char>::empty(),
            !t@.dirty,
            t@.sequence == 0,
            t@.last_count == 0,
            t@.stale_timeout_ms == 10 * 60 * 1000,
            t@.inbox_max_bytes == 32 * 1024 * 1024,
            t@.inbox_max_age_ms == 60 * 60 * 1000,
    {
        let t = SessionTracker {
            inbox_dir,
            sessions: Vec::new(),
            aggregate: State::Idle,
            current_tool: String::new(),
            stale_timeout_ms: 10 * 60 * 1000,
            inbox_max_bytes: 32 * 1024 * 1024,
            inbox_max_age_ms: 60 * 60 * 1000,
            sequence: 0,
            last_count: 0,
            dirty: false,
        };
        assert(t@.sessions =~= Map::<Seq<char>, SessionView>::empty());
        t
    }

    /// The directory the hooks write events into.
    pub fn inbox_dir(&self) -> (r: &PathBuf)
        ensures
            *r == self.inbox_spec(),
    {
        &self.inbox_dir
    }

    pub fn aggregate_state(&self) -> (s: State)
        ensures
            s == self@.aggregate,
    {
        self.aggregate
    }

    pub fn current_tool(&self) -> (t: &str)
        ensures
            t@ == self@.tool,
    {
        self.current_tool.as_str()
    }

    /// How many sessions are live.
    pub fn session_count(&self) -> (n: usize)
        requires
            self.wf(),
        ensures
            n == self@.sessions.dom().len(),
    {
        proof {
            lemma_map_of_len(self.sessions@);
        }
        self.sessions.len()
    }

    /// How many events (other than `SessionEnd`) have been applied.
    pub fn event_sequence(&self) -> (n: i64)
        ensures
            n == self@.sequence,
    {
        self.sequence
    }

    pub fn stale_timeout_ms(&self) -> (n: i64)
        ensures
            n == self@.stale_timeout_ms,
    {
        self.stale_timeout_ms
    }

    pub fn inbox_max_bytes(&self) -> (n: i64)
        ensures
            n == self@.inbox_max_bytes,
    {
        self.inbox_max_bytes
    }

    pub fn inbox_max_age_ms(&self) -> (n: i64)
        ensures
            n == self@.inbox_max_age_ms,
    {
        self.inbox_max_age_ms
    }

    /// True (once) if the aggregate changed since the last call.
    pub fn take_dirty(&mut self) -> (changed: bool)
        requires
            old(self).wf(),
        ensures
            final(self).wf(),
            final(self).inbox_spec() == old(self).inbox_spec(),
            changed == old(self)@.dirty,
            final(self)@ == (TrackerView { dirty: false, ..old(self)@ }),
    {
        let changed = self.dirty;
        self.dirty = false;
        changed
    }

    /// Sessions silent for longer than this are retired. Default 10 minutes.
    pub fn set_stale_timeout_ms(&mut self, ms: i64)
        requires
            old(self).wf(),
        ensures
            final(self).wf(),
            final(self).inbox_spec() == old(self).inbox_spec(),
            final(self)@ == (TrackerView { stale_timeout_ms: ms as int, ..old(self)@ }),
    {
        self.stale_timeout_ms = ms;
    }

    pub fn set_inbox_budget(&mut self, max_bytes: i64, max_age_ms: i64)
        requires
            old(self).wf(),
        ensures
            final(self).wf(),
            final(self).inbox_spec() == old(self).inbox_spec(),
            final(self)@ == (TrackerView {
                inbox_max_bytes: max_bytes as int,
                inbox_max_age_ms: max_age_ms as int,
                ..old(self)@
            }),
    {
        self.inbox_max_bytes = max_bytes;
        self.inbox_max_age_ms = max_age_ms;
    }

    /// The position of session `id`, if it is live.
    fn find(&self, id: &str) -> (r: Option<usize>)
        requires
            self.sessions_wf(),
        ensures
            match r {
                Some(i) => i < self.sessions@.len() && self.sessions@[i as int].id@ == id@,
                None => !self@.sessions.dom().contains(id@),
            },
    {
        let mut i: usize = 0;
        while i < self.sessions.len()
            invariant
                i <= self.sessions@.len(),
                forall|j: int| 0 <= j < i ==> (#[trigger] self.sessions@[j]).id@ != id@,
            decreases self.sessions@.len() - i,
        {
            if str_eq(self.sessions[i].id.as_str(), id) {
                return Some(i);
            }
            i += 1;
        }
        proof {
            if self@.sessions.dom().contains(id@) {
                let j = lemma_map_of_key(self.sessions@, id@);
            }
        }
        None
    }

    /// Recompute the aggregate, the tool and the count from the sessions.
    fn recompute(&mut self)
        requires
            old(self).sessions_wf(),
        ensures
            final(self).wf(),
            final(self).inbox_spec() == old(self).inbox_spec(),
            final(self)@ == recomputed(old(self)@, old(self)@.sessions),
    {
        let ghost v = self.sessions@;
        let ghost m = map_of(v);
        let mut aggregate = State::Idle;
        let mut tool = String::new();
        let mut newest: i64 = -1;
        let ghost mut best: int = -1;
        let mut i: usize = 0;
        while i < self.sessions.len()
            invariant
                self.sessions@ == v,
                self.sessions_wf(),
                i <= v.len(),
                (aggregate == State::WaitingInput) <==> (exists|j: int|
                    0 <= j < i && (#[trigger] v[j]).state == State::WaitingInput),
                (aggregate == State::Working) <==> (!(exists|j: int|
                    0 <= j < i && (#[trigger] v[j]).state == State::WaitingInput) && (exists|j: int|
                    0 <= j < i && (#[trigger] v[j]).state == State::Working)),
                -1 <= best < i,
                best == -1 <==> !(exists|j: int| 0 <= j < i && (#[trigger] v[j]).state == State::Working),
                best == -1 ==> newest == -1,
                best >= 0 ==> v[best].state == State::Working && newest == v[best].seq && tool@
                    == v[best].tool@,
                forall|j: int| 0 <= j < i && (#[trigger] v[j]).state == State::Working ==> v[j].seq <= newest,
            decreases v.len() - i,
        {
            let state = self.sessions[i].state;
            if state == State::WaitingInput {
                aggregate = State::WaitingInput;
            } else if state == State::Working && aggregate != State::WaitingInput {
                aggregate = State::Working;
            }
            if state == State::Working {
                let seq = self.sessions[i].seq;
                if seq > newest {
                    newest = seq;
                    tool = self.sessions[i].tool.clone();
                    proof {
                        best = i as int;
                    }
                }
            }
            proof {
                assert(v[i as int].state == state);
            }
            i += 1;
        }
        if aggregate != State::Working {
            tool = String::new();
        }
        proof {
            assert(some_waiting(m) <==> exists|j: int| 0 <= j < v.len() && (#[trigger] v[j]).state
                == State::WaitingInput) by {
                if some_waiting(m) {
                    let k = choose|k: Seq<char>| #[trigger] m.dom().contains(k) && m[k].state
                        == State::WaitingInput;
                    let j = lemma_map_of_key(v, k);
                }
                if exists|j: int| 0 <= j < v.len() && (#[trigger] v[j]).state == State::WaitingInput {
                    let j = choose|j: int| 0 <= j < v.len() && (#[trigger] v[j]).state
                        == State::WaitingInput;
                    lemma_map_of_at(v, j);
                    assert(m.dom().contains(v[j].id@));
                }
            }
            assert(some_working(m) <==> exists|j: int| 0 <= j < v.len() && (#[trigger] v[j]).state
                == State::Working) by {
                if some_working(m) {
                    let k = choose|k: Seq<char>| #[trigger] m.dom().contains(k) && m[k].state
                        == State::Working;
                    let j = lemma_map_of_key(v, k);
                }
                if exists|j: int| 0 <= j < v.len() && (#[trigger] v[j]).state == State::Working {
                    let j = choose|j: int| 0 <= j < v.len() && (#[trigger] v[j]).state
                        == State::Working;
                    lemma_map_of_at(v, j);
                    assert(m.dom().contains(v[j].id@));
                }
            }
            assert(aggregate == aggregate_of(m));
            if aggregate == State::Working {
                let kb = v[best].id@;
                lemma_map_of_at(v, best);
                assert(newest_working(m, kb)) by {
                    assert forall|k2: Seq<char>|
                        #[trigger] m.dom().contains(k2) && m[k2].state == State::Working implies m[k2].seq
                        <= m[kb].seq by {
                        let j = lemma_map_of_key(v, k2);
                    }
                }
                let k = choose|k: Seq<char>| newest_working(m, k);
                assert(newest_working(m, k));
                let j = lemma_map_of_key(v, k);
                assert(m[k].seq <= m[kb].seq);
                assert(m[kb].seq <= m[k].seq);
                if j != best {
                    if j < best {
                        assert(v[j].seq != v[best].seq);
                    } else {
                        assert(v[best].seq != v[j].seq);
                    }
                }
                assert(tool@ == tool_of(m));
                assert(m.dom().contains(k) && m[k].state == State::Working && m[k].tool == tool_of(m));
            } else {
                assert(tool@ =~= tool_of(m));
            }
            lemma_map_of_len(v);
        }
        let count = self.sessions.len();
        let same_tool = tool == self.current_tool;
        if aggregate != self.aggregate || !same_tool || count != self.last_count {
            self.aggregate = aggregate;
            self.current_tool = tool;
            self.last_count = count;
            self.dirty = true;
        }
    }

    /// Forget session `id` and recompute, if it is live.
    fn end_session(&mut self, id: &str)
        requires
            old(self).wf(),
        ensures
            final(self).wf(),
            final(self).inbox_spec() == old(self).inbox_spec(),
            final(self)@ == (if old(self)@.sessions.dom().contains(id@) {
                recomputed(old(self)@, old(self)@.sessions.remove(id@))
            } else {
                old(self)@
            }),
    {
        match self.find(id) {
            Some(i) => {
                proof {
                    lemma_map_of_remove(self.sessions@, i as int);
                    lemma_map_of_at(self.sessions@, i as int);
                }
                let _ = self.sessions.remove(i);
                proof {
                    let w = self.sessions@;
                    let v = old(self).sessions@;
                    assert forall|a: int, b: int| 0 <= a < b < w.len() implies (
                    #[trigger] w[a]).seq != (#[trigger] w[b]).seq by {
                        let a2 = if a < i { a } else { a + 1 };
                        let b2 = if b < i { b } else { b + 1 };
                        assert(w[a] == v[a2]);
                        assert(w[b] == v[b2]);
                    }
                    assert forall|a: int| 0 <= a < w.len() implies 0 <= (#[trigger] w[a]).seq
                        <= self.sequence by {
                        let a2 = if a < i { a } else { a + 1 };
                        assert(w[a] == v[a2]);
                    }
                }
                self.recompute();
            },
            None => {},
        }
    }

    /// Register session `id` if it is unknown, mark it as seen now at the next
    /// position of the stream, and apply the event to it.
    fn touch_session(&mut self, event: &HookEvent, kind: EventKind, now_ms: i64)
        requires
            old(self).sessions_wf(),
            old(self)@.sequence < i64::MAX,
        ensures
            final(self).sessions_wf(),
            final(self).inbox_spec() == old(self).inbox_spec(),
            final(self)@ == (TrackerView {
                sessions: old(self)@.sessions.insert(
                    event.session_id@,
                    applied(
                        refreshed(old(self)@, event.session_id@, now_ms as int),
                        kind,
                        event.tool_name@,
                    ),
                ),
                sequence: old(self)@.sequence + 1,
                ..old(self)@
            }),
    {
        let id = event.session_id.as_str();
        self.sequence = self.sequence + 1;
        let seq = self.sequence;
        let i = match self.find(id) {
            Some(i) => i,
            None => {
                let fresh = Session {
                    id: event.session_id.clone(),
                    state: State::Idle,
                    tool: String::new(),
                    last_seen_ms: 0,
                    seq: 0,
                };
                proof {
                    lemma_map_of_push(self.sessions@, fresh);
                }
                self.sessions.push(fresh);
                self.sessions.len() - 1
            },
        };
        let ghost registered = self.sessions@;
        proof {
            lemma_map_of_at(registered, i as int);
        }
        let (state, tool) = match kind {
            EventKind::SessionStart => (State::Idle, String::new()),
            EventKind::UserPromptSubmit => (State::Working, String::new()),
            EventKind::PreToolUse => (State::Working, event.tool_name.clone()),
            EventKind::PostToolUse => (State::Working, String::new()),
            EventKind::Notification => (State::WaitingInput, String::new()),
            EventKind::Stop => (State::Idle, String::new()),
            _ => (self.sessions[i].state, self.sessions[i].tool.clone()),
        };
        let updated = Session {
            id: self.sessions[i].id.clone(),
            state,
            tool,
            last_seen_ms: now_ms,
            seq,
        };
        proof {
            lemma_map_of_update(registered, i as int, updated);
        }
        self.sessions[i] = updated;
        proof {
            let w = self.sessions@;
            assert(w == registered.update(i as int, updated));
            assert forall|a: int, b: int| 0 <= a < b < w.len() implies (#[trigger] w[a]).seq != (
            #[trigger] w[b]).seq by {
                if a != i && b != i {
                    assert(registered[a].seq != registered[b].seq);
                }
            }
            assert(applied(refreshed(old(self)@, id@, now_ms as int), kind, event.tool_name@)
                == updated.view_spec());
            assert(map_of(registered).insert(id@, updated.view_spec()) =~= old(self)@.sessions.insert(
                id@,
                updated.view_spec(),
            ));
        }
    }

    /// Apply one hook event, observed at `now_ms`, and return the reactions it
    /// calls for.
    pub fn handle_event(&mut self, event: &HookEvent, now_ms: i64) -> (r: Vec<Reaction>)
        requires
            old(self).wf(),
            old(self)@.sequence < i64::MAX,
        ensures
            final(self).wf(),
            final(self).inbox_spec() == old(self).inbox_spec(),
            final(self)@ == after_event(
                old(self)@,
                event.session_id@,
                event.hook_event_name@,
                event.tool_name@,
                now_ms as int,
            ),
            r@ == reactions_for(
                event.session_id@,
                event.hook_event_name@,
                indicates_error(event.tool_response),
            ),
    {
        let id = event.session_id.as_str();
        let name = event.hook_event_name.as_str();
        if id.is_empty() || name.is_empty() {
            return Vec::new();
        }
        let kind = classify(name);
        if kind == EventKind::SessionEnd {
            self.end_session(id);
            return Vec::new();
        }
        self.touch_session(event, kind, now_ms);
        if kind == EventKind::Other {
            proof {
                lemma_refresh_keeps_consistent(old(self)@, id@, now_ms as int, event.tool_name@);
            }
            return Vec::new();
        }
        self.recompute();
        let mut reactions: Vec<Reaction> = Vec::new();
        if kind == EventKind::PostToolUse && response_indicates_error(&event.tool_response) {
            reactions.push(Reaction::Errored);
        }
        if kind == EventKind::Stop {
            reactions.push(Reaction::Finished);
        }
        proof {
            assert(reactions@ =~= reactions_for(
                event.session_id@,
                event.hook_event_name@,
                indicates_error(event.tool_response),
            ));
        }
        reactions
    }

    /// Retire sessions with no event since `now_ms - stale_timeout_ms`.
    ///
    /// A killed session never sends Stop or SessionEnd; without this the crab
    /// would walk forever.
    pub fn sweep_stale(&mut self, now_ms: i64)
        requires
            old(self).wf(),
            i64::MIN <= now_ms - old(self)@.stale_timeout_ms <= i64::MAX,
        ensures
            final(self).wf(),
            final(self).inbox_spec() == old(self).inbox_spec(),
            final(self)@ == swept(old(self)@, now_ms - old(self)@.stale_timeout_ms),
    {
        let cutoff = now_ms - self.stale_timeout_ms;
        let ghost v = self.sessions@;
        let ghost m = map_of(v);
        let ghost live = live_sessions(m, cutoff as int);
        let mut kept: Vec<Session> = Vec::new();
        let mut any_stale = false;
        let mut i: usize = 0;
        while i < self.sessions.len()
            invariant
                self.sessions@ == v,
                self.wf(),
                i <= v.len(),
                ids_unique(kept@),
                any_stale <==> exists|j: int| 0 <= j < i && (#[trigger] v[j]).last_seen_ms < cutoff,
                forall|a: int, b: int| 0 <= a < b < kept@.len() ==> (#[trigger] kept@[a]).seq != (
                #[trigger] kept@[b]).seq,
                forall|a: int| 0 <= a < kept@.len() ==> 0 <= (#[trigger] kept@[a]).seq <= self.sequence,
                forall|k: Seq<char>| #[trigger] map_of(kept@).dom().contains(k) <==> (exists|j: int|
                    0 <= j < i && v[j].id@ == k && v[j].last_seen_ms >= cutoff),
                forall|j: int|
                    0 <= j < i && v[j].last_seen_ms >= cutoff ==> #[trigger] map_of(kept@)[v[j].id@]
                        == v[j].view_spec(),
            decreases v.len() - i,
        {
            if self.sessions[i].last_seen_ms < cutoff {
                any_stale = true;
            } else {
                let s = self.sessions[i].duplicate();
                let ghost before = kept@;
                proof {
                    if map_of(before).dom().contains(s.id@) {
                        let j = choose|j: int| 0 <= j < i && v[j].id@ == s.id@ && v[j].last_seen_ms >= cutoff;
                        assert(v[j].id@ != v[i as int].id@);
                    }
                    lemma_map_of_push(before, s);
                }
                kept.push(s);
                proof {
                    let w = kept@;
                    assert forall|a: int, b: int| 0 <= a < b < w.len() implies (#[trigger] w[a]).seq
                        != (#[trigger] w[b]).seq by {
                        if b == before.len() {
                            let ka = w[a].id@;
                            lemma_map_of_at(before, a);
                            let j = choose|j: int|
                                0 <= j < i && v[j].id@ == ka && v[j].last_seen_ms >= cutoff;
                            assert(map_of(before)[v[j].id@] == v[j].view_spec());
                            assert(v[j].seq != v[i as int].seq);
                        }
                    }
                    assert forall|k: Seq<char>| #[trigger] map_of(w).dom().contains(k) <==> (exists|
                        j: int,
                    | 0 <= j < i + 1 && v[j].id@ == k && v[j].last_seen_ms >= cutoff) by {
                        if k == s.id@ {
                            assert(v[i as int].id@ == k);
                        }
                    }
                    assert forall|j: int|
                        0 <= j < i + 1 && v[j].last_seen_ms >= cutoff implies #[trigger] map_of(
                        w,
                    )[v[j].id@] == v[j].view_spec() by {
                        if j < i {
                            assert(v[j].id@ != v[i as int].id@);
                        }
                    }
                }
            }
            i += 1;
        }
        proof {
            assert(map_of(kept@) =~= live) by {
                assert forall|k: Seq<char>| #[trigger] map_of(kept@).dom().contains(k) <==> live.dom().contains(
                    k,
                ) by {
                    if map_of(kept@).dom().contains(k) {
                        let j = choose|j: int| 0 <= j < v.len() && v[j].id@ == k && v[j].last_seen_ms >= cutoff;
                        lemma_map_of_at(v, j);
                    }
                    if live.dom().contains(k) {
                        let j = lemma_map_of_key(v, k);
                    }
                }
                assert forall|k: Seq<char>| #[trigger] map_of(kept@).dom().contains(k) implies map_of(kept@)[k]
                    == live[k] by {
                    let j = choose|j: int| 0 <= j < v.len() && v[j].id@ == k && v[j].last_seen_ms >= cutoff;
                    lemma_map_of_at(v, j);
                }
            }
            if exists|k: Seq<char>| #[trigger] m.dom().contains(k) && m[k].last_seen_ms < cutoff {
                let k = choose|k: Seq<char>| #[trigger] m.dom().contains(k) && m[k].last_seen_ms < cutoff;
                let j = lemma_map_of_key(v, k);
                assert(any_stale);
            }
            if any_stale {
                let j = choose|j: int| 0 <= j < v.len() && (#[trigger] v[j]).last_seen_ms < cutoff;
                lemma_map_of_at(v, j);
                assert(m.dom().contains(v[j].id@));
            }
        }
        if !any_stale {
            return;
        }
        self.sessions = kept;
        self.recompute();
    }
}

/// The names of the seven hook events the tracker knows are told apart.
proof fn lemma_event_names()
    ensures
        kind_of("SessionStart"@) == EventKind::SessionStart,
        kind_of("UserPromptSubmit"@) == EventKind::UserPromptSubmit,
        kind_of("PreToolUse"@) == EventKind::PreToolUse,
        kind_of("PostToolUse"@) == EventKind::PostToolUse,
        kind_of("Notification"@) == EventKind::Notification,
        kind_of("Stop"@) == EventKind::Stop,
        kind_of("SessionEnd"@) == EventKind::SessionEnd,
        "SessionStart"@.len() > 0 && "UserPromptSubmit"@.len() > 0 && "PreToolUse"@.len() > 0
            && "PostToolUse"@.len() > 0 && "Notification"@.len() > 0 && "Stop"@.len() > 0
            && "SessionEnd"@.len() > 0,
{
    reveal_strlit("SessionStart");
    reveal_strlit("UserPromptSubmit");
    reveal_strlit("PreToolUse");
    reveal_strlit("PostToolUse");
    reveal_strlit("Notification");
    reveal_strlit("Stop");
    reveal_strlit("SessionEnd");
    assert("SessionStart"@ != "SessionEnd"@) by {
        assert("SessionStart"@[7] != "SessionEnd"@[7]);
    }
    assert("PreToolUse"@ != "PostToolUse"@) by {
        assert("PreToolUse"@.len() != "PostToolUse"@.len());
    }
    assert("Notification"@ != "SessionStart"@) by {
        assert("Notification"@[0] != "SessionStart"@[0]);
    }
    assert("SessionEnd"@ != "PreToolUse"@) by {
        assert("SessionEnd"@[0] != "PreToolUse"@[0]);
    }
}

/// The aggregate is the most urgent state of any session: waiting for the
/// user if any session is, else working if any is, else idle; and a tool is
/// only ever shown while working.
pub proof fn law_aggregate_priority(m: Map<Seq<char>, SessionView>)
    ensures
        (aggregate_of(m) == State::WaitingInput) <==> some_waiting(m),
        (aggregate_of(m) == State::Working) <==> (!some_waiting(m) && some_working(m)),
        (aggregate_of(m) == State::Idle) <==> (!some_waiting(m) && !some_working(m)),
        aggregate_of(m) != State::Working ==> tool_of(m) == Seq::<char>::empty(),
{
}

/// An event without a session id or an event name changes nothing and
/// produces no reaction.
pub proof fn law_incomplete_events_ignored(
    v: TrackerView,
    id: Seq<char>,
    name: Seq<char>,
    tool: Seq<char>,
    now_ms: int,
    errored: bool,
)
    requires
        id.len() == 0 || name.len() == 0,
    ensures
        after_event(v, id, name, tool, now_ms) == v,
        reactions_for(id, name, errored) == Seq::<Reaction>::empty(),
{
}

/// Any event for a session other than SessionEnd registers it if it was
/// unknown, so a tracker started mid-session still tracks it, and marks it
/// as seen now.
pub proof fn law_events_register_sessions(
    v: TrackerView,
    id: Seq<char>,
    name: Seq<char>,
    tool: Seq<char>,
    now_ms: int,
)
    requires
        id.len() > 0,
        name.len() > 0,
        kind_of(name) != EventKind::SessionEnd,
    ensures
        after_event(v, id, name, tool, now_ms).sessions.dom().contains(id),
        after_event(v, id, name, tool, now_ms).sessions[id].last_seen_ms == now_ms,
        after_event(v, id, name, tool, now_ms).sessions.dom() == v.sessions.dom().insert(id),
{
    let w = after_event(v, id, name, tool, now_ms);
    assert(w.sessions.dom() =~= v.sessions.dom().insert(id));
}

/// SessionEnd forgets its session and leaves every other one as it was.
pub proof fn law_session_end_forgets(v: TrackerView, id: Seq<char>, tool: Seq<char>, now_ms: int)
    requires
        id.len() > 0,
    ensures
        !after_event(v, id, "SessionEnd"@, tool, now_ms).sessions.dom().contains(id),
        after_event(v, id, "SessionEnd"@, tool, now_ms).sessions == v.sessions.remove(id),
{
    lemma_event_names();
    if !v.sessions.dom().contains(id) {
        assert(v.sessions.remove(id) =~= v.sessions);
    }
}

/// Stop sends its session idle and celebrates; a failed tool makes the crab
/// stumble. No other event reacts.
pub proof fn law_reactions(id: Seq<char>, name: Seq<char>, errored: bool)
    requires
        id.len() > 0,
    ensures
        reactions_for(id, "Stop"@, errored) == seq![Reaction::Finished],
        reactions_for(id, "PostToolUse"@, errored) == (if errored {
            seq![Reaction::Errored]
        } else {
            Seq::<Reaction>::empty()
        }),
        kind_of(name) != EventKind::Stop && kind_of(name) != EventKind::PostToolUse ==> reactions_for(
            id,
            name,
            errored,
        ) == Seq::<Reaction>::empty(),
{
    lemma_event_names();
}

/// Stop leaves its session idle with no tool.
pub proof fn law_stop_idles(v: TrackerView, id: Seq<char>, tool: Seq<char>, now_ms: int)
    requires
        id.len() > 0,
    ensures
        after_event(v, id, "Stop"@, tool, now_ms).sessions[id].state == State::Idle,
        after_event(v, id, "Stop"@, tool, now_ms).sessions[id].tool == Seq::<char>::empty(),
{
    lemma_event_names();
}

/// The session that reported last supplies the tool: after PreToolUse for
/// `tool`, the crab shows that tool, unless some session waits for the user.
pub proof fn law_newest_tool_wins(v: TrackerView, id: Seq<char>, tool: Seq<char>, now_ms: int)
    requires
        id.len() > 0,
        forall|k: Seq<char>| #[trigger] v.sessions.dom().contains(k) ==> v.sessions[k].seq <= v.sequence,
    ensures
        ({
            let w = after_event(v, id, "PreToolUse"@, tool, now_ms);
            !some_waiting(w.sessions) ==> w.aggregate == State::Working && w.tool == tool
        }),
{
    lemma_event_names();
    let w = after_event(v, id, "PreToolUse"@, tool, now_ms);
    let m = w.sessions;
    assert(m.dom().contains(id));
    assert(m[id].state == State::Working);
    assert(some_working(m));
    if !some_waiting(m) {
        assert(newest_working(m, id)) by {
            assert forall|k2: Seq<char>| #[trigger] m.dom().contains(k2) && m[k2].state == State::Working implies m[k2].seq
                <= m[id].seq by {
                if k2 != id {
                    assert(v.sessions.dom().contains(k2));
                }
            }
        }
        let k = choose|k: Seq<char>| newest_working(m, k);
        assert(newest_working(m, k));
        if k != id {
            assert(v.sessions.dom().contains(k));
            assert(m[k].seq <= v.sequence);
            assert(m[id].seq <= m[k].seq);
        }
    }
}

/// The same holds of a prompt and of a finished tool: the session that sent
/// it is the newest working one, and it is between tools, so unless some
/// session waits for the user the crab works with no tool (it thinks).
pub proof fn law_newest_session_between_tools(
    v: TrackerView,
    id: Seq<char>,
    name: Seq<char>,
    tool: Seq<char>,
    now_ms: int,
)
    requires
        id.len() > 0,
        name == "UserPromptSubmit"@ || name == "PostToolUse"@,
        forall|k: Seq<char>| #[trigger] v.sessions.dom().contains(k) ==> v.sessions[k].seq <= v.sequence,
    ensures
        ({
            let w = after_event(v, id, name, tool, now_ms);
            !some_waiting(w.sessions) ==> w.aggregate == State::Working && w.tool
                == Seq::<char>::empty()
        }),
{
    lemma_event_names();
    let w = after_event(v, id, name, tool, now_ms);
    let m = w.sessions;
    assert(m.dom().contains(id));
    assert(m[id].state == State::Working);
    assert(m[id].tool == Seq::<char>::empty());
    assert(some_working(m));
    if !some_waiting(m) {
        assert(newest_working(m, id)) by {
            assert forall|k2: Seq<char>| #[trigger] m.dom().contains(k2) && m[k2].state == State::Working implies m[k2].seq
                <= m[id].seq by {
                if k2 != id {
                    assert(v.sessions.dom().contains(k2));
                }
            }
        }
        let k = choose|k: Seq<char>| newest_working(m, k);
        assert(newest_working(m, k));
        if k != id {
            assert(v.sessions.dom().contains(k));
            assert(m[k].seq <= v.sequence);
            assert(m[id].seq <= m[k].seq);
        }
    }
}

/// The dirty flag tells the caller that what the crab shows has changed:
/// after any event it is raised exactly when it already was, or the
/// aggregate, the tool shown or the number of live sessions differs from
/// before. In particular a new tool always raises it.
pub proof fn law_event_raises_dirty_on_change(
    v: TrackerView,
    id: Seq<char>,
    name: Seq<char>,
    tool: Seq<char>,
    now_ms: int,
)
    ensures
        ({
            let w = after_event(v, id, name, tool, now_ms);
            w.dirty == (v.dirty || w.aggregate != v.aggregate || w.tool != v.tool || w.last_count
                != v.last_count)
        }),
        after_event(v, id, name, tool, now_ms).tool != v.tool ==> after_event(
            v,
            id,
            name,
            tool,
            now_ms,
        ).dirty,
{
}

/// The same holds of a sweep: retiring stale sessions raises the dirty flag
/// exactly when the aggregate, the tool shown or the session count changes
/// (or it was raised already).
pub proof fn law_sweep_raises_dirty_on_change(v: TrackerView, cutoff: int)
    ensures
        ({
            let w = swept(v, cutoff);
            w.dirty == (v.dirty || w.aggregate != v.aggregate || w.tool != v.tool || w.last_count
                != v.last_count)
        }),
        swept(v, cutoff).tool != v.tool ==> swept(v, cutoff).dirty,
{
}

/// A sweep keeps exactly the sessions heard from at or after the cutoff,
/// unchanged, and changes nothing at all when none is older.
pub proof fn law_sweep_keeps_live_sessions(v: TrackerView, cutoff: int, k: Seq<char>)
    ensures
        swept(v, cutoff).sessions.dom().contains(k) <==> (v.sessions.dom().contains(k)
            && v.sessions[k].last_seen_ms >= cutoff),
        swept(v, cutoff).sessions.dom().contains(k) ==> swept(v, cutoff).sessions[k] == v.sessions[k],
{
    if !(exists|k2: Seq<char>| #[trigger] v.sessions.dom().contains(k2) && v.sessions[k2].last_seen_ms < cutoff) {
        if v.sessions.dom().contains(k) {
            assert(v.sessions[k].last_seen_ms >= cutoff);
        }
    }
}

} // verus!
