use vstd::prelude::*;

use crate::error::CockpitError;
use crate::models::{PullRequestRef, Session, SessionId, SessionStatus};
use crate::time::{clock_now, later, Timestamp};

verus! {

/// An entry of the thread index: the session bound to a (channel, thread) pair.
pub struct ThreadBinding {
    pub channel: String,
    pub thread_ts: String,
    pub session_id: SessionId,
}

impl Clone for ThreadBinding {
    fn clone(&self) -> (r: Self)
        ensures
            r == *self,
    {
        ThreadBinding {
            channel: self.channel.clone(),
            thread_ts: self.thread_ts.clone(),
            session_id: self.session_id,
        }
    }
}

/// An ended session whose last update lies strictly before `cutoff`
/// (nanoseconds since the epoch).
pub open spec fn is_stale(s: Session, cutoff: int) -> bool {
    s.status == SessionStatus::Ended && s.updated_at.spec_nanos() < cutoff
}

/// The identifiers of the stale sessions of `store`.
pub open spec fn stale_ids(store: Map<SessionId, Session>, cutoff: int) -> Set<SessionId> {
    Set::new(|id: SessionId| store.contains_key(id) && is_stale(store[id], cutoff))
}

/// The index without the entries that name a member of `ids`.
pub open spec fn unbind(
    index: Map<(Seq<char>, Seq<char>), SessionId>,
    ids: Set<SessionId>,
) -> Map<(Seq<char>, Seq<char>), SessionId> {
    Map::new(
        |k: (Seq<char>, Seq<char>)| index.contains_key(k) && !ids.contains(index[k]),
        |k: (Seq<char>, Seq<char>)| index[k],
    )
}

/// Whether `ids` holds `id`.
fn ids_contain(ids: &Vec<SessionId>, id: SessionId) -> (r: bool)
    ensures
        r == ids@.contains(id),
{
    let mut i: usize = 0;
    while i < ids.len()
        invariant
            i <= ids.len(),
            forall|j: int| 0 <= j < i ==> ids@[j] != id,
        decreases ids.len() - i,
    {
        if ids[i] == id {
            assert(ids@[i as int] == id);
            return true;
        }
        i = i + 1;
    }
    false
}

/// No two records share an identifier.
pub open spec fn unique_session_ids(s: Seq<Session>) -> bool {
    forall|i: int, j: int|
        0 <= i < s.len() && 0 <= j < s.len() && #[trigger] s[i].id == #[trigger] s[j].id ==> i == j
}

/// The records as a map from identifier to record.
pub open spec fn session_map(s: Seq<Session>) -> Map<SessionId, Session> {
    Map::new(
        |id: SessionId| exists|i: int| 0 <= i < s.len() && s[i].id == id,
        |id: SessionId| s[choose|i: int| 0 <= i < s.len() && s[i].id == id],
    )
}

/// The key of a binding: its channel and thread.
pub open spec fn binding_key(b: ThreadBinding) -> (Seq<char>, Seq<char>) {
    (b.channel@, b.thread_ts@)
}

/// No two bindings share a (channel, thread) pair.
pub open spec fn unique_binding_keys(s: Seq<ThreadBinding>) -> bool {
    forall|i: int, j: int|
        0 <= i < s.len() && 0 <= j < s.len() && #[trigger] binding_key(s[i]) == #[trigger] binding_key(
            s[j],
        ) ==> i == j
}

/// The bindings as a map from (channel, thread) to session identifier.
pub open spec fn binding_map(s: Seq<ThreadBinding>) -> Map<(Seq<char>, Seq<char>), SessionId> {
    Map::new(
        |k: (Seq<char>, Seq<char>)| exists|i: int| 0 <= i < s.len() && binding_key(s[i]) == k,
        |k: (Seq<char>, Seq<char>)|
            s[choose|i: int| 0 <= i < s.len() && binding_key(s[i]) == k].session_id,
    )
}

/// No two pull-request records belong to the same session.
pub open spec fn unique_pr_ids(s: Seq<PullRequestRef>) -> bool {
    forall|i: int, j: int|
        0 <= i < s.len() && 0 <= j < s.len() && #[trigger] s[i].session_id
            == #[trigger] s[j].session_id ==> i == j
}

/// The pull-request records as a map from owning session to record.
pub open spec fn pr_map(s: Seq<PullRequestRef>) -> Map<SessionId, PullRequestRef> {
    Map::new(
        |id: SessionId| exists|i: int| 0 <= i < s.len() && s[i].session_id == id,
        |id: SessionId| s[choose|i: int| 0 <= i < s.len() && s[i].session_id == id],
    )
}

proof fn lemma_session_at(s: Seq<Session>, i: int)
    requires
        unique_session_ids(s),
        0 <= i < s.len(),
    ensures
        session_map(s).contains_key(s[i].id),
        session_map(s)[s[i].id] == s[i],
{
    let id = s[i].id;
    assert(exists|j: int| 0 <= j < s.len() && s[j].id == id);
    let j = choose|j: int| 0 <= j < s.len() && s[j].id == id;
    assert(s[j].id == s[i].id);
}

proof fn lemma_binding_at(s: Seq<ThreadBinding>, i: int)
    requires
        unique_binding_keys(s),
        0 <= i < s.len(),
    ensures
        binding_map(s).contains_key(binding_key(s[i])),
        binding_map(s)[binding_key(s[i])] == s[i].session_id,
{
    let k = binding_key(s[i]);
    assert(exists|j: int| 0 <= j < s.len() && binding_key(s[j]) == k);
    let j = choose|j: int| 0 <= j < s.len() && binding_key(s[j]) == k;
    assert(binding_key(s[j]) == binding_key(s[i]));
}

proof fn lemma_pr_at(s: Seq<PullRequestRef>, i: int)
    requires
        unique_pr_ids(s),
        0 <= i < s.len(),
    ensures
        pr_map(s).contains_key(s[i].session_id),
        pr_map(s)[s[i].session_id] == s[i],
{
    let id = s[i].session_id;
    assert(exists|j: int| 0 <= j < s.len() && s[j].session_id == id);
    let j = choose|j: int| 0 <= j < s.len() && s[j].session_id == id;
    assert(s[j].session_id == s[i].session_id);
}

/// A sequence with unique identifiers whose records all stand in `m`
/// under their identifiers, and which covers every key of `m`, has `m` as
/// its map.
proof fn lemma_session_map_ext(s: Seq<Session>, m: Map<SessionId, Session>)
    requires
        unique_session_ids(s),
        forall|i: int| 0 <= i < s.len() ==> #[trigger] m.contains_key(s[i].id) && m[s[i].id] == s[i],
        forall|id: SessionId| #[trigger]
            m.contains_key(id) ==> exists|i: int| 0 <= i < s.len() && s[i].id == id,
    ensures
        session_map(s) == m,
{
    assert forall|id: SessionId| #[trigger] session_map(s).contains_key(id) implies m.contains_key(id)
        && session_map(s)[id] == m[id] by {
        let i = choose|i: int| 0 <= i < s.len() && s[i].id == id;
        lemma_session_at(s, i);
    }
    assert(session_map(s) =~= m);
}

proof fn lemma_binding_map_ext(s: Seq<ThreadBinding>, m: Map<(Seq<char>, Seq<char>), SessionId>)
    requires
        unique_binding_keys(s),
        forall|i: int|
            0 <= i < s.len() ==> #[trigger] m.contains_key(binding_key(s[i])) && m[binding_key(s[i])]
                == s[i].session_id,
        forall|k: (Seq<char>, Seq<char>)| #[trigger]
            m.contains_key(k) ==> exists|i: int| 0 <= i < s.len() && binding_key(s[i]) == k,
    ensures
        binding_map(s) == m,
{
    assert forall|k: (Seq<char>, Seq<char>)| #[trigger] binding_map(s).contains_key(k) implies m.contains_key(k)
        && binding_map(s)[k] == m[k] by {
        let i = choose|i: int| 0 <= i < s.len() && binding_key(s[i]) == k;
        lemma_binding_at(s, i);
        assert(m.contains_key(binding_key(s[i])));
    }
    assert(binding_map(s) =~= m);
}

proof fn lemma_pr_map_ext(s: Seq<PullRequestRef>, m: Map<SessionId, PullRequestRef>)
    requires
        unique_pr_ids(s),
        forall|i: int|
            0 <= i < s.len() ==> #[trigger] m.contains_key(s[i].session_id) && m[s[i].session_id]
                == s[i],
        forall|id: SessionId| #[trigger]
            m.contains_key(id) ==> exists|i: int| 0 <= i < s.len() && s[i].session_id == id,
    ensures
        pr_map(s) == m,
{
    assert forall|id: SessionId| #[trigger] pr_map(s).contains_key(id) implies m.contains_key(id)
        && pr_map(s)[id] == m[id] by {
        let i = choose|i: int| 0 <= i < s.len() && s[i].session_id == id;
        lemma_pr_at(s, i);
    }
    assert(pr_map(s) =~= m);
}

proof fn lemma_session_push(s: Seq<Session>, x: Session)
    requires
        unique_session_ids(s),
        !session_map(s).contains_key(x.id),
    ensures
        unique_session_ids(s.push(x)),
        session_map(s.push(x)) == session_map(s).insert(x.id, x),
{
    let n = s.push(x);
    assert forall|i: int| 0 <= i < s.len() implies s[i].id != x.id by {
        lemma_session_at(s, i);
    }
    assert(unique_session_ids(n));
    let m = session_map(s).insert(x.id, x);
    assert forall|i: int| 0 <= i < n.len() implies #[trigger] m.contains_key(n[i].id) && m[n[i].id]
        == n[i] by {
        if i < s.len() {
            lemma_session_at(s, i);
        }
    }
    assert forall|id: SessionId| #[trigger]
        m.contains_key(id) implies exists|i: int| 0 <= i < n.len() && n[i].id == id by {
        if id == x.id {
            assert(n[s.len() as int].id == id);
        } else {
            let j = choose|j: int| 0 <= j < s.len() && s[j].id == id;
            assert(n[j].id == id);
        }
    }
    lemma_session_map_ext(n, m);
}

proof fn lemma_session_update(s: Seq<Session>, i: int, x: Session)
    requires
        unique_session_ids(s),
        0 <= i < s.len(),
        x.id == s[i].id,
    ensures
        unique_session_ids(s.update(i, x)),
        session_map(s.update(i, x)) == session_map(s).insert(x.id, x),
{
    let n = s.update(i, x);
    assert(unique_session_ids(n)) by {
        assert forall|a: int, b: int|
            0 <= a < n.len() && 0 <= b < n.len() && #[trigger] n[a].id == #[trigger] n[b].id implies a
            == b by {
            assert(n[a].id == s[a].id && n[b].id == s[b].id);
        }
    }
    let m = session_map(s).insert(x.id, x);
    assert forall|j: int| 0 <= j < n.len() implies #[trigger] m.contains_key(n[j].id) && m[n[j].id]
        == n[j] by {
        lemma_session_at(s, j);
        if j != i {
            assert(s[j].id != s[i].id);
        }
    }
    assert forall|id: SessionId| #[trigger]
        m.contains_key(id) implies exists|j: int| 0 <= j < n.len() && n[j].id == id by {
        if id == x.id {
            assert(n[i].id == id);
        } else {
            let j = choose|j: int| 0 <= j < s.len() && s[j].id == id;
            assert(n[j].id == id);
        }
    }
    lemma_session_map_ext(n, m);
}

proof fn lemma_binding_put(s: Seq<ThreadBinding>, i: int, x: ThreadBinding)
    requires
        unique_binding_keys(s),
        0 <= i <= s.len(),
        i < s.len() ==> binding_key(s[i]) == binding_key(x),
        i == s.len() ==> !binding_map(s).contains_key(binding_key(x)),
    ensures
        ({
            let n = if i < s.len() { s.update(i, x) } else { s.push(x) };
            unique_binding_keys(n) && binding_map(n) == binding_map(s).insert(
                binding_key(x),
                x.session_id,
            )
        }),
{
    let n = if i < s.len() { s.update(i, x) } else { s.push(x) };
    let k = binding_key(x);
    assert forall|j: int| 0 <= j < s.len() && j != i implies binding_key(s[j]) != k by {
        lemma_binding_at(s, j);
    }
    assert(n.len() == s.len() || n.len() == s.len() + 1);
    assert forall|j: int| 0 <= j < n.len() implies #[trigger] n[j] == (if j == i { x } else { s[j] }) by {}
    assert(unique_binding_keys(n)) by {
        assert forall|a: int, b: int|
            0 <= a < n.len() && 0 <= b < n.len() && #[trigger] binding_key(n[a]) == #[trigger] binding_key(
                n[b],
            ) implies a == b by {
            assert(n[a] == (if a == i { x } else { s[a] }));
            assert(n[b] == (if b == i { x } else { s[b] }));
        }
    }
    let m = binding_map(s).insert(k, x.session_id);
    assert forall|j: int|
        0 <= j < n.len() implies #[trigger] m.contains_key(binding_key(n[j])) && m[binding_key(n[j])]
        == n[j].session_id by {
        assert(n[j] == (if j == i { x } else { s[j] }));
        if j != i {
            lemma_binding_at(s, j);
        }
    }
    assert forall|kk: (Seq<char>, Seq<char>)| #[trigger]
        m.contains_key(kk) implies exists|j: int| 0 <= j < n.len() && binding_key(n[j]) == kk by {
        if kk == k {
            assert(n[i] == x);
            assert(binding_key(n[i]) == kk);
        } else {
            let j = choose|j: int| 0 <= j < s.len() && binding_key(s[j]) == kk;
            assert(n[j] == s[j]);
            assert(binding_key(n[j]) == kk);
        }
    }
    lemma_binding_map_ext(n, m);
}

proof fn lemma_pr_put(s: Seq<PullRequestRef>, i: int, x: PullRequestRef)
    requires
        unique_pr_ids(s),
        0 <= i <= s.len(),
        i < s.len() ==> s[i].session_id == x.session_id,
        i == s.len() ==> !pr_map(s).contains_key(x.session_id),
    ensures
        ({
            let n = if i < s.len() { s.update(i, x) } else { s.push(x) };
            unique_pr_ids(n) && pr_map(n) == pr_map(s).insert(x.session_id, x)
        }),
{
    let n = if i < s.len() { s.update(i, x) } else { s.push(x) };
    let k = x.session_id;
    assert forall|j: int| 0 <= j < s.len() && j != i implies s[j].session_id != k by {
        lemma_pr_at(s, j);
    }
    assert(n.len() == s.len() || n.len() == s.len() + 1);
    assert forall|j: int| 0 <= j < n.len() implies #[trigger] n[j] == (if j == i { x } else { s[j] }) by {}
    assert(unique_pr_ids(n)) by {
        assert forall|a: int, b: int|
            0 <= a < n.len() && 0 <= b < n.len() && #[trigger] n[a].session_id
                == #[trigger] n[b].session_id implies a == b by {
            assert(n[a] == (if a == i { x } else { s[a] }));
            assert(n[b] == (if b == i { x } else { s[b] }));
        }
    }
    let m = pr_map(s).insert(k, x);
    assert forall|j: int|
        0 <= j < n.len() implies #[trigger] m.contains_key(n[j].session_id) && m[n[j].session_id]
        == n[j] by {
        assert(n[j] == (if j == i { x } else { s[j] }));
        if j != i {
            lemma_pr_at(s, j);
        }
    }
    assert forall|id: SessionId| #[trigger]
        m.contains_key(id) implies exists|j: int| 0 <= j < n.len() && n[j].session_id == id by {
        if id == k {
            assert(n[i] == x);
        } else {
            let j = choose|j: int| 0 <= j < s.len() && s[j].session_id == id;
            assert(n[j] == s[j]);
        }
    }
    lemma_pr_map_ext(n, m);
}

/// The session `s` with `agent` as its active agent, touched at `now`.
pub open spec fn with_agent(s: Session, agent: String, now: Timestamp) -> Session {
    Session {
        id: s.id,
        project_id: s.project_id,
        slack_channel: s.slack_channel,
        slack_thread_ts: s.slack_thread_ts,
        active_agent_id: agent,
        status: s.status,
        created_at: s.created_at,
        updated_at: later(s.updated_at, now),
    }
}

/// The session `s` with status `status`, touched at `now`.
pub open spec fn with_status(s: Session, status: SessionStatus, now: Timestamp) -> Session {
    Session {
        id: s.id,
        project_id: s.project_id,
        slack_channel: s.slack_channel,
        slack_thread_ts: s.slack_thread_ts,
        active_agent_id: s.active_agent_id,
        status: status,
        created_at: s.created_at,
        updated_at: later(s.updated_at, now),
    }
}

/// The session that a create with these arguments stores.
pub open spec fn new_session(
    id: SessionId,
    now: Timestamp,
    project_id: String,
    channel: String,
    thread_ts: String,
    agent_id: String,
) -> Session {
    Session {
        id: id,
        project_id: project_id,
        slack_channel: channel,
        slack_thread_ts: thread_ts,
        active_agent_id: agent_id,
        status: SessionStatus::Active,
        created_at: now,
        updated_at: now,
    }
}

/// What a successful create leaves behind: `s` carries a fresh identifier
/// and the given fields, is active with equal creation and update times, is
/// stored under its identifier, and its thread is bound to it.
pub open spec fn created(
    before: SessionManager,
    after: SessionManager,
    project_id: String,
    channel: String,
    thread_ts: String,
    agent_id: String,
    s: Session,
) -> bool {
    &&& !before.store().contains_key(s.id)
    &&& s == new_session(s.id, s.created_at, project_id, channel, thread_ts, agent_id)
    &&& after.store() == before.store().insert(s.id, s)
    &&& after.index() == before.index().insert((channel@, thread_ts@), s.id)
    &&& after.prs() == before.prs()
}

/// What a sweep at `now` with window `older_than_nanos` leaves behind: the
/// stale sessions, their index entries and their pull requests are gone, and
/// `count` is how many sessions went.
pub open spec fn swept(
    before: SessionManager,
    after: SessionManager,
    now: Timestamp,
    older_than_nanos: i64,
    count: usize,
) -> bool {
    let gone = stale_ids(before.store(), now.spec_nanos() - older_than_nanos);
    &&& after.store() == before.store().remove_keys(gone)
    &&& after.index() == unbind(before.index(), gone)
    &&& after.prs() == before.prs().remove_keys(gone)
    &&& gone.finite()
    &&& count == gone.len()
}

/// The registry of sessions: a primary store keyed by identifier, an index
/// from (channel, thread) to identifier, and a side table of pull requests
/// keyed by session identifier.
///
/// Every mutation takes `&mut self`, so callers that share a registry hold
/// it behind one lock and each operation, a sweep included, is seen whole.
pub struct SessionManager {
    sessions: Vec<Session>,
    thread_index: Vec<ThreadBinding>,
    pr_refs: Vec<PullRequestRef>,
}

impl SessionManager {
    /// The stored sessions, in the order they were created.
    pub closed spec fn records(&self) -> Seq<Session> {
        self.sessions@
    }

    /// The entries of the thread index.
    pub closed spec fn bindings(&self) -> Seq<ThreadBinding> {
        self.thread_index@
    }

    /// The entries of the pull-request side table.
    pub closed spec fn pr_records(&self) -> Seq<PullRequestRef> {
        self.pr_refs@
    }

    /// The primary store: identifier to session.
    pub open spec fn store(&self) -> Map<SessionId, Session> {
        session_map(self.records())
    }

    /// The thread index: (channel, thread) to session identifier.
    pub open spec fn index(&self) -> Map<(Seq<char>, Seq<char>), SessionId> {
        binding_map(self.bindings())
    }

    /// The pull-request side table: session identifier to pull request.
    pub open spec fn prs(&self) -> Map<SessionId, PullRequestRef> {
        pr_map(self.pr_records())
    }

    /// Keys are unique in each table, and every index entry names a stored
    /// session.
    pub open spec fn wf(&self) -> bool {
        &&& unique_session_ids(self.records())
        &&& unique_binding_keys(self.bindings())
        &&& unique_pr_ids(self.pr_records())
        &&& forall|k: (Seq<char>, Seq<char>)| #[trigger]
            self.index().contains_key(k) ==> self.store().contains_key(self.index()[k])
    }

    /// Every index entry still names a stored session when the index is
    /// unchanged and no session was removed.
    proof fn lemma_index_kept(&self, before: &SessionManager)
        requires
            before.wf(),
            self.bindings() == before.bindings(),
            forall|id: SessionId| #[trigger]
                before.store().contains_key(id) ==> self.store().contains_key(id),
        ensures
            forall|k: (Seq<char>, Seq<char>)| #[trigger]
                self.index().contains_key(k) ==> self.store().contains_key(self.index()[k]),
    {
        assert forall|k: (Seq<char>, Seq<char>)| #[trigger]
            self.index().contains_key(k) implies self.store().contains_key(self.index()[k]) by {
            assert(before.index().contains_key(k));
        }
    }

    /// An empty registry.
    pub fn new() -> (r: SessionManager)
        ensures
            r.wf(),
            r.store() == Map::<SessionId, Session>::empty(),
            r.index() == Map::<(Seq<char>, Seq<char>), SessionId>::empty(),
            r.prs() == Map::<SessionId, PullRequestRef>::empty(),
    {
        let r = SessionManager { sessions: Vec::new(), thread_index: Vec::new(), pr_refs: Vec::new() };
        assert(r.store() =~= Map::<SessionId, Session>::empty());
        assert(r.index() =~= Map::<(Seq<char>, Seq<char>), SessionId>::empty());
        assert(r.prs() =~= Map::<SessionId, PullRequestRef>::empty());
        r
    }

    /// Position of the session with identifier `id`, if any.
    fn find_session(&self, id: SessionId) -> (r: Option<usize>)
        requires
            self.wf(),
        ensures
            match r {
                Some(i) => i < self.records().len() && self.records()[i as int].id == id,
                None => !self.store().contains_key(id),
            },
    {
        let mut i: usize = 0;
        while i < self.sessions.len()
            invariant
                i <= self.sessions.len(),
                forall|j: int| 0 <= j < i ==> self.sessions@[j].id != id,
            decreases self.sessions.len() - i,
        {
            if self.sessions[i].id == id {
                return Some(i);
            }
            i = i + 1;
        }
        None
    }

    /// Position of the binding for (`channel`, `thread_ts`), if any.
    fn find_binding(&self, channel: &String, thread_ts: &String) -> (r: Option<usize>)
        requires
            self.wf(),
        ensures
            match r {
                Some(i) => i < self.bindings().len() && binding_key(self.bindings()[i as int]) == (
                channel@,
                thread_ts@,
                ),
                None => !self.index().contains_key((channel@, thread_ts@)),
            },
    {
        let mut i: usize = 0;
        while i < self.thread_index.len()
            invariant
                i <= self.thread_index.len(),
                forall|j: int|
                    0 <= j < i ==> binding_key(#[trigger] self.thread_index@[j]) != (
                    channel@,
                    thread_ts@,
                    ),
            decreases self.thread_index.len() - i,
        {
            let b = &self.thread_index[i];
            if b.channel == *channel && b.thread_ts == *thread_ts {
                return Some(i);
            }
            i = i + 1;
        }
        None
    }

    /// Position of the pull request of session `id`, if any.
    fn find_pr(&self, id: SessionId) -> (r: Option<usize>)
        requires
            self.wf(),
        ensures
            match r {
                Some(i) => i < self.pr_records().len() && self.pr_records()[i as int].session_id == id,
                None => !self.prs().contains_key(id),
            },
    {
        let mut i: usize = 0;
        while i < self.pr_refs.len()
            invariant
                i <= self.pr_refs.len(),
                forall|j: int| 0 <= j < i ==> self.pr_refs@[j].session_id != id,
            decreases self.pr_refs.len() - i,
        {
            if self.pr_refs[i].session_id == id {
                return Some(i);
            }
            i = i + 1;
        }
        None
    }
    /// Binds (`channel`, `thread_ts`) to `id`, replacing any earlier binding
    /// of that pair.
    fn bind_thread(&mut self, channel: String, thread_ts: String, id: SessionId)
        requires
            old(self).wf(),
            old(self).store().contains_key(id),
        ensures
            final(self).wf(),
            final(self).records() == old(self).records(),
            final(self).pr_records() == old(self).pr_records(),
            final(self).index() == old(self).index().insert((channel@, thread_ts@), id),
    {
        let ghost prev = self.thread_index@;
        let pos = self.find_binding(&channel, &thread_ts);
        let b = ThreadBinding { channel, thread_ts, session_id: id };
        match pos {
            Some(i) => {
                self.thread_index[i] = b;
                proof {
                    lemma_binding_put(prev, i as int, b);
                }
            },
            None => {
                self.thread_index.push(b);
                proof {
                    lemma_binding_put(prev, prev.len() as int, b);
                }
            },
        }
    }

    /// Stores a new active session with identifier `id`, created at `now`,
    /// and binds its thread to it. Fails, changing nothing, when `id` is
    /// already in use.
    pub fn create_session_at(
        &mut self,
        id: SessionId,
        now: Timestamp,
        project_id: String,
        channel: String,
        thread_ts: String,
        agent_id: String,
    ) -> (r: Result<Session, CockpitError>)
        requires
            old(self).wf(),
        ensures
            final(self).wf(),
            match r {
                Ok(s) => {
                    &&& s.id == id
                    &&& s.created_at == now
                    &&& created(*old(self), *final(self), project_id, channel, thread_ts, agent_id, s)
                },
                Err(e) => {
                    &&& old(self).store().contains_key(id)
                    &&& e == CockpitError::DuplicateSessionId(id)
                    &&& *final(self) == *old(self)
                },
            },
    {
        match self.find_session(id) {
            Some(i) => {
                proof {
                    lemma_session_at(self.sessions@, i as int);
                }
                return Err(CockpitError::DuplicateSessionId(id));
            },
            None => {},
        }
        let channel_key = channel.clone();
        let thread_key = thread_ts.clone();
        let s = Session {
            id,
            project_id,
            slack_channel: channel,
            slack_thread_ts: thread_ts,
            active_agent_id: agent_id,
            status: SessionStatus::Active,
            created_at: now,
            updated_at: now,
        };
        let out = s.clone();
        let ghost prev = self.sessions@;
        self.sessions.push(s);
        proof {
            lemma_session_push(prev, s);
            self.lemma_index_kept(old(self));
        }
        self.bind_thread(channel_key, thread_key, id);
        Ok(out)
    }

    /// Creates a session with a fresh random identifier, stamped with the
    /// current time. Fails, changing nothing, only if the drawn identifier
    /// is already in use.
    pub fn create_session(
        &mut self,
        project_id: String,
        channel: String,
        thread_ts: String,
        agent_id: String,
    ) -> (r: Result<Session, CockpitError>)
        requires
            old(self).wf(),
        ensures
            final(self).wf(),
            match r {
                Ok(s) => created(*old(self), *final(self), project_id, channel, thread_ts, agent_id, s),
                Err(e) => {
                    &&& e matches CockpitError::DuplicateSessionId(id) && old(self).store().contains_key(id)
                    &&& *final(self) == *old(self)
                },
            },
    {
        let id = SessionId { value: fresh_uuid() };
        let now = clock_now();
        self.create_session_at(id, now, project_id, channel, thread_ts, agent_id)
    }

    /// The session with identifier `id`.
    pub fn get_session(&self, id: SessionId) -> (r: Result<Session, CockpitError>)
        requires
            self.wf(),
        ensures
            match r {
                Ok(s) => self.store().contains_key(id) && s == self.store()[id],
                Err(e) => !self.store().contains_key(id) && e == CockpitError::SessionNotFound(id),
            },
    {
        match self.find_session(id) {
            Some(i) => {
                proof {
                    lemma_session_at(self.sessions@, i as int);
                }
                Ok(self.sessions[i].clone())
            },
            None => Err(CockpitError::SessionNotFound(id)),
        }
    }

    /// The session bound to (`channel`, `thread_ts`) in the thread index.
    pub fn get_by_thread(&self, channel: &str, thread_ts: &str) -> (r: Result<Session, CockpitError>)
        requires
            self.wf(),
        ensures
            match r {
                Ok(s) => {
                    &&& self.index().contains_key((channel@, thread_ts@))
                    &&& s == self.store()[self.index()[(channel@, thread_ts@)]]
                },
                Err(e) => {
                    &&& !self.index().contains_key((channel@, thread_ts@))
                    &&& e matches CockpitError::ThreadNotBound(c, t) && c@ == channel@ && t@ == thread_ts@
                },
            },
    {
        let c = channel.to_owned();
        let t = thread_ts.to_owned();
        match self.find_binding(&c, &t) {
            Some(i) => {
                let id = self.thread_index[i].session_id;
                proof {
                    lemma_binding_at(self.thread_index@, i as int);
                }
                self.get_session(id)
            },
            None => Err(CockpitError::ThreadNotBound(c, t)),
        }
    }

    /// Sets the active agent of session `id` and touches it at `now`; its
    /// update time never moves back.
    pub fn update_active_agent_at(&mut self, id: SessionId, agent_id: String, now: Timestamp) -> (r:
        Result<(), CockpitError>)
        requires
            old(self).wf(),
        ensures
            final(self).wf(),
            match r {
                Ok(()) => {
                    &&& old(self).store().contains_key(id)
                    &&& final(self).store() == old(self).store().insert(
                        id,
                        with_agent(old(self).store()[id], agent_id, now),
                    )
                    &&& final(self).index() == old(self).index()
                    &&& final(self).prs() == old(self).prs()
                },
                Err(e) => {
                    &&& !old(self).store().contains_key(id)
                    &&& e == CockpitError::SessionNotFound(id)
                    &&& *final(self) == *old(self)
                },
            },
    {
        match self.find_session(id) {
            Some(i) => {
                let ghost prev = self.sessions@;
                proof {
                    lemma_session_at(prev, i as int);
                }
                let cur = &self.sessions[i];
                let s = Session {
                    id: cur.id,
                    project_id: cur.project_id.clone(),
                    slack_channel: cur.slack_channel.clone(),
                    slack_thread_ts: cur.slack_thread_ts.clone(),
                    active_agent_id: agent_id,
                    status: cur.status,
                    created_at: cur.created_at,
                    updated_at: cur.updated_at.later_of(now),
                };
                self.sessions[i] = s;
                proof {
                    lemma_session_update(prev, i as int, s);
                    self.lemma_index_kept(old(self));
                }
                Ok(())
            },
            None => Err(CockpitError::SessionNotFound(id)),
        }
    }

    /// Sets the active agent of session `id`, touching it at the current
    /// time; its update time never moves back.
    pub fn update_active_agent(&mut self, id: SessionId, agent_id: String) -> (r: Result<(), CockpitError>)
        requires
            old(self).wf(),
        ensures
            final(self).wf(),
            match r {
                Ok(()) => {
                    &&& old(self).store().contains_key(id)
                    &&& exists|t: Timestamp|
                        final(self).store() == old(self).store().insert(
                            id,
                            #[trigger] with_agent(old(self).store()[id], agent_id, t),
                        )
                    &&& final(self).store()[id].updated_at.spec_nanos()
                        >= old(self).store()[id].updated_at.spec_nanos()
                    &&& final(self).index() == old(self).index()
                    &&& final(self).prs() == old(self).prs()
                },
                Err(e) => {
                    &&& !old(self).store().contains_key(id)
                    &&& e == CockpitError::SessionNotFound(id)
                    &&& *final(self) == *old(self)
                },
            },
    {
        let now = clock_now();
        let ghost agent = agent_id;
        let r = self.update_active_agent_at(id, agent_id, now);
        proof {
            if r is Ok {
                assert(final(self).store() == old(self).store().insert(
                    id,
                    with_agent(old(self).store()[id], agent, now),
                ));
            }
        }
        r
    }

    /// Sets the status of session `id` and touches it at `now`; its update
    /// time never moves back. Any status may follow any other.
    pub fn update_status_at(&mut self, id: SessionId, status: SessionStatus, now: Timestamp) -> (r:
        Result<(), CockpitError>)
        requires
            old(self).wf(),
        ensures
            final(self).wf(),
            match r {
                Ok(()) => {
                    &&& old(self).store().contains_key(id)
                    &&& final(self).store() == old(self).store().insert(
                        id,
                        with_status(old(self).store()[id], status, now),
                    )
                    &&& final(self).index() == old(self).index()
                    &&& final(self).prs() == old(self).prs()
                },
                Err(e) => {
                    &&& !old(self).store().contains_key(id)
                    &&& e == CockpitError::SessionNotFound(id)
                    &&& *final(self) == *old(self)
                },
            },
    {
        match self.find_session(id) {
            Some(i) => {
                let ghost prev = self.sessions@;
                proof {
                    lemma_session_at(prev, i as int);
                }
                let cur = &self.sessions[i];
                let s = Session {
                    id: cur.id,
                    project_id: cur.project_id.clone(),
                    slack_channel: cur.slack_channel.clone(),
                    slack_thread_ts: cur.slack_thread_ts.clone(),
                    active_agent_id: cur.active_agent_id.clone(),
                    status,
                    created_at: cur.created_at,
                    updated_at: cur.updated_at.later_of(now),
                };
                self.sessions[i] = s;
                proof {
                    lemma_session_update(prev, i as int, s);
                    self.lemma_index_kept(old(self));
                }
                Ok(())
            },
            None => Err(CockpitError::SessionNotFound(id)),
        }
    }

    /// Sets the status of session `id`, touching it at the current time;
    /// its update time never moves back.
    pub fn update_status(&mut self, id: SessionId, status: SessionStatus) -> (r: Result<(), CockpitError>)
        requires
            old(self).wf(),
        ensures
            final(self).wf(),
            match r {
                Ok(()) => {
                    &&& old(self).store().contains_key(id)
                    &&& exists|t: Timestamp|
                        final(self).store() == old(self).store().insert(
                            id,
                            #[trigger] with_status(old(self).store()[id], status, t),
                        )
                    &&& final(self).store()[id].updated_at.spec_nanos()
                        >= old(self).store()[id].updated_at.spec_nanos()
                    &&& final(self).index() == old(self).index()
                    &&& final(self).prs() == old(self).prs()
                },
                Err(e) => {
                    &&& !old(self).store().contains_key(id)
                    &&& e == CockpitError::SessionNotFound(id)
                    &&& *final(self) == *old(self)
                },
            },
    {
        let now = clock_now();
        let r = self.update_status_at(id, status, now);
        proof {
            if r is Ok {
                assert(final(self).store() == old(self).store().insert(
                    id,
                    with_status(old(self).store()[id], status, now),
                ));
            }
        }
        r
    }

    /// The active sessions, each once, in no promised order.
    pub fn list_active(&self) -> (r: Vec<Session>)
        requires
            self.wf(),
        ensures
            unique_session_ids(r@),
            forall|x: Session|
                r@.contains(x) <==> (self.store().contains_key(x.id) && self.store()[x.id] == x
                    && x.status == SessionStatus::Active),
    {
        let ghost s = self.sessions@;
        let mut r: Vec<Session> = Vec::new();
        let ghost mut pos: Seq<int> = Seq::empty();
        let mut i: usize = 0;
        while i < self.sessions.len()
            invariant
                s == self.sessions@,
                unique_session_ids(s),
                i <= s.len(),
                pos.len() == r@.len(),
                forall|a: int, b: int| 0 <= a < b < pos.len() ==> #[trigger] pos[a] < #[trigger] pos[b],
                forall|a: int|
                    0 <= a < r@.len() ==> 0 <= #[trigger] pos[a] < i && r@[a] == s[pos[a]]
                        && s[pos[a]].status == SessionStatus::Active,
                forall|j: int|
                    0 <= j < i && s[j].status == SessionStatus::Active ==> r@.contains(#[trigger] s[j]),
            decreases s.len() - i,
        {
            if self.sessions[i].status == SessionStatus::Active {
                let x = self.sessions[i].clone();
                let ghost before = r@;
                r.push(x);
                proof {
                    pos = pos.push(i as int);
                    assert forall|j: int|
                        0 <= j < i + 1 && s[j].status == SessionStatus::Active implies r@.contains(
                        #[trigger] s[j],
                    ) by {
                        if j < i {
                            let a = choose|a: int| 0 <= a < before.len() && before[a] == s[j];
                            assert(r@[a] == s[j]);
                        } else {
                            assert(r@[before.len() as int] == s[j]);
                        }
                    }
                }
            }
            i = i + 1;
        }
        proof {
            assert(unique_session_ids(r@)) by {
                assert forall|a: int, b: int|
                    0 <= a < r@.len() && 0 <= b < r@.len() && #[trigger] r@[a].id
                        == #[trigger] r@[b].id implies a == b by {
                    assert(s[pos[a]].id == s[pos[b]].id);
                    assert(pos[a] == pos[b]);
                }
            }
            assert forall|x: Session|
                r@.contains(x) <==> (self.store().contains_key(x.id) && self.store()[x.id] == x
                    && x.status == SessionStatus::Active) by {
                if r@.contains(x) {
                    let a = choose|a: int| 0 <= a < r@.len() && r@[a] == x;
                    lemma_session_at(s, pos[a]);
                }
                if self.store().contains_key(x.id) && self.store()[x.id] == x && x.status
                    == SessionStatus::Active {
                    let j = choose|j: int| 0 <= j < s.len() && s[j].id == x.id;
                    lemma_session_at(s, j);
                    assert(r@.contains(s[j]));
                }
            }
        }
        r
    }

    /// Removes the stale sessions from the primary store and returns their
    /// identifiers.
    fn sweep_sessions(&mut self, cutoff: i128) -> (removed: Vec<SessionId>)
        requires
            old(self).wf(),
        ensures
            unique_session_ids(final(self).records()),
            final(self).bindings() == old(self).bindings(),
            final(self).pr_records() == old(self).pr_records(),
            final(self).store() == old(self).store().remove_keys(
                stale_ids(old(self).store(), cutoff as int),
            ),
            removed@.no_duplicates(),
            removed@.to_set() == stale_ids(old(self).store(), cutoff as int),
    {
        let ghost s = self.sessions@;
        let ghost gone = stale_ids(old(self).store(), cutoff as int);
        let mut kept: Vec<Session> = Vec::new();
        let mut removed: Vec<SessionId> = Vec::new();
        let ghost mut kpos: Seq<int> = Seq::empty();
        let ghost mut rpos: Seq<int> = Seq::empty();
        let mut i: usize = 0;
        while i < self.sessions.len()
            invariant
                s == self.sessions@,
                unique_session_ids(s),
                i <= s.len(),
                kpos.len() == kept@.len(),
                rpos.len() == removed@.len(),
                forall|a: int, b: int| 0 <= a < b < kpos.len() ==> #[trigger] kpos[a] < #[trigger] kpos[b],
                forall|a: int, b: int| 0 <= a < b < rpos.len() ==> #[trigger] rpos[a] < #[trigger] rpos[b],
                forall|a: int|
                    0 <= a < kept@.len() ==> 0 <= #[trigger] kpos[a] < i && kept@[a] == s[kpos[a]]
                        && !is_stale(s[kpos[a]], cutoff as int),
                forall|a: int|
                    0 <= a < removed@.len() ==> 0 <= #[trigger] rpos[a] < i && removed@[a] == s[rpos[a]].id
                        && is_stale(s[rpos[a]], cutoff as int),
                forall|j: int|
                    0 <= j < i && !is_stale(s[j], cutoff as int) ==> kept@.contains(#[trigger] s[j]),
                forall|j: int|
                    0 <= j < i && is_stale(s[j], cutoff as int) ==> removed@.contains(#[trigger] s[j].id),
            decreases s.len() - i,
        {
            let cur = &self.sessions[i];
            if cur.status == SessionStatus::Ended && cur.updated_at.as_nanos() < cutoff {
                let ghost before = removed@;
                removed.push(cur.id);
                proof {
                    rpos = rpos.push(i as int);
                    assert forall|j: int|
                        0 <= j < i + 1 && is_stale(s[j], cutoff as int) implies removed@.contains(
                        #[trigger] s[j].id,
                    ) by {
                        if j < i {
                            let a = choose|a: int| 0 <= a < before.len() && before[a] == s[j].id;
                            assert(removed@[a] == s[j].id);
                        } else {
                            assert(removed@[before.len() as int] == s[j].id);
                        }
                    }
                }
            } else {
                let x = cur.clone();
                let ghost before = kept@;
                kept.push(x);
                proof {
                    kpos = kpos.push(i as int);
                    assert forall|j: int|
                        0 <= j < i + 1 && !is_stale(s[j], cutoff as int) implies kept@.contains(
                        #[trigger] s[j],
                    ) by {
                        if j < i {
                            let a = choose|a: int| 0 <= a < before.len() && before[a] == s[j];
                            assert(kept@[a] == s[j]);
                        } else {
                            assert(kept@[before.len() as int] == s[j]);
                        }
                    }
                }
            }
            i = i + 1;
        }
        proof {
            assert(unique_session_ids(kept@)) by {
                assert forall|a: int, b: int|
                    0 <= a < kept@.len() && 0 <= b < kept@.len() && #[trigger] kept@[a].id
                        == #[trigger] kept@[b].id implies a == b by {
                    assert(s[kpos[a]].id == s[kpos[b]].id);
                    assert(kpos[a] == kpos[b]);
                }
            }
            assert(removed@.no_duplicates()) by {
                assert forall|a: int, b: int|
                    0 <= a < removed@.len() && 0 <= b < removed@.len() && a != b implies removed@[a]
                        != removed@[b] by {
                    if removed@[a] == removed@[b] {
                        assert(s[rpos[a]].id == s[rpos[b]].id);
                        assert(rpos[a] == rpos[b]);
                    }
                }
            }
            let m = old(self).store().remove_keys(gone);
            assert forall|a: int|
                0 <= a < kept@.len() implies #[trigger] m.contains_key(kept@[a].id) && m[kept@[a].id]
                == kept@[a] by {
                lemma_session_at(s, kpos[a]);
            }
            assert forall|id: SessionId| #[trigger]
                m.contains_key(id) implies exists|a: int| 0 <= a < kept@.len() && kept@[a].id == id by {
                let j = choose|j: int| 0 <= j < s.len() && s[j].id == id;
                lemma_session_at(s, j);
                assert(kept@.contains(s[j]));
            }
            lemma_session_map_ext(kept@, m);
            assert forall|id: SessionId| removed@.to_set().contains(id) <==> gone.contains(id) by {
                if removed@.contains(id) {
                    let a = choose|a: int| 0 <= a < removed@.len() && removed@[a] == id;
                    lemma_session_at(s, rpos[a]);
                }
                if gone.contains(id) {
                    let j = choose|j: int| 0 <= j < s.len() && s[j].id == id;
                    lemma_session_at(s, j);
                    assert(removed@.contains(s[j].id));
                }
            }
            assert(removed@.to_set() =~= gone);
        }
        self.sessions = kept;
        removed
    }

    /// Removes from the thread index every entry that names a member of
    /// `ids`.
    fn unbind_ids(&mut self, ids: &Vec<SessionId>)
        requires
            unique_binding_keys(old(self).bindings()),
        ensures
            unique_binding_keys(final(self).bindings()),
            final(self).records() == old(self).records(),
            final(self).pr_records() == old(self).pr_records(),
            final(self).index() == unbind(old(self).index(), ids@.to_set()),
    {
        let ghost s = self.thread_index@;
        let ghost gone = ids@.to_set();
        let mut kept: Vec<ThreadBinding> = Vec::new();
        let ghost mut kpos: Seq<int> = Seq::empty();
        let mut i: usize = 0;
        while i < self.thread_index.len()
            invariant
                s == self.thread_index@,
                unique_binding_keys(s),
                i <= s.len(),
                kpos.len() == kept@.len(),
                forall|a: int, b: int| 0 <= a < b < kpos.len() ==> #[trigger] kpos[a] < #[trigger] kpos[b],
                forall|a: int|
                    0 <= a < kept@.len() ==> 0 <= #[trigger] kpos[a] < i && kept@[a] == s[kpos[a]]
                        && !ids@.contains(s[kpos[a]].session_id),
                forall|j: int|
                    0 <= j < i && !ids@.contains(s[j].session_id) ==> kept@.contains(#[trigger] s[j]),
            decreases s.len() - i,
        {
            if !ids_contain(ids, self.thread_index[i].session_id) {
                let x = self.thread_index[i].clone();
                let ghost before = kept@;
                kept.push(x);
                proof {
                    kpos = kpos.push(i as int);
                    assert forall|j: int|
                        0 <= j < i + 1 && !ids@.contains(s[j].session_id) implies kept@.contains(
                        #[trigger] s[j],
                    ) by {
                        if j < i {
                            let a = choose|a: int| 0 <= a < before.len() && before[a] == s[j];
                            assert(kept@[a] == s[j]);
                        } else {
                            assert(kept@[before.len() as int] == s[j]);
                        }
                    }
                }
            }
            i = i + 1;
        }
        proof {
            assert(unique_binding_keys(kept@)) by {
                assert forall|a: int, b: int|
                    0 <= a < kept@.len() && 0 <= b < kept@.len() && #[trigger] binding_key(kept@[a])
                        == #[trigger] binding_key(kept@[b]) implies a == b by {
                    assert(binding_key(s[kpos[a]]) == binding_key(s[kpos[b]]));
                    assert(kpos[a] == kpos[b]);
                }
            }
            let m = unbind(binding_map(s), gone);
            assert forall|a: int|
                0 <= a < kept@.len() implies #[trigger] m.contains_key(binding_key(kept@[a]))
                && m[binding_key(kept@[a])] == kept@[a].session_id by {
                lemma_binding_at(s, kpos[a]);
            }
            assert forall|k: (Seq<char>, Seq<char>)| #[trigger]
                m.contains_key(k) implies exists|a: int| 0 <= a < kept@.len() && binding_key(kept@[a]) == k by {
                let j = choose|j: int| 0 <= j < s.len() && binding_key(s[j]) == k;
                lemma_binding_at(s, j);
                assert(kept@.contains(s[j]));
                let a = choose|a: int| 0 <= a < kept@.len() && kept@[a] == s[j];
                assert(binding_key(kept@[a]) == k);
            }
            lemma_binding_map_ext(kept@, m);
        }
        self.thread_index = kept;
    }

    /// Removes the pull requests of the members of `ids`.
    fn drop_prs(&mut self, ids: &Vec<SessionId>)
        requires
            unique_pr_ids(old(self).pr_records()),
        ensures
            unique_pr_ids(final(self).pr_records()),
            final(self).records() == old(self).records(),
            final(self).bindings() == old(self).bindings(),
            final(self).prs() == old(self).prs().remove_keys(ids@.to_set()),
    {
        let ghost s = self.pr_refs@;
        let ghost gone = ids@.to_set();
        let mut kept: Vec<PullRequestRef> = Vec::new();
        let ghost mut kpos: Seq<int> = Seq::empty();
        let mut i: usize = 0;
        while i < self.pr_refs.len()
            invariant
                s == self.pr_refs@,
                unique_pr_ids(s),
                i <= s.len(),
                kpos.len() == kept@.len(),
                forall|a: int, b: int| 0 <= a < b < kpos.len() ==> #[trigger] kpos[a] < #[trigger] kpos[b],
                forall|a: int|
                    0 <= a < kept@.len() ==> 0 <= #[trigger] kpos[a] < i && kept@[a] == s[kpos[a]]
                        && !ids@.contains(s[kpos[a]].session_id),
                forall|j: int|
                    0 <= j < i && !ids@.contains(s[j].session_id) ==> kept@.contains(#[trigger] s[j]),
            decreases s.len() - i,
        {
            if !ids_contain(ids, self.pr_refs[i].session_id) {
                let x = self.pr_refs[i].clone();
                let ghost before = kept@;
                kept.push(x);
                proof {
                    kpos = kpos.push(i as int);
                    assert forall|j: int|
                        0 <= j < i + 1 && !ids@.contains(s[j].session_id) implies kept@.contains(
                        #[trigger] s[j],
                    ) by {
                        if j < i {
                            let a = choose|a: int| 0 <= a < before.len() && before[a] == s[j];
                            assert(kept@[a] == s[j]);
                        } else {
                            assert(kept@[before.len() as int] == s[j]);
                        }
                    }
                }
            }
            i = i + 1;
        }
        proof {
            assert(unique_pr_ids(kept@)) by {
                assert forall|a: int, b: int|
                    0 <= a < kept@.len() && 0 <= b < kept@.len() && #[trigger] kept@[a].session_id
                        == #[trigger] kept@[b].session_id implies a == b by {
                    assert(s[kpos[a]].session_id == s[kpos[b]].session_id);
                    assert(kpos[a] == kpos[b]);
                }
            }
            let m = pr_map(s).remove_keys(gone);
            assert forall|a: int|
                0 <= a < kept@.len() implies #[trigger] m.contains_key(kept@[a].session_id)
                && m[kept@[a].session_id] == kept@[a] by {
                lemma_pr_at(s, kpos[a]);
            }
            assert forall|id: SessionId| #[trigger]
                m.contains_key(id) implies exists|a: int| 0 <= a < kept@.len() && kept@[a].session_id == id by {
                let j = choose|j: int| 0 <= j < s.len() && s[j].session_id == id;
                lemma_pr_at(s, j);
                assert(kept@.contains(s[j]));
            }
            lemma_pr_map_ext(kept@, m);
        }
        self.pr_refs = kept;
    }

    /// Removes every ended session last updated strictly before
    /// `now - older_than_nanos`, together with its index entries and its pull
    /// request, and returns how many sessions were removed.
    pub fn cleanup_ended_at(&mut self, now: Timestamp, older_than_nanos: i64) -> (r: usize)
        requires
            old(self).wf(),
        ensures
            final(self).wf(),
            swept(*old(self), *final(self), now, older_than_nanos, r),
    {
        let cutoff: i128 = now.as_nanos() - older_than_nanos as i128;
        let ghost gone = stale_ids(old(self).store(), cutoff as int);
        let removed = self.sweep_sessions(cutoff);
        self.unbind_ids(&removed);
        self.drop_prs(&removed);
        proof {
            removed@.unique_seq_to_set();
            assert forall|k: (Seq<char>, Seq<char>)| #[trigger]
                self.index().contains_key(k) implies self.store().contains_key(self.index()[k]) by {
                assert(old(self).index().contains_key(k));
            }
        }
        removed.len()
    }

    /// Removes every ended session whose last update is older than
    /// `older_than_nanos` before the current time, with its index entries and
    /// its pull request, and returns how many sessions were removed.
    pub fn cleanup_ended(&mut self, older_than_nanos: i64) -> (r: usize)
        requires
            old(self).wf(),
        ensures
            final(self).wf(),
            exists|now: Timestamp| #[trigger] swept(*old(self), *final(self), now, older_than_nanos, r),
    {
        let now = clock_now();
        let r = self.cleanup_ended_at(now, older_than_nanos);
        proof {
            assert(swept(*old(self), *final(self), now, older_than_nanos, r));
        }
        r
    }

    /// Records `pr_ref` as the pull request of its session, replacing any
    /// earlier one. The session itself is not looked up.
    pub fn set_pr_ref(&mut self, pr_ref: PullRequestRef) -> (r: Result<(), CockpitError>)
        requires
            old(self).wf(),
        ensures
            final(self).wf(),
            r is Ok,
            final(self).prs() == old(self).prs().insert(pr_ref.session_id, pr_ref),
            final(self).store() == old(self).store(),
            final(self).index() == old(self).index(),
    {
        let ghost prev = self.pr_refs@;
        match self.find_pr(pr_ref.session_id) {
            Some(i) => {
                proof {
                    lemma_pr_put(prev, i as int, pr_ref);
                }
                self.pr_refs[i] = pr_ref;
            },
            None => {
                proof {
                    lemma_pr_put(prev, prev.len() as int, pr_ref);
                }
                self.pr_refs.push(pr_ref);
            },
        }
        proof {
            self.lemma_index_kept(old(self));
        }
        Ok(())
    }

    /// The pull request of session `session_id`.
    pub fn get_pr_ref(&self, session_id: SessionId) -> (r: Result<PullRequestRef, CockpitError>)
        requires
            self.wf(),
        ensures
            match r {
                Ok(p) => self.prs().contains_key(session_id) && p == self.prs()[session_id],
                Err(e) => !self.prs().contains_key(session_id) && e == CockpitError::SessionNotFound(
                    session_id,
                ),
            },
    {
        match self.find_pr(session_id) {
            Some(i) => {
                proof {
                    lemma_pr_at(self.pr_refs@, i as int);
                }
                Ok(self.pr_refs[i].clone())
            },
            None => Err(CockpitError::SessionNotFound(session_id)),
        }
    }
}

impl Default for SessionManager {
    fn default() -> (r: Self)
        ensures
            r.wf(),
            r.store() == Map::<SessionId, Session>::empty(),
            r.index() == Map::<(Seq<char>, Seq<char>), SessionId>::empty(),
            r.prs() == Map::<SessionId, PullRequestRef>::empty(),
    {
        SessionManager::new()
    }
}

/// Reading back a created session by its identifier gives the session as
/// created, with the given fields, and its update time is not before its
/// creation time.
pub proof fn lemma_get_after_create(
    before: SessionManager,
    after: SessionManager,
    project_id: String,
    channel: String,
    thread_ts: String,
    agent_id: String,
    s: Session,
)
    requires
        created(before, after, project_id, channel, thread_ts, agent_id, s),
    ensures
        after.store().contains_key(s.id),
        after.store()[s.id] == s,
        s.project_id == project_id,
        s.slack_channel == channel,
        s.slack_thread_ts == thread_ts,
        s.active_agent_id == agent_id,
        s.status == SessionStatus::Active,
        s.updated_at.spec_nanos() >= s.created_at.spec_nanos(),
{
}

/// After a create, the thread of the new session resolves to it.
pub proof fn lemma_thread_after_create(
    before: SessionManager,
    after: SessionManager,
    project_id: String,
    channel: String,
    thread_ts: String,
    agent_id: String,
    s: Session,
)
    requires
        created(before, after, project_id, channel, thread_ts, agent_id, s),
    ensures
        after.index().contains_key((channel@, thread_ts@)),
        after.index()[(channel@, thread_ts@)] == s.id,
{
}

/// A second session created for the same thread takes the thread over: the
/// thread then resolves to the second session only.
pub proof fn lemma_thread_last_create_wins(
    first: SessionManager,
    second: SessionManager,
    third: SessionManager,
    project_a: String,
    project_b: String,
    channel_a: String,
    channel_b: String,
    thread_a: String,
    thread_b: String,
    agent_a: String,
    agent_b: String,
    a: Session,
    b: Session,
)
    requires
        created(first, second, project_a, channel_a, thread_a, agent_a, a),
        created(second, third, project_b, channel_b, thread_b, agent_b, b),
        channel_a@ == channel_b@,
        thread_a@ == thread_b@,
    ensures
        third.index()[(channel_a@, thread_a@)] == b.id,
        a.id != b.id,
{
}

/// Two successive creates hand out distinct identifiers.
pub proof fn lemma_creates_distinct(
    first: SessionManager,
    second: SessionManager,
    third: SessionManager,
    project_a: String,
    project_b: String,
    channel_a: String,
    channel_b: String,
    thread_a: String,
    thread_b: String,
    agent_a: String,
    agent_b: String,
    a: Session,
    b: Session,
)
    requires
        created(first, second, project_a, channel_a, thread_a, agent_a, a),
        created(second, third, project_b, channel_b, thread_b, agent_b, b),
    ensures
        a.id != b.id,
{
}

/// A sweep leaves no index entry naming a removed session and no pull
/// request of a removed session, and the removed sessions are gone from
/// the primary store.
pub proof fn lemma_sweep_consistent(
    before: SessionManager,
    after: SessionManager,
    now: Timestamp,
    older_than_nanos: i64,
    count: usize,
)
    requires
        swept(before, after, now, older_than_nanos, count),
    ensures
        ({
            let gone = stale_ids(before.store(), now.spec_nanos() - older_than_nanos);
            &&& forall|k: (Seq<char>, Seq<char>)| #[trigger]
                after.index().contains_key(k) ==> !gone.contains(after.index()[k])
            &&& forall|id: SessionId| #[trigger]
                gone.contains(id) ==> !after.prs().contains_key(id) && !after.store().contains_key(
                    id,
                )
        }),
{
}

/// Create a session in an empty registry, end it, then sweep: the sweep
/// removes exactly that session when it was ended strictly before
/// `now - older_than_nanos`, and nothing otherwise. With a zero window and a
/// clock that has moved on, one session goes; with an hour's window right
/// after ending, none does.
pub proof fn lemma_sweep_after_end(
    empty: SessionManager,
    started: SessionManager,
    ended: SessionManager,
    cleaned: SessionManager,
    project_id: String,
    channel: String,
    thread_ts: String,
    agent_id: String,
    s: Session,
    end_time: Timestamp,
    now: Timestamp,
    older_than_nanos: i64,
    count: usize,
)
    requires
        empty.store() == Map::<SessionId, Session>::empty(),
        created(empty, started, project_id, channel, thread_ts, agent_id, s),
        ended.store() == started.store().insert(
            s.id,
            with_status(started.store()[s.id], SessionStatus::Ended, end_time),
        ),
        swept(ended, cleaned, now, older_than_nanos, count),
    ensures
        count == (if later(s.updated_at, end_time).spec_nanos() < now.spec_nanos()
            - older_than_nanos {
            1int
        } else {
            0int
        }),
{
    let cutoff = now.spec_nanos() - older_than_nanos;
    let e = with_status(s, SessionStatus::Ended, end_time);
    assert(started.store()[s.id] == s);
    assert(ended.store() =~= Map::<SessionId, Session>::empty().insert(s.id, e));
    let gone = stale_ids(ended.store(), cutoff);
    if later(s.updated_at, end_time).spec_nanos() < cutoff {
        assert(gone =~= Set::<SessionId>::empty().insert(s.id));
    } else {
        assert(gone =~= Set::<SessionId>::empty());
    }
}

/// Relies on uuid::Uuid::new_v4, read back with `as_u128`: a random
/// identifier. Nothing is promised of its value.
#[verifier::external_body]
fn fresh_uuid() -> (r: u128) {
    uuid::Uuid::new_v4().as_u128()
}

} // verus!
