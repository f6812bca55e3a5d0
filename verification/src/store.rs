//! The conversation store: durable sessions and ordered messages, with an
//! atomic two-message append.
//!
//! Identifiers and timestamps come from one strictly increasing stamp source,
//! so within the store a larger id always means "created later", and the
//! messages of a session listed in vector order are in creation order.
//! The store is pure data access: ownership rules live in the orchestrator.
//!
//! Mutating operations fail only when the stamp source is exhausted or a
//! referenced row is absent; on failure the store is left exactly as it was,
//! which is the transactional guarantee the orchestrator relies on.

use vstd::prelude::*;

use crate::error::AppError;
use crate::model::{ChatRole, Message, Session};

verus! {

/// Session ids strictly increase in vector order (so they are unique and
/// time-ordered), and every id and timestamp lies below the stamp `clock`.
pub open spec fn sessions_ok(ss: Seq<Session>, clock: u64) -> bool {
    &&& (forall|i: int, j: int|
        0 <= i < j < ss.len() ==> #[trigger] ss[i].id < #[trigger] ss[j].id)
    &&& (forall|i: int|
        0 <= i < ss.len() ==> (#[trigger] ss[i].id < clock && ss[i].created_at
            <= ss[i].updated_at && ss[i].updated_at < clock && ss[i].created_at <= ss[i].id))
}

/// Message ids strictly increase and creation times never decrease in vector
/// order, and every id and timestamp lies below the stamp `clock`.
pub open spec fn messages_ok(ms: Seq<Message>, clock: u64) -> bool {
    &&& (forall|i: int, j: int|
        0 <= i < j < ms.len() ==> (#[trigger] ms[i].id < #[trigger] ms[j].id
            && ms[i].created_at <= ms[j].created_at))
    &&& (forall|i: int|
        0 <= i < ms.len() ==> (#[trigger] ms[i].id < clock && ms[i].created_at <= ms[i].id
            && ms[i].updated_at == ms[i].created_at))
}

/// A session after its title was set: same identity, new title, a fresh
/// update stamp.
pub open spec fn retitled(s: Session, title: String, stamp: u64) -> Session {
    Session {
        id: s.id,
        user_id: s.user_id,
        title: Some(title),
        created_at: s.created_at,
        updated_at: stamp,
    }
}

/// The session list after the session carrying `id` had its title set.
pub open spec fn with_title(ss: Seq<Session>, id: u64, title: String, stamp: u64) -> Seq<Session> {
    Seq::new(
        ss.len(),
        |i: int|
            if ss[i].id == id {
                retitled(ss[i], title, stamp)
            } else {
                ss[i]
            },
    )
}

/// Whether some session in `ss` carries the id.
pub open spec fn has_session(ss: Seq<Session>, id: u64) -> bool {
    exists|k: int| 0 <= k < ss.len() && #[trigger] ss[k].id == id
}

/// The first session in `ss` carrying the id, if any. In a well-formed store
/// ids are unique, so this is the session with that id.
pub open spec fn find_session(ss: Seq<Session>, id: u64) -> Option<Session>
    decreases ss.len(),
{
    if ss.len() == 0 {
        None
    } else if ss[0].id == id {
        Some(ss[0])
    } else {
        find_session(ss.drop_first(), id)
    }
}

/// `find_session` succeeds exactly when some session carries the id, and what
/// it returns carries the id and is one of the sessions.
pub proof fn lemma_find_session(ss: Seq<Session>, id: u64)
    ensures
        (find_session(ss, id) is Some) <==> has_session(ss, id),
        find_session(ss, id) matches Some(s) ==> s.id == id && ss.contains(s),
    decreases ss.len(),
{
    if ss.len() > 0 {
        if ss[0].id == id {
            assert(has_session(ss, id));
        } else {
            lemma_find_session(ss.drop_first(), id);
            if has_session(ss, id) {
                let k = choose|k: int| 0 <= k < ss.len() && ss[k].id == id;
                assert(ss.drop_first()[k - 1] == ss[k]);
                assert(has_session(ss.drop_first(), id));
            }
            if has_session(ss.drop_first(), id) {
                let k = choose|k: int| 0 <= k < ss.drop_first().len() && ss.drop_first()[k].id
                    == id;
                assert(ss[k + 1] == ss.drop_first()[k]);
                assert(has_session(ss, id));
            }
            match find_session(ss, id) {
                Some(s) => {
                    assert(ss.drop_first().contains(s));
                    let k = choose|k: int|
                        0 <= k < ss.drop_first().len() && ss.drop_first()[k] == s;
                    assert(ss[k + 1] == s);
                },
                None => {},
            }
        }
    }
}

/// If the first match for an id sits at index `k`, `find_session` returns it.
pub proof fn lemma_find_session_at(ss: Seq<Session>, id: u64, k: int)
    requires
        0 <= k < ss.len(),
        ss[k].id == id,
        forall|a: int| 0 <= a < k ==> #[trigger] ss[a].id != id,
    ensures
        find_session(ss, id) == Some(ss[k]),
    decreases k,
{
    if k > 0 {
        assert(forall|a: int|
            0 <= a < k - 1 ==> #[trigger] ss.drop_first()[a].id == ss[a + 1].id);
        lemma_find_session_at(ss.drop_first(), id, k - 1);
    }
}

/// The sessions owned by one user.
pub open spec fn owned_by(user_id: u64) -> spec_fn(Session) -> bool {
    |s: Session| s.user_id == user_id
}

/// The messages belonging to one session.
pub open spec fn in_session(session_id: u64) -> spec_fn(Message) -> bool {
    |m: Message| m.session_id == session_id
}

/// The sessions that do not carry the id (what a delete leaves behind).
pub open spec fn other_sessions(id: u64) -> spec_fn(Session) -> bool {
    |s: Session| s.id != id
}

/// The messages outside one session (what a cascading delete leaves behind).
pub open spec fn outside_session(session_id: u64) -> spec_fn(Message) -> bool {
    |m: Message| m.session_id != session_id
}

/// Extending a prefix by one element extends its filtered image by that
/// element exactly when the element satisfies the predicate.
pub proof fn lemma_filter_step<A>(s: Seq<A>, pred: spec_fn(A) -> bool, i: int)
    requires
        0 <= i < s.len(),
    ensures
        pred(s[i]) ==> s.subrange(0, i + 1).filter(pred) == s.subrange(0, i).filter(pred).push(
            s[i],
        ),
        !pred(s[i]) ==> s.subrange(0, i + 1).filter(pred) == s.subrange(0, i).filter(pred),
{
    reveal(Seq::filter);
    let a = s.subrange(0, i + 1);
    let b = s.subrange(0, i);
    assert(a.drop_last() =~= b);
    assert(a.last() == s[i]);
}

/// Filtering keeps sessions well-formed (order and bounds survive), and
/// every kept session is one of the originals.
pub proof fn lemma_filter_sessions_ok(ss: Seq<Session>, pred: spec_fn(Session) -> bool, clock: u64)
    requires
        sessions_ok(ss, clock),
    ensures
        sessions_ok(ss.filter(pred), clock),
        forall|i: int|
            0 <= i < ss.filter(pred).len() ==> ss.contains(#[trigger] ss.filter(pred)[i]),
    decreases ss.len(),
{
    reveal(Seq::filter);
    if ss.len() > 0 {
        let prefix = ss.drop_last();
        assert(sessions_ok(prefix, clock)) by {
            assert forall|i: int, j: int|
                0 <= i < j < prefix.len() implies #[trigger] prefix[i].id
                < #[trigger] prefix[j].id by {
                assert(prefix[i] == ss[i] && prefix[j] == ss[j]);
            };
            assert forall|i: int|
                0 <= i < prefix.len() implies (#[trigger] prefix[i].id < clock
                && prefix[i].created_at <= prefix[i].updated_at && prefix[i].updated_at < clock
                && prefix[i].created_at <= prefix[i].id) by {
                assert(prefix[i] == ss[i]);
            };
        }
        lemma_filter_sessions_ok(prefix, pred, clock);
        let sub = prefix.filter(pred);
        assert forall|i: int| 0 <= i < sub.len() implies ss.contains(#[trigger] sub[i]) by {
            assert(prefix.contains(sub[i]));
            let k = choose|k: int| 0 <= k < prefix.len() && prefix[k] == sub[i];
            assert(ss[k] == sub[i]);
        };
        if pred(ss.last()) {
            let out = sub.push(ss.last());
            assert(ss.filter(pred) == out);
            assert forall|i: int, j: int|
                0 <= i < j < out.len() implies #[trigger] out[i].id < #[trigger] out[j].id by {
                if j == sub.len() as int {
                    assert(ss.contains(out[i]));
                    let k = choose|k: int| 0 <= k < ss.len() && ss[k] == out[i];
                    if k < ss.len() - 1 {
                        assert(ss[k].id < ss[ss.len() - 1].id);
                    } else {
                        assert(prefix.contains(out[i]));
                        let p = choose|p: int| 0 <= p < prefix.len() && prefix[p] == out[i];
                        assert(ss[p] == out[i]);
                        assert(ss[p].id < ss[ss.len() - 1].id);
                    }
                }
            };
            assert forall|i: int| 0 <= i < out.len() implies ss.contains(#[trigger] out[i]) by {
                if i < sub.len() {
                    assert(ss.contains(sub[i]));
                }
            };
        }
    }
}

/// Filtering keeps messages well-formed, and every kept message is one of
/// the originals.
pub proof fn lemma_filter_messages_ok(ms: Seq<Message>, pred: spec_fn(Message) -> bool, clock: u64)
    requires
        messages_ok(ms, clock),
    ensures
        messages_ok(ms.filter(pred), clock),
        forall|i: int|
            0 <= i < ms.filter(pred).len() ==> ms.contains(#[trigger] ms.filter(pred)[i]),
    decreases ms.len(),
{
    reveal(Seq::filter);
    if ms.len() > 0 {
        let prefix = ms.drop_last();
        assert(messages_ok(prefix, clock)) by {
            assert forall|i: int, j: int|
                0 <= i < j < prefix.len() implies (#[trigger] prefix[i].id
                < #[trigger] prefix[j].id && prefix[i].created_at <= prefix[j].created_at) by {
                assert(prefix[i] == ms[i] && prefix[j] == ms[j]);
                assert(ms[i].id < ms[j].id && ms[i].created_at <= ms[j].created_at);
            };
            assert forall|i: int|
                0 <= i < prefix.len() implies (#[trigger] prefix[i].id < clock
                && prefix[i].created_at <= prefix[i].id && prefix[i].updated_at
                == prefix[i].created_at) by {
                assert(prefix[i] == ms[i]);
            };
        }
        lemma_filter_messages_ok(prefix, pred, clock);
        let sub = prefix.filter(pred);
        assert forall|i: int| 0 <= i < sub.len() implies ms.contains(#[trigger] sub[i]) by {
            assert(prefix.contains(sub[i]));
            let k = choose|k: int| 0 <= k < prefix.len() && prefix[k] == sub[i];
            assert(ms[k] == sub[i]);
        };
        if pred(ms.last()) {
            let out = sub.push(ms.last());
            assert(ms.filter(pred) == out);
            assert forall|i: int, j: int|
                0 <= i < j < out.len() implies (#[trigger] out[i].id < #[trigger] out[j].id
                && out[i].created_at <= out[j].created_at) by {
                if j == sub.len() as int {
                    assert(prefix.contains(out[i]));
                    let p = choose|p: int| 0 <= p < prefix.len() && prefix[p] == out[i];
                    assert(ms[p] == out[i]);
                    assert(ms[p].id < ms[ms.len() - 1].id);
                    assert(ms[p].created_at <= ms[ms.len() - 1].created_at);
                }
            };
            assert forall|i: int| 0 <= i < out.len() implies ms.contains(#[trigger] out[i]) by {
                if i < sub.len() {
                    assert(ms.contains(sub[i]));
                }
            };
        }
    }
}

/// With unique ids, deleting by id removes exactly one session when the id
/// is present and none otherwise.
pub proof fn lemma_delete_count(ss: Seq<Session>, id: u64)
    requires
        forall|i: int, j: int| 0 <= i < j < ss.len() ==> #[trigger] ss[i].id != #[trigger] ss[j].id,
    ensures
        ss.filter(other_sessions(id)).len() == if has_session(ss, id) {
            ss.len() - 1
        } else {
            ss.len() as int
        },
    decreases ss.len(),
{
    reveal(Seq::filter);
    if ss.len() > 0 {
        let prefix = ss.drop_last();
        assert forall|i: int, j: int|
            0 <= i < j < prefix.len() implies #[trigger] prefix[i].id
            != #[trigger] prefix[j].id by {
            assert(prefix[i] == ss[i] && prefix[j] == ss[j]);
        };
        lemma_delete_count(prefix, id);
        if ss.last().id == id {
            assert(has_session(ss, id));
            if has_session(prefix, id) {
                let k = choose|k: int| 0 <= k < prefix.len() && #[trigger] prefix[k].id == id;
                assert(ss[k].id != ss[ss.len() - 1].id);
                assert(false);
            }
        } else {
            if has_session(prefix, id) {
                let k = choose|k: int| 0 <= k < prefix.len() && #[trigger] prefix[k].id == id;
                assert(ss[k].id == id);
            }
            if has_session(ss, id) {
                let k = choose|k: int| 0 <= k < ss.len() && #[trigger] ss[k].id == id;
                assert(k < prefix.len());
                assert(prefix[k].id == id);
                assert(has_session(prefix, id));
            }
        }
    }
}

/// What one call of [`Store::append_pair`] does: on success the store gains
/// exactly the user message and the assistant message of the turn, in this
/// order and with fresh increasing stamps; on failure it is left exactly as
/// it was. No outcome adds only one of the two rows.
pub open spec fn append_pair_post(
    pre: Store,
    post: Store,
    session_id: u64,
    user_content: String,
    assistant_content: String,
    r: Result<Message, AppError>,
) -> bool {
    &&& (r is Ok <==> (has_session(pre.sessions_seq(), session_id) && pre.stamp() < u64::MAX - 1))
    &&& (r matches Ok(am) ==> ({
        let st = pre.stamp();
        let um = Message {
            id: st,
            session_id: session_id,
            role: ChatRole::User,
            content: user_content,
            created_at: st,
            updated_at: st,
        };
        &&& am == (Message {
            id: (st + 1) as u64,
            session_id: session_id,
            role: ChatRole::Assistant,
            content: assistant_content,
            created_at: (st + 1) as u64,
            updated_at: (st + 1) as u64,
        })
        &&& post.messages_seq() == pre.messages_seq().push(um).push(am)
        &&& post.sessions_seq() == pre.sessions_seq()
        &&& post.stamp() == st + 2
    }))
    &&& (r is Err ==> post == pre)
    &&& (r matches Err(e) ==> e is Internal)
}

/// Atomicity of the two-message append: whatever the outcome, a session's
/// message list either grows by the full turn, the user message directly
/// followed by the assistant message, or stays exactly as it was. No fault
/// leaves a lone user message behind.
pub proof fn lemma_append_pair_atomic(
    pre: Store,
    post: Store,
    session_id: u64,
    user_content: String,
    assistant_content: String,
    r: Result<Message, AppError>,
)
    requires
        append_pair_post(pre, post, session_id, user_content, assistant_content, r),
    ensures
        r is Ok ==> post.session_messages(session_id).len() == pre.session_messages(
            session_id,
        ).len() + 2,
        r is Ok ==> post.session_messages(session_id) == pre.session_messages(session_id).push(
            post.session_messages(session_id)[post.session_messages(session_id).len() - 2],
        ).push(post.session_messages(session_id)[post.session_messages(session_id).len() - 1]),
        r is Err ==> post.session_messages(session_id) == pre.session_messages(session_id),
{
    reveal(Seq::filter);
    if r is Ok {
        let st = pre.stamp();
        let um = Message {
            id: st,
            session_id: session_id,
            role: ChatRole::User,
            content: user_content,
            created_at: st,
            updated_at: st,
        };
        let am = Message {
            id: (st + 1) as u64,
            session_id: session_id,
            role: ChatRole::Assistant,
            content: assistant_content,
            created_at: (st + 1) as u64,
            updated_at: (st + 1) as u64,
        };
        let one = pre.messages_seq().push(um);
        let two = one.push(am);
        assert(one.drop_last() =~= pre.messages_seq());
        assert(two.drop_last() =~= one);
        let pred = in_session(session_id);
        assert(one.filter(pred) == pre.messages_seq().filter(pred).push(um));
        assert(two.filter(pred) == one.filter(pred).push(am));
        assert(post.session_messages(session_id) == pre.session_messages(session_id).push(
            um,
        ).push(am));
    }
}

/// The conversation store.
pub struct Store {
    sessions: Vec<Session>,
    messages: Vec<Message>,
    clock: u64,
}

impl Store {
    /// The sessions, in creation order.
    pub closed spec fn sessions_seq(&self) -> Seq<Session> {
        self.sessions@
    }

    /// The messages of all sessions, in creation order.
    pub closed spec fn messages_seq(&self) -> Seq<Message> {
        self.messages@
    }

    /// The next stamp the store will assign.
    pub closed spec fn stamp(&self) -> u64 {
        self.clock
    }

    /// Well-formedness: rows are time-ordered and bounded by the stamp, and
    /// every message references an existing session.
    pub open spec fn wf(&self) -> bool {
        &&& sessions_ok(self.sessions_seq(), self.stamp())
        &&& messages_ok(self.messages_seq(), self.stamp())
        &&& (forall|i: int|
            0 <= i < self.messages_seq().len() ==> has_session(
                self.sessions_seq(),
                #[trigger] self.messages_seq()[i].session_id,
            ))
    }

    /// The messages of one session, in creation order.
    pub open spec fn session_messages(&self, session_id: u64) -> Seq<Message> {
        self.messages_seq().filter(in_session(session_id))
    }

    /// An empty store.
    pub fn new() -> (s: Store)
        ensures
            s.wf(),
            s.sessions_seq() == Seq::<Session>::empty(),
            s.messages_seq() == Seq::<Message>::empty(),
            s.stamp() == 0,
    {
        Store { sessions: Vec::new(), messages: Vec::new(), clock: 0 }
    }

    /// Creates a session owned by `user_id`, with no title and a fresh
    /// time-ordered id. Fails only when the stamp source is exhausted, and
    /// then changes nothing.
    pub fn create_session(&mut self, user_id: u64) -> (r: Result<Session, AppError>)
        requires
            old(self).wf(),
        ensures
            final(self).wf(),
            r is Ok <==> old(self).stamp() < u64::MAX,
            r matches Ok(s) ==> ({
                &&& s == (Session {
                    id: old(self).stamp(),
                    user_id: user_id,
                    title: None::<String>,
                    created_at: old(self).stamp(),
                    updated_at: old(self).stamp(),
                })
                &&& final(self).sessions_seq() == old(self).sessions_seq().push(s)
                &&& final(self).messages_seq() == old(self).messages_seq()
                &&& final(self).stamp() == old(self).stamp() + 1
            }),
            r is Err ==> *final(self) == *old(self),
            r matches Err(e) ==> e is Internal,
    {
        if self.clock == u64::MAX {
            return Err(AppError::Internal(String::from_str("identifier source exhausted")));
        }
        let stamp = self.clock;
        let s = Session {
            id: stamp,
            user_id,
            title: None,
            created_at: stamp,
            updated_at: stamp,
        };
        self.sessions.push(s.clone());
        self.clock = stamp + 1;
        proof {
            let oss = old(self).sessions_seq();
            let nss = self.sessions_seq();
            assert(nss =~= oss.push(s));
            assert forall|i: int, j: int| 0 <= i < j < nss.len() implies #[trigger] nss[i].id
                < #[trigger] nss[j].id by {
                if j == oss.len() as int {
                    assert(nss[i] == oss[i]);
                    assert(oss[i].id < old(self).stamp());
                } else {
                    assert(nss[i] == oss[i] && nss[j] == oss[j]);
                }
            };
            assert forall|i: int| 0 <= i < nss.len() implies (#[trigger] nss[i].id < self.clock
                && nss[i].created_at <= nss[i].updated_at && nss[i].updated_at < self.clock
                && nss[i].created_at <= nss[i].id) by {
                if i < oss.len() {
                    assert(nss[i] == oss[i]);
                    assert(oss[i].id < old(self).stamp() && oss[i].created_at <= oss[i].updated_at
                        && oss[i].updated_at < old(self).stamp() && oss[i].created_at <= oss[i].id);
                } else {
                    assert(nss[i] == s);
                }
            };
            assert forall|i: int| 0 <= i < self.messages_seq().len() implies (
            #[trigger] self.messages_seq()[i].id < self.clock && self.messages_seq()[i].created_at
                <= self.messages_seq()[i].id && self.messages_seq()[i].updated_at
                == self.messages_seq()[i].created_at) by {
                let om = old(self).messages_seq()[i];
                assert(om.id < old(self).stamp() && om.created_at <= om.id && om.updated_at
                    == om.created_at);
            };
            assert forall|i: int|
                0 <= i < self.messages_seq().len() implies has_session(
                nss,
                #[trigger] self.messages_seq()[i].session_id,
            ) by {
                let mid = self.messages_seq()[i].session_id;
                let k = choose|k: int| 0 <= k < oss.len() && #[trigger] oss[k].id == mid;
                assert(nss[k].id == mid);
            };
        }
        Ok(s)
    }

    /// Looks a session up by id.
    pub fn get_session(&self, id: u64) -> (r: Option<Session>)
        ensures
            r == find_session(self.sessions_seq(), id),
    {
        let n = self.sessions.len();
        let mut k: usize = 0;
        while k < n
            invariant
                n == self.sessions_seq().len(),
                0 <= k <= n,
                forall|a: int| 0 <= a < k ==> #[trigger] self.sessions_seq()[a].id != id,
            decreases n - k,
        {
            if self.sessions[k].id == id {
                proof {
                    lemma_find_session_at(self.sessions_seq(), id, k as int);
                }
                return Some(self.sessions[k].clone());
            }
            k += 1;
        }
        proof {
            lemma_find_session(self.sessions_seq(), id);
        }
        None
    }

    /// Lists the sessions a user owns, in creation order.
    pub fn list_sessions(&self, user_id: u64) -> (r: Vec<Session>)
        ensures
            r@ == self.sessions_seq().filter(owned_by(user_id)),
    {
        let mut out: Vec<Session> = Vec::new();
        let n = self.sessions.len();
        let mut k: usize = 0;
        while k < n
            invariant
                n == self.sessions_seq().len(),
                k <= n,
                out@ == self.sessions_seq().subrange(0, k as int).filter(owned_by(user_id)),
            decreases n - k,
        {
            proof {
                lemma_filter_step(self.sessions_seq(), owned_by(user_id), k as int);
            }
            let s = &self.sessions[k];
            if s.user_id == user_id {
                out.push(s.clone());
            }
            k += 1;
        }
        proof {
            assert(self.sessions_seq().subrange(0, n as int) =~= self.sessions_seq());
        }
        out
    }

    /// Lists the messages of one session, in creation order. Ordering is
    /// load-bearing: this is the history fed back to the model.
    pub fn list_messages(&self, session_id: u64) -> (r: Vec<Message>)
        ensures
            r@ == self.session_messages(session_id),
    {
        let mut out: Vec<Message> = Vec::new();
        let n = self.messages.len();
        let mut k: usize = 0;
        while k < n
            invariant
                n == self.messages_seq().len(),
                k <= n,
                out@ == self.messages_seq().subrange(0, k as int).filter(in_session(session_id)),
            decreases n - k,
        {
            proof {
                lemma_filter_step(self.messages_seq(), in_session(session_id), k as int);
            }
            let m = &self.messages[k];
            if m.session_id == session_id {
                out.push(m.clone());
            }
            k += 1;
        }
        proof {
            assert(self.messages_seq().subrange(0, n as int) =~= self.messages_seq());
        }
        out
    }

    /// Appends a user message and the assistant reply as one atomic unit:
    /// either both rows are added, in this order and with fresh increasing
    /// stamps, or the store is left exactly as it was. Returns the assistant
    /// message. Fails only when the session is absent or the stamp source is
    /// exhausted.
    pub fn append_pair(
        &mut self,
        session_id: u64,
        user_content: String,
        assistant_content: String,
    ) -> (r: Result<Message, AppError>)
        requires
            old(self).wf(),
        ensures
            final(self).wf(),
            append_pair_post(
                *old(self),
                *final(self),
                session_id,
                user_content,
                assistant_content,
                r,
            ),
    {
        proof {
            lemma_find_session(self.sessions_seq(), session_id);
        }
        if self.get_session(session_id).is_none() {
            return Err(AppError::Internal(String::from_str("session row is absent")));
        }
        if self.clock >= u64::MAX - 1 {
            return Err(AppError::Internal(String::from_str("identifier source exhausted")));
        }
        let st = self.clock;
        let um = Message {
            id: st,
            session_id,
            role: ChatRole::User,
            content: user_content,
            created_at: st,
            updated_at: st,
        };
        let am = Message {
            id: st + 1,
            session_id,
            role: ChatRole::Assistant,
            content: assistant_content,
            created_at: st + 1,
            updated_at: st + 1,
        };
        self.messages.push(um);
        self.messages.push(am.clone());
        self.clock = st + 2;
        proof {
            let oms = old(self).messages_seq();
            let nms = self.messages_seq();
            assert(nms =~= oms.push(um).push(am));
            assert forall|i: int, j: int| 0 <= i < j < nms.len() implies (#[trigger] nms[i].id
                < #[trigger] nms[j].id && nms[i].created_at <= nms[j].created_at) by {
                if j < oms.len() {
                    assert(nms[i] == oms[i] && nms[j] == oms[j]);
                    assert(oms[i].id < oms[j].id && oms[i].created_at <= oms[j].created_at);
                } else if i < oms.len() {
                    assert(nms[i] == oms[i]);
                    assert(oms[i].id < old(self).stamp() && oms[i].created_at <= oms[i].id);
                }
            };
            assert forall|i: int| 0 <= i < nms.len() implies (#[trigger] nms[i].id < self.clock
                && nms[i].created_at <= nms[i].id && nms[i].updated_at == nms[i].created_at) by {
                if i < oms.len() {
                    assert(nms[i] == oms[i]);
                    assert(oms[i].id < old(self).stamp() && oms[i].created_at <= oms[i].id
                        && oms[i].updated_at == oms[i].created_at);
                }
            };
            assert forall|i: int, j: int|
                0 <= i < j < self.sessions_seq().len() implies #[trigger] self.sessions_seq()[i].id
                < #[trigger] self.sessions_seq()[j].id by {
                assert(old(self).sessions_seq()[i].id < old(self).sessions_seq()[j].id);
            };
            assert forall|i: int|
                0 <= i < self.sessions_seq().len() implies (#[trigger] self.sessions_seq()[i].id
                < self.clock && self.sessions_seq()[i].created_at
                <= self.sessions_seq()[i].updated_at && self.sessions_seq()[i].updated_at
                < self.clock && self.sessions_seq()[i].created_at
                <= self.sessions_seq()[i].id) by {
                let os = old(self).sessions_seq()[i];
                assert(os.id < old(self).stamp() && os.created_at <= os.updated_at && os.updated_at
                    < old(self).stamp() && os.created_at <= os.id);
            };
            assert forall|i: int| 0 <= i < nms.len() implies has_session(
                self.sessions_seq(),
                #[trigger] nms[i].session_id,
            ) by {
                if i < oms.len() {
                    assert(has_session(self.sessions_seq(), oms[i].session_id));
                }
            };
        }
        Ok(am)
    }

    /// Sets a session's title, overwriting any previous one; the store does
    /// not ration titles, the orchestrator does. Returns the updated session.
    /// Fails only when the session is absent or the stamp source is
    /// exhausted, and then changes nothing.
    pub fn set_title(&mut self, id: u64, title: String) -> (r: Result<Session, AppError>)
        requires
            old(self).wf(),
        ensures
            final(self).wf(),
            r is Ok <==> (has_session(old(self).sessions_seq(), id) && old(self).stamp()
                < u64::MAX),
            r matches Ok(s) ==> ({
                &&& final(self).sessions_seq() == with_title(
                    old(self).sessions_seq(),
                    id,
                    title,
                    old(self).stamp(),
                )
                &&& find_session(old(self).sessions_seq(), id) matches Some(p) && s == retitled(
                    p,
                    title,
                    old(self).stamp(),
                )
                &&& final(self).messages_seq() == old(self).messages_seq()
                &&& final(self).stamp() == old(self).stamp() + 1
            }),
            r is Err ==> *final(self) == *old(self),
            r matches Err(e) ==> e is Internal,
    {
        proof {
            lemma_find_session(self.sessions_seq(), id);
        }
        if self.clock == u64::MAX {
            return Err(AppError::Internal(String::from_str("identifier source exhausted")));
        }
        let n = self.sessions.len();
        let mut k: usize = 0;
        while k < n
            invariant
                *self == *old(self),
                old(self).wf(),
                old(self).stamp() < u64::MAX,
                n == self.sessions_seq().len(),
                0 <= k <= n,
                forall|a: int| 0 <= a < k ==> #[trigger] self.sessions_seq()[a].id != id,
            decreases n - k,
        {
            if self.sessions[k].id == id {
                proof {
                    lemma_find_session_at(self.sessions_seq(), id, k as int);
                }
                let st = self.clock;
                let prev = &self.sessions[k];
                let ns = Session {
                    id: prev.id,
                    user_id: prev.user_id,
                    title: Some(title),
                    created_at: prev.created_at,
                    updated_at: st,
                };
                self.sessions.set(k, ns.clone());
                self.clock = st + 1;
                proof {
                    let oss = old(self).sessions_seq();
                    let nss = self.sessions_seq();
                    assert(nss =~= oss.update(k as int, ns));
                    assert forall|i: int| 0 <= i < nss.len() implies #[trigger] nss[i].id
                        == oss[i].id by {}
                    assert(nss =~= with_title(oss, id, title, st)) by {
                        assert forall|i: int|
                            0 <= i < nss.len() implies nss[i] == with_title(oss, id, title, st)[i]
                        by {
                            if i != k as int {
                                if i < k as int {
                                    assert(oss[i].id < oss[k as int].id);
                                } else {
                                    assert(oss[k as int].id < oss[i].id);
                                }
                            }
                        };
                    }
                    assert forall|i: int, j: int| 0 <= i < j < nss.len() implies #[trigger] nss[i].id
                        < #[trigger] nss[j].id by {
                        assert(nss[i].id == oss[i].id && nss[j].id == oss[j].id);
                    };
                    assert forall|i: int|
                        0 <= i < nss.len() implies (#[trigger] nss[i].id < self.clock
                        && nss[i].created_at <= nss[i].updated_at && nss[i].updated_at < self.clock
                        && nss[i].created_at <= nss[i].id) by {
                        if i != k as int {
                            assert(nss[i] == oss[i]);
                            assert(oss[i].id < st && oss[i].created_at <= oss[i].updated_at
                                && oss[i].updated_at < st && oss[i].created_at <= oss[i].id);
                        } else {
                            assert(nss[i] == ns);
                            assert(oss[i].id < st && oss[i].created_at <= oss[i].updated_at
                                && oss[i].updated_at < st && oss[i].created_at <= oss[i].id);
                        }
                    };
                    assert forall|i: int| 0 <= i < self.messages_seq().len() implies (
                    #[trigger] self.messages_seq()[i].id < self.clock) by {
                        assert(old(self).messages_seq()[i].id < old(self).stamp());
                    };
                    assert forall|i: int|
                        0 <= i < self.messages_seq().len() implies has_session(
                        nss,
                        #[trigger] self.messages_seq()[i].session_id,
                    ) by {
                        let mid = self.messages_seq()[i].session_id;
                        let w = choose|w: int| 0 <= w < oss.len() && #[trigger] oss[w].id == mid;
                        assert(nss[w].id == mid);
                    };
                }
                return Ok(ns);
            }
            k += 1;
        }
        proof {
            lemma_find_session(self.sessions_seq(), id);
        }
        Err(AppError::Internal(String::from_str("session row is absent")))
    }

    /// Deletes a session by id and, cascading, all of its messages. Returns
    /// the number of session rows removed: one when the id was present, zero
    /// otherwise.
    pub fn delete_session(&mut self, id: u64) -> (r: u64)
        requires
            old(self).wf(),
        ensures
            final(self).wf(),
            final(self).sessions_seq() == old(self).sessions_seq().filter(other_sessions(id)),
            final(self).messages_seq() == old(self).messages_seq().filter(outside_session(id)),
            final(self).stamp() == old(self).stamp(),
            r == 1 <==> has_session(old(self).sessions_seq(), id),
            r == 0 <==> !has_session(old(self).sessions_seq(), id),
    {
        let ghost oss = self.sessions_seq();
        let ghost oms = self.messages_seq();
        let mut kept_sessions: Vec<Session> = Vec::new();
        let n = self.sessions.len();
        let mut k: usize = 0;
        while k < n
            invariant
                *self == *old(self),
                old(self).wf(),
                n == self.sessions_seq().len(),
                0 <= k <= n,
                kept_sessions@ == self.sessions_seq().subrange(0, k as int).filter(
                    other_sessions(id),
                ),
            decreases n - k,
        {
            proof {
                lemma_filter_step(self.sessions_seq(), other_sessions(id), k as int);
            }
            let s = &self.sessions[k];
            if s.id != id {
                kept_sessions.push(s.clone());
            }
            k += 1;
        }
        proof {
            assert(self.sessions_seq().subrange(0, n as int) =~= self.sessions_seq());
        }
        let mut kept_messages: Vec<Message> = Vec::new();
        let m = self.messages.len();
        let mut j: usize = 0;
        while j < m
            invariant
                *self == *old(self),
                old(self).wf(),
                m == self.messages_seq().len(),
                0 <= j <= m,
                kept_sessions@ == self.sessions_seq().filter(other_sessions(id)),
                kept_messages@ == self.messages_seq().subrange(0, j as int).filter(
                    outside_session(id),
                ),
            decreases m - j,
        {
            proof {
                lemma_filter_step(self.messages_seq(), outside_session(id), j as int);
            }
            let w = &self.messages[j];
            if w.session_id != id {
                kept_messages.push(w.clone());
            }
            j += 1;
        }
        proof {
            assert(self.sessions_seq().subrange(0, n as int) =~= self.sessions_seq());
            assert(self.messages_seq().subrange(0, m as int) =~= self.messages_seq());
        }
        let removed: u64 = if kept_sessions.len() < n {
            1
        } else {
            0
        };
        self.sessions = kept_sessions;
        self.messages = kept_messages;
        proof {
            assert forall|i: int, j2: int| 0 <= i < j2 < oss.len() implies #[trigger] oss[i].id
                != #[trigger] oss[j2].id by {
                assert(oss[i].id < oss[j2].id);
            };
            lemma_delete_count(oss, id);
            lemma_filter_sessions_ok(oss, other_sessions(id), self.clock);
            lemma_filter_messages_ok(oms, outside_session(id), self.clock);
            broadcast use vstd::seq_lib::group_filter_ensures;

            let nss = self.sessions_seq();
            let nms = self.messages_seq();
            assert forall|i: int|
                0 <= i < nms.len() implies has_session(
                nss,
                #[trigger] nms[i].session_id,
            ) by {
                assert(oms.contains(nms[i]));
                let p = choose|p: int| 0 <= p < oms.len() && oms[p] == nms[i];
                assert(has_session(oss, oms[p].session_id));
                let w = choose|w: int| 0 <= w < oss.len() && #[trigger] oss[w].id
                    == oms[p].session_id;
                assert(outside_session(id)(nms[i]));
                assert(other_sessions(id)(oss[w]));
                assert(oss.filter(other_sessions(id)).contains(oss[w]));
                let q = choose|q: int| 0 <= q < nss.len() && nss[q] == oss[w];
                assert(nss[q].id == nms[i].session_id);
            };
        }
        removed
    }
}

} // verus!
